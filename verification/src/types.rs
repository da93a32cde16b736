//! The data carried between the wire, the handlers and the store: users,
//! persisted rows, and the outcome of one request.

use vstd::prelude::*;

verus! {

/// A user as it travels in a request or response body. `id` is absent on
/// client-submitted creation payloads and present once the store has
/// assigned one. `name` and `email` hold the UTF-8 bytes of the text.
pub struct User {
    pub id: Option<i32>,
    pub name: Vec<u8>,
    pub email: Vec<u8>,
}

/// The mathematical view of a `User`.
pub struct UserV {
    pub id: Option<i32>,
    pub name: Seq<u8>,
    pub email: Seq<u8>,
}

impl View for User {
    type V = UserV;

    open spec fn view(&self) -> UserV {
        UserV { id: self.id, name: self.name@, email: self.email@ }
    }
}

/// A persisted user row: the store has assigned the id.
pub struct Row {
    pub id: i32,
    pub name: Vec<u8>,
    pub email: Vec<u8>,
}

/// The mathematical view of a `Row`.
pub struct RowV {
    pub id: i32,
    pub name: Seq<u8>,
    pub email: Seq<u8>,
}

impl View for Row {
    type V = RowV;

    open spec fn view(&self) -> RowV {
        RowV { id: self.id, name: self.name@, email: self.email@ }
    }
}

/// The three status lines a handler can pick.
#[derive(Clone, Copy, PartialEq, Eq, Structural, Debug)]
pub enum Status {
    Okay,
    NotFound,
    InternalError,
}

/// What is written back on the connection: a status line choice and a body.
pub struct Response {
    pub status: Status,
    pub body: Vec<u8>,
}

/// The mathematical view of a `Response`.
pub struct ResponseV {
    pub status: Status,
    pub body: Seq<u8>,
}

impl View for Response {
    type V = ResponseV;

    open spec fn view(&self) -> ResponseV {
        ResponseV { status: self.status, body: self.body@ }
    }
}

} // verus!
