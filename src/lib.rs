//! A small client-side library for a line-oriented text protocol: it decodes
//! a reply's status line and classifies the body's lines of lightweight markup.
pub mod error;
pub mod gemtext;
pub mod request;
pub mod scan;
pub mod status;
pub mod utf8;

pub use error::Error;
pub use gemtext::{Line, LineKind, Lines, Slice};
pub use request::Request;
pub use status::{Body, Response, Status};
