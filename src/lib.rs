//! Byte ranges of named fields in recorded HTTP transcripts.
//!
//! A grammar's parse tree ([`ast::ParseNode`]) is turned into ranged headers and
//! ranged values ([`ast::CommonParser`]), whatever the grammar, through the
//! classification of its rules ([`ast::CommonRule`]). A parsed request or response
//! ([`request::Request`], [`response::Response`]) is then searched for dotted key
//! paths and header names ([`search::Searchable`]), yielding the exact byte ranges to
//! disclose, each entry's key included.

pub mod ast;
pub mod bytes;
pub mod laws;
pub mod price;
pub mod request;
pub mod response;
pub mod search;
pub mod service;
pub mod transcript;
