//! Named runs of bytes, and entries whose documents are still in memory.

use crate::json::{Doc, Json};
use vstd::prelude::*;

verus! {

/// A named run of bytes: an entry of an archive, or a file of a pack.
#[derive(Debug, PartialEq, Eq)]
pub struct Entry {
    pub name: String,
    pub bytes: Vec<u8>,
}

impl View for Entry {
    type V = (Seq<char>, Seq<u8>);

    open spec fn view(&self) -> (Seq<char>, Seq<u8>) {
        (self.name@, self.bytes@)
    }
}

/// The names and contents of a sequence of entries.
pub open spec fn files(entries: Seq<Entry>) -> Seq<(Seq<char>, Seq<u8>)> {
    entries.map_values(|e: Entry| e@)
}

/// What an archive is to hold under a name: bytes as they are, or a
/// document that is still to be written out.
pub enum Content {
    Raw(Seq<u8>),
    Document(Doc),
}

/// `Content` in memory.
#[derive(Debug, PartialEq, Eq)]
pub enum Payload {
    Raw(Vec<u8>),
    Document(Json),
}

impl View for Payload {
    type V = Content;

    open spec fn view(&self) -> Content {
        match self {
            Payload::Raw(bytes) => Content::Raw(bytes@),
            Payload::Document(j) => Content::Document(j@),
        }
    }
}

/// An entry of an archive before its document is written out.
#[derive(Debug, PartialEq, Eq)]
pub struct Planned {
    pub name: String,
    pub payload: Payload,
}

impl View for Planned {
    type V = (Seq<char>, Content);

    open spec fn view(&self) -> (Seq<char>, Content) {
        (self.name@, self.payload@)
    }
}

/// The names and contents of a sequence of planned entries.
pub open spec fn plans(entries: Seq<Planned>) -> Seq<(Seq<char>, Content)> {
    entries.map_values(|e: Planned| e@)
}

/// A copy of a run of bytes.
pub fn copy_bytes(bytes: &Vec<u8>) -> (r: Vec<u8>)
    ensures
        r@ == bytes@,
{
    let out = bytes.clone();
    assert(out@ =~= bytes@);
    out
}

} // verus!
