use vstd::prelude::*;

use crate::misc::text::str_eq;

verus! {

pub type SocketId = usize;

#[derive(Debug, Clone, Copy, PartialEq, Eq, Structural)]
pub enum SocketSide {
    Read,
    Write,
    Both,
}

/// The error for a word that names no side: the valid ones are read (r), write (w), both.
#[derive(Debug, Clone, Copy, PartialEq, Eq, Structural)]
pub struct UnknownSide;

impl SocketSide {
    /// The side that a word names.
    pub open spec fn named(input: Seq<char>) -> Option<SocketSide> {
        if input == "r"@ || input == "read"@ {
            Some(SocketSide::Read)
        } else if input == "w"@ || input == "write"@ {
            Some(SocketSide::Write)
        } else if input == "both"@ {
            Some(SocketSide::Both)
        } else {
            None
        }
    }

    pub fn from_str(input: &str) -> (side: Result<SocketSide, UnknownSide>)
        ensures
            side == match Self::named(input@) {
                Some(side) => Ok::<SocketSide, UnknownSide>(side),
                None => Err(UnknownSide),
            },
    {
        if str_eq(input, "r") || str_eq(input, "read") {
            Ok(SocketSide::Read)
        } else if str_eq(input, "w") || str_eq(input, "write") {
            Ok(SocketSide::Write)
        } else if str_eq(input, "both") {
            Ok(SocketSide::Both)
        } else {
            Err(UnknownSide)
        }
    }
}

} // verus!
