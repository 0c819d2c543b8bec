//! Items shared by the LIR and HIR trees.

use vstd::prelude::*;

verus! {

/// An inline emphasis kind, denoted by `**`, `__` and `~~` in source text.
#[derive(Debug, Copy, Clone, Eq, PartialEq, Structural)]
pub enum Emphasis {
    Bold,
    Italic,
    Strikethrough,
}

#[derive(Debug, Copy, Clone, Eq, PartialEq, Structural)]
pub enum HeaderType {
    H1,
    H2,
    H3,
    H4,
    H5,
    H6,
}

/// The header level denoted by a run of `value` number signs, if `value`
/// is in the supported range `1..=6`.
pub open spec fn spec_header_type_from(value: u32) -> Option<HeaderType> {
    match value {
        1u32 => Some(HeaderType::H1),
        2u32 => Some(HeaderType::H2),
        3u32 => Some(HeaderType::H3),
        4u32 => Some(HeaderType::H4),
        5u32 => Some(HeaderType::H5),
        6u32 => Some(HeaderType::H6),
        _ => None,
    }
}

impl HeaderType {
    pub fn try_from(value: u32) -> (r: Result<HeaderType, &'static str>)
        ensures
            match r {
                Ok(ht) => spec_header_type_from(value) == Some(ht),
                Err(_) => spec_header_type_from(value) is None,
            },
    {
        match value {
            1 => Ok(HeaderType::H1),
            2 => Ok(HeaderType::H2),
            3 => Ok(HeaderType::H3),
            4 => Ok(HeaderType::H4),
            5 => Ok(HeaderType::H5),
            6 => Ok(HeaderType::H6),
            _ => Err("invalid header"),
        }
    }
}

} // verus!
