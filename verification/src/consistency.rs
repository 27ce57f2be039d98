use vstd::prelude::*;

use crate::cursor::{cursor_next_value, Cursor};
use crate::error::Error;
use crate::wire::{be_bytes, be_value, pow256};
use crate::{FromCursor, IntoBytes};

verus! {

/// The named consistency level carried in each request as a 16-bit code.
#[derive(Clone, Copy, Debug, PartialEq, Eq, Structural)]
pub enum Consistency {
    Any,
    One,
    Two,
    Three,
    Quorum,
    All,
    LocalQuorum,
    EachQuorum,
    Serial,
    LocalSerial,
    LocalOne,
}

/// The 16-bit code of a consistency level.
pub open spec fn consistency_code(c: Consistency) -> nat {
    match c {
        Consistency::Any => 0,
        Consistency::One => 1,
        Consistency::Two => 2,
        Consistency::Three => 3,
        Consistency::Quorum => 4,
        Consistency::All => 5,
        Consistency::LocalQuorum => 6,
        Consistency::EachQuorum => 7,
        Consistency::Serial => 8,
        Consistency::LocalSerial => 9,
        Consistency::LocalOne => 10,
    }
}

/// The consistency level a code denotes, if any.
pub open spec fn spec_consistency_of(code: nat) -> Option<Consistency> {
    if code == 0 {
        Some(Consistency::Any)
    } else if code == 1 {
        Some(Consistency::One)
    } else if code == 2 {
        Some(Consistency::Two)
    } else if code == 3 {
        Some(Consistency::Three)
    } else if code == 4 {
        Some(Consistency::Quorum)
    } else if code == 5 {
        Some(Consistency::All)
    } else if code == 6 {
        Some(Consistency::LocalQuorum)
    } else if code == 7 {
        Some(Consistency::EachQuorum)
    } else if code == 8 {
        Some(Consistency::Serial)
    } else if code == 9 {
        Some(Consistency::LocalSerial)
    } else if code == 10 {
        Some(Consistency::LocalOne)
    } else {
        None
    }
}

/// Maps a 16-bit code to its consistency level; `None` outside the
/// enumerated range.
pub fn consistency_of(code: u16) -> (r: Option<Consistency>)
    ensures
        r == spec_consistency_of(code as nat),
{
    if code == 0 {
        Some(Consistency::Any)
    } else if code == 1 {
        Some(Consistency::One)
    } else if code == 2 {
        Some(Consistency::Two)
    } else if code == 3 {
        Some(Consistency::Three)
    } else if code == 4 {
        Some(Consistency::Quorum)
    } else if code == 5 {
        Some(Consistency::All)
    } else if code == 6 {
        Some(Consistency::LocalQuorum)
    } else if code == 7 {
        Some(Consistency::EachQuorum)
    } else if code == 8 {
        Some(Consistency::Serial)
    } else if code == 9 {
        Some(Consistency::LocalSerial)
    } else if code == 10 {
        Some(Consistency::LocalOne)
    } else {
        None
    }
}

impl View for Consistency {
    type V = Consistency;

    open spec fn view(&self) -> Consistency {
        *self
    }
}

/// What decoding a `[consistency]` off the front of `s` yields; a code
/// outside the enumerated range is a protocol violation.
pub open spec fn spec_consistency_from(s: Seq<u8>) -> Result<(Consistency, int), Error> {
    if s.len() < 2 {
        Err(Error::Truncated)
    } else {
        match spec_consistency_of(be_value(s.take(2))) {
            Some(c) => Ok((c, 2)),
            None => Err(Error::Protocol),
        }
    }
}

impl IntoBytes for Consistency {
    open spec fn wire(&self) -> Seq<u8> {
        be_bytes(consistency_code(*self), 2)
    }

    open spec fn encodable(&self) -> bool {
        true
    }

    /// Converts into the two-byte `[consistency]` code.
    fn into_cbytes(&self) -> (r: Vec<u8>) {
        let code: u64 = match self {
            Consistency::Any => 0,
            Consistency::One => 1,
            Consistency::Two => 2,
            Consistency::Three => 3,
            Consistency::Quorum => 4,
            Consistency::All => 5,
            Consistency::LocalQuorum => 6,
            Consistency::EachQuorum => 7,
            Consistency::Serial => 8,
            Consistency::LocalSerial => 9,
            Consistency::LocalOne => 10,
        };
        crate::wire::to_short(code)
    }
}

impl FromCursor for Consistency {
    open spec fn spec_from(s: Seq<u8>) -> Result<(Consistency, int), Error> {
        spec_consistency_from(s)
    }

    /// Reads the two-byte code and maps it to its level.
    fn from_cursor(cursor: &mut Cursor) -> (r: Result<Consistency, Error>) {
        let ghost s = old(cursor).remaining();
        let bytes = match cursor_next_value(cursor, 2) {
            Ok(v) => v,
            Err(e) => {
                return Err(e);
            },
        };
        proof {
            assert(bytes@ =~= s.take(2));
            assert(bytes@.take(2) =~= s.take(2));
            crate::wire::lemma_be_value_bound(s.take(2));
            assert(pow256(2) == 0x10000) by {
                reveal_with_fuel(pow256, 3);
            }
        }
        let code = crate::wire::from_u16_bytes(bytes);
        match consistency_of(code) {
            Some(c) => Ok(c),
            None => Err(Error::Protocol),
        }
    }
}

} // verus!
