use vstd::prelude::*;

use crate::error::Error;

verus! {

/// A read cursor over a byte vector: the decoders' shared position, advanced
/// by each read and never past the end of the buffer.
pub struct Cursor {
    bytes: Vec<u8>,
    pos: usize,
}

impl View for Cursor {
    type V = Seq<u8>;

    closed spec fn view(&self) -> Seq<u8> {
        self.bytes@
    }
}

impl Cursor {
    /// The current read position.
    pub closed spec fn spec_pos(&self) -> nat {
        self.pos as nat
    }

    /// The position never runs past the end of the buffer.
    pub open spec fn wf(&self) -> bool {
        self.spec_pos() <= self@.len()
    }

    /// The bytes not yet consumed.
    pub open spec fn remaining(&self) -> Seq<u8> {
        self@.skip(self.spec_pos() as int)
    }

    pub fn new(bytes: Vec<u8>) -> (c: Cursor)
        ensures
            c@ == bytes@,
            c.spec_pos() == 0,
            c.wf(),
    {
        Cursor { bytes, pos: 0 }
    }

    /// The current read position.
    pub fn position(&self) -> (p: usize)
        ensures
            p == self.spec_pos(),
    {
        self.pos
    }

    /// How many bytes are left to read.
    pub fn remaining_len(&self) -> (n: usize)
        requires
            self.wf(),
        ensures
            n == self.remaining().len(),
    {
        self.bytes.len() - self.pos
    }
}

/// Reads the next `len` bytes from the cursor, advancing it by exactly `len`;
/// fails with `Truncated`, leaving the cursor unchanged, when fewer remain.
pub fn cursor_next_value(cursor: &mut Cursor, len: u64) -> (r: Result<Vec<u8>, Error>)
    requires
        old(cursor).wf(),
    ensures
        final(cursor).wf(),
        final(cursor)@ == old(cursor)@,
        len <= old(cursor).remaining().len() ==> {
            &&& r is Ok
            &&& r->Ok_0@ == old(cursor).remaining().take(len as int)
            &&& final(cursor).spec_pos() == old(cursor).spec_pos() + len
        },
        len > old(cursor).remaining().len() ==> {
            &&& r == Err::<Vec<u8>, Error>(Error::Truncated)
            &&& *final(cursor) == *old(cursor)
        },
{
    let avail = cursor.bytes.len() - cursor.pos;
    if len > avail as u64 {
        return Err(Error::Truncated);
    }
    let l = len as usize;
    let total = cursor.bytes.len();
    let mut buff: Vec<u8> = Vec::new();
    let mut i: usize = 0;
    while i < l
        invariant
            i <= l,
            l == len,
            cursor.wf(),
            cursor == old(cursor),
            total == cursor@.len(),
            cursor.spec_pos() + l <= total,
            buff@ == cursor.remaining().take(i as int),
        decreases l - i,
    {
        let b = cursor.bytes[cursor.pos + i];
        buff.push(b);
        proof {
            assert(buff@ =~= cursor.remaining().take(i + 1));
        }
        i = i + 1;
    }
    cursor.pos = cursor.pos + l;
    Ok(buff)
}

} // verus!
