use vstd::prelude::*;

use vstd::string::{StrSliceExecFns, StringExecFns};
use vstd::utf8::{decode_utf8, encode_utf8, valid_utf8};

use crate::cursor::{cursor_next_value, Cursor};
use crate::error::Error;
use crate::wire::{be_bytes, be_value, be_value_signed, be_bytes_signed, from_bytes, pow256,
    to_short, to_int};
use crate::{FromBytes, FromCursor, IntoBytes};

verus! {

/// Width of a `[long string]` or `[int]` length prefix.
pub const LONG_STR_LEN: usize = 4;

/// Width of a `[short]` length prefix.
pub const SHORT_LEN: usize = 2;

/// Width of an `[int]`.
pub const INT_LEN: usize = 4;

/// Width of a `[uuid]`.
pub const UUID_LEN: usize = 16;

/// Cassandra int type.
pub type CInt = i32;

/// Cassandra short int type.
pub type CIntShort = i16;

/// Should be used to represent a single column as a Rust value.
pub trait AsRust<T: View>: View {
    /// What the conversion yields: the view of the value, or the error.
    spec fn spec_as_rust(&self) -> Result<T::V, Error>;

    /// Converts the column payload into the Rust value.
    fn as_rust(&self) -> (r: Result<T, Error>)
        ensures
            match self.spec_as_rust() {
                Ok(v) => r is Ok && r->Ok_0@ == v,
                Err(e) => r is Err && r->Err_0 == e,
            },
    ;
}

/// Should be used to return a single column as a Rust value by its name.
pub trait IntoRustByName<R: View> {
    /// What the lookup yields for a name: nothing, the value's view, or the
    /// error met while converting it.
    spec fn spec_get_by_name(&self, name: Seq<char>) -> Option<Result<R::V, Error>>;

    /// Looks the value up by its name.
    fn get_by_name(&self, name: &str) -> (r: Option<Result<R, Error>>)
        ensures
            match r {
                None => self.spec_get_by_name(name@) is None,
                Some(Ok(x)) => self.spec_get_by_name(name@) == Some(Ok::<R::V, Error>(x@)),
                Some(Err(e)) => self.spec_get_by_name(name@) == Some(Err::<R::V, Error>(e)),
            },
    ;
}

/// The wire image of a `[string]`: two-byte length, then the UTF-8 bytes.
pub open spec fn string_wire(s: Seq<char>) -> Seq<u8> {
    be_bytes(encode_utf8(s).len(), 2) + encode_utf8(s)
}

/// What decoding a `[string]` off the front of `s` yields.
pub open spec fn spec_string_from(s: Seq<u8>) -> Result<(Seq<char>, int), Error> {
    if s.len() < 2 {
        Err(Error::Truncated)
    } else {
        let l = be_value(s.take(2)) as int;
        if s.len() < 2 + l {
            Err(Error::Truncated)
        } else {
            let body = s.subrange(2, 2 + l);
            if valid_utf8(body) {
                Ok((decode_utf8(body), 2 + l))
            } else {
                Err(Error::InvalidUtf8)
            }
        }
    }
}

/// Relies on `String::from_utf8`: it returns `Ok` exactly on UTF-8 input,
/// and the string it builds holds the decoding of the bytes.
#[verifier::external_body]
pub(crate) fn string_from_utf8(bytes: Vec<u8>) -> (r: Option<String>)
    ensures
        match r {
            Some(s) => valid_utf8(bytes@) && s@ == decode_utf8(bytes@),
            None => !valid_utf8(bytes@),
        },
{
    String::from_utf8(bytes).ok()
}

/// The structure that represents a Cassandra `[string]`.
#[derive(Debug, Clone, PartialEq)]
pub struct CString {
    string: String,
}

impl View for CString {
    type V = Seq<char>;

    closed spec fn view(&self) -> Seq<char> {
        self.string@
    }
}

impl CString {
    pub fn new(string: String) -> (r: CString)
        ensures
            r@ == string@,
    {
        CString { string }
    }

    /// Converts the internal value into a pointer of `str`.
    pub fn as_str(&self) -> (r: &str)
        ensures
            r@ == self@,
    {
        self.string.as_str()
    }

    /// Converts the internal value into a plain `String`.
    pub fn into_plain(self) -> (r: String)
        ensures
            r@ == self@,
    {
        self.string
    }

    /// Represents the internal value as a `String`.
    pub fn as_plain(&self) -> (r: String)
        ensures
            r@ == self@,
    {
        self.string.clone()
    }

    /// Encodes the string, or reports `Overflow` when its UTF-8 image does
    /// not fit a two-byte length.
    pub fn try_into_cbytes(&self) -> (r: Result<Vec<u8>, Error>)
        ensures
            encode_utf8(self@).len() <= 0xFFFF ==> r is Ok && r->Ok_0@ == string_wire(self@),
            encode_utf8(self@).len() > 0xFFFF ==> r == Err::<Vec<u8>, Error>(Error::Overflow),
    {
        let body = self.string.as_str().as_bytes_vec();
        if body.len() > 0xFFFF {
            return Err(Error::Overflow);
        }
        Ok(self.into_cbytes())
    }
}

impl IntoBytes for CString {
    open spec fn wire(&self) -> Seq<u8> {
        string_wire(self@)
    }

    open spec fn encodable(&self) -> bool {
        encode_utf8(self@).len() <= 0xFFFF
    }

    /// Converts into the Cassandra byte representation of `[string]`.
    fn into_cbytes(&self) -> (r: Vec<u8>) {
        let body = self.string.as_str().as_bytes_vec();
        let mut r = to_short(body.len() as u64);
        r.extend_from_slice(body.as_slice());
        r
    }
}

impl FromCursor for CString {
    open spec fn spec_from(s: Seq<u8>) -> Result<(Seq<char>, int), Error> {
        spec_string_from(s)
    }

    /// Reads a two-byte length and then that many UTF-8 bytes.
    fn from_cursor(cursor: &mut Cursor) -> (r: Result<CString, Error>) {
        let ghost s = old(cursor).remaining();
        let len_bytes = match cursor_next_value(cursor, SHORT_LEN as u64) {
            Ok(v) => v,
            Err(e) => {
                return Err(e);
            },
        };
        let len = from_bytes(len_bytes);
        proof {
            assert(cursor.remaining() =~= s.skip(2));
        }
        let body = match cursor_next_value(cursor, len) {
            Ok(v) => v,
            Err(e) => {
                proof {
                    assert(s.len() < 2 + be_value(s.take(2)));
                }
                return Err(e);
            },
        };
        proof {
            assert(body@ =~= s.subrange(2, 2 + be_value(s.take(2)) as int));
        }
        match string_from_utf8(body) {
            Some(string) => Ok(CString { string }),
            None => Err(Error::InvalidUtf8),
        }
    }
}

/// The wire image of a `[long string]`: four-byte length, then UTF-8 bytes.
pub open spec fn long_string_wire(s: Seq<char>) -> Seq<u8> {
    be_bytes(encode_utf8(s).len(), 4) + encode_utf8(s)
}

/// What decoding a `[long string]` off the front of `s` yields; a negative
/// length is a protocol violation.
pub open spec fn spec_long_string_from(s: Seq<u8>) -> Result<(Seq<char>, int), Error> {
    if s.len() < 4 {
        Err(Error::Truncated)
    } else {
        let l = be_value_signed(s.take(4));
        if l < 0 {
            Err(Error::Protocol)
        } else if s.len() < 4 + l {
            Err(Error::Truncated)
        } else {
            let body = s.subrange(4, 4 + l);
            if valid_utf8(body) {
                Ok((decode_utf8(body), 4 + l))
            } else {
                Err(Error::InvalidUtf8)
            }
        }
    }
}

/// The structure that represents a Cassandra `[long string]`.
#[derive(Debug, Clone, PartialEq)]
pub struct CStringLong {
    string: String,
}

impl View for CStringLong {
    type V = Seq<char>;

    closed spec fn view(&self) -> Seq<char> {
        self.string@
    }
}

impl CStringLong {
    pub fn new(string: String) -> (r: CStringLong)
        ensures
            r@ == string@,
    {
        CStringLong { string }
    }

    /// Converts the internal value into a pointer of `str`.
    pub fn as_str(&self) -> (r: &str)
        ensures
            r@ == self@,
    {
        self.string.as_str()
    }

    /// Converts the internal value into a plain `String`.
    pub fn into_plain(self) -> (r: String)
        ensures
            r@ == self@,
    {
        self.string
    }
}

impl IntoBytes for CStringLong {
    open spec fn wire(&self) -> Seq<u8> {
        long_string_wire(self@)
    }

    open spec fn encodable(&self) -> bool {
        encode_utf8(self@).len() <= 0x7FFFFFFF
    }

    /// Converts into the Cassandra byte representation of `[long string]`.
    fn into_cbytes(&self) -> (r: Vec<u8>) {
        let body = self.string.as_str().as_bytes_vec();
        proof {
            assert(pow256(4) == 0x100000000) by {
                reveal_with_fuel(pow256, 5);
            }
            assert(be_bytes_signed(body@.len() as int, 4) == be_bytes(body@.len() as nat, 4));
        }
        let mut r = to_int(body.len() as i64);
        r.extend_from_slice(body.as_slice());
        r
    }
}

impl FromCursor for CStringLong {
    open spec fn spec_from(s: Seq<u8>) -> Result<(Seq<char>, int), Error> {
        spec_long_string_from(s)
    }

    /// Reads a four-byte length and then that many UTF-8 bytes.
    fn from_cursor(cursor: &mut Cursor) -> (r: Result<CStringLong, Error>) {
        let ghost s = old(cursor).remaining();
        let len_bytes = match cursor_next_value(cursor, LONG_STR_LEN as u64) {
            Ok(v) => v,
            Err(e) => {
                return Err(e);
            },
        };
        let len = match crate::wire::try_i32_from_bytes(len_bytes) {
            Ok(v) => v,
            Err(_) => {
                proof {
                    assert(false);
                }
                return Err(Error::Truncated);
            },
        };
        proof {
            assert(len_bytes@.take(4) =~= s.take(4));
            assert(cursor.remaining() =~= s.skip(4));
        }
        if len < 0 {
            return Err(Error::Protocol);
        }
        let body = match cursor_next_value(cursor, len as u64) {
            Ok(v) => v,
            Err(e) => {
                return Err(e);
            },
        };
        proof {
            assert(body@ =~= s.subrange(4, 4 + be_value_signed(s.take(4))));
        }
        match string_from_utf8(body) {
            Some(string) => Ok(CStringLong { string }),
            None => Err(Error::InvalidUtf8),
        }
    }
}

/// The three states a `[bytes]` value can denote: present bytes, the null
/// marker (length −1), and the not-set marker (length −2, `[value]` only).
pub enum CBytesVal {
    Bytes(Seq<u8>),
    Null,
    NotSet,
}

/// The structure that represents the Cassandra byte type, carrying its
/// present / null / not-set distinction.
#[derive(Debug, Clone, PartialEq)]
pub enum CBytes {
    Present(Vec<u8>),
    Null,
    NotSet,
}

impl View for CBytes {
    type V = CBytesVal;

    open spec fn view(&self) -> CBytesVal {
        match self {
            CBytes::Present(b) => CBytesVal::Bytes(b@),
            CBytes::Null => CBytesVal::Null,
            CBytes::NotSet => CBytesVal::NotSet,
        }
    }
}

/// The wire image of a `[bytes]` or `[value]`: four-byte signed length, then
/// the body; null is length −1 and not-set length −2, each with no body.
pub open spec fn bytes_wire(v: CBytesVal) -> Seq<u8> {
    match v {
        CBytesVal::Bytes(b) => be_bytes_signed(b.len() as int, 4) + b,
        CBytesVal::Null => be_bytes_signed(-1, 4),
        CBytesVal::NotSet => be_bytes_signed(-2, 4),
    }
}

/// What decoding a `[bytes]` off the front of `s` yields; the not-set
/// length −2 is illegal here.
pub open spec fn spec_bytes_from(s: Seq<u8>) -> Result<(CBytesVal, int), Error> {
    if s.len() < 4 {
        Err(Error::Truncated)
    } else {
        let l = be_value_signed(s.take(4));
        if l == -1 {
            Ok((CBytesVal::Null, 4))
        } else if l < 0 {
            Err(Error::Protocol)
        } else if s.len() < 4 + l {
            Err(Error::Truncated)
        } else {
            Ok((CBytesVal::Bytes(s.subrange(4, 4 + l)), 4 + l))
        }
    }
}

/// What decoding a `[value]` off the front of `s` yields; here −2 denotes
/// the not-set state.
pub open spec fn spec_value_from(s: Seq<u8>) -> Result<(CBytesVal, int), Error> {
    if s.len() < 4 {
        Err(Error::Truncated)
    } else {
        let l = be_value_signed(s.take(4));
        if l == -1 {
            Ok((CBytesVal::Null, 4))
        } else if l == -2 {
            Ok((CBytesVal::NotSet, 4))
        } else if l < 0 {
            Err(Error::Protocol)
        } else if s.len() < 4 + l {
            Err(Error::Truncated)
        } else {
            Ok((CBytesVal::Bytes(s.subrange(4, 4 + l)), 4 + l))
        }
    }
}

impl CBytes {
    pub fn new(bytes: Vec<u8>) -> (r: CBytes)
        ensures
            r@ == CBytesVal::Bytes(bytes@),
    {
        CBytes::Present(bytes)
    }

    /// The null `[bytes]` value (wire length −1).
    pub fn new_null() -> (r: CBytes)
        ensures
            r@ == CBytesVal::Null,
    {
        CBytes::Null
    }

    /// The not-set `[value]` state (wire length −2).
    pub fn new_not_set() -> (r: CBytes)
        ensures
            r@ == CBytesVal::NotSet,
    {
        CBytes::NotSet
    }

    /// Converts `CBytes` into a plain array of bytes; the null and not-set
    /// states carry none.
    pub fn into_plain(self) -> (r: Vec<u8>)
        ensures
            match self@ {
                CBytesVal::Bytes(b) => r@ == b,
                _ => r@ == Seq::<u8>::empty(),
            },
    {
        match self {
            CBytes::Present(b) => b,
            _ => Vec::new(),
        }
    }

    /// Represents the carried bytes as a plain vector.
    pub fn as_plain(&self) -> (r: Vec<u8>)
        ensures
            match self@ {
                CBytesVal::Bytes(b) => r@ == b,
                _ => r@ == Seq::<u8>::empty(),
            },
    {
        match self {
            CBytes::Present(b) => copy_bytes(b),
            _ => Vec::new(),
        }
    }

    /// Encodes in a `[value]` position, where the not-set marker is legal.
    pub fn into_value_bytes(&self) -> (r: Vec<u8>)
        requires
            self@ is Bytes ==> self@->Bytes_0.len() <= 0x7FFFFFFF,
        ensures
            r@ == bytes_wire(self@),
    {
        encode_cbytes(self)
    }

    /// Reads a `[value]`: length −1 is null and −2 is not-set.
    pub fn value_from_cursor(cursor: &mut Cursor) -> (r: Result<CBytes, Error>)
        requires
            old(cursor).wf(),
        ensures
            final(cursor).wf(),
            final(cursor)@ == old(cursor)@,
            match spec_value_from(old(cursor).remaining()) {
                Ok(p) => r is Ok && r->Ok_0@ == p.0 && final(cursor).spec_pos() == old(
                    cursor,
                ).spec_pos() + p.1,
                Err(e) => r is Err && r->Err_0 == e,
            },
    {
        let ghost s = old(cursor).remaining();
        let len = match read_bytes_len(cursor) {
            Ok(v) => v,
            Err(e) => {
                return Err(e);
            },
        };
        if len == -1 {
            Ok(CBytes::Null)
        } else if len == -2 {
            Ok(CBytes::NotSet)
        } else if len < 0 {
            Err(Error::Protocol)
        } else {
            match read_bytes_body(cursor, len, Ghost(s)) {
                Ok(b) => Ok(CBytes::Present(b)),
                Err(e) => Err(e),
            }
        }
    }
}

/// Copies a byte vector element by element.
fn copy_bytes(b: &Vec<u8>) -> (r: Vec<u8>)
    ensures
        r@ == b@,
{
    let mut r: Vec<u8> = Vec::new();
    let mut i: usize = 0;
    while i < b.len()
        invariant
            i <= b@.len(),
            r@ == b@.take(i as int),
        decreases b@.len() - i,
    {
        r.push(b[i]);
        proof {
            assert(r@ =~= b@.take(i + 1));
        }
        i = i + 1;
    }
    proof {
        assert(r@ =~= b@);
    }
    r
}

/// Shared body of the `[bytes]` and `[value]` encoders.
fn encode_cbytes(v: &CBytes) -> (r: Vec<u8>)
    requires
        v@ is Bytes ==> v@->Bytes_0.len() <= 0x7FFFFFFF,
    ensures
        r@ == bytes_wire(v@),
{
    proof {
        assert(pow256(4) == 0x100000000) by {
            reveal_with_fuel(pow256, 5);
        }
    }
    match v {
        CBytes::Present(b) => {
            let mut r = to_int(b.len() as i64);
            r.extend_from_slice(b.as_slice());
            r
        },
        CBytes::Null => to_int(-1),
        CBytes::NotSet => to_int(-2),
    }
}

/// Reads the four-byte signed length that opens a `[bytes]` or `[value]`.
fn read_bytes_len(cursor: &mut Cursor) -> (r: Result<i32, Error>)
    requires
        old(cursor).wf(),
    ensures
        final(cursor).wf(),
        final(cursor)@ == old(cursor)@,
        old(cursor).remaining().len() >= 4 ==> {
            &&& r is Ok
            &&& r->Ok_0 == be_value_signed(old(cursor).remaining().take(4))
            &&& final(cursor).spec_pos() == old(cursor).spec_pos() + 4
            &&& final(cursor).remaining() == old(cursor).remaining().skip(4)
        },
        old(cursor).remaining().len() < 4 ==> r == Err::<i32, Error>(Error::Truncated)
            && *final(cursor) == *old(cursor),
{
    let ghost s = old(cursor).remaining();
    let len_bytes = match cursor_next_value(cursor, INT_LEN as u64) {
        Ok(v) => v,
        Err(e) => {
            return Err(e);
        },
    };
    let len = match crate::wire::try_i32_from_bytes(len_bytes) {
        Ok(v) => v,
        Err(_) => {
            proof {
                assert(false);
            }
            return Err(Error::Truncated);
        },
    };
    proof {
        assert(len_bytes@.take(4) =~= s.take(4));
        assert(cursor.remaining() =~= s.skip(4));
    }
    Ok(len)
}

/// Reads the body of a `[bytes]` whose non-negative length was just read.
fn read_bytes_body(cursor: &mut Cursor, len: i32, Ghost(s): Ghost<Seq<u8>>) -> (r: Result<
    Vec<u8>,
    Error,
>)
    requires
        old(cursor).wf(),
        len >= 0,
        s.len() >= 4,
        old(cursor).remaining() == s.skip(4),
        len == be_value_signed(s.take(4)),
        old(cursor).spec_pos() >= 4,
    ensures
        final(cursor).wf(),
        final(cursor)@ == old(cursor)@,
        s.len() >= 4 + len ==> {
            &&& r is Ok
            &&& r->Ok_0@ == s.subrange(4, 4 + len as int)
            &&& final(cursor).spec_pos() == old(cursor).spec_pos() + len
        },
        s.len() < 4 + len ==> r is Err && r->Err_0 == Error::Truncated,
{
    let body = match cursor_next_value(cursor, len as u64) {
        Ok(v) => v,
        Err(e) => {
            return Err(e);
        },
    };
    proof {
        assert(body@ =~= s.subrange(4, 4 + len as int));
    }
    Ok(body)
}

impl IntoBytes for CBytes {
    open spec fn wire(&self) -> Seq<u8> {
        bytes_wire(self@)
    }

    open spec fn encodable(&self) -> bool {
        match self@ {
            CBytesVal::Bytes(b) => b.len() <= 0x7FFFFFFF,
            CBytesVal::Null => true,
            CBytesVal::NotSet => false,
        }
    }

    /// Converts into the Cassandra byte representation of `[bytes]`; the
    /// not-set marker is refused here by the encodability condition.
    fn into_cbytes(&self) -> (r: Vec<u8>) {
        encode_cbytes(self)
    }
}

impl FromCursor for CBytes {
    open spec fn spec_from(s: Seq<u8>) -> Result<(CBytesVal, int), Error> {
        spec_bytes_from(s)
    }

    /// Reads a `[bytes]`: a four-byte signed length, then that many bytes;
    /// length −1 denotes null.
    fn from_cursor(cursor: &mut Cursor) -> (r: Result<CBytes, Error>) {
        let ghost s = old(cursor).remaining();
        let len = match read_bytes_len(cursor) {
            Ok(v) => v,
            Err(e) => {
                return Err(e);
            },
        };
        if len == -1 {
            Ok(CBytes::Null)
        } else if len < 0 {
            Err(Error::Protocol)
        } else {
            match read_bytes_body(cursor, len, Ghost(s)) {
                Ok(b) => Ok(CBytes::Present(b)),
                Err(e) => Err(e),
            }
        }
    }
}

/// The structure that represents Cassandra `[short bytes]`, which has no
/// null form.
#[derive(Debug, Clone, PartialEq)]
pub struct CBytesShort {
    bytes: Vec<u8>,
}

/// The wire image of `[short bytes]`: two-byte length, then the body.
pub open spec fn short_bytes_wire(b: Seq<u8>) -> Seq<u8> {
    be_bytes(b.len(), 2) + b
}

/// What decoding a `[short bytes]` off the front of `s` yields.
pub open spec fn spec_short_bytes_from(s: Seq<u8>) -> Result<(Seq<u8>, int), Error> {
    if s.len() < 2 {
        Err(Error::Truncated)
    } else {
        let l = be_value(s.take(2)) as int;
        if s.len() < 2 + l {
            Err(Error::Truncated)
        } else {
            Ok((s.subrange(2, 2 + l), 2 + l))
        }
    }
}

impl View for CBytesShort {
    type V = Seq<u8>;

    closed spec fn view(&self) -> Seq<u8> {
        self.bytes@
    }
}

impl CBytesShort {
    pub fn new(bytes: Vec<u8>) -> (r: CBytesShort)
        ensures
            r@ == bytes@,
    {
        CBytesShort { bytes }
    }

    /// Converts `CBytesShort` into a plain vector of bytes.
    pub fn into_plain(self) -> (r: Vec<u8>)
        ensures
            r@ == self@,
    {
        self.bytes
    }
}

impl IntoBytes for CBytesShort {
    open spec fn wire(&self) -> Seq<u8> {
        short_bytes_wire(self@)
    }

    open spec fn encodable(&self) -> bool {
        self@.len() <= 0xFFFF
    }

    /// Converts into the Cassandra byte representation of `[short bytes]`.
    fn into_cbytes(&self) -> (r: Vec<u8>) {
        let mut r = to_short(self.bytes.len() as u64);
        r.extend_from_slice(self.bytes.as_slice());
        r
    }
}

impl FromCursor for CBytesShort {
    open spec fn spec_from(s: Seq<u8>) -> Result<(Seq<u8>, int), Error> {
        spec_short_bytes_from(s)
    }

    /// Reads a two-byte length and then that many bytes.
    fn from_cursor(cursor: &mut Cursor) -> (r: Result<CBytesShort, Error>) {
        let ghost s = old(cursor).remaining();
        let len_bytes = match cursor_next_value(cursor, SHORT_LEN as u64) {
            Ok(v) => v,
            Err(e) => {
                return Err(e);
            },
        };
        let len = from_bytes(len_bytes);
        proof {
            assert(cursor.remaining() =~= s.skip(2));
        }
        let body = match cursor_next_value(cursor, len) {
            Ok(v) => v,
            Err(e) => {
                proof {
                    assert(s.len() < 2 + be_value(s.take(2)) as int);
                }
                return Err(e);
            },
        };
        proof {
            assert(body@ =~= s.subrange(2, 2 + be_value(s.take(2)) as int));
        }
        Ok(CBytesShort { bytes: body })
    }
}

/// The concatenated wire images of a run of `[string]`s.
pub open spec fn strings_wire(l: Seq<Seq<char>>) -> Seq<u8>
    decreases l.len(),
{
    if l.len() == 0 {
        Seq::empty()
    } else {
        string_wire(l.first()) + strings_wire(l.drop_first())
    }
}

/// The wire image of a `[string list]`: two-byte count, then the strings.
pub open spec fn string_list_wire(l: Seq<Seq<char>>) -> Seq<u8> {
    be_bytes(l.len(), 2) + strings_wire(l)
}

/// Whether every string of the list fits its length prefix.
pub open spec fn string_list_encodable(l: Seq<Seq<char>>) -> bool {
    l.len() <= 0xFFFF && forall|i: int|
        0 <= i < l.len() ==> encode_utf8(#[trigger] l[i]).len() <= 0xFFFF
}

pub proof fn lemma_strings_wire_push(l: Seq<Seq<char>>, x: Seq<char>)
    ensures
        strings_wire(l.push(x)) == strings_wire(l) + string_wire(x),
    decreases l.len(),
{
    if l.len() == 0 {
        assert(l.push(x).drop_first() =~= Seq::<Seq<char>>::empty());
        assert(string_wire(x) + strings_wire(Seq::<Seq<char>>::empty()) =~= strings_wire(l)
            + string_wire(x));
    } else {
        assert(l.push(x).drop_first() =~= l.drop_first().push(x));
        lemma_strings_wire_push(l.drop_first(), x);
        assert(string_wire(l.first()) + (strings_wire(l.drop_first()) + string_wire(x)) =~= (
        string_wire(l.first()) + strings_wire(l.drop_first())) + string_wire(x));
    }
}

/// What decoding `n` consecutive `[string]`s off the front of `s` yields.
pub open spec fn spec_strings_from(s: Seq<u8>, n: nat) -> Result<(Seq<Seq<char>>, int), Error>
    decreases n,
{
    if n == 0 {
        Ok((Seq::empty(), 0))
    } else {
        match spec_string_from(s) {
            Err(e) => Err(e),
            Ok((v, k)) => match spec_strings_from(s.skip(k), (n - 1) as nat) {
                Err(e) => Err(e),
                Ok((vs, m)) => Ok((seq![v] + vs, k + m)),
            },
        }
    }
}

/// What decoding a `[string list]` off the front of `s` yields.
pub open spec fn spec_string_list_from(s: Seq<u8>) -> Result<(Seq<Seq<char>>, int), Error> {
    if s.len() < 2 {
        Err(Error::Truncated)
    } else {
        match spec_strings_from(s.skip(2), be_value(s.take(2))) {
            Ok(p) => Ok((p.0, 2 + p.1)),
            Err(e) => Err(e),
        }
    }
}

/// The structure that represents a Cassandra `[string list]`.
#[derive(Debug, Clone, PartialEq)]
pub struct CStringList {
    pub list: Vec<CString>,
}

impl View for CStringList {
    type V = Seq<Seq<char>>;

    open spec fn view(&self) -> Seq<Seq<char>> {
        self.list@.map_values(|c: CString| c@)
    }
}

impl CStringList {
    /// Converts the list into plain `String`s.
    pub fn into_plain(self) -> (r: Vec<String>)
        ensures
            r@.len() == self@.len(),
            forall|i: int| 0 <= i < r@.len() ==> (#[trigger] r@[i])@ == self@[i],
    {
        let mut r: Vec<String> = Vec::new();
        let mut i: usize = 0;
        while i < self.list.len()
            invariant
                i <= self.list@.len(),
                self@.len() == self.list@.len(),
                r@.len() == i,
                forall|j: int| 0 <= j < i ==> (#[trigger] r@[j])@ == self@[j],
            decreases self.list@.len() - i,
        {
            let st = self.list[i].as_plain();
            proof {
                assert(self@[i as int] == self.list@[i as int]@);
            }
            r.push(st);
            i = i + 1;
        }
        r
    }
}

impl IntoBytes for CStringList {
    open spec fn wire(&self) -> Seq<u8> {
        string_list_wire(self@)
    }

    open spec fn encodable(&self) -> bool {
        string_list_encodable(self@)
    }

    /// Converts into the Cassandra byte representation of `[string list]`.
    fn into_cbytes(&self) -> (r: Vec<u8>) {
        let mut r = to_short(self.list.len() as u64);
        let mut i: usize = 0;
        while i < self.list.len()
            invariant
                i <= self.list@.len(),
                string_list_encodable(self@),
                self@.len() == self.list@.len(),
                r@ == be_bytes(self@.len(), 2) + strings_wire(self@.take(i as int)),
            decreases self.list@.len() - i,
        {
            proof {
                assert(self@[i as int] == self.list@[i as int]@);
                assert(encode_utf8(self@[i as int]).len() <= 0xFFFF);
            }
            let sb = self.list[i].into_cbytes();
            r.extend_from_slice(sb.as_slice());
            proof {
                lemma_strings_wire_push(self@.take(i as int), self@[i as int]);
                assert(self@.take(i + 1) =~= self@.take(i as int).push(self@[i as int]));
                assert((be_bytes(self@.len(), 2) + strings_wire(self@.take(i as int))) + string_wire(
                    self@[i as int],
                ) =~= be_bytes(self@.len(), 2) + (strings_wire(self@.take(i as int)) + string_wire(
                    self@[i as int],
                )));
            }
            i = i + 1;
        }
        proof {
            assert(self@.take(self.list@.len() as int) =~= self@);
        }
        r
    }
}

impl FromCursor for CStringList {
    open spec fn spec_from(s: Seq<u8>) -> Result<(Seq<Seq<char>>, int), Error> {
        spec_string_list_from(s)
    }

    /// Reads a two-byte count and then that many `[string]`s.
    fn from_cursor(cursor: &mut Cursor) -> (r: Result<CStringList, Error>) {
        let ghost s = old(cursor).remaining();
        let len_bytes = match cursor_next_value(cursor, SHORT_LEN as u64) {
            Ok(v) => v,
            Err(e) => {
                return Err(e);
            },
        };
        let n = from_bytes(len_bytes);
        proof {
            assert(cursor.remaining() =~= s.skip(2));
            crate::wire::lemma_be_value_bound(s.take(2));
        }
        let ghost base = cursor.spec_pos();
        let mut list: Vec<CString> = Vec::new();
        let mut i: u64 = 0;
        while i < n
            invariant
                i <= n,
                s == old(cursor).remaining(),
                s.len() >= 2,
                n == be_value(s.take(2)),
                cursor.wf(),
                cursor@ == old(cursor)@,
                base == old(cursor).spec_pos() + 2,
                cursor.spec_pos() >= base,
                list@.len() == i,
                match spec_strings_from(cursor.remaining(), (n - i) as nat) {
                    Ok(p) => spec_strings_from(s.skip(2), n as nat) == Ok::<
                        (Seq<Seq<char>>, int),
                        Error,
                    >(
                        (
                            list@.map_values(|c: CString| c@) + p.0,
                            (cursor.spec_pos() - base) + p.1,
                        ),
                    ),
                    Err(e) => spec_strings_from(s.skip(2), n as nat) == Err::<
                        (Seq<Seq<char>>, int),
                        Error,
                    >(e),
                },
            decreases n - i,
        {
            let ghost rem = cursor.remaining();
            let v = match CString::from_cursor(cursor) {
                Ok(v) => v,
                Err(e) => {
                    proof {
                        assert(spec_strings_from(rem, (n - i) as nat) == Err::<
                            (Seq<Seq<char>>, int),
                            Error,
                        >(e));
                    }
                    return Err(e);
                },
            };
            proof {
                let k = spec_string_from(rem)->Ok_0.1;
                assert(cursor.remaining() =~= rem.skip(k));
                let f = |c: CString| c@;
                assert((list@.push(v)).map_values(f) =~= list@.map_values(f).push(v@));
                if spec_strings_from(rem.skip(k), (n - i - 1) as nat) is Ok {
                    let p = spec_strings_from(rem.skip(k), (n - i - 1) as nat)->Ok_0;
                    assert(list@.map_values(f) + (seq![v@] + p.0) =~= list@.map_values(f).push(v@)
                        + p.0);
                }
            }
            list.push(v);
            i = i + 1;
        }
        proof {
            let f = |c: CString| c@;
            assert(list@.map_values(f) + Seq::<Seq<char>>::empty() =~= list@.map_values(f));
            assert((CStringList { list }).view() == list@.map_values(f));
        }
        Ok(CStringList { list })
    }
}

/// The structure that represents a Cassandra `[inet]`: the raw address
/// bytes — four for IPv4, sixteen for IPv6 — and the port.
#[derive(Debug, Clone, PartialEq)]
pub struct CInet {
    pub addr: Vec<u8>,
    pub port: i32,
}

impl View for CInet {
    type V = (Seq<u8>, int);

    open spec fn view(&self) -> (Seq<u8>, int) {
        (self.addr@, self.port as int)
    }
}

/// An inet address is four or sixteen bytes long.
pub open spec fn inet_wf(v: (Seq<u8>, int)) -> bool {
    v.0.len() == 4 || v.0.len() == 16
}

/// The wire image of an `[inet]`: one byte of address size, the address,
/// then the four-byte port.
pub open spec fn inet_wire(v: (Seq<u8>, int)) -> Seq<u8> {
    seq![v.0.len() as u8] + v.0 + be_bytes_signed(v.1, 4)
}

/// What decoding an `[inet]` off the front of `s` yields; an address size
/// other than 4 or 16 is `InvalidInet`.
pub open spec fn spec_inet_from(s: Seq<u8>) -> Result<((Seq<u8>, int), int), Error> {
    if s.len() < 1 {
        Err(Error::Truncated)
    } else {
        let n = s[0] as int;
        if n != 4 && n != 16 {
            Err(Error::InvalidInet)
        } else if s.len() < 1 + n {
            Err(Error::Truncated)
        } else if s.len() < 5 + n {
            Err(Error::Truncated)
        } else {
            Ok(((s.subrange(1, 1 + n), be_value_signed(s.subrange(1 + n, 5 + n))), 5 + n))
        }
    }
}

impl IntoBytes for CInet {
    open spec fn wire(&self) -> Seq<u8> {
        inet_wire(self@)
    }

    open spec fn encodable(&self) -> bool {
        inet_wf(self@)
    }

    /// Converts into the Cassandra byte representation of `[inet]`.
    fn into_cbytes(&self) -> (r: Vec<u8>) {
        proof {
            assert(pow256(4) == 0x100000000) by {
                reveal_with_fuel(pow256, 5);
            }
        }
        let mut r: Vec<u8> = Vec::new();
        r.push(self.addr.len() as u8);
        r.extend_from_slice(self.addr.as_slice());
        let pb = to_int(self.port as i64);
        r.extend_from_slice(pb.as_slice());
        proof {
            assert(r@ =~= inet_wire(self@));
        }
        r
    }
}

impl FromCursor for CInet {
    open spec fn spec_from(s: Seq<u8>) -> Result<((Seq<u8>, int), int), Error> {
        spec_inet_from(s)
    }

    /// Reads the one-byte address size, the address, then the port.
    fn from_cursor(cursor: &mut Cursor) -> (r: Result<CInet, Error>) {
        let ghost s = old(cursor).remaining();
        let size_bytes = match cursor_next_value(cursor, 1) {
            Ok(v) => v,
            Err(e) => {
                return Err(e);
            },
        };
        let nb = size_bytes[0];
        proof {
            assert(size_bytes@[0] == s[0]);
            assert(cursor.remaining() =~= s.skip(1));
        }
        if nb != 4 && nb != 16 {
            return Err(Error::InvalidInet);
        }
        let addr = match cursor_next_value(cursor, nb as u64) {
            Ok(v) => v,
            Err(e) => {
                return Err(e);
            },
        };
        proof {
            assert(addr@ =~= s.subrange(1, 1 + nb as int));
            assert(cursor.remaining() =~= s.skip(1 + nb as int));
        }
        let port_bytes = match cursor_next_value(cursor, INT_LEN as u64) {
            Ok(v) => v,
            Err(e) => {
                return Err(e);
            },
        };
        proof {
            assert(port_bytes@.take(4) =~= s.subrange(1 + nb as int, 5 + nb as int));
        }
        let port = match crate::wire::try_i32_from_bytes(port_bytes) {
            Ok(v) => v,
            Err(_) => {
                proof {
                    assert(false);
                }
                return Err(Error::Truncated);
            },
        };
        Ok(CInet { addr, port })
    }
}

/// What decoding an `[int]` off the front of `s` yields.
pub open spec fn spec_int_from(s: Seq<u8>) -> Result<(i32, int), Error> {
    if s.len() < 4 {
        Err(Error::Truncated)
    } else {
        Ok((be_value_signed(s.take(4)) as i32, 4))
    }
}

/// What decoding a `[short]` off the front of `s` yields.
pub open spec fn spec_short_from(s: Seq<u8>) -> Result<(i16, int), Error> {
    if s.len() < 2 {
        Err(Error::Truncated)
    } else {
        Ok((be_value_signed(s.take(2)) as i16, 2))
    }
}

impl FromCursor for CInt {
    open spec fn spec_from(s: Seq<u8>) -> Result<(i32, int), Error> {
        spec_int_from(s)
    }

    /// Reads a four-byte signed big-endian `[int]`.
    fn from_cursor(cursor: &mut Cursor) -> (r: Result<i32, Error>) {
        let ghost s = old(cursor).remaining();
        let bytes = match cursor_next_value(cursor, INT_LEN as u64) {
            Ok(v) => v,
            Err(e) => {
                return Err(e);
            },
        };
        proof {
            assert(bytes@.take(4) =~= s.take(4));
            assert(pow256(4) == 0x100000000) by {
                reveal_with_fuel(pow256, 5);
            }
            crate::wire::lemma_be_value_bound(s.take(4));
        }
        match crate::wire::try_i32_from_bytes(bytes) {
            Ok(v) => Ok(v),
            Err(_) => {
                proof {
                    assert(false);
                }
                Err(Error::Truncated)
            },
        }
    }
}

impl FromCursor for CIntShort {
    open spec fn spec_from(s: Seq<u8>) -> Result<(i16, int), Error> {
        spec_short_from(s)
    }

    /// Reads a two-byte signed big-endian `[short]`.
    fn from_cursor(cursor: &mut Cursor) -> (r: Result<i16, Error>) {
        let ghost s = old(cursor).remaining();
        let bytes = match cursor_next_value(cursor, SHORT_LEN as u64) {
            Ok(v) => v,
            Err(e) => {
                return Err(e);
            },
        };
        proof {
            assert(bytes@ =~= s.take(2));
            assert(bytes@.take(2) =~= s.take(2));
            assert(pow256(2) == 0x10000) by {
                reveal_with_fuel(pow256, 3);
            }
            crate::wire::lemma_be_value_bound(s.take(2));
        }
        let u = crate::wire::from_u16_bytes(bytes);
        if u < 0x8000 {
            Ok(u as i16)
        } else {
            Ok(((u as i32) - 0x10000) as i16)
        }
    }
}

impl FromBytes for Vec<u8> {
    open spec fn spec_from_bytes(s: Seq<u8>) -> Result<Seq<u8>, Error> {
        match spec_short_bytes_from(s) {
            Ok(p) => Ok(p.0),
            Err(e) => Err(e),
        }
    }

    /// Reads a two-byte length off the front of the buffer and returns that
    /// many following bytes; trailing bytes are ignored.
    fn from_bytes(bytes: Vec<u8>) -> (r: Result<Vec<u8>, Error>) {
        let mut cursor = Cursor::new(bytes);
        proof {
            assert(cursor.remaining() =~= bytes@);
        }
        match CBytesShort::from_cursor(&mut cursor) {
            Ok(b) => Ok(b.into_plain()),
            Err(e) => Err(e),
        }
    }
}

/// The wire image of one `[string map]` pair: key then value.
pub open spec fn pair_wire(p: (Seq<char>, Seq<char>)) -> Seq<u8> {
    string_wire(p.0) + string_wire(p.1)
}

/// The concatenated wire images of a run of string pairs.
pub open spec fn pairs_wire(l: Seq<(Seq<char>, Seq<char>)>) -> Seq<u8>
    decreases l.len(),
{
    if l.len() == 0 {
        Seq::empty()
    } else {
        pair_wire(l.first()) + pairs_wire(l.drop_first())
    }
}

/// The wire image of a `[string map]`: two-byte count, then the pairs.
pub open spec fn string_map_wire(l: Seq<(Seq<char>, Seq<char>)>) -> Seq<u8> {
    be_bytes(l.len(), 2) + pairs_wire(l)
}

/// Whether every key and value of the map fits its length prefix.
pub open spec fn string_map_encodable(l: Seq<(Seq<char>, Seq<char>)>) -> bool {
    l.len() <= 0xFFFF && forall|i: int|
        0 <= i < l.len() ==> encode_utf8((#[trigger] l[i]).0).len() <= 0xFFFF && encode_utf8(
            l[i].1,
        ).len() <= 0xFFFF
}

pub proof fn lemma_pairs_wire_push(l: Seq<(Seq<char>, Seq<char>)>, x: (Seq<char>, Seq<char>))
    ensures
        pairs_wire(l.push(x)) == pairs_wire(l) + pair_wire(x),
    decreases l.len(),
{
    if l.len() == 0 {
        assert(l.push(x).drop_first() =~= Seq::<(Seq<char>, Seq<char>)>::empty());
        assert(pair_wire(x) + pairs_wire(Seq::<(Seq<char>, Seq<char>)>::empty()) =~= pairs_wire(l)
            + pair_wire(x));
    } else {
        assert(l.push(x).drop_first() =~= l.drop_first().push(x));
        lemma_pairs_wire_push(l.drop_first(), x);
        assert(pair_wire(l.first()) + (pairs_wire(l.drop_first()) + pair_wire(x)) =~= (pair_wire(
            l.first(),
        ) + pairs_wire(l.drop_first())) + pair_wire(x));
    }
}

/// What decoding one key-value pair off the front of `s` yields.
pub open spec fn spec_pair_from(s: Seq<u8>) -> Result<((Seq<char>, Seq<char>), int), Error> {
    match spec_string_from(s) {
        Err(e) => Err(e),
        Ok((k, a)) => match spec_string_from(s.skip(a)) {
            Err(e) => Err(e),
            Ok((v, b)) => Ok(((k, v), a + b)),
        },
    }
}

/// What decoding `n` consecutive pairs off the front of `s` yields.
pub open spec fn spec_pairs_from(s: Seq<u8>, n: nat) -> Result<
    (Seq<(Seq<char>, Seq<char>)>, int),
    Error,
>
    decreases n,
{
    if n == 0 {
        Ok((Seq::empty(), 0))
    } else {
        match spec_pair_from(s) {
            Err(e) => Err(e),
            Ok((v, k)) => match spec_pairs_from(s.skip(k), (n - 1) as nat) {
                Err(e) => Err(e),
                Ok((vs, m)) => Ok((seq![v] + vs, k + m)),
            },
        }
    }
}

/// What decoding a `[string map]` off the front of `s` yields.
pub open spec fn spec_string_map_from(s: Seq<u8>) -> Result<
    (Seq<(Seq<char>, Seq<char>)>, int),
    Error,
> {
    if s.len() < 2 {
        Err(Error::Truncated)
    } else {
        match spec_pairs_from(s.skip(2), be_value(s.take(2))) {
            Ok(p) => Ok((p.0, 2 + p.1)),
            Err(e) => Err(e),
        }
    }
}

/// The structure that represents a Cassandra `[string map]`; on the wire it
/// is a counted run of key-value pairs, later pairs shadowing earlier ones.
#[derive(Debug, Clone, PartialEq)]
pub struct CStringMap {
    pub pairs: Vec<(CString, CString)>,
}

impl View for CStringMap {
    type V = Seq<(Seq<char>, Seq<char>)>;

    open spec fn view(&self) -> Seq<(Seq<char>, Seq<char>)> {
        self.pairs@.map_values(|p: (CString, CString)| (p.0@, p.1@))
    }
}

/// The value a key denotes in the pair run: of duplicate keys the last
/// occurrence is retained.
pub open spec fn map_lookup(l: Seq<(Seq<char>, Seq<char>)>, k: Seq<char>) -> Option<Seq<char>>
    decreases l.len(),
{
    if l.len() == 0 {
        None
    } else if l.last().0 == k {
        Some(l.last().1)
    } else {
        map_lookup(l.drop_last(), k)
    }
}

impl CStringMap {
    pub fn new(pairs: Vec<(CString, CString)>) -> (r: CStringMap)
        ensures
            r@ == pairs@.map_values(|p: (CString, CString)| (p.0@, p.1@)),
    {
        CStringMap { pairs }
    }

    /// Looks a key up; of duplicate keys the last occurrence wins.
    pub fn get(&self, name: &String) -> (r: Option<String>)
        ensures
            match r {
                Some(v) => map_lookup(self@, name@) == Some(v@),
                None => map_lookup(self@, name@) is None,
            },
    {
        let mut j: usize = self.pairs.len();
        proof {
            assert(self@.take(self.pairs@.len() as int) =~= self@);
        }
        while j > 0
            invariant
                j <= self.pairs@.len(),
                self@.len() == self.pairs@.len(),
                map_lookup(self@, name@) == map_lookup(self@.take(j as int), name@),
            decreases j,
        {
            proof {
                assert(self@[j - 1] == (self.pairs@[j - 1].0@, self.pairs@[j - 1].1@));
                assert(self@.take(j as int).last() == self@[j - 1]);
                assert(self@.take(j as int).drop_last() =~= self@.take(j - 1));
            }
            let key_eq = self.pairs[j - 1].0.as_plain() == *name;
            if key_eq {
                return Some(self.pairs[j - 1].1.as_plain());
            }
            j = j - 1;
        }
        proof {
            assert(self@.take(0) =~= Seq::<(Seq<char>, Seq<char>)>::empty());
        }
        None
    }
}

impl IntoRustByName<String> for CStringMap {
    open spec fn spec_get_by_name(&self, name: Seq<char>) -> Option<Result<Seq<char>, Error>> {
        match map_lookup(self@, name) {
            Some(v) => Some(Ok(v)),
            None => None,
        }
    }

    /// Looks a key up; of duplicate keys the last occurrence wins.
    fn get_by_name(&self, name: &str) -> (r: Option<Result<String, Error>>) {
        let key = String::from_str(name);
        match self.get(&key) {
            Some(v) => Some(Ok(v)),
            None => None,
        }
    }
}

impl IntoBytes for CStringMap {
    open spec fn wire(&self) -> Seq<u8> {
        string_map_wire(self@)
    }

    open spec fn encodable(&self) -> bool {
        string_map_encodable(self@)
    }

    /// Converts into the Cassandra byte representation of `[string map]`.
    fn into_cbytes(&self) -> (r: Vec<u8>) {
        let mut r = to_short(self.pairs.len() as u64);
        let mut i: usize = 0;
        while i < self.pairs.len()
            invariant
                i <= self.pairs@.len(),
                string_map_encodable(self@),
                self@.len() == self.pairs@.len(),
                r@ == be_bytes(self@.len(), 2) + pairs_wire(self@.take(i as int)),
            decreases self.pairs@.len() - i,
        {
            proof {
                assert(self@[i as int] == (self.pairs@[i as int].0@, self.pairs@[i as int].1@));
                assert(encode_utf8(self@[i as int].0).len() <= 0xFFFF);
                assert(encode_utf8(self@[i as int].1).len() <= 0xFFFF);
            }
            let kb = self.pairs[i].0.into_cbytes();
            r.extend_from_slice(kb.as_slice());
            let vb = self.pairs[i].1.into_cbytes();
            r.extend_from_slice(vb.as_slice());
            proof {
                lemma_pairs_wire_push(self@.take(i as int), self@[i as int]);
                assert(self@.take(i + 1) =~= self@.take(i as int).push(self@[i as int]));
                assert(((be_bytes(self@.len(), 2) + pairs_wire(self@.take(i as int)))
                    + string_wire(self@[i as int].0)) + string_wire(self@[i as int].1)
                    =~= be_bytes(self@.len(), 2) + (pairs_wire(self@.take(i as int))
                    + (string_wire(self@[i as int].0) + string_wire(self@[i as int].1))));
            }
            i = i + 1;
        }
        proof {
            assert(self@.take(self.pairs@.len() as int) =~= self@);
        }
        r
    }
}

impl FromCursor for CStringMap {
    open spec fn spec_from(s: Seq<u8>) -> Result<(Seq<(Seq<char>, Seq<char>)>, int), Error> {
        spec_string_map_from(s)
    }

    /// Reads a two-byte count and then that many key-value pairs.
    fn from_cursor(cursor: &mut Cursor) -> (r: Result<CStringMap, Error>) {
        let ghost s = old(cursor).remaining();
        let len_bytes = match cursor_next_value(cursor, SHORT_LEN as u64) {
            Ok(v) => v,
            Err(e) => {
                return Err(e);
            },
        };
        let n = from_bytes(len_bytes);
        proof {
            assert(cursor.remaining() =~= s.skip(2));
            crate::wire::lemma_be_value_bound(s.take(2));
        }
        let ghost base = cursor.spec_pos();
        let mut pairs: Vec<(CString, CString)> = Vec::new();
        let mut i: u64 = 0;
        while i < n
            invariant
                i <= n,
                s == old(cursor).remaining(),
                s.len() >= 2,
                n == be_value(s.take(2)),
                cursor.wf(),
                cursor@ == old(cursor)@,
                base == old(cursor).spec_pos() + 2,
                cursor.spec_pos() >= base,
                pairs@.len() == i,
                match spec_pairs_from(cursor.remaining(), (n - i) as nat) {
                    Ok(p) => spec_pairs_from(s.skip(2), n as nat) == Ok::<
                        (Seq<(Seq<char>, Seq<char>)>, int),
                        Error,
                    >(
                        (
                            pairs@.map_values(|p: (CString, CString)| (p.0@, p.1@)) + p.0,
                            (cursor.spec_pos() - base) + p.1,
                        ),
                    ),
                    Err(e) => spec_pairs_from(s.skip(2), n as nat) == Err::<
                        (Seq<(Seq<char>, Seq<char>)>, int),
                        Error,
                    >(e),
                },
            decreases n - i,
        {
            let ghost rem = cursor.remaining();
            let k = match CString::from_cursor(cursor) {
                Ok(v) => v,
                Err(e) => {
                    proof {
                        assert(spec_pair_from(rem) == Err::<((Seq<char>, Seq<char>), int), Error>(
                            e,
                        ));
                        assert(spec_pairs_from(rem, (n - i) as nat) == Err::<
                            (Seq<(Seq<char>, Seq<char>)>, int),
                            Error,
                        >(e));
                    }
                    return Err(e);
                },
            };
            let ghost ka = spec_string_from(rem)->Ok_0.1;
            proof {
                assert(cursor.remaining() =~= rem.skip(ka));
            }
            let ghost rem2 = cursor.remaining();
            let v = match CString::from_cursor(cursor) {
                Ok(v) => v,
                Err(e) => {
                    proof {
                        assert(spec_pair_from(rem) == Err::<((Seq<char>, Seq<char>), int), Error>(
                            e,
                        ));
                        assert(spec_pairs_from(rem, (n - i) as nat) == Err::<
                            (Seq<(Seq<char>, Seq<char>)>, int),
                            Error,
                        >(e));
                    }
                    return Err(e);
                },
            };
            proof {
                let kb = spec_string_from(rem2)->Ok_0.1;
                assert(spec_pair_from(rem) == Ok::<((Seq<char>, Seq<char>), int), Error>(
                    ((k@, v@), ka + kb),
                ));
                assert(cursor.remaining() =~= rem.skip(ka + kb));
                let f = |p: (CString, CString)| (p.0@, p.1@);
                assert((pairs@.push((k, v))).map_values(f) =~= pairs@.map_values(f).push((k@, v@)));
                if spec_pairs_from(rem.skip(ka + kb), (n - i - 1) as nat) is Ok {
                    let p = spec_pairs_from(rem.skip(ka + kb), (n - i - 1) as nat)->Ok_0;
                    assert(pairs@.map_values(f) + (seq![(k@, v@)] + p.0) =~= pairs@.map_values(
                        f,
                    ).push((k@, v@)) + p.0);
                }
            }
            pairs.push((k, v));
            i = i + 1;
        }
        proof {
            let f = |p: (CString, CString)| (p.0@, p.1@);
            assert(pairs@.map_values(f) + Seq::<(Seq<char>, Seq<char>)>::empty() =~= pairs@
                .map_values(f));
            assert((CStringMap { pairs }).view() == pairs@.map_values(f));
        }
        Ok(CStringMap { pairs })
    }
}

/// What decoding a `[uuid]` off the front of `s` yields: its sixteen raw
/// bytes in network order.
pub open spec fn spec_uuid_from(s: Seq<u8>) -> Result<(Seq<u8>, int), Error> {
    if s.len() < 16 {
        Err(Error::Truncated)
    } else {
        Ok((s.take(16), 16))
    }
}

/// Reads the sixteen raw bytes of a `[uuid]`.
pub fn uuid_from_cursor(cursor: &mut Cursor) -> (r: Result<Vec<u8>, Error>)
    requires
        old(cursor).wf(),
    ensures
        final(cursor).wf(),
        final(cursor)@ == old(cursor)@,
        match spec_uuid_from(old(cursor).remaining()) {
            Ok(p) => r is Ok && r->Ok_0@ == p.0 && final(cursor).spec_pos() == old(
                cursor,
            ).spec_pos() + p.1,
            Err(e) => r is Err && r->Err_0 == e,
        },
{
    cursor_next_value(cursor, UUID_LEN as u64)
}

/// What decoding one `[string multimap]` pair off the front of `s` yields:
/// a key and its `[string list]` of values.
pub open spec fn spec_multimap_pair_from(s: Seq<u8>) -> Result<
    ((Seq<char>, Seq<Seq<char>>), int),
    Error,
> {
    match spec_string_from(s) {
        Err(e) => Err(e),
        Ok((k, a)) => match spec_string_list_from(s.skip(a)) {
            Err(e) => Err(e),
            Ok((v, b)) => Ok(((k, v), a + b)),
        },
    }
}

/// What decoding `n` consecutive multimap pairs off the front of `s` yields.
pub open spec fn spec_multimap_pairs_from(s: Seq<u8>, n: nat) -> Result<
    (Seq<(Seq<char>, Seq<Seq<char>>)>, int),
    Error,
>
    decreases n,
{
    if n == 0 {
        Ok((Seq::empty(), 0))
    } else {
        match spec_multimap_pair_from(s) {
            Err(e) => Err(e),
            Ok((v, k)) => match spec_multimap_pairs_from(s.skip(k), (n - 1) as nat) {
                Err(e) => Err(e),
                Ok((vs, m)) => Ok((seq![v] + vs, k + m)),
            },
        }
    }
}

/// What decoding a `[string multimap]` off the front of `s` yields.
pub open spec fn spec_string_multimap_from(s: Seq<u8>) -> Result<
    (Seq<(Seq<char>, Seq<Seq<char>>)>, int),
    Error,
> {
    if s.len() < 2 {
        Err(Error::Truncated)
    } else {
        match spec_multimap_pairs_from(s.skip(2), be_value(s.take(2))) {
            Ok(p) => Ok((p.0, 2 + p.1)),
            Err(e) => Err(e),
        }
    }
}

/// The structure that represents a Cassandra `[string multimap]`, as the
/// SUPPORTED response carries it: each key maps to a list of strings.
#[derive(Debug, Clone, PartialEq)]
pub struct CStringMultiMap {
    pub pairs: Vec<(CString, CStringList)>,
}

impl View for CStringMultiMap {
    type V = Seq<(Seq<char>, Seq<Seq<char>>)>;

    open spec fn view(&self) -> Seq<(Seq<char>, Seq<Seq<char>>)> {
        self.pairs@.map_values(|p: (CString, CStringList)| (p.0@, p.1@))
    }
}

impl FromCursor for CStringMultiMap {
    open spec fn spec_from(s: Seq<u8>) -> Result<(Seq<(Seq<char>, Seq<Seq<char>>)>, int), Error> {
        spec_string_multimap_from(s)
    }

    /// Reads a two-byte count and then that many key / string-list pairs.
    fn from_cursor(cursor: &mut Cursor) -> (r: Result<CStringMultiMap, Error>) {
        let ghost s = old(cursor).remaining();
        let len_bytes = match cursor_next_value(cursor, SHORT_LEN as u64) {
            Ok(v) => v,
            Err(e) => {
                return Err(e);
            },
        };
        let n = from_bytes(len_bytes);
        proof {
            assert(cursor.remaining() =~= s.skip(2));
            crate::wire::lemma_be_value_bound(s.take(2));
        }
        let ghost base = cursor.spec_pos();
        let mut pairs: Vec<(CString, CStringList)> = Vec::new();
        let mut i: u64 = 0;
        while i < n
            invariant
                i <= n,
                s == old(cursor).remaining(),
                s.len() >= 2,
                n == be_value(s.take(2)),
                cursor.wf(),
                cursor@ == old(cursor)@,
                base == old(cursor).spec_pos() + 2,
                cursor.spec_pos() >= base,
                pairs@.len() == i,
                match spec_multimap_pairs_from(cursor.remaining(), (n - i) as nat) {
                    Ok(p) => spec_multimap_pairs_from(s.skip(2), n as nat) == Ok::<
                        (Seq<(Seq<char>, Seq<Seq<char>>)>, int),
                        Error,
                    >(
                        (
                            pairs@.map_values(|p: (CString, CStringList)| (p.0@, p.1@)) + p.0,
                            (cursor.spec_pos() - base) + p.1,
                        ),
                    ),
                    Err(e) => spec_multimap_pairs_from(s.skip(2), n as nat) == Err::<
                        (Seq<(Seq<char>, Seq<Seq<char>>)>, int),
                        Error,
                    >(e),
                },
            decreases n - i,
        {
            let ghost rem = cursor.remaining();
            let k = match CString::from_cursor(cursor) {
                Ok(v) => v,
                Err(e) => {
                    proof {
                        assert(spec_multimap_pair_from(rem) == Err::<
                            ((Seq<char>, Seq<Seq<char>>), int),
                            Error,
                        >(e));
                        assert(spec_multimap_pairs_from(rem, (n - i) as nat) == Err::<
                            (Seq<(Seq<char>, Seq<Seq<char>>)>, int),
                            Error,
                        >(e));
                    }
                    return Err(e);
                },
            };
            let ghost ka = spec_string_from(rem)->Ok_0.1;
            proof {
                assert(cursor.remaining() =~= rem.skip(ka));
            }
            let ghost rem2 = cursor.remaining();
            let v = match CStringList::from_cursor(cursor) {
                Ok(v) => v,
                Err(e) => {
                    proof {
                        assert(spec_multimap_pair_from(rem) == Err::<
                            ((Seq<char>, Seq<Seq<char>>), int),
                            Error,
                        >(e));
                        assert(spec_multimap_pairs_from(rem, (n - i) as nat) == Err::<
                            (Seq<(Seq<char>, Seq<Seq<char>>)>, int),
                            Error,
                        >(e));
                    }
                    return Err(e);
                },
            };
            proof {
                let kb = spec_string_list_from(rem2)->Ok_0.1;
                assert(spec_multimap_pair_from(rem) == Ok::<
                    ((Seq<char>, Seq<Seq<char>>), int),
                    Error,
                >(((k@, v@), ka + kb)));
                assert(cursor.remaining() =~= rem.skip(ka + kb));
                let f = |p: (CString, CStringList)| (p.0@, p.1@);
                assert((pairs@.push((k, v))).map_values(f) =~= pairs@.map_values(f).push(
                    (k@, v@),
                ));
                if spec_multimap_pairs_from(rem.skip(ka + kb), (n - i - 1) as nat) is Ok {
                    let p = spec_multimap_pairs_from(rem.skip(ka + kb), (n - i - 1) as nat)->Ok_0;
                    assert(pairs@.map_values(f) + (seq![(k@, v@)] + p.0) =~= pairs@.map_values(
                        f,
                    ).push((k@, v@)) + p.0);
                }
            }
            pairs.push((k, v));
            i = i + 1;
        }
        proof {
            let f = |p: (CString, CStringList)| (p.0@, p.1@);
            assert(pairs@.map_values(f) + Seq::<(Seq<char>, Seq<Seq<char>>)>::empty() =~= pairs@
                .map_values(f));
            assert((CStringMultiMap { pairs }).view() == pairs@.map_values(f));
        }
        Ok(CStringMultiMap { pairs })
    }
}

} // verus!
