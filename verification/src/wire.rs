use vstd::prelude::*;

use vstd::arithmetic::div_mod::{lemma_fundamental_div_mod, lemma_fundamental_div_mod_converse};

use crate::error::Error;

verus! {

/// `256^n`: the number of values an `n`-byte field can carry.
pub open spec fn pow256(n: nat) -> nat
    decreases n,
{
    if n == 0 {
        1
    } else {
        256 * pow256((n - 1) as nat)
    }
}

/// The big-endian image of `v` in exactly `n` bytes, most significant first;
/// bits beyond the `n` bytes are discarded.
pub open spec fn be_bytes(v: nat, n: nat) -> Seq<u8>
    decreases n,
{
    if n == 0 {
        Seq::empty()
    } else {
        be_bytes(v / 256, (n - 1) as nat).push((v % 256) as u8)
    }
}

/// The unsigned value a big-endian byte string denotes.
pub open spec fn be_value(s: Seq<u8>) -> nat
    decreases s.len(),
{
    if s.len() == 0 {
        0
    } else {
        (be_value(s.drop_last()) * 256 + s.last()) as nat
    }
}

/// The signed (two's-complement) value a big-endian byte string denotes.
pub open spec fn be_value_signed(s: Seq<u8>) -> int {
    if 2 * be_value(s) < pow256(s.len()) {
        be_value(s) as int
    } else {
        be_value(s) - pow256(s.len())
    }
}

/// Whether `v` fits the `n`-byte two's-complement range.
pub open spec fn fits_signed(v: int, n: nat) -> bool {
    -(pow256(n) as int) <= 2 * v < pow256(n) as int
}

/// The big-endian two's-complement image of `v` in exactly `n` bytes.
pub open spec fn be_bytes_signed(v: int, n: nat) -> Seq<u8> {
    if v >= 0 {
        be_bytes(v as nat, n)
    } else {
        be_bytes((v + pow256(n)) as nat, n)
    }
}

pub proof fn lemma_be_bytes_len(v: nat, n: nat)
    ensures
        be_bytes(v, n).len() == n,
    decreases n,
{
    if n > 0 {
        lemma_be_bytes_len(v / 256, (n - 1) as nat);
    }
}

pub proof fn lemma_pow256_le(a: nat, b: nat)
    requires
        a <= b,
    ensures
        pow256(a) <= pow256(b),
    decreases b,
{
    if a < b && b > 0 {
        lemma_pow256_le(a, (b - 1) as nat);
    }
}

pub proof fn lemma_be_value_bound(s: Seq<u8>)
    ensures
        be_value(s) < pow256(s.len()),
    decreases s.len(),
{
    if s.len() > 0 {
        lemma_be_value_bound(s.drop_last());
        assert(be_value(s.drop_last()) * 256 <= (pow256((s.len() - 1) as nat) - 1) * 256)
            by (nonlinear_arith)
            requires
                be_value(s.drop_last()) < pow256((s.len() - 1) as nat),
        ;
    }
}

/// Decoding inverts encoding: the value written into `n` bytes is read back.
pub proof fn lemma_be_value_of_be_bytes(v: nat, n: nat)
    requires
        v < pow256(n),
    ensures
        be_value(be_bytes(v, n)) == v,
    decreases n,
{
    if n > 0 {
        lemma_fundamental_div_mod(v as int, 256);
        assert(v / 256 < pow256((n - 1) as nat)) by (nonlinear_arith)
            requires
                v < 256 * pow256((n - 1) as nat),
        ;
        lemma_be_value_of_be_bytes(v / 256, (n - 1) as nat);
        let inner = be_bytes(v / 256, (n - 1) as nat);
        assert(inner.push((v % 256) as u8).drop_last() =~= inner);
    }
}

/// Encoding inverts decoding: a byte string is the image of the value it denotes.
pub proof fn lemma_be_bytes_of_be_value(s: Seq<u8>)
    ensures
        be_bytes(be_value(s), s.len()) == s,
    decreases s.len(),
{
    if s.len() == 0 {
        assert(be_bytes(be_value(s), s.len()) =~= s);
    } else {
        let pre = s.drop_last();
        let bv = be_value(s);
        lemma_be_value_bound(pre);
        lemma_fundamental_div_mod_converse(bv as int, 256, be_value(pre) as int, s.last() as int);
        lemma_be_bytes_of_be_value(pre);
        assert(be_bytes(bv, s.len()) =~= s);
    }
}

/// A signed value survives the round trip through its `n`-byte image.
pub proof fn lemma_be_signed_round_trip(v: int, n: nat)
    requires
        fits_signed(v, n),
    ensures
        be_value_signed(be_bytes_signed(v, n)) == v,
{
    lemma_be_bytes_len(if v >= 0 { v as nat } else { (v + pow256(n)) as nat }, n);
    if v >= 0 {
        lemma_be_value_of_be_bytes(v as nat, n);
    } else {
        lemma_be_value_of_be_bytes((v + pow256(n)) as nat, n);
    }
}

fn pow256_u64(n: usize) -> (p: u64)
    requires
        n <= 7,
    ensures
        p == pow256(n as nat),
{
    let mut p: u64 = 1;
    let mut j: usize = 0;
    while j < n
        invariant
            j <= n <= 7,
            p == pow256(j as nat),
        decreases n - j,
    {
        proof {
            lemma_pow256_le(j as nat, 6);
            assert(pow256(6) == 0x1000000000000) by {
                reveal_with_fuel(pow256, 8);
            }
        }
        p = p * 256;
        j = j + 1;
    }
    p
}

fn encode_be(v: u64, n: usize) -> (r: Vec<u8>)
    requires
        n <= 8,
    ensures
        r@ == be_bytes(v as nat, n as nat),
{
    let mut tmp: Vec<u8> = Vec::new();
    let mut cur: u64 = v;
    let mut k: usize = n;
    while k > 0
        invariant
            k <= n <= 8,
            tmp@.len() == n - k,
            be_bytes(v as nat, n as nat) == be_bytes(cur as nat, k as nat) + tmp@.reverse(),
        decreases k,
    {
        let b = (cur % 256) as u8;
        proof {
            assert((tmp@.push(b)).reverse() =~= seq![b] + tmp@.reverse());
            assert(be_bytes((cur / 256) as nat, (k - 1) as nat) + (seq![b] + tmp@.reverse())
                =~= be_bytes(cur as nat, k as nat) + tmp@.reverse());
        }
        tmp.push(b);
        cur = cur / 256;
        k = k - 1;
    }
    proof {
        assert(be_bytes(v as nat, n as nat) =~= tmp@.reverse());
        lemma_be_bytes_len(v as nat, n as nat);
    }
    let mut r: Vec<u8> = Vec::new();
    let mut i: usize = 0;
    while i < n
        invariant
            i <= n,
            tmp@.len() == n,
            be_bytes(v as nat, n as nat) == tmp@.reverse(),
            r@ == tmp@.reverse().take(i as int),
        decreases n - i,
    {
        let b = tmp[n - 1 - i];
        r.push(b);
        proof {
            assert(r@ =~= tmp@.reverse().take(i + 1));
        }
        i = i + 1;
    }
    proof {
        assert(r@ =~= tmp@.reverse());
    }
    r
}

fn decode_be_prefix(bytes: &Vec<u8>, n: usize) -> (r: u64)
    requires
        n <= 8,
        n <= bytes@.len(),
    ensures
        r == be_value(bytes@.take(n as int)),
{
    let mut v: u64 = 0;
    let mut i: usize = 0;
    while i < n
        invariant
            i <= n <= 8,
            n <= bytes@.len(),
            v == be_value(bytes@.take(i as int)),
        decreases n - i,
    {
        proof {
            lemma_be_value_bound(bytes@.take(i as int));
            lemma_pow256_le(i as nat, 7);
            assert(pow256(7) == 0x100000000000000) by {
                reveal_with_fuel(pow256, 9);
            }
            assert(bytes@.take(i + 1).drop_last() =~= bytes@.take(i as int));
        }
        v = v * 256 + bytes[i] as u64;
        i = i + 1;
    }
    v
}

/// Tries to write `int` as `n` big-endian bytes; fails with `Overflow` when
/// `n` is not a field width of the protocol or the value does not fit.
pub fn try_to_n_bytes(v: u64, n: usize) -> (r: Result<Vec<u8>, Error>)
    ensures
        1 <= n <= 8 && (v as nat) < pow256(n as nat) ==> r is Ok && r->Ok_0@ == be_bytes(
            v as nat,
            n as nat,
        ),
        !(1 <= n <= 8 && (v as nat) < pow256(n as nat)) ==> r == Err::<Vec<u8>, Error>(
            Error::Overflow,
        ),
{
    if n < 1 || n > 8 {
        return Err(Error::Overflow);
    }
    if n < 8 {
        let p = pow256_u64(n);
        if v >= p {
            return Err(Error::Overflow);
        }
    } else {
        proof {
            assert(pow256(8) == 0x10000000000000000) by {
                reveal_with_fuel(pow256, 9);
            }
        }
    }
    Ok(encode_be(v, n))
}

/// Writes `int` as `n` big-endian bytes.
pub fn to_n_bytes(v: u64, n: usize) -> (r: Vec<u8>)
    requires
        1 <= n <= 8,
        (v as nat) < pow256(n as nat),
    ensures
        r@ == be_bytes(v as nat, n as nat),
{
    encode_be(v, n)
}

/// Tries to write `int` as `n` big-endian two's-complement bytes; fails with
/// `Overflow` when `n` is out of range or the value does not fit.
#[verifier::rlimit(100)]
pub fn try_i_to_n_bytes(v: i64, n: usize) -> (r: Result<Vec<u8>, Error>)
    ensures
        1 <= n <= 8 && fits_signed(v as int, n as nat) ==> r is Ok && r->Ok_0@
            == be_bytes_signed(v as int, n as nat),
        !(1 <= n <= 8 && fits_signed(v as int, n as nat)) ==> r == Err::<Vec<u8>, Error>(
            Error::Overflow,
        ),
{
    if n < 1 || n > 8 {
        return Err(Error::Overflow);
    }
    if n < 8 {
        let p = pow256_u64(n);
        let half = p / 2;
        proof {
            assert(pow256(n as nat) == 256 * pow256((n - 1) as nat));
            assert(p as int == 2 * (128 * pow256((n - 1) as nat)));
            assert(half as int == 128 * pow256((n - 1) as nat));
            assert(2 * (half as int) == p as int);
        }
        if v >= half as i64 || v < -(half as i64) {
            proof {
                assert(!fits_signed(v as int, n as nat));
            }
            return Err(Error::Overflow);
        }
        proof {
            assert(fits_signed(v as int, n as nat));
        }
    } else {
        proof {
            assert(pow256(8) == 0x10000000000000000) by {
                reveal_with_fuel(pow256, 9);
            }
            assert(fits_signed(v as int, 8));
        }
    }
    Ok(i_to_n_bytes(v, n))
}

/// Writes `int` as `n` big-endian two's-complement bytes.
pub fn i_to_n_bytes(v: i64, n: usize) -> (r: Vec<u8>)
    requires
        1 <= n <= 8,
        fits_signed(v as int, n as nat),
    ensures
        r@ == be_bytes_signed(v as int, n as nat),
{
    if v >= 0 {
        encode_be(v as u64, n)
    } else if n == 8 {
        proof {
            assert(pow256(8) == 0x10000000000000000) by {
                reveal_with_fuel(pow256, 9);
            }
        }
        let u: u64 = u64::MAX - ((-(v + 1)) as u64);
        encode_be(u, n)
    } else {
        let p = pow256_u64(n);
        proof {
            lemma_pow256_le(n as nat, 7);
            assert(pow256(7) == 0x100000000000000) by {
                reveal_with_fuel(pow256, 9);
            }
        }
        let u: u64 = (v + p as i64) as u64;
        encode_be(u, n)
    }
}

/// Tries to read a big-endian unsigned value from the whole buffer; fails
/// with `Overflow` when the buffer is longer than eight bytes.
pub fn try_from_bytes(bytes: Vec<u8>) -> (r: Result<u64, Error>)
    ensures
        bytes@.len() <= 8 ==> r is Ok && r->Ok_0 == be_value(bytes@),
        bytes@.len() > 8 ==> r == Err::<u64, Error>(Error::Overflow),
{
    if bytes.len() > 8 {
        return Err(Error::Overflow);
    }
    let n = bytes.len();
    let v = decode_be_prefix(&bytes, n);
    proof {
        assert(bytes@.take(n as int) =~= bytes@);
    }
    Ok(v)
}

/// Reads a big-endian unsigned value from the whole buffer.
pub fn from_bytes(bytes: Vec<u8>) -> (r: u64)
    requires
        bytes@.len() <= 8,
    ensures
        r == be_value(bytes@),
{
    let n = bytes.len();
    let v = decode_be_prefix(&bytes, n);
    proof {
        assert(bytes@.take(n as int) =~= bytes@);
    }
    v
}

/// Tries to read a big-endian `u16` from the first two bytes; fails with
/// `Truncated` when fewer remain.
pub fn try_u16_from_bytes(bytes: Vec<u8>) -> (r: Result<u16, Error>)
    ensures
        bytes@.len() >= 2 ==> r is Ok && r->Ok_0 == be_value(bytes@.take(2)),
        bytes@.len() < 2 ==> r == Err::<u16, Error>(Error::Truncated),
{
    if bytes.len() < 2 {
        return Err(Error::Truncated);
    }
    let v = decode_be_prefix(&bytes, 2);
    proof {
        lemma_be_value_bound(bytes@.take(2));
        assert(pow256(2) == 0x10000) by {
            reveal_with_fuel(pow256, 3);
        }
    }
    Ok(v as u16)
}

/// Reads a big-endian `u16` from the first two bytes.
pub fn from_u16_bytes(bytes: Vec<u8>) -> (r: u16)
    requires
        bytes@.len() >= 2,
    ensures
        r == be_value(bytes@.take(2)),
{
    let v = decode_be_prefix(&bytes, 2);
    proof {
        lemma_be_value_bound(bytes@.take(2));
        assert(pow256(2) == 0x10000) by {
            reveal_with_fuel(pow256, 3);
        }
    }
    v as u16
}

/// Tries to read a big-endian two's-complement value from the whole buffer;
/// fails with `Overflow` when the buffer is longer than eight bytes.
pub fn try_i_from_bytes(bytes: Vec<u8>) -> (r: Result<i64, Error>)
    ensures
        bytes@.len() <= 8 ==> r is Ok && r->Ok_0 == be_value_signed(bytes@),
        bytes@.len() > 8 ==> r == Err::<i64, Error>(Error::Overflow),
{
    if bytes.len() > 8 {
        return Err(Error::Overflow);
    }
    Ok(from_i_bytes(bytes))
}

/// Reads a big-endian two's-complement value from the whole buffer.
pub fn from_i_bytes(bytes: Vec<u8>) -> (r: i64)
    requires
        bytes@.len() <= 8,
    ensures
        r == be_value_signed(bytes@),
{
    let n = bytes.len();
    let u = decode_be_prefix(&bytes, n);
    proof {
        assert(bytes@.take(n as int) =~= bytes@);
        lemma_be_value_bound(bytes@);
    }
    if n == 8 {
        proof {
            assert(pow256(8) == 0x10000000000000000) by {
                reveal_with_fuel(pow256, 9);
            }
        }
        if u < 0x8000000000000000 {
            u as i64
        } else {
            -((u64::MAX - u) as i64) - 1
        }
    } else {
        let p = pow256_u64(n);
        proof {
            lemma_pow256_le(n as nat, 7);
            assert(pow256(7) == 0x100000000000000) by {
                reveal_with_fuel(pow256, 9);
            }
        }
        if 2 * u < p {
            u as i64
        } else {
            (u as i64) - (p as i64)
        }
    }
}

/// Tries to read a big-endian `i32` from the first four bytes; fails with
/// `Truncated` when fewer remain.
pub fn try_i32_from_bytes(bytes: Vec<u8>) -> (r: Result<i32, Error>)
    ensures
        bytes@.len() >= 4 ==> r is Ok && r->Ok_0 == be_value_signed(bytes@.take(4)),
        bytes@.len() < 4 ==> r == Err::<i32, Error>(Error::Truncated),
{
    if bytes.len() < 4 {
        return Err(Error::Truncated);
    }
    let u = decode_be_prefix(&bytes, 4);
    proof {
        lemma_be_value_bound(bytes@.take(4));
        assert(pow256(4) == 0x100000000) by {
            reveal_with_fuel(pow256, 5);
        }
    }
    if u < 0x80000000 {
        Ok(u as i32)
    } else {
        Ok(((u as i64) - 0x100000000) as i32)
    }
}

/// Writes `int` as the protocol's two-byte `[short]`.
pub fn to_short(v: u64) -> (r: Vec<u8>)
    requires
        v < 0x10000,
    ensures
        r@ == be_bytes(v as nat, 2),
{
    proof {
        assert(pow256(2) == 0x10000) by {
            reveal_with_fuel(pow256, 3);
        }
    }
    to_n_bytes(v, 2)
}

/// Writes `int` as the protocol's four-byte signed `[int]`.
pub fn to_int(v: i64) -> (r: Vec<u8>)
    requires
        fits_signed(v as int, 4),
    ensures
        r@ == be_bytes_signed(v as int, 4),
{
    i_to_n_bytes(v, 4)
}

} // verus!
