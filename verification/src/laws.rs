use vstd::prelude::*;

use vstd::utf8::{encode_utf8, encode_utf8_decode_utf8, encode_utf8_valid_utf8};

use crate::consistency::{consistency_code, spec_consistency_from, Consistency};
use crate::error::Error;
use crate::frame::{frame_wire, spec_frame_from, FrameVal, Opcode, opcode_byte, spec_opcode_of};
use crate::types::{bytes_wire, inet_wf, inet_wire, long_string_wire, pair_wire, pairs_wire,
    short_bytes_wire, spec_bytes_from, spec_inet_from, spec_long_string_from, spec_pair_from,
    spec_pairs_from, spec_short_bytes_from, spec_string_from, spec_string_list_from,
    spec_string_map_from, spec_strings_from, spec_value_from, string_list_wire,
    string_map_wire, string_wire, strings_wire, CBytesVal};
use crate::wire::{be_bytes, be_bytes_signed, be_value_signed, fits_signed, lemma_be_bytes_len,
    lemma_be_signed_round_trip, lemma_be_value_of_be_bytes, pow256};

verus! {

/// The length of a signed big-endian image is its field width.
pub proof fn lemma_be_bytes_signed_len(v: int, n: nat)
    ensures
        be_bytes_signed(v, n).len() == n,
{
    if v >= 0 {
        lemma_be_bytes_len(v as nat, n);
    } else {
        lemma_be_bytes_len((v + pow256(n)) as nat, n);
    }
}

/// Round trip of the `[string]` primitive: decoding its wire image, with
/// anything following it, yields the string back and consumes exactly the
/// image.
pub proof fn lemma_string_round_trip(s: Seq<char>, rest: Seq<u8>)
    requires
        encode_utf8(s).len() <= 0xFFFF,
    ensures
        spec_string_from(string_wire(s) + rest) == Ok::<(Seq<char>, int), Error>(
            (s, string_wire(s).len() as int),
        ),
        string_wire(s).len() == 2 + encode_utf8(s).len(),
{
    let u = encode_utf8(s);
    let t = string_wire(s) + rest;
    lemma_be_bytes_len(u.len(), 2);
    assert(pow256(2) == 0x10000) by {
        reveal_with_fuel(pow256, 3);
    }
    assert(t.take(2) =~= be_bytes(u.len(), 2));
    lemma_be_value_of_be_bytes(u.len(), 2);
    assert(t.subrange(2, 2 + u.len() as int) =~= u);
    encode_utf8_valid_utf8(s);
    encode_utf8_decode_utf8(s);
}

/// Round trip of the `[long string]` primitive.
pub proof fn lemma_long_string_round_trip(s: Seq<char>, rest: Seq<u8>)
    requires
        encode_utf8(s).len() <= 0x7FFFFFFF,
    ensures
        spec_long_string_from(long_string_wire(s) + rest) == Ok::<(Seq<char>, int), Error>(
            (s, long_string_wire(s).len() as int),
        ),
        long_string_wire(s).len() == 4 + encode_utf8(s).len(),
{
    let u = encode_utf8(s);
    let t = long_string_wire(s) + rest;
    lemma_be_bytes_len(u.len(), 4);
    assert(pow256(4) == 0x100000000) by {
        reveal_with_fuel(pow256, 5);
    }
    assert(t.take(4) =~= be_bytes(u.len(), 4));
    lemma_be_value_of_be_bytes(u.len(), 4);
    assert(t.subrange(4, 4 + u.len() as int) =~= u);
    encode_utf8_valid_utf8(s);
    encode_utf8_decode_utf8(s);
}

/// Round trip of the `[short bytes]` primitive.
pub proof fn lemma_short_bytes_round_trip(b: Seq<u8>, rest: Seq<u8>)
    requires
        b.len() <= 0xFFFF,
    ensures
        spec_short_bytes_from(short_bytes_wire(b) + rest) == Ok::<(Seq<u8>, int), Error>(
            (b, short_bytes_wire(b).len() as int),
        ),
        short_bytes_wire(b).len() == 2 + b.len(),
{
    let t = short_bytes_wire(b) + rest;
    lemma_be_bytes_len(b.len(), 2);
    assert(pow256(2) == 0x10000) by {
        reveal_with_fuel(pow256, 3);
    }
    assert(t.take(2) =~= be_bytes(b.len(), 2));
    lemma_be_value_of_be_bytes(b.len(), 2);
    assert(t.subrange(2, 2 + b.len() as int) =~= b);
}

/// Round trip of the `[value]` form of `[bytes]`: all three states —
/// present, null and not-set — survive the trip.
pub proof fn lemma_value_round_trip(v: CBytesVal, rest: Seq<u8>)
    requires
        v is Bytes ==> v->Bytes_0.len() <= 0x7FFFFFFF,
    ensures
        match v {
            CBytesVal::Bytes(b) => spec_value_from(bytes_wire(v) + rest) == Ok::<
                (CBytesVal, int),
                Error,
            >((v, 4 + b.len() as int)),
            _ => spec_value_from(bytes_wire(v) + rest) == Ok::<(CBytesVal, int), Error>((v, 4)),
        },
{
    assert(pow256(4) == 0x100000000) by {
        reveal_with_fuel(pow256, 5);
    }
    let t = bytes_wire(v) + rest;
    match v {
        CBytesVal::Bytes(b) => {
            lemma_be_bytes_signed_len(b.len() as int, 4);
            assert(t.take(4) =~= be_bytes_signed(b.len() as int, 4));
            lemma_be_signed_round_trip(b.len() as int, 4);
            assert(t.subrange(4, 4 + b.len() as int) =~= b);
        },
        CBytesVal::Null => {
            lemma_be_bytes_signed_len(-1, 4);
            assert(t.take(4) =~= be_bytes_signed(-1, 4));
            lemma_be_signed_round_trip(-1, 4);
        },
        CBytesVal::NotSet => {
            lemma_be_bytes_signed_len(-2, 4);
            assert(t.take(4) =~= be_bytes_signed(-2, 4));
            lemma_be_signed_round_trip(-2, 4);
        },
    }
}

/// Round trip of the `[bytes]` primitive for its two legal states, present
/// and null.
pub proof fn lemma_bytes_round_trip(v: CBytesVal, rest: Seq<u8>)
    requires
        !(v is NotSet),
        v is Bytes ==> v->Bytes_0.len() <= 0x7FFFFFFF,
    ensures
        match v {
            CBytesVal::Bytes(b) => spec_bytes_from(bytes_wire(v) + rest) == Ok::<
                (CBytesVal, int),
                Error,
            >((v, 4 + b.len() as int)),
            _ => spec_bytes_from(bytes_wire(v) + rest) == Ok::<(CBytesVal, int), Error>((v, 4)),
        },
{
    assert(pow256(4) == 0x100000000) by {
        reveal_with_fuel(pow256, 5);
    }
    let t = bytes_wire(v) + rest;
    match v {
        CBytesVal::Bytes(b) => {
            lemma_be_bytes_signed_len(b.len() as int, 4);
            assert(t.take(4) =~= be_bytes_signed(b.len() as int, 4));
            lemma_be_signed_round_trip(b.len() as int, 4);
            assert(t.subrange(4, 4 + b.len() as int) =~= b);
        },
        CBytesVal::Null => {
            lemma_be_bytes_signed_len(-1, 4);
            assert(t.take(4) =~= be_bytes_signed(-1, 4));
            lemma_be_signed_round_trip(-1, 4);
        },
        CBytesVal::NotSet => {},
    }
}

/// Round trip of a run of `[string]`s.
pub proof fn lemma_strings_round_trip(l: Seq<Seq<char>>, rest: Seq<u8>)
    requires
        forall|i: int| 0 <= i < l.len() ==> encode_utf8(#[trigger] l[i]).len() <= 0xFFFF,
    ensures
        spec_strings_from(strings_wire(l) + rest, l.len()) == Ok::<(Seq<Seq<char>>, int), Error>(
            (l, strings_wire(l).len() as int),
        ),
    decreases l.len(),
{
    if l.len() == 0 {
        assert(strings_wire(l) + rest =~= rest);
        assert(l =~= Seq::<Seq<char>>::empty());
        assert(strings_wire(l).len() == 0);
    } else {
        let h = l.first();
        let t = l.drop_first();
        assert(h == l[0]);
        assert(forall|i: int| 0 <= i < t.len() ==> t[i] == l[i + 1]);
        let total = strings_wire(l) + rest;
        assert(total =~= string_wire(h) + (strings_wire(t) + rest));
        lemma_string_round_trip(h, strings_wire(t) + rest);
        let k = string_wire(h).len() as int;
        assert(total.skip(k) =~= strings_wire(t) + rest);
        lemma_strings_round_trip(t, rest);
        assert(seq![h] + t =~= l);
    }
}

/// Round trip of the `[string list]` primitive.
pub proof fn lemma_string_list_round_trip(l: Seq<Seq<char>>, rest: Seq<u8>)
    requires
        l.len() <= 0xFFFF,
        forall|i: int| 0 <= i < l.len() ==> encode_utf8(#[trigger] l[i]).len() <= 0xFFFF,
    ensures
        spec_string_list_from(string_list_wire(l) + rest) == Ok::<(Seq<Seq<char>>, int), Error>(
            (l, string_list_wire(l).len() as int),
        ),
{
    let t = string_list_wire(l) + rest;
    lemma_be_bytes_len(l.len(), 2);
    assert(pow256(2) == 0x10000) by {
        reveal_with_fuel(pow256, 3);
    }
    assert(t.take(2) =~= be_bytes(l.len(), 2));
    lemma_be_value_of_be_bytes(l.len(), 2);
    assert(t.skip(2) =~= strings_wire(l) + rest);
    lemma_strings_round_trip(l, rest);
}

/// Round trip of one key-value pair.
pub proof fn lemma_pair_round_trip(p: (Seq<char>, Seq<char>), rest: Seq<u8>)
    requires
        encode_utf8(p.0).len() <= 0xFFFF,
        encode_utf8(p.1).len() <= 0xFFFF,
    ensures
        spec_pair_from(pair_wire(p) + rest) == Ok::<((Seq<char>, Seq<char>), int), Error>(
            (p, pair_wire(p).len() as int),
        ),
{
    let t = pair_wire(p) + rest;
    assert(t =~= string_wire(p.0) + (string_wire(p.1) + rest));
    lemma_string_round_trip(p.0, string_wire(p.1) + rest);
    let k = string_wire(p.0).len() as int;
    assert(t.skip(k) =~= string_wire(p.1) + rest);
    lemma_string_round_trip(p.1, rest);
}

/// Round trip of a run of key-value pairs.
pub proof fn lemma_pairs_round_trip(l: Seq<(Seq<char>, Seq<char>)>, rest: Seq<u8>)
    requires
        forall|i: int|
            0 <= i < l.len() ==> encode_utf8((#[trigger] l[i]).0).len() <= 0xFFFF && encode_utf8(
                l[i].1,
            ).len() <= 0xFFFF,
    ensures
        spec_pairs_from(pairs_wire(l) + rest, l.len()) == Ok::<
            (Seq<(Seq<char>, Seq<char>)>, int),
            Error,
        >((l, pairs_wire(l).len() as int)),
    decreases l.len(),
{
    if l.len() == 0 {
        assert(pairs_wire(l) + rest =~= rest);
        assert(l =~= Seq::<(Seq<char>, Seq<char>)>::empty());
        assert(pairs_wire(l).len() == 0);
    } else {
        let h = l.first();
        let t = l.drop_first();
        assert(h == l[0]);
        assert(forall|i: int| 0 <= i < t.len() ==> t[i] == l[i + 1]);
        let total = pairs_wire(l) + rest;
        assert(total =~= pair_wire(h) + (pairs_wire(t) + rest));
        lemma_pair_round_trip(h, pairs_wire(t) + rest);
        let k = pair_wire(h).len() as int;
        assert(total.skip(k) =~= pairs_wire(t) + rest);
        lemma_pairs_round_trip(t, rest);
        assert(seq![h] + t =~= l);
    }
}

/// Round trip of the `[string map]` primitive.
pub proof fn lemma_string_map_round_trip(l: Seq<(Seq<char>, Seq<char>)>, rest: Seq<u8>)
    requires
        l.len() <= 0xFFFF,
        forall|i: int|
            0 <= i < l.len() ==> encode_utf8((#[trigger] l[i]).0).len() <= 0xFFFF && encode_utf8(
                l[i].1,
            ).len() <= 0xFFFF,
    ensures
        spec_string_map_from(string_map_wire(l) + rest) == Ok::<
            (Seq<(Seq<char>, Seq<char>)>, int),
            Error,
        >((l, string_map_wire(l).len() as int)),
{
    let t = string_map_wire(l) + rest;
    lemma_be_bytes_len(l.len(), 2);
    assert(pow256(2) == 0x10000) by {
        reveal_with_fuel(pow256, 3);
    }
    assert(t.take(2) =~= be_bytes(l.len(), 2));
    lemma_be_value_of_be_bytes(l.len(), 2);
    assert(t.skip(2) =~= pairs_wire(l) + rest);
    lemma_pairs_round_trip(l, rest);
}

/// Round trip of the `[inet]` primitive.
pub proof fn lemma_inet_round_trip(v: (Seq<u8>, int), rest: Seq<u8>)
    requires
        inet_wf(v),
        fits_signed(v.1, 4),
    ensures
        spec_inet_from(inet_wire(v) + rest) == Ok::<((Seq<u8>, int), int), Error>(
            (v, 5 + v.0.len() as int),
        ),
{
    assert(pow256(4) == 0x100000000) by {
        reveal_with_fuel(pow256, 5);
    }
    let t = inet_wire(v) + rest;
    let n = v.0.len() as int;
    lemma_be_bytes_signed_len(v.1, 4);
    assert(t[0] == n as u8);
    assert(t.subrange(1, 1 + n) =~= v.0);
    assert(t.subrange(1 + n, 5 + n) =~= be_bytes_signed(v.1, 4));
    lemma_be_signed_round_trip(v.1, 4);
}

/// Round trip of the `[consistency]` primitive.
pub proof fn lemma_consistency_round_trip(c: Consistency, rest: Seq<u8>)
    ensures
        spec_consistency_from(be_bytes(consistency_code(c), 2) + rest) == Ok::<
            (Consistency, int),
            Error,
        >((c, 2)),
{
    let t = be_bytes(consistency_code(c), 2) + rest;
    lemma_be_bytes_len(consistency_code(c), 2);
    assert(pow256(2) == 0x10000) by {
        reveal_with_fuel(pow256, 3);
    }
    assert(t.take(2) =~= be_bytes(consistency_code(c), 2));
    lemma_be_value_of_be_bytes(consistency_code(c), 2);
}

/// Frame integrity: decoding the wire image of a request frame — with any
/// trailing bytes — yields the opcode, stream id and body unchanged.
pub proof fn lemma_frame_round_trip(op: Opcode, stream: i16, body: Seq<u8>, rest: Seq<u8>)
    requires
        body.len() <= 0x7FFFFFFF,
    ensures
        spec_frame_from(frame_wire(0x04, 0, stream as int, op, body) + rest) == Ok::<
            (FrameVal, int),
            Error,
        >(
            (
                FrameVal {
                    version: 0x04,
                    flags: 0,
                    stream: stream as int,
                    opcode: op,
                    body: body,
                },
                9 + body.len() as int,
            ),
        ),
{
    assert(pow256(2) == 0x10000) by {
        reveal_with_fuel(pow256, 3);
    }
    assert(pow256(4) == 0x100000000) by {
        reveal_with_fuel(pow256, 5);
    }
    let t = frame_wire(0x04, 0, stream as int, op, body) + rest;
    lemma_be_bytes_signed_len(stream as int, 2);
    lemma_be_bytes_len(body.len(), 4);
    assert(t[0] == 0x04);
    assert(t[1] == 0);
    assert(t.skip(2).take(2) =~= be_bytes_signed(stream as int, 2));
    lemma_be_signed_round_trip(stream as int, 2);
    assert(t[4] == opcode_byte(op));
    assert(spec_opcode_of(opcode_byte(op)) == Some(op));
    assert(t.skip(5).take(4) =~= be_bytes(body.len(), 4));
    lemma_be_value_of_be_bytes(body.len(), 4);
    assert(be_value_signed(t.skip(5).take(4)) == body.len()) by {
        assert(t.skip(5).take(4).len() == 4);
    }
    assert(t.subrange(9, 9 + body.len() as int) =~= body);
}

} // verus!
