//! Protocol buffer wire encoding: varints, field keys and the field shapes
//! that a `pprof` message is made of.
use vstd::prelude::*;
use vstd::utf8::encode_utf8;

verus! {

/// The base-128 varint of `v`: seven bits per byte, least significant first,
/// the high bit set on every byte but the last.
pub open spec fn varint(v: nat) -> Seq<u8>
    decreases v,
{
    if v < 128 {
        seq![v as u8]
    } else {
        seq![(v % 128 + 128) as u8] + varint(v / 128)
    }
}

pub const WIRE_VARINT: u64 = 0;

pub const WIRE_LEN: u64 = 2;

/// The key that opens field `tag` of wire type `wire`.
pub open spec fn field_key(tag: nat, wire: nat) -> Seq<u8> {
    varint(tag * 8 + wire)
}

/// An `int64` field; zero is left out.
pub open spec fn int64_field(tag: nat, v: i64) -> Seq<u8> {
    if v == 0 {
        Seq::empty()
    } else {
        field_key(tag, 0) + varint(v as u64 as nat)
    }
}

/// A `uint64` field; zero is left out.
pub open spec fn uint64_field(tag: nat, v: u64) -> Seq<u8> {
    if v == 0 {
        Seq::empty()
    } else {
        field_key(tag, 0) + varint(v as nat)
    }
}

/// A `bool` field; false is left out.
pub open spec fn bool_field(tag: nat, b: bool) -> Seq<u8> {
    if b {
        field_key(tag, 0) + seq![1u8]
    } else {
        Seq::empty()
    }
}

/// A length-delimited field: a string's bytes or an embedded message.
pub open spec fn len_field(tag: nat, body: Seq<u8>) -> Seq<u8> {
    field_key(tag, 2) + varint(body.len()) + body
}

/// The varints of signed values, one after another.
pub open spec fn varints_i64(vs: Seq<i64>) -> Seq<u8>
    decreases vs.len(),
{
    if vs.len() == 0 {
        Seq::empty()
    } else {
        varints_i64(vs.drop_last()) + varint(vs.last() as u64 as nat)
    }
}

/// The varints of unsigned values, one after another.
pub open spec fn varints_u64(vs: Seq<u64>) -> Seq<u8>
    decreases vs.len(),
{
    if vs.len() == 0 {
        Seq::empty()
    } else {
        varints_u64(vs.drop_last()) + varint(vs.last() as nat)
    }
}

/// A packed repeated `int64` field; an empty one is left out.
pub open spec fn packed_i64_field(tag: nat, vs: Seq<i64>) -> Seq<u8> {
    if vs.len() == 0 {
        Seq::empty()
    } else {
        len_field(tag, varints_i64(vs))
    }
}

/// A packed repeated `uint64` field; an empty one is left out.
pub open spec fn packed_u64_field(tag: nat, vs: Seq<u64>) -> Seq<u8> {
    if vs.len() == 0 {
        Seq::empty()
    } else {
        len_field(tag, varints_u64(vs))
    }
}

/// Relies on `prost::encoding::encode_varint`: appends the varint of `v`.
#[verifier::external_body]
pub(crate) fn put_varint(v: u64, buf: &mut Vec<u8>)
    ensures
        final(buf)@ == old(buf)@ + varint(v as nat),
{
    prost::encoding::encode_varint(v, buf)
}

/// Appends the key of field `tag` with wire type `wire`.
pub fn put_key(tag: u64, wire: u64, buf: &mut Vec<u8>)
    requires
        1 <= tag <= 1000,
        wire <= 7,
    ensures
        final(buf)@ == old(buf)@ + field_key(tag as nat, wire as nat),
{
    put_varint(tag * 8 + wire, buf);
}

pub fn put_int64(tag: u64, v: i64, buf: &mut Vec<u8>)
    requires
        1 <= tag <= 1000,
    ensures
        final(buf)@ == old(buf)@ + int64_field(tag as nat, v),
{
    if v != 0 {
        put_key(tag, WIRE_VARINT, buf);
        put_varint(v as u64, buf);
        assert(final(buf)@ =~= old(buf)@ + int64_field(tag as nat, v));
    } else {
        assert(buf@ =~= old(buf)@ + int64_field(tag as nat, v));
    }
}

pub fn put_uint64(tag: u64, v: u64, buf: &mut Vec<u8>)
    requires
        1 <= tag <= 1000,
    ensures
        final(buf)@ == old(buf)@ + uint64_field(tag as nat, v),
{
    if v != 0 {
        put_key(tag, WIRE_VARINT, buf);
        put_varint(v, buf);
        assert(final(buf)@ =~= old(buf)@ + uint64_field(tag as nat, v));
    } else {
        assert(buf@ =~= old(buf)@ + uint64_field(tag as nat, v));
    }
}

pub fn put_bool(tag: u64, b: bool, buf: &mut Vec<u8>)
    requires
        1 <= tag <= 1000,
    ensures
        final(buf)@ == old(buf)@ + bool_field(tag as nat, b),
{
    if b {
        put_key(tag, WIRE_VARINT, buf);
        buf.push(1u8);
        assert(final(buf)@ =~= old(buf)@ + bool_field(tag as nat, b));
    } else {
        assert(buf@ =~= old(buf)@ + bool_field(tag as nat, b));
    }
}

/// Appends field `tag` holding `body`, and empties `body`.
pub fn put_len_field(tag: u64, body: &mut Vec<u8>, buf: &mut Vec<u8>)
    requires
        1 <= tag <= 1000,
    ensures
        final(buf)@ == old(buf)@ + len_field(tag as nat, old(body)@),
{
    put_key(tag, WIRE_LEN, buf);
    put_varint(body.len() as u64, buf);
    buf.append(body);
    assert(final(buf)@ =~= old(buf)@ + len_field(tag as nat, old(body)@));
}

/// Appends a string field: the UTF-8 bytes of `s`.
pub fn put_string(tag: u64, s: &String, buf: &mut Vec<u8>)
    requires
        1 <= tag <= 1000,
    ensures
        final(buf)@ == old(buf)@ + len_field(tag as nat, encode_utf8(s@)),
{
    let bytes = s.as_str().as_bytes();
    let mut body: Vec<u8> = Vec::with_capacity(bytes.len());
    let mut i: usize = 0;
    while i < bytes.len()
        invariant
            i <= bytes@.len(),
            body@ == bytes@.subrange(0, i as int),
        decreases bytes@.len() - i,
    {
        body.push(bytes[i]);
        i += 1;
        assert(body@ =~= bytes@.subrange(0, i as int));
    }
    assert(body@ =~= bytes@);
    put_len_field(tag, &mut body, buf);
}

pub fn put_packed_i64(tag: u64, vs: &Vec<i64>, buf: &mut Vec<u8>)
    requires
        1 <= tag <= 1000,
    ensures
        final(buf)@ == old(buf)@ + packed_i64_field(tag as nat, vs@),
{
    if vs.len() == 0 {
        assert(buf@ =~= old(buf)@ + packed_i64_field(tag as nat, vs@));
        return;
    }
    let mut body: Vec<u8> = Vec::new();
    let mut i: usize = 0;
    while i < vs.len()
        invariant
            i <= vs@.len(),
            body@ == varints_i64(vs@.subrange(0, i as int)),
        decreases vs@.len() - i,
    {
        put_varint(vs[i] as u64, &mut body);
        assert(vs@.subrange(0, i + 1).drop_last() =~= vs@.subrange(0, i as int));
        i += 1;
    }
    assert(vs@.subrange(0, vs@.len() as int) =~= vs@);
    put_len_field(tag, &mut body, buf);
}

pub fn put_packed_u64(tag: u64, vs: &Vec<u64>, buf: &mut Vec<u8>)
    requires
        1 <= tag <= 1000,
    ensures
        final(buf)@ == old(buf)@ + packed_u64_field(tag as nat, vs@),
{
    if vs.len() == 0 {
        assert(buf@ =~= old(buf)@ + packed_u64_field(tag as nat, vs@));
        return;
    }
    let mut body: Vec<u8> = Vec::new();
    let mut i: usize = 0;
    while i < vs.len()
        invariant
            i <= vs@.len(),
            body@ == varints_u64(vs@.subrange(0, i as int)),
        decreases vs@.len() - i,
    {
        put_varint(vs[i], &mut body);
        assert(vs@.subrange(0, i + 1).drop_last() =~= vs@.subrange(0, i as int));
        i += 1;
    }
    assert(vs@.subrange(0, vs@.len() as int) =~= vs@);
    put_len_field(tag, &mut body, buf);
}

} // verus!

verus! {

/// The value of the varint that `b` starts with and the number of its bytes;
/// `None` where `b` ends inside a varint.
pub open spec fn read_varint(b: Seq<u8>) -> Option<(nat, nat)>
    decreases b.len(),
{
    if b.len() == 0 {
        None
    } else if b[0] < 128 {
        Some((b[0] as nat, 1))
    } else {
        match read_varint(b.subrange(1, b.len() as int)) {
            Some((v, n)) => Some(((b[0] - 128) as nat + 128 * v, n + 1)),
            None => None,
        }
    }
}

/// Reading a varint back gives the value written, whatever follows it.
pub proof fn varint_round_trip(v: nat, rest: Seq<u8>)
    ensures
        read_varint(varint(v) + rest) == Some((v, varint(v).len())),
    decreases v,
{
    let b = varint(v) + rest;
    if v >= 128 {
        varint_round_trip(v / 128, rest);
        assert(b.subrange(1, b.len() as int) =~= varint(v / 128) + rest);
        assert(b[0] == (v % 128 + 128) as u8);
        assert(v == v % 128 + 128 * (v / 128)) by (nonlinear_arith);
    }
}

/// The values of the varints that fill `b`, in order.
pub open spec fn read_varints(b: Seq<u8>) -> Seq<nat>
    decreases b.len(),
{
    match read_varint(b) {
        Some((v, n)) => if 0 < n <= b.len() {
            seq![v] + read_varints(b.subrange(n as int, b.len() as int))
        } else {
            Seq::empty()
        },
        None => Seq::empty(),
    }
}

/// The varints of `vs` written from the front.
proof fn lemma_varints_front(vs: Seq<u64>)
    requires
        vs.len() > 0,
    ensures
        varints_u64(vs) == varint(vs[0] as nat) + varints_u64(vs.subrange(1, vs.len() as int)),
    decreases vs.len(),
{
    if vs.len() > 1 {
        let d = vs.drop_last();
        let rest = vs.subrange(1, vs.len() as int);
        lemma_varints_front(d);
        assert(d.subrange(1, d.len() as int) =~= rest.drop_last());
        assert(rest.last() == vs.last());
        assert(d[0] == vs[0]);
        assert(varints_u64(rest) == varints_u64(rest.drop_last()) + varint(rest.last() as nat));
        assert(varints_u64(vs) == varints_u64(d) + varint(vs.last() as nat));
        assert(varints_u64(d) == varint(vs[0] as nat) + varints_u64(rest.drop_last()));
        assert(varints_u64(vs) =~= varint(vs[0] as nat) + varints_u64(rest));
    } else {
        assert(vs.drop_last().len() == 0);
        assert(vs.subrange(1, vs.len() as int).len() == 0);
        assert(varints_u64(vs.drop_last()) == Seq::<u8>::empty());
        assert(varints_u64(vs.subrange(1, vs.len() as int)) == Seq::<u8>::empty());
        assert(vs.last() == vs[0]);
        assert(varints_u64(vs) =~= varint(vs[0] as nat) + varints_u64(vs.subrange(1, vs.len() as int)));
    }
}

/// Reading back the body of a packed `uint64` field gives the values
/// written, in order.
pub proof fn packed_u64_round_trip(vs: Seq<u64>)
    ensures
        read_varints(varints_u64(vs)) == vs.map_values(|v: u64| v as nat),
    decreases vs.len(),
{
    if vs.len() == 0 {
        assert(read_varints(Seq::empty()) == Seq::<nat>::empty());
        assert(vs.map_values(|v: u64| v as nat) =~= Seq::<nat>::empty());
    } else {
        let rest = vs.subrange(1, vs.len() as int);
        lemma_varints_front(vs);
        varint_round_trip(vs[0] as nat, varints_u64(rest));
        packed_u64_round_trip(rest);
        let b = varints_u64(vs);
        let n = varint(vs[0] as nat).len();
        assert(b.subrange(n as int, b.len() as int) =~= varints_u64(rest));
        assert(vs.map_values(|v: u64| v as nat) =~= seq![vs[0] as nat] + rest.map_values(
            |v: u64| v as nat,
        ));
    }
}

} // verus!

verus! {

proof fn lemma_signed_varints_front(vs: Seq<i64>)
    requires
        vs.len() > 0,
    ensures
        varints_i64(vs) == varint(vs[0] as u64 as nat) + varints_i64(vs.subrange(1, vs.len() as int)),
    decreases vs.len(),
{
    let rest = vs.subrange(1, vs.len() as int);
    if vs.len() > 1 {
        let d = vs.drop_last();
        lemma_signed_varints_front(d);
        assert(d.subrange(1, d.len() as int) =~= rest.drop_last());
        assert(rest.last() == vs.last());
        assert(d[0] == vs[0]);
        assert(varints_i64(rest) == varints_i64(rest.drop_last()) + varint(rest.last() as u64 as nat));
        assert(varints_i64(vs) == varints_i64(d) + varint(vs.last() as u64 as nat));
        assert(varints_i64(vs) =~= varint(vs[0] as u64 as nat) + varints_i64(rest));
    } else {
        assert(varints_i64(vs.drop_last()) == Seq::<u8>::empty());
        assert(varints_i64(rest) == Seq::<u8>::empty());
        assert(vs.last() == vs[0]);
        assert(varints_i64(vs) =~= varint(vs[0] as u64 as nat) + varints_i64(rest));
    }
}

/// Reading back the body of a packed `int64` field gives the values written,
/// each as the unsigned integer with the same 64 bits.
pub proof fn packed_i64_round_trip(vs: Seq<i64>)
    ensures
        read_varints(varints_i64(vs)) == vs.map_values(|v: i64| v as u64 as nat),
    decreases vs.len(),
{
    if vs.len() == 0 {
        assert(read_varints(Seq::empty()) == Seq::<nat>::empty());
        assert(vs.map_values(|v: i64| v as u64 as nat) =~= Seq::<nat>::empty());
    } else {
        let rest = vs.subrange(1, vs.len() as int);
        lemma_signed_varints_front(vs);
        varint_round_trip(vs[0] as u64 as nat, varints_i64(rest));
        packed_i64_round_trip(rest);
        let b = varints_i64(vs);
        let n = varint(vs[0] as u64 as nat).len();
        assert(b.subrange(n as int, b.len() as int) =~= varints_i64(rest));
        assert(vs.map_values(|v: i64| v as u64 as nat) =~= seq![vs[0] as u64 as nat]
            + rest.map_values(|v: i64| v as u64 as nat));
    }
}

} // verus!
