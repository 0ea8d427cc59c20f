//! Canonical byte encodings used by the persisted side of the engine:
//! big-endian integers (so that numeric order agrees with lexicographic
//! byte order), length-prefixed strings, and the record encoding that
//! record writers store under primary keys.

use vstd::bytes::{
    lemma_auto_spec_u32_to_from_le_bytes, lemma_auto_spec_u64_to_from_le_bytes,
    spec_u32_to_le_bytes, spec_u64_from_le_bytes, spec_u64_to_le_bytes, u32_to_le_bytes,
    u64_from_le_bytes, u64_to_le_bytes,
};
use vstd::prelude::*;

use crate::types::{Field, Record, SchemaIdentifier};

verus! {

/// Big-endian bytes of a `u64`: the little-endian encoding reversed.
pub open spec fn spec_u64_to_be_bytes(x: u64) -> Seq<u8> {
    spec_u64_to_le_bytes(x).reverse()
}

/// The `u64` read back from 8 big-endian bytes.
pub open spec fn spec_u64_from_be_bytes(s: Seq<u8>) -> u64
    recommends
        s.len() == 8,
{
    spec_u64_from_le_bytes(s.reverse())
}

/// Big-endian bytes of a `u32`.
pub open spec fn spec_u32_to_be_bytes(x: u32) -> Seq<u8> {
    spec_u32_to_le_bytes(x).reverse()
}

/// Reversing twice gives the sequence back.
proof fn lemma_reverse_reverse<A>(s: Seq<A>)
    ensures
        s.reverse().reverse() =~= s,
{
}

/// Concatenation of sequences is associative.
pub(crate) proof fn lemma_add_assoc<A>(a: Seq<A>, b: Seq<A>, c: Seq<A>)
    ensures
        (a + b) + c =~= a + (b + c),
{
}

/// The big-endian round trip: decoding the encoding of `x` yields `x`.
pub proof fn lemma_u64_be_bytes_roundtrip(x: u64)
    ensures
        spec_u64_to_be_bytes(x).len() == 8,
        spec_u64_from_be_bytes(spec_u64_to_be_bytes(x)) == x,
{
    lemma_auto_spec_u64_to_from_le_bytes();
    lemma_reverse_reverse(spec_u64_to_le_bytes(x));
}

pub fn u64_to_be_bytes(x: u64) -> (r: Vec<u8>)
    ensures
        r@ == spec_u64_to_be_bytes(x),
        r@.len() == 8,
{
    let le = u64_to_le_bytes(x);
    proof {
        lemma_auto_spec_u64_to_from_le_bytes();
    }
    let mut r: Vec<u8> = Vec::new();
    let mut i: usize = 0;
    while i < 8
        invariant
            le@ == spec_u64_to_le_bytes(x),
            le@.len() == 8,
            i <= 8,
            r@.len() == i,
            forall|j: int| 0 <= j < i ==> r@[j] == le@[7 - j],
        decreases 8 - i,
    {
        r.push(le[7 - i]);
        i += 1;
    }
    proof {
        assert(r@ =~= spec_u64_to_le_bytes(x).reverse());
    }
    r
}

pub fn u64_from_be_bytes(s: &[u8]) -> (x: u64)
    requires
        s@.len() == 8,
    ensures
        x == spec_u64_from_be_bytes(s@),
{
    let mut rev: Vec<u8> = Vec::new();
    let mut i: usize = 0;
    while i < 8
        invariant
            s@.len() == 8,
            i <= 8,
            rev@.len() == i,
            forall|j: int| 0 <= j < i ==> rev@[j] == s@[7 - j],
        decreases 8 - i,
    {
        rev.push(s[7 - i]);
        i += 1;
    }
    proof {
        assert(rev@ =~= s@.reverse());
    }
    u64_from_le_bytes(rev.as_slice())
}

pub fn u32_to_be_bytes(x: u32) -> (r: Vec<u8>)
    ensures
        r@ == spec_u32_to_be_bytes(x),
        r@.len() == 4,
{
    let le = u32_to_le_bytes(x);
    proof {
        lemma_auto_spec_u32_to_from_le_bytes();
    }
    let mut r: Vec<u8> = Vec::new();
    let mut i: usize = 0;
    while i < 4
        invariant
            le@ == spec_u32_to_le_bytes(x),
            le@.len() == 4,
            i <= 4,
            r@.len() == i,
            forall|j: int| 0 <= j < i ==> r@[j] == le@[3 - j],
        decreases 4 - i,
    {
        r.push(le[3 - i]);
        i += 1;
    }
    proof {
        assert(r@ =~= spec_u32_to_le_bytes(x).reverse());
    }
    r
}

/// The two's-complement image of an `i64` carried in a `u64`.
pub open spec fn spec_i64_as_u64(x: i64) -> u64 {
    x as u64
}

/// Big-endian state encoding of a signed counter.
pub open spec fn spec_i64_to_be_bytes(x: i64) -> Seq<u8> {
    spec_u64_to_be_bytes(x as u64)
}

/// The signed counter read back from its 8-byte state.
pub open spec fn spec_i64_from_be_bytes(s: Seq<u8>) -> i64
    recommends
        s.len() == 8,
{
    spec_u64_from_be_bytes(s) as i64
}

/// Casting an `i64` through `u64` and back is the identity.
pub proof fn lemma_i64_u64_roundtrip(x: i64)
    ensures
        (x as u64) as i64 == x,
{
    assert((x as u64) as i64 == x) by (bit_vector);
}

/// The signed round trip over big-endian state bytes.
pub proof fn lemma_i64_be_bytes_roundtrip(x: i64)
    ensures
        spec_i64_to_be_bytes(x).len() == 8,
        spec_i64_from_be_bytes(spec_i64_to_be_bytes(x)) == x,
{
    lemma_u64_be_bytes_roundtrip(x as u64);
    lemma_i64_u64_roundtrip(x);
}

pub fn i64_to_be_bytes(x: i64) -> (r: Vec<u8>)
    ensures
        r@ == spec_i64_to_be_bytes(x),
        r@.len() == 8,
{
    u64_to_be_bytes(x as u64)
}

pub fn i64_from_be_bytes(s: &[u8]) -> (x: i64)
    requires
        s@.len() == 8,
    ensures
        x == spec_i64_from_be_bytes(s@),
{
    u64_from_be_bytes(s) as i64
}

/// Canonical bytes of a character sequence: each scalar as 4 big-endian
/// bytes.  Fixed width keeps the encoding prefix-free given the length.
pub open spec fn spec_chars_to_bytes(s: Seq<char>) -> Seq<u8>
    decreases s.len(),
{
    if s.len() == 0 {
        Seq::empty()
    } else {
        spec_u32_to_be_bytes(s[0] as u32) + spec_chars_to_bytes(s.skip(1))
    }
}

/// Canonical bytes of a string: character count, then each character.
pub open spec fn spec_string_to_bytes(s: Seq<char>) -> Seq<u8> {
    spec_u32_to_be_bytes(s.len() as u32) + spec_chars_to_bytes(s)
}

proof fn lemma_chars_to_bytes_push(s: Seq<char>, c: char)
    ensures
        spec_chars_to_bytes(s.push(c)) =~= spec_chars_to_bytes(s) + spec_u32_to_be_bytes(
            c as u32,
        ),
    decreases s.len(),
{
    if s.len() == 0 {
        assert(s.push(c).skip(1) =~= Seq::<char>::empty());
        assert(s.push(c)[0] == c);
        Seq::<u8>::add_empty_right(
            spec_u32_to_be_bytes(c as u32),
            spec_chars_to_bytes(Seq::<char>::empty()),
        );
        Seq::<u8>::add_empty_left(spec_chars_to_bytes(s), spec_u32_to_be_bytes(c as u32));
    } else {
        assert(s.push(c).skip(1) =~= s.skip(1).push(c));
        assert(s.push(c)[0] == s[0]);
        lemma_chars_to_bytes_push(s.skip(1), c);
        assert(spec_chars_to_bytes(s.push(c)) == spec_u32_to_be_bytes(s[0] as u32) + (
        spec_chars_to_bytes(s.skip(1)) + spec_u32_to_be_bytes(c as u32)));
        lemma_add_assoc(
            spec_u32_to_be_bytes(s[0] as u32),
            spec_chars_to_bytes(s.skip(1)),
            spec_u32_to_be_bytes(c as u32),
        );
    }
}

/// Encodes a string into its canonical bytes.
pub fn string_to_bytes(s: &str) -> (r: Vec<u8>)
    requires
        s@.len() <= u32::MAX,
    ensures
        r@ == spec_string_to_bytes(s@),
{
    let n = s.unicode_len();
    let mut r = u32_to_be_bytes(n as u32);
    let mut i: usize = 0;
    while i < n
        invariant
            n == s@.len(),
            n <= u32::MAX,
            i <= n,
            r@ == spec_u32_to_be_bytes(n as u32) + spec_chars_to_bytes(s@.take(i as int)),
        decreases n - i,
    {
        let c = s.get_char(i);
        let mut cb = u32_to_be_bytes(c as u32);
        proof {
            assert(s@.take(i as int).push(s@[i as int]) =~= s@.take(i + 1));
            lemma_chars_to_bytes_push(s@.take(i as int), s@[i as int]);
        }
        r.append(&mut cb);
        i += 1;
    }
    proof {
        assert(s@.take(n as int) =~= s@);
    }
    r
}

/// Canonical bytes of one field value: a tag byte, then the payload.
pub open spec fn spec_field_to_bytes(f: Field) -> Seq<u8> {
    match f {
        Field::UInt(x) => seq![1u8] + spec_u64_to_be_bytes(x),
        Field::Int(x) => seq![2u8] + spec_i64_to_be_bytes(x),
        Field::Boolean(b) => seq![3u8, (if b { 1u8 } else { 0u8 })],
        Field::String(s) => seq![4u8] + spec_string_to_bytes(s@),
        Field::Text(s) => seq![5u8] + spec_string_to_bytes(s@),
        Field::Binary(b) => seq![6u8] + spec_u32_to_be_bytes(b@.len() as u32) + b@,
        Field::Null => seq![0u8],
    }
}

/// A field can be encoded when its payload length fits the prefix.
pub open spec fn spec_field_encodable(f: Field) -> bool {
    match f {
        Field::String(s) => s@.len() <= u32::MAX,
        Field::Text(s) => s@.len() <= u32::MAX,
        Field::Binary(b) => b@.len() <= u32::MAX,
        _ => true,
    }
}

pub fn field_to_bytes(f: &Field) -> (r: Vec<u8>)
    requires
        spec_field_encodable(*f),
    ensures
        r@ == spec_field_to_bytes(*f),
{
    let mut r: Vec<u8> = Vec::new();
    match f {
        Field::UInt(x) => {
            r.push(1u8);
            let mut b = u64_to_be_bytes(*x);
            r.append(&mut b);
        }
        Field::Int(x) => {
            r.push(2u8);
            let mut b = i64_to_be_bytes(*x);
            r.append(&mut b);
        }
        Field::Boolean(b) => {
            r.push(3u8);
            r.push(if *b { 1u8 } else { 0u8 });
        }
        Field::String(s) => {
            r.push(4u8);
            let mut b = string_to_bytes(s.as_str());
            r.append(&mut b);
        }
        Field::Text(s) => {
            r.push(5u8);
            let mut b = string_to_bytes(s.as_str());
            r.append(&mut b);
        }
        Field::Binary(bytes) => {
            r.push(6u8);
            let mut b = u32_to_be_bytes(bytes.len() as u32);
            r.append(&mut b);
            let mut payload = bytes.clone();
            r.append(&mut payload);
        }
        Field::Null => {
            r.push(0u8);
        }
    }
    proof {
        assert(r@ =~= spec_field_to_bytes(*f));
    }
    r
}

/// Canonical bytes of a sequence of field values.
pub open spec fn spec_fields_to_bytes(fs: Seq<Field>) -> Seq<u8>
    decreases fs.len(),
{
    if fs.len() == 0 {
        Seq::empty()
    } else {
        spec_field_to_bytes(fs[0]) + spec_fields_to_bytes(fs.skip(1))
    }
}

proof fn lemma_fields_to_bytes_push(fs: Seq<Field>, f: Field)
    ensures
        spec_fields_to_bytes(fs.push(f)) =~= spec_fields_to_bytes(fs) + spec_field_to_bytes(f),
    decreases fs.len(),
{
    if fs.len() == 0 {
        assert(fs.push(f).skip(1) =~= Seq::<Field>::empty());
        assert(fs.push(f)[0] == f);
        Seq::<u8>::add_empty_right(
            spec_field_to_bytes(f),
            spec_fields_to_bytes(Seq::<Field>::empty()),
        );
        Seq::<u8>::add_empty_left(spec_fields_to_bytes(fs), spec_field_to_bytes(f));
    } else {
        assert(fs.push(f).skip(1) =~= fs.skip(1).push(f));
        assert(fs.push(f)[0] == fs[0]);
        lemma_fields_to_bytes_push(fs.skip(1), f);
        assert(spec_fields_to_bytes(fs.push(f)) == spec_field_to_bytes(fs[0]) + (
        spec_fields_to_bytes(fs.skip(1)) + spec_field_to_bytes(f)));
        lemma_add_assoc(
            spec_field_to_bytes(fs[0]),
            spec_fields_to_bytes(fs.skip(1)),
            spec_field_to_bytes(f),
        );
    }
}

/// Canonical bytes of a whole record: schema identity, version, then
/// the field count and every field value.
pub open spec fn spec_record_to_bytes(r: Record) -> Seq<u8> {
    spec_schema_id_to_bytes(r.schema_id) + spec_version_to_bytes(r.version) + spec_u32_to_be_bytes(
        r.values@.len() as u32,
    ) + spec_fields_to_bytes(r.values@)
}

pub open spec fn spec_schema_id_to_bytes(s: Option<SchemaIdentifier>) -> Seq<u8> {
    match s {
        Option::None => seq![0u8],
        Option::Some(id) => seq![1u8] + spec_u32_to_be_bytes(id.id) + spec_u32_to_be_bytes(
            id.version as u32,
        ),
    }
}

pub open spec fn spec_version_to_bytes(v: Option<u32>) -> Seq<u8> {
    match v {
        Option::None => seq![0u8],
        Option::Some(x) => seq![1u8] + spec_u32_to_be_bytes(x),
    }
}

/// A record can be encoded when every field can and the count fits.
pub open spec fn spec_record_encodable(r: Record) -> bool {
    &&& r.values@.len() <= u32::MAX
    &&& forall|i: int| 0 <= i < r.values@.len() ==> spec_field_encodable(#[trigger] r.values@[i])
}

pub fn record_to_bytes(r: &Record) -> (out: Vec<u8>)
    requires
        spec_record_encodable(*r),
    ensures
        out@ == spec_record_to_bytes(*r),
{
    let mut out: Vec<u8> = Vec::new();
    match &r.schema_id {
        Option::None => {
            out.push(0u8);
        }
        Option::Some(id) => {
            out.push(1u8);
            let mut b = u32_to_be_bytes(id.id);
            out.append(&mut b);
            let mut b2 = u32_to_be_bytes(id.version as u32);
            out.append(&mut b2);
        }
    }
    match &r.version {
        Option::None => {
            out.push(0u8);
        }
        Option::Some(x) => {
            out.push(1u8);
            let mut b = u32_to_be_bytes(*x);
            out.append(&mut b);
        }
    }
    let mut cnt = u32_to_be_bytes(r.values.len() as u32);
    out.append(&mut cnt);
    let ghost prefix = out@;
    let mut i: usize = 0;
    while i < r.values.len()
        invariant
            spec_record_encodable(*r),
            i <= r.values@.len(),
            out@ == prefix + spec_fields_to_bytes(r.values@.take(i as int)),
        decreases r.values@.len() - i,
    {
        let mut fb = field_to_bytes(&r.values[i]);
        proof {
            assert(r.values@.take(i as int).push(r.values@[i as int]) =~= r.values@.take(i + 1));
            lemma_fields_to_bytes_push(r.values@.take(i as int), r.values@[i as int]);
        }
        out.append(&mut fb);
        i += 1;
    }
    proof {
        assert(r.values@.take(r.values@.len() as int) =~= r.values@);
        assert(out@ =~= spec_record_to_bytes(*r));
    }
    out
}

} // verus!
