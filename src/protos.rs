use vstd::prelude::*;
use vstd::arithmetic::power::pow;
use vstd::slice::slice_subrange;
use quick_protobuf::{BytesReader, Writer};

verus! {

/// Why a request message could not be read.
#[derive(Clone, Copy, Debug, PartialEq, Eq, Structural)]
pub enum DecodeError {
    /// A field tag could not be read.
    Tag,
    /// A field's value could not be read or skipped.
    Field,
}

/// Where the varint that starts at `i` in `b` ends: after the first byte from `i` on whose high
/// bit is clear. `None` when the bytes run out first, or when no such byte is among the first
/// ten from the start.
pub open spec fn varint_end(b: Seq<u8>, i: nat) -> Option<nat>
    decreases 10 - i,
{
    if i >= 10 || i >= b.len() {
        None
    } else if b[i as int] < 128 {
        Some(i + 1)
    } else {
        varint_end(b, i + 1)
    }
}

/// The number that the first `n` bytes of `b` encode as a varint: seven bits from each byte,
/// least significant first.
pub open spec fn varint_value(b: Seq<u8>, n: nat) -> int
    decreases n,
{
    if n == 0 || n > b.len() {
        0
    } else {
        varint_value(b, (n - 1) as nat) + (b[n - 1] % 128) as int * pow(128, (n - 1) as nat)
    }
}

/// How many bytes the value of a field with wire type `wire` takes at the start of `r`: a
/// varint for type 0, eight bytes for type 1, four for type 5, and for type 2 a varint length
/// (taken modulo 2^64) followed by that many bytes. `None` when the bytes run out, or for any
/// other wire type.
pub open spec fn skipped_len(r: Seq<u8>, wire: int) -> Option<nat> {
    if wire == 0 {
        varint_end(r, 0)
    } else if wire == 1 {
        if r.len() >= 8 {
            Some(8)
        } else {
            None
        }
    } else if wire == 5 {
        if r.len() >= 4 {
            Some(4)
        } else {
            None
        }
    } else if wire == 2 {
        match varint_end(r, 0) {
            None => None,
            Some(n) => {
                let len = varint_value(r, n) % 0x1_0000_0000_0000_0000;
                if len <= r.len() - n {
                    Some((n + len) as nat)
                } else {
                    None
                }
            },
        }
    } else {
        None
    }
}

proof fn lemma_varint_end_bounds(b: Seq<u8>, i: nat)
    ensures
        varint_end(b, i) matches Some(n) ==> i < n <= b.len(),
    decreases 10 - i,
{
    if i < 10 && i < b.len() && b[i as int] >= 128 {
        lemma_varint_end_bounds(b, i + 1);
    }
}

proof fn lemma_skipped_len_bounds(r: Seq<u8>, wire: int)
    ensures
        skipped_len(r, wire) matches Some(k) ==> 0 < k <= r.len(),
{
    lemma_varint_end_bounds(r, 0);
}

#[via_fn]
proof fn fields_ok_decreases(b: Seq<u8>) {
    lemma_varint_end_bounds(b, 0);
    if let Some(t) = varint_end(b, 0) {
        let rest = b.subrange(t as int, b.len() as int);
        lemma_skipped_len_bounds(rest, (b[0] % 8) as int);
    }
}

/// Whether `b` is a sequence of whole fields: each a varint tag, whose low three bits (those of
/// its first byte) give the wire type, followed by a value of that type.
pub open spec fn spec_fields_ok(b: Seq<u8>) -> bool
    decreases b.len(),
    via fields_ok_decreases
{
    if b.len() == 0 {
        true
    } else {
        match varint_end(b, 0) {
            None => false,
            Some(t) => {
                let rest = b.subrange(t as int, b.len() as int);
                match skipped_len(rest, (b[0] % 8) as int) {
                    None => false,
                    Some(k) => spec_fields_ok(rest.subrange(k as int, rest.len() as int)),
                }
            },
        }
    }
}

/// Relies on quick_protobuf's `BytesReader::next_tag` (`read_varint32`) on a reader over
/// `bytes`: it reads the varint at the start, ten bytes at most, and fails when the bytes run
/// out first. Gives the tag, whose low three bits are those of the first byte, and how many
/// bytes remain after it.
#[verifier::external_body]
fn read_tag(bytes: &[u8]) -> (r: Option<(u32, usize)>)
    ensures
        match r {
            Some((tag, rest)) => varint_end(bytes@, 0) matches Some(t) && rest == bytes@.len() - t
                && tag as int % 8 == bytes@[0] as int % 8,
            None => varint_end(bytes@, 0) is None,
        },
{
    let mut reader = BytesReader::from_bytes(bytes);
    let tag = reader.next_tag(bytes).ok()?;
    Some((tag, reader.len()))
}

/// Relies on quick_protobuf's `BytesReader::read_unknown` on a reader over `bytes`: skips the
/// value of a field by the wire type in the low three bits of `tag` (see `skipped_len`) and
/// tells how many bytes remain after it.
#[verifier::external_body]
fn skip_field(bytes: &[u8], tag: u32) -> (r: Option<usize>)
    ensures
        match r {
            Some(rest) => skipped_len(bytes@, tag as int % 8) matches Some(k) && rest == bytes@.len()
                - k,
            None => skipped_len(bytes@, tag as int % 8) is None,
        },
{
    let mut reader = BytesReader::from_bytes(bytes);
    reader.read_unknown(bytes, tag).ok()?;
    Some(reader.len())
}

/// Relies on quick_protobuf's `Writer::write_tag` over a `Vec`, which writes through std's
/// `Write` for `Vec` and cannot fail: appends the tag as a varint, one byte for a tag under 128.
#[verifier::external_body]
fn write_tag(out: &mut Vec<u8>, tag: u32)
    ensures
        tag < 128 ==> final(out)@ == old(out)@.push(tag as u8),
{
    let _ = Writer::new(out).write_tag(tag);
}

/// Relies on quick_protobuf's `Writer::write_bool` over a `Vec`, which cannot fail: appends one
/// byte, 1 for true and 0 for false.
#[verifier::external_body]
fn write_bool(out: &mut Vec<u8>, value: bool)
    ensures
        final(out)@ == old(out)@.push(if value { 1u8 } else { 0u8 }),
{
    let _ = Writer::new(out).write_bool(value);
}

/// Reads a message whose schema has no fields: every field present is read and skipped, so that
/// a truncated or corrupted body is refused. An empty body is a valid message.
pub fn read_empty_message(body: &[u8]) -> (r: Result<(), DecodeError>)
    ensures
        r is Ok <==> spec_fields_ok(body@),
{
    let mut rest: &[u8] = body;
    while rest.len() > 0
        invariant
            rest@.len() <= body@.len(),
            spec_fields_ok(body@) == spec_fields_ok(rest@),
        decreases rest@.len(),
    {
        let (tag, after_tag) = match read_tag(rest) {
            Some(t) => t,
            None => return Err(DecodeError::Tag),
        };
        let n = rest.len();
        let fields = slice_subrange(rest, n - after_tag, n);
        let after_value = match skip_field(fields, tag) {
            Some(a) => a,
            None => return Err(DecodeError::Field),
        };
        let m = fields.len();
        proof {
            lemma_varint_end_bounds(rest@, 0);
            lemma_skipped_len_bounds(fields@, tag as int % 8);
        }
        rest = slice_subrange(fields, m - after_value, m);
    }
    Ok(())
}

/// The parameters of the token check. Its schema has no fields.
#[derive(Clone, Copy, Debug, PartialEq, Eq, Structural)]
pub struct CheckTokenParams {}

/// The parameters of the test token check. Its schema has no fields.
#[derive(Clone, Copy, Debug, PartialEq, Eq, Structural)]
pub struct CheckTokenTestParams {}

/// The outcome of the token check: field 1, a bool.
#[derive(Clone, Copy, Debug, PartialEq, Eq, Structural)]
pub struct CheckTokenResult {
    pub result: bool,
}

/// The outcome of the test token check: field 1, a bool.
#[derive(Clone, Copy, Debug, PartialEq, Eq, Structural)]
pub struct CheckTokenTestResult {
    pub result: bool,
}

/// The encoding of a message whose one field, number 1, is the bool `value`: nothing for
/// false, which is the default, else the tag byte 8 and the byte 1.
pub open spec fn spec_bool_message(value: bool) -> Seq<u8> {
    if value {
        seq![8u8, 1u8]
    } else {
        Seq::empty()
    }
}

/// Encodes a message whose one field, number 1, is the bool `value`.
pub fn write_bool_message(value: bool) -> (r: Vec<u8>)
    ensures
        r@ == spec_bool_message(value),
{
    let mut out: Vec<u8> = Vec::new();
    if value {
        write_tag(&mut out, 8);
        write_bool(&mut out, value);
    }
    assert(out@ =~= spec_bool_message(value));
    out
}

/// An encoded bool message reads back as a valid message: both of its encodings are sequences
/// of whole fields.
pub proof fn lemma_bool_message_reads(value: bool)
    ensures
        spec_fields_ok(spec_bool_message(value)),
{
    let b = spec_bool_message(value);
    if value {
        assert(varint_end(b, 0) == Some(1nat));
        let rest = b.subrange(1, 2);
        assert(rest =~= seq![1u8]);
        assert(varint_end(rest, 0) == Some(1nat));
        assert(skipped_len(rest, (b[0] % 8) as int) == Some(1nat));
        assert(rest.subrange(1, 1).len() == 0);
        assert(spec_fields_ok(rest.subrange(1, 1)));
        assert(b.len() == 2);
        assert(b.subrange(1, b.len() as int) == rest);
    } else {
        assert(b.len() == 0);
    }
}

impl CheckTokenParams {
    /// Reads the parameters from a request body.
    pub fn decode(body: &[u8]) -> (r: Result<CheckTokenParams, DecodeError>)
        ensures
            r is Ok <==> spec_fields_ok(body@),
    {
        match read_empty_message(body) {
            Ok(()) => Ok(CheckTokenParams {}),
            Err(e) => Err(e),
        }
    }
}

impl CheckTokenTestParams {
    /// Reads the parameters from a request body.
    pub fn decode(body: &[u8]) -> (r: Result<CheckTokenTestParams, DecodeError>)
        ensures
            r is Ok <==> spec_fields_ok(body@),
    {
        match read_empty_message(body) {
            Ok(()) => Ok(CheckTokenTestParams {}),
            Err(e) => Err(e),
        }
    }
}

impl CheckTokenResult {
    /// The encoded message.
    pub fn encode(&self) -> (r: Vec<u8>)
        ensures
            r@ == spec_bool_message(self.result),
    {
        write_bool_message(self.result)
    }
}

impl CheckTokenTestResult {
    /// The encoded message.
    pub fn encode(&self) -> (r: Vec<u8>)
        ensures
            r@ == spec_bool_message(self.result),
    {
        write_bool_message(self.result)
    }
}

} // verus!
