//! Primitive value kinds and their big-endian wire encodings.

use vstd::prelude::*;
use vstd::utf8::{decode_utf8, encode_utf8, valid_utf8, encode_utf8_decode_utf8};

verus! {

/// A payload could not be decoded into a value of the expected shape.
#[derive(Debug, Clone, Copy, PartialEq, Eq)]
pub struct DecodeError {}

impl DecodeError {
    /// A short human-readable description of the error.
    pub fn message(&self) -> (r: String)
        ensures
            r@ == "Protocol Decode Error"@,
    {
        String::from_str("Protocol Decode Error")
    }
}

/// The primitive kinds a message field may have.
#[derive(Debug, Clone, Copy, PartialEq, Eq, Structural)]
pub enum FieldKind {
    U8,
    Bool,
    U16,
    U32,
    U64,
    I32,
    F32,
    Text,
}

/// One primitive value. A 4-byte float is carried by its IEEE-754 bit pattern.
#[derive(Debug, Clone, PartialEq, Eq)]
pub enum Value {
    U8(u8),
    Bool(bool),
    U16(u16),
    U32(u32),
    U64(u64),
    I32(i32),
    F32(u32),
    Text(String),
}

/// The mathematical content of a [`Value`].
pub enum ValueView {
    U8(u8),
    Bool(bool),
    U16(u16),
    U32(u32),
    U64(u64),
    I32(i32),
    F32(u32),
    Text(Seq<char>),
}

impl View for Value {
    type V = ValueView;

    open spec fn view(&self) -> ValueView {
        match self {
            Value::U8(x) => ValueView::U8(*x),
            Value::Bool(x) => ValueView::Bool(*x),
            Value::U16(x) => ValueView::U16(*x),
            Value::U32(x) => ValueView::U32(*x),
            Value::U64(x) => ValueView::U64(*x),
            Value::I32(x) => ValueView::I32(*x),
            Value::F32(x) => ValueView::F32(*x),
            Value::Text(s) => ValueView::Text(s@),
        }
    }
}

/// The `n` low-order bytes of `x`, most significant first.
pub open spec fn be(x: nat, n: nat) -> Seq<u8>
    decreases n,
{
    if n == 0 {
        Seq::empty()
    } else {
        be(x / 256, (n - 1) as nat).push((x % 256) as u8)
    }
}

/// The number that a big-endian byte sequence denotes.
pub open spec fn be_val(s: Seq<u8>) -> nat
    decreases s.len(),
{
    if s.len() == 0 {
        0
    } else {
        (be_val(s.drop_last()) * 256 + s.last()) as nat
    }
}

pub open spec fn pow256(n: nat) -> nat
    decreases n,
{
    if n == 0 {
        1
    } else {
        256 * pow256((n - 1) as nat)
    }
}

impl ValueView {
    pub open spec fn kind(self) -> FieldKind {
        match self {
            ValueView::U8(_) => FieldKind::U8,
            ValueView::Bool(_) => FieldKind::Bool,
            ValueView::U16(_) => FieldKind::U16,
            ValueView::U32(_) => FieldKind::U32,
            ValueView::U64(_) => FieldKind::U64,
            ValueView::I32(_) => FieldKind::I32,
            ValueView::F32(_) => FieldKind::F32,
            ValueView::Text(_) => FieldKind::Text,
        }
    }

    /// A value is encodable when its text, if any, fits a 2-byte length prefix.
    pub open spec fn wf(self) -> bool {
        match self {
            ValueView::Text(s) => encode_utf8(s).len() <= 65535,
            _ => true,
        }
    }

    /// The wire encoding of the value.
    pub open spec fn bytes(self) -> Seq<u8> {
        match self {
            ValueView::U8(x) => seq![x],
            ValueView::Bool(b) => seq![if b { 1u8 } else { 0u8 }],
            ValueView::U16(x) => be(x as nat, 2),
            ValueView::U32(x) => be(x as nat, 4),
            ValueView::U64(x) => be(x as nat, 8),
            ValueView::I32(x) => be((x as u32) as nat, 4),
            ValueView::F32(x) => be(x as nat, 4),
            ValueView::Text(s) => be(encode_utf8(s).len(), 2) + encode_utf8(s),
        }
    }
}

/// The number of bytes a fixed-width kind occupies on the wire.
pub open spec fn fixed_width(k: FieldKind) -> nat {
    match k {
        FieldKind::U8 => 1,
        FieldKind::Bool => 1,
        FieldKind::U16 => 2,
        FieldKind::U32 => 4,
        FieldKind::U64 => 8,
        FieldKind::I32 => 4,
        FieldKind::F32 => 4,
        FieldKind::Text => 2,
    }
}

/// Decoding a value of kind `k` from the front of `s`: the value and the
/// number of bytes it took, or `None` when `s` does not start with one.
pub open spec fn decode_spec(k: FieldKind, s: Seq<u8>) -> Option<(ValueView, nat)> {
    let w = fixed_width(k);
    if s.len() < w {
        None
    } else {
        let head = s.subrange(0, w as int);
        match k {
            FieldKind::U8 => Some((ValueView::U8(s[0]), 1)),
            FieldKind::Bool => Some((ValueView::Bool(s[0] == 1), 1)),
            FieldKind::U16 => Some((ValueView::U16(be_val(head) as u16), 2)),
            FieldKind::U32 => Some((ValueView::U32(be_val(head) as u32), 4)),
            FieldKind::U64 => Some((ValueView::U64(be_val(head) as u64), 8)),
            FieldKind::I32 => Some((ValueView::I32((be_val(head) as u32) as i32), 4)),
            FieldKind::F32 => Some((ValueView::F32(be_val(head) as u32), 4)),
            FieldKind::Text => {
                let n = be_val(head);
                if s.len() < 2 + n {
                    None
                } else {
                    let body = s.subrange(2, 2 + n as int);
                    if valid_utf8(body) {
                        Some((ValueView::Text(decode_utf8(body)), 2 + n))
                    } else {
                        None
                    }
                }
            }
        }
    }
}

pub proof fn lemma_be_len(x: nat, n: nat)
    ensures
        be(x, n).len() == n,
    decreases n,
{
    if n > 0 {
        lemma_be_len(x / 256, (n - 1) as nat);
    }
}

pub proof fn lemma_be_val_bound(s: Seq<u8>)
    ensures
        be_val(s) < pow256(s.len()),
    decreases s.len(),
{
    if s.len() > 0 {
        lemma_be_val_bound(s.drop_last());
        let a = be_val(s.drop_last());
        let p = pow256((s.len() - 1) as nat);
        assert(a * 256 + s.last() < p * 256) by (nonlinear_arith)
            requires
                a < p,
                s.last() < 256,
        ;
    }
}

pub proof fn lemma_be_round_trip(x: nat, n: nat)
    requires
        x < pow256(n),
    ensures
        be_val(be(x, n)) == x,
    decreases n,
{
    if n > 0 {
        let p = pow256((n - 1) as nat);
        assert(x / 256 < p) by (nonlinear_arith)
            requires
                x < 256 * p,
        ;
        lemma_be_round_trip(x / 256, (n - 1) as nat);
        let s = be(x, n);
        assert(s.drop_last() =~= be(x / 256, (n - 1) as nat));
    }
}

/// Every primitive value decodes back to itself from its encoding, whatever
/// follows it, and takes exactly as many bytes as its encoding has.
pub proof fn lemma_value_round_trip(v: ValueView, rest: Seq<u8>)
    requires
        v.wf(),
    ensures
        decode_spec(v.kind(), v.bytes() + rest) == Some((v, v.bytes().len())),
        v.kind() != FieldKind::Text ==> v.bytes().len() == fixed_width(v.kind()),
{
    let s = v.bytes() + rest;
    reveal_with_fuel(pow256, 9);
    match v {
        ValueView::U8(x) => {},
        ValueView::Bool(b) => {},
        ValueView::U16(x) => {
            lemma_be_len(x as nat, 2);
            lemma_be_round_trip(x as nat, 2);
            assert(s.subrange(0, 2) =~= v.bytes());
        },
        ValueView::U32(x) => {
            lemma_be_len(x as nat, 4);
            lemma_be_round_trip(x as nat, 4);
            assert(s.subrange(0, 4) =~= v.bytes());
        },
        ValueView::F32(x) => {
            lemma_be_len(x as nat, 4);
            lemma_be_round_trip(x as nat, 4);
            assert(s.subrange(0, 4) =~= v.bytes());
        },
        ValueView::U64(x) => {
            lemma_be_len(x as nat, 8);
            lemma_be_round_trip(x as nat, 8);
            assert(s.subrange(0, 8) =~= v.bytes());
        },
        ValueView::I32(x) => {
            let u = x as u32;
            lemma_be_len(u as nat, 4);
            lemma_be_round_trip(u as nat, 4);
            assert(s.subrange(0, 4) =~= v.bytes());
            assert((u as i32) == x) by (bit_vector)
                requires
                    u == x as u32,
            ;
        },
        ValueView::Text(t) => {
            let body = encode_utf8(t);
            let n = body.len();
            lemma_be_len(n, 2);
            lemma_be_round_trip(n, 2);
            assert(s.subrange(0, 2) =~= be(n, 2));
            assert(s.subrange(2, 2 + n as int) =~= body);
            vstd::utf8::encode_utf8_valid_utf8(t);
            encode_utf8_decode_utf8(t);
        },
    }
}

/// Appends the `n` low-order bytes of `x` to `out`, most significant first.
pub fn put_be(out: &mut Vec<u8>, x: u64, n: usize)
    requires
        n <= 8,
        x < pow256(n as nat),
    ensures
        final(out)@ == old(out)@ + be(x as nat, n as nat),
    decreases n,
{
    if n > 0 {
        proof {
            let p = pow256((n - 1) as nat);
            assert(x / 256 < p) by (nonlinear_arith)
                requires
                    x < 256 * p,
            ;
        }
        put_be(out, x / 256, n - 1);
        out.push((x % 256) as u8);
        proof {
            assert(final(out)@ =~= old(out)@ + be(x as nat, n as nat));
        }
    }
}

/// Reads `n` bytes at `pos` as a big-endian number.
pub fn get_be(data: &[u8], pos: usize, n: usize) -> (r: u64)
    requires
        n <= 8,
        pos + n <= data@.len(),
    ensures
        r as nat == be_val(data@.subrange(pos as int, pos + n)),
    decreases n,
{
    if n == 0 {
        0
    } else {
        let len = data.len();
        let hi = get_be(data, pos, n - 1);
        proof {
            let s = data@.subrange(pos as int, pos + n);
            assert(s.drop_last() =~= data@.subrange(pos as int, pos + n - 1));
            lemma_be_val_bound(s.drop_last());
            reveal_with_fuel(pow256, 9);
            assert(pow256(7) * 256 == 0x1_0000_0000_0000_0000nat);
            let p = pow256((n - 1) as nat);
            assert(p <= pow256(7)) by {
                assert(pow256(0) <= pow256(7));
            };
            assert(hi * 256 + 255 < 0x1_0000_0000_0000_0000nat) by (nonlinear_arith)
                requires
                    hi < p,
                    p <= pow256(7),
                    pow256(7) * 256 == 0x1_0000_0000_0000_0000nat,
            ;
        }
        hi * 256 + data[pos + n - 1] as u64
    }
}

/// Relies on `String::from_utf8`: it succeeds exactly on valid UTF-8 and then
/// holds the characters those bytes encode.
#[verifier::external_body]
pub(crate) fn text_from_utf8(b: Vec<u8>) -> (r: Option<String>)
    ensures
        r is Some <==> valid_utf8(b@),
        r matches Some(s) ==> s@ == decode_utf8(b@),
{
    String::from_utf8(b).ok()
}

/// Encodes one primitive value: fixed-width kinds big-endian, text as a
/// 2-byte length followed by its UTF-8 bytes.
pub fn protocol_encode(v: &Value) -> (r: Vec<u8>)
    requires
        v@.wf(),
    ensures
        r@ == v@.bytes(),
{
    let mut out: Vec<u8> = Vec::new();
    reveal_with_fuel(pow256, 9);
    match v {
        Value::U8(x) => out.push(*x),
        Value::Bool(b) => out.push(if *b { 1u8 } else { 0u8 }),
        Value::U16(x) => put_be(&mut out, *x as u64, 2),
        Value::U32(x) => put_be(&mut out, *x as u64, 4),
        Value::U64(x) => put_be(&mut out, *x, 8),
        Value::I32(x) => put_be(&mut out, (*x as u32) as u64, 4),
        Value::F32(x) => put_be(&mut out, *x as u64, 4),
        Value::Text(s) => {
            let b: &[u8] = s.as_str().as_bytes();
            put_be(&mut out, b.len() as u64, 2);
            let mut i: usize = 0;
            while i < b.len()
                invariant
                    i <= b@.len(),
                    b@ == encode_utf8(s@),
                    out@ == be(b@.len() as nat, 2) + b@.subrange(0, i as int),
                decreases b@.len() - i,
            {
                out.push(b[i]);
                i = i + 1;
                assert(out@ =~= be(b@.len() as nat, 2) + b@.subrange(0, i as int));
            }
            assert(b@.subrange(0, i as int) =~= b@);
        },
    }
    proof {
        assert(out@ =~= v@.bytes());
    }
    out
}

/// Decodes one value of kind `k` starting at `pos`, returning it with the
/// position just after it.
pub fn protocol_decode(k: FieldKind, data: &[u8], pos: usize) -> (r: Result<(Value, usize), DecodeError>)
    requires
        pos <= data@.len(),
    ensures
        r is Err <==> decode_spec(k, data@.subrange(pos as int, data@.len() as int)) is None,
        r matches Ok((v, end)) ==> pos <= end <= data@.len()
            && decode_spec(k, data@.subrange(pos as int, data@.len() as int)) == Some((v@, (end - pos) as nat)),
{
    let s = Ghost(data@.subrange(pos as int, data@.len() as int));
    let avail = data.len() - pos;
    match k {
        FieldKind::U8 => {
            if avail < 1 { return Err(DecodeError {}); }
            Ok((Value::U8(data[pos]), pos + 1))
        },
        FieldKind::Bool => {
            if avail < 1 { return Err(DecodeError {}); }
            Ok((Value::Bool(data[pos] == 1), pos + 1))
        },
        FieldKind::U16 => {
            if avail < 2 { return Err(DecodeError {}); }
            let x = get_be(data, pos, 2);
            proof { lemma_be_val_bound(s@.subrange(0, 2)); reveal_with_fuel(pow256, 3);
                assert(s@.subrange(0, 2) =~= data@.subrange(pos as int, pos + 2)); }
            Ok((Value::U16(x as u16), pos + 2))
        },
        FieldKind::U32 => {
            if avail < 4 { return Err(DecodeError {}); }
            let x = get_be(data, pos, 4);
            proof {
                assert(s@.subrange(0, 4) =~= data@.subrange(pos as int, pos + 4));
                lemma_be_val_bound(s@.subrange(0, 4));
                reveal_with_fuel(pow256, 5);
            }
            Ok((Value::U32(x as u32), pos + 4))
        },
        FieldKind::U64 => {
            if avail < 8 { return Err(DecodeError {}); }
            let x = get_be(data, pos, 8);
            proof { assert(s@.subrange(0, 8) =~= data@.subrange(pos as int, pos + 8)); }
            Ok((Value::U64(x), pos + 8))
        },
        FieldKind::I32 => {
            if avail < 4 { return Err(DecodeError {}); }
            let x = get_be(data, pos, 4);
            proof {
                assert(s@.subrange(0, 4) =~= data@.subrange(pos as int, pos + 4));
                lemma_be_val_bound(s@.subrange(0, 4));
                reveal_with_fuel(pow256, 5);
            }
            Ok((Value::I32((x as u32) as i32), pos + 4))
        },
        FieldKind::F32 => {
            if avail < 4 { return Err(DecodeError {}); }
            let x = get_be(data, pos, 4);
            proof {
                assert(s@.subrange(0, 4) =~= data@.subrange(pos as int, pos + 4));
                lemma_be_val_bound(s@.subrange(0, 4));
                reveal_with_fuel(pow256, 5);
            }
            Ok((Value::F32(x as u32), pos + 4))
        },
        FieldKind::Text => {
            if avail < 2 { return Err(DecodeError {}); }
            let n = get_be(data, pos, 2);
            proof {
                assert(s@.subrange(0, 2) =~= data@.subrange(pos as int, pos + 2));
                lemma_be_val_bound(s@.subrange(0, 2));
                reveal_with_fuel(pow256, 3);
            }
            let n = n as usize;
            if avail - 2 < n { return Err(DecodeError {}); }
            let len = data.len();
            let mut body: Vec<u8> = Vec::new();
            let mut i: usize = 0;
            while i < n
                invariant
                    i <= n,
                    pos + 2 + n <= data@.len(),
                    len == data@.len(),
                    body@ == data@.subrange(pos + 2, pos + 2 + i),
                decreases n - i,
            {
                body.push(data[pos + 2 + i]);
                i = i + 1;
                assert(body@ =~= data@.subrange(pos + 2, pos + 2 + i));
            }
            proof {
                assert(body@ =~= s@.subrange(2, 2 + n as int));
            }
            match text_from_utf8(body) {
                Some(t) => Ok((Value::Text(t), pos + 2 + n)),
                None => Err(DecodeError {}),
            }
        },
    }
}

/// Text decoding fails when fewer bytes remain than its length prefix
/// declares, and when the declared bytes are not valid UTF-8.
pub proof fn lemma_text_rejected(s: Seq<u8>)
    requires
        s.len() >= 2,
        s.len() < 2 + be_val(s.subrange(0, 2)) || !valid_utf8(
            s.subrange(2, 2 + be_val(s.subrange(0, 2)) as int),
        ),
    ensures
        decode_spec(FieldKind::Text, s) is None,
{
}

impl Value {
    /// The kind of the value.
    pub fn kind(&self) -> (r: FieldKind)
        ensures
            r == self@.kind(),
    {
        match self {
            Value::U8(_) => FieldKind::U8,
            Value::Bool(_) => FieldKind::Bool,
            Value::U16(_) => FieldKind::U16,
            Value::U32(_) => FieldKind::U32,
            Value::U64(_) => FieldKind::U64,
            Value::I32(_) => FieldKind::I32,
            Value::F32(_) => FieldKind::F32,
            Value::Text(_) => FieldKind::Text,
        }
    }

    /// Whether the value can be encoded: text must fit a 2-byte length.
    pub fn is_encodable(&self) -> (r: bool)
        ensures
            r == self@.wf(),
    {
        match self {
            Value::Text(s) => s.as_str().as_bytes().len() <= 65535,
            _ => true,
        }
    }
}

} // verus!
