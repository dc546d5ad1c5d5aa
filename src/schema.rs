//! Tagged-union messages: a schema of variants, an opcode-first encoding of
//! messages and the schema's JSON manifest.

use vstd::prelude::*;
use vstd::string::{StrSliceExecFns, StringExecFns};
use crate::codec::{
    DecodeError, FieldKind, Value, ValueView, decode_spec, lemma_value_round_trip,
    protocol_decode, protocol_encode,
};

verus! {

/// One variant of a schema: its name and the kinds of its fields, in order.
pub struct Variant {
    pub name: String,
    pub fields: Vec<FieldKind>,
}

/// A closed set of variants; a variant's opcode is its position.
pub struct Schema {
    pub name: String,
    pub variants: Vec<Variant>,
}

/// A value of a schema: the opcode of its variant and its field values.
#[derive(Debug, Clone, PartialEq, Eq)]
pub struct Message {
    pub opcode: u8,
    pub args: Vec<Value>,
}

impl Schema {
    /// The field kinds of every variant, by opcode.
    pub open spec fn kinds(&self) -> Seq<Seq<FieldKind>> {
        Seq::new(self.variants@.len(), |i: int| self.variants@[i].fields@)
    }

    /// Opcodes are one byte, so a schema has at most 256 variants; its names
    /// stand in JSON strings unescaped, so none holds a quote or a backslash.
    pub open spec fn wf(&self) -> bool {
        &&& self.variants@.len() <= 256
        &&& plain_name(self.name@)
        &&& forall|i: int| 0 <= i < self.variants@.len() ==> plain_name(#[trigger] self.variants@[i].name@)
    }
}

/// A name that can stand inside a JSON string as it is.
pub open spec fn plain_name(s: Seq<char>) -> bool {
    forall|i: int| 0 <= i < s.len() ==> s[i] != '"' && s[i] != '\\'
}

/// Whether a name holds neither a quote nor a backslash.
pub fn is_plain_name(s: &str) -> (r: bool)
    ensures
        r == plain_name(s@),
{
    let n = s.unicode_len();
    let mut i: usize = 0;
    while i < n
        invariant
            i <= n,
            n == s@.len(),
            forall|j: int| 0 <= j < i ==> s@[j] != '"' && s@[j] != '\\',
        decreases n - i,
    {
        let c = s.get_char(i);
        if c == '"' || c == '\\' {
            return false;
        }
        i = i + 1;
    }
    true
}

impl Message {
    pub open spec fn values(&self) -> Seq<ValueView> {
        self.args@.map_values(|v: Value| v@)
    }
}

/// Whether `args` is a sequence of encodable values of the kinds `kinds`.
pub open spec fn fits(kinds: Seq<FieldKind>, args: Seq<ValueView>) -> bool {
    &&& kinds.len() == args.len()
    &&& forall|i: int| 0 <= i < args.len() ==> (#[trigger] args[i]).kind() == kinds[i] && args[i].wf()
}

/// Whether a message is a constructible value of a schema with these kinds.
pub open spec fn valid_message(kinds: Seq<Seq<FieldKind>>, opcode: u8, args: Seq<ValueView>) -> bool {
    opcode < kinds.len() && fits(kinds[opcode as int], args)
}

/// The concatenated encodings of a sequence of values.
pub open spec fn args_bytes(args: Seq<ValueView>) -> Seq<u8>
    decreases args.len(),
{
    if args.len() == 0 {
        Seq::empty()
    } else {
        args[0].bytes() + args_bytes(args.drop_first())
    }
}

/// The encoding of a message: its opcode, then each field in order.
pub open spec fn message_bytes(opcode: u8, args: Seq<ValueView>) -> Seq<u8> {
    seq![opcode] + args_bytes(args)
}

/// Decoding fields of the kinds `kinds`, one after another, from the front of
/// `s`; bytes left after the last field are ignored.
pub open spec fn decode_fields(kinds: Seq<FieldKind>, s: Seq<u8>) -> Option<Seq<ValueView>>
    decreases kinds.len(),
{
    if kinds.len() == 0 {
        Some(Seq::empty())
    } else {
        match decode_spec(kinds[0], s) {
            None => None,
            Some((v, n)) => {
                if n > s.len() {
                    None
                } else {
                    match decode_fields(kinds.drop_first(), s.subrange(n as int, s.len() as int)) {
                        None => None,
                        Some(rest) => Some(seq![v] + rest),
                    }
                }
            },
        }
    }
}

/// Decoding a message: one opcode byte naming a variant, then its fields.
pub open spec fn decode_message_spec(kinds: Seq<Seq<FieldKind>>, s: Seq<u8>) -> Option<(u8, Seq<ValueView>)> {
    if s.len() == 0 || s[0] as int >= kinds.len() {
        None
    } else {
        match decode_fields(kinds[s[0] as int], s.drop_first()) {
            None => None,
            Some(args) => Some((s[0], args)),
        }
    }
}

proof fn lemma_fields_round_trip(kinds: Seq<FieldKind>, args: Seq<ValueView>, rest: Seq<u8>)
    requires
        fits(kinds, args),
    ensures
        decode_fields(kinds, args_bytes(args) + rest) == Some(args),
    decreases args.len(),
{
    if args.len() > 0 {
        let tail = args.drop_first();
        let s = args_bytes(args) + rest;
        let after = args_bytes(tail) + rest;
        assert(s =~= args[0].bytes() + after);
        lemma_value_round_trip(args[0], after);
        let n = args[0].bytes().len();
        assert(s.subrange(n as int, s.len() as int) =~= after);
        assert(fits(kinds.drop_first(), tail)) by {
            assert forall|i: int| 0 <= i < tail.len() implies (#[trigger] tail[i]).kind()
                == kinds.drop_first()[i] && tail[i].wf() by {
                assert(tail[i] == args[i + 1]);
            }
        }
        lemma_fields_round_trip(kinds.drop_first(), tail, rest);
        assert(seq![args[0]] + tail =~= args);
    }
}

/// Every constructible message of a schema decodes back to itself from its
/// encoding, and bytes after the encoding do not change that.
pub proof fn lemma_message_round_trip(
    kinds: Seq<Seq<FieldKind>>,
    opcode: u8,
    args: Seq<ValueView>,
    rest: Seq<u8>,
)
    requires
        valid_message(kinds, opcode, args),
    ensures
        decode_message_spec(kinds, message_bytes(opcode, args) + rest) == Some((opcode, args)),
{
    let s = message_bytes(opcode, args) + rest;
    assert(s.drop_first() =~= args_bytes(args) + rest);
    lemma_fields_round_trip(kinds[opcode as int], args, rest);
}

/// A payload whose first byte names no variant of the schema never decodes,
/// whatever follows it.
pub proof fn lemma_unknown_opcode(kinds: Seq<Seq<FieldKind>>, s: Seq<u8>)
    requires
        s.len() > 0,
        s[0] as int >= kinds.len(),
    ensures
        decode_message_spec(kinds, s) is None,
{
}

/// Encodes a message of the schema: its opcode byte, then its fields.
pub fn encode_message(schema: &Schema, m: &Message) -> (r: Vec<u8>)
    requires
        valid_message(schema.kinds(), m.opcode, m.values()),
    ensures
        r@ == message_bytes(m.opcode, m.values()),
{
    let mut out: Vec<u8> = Vec::new();
    out.push(m.opcode);
    let mut i: usize = 0;
    assert(m.values().subrange(0, m.args@.len() as int) =~= m.values());
    while i < m.args.len()
        invariant
            i <= m.args@.len(),
            valid_message(schema.kinds(), m.opcode, m.values()),
            out@ + args_bytes(m.values().subrange(i as int, m.args@.len() as int))
                == message_bytes(m.opcode, m.values()),
        decreases m.args@.len() - i,
    {
        let ghost vs = m.values().subrange(i as int, m.args@.len() as int);
        let ghost prev = out@;
        assert(m.values()[i as int] == m.args@[i as int]@);
        let mut enc = protocol_encode(&m.args[i]);
        out.append(&mut enc);
        i = i + 1;
        proof {
            let next = m.values().subrange(i as int, m.args@.len() as int);
            assert(vs.drop_first() =~= next);
            assert(args_bytes(vs) == vs[0].bytes() + args_bytes(next));
            assert(out@ + args_bytes(next) =~= prev + args_bytes(vs));
        }
    }
    proof {
        assert(m.values().subrange(i as int, m.args@.len() as int) =~= Seq::<ValueView>::empty());
        assert(out@ + Seq::<u8>::empty() =~= out@);
    }
    out
}

/// Combines the fields decoded so far with the outcome of decoding the rest.
pub open spec fn then_fields(done: Seq<ValueView>, rest: Option<Seq<ValueView>>) -> Option<Seq<ValueView>> {
    match rest {
        None => None,
        Some(r) => Some(done + r),
    }
}

/// Decodes a payload into a message of the schema. Bytes after the last
/// field are ignored.
pub fn decode_message(schema: &Schema, data: &[u8]) -> (r: Result<Message, DecodeError>)
    ensures
        r is Err <==> decode_message_spec(schema.kinds(), data@) is None,
        r matches Ok(m) ==> decode_message_spec(schema.kinds(), data@) == Some((m.opcode, m.values())),
{
    if data.len() == 0 {
        return Err(DecodeError {});
    }
    let op = data[0];
    if op as usize >= schema.variants.len() {
        return Err(DecodeError {});
    }
    let kinds = &schema.variants[op as usize].fields;
    let ghost ks = kinds@;
    let ghost s0 = data@.drop_first();
    assert(schema.kinds()[op as int] == ks);
    let len = data.len();
    let mut pos: usize = 1;
    let mut args: Vec<Value> = Vec::new();
    let mut i: usize = 0;
    assert(ks.subrange(0, ks.len() as int) =~= ks);
    assert(data@.subrange(1, len as int) =~= s0);
    assert(args@.map_values(|v: Value| v@) =~= Seq::<ValueView>::empty());
    while i < kinds.len()
        invariant
            i <= ks.len(),
            ks == kinds@,
            op == data@[0],
            (op as int) < schema.kinds().len(),
            schema.kinds()[op as int] == ks,
            s0 == data@.drop_first(),
            1 <= pos <= len,
            len == data@.len(),
            decode_fields(ks, s0) == then_fields(
                args@.map_values(|v: Value| v@),
                decode_fields(ks.subrange(i as int, ks.len() as int), data@.subrange(pos as int, len as int)),
            ),
            args@.len() == i,
        decreases ks.len() - i,
    {
        let ghost tail = data@.subrange(pos as int, len as int);
        let ghost sub = ks.subrange(i as int, ks.len() as int);
        let ghost done = args@.map_values(|v: Value| v@);
        assert(sub[0] == ks[i as int]);
        assert(sub.drop_first() =~= ks.subrange(i + 1, ks.len() as int));
        match protocol_decode(kinds[i], data, pos) {
            Err(e) => {
                assert(decode_fields(sub, tail) is None);
                assert(decode_fields(ks, s0) is None);
                assert(decode_message_spec(schema.kinds(), data@) is None);
                return Err(e);
            },
            Ok((v, end)) => {
                proof {
                    let n = (end - pos) as nat;
                    assert(tail.subrange(n as int, tail.len() as int) =~= data@.subrange(end as int, len as int));
                }
                args.push(v);
                pos = end;
                i = i + 1;
                proof {
                    assert(args@.map_values(|v: Value| v@) =~= done.push(v@));
                    let r = decode_fields(ks.subrange(i as int, ks.len() as int), data@.subrange(pos as int, len as int));
                    if r is Some {
                        assert(done + (seq![v@] + r.unwrap()) =~= done.push(v@) + r.unwrap());
                    }
                }
            },
        }
    }
    proof {
        assert(ks.subrange(i as int, ks.len() as int) =~= Seq::<FieldKind>::empty());
        assert(args@.map_values(|v: Value| v@) + Seq::<ValueView>::empty() =~= args@.map_values(|v: Value| v@));
        assert(decode_fields(ks, s0) == Some(args@.map_values(|v: Value| v@)));
        assert(decode_message_spec(schema.kinds(), data@) == Some((op, args@.map_values(|v: Value| v@))));
    }
    Ok(Message { opcode: op, args })
}

/// The name a field kind has in a manifest.
pub open spec fn kind_name(k: FieldKind) -> Seq<char> {
    match k {
        FieldKind::U8 => "u8"@,
        FieldKind::Bool => "bool"@,
        FieldKind::U16 => "u16"@,
        FieldKind::U32 => "u32"@,
        FieldKind::U64 => "u64"@,
        FieldKind::I32 => "i32"@,
        FieldKind::F32 => "f32"@,
        FieldKind::Text => "String"@,
    }
}

/// One decimal digit.
pub open spec fn digit(d: nat) -> Seq<char> {
    if d == 0 { "0"@ } else if d == 1 { "1"@ } else if d == 2 { "2"@ } else if d == 3 { "3"@ }
    else if d == 4 { "4"@ } else if d == 5 { "5"@ } else if d == 6 { "6"@ } else if d == 7 { "7"@ }
    else if d == 8 { "8"@ } else { "9"@ }
}

/// The decimal notation of `n`, without leading zeros.
pub open spec fn decimal(n: nat) -> Seq<char>
    decreases n,
{
    if n < 10 {
        digit(n)
    } else {
        decimal(n / 10) + digit(n % 10)
    }
}

/// The quoted kind names of the first `n` fields, separated by commas.
pub open spec fn args_json(ks: Seq<FieldKind>, n: nat) -> Seq<char>
    decreases n,
{
    if n == 0 {
        Seq::empty()
    } else if n == 1 {
        "\""@ + kind_name(ks[0]) + "\""@
    } else {
        args_json(ks, (n - 1) as nat) + ","@ + "\""@ + kind_name(ks[n - 1]) + "\""@
    }
}

/// The manifest entry of the variant with opcode `i`.
pub open spec fn op_json(v: Variant, i: nat) -> Seq<char> {
    "{\"name\":\""@ + v.name@ + "\",\"opcode\":"@ + decimal(i) + ",\"args\":["@
        + args_json(v.fields@, v.fields@.len()) + "]}"@
}

/// The manifest entries of the first `n` variants, separated by commas.
pub open spec fn ops_json(vs: Seq<Variant>, n: nat) -> Seq<char>
    decreases n,
{
    if n == 0 {
        Seq::empty()
    } else if n == 1 {
        op_json(vs[0], 0)
    } else {
        ops_json(vs, (n - 1) as nat) + ","@ + op_json(vs[n - 1], (n - 1) as nat)
    }
}

/// The JSON manifest of a schema.
pub open spec fn manifest_json(s: &Schema) -> Seq<char> {
    "{\"protocol\":\""@ + s.name@ + "\",\"operations\":["@ + ops_json(s.variants@, s.variants@.len())
        + "]}"@
}

fn push_digit(out: &mut String, d: u8)
    requires
        d < 10,
    ensures
        final(out)@ == old(out)@ + digit(d as nat),
{
    if d == 0 { out.append("0") } else if d == 1 { out.append("1") } else if d == 2 { out.append("2") }
    else if d == 3 { out.append("3") } else if d == 4 { out.append("4") } else if d == 5 { out.append("5") }
    else if d == 6 { out.append("6") } else if d == 7 { out.append("7") } else if d == 8 { out.append("8") }
    else { out.append("9") }
}

/// Appends the decimal notation of `n`.
fn push_decimal(out: &mut String, n: u8)
    ensures
        final(out)@ == old(out)@ + decimal(n as nat),
{
    if n >= 100 {
        push_digit(out, n / 100);
        push_digit(out, (n / 10) % 10);
        push_digit(out, n % 10);
        assert(decimal(n as nat) =~= digit((n / 100) as nat) + digit(((n / 10) % 10) as nat) + digit((n % 10) as nat)) by {
            assert(decimal((n / 10) as nat) == decimal((n / 100) as nat) + digit(((n / 10) % 10) as nat));
        }
    } else if n >= 10 {
        push_digit(out, n / 10);
        push_digit(out, n % 10);
        assert(decimal((n / 10) as nat) == digit((n / 10) as nat));
        assert(decimal(n as nat) =~= digit((n / 10) as nat) + digit((n % 10) as nat));
    } else {
        push_digit(out, n);
    }
    assert(final(out)@ =~= old(out)@ + decimal(n as nat));
}

fn push_kind_name(out: &mut String, k: FieldKind)
    ensures
        final(out)@ == old(out)@ + kind_name(k),
{
    match k {
        FieldKind::U8 => out.append("u8"),
        FieldKind::Bool => out.append("bool"),
        FieldKind::U16 => out.append("u16"),
        FieldKind::U32 => out.append("u32"),
        FieldKind::U64 => out.append("u64"),
        FieldKind::I32 => out.append("i32"),
        FieldKind::F32 => out.append("f32"),
        FieldKind::Text => out.append("String"),
    }
}

/// Appends the manifest entry of a variant.
fn push_op(out: &mut String, v: &Variant, i: u8)
    ensures
        final(out)@ == old(out)@ + op_json(*v, i as nat),
{
    let ghost start = out@;
    out.append("{\"name\":\"");
    out.append(v.name.as_str());
    out.append("\",\"opcode\":");
    push_decimal(out, i);
    out.append(",\"args\":[");
    let ghost before_args = out@;
    let mut j: usize = 0;
    while j < v.fields.len()
        invariant
            j <= v.fields@.len(),
            out@ == before_args + args_json(v.fields@, j as nat),
        decreases v.fields@.len() - j,
    {
        if j > 0 {
            out.append(",");
        }
        out.append("\"");
        push_kind_name(out, v.fields[j]);
        out.append("\"");
        j = j + 1;
        assert(out@ =~= before_args + args_json(v.fields@, j as nat));
    }
    out.append("]}");
    assert(out@ =~= start + op_json(*v, i as nat));
}

impl Schema {
    /// The JSON description of the schema: its name and, for each variant,
    /// its name, opcode and field kind names.
    pub fn manifest(&self) -> (r: String)
        requires
            self.wf(),
        ensures
            r@ == manifest_json(self),
    {
        let mut out = String::new();
        out.append("{\"protocol\":\"");
        out.append(self.name.as_str());
        out.append("\",\"operations\":[");
        let ghost before = out@;
        let mut i: usize = 0;
        while i < self.variants.len()
            invariant
                i <= self.variants@.len() <= 256,
                out@ == before + ops_json(self.variants@, i as nat),
            decreases self.variants@.len() - i,
        {
            if i > 0 {
                out.append(",");
            }
            push_op(&mut out, &self.variants[i], i as u8);
            i = i + 1;
            assert(out@ =~= before + ops_json(self.variants@, i as nat));
        }
        out.append("]}");
        assert(out@ =~= manifest_json(self));
        out
    }
}

impl Schema {
    /// Whether the schema fits the one-byte opcode space.
    pub fn is_well_formed(&self) -> (r: bool)
        ensures
            r == self.wf(),
    {
        if self.variants.len() > 256 || !is_plain_name(self.name.as_str()) {
            return false;
        }
        let mut i: usize = 0;
        while i < self.variants.len()
            invariant
                i <= self.variants@.len(),
                forall|j: int| 0 <= j < i ==> plain_name(#[trigger] self.variants@[j].name@),
            decreases self.variants@.len() - i,
        {
            if !is_plain_name(self.variants[i].name.as_str()) {
                return false;
            }
            i = i + 1;
        }
        true
    }

    /// Whether a message is a constructible value of this schema: a known
    /// opcode and encodable fields of that variant's kinds.
    pub fn accepts(&self, m: &Message) -> (r: bool)
        ensures
            r == valid_message(self.kinds(), m.opcode, m.values()),
    {
        if m.opcode as usize >= self.variants.len() {
            return false;
        }
        let kinds = &self.variants[m.opcode as usize].fields;
        if kinds.len() != m.args.len() {
            return false;
        }
        let mut i: usize = 0;
        while i < kinds.len()
            invariant
                i <= kinds@.len(),
                kinds@.len() == m.args@.len(),
                kinds@ == self.kinds()[m.opcode as int],
                forall|j: int| 0 <= j < i ==> (#[trigger] m.values()[j]).kind() == kinds@[j] && m.values()[j].wf(),
            decreases kinds@.len() - i,
        {
            if m.args[i].kind() != kinds[i] || !m.args[i].is_encodable() {
                assert(m.values()[i as int] == m.args@[i as int]@);
                return false;
            }
            i = i + 1;
        }
        true
    }
}

} // verus!
