//! The HTTP upgrade handshake: request tokens and header lines, the header
//! map, the validation rules in order, the accept key and the responses.

use vstd::prelude::*;
use vstd::string::{StrSliceExecFns, StringExecFns};
use vstd::utf8::{decode_utf8, encode_utf8, valid_utf8};
use crate::codec::text_from_utf8;
use crate::frame::copy_range;
use crate::schema::{Schema, manifest_json, plain_name};
use base64::engine::Engine;

verus! {

/// The GUID that RFC 6455 appends to the client's key.
pub const WEBSOCKET_GUID: &'static str = "258EAFA5-E914-47DA-95CA-C5AB0DC85B11";

/// The lowercase hexadecimal SHA-1 digest of some bytes.
pub uninterp spec fn sha1_hex_of(b: Seq<u8>) -> Seq<char>;

/// The character of the standard base64 alphabet for a 6-bit value.
pub open spec fn b64_char(n: nat) -> char {
    if n < 26 {
        ((65 + n) as u8) as char
    } else if n < 52 {
        ((97 + n - 26) as u8) as char
    } else if n < 62 {
        ((48 + n - 52) as u8) as char
    } else if n == 62 {
        '+'
    } else {
        '/'
    }
}

/// The standard base64 encoding of some bytes: each group of three bytes
/// becomes four characters, and a last group of one or two bytes is padded
/// with `=`.
pub open spec fn base64_of(b: Seq<u8>) -> Seq<char>
    decreases b.len(),
{
    if b.len() == 0 {
        Seq::empty()
    } else if b.len() == 1 {
        seq![b64_char(b[0] as nat / 4), b64_char((b[0] as nat % 4) * 16), '=', '=']
    } else if b.len() == 2 {
        seq![
            b64_char(b[0] as nat / 4),
            b64_char((b[0] as nat % 4) * 16 + b[1] as nat / 16),
            b64_char((b[1] as nat % 16) * 4),
            '=',
        ]
    } else {
        seq![
            b64_char(b[0] as nat / 4),
            b64_char((b[0] as nat % 4) * 16 + b[1] as nat / 16),
            b64_char((b[1] as nat % 16) * 4 + b[2] as nat / 64),
            b64_char(b[2] as nat % 64),
        ] + base64_of(b.subrange(3, b.len() as int))
    }
}

/// The Unicode lowercase form of a string.
pub uninterp spec fn lower_of(s: Seq<char>) -> Seq<char>;

/// Whether a character has the Unicode `White_Space` property.
pub open spec fn is_white_space(c: char) -> bool {
    let u = c as u32;
    (0x09 <= u <= 0x0D) || u == 0x20 || u == 0x85 || u == 0xA0 || u == 0x1680 || (0x2000 <= u
        <= 0x200A) || u == 0x2028 || u == 0x2029 || u == 0x202F || u == 0x205F || u == 0x3000
}

/// A string without its leading whitespace.
pub open spec fn trim_start_of(s: Seq<char>) -> Seq<char>
    decreases s.len(),
{
    if s.len() > 0 && is_white_space(s[0]) {
        trim_start_of(s.drop_first())
    } else {
        s
    }
}

/// A string without its trailing whitespace.
pub open spec fn trim_end_of(s: Seq<char>) -> Seq<char>
    decreases s.len(),
{
    if s.len() > 0 && is_white_space(s.last()) {
        trim_end_of(s.drop_last())
    } else {
        s
    }
}

/// A string without its leading and trailing whitespace.
pub open spec fn trim_of(s: Seq<char>) -> Seq<char> {
    trim_end_of(trim_start_of(s))
}

pub open spec fn is_hex_byte(b: u8) -> bool {
    (48 <= b <= 57) || (65 <= b <= 70) || (97 <= b <= 102)
}

pub open spec fn hex_val(b: u8) -> nat {
    if 48 <= b <= 57 {
        (b - 48) as nat
    } else if 65 <= b <= 70 {
        (b - 55) as nat
    } else {
        (b - 87) as nat
    }
}

/// Whether bytes are an even number of hexadecimal digits.
pub open spec fn hex_ok(s: Seq<u8>) -> bool {
    s.len() % 2 == 0 && forall|i: int| 0 <= i < s.len() ==> is_hex_byte(#[trigger] s[i])
}

/// The bytes that pairs of hexadecimal digits denote.
pub open spec fn hex_bytes(s: Seq<u8>) -> Seq<u8> {
    Seq::new(s.len() / 2, |i: int| (hex_val(s[2 * i]) * 16 + hex_val(s[2 * i + 1])) as u8)
}

/// Relies on `sha1_smol::Sha1::from`, `Sha1::digest` and the `Display` of
/// `Digest`: the digest of the string's bytes, written as five 8-digit
/// lowercase hexadecimal words.
#[verifier::external_body]
fn sha1_hex(s: &str) -> (r: String)
    ensures
        r@ == sha1_hex_of(encode_utf8(s@)),
        encode_utf8(r@).len() == 40,
        forall|i: int| 0 <= i < 40 ==> is_hex_byte(#[trigger] encode_utf8(r@)[i]),
{
    sha1_smol::Sha1::from(s).digest().to_string()
}

/// Relies on `hex::decode`: it succeeds exactly on an even number of
/// hexadecimal digits of either case, and gives the bytes they denote.
#[verifier::external_body]
fn hex_decode(s: &str) -> (r: Option<Vec<u8>>)
    ensures
        r is Some <==> hex_ok(encode_utf8(s@)),
        r matches Some(v) ==> v@ == hex_bytes(encode_utf8(s@)),
{
    hex::decode(s).ok()
}

/// Relies on `base64::Engine::encode` with the `STANDARD` engine: the
/// standard alphabet, with padding.
#[verifier::external_body]
fn base64_encode(b: &[u8]) -> (r: String)
    requires
        b@.len() <= usize::MAX / 4,
    ensures
        r@ == base64_of(b@),
{
    base64::engine::general_purpose::STANDARD.encode(b)
}

/// Relies on `str::to_lowercase`.
#[verifier::external_body]
fn lowercase(s: &str) -> (r: String)
    ensures
        r@ == lower_of(s@),
{
    s.to_lowercase()
}

/// Relies on `str::trim`: it removes leading and trailing characters with
/// the Unicode `White_Space` property.
#[verifier::external_body]
fn trimmed(s: &str) -> (r: String)
    ensures
        r@ == trim_of(s@),
{
    s.trim().to_string()
}

/// The value of the `Sec-WebSocket-Accept` header for a client key.
pub open spec fn accept_spec(key: Seq<char>) -> Seq<char> {
    base64_of(hex_bytes(encode_utf8(sha1_hex_of(encode_utf8(key + WEBSOCKET_GUID@)))))
}

/// Computes the `Sec-WebSocket-Accept` value: the base64 of the SHA-1 digest
/// of the key followed by the GUID.
pub fn accept_key(key: &str) -> (r: String)
    ensures
        r@ == accept_spec(key@),
{
    let mut joined = key.to_owned();
    joined.append(WEBSOCKET_GUID);
    let digest = sha1_hex(joined.as_str());
    match hex_decode(digest.as_str()) {
        Some(bytes) => {
            proof {
                assert(bytes@.len() == 20);
            }
            base64_encode(bytes.as_slice())
        },
        None => {
            proof {
                assert(hex_ok(encode_utf8(digest@)));
            }
            String::new()
        },
    }
}

/// The position of the first `b` in `v`, if any.
pub fn count_up_till(v: &[u8], b: u8) -> (r: Option<usize>)
    ensures
        r matches Some(i) ==> i < v@.len() && v@[i as int] == b && forall|j: int| 0 <= j < i ==> v@[j] != b,
        r is None ==> forall|j: int| 0 <= j < v@.len() ==> v@[j] != b,
{
    let mut i: usize = 0;
    while i < v.len()
        invariant
            i <= v@.len(),
            forall|j: int| 0 <= j < i ==> v@[j] != b,
        decreases v@.len() - i,
    {
        if v[i] == b {
            return Some(i);
        }
        i = i + 1;
    }
    None
}

/// One line of the header block, as read up to its newline.
pub enum HeaderLine {
    /// A line without a space: the end of the header block.
    End,
    /// A header: its lowercased, trimmed name and its trimmed value.
    Entry(String, String),
    /// A header line that is not UTF-8.
    Malformed,
}

/// Splits a header line at its first space: the name is what stands before
/// the character ahead of that space (the colon), the value what follows.
pub open spec fn split_spec(line: Seq<u8>, k: int) -> (Seq<u8>, Seq<u8>) {
    (if k >= 1 { line.subrange(0, k - 1) } else { Seq::empty() }, line.subrange(k, line.len() as int))
}

/// Reads one header line.
pub fn parse_header_line(line: &[u8]) -> (r: HeaderLine)
    ensures
        (r is End) <==> (forall|j: int| 0 <= j < line@.len() ==> line@[j] != 32),
        r matches HeaderLine::Entry(n, v) ==> exists|k: int|
            0 <= k < line@.len() && line@[k] == 32 && (forall|j: int| 0 <= j < k ==> line@[j] != 32)
                && valid_utf8(#[trigger] split_spec(line@, k).0) && valid_utf8(split_spec(line@, k).1)
                && n@ == lower_of(trim_of(decode_utf8(split_spec(line@, k).0)))
                && v@ == trim_of(decode_utf8(split_spec(line@, k).1)),
        r is Malformed ==> exists|k: int|
            0 <= k < line@.len() && line@[k] == 32 && (forall|j: int| 0 <= j < k ==> line@[j] != 32)
                && !(valid_utf8(#[trigger] split_spec(line@, k).0) && valid_utf8(split_spec(line@, k).1)),
{
    match count_up_till(line, 32) {
        None => HeaderLine::End,
        Some(k) => {
            let name = if k >= 1 { copy_range(line, 0, k - 1) } else { Vec::new() };
            let value = copy_range(line, k, line.len());
            proof {
                assert(name@ =~= split_spec(line@, k as int).0);
                assert(value@ =~= split_spec(line@, k as int).1);
            }
            match (text_from_utf8(name), text_from_utf8(value)) {
                (Some(n), Some(v)) => {
                    let n = lowercase(trimmed(n.as_str()).as_str());
                    let v = trimmed(v.as_str());
                    HeaderLine::Entry(n, v)
                },
                _ => HeaderLine::Malformed,
            }
        },
    }
}

/// Reads one token of the request line, as read up to its delimiter.
pub fn request_token(b: Vec<u8>) -> (r: Option<String>)
    ensures
        r is Some <==> valid_utf8(b@),
        r matches Some(t) ==> t@ == trim_of(decode_utf8(b@)),
{
    match text_from_utf8(b) {
        Some(t) => Some(trimmed(t.as_str())),
        None => None,
    }
}

/// The value that the latest entry named `k` gives, if any.
pub open spec fn lookup(entries: Seq<(Seq<char>, Seq<char>)>, k: Seq<char>) -> Option<Seq<char>>
    decreases entries.len(),
{
    if entries.len() == 0 {
        None
    } else if entries.last().0 == k {
        Some(entries.last().1)
    } else {
        lookup(entries.drop_last(), k)
    }
}

/// Request headers by lowercased name; a later header of a name replaces an
/// earlier one.
pub struct HeaderMap {
    entries: Vec<(String, String)>,
}

impl HeaderMap {
    pub closed spec fn entries_view(&self) -> Seq<(Seq<char>, Seq<char>)> {
        self.entries@.map_values(|e: (String, String)| (e.0@, e.1@))
    }

    /// The value stored under a name.
    pub open spec fn spec_get(&self, k: Seq<char>) -> Option<Seq<char>> {
        lookup(self.entries_view(), k)
    }

    pub fn new() -> (r: HeaderMap)
        ensures
            forall|k: Seq<char>| r.spec_get(k) is None,
    {
        let r = HeaderMap { entries: Vec::new() };
        assert(r.entries_view() =~= Seq::<(Seq<char>, Seq<char>)>::empty());
        r
    }

    pub fn insert(&mut self, k: String, v: String)
        ensures
            final(self).spec_get(k@) == Some(v@),
            forall|k2: Seq<char>| k2 != k@ ==> final(self).spec_get(k2) == old(self).spec_get(k2),
    {
        let ghost ko = k@;
        let ghost vo = v@;
        self.entries.push((k, v));
        assert(self.entries_view().drop_last() =~= old(self).entries_view());
        assert(self.entries_view().last() == (ko, vo));
    }

    pub fn get(&self, k: &String) -> (r: Option<&String>)
        ensures
            r matches Some(v) ==> self.spec_get(k@) == Some(v@),
            r is None ==> self.spec_get(k@) is None,
    {
        let mut i: usize = self.entries.len();
        assert(self.entries_view().subrange(0, i as int) =~= self.entries_view());
        while i > 0
            invariant
                i <= self.entries@.len(),
                self.spec_get(k@) == lookup(self.entries_view().subrange(0, i as int), k@),
            decreases i,
        {
            let ghost pre = self.entries_view().subrange(0, i as int);
            assert(pre.last() == (self.entries@[i - 1].0@, self.entries@[i - 1].1@));
            assert(pre.drop_last() =~= self.entries_view().subrange(0, i - 1));
            if self.entries[i - 1].0.eq(k) {
                return Some(&self.entries[i - 1].1);
            }
            i = i - 1;
        }
        None
    }
}

/// Whether `n` occurs in `h` as a run of consecutive characters.
pub open spec fn contains_seq(h: Seq<char>, n: Seq<char>) -> bool {
    exists|i: int| 0 <= i && i + n.len() <= h.len() && #[trigger] h.subrange(i, i + n.len()) == n
}

fn matches_at(h: &str, n: &str, i: usize, hl: usize, nl: usize) -> (r: bool)
    requires
        hl == h@.len(),
        nl == n@.len(),
        i + nl <= hl,
    ensures
        r == (h@.subrange(i as int, i + nl) == n@),
{
    let mut j: usize = 0;
    while j < nl
        invariant
            j <= nl,
            hl == h@.len(),
            nl == n@.len(),
            i + nl <= hl,
            forall|t: int| 0 <= t < j ==> h@[i + t] == n@[t],
        decreases nl - j,
    {
        if h.get_char(i + j) != n.get_char(j) {
            assert(h@.subrange(i as int, i + nl)[j as int] != n@[j as int]);
            return false;
        }
        j = j + 1;
    }
    assert(h@.subrange(i as int, i + nl) =~= n@);
    true
}

/// Whether `n` occurs in `h`.
pub fn contains_text(h: &str, n: &str) -> (r: bool)
    ensures
        r == contains_seq(h@, n@),
{
    let hl = h.unicode_len();
    let nl = n.unicode_len();
    if nl > hl {
        return false;
    }
    let mut i: usize = 0;
    while i <= hl - nl
        invariant
            hl == h@.len(),
            nl == n@.len(),
            nl <= hl,
            forall|t: int| 0 <= t < i ==> #[trigger] h@.subrange(t, t + nl) != n@,
        decreases hl - nl + 1 - i,
    {
        if matches_at(h, n, i, hl, nl) {
            return true;
        }
        if i == hl - nl {
            return false;
        }
        i = i + 1;
    }
    false
}

/// The outcome of validating an upgrade request.
pub enum Handshake {
    /// The HTTP version is not 1.1.
    BadVersion,
    /// The request asks for the manifest.
    Manifest,
    /// The `Connection` and `Upgrade` headers do not ask for a WebSocket.
    NotUpgrade,
    /// `Sec-WebSocket-Version` is missing or not 13.
    BadWebSocketVersion,
    /// `Sec-WebSocket-Key` is missing.
    MissingKey,
    /// The upgrade is accepted; this is the `Sec-WebSocket-Accept` value.
    Upgrade(String),
}

pub enum HandshakeView {
    BadVersion,
    Manifest,
    NotUpgrade,
    BadWebSocketVersion,
    MissingKey,
    Upgrade(Seq<char>),
}

impl View for Handshake {
    type V = HandshakeView;

    open spec fn view(&self) -> HandshakeView {
        match self {
            Handshake::BadVersion => HandshakeView::BadVersion,
            Handshake::Manifest => HandshakeView::Manifest,
            Handshake::NotUpgrade => HandshakeView::NotUpgrade,
            Handshake::BadWebSocketVersion => HandshakeView::BadWebSocketVersion,
            Handshake::MissingKey => HandshakeView::MissingKey,
            Handshake::Upgrade(a) => HandshakeView::Upgrade(a@),
        }
    }
}

/// Whether the `Connection` header contains "upgrade" and the `Upgrade`
/// header is "websocket", both compared case-insensitively.
pub open spec fn upgrade_requested(h: HeaderMap) -> bool {
    &&& h.spec_get("connection"@) matches Some(c) && contains_seq(lower_of(c), "upgrade"@)
    &&& h.spec_get("upgrade"@) matches Some(u) && lower_of(u) == "websocket"@
}

/// The validation rules, in order.
pub open spec fn handshake_spec(version: Seq<char>, uri: Seq<char>, h: HeaderMap) -> HandshakeView {
    if version != "HTTP/1.1"@ {
        HandshakeView::BadVersion
    } else if uri == "/manifest"@ {
        HandshakeView::Manifest
    } else if !upgrade_requested(h) {
        HandshakeView::NotUpgrade
    } else if h.spec_get("sec-websocket-version"@) != Some("13"@) {
        HandshakeView::BadWebSocketVersion
    } else {
        match h.spec_get("sec-websocket-key"@) {
            None => HandshakeView::MissingKey,
            Some(k) => HandshakeView::Upgrade(accept_spec(k)),
        }
    }
}

/// Whether lowercased `Connection` and `Upgrade` values ask for a WebSocket:
/// the first contains "upgrade" and the second is "websocket".
pub fn upgrade_headers_ok(connection_lower: &str, upgrade_lower: &str) -> (r: bool)
    ensures
        r == (contains_seq(connection_lower@, "upgrade"@) && upgrade_lower@ == "websocket"@),
{
    let websocket = String::from_str("websocket");
    let u = upgrade_lower.to_owned();
    contains_text(connection_lower, "upgrade") && u.eq(&websocket)
}

fn upgrade_requested_exec(h: &HeaderMap) -> (r: bool)
    ensures
        r == upgrade_requested(*h),
{
    let conn = h.get(&String::from_str("connection"));
    let upg = h.get(&String::from_str("upgrade"));
    match (conn, upg) {
        (Some(c), Some(u)) => {
            let c = lowercase(c.as_str());
            let u = lowercase(u.as_str());
            upgrade_headers_ok(c.as_str(), u.as_str())
        },
        _ => false,
    }
}

/// Validates an upgrade request: the version, then a manifest request, then
/// the upgrade headers, the WebSocket version and the key.
pub fn handshake(version: &String, uri: &String, h: &HeaderMap) -> (r: Handshake)
    ensures
        r@ == handshake_spec(version@, uri@, *h),
{
    if !version.eq(&String::from_str("HTTP/1.1")) {
        return Handshake::BadVersion;
    }
    if uri.eq(&String::from_str("/manifest")) {
        return Handshake::Manifest;
    }
    if !upgrade_requested_exec(h) {
        return Handshake::NotUpgrade;
    }
    let thirteen = String::from_str("13");
    match h.get(&String::from_str("sec-websocket-version")) {
        Some(v) => {
            if !v.eq(&thirteen) {
                return Handshake::BadWebSocketVersion;
            }
        },
        None => {
            return Handshake::BadWebSocketVersion;
        },
    }
    match h.get(&String::from_str("sec-websocket-key")) {
        None => Handshake::MissingKey,
        Some(k) => Handshake::Upgrade(accept_key(k.as_str())),
    }
}

/// The body served at `/manifest`: the server's name and the manifests of
/// the messages it reads and of those it sends.
pub open spec fn manifest_body(name: Seq<char>, incoming: Seq<char>, outgoing: Seq<char>) -> Seq<char> {
    "{\"application_name\":\""@ + name + "\",\"incoming_protocol\":"@ + incoming
        + ",\"outgoing_protocol\":"@ + outgoing + "}"@
}

/// The full HTTP response that ends a handshake.
pub open spec fn response_spec(h: HandshakeView, name: Seq<char>, incoming: Seq<char>, outgoing: Seq<char>) -> Seq<char> {
    match h {
        HandshakeView::BadVersion => "HTTP/1.1 400 Bad Request\r\n\r\nOnly HTTP/1.1 is supported.\n"@,
        HandshakeView::Manifest => "HTTP/1.1 200 OK\r\nContent-Type: application/json\r\nAccess-Control-Allow-Origin: *\r\n\r\n"@
            + manifest_body(name, incoming, outgoing),
        HandshakeView::NotUpgrade => "HTTP/1.1 418 I'm A Teapot\r\n\r\nThis server only accepts WebSocket upgrades: send Connection: Upgrade and Upgrade: websocket.\n"@,
        HandshakeView::BadWebSocketVersion => "HTTP/1.1 400 Bad Request\r\n\r\nSec-WebSocket-Version must be 13.\n"@,
        HandshakeView::MissingKey => "HTTP/1.1 400 Bad Request\r\n\r\nSec-WebSocket-Key is missing.\n"@,
        HandshakeView::Upgrade(a) => "HTTP/1.1 101 Switching Protocols\r\nConnection: Upgrade\r\nUpgrade: websocket\r\nSec-WebSocket-Accept: "@
            + a + "\r\n\r\n"@,
    }
}

/// The JSON body of the manifest endpoint.
pub fn manifest_document(name: &String, incoming: &Schema, outgoing: &Schema) -> (r: String)
    requires
        plain_name(name@),
        incoming.wf(),
        outgoing.wf(),
    ensures
        r@ == manifest_body(name@, manifest_json(incoming), manifest_json(outgoing)),
{
    let mut out = String::new();
    out.append("{\"application_name\":\"");
    out.append(name.as_str());
    out.append("\",\"incoming_protocol\":");
    let m = incoming.manifest();
    out.append(m.as_str());
    out.append(",\"outgoing_protocol\":");
    let m = outgoing.manifest();
    out.append(m.as_str());
    out.append("}");
    assert(out@ =~= manifest_body(name@, manifest_json(incoming), manifest_json(outgoing)));
    out
}

/// The HTTP response for a handshake outcome.
pub fn response(h: &Handshake, name: &String, incoming: &Schema, outgoing: &Schema) -> (r: String)
    requires
        plain_name(name@),
        incoming.wf(),
        outgoing.wf(),
    ensures
        r@ == response_spec(h@, name@, manifest_json(incoming), manifest_json(outgoing)),
{
    let mut out = String::new();
    match h {
        Handshake::BadVersion => out.append("HTTP/1.1 400 Bad Request\r\n\r\nOnly HTTP/1.1 is supported.\n"),
        Handshake::Manifest => {
            out.append("HTTP/1.1 200 OK\r\nContent-Type: application/json\r\nAccess-Control-Allow-Origin: *\r\n\r\n");
            let body = manifest_document(name, incoming, outgoing);
            out.append(body.as_str());
        },
        Handshake::NotUpgrade => out.append("HTTP/1.1 418 I'm A Teapot\r\n\r\nThis server only accepts WebSocket upgrades: send Connection: Upgrade and Upgrade: websocket.\n"),
        Handshake::BadWebSocketVersion => out.append("HTTP/1.1 400 Bad Request\r\n\r\nSec-WebSocket-Version must be 13.\n"),
        Handshake::MissingKey => out.append("HTTP/1.1 400 Bad Request\r\n\r\nSec-WebSocket-Key is missing.\n"),
        Handshake::Upgrade(a) => {
            out.append("HTTP/1.1 101 Switching Protocols\r\nConnection: Upgrade\r\nUpgrade: websocket\r\nSec-WebSocket-Accept: ");
            out.append(a.as_str());
            out.append("\r\n\r\n");
        },
    }
    assert(out@ =~= response_spec(h@, name@, manifest_json(incoming), manifest_json(outgoing)));
    out
}

} // verus!
