//! D-Bus server address strings, e.g. `unix:path=/run/oxibus/system_bus_socket`
//! or `unix:tmpdir=/tmp`. A full address is a `;`-separated list of these,
//! tried in order.

use crate::error::CoreError;
use crate::text::{
    chars_eq, chars_of, concat_str, decimal, find_char_from, index_of, lemma_index_of,
    parse_unsigned, push_char, slice_to_vec_range, split_chars, split_on, string_of,
    u64_to_string, unsigned_text,
};
use vstd::prelude::*;
use vstd::utf8::{decode_utf8, encode_utf8, valid_utf8};

verus! {

broadcast use vstd::std_specs::vec::group_vec_axioms;

/// A single parsed D-Bus server address.
#[derive(Debug, Clone, PartialEq, Eq)]
pub enum Address {
    /// `unix:path=...`: a Unix socket bound to a filesystem path.
    UnixPath(String),
    /// `unix:abstract=...`: a Unix socket in the abstract namespace.
    UnixAbstract(String),
    /// `unix:tmpdir=...`: a directory in which the server makes a socket.
    UnixTmpdir(String),
    /// `tcp:host=...,port=...`: a TCP endpoint.
    Tcp { host: String, port: u16 },
}

/// The model of an address: texts as character sequences.
pub enum AddressSpec {
    UnixPath(Seq<char>),
    UnixAbstract(Seq<char>),
    UnixTmpdir(Seq<char>),
    Tcp { host: Seq<char>, port: u16 },
}

impl View for Address {
    type V = AddressSpec;

    open spec fn view(&self) -> AddressSpec {
        match self {
            Address::UnixPath(p) => AddressSpec::UnixPath(p@),
            Address::UnixAbstract(p) => AddressSpec::UnixAbstract(p@),
            Address::UnixTmpdir(p) => AddressSpec::UnixTmpdir(p@),
            Address::Tcp { host, port } => AddressSpec::Tcp { host: host@, port: *port },
        }
    }
}

// ---------------------------------------------------------------------------
// Percent escaping
// ---------------------------------------------------------------------------

/// Bytes written as they are: ASCII letters and digits and `- _ / . \`.
pub open spec fn is_safe_byte(b: u8) -> bool {
    (48 <= b <= 57) || (65 <= b <= 90) || (97 <= b <= 122) || b == 45 || b == 95 || b == 47
        || b == 46 || b == 92
}

/// The lowercase hexadecimal digit for `n` (below 16).
pub open spec fn hex_digit(n: int) -> u8 {
    if n < 10 {
        (48 + n) as u8
    } else {
        (87 + n) as u8
    }
}

/// The bytes that stand for the byte `b` in an escaped text.
pub open spec fn escape_piece(b: u8) -> Seq<u8> {
    if is_safe_byte(b) {
        seq![b]
    } else {
        seq![37u8, hex_digit((b / 16) as int), hex_digit((b % 16) as int)]
    }
}

/// The escaped form of the bytes `bs`, as bytes (all ASCII).
pub open spec fn escape_bytes(bs: Seq<u8>) -> Seq<u8>
    decreases bs.len(),
{
    if bs.len() == 0 {
        Seq::empty()
    } else {
        escape_piece(bs[0]) + escape_bytes(bs.drop_first())
    }
}

/// The value of a hexadecimal digit byte.
pub open spec fn hex_value(b: u8) -> Option<u8> {
    if 48 <= b <= 57 {
        Some((b - 48) as u8)
    } else if 97 <= b <= 102 {
        Some((b - 97 + 10) as u8)
    } else if 65 <= b <= 70 {
        Some((b - 65 + 10) as u8)
    } else {
        None
    }
}

/// The bytes that percent-decoding `bs` gives: `%` and two hexadecimal
/// digits make one byte; anything else stays.
pub open spec fn unescape_bytes(bs: Seq<u8>) -> Seq<u8>
    decreases bs.len(),
{
    if bs.len() == 0 {
        Seq::empty()
    } else if bs[0] == 37 && 2 < bs.len() && hex_value(bs[1]) is Some && hex_value(bs[2]) is Some {
        seq![(hex_value(bs[1])->0 * 16 + hex_value(bs[2])->0) as u8] + unescape_bytes(bs.skip(3))
    } else {
        seq![bs[0]] + unescape_bytes(bs.drop_first())
    }
}

/// The text that `String::from_utf8_lossy` makes of the bytes `b`.
pub uninterp spec fn utf8_lossy(b: Seq<u8>) -> Seq<char>;

/// The text of the bytes `b`, with each ill-formed part replaced by
/// U+FFFD (`String::from_utf8_lossy`); the result depends on the bytes
/// alone, and valid UTF-8 decodes as it is.
#[verifier::external_body]
pub(crate) fn string_from_utf8_lossy(b: &[u8]) -> (s: String)
    ensures
        s@ == utf8_lossy(b@),
        valid_utf8(b@) ==> s@ == decode_utf8(b@),
{
    String::from_utf8_lossy(b).into_owned()
}

/// The decoded text of an escaped text `s`: the decoded bytes read as
/// UTF-8, ill-formed parts replaced.
pub open spec fn unescape_text(s: Seq<char>) -> Seq<char> {
    let b = unescape_bytes(encode_utf8(s));
    if valid_utf8(b) {
        decode_utf8(b)
    } else {
        utf8_lossy(b)
    }
}

/// The characters of ASCII bytes.
pub open spec fn ascii_chars(bs: Seq<u8>) -> Seq<char> {
    Seq::new(bs.len(), |i: int| bs[i] as char)
}

/// The escaped text of `s`.
pub open spec fn escape_text(s: Seq<char>) -> Seq<char> {
    ascii_chars(escape_bytes(encode_utf8(s)))
}

proof fn lemma_escape_bytes_push(bs: Seq<u8>, b: u8)
    ensures
        escape_bytes(bs.push(b)) == escape_bytes(bs) + escape_piece(b),
    decreases bs.len(),
{
    if bs.len() == 0 {
        assert(bs.push(b).drop_first() =~= Seq::<u8>::empty());
        assert(escape_bytes(Seq::<u8>::empty()) =~= Seq::<u8>::empty());
        assert(escape_bytes(bs.push(b)) =~= escape_piece(b));
    } else {
        assert(bs.push(b).drop_first() =~= bs.drop_first().push(b));
        lemma_escape_bytes_push(bs.drop_first(), b);
        assert(escape_bytes(bs.push(b)) =~= escape_bytes(bs) + escape_piece(b));
    }
}

/// Every byte of an escaped text is ASCII.
proof fn lemma_escape_bytes_ascii(bs: Seq<u8>)
    ensures
        forall|i: int| 0 <= i < escape_bytes(bs).len() ==> #[trigger] escape_bytes(bs)[i] < 128,
        forall|i: int|
            0 <= i < escape_bytes(bs).len() ==> #[trigger] escape_bytes(bs)[i] != 44
                && escape_bytes(bs)[i] != 61 && escape_bytes(bs)[i] != 59,
    decreases bs.len(),
{
    if bs.len() > 0 {
        lemma_escape_bytes_ascii(bs.drop_first());
        let p = escape_piece(bs[0]);
        let r = escape_bytes(bs.drop_first());
        assert forall|i: int| 0 <= i < escape_bytes(bs).len() implies #[trigger] escape_bytes(
            bs,
        )[i] < 128 && escape_bytes(bs)[i] != 44 && escape_bytes(bs)[i] != 61 && escape_bytes(
            bs,
        )[i] != 59 by {
            if i < p.len() {
                assert(escape_bytes(bs)[i] == p[i]);
            } else {
                assert(escape_bytes(bs)[i] == r[i - p.len()]);
            }
        }
    }
}

fn hex_char(n: u8) -> (c: char)
    requires
        n < 16,
    ensures
        c as u32 == hex_digit(n as int) as u32,
{
    if n < 10 {
        ((48 + n) as u8) as char
    } else {
        ((87 + n) as u8) as char
    }
}

fn hex_val(b: u8) -> (r: Option<u8>)
    ensures
        r == hex_value(b),
{
    if 48 <= b && b <= 57 {
        Some(b - 48)
    } else if 97 <= b && b <= 102 {
        Some(b - 97 + 10)
    } else if 65 <= b && b <= 70 {
        Some(b - 65 + 10)
    } else {
        None
    }
}

/// Percent-escape every byte of `s` but the safe ones.
fn escape(s: &str) -> (out: String)
    ensures
        out@ == escape_text(s@),
        encode_utf8(out@) == escape_bytes(encode_utf8(s@)),
        vstd::utf8::is_ascii_chars(out@),
{
    let bytes = s.as_bytes();
    let ghost bs = bytes@;
    let mut out = String::new();
    let mut i: usize = 0;
    proof {
        assert(bs.take(0) =~= Seq::<u8>::empty());
    }
    while i < bytes.len()
        invariant
            bs == bytes@,
            i <= bs.len(),
            out@.len() == escape_bytes(bs.take(i as int)).len(),
            forall|k: int| 0 <= k < out@.len() ==> #[trigger] out@[k] as u32 == escape_bytes(bs.take(i as int))[k] as u32,
            vstd::utf8::is_ascii_chars(out@),
        decreases bytes.len() - i,
    {
        let b = bytes[i];
        let ghost before = out@;
        proof {
            assert(bs.take(i + 1) =~= bs.take(i as int).push(b));
            lemma_escape_bytes_push(bs.take(i as int), b);
        }
        let safe = (48 <= b && b <= 57) || (65 <= b && b <= 90) || (97 <= b && b <= 122) || b == 45
            || b == 95 || b == 47 || b == 46 || b == 92;
        if safe {
            push_char(&mut out, b as char);
        } else {
            push_char(&mut out, '%');
            push_char(&mut out, hex_char(b / 16));
            push_char(&mut out, hex_char(b % 16));
        }
        i = i + 1;
        proof {
            let e = escape_bytes(bs.take(i as int));
            assert forall|k: int| 0 <= k < out@.len() implies #[trigger] out@[k] as u32 == e[k] as u32 by {
                if k < before.len() {
                    assert(out@[k] == before[k]);
                }
            }
        }
    }
    proof {
        assert(bs.take(bs.len() as int) =~= bs);
        vstd::utf8::is_ascii_chars_encode_utf8(out@);
        assert(encode_utf8(out@) =~= escape_bytes(bs));
        lemma_escape_bytes_ascii(bs);
        assert(out@ =~= ascii_chars(escape_bytes(bs)));
    }
    out
}

/// Percent-decode per the D-Bus address escaping rules.
fn unescape(s: &[char]) -> (out: String)
    ensures
        out@ == unescape_text(s@),
{
    let text = string_of(s);
    let bytes = text.as_str().as_bytes();
    let ghost bs = bytes@;
    let mut out: Vec<u8> = Vec::new();
    let mut i: usize = 0;
    proof {
        assert(bs.skip(0) =~= bs);
        assert(unescape_bytes(bs) =~= out@ + unescape_bytes(bs.skip(0)));
    }
    while i < bytes.len()
        invariant
            bs == bytes@,
            i <= bs.len(),
            unescape_bytes(bs) == out@ + unescape_bytes(bs.skip(i as int)),
        decreases bytes.len() - i,
    {
        let ghost rest = bs.skip(i as int);
        if bytes[i] == 37 && bytes.len() - i > 2 {
            let h = hex_val(bytes[i + 1]);
            let l = hex_val(bytes[i + 2]);
            if h.is_some() && l.is_some() {
                let hv = h.unwrap();
                let lv = l.unwrap();
                let ghost before = out@;
                out.push(hv * 16 + lv);
                proof {
                    assert(rest[0] == bytes@[i as int] && rest[1] == bytes@[i + 1] && rest[2] == bytes@[i + 2]);
                    assert(rest.skip(3) =~= bs.skip(i + 3));
                    assert(out@ =~= before.push((hv * 16 + lv) as u8));
                    assert(before + unescape_bytes(rest) =~= out@ + unescape_bytes(bs.skip(i + 3)));
                }
                i = i + 3;
                continue;
            }
        }
        let ghost before = out@;
        out.push(bytes[i]);
        proof {
            assert(rest[0] == bytes@[i as int]);
            assert(rest.drop_first() =~= bs.skip(i + 1));
            assert(before + unescape_bytes(rest) =~= out@ + unescape_bytes(bs.skip(i + 1)));
        }
        i = i + 1;
    }
    proof {
        assert(bs.skip(i as int) =~= Seq::<u8>::empty());
        assert(out@ =~= unescape_bytes(bs));
    }
    let r = string_from_utf8_lossy(out.as_slice());
    r
}

// ---------------------------------------------------------------------------
// Parsing
// ---------------------------------------------------------------------------

/// The key/value pairs of the comma-separated `key=value` pieces `parts`
/// (empty pieces skipped); `None` where a piece has no `=`.
pub open spec fn kv_of(parts: Seq<Seq<char>>) -> Option<Seq<(Seq<char>, Seq<char>)>>
    decreases parts.len(),
{
    if parts.len() == 0 {
        Some(Seq::empty())
    } else {
        match kv_of(parts.drop_last()) {
            None => None,
            Some(kvs) => {
                let p = parts.last();
                if p.len() == 0 {
                    Some(kvs)
                } else {
                    match index_of(p, '=') {
                        None => None,
                        Some(i) => Some(kvs.push((p.take(i), p.skip(i + 1)))),
                    }
                }
            },
        }
    }
}

/// The value of the last pair with key `key` (a later pair replaces an
/// earlier one).
pub open spec fn lookup(kvs: Seq<(Seq<char>, Seq<char>)>, key: Seq<char>) -> Option<Seq<char>>
    decreases kvs.len(),
{
    if kvs.len() == 0 {
        None
    } else if kvs.last().0 == key {
        Some(kvs.last().1)
    } else {
        lookup(kvs.drop_last(), key)
    }
}

/// The address `s` denotes, or the text of the `InvalidAddress` error.
pub open spec fn parse_one_spec(s: Seq<char>) -> Result<AddressSpec, Seq<char>> {
    match index_of(s, ':') {
        None => Err(s),
        Some(i) => {
            let transport = s.take(i);
            let rest = s.skip(i + 1);
            match kv_of(split_on(rest, ',')) {
                None => Err(rest),
                Some(kvs) => if transport == "unix"@ {
                    if lookup(kvs, "path"@) is Some {
                        Ok(AddressSpec::UnixPath(unescape_text(lookup(kvs, "path"@)->0)))
                    } else if lookup(kvs, "abstract"@) is Some {
                        Ok(AddressSpec::UnixAbstract(unescape_text(lookup(kvs, "abstract"@)->0)))
                    } else if lookup(kvs, "tmpdir"@) is Some {
                        Ok(AddressSpec::UnixTmpdir(unescape_text(lookup(kvs, "tmpdir"@)->0)))
                    } else {
                        Err(s)
                    }
                } else if transport == "tcp"@ {
                    let host = match lookup(kvs, "host"@) {
                        Some(h) => unescape_text(h),
                        None => "localhost"@,
                    };
                    match lookup(kvs, "port"@) {
                        None => Err(s),
                        Some(p) => match unsigned_text(p) {
                            Some(n) => if n <= 65535 {
                                Ok(AddressSpec::Tcp { host, port: n as u16 })
                            } else {
                                Err(s)
                            },
                            None => Err(s),
                        },
                    }
                } else {
                    Err("unsupported transport '"@ + transport + "' in '"@ + s + "'"@)
                },
            }
        },
    }
}

/// The addresses of the `;`-separated entries `parts` (empty ones skipped),
/// or the error text of the first entry that does not parse.
pub open spec fn parse_list_spec(parts: Seq<Seq<char>>) -> Result<Seq<AddressSpec>, Seq<char>>
    decreases parts.len(),
{
    if parts.len() == 0 {
        Ok(Seq::empty())
    } else {
        match parse_list_spec(parts.drop_last()) {
            Err(t) => Err(t),
            Ok(addrs) => if parts.last().len() == 0 {
                Ok(addrs)
            } else {
                match parse_one_spec(parts.last()) {
                    Ok(a) => Ok(addrs.push(a)),
                    Err(t) => Err(t),
                }
            },
        }
    }
}

/// The wire text of an address.
pub open spec fn address_text(a: AddressSpec) -> Seq<char> {
    match a {
        AddressSpec::UnixPath(p) => "unix:path="@ + escape_text(p),
        AddressSpec::UnixAbstract(p) => "unix:abstract="@ + escape_text(p),
        AddressSpec::UnixTmpdir(p) => "unix:tmpdir="@ + escape_text(p),
        AddressSpec::Tcp { host, port } => "tcp:host="@ + escape_text(host) + ",port="@ + decimal(
            port as nat,
        ),
    }
}

fn invalid(s: &str) -> (e: CoreError)
    ensures
        e matches CoreError::InvalidAddress(m) && m@ == s@,
{
    CoreError::InvalidAddress(s.to_owned())
}

/// The key/value pairs of `rest`, split at commas and at each piece's
/// first `=`.
fn parse_kv(rest: &[char]) -> (r: Result<Vec<(Vec<char>, Vec<char>)>, CoreError>)
    ensures
        match kv_of(split_on(rest@, ',')) {
            Some(kvs) => r matches Ok(v) && kv_view(v@) == kvs,
            None => r matches Err(e) && e matches CoreError::InvalidAddress(m) && m@ == rest@,
        },
{
    let parts = split_chars(rest, ',');
    let ghost ps = split_on(rest@, ',');
    let mut out: Vec<(Vec<char>, Vec<char>)> = Vec::new();
    let mut i: usize = 0;
    proof {
        assert(ps.take(0) =~= Seq::<Seq<char>>::empty());
        assert(kv_view(out@) =~= Seq::<(Seq<char>, Seq<char>)>::empty());
    }
    while i < parts.len()
        invariant
            ps == split_on(rest@, ','),
            parts@.len() == ps.len(),
            forall|k: int| 0 <= k < parts@.len() ==> #[trigger] parts@[k]@ == ps[k],
            i <= parts@.len(),
            kv_of(ps.take(i as int)) == Some(kv_view(out@)),
        decreases parts.len() - i,
    {
        proof {
            assert(ps.take(i + 1).drop_last() =~= ps.take(i as int));
            assert(ps.take(i + 1).last() == ps[i as int]);
        }
        let part = &parts[i];
        if part.len() > 0 {
            match find_char_from(part.as_slice(), 0, '=') {
                None => {
                    proof {
                        crate::text::lemma_index_of_none(part@, '=');
                        lemma_kv_err_prefix(ps, i + 1);
                    }
                    let text = string_of(rest);
                    return Err(invalid(text.as_str()));
                },
                Some(j) => {
                    proof {
                        crate::text::lemma_index_of_unique(part@, '=', j as int);
                    }
                    let k = slice_to_vec_range(part.as_slice(), 0, j);
                    let v = slice_to_vec_range(part.as_slice(), j + 1, part.len());
                    let ghost before = out@;
                    out.push((k, v));
                    proof {
                        assert(part@.take(j as int) =~= part@.subrange(0, j as int));
                        assert(part@.skip(j + 1) =~= part@.subrange(j + 1, part@.len() as int));
                        assert(kv_view(out@) =~= kv_view(before).push((part@.take(j as int), part@.skip(j + 1))));
                    }
                },
            }
        }
        i = i + 1;
    }
    proof {
        assert(ps.take(ps.len() as int) =~= ps);
    }
    Ok(out)
}

/// Where the pieces up to `k` already fail, all of them fail.
proof fn lemma_kv_err_prefix(ps: Seq<Seq<char>>, k: int)
    requires
        0 <= k <= ps.len(),
        kv_of(ps.take(k)) is None,
    ensures
        kv_of(ps) is None,
    decreases ps.len() - k,
{
    if k < ps.len() {
        assert(ps.take(k + 1).drop_last() =~= ps.take(k));
        lemma_kv_err_prefix(ps, k + 1);
    } else {
        assert(ps.take(k) =~= ps);
    }
}

/// The model of key/value pairs.
pub open spec fn kv_view(v: Seq<(Vec<char>, Vec<char>)>) -> Seq<(Seq<char>, Seq<char>)> {
    Seq::new(v.len(), |i: int| (v[i].0@, v[i].1@))
}

/// Index of the last pair with key `key`.
fn find_key(kvs: &Vec<(Vec<char>, Vec<char>)>, key: &str) -> (r: Option<usize>)
    ensures
        match lookup(kv_view(kvs@), key@) {
            Some(v) => r matches Some(i) && i < kvs@.len() && kvs@[i as int].1@ == v,
            None => r is None,
        },
{
    let ghost s = kv_view(kvs@);
    let kc = chars_of(key);
    let mut i: usize = kvs.len();
    while i > 0
        invariant
            i <= kvs@.len(),
            kc@ == key@,
            s == kv_view(kvs@),
            forall|j: int| i <= j < kvs@.len() ==> (#[trigger] s[j]).0 != key@,
        decreases i,
    {
        if chars_eq(kvs[i - 1].0.as_slice(), kc.as_slice()) {
            proof {
                lemma_lookup_suffix(s, key@, i as int);
            }
            return Some(i - 1);
        }
        i = i - 1;
    }
    proof {
        lemma_lookup_suffix(s, key@, 0);
    }
    None
}

/// Where no pair from `i` on has key `key`, the lookup is that of the
/// first `i` pairs, and it is the `i-1`th pair's value where that pair has
/// the key.
proof fn lemma_lookup_suffix(s: Seq<(Seq<char>, Seq<char>)>, key: Seq<char>, i: int)
    requires
        0 <= i <= s.len(),
        forall|j: int| i <= j < s.len() ==> (#[trigger] s[j]).0 != key,
    ensures
        lookup(s, key) == lookup(s.take(i), key),
        i > 0 && s[i - 1].0 == key ==> lookup(s, key) == Some(s[i - 1].1),
        i == 0 ==> lookup(s, key) is None,
    decreases s.len() - i,
{
    if i < s.len() {
        assert(s.drop_last().take(i) =~= s.take(i));
        lemma_lookup_suffix(s.drop_last(), key, i);
    } else {
        assert(s.take(i) =~= s);
    }
    if i > 0 {
        assert(s.take(i).drop_last() =~= s.take(i - 1));
    }
}

impl Address {
    /// Parse a full `;`-separated address string into its entries, in
    /// order, skipping empty ones.
    pub fn parse_list(s: &str) -> (r: Result<Vec<Address>, CoreError>)
        ensures
            match parse_list_spec(split_on(s@, ';')) {
                Ok(addrs) => r matches Ok(v) && v@.len() == addrs.len() && forall|k: int|
                    0 <= k < addrs.len() ==> (#[trigger] v@[k])@ == addrs[k],
                Err(t) => r matches Err(e) && e matches CoreError::InvalidAddress(m) && m@ == t,
            },
    {
        let cs = chars_of(s);
        let parts = split_chars(cs.as_slice(), ';');
        let ghost ps = split_on(s@, ';');
        let mut out: Vec<Address> = Vec::new();
        let mut i: usize = 0;
        proof {
            assert(ps.take(0) =~= Seq::<Seq<char>>::empty());
        }
        while i < parts.len()
            invariant
                ps == split_on(s@, ';'),
                parts@.len() == ps.len(),
                forall|k: int| 0 <= k < parts@.len() ==> #[trigger] parts@[k]@ == ps[k],
                i <= parts@.len(),
                parse_list_spec(ps.take(i as int)) matches Ok(addrs) && out@.len() == addrs.len()
                    && forall|k: int| 0 <= k < addrs.len() ==> (#[trigger] out@[k])@ == addrs[k],
            decreases parts.len() - i,
        {
            proof {
                assert(ps.take(i + 1).drop_last() =~= ps.take(i as int));
                assert(ps.take(i + 1).last() == ps[i as int]);
            }
            if parts[i].len() > 0 {
                let text = string_of(parts[i].as_slice());
                match Address::parse_one(text.as_str()) {
                    Ok(a) => {
                        out.push(a);
                    },
                    Err(e) => {
                        proof {
                            lemma_list_err_prefix(ps, i + 1);
                        }
                        return Err(e);
                    },
                }
            }
            i = i + 1;
        }
        proof {
            assert(ps.take(ps.len() as int) =~= ps);
        }
        Ok(out)
    }

    /// Parse a single `transport:key=value,...` address entry.
    pub fn parse_one(s: &str) -> (r: Result<Address, CoreError>)
        ensures
            match parse_one_spec(s@) {
                Ok(a) => r matches Ok(x) && x@ == a,
                Err(t) => r matches Err(e) && e matches CoreError::InvalidAddress(m) && m@ == t,
            },
    {
        let cs = chars_of(s);
        let colon = match find_char_from(cs.as_slice(), 0, ':') {
            Some(i) => i,
            None => {
                proof {
                    crate::text::lemma_index_of_none(s@, ':');
                }
                return Err(invalid(s));
            },
        };
        proof {
            crate::text::lemma_index_of_unique(s@, ':', colon as int);
        }
        let transport = slice_to_vec_range(cs.as_slice(), 0, colon);
        let rest = slice_to_vec_range(cs.as_slice(), colon + 1, cs.len());
        proof {
            assert(transport@ =~= s@.take(colon as int));
            assert(rest@ =~= s@.skip(colon + 1));
        }
        let kv = parse_kv(rest.as_slice())?;
        let ghost kvs = kv_of(split_on(rest@, ','))->0;
        let unix = chars_of("unix");
        let tcp = chars_of("tcp");
        if chars_eq(transport.as_slice(), unix.as_slice()) {
            if let Some(i) = find_key(&kv, "path") {
                Ok(Address::UnixPath(unescape(kv[i].1.as_slice())))
            } else if let Some(i) = find_key(&kv, "abstract") {
                Ok(Address::UnixAbstract(unescape(kv[i].1.as_slice())))
            } else if let Some(i) = find_key(&kv, "tmpdir") {
                Ok(Address::UnixTmpdir(unescape(kv[i].1.as_slice())))
            } else {
                Err(invalid(s))
            }
        } else if chars_eq(transport.as_slice(), tcp.as_slice()) {
            let host = match find_key(&kv, "host") {
                Some(i) => unescape(kv[i].1.as_slice()),
                None => {
                    proof {
                        reveal_strlit("localhost");
                    }
                    "localhost".to_owned()
                },
            };
            let port = match find_key(&kv, "port") {
                Some(i) => match parse_unsigned(kv[i].1.as_slice(), 65535) {
                    Some(n) => n as u16,
                    None => {
                        return Err(invalid(s));
                    },
                },
                None => {
                    return Err(invalid(s));
                },
            };
            Ok(Address::Tcp { host, port })
        } else {
            let t = string_of(transport.as_slice());
            let m1 = concat_str("unsupported transport '", t.as_str());
            let m2 = concat_str(m1.as_str(), "' in '");
            let m3 = concat_str(m2.as_str(), s);
            let m4 = concat_str(m3.as_str(), "'");
            Err(CoreError::InvalidAddress(m4))
        }
    }

    /// The wire address text, percent-escaping the unsafe bytes of the
    /// path, name, directory or host, so that the text parses back to the
    /// address (`parse_address_text`).
    pub fn to_address_string(&self) -> (s: String)
        ensures
            s@ == address_text(self@),
    {
        match self {
            Address::UnixPath(p) => concat_str("unix:path=", escape(p.as_str()).as_str()),
            Address::UnixAbstract(a) => concat_str("unix:abstract=", escape(a.as_str()).as_str()),
            Address::UnixTmpdir(d) => concat_str("unix:tmpdir=", escape(d.as_str()).as_str()),
            Address::Tcp { host, port } => {
                let a = concat_str("tcp:host=", escape(host.as_str()).as_str());
                let b = concat_str(a.as_str(), ",port=");
                concat_str(b.as_str(), u64_to_string(*port as u64).as_str())
            },
        }
    }
}

/// Where the entries up to `k` already fail, the list fails alike.
proof fn lemma_list_err_prefix(ps: Seq<Seq<char>>, k: int)
    requires
        0 <= k <= ps.len(),
        parse_list_spec(ps.take(k)) is Err,
    ensures
        parse_list_spec(ps) == parse_list_spec(ps.take(k)),
    decreases ps.len() - k,
{
    if k < ps.len() {
        assert(ps.take(k + 1).drop_last() =~= ps.take(k));
        lemma_list_err_prefix(ps, k + 1);
    } else {
        assert(ps.take(k) =~= ps);
    }
}


// ---------------------------------------------------------------------------
// Escaping, then parsing, gives the address back
// ---------------------------------------------------------------------------

proof fn lemma_unescape_piece(b: u8, rest: Seq<u8>)
    ensures
        unescape_bytes(escape_piece(b) + rest) == seq![b] + unescape_bytes(rest),
{
    let t = escape_piece(b) + rest;
    if is_safe_byte(b) {
        assert(t[0] == b);
        assert(t.drop_first() =~= rest);
    } else {
        let hi = (b / 16) as u8;
        let lo = (b % 16) as u8;
        assert(t[0] == 37u8);
        assert(t[1] == hex_digit(hi as int));
        assert(t[2] == hex_digit(lo as int));
        assert(hex_value(hex_digit(hi as int)) == Some(hi));
        assert(hex_value(hex_digit(lo as int)) == Some(lo));
        assert(t.skip(3) =~= rest);
        assert((hi * 16 + lo) as u8 == b);
    }
}

/// Decoding the escaped form of `bs` gives `bs` back.
pub proof fn lemma_unescape_escape_bytes(bs: Seq<u8>)
    ensures
        unescape_bytes(escape_bytes(bs)) == bs,
    decreases bs.len(),
{
    if bs.len() == 0 {
        assert(escape_bytes(bs) =~= Seq::<u8>::empty());
    } else {
        lemma_unescape_escape_bytes(bs.drop_first());
        lemma_unescape_piece(bs[0], escape_bytes(bs.drop_first()));
        assert(seq![bs[0]] + bs.drop_first() =~= bs);
    }
}

/// The escaped text is ASCII, and its UTF-8 bytes are the escaped bytes.
proof fn lemma_escape_text_bytes(s: Seq<char>)
    ensures
        encode_utf8(escape_text(s)) == escape_bytes(encode_utf8(s)),
        forall|i: int| 0 <= i < escape_text(s).len() ==> #[trigger] escape_text(s)[i] != ','
            && escape_text(s)[i] != '=' && escape_text(s)[i] != ';',
{
    let bs = escape_bytes(encode_utf8(s));
    lemma_escape_bytes_ascii(encode_utf8(s));
    let e = escape_text(s);
    assert(vstd::utf8::is_ascii_chars(e)) by {
        assert forall|i: int| 0 <= i < e.len() implies '\0' <= #[trigger] e[i] <= '\u{7f}' by {
            assert(bs[i] < 128);
        }
    }
    vstd::utf8::is_ascii_chars_encode_utf8(e);
    assert(encode_utf8(e) =~= bs);
    assert forall|i: int| 0 <= i < e.len() implies #[trigger] e[i] != ',' && e[i] != '=' && e[i]
        != ';' by {
        assert(bs[i] != 44 && bs[i] != 61 && bs[i] != 59);
    }
}

/// Unescaping the escaped text of `s` gives `s` back.
pub proof fn unescape_escape_text(s: Seq<char>)
    ensures
        unescape_text(escape_text(s)) == s,
{
    lemma_escape_text_bytes(s);
    lemma_unescape_escape_bytes(encode_utf8(s));
    vstd::utf8::encode_utf8_valid_utf8(s);
    vstd::utf8::encode_utf8_decode_utf8(s);
}

/// The pairs of a text `key=value` whose value holds neither `,` nor `=`
/// (and whose key holds no `=`).
proof fn lemma_single_pair(key: Seq<char>, value: Seq<char>)
    requires
        key.len() > 0,
        forall|i: int| 0 <= i < key.len() ==> #[trigger] key[i] != ',' && key[i] != '=',
        forall|i: int| 0 <= i < value.len() ==> #[trigger] value[i] != ',',
    ensures
        kv_of(split_on(key + seq!['='] + value, ',')) == Some(seq![(key, value)]),
{
    let t = key + seq!['='] + value;
    assert forall|j: int| 0 <= j < t.len() implies t[j] != ',' by {
        if j < key.len() {
            assert(t[j] == key[j]);
        } else if j > key.len() {
            assert(t[j] == value[j - key.len() - 1]);
        }
    }
    crate::text::lemma_index_of_none(t, ',');
    assert(split_on(t, ',') == seq![t]);
    crate::text::lemma_index_of_unique(t, '=', key.len() as int);
    assert(seq![t].drop_last() =~= Seq::<Seq<char>>::empty());
    assert(t.take(key.len() as int) =~= key);
    assert(t.skip(key.len() as int + 1) =~= value);
    assert(kv_of(Seq::<Seq<char>>::empty()) == Some(Seq::<(Seq<char>, Seq<char>)>::empty()));
    assert(Seq::<(Seq<char>, Seq<char>)>::empty().push((key, value)) =~= seq![(key, value)]);
}

/// The unix address text `prefix` + `value` where `prefix` is
/// `unix:` + `key` + `=`.
proof fn lemma_unix_text(key: Seq<char>, value: Seq<char>)
    requires
        key.len() > 0,
        forall|i: int| 0 <= i < key.len() ==> #[trigger] key[i] != ',' && key[i] != '=' && key[i]
            != ':',
        forall|i: int| 0 <= i < value.len() ==> #[trigger] value[i] != ',',
    ensures
        ({
            let t = "unix:"@ + key + seq!['='] + value;
            &&& index_of(t, ':') == Some(4int)
            &&& t.take(4) == "unix"@
            &&& t.skip(5) == key + seq!['='] + value
        }),
{
    reveal_strlit("unix:");
    reveal_strlit("unix");
    let t = "unix:"@ + key + seq!['='] + value;
    crate::text::lemma_index_of_unique(t, ':', 4);
    assert(t.take(4) =~= "unix"@);
    assert(t.skip(5) =~= key + seq!['='] + value);
}

/// Writing any address as text and parsing the text gives the address
/// back.
pub proof fn parse_address_text(a: AddressSpec)
    ensures
        parse_one_spec(address_text(a)) == Ok::<AddressSpec, Seq<char>>(a),
{
    match a {
        AddressSpec::UnixPath(p) => lemma_unix_path_text(p),
        AddressSpec::UnixAbstract(p) => lemma_unix_abstract_text(p),
        AddressSpec::UnixTmpdir(p) => lemma_unix_tmpdir_text(p),
        AddressSpec::Tcp { host, port } => lemma_tcp_text(host, port),
    }
}

/// The `unix:path=` case of `parse_address_text`.
proof fn lemma_unix_path_text(p: Seq<char>)
    ensures
        parse_one_spec(address_text(AddressSpec::UnixPath(p))) == Ok::<AddressSpec, Seq<char>>(
            AddressSpec::UnixPath(p),
        ),
{
    reveal_strlit("path");
    reveal_strlit("unix:path=");
    reveal_strlit("unix:");
    reveal_strlit("unix");
    let e = escape_text(p);
    lemma_escape_text_bytes(p);
    unescape_escape_text(p);
    lemma_unix_text("path"@, e);
    lemma_single_pair("path"@, e);
    assert(address_text(AddressSpec::UnixPath(p)) =~= "unix:"@ + "path"@ + seq!['='] + e);
    assert(lookup(seq![("path"@, e)], "path"@) == Some(e));
}

/// The `unix:abstract=` case of `parse_address_text`.
proof fn lemma_unix_abstract_text(p: Seq<char>)
    ensures
        parse_one_spec(address_text(AddressSpec::UnixAbstract(p))) == Ok::<AddressSpec, Seq<char>>(
            AddressSpec::UnixAbstract(p),
        ),
{
    reveal_strlit("path");
    reveal_strlit("abstract");
    reveal_strlit("unix:abstract=");
    reveal_strlit("unix:");
    reveal_strlit("unix");
    let e = escape_text(p);
    lemma_escape_text_bytes(p);
    unescape_escape_text(p);
    lemma_unix_text("abstract"@, e);
    lemma_single_pair("abstract"@, e);
    assert(address_text(AddressSpec::UnixAbstract(p)) =~= "unix:"@ + "abstract"@ + seq!['='] + e);
    assert("abstract"@ != "path"@) by {
        assert("abstract"@.len() != "path"@.len());
    }
    assert(seq![("abstract"@, e)].drop_last() =~= Seq::<(Seq<char>, Seq<char>)>::empty());
    assert(lookup(Seq::<(Seq<char>, Seq<char>)>::empty(), "path"@) is None);
    assert(lookup(Seq::<(Seq<char>, Seq<char>)>::empty(), "abstract"@) is None);
    assert(lookup(seq![("abstract"@, e)], "path"@) is None);
    assert(lookup(seq![("abstract"@, e)], "abstract"@) == Some(e));
}

/// The `unix:tmpdir=` case of `parse_address_text`.
proof fn lemma_unix_tmpdir_text(p: Seq<char>)
    ensures
        parse_one_spec(address_text(AddressSpec::UnixTmpdir(p))) == Ok::<AddressSpec, Seq<char>>(
            AddressSpec::UnixTmpdir(p),
        ),
{
    reveal_strlit("path");
    reveal_strlit("abstract");
    reveal_strlit("tmpdir");
    reveal_strlit("unix:tmpdir=");
    reveal_strlit("unix:");
    reveal_strlit("unix");
    let e = escape_text(p);
    lemma_escape_text_bytes(p);
    unescape_escape_text(p);
    lemma_unix_text("tmpdir"@, e);
    lemma_single_pair("tmpdir"@, e);
    assert(address_text(AddressSpec::UnixTmpdir(p)) =~= "unix:"@ + "tmpdir"@ + seq!['='] + e);
    assert("tmpdir"@ != "path"@) by {
        assert("tmpdir"@.len() != "path"@.len());
    }
    assert("tmpdir"@ != "abstract"@) by {
        assert("tmpdir"@.len() != "abstract"@.len());
    }
    assert(seq![("tmpdir"@, e)].drop_last() =~= Seq::<(Seq<char>, Seq<char>)>::empty());
    assert(lookup(Seq::<(Seq<char>, Seq<char>)>::empty(), "path"@) is None);
    assert(lookup(Seq::<(Seq<char>, Seq<char>)>::empty(), "abstract"@) is None);
    assert(lookup(seq![("tmpdir"@, e)], "path"@) is None);
    assert(lookup(seq![("tmpdir"@, e)], "abstract"@) is None);
    assert(lookup(seq![("tmpdir"@, e)], "tmpdir"@) == Some(e));
}

/// The TCP case of `parse_address_text`.
proof fn lemma_tcp_text(host: Seq<char>, port: u16)
    ensures
        parse_one_spec(address_text(AddressSpec::Tcp { host, port })) == Ok::<AddressSpec, Seq<char>>(
            AddressSpec::Tcp { host, port },
        ),
{
    reveal_strlit("tcp");
    reveal_strlit("host");
    reveal_strlit("port");
    reveal_strlit("tcp:host=");
    reveal_strlit(",port=");
    reveal_strlit("unix");
    reveal_strlit("host=");
    reveal_strlit("port=");
    let d = decimal(port as nat);
    crate::text::lemma_decimal_text(port as nat);
    let raw = host;
    let host = escape_text(raw);
    lemma_escape_text_bytes(raw);
    unescape_escape_text(raw);
    let t = "tcp:host="@ + host + ",port="@ + d;
    assert(address_text(AddressSpec::Tcp { host: raw, port }) == t);
    crate::text::lemma_index_of_unique(t, ':', 3);
    assert(t.take(3) =~= "tcp"@);
    let rest = t.skip(4);
    let p1 = "host="@ + host;
    let p2 = "port="@ + d;
    assert(rest =~= p1 + seq![','] + p2);
    assert forall|j: int| 0 <= j < p1.len() implies p1[j] != ',' by {
        if j >= 5 {
            assert(p1[j] == host[j - 5]);
        }
    }
    crate::text::lemma_index_of_unique(rest, ',', p1.len() as int);
    assert(rest.take(p1.len() as int) =~= p1);
    assert(rest.skip(p1.len() as int + 1) =~= p2);
    assert forall|j: int| 0 <= j < p2.len() implies p2[j] != ',' by {
        if j >= 5 {
            assert(p2[j] == d[j - 5]);
        }
    }
    crate::text::lemma_index_of_none(p2, ',');
    assert(split_on(p2, ',') == seq![p2]);
    assert(split_on(rest, ',') == seq![p1] + seq![p2]);
    let ps = seq![p1] + seq![p2];
    crate::text::lemma_index_of_unique(p1, '=', 4);
    crate::text::lemma_index_of_unique(p2, '=', 4);
    assert(ps.drop_last() =~= seq![p1]);
    assert(seq![p1].drop_last() =~= Seq::<Seq<char>>::empty());
    assert(p1.take(4) =~= "host"@);
    assert(p1.skip(5) =~= host);
    assert(p2.take(4) =~= "port"@);
    assert(p2.skip(5) =~= d);
    let kvs = seq![("host"@, host), ("port"@, d)];
    assert(kv_of(ps) == Some(kvs)) by {
        assert(kv_of(seq![p1]) == Some(seq![("host"@, host)])) by {
            assert(kv_of(Seq::<Seq<char>>::empty()) == Some(Seq::<(Seq<char>, Seq<char>)>::empty()));
            assert(seq![p1].last() == p1);
            assert(p1.len() > 0);
            assert(Seq::<(Seq<char>, Seq<char>)>::empty().push(("host"@, host)) =~= seq![("host"@, host)]);
        }
        assert(seq![("host"@, host)].push(("port"@, d)) =~= kvs);
    }
    assert(kvs.drop_last() =~= seq![("host"@, host)]);
    assert("host"@ != "port"@) by {
        assert("host"@[0] != "port"@[0]);
    }
    assert("tcp"@ != "unix"@) by {
        assert("tcp"@.len() != "unix"@.len());
    }
    assert(lookup(seq![("host"@, host)], "host"@) == Some(host));
    assert(lookup(kvs, "host"@) == Some(host));
    assert(lookup(kvs, "port"@) == Some(d));
}


/// Splitting text with one more piece appended after a separator gives
/// the pieces of the text and then that piece.
proof fn lemma_split_push(s: Seq<char>, c: char, x: Seq<char>)
    requires
        forall|j: int| 0 <= j < x.len() ==> x[j] != c,
    ensures
        split_on(s + seq![c] + x, c) == split_on(s, c).push(x),
    decreases s.len(),
{
    let t = s + seq![c] + x;
    crate::text::lemma_index_of(s, c);
    match index_of(s, c) {
        Some(i) => {
            crate::text::lemma_index_of_unique(t, c, i);
            assert(t.take(i) =~= s.take(i));
            assert(t.skip(i + 1) =~= s.skip(i + 1) + seq![c] + x);
            lemma_split_push(s.skip(i + 1), c, x);
            assert(split_on(t, c) =~= split_on(s, c).push(x));
        },
        None => {
            crate::text::lemma_index_of_unique(t, c, s.len() as int);
            assert(t.take(s.len() as int) =~= s);
            assert(t.skip(s.len() as int + 1) =~= x);
            crate::text::lemma_index_of_none(x, c);
            assert(split_on(x, c) == seq![x]);
            assert(split_on(s, c) == seq![s]);
            assert(split_on(t, c) == seq![s] + split_on(x, c));
            assert(split_on(t, c) =~= split_on(s, c).push(x));
        },
    }
}

/// A later pair under another key leaves what a key looks up alone.
proof fn lemma_lookup_push(kvs: Seq<(Seq<char>, Seq<char>)>, kv: (Seq<char>, Seq<char>), key: Seq<char>)
    requires
        kv.0 != key,
    ensures
        lookup(kvs.push(kv), key) == lookup(kvs, key),
{
    assert(kvs.push(kv).drop_last() =~= kvs);
}

/// The keys that a parsed address reads.
pub open spec fn address_key(k: Seq<char>) -> bool {
    k == "path"@ || k == "abstract"@ || k == "tmpdir"@ || k == "host"@ || k == "port"@
}

/// A unix address whose pairs include `path=P` is the socket at the
/// decoded `P`, whatever other keys (such as `guid`) the pairs hold.
pub proof fn unix_path_whatever_else(rest: Seq<char>, p: Seq<char>)
    requires
        kv_of(split_on(rest, ',')) is Some,
        lookup(kv_of(split_on(rest, ','))->0, "path"@) == Some(p),
    ensures
        parse_one_spec("unix:"@ + rest) == Ok::<AddressSpec, Seq<char>>(AddressSpec::UnixPath(unescape_text(p))),
{
    reveal_strlit("unix:");
    reveal_strlit("unix");
    let t = "unix:"@ + rest;
    crate::text::lemma_index_of_unique(t, ':', 4);
    assert(t.take(4) =~= "unix"@);
    assert(t.skip(5) =~= rest);
}

/// A TCP address is the endpoint at its `port` (a decimal number up to
/// 65535) on its decoded `host`, or on `localhost` without one, whatever
/// other keys the pairs hold.
pub proof fn tcp_endpoint_whatever_else(rest: Seq<char>, port_text: Seq<char>, n: nat)
    requires
        kv_of(split_on(rest, ',')) is Some,
        lookup(kv_of(split_on(rest, ','))->0, "port"@) == Some(port_text),
        unsigned_text(port_text) == Some(n),
        n <= 65535,
    ensures
        parse_one_spec("tcp:"@ + rest) == Ok::<AddressSpec, Seq<char>>(
            AddressSpec::Tcp {
                host: match lookup(kv_of(split_on(rest, ','))->0, "host"@) {
                    Some(h) => unescape_text(h),
                    None => "localhost"@,
                },
                port: n as u16,
            },
        ),
{
    reveal_strlit("tcp:");
    reveal_strlit("tcp");
    reveal_strlit("unix");
    let t = "tcp:"@ + rest;
    crate::text::lemma_index_of_unique(t, ':', 3);
    assert(t.take(3) =~= "tcp"@);
    assert(t.skip(4) =~= rest);
    assert("tcp"@ != "unix"@) by {
        assert("tcp"@.len() != "unix"@.len());
    }
}

/// Appending a pair under a key that addresses do not read (such as
/// `guid=...`) to an address that parses changes nothing: the address is
/// the same.
pub proof fn extra_pairs_are_ignored(s: Seq<char>, key: Seq<char>, value: Seq<char>)
    requires
        parse_one_spec(s) is Ok,
        key.len() > 0,
        !address_key(key),
        forall|j: int| 0 <= j < key.len() ==> key[j] != ',' && key[j] != '=',
        forall|j: int| 0 <= j < value.len() ==> value[j] != ',',
    ensures
        parse_one_spec(s + seq![','] + key + seq!['='] + value) == parse_one_spec(s),
{
    reveal_strlit("path");
    reveal_strlit("abstract");
    reveal_strlit("tmpdir");
    reveal_strlit("host");
    reveal_strlit("port");
    let x = key + seq!['='] + value;
    let t = s + seq![','] + x;
    assert(t =~= s + seq![','] + key + seq!['='] + value);
    let i = index_of(s, ':')->0;
    crate::text::lemma_index_of(s, ':');
    crate::text::lemma_index_of_unique(t, ':', i);
    assert(t.take(i) =~= s.take(i));
    let rest = s.skip(i + 1);
    assert(t.skip(i + 1) =~= rest + seq![','] + x);
    assert forall|j: int| 0 <= j < x.len() implies x[j] != ',' by {
        if j < key.len() {
            assert(x[j] == key[j]);
        } else if j > key.len() {
            assert(x[j] == value[j - key.len() - 1]);
        }
    }
    lemma_split_push(rest, ',', x);
    let ps = split_on(rest, ',');
    assert(ps.push(x).drop_last() =~= ps);
    crate::text::lemma_index_of_unique(x, '=', key.len() as int);
    assert(x.take(key.len() as int) =~= key);
    assert(x.skip(key.len() as int + 1) =~= value);
    let kvs = kv_of(ps)->0;
    assert(kv_of(ps.push(x)) == Some(kvs.push((key, value))));
    lemma_lookup_push(kvs, (key, value), "path"@);
    lemma_lookup_push(kvs, (key, value), "abstract"@);
    lemma_lookup_push(kvs, (key, value), "tmpdir"@);
    lemma_lookup_push(kvs, (key, value), "host"@);
    lemma_lookup_push(kvs, (key, value), "port"@);
}

} // verus!
