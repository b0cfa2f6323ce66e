//! Match rules: parsing their text, and testing messages against them.

use crate::errors;
use crate::header::{text_field, FieldSpec, MessageType};
use crate::message::Message;
use crate::text::{
    chars_eq, chars_of, concat_str, has_prefix, parse_unsigned, push_char, slice_to_vec_range,
    starts_with, str_eq, string_of, unsigned_text,
};
use crate::types::{unwrap_variants, values_view, ValueSpec};
use vstd::prelude::*;
use vstd::string::StringSliceAdditionalSpecFns;
use vstd::utf8::{decode_utf8, valid_utf8};

verus! {

broadcast use vstd::std_specs::vec::group_vec_axioms;

/// The text of some bytes: decoded where they are UTF-8, else with each
/// ill-formed part replaced.
pub open spec fn bytes_text(b: Seq<u8>) -> Seq<char> {
    if valid_utf8(b) {
        decode_utf8(b)
    } else {
        crate::addr::utf8_lossy(b)
    }
}

/// The `key='value'` pairs of a match rule, read from byte `i` of `b` on,
/// after the pairs `acc`; each value byte becomes the character of that
/// code, and `'\''` inside a value stands for a quote.
pub open spec fn tokens_from(b: Seq<u8>, i: int, acc: Seq<(Seq<char>, Seq<char>)>) -> Result<
    Seq<(Seq<char>, Seq<char>)>,
    Seq<char>,
>
    decreases b.len() - i,
{
    if i < 0 || i >= b.len() {
        Ok(acc)
    } else {
        match byte_index_from(b, i, 61) {
            None => Err("match rule missing '=' after key"@),
            Some(j) => {
                let key = bytes_text(b.subrange(i, j));
                let k = j + 1;
                if k >= b.len() || b[k] != 39 {
                    Err("match rule value must be single-quoted"@)
                } else {
                    match value_from(b, k + 1, Seq::empty()) {
                        Err(e) => Err(e),
                        Ok((v, p)) => if p <= i || p > b.len() {
                            Err(Seq::empty())
                        } else {
                            let p2 = if p < b.len() && b[p] == 44 {
                                p + 1
                            } else {
                                p
                            };
                            tokens_from(b, p2, acc.push((key, v)))
                        },
                    }
                }
            },
        }
    }
}

/// The first index at or after `i` of the byte `c` in `b`.
pub open spec fn byte_index_from(b: Seq<u8>, i: int, c: u8) -> Option<int>
    decreases b.len() - i,
{
    if i < 0 || i >= b.len() {
        None
    } else if b[i] == c {
        Some(i)
    } else {
        byte_index_from(b, i + 1, c)
    }
}

/// A quoted value read from byte `k` of `b` on (just after the opening
/// quote), after the characters `v`: the value and the position after it.
pub open spec fn value_from(b: Seq<u8>, k: int, v: Seq<char>) -> Result<(Seq<char>, int), Seq<char>>
    decreases b.len() - k,
{
    if k < 0 || k >= b.len() {
        Err("unterminated quoted value in match rule"@)
    } else if b[k] == 39 {
        let k2 = k + 1;
        if k2 + 1 < b.len() && b[k2] == 92 && b[k2 + 1] == 39 {
            let k3 = k2 + 2;
            if k3 < b.len() && b[k3] == 39 {
                value_from(b, k3 + 1, v.push('\''))
            } else {
                Err("malformed escaped quote in match rule"@)
            }
        } else {
            Ok((v, k2))
        }
    } else {
        value_from(b, k + 1, v.push(b[k] as char))
    }
}

/// The pairs of the match rule text whose bytes are `b`.
pub open spec fn tokens(b: Seq<u8>) -> Result<Seq<(Seq<char>, Seq<char>)>, Seq<char>> {
    tokens_from(b, 0, Seq::empty())
}

/// `s` with every leading copy of `p` removed.
pub open spec fn trim_start_matches(s: Seq<char>, p: Seq<char>) -> Seq<char>
    decreases s.len(),
{
    if p.len() > 0 && has_prefix(s, p) {
        trim_start_matches(s.skip(p.len() as int), p)
    } else {
        s
    }
}

/// `s` with every trailing copy of `p` removed.
pub open spec fn trim_end_matches(s: Seq<char>, p: Seq<char>) -> Seq<char>
    decreases s.len(),
{
    if p.len() > 0 && p.len() <= s.len() && s.subrange(s.len() - p.len(), s.len() as int) == p {
        trim_end_matches(s.take(s.len() - p.len()), p)
    } else {
        s
    }
}

/// The message type named in a `type` value.
pub open spec fn type_named(v: Seq<char>) -> Option<MessageType> {
    if v == "signal"@ {
        Some(MessageType::Signal)
    } else if v == "method_call"@ {
        Some(MessageType::MethodCall)
    } else if v == "method_return"@ {
        Some(MessageType::MethodReturn)
    } else if v == "error"@ {
        Some(MessageType::Error)
    } else {
        None
    }
}

/// The model of a match rule.
pub struct RuleSpec {
    pub message_type: Option<MessageType>,
    pub sender: Option<Seq<char>>,
    pub interface: Option<Seq<char>>,
    pub member: Option<Seq<char>>,
    pub path: Option<Seq<char>>,
    pub path_namespace: Option<Seq<char>>,
    pub destination: Option<Seq<char>>,
    pub args: Seq<(usize, Seq<char>)>,
    pub arg_paths: Seq<(usize, Seq<char>)>,
    pub arg0namespace: Option<Seq<char>>,
    pub eavesdrop: bool,
    pub raw: Seq<char>,
}

/// The rule that matches everything, with text `raw`.
pub open spec fn empty_rule(raw: Seq<char>) -> RuleSpec {
    RuleSpec {
        message_type: None,
        sender: None,
        interface: None,
        member: None,
        path: None,
        path_namespace: None,
        destination: None,
        args: Seq::empty(),
        arg_paths: Seq::empty(),
        arg0namespace: None,
        eavesdrop: false,
        raw,
    }
}

/// The index of an `argN` or `argNpath` key, from the digits `d`.
pub open spec fn arg_index(key: Seq<char>, d: Seq<char>) -> Result<usize, Seq<char>> {
    match unsigned_text(d) {
        Some(n) => if n > usize::MAX {
            Err("invalid match rule key '"@ + key + "'"@)
        } else if n > 63 {
            Err("arg index must be 0..63"@)
        } else {
            Ok(n as usize)
        },
        None => Err("invalid match rule key '"@ + key + "'"@),
    }
}

/// The rule `r` with the pair `key='v'` applied.
pub open spec fn apply_pair(r: RuleSpec, key: Seq<char>, v: Seq<char>) -> Result<RuleSpec, Seq<char>> {
    if key == "type"@ {
        match type_named(v) {
            Some(t) => Ok(RuleSpec { message_type: Some(t), ..r }),
            None => Err("invalid match rule type '"@ + v + "'"@),
        }
    } else if key == "sender"@ {
        Ok(RuleSpec { sender: Some(v), ..r })
    } else if key == "interface"@ {
        Ok(RuleSpec { interface: Some(v), ..r })
    } else if key == "member"@ {
        Ok(RuleSpec { member: Some(v), ..r })
    } else if key == "path"@ {
        Ok(RuleSpec { path: Some(v), ..r })
    } else if key == "path_namespace"@ {
        Ok(RuleSpec { path_namespace: Some(v), ..r })
    } else if key == "destination"@ {
        Ok(RuleSpec { destination: Some(v), ..r })
    } else if key == "eavesdrop"@ {
        Ok(RuleSpec { eavesdrop: v == "true"@, ..r })
    } else if key == "arg0namespace"@ {
        Ok(RuleSpec { arg0namespace: Some(v), ..r })
    } else if has_prefix(key, "arg"@) {
        if key.len() >= 4 && key.subrange(key.len() - 4, key.len() as int) == "path"@ {
            match arg_index(key, trim_end_matches(trim_start_matches(key, "arg"@), "path"@)) {
                Ok(n) => Ok(RuleSpec { arg_paths: r.arg_paths.push((n, v)), ..r }),
                Err(e) => Err(e),
            }
        } else {
            match arg_index(key, trim_start_matches(key, "arg"@)) {
                Ok(n) => Ok(RuleSpec { args: r.args.push((n, v)), ..r }),
                Err(e) => Err(e),
            }
        }
    } else {
        Err("unknown match rule key '"@ + key + "'"@)
    }
}

/// The rule that the pairs `ts` make, applied in order to `r`.
pub open spec fn apply_pairs(r: RuleSpec, ts: Seq<(Seq<char>, Seq<char>)>) -> Result<RuleSpec, Seq<char>>
    decreases ts.len(),
{
    if ts.len() == 0 {
        Ok(r)
    } else {
        match apply_pairs(r, ts.drop_last()) {
            Err(e) => Err(e),
            Ok(r2) => apply_pair(r2, ts.last().0, ts.last().1),
        }
    }
}

/// The rule that the text `s` (with bytes `b`) describes, or why not.
pub open spec fn rule_of(s: Seq<char>, b: Seq<u8>) -> Result<RuleSpec, Seq<char>> {
    match tokens(b) {
        Err(e) => Err(e),
        Ok(ts) => apply_pairs(empty_rule(s), ts),
    }
}

/// A match rule.
#[derive(Debug, Clone)]
pub struct MatchRule {
    pub message_type: Option<MessageType>,
    pub sender: Option<String>,
    pub interface: Option<String>,
    pub member: Option<String>,
    pub path: Option<String>,
    pub path_namespace: Option<String>,
    pub destination: Option<String>,
    pub args: Vec<(usize, String)>,
    pub arg_paths: Vec<(usize, String)>,
    pub arg0namespace: Option<String>,
    pub eavesdrop: bool,
    pub raw: String,
}

/// The text of an optional string.
pub open spec fn opt_text(o: Option<String>) -> Option<Seq<char>> {
    match o {
        Some(s) => Some(s@),
        None => None,
    }
}

/// The models of indexed strings.
pub open spec fn indexed_texts(v: Seq<(usize, String)>) -> Seq<(usize, Seq<char>)> {
    Seq::new(v.len(), |i: int| (v[i].0, v[i].1@))
}

impl View for MatchRule {
    type V = RuleSpec;

    open spec fn view(&self) -> RuleSpec {
        RuleSpec {
            message_type: self.message_type,
            sender: opt_text(self.sender),
            interface: opt_text(self.interface),
            member: opt_text(self.member),
            path: opt_text(self.path),
            path_namespace: opt_text(self.path_namespace),
            destination: opt_text(self.destination),
            args: indexed_texts(self.args@),
            arg_paths: indexed_texts(self.arg_paths@),
            arg0namespace: opt_text(self.arg0namespace),
            eavesdrop: self.eavesdrop,
            raw: self.raw@,
        }
    }
}

fn message_text(a: &str, b: &[char], c: &str) -> (s: String)
    ensures
        s@ == a@ + b@ + c@,
{
    let bt = string_of(b);
    let x = concat_str(a, bt.as_str());
    concat_str(x.as_str(), c)
}

/// The pairs of a match rule text.
fn tokenize(s: &str) -> (r: Result<Vec<(Vec<char>, Vec<char>)>, String>)
    ensures
        match tokens(s.spec_bytes()) {
            Ok(ts) => r matches Ok(v) && v@.len() == ts.len() && forall|k: int|
                0 <= k < ts.len() ==> (#[trigger] v@[k]).0@ == ts[k].0 && v@[k].1@ == ts[k].1,
            Err(m) => r matches Err(e) && e@ == m,
        },
{
    let b = s.as_bytes();
    let ghost bs = b@;
    let n = b.len();
    let mut out: Vec<(Vec<char>, Vec<char>)> = Vec::new();
    let ghost mut acc: Seq<(Seq<char>, Seq<char>)> = Seq::empty();
    let mut i: usize = 0;
    proof {
        reveal_strlit("match rule missing '=' after key");
        reveal_strlit("match rule value must be single-quoted");
        reveal_strlit("unterminated quoted value in match rule");
        reveal_strlit("malformed escaped quote in match rule");
    }
    while i < n
        invariant
            bs == b@,
            bs == s.spec_bytes(),
            n == bs.len(),
            i <= n,
            out@.len() == acc.len(),
            forall|k: int| 0 <= k < acc.len() ==> (#[trigger] out@[k]).0@ == acc[k].0 && out@[k].1@ == acc[k].1,
            tokens(bs) == tokens_from(bs, i as int, acc),
        decreases n - i,
    {
        let key_start = i;
        let mut j = i;
        while j < n && b[j] != 61
            invariant
                key_start <= j <= n,
                bs == s.spec_bytes(),
                n == bs.len(),
                bs == b@,
                key_start < n,
                byte_index_from(bs, key_start as int, 61) == byte_index_from(bs, j as int, 61),
            decreases n - j,
        {
            j = j + 1;
        }
        if j >= n {
            proof {
                    reveal_strlit("match rule missing '=' after key");
                }
                return Err("match rule missing '=' after key".to_owned());
        }
        let key_bytes = vstd::slice::slice_subrange(b, key_start, j);
        let key_text = crate::addr::string_from_utf8_lossy(key_bytes);
        let key = chars_of(key_text.as_str());
        let mut k = j + 1;
        if k >= n || b[k] != 39 {
            proof {
                    reveal_strlit("match rule value must be single-quoted");
                }
                return Err("match rule value must be single-quoted".to_owned());
        }
        k = k + 1;
        let mut value: Vec<char> = Vec::new();
        let ghost vstart = k;
        let mut done = false;
        while !done
            invariant
                bs == b@,
                bs == s.spec_bytes(),
                n == bs.len(),
                vstart <= k <= n,
                key_start < vstart,
                vstart == j + 2,
                key_start <= j < n,
                bs[j as int] == 61,
                bs[j + 1] == 39,
                byte_index_from(bs, key_start as int, 61) == Some(j as int),
                tokens(bs) == tokens_from(bs, key_start as int, acc),
                key@ == bytes_text(bs.subrange(key_start as int, j as int)),
                !done ==> value_from(bs, vstart as int, Seq::empty()) == value_from(bs, k as int, value@),
                done ==> value_from(bs, vstart as int, Seq::empty()) == Ok::<(Seq<char>, int), Seq<char>>((value@, k as int)),
            decreases (if done {
                0
            } else {
                n - k + 1
            }),
        {
            if k >= n {
                proof {
                    reveal_strlit("unterminated quoted value in match rule");
                }
                return Err("unterminated quoted value in match rule".to_owned());
            }
            if b[k] == 39 {
                let k2 = k + 1;
                if k2 < n - 1 && b[k2] == 92 && b[k2 + 1] == 39 {
                    value.push('\'');
                    let k3 = k2 + 2;
                    if k3 < n && b[k3] == 39 {
                        k = k3 + 1;
                    } else {
                        proof {
                    reveal_strlit("malformed escaped quote in match rule");
                }
                return Err("malformed escaped quote in match rule".to_owned());
                    }
                } else {
                    k = k2;
                    done = true;
                }
            } else {
                value.push(b[k] as char);
                k = k + 1;
            }
        }
        proof {
            acc = acc.push((key@, value@));
        }
        out.push((key, value));
        if k < n && b[k] == 44 {
            k = k + 1;
        }
        i = k;
    }
    Ok(out)
}


/// `s` with every leading `arg` removed.
fn strip_args(s: &[char]) -> (t: Vec<char>)
    ensures
        t@ == trim_start_matches(s@, "arg"@),
{
    proof {
        reveal_strlit("arg");
    }
    let ghost p: Seq<char> = "arg"@;
    assert(p =~= seq!['a', 'r', 'g']);
    let mut cur = slice_to_vec_range(s, 0, s.len());
    assert(cur@ =~= s@);
    while cur.len() >= 3 && cur[0] == 'a' && cur[1] == 'r' && cur[2] == 'g'
        invariant
            p == "arg"@,
            p =~= seq!['a', 'r', 'g'],
            trim_start_matches(s@, p) == trim_start_matches(cur@, p),
        decreases cur@.len(),
    {
        assert(cur@.subrange(0, 3) =~= p);
        let next = slice_to_vec_range(cur.as_slice(), 3, cur.len());
        assert(next@ =~= cur@.skip(3));
        cur = next;
    }
    proof {
        if has_prefix(cur@, p) {
            assert(cur@.subrange(0, 3)[0] == 'a');
            assert(cur@.subrange(0, 3)[1] == 'r');
            assert(cur@.subrange(0, 3)[2] == 'g');
        }
    }
    cur
}

/// `s` with every trailing `path` removed.
fn strip_paths(s: &[char]) -> (t: Vec<char>)
    ensures
        t@ == trim_end_matches(s@, "path"@),
{
    proof {
        reveal_strlit("path");
    }
    let ghost p: Seq<char> = "path"@;
    assert(p =~= seq!['p', 'a', 't', 'h']);
    let mut cur = slice_to_vec_range(s, 0, s.len());
    assert(cur@ =~= s@);
    while cur.len() >= 4 && cur[cur.len() - 4] == 'p' && cur[cur.len() - 3] == 'a' && cur[cur.len()
        - 2] == 't' && cur[cur.len() - 1] == 'h'
        invariant
            p == "path"@,
            p =~= seq!['p', 'a', 't', 'h'],
            trim_end_matches(s@, p) == trim_end_matches(cur@, p),
        decreases cur@.len(),
    {
        let n = cur.len();
        assert(cur@.subrange(n - 4, n as int) =~= p);
        let next = slice_to_vec_range(cur.as_slice(), 0, n - 4);
        assert(next@ =~= cur@.take(n - 4));
        cur = next;
    }
    proof {
        let n = cur@.len();
        if n >= 4 {
            if cur@.subrange(n - 4, n as int) == p {
                assert(cur@.subrange(n - 4, n as int)[0] == 'p');
                assert(cur@.subrange(n - 4, n as int)[1] == 'a');
                assert(cur@.subrange(n - 4, n as int)[2] == 't');
                assert(cur@.subrange(n - 4, n as int)[3] == 'h');
            }
        }
    }
    cur
}

/// The index of an `argN`/`argNpath` key from the digits `d`.
fn arg_index_of(key: &[char], d: &[char]) -> (r: Result<usize, String>)
    ensures
        match arg_index(key@, d@) {
            Ok(n) => r == Ok::<usize, String>(n),
            Err(m) => r matches Err(e) && e@ == m,
        },
{
    match parse_unsigned(d, 0xffff_ffff_ffff_ffff) {
        Some(v) => {
            if v > usize::MAX as u64 {
                return Err(message_text("invalid match rule key '", key, "'"));
            }
            if v > 63 {
                proof {
                    reveal_strlit("arg index must be 0..63");
                }
                return Err("arg index must be 0..63".to_owned());
            }
            Ok(v as usize)
        },
        None => Err(message_text("invalid match rule key '", key, "'")),
    }
}

/// Whether the characters `w` spell `lit`.
fn is_lit(w: &[char], lit: &str) -> (b: bool)
    ensures
        b == (w@ == lit@),
{
    let l = chars_of(lit);
    chars_eq(w, l.as_slice())
}

impl MatchRule {
    /// The rule that matches every message, with text `raw`.
    pub fn empty(raw: &str) -> (r: MatchRule)
        ensures
            r@ == empty_rule(raw@),
    {
        let r = MatchRule {
            message_type: None,
            sender: None,
            interface: None,
            member: None,
            path: None,
            path_namespace: None,
            destination: None,
            args: Vec::new(),
            arg_paths: Vec::new(),
            arg0namespace: None,
            eavesdrop: false,
            raw: raw.to_owned(),
        };
        assert(indexed_texts(r.args@) =~= Seq::<(usize, Seq<char>)>::empty());
        assert(indexed_texts(r.arg_paths@) =~= Seq::<(usize, Seq<char>)>::empty());
        r
    }

    fn apply(&mut self, key: &[char], value: &[char]) -> (r: Result<(), String>)
        ensures
            match apply_pair(old(self)@, key@, value@) {
                Ok(rule) => r is Ok && final(self)@ == rule,
                Err(m) => r matches Err(e) && e@ == m,
            },
    {
        let v = string_of(value);
        proof {
            reveal_strlit("signal");
            reveal_strlit("method_call");
            reveal_strlit("method_return");
            reveal_strlit("error");
            reveal_strlit("true");
            reveal_strlit("arg");
            reveal_strlit("path");
        }
        if is_lit(key, "type") {
            let t = if is_lit(value, "signal") {
                MessageType::Signal
            } else if is_lit(value, "method_call") {
                MessageType::MethodCall
            } else if is_lit(value, "method_return") {
                MessageType::MethodReturn
            } else if is_lit(value, "error") {
                MessageType::Error
            } else {
                return Err(message_text("invalid match rule type '", value, "'"));
            };
            self.message_type = Some(t);
        } else if is_lit(key, "sender") {
            self.sender = Some(v);
        } else if is_lit(key, "interface") {
            self.interface = Some(v);
        } else if is_lit(key, "member") {
            self.member = Some(v);
        } else if is_lit(key, "path") {
            self.path = Some(v);
        } else if is_lit(key, "path_namespace") {
            self.path_namespace = Some(v);
        } else if is_lit(key, "destination") {
            self.destination = Some(v);
        } else if is_lit(key, "eavesdrop") {
            self.eavesdrop = is_lit(value, "true");
        } else if is_lit(key, "arg0namespace") {
            self.arg0namespace = Some(v);
        } else if starts_with(key, chars_of("arg").as_slice()) {
            let n = key.len();
            if n >= 4 && key[n - 4] == 'p' && key[n - 3] == 'a' && key[n - 2] == 't' && key[n - 1] == 'h' {
                assert(key@.subrange(n - 4, n as int) =~= "path"@);
                let d = strip_paths(strip_args(key).as_slice());
                let idx = arg_index_of(key, d.as_slice())?;
                let ghost before = self.arg_paths@;
                self.arg_paths.push((idx, v));
                assert(indexed_texts(self.arg_paths@) =~= indexed_texts(before).push((idx, value@)));
            } else {
                proof {
                    if n >= 4 && key@.subrange(n - 4, n as int) == "path"@ {
                        assert(key@.subrange(n - 4, n as int)[0] == 'p');
                        assert(key@.subrange(n - 4, n as int)[1] == 'a');
                        assert(key@.subrange(n - 4, n as int)[2] == 't');
                        assert(key@.subrange(n - 4, n as int)[3] == 'h');
                    }
                }
                let d = strip_args(key);
                let idx = arg_index_of(key, d.as_slice())?;
                let ghost before = self.args@;
                self.args.push((idx, v));
                assert(indexed_texts(self.args@) =~= indexed_texts(before).push((idx, value@)));
            }
        } else {
            return Err(message_text("unknown match rule key '", key, "'"));
        }
        Ok(())
    }
}

/// Parse a match rule such as
/// `type='signal',interface='org.freedesktop.DBus',member='NameOwnerChanged'`.
pub fn parse_match_rule(s: &str) -> (r: Result<MatchRule, String>)
    ensures
        match rule_of(s@, s.spec_bytes()) {
            Ok(rule) => r matches Ok(m) && m@ == rule,
            Err(msg) => r matches Err(e) && e@ == msg,
        },
{
    let toks = tokenize(s)?;
    let ghost ts = tokens(s.spec_bytes())->Ok_0;
    let mut rule = MatchRule::empty(s);
    let mut i: usize = 0;
    proof {
        assert(ts.take(0) =~= Seq::<(Seq<char>, Seq<char>)>::empty());
    }
    while i < toks.len()
        invariant
            i <= toks@.len(),
            toks@.len() == ts.len(),
            ts == tokens(s.spec_bytes())->Ok_0,
            tokens(s.spec_bytes()) is Ok,
            forall|k: int| 0 <= k < ts.len() ==> (#[trigger] toks@[k]).0@ == ts[k].0 && toks@[k].1@ == ts[k].1,
            apply_pairs(empty_rule(s@), ts.take(i as int)) == Ok::<RuleSpec, Seq<char>>(rule@),
        decreases toks.len() - i,
    {
        proof {
            assert(ts.take(i + 1).drop_last() =~= ts.take(i as int));
            assert(ts.take(i + 1).last() == ts[i as int]);
        }
        match rule.apply(toks[i].0.as_slice(), toks[i].1.as_slice()) {
            Ok(()) => {},
            Err(e) => {
                proof {
                    lemma_apply_err_prefix(empty_rule(s@), ts, i + 1);
                }
                return Err(e);
            },
        }
        i = i + 1;
    }
    assert(ts.take(i as int) =~= ts);
    Ok(rule)
}

proof fn lemma_apply_err_prefix(r: RuleSpec, ts: Seq<(Seq<char>, Seq<char>)>, k: int)
    requires
        0 <= k <= ts.len(),
        apply_pairs(r, ts.take(k)) is Err,
    ensures
        apply_pairs(r, ts) == apply_pairs(r, ts.take(k)),
    decreases ts.len() - k,
{
    if k < ts.len() {
        assert(ts.take(k + 1).drop_last() =~= ts.take(k));
        lemma_apply_err_prefix(r, ts, k + 1);
    } else {
        assert(ts.take(k) =~= ts);
    }
}

/// Whether one of two paths lies within the other (or either is `/`).
pub open spec fn path_related(p1: Seq<char>, p2: Seq<char>) -> bool {
    p1 == p2 || p1 == "/"@ || p2 == "/"@ || has_prefix(p1, p2 + "/"@) || has_prefix(p2, p1 + "/"@)
}

/// Whether one of two paths lies within the other (or either is `/`).
pub fn is_path_parent_or_child(p1: &str, p2: &str) -> (b: bool)
    ensures
        b == path_related(p1@, p2@),
{
    if str_eq(p1, p2) || str_eq(p1, "/") || str_eq(p2, "/") {
        return true;
    }
    let a = concat_str(p2, "/");
    let b = concat_str(p1, "/");
    let c1 = chars_of(p1);
    let c2 = chars_of(p2);
    let ca = chars_of(a.as_str());
    let cb = chars_of(b.as_str());
    proof {
        reveal_strlit("/");
    }
    starts_with(c1.as_slice(), ca.as_slice()) || starts_with(c2.as_slice(), cb.as_slice())
}

/// The text of body value `idx` (under any variants), where it is a string,
/// object path or signature.
pub open spec fn arg_text(body: Seq<ValueSpec>, idx: int) -> Option<Seq<char>> {
    if 0 <= idx < body.len() {
        match unwrap_variants(body[idx]) {
            ValueSpec::String(s) => Some(s),
            ValueSpec::ObjectPath(s) => Some(s),
            ValueSpec::Signature(s) => Some(s),
            _ => None,
        }
    } else {
        None
    }
}

fn value_as_str(msg: &Message, idx: usize) -> (r: Option<&str>)
    ensures
        match arg_text(values_view(msg.body@), idx as int) {
            Some(t) => r matches Some(s) && s@ == t,
            None => r is None,
        },
{
    proof {
        crate::types::lemma_values_view(msg.body@);
    }
    if idx < msg.body.len() {
        msg.body[idx].unwrap_variant().as_str()
    } else {
        None
    }
}

/// Whether a message of type `mt` with header fields `fields` and body
/// `body` matches the rule `r`, where `owner` is the current owner of the
/// rule's sender name.
pub open spec fn rule_matches(
    r: RuleSpec,
    mt: MessageType,
    fields: Seq<FieldSpec>,
    body: Seq<ValueSpec>,
    owner: Option<Seq<char>>,
) -> bool {
    let actual = match text_field(fields, 7) {
        Some(s) => s,
        None => Seq::empty(),
    };
    &&& (r.message_type matches Some(t) ==> t == mt)
    &&& (r.sender matches Some(s) ==> (actual == s || (!has_prefix(s, ":"@) && owner == Some(actual))))
    &&& (r.interface matches Some(i) ==> text_field(fields, 2) == Some(i))
    &&& (r.member matches Some(m) ==> text_field(fields, 3) == Some(m))
    &&& (r.path matches Some(p) ==> text_field(fields, 1) == Some(p))
    &&& (r.path_namespace matches Some(ns) ==> (text_field(fields, 1) matches Some(p)
        && crate::types::in_namespace(p, ns)))
    &&& (r.destination matches Some(d) ==> text_field(fields, 6) == Some(d))
    &&& (forall|k: int| 0 <= k < r.args.len() ==> arg_text(body, #[trigger] r.args[k].0 as int) == Some(r.args[k].1))
    &&& (forall|k: int|
        0 <= k < r.arg_paths.len() ==> (arg_text(body, #[trigger] r.arg_paths[k].0 as int) matches Some(v)
            && path_related(v, r.arg_paths[k].1)))
    &&& (r.arg0namespace matches Some(ns) ==> (arg_text(body, 0) matches Some(v) && (v == ns || has_prefix(
        v,
        ns + "."@,
    ))))
}

impl MatchRule {
    /// Whether every `argN` test of this rule holds of the body of `msg`.
    fn args_ok(&self, msg: &Message) -> (b: bool)
        ensures
            b == (forall|j: int|
                0 <= j < self@.args.len() ==> arg_text(values_view(msg.body@), #[trigger] self@.args[j].0 as int)
                    == Some(self@.args[j].1)),
    {
        let ghost body = values_view(msg.body@);
        let mut k: usize = 0;
        while k < self.args.len()
            invariant
                k <= self.args@.len(),
                body == values_view(msg.body@),
                forall|j: int| 0 <= j < k ==> arg_text(body, #[trigger] self@.args[j].0 as int) == Some(self@.args[j].1),
            decreases self.args.len() - k,
        {
            let (idx, expected) = &self.args[k];
            let ok = match value_as_str(msg, *idx) {
                Some(v) => str_eq(v, expected.as_str()),
                None => false,
            };
            if !ok {
                assert(self@.args[k as int].0 == *idx);
                return false;
            }
            k = k + 1;
        }
        true
    }

    /// Whether every `argNpath` test of this rule holds of the body of `msg`.
    fn arg_paths_ok(&self, msg: &Message) -> (b: bool)
        ensures
            b == (forall|j: int|
                0 <= j < self@.arg_paths.len() ==> (arg_text(values_view(msg.body@), #[trigger] self@.arg_paths[j].0 as int) matches Some(v)
                    && path_related(v, self@.arg_paths[j].1))),
    {
        let ghost body = values_view(msg.body@);
        let mut k: usize = 0;
        while k < self.arg_paths.len()
            invariant
                k <= self.arg_paths@.len(),
                body == values_view(msg.body@),
                forall|j: int|
                    0 <= j < k ==> (arg_text(body, #[trigger] self@.arg_paths[j].0 as int) matches Some(v)
                        && path_related(v, self@.arg_paths[j].1)),
            decreases self.arg_paths.len() - k,
        {
            let (idx, expected) = &self.arg_paths[k];
            let ok = match value_as_str(msg, *idx) {
                Some(v) => is_path_parent_or_child(v, expected.as_str()),
                None => false,
            };
            if !ok {
                assert(self@.arg_paths[k as int].0 == *idx);
                return false;
            }
            k = k + 1;
        }
        true
    }

    /// Whether `msg` matches this rule. `sender_owner` is the current owner
    /// of the rule's sender name, where it has one (it is looked at only for
    /// a sender that is no unique name).
    pub fn matches(&self, msg: &Message, sender_owner: Option<&str>) -> (b: bool)
        ensures
            b == rule_matches(
                self@,
                msg.header.message_type,
                msg.header.fields_spec(),
                values_view(msg.body@),
                match sender_owner {
                    Some(o) => Some(o@),
                    None => None,
                },
            ),
    {
        proof {
            reveal_strlit(":");
            reveal_strlit(".");
            reveal_strlit("");
            assert(""@ =~= Seq::<char>::empty());
        }
        if let Some(t) = self.message_type {
            if msg.message_type() != t {
                return false;
            }
        }
        if let Some(sender) = &self.sender {
            let actual = match msg.sender() {
                Some(a) => a,
                None => "",
            };
            let matches_directly = str_eq(actual, sender.as_str());
            let sc = chars_of(sender.as_str());
            let matches_via_owner = if sc.len() > 0 && sc[0] == ':' {
                assert(sender@.subrange(0, 1) =~= ":"@);
                false
            } else {
                assert(!has_prefix(sender@, ":"@)) by {
                    if has_prefix(sender@, ":"@) {
                        assert(sender@.subrange(0, 1)[0] == sender@[0]);
                        assert(":"@[0] == ':');
                    }
                }
                match sender_owner {
                    Some(o) => str_eq(o, actual),
                    None => false,
                }
            };
            if !matches_directly && !matches_via_owner {
                return false;
            }
        }
        if let Some(iface) = &self.interface {
            match msg.interface() {
                Some(i) => {
                    if !str_eq(i, iface.as_str()) {
                        return false;
                    }
                },
                None => {
                    return false;
                },
            }
        }
        if let Some(member) = &self.member {
            match msg.member() {
                Some(m) => {
                    if !str_eq(m, member.as_str()) {
                        return false;
                    }
                },
                None => {
                    return false;
                },
            }
        }
        if let Some(path) = &self.path {
            match msg.path() {
                Some(p) => {
                    if !str_eq(p.as_str(), path.as_str()) {
                        return false;
                    }
                },
                None => {
                    return false;
                },
            }
        }
        if let Some(ns) = &self.path_namespace {
            match msg.path() {
                Some(p) => {
                    if !p.is_within_namespace(ns.as_str()) {
                        return false;
                    }
                },
                None => {
                    return false;
                },
            }
        }
        if let Some(dest) = &self.destination {
            match msg.destination() {
                Some(d) => {
                    if !str_eq(d, dest.as_str()) {
                        return false;
                    }
                },
                None => {
                    return false;
                },
            }
        }
        if !self.args_ok(msg) || !self.arg_paths_ok(msg) {
            return false;
        }
        if let Some(ns) = &self.arg0namespace {
            match value_as_str(msg, 0) {
                Some(v) => {
                    if !str_eq(v, ns.as_str()) {
                        let dotted = concat_str(ns.as_str(), ".");
                        let vc = chars_of(v);
                        let dc = chars_of(dotted.as_str());
                        if !starts_with(vc.as_slice(), dc.as_slice()) {
                            return false;
                        }
                    }
                },
                None => {
                    return false;
                },
            }
        }
        true
    }
}

/// Reject a rule text longer than 4096 bytes.
pub fn validate_rule_string(s: &str) -> (r: Result<(), &'static str>)
    ensures
        s.len() > 4096 ==> r == Err::<(), &'static str>(errors::MATCH_RULE_INVALID),
        s.len() <= 4096 ==> r is Ok,
{
    if s.len() > 4096 {
        return Err(errors::MATCH_RULE_INVALID);
    }
    Ok(())
}


/// A rule restricts by each key it names: where the message's type, its
/// interface, member, path or destination header differs from the rule's
/// (or the header is missing), or its path lies outside the rule's path
/// namespace, the message does not match, whatever the other keys say.
pub proof fn rule_keys_restrict(
    r: RuleSpec,
    mt: MessageType,
    fields: Seq<FieldSpec>,
    body: Seq<ValueSpec>,
    owner: Option<Seq<char>>,
)
    ensures
        r.message_type matches Some(t) && t != mt ==> !rule_matches(r, mt, fields, body, owner),
        r.interface matches Some(i) && text_field(fields, 2) != Some(i) ==> !rule_matches(r, mt, fields, body, owner),
        r.member matches Some(m) && text_field(fields, 3) != Some(m) ==> !rule_matches(r, mt, fields, body, owner),
        r.path matches Some(p) && text_field(fields, 1) != Some(p) ==> !rule_matches(r, mt, fields, body, owner),
        r.path_namespace matches Some(ns) && !(text_field(fields, 1) matches Some(p) && crate::types::in_namespace(
            p,
            ns,
        )) ==> !rule_matches(r, mt, fields, body, owner),
        r.destination matches Some(d) && text_field(fields, 6) != Some(d) ==> !rule_matches(r, mt, fields, body, owner),
        r.sender matches Some(u) && has_prefix(u, ":"@) && text_field(fields, 7) != Some(u) ==> !rule_matches(
            r,
            mt,
            fields,
            body,
            owner,
        ),
        forall|k: int|
            0 <= k < r.args.len() && arg_text(body, #[trigger] r.args[k].0 as int) != Some(r.args[k].1)
                ==> !rule_matches(r, mt, fields, body, owner),
{
    reveal_strlit(":");
    if r.sender is Some {
        let u = r.sender->0;
        if has_prefix(u, ":"@) && text_field(fields, 7) != Some(u) {
            assert(u.len() > 0);
            if text_field(fields, 7) is None {
                assert(Seq::<char>::empty() != u);
            }
        }
    }
}

/// The rule that names no key matches every message.
pub proof fn empty_rule_matches_all(
    raw: Seq<char>,
    mt: MessageType,
    fields: Seq<FieldSpec>,
    body: Seq<ValueSpec>,
    owner: Option<Seq<char>>,
)
    ensures
        rule_matches(empty_rule(raw), mt, fields, body, owner),
{
}

/// The rule field that the key `k` sets, for the keys with a text value.
pub open spec fn keyed_field(r: RuleSpec, k: Seq<char>) -> Option<Seq<char>> {
    if k == "sender"@ {
        r.sender
    } else if k == "interface"@ {
        r.interface
    } else if k == "member"@ {
        r.member
    } else if k == "path"@ {
        r.path
    } else if k == "path_namespace"@ {
        r.path_namespace
    } else if k == "destination"@ {
        r.destination
    } else {
        r.arg0namespace
    }
}

/// The keys whose value a rule keeps as text.
pub open spec fn text_key(k: Seq<char>) -> bool {
    k == "sender"@ || k == "interface"@ || k == "member"@ || k == "path"@ || k == "path_namespace"@
        || k == "destination"@ || k == "arg0namespace"@
}

proof fn lemma_rule_keys_distinct()
    ensures
        "type"@ != "sender"@,
        "type"@ != "interface"@,
        "type"@ != "member"@,
        "type"@ != "path"@,
        "type"@ != "path_namespace"@,
        "type"@ != "destination"@,
        "type"@ != "arg0namespace"@,
        "eavesdrop"@ != "sender"@,
        "eavesdrop"@ != "interface"@,
        "eavesdrop"@ != "member"@,
        "eavesdrop"@ != "path"@,
        "eavesdrop"@ != "path_namespace"@,
        "eavesdrop"@ != "destination"@,
        "eavesdrop"@ != "arg0namespace"@,
        "sender"@ != "interface"@,
        "sender"@ != "member"@,
        "sender"@ != "path"@,
        "sender"@ != "path_namespace"@,
        "sender"@ != "destination"@,
        "sender"@ != "arg0namespace"@,
        "interface"@ != "member"@,
        "interface"@ != "path"@,
        "interface"@ != "path_namespace"@,
        "interface"@ != "destination"@,
        "interface"@ != "arg0namespace"@,
        "member"@ != "path"@,
        "member"@ != "path_namespace"@,
        "member"@ != "destination"@,
        "member"@ != "arg0namespace"@,
        "path"@ != "path_namespace"@,
        "path"@ != "destination"@,
        "path"@ != "arg0namespace"@,
        "path_namespace"@ != "destination"@,
        "path_namespace"@ != "arg0namespace"@,
        "destination"@ != "arg0namespace"@,
{
    reveal_strlit("type");
    reveal_strlit("eavesdrop");
    reveal_strlit("sender");
    reveal_strlit("interface");
    reveal_strlit("member");
    reveal_strlit("path");
    reveal_strlit("path_namespace");
    reveal_strlit("destination");
    reveal_strlit("arg0namespace");
    assert("type"@[0] != "sender"@[0]);
    assert("type"@[0] != "interface"@[0]);
    assert("type"@[0] != "member"@[0]);
    assert("type"@[0] != "path"@[0]);
    assert("type"@[0] != "path_namespace"@[0]);
    assert("type"@[0] != "destination"@[0]);
    assert("type"@[0] != "arg0namespace"@[0]);
    assert("eavesdrop"@[0] != "sender"@[0]);
    assert("eavesdrop"@[0] != "interface"@[0]);
    assert("eavesdrop"@[0] != "member"@[0]);
    assert("eavesdrop"@[0] != "path"@[0]);
    assert("eavesdrop"@[0] != "path_namespace"@[0]);
    assert("eavesdrop"@[0] != "destination"@[0]);
    assert("eavesdrop"@[0] != "arg0namespace"@[0]);
    assert("sender"@[0] != "interface"@[0]);
    assert("sender"@[0] != "member"@[0]);
    assert("sender"@[0] != "path"@[0]);
    assert("sender"@[0] != "path_namespace"@[0]);
    assert("sender"@[0] != "destination"@[0]);
    assert("sender"@[0] != "arg0namespace"@[0]);
    assert("interface"@[0] != "member"@[0]);
    assert("interface"@[0] != "path"@[0]);
    assert("interface"@[0] != "path_namespace"@[0]);
    assert("interface"@[0] != "destination"@[0]);
    assert("interface"@[0] != "arg0namespace"@[0]);
    assert("member"@[0] != "path"@[0]);
    assert("member"@[0] != "path_namespace"@[0]);
    assert("member"@[0] != "destination"@[0]);
    assert("member"@[0] != "arg0namespace"@[0]);
    assert("path"@.len() != "path_namespace"@.len());
    assert("path"@[0] != "destination"@[0]);
    assert("path"@[0] != "arg0namespace"@[0]);
    assert("path_namespace"@[0] != "destination"@[0]);
    assert("path_namespace"@[0] != "arg0namespace"@[0]);
    assert("destination"@[0] != "arg0namespace"@[0]);
}

/// Applying one pair sets the field of its key, where the key keeps its
/// value as text, and leaves the fields of every other such key alone.
proof fn lemma_apply_pair_fields(r: RuleSpec, key: Seq<char>, v: Seq<char>, r2: RuleSpec, k: Seq<char>)
    requires
        apply_pair(r, key, v) == Ok::<RuleSpec, Seq<char>>(r2),
        text_key(k),
    ensures
        keyed_field(r2, k) == if key == k {
            Some(v)
        } else {
            keyed_field(r, k)
        },
{
    lemma_rule_keys_distinct();
}

/// Each key of a rule text sets its own field: in the rule that the pairs
/// `ts` make from `r`, the field of a text key is the value of the last
/// pair with that key, and where no pair has that key the field is as it
/// was in `r`.
pub proof fn rule_fields_follow_their_keys(r: RuleSpec, ts: Seq<(Seq<char>, Seq<char>)>, r2: RuleSpec, k: Seq<char>)
    requires
        apply_pairs(r, ts) == Ok::<RuleSpec, Seq<char>>(r2),
        text_key(k),
    ensures
        (forall|i: int| 0 <= i < ts.len() ==> (#[trigger] ts[i]).0 != k) ==> keyed_field(r2, k) == keyed_field(r, k),
        forall|i: int|
            0 <= i < ts.len() && (#[trigger] ts[i]).0 == k && (forall|j: int| i < j < ts.len() ==> (#[trigger] ts[j]).0 != k)
                ==> keyed_field(r2, k) == Some(ts[i].1),
    decreases ts.len(),
{
    if ts.len() > 0 {
        let front = ts.drop_last();
        let n = ts.len() - 1;
        let r1 = apply_pairs(r, front)->Ok_0;
        assert(apply_pairs(r, front) is Ok);
        rule_fields_follow_their_keys(r, front, r1, k);
        lemma_apply_pair_fields(r1, ts[n].0, ts[n].1, r2, k);
        assert(forall|i: int| 0 <= i < front.len() ==> #[trigger] front[i] == ts[i]);
        assert forall|i: int|
            0 <= i < ts.len() && (#[trigger] ts[i]).0 == k && (forall|j: int| i < j < ts.len() ==> (#[trigger] ts[j]).0 != k)
                implies keyed_field(r2, k) == Some(ts[i].1) by {
            if i < n {
                assert(ts[n].0 != k);
                assert(front[i] == ts[i]);
                assert(forall|j: int| i < j < front.len() ==> (#[trigger] front[j]).0 != k) by {
                    assert forall|j: int| i < j < front.len() implies (#[trigger] front[j]).0 != k by {
                        assert(front[j] == ts[j]);
                    }
                }
            }
        }
        if forall|i: int| 0 <= i < ts.len() ==> (#[trigger] ts[i]).0 != k {
            assert(ts[n].0 != k);
            assert forall|i: int| 0 <= i < front.len() implies (#[trigger] front[i]).0 != k by {
                assert(front[i] == ts[i]);
            }
        }
    }
}

/// The `type` of a rule comes from its `type` pairs alone: the last one
/// decides, and without one the type is as it was in `r`.
pub proof fn rule_type_follows_its_key(r: RuleSpec, ts: Seq<(Seq<char>, Seq<char>)>, r2: RuleSpec)
    requires
        apply_pairs(r, ts) == Ok::<RuleSpec, Seq<char>>(r2),
    ensures
        (forall|i: int| 0 <= i < ts.len() ==> (#[trigger] ts[i]).0 != "type"@) ==> r2.message_type == r.message_type,
        forall|i: int|
            0 <= i < ts.len() && (#[trigger] ts[i]).0 == "type"@ && (forall|j: int|
                i < j < ts.len() ==> (#[trigger] ts[j]).0 != "type"@) ==> type_named(ts[i].1) is Some
                && r2.message_type == type_named(ts[i].1),
    decreases ts.len(),
{
    if ts.len() > 0 {
        let front = ts.drop_last();
        let n = ts.len() - 1;
        let r1 = apply_pairs(r, front)->Ok_0;
        assert(apply_pairs(r, front) is Ok);
        rule_type_follows_its_key(r, front, r1);
        assert(apply_pair(r1, ts[n].0, ts[n].1) == Ok::<RuleSpec, Seq<char>>(r2));
        if ts[n].0 != "type"@ {
            assert(r2.message_type == r1.message_type);
        }
        assert(forall|i: int| 0 <= i < front.len() ==> #[trigger] front[i] == ts[i]);
        assert forall|i: int|
            0 <= i < ts.len() && (#[trigger] ts[i]).0 == "type"@ && (forall|j: int|
                i < j < ts.len() ==> (#[trigger] ts[j]).0 != "type"@) implies type_named(ts[i].1) is Some
                && r2.message_type == type_named(ts[i].1) by {
            if i < n {
                assert(ts[n].0 != "type"@);
                assert(front[i] == ts[i]);
                assert forall|j: int| i < j < front.len() implies (#[trigger] front[j]).0 != "type"@ by {
                    assert(front[j] == ts[j]);
                }
            }
        }
        if forall|i: int| 0 <= i < ts.len() ==> (#[trigger] ts[i]).0 != "type"@ {
            assert(ts[n].0 != "type"@);
            assert forall|i: int| 0 <= i < front.len() implies (#[trigger] front[i]).0 != "type"@ by {
                assert(front[i] == ts[i]);
            }
        }
    }
}

/// In a parsed rule, the field of a text key is the value of the last pair
/// with that key in the text, and is unset where no pair names it.
pub proof fn parsed_rule_fields(s: Seq<char>, b: Seq<u8>, rule: RuleSpec, k: Seq<char>)
    requires
        rule_of(s, b) == Ok::<RuleSpec, Seq<char>>(rule),
        text_key(k),
    ensures
        tokens(b) is Ok,
        (forall|i: int| 0 <= i < tokens(b)->Ok_0.len() ==> (#[trigger] tokens(b)->Ok_0[i]).0 != k) ==> keyed_field(
            rule,
            k,
        ) is None,
        forall|i: int|
            0 <= i < tokens(b)->Ok_0.len() && (#[trigger] tokens(b)->Ok_0[i]).0 == k && (forall|j: int|
                i < j < tokens(b)->Ok_0.len() ==> (#[trigger] tokens(b)->Ok_0[j]).0 != k) ==> keyed_field(rule, k)
                == Some(tokens(b)->Ok_0[i].1),
{
    let ts = tokens(b)->Ok_0;
    rule_fields_follow_their_keys(empty_rule(s), ts, rule, k);
}

} // verus!
