//! The bus security policy: rules by context (default, user, group,
//! mandatory, in that order of precedence), and the busconfig XML form of
//! such rules.

use crate::header::{text_field, FieldSpec, MessageType};
use crate::message::Message;
use crate::text::{
    char_is_space, chars_eq, chars_of, decimal, has_prefix, is_space, slice_to_vec_range,
    starts_with, string_of_range,
};
use vstd::prelude::*;

verus! {

broadcast use vstd::std_specs::vec::group_vec_axioms;

// ---------------------------------------------------------------------------
// Scanning the XML text
// ---------------------------------------------------------------------------

/// The characters a scan stops at.
#[derive(Clone, Copy)]
pub enum Stop {
    /// Any character that is no white space.
    NotSpace,
    /// White space, `>` or `/`: the end of a tag name.
    NameEnd,
    /// White space, `>`, `/` or `=`: the end of an attribute name.
    AttrNameEnd,
    /// The one character given.
    Char(char),
}

/// Whether a scan of kind `k` stops at `c`.
pub open spec fn stops(k: Stop, c: char) -> bool {
    match k {
        Stop::NotSpace => !is_space(c),
        Stop::NameEnd => is_space(c) || c == '>' || c == '/',
        Stop::AttrNameEnd => is_space(c) || c == '>' || c == '/' || c == '=',
        Stop::Char(q) => c == q,
    }
}

/// The first position at or after `i` whose character stops a scan of kind
/// `k`, or the end of `s`.
pub open spec fn scan_to(s: Seq<char>, i: int, k: Stop) -> int
    decreases s.len() - i,
{
    if i < 0 || i >= s.len() {
        i
    } else if stops(k, s[i]) {
        i
    } else {
        scan_to(s, i + 1, k)
    }
}

pub proof fn lemma_scan_to(s: Seq<char>, i: int, k: Stop)
    requires
        0 <= i <= s.len(),
    ensures
        i <= scan_to(s, i, k) <= s.len(),
        scan_to(s, i, k) < s.len() ==> stops(k, s[scan_to(s, i, k)]),
        forall|j: int| i <= j < scan_to(s, i, k) ==> !stops(k, #[trigger] s[j]),
    decreases s.len() - i,
{
    if i < s.len() && !stops(k, s[i]) {
        lemma_scan_to(s, i + 1, k);
    }
}

/// The position just after the first `-->` at or after `i`, or the end.
pub open spec fn comment_close(s: Seq<char>, i: int) -> int
    decreases s.len() - i,
{
    if i < 0 || i >= s.len() {
        i
    } else if i + 2 < s.len() && s[i] == '-' && s[i + 1] == '-' && s[i + 2] == '>' {
        i + 3
    } else {
        comment_close(s, i + 1)
    }
}

pub proof fn lemma_comment_close(s: Seq<char>, i: int)
    requires
        0 <= i <= s.len(),
    ensures
        i <= comment_close(s, i) <= s.len(),
    decreases s.len() - i,
{
    if i < s.len() && !(i + 2 < s.len() && s[i] == '-' && s[i + 1] == '-' && s[i + 2] == '>') {
        lemma_comment_close(s, i + 1);
    }
}

/// The position just after the first `q` at or after `i`, or the end.
pub open spec fn past_char(s: Seq<char>, i: int, q: char) -> int {
    let e = scan_to(s, i, Stop::Char(q));
    if e < s.len() {
        e + 1
    } else {
        e
    }
}

/// The attributes of a tag, in the order they were written.
pub type AttrsSpec = Seq<(Seq<char>, Seq<char>)>;

/// One attribute read from position `p` (white space skipped, at no `>`
/// or `/`): the attribute, where it has a name and a value, and the
/// position after it.
pub open spec fn attr_step(s: Seq<char>, p: int) -> (Option<(Seq<char>, Seq<char>)>, int) {
    let a = scan_to(s, p, Stop::AttrNameEnd);
    let b = scan_to(s, a, Stop::NotSpace);
    if 0 <= b < s.len() && s[b] == '=' {
        let c = scan_to(s, b + 1, Stop::NotSpace);
        let quoted = 0 <= c < s.len() && (s[c] == '"' || s[c] == '\'');
        let q = if quoted {
            s[c]
        } else {
            '"'
        };
        let d = if quoted {
            c + 1
        } else {
            c
        };
        let e = scan_to(s, d, Stop::Char(q));
        let f = if e < s.len() {
            e + 1
        } else {
            e
        };
        let name = s.subrange(p, a);
        if name.len() > 0 {
            (Some((name, s.subrange(d, e))), f)
        } else {
            (None, f)
        }
    } else {
        (None, b)
    }
}

pub proof fn lemma_attr_step(s: Seq<char>, p: int)
    requires
        0 <= p < s.len(),
        !is_space(s[p]),
        s[p] != '>',
        s[p] != '/',
    ensures
        p < attr_step(s, p).1 <= s.len(),
        attr_step(s, p).0 matches Some(kv) ==> kv.0.len() > 0,
{
    let a = scan_to(s, p, Stop::AttrNameEnd);
    lemma_scan_to(s, p, Stop::AttrNameEnd);
    let b = scan_to(s, a, Stop::NotSpace);
    lemma_scan_to(s, a, Stop::NotSpace);
    if 0 <= b < s.len() && s[b] == '=' {
        let c = scan_to(s, b + 1, Stop::NotSpace);
        lemma_scan_to(s, b + 1, Stop::NotSpace);
        let quoted = 0 <= c < s.len() && (s[c] == '"' || s[c] == '\'');
        let q = if quoted {
            s[c]
        } else {
            '"'
        };
        let d = if quoted {
            c + 1
        } else {
            c
        };
        lemma_scan_to(s, d, Stop::Char(q));
    } else {
        if a == p {
            assert(stops(Stop::AttrNameEnd, s[p]));
            assert(s[p] == '=');
            assert(!is_space(s[a]));
            assert(b == a);
        }
    }
}

/// The attributes read from position `i` on, after `acc`, and the position
/// where they end (at `>`, `/` or the end of the text).
pub open spec fn attrs_from(s: Seq<char>, i: int, acc: AttrsSpec) -> (AttrsSpec, int)
    decreases s.len() - i,
{
    if i < 0 || i > s.len() {
        (acc, i)
    } else {
        let p = scan_to(s, i, Stop::NotSpace);
        if p >= s.len() || s[p] == '>' || s[p] == '/' {
            (acc, p)
        } else {
            proof {
                lemma_scan_to(s, i, Stop::NotSpace);
                lemma_attr_step(s, p);
            }
            let st = attr_step(s, p);
            let acc2 = match st.0 {
                Some(kv) => acc.push(kv),
                None => acc,
            };
            attrs_from(s, st.1, acc2)
        }
    }
}

pub proof fn lemma_attrs_from(s: Seq<char>, i: int, acc: AttrsSpec)
    requires
        0 <= i <= s.len(),
    ensures
        i <= attrs_from(s, i, acc).1 <= s.len(),
    decreases s.len() - i,
{
    let p = scan_to(s, i, Stop::NotSpace);
    lemma_scan_to(s, i, Stop::NotSpace);
    if !(p >= s.len() || s[p] == '>' || s[p] == '/') {
        lemma_attr_step(s, p);
        let st = attr_step(s, p);
        let acc2 = match st.0 {
            Some(kv) => acc.push(kv),
            None => acc,
        };
        lemma_attrs_from(s, st.1, acc2);
    }
}

/// A tag of the busconfig text, as the tokenizer reads it.
pub enum TagSpec {
    Start(Seq<char>, AttrsSpec),
    End(Seq<char>),
    SelfClosing(Seq<char>, AttrsSpec),
}

/// The tag read from position `i`, just after its `<`, and the position
/// after it.
pub open spec fn tag_at(s: Seq<char>, i: int) -> (TagSpec, int) {
    let is_end = 0 <= i < s.len() && s[i] == '/';
    let p0 = if is_end {
        i + 1
    } else {
        i
    };
    let p1 = scan_to(s, p0, Stop::NameEnd);
    let ap = if is_end {
        (Seq::<(Seq<char>, Seq<char>)>::empty(), p1)
    } else {
        attrs_from(s, p1, Seq::empty())
    };
    let p2 = ap.1;
    let sc = 0 <= p2 < s.len() && s[p2] == '/';
    let p3 = if sc {
        p2 + 1
    } else {
        p2
    };
    let p4 = if 0 <= p3 < s.len() && s[p3] == '>' {
        p3 + 1
    } else {
        p3
    };
    let name = s.subrange(p0, p1);
    let t = if is_end {
        TagSpec::End(name)
    } else if sc {
        TagSpec::SelfClosing(name, ap.0)
    } else {
        TagSpec::Start(name, ap.0)
    };
    (t, p4)
}

pub proof fn lemma_tag_at(s: Seq<char>, i: int)
    requires
        0 <= i <= s.len(),
    ensures
        i <= tag_at(s, i).1 <= s.len(),
{
    let is_end = 0 <= i < s.len() && s[i] == '/';
    let p0 = if is_end {
        i + 1
    } else {
        i
    };
    lemma_scan_to(s, p0, Stop::NameEnd);
    let p1 = scan_to(s, p0, Stop::NameEnd);
    if !is_end {
        lemma_attrs_from(s, p1, Seq::empty());
    }
}

/// The tags of the text `s` from position `i` on, after `acc`: comments,
/// `<!...>` declarations and text between tags are passed over.
pub open spec fn xml_tags_from(s: Seq<char>, i: int, acc: Seq<TagSpec>) -> Seq<TagSpec>
    decreases s.len() - i,
{
    if i < 0 || i >= s.len() {
        acc
    } else if s[i] != '<' {
        xml_tags_from(s, i + 1, acc)
    } else if i + 1 < s.len() && s[i + 1] == '!' {
        if i + 2 < s.len() && s[i + 2] == '-' {
            if i + 3 < s.len() && s[i + 3] == '-' {
                proof {
                    lemma_comment_close(s, i + 4);
                }
                xml_tags_from(s, comment_close(s, i + 4), acc)
            } else {
                proof {
                    lemma_tag_at(s, i + 3);
                }
                let tp = tag_at(s, i + 3);
                xml_tags_from(s, tp.1, acc.push(tp.0))
            }
        } else {
            proof {
                lemma_scan_to(s, i + 2, Stop::Char('>'));
            }
            xml_tags_from(s, past_char(s, i + 2, '>'), acc)
        }
    } else {
        proof {
            lemma_tag_at(s, i + 1);
        }
        let tp = tag_at(s, i + 1);
        xml_tags_from(s, tp.1, acc.push(tp.0))
    }
}

/// The tags of the busconfig text `s`.
pub open spec fn xml_tags(s: Seq<char>) -> Seq<TagSpec> {
    xml_tags_from(s, 0, Seq::empty())
}

/// A tag of the busconfig text.
#[derive(Debug, Clone)]
enum XmlToken {
    StartTag { name: String, attrs: Vec<(String, String)> },
    EndTag { name: String },
    SelfClosingTag { name: String, attrs: Vec<(String, String)> },
}

/// The model of a list of attributes.
pub open spec fn attrs_view(v: Seq<(String, String)>) -> AttrsSpec {
    Seq::new(v.len(), |i: int| (v[i].0@, v[i].1@))
}

spec fn token_view(t: XmlToken) -> TagSpec {
    match t {
        XmlToken::StartTag { name, attrs } => TagSpec::Start(name@, attrs_view(attrs@)),
        XmlToken::EndTag { name } => TagSpec::End(name@),
        XmlToken::SelfClosingTag { name, attrs } => TagSpec::SelfClosing(name@, attrs_view(attrs@)),
    }
}

spec fn tokens_view(v: Seq<XmlToken>) -> Seq<TagSpec> {
    Seq::new(v.len(), |i: int| token_view(v[i]))
}

fn stops_at(k: Stop, c: char) -> (b: bool)
    ensures
        b == stops(k, c),
{
    match k {
        Stop::NotSpace => !char_is_space(c),
        Stop::NameEnd => char_is_space(c) || c == '>' || c == '/',
        Stop::AttrNameEnd => char_is_space(c) || c == '>' || c == '/' || c == '=',
        Stop::Char(q) => c == q,
    }
}

fn scan(s: &[char], i: usize, k: Stop) -> (r: usize)
    requires
        i <= s@.len(),
    ensures
        r == scan_to(s@, i as int, k),
{
    let mut j = i;
    while j < s.len() && !stops_at(k, s[j])
        invariant
            i <= j <= s@.len(),
            scan_to(s@, i as int, k) == scan_to(s@, j as int, k),
        decreases s.len() - j,
    {
        j = j + 1;
    }
    j
}

fn comment_close_at(s: &[char], i: usize) -> (r: usize)
    requires
        i <= s@.len(),
    ensures
        r == comment_close(s@, i as int),
{
    let n = s.len();
    let mut j = i;
    while j < n
        invariant
            i <= j <= n,
            n == s@.len(),
            comment_close(s@, i as int) == comment_close(s@, j as int),
        decreases n - j,
    {
        if n - j > 2 && s[j] == '-' && s[j + 1] == '-' && s[j + 2] == '>' {
            return j + 3;
        }
        j = j + 1;
    }
    j
}

fn attr_at(s: &[char], p: usize) -> (r: (Option<(String, String)>, usize))
    requires
        p < s@.len(),
        !is_space(s@[p as int]),
        s@[p as int] != '>',
        s@[p as int] != '/',
    ensures
        r.1 == attr_step(s@, p as int).1,
        match attr_step(s@, p as int).0 {
            Some(kv) => r.0 matches Some(x) && x.0@ == kv.0 && x.1@ == kv.1,
            None => r.0 is None,
        },
{
    proof {
        lemma_scan_to(s@, p as int, Stop::AttrNameEnd);
    }
    let n = s.len();
    let a = scan(s, p, Stop::AttrNameEnd);
    proof {
        lemma_scan_to(s@, a as int, Stop::NotSpace);
    }
    let b = scan(s, a, Stop::NotSpace);
    if b < n && s[b] == '=' {
        proof {
            lemma_scan_to(s@, b + 1, Stop::NotSpace);
        }
        let c = scan(s, b + 1, Stop::NotSpace);
        let quoted = c < n && (s[c] == '"' || s[c] == '\'');
        let q = if quoted {
            s[c]
        } else {
            '"'
        };
        let d = if quoted {
            c + 1
        } else {
            c
        };
        proof {
            lemma_scan_to(s@, d as int, Stop::Char(q));
        }
        let e = scan(s, d, Stop::Char(q));
        let f = if e < n {
            e + 1
        } else {
            e
        };
        if a > p {
            let name = string_of_range(s, p, a);
            let val = string_of_range(s, d, e);
            (Some((name, val)), f)
        } else {
            (None, f)
        }
    } else {
        (None, b)
    }
}

fn attrs_at(s: &[char], i: usize) -> (r: (Vec<(String, String)>, usize))
    requires
        i <= s@.len(),
    ensures
        attrs_view(r.0@) == attrs_from(s@, i as int, Seq::empty()).0,
        r.1 == attrs_from(s@, i as int, Seq::empty()).1,
{
    let n = s.len();
    let mut out: Vec<(String, String)> = Vec::new();
    let ghost mut acc: AttrsSpec = Seq::empty();
    let mut pos = i;
    assert(attrs_view(out@) =~= acc);
    loop
        invariant
            pos <= n,
            n == s@.len(),
            attrs_view(out@) == acc,
            attrs_from(s@, i as int, Seq::empty()) == attrs_from(s@, pos as int, acc),
        decreases n - pos,
    {
        proof {
            lemma_scan_to(s@, pos as int, Stop::NotSpace);
        }
        let p = scan(s, pos, Stop::NotSpace);
        if p >= n || s[p] == '>' || s[p] == '/' {
            return (out, p);
        }
        proof {
            lemma_attr_step(s@, p as int);
        }
        let (kv, f) = attr_at(s, p);
        match kv {
            Some(x) => {
                let ghost before = out@;
                out.push(x);
                proof {
                    acc = acc.push((x.0@, x.1@));
                    assert(attrs_view(out@) =~= acc);
                }
            },
            None => {},
        }
        pos = f;
    }
}

fn tag_from(s: &[char], i: usize) -> (r: (XmlToken, usize))
    requires
        i <= s@.len(),
    ensures
        token_view(r.0) == tag_at(s@, i as int).0,
        r.1 == tag_at(s@, i as int).1,
{
    let n = s.len();
    let is_end = i < n && s[i] == '/';
    let p0 = if is_end {
        i + 1
    } else {
        i
    };
    proof {
        lemma_scan_to(s@, p0 as int, Stop::NameEnd);
    }
    let p1 = scan(s, p0, Stop::NameEnd);
    let name = string_of_range(s, p0, p1);
    let (attrs, p2) = if is_end {
        (Vec::new(), p1)
    } else {
        proof {
            lemma_attrs_from(s@, p1 as int, Seq::empty());
        }
        attrs_at(s, p1)
    };
    assert(is_end ==> attrs_view(attrs@) =~= Seq::<(Seq<char>, Seq<char>)>::empty());
    let sc = p2 < n && s[p2] == '/';
    let p3 = if sc {
        p2 + 1
    } else {
        p2
    };
    let p4 = if p3 < n && s[p3] == '>' {
        p3 + 1
    } else {
        p3
    };
    let t = if is_end {
        XmlToken::EndTag { name }
    } else if sc {
        XmlToken::SelfClosingTag { name, attrs }
    } else {
        XmlToken::StartTag { name, attrs }
    };
    (t, p4)
}

/// The tags of a busconfig text, in order.
fn tokenize_xml(xml: &str) -> (v: Vec<XmlToken>)
    ensures
        tokens_view(v@) == xml_tags(xml@),
{
    let cs = chars_of(xml);
    let s = cs.as_slice();
    let n = s.len();
    let mut out: Vec<XmlToken> = Vec::new();
    let ghost mut acc: Seq<TagSpec> = Seq::empty();
    let mut i: usize = 0;
    assert(tokens_view(out@) =~= acc);
    while i < n
        invariant
            i <= n,
            n == s@.len(),
            s@ == xml@,
            tokens_view(out@) == acc,
            xml_tags(xml@) == xml_tags_from(s@, i as int, acc),
        decreases n - i,
    {
        if s[i] != '<' {
            i = i + 1;
        } else if n - i > 1 && s[i + 1] == '!' {
            if n - i > 2 && s[i + 2] == '-' {
                if n - i > 3 && s[i + 3] == '-' {
                    proof {
                        lemma_comment_close(s@, i + 4);
                    }
                    i = comment_close_at(s, i + 4);
                } else {
                    proof {
                        lemma_tag_at(s@, i + 3);
                    }
                    let (t, p) = tag_from(s, i + 3);
                    out.push(t);
                    proof {
                        acc = acc.push(token_view(t));
                        assert(tokens_view(out@) =~= acc);
                    }
                    i = p;
                }
            } else {
                proof {
                    lemma_scan_to(s@, i + 2, Stop::Char('>'));
                }
                let e = scan(s, i + 2, Stop::Char('>'));
                i = if e < n {
                    e + 1
                } else {
                    e
                };
            }
        } else {
            proof {
                lemma_tag_at(s@, i + 1);
            }
            let (t, p) = tag_from(s, i + 1);
            out.push(t);
            proof {
                acc = acc.push(token_view(t));
                assert(tokens_view(out@) =~= acc);
            }
            i = p;
        }
    }
    out
}

// ---------------------------------------------------------------------------
// Rules
// ---------------------------------------------------------------------------

/// Where a rule applies: to everyone (`Default`, `Mandatory`), to one user
/// or to one group. Rules apply in the order default, user, group,
/// mandatory, later ones overriding earlier ones.
#[derive(Debug, Clone, Copy, PartialEq, Eq, Structural)]
pub enum Context {
    Default,
    User,
    Group,
    Mandatory,
}

/// What a send or receive rule matches: the other party's name alone, or
/// any of the other party's name, the interface, member, path and message
/// type.
#[derive(Debug, Clone)]
pub enum SendReceivePattern {
    Destination(String),
    Full {
        destination: Option<String>,
        interface: Option<String>,
        member: Option<String>,
        path: Option<String>,
        message_type: Option<String>,
    },
}

/// The model of a send or receive pattern.
pub enum PatternSpec {
    Destination(Seq<char>),
    Full {
        destination: Option<Seq<char>>,
        interface: Option<Seq<char>>,
        member: Option<Seq<char>>,
        path: Option<Seq<char>>,
        message_type: Option<Seq<char>>,
    },
}

/// The text of an optional string.
pub open spec fn opt_view(o: Option<String>) -> Option<Seq<char>> {
    match o {
        Some(s) => Some(s@),
        None => None,
    }
}

impl View for SendReceivePattern {
    type V = PatternSpec;

    open spec fn view(&self) -> PatternSpec {
        match self {
            SendReceivePattern::Destination(d) => PatternSpec::Destination(d@),
            SendReceivePattern::Full { destination, interface, member, path, message_type } =>
                PatternSpec::Full {
                destination: opt_view(*destination),
                interface: opt_view(*interface),
                member: opt_view(*member),
                path: opt_view(*path),
                message_type: opt_view(*message_type),
            },
        }
    }
}

/// One policy rule.
#[derive(Debug, Clone)]
pub struct PolicyRule {
    pub context: Context,
    pub user: Option<String>,
    pub group: Option<String>,
    pub allow_own: Vec<String>,
    pub deny_own: Vec<String>,
    pub allow_send: Vec<SendReceivePattern>,
    pub deny_send: Vec<SendReceivePattern>,
    pub allow_receive: Vec<SendReceivePattern>,
    pub deny_receive: Vec<SendReceivePattern>,
}

/// The model of a policy rule.
pub struct PolicyRuleSpec {
    pub context: Context,
    pub user: Option<Seq<char>>,
    pub group: Option<Seq<char>>,
    pub allow_own: Seq<Seq<char>>,
    pub deny_own: Seq<Seq<char>>,
    pub allow_send: Seq<PatternSpec>,
    pub deny_send: Seq<PatternSpec>,
    pub allow_receive: Seq<PatternSpec>,
    pub deny_receive: Seq<PatternSpec>,
}

/// The texts of some strings.
pub open spec fn texts_view(v: Seq<String>) -> Seq<Seq<char>> {
    Seq::new(v.len(), |i: int| v[i]@)
}

/// The models of some patterns.
pub open spec fn patterns_view(v: Seq<SendReceivePattern>) -> Seq<PatternSpec> {
    Seq::new(v.len(), |i: int| v[i]@)
}

impl View for PolicyRule {
    type V = PolicyRuleSpec;

    open spec fn view(&self) -> PolicyRuleSpec {
        PolicyRuleSpec {
            context: self.context,
            user: opt_view(self.user),
            group: opt_view(self.group),
            allow_own: texts_view(self.allow_own@),
            deny_own: texts_view(self.deny_own@),
            allow_send: patterns_view(self.allow_send@),
            deny_send: patterns_view(self.deny_send@),
            allow_receive: patterns_view(self.allow_receive@),
            deny_receive: patterns_view(self.deny_receive@),
        }
    }
}

/// The models of some rules.
pub open spec fn rules_view(v: Seq<PolicyRule>) -> Seq<PolicyRuleSpec> {
    Seq::new(v.len(), |i: int| v[i]@)
}

// ---------------------------------------------------------------------------
// Rules from busconfig XML
// ---------------------------------------------------------------------------

/// The value of attribute `k`: the last one written, as a map keeps it.
pub open spec fn attr_get(attrs: AttrsSpec, k: Seq<char>) -> Option<Seq<char>>
    decreases attrs.len(),
{
    if attrs.len() == 0 {
        None
    } else if attrs.last().0 == k {
        Some(attrs.last().1)
    } else {
        attr_get(attrs.drop_last(), k)
    }
}

/// A name pattern that matches every name beginning with `p`.
pub open spec fn prefix_pattern(p: Seq<char>) -> Seq<char> {
    p.push('*')
}

/// The context, user and group a `<policy>` tag with attributes `attrs`
/// opens.
pub open spec fn policy_context(attrs: AttrsSpec) -> (Context, Option<Seq<char>>, Option<Seq<char>>) {
    match attr_get(attrs, "context"@) {
        Some(c) => (
            if c == "mandatory"@ {
                Context::Mandatory
            } else {
                Context::Default
            },
            None,
            None,
        ),
        None => match attr_get(attrs, "user"@) {
            Some(u) => (Context::User, Some(u), None),
            None => match attr_get(attrs, "group"@) {
                Some(g) => (Context::Group, None, Some(g)),
                None => (Context::Default, None, None),
            },
        },
    }
}

/// The name pattern of an `own` or `own_prefix` attribute.
pub open spec fn own_pattern(attrs: AttrsSpec) -> Option<Seq<char>> {
    match attr_get(attrs, "own"@) {
        Some(o) => Some(o),
        None => match attr_get(attrs, "own_prefix"@) {
            Some(p) => Some(prefix_pattern(p)),
            None => None,
        },
    }
}

/// The pattern that the attributes `party`, `party_prefix`, `iface`,
/// `member`, `path` and `mtype` (their values in `attrs`) make, where any is
/// given.
pub open spec fn full_pattern(
    attrs: AttrsSpec,
    party: Seq<char>,
    party_prefix: Seq<char>,
    iface: Seq<char>,
    member: Seq<char>,
    path: Seq<char>,
    mtype: Seq<char>,
) -> Option<PatternSpec> {
    let d = attr_get(attrs, party);
    let dp = attr_get(attrs, party_prefix);
    let i = attr_get(attrs, iface);
    let m = attr_get(attrs, member);
    let p = attr_get(attrs, path);
    let t = attr_get(attrs, mtype);
    if d is Some || dp is Some || i is Some || m is Some || p is Some || t is Some {
        Some(
            PatternSpec::Full {
                destination: if d is Some {
                    d
                } else {
                    match dp {
                        Some(x) => Some(prefix_pattern(x)),
                        None => None,
                    }
                },
                interface: i,
                member: m,
                path: p,
                message_type: t,
            },
        )
    } else {
        None
    }
}

/// The send pattern of an `<allow>` or `<deny>` tag.
pub open spec fn send_pattern(attrs: AttrsSpec) -> Option<PatternSpec> {
    full_pattern(
        attrs,
        "send_destination"@,
        "send_destination_prefix"@,
        "send_interface"@,
        "send_member"@,
        "send_path"@,
        "send_type"@,
    )
}

/// The receive pattern of an `<allow>` or `<deny>` tag.
pub open spec fn recv_pattern(attrs: AttrsSpec) -> Option<PatternSpec> {
    full_pattern(
        attrs,
        "recv_sender"@,
        "recv_sender_prefix"@,
        "recv_interface"@,
        "recv_member"@,
        "recv_path"@,
        "recv_type"@,
    )
}

/// The list holding `x`, where there is one.
pub open spec fn opt_list<T>(x: Option<T>) -> Seq<T> {
    match x {
        Some(v) => seq![v],
        None => Seq::empty(),
    }
}

/// The rule an `<allow>` (`is_allow`) or `<deny>` tag with attributes
/// `attrs` makes inside a policy of context `ctx`, where it says anything.
pub open spec fn rule_of_tag(
    is_allow: bool,
    ctx: (Context, Option<Seq<char>>, Option<Seq<char>>),
    attrs: AttrsSpec,
) -> Option<PolicyRuleSpec> {
    let own = own_pattern(attrs);
    let send = send_pattern(attrs);
    let recv = recv_pattern(attrs);
    if own is None && send is None && recv is None {
        None
    } else {
        Some(
            PolicyRuleSpec {
                context: ctx.0,
                user: ctx.1,
                group: ctx.2,
                allow_own: if is_allow {
                    opt_list(own)
                } else {
                    Seq::empty()
                },
                deny_own: if is_allow {
                    Seq::empty()
                } else {
                    opt_list(own)
                },
                allow_send: if is_allow {
                    opt_list(send)
                } else {
                    Seq::empty()
                },
                deny_send: if is_allow {
                    Seq::empty()
                } else {
                    opt_list(send)
                },
                allow_receive: if is_allow {
                    opt_list(recv)
                } else {
                    Seq::empty()
                },
                deny_receive: if is_allow {
                    Seq::empty()
                } else {
                    opt_list(recv)
                },
            },
        )
    }
}

/// The open policy context and the rules so far, after one more tag.
pub open spec fn policy_step(
    st: (Option<(Context, Option<Seq<char>>, Option<Seq<char>>)>, Seq<PolicyRuleSpec>),
    t: TagSpec,
) -> (Option<(Context, Option<Seq<char>>, Option<Seq<char>>)>, Seq<PolicyRuleSpec>) {
    match t {
        TagSpec::Start(name, attrs) => if name == "policy"@ {
            (Some(policy_context(attrs)), st.1)
        } else if (name == "allow"@ || name == "deny"@) && st.0 is Some {
            (st.0, st.1 + opt_list(rule_of_tag(name == "allow"@, st.0->Some_0, attrs)))
        } else {
            st
        },
        TagSpec::End(name) => if name == "policy"@ {
            (None, st.1)
        } else {
            st
        },
        TagSpec::SelfClosing(name, attrs) => if (name == "allow"@ || name == "deny"@) && st.0 is Some {
            (st.0, st.1 + opt_list(rule_of_tag(name == "allow"@, st.0->Some_0, attrs)))
        } else {
            st
        },
    }
}

/// The state after the tags `ts`, from no open policy and no rules.
pub open spec fn policy_fold(ts: Seq<TagSpec>) -> (
    Option<(Context, Option<Seq<char>>, Option<Seq<char>>)>,
    Seq<PolicyRuleSpec>,
)
    decreases ts.len(),
{
    if ts.len() == 0 {
        (None, Seq::empty())
    } else {
        policy_step(policy_fold(ts.drop_last()), ts.last())
    }
}

/// The rules of a busconfig text.
pub open spec fn xml_policy_rules(s: Seq<char>) -> Seq<PolicyRuleSpec> {
    policy_fold(xml_tags(s)).1
}

fn is_lit(s: &str, lit: &str) -> (b: bool)
    ensures
        b == (s@ == lit@),
{
    crate::text::str_eq(s, lit)
}

fn clone_opt(o: &Option<String>) -> (r: Option<String>)
    ensures
        opt_view(r) == opt_view(*o),
{
    match o {
        Some(s) => Some(s.clone()),
        None => None,
    }
}

fn get_attr(attrs: &Vec<(String, String)>, key: &str) -> (r: Option<String>)
    ensures
        opt_view(r) == attr_get(attrs_view(attrs@), key@),
{
    let mut k = attrs.len();
    assert(attrs_view(attrs@).take(k as int) =~= attrs_view(attrs@));
    while k > 0
        invariant
            k <= attrs@.len(),
            attr_get(attrs_view(attrs@), key@) == attr_get(attrs_view(attrs@).take(k as int), key@),
        decreases k,
    {
        let ghost t = attrs_view(attrs@).take(k as int);
        assert(t.drop_last() =~= attrs_view(attrs@).take(k - 1));
        if is_lit(attrs[k - 1].0.as_str(), key) {
            return Some(attrs[k - 1].1.clone());
        }
        k = k - 1;
    }
    None
}

fn with_star(p: &str) -> (r: String)
    ensures
        r@ == prefix_pattern(p@),
{
    let mut r = p.to_owned();
    crate::text::push_char(&mut r, '*');
    r
}

fn make_full(
    attrs: &Vec<(String, String)>,
    party: &str,
    party_prefix: &str,
    iface: &str,
    member: &str,
    path: &str,
    mtype: &str,
) -> (r: Option<SendReceivePattern>)
    ensures
        match full_pattern(attrs_view(attrs@), party@, party_prefix@, iface@, member@, path@, mtype@) {
            Some(p) => r matches Some(x) && x@ == p,
            None => r is None,
        },
{
    let d = get_attr(attrs, party);
    let dp = get_attr(attrs, party_prefix);
    let i = get_attr(attrs, iface);
    let m = get_attr(attrs, member);
    let p = get_attr(attrs, path);
    let t = get_attr(attrs, mtype);
    if d.is_some() || dp.is_some() || i.is_some() || m.is_some() || p.is_some() || t.is_some() {
        let dest = match d {
            Some(x) => Some(x),
            None => match dp {
                Some(x) => Some(with_star(x.as_str())),
                None => None,
            },
        };
        Some(
            SendReceivePattern::Full {
                destination: dest,
                interface: i,
                member: m,
                path: p,
                message_type: t,
            },
        )
    } else {
        None
    }
}

spec fn opt_pattern_view(o: Option<SendReceivePattern>) -> Option<PatternSpec> {
    match o {
        Some(x) => Some(x@),
        None => None,
    }
}

fn opt_vec<T>(x: Option<T>) -> (v: Vec<T>)
    ensures
        v@ == opt_list(x),
{
    let mut v = Vec::new();
    match x {
        Some(e) => {
            v.push(e);
        },
        None => {},
    }
    assert(v@ =~= opt_list(x));
    v
}

fn make_rule(
    is_allow: bool,
    ctx: &(Context, Option<String>, Option<String>),
    attrs: &Vec<(String, String)>,
) -> (r: Option<PolicyRule>)
    ensures
        match rule_of_tag(is_allow, (ctx.0, opt_view(ctx.1), opt_view(ctx.2)), attrs_view(attrs@)) {
            Some(rule) => r matches Some(x) && x@ == rule,
            None => r is None,
        },
{
    let own = match get_attr(attrs, "own") {
        Some(o) => Some(o),
        None => match get_attr(attrs, "own_prefix") {
            Some(p) => Some(with_star(p.as_str())),
            None => None,
        },
    };
    let send = make_full(
        attrs,
        "send_destination",
        "send_destination_prefix",
        "send_interface",
        "send_member",
        "send_path",
        "send_type",
    );
    let recv = make_full(
        attrs,
        "recv_sender",
        "recv_sender_prefix",
        "recv_interface",
        "recv_member",
        "recv_path",
        "recv_type",
    );
    if own.is_none() && send.is_none() && recv.is_none() {
        return None;
    }
    let ghost own_v = opt_view(own);
    let ghost send_v = opt_pattern_view(send);
    let ghost recv_v = opt_pattern_view(recv);
    let own_l = opt_vec(own);
    let send_l = opt_vec(send);
    let recv_l = opt_vec(recv);
    assert(texts_view(own_l@) =~= opt_list(own_v));
    assert(patterns_view(send_l@) =~= opt_list(send_v));
    assert(patterns_view(recv_l@) =~= opt_list(recv_v));
    let rule = if is_allow {
        PolicyRule {
            context: ctx.0,
            user: clone_opt(&ctx.1),
            group: clone_opt(&ctx.2),
            allow_own: own_l,
            deny_own: Vec::new(),
            allow_send: send_l,
            deny_send: Vec::new(),
            allow_receive: recv_l,
            deny_receive: Vec::new(),
        }
    } else {
        PolicyRule {
            context: ctx.0,
            user: clone_opt(&ctx.1),
            group: clone_opt(&ctx.2),
            allow_own: Vec::new(),
            deny_own: own_l,
            allow_send: Vec::new(),
            deny_send: send_l,
            allow_receive: Vec::new(),
            deny_receive: recv_l,
        }
    };
    assert(texts_view(Seq::<String>::empty()) =~= Seq::<Seq<char>>::empty());
    assert(patterns_view(Seq::<SendReceivePattern>::empty()) =~= Seq::<PatternSpec>::empty());
    assert(texts_view(rule.allow_own@) =~= (if is_allow { opt_list(own_v) } else { Seq::empty() }));
    assert(texts_view(rule.deny_own@) =~= (if is_allow { Seq::empty() } else { opt_list(own_v) }));
    assert(patterns_view(rule.allow_send@) =~= (if is_allow { opt_list(send_v) } else { Seq::empty() }));
    assert(patterns_view(rule.deny_send@) =~= (if is_allow { Seq::empty() } else { opt_list(send_v) }));
    assert(patterns_view(rule.allow_receive@) =~= (if is_allow { opt_list(recv_v) } else { Seq::empty() }));
    assert(patterns_view(rule.deny_receive@) =~= (if is_allow { Seq::empty() } else { opt_list(recv_v) }));
    Some(rule)
}

/// The model of an open policy context.
pub open spec fn ctx_view(c: Option<(Context, Option<String>, Option<String>)>) -> Option<
    (Context, Option<Seq<char>>, Option<Seq<char>>),
> {
    match c {
        Some(t) => Some((t.0, opt_view(t.1), opt_view(t.2))),
        None => None,
    }
}

fn context_of(attrs: &Vec<(String, String)>) -> (r: (Context, Option<String>, Option<String>))
    ensures
        (r.0, opt_view(r.1), opt_view(r.2)) == policy_context(attrs_view(attrs@)),
{
    match get_attr(attrs, "context") {
        Some(c) => {
            let ctx = if is_lit(c.as_str(), "mandatory") {
                Context::Mandatory
            } else {
                Context::Default
            };
            (ctx, None, None)
        },
        None => match get_attr(attrs, "user") {
            Some(u) => (Context::User, Some(u), None),
            None => match get_attr(attrs, "group") {
                Some(g) => (Context::Group, None, Some(g)),
                None => (Context::Default, None, None),
            },
        },
    }
}

fn add_rule(
    rules: &mut Vec<PolicyRule>,
    is_allow: bool,
    ctx: &(Context, Option<String>, Option<String>),
    attrs: &Vec<(String, String)>,
)
    ensures
        rules_view(final(rules)@) == rules_view(old(rules)@) + opt_list(
            rule_of_tag(is_allow, (ctx.0, opt_view(ctx.1), opt_view(ctx.2)), attrs_view(attrs@)),
        ),
{
    let ghost before = rules@;
    match make_rule(is_allow, ctx, attrs) {
        Some(r) => {
            rules.push(r);
            assert(rules_view(rules@) =~= rules_view(before) + opt_list(
                rule_of_tag(is_allow, (ctx.0, opt_view(ctx.1), opt_view(ctx.2)), attrs_view(attrs@)),
            ));
        },
        None => {
            assert(rules_view(rules@) =~= rules_view(before) + opt_list(
                rule_of_tag(is_allow, (ctx.0, opt_view(ctx.1), opt_view(ctx.2)), attrs_view(attrs@)),
            ));
        },
    }
}

/// The rules of a busconfig XML text: each `<allow>` or `<deny>` inside a
/// `<policy>` that names something to own, send or receive gives one rule
/// of that policy's context.
pub fn parse_xml_policy(xml_content: &str) -> (rules: Vec<PolicyRule>)
    ensures
        rules_view(rules@) == xml_policy_rules(xml_content@),
{
    let tokens = tokenize_xml(xml_content);
    let ghost ts = tokens_view(tokens@);
    let mut rules: Vec<PolicyRule> = Vec::new();
    let mut current: Option<(Context, Option<String>, Option<String>)> = None;
    let mut i: usize = 0;
    assert(ts.take(0) =~= Seq::<TagSpec>::empty());
    assert(rules_view(rules@) =~= Seq::<PolicyRuleSpec>::empty());
    while i < tokens.len()
        invariant
            i <= tokens@.len(),
            ts == tokens_view(tokens@),
            ts == xml_tags(xml_content@),
            policy_fold(ts.take(i as int)) == (ctx_view(current), rules_view(rules@)),
        decreases tokens.len() - i,
    {
        proof {
            assert(ts.take(i + 1).drop_last() =~= ts.take(i as int));
            assert(ts.take(i + 1).last() == token_view(tokens@[i as int]));
        }
        match &tokens[i] {
            XmlToken::StartTag { name, attrs } => {
                if is_lit(name.as_str(), "policy") {
                    current = Some(context_of(attrs));
                } else if is_lit(name.as_str(), "allow") || is_lit(name.as_str(), "deny") {
                    match &current {
                        Some(c) => {
                            add_rule(&mut rules, is_lit(name.as_str(), "allow"), c, attrs);
                        },
                        None => {},
                    }
                }
            },
            XmlToken::EndTag { name } => {
                if is_lit(name.as_str(), "policy") {
                    current = None;
                }
            },
            XmlToken::SelfClosingTag { name, attrs } => {
                if is_lit(name.as_str(), "allow") || is_lit(name.as_str(), "deny") {
                    match &current {
                        Some(c) => {
                            add_rule(&mut rules, is_lit(name.as_str(), "allow"), c, attrs);
                        },
                        None => {},
                    }
                }
            },
        }
        i = i + 1;
    }
    assert(ts.take(i as int) =~= ts);
    rules
}

// ---------------------------------------------------------------------------
// Evaluating the policy
// ---------------------------------------------------------------------------

/// Whether the name pattern `p` matches `t`: `*` matches everything, a
/// pattern ending in `*` every text that begins with the rest, any other
/// pattern only itself.
pub open spec fn glob(p: Seq<char>, t: Seq<char>) -> bool {
    if p == seq!['*'] {
        true
    } else if p.len() > 0 && p.last() == '*' {
        has_prefix(t, p.drop_last())
    } else {
        p == t
    }
}

/// Whether the name pattern `pattern` matches `text`.
pub fn glob_match(pattern: &str, text: &str) -> (b: bool)
    ensures
        b == glob(pattern@, text@),
{
    let p = chars_of(pattern);
    let t = chars_of(text);
    let n = p.len();
    if n == 1 && p[0] == '*' {
        assert(p@ =~= seq!['*']);
        return true;
    }
    assert(p@ != seq!['*']) by {
        if p@ == seq!['*'] {
            assert(p@[0] == '*');
        }
    }
    if n > 0 && p[n - 1] == '*' {
        let prefix = slice_to_vec_range(p.as_slice(), 0, n - 1);
        assert(prefix@ =~= p@.drop_last());
        return starts_with(t.as_slice(), prefix.as_slice());
    }
    chars_eq(p.as_slice(), t.as_slice())
}

/// Whether the `type` value `t` of a pattern admits a message of type `mt`
/// (an unknown type name admits every message).
pub open spec fn type_admits(t: Seq<char>, mt: MessageType) -> bool {
    if t == "method_call"@ {
        mt == MessageType::MethodCall
    } else if t == "method_return"@ {
        mt == MessageType::MethodReturn
    } else if t == "signal"@ {
        mt == MessageType::Signal
    } else if t == "error"@ {
        mt == MessageType::Error
    } else {
        true
    }
}

/// Whether the pattern `p` matches a message of type `mt` with header fields
/// `fields` whose other party is `party`.
pub open spec fn pattern_matches(
    p: PatternSpec,
    mt: MessageType,
    fields: Seq<FieldSpec>,
    party: Option<Seq<char>>,
) -> bool {
    let other = match party {
        Some(x) => x,
        None => Seq::empty(),
    };
    match p {
        PatternSpec::Destination(pat) => glob(pat, other),
        PatternSpec::Full { destination, interface, member, path, message_type } => {
            &&& (destination matches Some(d) ==> glob(d, other))
            &&& (interface matches Some(i) ==> text_field(fields, 2) == Some(i))
            &&& (member matches Some(m) ==> text_field(fields, 3) == Some(m))
            &&& (path matches Some(x) ==> text_field(fields, 1) == Some(x))
            &&& (message_type matches Some(t) ==> type_admits(t, mt))
        },
    }
}

fn opt_field_eq(want: &Option<String>, have: Option<&str>) -> (b: bool)
    ensures
        b == (opt_view(*want) matches Some(w) ==> (have matches Some(h) && h@ == w)),
{
    match want {
        Some(w) => match have {
            Some(h) => crate::text::str_eq(h, w.as_str()),
            None => false,
        },
        None => true,
    }
}

impl SendReceivePattern {
    /// Whether this pattern matches `msg`, whose other party is
    /// `other_party`.
    pub fn matches(&self, msg: &Message, other_party: Option<&str>) -> (b: bool)
        ensures
            b == pattern_matches(
                self@,
                msg.header.message_type,
                msg.header.fields_spec(),
                match other_party {
                    Some(o) => Some(o@),
                    None => None,
                },
            ),
    {
        proof {
            reveal_strlit("");
            assert(""@ =~= Seq::<char>::empty());
        }
        let other = match other_party {
            Some(o) => o,
            None => "",
        };
        match self {
            SendReceivePattern::Destination(pat) => glob_match(pat.as_str(), other),
            SendReceivePattern::Full { destination, interface, member, path, message_type } => {
                let d_ok = match destination {
                    Some(d) => glob_match(d.as_str(), other),
                    None => true,
                };
                let i_ok = opt_field_eq(interface, msg.interface());
                let m_ok = opt_field_eq(member, msg.member());
                let p_ok = match path {
                    Some(x) => match msg.path() {
                        Some(mp) => crate::text::str_eq(mp.as_str(), x.as_str()),
                        None => false,
                    },
                    None => true,
                };
                let t_ok = match message_type {
                    Some(t) => {
                        let mt = msg.message_type();
                        if is_lit(t.as_str(), "method_call") {
                            mt == MessageType::MethodCall
                        } else if is_lit(t.as_str(), "method_return") {
                            mt == MessageType::MethodReturn
                        } else if is_lit(t.as_str(), "signal") {
                            mt == MessageType::Signal
                        } else if is_lit(t.as_str(), "error") {
                            mt == MessageType::Error
                        } else {
                            true
                        }
                    },
                    None => true,
                };
                d_ok && i_ok && m_ok && p_ok && t_ok
            },
        }
    }
}

/// Who a connection is: its user id, its user name where known, and the
/// names of its groups.
#[derive(Debug, Clone, Copy)]
pub struct Identity<'a> {
    pub uid: u32,
    pub user_name: Option<&'a str>,
    pub group_names: &'a [String],
}

/// The model of an identity.
pub struct IdentitySpec {
    pub uid: u32,
    pub user_name: Option<Seq<char>>,
    pub group_names: Seq<Seq<char>>,
}

impl<'a> View for Identity<'a> {
    type V = IdentitySpec;

    open spec fn view(&self) -> IdentitySpec {
        IdentitySpec {
            uid: self.uid,
            user_name: match self.user_name {
                Some(u) => Some(u@),
                None => None,
            },
            group_names: texts_view(self.group_names@),
        }
    }
}

/// Whether the rule `r` applies to `id` (default and mandatory rules apply
/// to everyone; a user rule to the user it names by name or by number, a
/// group rule to members of its group).
pub open spec fn rule_applies(r: PolicyRuleSpec, id: IdentitySpec) -> bool {
    match r.context {
        Context::Default => true,
        Context::Mandatory => true,
        Context::User => r.user == id.user_name || r.user == Some(decimal(id.uid as nat)),
        Context::Group => r.group matches Some(g) && id.group_names.contains(g),
    }
}

/// The rules of context `c` in `rs` that apply to `id`, in order.
pub open spec fn applicable_in(rs: Seq<PolicyRuleSpec>, id: IdentitySpec, c: Context) -> Seq<PolicyRuleSpec>
    decreases rs.len(),
{
    if rs.len() == 0 {
        Seq::empty()
    } else {
        let r = rs.last();
        applicable_in(rs.drop_last(), id, c) + if r.context == c && rule_applies(r, id) {
            seq![r]
        } else {
            Seq::empty()
        }
    }
}

/// The rules of `rs` that apply to `id`, in order of precedence: default,
/// user, group, mandatory; each context in the order the rules were read.
pub open spec fn applicable(rs: Seq<PolicyRuleSpec>, id: IdentitySpec) -> Seq<PolicyRuleSpec> {
    applicable_in(rs, id, Context::Default) + applicable_in(rs, id, Context::User) + applicable_in(
        rs,
        id,
        Context::Group,
    ) + applicable_in(rs, id, Context::Mandatory)
}

/// Whether some pattern of `pats` matches `name`.
pub open spec fn any_glob(pats: Seq<Seq<char>>, name: Seq<char>) -> bool {
    exists|k: int| 0 <= k < pats.len() && glob(#[trigger] pats[k], name)
}

/// Whether some pattern of `pats` matches the message.
pub open spec fn any_pattern(
    pats: Seq<PatternSpec>,
    mt: MessageType,
    fields: Seq<FieldSpec>,
    party: Option<Seq<char>>,
) -> bool {
    exists|k: int| 0 <= k < pats.len() && pattern_matches(#[trigger] pats[k], mt, fields, party)
}

/// The verdict after the rules `rs` in turn, starting from "no": a rule
/// whose allow list matches says yes, then one whose deny list matches says
/// no; a rule whose lists match nothing leaves the verdict as it was.
pub open spec fn verdict(rs: Seq<PolicyRuleSpec>, allows: spec_fn(PolicyRuleSpec) -> bool, denies: spec_fn(PolicyRuleSpec) -> bool) -> bool
    decreases rs.len(),
{
    if rs.len() == 0 {
        false
    } else {
        let r = rs.last();
        if denies(r) {
            false
        } else if allows(r) {
            true
        } else {
            verdict(rs.drop_last(), allows, denies)
        }
    }
}

/// Whether the rule `r` allows owning `name`.
pub open spec fn own_allowed_by(name: Seq<char>) -> spec_fn(PolicyRuleSpec) -> bool {
    |r: PolicyRuleSpec| any_glob(r.allow_own, name)
}

/// Whether the rule `r` denies owning `name`.
pub open spec fn own_denied_by(name: Seq<char>) -> spec_fn(PolicyRuleSpec) -> bool {
    |r: PolicyRuleSpec| any_glob(r.deny_own, name)
}

/// Whether a rule allows sending (`receive` false) or receiving the message.
pub open spec fn flow_allowed_by(
    receive: bool,
    mt: MessageType,
    fields: Seq<FieldSpec>,
    party: Option<Seq<char>>,
) -> spec_fn(PolicyRuleSpec) -> bool {
    |r: PolicyRuleSpec|
        any_pattern(
            if receive {
                r.allow_receive
            } else {
                r.allow_send
            },
            mt,
            fields,
            party,
        )
}

/// Whether a rule denies sending (`receive` false) or receiving the message.
pub open spec fn flow_denied_by(
    receive: bool,
    mt: MessageType,
    fields: Seq<FieldSpec>,
    party: Option<Seq<char>>,
) -> spec_fn(PolicyRuleSpec) -> bool {
    |r: PolicyRuleSpec|
        any_pattern(
            if receive {
                r.deny_receive
            } else {
                r.deny_send
            },
            mt,
            fields,
            party,
        )
}

/// The security policy: its rules, in the order they were read.
pub struct Policy {
    rules: Vec<PolicyRule>,
}

impl View for Policy {
    type V = Seq<PolicyRuleSpec>;

    closed spec fn view(&self) -> Seq<PolicyRuleSpec> {
        rules_view(self.rules@)
    }
}

/// The rules at the indices `v` of `rules`.
pub open spec fn picked(rules: Seq<PolicyRuleSpec>, v: Seq<usize>) -> Seq<PolicyRuleSpec> {
    Seq::new(v.len(), |k: int| rules[v[k] as int])
}

fn any_glob_match(pats: &Vec<String>, name: &str) -> (b: bool)
    ensures
        b == any_glob(texts_view(pats@), name@),
{
    let mut k: usize = 0;
    while k < pats.len()
        invariant
            k <= pats@.len(),
            forall|j: int| 0 <= j < k ==> !glob(#[trigger] texts_view(pats@)[j], name@),
        decreases pats.len() - k,
    {
        if glob_match(pats[k].as_str(), name) {
            assert(glob(texts_view(pats@)[k as int], name@));
            return true;
        }
        k = k + 1;
    }
    false
}

fn any_pattern_match(pats: &Vec<SendReceivePattern>, msg: &Message, party: Option<&str>) -> (b: bool)
    ensures
        b == any_pattern(
            patterns_view(pats@),
            msg.header.message_type,
            msg.header.fields_spec(),
            match party {
                Some(o) => Some(o@),
                None => None,
            },
        ),
{
    let ghost pv = match party {
        Some(o) => Some(o@),
        None => None::<Seq<char>>,
    };
    let mut k: usize = 0;
    while k < pats.len()
        invariant
            k <= pats@.len(),
            pv == match party {
                Some(o) => Some(o@),
                None => None::<Seq<char>>,
            },
            forall|j: int|
                0 <= j < k ==> !pattern_matches(
                    #[trigger] patterns_view(pats@)[j],
                    msg.header.message_type,
                    msg.header.fields_spec(),
                    pv,
                ),
        decreases pats.len() - k,
    {
        if pats[k].matches(msg, party) {
            assert(pattern_matches(patterns_view(pats@)[k as int], msg.header.message_type, msg.header.fields_spec(), pv));
            return true;
        }
        k = k + 1;
    }
    false
}

fn opt_str_eq(a: &Option<String>, b: Option<&str>) -> (r: bool)
    ensures
        r == (opt_view(*a) == match b {
            Some(x) => Some(x@),
            None => None::<Seq<char>>,
        }),
{
    match a {
        Some(x) => match b {
            Some(y) => crate::text::str_eq(x.as_str(), y),
            None => false,
        },
        None => b.is_none(),
    }
}

fn group_member(groups: &[String], g: &String) -> (r: bool)
    ensures
        r == texts_view(groups@).contains(g@),
{
    let mut k: usize = 0;
    while k < groups.len()
        invariant
            k <= groups@.len(),
            forall|j: int| 0 <= j < k ==> #[trigger] texts_view(groups@)[j] != g@,
        decreases groups.len() - k,
    {
        if crate::text::str_eq(groups[k].as_str(), g.as_str()) {
            assert(texts_view(groups@)[k as int] == g@);
            return true;
        }
        k = k + 1;
    }
    false
}

fn applies_to(rule: &PolicyRule, identity: &Identity) -> (b: bool)
    ensures
        b == rule_applies(rule@, identity@),
{
    match rule.context {
        Context::Default => true,
        Context::Mandatory => true,
        Context::User => {
            if opt_str_eq(&rule.user, identity.user_name) {
                return true;
            }
            let uid_text = crate::text::u64_to_string(identity.uid as u64);
            opt_str_eq(&rule.user, Some(uid_text.as_str()))
        },
        Context::Group => match &rule.group {
            Some(g) => group_member(identity.group_names, g),
            None => false,
        },
    }
}

impl Policy {
    /// A policy of the rules `rules`, in that order.
    pub fn from_rules(rules: Vec<PolicyRule>) -> (p: Policy)
        ensures
            p@ == rules_view(rules@),
    {
        Policy { rules }
    }

    /// Adds the rules `more` after the present ones.
    pub fn extend(&mut self, more: Vec<PolicyRule>)
        ensures
            final(self)@ == old(self)@ + rules_view(more@),
    {
        let mut more = more;
        let ghost before = self.rules@;
        let ghost added = more@;
        self.rules.append(&mut more);
        assert(rules_view(self.rules@) =~= rules_view(before) + rules_view(added));
    }

    /// Whether the policy has no rules (and so allows everything).
    pub fn is_empty(&self) -> (b: bool)
        ensures
            b == (self@.len() == 0),
    {
        self.rules.len() == 0
    }

    fn collect_context(&self, identity: &Identity, c: Context, out: &mut Vec<usize>)
        requires
            forall|k: int| 0 <= k < old(out)@.len() ==> old(out)@[k] < self.rules@.len(),
        ensures
            forall|k: int| 0 <= k < final(out)@.len() ==> final(out)@[k] < self.rules@.len(),
            picked(self@, final(out)@) == picked(self@, old(out)@) + applicable_in(self@, identity@, c),
    {
        let ghost start = out@;
        let mut i: usize = 0;
        assert(self@.take(0) =~= Seq::<PolicyRuleSpec>::empty());
        assert(picked(self@, out@) =~= picked(self@, start) + applicable_in(self@.take(0), identity@, c));
        while i < self.rules.len()
            invariant
                i <= self.rules@.len(),
                forall|k: int| 0 <= k < out@.len() ==> out@[k] < self.rules@.len(),
                picked(self@, out@) == picked(self@, start) + applicable_in(self@.take(i as int), identity@, c),
            decreases self.rules.len() - i,
        {
            let ghost before = out@;
            proof {
                assert(self@.take(i + 1).drop_last() =~= self@.take(i as int));
                assert(self@.take(i + 1).last() == self@[i as int]);
            }
            if self.rules[i].context == c && applies_to(&self.rules[i], identity) {
                out.push(i);
                assert(picked(self@, out@) =~= picked(self@, before) + seq![self@[i as int]]);
            }
            i = i + 1;
        }
        assert(self@.take(i as int) =~= self@);
    }

    /// The indices of the rules that apply to `identity`, in order of
    /// precedence.
    fn applicable(&self, identity: &Identity) -> (v: Vec<usize>)
        ensures
            forall|k: int| 0 <= k < v@.len() ==> v@[k] < self.rules@.len(),
            picked(self@, v@) == applicable(self@, identity@),
    {
        let mut v: Vec<usize> = Vec::new();
        assert(picked(self@, v@) =~= Seq::<PolicyRuleSpec>::empty());
        self.collect_context(identity, Context::Default, &mut v);
        self.collect_context(identity, Context::User, &mut v);
        self.collect_context(identity, Context::Group, &mut v);
        self.collect_context(identity, Context::Mandatory, &mut v);
        assert(picked(self@, v@) =~= applicable(self@, identity@));
        v
    }

    /// Whether `identity` may own the bus name `name`: always where the
    /// policy is empty; else by the last applicable rule whose allow or
    /// deny list matches the name (a deny winning over an allow in one
    /// rule), and not where none does.
    pub fn can_own(&self, identity: &Identity, name: &str) -> (b: bool)
        ensures
            b == (self@.len() == 0 || verdict(
                applicable(self@, identity@),
                own_allowed_by(name@),
                own_denied_by(name@),
            )),
    {
        if self.is_empty() {
            return true;
        }
        let app = self.applicable(identity);
        let ghost rs = picked(self@, app@);
        let mut v = false;
        let mut i: usize = 0;
        assert(rs.take(0) =~= Seq::<PolicyRuleSpec>::empty());
        while i < app.len()
            invariant
                i <= app@.len(),
                rs == picked(self@, app@),
                forall|k: int| 0 <= k < app@.len() ==> app@[k] < self.rules@.len(),
                v == verdict(rs.take(i as int), own_allowed_by(name@), own_denied_by(name@)),
            decreases app.len() - i,
        {
            proof {
                assert(rs.take(i + 1).drop_last() =~= rs.take(i as int));
                assert(rs.take(i + 1).last() == rs[i as int]);
            }
            let rule = &self.rules[app[i]];
            if any_glob_match(&rule.allow_own, name) {
                v = true;
            }
            if any_glob_match(&rule.deny_own, name) {
                v = false;
            }
            i = i + 1;
        }
        assert(rs.take(i as int) =~= rs);
        v
    }

    fn flow_verdict(&self, identity: &Identity, msg: &Message, party: Option<&str>, receive: bool) -> (b: bool)
        ensures
            b == (self@.len() == 0 || verdict(
                applicable(self@, identity@),
                flow_allowed_by(
                    receive,
                    msg.header.message_type,
                    msg.header.fields_spec(),
                    match party {
                        Some(o) => Some(o@),
                        None => None,
                    },
                ),
                flow_denied_by(
                    receive,
                    msg.header.message_type,
                    msg.header.fields_spec(),
                    match party {
                        Some(o) => Some(o@),
                        None => None,
                    },
                ),
            )),
    {
        if self.is_empty() {
            return true;
        }
        let ghost pv = match party {
            Some(o) => Some(o@),
            None => None::<Seq<char>>,
        };
        let ghost al = flow_allowed_by(receive, msg.header.message_type, msg.header.fields_spec(), pv);
        let ghost de = flow_denied_by(receive, msg.header.message_type, msg.header.fields_spec(), pv);
        let app = self.applicable(identity);
        let ghost rs = picked(self@, app@);
        let mut v = false;
        let mut i: usize = 0;
        assert(rs.take(0) =~= Seq::<PolicyRuleSpec>::empty());
        while i < app.len()
            invariant
                i <= app@.len(),
                rs == picked(self@, app@),
                forall|k: int| 0 <= k < app@.len() ==> app@[k] < self.rules@.len(),
                pv == match party {
                    Some(o) => Some(o@),
                    None => None::<Seq<char>>,
                },
                al == flow_allowed_by(receive, msg.header.message_type, msg.header.fields_spec(), pv),
                de == flow_denied_by(receive, msg.header.message_type, msg.header.fields_spec(), pv),
                v == verdict(rs.take(i as int), al, de),
            decreases app.len() - i,
        {
            proof {
                assert(rs.take(i + 1).drop_last() =~= rs.take(i as int));
                assert(rs.take(i + 1).last() == rs[i as int]);
            }
            let rule = &self.rules[app[i]];
            let allows = if receive {
                any_pattern_match(&rule.allow_receive, msg, party)
            } else {
                any_pattern_match(&rule.allow_send, msg, party)
            };
            let denies = if receive {
                any_pattern_match(&rule.deny_receive, msg, party)
            } else {
                any_pattern_match(&rule.deny_send, msg, party)
            };
            if allows {
                v = true;
            }
            if denies {
                v = false;
            }
            i = i + 1;
        }
        assert(rs.take(i as int) =~= rs);
        v
    }

    /// Whether `identity` may send `msg` to `destination`: always where the
    /// policy is empty; else by the last applicable rule whose send lists
    /// match, and not where none does.
    pub fn can_send(&self, identity: &Identity, msg: &Message, destination: Option<&str>) -> (b: bool)
        ensures
            b == (self@.len() == 0 || verdict(
                applicable(self@, identity@),
                flow_allowed_by(
                    false,
                    msg.header.message_type,
                    msg.header.fields_spec(),
                    match destination {
                        Some(o) => Some(o@),
                        None => None,
                    },
                ),
                flow_denied_by(
                    false,
                    msg.header.message_type,
                    msg.header.fields_spec(),
                    match destination {
                        Some(o) => Some(o@),
                        None => None,
                    },
                ),
            )),
    {
        self.flow_verdict(identity, msg, destination, false)
    }

    /// Whether `identity` may receive `msg` from `sender`: always where the
    /// policy is empty; else by the last applicable rule whose receive lists
    /// match, and not where none does.
    pub fn can_receive(&self, identity: &Identity, msg: &Message, sender: Option<&str>) -> (b: bool)
        ensures
            b == (self@.len() == 0 || verdict(
                applicable(self@, identity@),
                flow_allowed_by(
                    true,
                    msg.header.message_type,
                    msg.header.fields_spec(),
                    match sender {
                        Some(o) => Some(o@),
                        None => None,
                    },
                ),
                flow_denied_by(
                    true,
                    msg.header.message_type,
                    msg.header.fields_spec(),
                    match sender {
                        Some(o) => Some(o@),
                        None => None,
                    },
                ),
            )),
    {
        self.flow_verdict(identity, msg, sender, true)
    }
}

impl Default for Policy {
    fn default() -> (p: Policy)
        ensures
            p@ == Seq::<PolicyRuleSpec>::empty(),
    {
        let p = Policy { rules: Vec::new() };
        assert(p@ =~= Seq::<PolicyRuleSpec>::empty());
        p
    }
}

/// Whether the rule `r` matches, by its allow or its deny list.
pub open spec fn decides(r: PolicyRuleSpec, allows: spec_fn(PolicyRuleSpec) -> bool, denies: spec_fn(PolicyRuleSpec) -> bool) -> bool {
    allows(r) || denies(r)
}

/// A verdict is that of the last rule that decides: yes where that rule's
/// allow list matches and its deny list does not, else no; and no where no
/// rule decides.
pub proof fn verdict_is_last_decision(
    rs: Seq<PolicyRuleSpec>,
    allows: spec_fn(PolicyRuleSpec) -> bool,
    denies: spec_fn(PolicyRuleSpec) -> bool,
)
    ensures
        verdict(rs, allows, denies) <==> exists|k: int|
            0 <= k < rs.len() && allows(#[trigger] rs[k]) && !denies(rs[k]) && forall|j: int|
                k < j < rs.len() ==> !decides(#[trigger] rs[j], allows, denies),
    decreases rs.len(),
{
    if rs.len() > 0 {
        let init = rs.drop_last();
        verdict_is_last_decision(init, allows, denies);
        let last = rs.len() - 1;
        if verdict(rs, allows, denies) {
            if !denies(rs[last]) && allows(rs[last]) {
                assert(forall|j: int| last < j < rs.len() ==> !decides(#[trigger] rs[j], allows, denies));
            } else {
                let k = choose|k: int|
                    0 <= k < init.len() && allows(#[trigger] init[k]) && !denies(init[k]) && forall|j: int|
                        k < j < init.len() ==> !decides(#[trigger] init[j], allows, denies);
                assert(allows(rs[k]) && !denies(rs[k]));
                assert forall|j: int| k < j < rs.len() implies !decides(#[trigger] rs[j], allows, denies) by {
                    if j < last {
                        assert(rs[j] == init[j]);
                    }
                }
            }
        } else {
            if exists|k: int|
                0 <= k < rs.len() && allows(#[trigger] rs[k]) && !denies(rs[k]) && forall|j: int|
                    k < j < rs.len() ==> !decides(#[trigger] rs[j], allows, denies) {
                let k = choose|k: int|
                    0 <= k < rs.len() && allows(#[trigger] rs[k]) && !denies(rs[k]) && forall|j: int|
                        k < j < rs.len() ==> !decides(#[trigger] rs[j], allows, denies);
                if k < last {
                    assert(!decides(rs[last], allows, denies));
                    assert(allows(init[k]) && !denies(init[k]));
                    assert forall|j: int| k < j < init.len() implies !decides(#[trigger] init[j], allows, denies) by {
                        assert(init[j] == rs[j]);
                    }
                }
            }
        }
    }
}

/// Rules that come later override earlier ones: where some rule of `later`
/// decides, the verdict of `earlier` followed by `later` is that of `later`
/// alone; where none does, it is that of `earlier`.
pub proof fn later_rules_override(
    earlier: Seq<PolicyRuleSpec>,
    later: Seq<PolicyRuleSpec>,
    allows: spec_fn(PolicyRuleSpec) -> bool,
    denies: spec_fn(PolicyRuleSpec) -> bool,
)
    ensures
        (exists|k: int| 0 <= k < later.len() && decides(#[trigger] later[k], allows, denies)) ==> verdict(
            earlier + later,
            allows,
            denies,
        ) == verdict(later, allows, denies),
        (forall|k: int| 0 <= k < later.len() ==> !decides(#[trigger] later[k], allows, denies)) ==> verdict(
            earlier + later,
            allows,
            denies,
        ) == verdict(earlier, allows, denies),
    decreases later.len(),
{
    if later.len() == 0 {
        assert(earlier + later =~= earlier);
    } else {
        let l2 = later.drop_last();
        assert((earlier + later).drop_last() =~= earlier + l2);
        assert((earlier + later).last() == later.last());
        later_rules_override(earlier, l2, allows, denies);
        if !decides(later.last(), allows, denies) {
            if exists|k: int| 0 <= k < later.len() && decides(#[trigger] later[k], allows, denies) {
                let k = choose|k: int| 0 <= k < later.len() && decides(#[trigger] later[k], allows, denies);
                assert(l2[k] == later[k]);
            }
            if forall|k: int| 0 <= k < later.len() ==> !decides(#[trigger] later[k], allows, denies) {
                assert forall|k: int| 0 <= k < l2.len() implies !decides(#[trigger] l2[k], allows, denies) by {
                    assert(l2[k] == later[k]);
                }
            }
        } else {
            assert(decides(later[later.len() - 1], allows, denies));
        }
    }
}

/// Mandatory rules come last: where an applicable mandatory rule decides,
/// the verdict is that of the mandatory rules alone, whatever the default,
/// user and group rules say.
pub proof fn mandatory_rules_prevail(
    rs: Seq<PolicyRuleSpec>,
    id: IdentitySpec,
    allows: spec_fn(PolicyRuleSpec) -> bool,
    denies: spec_fn(PolicyRuleSpec) -> bool,
)
    requires
        exists|k: int|
            0 <= k < applicable_in(rs, id, Context::Mandatory).len() && decides(
                #[trigger] applicable_in(rs, id, Context::Mandatory)[k],
                allows,
                denies,
            ),
    ensures
        verdict(applicable(rs, id), allows, denies) == verdict(
            applicable_in(rs, id, Context::Mandatory),
            allows,
            denies,
        ),
{
    let earlier = applicable_in(rs, id, Context::Default) + applicable_in(rs, id, Context::User)
        + applicable_in(rs, id, Context::Group);
    later_rules_override(earlier, applicable_in(rs, id, Context::Mandatory), allows, denies);
}


/// The name of the other party, empty where there is none.
pub open spec fn party_name(party: Option<Seq<char>>) -> Seq<char> {
    match party {
        Some(x) => x,
        None => Seq::empty(),
    }
}

/// A send or receive pattern restricts by each attribute it names: where
/// the message's interface, member or path header differs from the
/// pattern's (or is missing), its type is not the named one, or the other
/// party's name does not fit the destination pattern, the pattern does not
/// match, whatever its other attributes say.
pub proof fn pattern_attributes_restrict(
    p: PatternSpec,
    mt: MessageType,
    fields: Seq<FieldSpec>,
    party: Option<Seq<char>>,
)
    ensures
        p matches PatternSpec::Full { interface: Some(i), .. } && text_field(fields, 2) != Some(i)
            ==> !pattern_matches(p, mt, fields, party),
        p matches PatternSpec::Full { member: Some(m), .. } && text_field(fields, 3) != Some(m)
            ==> !pattern_matches(p, mt, fields, party),
        p matches PatternSpec::Full { path: Some(x), .. } && text_field(fields, 1) != Some(x)
            ==> !pattern_matches(p, mt, fields, party),
        p matches PatternSpec::Full { message_type: Some(t), .. } && t == "method_call"@ && mt
            != MessageType::MethodCall ==> !pattern_matches(p, mt, fields, party),
        p matches PatternSpec::Full { message_type: Some(t), .. } && t == "signal"@ && mt != MessageType::Signal
            ==> !pattern_matches(p, mt, fields, party),
        p matches PatternSpec::Full { destination: Some(d), .. } && !(d.len() > 0 && d.last() == '*')
            && party_name(party) != d ==> !pattern_matches(p, mt, fields, party),
        p matches PatternSpec::Destination(d) && !(d.len() > 0 && d.last() == '*') && party_name(party) != d
            ==> !pattern_matches(p, mt, fields, party),
{
    reveal_strlit("method_call");
    reveal_strlit("signal");
    reveal_strlit("method_return");
    assert("signal"@ != "method_call"@) by {
        assert("signal"@.len() != "method_call"@.len());
    }
    assert("signal"@ != "method_return"@) by {
        assert("signal"@.len() != "method_return"@.len());
    }
    let other = match party {
        Some(x) => x,
        None => Seq::<char>::empty(),
    };
    match p {
        PatternSpec::Destination(d) => {
            if !(d.len() > 0 && d.last() == '*') && party_name(party) != d && glob(d, other) {
                assert(d != seq!['*']) by {
                    if d == seq!['*'] {
                        assert(d.last() == '*');
                    }
                }
                assert(d == other);
            }
        },
        PatternSpec::Full { destination, .. } => {
            if destination is Some {
                let d = destination->0;
                if !(d.len() > 0 && d.last() == '*') && party_name(party) != d && glob(d, other) {
                    assert(d != seq!['*']) by {
                        if d == seq!['*'] {
                            assert(d.last() == '*');
                        }
                    }
                    assert(d == other);
                }
            }
        },
    }
}

/// A pattern that names no attribute matches every message, and so does
/// the destination pattern `*`.
pub proof fn unrestricted_patterns_match_all(mt: MessageType, fields: Seq<FieldSpec>, party: Option<Seq<char>>)
    ensures
        pattern_matches(
            PatternSpec::Full { destination: None, interface: None, member: None, path: None, message_type: None },
            mt,
            fields,
            party,
        ),
        pattern_matches(PatternSpec::Destination(seq!['*']), mt, fields, party),
{
}

/// The deny list of a rule for sending (`receive` false) or receiving.
pub open spec fn deny_list(r: PolicyRuleSpec, receive: bool) -> Seq<PatternSpec> {
    if receive {
        r.deny_receive
    } else {
        r.deny_send
    }
}

/// A rule's deny list stops a message only where one of its patterns
/// matches it: where every deny pattern names a member other than the
/// message's, the rule denies nothing of it and the verdict is that of its
/// allow list and the rules before.
pub proof fn deny_needs_a_matching_pattern(
    rs: Seq<PolicyRuleSpec>,
    receive: bool,
    mt: MessageType,
    fields: Seq<FieldSpec>,
    party: Option<Seq<char>>,
)
    requires
        rs.len() > 0,
        forall|k: int|
            0 <= k < deny_list(rs.last(), receive).len() ==> ((#[trigger] deny_list(rs.last(), receive)[k]) matches PatternSpec::Full {
                member: Some(m),
                ..
            } && text_field(fields, 3) != Some(m)),
    ensures
        verdict(rs, flow_allowed_by(receive, mt, fields, party), flow_denied_by(receive, mt, fields, party)) == if (
        flow_allowed_by(receive, mt, fields, party))(rs.last()) {
            true
        } else {
            verdict(rs.drop_last(), flow_allowed_by(receive, mt, fields, party), flow_denied_by(receive, mt, fields, party))
        },
{
    let pats = deny_list(rs.last(), receive);
    assert forall|k: int| 0 <= k < pats.len() implies !pattern_matches(#[trigger] pats[k], mt, fields, party) by {
        pattern_attributes_restrict(pats[k], mt, fields, party);
    }
    assert(!(flow_denied_by(receive, mt, fields, party))(rs.last()));
}

} // verus!
