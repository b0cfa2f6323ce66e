//! The objects a client serves: which interfaces are registered at which
//! paths, which one a call goes to, and the introspection data of a path.
//! The handlers themselves, and calling them, are the caller's part.

use crate::client::MethodError;
use crate::daemon::registry::{keys_unique, seq_map};
use crate::text::{chars_of, concat_str, has_prefix, occurs_at, starts_with_at, string_of, string_of_range};
use crate::types::{sig_of, type_of, Value};
use vstd::prelude::*;

verus! {

/// The names registered at each path.
pub struct ObjectServer {
    objects: Vec<(String, Vec<String>)>,
}

/// The texts of some strings.
pub open spec fn names_of(v: Seq<String>) -> Seq<Seq<char>> {
    Seq::new(v.len(), |i: int| v[i]@)
}

/// `e` is the error `name` with `message`.
pub open spec fn is_error(e: MethodError, name: Seq<char>, message: Seq<char>) -> bool {
    e.name@ == name && e.message@ == message
}

/// No text twice.
pub open spec fn distinct(s: Seq<Seq<char>>) -> bool {
    forall|i: int, j: int| 0 <= i < j < s.len() ==> s[i] != s[j]
}

impl ObjectServer {
    closed spec fn pairs(&self) -> Seq<(Seq<char>, Seq<Seq<char>>)> {
        Seq::new(self.objects@.len(), |i: int| (self.objects@[i].0@, names_of(self.objects@[i].1@)))
    }

    /// No path twice, each path with at least one interface, none twice.
    pub closed spec fn wf(&self) -> bool {
        &&& keys_unique(self.pairs())
        &&& forall|i: int| 0 <= i < self.pairs().len() ==> (#[trigger] self.pairs()[i]).1.len() > 0 && distinct(
            self.pairs()[i].1,
        )
    }

    /// The paths, in the order they were first registered, with their
    /// interfaces in the order they were registered.
    pub closed spec fn tree(&self) -> Seq<(Seq<char>, Seq<Seq<char>>)> {
        self.pairs()
    }
}

impl View for ObjectServer {
    type V = Map<Seq<char>, Seq<Seq<char>>>;

    closed spec fn view(&self) -> Map<Seq<char>, Seq<Seq<char>>> {
        seq_map(self.pairs())
    }
}

/// The interfaces at `path`.
pub open spec fn ifaces_at(m: Map<Seq<char>, Seq<Seq<char>>>, path: Seq<char>) -> Seq<Seq<char>> {
    if m.dom().contains(path) {
        m[path]
    } else {
        Seq::empty()
    }
}

/// `names` with `n` added at the end where it is not there.
pub open spec fn with_name(names: Seq<Seq<char>>, n: Seq<char>) -> Seq<Seq<char>> {
    if names.contains(n) {
        names
    } else {
        names.push(n)
    }
}

/// `names` without `n`.
pub open spec fn without_name(names: Seq<Seq<char>>, n: Seq<char>) -> Seq<Seq<char>> {
    if names.contains(n) {
        names.remove(names.index_of(n))
    } else {
        names
    }
}

/// The objects after `register` of `iface` at `path`.
pub open spec fn registered(m: Map<Seq<char>, Seq<Seq<char>>>, path: Seq<char>, iface: Seq<char>) -> Map<
    Seq<char>,
    Seq<Seq<char>>,
> {
    m.insert(path, with_name(ifaces_at(m, path), iface))
}

/// The objects after `unregister` of `iface` at `path`: a path left with
/// no interface goes.
pub open spec fn unregistered(m: Map<Seq<char>, Seq<Seq<char>>>, path: Seq<char>, iface: Seq<char>) -> Map<
    Seq<char>,
    Seq<Seq<char>>,
> {
    if !m.dom().contains(path) {
        m
    } else if without_name(m[path], iface).len() == 0 {
        m.remove(path)
    } else {
        m.insert(path, without_name(m[path], iface))
    }
}

proof fn lemma_index_in_distinct(s: Seq<Seq<char>>, k: int)
    requires
        distinct(s),
        0 <= k < s.len(),
    ensures
        s.contains(s[k]),
        s.index_of(s[k]) == k,
{
    assert(s[k] == s[k]);
    let j = s.index_of(s[k]);
    assert(0 <= j < s.len() && s[j] == s[k]);
    if j != k {
        if j < k {
            assert(s[j] != s[k]);
        } else {
            assert(s[k] != s[j]);
        }
    }
}

fn find_text(v: &Vec<String>, s: &str) -> (r: Option<usize>)
    ensures
        match r {
            Some(i) => i < v@.len() && v@[i as int]@ == s@,
            None => !names_of(v@).contains(s@),
        },
{
    let mut i: usize = 0;
    while i < v.len()
        invariant
            i <= v@.len(),
            forall|j: int| 0 <= j < i ==> v@[j]@ != s@,
        decreases v.len() - i,
    {
        if crate::text::str_eq(v[i].as_str(), s) {
            return Some(i);
        }
        i = i + 1;
    }
    assert forall|k: int| 0 <= k < names_of(v@).len() implies names_of(v@)[k] != s@ by {
        assert(names_of(v@)[k] == v@[k]@);
    }
    None
}

impl ObjectServer {
    /// No objects.
    pub fn new() -> (s: ObjectServer)
        ensures
            s.wf(),
            s@ == Map::<Seq<char>, Seq<Seq<char>>>::empty(),
    {
        let s = ObjectServer { objects: Vec::new() };
        assert(s.pairs() =~= Seq::<(Seq<char>, Seq<Seq<char>>)>::empty());
        s
    }

    fn find_path(&self, path: &str) -> (r: Option<usize>)
        requires
            self.wf(),
        ensures
            match r {
                Some(i) => i < self.objects@.len() && self.pairs()[i as int].0 == path@ && self@.dom().contains(path@)
                    && self@[path@] == self.pairs()[i as int].1,
                None => !self@.dom().contains(path@),
            },
    {
        let mut i: usize = 0;
        while i < self.objects.len()
            invariant
                self.wf(),
                i <= self.objects@.len(),
                forall|j: int| 0 <= j < i ==> self.pairs()[j].0 != path@,
            decreases self.objects.len() - i,
        {
            if crate::text::str_eq(self.objects[i].0.as_str(), path) {
                proof {
                    crate::daemon::registry::lemma_seq_map_index(self.pairs(), i as int);
                }
                return Some(i);
            }
            i = i + 1;
        }
        proof {
            crate::daemon::registry::lemma_seq_map_dom(self.pairs(), path@);
        }
        None
    }

    /// Whether anything is registered at `path`.
    pub fn has_path(&self, path: &str) -> (b: bool)
        requires
            self.wf(),
        ensures
            b == self@.dom().contains(path@),
    {
        self.find_path(path).is_some()
    }

    /// Whether `interface` is registered at `path`.
    pub fn has_interface(&self, path: &str, interface: &str) -> (b: bool)
        requires
            self.wf(),
        ensures
            b == ifaces_at(self@, path@).contains(interface@),
    {
        match self.find_path(path) {
            Some(i) => match find_text(&self.objects[i].1, interface) {
                Some(k) => {
                    assert(names_of(self.objects@[i as int].1@)[k as int] == interface@);
                    true
                },
                None => false,
            },
            None => false,
        }
    }

    /// Register `interface` at `path` (registering it again changes
    /// nothing here; the caller replaces its handler).
    pub fn register(&mut self, path: &str, interface: &str)
        requires
            old(self).wf(),
        ensures
            final(self).wf(),
            final(self)@ == registered(old(self)@, path@, interface@),
    {
        let ghost ps = self.pairs();
        match self.find_path(path) {
            Some(i) => {
                match find_text(&self.objects[i].1, interface) {
                    Some(k) => {
                        proof {
                            assert(ps[i as int].1[k as int] == interface@);
                            assert(ps[i as int].1.contains(interface@));
                            assert(self@.insert(path@, self@[path@]) =~= self@);
                        }
                    },
                    None => {
                        let ghost l = ps[i as int].1;
                        proof {
                            crate::daemon::registry::lemma_seq_map_update(ps, i as int, l.push(interface@));
                        }
                        let ghost objs0 = self.objects@;
                        let mut entry = self.objects.remove(i);
                        assert(entry == objs0[i as int]);
                        let ghost e1 = entry.1@;
                        entry.1.push(interface.to_owned());
                        assert(names_of(entry.1@) =~= names_of(e1).push(interface@));
                        assert(names_of(e1) == l);
                        self.objects.insert(i, entry);
                        assert(self.objects@ =~= objs0.update(i as int, entry));
                        assert(self.pairs() =~= ps.update(i as int, (ps[i as int].0, l.push(interface@))));
                        assert forall|a: int, b: int| 0 <= a < b < l.push(interface@).len() implies l.push(interface@)[a]
                            != l.push(interface@)[b] by {
                            if b == l.len() {
                                assert(l.contains(l[a]) || true);
                                if l[a] == interface@ {
                                    assert(l.contains(interface@));
                                }
                            }
                        }
                    },
                }
            },
            None => {
                let mut names: Vec<String> = Vec::new();
                names.push(interface.to_owned());
                proof {
                    crate::daemon::registry::lemma_seq_map_push(ps, path@, seq![interface@]);
                }
                self.objects.push((path.to_owned(), names));
                assert(names_of(names@) =~= seq![interface@]);
                assert(self.pairs() =~= ps.push((path@, seq![interface@])));
                assert(with_name(Seq::<Seq<char>>::empty(), interface@) =~= seq![interface@]);
            },
        }
    }

    /// Remove `interface` from `path`; a path left with no interface goes.
    pub fn unregister(&mut self, path: &str, interface: &str)
        requires
            old(self).wf(),
        ensures
            final(self).wf(),
            final(self)@ == unregistered(old(self)@, path@, interface@),
    {
        let ghost ps = self.pairs();
        let i = match self.find_path(path) {
            Some(i) => i,
            None => {
                return;
            },
        };
        let ghost l = ps[i as int].1;
        let k = match find_text(&self.objects[i].1, interface) {
            Some(k) => k,
            None => {
                proof {
                    assert(without_name(l, interface@) == l);
                    assert(self@.insert(path@, l) =~= self@);
                }
                return;
            },
        };
        proof {
            assert(l[k as int] == interface@);
            lemma_index_in_distinct(l, k as int);
        }
        let ghost objs0 = self.objects@;
        let mut entry = self.objects.remove(i);
        assert(entry == objs0[i as int]);
        let ghost e1 = entry.1@;
        assert(names_of(e1) == l);
        entry.1.remove(k);
        assert(names_of(entry.1@) =~= l.remove(k as int));
        if entry.1.len() == 0 {
            proof {
                crate::daemon::registry::lemma_seq_map_remove(ps, i as int);
            }
            assert(self.objects@ =~= objs0.remove(i as int));
            assert(self.pairs() =~= ps.remove(i as int));
        } else {
            proof {
                crate::daemon::registry::lemma_seq_map_update(ps, i as int, l.remove(k as int));
            }
            self.objects.insert(i, entry);
            assert(self.objects@ =~= objs0.update(i as int, entry));
            assert(self.pairs() =~= ps.update(i as int, (ps[i as int].0, l.remove(k as int))));
        }
    }

    /// The interface a call of `member` at `path` goes to: the one named,
    /// else the only one there. An unknown path or interface, no interface,
    /// or several without one named, are errors.
    pub fn dispatch_target(&self, path: &str, interface: Option<&str>, member: &str) -> (r: Result<
        String,
        MethodError,
    >)
        requires
            self.wf(),
        ensures
            !self@.dom().contains(path@) ==> (r matches Err(e) && is_error(
                e,
                crate::errors::UNKNOWN_OBJECT@,
                "No such object path \""@ + path@ + "\""@,
            )),
            self@.dom().contains(path@) ==> match interface {
                Some(n) => if self@[path@].contains(n@) {
                    r matches Ok(t) && t@ == n@
                } else {
                    r matches Err(e) && is_error(
                        e,
                        crate::errors::UNKNOWN_INTERFACE@,
                        "No such interface \""@ + n@ + "\""@,
                    )
                },
                None => if self@[path@].len() == 1 {
                    r matches Ok(t) && t@ == self@[path@][0]
                } else if self@[path@].len() == 0 {
                    r matches Err(e) && is_error(
                        e,
                        crate::errors::UNKNOWN_METHOD@,
                        "No such method \""@ + member@ + "\" on interface \"<no interface>\""@,
                    )
                } else {
                    r matches Err(e) && is_error(
                        e,
                        crate::errors::INVALID_ARGS@,
                        "ambiguous method call: multiple interfaces implement this member, specify INTERFACE"@,
                    )
                },
            },
    {
        let i = match self.find_path(path) {
            Some(i) => i,
            None => {
                return Err(MethodError::unknown_object(path));
            },
        };
        let names = &self.objects[i].1;
        match interface {
            Some(n) => match find_text(names, n) {
                Some(k) => {
                    assert(names_of(names@)[k as int] == n@);
                    Ok(n.to_owned())
                },
                None => Err(MethodError::unknown_interface(n)),
            },
            None => {
                if names.len() == 1 {
                    let t = names[0].clone();
                    assert(names_of(names@)[0] == t@);
                    Ok(t)
                } else if names.len() == 0 {
                    Err(MethodError::unknown_method(member, "<no interface>"))
                } else {
                    Err(
                        MethodError::invalid_args(
                            "ambiguous method call: multiple interfaces implement this member, specify INTERFACE",
                        ),
                    )
                }
            },
        }
    }

    /// The interfaces registered at `path`, in the order they were
    /// registered.
    pub fn interfaces_at(&self, path: &str) -> (v: Vec<String>)
        requires
            self.wf(),
        ensures
            names_of(v@) == ifaces_at(self@, path@),
    {
        match self.find_path(path) {
            Some(i) => {
                let mut out: Vec<String> = Vec::new();
                let mut k: usize = 0;
                while k < self.objects[i].1.len()
                    invariant
                        i < self.objects@.len(),
                        k <= self.objects@[i as int].1@.len(),
                        out@.len() == k,
                        forall|j: int| 0 <= j < k ==> (#[trigger] out@[j])@ == self.objects@[i as int].1@[j]@,
                    decreases self.objects@[i as int].1@.len() - k,
                {
                    let x = self.objects[i].1[k].clone();
                    out.push(x);
                    k = k + 1;
                }
                assert(names_of(out@) =~= names_of(self.objects@[i as int].1@));
                out
            },
            None => {
                let out: Vec<String> = Vec::new();
                assert(names_of(out@) =~= Seq::<Seq<char>>::empty());
                out
            },
        }
    }
}

/// Whether `p` occurs in `s`.
pub open spec fn contains_text(s: Seq<char>, p: Seq<char>) -> bool {
    exists|i: int| occurs_at(s, p, i)
}

/// The last place at or before `k` where `p` occurs in `s`.
pub open spec fn last_occurrence(s: Seq<char>, p: Seq<char>, k: int) -> Option<int>
    decreases k + 1,
{
    if k < 0 {
        None
    } else if occurs_at(s, p, k) {
        Some(k)
    } else {
        last_occurrence(s, p, k - 1)
    }
}

/// The `<property>` tag of a property `name` of type signature `sig`.
pub open spec fn property_tag(name: Seq<char>, sig: Seq<char>) -> Seq<char> {
    "<property name=\""@ + name + "\" type=\""@ + sig + "\" access=\"readwrite\"/>"@
}

/// The `<property>` tags of the properties `props`, each with the type
/// of its value.
pub open spec fn properties_text(props: Seq<(Seq<char>, crate::types::ValueSpec)>) -> Seq<char>
    decreases props.len(),
{
    if props.len() == 0 {
        Seq::empty()
    } else {
        properties_text(props.drop_last()) + property_tag(props.last().0, sig_of(type_of(props.last().1)))
    }
}

/// The models of named values.
pub open spec fn props_view(v: Seq<(String, Value)>) -> Seq<(Seq<char>, crate::types::ValueSpec)> {
    Seq::new(v.len(), |i: int| (v[i].0@, v[i].1@))
}

/// The `<property>` tags of the properties `props` (read-write, typed by
/// their values).
pub fn properties_xml(props: &[(String, Value)]) -> (s: String)
    ensures
        s@ == properties_text(props_view(props@)),
{
    let ghost pv = props_view(props@);
    let mut out = String::new();
    let mut i: usize = 0;
    assert(pv.take(0) =~= Seq::<(Seq<char>, crate::types::ValueSpec)>::empty());
    while i < props.len()
        invariant
            pv == props_view(props@),
            i <= props@.len(),
            out@ == properties_text(pv.take(i as int)),
        decreases props.len() - i,
    {
        proof {
            assert(pv.take(i + 1).drop_last() =~= pv.take(i as int));
            assert(pv.take(i + 1).last() == pv[i as int]);
        }
        let (name, value) = &props[i];
        let sig = value.value_type().to_signature_string();
        let a = concat_str(out.as_str(), "<property name=\"");
        let b = concat_str(a.as_str(), name.as_str());
        let c = concat_str(b.as_str(), "\" type=\"");
        let d = concat_str(c.as_str(), sig.as_str());
        out = concat_str(d.as_str(), "\" access=\"readwrite\"/>");
        i = i + 1;
    }
    assert(pv.take(i as int) =~= pv);
    out
}

fn find_last(s: &[char], p: &[char]) -> (r: Option<usize>)
    ensures
        r matches Some(i) ==> last_occurrence(s@, p@, s@.len() - p@.len()) == Some(i as int) && occurs_at(
            s@,
            p@,
            i as int,
        ),
        r is None ==> last_occurrence(s@, p@, s@.len() - p@.len()) is None,
        (r is Some) == contains_text(s@, p@),
{
    if p.len() > s.len() {
        proof {
            assert(last_occurrence(s@, p@, s@.len() - p@.len()) is None);
            if contains_text(s@, p@) {
                let w = choose|i: int| occurs_at(s@, p@, i);
                assert(occurs_at(s@, p@, w));
            }
        }
        return None;
    }
    let mut k: usize = s.len() - p.len();
    loop
        invariant
            k <= s@.len() - p@.len(),
            p@.len() <= s@.len(),
            last_occurrence(s@, p@, s@.len() - p@.len()) == last_occurrence(s@, p@, k as int),
            forall|j: int| k < j <= s@.len() - p@.len() ==> !occurs_at(s@, p@, j),
        decreases k,
    {
        if starts_with_at(s, k, p) {
            proof {
                assert(occurs_at(s@, p@, k as int));
            }
            return Some(k);
        }
        if k == 0 {
            proof {
                assert(last_occurrence(s@, p@, -1) is None);
                if contains_text(s@, p@) {
                    let w = choose|i: int| occurs_at(s@, p@, i);
                    assert(occurs_at(s@, p@, w));
                    assert(0 <= w <= s@.len() - p@.len());
                }
            }
            return None;
        }
        k = k - 1;
    }
}

/// The text of an interface's introspection data `iface` with the
/// property tags `props` put before its last `</interface>`, unless there
/// are none to add or it has `<property` tags of its own.
pub open spec fn spliced(iface: Seq<char>, props: Seq<char>) -> Seq<char> {
    if props.len() == 0 || contains_text(iface, "<property"@) {
        iface
    } else {
        match last_occurrence(iface, "</interface>"@, iface.len() - 12) {
            Some(i) => iface.take(i) + props + iface.skip(i),
            None => iface,
        }
    }
}

/// `iface` with `props` spliced in.
pub fn splice_properties(iface: &str, props: &str) -> (s: String)
    ensures
        s@ == spliced(iface@, props@),
{
    proof {
        reveal_strlit("<property");
        reveal_strlit("</interface>");
    }
    let cs = chars_of(iface);
    let tag = chars_of("<property");
    let pc = chars_of(props);
    if pc.len() == 0 || find_last(cs.as_slice(), tag.as_slice()).is_some() {
        return iface.to_owned();
    }
    let end = chars_of("</interface>");
    match find_last(cs.as_slice(), end.as_slice()) {
        Some(idx) => {
            let head = string_of_range(cs.as_slice(), 0, idx);
            let tail = string_of_range(cs.as_slice(), idx, cs.len());
            let a = concat_str(head.as_str(), props);
            let r = concat_str(a.as_str(), tail.as_str());
            assert(cs@.subrange(0, idx as int) =~= iface@.take(idx as int));
            assert(cs@.subrange(idx as int, cs@.len() as int) =~= iface@.skip(idx as int));
            r
        },
        None => iface.to_owned(),
    }
}

/// The start of every introspection document.
pub const INTROSPECT_HEADER: &'static str = "<!DOCTYPE node PUBLIC \"-//freedesktop//DTD D-BUS Object Introspection 1.0//EN\"\n \"http://www.freedesktop.org/standards/dbus/1.0/introspect.dtd\">\n<node>\n";

/// What the paths below `path` start with.
pub open spec fn child_prefix(path: Seq<char>) -> Seq<char> {
    if path == seq!['/'] {
        seq!['/']
    } else {
        path + seq!['/']
    }
}

/// The part of `rest` before its first `/`.
pub open spec fn first_segment(rest: Seq<char>) -> Seq<char> {
    match crate::text::index_of(rest, '/') {
        Some(i) => rest.take(i),
        None => rest,
    }
}

/// The names of the children of `path` among the paths `keys`, each once,
/// in the order they first come.
pub open spec fn children_of(keys: Seq<Seq<char>>, path: Seq<char>) -> Seq<Seq<char>>
    decreases keys.len(),
{
    if keys.len() == 0 {
        Seq::empty()
    } else {
        let init = children_of(keys.drop_last(), path);
        let c = keys.last();
        let pre = child_prefix(path);
        if c != path && has_prefix(c, pre) {
            let child = first_segment(c.skip(pre.len() as int));
            if child.len() > 0 && !init.contains(child) {
                init.push(child)
            } else {
                init
            }
        } else {
            init
        }
    }
}

/// Each interface's data with its properties spliced in, a line each.
pub open spec fn interfaces_text(ds: Seq<(Seq<char>, Seq<char>)>) -> Seq<char>
    decreases ds.len(),
{
    if ds.len() == 0 {
        Seq::empty()
    } else {
        interfaces_text(ds.drop_last()) + spliced(ds.last().0, ds.last().1) + seq!['\n']
    }
}

/// A `<node>` line for each child.
pub open spec fn nodes_text(cs: Seq<Seq<char>>) -> Seq<char>
    decreases cs.len(),
{
    if cs.len() == 0 {
        Seq::empty()
    } else {
        nodes_text(cs.drop_last()) + "  <node name=\""@ + cs.last() + "\"/>\n"@
    }
}

/// The paths of an object tree.
pub open spec fn paths_of(t: Seq<(Seq<char>, Seq<Seq<char>>)>) -> Seq<Seq<char>> {
    Seq::new(t.len(), |i: int| t[i].0)
}

/// The introspection document of `path`, whose interfaces have the data
/// and property tags `ds`, among the objects at `keys`.
pub open spec fn introspection_text(path: Seq<char>, ds: Seq<(Seq<char>, Seq<char>)>, keys: Seq<Seq<char>>) -> Seq<char> {
    INTROSPECT_HEADER@ + interfaces_text(ds) + nodes_text(children_of(keys, path)) + "</node>\n"@
}

/// The models of pairs of strings.
pub open spec fn pairs_view(v: Seq<(String, String)>) -> Seq<(Seq<char>, Seq<char>)> {
    Seq::new(v.len(), |i: int| (v[i].0@, v[i].1@))
}

fn contains_name(v: &Vec<Vec<char>>, x: &Vec<char>) -> (b: bool)
    ensures
        b == Seq::new(v@.len(), |i: int| v@[i]@).contains(x@),
{
    let ghost vs = Seq::new(v@.len(), |i: int| v@[i]@);
    let mut i: usize = 0;
    while i < v.len()
        invariant
            vs == Seq::new(v@.len(), |i: int| v@[i]@),
            i <= v@.len(),
            forall|j: int| 0 <= j < i ==> vs[j] != x@,
        decreases v.len() - i,
    {
        if crate::text::chars_eq(v[i].as_slice(), x.as_slice()) {
            assert(vs[i as int] == x@);
            return true;
        }
        i = i + 1;
    }
    false
}

impl ObjectServer {
    /// The introspection document of `path`: for each interface there
    /// (whose data and property tags the caller gives in `interfaces`,
    /// those of `interfaces_at(path)`), its data with the property tags
    /// put in where it has none of its own; then a `<node>` for each child
    /// path.
    pub fn introspect(&self, path: &str, interfaces: &[(String, String)]) -> (s: String)
        requires
            self.wf(),
        ensures
            s@ == introspection_text(path@, pairs_view(interfaces@), paths_of(self.tree())),
    {
        proof {
            reveal_strlit("/");
        }
        let ghost ds = pairs_view(interfaces@);
        let mut xml = INTROSPECT_HEADER.to_owned();
        let mut i: usize = 0;
        assert(ds.take(0) =~= Seq::<(Seq<char>, Seq<char>)>::empty());
        while i < interfaces.len()
            invariant
                ds == pairs_view(interfaces@),
                i <= ds.len(),
                xml@ == INTROSPECT_HEADER@ + interfaces_text(ds.take(i as int)),
            decreases interfaces.len() - i,
        {
            proof {
                assert(ds.take(i + 1).drop_last() =~= ds.take(i as int));
                assert(ds.take(i + 1).last() == ds[i as int]);
            }
            let (x, p) = &interfaces[i];
            let part = splice_properties(x.as_str(), p.as_str());
            let a = concat_str(xml.as_str(), part.as_str());
            xml = concat_str(a.as_str(), "\n");
            proof {
                reveal_strlit("\n");
            }
            i = i + 1;
        }
        assert(ds.take(i as int) =~= ds);
        let pc = chars_of(path);
        let root = pc.len() == 1 && pc[0] == '/';
        let prefix: Vec<char> = if root {
            let mut v: Vec<char> = Vec::new();
            v.push('/');
            v
        } else {
            let mut v = pc.clone();
            v.push('/');
            v
        };
        proof {
            if pc@.len() == 1 && pc@[0] == '/' {
                assert(pc@ =~= seq!['/']);
            }
            assert(prefix@ =~= child_prefix(path@));
        }
        let ghost keys = paths_of(self.tree());
        let mut children: Vec<Vec<char>> = Vec::new();
        let mut k: usize = 0;
        assert(keys.take(0) =~= Seq::<Seq<char>>::empty());
        while k < self.objects.len()
            invariant
                keys == paths_of(self.tree()),
                keys.len() == self.objects@.len(),
                k <= keys.len(),
                pc@ == path@,
                prefix@ == child_prefix(path@),
                Seq::new(children@.len(), |j: int| children@[j]@) == children_of(keys.take(k as int), path@),
            decreases self.objects.len() - k,
        {
            proof {
                assert(keys.take(k + 1).drop_last() =~= keys.take(k as int));
                assert(keys.take(k + 1).last() == keys[k as int]);
                assert(keys[k as int] == self.objects@[k as int].0@);
            }
            let cand = chars_of(self.objects[k].0.as_str());
            let same = crate::text::chars_eq(cand.as_slice(), pc.as_slice());
            let under = crate::text::starts_with(cand.as_slice(), prefix.as_slice());
            if !same && under {
                let start = prefix.len();
                let end = match crate::text::find_char_from(cand.as_slice(), start, '/') {
                    Some(j) => j,
                    None => cand.len(),
                };
                let child = crate::text::slice_to_vec_range(cand.as_slice(), start, end);
                proof {
                    let rest = cand@.skip(start as int);
                    lemma_first_segment(cand@, start as int, end as int);
                    assert(child@ == first_segment(rest));
                }
                if child.len() > 0 && !contains_name(&children, &child) {
                    let ghost before = children@;
                    children.push(child);
                    assert(Seq::new(children@.len(), |j: int| children@[j]@) =~= Seq::new(
                        before.len(),
                        |j: int| before[j]@,
                    ).push(children@.last()@));
                }
            }
            k = k + 1;
        }
        assert(keys.take(k as int) =~= keys);
        let ghost cs = Seq::new(children@.len(), |j: int| children@[j]@);
        let mut m: usize = 0;
        let ghost head = xml@;
        assert(cs.take(0) =~= Seq::<Seq<char>>::empty());
        while m < children.len()
            invariant
                cs == Seq::new(children@.len(), |j: int| children@[j]@),
                m <= cs.len(),
                xml@ == head + nodes_text(cs.take(m as int)),
            decreases children.len() - m,
        {
            proof {
                assert(cs.take(m + 1).drop_last() =~= cs.take(m as int));
                assert(cs.take(m + 1).last() == cs[m as int]);
            }
            let name = string_of(children[m].as_slice());
            let a = concat_str(xml.as_str(), "  <node name=\"");
            let b = concat_str(a.as_str(), name.as_str());
            xml = concat_str(b.as_str(), "\"/>\n");
            m = m + 1;
        }
        assert(cs.take(m as int) =~= cs);
        concat_str(xml.as_str(), "</node>\n")
    }
}

/// The characters of `s` from `start` up to the first `/` after it (or the
/// end) are the first segment of `s` from `start`.
proof fn lemma_first_segment(s: Seq<char>, start: int, end: int)
    requires
        0 <= start <= end <= s.len(),
        forall|j: int| start <= j < end ==> s[j] != '/',
        end == s.len() || s[end] == '/',
    ensures
        s.subrange(start, end) == first_segment(s.skip(start)),
{
    let rest = s.skip(start);
    if end < s.len() {
        assert(rest[end - start] == '/');
        assert forall|j: int| 0 <= j < end - start implies rest[j] != '/' by {
            assert(rest[j] == s[start + j]);
        }
        crate::text::lemma_index_of_unique(rest, '/', end - start);
        assert(s.subrange(start, end) =~= rest.take(end - start));
    } else {
        assert forall|j: int| 0 <= j < rest.len() implies rest[j] != '/' by {
            assert(rest[j] == s[start + j]);
        }
        crate::text::lemma_index_of_none(rest, '/');
        assert(s.subrange(start, end) =~= rest);
    }
}

} // verus!
