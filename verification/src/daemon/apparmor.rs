//! AppArmor mediation of the bus: the query the kernel is asked, and what
//! its answer decides. Asking the kernel itself is the caller's part.

use crate::text::concat_str;
use vstd::prelude::*;
use vstd::string::StringSliceAdditionalSpecFns;

verus! {

broadcast use vstd::std_specs::vec::group_vec_axioms;

/// The AppArmor class of D-Bus queries.
pub const AA_CLASS_DBUS: u8 = 32;
/// Permission to send.
pub const AA_DBUS_SEND: u32 = 2;
/// Permission to receive.
pub const AA_DBUS_RECEIVE: u32 = 4;
/// Permission to own a name.
pub const AA_DBUS_BIND: u32 = 64;

/// The bytes of an optional text.
pub open spec fn opt_bytes(o: Option<&str>) -> Option<Seq<u8>> {
    match o {
        Some(s) => Some(s.spec_bytes()),
        None => None,
    }
}

/// One past the last given part, or 0 where none is given.
pub open spec fn parts_end(ps: Seq<Option<Seq<u8>>>) -> nat
    decreases ps.len(),
{
    if ps.len() == 0 {
        0
    } else if ps.last() is Some {
        ps.len()
    } else {
        parts_end(ps.drop_last())
    }
}

/// Each part behind a NUL byte, a missing part empty.
pub open spec fn parts_bytes(ps: Seq<Option<Seq<u8>>>) -> Seq<u8>
    decreases ps.len(),
{
    if ps.len() == 0 {
        Seq::empty()
    } else {
        parts_bytes(ps.drop_last()) + seq![0u8] + match ps.last() {
            Some(b) => b,
            None => Seq::empty(),
        }
    }
}

/// The query AppArmor is asked: six NUL bytes, the label and a NUL, the
/// D-Bus class, the bus type, then the name, peer label, path, interface
/// and member, each behind a NUL, up to the last one given.
pub open spec fn query_bytes(
    con: Seq<u8>,
    bustype: Seq<u8>,
    name: Option<Seq<u8>>,
    dst_con: Option<Seq<u8>>,
    path: Option<Seq<u8>>,
    interface: Option<Seq<u8>>,
    member: Option<Seq<u8>>,
) -> Seq<u8> {
    let ps = seq![name, dst_con, path, interface, member];
    Seq::new(6, |i: int| 0u8) + con + seq![0u8, AA_CLASS_DBUS] + bustype + parts_bytes(ps.take(parts_end(ps) as int))
}

fn push_all(v: &mut Vec<u8>, b: &[u8])
    ensures
        final(v)@ == old(v)@ + b@,
{
    let mut i: usize = 0;
    let ghost start = v@;
    while i < b.len()
        invariant
            i <= b@.len(),
            v@ == start + b@.take(i as int),
        decreases b.len() - i,
    {
        v.push(b[i]);
        assert(v@ =~= start + b@.take(i + 1));
        i = i + 1;
    }
    assert(b@.take(i as int) =~= b@);
}

proof fn lemma_parts_end(ps: Seq<Option<Seq<u8>>>)
    ensures
        parts_end(ps) <= ps.len(),
        forall|j: int| parts_end(ps) <= j < ps.len() ==> #[trigger] ps[j] is None,
        parts_end(ps) > 0 ==> ps[parts_end(ps) - 1] is Some,
    decreases ps.len(),
{
    if ps.len() > 0 && ps.last() is None {
        lemma_parts_end(ps.drop_last());
        assert forall|j: int| parts_end(ps) <= j < ps.len() implies #[trigger] ps[j] is None by {
            if j < ps.len() - 1 {
                assert(ps[j] == ps.drop_last()[j]);
            }
        }
    }
}

/// The query AppArmor is asked about a D-Bus operation.
pub fn build_query(
    con: &str,
    bustype: &str,
    name: Option<&str>,
    dst_con: Option<&str>,
    path: Option<&str>,
    interface: Option<&str>,
    member: Option<&str>,
) -> (q: Vec<u8>)
    ensures
        q@ == query_bytes(
            con.spec_bytes(),
            bustype.spec_bytes(),
            opt_bytes(name),
            opt_bytes(dst_con),
            opt_bytes(path),
            opt_bytes(interface),
            opt_bytes(member),
        ),
{
    let mut query: Vec<u8> = Vec::new();
    let mut k: usize = 0;
    while k < 6
        invariant
            k <= 6,
            query@ == Seq::new(k as nat, |i: int| 0u8),
        decreases 6 - k,
    {
        query.push(0);
        assert(query@ =~= Seq::new((k + 1) as nat, |i: int| 0u8));
        k = k + 1;
    }
    push_all(&mut query, con.as_bytes());
    query.push(0);
    query.push(AA_CLASS_DBUS);
    push_all(&mut query, bustype.as_bytes());
    let parts: [Option<&str>; 5] = [name, dst_con, path, interface, member];
    let ghost ps = seq![opt_bytes(name), opt_bytes(dst_con), opt_bytes(path), opt_bytes(interface), opt_bytes(member)];
    let mut end: usize = 5;
    proof {
        assert(ps.take(5) =~= ps);
    }
    while end > 0 && parts[end - 1].is_none()
        invariant
            end <= 5,
            parts_end(ps) == parts_end(ps.take(end as int)),
            ps == seq![opt_bytes(parts@[0]), opt_bytes(parts@[1]), opt_bytes(parts@[2]), opt_bytes(parts@[3]), opt_bytes(parts@[4])],
            parts@.len() == 5,
        decreases end,
    {
        proof {
            assert(ps.take(end as int).drop_last() =~= ps.take(end - 1));
        }
        end = end - 1;
    }
    proof {
        if end > 0 {
            assert(ps.take(end as int).last() is Some);
        }
        assert(parts_end(ps.take(end as int)) == end);
    }
    let ghost head = query@;
    let mut i: usize = 0;
    assert(ps.take(0) =~= Seq::<Option<Seq<u8>>>::empty());
    while i < end
        invariant
            i <= end <= 5,
            parts@.len() == 5,
            ps == seq![opt_bytes(parts@[0]), opt_bytes(parts@[1]), opt_bytes(parts@[2]), opt_bytes(parts@[3]), opt_bytes(parts@[4])],
            query@ == head + parts_bytes(ps.take(i as int)),
        decreases end - i,
    {
        proof {
            assert(ps.take(i + 1).drop_last() =~= ps.take(i as int));
            assert(ps.take(i + 1).last() == ps[i as int]);
        }
        query.push(0);
        match parts[i] {
            Some(v) => {
                push_all(&mut query, v.as_bytes());
            },
            None => {},
        }
        assert(query@ =~= head + parts_bytes(ps.take(i + 1)));
        i = i + 1;
    }
    query
}

/// What a permission check does first.
pub enum PermissionCheck {
    /// Allowed without asking: mediation is off, or the label is
    /// unconfined.
    Allowed,
    /// Ask AppArmor with this query.
    Query(Vec<u8>),
}

/// Whether a label is the unconfined one (a missing label counts as it).
pub open spec fn unconfined(con: Option<&str>) -> bool {
    match con {
        Some(c) => c@ == "unconfined"@,
        None => true,
    }
}

/// The first step of checking a D-Bus operation of the peer labelled `con`:
/// nothing to ask where mediation is off or the peer is unconfined, else
/// the query to ask.
pub fn begin_permission_check(
    enabled: bool,
    con: Option<&str>,
    dst_con: Option<&str>,
    bustype: &str,
    name: Option<&str>,
    path: Option<&str>,
    interface: Option<&str>,
    member: Option<&str>,
) -> (r: PermissionCheck)
    ensures
        (!enabled || unconfined(con)) ==> r is Allowed,
        (enabled && !unconfined(con)) ==> (r matches PermissionCheck::Query(q) && q@ == query_bytes(
            con->Some_0.spec_bytes(),
            bustype.spec_bytes(),
            opt_bytes(name),
            opt_bytes(dst_con),
            opt_bytes(path),
            opt_bytes(interface),
            opt_bytes(member),
        )),
{
    if !enabled {
        return PermissionCheck::Allowed;
    }
    let c = match con {
        Some(c) => c,
        None => {
            return PermissionCheck::Allowed;
        },
    };
    if crate::text::str_eq(c, "unconfined") {
        return PermissionCheck::Allowed;
    }
    PermissionCheck::Query(build_query(c, bustype, name, dst_con, path, interface, member))
}

/// The text ` key="value"` where a value is given.
pub open spec fn avc_part(key: Seq<char>, v: Option<&str>) -> Seq<char> {
    match v {
        Some(x) => " "@ + key + "=\""@ + x@ + "\""@,
        None => Seq::empty(),
    }
}

/// The audit record of a denied operation.
pub open spec fn avc_message(
    mask: u32,
    bustype: Seq<char>,
    name: Option<&str>,
    path: Option<&str>,
    interface: Option<&str>,
    member: Option<&str>,
    dst_con: Option<&str>,
) -> Seq<char> {
    let op = if mask == AA_DBUS_BIND {
        "dbus_bind"@
    } else {
        "dbus_method_call"@
    };
    let info = if mask == AA_DBUS_BIND {
        "bind"@
    } else if mask == AA_DBUS_SEND {
        "send"@
    } else {
        "receive"@
    };
    "apparmor=\"DENIED\" operation=\""@ + op + "\" info=\""@ + info + "\" bus=\""@ + bustype + "\""@ + avc_part(
        "name"@,
        name,
    ) + avc_part("path"@, path) + avc_part("interface"@, interface) + avc_part("member"@, member) + avc_part(
        "peer_label"@,
        dst_con,
    )
}

fn push_part(s: &mut String, key: &str, v: Option<&str>)
    ensures
        final(s)@ == old(s)@ + avc_part(key@, v),
{
    match v {
        Some(x) => {
            s.append(" ");
            s.append(key);
            s.append("=\"");
            s.append(x);
            s.append("\"");
        },
        None => {},
    }
}

/// The second step: the verdict on AppArmor's answer (`None` where asking
/// failed, which lets the operation through), and the audit record to log
/// where it denies.
pub fn finish_permission_check(
    mask: u32,
    answer: Option<bool>,
    bustype: &str,
    name: Option<&str>,
    path: Option<&str>,
    interface: Option<&str>,
    member: Option<&str>,
    dst_con: Option<&str>,
) -> (r: (bool, Option<String>))
    ensures
        answer != Some(false) ==> r.0 && r.1 is None,
        answer == Some(false) ==> !r.0 && (r.1 matches Some(m) && m@ == avc_message(
            mask,
            bustype@,
            name,
            path,
            interface,
            member,
            dst_con,
        )),
{
    match answer {
        Some(false) => {},
        _ => {
            return (true, None);
        },
    }
    let op = if mask == AA_DBUS_BIND {
        "dbus_bind"
    } else {
        "dbus_method_call"
    };
    let info = if mask == AA_DBUS_BIND {
        "bind"
    } else if mask == AA_DBUS_SEND {
        "send"
    } else {
        "receive"
    };
    let mut m = concat_str("apparmor=\"DENIED\" operation=\"", op);
    m.append("\" info=\"");
    m.append(info);
    m.append("\" bus=\"");
    m.append(bustype);
    m.append("\"");
    push_part(&mut m, "name", name);
    push_part(&mut m, "path", path);
    push_part(&mut m, "interface", interface);
    push_part(&mut m, "member", member);
    push_part(&mut m, "peer_label", dst_con);
    (false, Some(m))
}

} // verus!
