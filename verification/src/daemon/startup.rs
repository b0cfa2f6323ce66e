//! What the daemon decides when it starts: the addresses it listens on,
//! whether it writes a pid file, the bus id it keeps, and how it starts
//! services. Binding, forking and the files themselves are its own part.

use crate::addr::{parse_one_spec, Address, AddressSpec};
use crate::config::PathsConfig;
use crate::daemon::activation::SpawnStrategy;
use crate::daemon::bus::BusKind;
use crate::error::CoreError;
use crate::text::{chars_of, chars_eq, split_chars, split_on, trim, string_of};
use vstd::prelude::*;

verus! {

/// Whether a path starts at the root.
pub open spec fn rooted(s: Seq<char>) -> bool {
    s.len() > 0 && s[0] == '/'
}

/// The components of a path, from its pieces between slashes: empty
/// pieces and `.` go, but for a `.` that starts a relative path.
pub open spec fn kept_parts(ps: Seq<Seq<char>>) -> Seq<Seq<char>>
    decreases ps.len(),
{
    if ps.len() == 0 {
        Seq::empty()
    } else {
        let p = ps.last();
        if p.len() > 0 && (p != seq!['.'] || ps.len() == 1) {
            kept_parts(ps.drop_last()).push(p)
        } else {
            kept_parts(ps.drop_last())
        }
    }
}

/// Two paths name the same place component by component.
pub open spec fn same_path(a: Seq<char>, b: Seq<char>) -> bool {
    rooted(a) == rooted(b) && kept_parts(split_on(a, '/')) == kept_parts(split_on(b, '/'))
}

fn components(s: &[char]) -> (r: Vec<Vec<char>>)
    ensures
        r@.len() == kept_parts(split_on(s@, '/')).len(),
        forall|k: int| 0 <= k < r@.len() ==> #[trigger] r@[k]@ == kept_parts(split_on(s@, '/'))[k],
{
    let parts = split_chars(s, '/');
    let ghost ps = split_on(s@, '/');
    let mut out: Vec<Vec<char>> = Vec::new();
    let mut i: usize = 0;
    assert(ps.take(0) =~= Seq::<Seq<char>>::empty());
    while i < parts.len()
        invariant
            parts@.len() == ps.len(),
            forall|k: int| 0 <= k < parts@.len() ==> #[trigger] parts@[k]@ == ps[k],
            i <= ps.len(),
            out@.len() == kept_parts(ps.take(i as int)).len(),
            forall|k: int| 0 <= k < out@.len() ==> #[trigger] out@[k]@ == kept_parts(ps.take(i as int))[k],
        decreases parts.len() - i,
    {
        proof {
            assert(ps.take(i + 1).drop_last() =~= ps.take(i as int));
            assert(ps.take(i + 1).last() == ps[i as int]);
        }
        let p = &parts[i];
        let dot = p.len() == 1 && p[0] == '.';
        proof {
            if p@.len() == 1 {
                assert(dot == (p@ == seq!['.'])) by {
                    if p@[0] == '.' {
                        assert(p@ =~= seq!['.']);
                    }
                }
            } else {
                assert(p@ != seq!['.']);
            }
        }
        if p.len() > 0 && (!dot || i == 0) {
            let ghost before = out@;
            out.push(p.clone());
            assert(out@ == before.push(out@.last()));
        }
        i = i + 1;
    }
    assert(ps.take(i as int) =~= ps);
    out
}

/// Whether the paths `a` and `b` name the same place, component by
/// component (`//` and inner `.` make no difference).
pub fn paths_equal(a: &str, b: &str) -> (r: bool)
    ensures
        r == same_path(a@, b@),
{
    let ca = chars_of(a);
    let cb = chars_of(b);
    let ra = ca.len() > 0 && ca[0] == '/';
    let rb = cb.len() > 0 && cb[0] == '/';
    if ra != rb {
        return false;
    }
    let pa = components(ca.as_slice());
    let pb = components(cb.as_slice());
    let ghost ka = kept_parts(split_on(a@, '/'));
    let ghost kb = kept_parts(split_on(b@, '/'));
    if pa.len() != pb.len() {
        return false;
    }
    let mut i: usize = 0;
    while i < pa.len()
        invariant
            ka == kept_parts(split_on(a@, '/')),
            kb == kept_parts(split_on(b@, '/')),
            pa@.len() == ka.len(),
            pb@.len() == kb.len(),
            ka.len() == kb.len(),
            forall|k: int| 0 <= k < pa@.len() ==> #[trigger] pa@[k]@ == ka[k],
            forall|k: int| 0 <= k < pb@.len() ==> #[trigger] pb@[k]@ == kb[k],
            i <= ka.len(),
            forall|k: int| 0 <= k < i ==> ka[k] == kb[k],
        decreases pa.len() - i,
    {
        if !chars_eq(pa[i].as_slice(), pb[i].as_slice()) {
            assert(ka[i as int] != kb[i as int]);
            return false;
        }
        i = i + 1;
    }
    assert(ka =~= kb);
    true
}

/// Where the daemon listens, and whether it writes its pid file.
#[derive(Debug)]
pub struct ListenPlan {
    pub addresses: Vec<Address>,
    pub write_pid: bool,
}

/// The addresses a plan listens on.
pub open spec fn addresses_view(v: Seq<Address>) -> Seq<AddressSpec> {
    Seq::new(v.len(), |i: int| v[i]@)
}

/// Where a bus of kind `kind` listens: at the address it was given, else
/// a system bus at its socket and, where that is another place, at the
/// legacy socket too, else a session bus at its configured address. A
/// system bus writes a pid file.
pub fn listen_plan(kind: BusKind, address: Option<&str>, paths: &PathsConfig, session_listen: &str) -> (r: Result<
    ListenPlan,
    CoreError,
>)
    ensures
        match address {
            Some(a) => match parse_one_spec(a@) {
                Ok(x) => r matches Ok(p) && addresses_view(p.addresses@) == seq![x] && p.write_pid == (kind
                    == BusKind::System),
                Err(t) => r matches Err(e) && e matches CoreError::InvalidAddress(m) && m@ == t,
            },
            None => if kind == BusKind::System {
                r matches Ok(p) && p.write_pid && addresses_view(p.addresses@) == if same_path(
                    paths.system_socket@,
                    paths.legacy_system_socket@,
                ) {
                    seq![AddressSpec::UnixPath(paths.system_socket@)]
                } else {
                    seq![
                        AddressSpec::UnixPath(paths.system_socket@),
                        AddressSpec::UnixPath(paths.legacy_system_socket@),
                    ]
                }
            } else {
                match parse_one_spec(session_listen@) {
                    Ok(x) => r matches Ok(p) && addresses_view(p.addresses@) == seq![x] && !p.write_pid,
                    Err(t) => r matches Err(e) && e matches CoreError::InvalidAddress(m) && m@ == t,
                }
            },
        },
{
    let mut addresses: Vec<Address> = Vec::new();
    match address {
        Some(a) => {
            let x = Address::parse_one(a)?;
            addresses.push(x);
            let p = ListenPlan { addresses, write_pid: kind == BusKind::System };
            assert(addresses_view(p.addresses@) =~= seq![x@]);
            Ok(p)
        },
        None => match kind {
            BusKind::System => {
                let primary = paths.system_socket();
                let legacy = paths.legacy_system_socket();
                let differs = !paths_equal(primary.as_str(), legacy.as_str());
                addresses.push(Address::UnixPath(primary));
                if differs {
                    addresses.push(Address::UnixPath(legacy));
                }
                let p = ListenPlan { addresses, write_pid: true };
                assert(addresses_view(p.addresses@) =~= if !differs {
                    seq![AddressSpec::UnixPath(paths.system_socket@)]
                } else {
                    seq![
                        AddressSpec::UnixPath(paths.system_socket@),
                        AddressSpec::UnixPath(paths.legacy_system_socket@),
                    ]
                });
                Ok(p)
            },
            BusKind::Session => {
                let x = Address::parse_one(session_listen)?;
                addresses.push(x);
                let p = ListenPlan { addresses, write_pid: false };
                assert(addresses_view(p.addresses@) =~= seq![x@]);
                Ok(p)
            },
        },
    }
}

/// The bus id kept in the machine-id file (`contents`, where it could be
/// read): its text without surrounding white space, where that is not
/// empty. Otherwise the daemon makes a new one and writes it.
pub fn stored_machine_id(contents: Option<&str>) -> (r: Option<String>)
    ensures
        match contents {
            Some(c) => if trim(c@).len() > 0 {
                r matches Some(s) && s@ == trim(c@)
            } else {
                r is None
            },
            None => r is None,
        },
{
    match contents {
        Some(c) => {
            let cs = chars_of(c);
            let t = crate::text::trim_chars(cs.as_slice());
            if t.len() > 0 {
                Some(string_of(t.as_slice()))
            } else {
                None
            }
        },
        None => None,
    }
}

/// How a service is started: through the launch helper on a system bus
/// where the helper is there (`helper_exists`), else directly.
pub fn activation_strategy<'a>(kind: BusKind, helper_path: &'a str, helper_exists: bool) -> (s: SpawnStrategy<'a>)
    ensures
        kind == BusKind::System && helper_exists ==> s == SpawnStrategy::ViaLaunchHelper(helper_path),
        !(kind == BusKind::System && helper_exists) ==> s == SpawnStrategy::Direct,
{
    if kind == BusKind::System && helper_exists {
        SpawnStrategy::ViaLaunchHelper(helper_path)
    } else {
        SpawnStrategy::Direct
    }
}

} // verus!
