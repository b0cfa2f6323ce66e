//! SASL mechanism names.

use vstd::prelude::*;

verus! {

/// The SASL mechanisms this implementation speaks.
#[derive(Debug, Clone, Copy, PartialEq, Eq, Hash, Structural)]
pub enum Mechanism {
    External,
    DbusCookieSha1,
    Anonymous,
}

impl Mechanism {
    /// The protocol name of the mechanism.
    pub open spec fn name_spec(self) -> Seq<char> {
        match self {
            Mechanism::External => "EXTERNAL"@,
            Mechanism::DbusCookieSha1 => "DBUS_COOKIE_SHA1"@,
            Mechanism::Anonymous => "ANONYMOUS"@,
        }
    }

    /// The mechanism named `s`.
    pub open spec fn parse_spec(s: Seq<char>) -> Option<Mechanism> {
        if s == "EXTERNAL"@ {
            Some(Mechanism::External)
        } else if s == "DBUS_COOKIE_SHA1"@ {
            Some(Mechanism::DbusCookieSha1)
        } else if s == "ANONYMOUS"@ {
            Some(Mechanism::Anonymous)
        } else {
            None
        }
    }

    /// The protocol name of the mechanism.
    pub fn name(self) -> (s: &'static str)
        ensures
            s@ == self.name_spec(),
    {
        match self {
            Mechanism::External => "EXTERNAL",
            Mechanism::DbusCookieSha1 => "DBUS_COOKIE_SHA1",
            Mechanism::Anonymous => "ANONYMOUS",
        }
    }

    /// The mechanism with protocol name `s`.
    pub fn parse(s: &str) -> (r: Option<Mechanism>)
        ensures
            r == Mechanism::parse_spec(s@),
    {
        if crate::text::str_eq(s, "EXTERNAL") {
            Some(Mechanism::External)
        } else if crate::text::str_eq(s, "DBUS_COOKIE_SHA1") {
            Some(Mechanism::DbusCookieSha1)
        } else if crate::text::str_eq(s, "ANONYMOUS") {
            Some(Mechanism::Anonymous)
        } else {
            None
        }
    }
}

/// Parsing the name of a mechanism gives the mechanism back.
pub proof fn parse_mechanism_name(m: Mechanism)
    ensures
        Mechanism::parse_spec(m.name_spec()) == Some(m),
{
    reveal_strlit("EXTERNAL");
    reveal_strlit("DBUS_COOKIE_SHA1");
    reveal_strlit("ANONYMOUS");
    assert("EXTERNAL"@ != "DBUS_COOKIE_SHA1"@ && "EXTERNAL"@ != "ANONYMOUS"@) by {
        assert("EXTERNAL"@.len() != "DBUS_COOKIE_SHA1"@.len());
        assert("EXTERNAL"@.len() != "ANONYMOUS"@.len());
    }
    assert("DBUS_COOKIE_SHA1"@ != "ANONYMOUS"@) by {
        assert("DBUS_COOKIE_SHA1"@.len() != "ANONYMOUS"@.len());
    }
}

/// The names of `ms` joined by single spaces.
pub open spec fn names_joined(ms: Seq<Mechanism>) -> Seq<char>
    decreases ms.len(),
{
    if ms.len() == 0 {
        Seq::empty()
    } else if ms.len() == 1 {
        ms[0].name_spec()
    } else {
        names_joined(ms.drop_last()) + " "@ + ms.last().name_spec()
    }
}

/// The names of `mechs` joined by single spaces, as `REJECTED` lists them.
pub fn mechanism_list_string(mechs: &[Mechanism]) -> (s: String)
    ensures
        s@ == names_joined(mechs@),
{
    let mut out = String::new();
    let mut i: usize = 0;
    proof {
        reveal_strlit(" ");
        assert(mechs@.take(0) =~= Seq::<Mechanism>::empty());
    }
    while i < mechs.len()
        invariant
            i <= mechs@.len(),
            out@ == names_joined(mechs@.take(i as int)),
        decreases mechs.len() - i,
    {
        proof {
            assert(mechs@.take(i + 1).drop_last() =~= mechs@.take(i as int));
        }
        if i == 0 {
            out = mechs[i].name().to_owned();
            assert(mechs@.take(1) =~= seq![mechs@[0]]);
        } else {
            out = crate::text::concat_str(out.as_str(), " ");
            out = crate::text::concat_str(out.as_str(), mechs[i].name());
        }
        i = i + 1;
    }
    assert(mechs@.take(i as int) =~= mechs@);
    out
}

} // verus!
