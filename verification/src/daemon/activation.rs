//! Services that the bus can start on demand: their definitions, the
//! `.service` (INI) form of a definition, and the table of them by bus name.

use crate::text::{
    char_is_space, chars_of, is_space, push_char, slice_to_vec_range, split_chars, split_on,
    string_of, trim, trim_chars,
};
use vstd::prelude::*;

verus! {

broadcast use vstd::std_specs::vec::group_vec_axioms;

/// How often the bus looks whether a started service has taken its name,
/// in milliseconds.
pub const DEFAULT_POLL_INTERVAL_MS: u64 = 50;

/// A service the bus can start: the bus name it provides, the program and
/// its arguments, the user to run it as, and extra environment variables.
#[derive(Debug, Clone)]
pub struct ServiceDef {
    pub name: String,
    pub program: String,
    pub args: Vec<String>,
    pub user: Option<String>,
    pub environment: Vec<(String, String)>,
}

/// The model of a service definition.
pub struct ServiceDefSpec {
    pub name: Seq<char>,
    pub program: Seq<char>,
    pub args: Seq<Seq<char>>,
    pub user: Option<Seq<char>>,
    pub environment: Seq<(Seq<char>, Seq<char>)>,
}

impl ServiceDefSpec {
    /// No environment variable is set twice.
    pub open spec fn wf(self) -> bool {
        crate::daemon::registry::keys_unique(self.environment)
    }
}

/// The texts of some strings.
pub open spec fn texts(v: Seq<String>) -> Seq<Seq<char>> {
    Seq::new(v.len(), |i: int| v[i]@)
}

/// The texts of some pairs of strings.
pub open spec fn pair_texts(v: Seq<(String, String)>) -> Seq<(Seq<char>, Seq<char>)> {
    Seq::new(v.len(), |i: int| (v[i].0@, v[i].1@))
}

/// The text of an optional string.
pub open spec fn opt_text(o: Option<String>) -> Option<Seq<char>> {
    match o {
        Some(s) => Some(s@),
        None => None,
    }
}

impl View for ServiceDef {
    type V = ServiceDefSpec;

    open spec fn view(&self) -> ServiceDefSpec {
        ServiceDefSpec {
            name: self.name@,
            program: self.program@,
            args: texts(self.args@),
            user: opt_text(self.user),
            environment: pair_texts(self.environment@),
        }
    }
}

fn clone_strings(v: &Vec<String>) -> (r: Vec<String>)
    ensures
        texts(r@) == texts(v@),
{
    let mut out: Vec<String> = Vec::new();
    let mut i: usize = 0;
    while i < v.len()
        invariant
            i <= v@.len(),
            texts(out@) == texts(v@).take(i as int),
        decreases v.len() - i,
    {
        let ghost before = out@;
        let x = v[i].clone();
        out.push(x);
        assert(out@ == before.push(x));
        assert(texts(out@) =~= texts(v@).take(i + 1)) by {
            assert(texts(before).len() == i);
            assert forall|j: int| 0 <= j < i implies texts(out@)[j] == texts(v@).take(i + 1)[j] by {
                assert(out@[j] == before[j]);
                assert(texts(before)[j] == texts(v@).take(i as int)[j]);
            }
        }
        i = i + 1;
    }
    assert(texts(v@).take(i as int) =~= texts(v@));
    out
}

fn clone_pairs(v: &Vec<(String, String)>) -> (r: Vec<(String, String)>)
    ensures
        pair_texts(r@) == pair_texts(v@),
{
    let mut out: Vec<(String, String)> = Vec::new();
    let mut i: usize = 0;
    while i < v.len()
        invariant
            i <= v@.len(),
            pair_texts(out@) == pair_texts(v@).take(i as int),
        decreases v.len() - i,
    {
        let ghost before = out@;
        let x = (v[i].0.clone(), v[i].1.clone());
        out.push(x);
        assert(out@ == before.push(x));
        assert(pair_texts(out@) =~= pair_texts(v@).take(i + 1)) by {
            assert(pair_texts(before).len() == i);
            assert forall|j: int| 0 <= j < i implies pair_texts(out@)[j] == pair_texts(v@).take(i + 1)[j] by {
                assert(out@[j] == before[j]);
                assert(pair_texts(before)[j] == pair_texts(v@).take(i as int)[j]);
            }
        }
        i = i + 1;
    }
    assert(pair_texts(v@).take(i as int) =~= pair_texts(v@));
    out
}

impl ServiceDef {
    /// A copy of this definition.
    pub fn duplicate(&self) -> (r: ServiceDef)
        ensures
            r@ == self@,
    {
        ServiceDef {
            name: self.name.clone(),
            program: self.program.clone(),
            args: clone_strings(&self.args),
            user: match &self.user {
                Some(u) => Some(u.clone()),
                None => None,
            },
            environment: clone_pairs(&self.environment),
        }
    }
}

// ---------------------------------------------------------------------------
// The INI form of a definition
// ---------------------------------------------------------------------------

/// Whether `a` and `b` are the same letter but for ASCII case.
pub open spec fn char_eq_ignore_case(a: char, b: char) -> bool {
    ||| a == b
    ||| ('A' <= a <= 'Z' && a as u32 + 32 == b as u32)
    ||| ('A' <= b <= 'Z' && b as u32 + 32 == a as u32)
}

/// Whether two texts are equal but for ASCII case.
pub open spec fn eq_ignore_case(a: Seq<char>, b: Seq<char>) -> bool {
    a.len() == b.len() && forall|i: int| 0 <= i < a.len() ==> char_eq_ignore_case(#[trigger] a[i], b[i])
}

fn eq_ignore_case_chars(a: &[char], lit: &str) -> (r: bool)
    ensures
        r == eq_ignore_case(a@, lit@),
{
    let b = chars_of(lit);
    if a.len() != b.len() {
        return false;
    }
    let mut i: usize = 0;
    while i < a.len()
        invariant
            i <= a@.len(),
            a@.len() == b@.len(),
            b@ == lit@,
            forall|j: int| 0 <= j < i ==> char_eq_ignore_case(#[trigger] a@[j], b@[j]),
        decreases a.len() - i,
    {
        let x = a[i];
        let y = b[i];
        let xu = x as u32;
        let yu = y as u32;
        let same = x == y || ('A' <= x && x <= 'Z' && xu + 32 == yu) || ('A' <= y && y <= 'Z' && yu + 32 == xu);
        if !same {
            return false;
        }
        i = i + 1;
    }
    true
}

/// What the INI reader knows after some lines: the `Name`, `Exec` and
/// `User` keys (`Exec` as `program`) seen in the `[D-BUS Service]` section, and whether it is in
/// that section.
pub struct IniState {
    pub name: Option<Seq<char>>,
    pub program: Option<Seq<char>>,
    pub user: Option<Seq<char>>,
    pub in_section: bool,
}

/// The first index of `c` in `s`.
pub open spec fn find(s: Seq<char>, c: char) -> Option<int> {
    crate::text::index_of(s, c)
}

/// The INI reader after one more line: blank lines and comments (`#`, `;`)
/// are passed over; `[...]` starts a section; `key = value` inside the
/// service section sets `Name`, `Exec` or `User` (keys in any case).
pub open spec fn ini_step(st: IniState, raw: Seq<char>) -> IniState {
    let line = trim(raw);
    if line.len() == 0 || line[0] == '#' || line[0] == ';' {
        st
    } else if line[0] == '[' && line.last() == ']' {
        IniState {
            in_section: eq_ignore_case(trim(line.subrange(1, line.len() - 1)), "D-BUS Service"@),
            ..st
        }
    } else if st.in_section {
        match find(line, '=') {
            Some(pos) => {
                let key = trim(line.take(pos));
                let val = trim(line.skip(pos + 1));
                if eq_ignore_case(key, "Name"@) {
                    IniState { name: Some(val), ..st }
                } else if eq_ignore_case(key, "Exec"@) {
                    IniState { program: Some(val), ..st }
                } else if eq_ignore_case(key, "User"@) {
                    IniState { user: Some(val), ..st }
                } else {
                    st
                }
            },
            None => st,
        }
    } else {
        st
    }
}

/// The INI reader after the lines `ls`.
pub open spec fn ini_fold(ls: Seq<Seq<char>>) -> IniState
    decreases ls.len(),
{
    if ls.len() == 0 {
        IniState { name: None, program: None, user: None, in_section: false }
    } else {
        ini_step(ini_fold(ls.drop_last()), ls.last())
    }
}

/// The words of an `Exec` line read so far: the finished words, the word
/// being read, and whether a `"` is open.
pub open spec fn exec_words_state(s: Seq<char>) -> (Seq<Seq<char>>, Seq<char>, bool)
    decreases s.len(),
{
    if s.len() == 0 {
        (Seq::empty(), Seq::empty(), false)
    } else {
        let st = exec_words_state(s.drop_last());
        let c = s.last();
        if c == '"' {
            (st.0, st.1, !st.2)
        } else if is_space(c) && !st.2 {
            if st.1.len() > 0 {
                (st.0.push(st.1), Seq::empty(), st.2)
            } else {
                st
            }
        } else {
            (st.0, st.1.push(c), st.2)
        }
    }
}

/// The words of an `Exec` line: split at white space outside `"` quotes,
/// the quotes themselves dropped.
pub open spec fn exec_words(s: Seq<char>) -> Seq<Seq<char>> {
    let st = exec_words_state(s);
    if st.1.len() > 0 {
        st.0.push(st.1)
    } else {
        st.0
    }
}

/// The service an INI `.service` text defines: it needs a `Name` and an
/// `Exec` with at least one word in its `[D-BUS Service]` section.
pub open spec fn ini_service(content: Seq<char>) -> Option<ServiceDefSpec> {
    let st = ini_fold(split_on(content, '\n'));
    match st.name {
        Some(n) => match st.program {
            Some(e) => {
                let ws = exec_words(e);
                if ws.len() == 0 {
                    None
                } else {
                    Some(
                        ServiceDefSpec {
                            name: n,
                            program: ws[0],
                            args: ws.skip(1),
                            user: st.user,
                            environment: Seq::empty(),
                        },
                    )
                }
            },
            None => None,
        },
        None => None,
    }
}

fn find_char(s: &[char], c: char) -> (r: Option<usize>)
    ensures
        match find(s@, c) {
            Some(i) => r == Some(i as usize) && 0 <= i < s@.len(),
            None => r is None,
        },
{
    proof {
        crate::text::lemma_index_of(s@, c);
    }
    let r = crate::text::find_char_from(s, 0, c);
    proof {
        assert(s@.skip(0) =~= s@);
        match r {
            Some(i) => {
                crate::text::lemma_index_of_unique(s@, c, i as int);
            },
            None => {
                crate::text::lemma_index_of_none(s@, c);
            },
        }
    }
    r
}

fn split_exec(s: &[char]) -> (ws: Vec<Vec<char>>)
    ensures
        ws@.len() == exec_words(s@).len(),
        forall|k: int| 0 <= k < ws@.len() ==> #[trigger] ws@[k]@ == exec_words(s@)[k],
{
    let mut parts: Vec<Vec<char>> = Vec::new();
    let mut current: Vec<char> = Vec::new();
    let mut in_quotes = false;
    let mut i: usize = 0;
    assert(s@.take(0) =~= Seq::<char>::empty());
    while i < s.len()
        invariant
            i <= s@.len(),
            parts@.len() == exec_words_state(s@.take(i as int)).0.len(),
            forall|k: int| 0 <= k < parts@.len() ==> #[trigger] parts@[k]@ == exec_words_state(s@.take(i as int)).0[k],
            current@ == exec_words_state(s@.take(i as int)).1,
            in_quotes == exec_words_state(s@.take(i as int)).2,
        decreases s.len() - i,
    {
        proof {
            assert(s@.take(i + 1).drop_last() =~= s@.take(i as int));
            assert(s@.take(i + 1).last() == s@[i as int]);
        }
        let c = s[i];
        if c == '"' {
            in_quotes = !in_quotes;
        } else if char_is_space(c) && !in_quotes {
            if current.len() > 0 {
                let ghost before = parts@;
                parts.push(current);
                current = Vec::new();
                assert(current@ =~= Seq::<char>::empty());
            }
        } else {
            current.push(c);
        }
        i = i + 1;
    }
    assert(s@.take(i as int) =~= s@);
    if current.len() > 0 {
        parts.push(current);
    }
    parts
}

/// The service an INI `.service` text defines, where it defines one.
pub fn parse_ini_service(content: &str) -> (r: Option<ServiceDef>)
    ensures
        match ini_service(content@) {
            Some(d) => r matches Some(x) && x@ == d,
            None => r is None,
        },
{
    let cs = chars_of(content);
    let lines = split_chars(cs.as_slice(), '\n');
    let ghost ls = split_on(content@, '\n');
    let mut name: Option<Vec<char>> = None;
    let mut program: Option<Vec<char>> = None;
    let mut user: Option<Vec<char>> = None;
    let mut in_section = false;
    let mut i: usize = 0;
    assert(ls.take(0) =~= Seq::<Seq<char>>::empty());
    while i < lines.len()
        invariant
            i <= lines@.len(),
            lines@.len() == ls.len(),
            ls == split_on(content@, '\n'),
            forall|k: int| 0 <= k < lines@.len() ==> #[trigger] lines@[k]@ == ls[k],
            ini_fold(ls.take(i as int)) == (IniState {
                name: match name {
                    Some(v) => Some(v@),
                    None => None,
                },
                program: match program {
                    Some(v) => Some(v@),
                    None => None,
                },
                user: match user {
                    Some(v) => Some(v@),
                    None => None,
                },
                in_section,
            }),
        decreases lines.len() - i,
    {
        proof {
            assert(ls.take(i + 1).drop_last() =~= ls.take(i as int));
            assert(ls.take(i + 1).last() == ls[i as int]);
        }
        let line = trim_chars(lines[i].as_slice());
        let n = line.len();
        if n == 0 || line[0] == '#' || line[0] == ';' {
        } else if line[0] == '[' && line[n - 1] == ']' {
            let inner = slice_to_vec_range(line.as_slice(), 1, n - 1);
            let section = trim_chars(inner.as_slice());
            in_section = eq_ignore_case_chars(section.as_slice(), "D-BUS Service");
        } else if in_section {
            match find_char(line.as_slice(), '=') {
                Some(pos) => {
                    let k0 = slice_to_vec_range(line.as_slice(), 0, pos);
                    let key = trim_chars(k0.as_slice());
                    let v0 = slice_to_vec_range(line.as_slice(), pos + 1, n);
                    let val = trim_chars(v0.as_slice());
                    proof {
                        assert(k0@ =~= line@.take(pos as int));
                        assert(v0@ =~= line@.skip(pos + 1));
                    }
                    if eq_ignore_case_chars(key.as_slice(), "Name") {
                        name = Some(val);
                    } else if eq_ignore_case_chars(key.as_slice(), "Exec") {
                        program = Some(val);
                    } else if eq_ignore_case_chars(key.as_slice(), "User") {
                        user = Some(val);
                    }
                },
                None => {},
            }
        }
        i = i + 1;
    }
    assert(ls.take(i as int) =~= ls);
    let name = match name {
        Some(n) => n,
        None => {
            return None;
        },
    };
    let program = match program {
        Some(e) => e,
        None => {
            return None;
        },
    };
    let parts = split_exec(program.as_slice());
    if parts.len() == 0 {
        return None;
    }
    let exec_bin = string_of(parts[0].as_slice());
    let mut args: Vec<String> = Vec::new();
    let mut k: usize = 1;
    while k < parts.len()
        invariant
            1 <= k <= parts@.len(),
            parts@.len() == exec_words(program@).len(),
            forall|j: int| 0 <= j < parts@.len() ==> #[trigger] parts@[j]@ == exec_words(program@)[j],
            texts(args@) == exec_words(program@).subrange(1, k as int),
        decreases parts.len() - k,
    {
        let ghost before = args@;
        let x = string_of(parts[k].as_slice());
        args.push(x);
        assert(args@ == before.push(x));
        assert(texts(args@) =~= exec_words(program@).subrange(1, k + 1)) by {
            assert(texts(before).len() == k - 1);
            assert forall|j: int| 0 <= j < k - 1 implies texts(args@)[j] == exec_words(program@).subrange(1, k + 1)[j] by {
                assert(args@[j] == before[j]);
                assert(texts(before)[j] == exec_words(program@).subrange(1, k as int)[j]);
            }
        }
        k = k + 1;
    }
    assert(exec_words(program@).subrange(1, k as int) =~= exec_words(program@).skip(1));
    let user = match user {
        Some(u) => Some(string_of(u.as_slice())),
        None => None,
    };
    let environment: Vec<(String, String)> = Vec::new();
    assert(pair_texts(environment@) =~= Seq::<(Seq<char>, Seq<char>)>::empty());
    Some(ServiceDef { name: string_of(name.as_slice()), program: exec_bin, args, user, environment })
}

// ---------------------------------------------------------------------------
// The table of services
// ---------------------------------------------------------------------------

/// How a service is started: directly, or through the setuid launch helper
/// at the given path.
pub enum SpawnStrategy<'a> {
    Direct,
    ViaLaunchHelper(&'a str),
}

/// Why a service could not be started.
#[derive(Debug, Clone)]
pub enum ActivationError {
    ServiceUnknown(String),
    ExecFailed(String),
    TimedOut(String),
}

/// What an activation error says.
pub open spec fn activation_message(e: ActivationError) -> Seq<char> {
    match e {
        ActivationError::ServiceUnknown(n) => "service unknown: "@ + n@,
        ActivationError::ExecFailed(m) => "exec failed: "@ + m@,
        ActivationError::TimedOut(n) => "activation timed out waiting for '"@ + n@ + "' to appear on the bus"@,
    }
}

impl ActivationError {
    /// What the error says.
    pub fn message(&self) -> (s: String)
        ensures
            s@ == activation_message(*self),
    {
        match self {
            ActivationError::ServiceUnknown(n) => crate::text::concat_str("service unknown: ", n.as_str()),
            ActivationError::ExecFailed(m) => crate::text::concat_str("exec failed: ", m.as_str()),
            ActivationError::TimedOut(n) => {
                let a = crate::text::concat_str("activation timed out waiting for '", n.as_str());
                crate::text::concat_str(a.as_str(), "' to appear on the bus")
            },
        }
    }
}

/// The services the bus can start, by the bus name each provides.
pub struct ActivationRegistry {
    services: Vec<ServiceDef>,
}

impl ActivationRegistry {
    closed spec fn pairs(&self) -> Seq<(Seq<char>, ServiceDefSpec)> {
        Seq::new(self.services@.len(), |i: int| (self.services@[i].name@, self.services@[i]@))
    }

    /// No bus name twice, and no environment variable twice in a service.
    pub closed spec fn wf(&self) -> bool {
        &&& crate::daemon::registry::keys_unique(self.pairs())
        &&& forall|i: int| 0 <= i < self.services@.len() ==> (#[trigger] self.services@[i])@.wf()
    }
}

impl View for ActivationRegistry {
    type V = Map<Seq<char>, ServiceDefSpec>;

    closed spec fn view(&self) -> Map<Seq<char>, ServiceDefSpec> {
        crate::daemon::registry::seq_map(self.pairs())
    }
}

/// Every service in the table is kept under the name it provides.
pub proof fn services_under_their_names(r: &ActivationRegistry, n: Seq<char>)
    requires
        r.wf(),
        r@.dom().contains(n),
    ensures
        r@[n].name == n,
{
    crate::daemon::registry::lemma_seq_map_dom(r.pairs(), n);
    let i = choose|i: int| 0 <= i < r.pairs().len() && (#[trigger] r.pairs()[i]).0 == n;
    crate::daemon::registry::lemma_seq_map_index(r.pairs(), i);
}

impl ActivationRegistry {
    /// An empty table.
    pub fn new() -> (r: ActivationRegistry)
        ensures
            r.wf(),
            r@ == Map::<Seq<char>, ServiceDefSpec>::empty(),
    {
        let r = ActivationRegistry { services: Vec::new() };
        assert(r.pairs() =~= Seq::<(Seq<char>, ServiceDefSpec)>::empty());
        r
    }

    fn find(&self, name: &str) -> (r: Option<usize>)
        requires
            self.wf(),
        ensures
            match r {
                Some(i) => i < self.services@.len() && self.pairs()[i as int].0 == name@ && self@.dom().contains(name@)
                    && self@[name@] == self.services@[i as int]@,
                None => !self@.dom().contains(name@),
            },
    {
        let mut i: usize = 0;
        while i < self.services.len()
            invariant
                self.wf(),
                i <= self.services@.len(),
                forall|j: int| 0 <= j < i ==> (#[trigger] self.pairs()[j]).0 != name@,
            decreases self.services.len() - i,
        {
            if crate::text::str_eq(self.services[i].name.as_str(), name) {
                proof {
                    crate::daemon::registry::lemma_seq_map_index(self.pairs(), i as int);
                }
                return Some(i);
            }
            i = i + 1;
        }
        proof {
            crate::daemon::registry::lemma_seq_map_dom(self.pairs(), name@);
        }
        None
    }

    /// Adds `def` under its name, replacing a definition of that name.
    pub fn insert(&mut self, def: ServiceDef)
        requires
            old(self).wf(),
            def@.wf(),
        ensures
            final(self).wf(),
            final(self)@ == old(self)@.insert(def.name@, def@),
    {
        let ghost before = self.pairs();
        let ghost dv = def@;
        match self.find(def.name.as_str()) {
            Some(i) => {
                proof {
                    crate::daemon::registry::lemma_seq_map_update(before, i as int, dv);
                }
                self.services.set(i, def);
                assert(self.pairs() =~= before.update(i as int, (before[i as int].0, dv)));
            },
            None => {
                proof {
                    crate::daemon::registry::lemma_seq_map_push(before, dv.name, dv);
                }
                self.services.push(def);
                assert(self.pairs() =~= before.push((dv.name, dv)));
            },
        }
    }

    /// The table of the definitions `defs`, added in order (a later one
    /// replacing an earlier one of the same name).
    pub fn from_services(defs: Vec<ServiceDef>) -> (r: ActivationRegistry)
        requires
            forall|i: int| 0 <= i < defs@.len() ==> (#[trigger] defs@[i])@.wf(),
        ensures
            r.wf(),
            forall|n: Seq<char>|
                #[trigger] r@.dom().contains(n) <==> exists|i: int| 0 <= i < defs@.len() && (#[trigger] defs@[i]).name@ == n,
            forall|i: int|
                0 <= i < defs@.len() ==> (forall|j: int| i < j < defs@.len() ==> #[trigger] defs@[j].name@ != defs@[i].name@)
                    ==> r@[#[trigger] defs@[i].name@] == defs@[i]@,
    {
        let mut r = ActivationRegistry::new();
        let mut defs = defs;
        let ghost all = defs@;
        let mut i: usize = 0;
        let n = defs.len();
        let mut rest: Vec<ServiceDef> = Vec::new();
        while i < n
            invariant
                r.wf(),
                i <= n,
                n == all.len(),
                defs@.len() == n,
                forall|k: int| i <= k < n ==> #[trigger] defs@[k]@ == all[k]@,
                forall|k: int| 0 <= k < n ==> (#[trigger] all[k])@.wf(),
                forall|m: Seq<char>|
                    #[trigger] r@.dom().contains(m) <==> exists|k: int| 0 <= k < i && (#[trigger] all[k]).name@ == m,
                forall|k: int|
                    0 <= k < i ==> (forall|j: int| k < j < i ==> #[trigger] all[j].name@ != all[k].name@)
                        ==> r@[#[trigger] all[k].name@] == all[k]@,
            decreases n - i,
        {
            let d = defs[i].duplicate();
            let ghost dv = d@;
            let ghost before = r@;
            r.insert(d);
            assert forall|m: Seq<char>|
                #[trigger] r@.dom().contains(m) <==> exists|k: int| 0 <= k < i + 1 && (#[trigger] all[k]).name@ == m by {
                if m == dv.name {
                    assert(all[i as int].name@ == m);
                } else if r@.dom().contains(m) {
                    assert(before.dom().contains(m));
                }
                if exists|k: int| 0 <= k < i + 1 && (#[trigger] all[k]).name@ == m {
                    let k = choose|k: int| 0 <= k < i + 1 && (#[trigger] all[k]).name@ == m;
                    if k < i {
                        assert(before.dom().contains(m));
                    }
                }
            }
            assert forall|k: int|
                0 <= k < i + 1 implies (forall|j: int| k < j < i + 1 ==> #[trigger] all[j].name@ != all[k].name@)
                ==> r@[#[trigger] all[k].name@] == all[k]@ by {
                if k < i && (forall|j: int| k < j < i + 1 ==> #[trigger] all[j].name@ != all[k].name@) {
                    assert(all[i as int].name@ != all[k].name@);
                    assert(forall|j: int| k < j < i ==> #[trigger] all[j].name@ != all[k].name@);
                }
            }
            i = i + 1;
        }
        r
    }

    /// Whether some service provides `name`.
    pub fn is_activatable(&self, name: &str) -> (b: bool)
        requires
            self.wf(),
        ensures
            b == self@.dom().contains(name@),
    {
        self.find(name).is_some()
    }

    /// The definition of the service providing `name`.
    pub fn lookup(&self, name: &str) -> (r: Option<ServiceDef>)
        requires
            self.wf(),
        ensures
            match r {
                Some(d) => self@.dom().contains(name@) && d@ == self@[name@] && d@.wf(),
                None => !self@.dom().contains(name@),
            },
    {
        match self.find(name) {
            Some(i) => Some(self.services[i].duplicate()),
            None => None,
        }
    }

    /// The bus names services provide, each once.
    pub fn list_activatable_names(&self) -> (v: Vec<String>)
        requires
            self.wf(),
        ensures
            v@.len() == self@.dom().len(),
            forall|x: Seq<char>| (exists|k: int| 0 <= k < v@.len() && (#[trigger] v@[k])@ == x) <==> self@.dom().contains(x),
    {
        let mut out: Vec<String> = Vec::new();
        let mut i: usize = 0;
        while i < self.services.len()
            invariant
                i <= self.services@.len(),
                out@.len() == i,
                forall|k: int| 0 <= k < i ==> (#[trigger] out@[k])@ == self.pairs()[k].0,
            decreases self.services.len() - i,
        {
            out.push(self.services[i].name.clone());
            i = i + 1;
        }
        proof {
            crate::daemon::registry::lemma_seq_map_len(self.pairs());
            assert forall|x: Seq<char>| (exists|k: int| 0 <= k < out@.len() && (#[trigger] out@[k])@ == x) <==> self@.dom().contains(x) by {
                crate::daemon::registry::lemma_seq_map_dom(self.pairs(), x);
                if self@.dom().contains(x) {
                    let k = choose|k: int| 0 <= k < self.pairs().len() && (#[trigger] self.pairs()[k]).0 == x;
                    assert(out@[k]@ == x);
                }
                if exists|k: int| 0 <= k < out@.len() && (#[trigger] out@[k])@ == x {
                    let k = choose|k: int| 0 <= k < out@.len() && (#[trigger] out@[k])@ == x;
                    assert(self.pairs()[k].0 == x);
                }
            }
        }
        out
    }
}

/// How to start a service: through the launch helper, or directly with its
/// definition.
pub enum SpawnPlan {
    Helper,
    Direct(ServiceDef),
}

/// The message for a service without a user, which the launch helper needs.
pub open spec fn no_user_message(name: Seq<char>) -> Seq<char> {
    "service '"@ + name + "' has no `user =` set — required for system-bus activation"@
}

impl ActivationRegistry {
    /// The checks before starting the service providing `name`: it must be
    /// known, and one started through the launch helper must name a user.
    pub fn plan_spawn(&self, name: &str, strategy: &SpawnStrategy) -> (r: Result<SpawnPlan, ActivationError>)
        requires
            self.wf(),
        ensures
            !self@.dom().contains(name@) ==> (r matches Err(ActivationError::ServiceUnknown(n)) && n@ == name@),
            self@.dom().contains(name@) && strategy is ViaLaunchHelper && self@[name@].user is None ==> (r matches Err(
                ActivationError::ExecFailed(m),
            ) && m@ == no_user_message(name@)),
            self@.dom().contains(name@) && strategy is ViaLaunchHelper && self@[name@].user is Some ==> (r matches Ok(
                SpawnPlan::Helper,
            )),
            self@.dom().contains(name@) && strategy is Direct ==> (r matches Ok(SpawnPlan::Direct(d)) && d@ == self@[name@]),
    {
        let def = match self.lookup(name) {
            Some(d) => d,
            None => {
                return Err(ActivationError::ServiceUnknown(name.to_owned()));
            },
        };
        match strategy {
            SpawnStrategy::ViaLaunchHelper(_) => {
                if def.user.is_none() {
                    let a = crate::text::concat_str("service '", name);
                    let m = crate::text::concat_str(
                        a.as_str(),
                        "' has no `user =` set — required for system-bus activation",
                    );
                    return Err(ActivationError::ExecFailed(m));
                }
                Ok(SpawnPlan::Helper)
            },
            SpawnStrategy::Direct => Ok(SpawnPlan::Direct(def)),
        }
    }
}

/// A user given by number (`str::parse::<u32>`); names are looked up
/// elsewhere.
pub fn parse_uid(user: &str) -> (r: Option<u32>)
    ensures
        r matches Some(v) ==> crate::text::unsigned_text(user@) == Some(v as nat),
        r is None ==> (crate::text::unsigned_text(user@) is None || crate::text::unsigned_text(user@)->0 > u32::MAX),
{
    let cs = chars_of(user);
    crate::text::parse_u32(cs.as_slice())
}

/// The check before starting a service directly as `user`: the user must
/// exist (`target_uid`, as looked up) and be the one the bus runs as.
pub fn check_run_as(name: &str, user: &str, target_uid: Option<u32>, current_uid: u32) -> (r: Result<(), ActivationError>)
    ensures
        target_uid is None ==> (r matches Err(ActivationError::ExecFailed(m)) && m@ == "unknown user '"@ + user@ + "'"@),
        (target_uid matches Some(t) && t != current_uid) ==> (r matches Err(ActivationError::ExecFailed(m)) && m@
            == "cannot activate '"@ + name@ + "' as user '"@ + user@
            + "': not running as that user and no launch helper configured for this bus"@),
        target_uid == Some(current_uid) ==> r is Ok,
{
    match target_uid {
        None => {
            let a = crate::text::concat_str("unknown user '", user);
            Err(ActivationError::ExecFailed(crate::text::concat_str(a.as_str(), "'")))
        },
        Some(t) => {
            if t != current_uid {
                let a = crate::text::concat_str("cannot activate '", name);
                let b = crate::text::concat_str(a.as_str(), "' as user '");
                let c = crate::text::concat_str(b.as_str(), user);
                let m = crate::text::concat_str(
                    c.as_str(),
                    "': not running as that user and no launch helper configured for this bus",
                );
                return Err(ActivationError::ExecFailed(m));
            }
            Ok(())
        },
    }
}

} // verus!
