//! Server side of the SASL handshake, as a state machine fed one line at
//! a time. The keyring and the machine's user id are the caller's to
//! provide: `keyring_need` says, before a line is fed, which keyring
//! result that line will consult.

use crate::auth::crypto::{hex_decode, hex_decode_spec, hex_encode, hex_text, sha1_digest, sha1_of};
use crate::auth::keyring::DEFAULT_CONTEXT;
use crate::auth::mechanism::{mechanism_list_string, names_joined, Mechanism};
use crate::credentials::PeerCredentials;
use crate::text::{
    chars_eq, chars_of, concat_str, decimal, find_char_from, index_of, parse_u32, slice_to_vec_range,
    str_from_utf8, string_of, trim_start, trim_start_chars, u64_to_string, unsigned_text,
};
use vstd::prelude::*;
use vstd::utf8::{decode_utf8, encode_utf8, valid_utf8};

verus! {

broadcast use vstd::std_specs::vec::group_vec_axioms;

/// Failed attempts after which the server hangs up.
pub const MAX_FAILURES: u32 = 6;

/// Where the handshake stands.
#[derive(Debug)]
enum State {
    WaitingForAuth,
    WaitingForData { mechanism: Mechanism, cookie_id: Option<u32>, challenge: Option<String> },
    WaitingForBegin { uid: Option<u32> },
}

/// The model of where the handshake stands.
pub enum Phase {
    WaitingForAuth,
    WaitingForData { mechanism: Mechanism, cookie_id: Option<u32>, challenge: Option<Seq<char>> },
    WaitingForBegin { uid: Option<u32> },
}

impl View for State {
    type V = Phase;

    closed spec fn view(&self) -> Phase {
        match self {
            State::WaitingForAuth => Phase::WaitingForAuth,
            State::WaitingForData { mechanism, cookie_id, challenge } => Phase::WaitingForData {
                mechanism: *mechanism,
                cookie_id: *cookie_id,
                challenge: match challenge {
                    Some(c) => Some(c@),
                    None => None,
                },
            },
            State::WaitingForBegin { uid } => Phase::WaitingForBegin { uid: *uid },
        }
    }
}

/// What the caller does after a line: send lines, start the message
/// stream, or hang up.
#[derive(Debug)]
pub enum ServerAction {
    Send(Vec<String>),
    Begin { uid: Option<u32> },
    Disconnect(String),
}

/// The model of a server action.
pub enum ActionSpec {
    Send(Seq<Seq<char>>),
    Begin { uid: Option<u32> },
    Disconnect(Seq<char>),
}

/// The models of some strings.
pub open spec fn strings_view(v: Seq<String>) -> Seq<Seq<char>> {
    Seq::new(v.len(), |i: int| v[i]@)
}

impl View for ServerAction {
    type V = ActionSpec;

    open spec fn view(&self) -> ActionSpec {
        match self {
            ServerAction::Send(lines) => ActionSpec::Send(strings_view(lines@)),
            ServerAction::Begin { uid } => ActionSpec::Begin { uid: *uid },
            ServerAction::Disconnect(m) => ActionSpec::Disconnect(m@),
        }
    }
}

/// What the caller found out for the cookie mechanism: the machine's user
/// id, the keyring's best key (`Keyring::best_key`), the secret of the key
/// the client names (`Keyring::hex_key`), and 16 random bytes for the
/// challenge.
pub struct CookieEnv {
    pub our_uid: u32,
    pub best_key: Option<u32>,
    pub key_hex: Option<String>,
    pub challenge: Vec<u8>,
}

/// The model of a cookie environment.
pub struct CookieEnvSpec {
    pub our_uid: u32,
    pub best_key: Option<u32>,
    pub key_hex: Option<Seq<char>>,
    pub challenge: Seq<u8>,
}

impl View for CookieEnv {
    type V = CookieEnvSpec;

    open spec fn view(&self) -> CookieEnvSpec {
        CookieEnvSpec {
            our_uid: self.our_uid,
            best_key: self.best_key,
            key_hex: match &self.key_hex {
                Some(k) => Some(k@),
                None => None,
            },
            challenge: self.challenge@,
        }
    }
}

/// Which keyring result feeding a line consults.
#[derive(Debug, PartialEq, Eq)]
pub enum KeyringNeed {
    /// None.
    Nothing,
    /// `Keyring::best_key`, for the first cookie step.
    BestKey,
    /// `Keyring::hex_key` of this key id, for the second cookie step.
    HexKey(u32),
}

/// The mutable part of a server state machine.
pub struct ServerSpec {
    pub phase: Phase,
    pub failures: u32,
    pub unix_fd: bool,
}

/// A line's command and its argument: the text up to the first space, and
/// the rest without leading whitespace.
pub open spec fn split_command(line: Seq<char>) -> (Seq<char>, Seq<char>) {
    match index_of(line, ' ') {
        Some(i) => (line.take(i), trim_start(line.skip(i + 1))),
        None => (line, Seq::empty()),
    }
}

/// The user id that EXTERNAL and cookie data ask for: the peer's where the
/// data is empty, else the decimal number the data spells.
pub open spec fn desired_uid(data: Seq<u8>, peer_uid: u32) -> Option<u32> {
    if data.len() == 0 {
        Some(peer_uid)
    } else if valid_utf8(data) {
        match unsigned_text(decode_utf8(data)) {
            Some(v) => if v <= u32::MAX {
                Some(v as u32)
            } else {
                None
            },
            None => None,
        }
    } else {
        None
    }
}

/// The `ERROR` line carrying `msg`.
pub open spec fn error_line(msg: Seq<char>) -> ActionSpec {
    ActionSpec::Send(seq!["ERROR \""@ + msg + "\""@])
}

/// The text of the first cookie step's reply: context, key id, challenge.
pub open spec fn cookie_reply(id: u32, challenge: Seq<u8>) -> Seq<char> {
    "org_freedesktop_general "@ + decimal(id as nat) + " "@ + hex_text(challenge)
}

/// The hash the client owes for the second cookie step.
pub open spec fn cookie_hash(server_challenge: Seq<char>, client_challenge: Seq<char>, key_hex: Seq<char>) -> Seq<char> {
    hex_text(sha1_of(encode_utf8(server_challenge + ":"@ + client_challenge + ":"@ + key_hex)))
}

/// Server side of the SASL handshake.
pub struct ServerAuth {
    peer: PeerCredentials,
    allowed_mechanisms: Vec<Mechanism>,
    allow_anonymous: bool,
    guid_hex: String,
    state: State,
    failures: u32,
    unix_fd_negotiated: bool,
    home_dir: Option<String>,
}

impl ServerAuth {
    /// The peer's user id.
    pub closed spec fn peer_uid(&self) -> u32 {
        self.peer.uid
    }

    /// The mechanisms offered.
    pub closed spec fn allowed(&self) -> Seq<Mechanism> {
        self.allowed_mechanisms@
    }

    /// Whether ANONYMOUS may succeed.
    pub closed spec fn anonymous_ok(&self) -> bool {
        self.allow_anonymous
    }

    /// The server GUID sent with `OK`.
    pub closed spec fn guid(&self) -> Seq<char> {
        self.guid_hex@
    }

    /// Whether a home directory (for the keyring) is known.
    pub closed spec fn has_home(&self) -> bool {
        self.home_dir is Some
    }

    /// The mutable part of the state machine.
    pub closed spec fn state_spec(&self) -> ServerSpec {
        ServerSpec { phase: self.state@, failures: self.failures, unix_fd: self.unix_fd_negotiated }
    }

    /// A failed attempt: back to waiting for `AUTH`, and `REJECTED` with
    /// the offered mechanisms, or a hang-up after the sixth failure.
    pub open spec fn rejected_spec(&self, st: ServerSpec) -> (ServerSpec, ActionSpec) {
        let f = (st.failures + 1) as u32;
        let st2 = ServerSpec { phase: Phase::WaitingForAuth, failures: f, unix_fd: st.unix_fd };
        if f >= MAX_FAILURES {
            (st2, ActionSpec::Disconnect("too many authentication failures"@))
        } else {
            (st2, ActionSpec::Send(seq!["REJECTED "@ + names_joined(self.allowed())]))
        }
    }

    /// Success: wait for `BEGIN`, and send `OK` with the GUID.
    pub open spec fn ok_spec(&self, st: ServerSpec, uid: Option<u32>) -> (ServerSpec, ActionSpec) {
        (
            ServerSpec { phase: Phase::WaitingForBegin { uid }, failures: st.failures, unix_fd: st.unix_fd },
            ActionSpec::Send(seq!["OK "@ + self.guid()]),
        )
    }

    /// The first cookie step: check the user, then challenge the client
    /// with the best key.
    pub open spec fn cookie_first_spec(&self, st: ServerSpec, data: Seq<u8>, env: CookieEnvSpec) -> (ServerSpec, ActionSpec) {
        if desired_uid(data, self.peer_uid()) != Some(self.peer_uid()) || self.peer_uid() != env.our_uid {
            self.rejected_spec(st)
        } else if !self.has_home() {
            self.rejected_spec(st)
        } else {
            match env.best_key {
                None => self.rejected_spec(st),
                Some(id) => (
                    ServerSpec {
                        phase: Phase::WaitingForData {
                            mechanism: Mechanism::DbusCookieSha1,
                            cookie_id: Some(id),
                            challenge: Some(hex_text(env.challenge)),
                        },
                        failures: st.failures,
                        unix_fd: st.unix_fd,
                    },
                    ActionSpec::Send(seq!["DATA "@ + hex_text(encode_utf8(cookie_reply(id, env.challenge)))]),
                ),
            }
        }
    }

    /// The client's answer to a cookie challenge: `client-challenge hash`.
    pub open spec fn cookie_answer(data: Seq<u8>) -> Option<(Seq<char>, Seq<char>)> {
        if !valid_utf8(data) {
            None
        } else {
            let text = decode_utf8(data);
            match index_of(text, ' ') {
                None => None,
                Some(i) => if i == 0 || i + 1 >= text.len() {
                    None
                } else {
                    Some((text.take(i), text.skip(i + 1)))
                },
            }
        }
    }

    /// The second cookie step: check the client's hash.
    pub open spec fn cookie_second_spec(&self, st: ServerSpec, challenge: Option<Seq<char>>, data: Seq<u8>, env: CookieEnvSpec) -> (ServerSpec, ActionSpec) {
        match ServerAuth::cookie_answer(data) {
            None => self.rejected_spec(st),
            Some((cc, ch)) => if !self.has_home() {
                self.rejected_spec(st)
            } else {
                match env.key_hex {
                    None => self.rejected_spec(st),
                    Some(kh) => {
                        let sc = match challenge {
                            Some(c) => c,
                            None => Seq::empty(),
                        };
                        if cookie_hash(sc, cc, kh) != ch {
                            self.rejected_spec(st)
                        } else {
                            self.ok_spec(st, Some(self.peer_uid()))
                        }
                    },
                }
            },
        }
    }

    /// Mechanism data handled in phase `st` (waiting for data).
    pub open spec fn dispatch_spec(&self, st: ServerSpec, mechanism: Mechanism, data: Seq<u8>, env: CookieEnvSpec) -> (ServerSpec, ActionSpec) {
        match mechanism {
            Mechanism::External => match desired_uid(data, self.peer_uid()) {
                Some(uid) => if uid == self.peer_uid() {
                    self.ok_spec(st, Some(uid))
                } else {
                    self.rejected_spec(st)
                },
                None => self.rejected_spec(st),
            },
            Mechanism::Anonymous => self.ok_spec(st, None),
            Mechanism::DbusCookieSha1 => match st.phase {
                Phase::WaitingForData { cookie_id: Some(id), challenge, .. } => self.cookie_second_spec(
                    st,
                    challenge,
                    data,
                    env,
                ),
                _ => self.cookie_first_spec(st, data, env),
            },
        }
    }

    /// What `AUTH` with argument `rest` does.
    pub open spec fn auth_spec(&self, st: ServerSpec, rest: Seq<char>, env: CookieEnvSpec) -> (ServerSpec, ActionSpec) {
        if rest.len() == 0 {
            self.rejected_spec(st)
        } else {
            let (name, initial) = match index_of(rest, ' ') {
                Some(i) => (rest.take(i), Some(rest.skip(i + 1))),
                None => (rest, None),
            };
            match Mechanism::parse_spec(name) {
                None => self.rejected_spec(st),
                Some(m) => if !self.allowed().contains(m) {
                    self.rejected_spec(st)
                } else if m == Mechanism::Anonymous && !self.anonymous_ok() {
                    self.rejected_spec(st)
                } else {
                    let st2 = ServerSpec {
                        phase: Phase::WaitingForData { mechanism: m, cookie_id: None, challenge: None },
                        failures: st.failures,
                        unix_fd: st.unix_fd,
                    };
                    match initial {
                        None => (st2, ActionSpec::Send(seq!["DATA "@])),
                        Some(h) => match hex_decode_spec(encode_utf8(h)) {
                            None => self.rejected_spec(st),
                            Some(data) => self.dispatch_spec(st2, m, data, env),
                        },
                    }
                },
            }
        }
    }

    /// What feeding `line` does in the state `st`.
    pub open spec fn step(&self, st: ServerSpec, line: Seq<char>, env: CookieEnvSpec) -> (ServerSpec, ActionSpec) {
        let (cmd, rest) = split_command(line);
        match st.phase {
            Phase::WaitingForAuth => if cmd == "AUTH"@ {
                self.auth_spec(st, rest, env)
            } else if cmd == "ERROR"@ {
                self.rejected_spec(st)
            } else {
                (st, error_line("Sent unexpected command while expecting AUTH"@))
            },
            Phase::WaitingForData { mechanism, .. } => if cmd == "DATA"@ {
                match hex_decode_spec(encode_utf8(rest)) {
                    None => self.rejected_spec(st),
                    Some(data) => self.dispatch_spec(st, mechanism, data, env),
                }
            } else if cmd == "CANCEL"@ || cmd == "ERROR"@ {
                self.rejected_spec(st)
            } else if cmd == "BEGIN"@ {
                (st, error_line("Sent BEGIN while expecting DATA"@))
            } else if cmd == "AUTH"@ {
                (st, error_line("Sent AUTH while expecting DATA"@))
            } else {
                (st, error_line("Unknown command while expecting DATA"@))
            },
            Phase::WaitingForBegin { uid } => if cmd == "BEGIN"@ {
                (st, ActionSpec::Begin { uid })
            } else if cmd == "NEGOTIATE_UNIX_FD"@ {
                (
                    ServerSpec { phase: st.phase, failures: st.failures, unix_fd: true },
                    ActionSpec::Send(seq!["AGREE_UNIX_FD"@]),
                )
            } else if cmd == "CANCEL"@ || cmd == "ERROR"@ {
                self.rejected_spec(st)
            } else {
                (st, error_line("Unknown command while expecting BEGIN"@))
            },
        }
    }

    /// Which keyring result feeding `line` consults, where the machine's
    /// user id is `our_uid`.
    pub open spec fn keyring_need_spec(&self, line: Seq<char>, our_uid: u32) -> KeyringNeed {
        let st = self.state_spec();
        let (cmd, rest) = split_command(line);
        let data_of = |h: Seq<char>| hex_decode_spec(encode_utf8(h));
        let first_ok = |data: Seq<u8>|
            desired_uid(data, self.peer_uid()) == Some(self.peer_uid()) && self.peer_uid() == our_uid
                && self.has_home();
        match st.phase {
            Phase::WaitingForAuth => if cmd == "AUTH"@ && rest.len() > 0 {
                match index_of(rest, ' ') {
                    Some(i) => if Mechanism::parse_spec(rest.take(i)) == Some(Mechanism::DbusCookieSha1)
                        && self.allowed().contains(Mechanism::DbusCookieSha1) {
                        match data_of(rest.skip(i + 1)) {
                            Some(data) => if first_ok(data) {
                                KeyringNeed::BestKey
                            } else {
                                KeyringNeed::Nothing
                            },
                            None => KeyringNeed::Nothing,
                        }
                    } else {
                        KeyringNeed::Nothing
                    },
                    None => KeyringNeed::Nothing,
                }
            } else {
                KeyringNeed::Nothing
            },
            Phase::WaitingForData { mechanism: Mechanism::DbusCookieSha1, cookie_id, .. } => if cmd
                == "DATA"@ {
                match data_of(rest) {
                    Some(data) => match cookie_id {
                        None => if first_ok(data) {
                            KeyringNeed::BestKey
                        } else {
                            KeyringNeed::Nothing
                        },
                        Some(id) => if ServerAuth::cookie_answer(data) is Some && self.has_home() {
                            KeyringNeed::HexKey(id)
                        } else {
                            KeyringNeed::Nothing
                        },
                    },
                    None => KeyringNeed::Nothing,
                }
            } else {
                KeyringNeed::Nothing
            },
            _ => KeyringNeed::Nothing,
        }
    }

    /// A server for the peer `peer`, offering `allowed_mechanisms`, that
    /// answers `OK` with `guid_hex`; `home_dir` is where the keyring lives.
    pub fn new(
        peer: PeerCredentials,
        allowed_mechanisms: Vec<Mechanism>,
        allow_anonymous: bool,
        guid_hex: String,
        home_dir: Option<String>,
    ) -> (s: ServerAuth)
        ensures
            s.peer_uid() == peer.uid,
            s.allowed() == allowed_mechanisms@,
            s.anonymous_ok() == allow_anonymous,
            s.guid() == guid_hex@,
            s.has_home() == home_dir is Some,
            s.state_spec() == (ServerSpec { phase: Phase::WaitingForAuth, failures: 0, unix_fd: false }),
    {
        ServerAuth {
            peer,
            allowed_mechanisms,
            allow_anonymous,
            guid_hex,
            state: State::WaitingForAuth,
            failures: 0,
            unix_fd_negotiated: false,
            home_dir,
        }
    }

    /// Whether the client asked for unix fd passing and was told yes.
    pub fn unix_fd_negotiated(&self) -> (b: bool)
        ensures
            b == self.state_spec().unix_fd,
    {
        self.unix_fd_negotiated
    }

    /// The number of failed attempts so far.
    pub fn failure_count(&self) -> (n: u32)
        ensures
            n == self.state_spec().failures,
    {
        self.failures
    }

    fn rejected(&mut self) -> (a: ServerAction)
        requires
            old(self).failures < u32::MAX,
        ensures
            (final(self).state_spec(), a@) == old(self).rejected_spec(old(self).state_spec()),
            final(self).same_config(*old(self)),
    {
        self.failures = self.failures + 1;
        self.state = State::WaitingForAuth;
        if self.failures >= MAX_FAILURES {
            proof {
                reveal_strlit("too many authentication failures");
            }
            return ServerAction::Disconnect("too many authentication failures".to_owned());
        }
        proof {
            reveal_strlit("REJECTED ");
        }
        let line = concat_str("REJECTED ", mechanism_list_string(self.allowed_mechanisms.as_slice()).as_str());
        let mut lines: Vec<String> = Vec::new();
        lines.push(line);
        assert(strings_view(lines@) =~= seq![lines@[0]@]);
        ServerAction::Send(lines)
    }

    fn ok(&mut self, uid: Option<u32>) -> (a: ServerAction)
        ensures
            (final(self).state_spec(), a@) == old(self).ok_spec(old(self).state_spec(), uid),
            final(self).same_config(*old(self)),
    {
        self.state = State::WaitingForBegin { uid };
        let line = concat_str("OK ", self.guid_hex.as_str());
        let mut lines: Vec<String> = Vec::new();
        lines.push(line);
        assert(strings_view(lines@) =~= seq![lines@[0]@]);
        ServerAction::Send(lines)
    }

    /// The same peer, mechanisms, GUID and home as `other`.
    pub closed spec fn same_config(&self, other: ServerAuth) -> bool {
        &&& self.peer == other.peer
        &&& self.allowed_mechanisms@ == other.allowed_mechanisms@
        &&& self.allow_anonymous == other.allow_anonymous
        &&& self.guid_hex@ == other.guid_hex@
        &&& self.home_dir is Some == other.home_dir is Some
    }

    /// Feed one line from the client (without CRLF) and learn what to do;
    /// `env` holds what `keyring_need` asked for.
    pub fn feed_line(&mut self, line: &str, env: &CookieEnv) -> (a: ServerAction)
        requires
            old(self).state_spec().failures < u32::MAX,
        ensures
            (final(self).state_spec(), a@) == old(self).step(old(self).state_spec(), line@, env@),
            final(self).same_config(*old(self)),
    {
        let cs = chars_of(line);
        let (command, rest) = split_command_chars(cs.as_slice());
        match &self.state {
            State::WaitingForAuth => self.handle_waiting_for_auth(command.as_slice(), rest.as_slice(), env),
            State::WaitingForData { .. } => self.handle_waiting_for_data(command.as_slice(), rest.as_slice(), env),
            State::WaitingForBegin { .. } => self.handle_waiting_for_begin(command.as_slice()),
        }
    }

    fn error_action(msg: &str) -> (a: ServerAction)
        ensures
            a@ == error_line(msg@),
    {
        proof {
            reveal_strlit("ERROR \"");
            reveal_strlit("\"");
        }
        let a = concat_str("ERROR \"", msg);
        let b = concat_str(a.as_str(), "\"");
        let mut lines: Vec<String> = Vec::new();
        lines.push(b);
        assert(strings_view(lines@) =~= seq![lines@[0]@]);
        ServerAction::Send(lines)
    }

    fn handle_waiting_for_auth(&mut self, command: &[char], rest: &[char], env: &CookieEnv) -> (a: ServerAction)
        requires
            old(self).state_spec().phase is WaitingForAuth,
            old(self).state_spec().failures < u32::MAX,
        ensures
            (final(self).state_spec(), a@) == (if command@ == "AUTH"@ {
                old(self).auth_spec(old(self).state_spec(), rest@, env@)
            } else if command@ == "ERROR"@ {
                old(self).rejected_spec(old(self).state_spec())
            } else {
                (old(self).state_spec(), error_line("Sent unexpected command while expecting AUTH"@))
            }),
            final(self).same_config(*old(self)),
    {
        if is_word(command, "AUTH") {
            self.handle_auth(rest, env)
        } else if is_word(command, "ERROR") {
            self.rejected()
        } else {
            Self::error_action("Sent unexpected command while expecting AUTH")
        }
    }

    fn handle_auth(&mut self, rest: &[char], env: &CookieEnv) -> (a: ServerAction)
        requires
            old(self).state_spec().failures < u32::MAX,
        ensures
            (final(self).state_spec(), a@) == old(self).auth_spec(old(self).state_spec(), rest@, env@),
            final(self).same_config(*old(self)),
    {
        if rest.len() == 0 {
            return self.rejected();
        }
        let (name, initial) = match find_char_from(rest, 0, ' ') {
            Some(i) => {
                proof {
                    crate::text::lemma_index_of_unique(rest@, ' ', i as int);
                }
                let n = slice_to_vec_range(rest, 0, i);
                let h = slice_to_vec_range(rest, i + 1, rest.len());
                assert(n@ =~= rest@.take(i as int));
                assert(h@ =~= rest@.skip(i + 1));
                (n, Some(h))
            },
            None => {
                proof {
                    crate::text::lemma_index_of_none(rest@, ' ');
                }
                (slice_to_vec_range(rest, 0, rest.len()), None)
            },
        };
        assert(name@ =~= (match index_of(rest@, ' ') {
            Some(i) => rest@.take(i),
            None => rest@,
        }));
        let name_text = string_of(name.as_slice());
        let mechanism = match Mechanism::parse(name_text.as_str()) {
            Some(m) => m,
            None => {
                return self.rejected();
            },
        };
        if !contains_mechanism(self.allowed_mechanisms.as_slice(), mechanism) {
            return self.rejected();
        }
        if mechanism == Mechanism::Anonymous && !self.allow_anonymous {
            return self.rejected();
        }
        match initial {
            Some(hex_data) => {
                let text = string_of(hex_data.as_slice());
                let data = match hex_decode(text.as_str()) {
                    Some(d) => d,
                    None => {
                        return self.rejected();
                    },
                };
                self.state = State::WaitingForData { mechanism, cookie_id: None, challenge: None };
                self.dispatch_mechanism_data(mechanism, data.as_slice(), env)
            },
            None => {
                self.state = State::WaitingForData { mechanism, cookie_id: None, challenge: None };
                proof {
                    reveal_strlit("DATA ");
                }
                let mut lines: Vec<String> = Vec::new();
                lines.push("DATA ".to_owned());
                assert(strings_view(lines@) =~= seq![lines@[0]@]);
                ServerAction::Send(lines)
            },
        }
    }

    fn handle_waiting_for_data(&mut self, command: &[char], rest: &[char], env: &CookieEnv) -> (a: ServerAction)
        requires
            old(self).state_spec().phase is WaitingForData,
            old(self).state_spec().failures < u32::MAX,
        ensures
            (final(self).state_spec(), a@) == old(self).step_data(command@, rest@, env@),
            final(self).same_config(*old(self)),
    {
        let mechanism = match &self.state {
            State::WaitingForData { mechanism, .. } => *mechanism,
            _ => Mechanism::External,
        };
        if is_word(command, "DATA") {
            let text = string_of(rest);
            match hex_decode(text.as_str()) {
                Some(data) => self.dispatch_mechanism_data(mechanism, data.as_slice(), env),
                None => self.rejected(),
            }
        } else if is_word(command, "CANCEL") || is_word(command, "ERROR") {
            self.rejected()
        } else if is_word(command, "BEGIN") {
            Self::error_action("Sent BEGIN while expecting DATA")
        } else if is_word(command, "AUTH") {
            Self::error_action("Sent AUTH while expecting DATA")
        } else {
            Self::error_action("Unknown command while expecting DATA")
        }
    }

    /// What a line with command `cmd` and argument `rest` does while
    /// waiting for data.
    pub open spec fn step_data(&self, cmd: Seq<char>, rest: Seq<char>, env: CookieEnvSpec) -> (ServerSpec, ActionSpec) {
        let st = self.state_spec();
        let mechanism = st.phase->WaitingForData_mechanism;
        if cmd == "DATA"@ {
            match hex_decode_spec(encode_utf8(rest)) {
                None => self.rejected_spec(st),
                Some(data) => self.dispatch_spec(st, mechanism, data, env),
            }
        } else if cmd == "CANCEL"@ || cmd == "ERROR"@ {
            self.rejected_spec(st)
        } else if cmd == "BEGIN"@ {
            (st, error_line("Sent BEGIN while expecting DATA"@))
        } else if cmd == "AUTH"@ {
            (st, error_line("Sent AUTH while expecting DATA"@))
        } else {
            (st, error_line("Unknown command while expecting DATA"@))
        }
    }

    fn handle_waiting_for_begin(&mut self, command: &[char]) -> (a: ServerAction)
        requires
            old(self).state_spec().phase is WaitingForBegin,
            old(self).state_spec().failures < u32::MAX,
        ensures
            (final(self).state_spec(), a@) == (if command@ == "BEGIN"@ {
                (old(self).state_spec(), ActionSpec::Begin { uid: old(self).state_spec().phase->WaitingForBegin_uid })
            } else if command@ == "NEGOTIATE_UNIX_FD"@ {
                (
                    ServerSpec {
                        phase: old(self).state_spec().phase,
                        failures: old(self).state_spec().failures,
                        unix_fd: true,
                    },
                    ActionSpec::Send(seq!["AGREE_UNIX_FD"@]),
                )
            } else if command@ == "CANCEL"@ || command@ == "ERROR"@ {
                old(self).rejected_spec(old(self).state_spec())
            } else {
                (old(self).state_spec(), error_line("Unknown command while expecting BEGIN"@))
            }),
            final(self).same_config(*old(self)),
    {
        let uid = match &self.state {
            State::WaitingForBegin { uid } => *uid,
            _ => None,
        };
        if is_word(command, "BEGIN") {
            ServerAction::Begin { uid }
        } else if is_word(command, "NEGOTIATE_UNIX_FD") {
            self.unix_fd_negotiated = true;
            proof {
                reveal_strlit("AGREE_UNIX_FD");
            }
            let mut lines: Vec<String> = Vec::new();
            lines.push("AGREE_UNIX_FD".to_owned());
            assert(strings_view(lines@) =~= seq![lines@[0]@]);
            ServerAction::Send(lines)
        } else if is_word(command, "CANCEL") || is_word(command, "ERROR") {
            self.rejected()
        } else {
            Self::error_action("Unknown command while expecting BEGIN")
        }
    }

    fn dispatch_mechanism_data(&mut self, mechanism: Mechanism, data: &[u8], env: &CookieEnv) -> (a: ServerAction)
        requires
            old(self).state_spec().failures < u32::MAX,
            old(self).state_spec().phase is WaitingForData,
        ensures
            (final(self).state_spec(), a@) == old(self).dispatch_spec(old(self).state_spec(), mechanism, data@, env@),
            final(self).same_config(*old(self)),
    {
        match mechanism {
            Mechanism::External => {
                let desired = desired_uid_of(data, self.peer.uid);
                match desired {
                    Some(uid) => {
                        if uid == self.peer.uid {
                            self.ok(Some(uid))
                        } else {
                            self.rejected()
                        }
                    },
                    None => self.rejected(),
                }
            },
            Mechanism::Anonymous => self.ok(None),
            Mechanism::DbusCookieSha1 => {
                let pending = match &self.state {
                    State::WaitingForData { cookie_id: Some(id), challenge, .. } => Some(
                        (*id, match challenge {
                            Some(c) => c.clone(),
                            None => String::new(),
                        }),
                    ),
                    _ => None,
                };
                match pending {
                    None => self.cookie_sha1_first_response(data, env),
                    Some((_, challenge)) => self.cookie_sha1_second_response(challenge.as_str(), data, env),
                }
            },
        }
    }

    fn cookie_sha1_first_response(&mut self, data: &[u8], env: &CookieEnv) -> (a: ServerAction)
        requires
            old(self).state_spec().failures < u32::MAX,
        ensures
            (final(self).state_spec(), a@) == old(self).cookie_first_spec(old(self).state_spec(), data@, env@),
            final(self).same_config(*old(self)),
    {
        let desired = desired_uid_of(data, self.peer.uid);
        if desired != Some(self.peer.uid) || self.peer.uid != env.our_uid {
            return self.rejected();
        }
        if self.home_dir.is_none() {
            return self.rejected();
        }
        let cookie_id = match env.best_key {
            Some(id) => id,
            None => {
                return self.rejected();
            },
        };
        let challenge_hex = hex_encode(env.challenge.as_slice());
        proof {
            reveal_strlit("org_freedesktop_general");
            reveal_strlit(" ");
            reveal_strlit("org_freedesktop_general ");
            reveal_strlit("DATA ");
        }
        let r1 = concat_str(DEFAULT_CONTEXT, " ");
        let r2 = concat_str(r1.as_str(), u64_to_string(cookie_id as u64).as_str());
        let r3 = concat_str(r2.as_str(), " ");
        let reply = concat_str(r3.as_str(), challenge_hex.as_str());
        assert(reply@ =~= cookie_reply(cookie_id, env.challenge@));
        self.state = State::WaitingForData {
            mechanism: Mechanism::DbusCookieSha1,
            cookie_id: Some(cookie_id),
            challenge: Some(challenge_hex),
        };
        let line = concat_str("DATA ", hex_encode(reply.as_str().as_bytes()).as_str());
        let mut lines: Vec<String> = Vec::new();
        lines.push(line);
        assert(strings_view(lines@) =~= seq![lines@[0]@]);
        ServerAction::Send(lines)
    }

    fn cookie_sha1_second_response(&mut self, challenge: &str, data: &[u8], env: &CookieEnv) -> (a: ServerAction)
        requires
            old(self).state_spec().failures < u32::MAX,
            old(self).state_spec().phase matches Phase::WaitingForData { cookie_id: Some(_), challenge: c, .. }
                && challenge@ == match c {
                Some(t) => t,
                None => Seq::<char>::empty(),
            },
        ensures
            (final(self).state_spec(), a@) == old(self).cookie_second_spec(
                old(self).state_spec(),
                old(self).state_spec().phase->WaitingForData_challenge,
                data@,
                env@,
            ),
            final(self).same_config(*old(self)),
    {
        let text = match str_from_utf8(data) {
            Some(t) => t,
            None => {
                return self.rejected();
            },
        };
        let tc = chars_of(text);
        let i = match find_char_from(tc.as_slice(), 0, ' ') {
            Some(i) => i,
            None => {
                proof {
                    crate::text::lemma_index_of_none(tc@, ' ');
                }
                return self.rejected();
            },
        };
        proof {
            crate::text::lemma_index_of_unique(tc@, ' ', i as int);
        }
        if i == 0 || i >= tc.len() - 1 {
            return self.rejected();
        }
        let client_challenge = slice_to_vec_range(tc.as_slice(), 0, i);
        let client_hash = slice_to_vec_range(tc.as_slice(), i + 1, tc.len());
        assert(client_challenge@ =~= tc@.take(i as int));
        assert(client_hash@ =~= tc@.skip(i + 1));
        if self.home_dir.is_none() {
            return self.rejected();
        }
        let cookie_hex = match &env.key_hex {
            Some(k) => k,
            None => {
                return self.rejected();
            },
        };
        proof {
            reveal_strlit(":");
        }
        let cc = string_of(client_challenge.as_slice());
        let h1 = concat_str(challenge, ":");
        let h2 = concat_str(h1.as_str(), cc.as_str());
        let h3 = concat_str(h2.as_str(), ":");
        let to_hash = concat_str(h3.as_str(), cookie_hex.as_str());
        let digest = sha1_digest(to_hash.as_str().as_bytes());
        let expected = hex_encode(digest.as_slice());
        let expected_chars = chars_of(expected.as_str());
        if !chars_eq(expected_chars.as_slice(), client_hash.as_slice()) {
            return self.rejected();
        }
        let uid = self.peer.uid;
        self.ok(Some(uid))
    }

    /// Which keyring result feeding `line` will consult, where the
    /// machine's user id is `our_uid`.
    pub fn keyring_need(&self, line: &str, our_uid: u32) -> (n: KeyringNeed)
        ensures
            n == self.keyring_need_spec(line@, our_uid),
    {
        let cs = chars_of(line);
        let (command, rest) = split_command_chars(cs.as_slice());
        match &self.state {
            State::WaitingForAuth => {
                if !is_word(command.as_slice(), "AUTH") || rest.len() == 0 {
                    return KeyringNeed::Nothing;
                }
                let i = match find_char_from(rest.as_slice(), 0, ' ') {
                    Some(i) => i,
                    None => {
                        proof {
                            crate::text::lemma_index_of_none(rest@, ' ');
                        }
                        return KeyringNeed::Nothing;
                    },
                };
                proof {
                    crate::text::lemma_index_of_unique(rest@, ' ', i as int);
                }
                let name = slice_to_vec_range(rest.as_slice(), 0, i);
                let hex_part = slice_to_vec_range(rest.as_slice(), i + 1, rest.len());
                assert(name@ =~= rest@.take(i as int));
                assert(hex_part@ =~= rest@.skip(i + 1));
                let name_text = string_of(name.as_slice());
                if Mechanism::parse(name_text.as_str()) != Some(Mechanism::DbusCookieSha1)
                    || !contains_mechanism(self.allowed_mechanisms.as_slice(), Mechanism::DbusCookieSha1) {
                    return KeyringNeed::Nothing;
                }
                let text = string_of(hex_part.as_slice());
                match hex_decode(text.as_str()) {
                    Some(data) => {
                        if self.first_step_ok(data.as_slice(), our_uid) {
                            KeyringNeed::BestKey
                        } else {
                            KeyringNeed::Nothing
                        }
                    },
                    None => KeyringNeed::Nothing,
                }
            },
            State::WaitingForData { mechanism: Mechanism::DbusCookieSha1, cookie_id, .. } => {
                if !is_word(command.as_slice(), "DATA") {
                    return KeyringNeed::Nothing;
                }
                let text = string_of(rest.as_slice());
                match hex_decode(text.as_str()) {
                    Some(data) => match cookie_id {
                        None => {
                            if self.first_step_ok(data.as_slice(), our_uid) {
                                KeyringNeed::BestKey
                            } else {
                                KeyringNeed::Nothing
                            }
                        },
                        Some(id) => {
                            if has_cookie_answer(data.as_slice()) && self.home_dir.is_some() {
                                KeyringNeed::HexKey(*id)
                            } else {
                                KeyringNeed::Nothing
                            }
                        },
                    },
                    None => KeyringNeed::Nothing,
                }
            },
            _ => KeyringNeed::Nothing,
        }
    }

    fn first_step_ok(&self, data: &[u8], our_uid: u32) -> (b: bool)
        ensures
            b == (desired_uid(data@, self.peer_uid()) == Some(self.peer_uid()) && self.peer_uid()
                == our_uid && self.has_home()),
    {
        desired_uid_of(data, self.peer.uid) == Some(self.peer.uid) && self.peer.uid == our_uid
            && self.home_dir.is_some()
    }
}

/// Whether the data is a well-formed answer to a cookie challenge.
fn has_cookie_answer(data: &[u8]) -> (b: bool)
    ensures
        b == ServerAuth::cookie_answer(data@) is Some,
{
    let text = match str_from_utf8(data) {
        Some(t) => t,
        None => {
            return false;
        },
    };
    let tc = chars_of(text);
    match find_char_from(tc.as_slice(), 0, ' ') {
        Some(i) => {
            proof {
                crate::text::lemma_index_of_unique(tc@, ' ', i as int);
            }
            !(i == 0 || i >= tc.len() - 1)
        },
        None => {
            proof {
                crate::text::lemma_index_of_none(tc@, ' ');
            }
            false
        },
    }
}

/// Whether `m` is among `ms`.
fn contains_mechanism(ms: &[Mechanism], m: Mechanism) -> (b: bool)
    ensures
        b == ms@.contains(m),
{
    let mut i: usize = 0;
    while i < ms.len()
        invariant
            i <= ms@.len(),
            forall|j: int| 0 <= j < i ==> ms@[j] != m,
        decreases ms.len() - i,
    {
        if ms[i] == m {
            assert(ms@[i as int] == m);
            return true;
        }
        i = i + 1;
    }
    false
}

/// Whether the characters `w` spell `lit`.
fn is_word(w: &[char], lit: &str) -> (b: bool)
    ensures
        b == (w@ == lit@),
{
    let l = chars_of(lit);
    chars_eq(w, l.as_slice())
}

/// The user id EXTERNAL or cookie data asks for.
fn desired_uid_of(data: &[u8], peer_uid: u32) -> (r: Option<u32>)
    ensures
        r == desired_uid(data@, peer_uid),
{
    if data.len() == 0 {
        return Some(peer_uid);
    }
    match str_from_utf8(data) {
        Some(s) => {
            let cs = chars_of(s);
            parse_u32(cs.as_slice())
        },
        None => None,
    }
}

/// A line split into its command and argument.
fn split_command_chars(line: &[char]) -> (r: (Vec<char>, Vec<char>))
    ensures
        (r.0@, r.1@) == split_command(line@),
{
    let n = line.len();
    match find_char_from(line, 0, ' ') {
        Some(i) => {
            proof {
                crate::text::lemma_index_of_unique(line@, ' ', i as int);
            }
            let cmd = slice_to_vec_range(line, 0, i);
            let after = slice_to_vec_range(line, i + 1, n);
            let rest = trim_start_chars(after.as_slice());
            assert(cmd@ =~= line@.take(i as int));
            assert(after@ =~= line@.skip(i + 1));
            (cmd, rest)
        },
        None => {
            proof {
                crate::text::lemma_index_of_none(line@, ' ');
            }
            let cmd = slice_to_vec_range(line, 0, line.len());
            assert(cmd@ =~= line@);
            (cmd, Vec::new())
        },
    }
}

} // verus!
