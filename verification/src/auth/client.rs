//! Client side of the SASL handshake: drives an ordered list of mechanisms
//! one at a time until one succeeds. The caller provides the machine's
//! user id and, for a cookie challenge, the keyring's answer:
//! `cookie_request` says which key a line will look up.

use crate::auth::crypto::{hex_decode, hex_decode_spec, hex_encode, hex_text, sha1_digest, sha1_of};
use crate::auth::mechanism::Mechanism;
use crate::auth::server::strings_view;
use crate::text::{
    chars_eq, chars_of, concat_str, decimal, find_char_from, index_of, parse_u32, slice_to_vec_range,
    str_from_utf8, string_of, trim, trim_chars, u64_to_string, unsigned_text, words, words_of,
};
use vstd::prelude::*;
use vstd::utf8::{decode_utf8, encode_utf8, valid_utf8};

verus! {

broadcast use vstd::std_specs::vec::group_vec_axioms;

/// What the caller does after feeding a line.
#[derive(Debug)]
pub enum ClientAction {
    /// Send this line to the server.
    Send(String),
    /// The server said OK; `finish_lines` gives what to send next.
    Authenticated,
    /// The mechanism was rejected; the names the server accepts, as sent.
    MechanismRejected { server_supported: Vec<String> },
    /// The server broke the protocol; why.
    ProtocolError(String),
}

/// The model of a client action.
pub enum ClientActionSpec {
    Send(Seq<char>),
    Authenticated,
    MechanismRejected { server_supported: Seq<Seq<char>> },
    ProtocolError(Seq<char>),
}

impl View for ClientAction {
    type V = ClientActionSpec;

    open spec fn view(&self) -> ClientActionSpec {
        match self {
            ClientAction::Send(s) => ClientActionSpec::Send(s@),
            ClientAction::Authenticated => ClientActionSpec::Authenticated,
            ClientAction::MechanismRejected { server_supported } => ClientActionSpec::MechanismRejected {
                server_supported: strings_view(server_supported@),
            },
            ClientAction::ProtocolError(m) => ClientActionSpec::ProtocolError(m@),
        }
    }
}

/// Where the client handshake stands.
pub enum ClientPhase {
    Init,
    WaitingForDataOrOk { mechanism: Mechanism, cookie_pending_id: Option<u32> },
    WaitingForAgreeUnixFd,
    Authenticated,
}

/// What the caller looked up for a cookie challenge: the secret of the
/// key (`Ok(None)` where the keyring has no such key, `Err` with the
/// error's text where the keyring could not be loaded), and 16 random
/// bytes for the client's challenge.
pub struct ClientCookieEnv {
    pub key_hex: Result<Option<String>, String>,
    pub challenge: Vec<u8>,
}

/// The model of a client cookie environment.
pub struct ClientCookieEnvSpec {
    pub key_hex: Result<Option<Seq<char>>, Seq<char>>,
    pub challenge: Seq<u8>,
}

impl View for ClientCookieEnv {
    type V = ClientCookieEnvSpec;

    open spec fn view(&self) -> ClientCookieEnvSpec {
        ClientCookieEnvSpec {
            key_hex: match &self.key_hex {
                Ok(Some(k)) => Ok(Some(k@)),
                Ok(None) => Ok(None),
                Err(m) => Err(m@),
            },
            challenge: self.challenge@,
        }
    }
}

/// The `AUTH` line for mechanism `m`, for a client whose user id is `uid`.
pub open spec fn auth_line(m: Mechanism, uid: u32) -> Seq<char> {
    match m {
        Mechanism::External => "AUTH EXTERNAL "@ + hex_text(encode_utf8(decimal(uid as nat))),
        Mechanism::Anonymous => "AUTH ANONYMOUS "@ + hex_text(encode_utf8("oxibus"@)),
        Mechanism::DbusCookieSha1 => "AUTH DBUS_COOKIE_SHA1 "@ + hex_text(encode_utf8(decimal(uid as nat))),
    }
}

/// A cookie challenge's fields: context, key id text, server challenge
/// (`splitn(3, ' ')`).
pub open spec fn challenge_fields(text: Seq<char>) -> Option<(Seq<char>, Seq<char>, Seq<char>)> {
    match index_of(text, ' ') {
        None => None,
        Some(i) => {
            let r = text.skip(i + 1);
            match index_of(r, ' ') {
                None => None,
                Some(j) => Some((text.take(i), r.take(j), r.skip(j + 1))),
            }
        },
    }
}

/// The key id of a cookie challenge, where it is well formed: the
/// context and the id.
pub open spec fn challenge_key(data: Seq<u8>) -> Option<(Seq<char>, u32)> {
    if !valid_utf8(data) {
        None
    } else {
        match challenge_fields(decode_utf8(data)) {
            None => None,
            Some((ctx, id_text, _)) => match unsigned_text(id_text) {
                Some(v) => if v <= u32::MAX {
                    Some((ctx, v as u32))
                } else {
                    None
                },
                None => None,
            },
        }
    }
}

/// Client side of the SASL handshake.
pub struct ClientAuth {
    mechanisms: Vec<Mechanism>,
    tried: usize,
    state: ClientPhaseExec,
    want_unix_fd: bool,
    home_dir: Option<String>,
    uid: u32,
}

#[derive(Debug)]
enum ClientPhaseExec {
    Init,
    WaitingForDataOrOk { mechanism: Mechanism, cookie_pending_id: Option<u32> },
    WaitingForAgreeUnixFd,
    Authenticated,
}

impl View for ClientPhaseExec {
    type V = ClientPhase;

    closed spec fn view(&self) -> ClientPhase {
        match self {
            ClientPhaseExec::Init => ClientPhase::Init,
            ClientPhaseExec::WaitingForDataOrOk { mechanism, cookie_pending_id } => ClientPhase::WaitingForDataOrOk {
                mechanism: *mechanism,
                cookie_pending_id: *cookie_pending_id,
            },
            ClientPhaseExec::WaitingForAgreeUnixFd => ClientPhase::WaitingForAgreeUnixFd,
            ClientPhaseExec::Authenticated => ClientPhase::Authenticated,
        }
    }
}

/// What `try_next_mechanism` does to a client `before`, leaving `after`
/// and returning `r`: where a mechanism is left, it moves to it and gives
/// its `AUTH` line; else it gives nothing and changes nothing.
pub open spec fn next_mechanism_step(before: ClientAuth, after: ClientAuth, r: Option<String>) -> bool {
    &&& after.same_config(before)
    &&& before.more_left() ==> {
        let i = before.tried_spec() as int + 1;
        &&& r matches Some(line) && line@ == auth_line(before.mechanisms_spec()[i], before.uid_spec())
        &&& after.tried_spec() == i
        &&& after.phase() == (ClientPhase::WaitingForDataOrOk {
            mechanism: before.mechanisms_spec()[i],
            cookie_pending_id: None,
        })
    }
    &&& !before.more_left() ==> r is None && after == before
}

/// Once started (at the first of `n` mechanisms), a client moves through
/// its mechanisms one by one: after `k` calls of `try_next_mechanism` that
/// each gave a line, it tries the mechanism with index `k`,
/// `has_more_mechanisms` is `k + 1 < n`, and `k < n`; so such calls give
/// a line `n - 1` times, and nothing from then on.
pub proof fn mechanisms_tried_one_by_one(cs: Seq<ClientAuth>, rs: Seq<Option<String>>)
    requires
        cs.len() == rs.len() + 1,
        cs[0].tried_spec() == 0,
        forall|i: int| 0 <= i < rs.len() ==> next_mechanism_step(cs[i], #[trigger] cs[i + 1], rs[i]),
        forall|i: int| 0 <= i < rs.len() ==> (#[trigger] rs[i]) is Some,
    ensures
        forall|i: int| 0 <= i < cs.len() ==> (#[trigger] cs[i]).tried_spec() == i
            && cs[i].mechanisms_spec() == cs[0].mechanisms_spec(),
        cs[rs.len() as int].more_left() == (rs.len() + 1 < cs[0].mechanisms_spec().len()),
        cs[0].mechanisms_spec().len() > 0 ==> rs.len() < cs[0].mechanisms_spec().len(),
    decreases rs.len(),
{
    if rs.len() > 0 {
        let k = rs.len() - 1;
        mechanisms_tried_one_by_one(cs.drop_last(), rs.drop_last());
        assert(cs.drop_last()[k] == cs[k]);
        assert(forall|i: int| 0 <= i < cs.len() - 1 ==> cs.drop_last()[i] == #[trigger] cs[i]);
        assert(next_mechanism_step(cs[k], cs[k + 1], rs[k]));
        assert(rs[k] is Some);
        assert(cs[k].more_left());
        assert forall|i: int| 0 <= i < cs.len() implies (#[trigger] cs[i]).tried_spec() == i
            && cs[i].mechanisms_spec() == cs[0].mechanisms_spec() by {
            if i < cs.len() - 1 {
                assert(cs.drop_last()[i] == cs[i]);
            }
        }
    }
}

impl ClientAuth {
    /// The mechanisms to try, in order.
    pub closed spec fn mechanisms_spec(&self) -> Seq<Mechanism> {
        self.mechanisms@
    }

    /// The index of the mechanism being tried.
    pub closed spec fn tried_spec(&self) -> nat {
        self.tried as nat
    }

    /// Where the handshake stands.
    pub closed spec fn phase(&self) -> ClientPhase {
        self.state@
    }

    /// Whether unix fd passing is asked for.
    pub closed spec fn wants_fds(&self) -> bool {
        self.want_unix_fd
    }

    /// Whether a home directory (for the keyring) is known.
    pub closed spec fn has_home(&self) -> bool {
        self.home_dir is Some
    }

    /// The client's user id.
    pub closed spec fn uid_spec(&self) -> u32 {
        self.uid
    }

    /// The mechanism being tried is one of the list whenever an exchange
    /// is under way.
    pub closed spec fn wf(&self) -> bool {
        self.phase() is WaitingForDataOrOk ==> self.tried_spec() < self.mechanisms_spec().len()
    }

    /// The same mechanisms, wishes, home and user as `other`.
    pub closed spec fn same_config(&self, other: ClientAuth) -> bool {
        &&& self.mechanisms@ == other.mechanisms@
        &&& self.want_unix_fd == other.want_unix_fd
        &&& self.home_dir is Some == other.home_dir is Some
        &&& self.uid == other.uid
    }

    /// A client that tries `mechanisms` in order, as user `uid`, asking for
    /// unix fd passing where `want_unix_fd`; `home_dir` is where the
    /// keyring lives.
    pub fn new(mechanisms: Vec<Mechanism>, want_unix_fd: bool, home_dir: Option<String>, uid: u32) -> (c: ClientAuth)
        ensures
            c.mechanisms_spec() == mechanisms@,
            c.tried_spec() == 0,
            c.phase() == ClientPhase::Init,
            c.wants_fds() == want_unix_fd,
            c.has_home() == home_dir is Some,
            c.uid_spec() == uid,
            c.wf(),
    {
        ClientAuth { mechanisms, tried: 0, state: ClientPhaseExec::Init, want_unix_fd, home_dir, uid }
    }

    fn begin_mechanism(&mut self, index: usize) -> (line: String)
        requires
            index < old(self).mechanisms_spec().len(),
        ensures
            final(self).same_config(*old(self)),
            final(self).tried_spec() == index,
            final(self).phase() == (ClientPhase::WaitingForDataOrOk {
                mechanism: old(self).mechanisms_spec()[index as int],
                cookie_pending_id: None,
            }),
            line@ == auth_line(old(self).mechanisms_spec()[index as int], old(self).uid_spec()),
    {
        self.tried = index;
        let mechanism = self.mechanisms[index];
        self.state = ClientPhaseExec::WaitingForDataOrOk { mechanism, cookie_pending_id: None };
        match mechanism {
            Mechanism::External => {
                let uid = u64_to_string(self.uid as u64);
                concat_str("AUTH EXTERNAL ", hex_encode(uid.as_str().as_bytes()).as_str())
            },
            Mechanism::Anonymous => concat_str("AUTH ANONYMOUS ", hex_encode("oxibus".as_bytes()).as_str()),
            Mechanism::DbusCookieSha1 => {
                let uid = u64_to_string(self.uid as u64);
                concat_str("AUTH DBUS_COOKIE_SHA1 ", hex_encode(uid.as_str().as_bytes()).as_str())
            },
        }
    }

    /// The first line to send once the leading NUL byte has gone out.
    pub fn start(&mut self) -> (line: String)
        requires
            old(self).mechanisms_spec().len() > 0,
        ensures
            final(self).same_config(*old(self)),
            final(self).tried_spec() == 0,
            final(self).phase() == (ClientPhase::WaitingForDataOrOk {
                mechanism: old(self).mechanisms_spec()[0],
                cookie_pending_id: None,
            }),
            line@ == auth_line(old(self).mechanisms_spec()[0], old(self).uid_spec()),
            final(self).wf(),
    {
        self.begin_mechanism(0)
    }

    /// Whether a mechanism is left to try after the current one.
    pub open spec fn more_left(&self) -> bool {
        self.tried_spec() + 1 < self.mechanisms_spec().len()
    }

    /// Whether a mechanism is left to try after the current one.
    pub fn has_more_mechanisms(&self) -> (b: bool)
        ensures
            b == self.more_left(),
    {
        self.tried < self.mechanisms.len() && self.tried + 1 < self.mechanisms.len()
    }

    /// Move to the next mechanism and give its `AUTH` line; `None` where
    /// the list is exhausted.
    pub fn try_next_mechanism(&mut self) -> (r: Option<String>)
        ensures
            next_mechanism_step(*old(self), *final(self), r),
            old(self).wf() ==> final(self).wf(),
    {
        let len = self.mechanisms.len();
        if self.has_more_mechanisms() {
            assert(self.tried + 1 < len);
            let next = self.tried + 1;
            Some(self.begin_mechanism(next))
        } else {
            None
        }
    }

    /// What the client owes for the command `cmd` with argument `rest`
    /// (the text after the first space).
    pub open spec fn feed_spec(&self, line: Seq<char>, env: ClientCookieEnvSpec) -> (ClientPhase, nat, ClientActionSpec) {
        let (cmd, rest) = match index_of(line, ' ') {
            Some(i) => (line.take(i), line.skip(i + 1)),
            None => (line, Seq::empty()),
        };
        if cmd == "OK"@ {
            (ClientPhase::Authenticated, self.tried_spec(), ClientActionSpec::Authenticated)
        } else if cmd == "REJECTED"@ {
            (self.phase(), self.tried_spec(), ClientActionSpec::MechanismRejected { server_supported: words(rest) })
        } else if cmd == "DATA"@ {
            self.data_spec(trim(rest), env)
        } else if cmd == "ERROR"@ {
            (self.phase(), self.tried_spec(), ClientActionSpec::ProtocolError(rest))
        } else if cmd == "AGREE_UNIX_FD"@ {
            (self.phase(), self.tried_spec(), ClientActionSpec::Authenticated)
        } else {
            (self.phase(), self.tried_spec(), ClientActionSpec::ProtocolError("unexpected server command: "@ + cmd))
        }
    }

    /// What a `DATA` line with hex payload `hex` does.
    pub open spec fn data_spec(&self, hex: Seq<char>, env: ClientCookieEnvSpec) -> (ClientPhase, nat, ClientActionSpec) {
        let same = |a: ClientActionSpec| (self.phase(), self.tried_spec(), a);
        match self.phase() {
            ClientPhase::WaitingForDataOrOk { mechanism, cookie_pending_id } => match hex_decode_spec(encode_utf8(hex)) {
                None => same(ClientActionSpec::ProtocolError("bad hex in DATA"@)),
                Some(data) => match mechanism {
                    Mechanism::DbusCookieSha1 => if cookie_pending_id is Some {
                        same(ClientActionSpec::ProtocolError("unexpected second DATA challenge for DBUS_COOKIE_SHA1"@))
                    } else {
                        self.cookie_spec(data, env)
                    },
                    _ => (
                        ClientPhase::WaitingForDataOrOk {
                            mechanism: self.mechanisms_spec()[self.tried_spec() as int],
                            cookie_pending_id: None,
                        },
                        self.tried_spec(),
                        ClientActionSpec::Send(auth_line(self.mechanisms_spec()[self.tried_spec() as int], self.uid_spec())),
                    ),
                },
            },
            _ => same(ClientActionSpec::ProtocolError("DATA received in wrong state"@)),
        }
    }

    /// The answer to a cookie challenge `data`.
    pub open spec fn cookie_spec(&self, data: Seq<u8>, env: ClientCookieEnvSpec) -> (ClientPhase, nat, ClientActionSpec) {
        let same = |a: ClientActionSpec| (self.phase(), self.tried_spec(), a);
        if !valid_utf8(data) {
            same(ClientActionSpec::ProtocolError("non-UTF8 cookie challenge"@))
        } else {
            match challenge_fields(decode_utf8(data)) {
                None => same(ClientActionSpec::ProtocolError("malformed cookie challenge"@)),
                Some((_, id_text, server_challenge)) => match challenge_key(data) {
                    None => same(ClientActionSpec::ProtocolError("bad cookie id"@)),
                    Some((_, id)) => if !self.has_home() {
                        same(ClientActionSpec::ProtocolError("no HOME for keyring"@))
                    } else {
                        match env.key_hex {
                            Err(m) => same(ClientActionSpec::ProtocolError(m)),
                            Ok(None) => same(ClientActionSpec::ProtocolError("unknown cookie id "@ + decimal(id as nat))),
                            Ok(Some(kh)) => {
                                let cc = hex_text(env.challenge);
                                let hash = hex_text(sha1_of(encode_utf8(server_challenge + ":"@ + cc + ":"@ + kh)));
                                (
                                    ClientPhase::WaitingForDataOrOk {
                                        mechanism: Mechanism::DbusCookieSha1,
                                        cookie_pending_id: Some(id),
                                    },
                                    self.tried_spec(),
                                    ClientActionSpec::Send("DATA "@ + hex_text(encode_utf8(cc + " "@ + hash))),
                                )
                            },
                        }
                    },
                },
            }
        }
    }

    /// Feed one line from the server (without CRLF) and learn what to do;
    /// `env` holds what `cookie_request` asked for.
    pub fn feed_line(&mut self, line: &str, env: &ClientCookieEnv) -> (a: ClientAction)
        requires
            old(self).wf(),
        ensures
            final(self).wf(),
            final(self).same_config(*old(self)),
            (final(self).phase(), final(self).tried_spec(), a@) == old(self).feed_spec(line@, env@),
    {
        let cs = chars_of(line);
        let n = cs.len();
        let (command, rest) = match find_char_from(cs.as_slice(), 0, ' ') {
            Some(i) => {
                proof {
                    crate::text::lemma_index_of_unique(cs@, ' ', i as int);
                }
                let c = slice_to_vec_range(cs.as_slice(), 0, i);
                let r = slice_to_vec_range(cs.as_slice(), i + 1, n);
                assert(c@ =~= cs@.take(i as int));
                assert(r@ =~= cs@.skip(i + 1));
                (c, r)
            },
            None => {
                proof {
                    crate::text::lemma_index_of_none(cs@, ' ');
                }
                let c = slice_to_vec_range(cs.as_slice(), 0, n);
                assert(c@ =~= cs@);
                (c, Vec::new())
            },
        };
        if word(command.as_slice(), "OK") {
            self.state = ClientPhaseExec::Authenticated;
            ClientAction::Authenticated
        } else if word(command.as_slice(), "REJECTED") {
            let ws = words_of(rest.as_slice());
            let mut names: Vec<String> = Vec::new();
            let mut i: usize = 0;
            while i < ws.len()
                invariant
                    i <= ws@.len(),
                    names@.len() == i,
                    forall|k: int| 0 <= k < i ==> (#[trigger] names@[k])@ == ws@[k]@,
                decreases ws.len() - i,
            {
                names.push(string_of(ws[i].as_slice()));
                i = i + 1;
            }
            assert(strings_view(names@) =~= words(rest@));
            ClientAction::MechanismRejected { server_supported: names }
        } else if word(command.as_slice(), "DATA") {
            let payload = trim_chars(rest.as_slice());
            self.handle_data(payload.as_slice(), env)
        } else if word(command.as_slice(), "ERROR") {
            ClientAction::ProtocolError(string_of(rest.as_slice()))
        } else if word(command.as_slice(), "AGREE_UNIX_FD") {
            ClientAction::Authenticated
        } else {
            let c = string_of(command.as_slice());
            ClientAction::ProtocolError(concat_str("unexpected server command: ", c.as_str()))
        }
    }

    fn handle_data(&mut self, hex_payload: &[char], env: &ClientCookieEnv) -> (a: ClientAction)
        requires
            old(self).wf(),
        ensures
            final(self).wf(),
            final(self).same_config(*old(self)),
            (final(self).phase(), final(self).tried_spec(), a@) == old(self).data_spec(hex_payload@, env@),
    {
        let (mechanism, pending) = match &self.state {
            ClientPhaseExec::WaitingForDataOrOk { mechanism, cookie_pending_id } => (*mechanism, *cookie_pending_id),
            _ => {
                return ClientAction::ProtocolError("DATA received in wrong state".to_owned());
            },
        };
        let text = string_of(hex_payload);
        let data = match hex_decode(text.as_str()) {
            Some(d) => d,
            None => {
                return ClientAction::ProtocolError("bad hex in DATA".to_owned());
            },
        };
        match mechanism {
            Mechanism::DbusCookieSha1 => {
                if pending.is_some() {
                    return ClientAction::ProtocolError(
                        "unexpected second DATA challenge for DBUS_COOKIE_SHA1".to_owned(),
                    );
                }
                self.respond_to_cookie_challenge(data.as_slice(), env)
            },
            _ => {
                let t = self.tried;
                ClientAction::Send(self.begin_mechanism(t))
            },
        }
    }

    fn respond_to_cookie_challenge(&mut self, data: &[u8], env: &ClientCookieEnv) -> (a: ClientAction)
        ensures
            final(self).same_config(*old(self)),
            (final(self).phase(), final(self).tried_spec(), a@) == old(self).cookie_spec(data@, env@),
    {
        let text = match str_from_utf8(data) {
            Some(t) => t,
            None => {
                return ClientAction::ProtocolError("non-UTF8 cookie challenge".to_owned());
            },
        };
        let fields = challenge_fields_of(text);
        let (id_text, server_challenge) = match fields {
            Some((_, i, s)) => (i, s),
            None => {
                return ClientAction::ProtocolError("malformed cookie challenge".to_owned());
            },
        };
        let cookie_id = match parse_u32(id_text.as_slice()) {
            Some(id) => id,
            None => {
                return ClientAction::ProtocolError("bad cookie id".to_owned());
            },
        };
        if self.home_dir.is_none() {
            return ClientAction::ProtocolError("no HOME for keyring".to_owned());
        }
        let cookie_hex = match &env.key_hex {
            Err(m) => {
                return ClientAction::ProtocolError(m.clone());
            },
            Ok(None) => {
                let idt = u64_to_string(cookie_id as u64);
                return ClientAction::ProtocolError(concat_str("unknown cookie id ", idt.as_str()));
            },
            Ok(Some(k)) => k,
        };
        let client_challenge_hex = hex_encode(env.challenge.as_slice());
        proof {
            reveal_strlit(":");
            reveal_strlit(" ");
        }
        let sc = string_of(server_challenge.as_slice());
        let h1 = concat_str(sc.as_str(), ":");
        let h2 = concat_str(h1.as_str(), client_challenge_hex.as_str());
        let h3 = concat_str(h2.as_str(), ":");
        let to_hash = concat_str(h3.as_str(), cookie_hex.as_str());
        let hash_hex = hex_encode(sha1_digest(to_hash.as_str().as_bytes()).as_slice());
        let r1 = concat_str(client_challenge_hex.as_str(), " ");
        let response = concat_str(r1.as_str(), hash_hex.as_str());
        self.state = ClientPhaseExec::WaitingForDataOrOk {
            mechanism: Mechanism::DbusCookieSha1,
            cookie_pending_id: Some(cookie_id),
        };
        ClientAction::Send(concat_str("DATA ", hex_encode(response.as_str().as_bytes()).as_str()))
    }

    /// The keyring context and key id that feeding `line` will look up,
    /// if it does.
    pub open spec fn cookie_request_spec(&self, line: Seq<char>) -> Option<(Seq<char>, u32)> {
        let (cmd, rest) = match index_of(line, ' ') {
            Some(i) => (line.take(i), line.skip(i + 1)),
            None => (line, Seq::empty()),
        };
        if cmd == "DATA"@ && self.has_home() && self.phase() == (ClientPhase::WaitingForDataOrOk {
            mechanism: Mechanism::DbusCookieSha1,
            cookie_pending_id: None,
        }) {
            match hex_decode_spec(encode_utf8(trim(rest))) {
                Some(data) => challenge_key(data),
                None => None,
            }
        } else {
            None
        }
    }

    /// The keyring context and key id that feeding `line` will look up.
    pub fn cookie_request(&self, line: &str) -> (r: Option<(String, u32)>)
        ensures
            match self.cookie_request_spec(line@) {
                Some((ctx, id)) => r matches Some((c, i)) && c@ == ctx && i == id,
                None => r is None,
            },
    {
        let cs = chars_of(line);
        let n = cs.len();
        let (command, rest) = match find_char_from(cs.as_slice(), 0, ' ') {
            Some(i) => {
                proof {
                    crate::text::lemma_index_of_unique(cs@, ' ', i as int);
                }
                let c = slice_to_vec_range(cs.as_slice(), 0, i);
                let r = slice_to_vec_range(cs.as_slice(), i + 1, n);
                assert(c@ =~= cs@.take(i as int));
                assert(r@ =~= cs@.skip(i + 1));
                (c, r)
            },
            None => {
                proof {
                    crate::text::lemma_index_of_none(cs@, ' ');
                }
                let c = slice_to_vec_range(cs.as_slice(), 0, n);
                assert(c@ =~= cs@);
                (c, Vec::new())
            },
        };
        if !word(command.as_slice(), "DATA") || self.home_dir.is_none() {
            return None;
        }
        match &self.state {
            ClientPhaseExec::WaitingForDataOrOk { mechanism: Mechanism::DbusCookieSha1, cookie_pending_id: None } => {},
            _ => {
                return None;
            },
        }
        let payload = trim_chars(rest.as_slice());
        let text = string_of(payload.as_slice());
        let data = match hex_decode(text.as_str()) {
            Some(d) => d,
            None => {
                return None;
            },
        };
        let t = match str_from_utf8(data.as_slice()) {
            Some(t) => t,
            None => {
                return None;
            },
        };
        match challenge_fields_of(t) {
            Some((ctx, id_text, _)) => match parse_u32(id_text.as_slice()) {
                Some(id) => Some((string_of(ctx.as_slice()), id)),
                None => None,
            },
            None => None,
        }
    }

    /// Once authenticated: the lines that finish the handshake, and whether
    /// an `AGREE_UNIX_FD` reply must be read before binary framing.
    pub fn finish_lines(&mut self) -> (r: (Vec<String>, bool))
        ensures
            final(self).same_config(*old(self)),
            final(self).tried_spec() == old(self).tried_spec(),
            old(self).wf() ==> final(self).wf(),
            old(self).wants_fds() ==> strings_view(r.0@) == seq!["NEGOTIATE_UNIX_FD"@, "BEGIN"@] && r.1
                && final(self).phase() == ClientPhase::WaitingForAgreeUnixFd,
            !old(self).wants_fds() ==> strings_view(r.0@) == seq!["BEGIN"@] && !r.1 && final(self).phase()
                == old(self).phase(),
    {
        let mut lines: Vec<String> = Vec::new();
        if self.want_unix_fd {
            self.state = ClientPhaseExec::WaitingForAgreeUnixFd;
            lines.push("NEGOTIATE_UNIX_FD".to_owned());
            lines.push("BEGIN".to_owned());
            assert(strings_view(lines@) =~= seq![lines@[0]@, lines@[1]@]);
            (lines, true)
        } else {
            lines.push("BEGIN".to_owned());
            assert(strings_view(lines@) =~= seq![lines@[0]@]);
            (lines, false)
        }
    }
}

/// The fields of a cookie challenge text.
fn challenge_fields_of(text: &str) -> (r: Option<(Vec<char>, Vec<char>, Vec<char>)>)
    ensures
        match challenge_fields(text@) {
            Some((a, b, c)) => r matches Some((x, y, z)) && x@ == a && y@ == b && z@ == c,
            None => r is None,
        },
{
    let cs = chars_of(text);
    let n = cs.len();
    let i = match find_char_from(cs.as_slice(), 0, ' ') {
        Some(i) => i,
        None => {
            proof {
                crate::text::lemma_index_of_none(cs@, ' ');
            }
            return None;
        },
    };
    proof {
        crate::text::lemma_index_of_unique(cs@, ' ', i as int);
    }
    let first = slice_to_vec_range(cs.as_slice(), 0, i);
    let r = slice_to_vec_range(cs.as_slice(), i + 1, n);
    assert(first@ =~= cs@.take(i as int));
    assert(r@ =~= cs@.skip(i + 1));
    let m = r.len();
    let j = match find_char_from(r.as_slice(), 0, ' ') {
        Some(j) => j,
        None => {
            proof {
                crate::text::lemma_index_of_none(r@, ' ');
            }
            return None;
        },
    };
    proof {
        crate::text::lemma_index_of_unique(r@, ' ', j as int);
    }
    let second = slice_to_vec_range(r.as_slice(), 0, j);
    let third = slice_to_vec_range(r.as_slice(), j + 1, m);
    assert(second@ =~= r@.take(j as int));
    assert(third@ =~= r@.skip(j + 1));
    Some((first, second, third))
}

/// Whether the characters `w` spell `lit`.
fn word(w: &[char], lit: &str) -> (b: bool)
    ensures
        b == (w@ == lit@),
{
    let l = chars_of(lit);
    chars_eq(w, l.as_slice())
}

} // verus!
