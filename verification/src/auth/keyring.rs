//! The DBUS_COOKIE_SHA1 keyring: its file format, and which key to use.
//! Reading, locking and writing the file is the caller's part.

use crate::auth::crypto::{hex_decode, hex_decode_spec, hex_encode, hex_text, random_bytes};
use crate::auth::error::AuthError;
use crate::text::{
    chars_of, concat_str, find_char_from, i64_to_string, index_of, parse_i64, parse_u32,
    signed_decimal, signed_text, slice_to_vec_range, split_chars, split_on, string_of, trim,
    trim_chars, u64_to_string, unsigned_text, decimal,
};
use vstd::prelude::*;
use vstd::utf8::encode_utf8;

verus! {

broadcast use vstd::std_specs::vec::group_vec_axioms;

/// The keyring context the bus uses.
pub const DEFAULT_CONTEXT: &'static str = "org_freedesktop_general";

/// Length of a new secret, in bytes.
pub const KEY_LENGTH_BYTES: usize = 24;

/// A key newer than this many seconds is reused.
pub const NEW_KEY_TIMEOUT_SECONDS: i64 = 300;

/// A key older than this many seconds is dropped.
pub const EXPIRE_KEYS_TIMEOUT_SECONDS: i64 = 420;

/// One key of a keyring.
#[derive(Debug)]
pub struct Key {
    pub id: u32,
    pub created: i64,
    pub secret: Vec<u8>,
}

/// The model of a key.
pub struct KeySpec {
    pub id: u32,
    pub created: i64,
    pub secret: Seq<u8>,
}

impl View for Key {
    type V = KeySpec;

    open spec fn view(&self) -> KeySpec {
        KeySpec { id: self.id, created: self.created, secret: self.secret@ }
    }
}

/// The models of the keys `ks`.
pub open spec fn keys_view(ks: Seq<Key>) -> Seq<KeySpec> {
    Seq::new(ks.len(), |i: int| ks[i]@)
}

/// Why a keyring file does not parse.
pub enum KeyringErr {
    /// A line whose fields are missing or not numbers; what is wrong.
    Corrupt(Seq<char>),
    /// A secret that is not hexadecimal.
    Hex,
}

/// The error reported for `e`.
pub open spec fn is_keyring_error(ae: AuthError, e: KeyringErr) -> bool {
    match e {
        KeyringErr::Corrupt(m) => ae matches AuthError::KeyringCorrupt(t) && t@ == m,
        KeyringErr::Hex => ae == AuthError::HexDecode,
    }
}

/// The `u32` that `s` is the decimal text of.
pub open spec fn u32_text(s: Seq<char>) -> Option<u32> {
    match unsigned_text(s) {
        Some(v) => if v <= u32::MAX {
            Some(v as u32)
        } else {
            None
        },
        None => None,
    }
}

/// The `i64` that `s` is the decimal text of.
pub open spec fn i64_text(s: Seq<char>) -> Option<i64> {
    match signed_text(s) {
        Some(v) => if i64::MIN <= v <= i64::MAX {
            Some(v as i64)
        } else {
            None
        },
        None => None,
    }
}

/// The key that a (trimmed, non-empty) keyring line `t` describes: `id
/// created secret`, separated by single spaces, the secret in hex.
pub open spec fn line_key(t: Seq<char>) -> Result<KeySpec, KeyringErr> {
    match index_of(t, ' ') {
        None => if u32_text(t) is Some {
            Err(KeyringErr::Corrupt("missing timestamp"@))
        } else {
            Err(KeyringErr::Corrupt("bad id"@))
        },
        Some(i) => {
            let r = t.skip(i + 1);
            match u32_text(t.take(i)) {
                None => Err(KeyringErr::Corrupt("bad id"@)),
                Some(id) => match index_of(r, ' ') {
                    None => if i64_text(r) is Some {
                        Err(KeyringErr::Corrupt("missing secret"@))
                    } else {
                        Err(KeyringErr::Corrupt("bad timestamp"@))
                    },
                    Some(j) => match i64_text(r.take(j)) {
                        None => Err(KeyringErr::Corrupt("bad timestamp"@)),
                        Some(c) => match hex_decode_spec(encode_utf8(r.skip(j + 1))) {
                            Some(sec) => Ok(KeySpec { id, created: c, secret: sec }),
                            None => Err(KeyringErr::Hex),
                        },
                    },
                },
            }
        },
    }
}

/// The keys of the keyring lines `lines` (blank ones skipped), or the
/// first line's error.
pub open spec fn keys_of_lines(lines: Seq<Seq<char>>) -> Result<Seq<KeySpec>, KeyringErr>
    decreases lines.len(),
{
    if lines.len() == 0 {
        Ok(Seq::empty())
    } else {
        match keys_of_lines(lines.drop_last()) {
            Err(e) => Err(e),
            Ok(ks) => {
                let t = trim(lines.last());
                if t.len() == 0 {
                    Ok(ks)
                } else {
                    match line_key(t) {
                        Ok(k) => Ok(ks.push(k)),
                        Err(e) => Err(e),
                    }
                }
            },
        }
    }
}

/// The keys of a keyring file's text.
pub open spec fn keyring_text_keys(text: Seq<char>) -> Result<Seq<KeySpec>, KeyringErr> {
    keys_of_lines(split_on(text, '\n'))
}

proof fn lemma_keys_err_prefix(ls: Seq<Seq<char>>, k: int)
    requires
        0 <= k <= ls.len(),
        keys_of_lines(ls.take(k)) is Err,
    ensures
        keys_of_lines(ls) == keys_of_lines(ls.take(k)),
    decreases ls.len() - k,
{
    if k < ls.len() {
        assert(ls.take(k + 1).drop_last() =~= ls.take(k));
        lemma_keys_err_prefix(ls, k + 1);
    } else {
        assert(ls.take(k) =~= ls);
    }
}

fn corrupt(m: &str) -> (e: AuthError)
    ensures
        e matches AuthError::KeyringCorrupt(t) && t@ == m@,
{
    AuthError::KeyringCorrupt(m.to_owned())
}

/// The key of one trimmed, non-empty keyring line.
fn parse_line(t: &[char]) -> (r: Result<Key, AuthError>)
    ensures
        match line_key(t@) {
            Ok(k) => r matches Ok(key) && key@ == k,
            Err(e) => r matches Err(ae) && is_keyring_error(ae, e),
        },
{
    let n = t.len();
    proof {
        reveal_strlit("missing timestamp");
        reveal_strlit("bad id");
        reveal_strlit("missing secret");
        reveal_strlit("bad timestamp");
    }
    let i = match find_char_from(t, 0, ' ') {
        None => {
            proof {
                crate::text::lemma_index_of_none(t@, ' ');
            }
            return match parse_u32(t) {
                Some(_) => Err(corrupt("missing timestamp")),
                None => Err(corrupt("bad id")),
            };
        },
        Some(i) => i,
    };
    proof {
        crate::text::lemma_index_of_unique(t@, ' ', i as int);
    }
    let p0 = slice_to_vec_range(t, 0, i);
    let r = slice_to_vec_range(t, i + 1, t.len());
    assert(p0@ =~= t@.take(i as int));
    assert(r@ =~= t@.skip(i + 1));
    let id = match parse_u32(p0.as_slice()) {
        Some(id) => id,
        None => {
            return Err(corrupt("bad id"));
        },
    };
    let j = match find_char_from(r.as_slice(), 0, ' ') {
        None => {
            proof {
                crate::text::lemma_index_of_none(r@, ' ');
            }
            return match parse_i64(r.as_slice()) {
                Some(_) => Err(corrupt("missing secret")),
                None => Err(corrupt("bad timestamp")),
            };
        },
        Some(j) => j,
    };
    proof {
        crate::text::lemma_index_of_unique(r@, ' ', j as int);
    }
    let p1 = slice_to_vec_range(r.as_slice(), 0, j);
    let p2 = slice_to_vec_range(r.as_slice(), j + 1, r.len());
    assert(p1@ =~= r@.take(j as int));
    assert(p2@ =~= r@.skip(j + 1));
    let created = match parse_i64(p1.as_slice()) {
        Some(c) => c,
        None => {
            return Err(corrupt("bad timestamp"));
        },
    };
    let secret_text = string_of(p2.as_slice());
    match hex_decode(secret_text.as_str()) {
        Some(secret) => Ok(Key { id, created, secret }),
        None => Err(AuthError::HexDecode),
    }
}

/// The keys of a keyring file's text: one `id created secret` line per
/// key, blank lines skipped.
pub fn parse_keyring_text(text: &str) -> (r: Result<Vec<Key>, AuthError>)
    ensures
        match keyring_text_keys(text@) {
            Ok(ks) => r matches Ok(v) && keys_view(v@) == ks,
            Err(e) => r matches Err(ae) && is_keyring_error(ae, e),
        },
{
    let cs = chars_of(text);
    let lines = split_chars(cs.as_slice(), '\n');
    let ghost ls = split_on(text@, '\n');
    let mut keys: Vec<Key> = Vec::new();
    let mut i: usize = 0;
    proof {
        assert(ls.take(0) =~= Seq::<Seq<char>>::empty());
        assert(keys_view(keys@) =~= Seq::<KeySpec>::empty());
    }
    while i < lines.len()
        invariant
            ls == split_on(text@, '\n'),
            lines@.len() == ls.len(),
            forall|k: int| 0 <= k < lines@.len() ==> #[trigger] lines@[k]@ == ls[k],
            i <= lines@.len(),
            keys_of_lines(ls.take(i as int)) == Ok::<Seq<KeySpec>, KeyringErr>(keys_view(keys@)),
        decreases lines.len() - i,
    {
        proof {
            assert(ls.take(i + 1).drop_last() =~= ls.take(i as int));
            assert(ls.take(i + 1).last() == ls[i as int]);
        }
        let t = trim_chars(lines[i].as_slice());
        if t.len() > 0 {
            match parse_line(t.as_slice()) {
                Ok(k) => {
                    let ghost before = keys@;
                    keys.push(k);
                    assert(keys_view(keys@) =~= keys_view(before).push(keys@.last()@));
                },
                Err(e) => {
                    proof {
                        lemma_keys_err_prefix(ls, i + 1);
                    }
                    return Err(e);
                },
            }
        }
        i = i + 1;
    }
    assert(ls.take(ls.len() as int) =~= ls);
    Ok(keys)
}

/// The index of the key to reuse at time `now`: among the keys younger
/// than the reuse timeout, the newest, the last of equals.
pub open spec fn recent_index(ks: Seq<KeySpec>, now: i64) -> Option<int>
    decreases ks.len(),
{
    if ks.len() == 0 {
        None
    } else {
        let k = ks.last();
        let young = now - k.created < NEW_KEY_TIMEOUT_SECONDS;
        match recent_index(ks.drop_last(), now) {
            None => if young {
                Some(ks.len() - 1)
            } else {
                None
            },
            Some(i) => if young && ks[i].created <= k.created {
                Some(ks.len() - 1)
            } else {
                Some(i)
            },
        }
    }
}

/// What `best_key` at time `now` does to the keys `before`, leaving
/// `after` and returning `r`: the recent key is handed out and nothing
/// changes; where there is none, the expired keys are dropped and a key
/// is added with a fresh id below 2^31, created `now`, with a secret of
/// `KEY_LENGTH_BYTES` bytes, and the flag says so.
pub open spec fn best_key_outcome(before: Seq<KeySpec>, now: i64, after: Seq<KeySpec>, r: (u32, bool)) -> bool {
    match recent_index(before, now) {
        Some(i) => {
            &&& r == (before[i].id, false)
            &&& after == before
        },
        None => {
            let kept = unexpired(before, now);
            &&& r.1
            &&& r.0 <= 0x7fff_ffff
            &&& key_with_id(kept, r.0) is None
            &&& after.len() == kept.len() + 1
            &&& after.drop_last() == kept
            &&& after.last().id == r.0
            &&& after.last().created == now
            &&& after.last().secret.len() == KEY_LENGTH_BYTES
        },
    }
}

/// Whether a key created at `created` is young enough to be reused at `now`.
pub open spec fn young(created: i64, now: i64) -> bool {
    now - created < NEW_KEY_TIMEOUT_SECONDS
}

/// The keys that are not expired at time `now`.
pub open spec fn unexpired(ks: Seq<KeySpec>, now: i64) -> Seq<KeySpec>
    decreases ks.len(),
{
    if ks.len() == 0 {
        Seq::empty()
    } else if now - ks.last().created < EXPIRE_KEYS_TIMEOUT_SECONDS {
        unexpired(ks.drop_last(), now).push(ks.last())
    } else {
        unexpired(ks.drop_last(), now)
    }
}

/// The first key with id `id`.
pub open spec fn key_with_id(ks: Seq<KeySpec>, id: u32) -> Option<KeySpec>
    decreases ks.len(),
{
    if ks.len() == 0 {
        None
    } else if ks[0].id == id {
        Some(ks[0])
    } else {
        key_with_id(ks.drop_first(), id)
    }
}

/// The text of a keyring file holding the keys `ks`.
pub open spec fn keyring_file_text(ks: Seq<KeySpec>) -> Seq<char>
    decreases ks.len(),
{
    if ks.len() == 0 {
        Seq::empty()
    } else {
        keyring_file_text(ks.drop_last()) + decimal(ks.last().id as nat) + seq![' ']
            + signed_decimal(ks.last().created as int) + seq![' '] + hex_text(ks.last().secret)
            + seq!['\n']
    }
}

/// The directory of the keyrings under the home directory `home`.
pub open spec fn keyring_dir(home: Seq<char>) -> Seq<char> {
    crate::text::path_join(home, ".dbus-keyrings"@)
}

/// The keys of one keyring context, in memory.
pub struct Keyring {
    dir: String,
    context: String,
    keys: Vec<Key>,
}

impl Keyring {
    /// The keyring directory.
    pub closed spec fn dir_spec(&self) -> Seq<char> {
        self.dir@
    }

    /// The keyring context.
    pub closed spec fn context_spec(&self) -> Seq<char> {
        self.context@
    }

    /// The keys.
    pub closed spec fn keys_spec(&self) -> Seq<KeySpec> {
        keys_view(self.keys@)
    }

    /// A keyring of directory `dir` and context `context` holding `keys`.
    pub fn new(dir: String, context: String, keys: Vec<Key>) -> (k: Keyring)
        ensures
            k.dir_spec() == dir@,
            k.context_spec() == context@,
            k.keys_spec() == keys_view(keys@),
    {
        Keyring { dir, context, keys }
    }

    /// The keyring directory under the home directory `home`.
    pub fn dir_for_home(home: &str) -> (d: String)
        ensures
            d@ == keyring_dir(home@),
    {
        proof {
            reveal_strlit(".dbus-keyrings");
        }
        crate::text::join_path(home, ".dbus-keyrings")
    }

    /// The path of the keyring file.
    pub fn file_path(&self) -> (p: String)
        ensures
            p@ == crate::text::path_join(self.dir_spec(), self.context_spec()),
    {
        crate::text::join_path(self.dir.as_str(), self.context.as_str())
    }

    /// The path of the lock file.
    pub fn lock_path(&self) -> (p: String)
        ensures
            p@ == crate::text::path_join(self.dir_spec(), self.context_spec() + ".lock"@),
    {
        let name = concat_str(self.context.as_str(), ".lock");
        crate::text::join_path(self.dir.as_str(), name.as_str())
    }

    /// Replace the keys by those read from the file again.
    pub fn replace_keys(&mut self, keys: Vec<Key>)
        ensures
            final(self).keys_spec() == keys_view(keys@),
            final(self).dir_spec() == old(self).dir_spec(),
            final(self).context_spec() == old(self).context_spec(),
    {
        self.keys = keys;
    }

    /// The number of keys.
    pub fn key_count(&self) -> (n: usize)
        ensures
            n == self.keys_spec().len(),
    {
        self.keys.len()
    }

    /// The id of the key to reuse at time `now`, if any.
    pub fn find_recent(&self, now: i64) -> (r: Option<u32>)
        ensures
            match recent_index(self.keys_spec(), now) {
                Some(i) => r == Some(self.keys_spec()[i].id),
                None => r is None,
            },
    {
        let ghost ks = self.keys_spec();
        let mut best: Option<usize> = None;
        let mut i: usize = 0;
        proof {
            assert(ks.take(0) =~= Seq::<KeySpec>::empty());
        }
        while i < self.keys.len()
            invariant
                ks == self.keys_spec(),
                i <= ks.len(),
                best == match recent_index(ks.take(i as int), now) {
                    Some(j) => Some(j as usize),
                    None => None::<usize>,
                },
                recent_index(ks.take(i as int), now) matches Some(j) ==> 0 <= j < i,
            decreases self.keys.len() - i,
        {
            proof {
                assert(ks.take(i + 1).drop_last() =~= ks.take(i as int));
                assert(ks.take(i + 1).last() == ks[i as int]);
                lemma_recent_index_range(ks.take(i as int), now);
            }
            let k = &self.keys[i];
            let young = (now as i128) - (k.created as i128) < (NEW_KEY_TIMEOUT_SECONDS as i128);
            match best {
                None => {
                    if young {
                        best = Some(i);
                    }
                },
                Some(b) => {
                    if young && self.keys[b].created <= k.created {
                        best = Some(i);
                    }
                    proof {
                        assert(ks.take(i + 1)[b as int] == ks[b as int]);
                    }
                },
            }
            i = i + 1;
        }
        proof {
            assert(ks.take(i as int) =~= ks);
        }
        match best {
            Some(b) => Some(self.keys[b].id),
            None => None,
        }
    }

    /// Drop the keys that are expired at time `now`.
    pub fn prune_expired(&mut self, now: i64)
        ensures
            final(self).keys_spec() == unexpired(old(self).keys_spec(), now),
            final(self).dir_spec() == old(self).dir_spec(),
            final(self).context_spec() == old(self).context_spec(),
    {
        let ghost ks = self.keys_spec();
        let mut kept: Vec<Key> = Vec::new();
        let mut i: usize = 0;
        proof {
            assert(ks.take(0) =~= Seq::<KeySpec>::empty());
            assert(keys_view(kept@) =~= Seq::<KeySpec>::empty());
        }
        while i < self.keys.len()
            invariant
                ks == self.keys_spec(),
                i <= ks.len(),
                keys_view(kept@) == unexpired(ks.take(i as int), now),
            decreases self.keys.len() - i,
        {
            proof {
                assert(ks.take(i + 1).drop_last() =~= ks.take(i as int));
                assert(ks.take(i + 1).last() == ks[i as int]);
            }
            let k = &self.keys[i];
            if (now as i128) - (k.created as i128) < (EXPIRE_KEYS_TIMEOUT_SECONDS as i128) {
                let ghost before = kept@;
                kept.push(Key { id: k.id, created: k.created, secret: k.secret.clone() });
                assert(keys_view(kept@) =~= keys_view(before).push(ks[i as int]));
            }
            i = i + 1;
        }
        proof {
            assert(ks.take(i as int) =~= ks);
        }
        self.keys = kept;
    }

    /// Whether a key has id `id`.
    pub fn has_key(&self, id: u32) -> (b: bool)
        ensures
            b == key_with_id(self.keys_spec(), id) is Some,
    {
        self.key_index(id).is_some()
    }

    fn key_index(&self, id: u32) -> (r: Option<usize>)
        ensures
            match key_with_id(self.keys_spec(), id) {
                Some(k) => r matches Some(i) && i < self.keys@.len() && self.keys@[i as int]@ == k,
                None => r is None,
            },
    {
        let ghost ks = self.keys_spec();
        let mut i: usize = 0;
        assert(ks.skip(0) =~= ks);
        while i < self.keys.len()
            invariant
                ks == self.keys_spec(),
                i <= ks.len(),
                key_with_id(ks, id) == key_with_id(ks.skip(i as int), id),
            decreases self.keys.len() - i,
        {
            if self.keys[i].id == id {
                assert(ks.skip(i as int)[0] == ks[i as int]);
                return Some(i);
            }
            assert(ks.skip(i as int).drop_first() =~= ks.skip(i + 1));
            i = i + 1;
        }
        None
    }

    /// Add a key that no present key has the id of.
    pub fn add_key(&mut self, id: u32, created: i64, secret: Vec<u8>)
        requires
            key_with_id(old(self).keys_spec(), id) is None,
        ensures
            final(self).keys_spec() == old(self).keys_spec().push(
                KeySpec { id, created, secret: secret@ },
            ),
            final(self).dir_spec() == old(self).dir_spec(),
            final(self).context_spec() == old(self).context_spec(),
    {
        let ghost before = self.keys@;
        self.keys.push(Key { id, created, secret });
        assert(keys_view(self.keys@) =~= keys_view(before).push(KeySpec { id, created, secret: self.keys@.last().secret@ }));
    }

    /// A random id below 2^31 that no key has. A few random candidates are
    /// tried; should all of them be taken, the least free id is used.
    fn fresh_id(&self) -> (id: u32)
        requires
            self.keys_spec().len() < 0x8000_0000,
        ensures
            id <= 0x7fff_ffff,
            key_with_id(self.keys_spec(), id) is None,
    {
        let mut attempt: u32 = 0;
        while attempt < 8
            decreases 8 - attempt,
        {
            let b = random_bytes(4);
            let candidate: u32 = (b[0] as u32) + (b[1] as u32) * 256 + (b[2] as u32) * 65536
                + ((b[3] % 128) as u32) * 16777216;
            if !self.has_key(candidate) {
                return candidate;
            }
            attempt = attempt + 1;
        }
        let n: usize = self.keys.len();
        let mut c: u32 = 0;
        while (c as usize) <= n
            invariant
                n == self.keys_spec().len(),
                n < 0x8000_0000,
                c <= n + 1,
                forall|d: u32| d < c ==> #[trigger] key_with_id(self.keys_spec(), d) is Some,
            decreases n + 1 - c,
        {
            if !self.has_key(c) {
                return c;
            }
            c = c + 1;
        }
        proof {
            lemma_ids_cover(self.keys_spec());
        }
        0
    }

    /// The id of the key to use at time `now`. A recent key is reused;
    /// otherwise the expired keys are dropped and a new key is added, with a
    /// fresh id below 2^31, created `now`, and a random secret of
    /// `KEY_LENGTH_BYTES` bytes. The flag says whether a key was added, that
    /// is whether the file is to be written again.
    pub fn best_key(&mut self, now: i64) -> (r: (u32, bool))
        requires
            old(self).keys_spec().len() < 0x8000_0000,
        ensures
            final(self).dir_spec() == old(self).dir_spec(),
            final(self).context_spec() == old(self).context_spec(),
            best_key_outcome(old(self).keys_spec(), now, final(self).keys_spec(), r),
    {
        proof {
            lemma_recent_index_range(self.keys_spec(), now);
        }
        match self.find_recent(now) {
            Some(id) => (id, false),
            None => {
                proof {
                    lemma_unexpired_len(self.keys_spec(), now);
                }
                self.prune_expired(now);
                let id = self.fresh_id();
                let secret = random_bytes(KEY_LENGTH_BYTES);
                let ghost kept = self.keys_spec();
                self.add_key(id, now, secret);
                assert(self.keys_spec().drop_last() =~= kept);
                (id, true)
            },
        }
    }

    /// The secret of the key with id `id`, in hexadecimal.
    pub fn hex_key(&self, id: u32) -> (r: Option<String>)
        ensures
            match key_with_id(self.keys_spec(), id) {
                Some(k) => r matches Some(s) && s@ == hex_text(k.secret),
                None => r is None,
            },
    {
        match self.key_index(id) {
            Some(i) => Some(hex_encode(self.keys[i].secret.as_slice())),
            None => None,
        }
    }

    /// The text of the keyring file: one `id created secret` line per key.
    pub fn file_text(&self) -> (s: String)
        ensures
            s@ == keyring_file_text(self.keys_spec()),
    {
        let ghost ks = self.keys_spec();
        let mut out = String::new();
        let mut i: usize = 0;
        proof {
            assert(ks.take(0) =~= Seq::<KeySpec>::empty());
            reveal_strlit(" ");
            reveal_strlit("\n");
        }
        while i < self.keys.len()
            invariant
                ks == self.keys_spec(),
                i <= ks.len(),
                out@ == keyring_file_text(ks.take(i as int)),
            decreases self.keys.len() - i,
        {
            proof {
                assert(ks.take(i + 1).drop_last() =~= ks.take(i as int));
                assert(ks.take(i + 1).last() == ks[i as int]);
            }
            let k = &self.keys[i];
            let ghost before = out@;
            proof {
                reveal_strlit(" ");
                reveal_strlit("\n");
                assert(ks[i as int] == self.keys@[i as int]@);
            }
            out = concat_str(out.as_str(), u64_to_string(k.id as u64).as_str());
            out = concat_str(out.as_str(), " ");
            out = concat_str(out.as_str(), i64_to_string(k.created).as_str());
            out = concat_str(out.as_str(), " ");
            out = concat_str(out.as_str(), hex_encode(k.secret.as_slice()).as_str());
            out = concat_str(out.as_str(), "\n");
            assert(out@ =~= before + decimal(ks[i as int].id as nat) + seq![' '] + signed_decimal(
                ks[i as int].created as int,
            ) + seq![' '] + hex_text(ks[i as int].secret) + seq!['\n']);
            i = i + 1;
        }
        proof {
            assert(ks.take(i as int) =~= ks);
        }
        out
    }
}

/// Where no key is recent at `now`, every key is older than the reuse
/// window.
proof fn lemma_no_recent(ks: Seq<KeySpec>, now: i64)
    requires
        recent_index(ks, now) is None,
    ensures
        forall|i: int| 0 <= i < ks.len() ==> now - #[trigger] ks[i].created >= NEW_KEY_TIMEOUT_SECONDS,
    decreases ks.len(),
{
    if ks.len() > 0 {
        lemma_no_recent(ks.drop_last(), now);
        assert forall|i: int| 0 <= i < ks.len() implies now - #[trigger] ks[i].created >= NEW_KEY_TIMEOUT_SECONDS by {
            if i < ks.len() - 1 {
                assert(ks[i] == ks.drop_last()[i]);
            }
        }
    }
}

/// The keys that survive expiry are among the keys.
proof fn lemma_unexpired_within(ks: Seq<KeySpec>, now: i64, bound: i64)
    requires
        forall|i: int| 0 <= i < ks.len() ==> #[trigger] ks[i].created <= bound,
    ensures
        forall|i: int| 0 <= i < unexpired(ks, now).len() ==> #[trigger] unexpired(ks, now)[i].created <= bound,
    decreases ks.len(),
{
    if ks.len() > 0 {
        assert forall|i: int| 0 <= i < ks.drop_last().len() implies #[trigger] ks.drop_last()[i].created <= bound by {
            assert(ks.drop_last()[i] == ks[i]);
        }
        lemma_unexpired_within(ks.drop_last(), now, bound);
        assert(ks[ks.len() - 1].created <= bound);
        let init = unexpired(ks.drop_last(), now);
        if now - ks.last().created < EXPIRE_KEYS_TIMEOUT_SECONDS {
            assert forall|i: int| 0 <= i < init.push(ks.last()).len() implies #[trigger] init.push(ks.last())[i].created <= bound by {
                if i < init.len() {
                    assert(init.push(ks.last())[i] == init[i]);
                }
            }
        }
    }
}

/// A key that `best_key` made at `now` is the one it hands out again as
/// long as it is recent: at any time `later` from `now` on within the reuse
/// window.
pub proof fn new_key_is_reused(ks: Seq<KeySpec>, now: i64, later: i64, k: KeySpec)
    requires
        recent_index(ks, now) is None,
        k.created == now,
        now <= later,
        later - now < NEW_KEY_TIMEOUT_SECONDS,
    ensures
        recent_index(unexpired(ks, now).push(k), later) == Some(unexpired(ks, now).len() as int),
{
    let kept = unexpired(ks, now);
    lemma_no_recent(ks, now);
    assert forall|i: int| 0 <= i < ks.len() implies #[trigger] ks[i].created <= now by {}
    lemma_unexpired_within(ks, now, now);
    let all = kept.push(k);
    assert(all.drop_last() =~= kept);
    lemma_recent_index_range(kept, later);
    match recent_index(kept, later) {
        Some(i) => {
            assert(kept[i].created <= now);
        },
        None => {},
    }
}

/// Dropping expired keys keeps no more keys than there were.
proof fn lemma_unexpired_len(ks: Seq<KeySpec>, now: i64)
    ensures
        unexpired(ks, now).len() <= ks.len(),
    decreases ks.len(),
{
    if ks.len() > 0 {
        lemma_unexpired_len(ks.drop_last(), now);
    }
}

/// A key has id `id` exactly when `key_with_id` finds one.
proof fn lemma_key_with_id(ks: Seq<KeySpec>, id: u32)
    ensures
        key_with_id(ks, id) is Some <==> exists|i: int| 0 <= i < ks.len() && ks[i].id == id,
    decreases ks.len(),
{
    if ks.len() > 0 {
        lemma_key_with_id(ks.drop_first(), id);
        if ks[0].id != id {
            if exists|i: int| 0 <= i < ks.len() && ks[i].id == id {
                let i = choose|i: int| 0 <= i < ks.len() && ks[i].id == id;
                assert(ks.drop_first()[i - 1].id == id);
            }
            if key_with_id(ks.drop_first(), id) is Some {
                let j = choose|j: int| 0 <= j < ks.len() - 1 && ks.drop_first()[j].id == id;
                assert(ks[j + 1].id == id);
            }
        }
    }
}

/// `n` keys cannot hold all of the `n + 1` ids `0..=n`: one of them is free.
proof fn lemma_ids_cover(ks: Seq<KeySpec>)
    requires
        ks.len() < 0x8000_0000,
    ensures
        exists|d: u32| d <= ks.len() && #[trigger] key_with_id(ks, d) is None,
{
    if forall|d: u32| d <= ks.len() ==> #[trigger] key_with_id(ks, d) is Some {
        lemma_all_ids_taken(ks);
    }
}

proof fn lemma_all_ids_taken(ks: Seq<KeySpec>)
    requires
        ks.len() < 0x8000_0000,
        forall|d: u32| d <= ks.len() ==> #[trigger] key_with_id(ks, d) is Some,
    ensures
        ks.len() + 1 <= ks.len(),
{
    let ids = Seq::new(ks.len(), |i: int| ks[i].id as int);
    let range = vstd::set_lib::set_int_range(0, ks.len() as int + 1);
    ids.lemma_cardinality_of_set();
    vstd::set_lib::lemma_int_range(0, ks.len() as int + 1);
    vstd::seq_lib::seq_to_set_is_finite(ids);
    assert forall|d: int| range.contains(d) implies ids.to_set().contains(d) by {
        assert(key_with_id(ks, d as u32) is Some);
        lemma_key_with_id(ks, d as u32);
        let i = choose|i: int| 0 <= i < ks.len() && ks[i].id == d as u32;
        assert(ids[i] == d);
    }
    vstd::set_lib::lemma_len_subset(range, ids.to_set());
}

/// The index `recent_index` gives is one of the keys.
/// `recent_index` picks the newest young key, the last of equals, and
/// none only where no key is young.
proof fn lemma_recent_char(ks: Seq<KeySpec>, t: i64)
    ensures
        match recent_index(ks, t) {
            Some(i) => {
                &&& 0 <= i < ks.len()
                &&& young(ks[i].created, t)
                &&& forall|j: int| 0 <= j < ks.len() && young(#[trigger] ks[j].created, t) ==> ks[j].created <= ks[i].created
                &&& forall|j: int| i < j < ks.len() && young(#[trigger] ks[j].created, t) ==> ks[j].created < ks[i].created
            },
            None => forall|j: int| 0 <= j < ks.len() ==> !young(#[trigger] ks[j].created, t),
        },
    decreases ks.len(),
{
    if ks.len() > 0 {
        let front = ks.drop_last();
        let n = ks.len() - 1;
        lemma_recent_char(front, t);
        assert(forall|j: int| 0 <= j < front.len() ==> #[trigger] front[j] == ks[j]);
        assert(ks.last() == ks[n]);
        match recent_index(front, t) {
            None => {
                if young(ks[n].created, t) {
                    assert(recent_index(ks, t) == Some(n));
                    assert forall|j: int| 0 <= j < ks.len() && young(#[trigger] ks[j].created, t) implies ks[j].created
                        <= ks[n].created by {
                        if j < n {
                            assert(!young(front[j].created, t));
                        }
                    }
                } else {
                    assert(recent_index(ks, t) is None);
                    assert forall|j: int| 0 <= j < ks.len() implies !young(#[trigger] ks[j].created, t) by {
                        if j < n {
                            assert(!young(front[j].created, t));
                        }
                    }
                }
            },
            Some(i) => {
                if young(ks[n].created, t) && ks[i].created <= ks[n].created {
                    assert(recent_index(ks, t) == Some(n));
                    assert forall|j: int| 0 <= j < ks.len() && young(#[trigger] ks[j].created, t) implies ks[j].created
                        <= ks[n].created by {
                        if j < n {
                            assert(young(front[j].created, t));
                            assert(front[j].created <= front[i].created);
                        }
                    }
                } else {
                    assert(recent_index(ks, t) == Some(i));
                    assert forall|j: int| 0 <= j < ks.len() && young(#[trigger] ks[j].created, t) implies ks[j].created
                        <= ks[i].created by {
                        if j < n {
                            assert(young(front[j].created, t));
                        }
                    }
                    assert forall|j: int| i < j < ks.len() && young(#[trigger] ks[j].created, t) implies ks[j].created
                        < ks[i].created by {
                        if j < n {
                            assert(young(front[j].created, t));
                        }
                    }
                }
            },
        }
    }
}

/// A key that `best_key` hands out at `now` is handed out again, with no
/// key added, by a call at any time `later` from `now` on while that key is
/// younger than the reuse timeout (`NEW_KEY_TIMEOUT_SECONDS`): a new key
/// made at `now` for 300 seconds.
pub proof fn best_key_is_reused(
    k0: Seq<KeySpec>,
    now: i64,
    k1: Seq<KeySpec>,
    r1: (u32, bool),
    later: i64,
    k2: Seq<KeySpec>,
    r2: (u32, bool),
)
    requires
        best_key_outcome(k0, now, k1, r1),
        best_key_outcome(k1, later, k2, r2),
        now <= later,
        match recent_index(k0, now) {
            Some(i) => young(k0[i].created, later),
            None => young(now, later),
        },
    ensures
        r2 == (r1.0, false),
        k2 == k1,
{
    lemma_recent_char(k0, now);
    match recent_index(k0, now) {
        Some(i) => {
            lemma_recent_char(k0, later);
            assert forall|j: int| 0 <= j < k0.len() && young(#[trigger] k0[j].created, later) implies young(
                k0[j].created,
                now,
            ) by {}
            match recent_index(k0, later) {
                Some(m) => {
                    assert(young(k0[m].created, now));
                    assert(k0[m].created == k0[i].created);
                    if m < i {
                        assert(k0[i].created < k0[m].created);
                    } else if i < m {
                        assert(k0[m].created < k0[i].created);
                    }
                },
                None => {
                    assert(!young(k0[i].created, later));
                },
            }
        },
        None => {
            let kept = unexpired(k0, now);
            assert(k1 =~= kept.push(k1.last()));
            new_key_is_reused(k0, now, later, k1.last());
        },
    }
}

proof fn lemma_recent_index_range(ks: Seq<KeySpec>, now: i64)
    ensures
        recent_index(ks, now) matches Some(i) ==> 0 <= i < ks.len(),
    decreases ks.len(),
{
    if ks.len() > 0 {
        lemma_recent_index_range(ks.drop_last(), now);
    }
}

} // verus!
