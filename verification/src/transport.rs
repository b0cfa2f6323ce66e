//! What a connection has read and not yet used, and how it is cut into the
//! leading NUL byte, the lines of the authentication exchange and whole
//! messages. Reading from the socket is the caller's part: it feeds the
//! bytes and fds that came.

use crate::error::CoreError;
use crate::header::{frame_len, header_read_outcome, number_field, prefix_error, prefix_ok, MessageHeader};
use crate::message::{body_end, body_matches, Message};
use crate::text::str_from_utf8;
use vstd::prelude::*;
use vstd::utf8::{decode_utf8, valid_utf8};

verus! {

broadcast use vstd::std_specs::vec::group_vec_axioms;

/// The longest authentication line the bus waits for, in bytes.
pub const MAX_AUTH_LINE_BYTES: usize = 16384;

/// Why what was read cannot be used.
#[derive(Debug)]
pub enum ReadError {
    /// The first byte of the connection is not NUL.
    NoLeadingNul,
    /// An authentication line longer than the limit.
    LineTooLong,
    /// An authentication line that is not UTF-8.
    LineNotUtf8,
    /// A message of `len` bytes, more than the limit `max`.
    TooLarge { len: usize, max: u32 },
    /// A message that does not read.
    Invalid(CoreError),
}

/// Bytes and unix fds read from a connection and not used yet, and the
/// largest message it takes.
pub struct ReadBuffer {
    buf: Vec<u8>,
    fds: Vec<i32>,
    max_message_size: u32,
}

/// Whether a CR LF starts at `j` in `b`.
pub open spec fn crlf_at(b: Seq<u8>, j: int) -> bool {
    0 <= j && j + 1 < b.len() && b[j] == 13 && b[j + 1] == 10
}

/// Where the first CR LF of `b` starts.
pub open spec fn crlf_index(b: Seq<u8>) -> Option<int>
    decreases b.len(),
{
    if b.len() < 2 {
        None
    } else if b[0] == 13 && b[1] == 10 {
        Some(0)
    } else {
        match crlf_index(b.drop_first()) {
            Some(i) => Some(i + 1),
            None => None,
        }
    }
}

proof fn lemma_crlf_index(b: Seq<u8>, k: int)
    requires
        0 <= k <= b.len(),
        forall|j: int| 0 <= j < k ==> !#[trigger] crlf_at(b, j),
    ensures
        crlf_index(b) == match crlf_index(b.skip(k)) {
            Some(i) => Some(i + k),
            None => None::<int>,
        },
    decreases k,
{
    if k > 0 {
        assert(!crlf_at(b, 0));
        assert forall|j: int| 0 <= j < k - 1 implies !#[trigger] crlf_at(b.drop_first(), j) by {
            assert(!crlf_at(b, j + 1));
        }
        lemma_crlf_index(b.drop_first(), k - 1);
        assert(b.drop_first().skip(k - 1) =~= b.skip(k));
    } else {
        assert(b.skip(0) =~= b);
        match crlf_index(b) {
            Some(i) => {},
            None => {},
        }
    }
}

fn copy_from(v: &Vec<u8>, from: usize) -> (r: Vec<u8>)
    requires
        from <= v@.len(),
    ensures
        r@ == v@.skip(from as int),
{
    let mut r: Vec<u8> = Vec::new();
    let mut i = from;
    while i < v.len()
        invariant
            from <= i <= v@.len(),
            r@ == v@.subrange(from as int, i as int),
        decreases v.len() - i,
    {
        r.push(v[i]);
        i = i + 1;
    }
    assert(r@ =~= v@.skip(from as int));
    r
}

fn copy_until(v: &Vec<u8>, to: usize) -> (r: Vec<u8>)
    requires
        to <= v@.len(),
    ensures
        r@ == v@.take(to as int),
{
    let mut r: Vec<u8> = Vec::new();
    let mut i: usize = 0;
    while i < to
        invariant
            i <= to <= v@.len(),
            r@ == v@.take(i as int),
        decreases to - i,
    {
        r.push(v[i]);
        assert(r@ =~= v@.take(i + 1));
        i = i + 1;
    }
    r
}

/// The message that the bytes `frame` hold, with fds `fds`: what
/// `Message::from_bytes` gives.
pub open spec fn message_of(frame: Seq<u8>, fds: Seq<i32>, r: Result<Message, CoreError>) -> bool {
    match r {
        Ok(msg) => {
            &&& exists|n: usize|
                header_read_outcome(frame, Ok((msg.header, n))) && body_matches(
                    frame,
                    n as int,
                    msg.header,
                    Ok(msg.body),
                )
            &&& msg.fds@ == fds
        },
        Err(_) => true,
    }
}

/// Where a header reads, the body ends where the header says.
proof fn lemma_body_end(b: Seq<u8>, h: MessageHeader, n: usize)
    requires
        header_read_outcome(b, Ok((h, n))),
    ensures
        body_end(b) == Some(n + h.body_length),
{
    let (h2, n2) = choose|h: MessageHeader, n: usize| header_read_outcome(b, Ok((h, n)));
    assert(header_read_outcome(b, Ok((h2, n2))));
}

impl ReadBuffer {
    /// The bytes not used yet.
    pub closed spec fn bytes(&self) -> Seq<u8> {
        self.buf@
    }

    /// The fds not used yet, in the order they came.
    pub closed spec fn pending_fds(&self) -> Seq<i32> {
        self.fds@
    }

    /// The largest message taken, in bytes.
    pub closed spec fn max(&self) -> u32 {
        self.max_message_size
    }

    /// Nothing read yet; messages up to `max_message_size` bytes.
    pub fn new(max_message_size: u32) -> (r: ReadBuffer)
        ensures
            r.bytes() == Seq::<u8>::empty(),
            r.pending_fds() == Seq::<i32>::empty(),
            r.max() == max_message_size,
    {
        ReadBuffer { buf: Vec::new(), fds: Vec::new(), max_message_size }
    }

    /// Take messages up to `max` bytes from now on.
    pub fn set_max_message_size(&mut self, max: u32)
        ensures
            final(self).max() == max,
            final(self).bytes() == old(self).bytes(),
            final(self).pending_fds() == old(self).pending_fds(),
    {
        self.max_message_size = max;
    }

    /// Add what one read gave: bytes and fds.
    pub fn feed(&mut self, data: &[u8], fds: Vec<i32>)
        ensures
            final(self).bytes() == old(self).bytes() + data@,
            final(self).pending_fds() == old(self).pending_fds() + fds@,
            final(self).max() == old(self).max(),
    {
        let mut i: usize = 0;
        let ghost start = self.buf@;
        while i < data.len()
            invariant
                i <= data@.len(),
                self.buf@ == start + data@.take(i as int),
                self.max_message_size == old(self).max_message_size,
                self.fds@ == old(self).fds@,
            decreases data.len() - i,
        {
            self.buf.push(data[i]);
            assert(self.buf@ =~= start + data@.take(i + 1));
            i = i + 1;
        }
        assert(data@.take(i as int) =~= data@);
        let mut more = fds;
        let ghost f0 = self.fds@;
        let ghost added = more@;
        self.fds.append(&mut more);
        assert(self.fds@ =~= f0 + added);
    }

    /// The leading NUL byte of a connection: `None` while nothing was read;
    /// an error where the first byte is not NUL.
    pub fn take_initial_nul(&mut self) -> (r: Option<Result<(), ReadError>>)
        ensures
            old(self).bytes().len() == 0 ==> r is None && *final(self) == *old(self),
            old(self).bytes().len() > 0 && old(self).bytes()[0] != 0 ==> (r matches Some(Err(e))
                && e is NoLeadingNul && *final(self) == *old(self)),
            old(self).bytes().len() > 0 && old(self).bytes()[0] == 0 ==> (r matches Some(Ok(_))
                && final(self).bytes() == old(self).bytes().drop_first()),
            final(self).pending_fds() == old(self).pending_fds(),
            final(self).max() == old(self).max(),
    {
        if self.buf.len() == 0 {
            return None;
        }
        if self.buf[0] != 0 {
            return Some(Err(ReadError::NoLeadingNul));
        }
        let rest = copy_from(&self.buf, 1);
        self.buf = rest;
        assert(self.buf@ =~= old(self).buf@.drop_first());
        Some(Ok(()))
    }

    /// The next authentication line, without its CR LF: `None` while no
    /// whole line was read; an error where more than the limit was read
    /// without a line end, or where the line is not UTF-8 (it is used up
    /// all the same).
    pub fn take_line(&mut self) -> (r: Result<Option<String>, ReadError>)
        ensures
            final(self).pending_fds() == old(self).pending_fds(),
            final(self).max() == old(self).max(),
            match crlf_index(old(self).bytes()) {
                Some(p) => {
                    let line = old(self).bytes().take(p);
                    &&& final(self).bytes() == old(self).bytes().skip(p + 2)
                    &&& if valid_utf8(line) {
                        r matches Ok(Some(s)) && s@ == decode_utf8(line)
                    } else {
                        r matches Err(e) && e is LineNotUtf8
                    }
                },
                None => *final(self) == *old(self) && if old(self).bytes().len() > MAX_AUTH_LINE_BYTES {
                    r matches Err(e) && e is LineTooLong
                } else {
                    r matches Ok(None)
                },
            },
    {
        let ghost b = self.buf@;
        let n = self.buf.len();
        let mut i: usize = 0;
        let mut found: Option<usize> = None;
        while found.is_none() && n - i >= 2
            invariant
                b == self.buf@,
                n == b.len(),
                i <= n,
                forall|j: int| 0 <= j < i ==> !#[trigger] crlf_at(b, j),
                found matches Some(p) ==> p == i && crlf_at(b, i as int),
            decreases n - i + if found is None {
                1int
            } else {
                0int
            },
        {
            if self.buf[i] == 13 && self.buf[i + 1] == 10 {
                found = Some(i);
            } else {
                i = i + 1;
            }
        }
        proof {
            lemma_crlf_index(b, i as int);
            let t = b.skip(i as int);
            if found is None {
                assert(t.len() < 2);
            } else {
                assert(t[0] == 13 && t[1] == 10);
            }
        }
        match found {
            None => {
                if n > MAX_AUTH_LINE_BYTES {
                    Err(ReadError::LineTooLong)
                } else {
                    Ok(None)
                }
            },
            Some(p) => {
                let line = copy_until(&self.buf, p);
                let rest = copy_from(&self.buf, p + 2);
                self.buf = rest;
                match str_from_utf8(line.as_slice()) {
                    Some(s) => Ok(Some(s.to_owned())),
                    None => Err(ReadError::LineNotUtf8),
                }
            },
        }
    }

    /// The next whole message, with as many of the pending fds as its
    /// header says (as far as there are): `None` while it has not all been
    /// read. An error where its first bytes do not read, or it is longer
    /// than the limit (both before it is all there), or it does not read;
    /// a message that does not read is used up with its fds.
    pub fn take_message(&mut self) -> (r: Result<Option<Message>, ReadError>)
        ensures
            final(self).max() == old(self).max(),
            old(self).bytes().len() < 16 ==> (r matches Ok(None) && *final(self) == *old(self)),
            old(self).bytes().len() >= 16 && !prefix_ok(old(self).bytes()) ==> (r matches Err(
                ReadError::Invalid(e),
            ) && prefix_error(old(self).bytes(), e) && *final(self) == *old(self)),
            old(self).bytes().len() >= 16 && prefix_ok(old(self).bytes()) ==> {
                let len = frame_len(old(self).bytes()) as usize;
                if len > old(self).max() {
                    r matches Err(ReadError::TooLarge { len: l, max: m }) && l == len && m == old(self).max()
                        && *final(self) == *old(self)
                } else if old(self).bytes().len() < len {
                    r matches Ok(None) && *final(self) == *old(self)
                } else {
                    let frame = old(self).bytes().take(len as int);
                    &&& final(self).bytes() == old(self).bytes().skip(len as int)
                    &&& (r matches Ok(Some(m)) ==> (exists|k: int|
                        0 <= k <= old(self).pending_fds().len() && m.fds@ == old(self).pending_fds().take(k)
                            && final(self).pending_fds() == old(self).pending_fds().skip(k)) && message_of(
                        frame,
                        m.fds@,
                        Ok(m),
                    ) && (exists|h: MessageHeader, n: usize|
                        header_read_outcome(frame, Ok((h, n))) && m.fds@.len() == min_fds(
                            number_field(h.fields_spec(), 9),
                            old(self).pending_fds().len(),
                        )))
                    &&& (r is Ok ==> r matches Ok(Some(_)))
                }
            },
    {
        let len = match MessageHeader::peek_frame_len(self.buf.as_slice()) {
            Err(e) => {
                return Err(ReadError::Invalid(e));
            },
            Ok(None) => {
                return Ok(None);
            },
            Ok(Some(len)) => len,
        };
        if len > self.max_message_size as usize {
            return Err(ReadError::TooLarge { len, max: self.max_message_size });
        }
        if self.buf.len() < len {
            return Ok(None);
        }
        let frame = copy_until(&self.buf, len);
        let rest = copy_from(&self.buf, len);
        self.buf = rest;
        let (header, n) = match MessageHeader::read(frame.as_slice()) {
            Ok(x) => x,
            Err(e) => {
                return Err(ReadError::Invalid(e));
            },
        };
        let declared = header.unix_fds() as usize;
        let take = if declared > 0 {
            if declared < self.fds.len() {
                declared
            } else {
                self.fds.len()
            }
        } else {
            0
        };
        let ghost fds0 = self.fds@;
        let taken = self.take_fds(take);
        assert(taken@.len() == min_fds(number_field(header.fields_spec(), 9), fds0.len()));
        if n > frame.len() || header.body_length as usize > frame.len() - n {
            return Err(ReadError::Invalid(CoreError::UnexpectedEof { needed: len, have: frame.len() }));
        }
        proof {
            lemma_body_end(frame@, header, n);
        }
        let ghost tv = taken@;
        match Message::from_bytes(frame.as_slice(), taken) {
            Ok(m) => {
                assert(m.fds@ == fds0.take(take as int));
                assert(self.fds@ == fds0.skip(take as int));
                assert(message_of(frame@, m.fds@, Ok(m)));
                assert(header_read_outcome(frame@, Ok((header, n))));
                assert(0 <= take <= fds0.len());
                assert(fds0 == old(self).fds@);
                assert(frame@ == old(self).buf@.take(len as int));
                assert(self.buf@ == old(self).buf@.skip(len as int));
                assert(len as int == frame_len(old(self).buf@) as usize);
                assert(m.fds@ == old(self).pending_fds().take(take as int) && self.pending_fds() == old(
                    self,
                ).pending_fds().skip(take as int));
                assert(exists|k: int|
                    0 <= k <= old(self).pending_fds().len() && m.fds@ == old(self).pending_fds().take(k)
                        && self.pending_fds() == old(self).pending_fds().skip(k));
                Ok(Some(m))
            },
            Err(e) => Err(ReadError::Invalid(e)),
        }
    }

    fn take_fds(&mut self, k: usize) -> (taken: Vec<i32>)
        requires
            k <= old(self).fds@.len(),
        ensures
            taken@ == old(self).fds@.take(k as int),
            final(self).fds@ == old(self).fds@.skip(k as int),
            final(self).buf@ == old(self).buf@,
            final(self).max_message_size == old(self).max_message_size,
    {
        let mut taken: Vec<i32> = Vec::new();
        let mut rest: Vec<i32> = Vec::new();
        let mut i: usize = 0;
        while i < self.fds.len()
            invariant
                k <= self.fds@.len(),
                i <= self.fds@.len(),
                self.fds@ == old(self).fds@,
                taken@ == self.fds@.take(if i < k { i as int } else { k as int }),
                rest@ == if i <= k { Seq::<i32>::empty() } else { self.fds@.subrange(k as int, i as int) },
            decreases self.fds.len() - i,
        {
            if i < k {
                taken.push(self.fds[i]);
                assert(taken@ =~= self.fds@.take(i + 1));
            } else {
                rest.push(self.fds[i]);
                assert(rest@ =~= self.fds@.subrange(k as int, i + 1));
            }
            i = i + 1;
        }
        proof {
            if i <= k {
                assert(self.fds@.skip(k as int) =~= Seq::<i32>::empty());
            } else {
                assert(self.fds@.skip(k as int) =~= self.fds@.subrange(k as int, i as int));
            }
        }
        self.fds = rest;
        taken
    }
}

/// How many fds a message takes: as many as its header says (none where
/// it says nothing), as far as there are.
pub open spec fn min_fds(declared: Option<u32>, available: nat) -> nat {
    match declared {
        Some(d) => if d < available {
            d as nat
        } else {
            available
        },
        None => 0,
    }
}

} // verus!
