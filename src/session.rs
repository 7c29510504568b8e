use vstd::prelude::*;

use crate::error::HttpError;
use crate::memory::text_result;
use crate::header::{encode_headers, header_lookup, header_map_to_string, valid_headers, HeaderMap};

verus! {

/// The length in bytes of the UTF-8 encoding of `s`, as `str::len` gives it.
pub open spec fn byte_len(s: Seq<char>) -> usize {
    vstd::utf8::encode_utf8(s).len() as usize
}

/// A response that the guest holds open: its status, its headers, its body,
/// and how much of the body the guest has read.
pub struct Session {
    pub status_code: u16,
    pub headers: HeaderMap,
    pub body: Vec<u8>,
    pub cursor: usize,
}

impl Session {
    pub open spec fn wf(&self) -> bool {
        self.cursor <= self.body.len()
    }

    /// A session whose body is still wholly unread.
    pub fn new(status_code: u16, headers: HeaderMap, body: Vec<u8>) -> (r: Session)
        ensures
            r.wf(),
            r.status_code == status_code,
            r.headers@ == headers@,
            r.body@ == body@,
            r.cursor == 0,
    {
        Session { status_code, headers, body, cursor: 0 }
    }
}

/// Where the body cursor moves when at most `n` bytes are read from `cursor`
/// of a body of `len` bytes.
pub open spec fn read_end(cursor: nat, n: nat, len: nat) -> nat {
    if cursor + n < len {
        cursor + n
    } else {
        len
    }
}

/// The open responses of one guest instance, and the count of requests in
/// flight. Handle `h` names slot `h - 1`; a slot is emptied on close and
/// never filled again, so a handle is never reused.
pub struct SessionTable {
    pub slots: Vec<Option<Session>>,
    pub in_flight: u32,
    pub max_concurrent_requests: Option<u32>,
}

impl SessionTable {
    pub open spec fn wf(&self) -> bool {
        &&& self.slots.len() < u32::MAX
        &&& self.in_flight <= self.limit()
        &&& forall|i: int|
            0 <= i < self.slots.len() && (#[trigger] self.slots@[i]) is Some ==> self.slots@[i]->0.wf()
    }

    /// How many requests may be in flight at once.
    pub open spec fn limit(&self) -> nat {
        match self.max_concurrent_requests {
            Some(c) => c as nat,
            None => u32::MAX as nat,
        }
    }

    /// Whether `h` names an open response.
    pub open spec fn live(&self, h: u32) -> bool {
        1 <= h <= self.slots.len() && self.slots@[h - 1] is Some
    }

    /// Whether `h` was ever handed out.
    pub open spec fn issued(&self, h: u32) -> bool {
        1 <= h <= self.slots.len()
    }

    pub open spec fn session(&self, h: u32) -> Session {
        self.slots@[h - 1]->0
    }

    /// The other slots than that of `h` are as they were.
    pub open spec fn others_unchanged(&self, old: &SessionTable, h: u32) -> bool {
        &&& self.slots.len() == old.slots.len()
        &&& forall|i: int| 0 <= i < self.slots.len() && i != h - 1 ==> #[trigger] self.slots@[i] == old.slots@[i]
    }

    pub fn new(max_concurrent_requests: Option<u32>) -> (r: SessionTable)
        ensures
            r.wf(),
            r.slots.len() == 0,
            r.in_flight == 0,
            r.max_concurrent_requests == max_concurrent_requests,
    {
        SessionTable { slots: Vec::new(), in_flight: 0, max_concurrent_requests }
    }

    /// Whether `h` names an open response.
    pub fn is_live(&self, h: u32) -> (r: bool)
        ensures
            r == self.live(h),
    {
        h != 0 && (h as usize) <= self.slots.len() && self.slots[h as usize - 1].is_some()
    }

    /// Reserves a place for a request about to go out, or refuses it when
    /// as many as the limit are in flight.
    pub fn try_reserve(&mut self) -> (r: Result<(), HttpError>)
        requires
            old(self).wf(),
        ensures
            final(self).wf(),
            old(self).in_flight < old(self).limit() ==> r is Ok && final(self).in_flight
                == old(self).in_flight + 1,
            old(self).in_flight >= old(self).limit() ==> r == Err::<(), HttpError>(
                HttpError::TooManySessions,
            ) && final(self).in_flight == old(self).in_flight,
            final(self).slots == old(self).slots,
            final(self).max_concurrent_requests == old(self).max_concurrent_requests,
    {
        let limit: u32 = match self.max_concurrent_requests {
            Some(c) => c,
            None => u32::MAX,
        };
        if self.in_flight < limit {
            self.in_flight = self.in_flight + 1;
            Ok(())
        } else {
            Err(HttpError::TooManySessions)
        }
    }

    /// Gives back the place of a request whose exchange has ended.
    pub fn complete(&mut self)
        requires
            old(self).wf(),
        ensures
            final(self).wf(),
            final(self).in_flight == if old(self).in_flight > 0 {
                old(self).in_flight - 1
            } else {
                0
            },
            final(self).slots == old(self).slots,
            final(self).max_concurrent_requests == old(self).max_concurrent_requests,
    {
        if self.in_flight > 0 {
            self.in_flight = self.in_flight - 1;
        }
    }

    /// Stores an open response under a fresh handle.
    pub fn register(&mut self, session: Session) -> (r: Result<u32, HttpError>)
        requires
            old(self).wf(),
            session.wf(),
        ensures
            final(self).wf(),
            final(self).in_flight == old(self).in_flight,
            final(self).max_concurrent_requests == old(self).max_concurrent_requests,
            match r {
                Ok(h) => {
                    &&& old(self).slots.len() + 1 < u32::MAX
                    &&& h == old(self).slots.len() + 1
                    &&& !old(self).issued(h)
                    &&& final(self).slots@ == old(self).slots@.push(Some(session))
                    &&& final(self).live(h)
                    &&& final(self).session(h) == session
                },
                Err(e) => {
                    &&& old(self).slots.len() + 1 >= u32::MAX
                    &&& e == HttpError::TooManySessions
                    &&& final(self).slots == old(self).slots
                },
            },
    {
        if self.slots.len() + 1 >= u32::MAX as usize {
            return Err(HttpError::TooManySessions);
        }
        self.slots.push(Some(session));
        let h = self.slots.len() as u32;
        assert(self.slots@[h - 1] == Some(session));
        Ok(h)
    }

    /// The value of the first header named `name` of the response `h`, when
    /// its UTF-8 encoding fits in `capacity` bytes.
    pub fn header_get(&self, h: u32, name: &String, capacity: usize) -> (r: Result<String, HttpError>)
        requires
            self.wf(),
        ensures
            text_result(r) == header_get_result(self, h, name@, capacity),
    {
        if h == 0 || h as usize > self.slots.len() {
            return Err(HttpError::InvalidHandle);
        }
        match &self.slots[h as usize - 1] {
            None => Err(HttpError::InvalidHandle),
            Some(s) => match s.headers.get(name) {
                None => Err(HttpError::HeaderNotFound),
                Some(v) => {
                    if v.as_str().len() > capacity {
                        Err(HttpError::BufferTooSmall)
                    } else {
                        Ok(v.clone())
                    }
                },
            },
        }
    }

    /// All headers of the response `h` in their wire encoding, when it fits
    /// in `capacity` bytes.
    pub fn headers_get_all(&self, h: u32, capacity: usize) -> (r: Result<String, HttpError>)
        requires
            self.wf(),
        ensures
            text_result(r) == headers_get_all_result(self, h, capacity),
    {
        if h == 0 || h as usize > self.slots.len() {
            return Err(HttpError::InvalidHandle);
        }
        match &self.slots[h as usize - 1] {
            None => Err(HttpError::InvalidHandle),
            Some(s) => match header_map_to_string(&s.headers) {
                Err(e) => Err(e),
                Ok(text) => {
                    if text.as_str().len() > capacity {
                        Err(HttpError::BufferTooSmall)
                    } else {
                        Ok(text)
                    }
                },
            },
        }
    }

    /// Reads the next bytes of the body of response `h`, at most `capacity`
    /// of them; an empty result marks the end of the body.
    pub fn body_read(&mut self, h: u32, capacity: usize) -> (r: Result<Vec<u8>, HttpError>)
        requires
            old(self).wf(),
        ensures
            final(self).wf(),
            final(self).in_flight == old(self).in_flight,
            final(self).max_concurrent_requests == old(self).max_concurrent_requests,
            !old(self).live(h) ==> r == Err::<Vec<u8>, HttpError>(HttpError::InvalidHandle)
                && final(self).slots@ == old(self).slots@,
            old(self).live(h) ==> {
                let s = old(self).session(h);
                let end = read_end(s.cursor as nat, capacity as nat, s.body.len() as nat);
                &&& r is Ok
                &&& r->Ok_0@ == s.body@.subrange(s.cursor as int, end as int)
                &&& final(self).live(h)
                &&& final(self).session(h).cursor == end
                &&& final(self).session(h).body@ == s.body@
                &&& final(self).session(h).status_code == s.status_code
                &&& final(self).session(h).headers@ == s.headers@
                &&& final(self).others_unchanged(old(self), h)
            },
    {
        if h == 0 || h as usize > self.slots.len() {
            return Err(HttpError::InvalidHandle);
        }
        let idx = h as usize - 1;
        let taken = self.slots[idx].take();
        match taken {
            None => {
                assert(self.slots@ =~= old(self).slots@);
                Err(HttpError::InvalidHandle)
            },
            Some(mut s) => {
                assert(s.wf());
                let remaining = s.body.len() - s.cursor;
                let n = if capacity < remaining {
                    capacity
                } else {
                    remaining
                };
                let mut chunk: Vec<u8> = Vec::new();
                let mut k: usize = 0;
                while k < n
                    invariant
                        k <= n,
                        s.cursor + n <= s.body.len(),
                        chunk@ == s.body@.subrange(s.cursor as int, s.cursor + k),
                    decreases n - k,
                {
                    chunk.push(s.body[s.cursor + k]);
                    assert(chunk@ =~= s.body@.subrange(s.cursor as int, s.cursor + k + 1));
                    k = k + 1;
                }
                s.cursor = s.cursor + n;
                self.slots[idx] = Some(s);
                assert forall|i: int|
                    0 <= i < self.slots.len() && (#[trigger] self.slots@[i]) is Some implies self.slots@[i]->0.wf() by {
                    if i != idx {
                        assert(self.slots@[i] == old(self).slots@[i]);
                    }
                }
                Ok(chunk)
            },
        }
    }

    /// Releases response `h`; its handle is never valid again. Closing a
    /// handle that is not open is `InvalidHandle`.
    pub fn close(&mut self, h: u32) -> (r: Result<(), HttpError>)
        requires
            old(self).wf(),
        ensures
            final(self).wf(),
            final(self).in_flight == old(self).in_flight,
            final(self).max_concurrent_requests == old(self).max_concurrent_requests,
            !final(self).live(h),
            final(self).others_unchanged(old(self), h),
            old(self).live(h) ==> r is Ok,
            !old(self).live(h) ==> r == Err::<(), HttpError>(HttpError::InvalidHandle)
                && final(self).slots@ == old(self).slots@,
    {
        if h == 0 || h as usize > self.slots.len() {
            return Err(HttpError::InvalidHandle);
        }
        let idx = h as usize - 1;
        match self.slots[idx].take() {
            None => {
                assert(self.slots@ =~= old(self).slots@);
                Err(HttpError::InvalidHandle)
            },
            Some(_) => {
                assert forall|i: int|
                    0 <= i < self.slots.len() && (#[trigger] self.slots@[i]) is Some implies self.slots@[i]->0.wf() by {
                    assert(self.slots@[i] == old(self).slots@[i]);
                }
                Ok(())
            },
        }
    }
}

/// What `header_get` answers for response `h`.
pub open spec fn header_get_result(t: &SessionTable, h: u32, name: Seq<char>, capacity: usize) -> Result<Seq<char>, HttpError> {
    if !t.live(h) {
        Err(HttpError::InvalidHandle)
    } else {
        match header_lookup(t.session(h).headers@, name) {
            None => Err(HttpError::HeaderNotFound),
            Some(v) => if byte_len(v) > capacity {
                Err(HttpError::BufferTooSmall)
            } else {
                Ok(v)
            },
        }
    }
}

/// What `headers_get_all` answers for response `h`.
pub open spec fn headers_get_all_result(t: &SessionTable, h: u32, capacity: usize) -> Result<Seq<char>, HttpError> {
    if !t.live(h) {
        Err(HttpError::InvalidHandle)
    } else {
        let hs = t.session(h).headers@;
        if !valid_headers(hs) {
            Err(HttpError::InvalidEncoding)
        } else if byte_len(encode_headers(hs)) > capacity {
            Err(HttpError::BufferTooSmall)
        } else {
            Ok(encode_headers(hs))
        }
    }
}

} // verus!

verus! {

/// The sizes of what successive reads of at most `n` bytes return, from
/// `cursor` of a body of `len` bytes, up to and including the first empty
/// read, which ends the list.
pub open spec fn read_sizes(cursor: nat, n: nat, len: nat) -> Seq<nat>
    decreases len - cursor,
{
    if cursor >= len || n == 0 {
        seq![0nat]
    } else {
        seq![(read_end(cursor, n, len) - cursor) as nat] + read_sizes(read_end(cursor, n, len), n, len)
    }
}

pub open spec fn total(s: Seq<nat>) -> nat
    decreases s.len(),
{
    if s.len() == 0 {
        0
    } else {
        s[0] + total(s.drop_first())
    }
}

/// Reading a body with a buffer of `n > 0` bytes returns chunks of at most
/// `n` bytes, none empty, that add up to exactly the unread part of the body,
/// and then one empty read.
pub proof fn lemma_body_reads_cover(cursor: nat, n: nat, len: nat)
    requires
        n > 0,
        cursor <= len,
    ensures
        total(read_sizes(cursor, n, len)) == len - cursor,
        read_sizes(cursor, n, len).last() == 0,
        forall|i: int|
            0 <= i < read_sizes(cursor, n, len).len() - 1 ==> 0 < #[trigger] read_sizes(
                cursor,
                n,
                len,
            )[i] <= n,
    decreases len - cursor,
{
    let s = read_sizes(cursor, n, len);
    if cursor >= len {
        assert(s.drop_first() =~= Seq::<nat>::empty());
        assert(total(s.drop_first()) == 0);
    } else {
        let next = read_end(cursor, n, len);
        let rest = read_sizes(next, n, len);
        lemma_body_reads_cover(next, n, len);
        assert(s.drop_first() =~= rest);
        assert forall|i: int| 0 <= i < s.len() - 1 implies 0 < #[trigger] s[i] <= n by {
            if i > 0 {
                assert(s[i] == rest[i - 1]);
            }
        }
    }
}

/// Once a handle is not open, every lookup through it is `InvalidHandle`.
pub proof fn lemma_closed_handle_rejected(t: &SessionTable, h: u32, name: Seq<char>, capacity: usize)
    requires
        !t.live(h),
    ensures
        header_get_result(t, h, name, capacity) == Err::<Seq<char>, HttpError>(
            HttpError::InvalidHandle,
        ),
        headers_get_all_result(t, h, capacity) == Err::<Seq<char>, HttpError>(
            HttpError::InvalidHandle,
        ),
{
}

/// A buffer shorter than the header's value is `BufferTooSmall`; one at least
/// as long gives the exact value.
pub proof fn lemma_header_buffer_retry(
    t: &SessionTable,
    h: u32,
    name: Seq<char>,
    value: Seq<char>,
    small: usize,
    large: usize,
)
    requires
        t.live(h),
        header_lookup(t.session(h).headers@, name) == Some(value),
        small < byte_len(value),
        byte_len(value) <= large,
    ensures
        header_get_result(t, h, name, small) == Err::<Seq<char>, HttpError>(
            HttpError::BufferTooSmall,
        ),
        header_get_result(t, h, name, large) == Ok::<Seq<char>, HttpError>(value),
{
}

} // verus!
