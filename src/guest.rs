use vstd::prelude::*;

use crate::error::HttpError;
use crate::header::{
    decode_headers, encode_headers, header_lookup, header_map_to_string, string_to_header_map,
    valid_headers, HeaderMap,
};
use crate::memory::text_result;
use crate::session::{byte_len, SessionTable};

verus! {

/// A text result as a buffer of `capacity` bytes receives it: text longer
/// than the buffer is `BufferTooSmall`.
pub open spec fn fit(r: Result<Seq<char>, HttpError>, capacity: usize) -> Result<Seq<char>, HttpError> {
    match r {
        Ok(v) => if byte_len(v) > capacity {
            Err(HttpError::BufferTooSmall)
        } else {
            Ok(v)
        },
        Err(e) => Err(e),
    }
}

/// How many bytes a read with a buffer of `capacity` bytes takes from `b`.
pub open spec fn chunk_len(b: Seq<u8>, capacity: usize) -> int {
    if capacity < b.len() {
        capacity as int
    } else {
        b.len() as int
    }
}

/// A call that the guest makes to the host, as the host's log records it.
pub enum HostCall {
    HeaderGet { handle: u32, name: Seq<char>, capacity: usize },
    HeadersGetAll { handle: u32, capacity: usize },
    BodyRead { handle: u32, capacity: usize },
    Close { handle: u32 },
}

/// The calls through which a guest reads an open response: the host side of
/// the capability as the guest library sees it. Each call is appended to
/// `calls`, so that what a guest asks of the host can be stated.
pub trait HttpHost {
    spec fn inv(&self) -> bool;

    /// The calls made so far, oldest first.
    spec fn calls(&self) -> Seq<HostCall>;

    /// The value of header `name` of response `handle`, or why there is none.
    spec fn header_value(&self, handle: u32, name: Seq<char>) -> Result<Seq<char>, HttpError>;

    /// The encoded headers of response `handle`, or why there are none.
    spec fn encoded_headers(&self, handle: u32) -> Result<Seq<char>, HttpError>;

    /// The body of response `handle` that is not read yet, or why there is
    /// none.
    spec fn unread(&self, handle: u32) -> Result<Seq<u8>, HttpError>;

    fn header_get(&mut self, handle: u32, name: &String, capacity: usize) -> (r: Result<String, HttpError>)
        requires
            old(self).inv(),
        ensures
            final(self).inv(),
            text_result(r) == fit(old(self).header_value(handle, name@), capacity),
            final(self).calls() == old(self).calls().push(
                HostCall::HeaderGet { handle, name: name@, capacity },
            ),
            forall|h: u32, n: Seq<char>| #[trigger] final(self).header_value(h, n) == old(
                self,
            ).header_value(h, n),
            forall|h: u32| #[trigger] final(self).encoded_headers(h) == old(self).encoded_headers(h),
            forall|h: u32| #[trigger] final(self).unread(h) == old(self).unread(h),
    ;

    fn headers_get_all(&mut self, handle: u32, capacity: usize) -> (r: Result<String, HttpError>)
        requires
            old(self).inv(),
        ensures
            final(self).inv(),
            text_result(r) == fit(old(self).encoded_headers(handle), capacity),
            final(self).calls() == old(self).calls().push(
                HostCall::HeadersGetAll { handle, capacity },
            ),
            forall|h: u32, n: Seq<char>| #[trigger] final(self).header_value(h, n) == old(
                self,
            ).header_value(h, n),
            forall|h: u32| #[trigger] final(self).encoded_headers(h) == old(self).encoded_headers(h),
            forall|h: u32| #[trigger] final(self).unread(h) == old(self).unread(h),
    ;

    fn body_read(&mut self, handle: u32, capacity: usize) -> (r: Result<Vec<u8>, HttpError>)
        requires
            old(self).inv(),
        ensures
            final(self).inv(),
            final(self).calls() == old(self).calls().push(HostCall::BodyRead { handle, capacity }),
            match old(self).unread(handle) {
                Err(e) => r == Err::<Vec<u8>, HttpError>(e) && final(self).unread(handle) == old(
                    self,
                ).unread(handle),
                Ok(b) => {
                    &&& r is Ok
                    &&& r->Ok_0@ == b.take(chunk_len(b, capacity))
                    &&& final(self).unread(handle) == Ok::<Seq<u8>, HttpError>(
                        b.skip(chunk_len(b, capacity)),
                    )
                },
            },
    ;

    fn close(&mut self, handle: u32) -> (r: Result<(), HttpError>)
        requires
            old(self).inv(),
        ensures
            final(self).inv(),
            final(self).calls() == old(self).calls().push(HostCall::Close { handle }),
            final(self).unread(handle) == Err::<Seq<u8>, HttpError>(HttpError::InvalidHandle),
            final(self).encoded_headers(handle) == Err::<Seq<char>, HttpError>(
                HttpError::InvalidHandle,
            ),
            forall|name: Seq<char>| #[trigger]
                final(self).header_value(handle, name) == Err::<Seq<char>, HttpError>(
                    HttpError::InvalidHandle,
                ),
            old(self).unread(handle) is Ok ==> r is Ok,
    ;
}

/// Every response of `a` reads as it does in `b`.
pub open spec fn same_responses<H: HttpHost + ?Sized>(a: &H, b: &H) -> bool {
    &&& forall|h: u32, n: Seq<char>| #[trigger] a.header_value(h, n) == b.header_value(h, n)
    &&& forall|h: u32| #[trigger] a.encoded_headers(h) == b.encoded_headers(h)
    &&& forall|h: u32| #[trigger] a.unread(h) == b.unread(h)
}

/// The host served in the same process: the session table, and the log of
/// the calls made to it.
pub struct LocalHost {
    pub table: SessionTable,
    pub log: Ghost<Seq<HostCall>>,
}

impl LocalHost {
    pub fn new(table: SessionTable) -> (r: LocalHost)
        ensures
            r.table == table,
            r.log@ == Seq::<HostCall>::empty(),
    {
        LocalHost { table, log: Ghost(Seq::empty()) }
    }
}

impl HttpHost for LocalHost {
    open spec fn inv(&self) -> bool {
        self.table.wf()
    }

    open spec fn calls(&self) -> Seq<HostCall> {
        self.log@
    }

    open spec fn header_value(&self, handle: u32, name: Seq<char>) -> Result<Seq<char>, HttpError> {
        if !self.table.live(handle) {
            Err(HttpError::InvalidHandle)
        } else {
            match header_lookup(self.table.session(handle).headers@, name) {
                None => Err(HttpError::HeaderNotFound),
                Some(v) => Ok(v),
            }
        }
    }

    open spec fn encoded_headers(&self, handle: u32) -> Result<Seq<char>, HttpError> {
        if !self.table.live(handle) {
            Err(HttpError::InvalidHandle)
        } else if !valid_headers(self.table.session(handle).headers@) {
            Err(HttpError::InvalidEncoding)
        } else {
            Ok(encode_headers(self.table.session(handle).headers@))
        }
    }

    open spec fn unread(&self, handle: u32) -> Result<Seq<u8>, HttpError> {
        if !self.table.live(handle) {
            Err(HttpError::InvalidHandle)
        } else {
            let s = self.table.session(handle);
            Ok(s.body@.subrange(s.cursor as int, s.body.len() as int))
        }
    }

    fn header_get(&mut self, handle: u32, name: &String, capacity: usize) -> (r: Result<String, HttpError>) {
        let r = self.table.header_get(handle, name, capacity);
        self.log = Ghost(self.log@.push(HostCall::HeaderGet { handle, name: name@, capacity }));
        r
    }

    fn headers_get_all(&mut self, handle: u32, capacity: usize) -> (r: Result<String, HttpError>) {
        let r = self.table.headers_get_all(handle, capacity);
        self.log = Ghost(self.log@.push(HostCall::HeadersGetAll { handle, capacity }));
        r
    }

    fn body_read(&mut self, handle: u32, capacity: usize) -> (r: Result<Vec<u8>, HttpError>) {
        let r = self.table.body_read(handle, capacity);
        self.log = Ghost(self.log@.push(HostCall::BodyRead { handle, capacity }));
        proof {
            if old(self).table.live(handle) {
                let s = old(self).table.session(handle);
                let b = s.body@.subrange(s.cursor as int, s.body.len() as int);
                let k = chunk_len(b, capacity);
                assert(r->Ok_0@ =~= b.take(k));
                let t = self.table.session(handle);
                assert(t.body@.subrange(t.cursor as int, t.body.len() as int) =~= b.skip(k));
            }
        }
        r
    }

    fn close(&mut self, handle: u32) -> (r: Result<(), HttpError>) {
        let r = self.table.close(handle);
        self.log = Ghost(self.log@.push(HostCall::Close { handle }));
        r
    }
}

/// The calls that `Response::header_get` makes from buffer size `capacity`
/// on, for a header whose value is `v`: one, and another with twice the
/// size after each `BufferTooSmall`, up to `HEADER_CAPACITY_MAX`.
pub open spec fn header_get_calls(
    handle: u32,
    name: Seq<char>,
    v: Result<Seq<char>, HttpError>,
    capacity: usize,
) -> Seq<HostCall>
    decreases HEADER_CAPACITY_MAX - capacity,
{
    let call = HostCall::HeaderGet { handle, name, capacity };
    if capacity == 0 || capacity >= HEADER_CAPACITY_MAX || fit(v, capacity) != Err::<
        Seq<char>,
        HttpError,
    >(HttpError::BufferTooSmall) {
        seq![call]
    } else {
        seq![call] + header_get_calls(
            handle,
            name,
            v,
            if capacity * 2 < HEADER_CAPACITY_MAX {
                (capacity * 2) as usize
            } else {
                HEADER_CAPACITY_MAX
            },
        )
    }
}

/// The first buffer size that `Response::header_get` tries.
pub const HEADER_CAPACITY_START: usize = 4096;

/// The largest buffer size that `Response::header_get` tries.
pub const HEADER_CAPACITY_MAX: usize = 65536;

/// The buffer size for `Response::headers_get_all`.
pub const HEADERS_ALL_CAPACITY: usize = 65536;

/// The buffer size for each read of `Response::body_read_all`.
pub const BODY_CHUNK: usize = 4096;

/// An open response as the guest holds it. It is released by `close`, which
/// takes it by value, so it is released at most once.
pub struct Response {
    pub handle: u32,
    pub status_code: u16,
}

impl Response {
    /// Reads the next bytes of the body, at most `capacity` of them; an empty
    /// result marks the end of the body.
    pub fn body_read<H: HttpHost>(&self, host: &mut H, capacity: usize) -> (r: Result<Vec<u8>, HttpError>)
        requires
            old(host).inv(),
        ensures
            final(host).inv(),
            final(host).calls() == old(host).calls().push(
                HostCall::BodyRead { handle: self.handle, capacity },
            ),
            match old(host).unread(self.handle) {
                Err(e) => r == Err::<Vec<u8>, HttpError>(e) && final(host).unread(self.handle)
                    == old(host).unread(self.handle),
                Ok(b) => {
                    &&& r is Ok
                    &&& r->Ok_0@ == b.take(chunk_len(b, capacity))
                    &&& final(host).unread(self.handle) == Ok::<Seq<u8>, HttpError>(
                        b.skip(chunk_len(b, capacity)),
                    )
                },
            },
    {
        host.body_read(self.handle, capacity)
    }

    /// Reads the rest of the body, chunk by chunk, until an empty read.
    pub fn body_read_all<H: HttpHost>(&self, host: &mut H) -> (r: Result<Vec<u8>, HttpError>)
        requires
            old(host).inv(),
        ensures
            final(host).inv(),
            final(host).calls().len() > old(host).calls().len(),
            final(host).calls().take(old(host).calls().len() as int) == old(host).calls(),
            forall|i: int|
                old(host).calls().len() <= i < final(host).calls().len()
                    ==> #[trigger] final(host).calls()[i] == (HostCall::BodyRead {
                    handle: self.handle,
                    capacity: BODY_CHUNK,
                }),
            match old(host).unread(self.handle) {
                Err(e) => r == Err::<Vec<u8>, HttpError>(e),
                Ok(b) => {
                    &&& r is Ok
                    &&& r->Ok_0@ == b
                    &&& final(host).unread(self.handle) == Ok::<Seq<u8>, HttpError>(Seq::empty())
                },
            },
    {
        let mut v: Vec<u8> = Vec::new();
        loop
            invariant
                host.inv(),
                host.calls().len() >= old(host).calls().len(),
                host.calls().take(old(host).calls().len() as int) == old(host).calls(),
                forall|i: int|
                    old(host).calls().len() <= i < host.calls().len() ==> #[trigger] host.calls()[i]
                        == (HostCall::BodyRead { handle: self.handle, capacity: BODY_CHUNK }),
                old(host).unread(self.handle) is Err ==> host.unread(self.handle) == old(
                    host,
                ).unread(self.handle) && v@.len() == 0,
                old(host).unread(self.handle) is Ok ==> host.unread(self.handle) is Ok && v@
                    + host.unread(self.handle)->Ok_0 == old(host).unread(self.handle)->Ok_0,
            decreases
                match host.unread(self.handle) {
                    Ok(b) => b.len(),
                    Err(_) => 0,
                },
        {
            let ghost before = host.unread(self.handle);
            let ghost calls0 = host.calls();
            let chunk = host.body_read(self.handle, BODY_CHUNK);
            proof {
                assert(host.calls().take(old(host).calls().len() as int) =~= calls0.take(
                    old(host).calls().len() as int,
                ));
            }
            let chunk = match chunk {
                Ok(c) => c,
                Err(e) => return Err(e),
            };
            if chunk.len() == 0 {
                proof {
                    let b = before->Ok_0;
                    assert(b.len() == 0);
                    assert(b.skip(0) =~= Seq::<u8>::empty());
                    assert(v@ + b =~= v@);
                }
                return Ok(v);
            }
            let ghost b = before->Ok_0;
            let ghost k = chunk_len(b, BODY_CHUNK);
            let mut i: usize = 0;
            let ghost v0 = v@;
            while i < chunk.len()
                invariant
                    i <= chunk.len(),
                    v@ == v0 + chunk@.take(i as int),
                decreases chunk.len() - i,
            {
                v.push(chunk[i]);
                assert(v@ =~= v0 + chunk@.take(i + 1));
                i = i + 1;
            }
            proof {
                assert(chunk@.take(i as int) =~= chunk@);
                assert(b.take(k) + b.skip(k) =~= b);
                assert(v@ + b.skip(k) =~= v0 + b);
            }
        }
    }

    /// The value of header `name`. The buffer starts at 4 KiB and doubles
    /// while the value does not fit, up to 64 KiB; a value longer than that
    /// is `BufferTooSmall`. No larger buffer is ever asked for.
    pub fn header_get<H: HttpHost>(&self, host: &mut H, name: &String) -> (r: Result<String, HttpError>)
        requires
            old(host).inv(),
        ensures
            final(host).inv(),
            same_responses(final(host), old(host)),
            text_result(r) == fit(old(host).header_value(self.handle, name@), HEADER_CAPACITY_MAX),
            final(host).calls() == old(host).calls() + header_get_calls(
                self.handle,
                name@,
                old(host).header_value(self.handle, name@),
                HEADER_CAPACITY_START,
            ),
    {
        let ghost v = host.header_value(self.handle, name@);
        let ghost done = Seq::<HostCall>::empty();
        let mut capacity: usize = HEADER_CAPACITY_START;
        loop
            invariant
                host.inv(),
                same_responses(host, old(host)),
                v == old(host).header_value(self.handle, name@),
                HEADER_CAPACITY_START <= capacity <= HEADER_CAPACITY_MAX,
                capacity == 4096 || capacity == 8192 || capacity == 16384 || capacity == 32768
                    || capacity == 65536,
                host.calls() == old(host).calls() + done,
                header_get_calls(self.handle, name@, v, HEADER_CAPACITY_START) == done
                    + header_get_calls(self.handle, name@, v, capacity),
                capacity > HEADER_CAPACITY_START ==> fit(v, (capacity / 2) as usize) == Err::<
                    Seq<char>,
                    HttpError,
                >(HttpError::BufferTooSmall),
            decreases HEADER_CAPACITY_MAX - capacity,
        {
            let ghost calls0 = host.calls();
            let r = host.header_get(self.handle, name, capacity);
            let ghost call = HostCall::HeaderGet { handle: self.handle, name: name@, capacity };
            proof {
                assert(host.calls() =~= old(host).calls() + done.push(call));
            }
            match r {
                Err(HttpError::BufferTooSmall) => {
                    if capacity < HEADER_CAPACITY_MAX {
                        proof {
                            assert(header_get_calls(self.handle, name@, v, capacity) =~= seq![call]
                                + header_get_calls(self.handle, name@, v, (capacity * 2) as usize));
                            assert(done + header_get_calls(self.handle, name@, v, capacity) =~= done.push(call)
                                + header_get_calls(self.handle, name@, v, (capacity * 2) as usize));
                            done = done.push(call);
                        }
                        capacity = capacity * 2;
                    } else {
                        proof {
                            assert(header_get_calls(self.handle, name@, v, capacity) =~= seq![call]);
                            assert(done + seq![call] =~= done.push(call));
                        }
                        return r;
                    }
                },
                _ => {
                    proof {
                        assert(header_get_calls(self.handle, name@, v, capacity) =~= seq![call]);
                        assert(done + seq![call] =~= done.push(call));
                    }
                    return r;
                },
            }
        }
    }

    /// All headers of the response, decoded. They must fit in 64 KiB.
    pub fn headers_get_all<H: HttpHost>(&self, host: &mut H) -> (r: Result<HeaderMap, HttpError>)
        requires
            old(host).inv(),
        ensures
            final(host).inv(),
            same_responses(final(host), old(host)),
            final(host).calls() == old(host).calls().push(
                HostCall::HeadersGetAll { handle: self.handle, capacity: HEADERS_ALL_CAPACITY },
            ),
            match fit(old(host).encoded_headers(self.handle), HEADERS_ALL_CAPACITY) {
                Err(e) => r == Err::<HeaderMap, HttpError>(e),
                Ok(text) => match decode_headers(text) {
                    Some(hs) => r is Ok && r->Ok_0@ == hs,
                    None => r == Err::<HeaderMap, HttpError>(HttpError::InvalidEncoding),
                },
            },
    {
        let text = host.headers_get_all(self.handle, HEADERS_ALL_CAPACITY)?;
        string_to_header_map(text.as_str())
    }

    /// Reads the whole response, its headers and then its body, and releases
    /// it: the host is asked to close it once, last, whatever came before.
    pub fn into_parts<H: HttpHost>(self, host: &mut H) -> (r: Result<(u16, HeaderMap, Vec<u8>), HttpError>)
        requires
            old(host).inv(),
        ensures
            final(host).inv(),
            final(host).calls().len() > old(host).calls().len(),
            final(host).calls().take(old(host).calls().len() as int) == old(host).calls(),
            final(host).calls().last() == (HostCall::Close { handle: self.handle }),
            forall|i: int|
                old(host).calls().len() <= i < final(host).calls().len() - 1 ==> !(
                #[trigger] final(host).calls()[i] is Close),
            final(host).unread(self.handle) == Err::<Seq<u8>, HttpError>(HttpError::InvalidHandle),
            match fit(old(host).encoded_headers(self.handle), HEADERS_ALL_CAPACITY) {
                Err(e) => r == Err::<(u16, HeaderMap, Vec<u8>), HttpError>(e),
                Ok(text) => match decode_headers(text) {
                    None => r == Err::<(u16, HeaderMap, Vec<u8>), HttpError>(
                        HttpError::InvalidEncoding,
                    ),
                    Some(hs) => match old(host).unread(self.handle) {
                        Err(e) => r == Err::<(u16, HeaderMap, Vec<u8>), HttpError>(e),
                        Ok(b) => match r {
                            Ok((status, headers, body)) => status == self.status_code
                                && headers@ == hs && body@ == b,
                            Err(_) => false,
                        },
                    },
                },
            },
    {
        let ghost c0 = host.calls();
        let headers = self.headers_get_all(host);
        let ghost c1 = host.calls();
        let res = match headers {
            Err(e) => Err(e),
            Ok(hm) => match self.body_read_all(host) {
                Err(e) => Err(e),
                Ok(b) => Ok((self.status_code, hm, b)),
            },
        };
        let ghost c2 = host.calls();
        let handle = self.handle;
        let _ = self.close(host);
        proof {
            assert(c2.len() >= c1.len());
            assert forall|i: int| c0.len() <= i < host.calls().len() - 1 implies !(
            #[trigger] host.calls()[i] is Close) by {
                assert(host.calls()[i] == c2[i]);
                if i >= c1.len() {
                    assert(c2[i] == (HostCall::BodyRead { handle, capacity: BODY_CHUNK }));
                } else {
                    assert(c2.take(c1.len() as int)[i] == c1[i]);
                    assert(c1[i] == c1.take(c0.len() as int + 1)[i]);
                }
            }
            assert forall|j: int| 0 <= j < c0.len() implies #[trigger] host.calls()[j] == c0[j] by {
                assert(host.calls()[j] == c2[j]);
                assert(c2.take(c1.len() as int)[j] == c2[j]);
                assert(c1[j] == c0[j]);
            }
            assert(host.calls().take(c0.len() as int) =~= c0);
        }
        res
    }

    /// Releases the response on the host.
    pub fn close<H: HttpHost>(self, host: &mut H) -> (r: Result<(), HttpError>)
        requires
            old(host).inv(),
        ensures
            final(host).inv(),
            final(host).calls() == old(host).calls().push(HostCall::Close { handle: self.handle }),
            final(host).unread(self.handle) == Err::<Seq<u8>, HttpError>(HttpError::InvalidHandle),
            final(host).encoded_headers(self.handle) == Err::<Seq<char>, HttpError>(
                HttpError::InvalidHandle,
            ),
            forall|name: Seq<char>| #[trigger]
                final(host).header_value(self.handle, name) == Err::<Seq<char>, HttpError>(
                    HttpError::InvalidHandle,
                ),
            old(host).unread(self.handle) is Ok ==> r is Ok,
    {
        host.close(self.handle)
    }
}

/// A request as the guest builds it.
pub struct Request {
    pub method: String,
    pub url: String,
    pub headers: HeaderMap,
    pub body: Option<Vec<u8>>,
}

/// A request laid out as the `req` call takes it: the URL, the method, the
/// encoded headers and the body bytes.
pub struct WireRequest {
    pub url: String,
    pub method: String,
    pub headers: String,
    pub body: Vec<u8>,
}

impl Request {
    /// A request with no headers and no body.
    pub fn new(method: String, url: String) -> (r: Request)
        ensures
            r.method@ == method@,
            r.url@ == url@,
            r.headers@ == Seq::<(Seq<char>, Seq<char>)>::empty(),
            r.body is None,
    {
        Request { method, url, headers: HeaderMap::new(), body: None }
    }

    /// Adds a header after those already set.
    pub fn header(&mut self, name: String, value: String)
        ensures
            final(self).headers@ == old(self).headers@.push((name@, value@)),
            final(self).method == old(self).method,
            final(self).url == old(self).url,
            final(self).body == old(self).body,
    {
        self.headers.append(name, value);
    }

    pub fn set_body(&mut self, body: Vec<u8>)
        ensures
            final(self).body == Some(body),
            final(self).headers@ == old(self).headers@,
            final(self).method == old(self).method,
            final(self).url == old(self).url,
    {
        self.body = Some(body);
    }

    /// The request in the form the `req` call takes; headers that cannot be
    /// encoded are `InvalidEncoding`. A missing body is an empty one.
    pub fn to_wire(self) -> (r: Result<WireRequest, HttpError>)
        ensures
            valid_headers(self.headers@) ==> r is Ok && r->Ok_0.url@ == self.url@
                && r->Ok_0.method@ == self.method@ && r->Ok_0.headers@ == encode_headers(
                self.headers@,
            ) && r->Ok_0.body@ == match self.body {
                Some(b) => b@,
                None => Seq::<u8>::empty(),
            },
            !valid_headers(self.headers@) ==> r == Err::<WireRequest, HttpError>(
                HttpError::InvalidEncoding,
            ),
    {
        let headers = header_map_to_string(&self.headers)?;
        let body = match self.body {
            Some(b) => b,
            None => Vec::new(),
        };
        Ok(WireRequest { url: self.url, method: self.method, headers, body })
    }
}

} // verus!
