use vstd::prelude::*;
use vstd::string::StringExecFns;
use vstd::utf8::encode_utf8;

use crate::error::HttpError;
use crate::header::{
    decode_headers, encode_headers, header_map_to_string, string_to_header_map, valid_headers,
    HeaderMap, HeaderSpec,
};
use crate::memory::{
    can_deliver, deliver, delivered, in_bounds, le_u16, le_u32, read_bytes, read_string, splice,
    text_in, write_u16, write_u32, write_with_count, written_with_count,
};
use crate::policy::{allowed, hosts_view, is_allowed, HttpCtx};
use crate::session::{header_get_result, headers_get_all_result, read_end, Session, SessionTable};

verus! {

/// The methods that a guest may use.
pub open spec fn valid_method(m: Seq<char>) -> bool {
    m == "GET"@ || m == "HEAD"@ || m == "POST"@ || m == "PUT"@ || m == "DELETE"@ || m
        == "CONNECT"@ || m == "OPTIONS"@ || m == "TRACE"@ || m == "PATCH"@
}

fn is_named(m: &String, name: &str) -> (r: bool)
    ensures
        r == (m@ == name@),
{
    *m == <String as StringExecFns>::from_str(name)
}

pub fn is_valid_method(m: &String) -> (r: bool)
    ensures
        r == valid_method(m@),
{
    is_named(m, "GET") || is_named(m, "HEAD") || is_named(m, "POST") || is_named(m, "PUT")
        || is_named(m, "DELETE") || is_named(m, "CONNECT") || is_named(m, "OPTIONS") || is_named(
        m,
        "TRACE",
    ) || is_named(m, "PATCH")
}

/// A request that passed every check and holds a place among those in
/// flight; it is for the network client to perform.
pub struct OutgoingRequest {
    pub url: String,
    pub method: String,
    pub headers: HeaderMap,
    pub body: Vec<u8>,
}

/// What the network client brought back: the status, the headers, and the
/// body of the response.
pub struct IncomingResponse {
    pub status_code: u16,
    pub headers: HeaderMap,
    pub body: Vec<u8>,
}

/// The checks that a request goes through before any network work, in
/// order; `Ok` when it may go out.
pub open spec fn request_check(
    hosts: Option<Seq<Seq<char>>>,
    in_flight: u32,
    limit: nat,
    url: Seq<char>,
    method: Seq<char>,
) -> Result<(), HttpError> {
    if !valid_method(method) {
        Err(HttpError::InvalidMethod)
    } else {
        match allowed(url, hosts) {
            Err(e) => Err(e),
            Ok(false) => Err(HttpError::DestinationNotAllowed),
            Ok(true) => if in_flight >= limit {
                Err(HttpError::TooManySessions)
            } else {
                Ok(())
            },
        }
    }
}

/// A request that would otherwise go out is refused with `TooManySessions`
/// while as many requests as the limit are in flight; `begin_request` then
/// hands nothing to the network client.
pub proof fn lemma_over_limit_refused(
    hosts: Option<Seq<Seq<char>>>,
    in_flight: u32,
    limit: nat,
    url: Seq<char>,
    method: Seq<char>,
)
    requires
        in_flight >= limit,
        valid_method(method),
        allowed(url, hosts) == Ok::<bool, HttpError>(true),
    ensures
        request_check(hosts, in_flight, limit, url, method) == Err::<(), HttpError>(
            HttpError::TooManySessions,
        ),
{
}

/// The state of the capability for one guest instance: its configuration
/// and its open responses.
pub struct HttpState {
    pub ctx: HttpCtx,
    pub table: SessionTable,
}

impl HttpState {
    pub open spec fn wf(&self) -> bool {
        &&& self.table.wf()
        &&& self.table.max_concurrent_requests == self.ctx.max_concurrent_requests
    }

    pub open spec fn hosts(&self) -> Option<Seq<Seq<char>>> {
        hosts_view(
            match &self.ctx.allowed_hosts {
                Some(v) => Some(v),
                None => None,
            },
        )
    }

    /// The tables of two states agree but for the count in flight.
    pub open spec fn same_sessions(&self, other: &HttpState) -> bool {
        &&& self.ctx == other.ctx
        &&& self.table.slots@ == other.table.slots@
        &&& self.table.max_concurrent_requests == other.table.max_concurrent_requests
    }

    pub fn new(ctx: HttpCtx) -> (r: HttpState)
        ensures
            r.wf(),
            r.ctx == ctx,
            r.table.slots.len() == 0,
            r.table.in_flight == 0,
    {
        let table = SessionTable::new(ctx.max_concurrent_requests);
        HttpState { ctx, table }
    }

    /// Runs the checks on a request and, when it passes them all, takes a
    /// place for it among those in flight. A refused request changes nothing
    /// and is never to be performed.
    pub fn begin_request(&mut self, url: String, method: String, headers: HeaderMap, body: Vec<u8>) -> (r: Result<OutgoingRequest, HttpError>)
        requires
            old(self).wf(),
        ensures
            final(self).wf(),
            final(self).same_sessions(old(self)),
            match request_check(
                old(self).hosts(),
                old(self).table.in_flight,
                old(self).table.limit(),
                url@,
                method@,
            ) {
                Err(e) => r == Err::<OutgoingRequest, HttpError>(e) && final(self).table.in_flight
                    == old(self).table.in_flight,
                Ok(_) => {
                    &&& r is Ok
                    &&& r->Ok_0.url@ == url@
                    &&& r->Ok_0.method@ == method@
                    &&& r->Ok_0.headers@ == headers@
                    &&& r->Ok_0.body@ == body@
                    &&& final(self).table.in_flight == old(self).table.in_flight + 1
                },
            },
    {
        if !is_valid_method(&method) {
            return Err(HttpError::InvalidMethod);
        }
        let hosts = match &self.ctx.allowed_hosts {
            Some(v) => Some(v),
            None => None,
        };
        match is_allowed(url.as_str(), hosts) {
            Err(e) => return Err(e),
            Ok(false) => return Err(HttpError::DestinationNotAllowed),
            Ok(true) => {},
        }
        match self.table.try_reserve() {
            Err(e) => Err(e),
            Ok(()) => Ok(OutgoingRequest { url, method, headers, body }),
        }
    }

    /// Ends the exchange of a request that `begin_request` let out: gives
    /// back its place in flight and, when a response came, opens a session
    /// for it. Returns the handle, the status and the encoded headers.
    pub fn finish_request(&mut self, outcome: Result<IncomingResponse, HttpError>) -> (r: Result<(u32, u16, String), HttpError>)
        requires
            old(self).wf(),
        ensures
            final(self).wf(),
            final(self).ctx == old(self).ctx,
            final(self).table.in_flight == if old(self).table.in_flight > 0 {
                old(self).table.in_flight - 1
            } else {
                0
            },
            match outcome {
                Err(_) => r == Err::<(u32, u16, String), HttpError>(HttpError::RequestError)
                    && final(self).table.slots@ == old(self).table.slots@,
                Ok(res) => if !valid_headers(res.headers@) {
                    r == Err::<(u32, u16, String), HttpError>(HttpError::InvalidEncoding)
                        && final(self).table.slots@ == old(self).table.slots@
                } else if old(self).table.slots.len() + 1 >= u32::MAX {
                    r == Err::<(u32, u16, String), HttpError>(HttpError::TooManySessions)
                        && final(self).table.slots@ == old(self).table.slots@
                } else {
                    let h = r->Ok_0.0;
                    &&& r is Ok
                    &&& h == old(self).table.slots.len() + 1
                    &&& !old(self).table.issued(h)
                    &&& final(self).table.live(h)
                    &&& final(self).table.slots.len() == h
                    &&& forall|i: int| 0 <= i < old(self).table.slots.len() ==> #[trigger] final(self).table.slots@[i] == old(self).table.slots@[i]
                    &&& final(self).table.session(h).status_code == res.status_code
                    &&& final(self).table.session(h).headers@ == res.headers@
                    &&& final(self).table.session(h).body@ == res.body@
                    &&& final(self).table.session(h).cursor == 0
                    &&& r->Ok_0.1 == res.status_code
                    &&& r->Ok_0.2@ == encode_headers(res.headers@)
                },
            },
    {
        self.table.complete();
        let res = match outcome {
            Err(_) => return Err(HttpError::RequestError),
            Ok(res) => res,
        };
        let text = match header_map_to_string(&res.headers) {
            Err(e) => return Err(e),
            Ok(t) => t,
        };
        let status = res.status_code;
        let session = Session::new(res.status_code, res.headers, res.body);
        match self.table.register(session) {
            Err(e) => Err(e),
            Ok(h) => Ok((h, status, text)),
        }
    }

    /// The `header_get` call: looks up header `name` of response `handle` and
    /// writes its value into the guest's buffer, with the count of bytes.
    pub fn header_get(
        &self,
        mem: &mut [u8],
        handle: u32,
        name_ptr: u32,
        name_len: u32,
        value_ptr: u32,
        value_len: u32,
        written_ptr: u32,
    ) -> (r: Result<(), HttpError>)
        requires
            self.wf(),
        ensures
            !self.table.live(handle) ==> r == Err::<(), HttpError>(HttpError::InvalidHandle)
                && final(mem)@ == old(mem)@,
            self.table.live(handle) ==> match text_in(old(mem)@, name_ptr, name_len) {
                Err(e) => r == Err::<(), HttpError>(e) && final(mem)@ == old(mem)@,
                Ok(name) => match header_get_result(&self.table, handle, name, value_len as usize) {
                    Err(e) => r == Err::<(), HttpError>(e) && final(mem)@ == old(mem)@,
                    Ok(v) => match written_with_count(old(mem)@, value_ptr, encode_utf8(v), written_ptr) {
                        Some(m) => r is Ok && final(mem)@ == m,
                        None => r == Err::<(), HttpError>(HttpError::MemoryAccessError)
                            && final(mem)@ == old(mem)@,
                    },
                },
            },
    {
        if !self.table.is_live(handle) {
            return Err(HttpError::InvalidHandle);
        }
        let name = read_string(mem, name_ptr, name_len)?;
        let value = self.table.header_get(handle, &name, value_len as usize)?;
        write_with_count(mem, value_ptr, value.as_str().as_bytes(), written_ptr)
    }

    /// The `headers_get_all` call: writes the encoded headers of response
    /// `handle` into the guest's buffer, with the count of bytes.
    pub fn headers_get_all(
        &self,
        mem: &mut [u8],
        handle: u32,
        buf_ptr: u32,
        buf_len: u32,
        written_ptr: u32,
    ) -> (r: Result<(), HttpError>)
        requires
            self.wf(),
        ensures
            match headers_get_all_result(&self.table, handle, buf_len as usize) {
                Err(e) => r == Err::<(), HttpError>(e) && final(mem)@ == old(mem)@,
                Ok(text) => match written_with_count(old(mem)@, buf_ptr, encode_utf8(text), written_ptr) {
                    Some(m) => r is Ok && final(mem)@ == m,
                    None => r == Err::<(), HttpError>(HttpError::MemoryAccessError)
                        && final(mem)@ == old(mem)@,
                },
            },
    {
        let text = self.table.headers_get_all(handle, buf_len as usize)?;
        write_with_count(mem, buf_ptr, text.as_str().as_bytes(), written_ptr)
    }

    /// The `body_read` call: moves the next bytes of the body of response
    /// `handle`, at most `buf_len` of them, into the guest's buffer and writes
    /// their count; a count of zero marks the end of the body. A buffer that
    /// does not lie in memory is refused before anything is read.
    pub fn body_read(
        &mut self,
        mem: &mut [u8],
        handle: u32,
        buf_ptr: u32,
        buf_len: u32,
        written_ptr: u32,
    ) -> (r: Result<(), HttpError>)
        requires
            old(self).wf(),
        ensures
            final(self).wf(),
            final(self).ctx == old(self).ctx,
            final(self).table.in_flight == old(self).table.in_flight,
            !old(self).table.live(handle) ==> r == Err::<(), HttpError>(HttpError::InvalidHandle)
                && final(mem)@ == old(mem)@ && final(self).table.slots@ == old(self).table.slots@,
            old(self).table.live(handle) && !(in_bounds(old(mem)@.len(), buf_ptr, buf_len as nat)
                && in_bounds(old(mem)@.len(), written_ptr, 4)) ==> r == Err::<(), HttpError>(
                HttpError::MemoryAccessError,
            ) && final(mem)@ == old(mem)@ && final(self).table.slots@ == old(self).table.slots@,
            old(self).table.live(handle) && in_bounds(old(mem)@.len(), buf_ptr, buf_len as nat)
                && in_bounds(old(mem)@.len(), written_ptr, 4) ==> {
                let s = old(self).table.session(handle);
                let end = read_end(s.cursor as nat, buf_len as nat, s.body.len() as nat);
                let chunk = s.body@.subrange(s.cursor as int, end as int);
                &&& r is Ok
                &&& written_with_count(old(mem)@, buf_ptr, chunk, written_ptr) == Some(final(mem)@)
                &&& final(self).table.live(handle)
                &&& final(self).table.session(handle).cursor == end
                &&& final(self).table.session(handle).body@ == s.body@
                &&& final(self).table.others_unchanged(&old(self).table, handle)
            },
    {
        if !self.table.is_live(handle) {
            return Err(HttpError::InvalidHandle);
        }
        let size = mem.len();
        if buf_ptr as usize > size || buf_len as usize > size - buf_ptr as usize || written_ptr
            as usize > size || 4 > size - written_ptr as usize {
            return Err(HttpError::MemoryAccessError);
        }
        let chunk = match self.table.body_read(handle, buf_len as usize) {
            Ok(c) => c,
            Err(e) => return Err(e),
        };
        write_with_count(mem, buf_ptr, chunk.as_slice(), written_ptr)
    }

    /// The `close` call: releases response `handle`.
    pub fn close(&mut self, handle: u32) -> (r: Result<(), HttpError>)
        requires
            old(self).wf(),
        ensures
            final(self).wf(),
            final(self).ctx == old(self).ctx,
            final(self).table.in_flight == old(self).table.in_flight,
            !final(self).table.live(handle),
            final(self).table.others_unchanged(&old(self).table, handle),
            old(self).table.live(handle) ==> r is Ok,
            !old(self).table.live(handle) ==> r == Err::<(), HttpError>(HttpError::InvalidHandle),
    {
        self.table.close(handle)
    }
}

/// What the guest asked for, read from its memory and checked: the URL,
/// then the headers, which must decode, then the method, which must be one
/// of the known ones, then the body.
pub open spec fn parts_in(
    mem: Seq<u8>,
    url_ptr: u32,
    url_len: u32,
    method_ptr: u32,
    method_len: u32,
    headers_ptr: u32,
    headers_len: u32,
    body_ptr: u32,
    body_len: u32,
) -> Result<(Seq<char>, Seq<char>, Seq<HeaderSpec>, Seq<u8>), HttpError> {
    match text_in(mem, url_ptr, url_len) {
        Err(e) => Err(e),
        Ok(u) => match text_in(mem, headers_ptr, headers_len) {
            Err(e) => Err(e),
            Ok(h) => match decode_headers(h) {
                None => Err(HttpError::InvalidEncoding),
                Some(hs) => match text_in(mem, method_ptr, method_len) {
                    Err(e) => Err(e),
                    Ok(m) => if !valid_method(m) {
                        Err(HttpError::InvalidMethod)
                    } else if !in_bounds(mem.len(), body_ptr, body_len as nat) {
                        Err(HttpError::MemoryAccessError)
                    } else {
                        Ok((u, m, hs, mem.subrange(body_ptr as int, body_ptr + body_len)))
                    },
                },
            },
        },
    }
}

/// A request as the guest laid it out in its memory, read and checked.
pub struct RequestParts {
    pub url: String,
    pub method: String,
    pub headers: HeaderMap,
    pub body: Vec<u8>,
}

/// Reads the URL, the encoded headers, the method and the body of a request
/// from the guest's memory. Headers that do not decode are `InvalidEncoding`,
/// a method outside the known ones is `InvalidMethod`.
pub fn http_parts_from_memory(
    mem: &[u8],
    url_ptr: u32,
    url_len: u32,
    method_ptr: u32,
    method_len: u32,
    headers_ptr: u32,
    headers_len: u32,
    body_ptr: u32,
    body_len: u32,
) -> (r: Result<RequestParts, HttpError>)
    ensures
        match parts_in(
            mem@,
            url_ptr,
            url_len,
            method_ptr,
            method_len,
            headers_ptr,
            headers_len,
            body_ptr,
            body_len,
        ) {
            Err(e) => r == Err::<RequestParts, HttpError>(e),
            Ok((u, m, hs, b)) => {
                &&& r is Ok
                &&& r->Ok_0.url@ == u
                &&& r->Ok_0.method@ == m
                &&& r->Ok_0.headers@ == hs
                &&& r->Ok_0.body@ == b
            },
        },
{
    let url = read_string(mem, url_ptr, url_len)?;
    let text = read_string(mem, headers_ptr, headers_len)?;
    let headers = string_to_header_map(text.as_str())?;
    let method = read_string(mem, method_ptr, method_len)?;
    if !is_valid_method(&method) {
        return Err(HttpError::InvalidMethod);
    }
    let body = read_bytes(mem, body_ptr, body_len)?;
    Ok(RequestParts { url, method, headers, body })
}

/// The memory after the response of a request is handed back: the encoded
/// headers delivered at `offset`, then the status code, then the handle.
pub open spec fn response_written(
    m: Seq<u8>,
    offset: u32,
    headers: Seq<u8>,
    headers_res_ptr: u32,
    headers_written_ptr: u32,
    status_code_ptr: u32,
    status: u16,
    handle_ptr: u32,
    handle: u32,
) -> Option<Seq<u8>> {
    if !can_deliver(m.len(), offset, headers.len(), headers_res_ptr, headers_written_ptr)
        || !in_bounds(m.len(), status_code_ptr, 2) || !in_bounds(m.len(), handle_ptr, 4) {
        None
    } else {
        let m1 = delivered(m, offset, headers, headers_res_ptr, headers_written_ptr);
        let m2 = splice(m1, status_code_ptr as int, le_u16(status));
        Some(splice(m2, handle_ptr as int, le_u32(handle)))
    }
}

/// Hands a response back to the guest: the encoded headers go to `offset`,
/// which the guest's allocator returned for them, with their place and length
/// in the two result slots; the status code and the handle go to their slots.
/// Nothing is written unless all of it fits.
pub fn write_http_response_to_memory(
    mem: &mut [u8],
    offset: u32,
    headers: &str,
    headers_res_ptr: u32,
    headers_written_ptr: u32,
    status_code_ptr: u32,
    status: u16,
    handle_ptr: u32,
    handle: u32,
) -> (r: Result<(), HttpError>)
    ensures
        match response_written(
            old(mem)@,
            offset,
            encode_utf8(headers@),
            headers_res_ptr,
            headers_written_ptr,
            status_code_ptr,
            status,
            handle_ptr,
            handle,
        ) {
            Some(m) => r is Ok && final(mem)@ == m,
            None => r == Err::<(), HttpError>(HttpError::MemoryAccessError) && final(mem)@ == old(
                mem,
            )@,
        },
{
    let size = mem.len();
    let bytes = headers.as_bytes();
    if bytes.len() > u32::MAX as usize || offset as usize > size || bytes.len() > size
        - offset as usize || headers_res_ptr as usize > size || 4 > size - headers_res_ptr as usize
        || headers_written_ptr as usize > size || 4 > size - headers_written_ptr as usize
        || status_code_ptr as usize > size || 2 > size - status_code_ptr as usize || handle_ptr
        as usize > size || 4 > size - handle_ptr as usize {
        return Err(HttpError::MemoryAccessError);
    }
    let _ = deliver(mem, offset, bytes, headers_res_ptr, headers_written_ptr);
    let _ = write_u16(mem, status_code_ptr, status);
    let _ = write_u32(mem, handle_ptr, handle);
    Ok(())
}

} // verus!
