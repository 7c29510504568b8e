use wasi_experimental_http::error::HttpError;
use wasi_experimental_http::header::{string_to_header_map, HeaderMap};
use wasi_experimental_http::host::{
    http_parts_from_memory, is_valid_method, write_http_response_to_memory, HttpState,
    IncomingResponse, OutgoingRequest,
};
use wasi_experimental_http::policy::HttpCtx;

/// A network client that answers every request alike and counts the calls.
struct FakeAdapter {
    calls: usize,
    status: u16,
    headers: Vec<(String, String)>,
    body: Vec<u8>,
}

impl FakeAdapter {
    fn new(status: u16, body: &[u8]) -> FakeAdapter {
        FakeAdapter {
            calls: 0,
            status,
            headers: vec![
                ("content-type".to_string(), "text/plain".to_string()),
                ("x-request-id".to_string(), "abc123".to_string()),
            ],
            body: body.to_vec(),
        }
    }

    fn execute(&mut self, _req: &OutgoingRequest) -> Result<IncomingResponse, HttpError> {
        self.calls += 1;
        let mut headers = HeaderMap::new();
        for (n, v) in &self.headers {
            headers.append(n.clone(), v.clone());
        }
        Ok(IncomingResponse { status_code: self.status, headers, body: self.body.clone() })
    }
}

fn state(hosts: &[&str], cap: Option<u32>) -> HttpState {
    HttpState::new(HttpCtx {
        allowed_hosts: Some(hosts.iter().map(|h| h.to_string()).collect()),
        max_concurrent_requests: cap,
    })
}

/// Begins a request; on success the adapter performs it and the exchange is
/// left in flight, as an overlapping request would be.
fn start(st: &mut HttpState, url: &str) -> Result<OutgoingRequest, HttpError> {
    st.begin_request(url.to_string(), "GET".to_string(), HeaderMap::new(), vec![])
}

fn send(st: &mut HttpState, ad: &mut FakeAdapter, url: &str) -> Result<(u32, u16, String), HttpError> {
    let headers = string_to_header_map("accept:*/*\n")?;
    let req = st.begin_request(url.to_string(), "GET".to_string(), headers, vec![])?;
    let outcome = ad.execute(&req);
    st.finish_request(outcome)
}

fn read_u32(mem: &[u8], at: usize) -> u32 {
    u32::from_le_bytes([mem[at], mem[at + 1], mem[at + 2], mem[at + 3]])
}

fn put(mem: &mut [u8], at: usize, bytes: &[u8]) {
    mem[at..at + bytes.len()].copy_from_slice(bytes);
}

#[test]
fn excess_concurrent_requests_are_refused_before_the_network() {
    let mut st = state(&["https://api.example.com"], Some(2));
    let mut ad = FakeAdapter::new(200, b"ok");
    let a = start(&mut st, "https://api.example.com/1").unwrap();
    let b = start(&mut st, "https://api.example.com/2").unwrap();
    let c = start(&mut st, "https://api.example.com/3");
    assert_eq!(c.err(), Some(HttpError::TooManySessions));
    assert_eq!(st.table.in_flight, 2);
    // only admitted requests reach the client
    ad.execute(&a).unwrap();
    ad.execute(&b).unwrap();
    assert_eq!(ad.calls, 2);
}

#[test]
fn slot_freed_on_completion_not_on_close() {
    let mut st = state(&["https://api.example.com"], Some(1));
    let mut ad = FakeAdapter::new(200, b"ok");
    let (h1, _, _) = send(&mut st, &mut ad, "https://api.example.com/a").unwrap();
    assert_eq!(st.table.in_flight, 0);
    let (h2, _, _) = send(&mut st, &mut ad, "https://api.example.com/b").unwrap();
    assert_ne!(h1, h2);
    assert_eq!(ad.calls, 2);
}

#[test]
fn refused_destination_makes_no_call() {
    let mut st = state(&["https://api.example.com"], None);
    let mut ad = FakeAdapter::new(200, b"ok");
    assert_eq!(
        send(&mut st, &mut ad, "https://evil.example.com/").err(),
        Some(HttpError::DestinationNotAllowed)
    );
    assert_eq!(ad.calls, 0);
    assert_eq!(st.table.in_flight, 0);
}

#[test]
fn no_allow_list_denies() {
    let mut st = HttpState::new(HttpCtx { allowed_hosts: None, max_concurrent_requests: None });
    let mut ad = FakeAdapter::new(200, b"ok");
    assert_eq!(
        send(&mut st, &mut ad, "https://api.example.com/").err(),
        Some(HttpError::DestinationNotAllowed)
    );
    assert_eq!(ad.calls, 0);
}

#[test]
fn invalid_method_and_headers_are_refused() {
    let mut st = state(&["https://api.example.com"], None);
    let r = st.begin_request("https://api.example.com".to_string(), "FETCH".to_string(), HeaderMap::new(), vec![]);
    assert_eq!(r.err(), Some(HttpError::InvalidMethod));
    let r = st.begin_request("https://api.example.com".to_string(), "get".to_string(), HeaderMap::new(), vec![]);
    assert_eq!(r.err(), Some(HttpError::InvalidMethod));
    let r = st.begin_request("nonsense".to_string(), "POST".to_string(), HeaderMap::new(), vec![]);
    assert_eq!(r.err(), Some(HttpError::InvalidUrl));
    assert_eq!(st.table.in_flight, 0);
}

#[test]
fn accepted_request_carries_its_parts() {
    let mut st = state(&["https://api.example.com"], None);
    let req = st
        .begin_request(
            "https://api.example.com/post".to_string(),
            "POST".to_string(),
            string_to_header_map("content-type:text/plain\nabc:def\n").unwrap(),
            b"body".to_vec(),
        )
        .unwrap();
    assert_eq!(req.url, "https://api.example.com/post");
    assert_eq!(req.method, "POST");
    assert_eq!(req.body, b"body".to_vec());
    assert_eq!(
        req.headers.entries,
        vec![
            ("content-type".to_string(), "text/plain".to_string()),
            ("abc".to_string(), "def".to_string()),
        ]
    );
    assert_eq!(st.table.in_flight, 1);
}

#[test]
fn network_failure_is_request_error_and_frees_slot() {
    let mut st = state(&["https://api.example.com"], Some(1));
    start(&mut st, "https://api.example.com").unwrap();
    assert_eq!(st.finish_request(Err(HttpError::RequestError)).err(), Some(HttpError::RequestError));
    assert_eq!(st.table.in_flight, 0);
    assert_eq!(st.table.slots.len(), 0);
}

#[test]
fn closed_handle_is_invalid() {
    let mut st = state(&["https://api.example.com"], None);
    let mut ad = FakeAdapter::new(200, b"hello");
    let (h, _, _) = send(&mut st, &mut ad, "https://api.example.com/").unwrap();
    let mut mem = vec![0u8; 256];
    put(&mut mem, 0, b"content-type");
    assert_eq!(st.close(h), Ok(()));
    assert_eq!(st.header_get(&mut mem, h, 0, 12, 100, 64, 200), Err(HttpError::InvalidHandle));
    assert_eq!(st.body_read(&mut mem, h, 100, 64, 200), Err(HttpError::InvalidHandle));
    assert_eq!(st.headers_get_all(&mut mem, h, 100, 64, 200), Err(HttpError::InvalidHandle));
    assert_eq!(st.close(h), Err(HttpError::InvalidHandle));
    // a later request gets a new handle, never the closed one
    let (h2, _, _) = send(&mut st, &mut ad, "https://api.example.com/").unwrap();
    assert_ne!(h2, h);
    assert_eq!(st.body_read(&mut mem, h, 100, 64, 200), Err(HttpError::InvalidHandle));
}

#[test]
fn unknown_handles_are_invalid() {
    let mut st = state(&["https://api.example.com"], None);
    let mut mem = vec![0u8; 64];
    assert_eq!(st.body_read(&mut mem, 0, 0, 8, 16), Err(HttpError::InvalidHandle));
    assert_eq!(st.body_read(&mut mem, 7, 0, 8, 16), Err(HttpError::InvalidHandle));
    assert_eq!(st.close(0), Err(HttpError::InvalidHandle));
}

#[test]
fn body_reads_in_chunks_then_one_empty_read() {
    let body: Vec<u8> = (0u8..10).collect();
    let mut st = state(&["https://api.example.com"], None);
    let mut ad = FakeAdapter::new(200, &body);
    let (h, _, _) = send(&mut st, &mut ad, "https://api.example.com/").unwrap();
    let mut mem = vec![0u8; 64];
    let mut got = Vec::new();
    let mut sizes = Vec::new();
    loop {
        st.body_read(&mut mem, h, 0, 4, 32).unwrap();
        let n = read_u32(&mem, 32) as usize;
        sizes.push(n);
        if n == 0 {
            break;
        }
        got.extend_from_slice(&mem[0..n]);
    }
    assert_eq!(sizes, vec![4, 4, 2, 0]);
    assert_eq!(got, body);
    st.body_read(&mut mem, h, 0, 4, 32).unwrap();
    assert_eq!(read_u32(&mem, 32), 0);
}

#[test]
fn body_read_into_buffer_outside_memory_is_refused() {
    let mut st = state(&["https://api.example.com"], None);
    let mut ad = FakeAdapter::new(200, b"abc");
    let (h, _, _) = send(&mut st, &mut ad, "https://api.example.com/").unwrap();
    let mut mem = vec![0u8; 16];
    assert_eq!(st.body_read(&mut mem, h, 10, 8, 0), Err(HttpError::MemoryAccessError));
    assert_eq!(st.body_read(&mut mem, h, 0, 4, 14), Err(HttpError::MemoryAccessError));
    // nothing was consumed
    st.body_read(&mut mem, h, 0, 8, 8).unwrap();
    assert_eq!(read_u32(&mem, 8), 3);
    assert_eq!(&mem[0..3], b"abc");
}

#[test]
fn header_get_small_buffer_then_retry() {
    let mut st = state(&["https://api.example.com"], None);
    let mut ad = FakeAdapter::new(200, b"");
    let (h, _, _) = send(&mut st, &mut ad, "https://api.example.com/").unwrap();
    let mut mem = vec![0u8; 128];
    put(&mut mem, 0, b"x-request-id");
    assert_eq!(st.header_get(&mut mem, h, 0, 12, 64, 3, 120), Err(HttpError::BufferTooSmall));
    assert_eq!(st.header_get(&mut mem, h, 0, 12, 64, 6, 120), Ok(()));
    assert_eq!(read_u32(&mem, 120), 6);
    assert_eq!(&mem[64..70], b"abc123");
    put(&mut mem, 0, b"x-missing-id");
    assert_eq!(st.header_get(&mut mem, h, 0, 12, 64, 6, 120), Err(HttpError::HeaderNotFound));
    assert_eq!(st.header_get(&mut mem, h, 120, 12, 64, 6, 0), Err(HttpError::MemoryAccessError));
}

#[test]
fn headers_get_all_writes_encoding() {
    let mut st = state(&["https://api.example.com"], None);
    let mut ad = FakeAdapter::new(200, b"");
    let (h, status, text) = send(&mut st, &mut ad, "https://api.example.com/").unwrap();
    assert_eq!(status, 200);
    assert_eq!(text, "content-type:text/plain\nx-request-id:abc123\n");
    let mut mem = vec![0u8; 128];
    assert_eq!(st.headers_get_all(&mut mem, h, 0, 10, 120), Err(HttpError::BufferTooSmall));
    assert_eq!(st.headers_get_all(&mut mem, h, 0, 100, 120), Ok(()));
    let n = read_u32(&mem, 120) as usize;
    assert_eq!(&mem[0..n], text.as_bytes());
}

#[test]
fn end_to_end_healthz() {
    let mut st = state(&["https://api.example.com"], Some(4));
    let mut ad = FakeAdapter::new(200, b"{\"status\":\"healthy\"}");
    let mut mem = vec![0u8; 512];
    let url = b"https://api.example.com/healthz";
    put(&mut mem, 0, url);
    put(&mut mem, 64, b"GET");
    let parts = http_parts_from_memory(&mem, 0, url.len() as u32, 64, 3, 70, 0, 80, 0).unwrap();
    let req = st.begin_request(parts.url, parts.method, parts.headers, parts.body).unwrap();
    let (h, status, text) = st.finish_request(ad.execute(&req)).unwrap();
    assert_eq!(ad.calls, 1);
    write_http_response_to_memory(&mut mem, 300, &text, 100, 104, 108, status, 112, h).unwrap();
    assert_eq!(u16::from_le_bytes([mem[108], mem[109]]), 200);
    assert_eq!(read_u32(&mem, 112), h);
    assert_eq!(read_u32(&mem, 100), 300);
    let n = read_u32(&mem, 104) as usize;
    assert_eq!(&mem[300..300 + n], text.as_bytes());
    st.body_read(&mut mem, h, 400, 100, 120).unwrap();
    let n = read_u32(&mem, 120) as usize;
    assert_eq!(&mem[400..400 + n], b"{\"status\":\"healthy\"}");
}

#[test]
fn parts_from_memory_errors() {
    let mut mem = vec![0u8; 64];
    put(&mut mem, 0, b"abc");
    mem[10] = 0xff;
    put(&mut mem, 20, b"GETFETCH");
    put(&mut mem, 32, b"a:1\nb:2\n");
    put(&mut mem, 48, b"broken");
    assert_eq!(http_parts_from_memory(&mem, 60, 8, 20, 3, 32, 8, 0, 0).err(), Some(HttpError::MemoryAccessError));
    assert_eq!(http_parts_from_memory(&mem, 10, 1, 20, 3, 32, 8, 0, 0).err(), Some(HttpError::Utf8Error));
    assert_eq!(http_parts_from_memory(&mem, 0, 3, 20, 3, 48, 6, 0, 0).err(), Some(HttpError::InvalidEncoding));
    assert_eq!(http_parts_from_memory(&mem, 0, 3, 23, 5, 32, 8, 0, 0).err(), Some(HttpError::InvalidMethod));
    assert_eq!(http_parts_from_memory(&mem, 0, 3, 20, 3, 32, 8, 62, 4).err(), Some(HttpError::MemoryAccessError));
    let parts = http_parts_from_memory(&mem, 0, 3, 20, 3, 32, 8, 1, 2).unwrap();
    assert_eq!(parts.url, "abc");
    assert_eq!(parts.method, "GET");
    assert_eq!(
        parts.headers.entries,
        vec![("a".to_string(), "1".to_string()), ("b".to_string(), "2".to_string())]
    );
    assert_eq!(parts.body, b"bc".to_vec());
}

#[test]
fn header_get_on_closed_handle_ignores_name_pointer() {
    let mut st = state(&["https://api.example.com"], None);
    let mut ad = FakeAdapter::new(200, b"");
    let (h, _, _) = send(&mut st, &mut ad, "https://api.example.com/").unwrap();
    st.close(h).unwrap();
    let mut mem = vec![0u8; 16];
    assert_eq!(st.header_get(&mut mem, h, 100, 12, 0, 4, 8), Err(HttpError::InvalidHandle));
}

#[test]
fn response_that_does_not_fit_writes_nothing() {
    let mut mem = vec![7u8; 32];
    let before = mem.clone();
    assert_eq!(
        write_http_response_to_memory(&mut mem, 0, "a:b\n", 8, 12, 16, 200, 30, 1),
        Err(HttpError::MemoryAccessError)
    );
    assert_eq!(mem, before);
}

#[test]
fn methods_are_a_closed_set() {
    for m in ["GET", "HEAD", "POST", "PUT", "DELETE", "CONNECT", "OPTIONS", "TRACE", "PATCH"] {
        assert!(is_valid_method(&m.to_string()), "{}", m);
    }
    for m in ["", "get", "FETCH", "GET "] {
        assert!(!is_valid_method(&m.to_string()), "{}", m);
    }
}
