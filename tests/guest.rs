use wasi_experimental_http::error::HttpError;
use wasi_experimental_http::guest::{HttpHost, LocalHost, Request, Response};
use wasi_experimental_http::host::HttpState;
use wasi_experimental_http::policy::HttpCtx;
use wasi_experimental_http::header::{string_to_header_map, HeaderMap};
use wasi_experimental_http::session::{Session, SessionTable};

fn open(host: &mut LocalHost, headers: &[(&str, String)], body: Vec<u8>) -> Response {
    let mut hm = HeaderMap::new();
    for (n, v) in headers {
        hm.append(n.to_string(), v.clone());
    }
    let handle = host.table.register(Session::new(200, hm, body)).unwrap();
    Response { handle, status_code: 200 }
}

#[test]
fn body_read_all_collects_every_chunk() {
    let mut table = LocalHost::new(SessionTable::new(None));
    let body: Vec<u8> = (0..10000u32).map(|i| (i % 251) as u8).collect();
    let res = open(&mut table, &[], body.clone());
    assert_eq!(res.body_read_all(&mut table).unwrap(), body);
    assert_eq!(res.body_read(&mut table, 16).unwrap(), Vec::<u8>::new());
}

#[test]
fn body_read_partial_then_rest() {
    let mut table = LocalHost::new(SessionTable::new(None));
    let res = open(&mut table, &[], b"hello world".to_vec());
    assert_eq!(res.body_read(&mut table, 5).unwrap(), b"hello".to_vec());
    assert_eq!(res.body_read_all(&mut table).unwrap(), b" world".to_vec());
}

#[test]
fn header_get_grows_buffer() {
    let mut table = LocalHost::new(SessionTable::new(None));
    let long = "v".repeat(20000);
    let res = open(&mut table, &[("x-long", long.clone()), ("x-short", "s".to_string())], vec![]);
    assert_eq!(res.header_get(&mut table, &"x-long".to_string()).unwrap(), long);
    assert_eq!(res.header_get(&mut table, &"x-short".to_string()).unwrap(), "s");
    assert_eq!(res.header_get(&mut table, &"x-none".to_string()), Err(HttpError::HeaderNotFound));
}

#[test]
fn header_get_gives_up_past_ceiling() {
    let mut table = LocalHost::new(SessionTable::new(None));
    let huge = "v".repeat(65537);
    let exact = "w".repeat(65536);
    let res = open(&mut table, &[("x-huge", huge), ("x-exact", exact.clone())], vec![]);
    assert_eq!(res.header_get(&mut table, &"x-huge".to_string()), Err(HttpError::BufferTooSmall));
    assert_eq!(res.header_get(&mut table, &"x-exact".to_string()).unwrap(), exact);
}

#[test]
fn headers_get_all_decodes() {
    let mut table = LocalHost::new(SessionTable::new(None));
    let res = open(
        &mut table,
        &[("content-type", "text/plain".to_string()), ("set-cookie", "a".to_string()), ("set-cookie", "b".to_string())],
        vec![],
    );
    let hm = res.headers_get_all(&mut table).unwrap();
    assert_eq!(hm.len(), 3);
    assert_eq!(hm.entries[2], ("set-cookie".to_string(), "b".to_string()));
}

#[test]
fn close_releases_once() {
    let mut table = LocalHost::new(SessionTable::new(None));
    let res = open(&mut table, &[("a", "b".to_string())], b"x".to_vec());
    let handle = res.handle;
    assert_eq!(res.close(&mut table), Ok(()));
    let again = Response { handle, status_code: 200 };
    assert_eq!(again.header_get(&mut table, &"a".to_string()), Err(HttpError::InvalidHandle));
    assert_eq!(again.body_read(&mut table, 4), Err(HttpError::InvalidHandle));
    assert_eq!(again.body_read_all(&mut table), Err(HttpError::InvalidHandle));
    assert_eq!(again.headers_get_all(&mut table).err(), Some(HttpError::InvalidHandle));
    assert_eq!(HttpHost::close(&mut table, handle), Err(HttpError::InvalidHandle));
}

#[test]
fn request_builder_lays_out_wire_parts() {
    let mut req = Request::new("POST".to_string(), "https://postman-echo.com/post".to_string());
    req.header("Content-Type".to_string(), "text/plain".to_string());
    req.header("abc".to_string(), "def".to_string());
    req.set_body(b"Testing with a request body.".to_vec());
    let wire = req.to_wire().unwrap();
    assert_eq!(wire.url, "https://postman-echo.com/post");
    assert_eq!(wire.method, "POST");
    assert_eq!(wire.headers, "Content-Type:text/plain\nabc:def\n");
    assert_eq!(wire.body, b"Testing with a request body.".to_vec());

    let bare = Request::new("GET".to_string(), "https://a.example/".to_string()).to_wire().unwrap();
    assert_eq!(bare.headers, "");
    assert!(bare.body.is_empty());
}

#[test]
fn request_builder_refuses_injected_header() {
    let mut req = Request::new("GET".to_string(), "https://a.example/".to_string());
    req.header("x".to_string(), "1\r\nevil: 2".to_string());
    assert_eq!(req.to_wire().err(), Some(HttpError::InvalidEncoding));
}

#[test]
fn host_receives_the_headers_the_guest_set() {
    let mut req = Request::new("GET".to_string(), "https://api.example.com/x".to_string());
    req.header("accept".to_string(), "*/*".to_string());
    req.header("accept".to_string(), "text/html".to_string());
    let wire = req.to_wire().unwrap();
    let mut st = HttpState::new(HttpCtx {
        allowed_hosts: Some(vec!["https://api.example.com".to_string()]),
        max_concurrent_requests: None,
    });
    let headers = string_to_header_map(&wire.headers).unwrap();
    let out = st.begin_request(wire.url, wire.method, headers, wire.body).unwrap();
    assert_eq!(
        out.headers.entries,
        vec![
            ("accept".to_string(), "*/*".to_string()),
            ("accept".to_string(), "text/html".to_string()),
        ]
    );
}

#[test]
fn into_parts_reads_everything_and_closes() {
    let mut table = LocalHost::new(SessionTable::new(None));
    let res = open(&mut table, &[("content-type", "text/plain".to_string())], b"payload".to_vec());
    let handle = res.handle;
    let (status, headers, body) = res.into_parts(&mut table).unwrap();
    assert_eq!(status, 200);
    assert_eq!(headers.entries, vec![("content-type".to_string(), "text/plain".to_string())]);
    assert_eq!(body, b"payload".to_vec());
    assert_eq!(HttpHost::close(&mut table, handle), Err(HttpError::InvalidHandle));
}

#[test]
fn into_parts_closes_even_on_error() {
    let mut table = LocalHost::new(SessionTable::new(None));
    let res = open(&mut table, &[("x", "v".repeat(70000))], b"payload".to_vec());
    let handle = res.handle;
    assert_eq!(res.into_parts(&mut table).err(), Some(HttpError::BufferTooSmall));
    assert_eq!(HttpHost::close(&mut table, handle), Err(HttpError::InvalidHandle));
}
