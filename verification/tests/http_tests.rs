use fget::errors::FetchError;
use fget::httpx::{
    get, head, HttpClient, HttpStep, Method, RedirectPolicy,
};

#[test]
fn test_head_request_serialization() {
    let p = head("http://example.test/file.bin").unwrap();
    assert_eq!(
        "HEAD /file.bin HTTP/1.1\r\n\
         Host: example.test:80\r\n\
         User-Agent: fget/0.1.0\r\n\
         Accept: */*\r\n\
         Accept-Encoding: identity\r\n\
         Connection: Keep-Alive\r\n\r\n",
        p.request_text.as_str()
    );
    assert!(!p.tls);
    assert_eq!("example.test", p.domain.as_str());
}

#[test]
fn test_get_request_serialization() {
    let p = get("https://example.test/a/b").unwrap();
    assert!(p.request_text.starts_with("GET /a/b HTTP/1.1\r\n"));
    assert!(p.request_text.ends_with("\r\n\r\n"));
    assert!(p.tls);
    assert_eq!("example.test:443", p.host_addr.as_str());
}

#[test]
fn test_head_bad_url() {
    assert!(matches!(head("gopher://x/y"), Err(FetchError::BadScheme)));
}

#[test]
fn test_custom_headers_in_order() {
    let client = HttpClient::builder()
        .from_url("http://h.test/f")
        .unwrap()
        .build()
        .unwrap();
    let headers = vec![("Range".to_string(), "bytes=0-99".to_string())];
    let p = client.get_with_headers("/f", &headers).unwrap();
    assert!(p.request_text.contains("Range: bytes=0-99\r\n"));
}

#[test]
fn test_status_code_parse() {
    assert_eq!(Ok(200), HttpClient::get_status_code("HTTP/1.1 200 OK\r\n"));
    assert_eq!(Ok(206), HttpClient::get_status_code("HTTP/1.1 206 Partial Content\r\n"));
    assert_eq!(
        Err(FetchError::MalformedStatusLine),
        HttpClient::get_status_code("HTTP/1.1 200\r\n")
    );
    assert_eq!(
        Err(FetchError::MalformedStatusLine),
        HttpClient::get_status_code("HTTP/1.1 abc OK\r\n")
    );
    assert_eq!(
        Err(FetchError::MalformedStatusLine),
        HttpClient::get_status_code("HTTP/1.1 99 Too Small\r\n")
    );
}

// a header line with no colon is skipped, not fatal
#[test]
fn test_header_line_without_colon_is_skipped() {
    let lines = vec![
        "Content-Length: 10\r\n".to_string(),
        "garbage line\r\n".to_string(),
        "Accept-Ranges: bytes\r\n".to_string(),
    ];
    let hs = fget::httpx::parse_headers(&lines);
    assert_eq!(2, hs.len());
    assert_eq!(("Content-Length".to_string(), "10".to_string()), hs[0]);
    assert_eq!(("Accept-Ranges".to_string(), "bytes".to_string()), hs[1]);
}

#[test]
fn test_parse_header_splits_on_first_colon() {
    let kv = fget::httpx::parse_header("Location:  https://mirror/f:1  \r\n").unwrap();
    assert_eq!("Location", kv.0.as_str());
    assert_eq!("https://mirror/f:1", kv.1.as_str());
    assert!(fget::httpx::parse_header("no separator here").is_none());
}

fn response_of(step: Result<HttpStep, FetchError>) -> fget::httpx::HttpResponse {
    match step {
        Ok(HttpStep::Response(resp)) => resp,
        _ => panic!("expected a final response"),
    }
}

fn redirect_of(step: Result<HttpStep, FetchError>) -> fget::httpx::PendingRequest {
    match step {
        Ok(HttpStep::Redirect(next)) => next,
        _ => panic!("expected a redirect"),
    }
}

#[test]
fn test_success_response() {
    let p = head("http://h.test/f").unwrap();
    let lines = vec!["Content-Length: 10\r\n".to_string()];
    let resp = response_of(p.make_response("HTTP/1.1 200 OK\r\n", &lines));
    assert_eq!(200, resp.status);
    assert_eq!(1, resp.headers.len());
    assert_eq!("Content-Length", resp.headers[0].0.as_str());
}

#[test]
fn test_server_error_response() {
    let p = head("http://h.test/f").unwrap();
    let r = p.make_response("HTTP/1.1 500 Internal Server Error\r\n", &vec![]);
    assert!(matches!(r, Err(FetchError::ServerError(500))));
}

// one redirect is followed, the second answer is final
#[test]
fn test_redirect_followed_once() {
    let p = head("http://origin.test/f").unwrap();
    let lines = vec!["Location: https://mirror.test/f\r\n".to_string()];
    let next = redirect_of(p.make_response("HTTP/1.1 302 Found\r\n", &lines));
    assert_eq!("mirror.test", next.domain.as_str());
    assert!(next.tls);
    assert_eq!(Method::Head, next.method);
    assert_eq!(RedirectPolicy::Follow(9), next.cfg.redirect_policy);
    let lines2 = vec!["Content-Length: 5\r\n".to_string()];
    let resp = response_of(next.make_response("HTTP/1.1 200 OK\r\n", &lines2));
    assert_eq!(200, resp.status);
}

// a Follow(n) budget is spent one hop at a time, then fails
#[test]
fn test_redirect_chain_exhausts_budget() {
    let client = HttpClient::builder()
        .from_url("http://a.test/f")
        .unwrap()
        .with_redirect_policy(RedirectPolicy::Follow(2))
        .build()
        .unwrap();
    let mut p = client.get("/f").unwrap();
    let lines = vec!["Location: http://a.test/f\r\n".to_string()];
    let mut hops = 0;
    loop {
        match p.make_response("HTTP/1.1 302 Found\r\n", &lines) {
            Ok(HttpStep::Redirect(next)) => {
                hops += 1;
                p = next;
            }
            Ok(HttpStep::Response(_)) => panic!("chain never returns a response"),
            Err(e) => {
                assert_eq!(FetchError::TooManyRedirects, e);
                break;
            }
        }
    }
    assert_eq!(2, hops);
}

// under RedirectPolicy::NoFollow a 3xx is refused outright
#[test]
fn test_redirect_refused_without_follow() {
    let client = HttpClient::builder()
        .from_url("http://a.test/f")
        .unwrap()
        .with_redirect_policy(RedirectPolicy::NoFollow)
        .build()
        .unwrap();
    let p = client.head("/f").unwrap();
    let lines = vec!["Location: http://b.test/f\r\n".to_string()];
    let r = p.make_response("HTTP/1.1 301 Moved Permanently\r\n", &lines);
    assert!(matches!(r, Err(FetchError::RedirectRefused)));
}

#[test]
fn test_redirect_without_location() {
    let p = head("http://a.test/f").unwrap();
    let r = p.make_response("HTTP/1.1 302 Found\r\n", &vec![]);
    assert!(matches!(r, Err(FetchError::RedirectMissingLocation)));
}

#[test]
fn test_location_key_is_case_insensitive() {
    let p = head("http://a.test/f").unwrap();
    let lines = vec!["LOCATION: http://b.test/f\r\n".to_string()];
    let next = redirect_of(p.make_response("HTTP/1.1 302 Found\r\n", &lines));
    assert_eq!("b.test", next.domain.as_str());
}

#[test]
fn test_builder_without_host_is_refused() {
    assert!(fget::httpx::HttpClientBuilder::new().build().is_err());
}

#[test]
fn test_builder_overrides() {
    let c = HttpClient::builder()
        .from_url("http://h.test/x")
        .unwrap()
        .with_timeout_ms(7000)
        .with_user_agent("tester/1.0")
        .build()
        .unwrap();
    assert_eq!(7000, c.cfg.timeout_ms);
    assert_eq!("tester/1.0", c.cfg.user_agent.as_str());
    assert_eq!("h.test:80", c.host_addr.as_str());
}
