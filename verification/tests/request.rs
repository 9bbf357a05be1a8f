use hyper::http::request::Builder;
use hyper::Request;
use sharphttp::request::{add_headers, Method, RequestPlan};

fn pairs(list: &[(&str, &str)]) -> Vec<(String, String)> {
    list.iter().map(|(n, v)| (n.to_string(), v.to_string())).collect()
}

fn plan(url: &str, headers: &[(&str, &str)], body: Option<&str>) -> RequestPlan {
    RequestPlan {
        method: Method::Post,
        url: url.to_string(),
        headers: pairs(headers),
        body: body.map(|b| b.to_string()),
    }
}

fn body_of(request: Request<hyper::Body>) -> Vec<u8> {
    let runtime = tokio::runtime::Runtime::new().unwrap();
    runtime.block_on(hyper::body::to_bytes(request.into_body())).unwrap().to_vec()
}

#[test]
fn a_plan_becomes_a_request() {
    let request = plan(
        "http://example.com/a?b=c",
        &[("Accept", "*/*"), ("X-One", "1"), ("x-one", "2")],
        Some("h\u{e9}"),
    )
    .build()
    .unwrap();
    assert_eq!(request.method().as_str(), "POST");
    assert_eq!(request.uri().to_string(), "http://example.com/a?b=c");
    assert_eq!(request.headers()["accept"], "*/*");
    let ones: Vec<&[u8]> = request.headers().get_all("x-one").iter().map(|v| v.as_bytes()).collect();
    assert_eq!(ones, [b"1", b"2"]);
    assert_eq!(request.headers().len(), 3);
    assert_eq!(body_of(request), "h\u{e9}".as_bytes());
}

#[test]
fn a_get_request_has_no_body() {
    let mut get = plan("http://example.com/", &[], None);
    get.method = Method::Get;
    let request = get.build().unwrap();
    assert_eq!(request.method().as_str(), "GET");
    assert!(body_of(request).is_empty());
}

#[test]
fn an_empty_text_is_an_empty_body() {
    let request = plan("http://example.com/", &[], Some("")).build().unwrap();
    assert!(body_of(request).is_empty());
}

#[test]
fn a_bad_url_stops_the_request() {
    let message = plan("http://exa mple.com/", &[], None).build().unwrap_err();
    assert_eq!(message, "invalid uri character");
}

#[test]
fn a_bad_header_stops_the_request() {
    let stopped = |headers: &[(&str, &str)]| {
        plan("http://example.com/", headers, None).build().unwrap_err()
    };
    assert_eq!(stopped(&[("a", "1"), ("b c", "2")]), "invalid HTTP header name");
    assert_eq!(stopped(&[("", "1")]), "invalid HTTP header name");
    assert_eq!(stopped(&[("\u{e9}", "1")]), "invalid HTTP header name");
    assert_eq!(stopped(&[("a", "x\r\ny")]), "failed to parse header value");
    assert_eq!(stopped(&[("a", "\u{7f}")]), "failed to parse header value");
    assert_eq!(stopped(&[("a b", "\n"), ("c", "d")]), "invalid HTTP header name");
    assert_eq!(stopped(&[("a", "\n"), ("b c", "d")]), "failed to parse header value");
    assert_eq!(stopped(&[(&"x".repeat(65536), "d")]), "invalid HTTP header name");
}

#[test]
fn unusual_headers_that_are_allowed() {
    let long = "L".repeat(65535);
    let request = plan(
        "http://example.com/",
        &[("!\"#$%&'*+-.^_`|~09AZaz", "a\tb \u{e9}"), (&long, "x"), ("empty", "")],
        None,
    )
    .build()
    .unwrap();
    assert_eq!(
        request.headers()["!\"#$%&'*+-.^_`|~09azaz"].as_bytes(),
        "a\tb \u{e9}".as_bytes()
    );
    assert_eq!(request.headers()["empty"], "");
    assert_eq!(request.headers().len(), 3);
}

#[test]
fn many_headers_find_room() {
    let many: Vec<(String, String)> = (0..6000).map(|i| (format!("n{}", i), i.to_string())).collect();
    let built = add_headers(Builder::new(), &many);
    assert_eq!(built.headers_ref().unwrap().len(), 6000);
}

#[test]
fn an_earlier_error_stays() {
    let failed = Builder::new().uri("http://exa mple.com/");
    let next = add_headers(failed, &pairs(&[("b c", "2")]));
    assert_eq!(next.body(()).unwrap_err().to_string(), "invalid uri character");
}

#[test]
fn too_many_headers_stop_the_request() {
    let mut many = plan("http://example.com/", &[], None);
    many.headers = (0..40000).map(|i| (format!("n{}", i), i.to_string())).collect();
    assert_eq!(many.build().unwrap_err(), "max size reached");
}
