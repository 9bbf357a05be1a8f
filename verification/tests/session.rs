use sharphttp::header_list::{list_of, HeaderList};
use sharphttp::origin::Origin;
use sharphttp::request::Method;
use sharphttp::session::{plan_get, plan_post, url_with_query, ClientSession};
use std::collections::HashMap;

fn pairs(list: &[(&str, &str)]) -> Vec<(String, String)> {
    list.iter().map(|(n, v)| (n.to_string(), v.to_string())).collect()
}

fn map(list: &[(&str, &str)]) -> HashMap<String, String> {
    pairs(list).into_iter().collect()
}

fn set_cookie(text: &str) -> HeaderList {
    list_of(pairs(&[("set-cookie", text)]))
}

fn session() -> ClientSession {
    ClientSession::new(None, None, None)
}

/// The pieces of the `cookie` header that goes with a GET request to `url`, sorted.
fn cookies_to(session: &ClientSession, url: &str) -> Vec<String> {
    let plan = session.get(url.to_string(), None, None).unwrap().plan;
    let line = &plan.headers.iter().find(|(name, _)| name == "cookie").unwrap().1;
    let mut pieces: Vec<String> =
        line.split("; ").filter(|p| !p.is_empty()).map(|p| p.to_string()).collect();
    pieces.sort();
    pieces
}

fn origin(url: &str) -> Origin {
    session().get(url.to_string(), None, None).unwrap().origin
}

fn receive(session: &mut ClientSession, url: &str, text: &str) {
    session.receive(&origin(url), &set_cookie(text));
}

const COMMON: [(&str, &str); 4] = [
    ("accept", "*/*"),
    ("accept-encoding", "gzip, deflate, br"),
    ("connection", "keep-alive"),
    ("user-agent", "sharphttp/2.0"),
];

fn with(more: &[(&str, &str)]) -> Vec<(String, String)> {
    let mut all = pairs(&COMMON);
    all.extend(pairs(more));
    all
}

#[test]
fn a_simple_get_request() {
    let request = session().get("https://api.example.com/data".to_string(), None, None).unwrap();
    assert_eq!(request.plan.method, Method::Get);
    assert_eq!(request.plan.url, "https://api.example.com/data");
    assert_eq!(request.plan.headers, with(&[("cookie", "")]));
    assert_eq!(request.plan.body, None);
}

#[test]
fn a_get_request_with_headers_and_parameters() {
    let request = session()
        .get(
            "https://api.example.com/search".to_string(),
            Some(map(&[("Authorization", "Bearer token")])),
            Some(map(&[("q", "search term")])),
        )
        .unwrap();
    assert_eq!(request.plan.url, "https://api.example.com/search?q=search%20term");
    assert_eq!(
        request.plan.headers,
        with(&[("cookie", ""), ("Authorization", "Bearer token")])
    );
    let built = request.plan.build().unwrap();
    assert_eq!(built.headers()["authorization"], "Bearer token");
    assert_eq!(built.uri().to_string(), "https://api.example.com/search?q=search%20term");
}

#[test]
fn a_proxy_adds_a_header() {
    let session = ClientSession::new(None, None, Some("user".to_string()));
    let plan = session.get("http://example.com/".to_string(), None, None).unwrap().plan;
    assert_eq!(plan.headers, with(&[("cookie", ""), ("proxy-authorization", "Basic user")]));
}

#[test]
fn the_sessions_own_headers_are_not_sent() {
    let session = ClientSession::new(Some(map(&[("x-own", "1")])), None, None);
    let plan = session.get("http://example.com/".to_string(), None, None).unwrap().plan;
    assert_eq!(plan.headers, with(&[("cookie", "")]));
}

#[test]
fn a_url_that_cannot_be_parsed_is_an_error() {
    let message = |url: &str| session().get(url.to_string(), None, None).err().unwrap();
    assert_eq!(message("not a url"), "relative URL without a base");
    assert_eq!(message("http://"), "empty host");
}

#[test]
fn parsing_decides_what_follows() {
    let session = session();
    let failed = session.get_from("t".to_string(), Err("no".to_string()), &[]);
    assert_eq!(failed.err(), Some("no".to_string()));
    let parsed = Ok(origin("http://a.example/x"));
    let request = session.get_from("t".to_string(), parsed, &pairs(&[("a", "b")])).unwrap();
    assert_eq!(request.plan.url, "t");
    assert_eq!(request.plan.headers, with(&[("cookie", ""), ("a", "b")]));
}

#[test]
fn an_empty_list_of_parameters_adds_a_question_mark() {
    assert_eq!(url_with_query("http://a/".to_string(), Some(Vec::new())), "http://a/?");
    assert_eq!(url_with_query("http://a/".to_string(), None), "http://a/");
    assert_eq!(
        url_with_query("http://a/?x=1".to_string(), Some(pairs(&[("y", "2"), ("z", "&")]))),
        "http://a/?x=1?y=2&z=%26"
    );
}

#[test]
fn a_get_plan_in_full() {
    let plan = plan_get(
        "u".to_string(),
        &pairs(&[("a", "1"), ("b", "2")]),
        &Some("p".to_string()),
        &pairs(&[("accept", "text/html"), ("x", "y")]),
    );
    assert_eq!(
        plan.headers,
        with(&[
            ("cookie", "a=1; b=2"),
            ("proxy-authorization", "Basic p"),
            ("accept", "text/html"),
            ("x", "y"),
        ])
    );
    assert_eq!(plan.url, "u");
}

#[test]
fn a_post_request_carries_json_data_or_nothing() {
    let post = |data: Option<&str>, json: Option<&str>| {
        plan_post(
            "u".to_string(),
            data.map(|d| d.to_string()),
            json.map(|j| j.to_string()),
            &pairs(&[("x", "y")]),
        )
    };
    let json = post(Some("a=b"), Some("{}"));
    assert_eq!(json.method, Method::Post);
    assert_eq!(json.body, Some("{}".to_string()));
    assert_eq!(json.headers, with(&[("x", "y"), ("content-type", "application/json")]));
    let data = post(Some("a=b"), None);
    assert_eq!(data.body, Some("a=b".to_string()));
    assert_eq!(
        data.headers,
        with(&[("x", "y"), ("content-type", "application/x-www-form-urlencoded")])
    );
    let nothing = post(None, None);
    assert_eq!(nothing.body, None);
    assert_eq!(nothing.headers, with(&[("x", "y")]));
}

#[test]
fn neither_cookies_nor_the_proxy_go_with_a_post_request() {
    let session =
        ClientSession::new(None, Some(map(&[("a", "1")])), Some("p".to_string()));
    let plan = session.post(
        "https://example.com/".to_string(),
        Some("d".to_string()),
        None,
        Some(map(&[("h", "v")])),
        Some(map(&[("q", "1 2")])),
    );
    assert_eq!(plan.url, "https://example.com/?q=1%202");
    assert_eq!(
        plan.headers,
        with(&[("h", "v"), ("content-type", "application/x-www-form-urlencoded")])
    );
}

#[test]
fn given_cookies_are_reported() {
    let given = map(&[("a", "1"), ("b", "x=y"), ("c", "")]);
    let session = ClientSession::new(None, Some(given.clone()), None);
    assert_eq!(session.get_cookies(), given);
    assert_eq!(session.get_cookies(), given);
    assert!(self::session().get_cookies().is_empty());
}

#[test]
fn given_cookies_may_hold_any_letters() {
    let given = map(&[("gr\u{fc}n", "a \u{2713}\tb,\"c\""), ("\u{1}", "\u{7f}=")]);
    let session = ClientSession::new(None, Some(given.clone()), None);
    assert_eq!(session.get_cookies(), given);
}

#[test]
fn white_space_around_a_given_cookie_is_lost() {
    for c in "\u{9}\u{d} \u{85}\u{a0}\u{1680}\u{2000}\u{200a}\u{2028}\u{2029}\u{202f}\u{205f}\u{3000}".chars() {
        let session = ClientSession::new(None, Some(map(&[("a", &format!("1{}", c))])), None);
        assert_eq!(session.get_cookies(), map(&[("a", "1")]));
    }
}

#[test]
fn the_sessions_own_headers_change_no_request() {
    let one = ClientSession::new(Some(map(&[("x", "1")])), Some(map(&[("a", "1")])), None);
    let other = ClientSession::new(Some(map(&[("y", "2")])), Some(map(&[("a", "1")])), None);
    let plan = |session: &ClientSession| {
        let headers = Some(map(&[("h", "v")]));
        let params = Some(map(&[("p", "q")]));
        session.get("https://example.com/".to_string(), headers, params).unwrap().plan
    };
    assert_eq!(plan(&one).headers, plan(&other).headers);
    assert_eq!(plan(&one).url, plan(&other).url);
}

#[test]
fn given_cookies_are_sent_to_their_site() {
    let session = ClientSession::new(None, Some(map(&[("a", "1"), ("b", "2")])), None);
    assert_eq!(cookies_to(&session, "https://example.com/"), ["a=1", "b=2"]);
    assert_eq!(cookies_to(&session, "http://example.com/deep/path?q=1"), ["a=1", "b=2"]);
    assert_eq!(cookies_to(&session, "http://sub.example.com/deep/path"), ["a=1", "b=2"]);
    assert!(cookies_to(&session, "https://example.org/").is_empty());
}

#[test]
fn given_cookies_that_are_not_plain_are_read_as_attributes_or_refused() {
    let session = ClientSession::new(
        None,
        Some(map(&[("", "nameless"), ("a", "1; Secure"), ("gone", "x; Max-Age=0")])),
        None,
    );
    assert_eq!(session.get_cookies(), map(&[("a", "1")]));
    assert!(cookies_to(&session, "http://example.com/").is_empty());
    assert_eq!(cookies_to(&session, "https://example.com/"), ["a=1"]);
}

#[test]
fn a_received_cookie_is_sent_back() {
    let mut session = session();
    receive(&mut session, "https://shop.test/cart", "id=42; Path=/; HttpOnly; Secure");
    assert_eq!(cookies_to(&session, "https://shop.test/anything"), ["id=42"]);
    assert!(cookies_to(&session, "http://shop.test/anything").is_empty());
    assert!(cookies_to(&session, "https://other.test/").is_empty());
    assert!(cookies_to(&session, "https://sub.shop.test/").is_empty());
    assert_eq!(session.get_cookies(), map(&[("id", "42")]));
}

#[test]
fn a_cookie_for_all_paths_goes_back_to_its_origin() {
    for origin in ["http://a.test:8080/x/y", "https://127.0.0.1/", "http://b.test/?q", "http://[::1]/"] {
        let mut session = session();
        receive(&mut session, origin, "k=v; Path=/");
        assert_eq!(cookies_to(&session, origin), ["k=v"]);
    }
}

#[test]
fn the_text_of_a_url_is_read_before_cookies_are_looked_up() {
    let mut session = session();
    receive(&mut session, "HTTP://A.Test:80/../x", "k=v");
    assert_eq!(cookies_to(&session, "http://a.test/"), ["k=v"]);
}

#[test]
fn a_domain_covers_the_hosts_below_it() {
    let mut session = session();
    receive(&mut session, "http://x.a.test/", "k=v; Domain=a.test; Path=/");
    for url in ["http://a.test/", "http://x.a.test/", "http://y.z.a.test/"] {
        assert_eq!(cookies_to(&session, url), ["k=v"]);
    }
    for url in ["http://xa.test/", "http://test/", "http://a.test.b/"] {
        assert!(cookies_to(&session, url).is_empty());
    }
    receive(&mut session, "http://1.2.3.4/", "ip=1; Domain=3.4");
    assert_eq!(session.get_cookies(), map(&[("k", "v")]));
}

#[test]
fn a_secure_cookie_goes_to_the_machine_itself() {
    let mut session = session();
    for url in ["http://localhost/", "http://127.9.8.7/", "http://[::1]/"] {
        receive(&mut session, url, "k=v; Secure");
        assert_eq!(cookies_to(&session, url), ["k=v"]);
    }
    receive(&mut session, "http://128.0.0.1/", "k=v; Secure");
    assert!(cookies_to(&session, "http://128.0.0.1/").is_empty());
    assert_eq!(cookies_to(&session, "https://128.0.0.1/"), ["k=v"]);
}

#[test]
fn a_path_covers_what_is_below_it() {
    let mut session = session();
    receive(&mut session, "http://a.test/", "k=v; Path=/one");
    assert_eq!(cookies_to(&session, "http://a.test/one"), ["k=v"]);
    assert_eq!(cookies_to(&session, "http://a.test/one/two"), ["k=v"]);
    assert!(cookies_to(&session, "http://a.test/ones").is_empty());
    receive(&mut session, "http://b.test/", "k=v; Path=/one/");
    assert_eq!(cookies_to(&session, "http://b.test/one/two"), ["k=v"]);
    assert!(cookies_to(&session, "http://b.test/one").is_empty());
}

#[test]
fn a_cookie_for_a_path_goes_there_alone() {
    let mut session = session();
    receive(&mut session, "http://a.test/shop/cart", "k=v");
    assert_eq!(cookies_to(&session, "http://a.test/shop/item"), ["k=v"]);
    assert!(cookies_to(&session, "http://a.test/other").is_empty());
}

#[test]
fn a_cookie_is_replaced_in_its_own_slot_alone() {
    let mut session = session();
    receive(&mut session, "https://a.test/", "x=1");
    receive(&mut session, "https://a.test/", "y=2");
    receive(&mut session, "https://b.test/", "x=3");
    receive(&mut session, "https://a.test/", "x=4");
    assert_eq!(cookies_to(&session, "https://a.test/"), ["x=4", "y=2"]);
    assert_eq!(cookies_to(&session, "https://b.test/"), ["x=3"]);
}

#[test]
fn a_cookie_can_be_made_to_expire_and_is_still_reported() {
    let mut session = session();
    receive(&mut session, "https://a.test/", "x=1");
    receive(&mut session, "https://a.test/", "x=; Max-Age=0");
    assert!(cookies_to(&session, "https://a.test/").is_empty());
    assert_eq!(session.get_cookies(), map(&[("x", "1")]));
}

#[test]
fn texts_that_are_refused_change_nothing() {
    let mut session = session();
    receive(&mut session, "https://a.test/", "x=1");
    receive(&mut session, "https://a.test/", "no pair");
    receive(&mut session, "https://a.test/", "y=2; Domain=b.test");
    receive(&mut session, "https://a.test/", "z=3; Expires=Thu, 01 Jan 1970 00:00:00 GMT");
    assert_eq!(session.get_cookies(), map(&[("x", "1")]));
}

#[test]
fn the_first_set_cookie_header_counts() {
    let mut session = session();
    let url = origin("https://a.test/");
    session.receive(&url, &list_of(pairs(&[("server", "s")])));
    assert!(session.get_cookies().is_empty());
    session.receive(
        &url,
        &list_of(pairs(&[("server", "s"), ("set-cookie", "x=1"), ("set-cookie", "y=2")])),
    );
    assert_eq!(session.get_cookies(), map(&[("x", "1")]));
}

#[test]
fn the_caller_s_cookie_header_comes_after_the_session_s() {
    let session = ClientSession::new(None, Some(map(&[("a", "1")])), None);
    let plan = session
        .get("https://example.com/".to_string(), Some(map(&[("Cookie", "b=2")])), None)
        .unwrap()
        .plan;
    let built = plan.build().unwrap();
    let lines: Vec<&[u8]> = built.headers().get_all("cookie").iter().map(|v| v.as_bytes()).collect();
    assert_eq!(lines, [b"a=1", b"b=2"]);
}

#[test]
fn a_host_in_punycode_gets_its_cookies_unless_it_is_too_long() {
    let mut session = session();
    receive(&mut session, "http://b\u{fc}cher.test/", "k=v; Path=/");
    assert_eq!(cookies_to(&session, "http://xn--bcher-kva.test/x"), ["k=v"]);
    let label: String = (0..1000).map(|i| char::from_u32(0x4E00 + 20 * i).unwrap()).collect();
    let long = format!("http://{}.test/", label);
    receive(&mut session, &long, "k=v; Path=/");
    assert!(cookies_to(&session, &long).is_empty());
}

#[test]
fn a_cookie_for_http_alone_is_kept_from_other_schemes() {
    let mut session = session();
    receive(&mut session, "https://a.test/", "k=1; HttpOnly; Path=/");
    receive(&mut session, "ftp://a.test/", "k=2; Path=/");
    receive(&mut session, "ftp://a.test/", "m=3; HttpOnly");
    assert_eq!(session.get_cookies(), map(&[("k", "1")]));
    assert!(cookies_to(&session, "ftp://a.test/").is_empty());
    receive(&mut session, "http://a.test/", "k=4; Path=/");
    assert_eq!(cookies_to(&session, "ftp://a.test/"), ["k=4"]);
}
