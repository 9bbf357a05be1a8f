//! Sessions: what is sent with a request, and what is kept of a response.

use crate::cookies::{
    all_offered, cookie_line, cookie_map, covers, empty_store, is_for, jar,
    law_kept_cookie_is_sent, law_no_cookie_goes_to_a_foreign_host, lemma_offered_after,
    lemma_one_cookie_is_sent_alike, lemma_web_paths, looked_under, named_host, offer, offered,
    plain_pair, reported, request_values, sent_cookies, site_cookie, site_cookies, site_kept,
    site_slot, CookieJar, Jar, Slot,
};
use crate::header_list::{
    empty_list, fields, first_value, get_header_value, hashmap_to_smallvec, HeaderList,
};
use crate::origin::{
    is_web, parse_url, parts, site_parts, url_parse, well_formed, Origin, UrlParts,
};
use crate::pairs::{
    assignments, dict_of, entries, enumerates, join_assignments, law_collecting_undoes_walking,
    law_every_pair_is_written, Pair,
};
use crate::params::{
    encode_pairs, law_query_is_read_back, law_query_tells_its_parameters, query, read_query,
};
use crate::request::{Method, PlanView, RequestPlan};
use crate::text::trimmed;
use std::collections::HashMap;
use vstd::prelude::*;

verus! {

/// A client session: its own headers, its cookies and its proxy.
pub struct ClientSession {
    headers: HeaderList,
    cookies: CookieJar,
    proxy: Option<String>,
}

/// A session, by its views.
pub struct SessionView {
    pub headers: Seq<Pair>,
    pub jar: Jar,
    pub proxy: Option<Seq<char>>,
}

impl View for ClientSession {
    type V = SessionView;

    closed spec fn view(&self) -> SessionView {
        SessionView {
            headers: fields(self.headers),
            jar: jar(self.cookies),
            proxy: self.proxy.deep_view(),
        }
    }
}

/// A GET request that is ready to be sent, and the URL that cookies in its response come from.
pub struct GetRequest {
    pub plan: RequestPlan,
    pub origin: Origin,
}

/// `order` is a walk through the map, where there is a map.
pub open spec fn walked(
    order: Option<Seq<Pair>>,
    map: Option<Map<Seq<char>, Seq<char>>>,
) -> bool {
    match (order, map) {
        (Some(order), Some(map)) => enumerates(order, map),
        (None, None) => true,
        _ => false,
    }
}

/// The pairs, or none where there are none.
pub open spec fn or_none(pairs: Option<Seq<Pair>>) -> Seq<Pair> {
    match pairs {
        Some(pairs) => pairs,
        None => Seq::empty(),
    }
}

/// A URL with its query string. Where parameters are given, if only an empty list of them, the
/// URL gets its `?`.
pub open spec fn full_url(url: Seq<char>, params: Option<Seq<Pair>>) -> Seq<char> {
    match params {
        Some(params) => url + "?"@ + query(params),
        None => url,
    }
}

/// The headers that every request starts with.
pub open spec fn common_headers() -> Seq<Pair> {
    seq![
        ("accept"@, "*/*"@),
        ("accept-encoding"@, "gzip, deflate, br"@),
        ("connection"@, "keep-alive"@),
        ("user-agent"@, "sharphttp/2.0"@),
    ]
}

/// The header for the proxy, where there is one.
pub open spec fn proxy_headers(proxy: Option<Seq<char>>) -> Seq<Pair> {
    match proxy {
        Some(proxy) => seq![("proxy-authorization"@, "Basic "@ + proxy)],
        None => Seq::empty(),
    }
}

/// A GET request: the common headers, the cookies, the proxy and then the caller's headers.
pub open spec fn get_plan(
    url: Seq<char>,
    cookies: Seq<Pair>,
    proxy: Option<Seq<char>>,
    headers: Seq<Pair>,
) -> PlanView {
    PlanView {
        method: Method::Get,
        url,
        headers: common_headers() + seq![("cookie"@, cookie_line(cookies))] + proxy_headers(proxy)
            + headers,
        body: None,
    }
}

/// The content type and the text of a POST body. JSON comes before data.
pub open spec fn post_body(data: Option<Seq<char>>, json: Option<Seq<char>>) -> Option<Pair> {
    match (json, data) {
        (Some(json), _) => Some(("application/json"@, json)),
        (None, Some(data)) => Some(("application/x-www-form-urlencoded"@, data)),
        (None, None) => None,
    }
}

/// A POST request: the common headers, the caller's headers and then the body's content type.
pub open spec fn post_plan(
    url: Seq<char>,
    data: Option<Seq<char>>,
    json: Option<Seq<char>>,
    headers: Seq<Pair>,
) -> PlanView {
    PlanView {
        method: Method::Post,
        url,
        headers: common_headers() + headers + match post_body(data, json) {
            Some(body) => seq![("content-type"@, body.0)],
            None => Seq::empty(),
        },
        body: match post_body(data, json) {
            Some(body) => Some(body.1),
            None => None,
        },
    }
}

/// What comes of asking a session for a GET request, where the maps were walked as `params` and
/// `headers` and `sent` are the cookies that were found for it.
pub open spec fn got(
    session: SessionView,
    url: Seq<char>,
    params: Option<Seq<Pair>>,
    headers: Option<Seq<Pair>>,
    sent: Seq<Pair>,
    request: Result<GetRequest, String>,
) -> bool {
    let target = full_url(url, params);
    match (url_parse(target), request) {
        (Ok(parsed), Ok(request)) => {
            &&& parts(request.origin) == parsed
            &&& well_formed(parsed)
            &&& sent_cookies(sent, session.jar, parsed)
            &&& request.plan@ == get_plan(target, sent, session.proxy, or_none(headers))
        },
        (Err(expected), Err(message)) => message@ == expected,
        _ => false,
    }
}

/// What comes of asking a session for a GET request to a URL that was parsed as `parsed`, where
/// `sent` are the cookies that were found for it.
pub open spec fn got_from(
    session: SessionView,
    target: Seq<char>,
    parsed: Result<Origin, String>,
    headers: Seq<Pair>,
    sent: Seq<Pair>,
    request: Result<GetRequest, String>,
) -> bool {
    match (parsed, request) {
        (Ok(origin), Ok(request)) => {
            &&& request.origin == origin
            &&& sent_cookies(sent, session.jar, parts(origin))
            &&& request.plan@ == get_plan(target, sent, session.proxy, headers)
        },
        (Err(expected), Err(message)) => message == expected,
        _ => false,
    }
}

/// The jar that holds just these cookies, all given to a new session.
pub open spec fn given_jar(cookies: Map<Seq<char>, Seq<char>>) -> Jar {
    Map::new(
        |slot: Slot| slot == site_slot(slot.name) && cookies.contains_key(slot.name),
        |slot: Slot| site_kept(cookies[slot.name]),
    )
}

/// Every name and value stands for itself in a `Set-Cookie` text.
pub open spec fn plain_cookies(cookies: Map<Seq<char>, Seq<char>>) -> bool {
    forall|name: Seq<char>| #[trigger]
        cookies.contains_key(name) ==> plain_pair((name, cookies[name]))
}

/// What the jar of a new session can be that is given these cookies: they were offered to it in
/// some order. Where they all are plain, it holds just them.
pub open spec fn filled(jar: Jar, cookies: Map<Seq<char>, Seq<char>>) -> bool {
    &&& exists|order: Seq<Pair>| #[trigger]
        enumerates(order, cookies) && all_offered(
            Jar::empty(),
            jar,
            site_cookies(order),
            site_parts(),
        )
    &&& plain_cookies(cookies) ==> jar == given_jar(cookies)
}

/// A literal as an owned string.
fn owned(text: &str) -> (owned: String)
    ensures
        owned@ == text@,
{
    text.to_owned()
}

/// The headers that every request starts with.
fn common() -> (headers: Vec<(String, String)>)
    ensures
        headers.deep_view() == common_headers(),
{
    let mut headers: Vec<(String, String)> = Vec::new();
    headers.push((owned("accept"), owned("*/*")));
    headers.push((owned("accept-encoding"), owned("gzip, deflate, br")));
    headers.push((owned("connection"), owned("keep-alive")));
    headers.push((owned("user-agent"), owned("sharphttp/2.0")));
    assert(headers.deep_view() =~= common_headers());
    headers
}

/// Adds a header at the end.
fn add(headers: &mut Vec<(String, String)>, name: &str, value: String)
    ensures
        final(headers).deep_view() == old(headers).deep_view().push((name@, value@)),
{
    headers.push((owned(name), value));
    assert(headers.deep_view() =~= old(headers).deep_view().push((name@, value@)));
}

/// Adds headers at the end, in their order.
fn add_all(headers: &mut Vec<(String, String)>, more: &[(String, String)])
    ensures
        final(headers).deep_view() == old(headers).deep_view() + more.deep_view(),
{
    let ghost start = headers.deep_view();
    assert(start + more.deep_view().take(0) =~= start);
    for i in 0..more.len()
        invariant
            headers.deep_view() == start + more.deep_view().take(i as int),
    {
        self::add(headers, more[i].0.as_str(), more[i].1.clone());
        assert(start + more.deep_view().take(i + 1) =~= (start + more.deep_view().take(
            i as int,
        )).push(more.deep_view()[i as int]));
    }
    assert(more.deep_view().take(more.len() as int) =~= more.deep_view());
}

/// A walk through a map, where there is one.
fn walk_of(map: Option<HashMap<String, String>>) -> (order: Option<Vec<(String, String)>>)
    ensures
        walked(order.deep_view(), map.deep_view()),
{
    match map {
        Some(map) => Some(entries(&map)),
        None => None,
    }
}

/// The URL with its query string.
pub fn url_with_query(url: String, params: Option<Vec<(String, String)>>) -> (full: String)
    ensures
        full@ == full_url(url@, params.deep_view()),
{
    match params {
        Some(params) => {
            let mut full = url;
            full.append("?");
            full.append(encode_pairs(params.as_slice()).as_str());
            full
        },
        None => url,
    }
}

/// Lays a GET request out, once the cookies for it have been found.
pub fn plan_get(
    url: String,
    cookies: &[(String, String)],
    proxy: &Option<String>,
    headers: &[(String, String)],
) -> (plan: RequestPlan)
    ensures
        plan@ == get_plan(url@, cookies.deep_view(), proxy.deep_view(), headers.deep_view()),
{
    let mut all = common();
    self::add(&mut all, "cookie", join_assignments(cookies, "; "));
    if let Some(proxy) = proxy {
        let mut value = owned("Basic ");
        value.append(proxy.as_str());
        self::add(&mut all, "proxy-authorization", value);
    }
    add_all(&mut all, headers);
    let plan = RequestPlan { method: Method::Get, url, headers: all, body: None };
    assert(plan@.headers =~= get_plan(
        url@,
        cookies.deep_view(),
        proxy.deep_view(),
        headers.deep_view(),
    ).headers);
    plan
}

/// Lays a POST request out.
pub fn plan_post(
    url: String,
    data: Option<String>,
    json: Option<String>,
    headers: &[(String, String)],
) -> (plan: RequestPlan)
    ensures
        plan@ == post_plan(url@, data.deep_view(), json.deep_view(), headers.deep_view()),
{
    let ghost goal = post_plan(url@, data.deep_view(), json.deep_view(), headers.deep_view());
    let mut all = common();
    add_all(&mut all, headers);
    let body = if let Some(json) = json {
        self::add(&mut all, "content-type", owned("application/json"));
        Some(json)
    } else if let Some(data) = data {
        self::add(&mut all, "content-type", owned("application/x-www-form-urlencoded"));
        Some(data)
    } else {
        None
    };
    let plan = RequestPlan { method: Method::Post, url, headers: all, body };
    assert(plan@.headers =~= goal.headers);
    plan
}

/// The `Set-Cookie` text for a cookie that is given to a new session.
fn site_cookie_text(name: &String, value: &String) -> (text: String)
    ensures
        text@ == site_cookie((name@, value@)),
{
    let mut text = name.clone();
    text.append("=");
    text.append(value.as_str());
    text.append("; Domain=.example.com; Path=/");
    text
}

impl ClientSession {
    /// A session with these headers, cookies and proxy. The cookies are offered to the jar as
    /// cookies of `example.com` and all hosts below it.
    pub fn new(
        headers: Option<HashMap<String, String>>,
        cookies: Option<HashMap<String, String>>,
        proxy: Option<String>,
    ) -> (session: Self)
        ensures
            session@.proxy == proxy.deep_view(),
            match headers.deep_view() {
                Some(map) => enumerates(session@.headers, map),
                None => session@.headers == Seq::<Pair>::empty(),
            },
            match cookies.deep_view() {
                Some(map) => filled(session@.jar, map),
                None => session@.jar == Jar::empty(),
            },
    {
        let headers = match headers {
            Some(map) => hashmap_to_smallvec(map),
            None => empty_list(),
        };
        let mut session = ClientSession { headers, cookies: empty_store(), proxy };
        if let Some(cookies) = cookies {
            let order = entries(&cookies);
            session.offer_given(order.as_slice());
            proof {
                law_collecting_undoes_walking(order.deep_view(), cookies.deep_view());
                if plain_cookies(cookies.deep_view()) {
                    assert forall|i: int|
                        0 <= i < order.deep_view().len() implies #[trigger] plain_pair(
                        order.deep_view()[i],
                    ) by {
                        let pair = order.deep_view()[i];
                        assert(cookies.deep_view().contains_key(pair.0));
                    }
                }
                assert(enumerates(order.deep_view(), cookies.deep_view()));
                assert(filled(session@.jar, cookies.deep_view()));
            }
        }
        session
    }

    /// Offers the cookies that a new session is given to its empty jar, in their order.
    fn offer_given(&mut self, cookies: &[(String, String)])
        requires
            old(self)@.jar == Jar::empty(),
        ensures
            final(self)@.headers == old(self)@.headers,
            final(self)@.proxy == old(self)@.proxy,
            all_offered(
                Jar::empty(),
                final(self)@.jar,
                site_cookies(cookies.deep_view()),
                site_parts(),
            ),
            (forall|i: int|
                0 <= i < cookies.deep_view().len() ==> #[trigger] plain_pair(
                    cookies.deep_view()[i],
                )) ==> final(self)@.jar == given_jar(dict_of(cookies.deep_view())),
    {
        let ghost whole = cookies.deep_view();
        let ghost texts = site_cookies(whole);
        let parsed = parse_url("https://example.com");
        if let Ok(base_url) = parsed {
            assert(given_jar(dict_of(whole.take(0))) =~= Jar::empty());
            for i in 0..cookies.len()
                invariant
                    whole == cookies.deep_view(),
                    texts == site_cookies(whole),
                    parts(base_url) == site_parts(),
                    self@.headers == old(self)@.headers,
                    self@.proxy == old(self)@.proxy,
                    all_offered(Jar::empty(), self@.jar, texts.take(i as int), site_parts()),
                    (forall|j: int| 0 <= j < whole.len() ==> #[trigger] plain_pair(whole[j]))
                        ==> self@.jar == given_jar(dict_of(whole.take(i as int))),
            {
                let ghost before = self@.jar;
                let text = site_cookie_text(&cookies[i].0, &cookies[i].1);
                offer(&mut self.cookies, text.as_str(), &base_url);
                proof {
                    let pair = whole[i as int];
                    assert(text@ == site_cookie(pair));
                    lemma_offered_after(
                        Jar::empty(),
                        before,
                        self@.jar,
                        texts.take(i as int),
                        text@,
                        site_parts(),
                    );
                    assert(texts.take(i as int).push(text@) =~= texts.take(i + 1));
                    assert(whole.take(i + 1).drop_last() =~= whole.take(i as int));
                    assert(whole.take(i + 1).last() == pair);
                    assert(given_jar(dict_of(whole.take(i + 1))) =~= given_jar(
                        dict_of(whole.take(i as int)),
                    ).insert(site_slot(pair.0), site_kept(pair.1)));
                    if forall|j: int| 0 <= j < whole.len() ==> #[trigger] plain_pair(whole[j]) {
                        assert(plain_pair(pair));
                    }
                }
            }
            assert(texts.take(cookies.len() as int) =~= texts);
            assert(whole.take(cookies.len() as int) =~= whole);
        }
    }

    /// Makes a GET request ready: the URL with its query string, and the headers, the session's
    /// cookies for that URL among them. The one error is that of a URL that cannot be parsed.
    pub fn get(
        &self,
        url: String,
        headers: Option<HashMap<String, String>>,
        params: Option<HashMap<String, String>>,
    ) -> (request: Result<GetRequest, String>)
        ensures
            exists|p: Option<Seq<Pair>>, h: Option<Seq<Pair>>, sent: Seq<Pair>|
                walked(p, params.deep_view()) && walked(h, headers.deep_view()) && #[trigger] got(
                    self@,
                    url@,
                    p,
                    h,
                    sent,
                    request,
                ),
    {
        let params = walk_of(params);
        let headers = walk_of(headers);
        let target = url_with_query(url, params);
        let ghost h = headers.deep_view();
        let headers = match headers {
            Some(headers) => headers,
            None => Vec::new(),
        };
        assert(headers.deep_view() =~= or_none(h));
        let parsed = parse_url(target.as_str());
        let request = self.get_from(target, parsed, headers.as_slice());
        proof {
            let sent = choose|sent: Seq<Pair>| #[trigger]
                got_from(self@, target@, parsed, or_none(h), sent, request);
            assert(got(self@, url@, params.deep_view(), h, sent, request));
        }
        request
    }

    /// Makes a GET request ready, once its URL has been parsed.
    pub fn get_from(
        &self,
        target: String,
        parsed: Result<Origin, String>,
        headers: &[(String, String)],
    ) -> (request: Result<GetRequest, String>)
        ensures
            exists|sent: Seq<Pair>| #[trigger]
                got_from(self@, target@, parsed, headers.deep_view(), sent, request),
    {
        match parsed {
            Ok(origin) => {
                let sent = request_values(&self.cookies, &origin);
                let plan = plan_get(target, sent.as_slice(), &self.proxy, headers);
                let request = Ok(GetRequest { plan, origin });
                assert(got_from(
                    self@,
                    target@,
                    parsed,
                    headers.deep_view(),
                    sent.deep_view(),
                    request,
                ));
                request
            },
            Err(message) => {
                let request = Err(message);
                assert(got_from(
                    self@,
                    target@,
                    parsed,
                    headers.deep_view(),
                    Seq::empty(),
                    request,
                ));
                request
            },
        }
    }

    /// Makes a POST request ready. Neither the session's cookies nor its proxy go with it.
    pub fn post(
        &self,
        url: String,
        data: Option<String>,
        json: Option<String>,
        headers: Option<HashMap<String, String>>,
        params: Option<HashMap<String, String>>,
    ) -> (plan: RequestPlan)
        ensures
            exists|p: Option<Seq<Pair>>, h: Option<Seq<Pair>>|
                #![trigger walked(p, params.deep_view()), walked(h, headers.deep_view())]
                walked(p, params.deep_view()) && walked(h, headers.deep_view()) && plan@
                    == post_plan(
                    full_url(url@, p),
                    data.deep_view(),
                    json.deep_view(),
                    or_none(h),
                ),
    {
        let params = walk_of(params);
        let headers = walk_of(headers);
        let target = url_with_query(url, params);
        match headers {
            Some(headers) => plan_post(target, data, json, headers.as_slice()),
            None => plan_post(target, data, json, &[]),
        }
    }

    /// Takes note of the headers of a response that came from `origin`: the first `set-cookie`
    /// among them is offered to the jar.
    pub fn receive(&mut self, origin: &Origin, headers: &HeaderList)
        ensures
            final(self)@.headers == old(self)@.headers,
            final(self)@.proxy == old(self)@.proxy,
            match first_value(fields(*headers), "set-cookie"@) {
                Some(text) => offered(old(self)@.jar, final(self)@.jar, text, parts(*origin)),
                None => final(self)@.jar == old(self)@.jar,
            },
    {
        if let Some(text) = get_header_value(headers, "set-cookie") {
            offer(&mut self.cookies, text.as_str(), origin);
        }
    }

    /// The session's cookies by their names.
    pub fn get_cookies(&self) -> (map: HashMap<String, String>)
        ensures
            reported(map.deep_view(), self@.jar),
    {
        cookie_map(&self.cookies)
    }
}

/// The cookies that a new session is given are the ones it reports: from a jar that holds just
/// them, just they are read.
pub proof fn law_given_cookies_are_reported(
    cookies: Map<Seq<char>, Seq<char>>,
    map: Map<Seq<char>, Seq<char>>,
)
    requires
        reported(map, given_jar(cookies)),
    ensures
        map == cookies,
{
    let jar = given_jar(cookies);
    assert forall|name: Seq<char>| map.contains_key(name) == cookies.contains_key(name) by {
        if cookies.contains_key(name) {
            assert(jar.contains_key(site_slot(name)));
        }
    }
    assert(map =~= cookies);
}

/// A cookie that a new session is given goes with every request to `example.com` and the hosts
/// below it.
pub proof fn law_given_cookie_is_sent(
    cookies: Map<Seq<char>, Seq<char>>,
    name: Seq<char>,
    sent: Seq<Pair>,
    url: UrlParts,
)
    requires
        cookies.contains_key(name),
        well_formed(url),
        is_web(url),
        covers("example.com"@, false, url),
        sent_cookies(sent, given_jar(cookies), url),
    ensures
        sent.contains((name, cookies[name])),
{
    reveal_strlit("example.com");
    lemma_web_paths(url);
    law_kept_cookie_is_sent(given_jar(cookies), site_slot(name), sent, url);
}

/// The cookies that a new session is given go to no other hosts.
pub proof fn law_given_cookies_stay_on_their_site(
    cookies: Map<Seq<char>, Seq<char>>,
    sent: Seq<Pair>,
    url: UrlParts,
)
    requires
        !covers("example.com"@, false, url),
        sent_cookies(sent, given_jar(cookies), url),
    ensures
        sent.len() == 0,
{
    law_no_cookie_goes_to_a_foreign_host(sent, given_jar(cookies), url);
}

/// A session's own headers are not sent: two sessions that differ in nothing else make the same
/// GET requests ready.
pub proof fn law_own_headers_are_not_sent(
    a: SessionView,
    b: SessionView,
    url: Seq<char>,
    params: Option<Seq<Pair>>,
    headers: Option<Seq<Pair>>,
    sent: Seq<Pair>,
    request: Result<GetRequest, String>,
)
    requires
        a.jar == b.jar,
        a.proxy == b.proxy,
    ensures
        got(a, url, params, headers, sent, request) == got(b, url, params, headers, sent, request),
{
}

/// A map has one entry at most.
pub open spec fn at_most_one(map: Option<Map<Seq<char>, Seq<char>>>) -> bool {
    map matches Some(map) ==> forall|a: Seq<char>, b: Seq<char>| #[trigger]
        map.contains_key(a) && #[trigger] map.contains_key(b) ==> a == b
}

/// Two requests that were made ready are alike: both are the same plan, or both failed for the same
/// reason.
pub open spec fn alike(one: Result<GetRequest, String>, other: Result<GetRequest, String>) -> bool {
    match (one, other) {
        (Ok(one), Ok(other)) => one.plan@ == other.plan@,
        (Err(one), Err(other)) => one@ == other@,
        _ => false,
    }
}

/// There is one way to walk through a map of one entry at most.
proof fn lemma_one_walk(
    map: Option<Map<Seq<char>, Seq<char>>>,
    one: Option<Seq<Pair>>,
    other: Option<Seq<Pair>>,
)
    requires
        at_most_one(map),
        walked(one, map),
        walked(other, map),
    ensures
        one == other,
{
    if let (Some(x), Some(y)) = (one, other) {
        let map = map->Some_0;
        assert(x.len() <= 1) by {
            if x.len() > 1 {
                assert(map.contains_key(x[0].0) && map.contains_key(x[1].0));
            }
        }
        assert(y.len() <= 1) by {
            if y.len() > 1 {
                assert(map.contains_key(y[0].0) && map.contains_key(y[1].0));
            }
        }
        if x.len() == 1 {
            assert(map.contains_key(x[0].0));
            let i = choose|i: int| #![trigger y[i]] 0 <= i < y.len() && y[i].0 == x[0].0;
            assert(y[0] == x[0]);
        }
        if y.len() == 1 {
            assert(map.contains_key(y[0].0));
            let i = choose|i: int| #![trigger x[i]] 0 <= i < x.len() && x[i].0 == y[0].0;
            assert(y[0] == x[0]);
        }
        assert(x =~= y);
    }
}

/// Where nothing is left to the order in which maps are walked, and no cookie expires, what is
/// asked for twice is the same request twice, whatever the sessions' own headers are: the maps
/// have one entry at most, and the jars are one and hold one cookie at most.
pub proof fn law_same_request_from_sessions_with_other_headers(
    a: SessionView,
    b: SessionView,
    url: Seq<char>,
    params: Option<Map<Seq<char>, Seq<char>>>,
    headers: Option<Map<Seq<char>, Seq<char>>>,
    p: (Option<Seq<Pair>>, Option<Seq<Pair>>),
    h: (Option<Seq<Pair>>, Option<Seq<Pair>>),
    sent: (Seq<Pair>, Seq<Pair>),
    one: Result<GetRequest, String>,
    other: Result<GetRequest, String>,
)
    requires
        a.jar == b.jar,
        a.proxy == b.proxy,
        forall|x: Slot, y: Slot| #[trigger]
            a.jar.contains_key(x) && #[trigger] a.jar.contains_key(y) ==> x == y,
        forall|x: Slot| #[trigger] a.jar.contains_key(x) ==> a.jar[x].session,
        at_most_one(params),
        at_most_one(headers),
        walked(p.0, params) && walked(h.0, headers) && got(a, url, p.0, h.0, sent.0, one),
        walked(p.1, params) && walked(h.1, headers) && got(b, url, p.1, h.1, sent.1, other),
    ensures
        alike(one, other),
{
    lemma_one_walk(params, p.0, p.1);
    lemma_one_walk(headers, h.0, h.1);
    if let Ok(parsed) = url_parse(full_url(url, p.0)) {
        lemma_one_cookie_is_sent_alike(a.jar, parsed, sent.0, sent.1);
    }
}

/// Two lists of parameters that give one URL are the same list.
pub proof fn law_url_tells_its_parameters(url: Seq<char>, a: Seq<Pair>, b: Seq<Pair>)
    requires
        full_url(url, Some(a)) == full_url(url, Some(b)),
    ensures
        a == b,
{
    let whole = full_url(url, Some(a));
    let start = (url + "?"@).len() as int;
    assert(query(a) =~= whole.skip(start));
    assert(query(b) =~= full_url(url, Some(b)).skip(start));
    law_query_tells_its_parameters(a, b);
}

/// The caller's headers come last in a GET request and in their order, after all that the session
/// adds.
pub proof fn law_callers_headers_come_last(
    url: Seq<char>,
    cookies: Seq<Pair>,
    proxy: Option<Seq<char>>,
    headers: Seq<Pair>,
)
    ensures
        headers.is_suffix_of(get_plan(url, cookies, proxy, headers).headers),
        common_headers().is_prefix_of(get_plan(url, cookies, proxy, headers).headers),
{
    let all = get_plan(url, cookies, proxy, headers).headers;
    assert(headers =~= all.subrange(all.len() - headers.len(), all.len() as int));
    assert(common_headers() =~= all.subrange(0, common_headers().len() as int));
}

/// The content type of a POST request tells which body it carries, and JSON comes before data.
pub proof fn law_json_comes_before_data(
    url: Seq<char>,
    data: Option<Seq<char>>,
    json: Seq<char>,
    headers: Seq<Pair>,
)
    ensures
        post_plan(url, data, Some(json), headers) == post_plan(url, None, Some(json), headers),
        post_plan(url, data, Some(json), headers).body == Some(json),
        post_plan(url, data, Some(json), headers).headers.last() == ("content-type"@,
            "application/json"@),
{
}

/// A GET request in full. It goes to the URL, with no body. Its headers are what every request
/// starts with, the `cookie` header, one for the proxy where there is one, and then the caller's, in
/// their order and unchanged.
pub proof fn law_a_get_plan_in_full(
    url: Seq<char>,
    cookies: Seq<Pair>,
    proxy: Option<Seq<char>>,
    headers: Seq<Pair>,
)
    ensures
        get_plan(url, cookies, proxy, headers).method == Method::Get,
        get_plan(url, cookies, proxy, headers).url == url,
        get_plan(url, cookies, proxy, headers).body is None,
        get_plan(url, cookies, proxy, headers).headers[0] == ("accept"@, "*/*"@),
        get_plan(url, cookies, proxy, headers).headers[1] == (
            "accept-encoding"@,
            "gzip, deflate, br"@,
        ),
        get_plan(url, cookies, proxy, headers).headers[2] == ("connection"@, "keep-alive"@),
        get_plan(url, cookies, proxy, headers).headers[3] == ("user-agent"@, "sharphttp/2.0"@),
        get_plan(url, cookies, proxy, headers).headers[4] == ("cookie"@, assignments(
            cookies,
            "; "@,
        )),
        proxy is None ==> get_plan(url, cookies, proxy, headers).headers.len() == 5
            + headers.len() && get_plan(url, cookies, proxy, headers).headers.skip(5) == headers,
        proxy matches Some(proxy_url) ==> get_plan(url, cookies, proxy, headers).headers.len() == 6
            + headers.len() && get_plan(url, cookies, proxy, headers).headers[5] == (
            "proxy-authorization"@,
            "Basic "@ + proxy_url,
        ) && get_plan(url, cookies, proxy, headers).headers.skip(6) == headers,
{
    let all = get_plan(url, cookies, proxy, headers).headers;
    if proxy is None {
        assert(all.skip(5) =~= headers);
    } else {
        assert(all.skip(6) =~= headers);
    }
}

/// What a session's GET request is, from what is asked for. The URL has `?` and the parameters
/// where parameters are given. The request fails just where that URL cannot be parsed, with the
/// parser's words. Otherwise it is a GET request to that URL with the headers that are named here,
/// the proxy's where the session has one and the caller's last; and its origin is that URL.
pub proof fn law_a_sessions_get_request_in_full(
    session: SessionView,
    url: Seq<char>,
    params: Option<Seq<Pair>>,
    headers: Option<Seq<Pair>>,
    sent: Seq<Pair>,
    request: Result<GetRequest, String>,
    target: Seq<char>,
    theirs: Seq<Pair>,
)
    requires
        got(session, url, params, headers, sent, request),
        params is None ==> target == url,
        params matches Some(params) ==> target == url + "?"@ + query(params),
        headers is None ==> theirs.len() == 0,
        headers matches Some(headers) ==> theirs == headers,
    ensures
        request is Ok <==> url_parse(target) is Ok,
        request matches Err(message) ==> url_parse(target)->Err_0 == message@,
        request matches Ok(request) ==> {
            let all = request.plan@.headers;
            &&& parts(request.origin) == url_parse(target)->Ok_0
            &&& request.plan@.method == Method::Get
            &&& request.plan@.url == target
            &&& request.plan@.body is None
            &&& all[0] == ("accept"@, "*/*"@)
            &&& all[1] == ("accept-encoding"@, "gzip, deflate, br"@)
            &&& all[2] == ("connection"@, "keep-alive"@)
            &&& all[3] == ("user-agent"@, "sharphttp/2.0"@)
            &&& all[4] == ("cookie"@, assignments(sent, "; "@))
            &&& sent_cookies(sent, session.jar, parts(request.origin))
            &&& session.proxy is None ==> all.len() == 5 + theirs.len() && all.skip(5) == theirs
            &&& session.proxy matches Some(proxy) ==> all.len() == 6 + theirs.len() && all[5] == (
                "proxy-authorization"@,
                "Basic "@ + proxy,
            ) && all.skip(6) == theirs
        },
{
    if headers is None {
        assert(theirs =~= Seq::empty());
    }
    law_a_get_plan_in_full(target, sent, session.proxy, theirs);
}

/// The same of a request whose URL has been parsed: it goes to the text that is named, and an error
/// of the parser is handed on.
pub proof fn law_a_parsed_get_request_in_full(
    session: SessionView,
    target: Seq<char>,
    parsed: Result<Origin, String>,
    headers: Seq<Pair>,
    sent: Seq<Pair>,
    request: Result<GetRequest, String>,
)
    requires
        got_from(session, target, parsed, headers, sent, request),
    ensures
        parsed matches Err(message) ==> request == Err::<GetRequest, String>(message),
        parsed matches Ok(origin) ==> {
            &&& request is Ok
            &&& request->Ok_0.origin == origin
            &&& sent_cookies(sent, session.jar, parts(origin))
            &&& request->Ok_0.plan@ == get_plan(target, sent, session.proxy, headers)
        },
{
}

/// Every cookie of the session that does not expire, that is for the URL and that the store looks
/// at, is written in the `cookie` header of a GET request there, however many cookies there are.
pub proof fn law_kept_cookies_are_written_in_the_request(
    session: SessionView,
    url: Seq<char>,
    params: Option<Seq<Pair>>,
    headers: Option<Seq<Pair>>,
    sent: Seq<Pair>,
    request: GetRequest,
    slot: Slot,
) -> (start: int)
    requires
        got(session, url, params, headers, sent, Ok(request)),
        session.jar.contains_key(slot),
        session.jar[slot].session,
        is_for(slot, session.jar[slot], parts(request.origin)),
        looked_under(slot.domain, parts(request.origin)) || is_web(parts(request.origin))
            && named_host(slot.domain),
    ensures
        request.plan@.headers[4].0 == "cookie"@,
        0 <= start,
        request.plan@.headers[4].1.subrange(
            start,
            start + slot.name.len() + 1 + session.jar[slot].value.len(),
        ) == slot.name + "="@ + session.jar[slot].value,
        start + slot.name.len() + 1 + session.jar[slot].value.len()
            <= request.plan@.headers[4].1.len(),
{
    let pair = (slot.name, session.jar[slot].value);
    law_a_get_plan_in_full(full_url(url, params), sent, session.proxy, or_none(headers));
    law_kept_cookie_is_sent(session.jar, slot, sent, parts(request.origin));
    let i = choose|i: int| 0 <= i < sent.len() && sent[i] == pair;
    law_every_pair_is_written(sent, "; "@, i)
}

/// A POST request in full. It goes to the URL. Its headers are what every request starts with, then
/// the caller's, in their order and unchanged, and last the content type where there is a body. JSON
/// is the body where there is some; else data is, where there is some; else there is none. What the
/// caller's headers are does not matter to that.
pub proof fn law_a_post_plan_in_full(
    url: Seq<char>,
    data: Option<Seq<char>>,
    json: Option<Seq<char>>,
    headers: Seq<Pair>,
)
    ensures
        post_plan(url, data, json, headers).method == Method::Post,
        post_plan(url, data, json, headers).url == url,
        post_plan(url, data, json, headers).headers[0] == ("accept"@, "*/*"@),
        post_plan(url, data, json, headers).headers[1] == (
            "accept-encoding"@,
            "gzip, deflate, br"@,
        ),
        post_plan(url, data, json, headers).headers[2] == ("connection"@, "keep-alive"@),
        post_plan(url, data, json, headers).headers[3] == ("user-agent"@, "sharphttp/2.0"@),
        post_plan(url, data, json, headers).headers.subrange(4, 4int + headers.len()) == headers,
        json matches Some(text) ==> post_plan(url, data, json, headers).body == Some(text)
            && post_plan(url, data, json, headers).headers.len() == 5 + headers.len() && post_plan(
            url,
            data,
            json,
            headers,
        ).headers.last() == ("content-type"@, "application/json"@),
        json is None && data is Some ==> post_plan(url, data, json, headers).body == data
            && post_plan(url, data, json, headers).headers.len() == 5 + headers.len() && post_plan(
            url,
            data,
            json,
            headers,
        ).headers.last() == ("content-type"@, "application/x-www-form-urlencoded"@),
        json is None && data is None ==> post_plan(url, data, json, headers).body is None
            && post_plan(url, data, json, headers).headers.len() == 4 + headers.len(),
{
    let all = post_plan(url, data, json, headers).headers;
    assert(all.subrange(4, 4int + headers.len()) =~= headers);
}

/// Data that is posted is the body, as a form, whatever the caller's headers are: the counterpart
/// of `law_json_comes_before_data` where no JSON is given.
pub proof fn law_data_is_posted_as_a_form(url: Seq<char>, data: Seq<char>, headers: Seq<Pair>)
    ensures
        post_plan(url, Some(data), None, headers).body == Some(data),
        post_plan(url, Some(data), None, headers).headers.last() == (
            "content-type"@,
            "application/x-www-form-urlencoded"@,
        ),
{
    law_a_post_plan_in_full(url, Some(data), None, headers);
}

/// A URL is left as it is where no parameters are given. Where some are, even none at all, it is
/// followed by `?` and a text from which just those parameters are read, in their order.
pub proof fn law_a_url_is_followed_by_its_parameters(url: Seq<char>, params: Seq<Pair>)
    ensures
        full_url(url, None) == url,
        full_url(url, Some(params)).take(url.len() as int) == url,
        full_url(url, Some(params))[url.len() as int] == '?',
        read_query(full_url(url, Some(params)).skip(1int + url.len())) == params,
        full_url(url, Some(params)).skip(1int + url.len()) == query(params),
{
    reveal_strlit("?");
    let whole = full_url(url, Some(params));
    assert(whole.take(url.len() as int) =~= url);
    assert(whole.skip(1int + url.len()) =~= query(params));
    law_query_is_read_back(params);
}

/// Maps that are given are walked, and where none is given there is nothing to walk.
pub proof fn law_given_maps_are_walked(
    order: Option<Seq<Pair>>,
    map: Option<Map<Seq<char>, Seq<char>>>,
)
    requires
        walked(order, map),
    ensures
        order is Some == map is Some,
        map matches Some(map) ==> enumerates(order->Some_0, map) && dict_of(order->Some_0) == map,
        order matches Some(pairs) ==> or_none(order) == pairs,
        order is None ==> or_none(order).len() == 0,
{
    if let Some(map) = map {
        law_collecting_undoes_walking(order->Some_0, map);
    }
}

/// A new session keeps every cookie that it is given and nothing else, where the names are not empty
/// and have no `=`, and neither names nor values have a `;` or white space at their ends: each is in
/// the jar for `example.com`, the hosts below it and all paths, and does not expire.
pub proof fn law_a_new_session_keeps_its_cookies(
    jar: Jar,
    cookies: Map<Seq<char>, Seq<char>>,
    slot: Slot,
)
    requires
        filled(jar, cookies),
        forall|name: Seq<char>| #[trigger]
            cookies.contains_key(name) ==> name.len() > 0 && trimmed(name) && !name.contains(';')
                && !name.contains('=') && trimmed(cookies[name]) && !cookies[name].contains(';'),
    ensures
        jar.contains_key(slot) <==> slot.domain == "example.com"@ && slot.path == "/"@
            && cookies.contains_key(slot.name),
        jar.contains_key(slot) ==> jar[slot].value == cookies[slot.name] && jar[slot].session
            && !jar[slot].host_only && !jar[slot].secure && !jar[slot].http_only,
{
    assert(plain_cookies(cookies));
}

/// The cookies that a new session is given are offered to its empty jar one after the other, each
/// once, as `Set-Cookie` texts from `https://example.com/` that name the domain and all paths.
pub proof fn law_given_cookies_are_offered_as_texts(jar: Jar, cookies: Map<Seq<char>, Seq<char>>)
    requires
        filled(jar, cookies),
    ensures
        exists|order: Seq<Pair>, texts: Seq<Seq<char>>|
            #![trigger enumerates(order, cookies), texts.len()]
            enumerates(order, cookies) && texts.len() == order.len() && (forall|i: int|
                0 <= i < order.len() ==> #[trigger] texts[i] == order[i].0 + "="@ + order[i].1
                    + "; Domain=.example.com; Path=/"@) && all_offered(
                Jar::empty(),
                jar,
                texts,
                UrlParts {
                    scheme: "https"@,
                    host: Some("example.com"@),
                    path: "/"@,
                    opaque: false,
                },
            ),
{
    let order = choose|order: Seq<Pair>| #[trigger]
        enumerates(order, cookies) && all_offered(
            Jar::empty(),
            jar,
            site_cookies(order),
            site_parts(),
        );
    let texts = site_cookies(order);
    assert(texts.len() == order.len());
}

/// A new session reports just the cookies that it was given.
pub proof fn law_a_new_session_reports_its_cookies(
    jar: Jar,
    cookies: Map<Seq<char>, Seq<char>>,
    map: Map<Seq<char>, Seq<char>>,
)
    requires
        filled(jar, cookies),
        reported(map, jar),
        forall|name: Seq<char>| #[trigger]
            cookies.contains_key(name) ==> name.len() > 0 && trimmed(name) && !name.contains(';')
                && !name.contains('=') && trimmed(cookies[name]) && !cookies[name].contains(';'),
    ensures
        map == cookies,
{
    assert(plain_cookies(cookies));
    law_given_cookies_are_reported(cookies, map);
}

} // verus!
