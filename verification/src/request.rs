//! Requests: what is to be sent, as plain values, and the same as a `hyper` request.

use crate::pairs::Pair;
use hyper::http::request::Builder;
use hyper::{Body, Request};
use vstd::prelude::*;
use vstd::utf8::encode_utf8;

verus! {

/// `hyper::Body`, carried as an opaque value.
#[verifier::external_type_specification]
#[verifier::external_body]
pub struct ExBody(hyper::Body);

/// `http::Request`, carried as an opaque value.
#[verifier::external_type_specification]
#[verifier::external_body]
#[verifier::reject_recursive_types(T)]
pub struct ExRequest<T>(hyper::Request<T>);

/// `http::request::Builder`, carried as an opaque value.
#[verifier::external_type_specification]
#[verifier::external_body]
pub struct ExBuilder(hyper::http::request::Builder);

/// The methods that requests are made with.
#[derive(Clone, Copy, PartialEq, Eq, Structural, Debug)]
pub enum Method {
    Get,
    Post,
}

/// A request as plain values. Header names may repeat.
pub struct RequestPlan {
    pub method: Method,
    pub url: String,
    pub headers: Vec<(String, String)>,
    /// The body's text; a request without a body has none.
    pub body: Option<String>,
}

/// A request plan, by its views.
pub struct PlanView {
    pub method: Method,
    pub url: Seq<char>,
    pub headers: Seq<Pair>,
    pub body: Option<Seq<char>>,
}

impl View for RequestPlan {
    type V = PlanView;

    open spec fn view(&self) -> PlanView {
        PlanView {
            method: self.method,
            url: self.url@,
            headers: self.headers.deep_view(),
            body: self.body.deep_view(),
        }
    }
}

/// Header values by their names in lower case; the values of one name are in the order in which
/// they were added.
pub type HeaderMap = Map<Seq<char>, Seq<Seq<char>>>;

/// The head of a request.
pub struct RequestHead {
    pub method: Seq<char>,
    pub uri: Seq<char>,
    pub headers: HeaderMap,
}

/// What `Uri::try_from` makes of a text: the URI as it prints itself, or the text of its error.
pub uninterp spec fn uri_parse(text: Seq<char>) -> Result<Seq<char>, Seq<char>>;

/// What a builder has come to: the head so far, or the text of the first error.
pub uninterp spec fn built(builder: Builder) -> Result<RequestHead, Seq<char>>;

/// The bytes that a body holds.
pub uninterp spec fn body_bytes(body: Body) -> Seq<u8>;

/// The head and the body's bytes of a request.
pub uninterp spec fn request_parts(request: Request<Body>) -> (RequestHead, Seq<u8>);

/// The characters that a header name may hold.
pub open spec fn name_char(c: char) -> bool {
    ||| '0' <= c <= '9'
    ||| 'A' <= c <= 'Z'
    ||| 'a' <= c <= 'z'
    ||| c == '!' || c == '"' || c == '#' || c == '$' || c == '%' || c == '&' || c == '\''
    ||| c == '*' || c == '+' || c == '-' || c == '.' || c == '^' || c == '_' || c == '`'
    ||| c == '|' || c == '~'
}

/// A text that is a header name.
pub open spec fn valid_name(name: Seq<char>) -> bool {
    &&& 1 <= name.len() <= 65535
    &&& forall|i: int| 0 <= i < name.len() ==> name_char(#[trigger] name[i])
}

/// A text that can be a header value: no control character but the tab.
pub open spec fn valid_value(value: Seq<char>) -> bool {
    forall|i: int|
        0 <= i < value.len() ==> (#[trigger] value[i] as u32 >= 32 && value[i] as u32 != 127
            || value[i] == '\t')
}

/// A letter of `A` to `Z` in lower case; any other character as it is.
pub open spec fn lower_char(c: char) -> char {
    if 'A' <= c <= 'Z' {
        (c as u32 + 32) as char
    } else {
        c
    }
}

/// A header name in the form in which it is kept.
pub open spec fn lower(name: Seq<char>) -> Seq<char> {
    name.map_values(|c: char| lower_char(c))
}

/// The values of one name.
pub open spec fn values_of(headers: HeaderMap, name: Seq<char>) -> Seq<Seq<char>> {
    if headers.contains_key(name) {
        headers[name]
    } else {
        Seq::empty()
    }
}

/// A header is added after those of its name that are there.
pub open spec fn appended(headers: HeaderMap, field: Pair) -> HeaderMap {
    headers.insert(lower(field.0), values_of(headers, lower(field.0)).push(field.1))
}

/// The head with one more header, or why it cannot be added.
pub open spec fn with_header(head: RequestHead, field: Pair) -> Result<RequestHead, Seq<char>> {
    if !valid_name(field.0) {
        Err("invalid HTTP header name"@)
    } else if !valid_value(field.1) {
        Err("failed to parse header value"@)
    } else {
        Ok(RequestHead { headers: appended(head.headers, field), ..head })
    }
}

/// Few enough names for one more to find room in any case.
pub open spec fn roomy(headers: HeaderMap) -> bool {
    headers.dom().finite() && headers.dom().len() < 6000
}

/// What a builder comes to that has no room for another name.
pub open spec fn full() -> Result<RequestHead, Seq<char>> {
    Err("max size reached"@)
}

/// What a builder has come to at first.
pub open spec fn fresh() -> Result<RequestHead, Seq<char>> {
    Ok(RequestHead { method: "GET"@, uri: "/"@, headers: HeaderMap::empty() })
}

/// `Request::builder`: nothing set yet.
#[verifier::external_body]
fn new_builder() -> (builder: Builder)
    ensures
        built(builder) == fresh(),
{
    Request::builder()
}

/// `Builder::method`, with the name of one of the two methods. An earlier error stays.
#[verifier::external_body]
fn set_method(builder: Builder, method: &str) -> (next: Builder)
    requires
        method@ == "GET"@ || method@ == "POST"@,
    ensures
        built(next) == (match built(builder) {
            Ok(head) => Ok(RequestHead { method: method@, ..head }),
            Err(message) => Err(message),
        }),
{
    builder.method(method)
}

/// `Builder::uri`. What is made of the text is named. An earlier error stays.
#[verifier::external_body]
fn set_uri(builder: Builder, uri: &str) -> (next: Builder)
    ensures
        built(next) == (match built(builder) {
            Ok(head) => match uri_parse(uri@) {
                Ok(parsed) => Ok(RequestHead { uri: parsed, ..head }),
                Err(message) => Err(message),
            },
            Err(message) => Err(message),
        }),
{
    builder.uri(uri)
}

/// `Builder::header`: the header is added, or its name or else its value is refused. An earlier
/// error stays. A builder that holds very many names may have no room for another one; when it has
/// none is left open.
#[verifier::external_body]
fn add_header(builder: Builder, name: &String, value: &String) -> (next: Builder)
    ensures
        built(builder) is Err ==> built(next) == built(builder),
        built(builder) is Ok ==> built(next) == with_header(built(builder)->Ok_0, (name@, value@))
            || built(next) == full(),
        built(builder) is Ok && (roomy(built(builder)->Ok_0.headers) || with_header(
            built(builder)->Ok_0,
            (name@, value@),
        ) is Err) ==> built(next) == with_header(built(builder)->Ok_0, (name@, value@)),
{
    builder.header(name, value)
}

/// `Body::empty`.
#[verifier::external_body]
fn empty_body() -> (body: Body)
    ensures
        body_bytes(body) == Seq::<u8>::empty(),
{
    Body::empty()
}

/// `Body::from` of a `String`: the UTF-8 bytes of the text.
#[verifier::external_body]
fn text_body(text: String) -> (body: Body)
    ensures
        body_bytes(body) == encode_utf8(text@),
{
    Body::from(text)
}

/// `Builder::body`: the request with the head that was built, or the text of the first error.
#[verifier::external_body]
fn finish(builder: Builder, body: Body) -> (request: Result<Request<Body>, String>)
    ensures
        request is Ok == built(builder) is Ok,
        request is Ok ==> request_parts(request->Ok_0) == (built(builder)->Ok_0, body_bytes(body)),
        request is Err ==> built(builder) == Err::<RequestHead, Seq<char>>(request->Err_0@),
{
    builder.body(body).map_err(|e| e.to_string())
}

/// The name of a method.
pub open spec fn method_name(method: Method) -> Seq<char> {
    match method {
        Method::Get => "GET"@,
        Method::Post => "POST"@,
    }
}

/// The head with `fields` added one after the other, or why one of them cannot be added.
pub open spec fn with_headers(head: RequestHead, fields: Seq<Pair>) -> Result<
    RequestHead,
    Seq<char>,
>
    decreases fields.len(),
{
    if fields.len() == 0 {
        Ok(head)
    } else {
        match with_headers(head, fields.drop_last()) {
            Ok(front) => with_header(front, fields.last()),
            Err(message) => Err(message),
        }
    }
}

/// The names that headers have, in lower case.
pub open spec fn header_names(fields: Seq<Pair>) -> Set<Seq<char>> {
    fields.map_values(|field: Pair| lower(field.0)).to_set()
}

/// There is room for headers for certain: there are up to six thousand, or they have fewer names.
pub open spec fn few_headers(fields: Seq<Pair>) -> bool {
    fields.len() <= 6000 || header_names(fields).len() < 6000
}

/// Adds headers to a request that is being built. An earlier error stays. With up to six thousand
/// headers in all, or fewer names, there is room for them.
pub fn add_headers(builder: Builder, headers: &[(String, String)]) -> (next: Builder)
    ensures
        built(builder) is Err ==> built(next) == built(builder),
        built(builder) is Ok ==> built(next) == with_headers(
            built(builder)->Ok_0,
            headers.deep_view(),
        ) || built(next) == full(),
        built(builder) is Ok && built(builder)->Ok_0.headers == HeaderMap::empty() && (headers@.len()
            <= 6000 || header_names(headers.deep_view()).len() < 6000) ==> built(next) == with_headers(built(builder)->Ok_0, headers.deep_view()),
{
    let ghost start = built(builder);
    let ghost fields = headers.deep_view();
    let ghost few = start is Ok && start->Ok_0.headers == HeaderMap::empty() && few_headers(fields);
    let mut builder = builder;
    for i in 0..headers.len()
        invariant
            fields == headers.deep_view(),
            few == (start is Ok && start->Ok_0.headers == HeaderMap::empty() && few_headers(fields)),
            start is Err ==> built(builder) == start,
            start is Ok ==> built(builder) == with_headers(start->Ok_0, fields.take(i as int))
                || !few && built(builder) == full(),
    {
        proof {
            assert(fields.take(i + 1).drop_last() =~= fields.take(i as int));
            assert(fields.take(i + 1).last() == fields[i as int]);
            if few && built(builder) is Ok {
                lemma_room(start->Ok_0, fields.take(i as int));
                lemma_fewer_names(fields, i as int);
            }
        }
        builder = add_header(builder, &headers[i].0, &headers[i].1);
    }
    assert(fields.take(headers.len() as int) =~= fields);
    builder
}

impl PlanView {
    /// The head of the request, or why there is none: the URL is no URI, or a header is none.
    pub open spec fn head(self) -> Result<RequestHead, Seq<char>> {
        match uri_parse(self.url) {
            Ok(uri) => with_headers(
                RequestHead { method: method_name(self.method), uri, headers: HeaderMap::empty() },
                self.headers,
            ),
            Err(message) => Err(message),
        }
    }

    /// The bytes of the request's body.
    pub open spec fn body_bytes(self) -> Seq<u8> {
        match self.body {
            Some(text) => encode_utf8(text),
            None => Seq::empty(),
        }
    }
}

impl RequestPlan {
    /// Makes the request. It succeeds just where the URL is a URI and every header is one, but
    /// that with six thousand names or more there may be no room for all of them.
    pub fn build(self) -> (request: Result<Request<Body>, String>)
        ensures
            match request {
                Ok(request) => self@.head() is Ok && request_parts(request) == (
                    self@.head()->Ok_0,
                    self@.body_bytes(),
                ),
                Err(message) => self@.head() == Err::<RequestHead, Seq<char>>(message@)
                    || self.headers@.len() > 6000 && header_names(self@.headers).len() >= 6000
                    && message@ == "max size reached"@,
            },
            request matches Ok(request) ==> request_parts(request).0.method == (match self.method {
                Method::Get => "GET"@,
                Method::Post => "POST"@,
            }) && uri_parse(self.url@) == Ok::<Seq<char>, Seq<char>>(request_parts(request).0.uri)
                && request_parts(request).1 == (match self.body {
                Some(text) => encode_utf8(text@),
                None => Seq::empty(),
            }),
    {
        proof {
            law_a_request_says_what_its_plan_says(self@);
        }
        let method = match self.method {
            Method::Get => "GET",
            Method::Post => "POST",
        };
        let builder = set_uri(set_method(new_builder(), method), self.url.as_str());
        let builder = add_headers(builder, self.headers.as_slice());
        let body = match self.body {
            Some(text) => text_body(text),
            None => empty_body(),
        };
        finish(builder, body)
    }
}

/// Every header of a plan is in the request that is made of it: its value is among those of its
/// name.
pub proof fn law_every_header_is_sent(head: RequestHead, headers: Seq<Pair>, i: int)
    requires
        with_headers(head, headers) is Ok,
        0 <= i < headers.len(),
    ensures
        values_of(with_headers(head, headers)->Ok_0.headers, lower(headers[i].0)).contains(
            headers[i].1,
        ),
    decreases headers.len(),
{
    let front = with_headers(head, headers.drop_last())->Ok_0.headers;
    let last = headers.last();
    let old_values = values_of(front, lower(last.0));
    if i == headers.len() - 1 {
        assert(old_values.push(last.1)[old_values.len() as int] == last.1);
    } else {
        law_every_header_is_sent(head, headers.drop_last(), i);
        let name = lower(headers[i].0);
        let k = choose|k: int|
            0 <= k < values_of(front, name).len() && values_of(front, name)[k] == headers[i].1;
        if name == lower(last.0) {
            assert(old_values.push(last.1)[k] == headers[i].1);
        }
    }
}

/// A header that cannot be sent stops the request: where one header of a plan is none, there is
/// no request.
pub proof fn law_a_bad_header_stops_the_request(head: RequestHead, headers: Seq<Pair>, i: int)
    requires
        0 <= i < headers.len(),
        !valid_name(headers[i].0) || !valid_value(headers[i].1),
    ensures
        with_headers(head, headers) is Err,
    decreases headers.len(),
{
    if i < headers.len() - 1 {
        law_a_bad_header_stops_the_request(head, headers.drop_last(), i);
    }
}

/// A head holds the names of the headers that were added, no more than there were headers.
proof fn lemma_room(head: RequestHead, fields: Seq<Pair>)
    requires
        head.headers == HeaderMap::empty(),
        with_headers(head, fields) is Ok,
    ensures
        with_headers(head, fields)->Ok_0.headers.dom() == header_names(fields),
        with_headers(head, fields)->Ok_0.headers.dom().finite(),
        with_headers(head, fields)->Ok_0.headers.dom().len() <= fields.len(),
    decreases fields.len(),
{
    let names = fields.map_values(|field: Pair| lower(field.0));
    if fields.len() > 0 {
        let rest = fields.drop_last();
        let rest_names = rest.map_values(|field: Pair| lower(field.0));
        let last = lower(fields.last().0);
        lemma_room(head, rest);
        assert(names =~= rest_names.push(last));
        assert forall|name: Seq<char>| #[trigger] header_names(fields).contains(name) == (
        header_names(rest).contains(name) || name == last) by {
            if rest_names.contains(name) {
                let i = choose|i: int| 0 <= i < rest_names.len() && rest_names[i] == name;
                assert(names[i] == name);
            }
            if name == last {
                assert(names[rest_names.len() as int] == name);
            }
        }
        assert(with_headers(head, fields)->Ok_0.headers.dom() =~= header_names(fields));
    } else {
        assert(header_names(fields) =~= Set::empty());
        assert(HeaderMap::empty().dom() =~= Set::empty());
    }
}

/// The first of some headers have no more names than all of them.
proof fn lemma_fewer_names(fields: Seq<Pair>, i: int)
    requires
        0 <= i <= fields.len(),
    ensures
        header_names(fields.take(i)).len() <= header_names(fields).len(),
{
    let names = fields.map_values(|field: Pair| lower(field.0));
    let first = fields.take(i).map_values(|field: Pair| lower(field.0));
    vstd::seq_lib::seq_to_set_is_finite(names);
    assert forall|name: Seq<char>| #[trigger]
        header_names(fields.take(i)).contains(name) implies header_names(fields).contains(name) by {
        let k = choose|k: int| 0 <= k < first.len() && first[k] == name;
        assert(names[k] == name);
    }
    vstd::set_lib::lemma_len_subset(header_names(fields.take(i)), header_names(fields));
}

/// Adding headers changes neither the method nor the URI.
proof fn lemma_headers_alone_are_added(head: RequestHead, fields: Seq<Pair>)
    ensures
        with_headers(head, fields) matches Ok(next) ==> next.method == head.method && next.uri
            == head.uri,
    decreases fields.len(),
{
    if fields.len() > 0 {
        lemma_headers_alone_are_added(head, fields.drop_last());
    }
}

/// A request says what its plan says. Whatever headers the plan has, the request's method is `GET`
/// or `POST` as the plan has it, its URI is what the plan's URL is parsed as, and its body's bytes
/// are those of the plan's text, or none. A URL that is no URI is the error of the request.
pub proof fn law_a_request_says_what_its_plan_says(plan: PlanView)
    ensures
        plan.head() matches Ok(head) ==> head.method == (match plan.method {
            Method::Get => "GET"@,
            Method::Post => "POST"@,
        }) && uri_parse(plan.url) == Ok::<Seq<char>, Seq<char>>(head.uri),
        uri_parse(plan.url) matches Err(message) ==> plan.head() == Err::<RequestHead, Seq<char>>(
            message,
        ),
        plan.body matches Some(text) ==> plan.body_bytes() == encode_utf8(text),
        plan.body is None ==> plan.body_bytes().len() == 0,
{
    if let Ok(uri) = uri_parse(plan.url) {
        lemma_headers_alone_are_added(
            RequestHead { method: method_name(plan.method), uri, headers: HeaderMap::empty() },
            plan.headers,
        );
    }
}

/// The values that headers give to a name: one for each of them that has it, in their order.
proof fn lemma_values_by_name(head: RequestHead, fields: Seq<Pair>, name: Seq<char>)
    requires
        with_headers(head, fields) is Ok,
        head.headers == HeaderMap::empty(),
    ensures
        values_of(with_headers(head, fields)->Ok_0.headers, name) == fields.filter(
            |field: Pair| lower(field.0) == name,
        ).map_values(|field: Pair| field.1),
        with_headers(head, fields)->Ok_0.headers.contains_key(name) <==> exists|i: int|
            0 <= i < fields.len() && lower((#[trigger] fields[i]).0) == name,
    decreases fields.len(),
{
    reveal(Seq::filter);
    let pick = |field: Pair| lower(field.0) == name;
    let take = |field: Pair| field.1;
    if fields.len() > 0 {
        let rest = fields.drop_last();
        let last = fields.last();
        lemma_values_by_name(head, rest, name);
        assert(rest.filter(pick).push(last).map_values(take) =~= rest.filter(pick).map_values(
            take,
        ).push(last.1));
        assert(fields[fields.len() - 1] == last);
        if lower(last.0) != name {
            if exists|i: int| 0 <= i < fields.len() && lower((#[trigger] fields[i]).0) == name {
                let i = choose|i: int|
                    0 <= i < fields.len() && lower((#[trigger] fields[i]).0) == name;
                assert(rest[i] == fields[i]);
            }
            if exists|i: int| 0 <= i < rest.len() && lower((#[trigger] rest[i]).0) == name {
                let i = choose|i: int|
                    0 <= i < rest.len() && lower((#[trigger] rest[i]).0) == name;
                assert(fields[i] == rest[i]);
            }
        }
    } else {
        assert(fields.filter(pick).map_values(take) =~= Seq::<Seq<char>>::empty());
    }
}

/// A request has the headers of its plan and no others: under a name in lower case are the values
/// of all headers of the plan that have the name in whatever case, in their order.
pub proof fn law_a_request_has_the_headers_of_its_plan(plan: PlanView, name: Seq<char>)
    requires
        plan.head() is Ok,
    ensures
        plan.head()->Ok_0.headers.contains_key(name) <==> exists|i: int|
            0 <= i < plan.headers.len() && lower((#[trigger] plan.headers[i]).0) == name,
        values_of(plan.head()->Ok_0.headers, name) == plan.headers.filter(
            |field: Pair| lower(field.0) == name,
        ).map_values(|field: Pair| field.1),
{
    let uri = uri_parse(plan.url)->Ok_0;
    lemma_values_by_name(
        RequestHead { method: method_name(plan.method), uri, headers: HeaderMap::empty() },
        plan.headers,
        name,
    );
}

/// Headers can be added up to the first one that cannot.
proof fn lemma_good_headers_are_added(head: RequestHead, fields: Seq<Pair>)
    requires
        forall|i: int|
            0 <= i < fields.len() ==> valid_name((#[trigger] fields[i]).0) && valid_value(
                fields[i].1,
            ),
    ensures
        with_headers(head, fields) is Ok,
    decreases fields.len(),
{
    if fields.len() > 0 {
        assert(forall|i: int|
            0 <= i < fields.drop_last().len() ==> (#[trigger] fields.drop_last()[i]) == fields[i]);
        assert(fields.last() == fields[fields.len() - 1]);
        lemma_good_headers_are_added(head, fields.drop_last());
    }
}

proof fn lemma_first_bad_header(head: RequestHead, fields: Seq<Pair>, i: int)
    requires
        0 <= i < fields.len(),
        forall|j: int|
            0 <= j < i ==> valid_name((#[trigger] fields[j]).0) && valid_value(fields[j].1),
        !valid_name(fields[i].0) || !valid_value(fields[i].1),
    ensures
        with_headers(head, fields) == with_header(head, fields[i]),
        with_header(head, fields[i]) is Err,
    decreases fields.len(),
{
    let rest = fields.drop_last();
    assert(forall|j: int| 0 <= j < rest.len() ==> (#[trigger] rest[j]) == fields[j]);
    if i < rest.len() {
        lemma_first_bad_header(head, rest, i);
    } else {
        assert(fields.last() == fields[i]);
        lemma_good_headers_are_added(head, rest);
    }
}

/// A plan whose URL is a URI fails just where a header is none, and the first such header decides
/// the error: its name, or else its value.
pub proof fn law_the_first_bad_header_is_the_error(plan: PlanView, i: int)
    requires
        uri_parse(plan.url) is Ok,
    ensures
        (forall|j: int|
            0 <= j < plan.headers.len() ==> valid_name((#[trigger] plan.headers[j]).0)
                && valid_value(plan.headers[j].1)) ==> plan.head() is Ok,
        0 <= i < plan.headers.len() && !valid_name(plan.headers[i].0) && (forall|j: int|
            0 <= j < i ==> valid_name((#[trigger] plan.headers[j]).0) && valid_value(
                plan.headers[j].1,
            )) ==> plan.head() == Err::<RequestHead, Seq<char>>("invalid HTTP header name"@),
        0 <= i < plan.headers.len() && valid_name(plan.headers[i].0) && !valid_value(
            plan.headers[i].1,
        ) && (forall|j: int|
            0 <= j < i ==> valid_name((#[trigger] plan.headers[j]).0) && valid_value(
                plan.headers[j].1,
            )) ==> plan.head() == Err::<RequestHead, Seq<char>>("failed to parse header value"@),
{
    let uri = uri_parse(plan.url)->Ok_0;
    let head = RequestHead {
        method: method_name(plan.method),
        uri,
        headers: HeaderMap::empty(),
    };
    let headers = plan.headers;
    if forall|j: int|
        0 <= j < headers.len() ==> valid_name((#[trigger] headers[j]).0) && valid_value(
            headers[j].1,
        ) {
        lemma_good_headers_are_added(head, headers);
    }
    if 0 <= i < headers.len() && (forall|j: int|
        0 <= j < i ==> valid_name((#[trigger] headers[j]).0) && valid_value(headers[j].1)) && (
    !valid_name(headers[i].0) || !valid_value(headers[i].1)) {
        lemma_first_bad_header(head, headers, i);
    }
}

/// A plan is seen in contracts as what it holds.
pub proof fn law_a_plan_is_seen_as_it_is(plan: RequestPlan)
    ensures
        plan@.method == plan.method,
        plan@.url == plan.url@,
        plan@.headers.len() == plan.headers@.len(),
        forall|i: int|
            0 <= i < plan.headers@.len() ==> (#[trigger] plan@.headers[i]) == (
                plan.headers@[i].0@,
                plan.headers@[i].1@,
            ),
        plan@.body is Some == plan.body is Some,
        plan.body matches Some(text) ==> plan@.body == Some(text@),
{
}

/// The names of headers are those that a header has, in lower case, each once however often it
/// occurs; there are no more of them than headers.
pub proof fn law_names_are_counted_once(fields: Seq<Pair>, name: Seq<char>)
    ensures
        header_names(fields).finite(),
        header_names(fields).len() <= fields.len(),
        header_names(fields).contains(name) <==> exists|i: int|
            0 <= i < fields.len() && lower((#[trigger] fields[i]).0) == name,
{
    let names = fields.map_values(|field: Pair| lower(field.0));
    vstd::seq_lib::seq_to_set_is_finite(names);
    names.lemma_cardinality_of_set();
    if header_names(fields).contains(name) {
        let i = choose|i: int| 0 <= i < names.len() && names[i] == name;
        assert(lower(fields[i].0) == name);
    }
    if exists|i: int| 0 <= i < fields.len() && lower((#[trigger] fields[i]).0) == name {
        let i = choose|i: int| 0 <= i < fields.len() && lower((#[trigger] fields[i]).0) == name;
        assert(names[i] == name);
    }
}

} // verus!
