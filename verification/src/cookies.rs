//! The cookie jar of a session.
//!
//! `cookie_store` reads `Set-Cookie` texts and decides which cookies are kept and which are sent;
//! some of its decisions depend on the clock. What is stated here holds at any time.

use crate::origin::{
    is_http, is_secure, is_web, parts, site_parts, well_formed, Origin, UrlParts,
};
use crate::pairs::{
    assignments, collect, dict_of, law_dict_holds_the_pairs,
    law_one_pair_more_is_written_after_the_others, Pair,
};
use crate::text::{
    ipv4_text, lemma_split_at_last_mark, lemma_split_without_mark, split, trimmed,
};
use cookie_store::{Cookie, CookieError, CookieStore};
use std::collections::HashMap;
use vstd::prelude::*;

verus! {

/// `cookie_store::Cookie`, carried as an opaque value.
#[verifier::external_type_specification]
#[verifier::external_body]
pub struct ExCookie<'a>(cookie_store::Cookie<'a>);

/// `cookie_store::CookieError`, carried as an opaque value.
#[verifier::external_type_specification]
#[verifier::external_body]
pub struct ExCookieError(cookie_store::CookieError);

/// `cookie_store::CookieStore`, carried as an opaque value.
#[verifier::external_type_specification]
#[verifier::external_body]
pub struct ExCookieStore(cookie_store::CookieStore);

/// A store of cookies. There is no other way to one than `empty_store`, so that it has no list of
/// public suffixes and holds nothing but what was offered to it.
pub struct CookieJar {
    store: CookieStore,
}

/// Where a cookie is kept: a jar holds one cookie at most for a domain, a path and a name.
pub struct Slot {
    pub domain: Seq<char>,
    pub path: Seq<char>,
    pub name: Seq<char>,
}

/// What is kept of a cookie.
pub struct Kept {
    pub value: Seq<char>,
    /// The cookie goes to the very host it came from, not to hosts below its domain.
    pub host_only: bool,
    pub secure: bool,
    pub http_only: bool,
    /// The cookie has no time at which it expires.
    pub session: bool,
}

/// A cookie and the slot that it is for.
pub struct Offer {
    pub slot: Slot,
    pub kept: Kept,
}

/// The cookies of a jar, those that have expired among them.
pub type Jar = Map<Slot, Kept>;

/// The cookies that a store holds.
pub uninterp spec fn jar(cookies: CookieJar) -> Jar;

/// What `Cookie::parse` reads in a `Set-Cookie` text that came from a URL: the cookie and its
/// slot, or nothing where the text is refused. (When exactly the cookie expires is not part of
/// it.)
pub uninterp spec fn parsed_cookie(text: Seq<char>, url: UrlParts) -> Option<Offer>;

/// What a cookie is when it is taken as coming from a URL, or nothing where it is refused then.
pub uninterp spec fn cookie_from(cookie: Cookie<'static>, url: UrlParts) -> Option<Offer>;

/// Whether a store looks under a domain at all for cookies to a URL (`cookie_domain::is_match`).
pub uninterp spec fn looked_under(domain: Seq<char>, url: UrlParts) -> bool;

/// The `Set-Cookie` text for a cookie that is given to a new session.
pub open spec fn site_cookie(pair: Pair) -> Seq<char> {
    pair.0 + "="@ + pair.1 + "; Domain=.example.com; Path=/"@
}

/// The `Set-Cookie` texts for cookies that are given to a new session.
pub open spec fn site_cookies(pairs: Seq<Pair>) -> Seq<Seq<char>> {
    pairs.map_values(|pair: Pair| site_cookie(pair))
}

/// The slot of a cookie that is given to a new session.
pub open spec fn site_slot(name: Seq<char>) -> Slot {
    Slot { domain: "example.com"@, path: "/"@, name }
}

/// What is kept of a cookie that is given to a new session.
pub open spec fn site_kept(value: Seq<char>) -> Kept {
    Kept { value, host_only: false, secure: false, http_only: false, session: true }
}

/// A cookie that is given to a new session, with its slot.
pub open spec fn site_offer(pair: Pair) -> Offer {
    Offer { slot: site_slot(pair.0), kept: site_kept(pair.1) }
}

/// A text that stands for itself in a `Set-Cookie` text.
pub open spec fn plain_text(text: Seq<char>) -> bool {
    trimmed(text) && !text.contains(';')
}

/// A cookie name and value that stand for themselves in a `Set-Cookie` text.
pub open spec fn plain_pair(pair: Pair) -> bool {
    pair.0.len() > 0 && plain_text(pair.0) && !pair.0.contains('=') && plain_text(pair.1)
}

/// Whether a cookie's domain covers the host of a URL: it is that host, or the end of its name that
/// follows a dot, unless the cookie is for one host alone.
pub open spec fn covers(domain: Seq<char>, host_only: bool, url: UrlParts) -> bool {
    match url.host {
        Some(host) => host == domain || !host_only && !ipv4_text(host) && below(host, domain),
        None => false,
    }
}

/// The host's name ends with a dot and the domain.
pub open spec fn below(host: Seq<char>, domain: Seq<char>) -> bool {
    (seq!['.'] + domain).is_suffix_of(host)
}

/// Whether a cookie's path covers the path of a URL: it is that path, or the beginning of it up to
/// a slash.
pub open spec fn path_covers(path: Seq<char>, url: UrlParts) -> bool {
    !url.opaque && (path == url.path || path.is_prefix_of(url.path) && (path.len() > 0
        && path.last() == '/' || path.len() < url.path.len() && url.path[path.len() as int] == '/'))
}

/// Whether a cookie, until it expires, is for a URL (`Cookie::matches`): its domain and its path
/// cover that of the URL, and it is not kept from the URL's scheme.
pub open spec fn is_for(slot: Slot, kept: Kept, url: UrlParts) -> bool {
    &&& covers(slot.domain, kept.host_only, url)
    &&& path_covers(slot.path, url)
    &&& kept.secure ==> is_secure(url)
    &&& kept.http_only ==> is_http(url)
}

/// A domain that starts as host names and IPv4 addresses do, not with a dot and not with the
/// bracket of an IPv6 address, and that is not so long that it could not be read as a host name
/// once more: a label in Punycode is read up to a length of 2004.
pub open spec fn named_host(domain: Seq<char>) -> bool {
    1 <= domain.len() <= 2004 && domain[0] != '.' && domain[0] != '['
}

/// A domain under which a store looks for certain for cookies to a URL whose host it covers: the
/// URL is one of the web, and the domain can be read as a host name once more.
pub open spec fn surely_looked_under(domain: Seq<char>, url: UrlParts) -> bool {
    is_web(url) && named_host(domain)
}

/// Whether a cookie, until it expires, goes with a request to a URL.
pub open spec fn goes_to(slot: Slot, kept: Kept, url: UrlParts) -> bool {
    is_for(slot, kept, url) && (looked_under(slot.domain, url) || surely_looked_under(
        slot.domain,
        url,
    ))
}

/// A cookie made to expire.
pub open spec fn expired(kept: Kept) -> Kept {
    Kept { session: false, ..kept }
}

/// A cookie that a jar takes whatever the time is: one without a time at which it expires, whose
/// domain covers the URL's host, and that does not ask a URL other than of HTTP to replace a
/// cookie that is for HTTP alone.
pub open spec fn taken(before: Jar, slot: Slot, kept: Kept, url: UrlParts) -> bool {
    &&& kept.session
    &&& covers(slot.domain, kept.host_only, url)
    &&& is_http(url) || !(before.contains_key(slot) && before[slot].http_only)
}

/// A cookie that a jar refuses whatever the time is: one whose domain does not cover the URL's
/// host, or that asks a URL other than of HTTP to replace a cookie that is for HTTP alone and does
/// not expire.
pub open spec fn refused(before: Jar, slot: Slot, kept: Kept, url: UrlParts) -> bool {
    ||| !covers(slot.domain, kept.host_only, url)
    ||| !is_http(url) && before.contains_key(slot) && before[slot].http_only && before[slot].session
}

/// What becomes of a jar to which one cookie is offered: the cookie is taken into its slot, or the
/// cookie in that slot expires, or nothing happens.
pub open spec fn offered_cookie(
    before: Jar,
    after: Jar,
    cookie: Option<Offer>,
    url: UrlParts,
) -> bool {
    match cookie {
        None => after == before,
        Some(Offer { slot, kept }) => {
            &&& after == before || after == before.insert(slot, kept) || before.contains_key(slot)
                && after == before.insert(slot, expired(before[slot]))
            &&& taken(before, slot, kept, url) ==> after == before.insert(slot, kept)
            &&& refused(before, slot, kept, url) ==> after == before
        },
    }
}

/// The host is an IPv6 address.
pub open spec fn ipv6_host(url: UrlParts) -> bool {
    url.host matches Some(host) && host.len() > 0 && host[0] == '['
}

/// What holds of every cookie that was read as coming from a URL. One with a domain of its own
/// covers the URL's host; one without is for that host alone; and one that is for HTTP alone came
/// by HTTP. (How an IPv6 address is written in a domain is left open: it need not be as in the
/// URL.)
pub open spec fn is_from(cookie: Offer, url: UrlParts) -> bool {
    &&& cookie.kept.host_only ==> url.host is Some && (ipv6_host(url) || url.host == Some(
        cookie.slot.domain,
    ))
    &&& !cookie.kept.host_only ==> covers(cookie.slot.domain, false, url)
    &&& cookie.kept.http_only ==> is_http(url)
}

/// What becomes of a jar to which a `Set-Cookie` text from a URL is offered.
pub open spec fn offered(before: Jar, after: Jar, text: Seq<char>, url: UrlParts) -> bool {
    &&& offered_cookie(before, after, parsed_cookie(text, url), url)
    &&& parsed_cookie(text, url) matches Some(cookie) ==> is_from(cookie, url)
}

/// What becomes of a jar to which `Set-Cookie` texts from a URL are offered one after the other.
pub open spec fn all_offered(
    before: Jar,
    after: Jar,
    texts: Seq<Seq<char>>,
    url: UrlParts,
) -> bool
    decreases texts.len(),
{
    if texts.len() == 0 {
        after == before
    } else {
        exists|between: Jar|
            all_offered(before, between, texts.drop_last(), url) && #[trigger] offered(
                between,
                after,
                texts.last(),
                url,
            )
    }
}

/// One text more is offered after the others.
pub proof fn lemma_offered_after(
    before: Jar,
    between: Jar,
    after: Jar,
    texts: Seq<Seq<char>>,
    text: Seq<char>,
    url: UrlParts,
)
    requires
        all_offered(before, between, texts, url),
        offered(between, after, text, url),
    ensures
        all_offered(before, after, texts.push(text), url),
{
    assert(texts.push(text).drop_last() =~= texts);
    assert(offered(between, after, texts.push(text).last(), url));
}

/// `pairs` are the names and values of the cookies in `slots`, one for each.
pub open spec fn lists(pairs: Seq<Pair>, slots: Seq<Slot>, jar: Jar) -> bool {
    &&& pairs.len() == slots.len()
    &&& slots.no_duplicates()
    &&& forall|i: int|
        #![trigger slots[i]]
        #![trigger pairs[i]]
        0 <= i < slots.len() ==> jar.contains_key(slots[i]) && pairs[i] == (
            slots[i].name,
            jar[slots[i]].value,
        )
}

/// `pairs` are the names and values of the cookies in `slots`, which are ones that `choice` picks.
/// Cookies that expire may have done so and be missing; of those that do not, all that `choice` or
/// `surely` picks are there.
pub open spec fn picked(
    pairs: Seq<Pair>,
    slots: Seq<Slot>,
    jar: Jar,
    choice: spec_fn(Slot, Kept) -> bool,
    surely: spec_fn(Slot, Kept) -> bool,
) -> bool {
    &&& lists(pairs, slots, jar)
    &&& forall|i: int|
        #![trigger slots[i]]
        0 <= i < slots.len() ==> choice(slots[i], jar[slots[i]])
    &&& forall|slot: Slot| #[trigger]
        jar.contains_key(slot) && jar[slot].session && (choice(slot, jar[slot]) || surely(
            slot,
            jar[slot],
        )) ==> slots.contains(slot)
}

/// `pairs` are the names and values of cookies that are `picked`.
pub open spec fn chosen_cookies(
    pairs: Seq<Pair>,
    jar: Jar,
    choice: spec_fn(Slot, Kept) -> bool,
    surely: spec_fn(Slot, Kept) -> bool,
) -> bool {
    exists|slots: Seq<Slot>| #[trigger] picked(pairs, slots, jar, choice, surely)
}

/// `pairs` are the names and values of cookies that go with a request to a URL.
pub open spec fn sent_cookies(pairs: Seq<Pair>, jar: Jar, url: UrlParts) -> bool {
    chosen_cookies(
        pairs,
        jar,
        |slot: Slot, kept: Kept| is_for(slot, kept, url) && looked_under(slot.domain, url),
        |slot: Slot, kept: Kept| is_for(slot, kept, url) && surely_looked_under(slot.domain, url),
    )
}

/// `pairs` are the names and values of all cookies of the jar.
pub open spec fn all_cookies(pairs: Seq<Pair>, jar: Jar) -> bool {
    exists|slots: Seq<Slot>|
        {
            &&& #[trigger] lists(pairs, slots, jar)
            &&& forall|slot: Slot| #[trigger] jar.contains_key(slot) ==> slots.contains(slot)
        }
}

/// `map` has an entry for every name in the jar, and no other, and each value there is that of a
/// cookie of the name.
pub open spec fn reported(map: Map<Seq<char>, Seq<char>>, jar: Jar) -> bool {
    &&& forall|slot: Slot| #[trigger] jar.contains_key(slot) ==> map.contains_key(slot.name)
    &&& forall|name: Seq<char>| #[trigger]
        map.contains_key(name) ==> exists|slot: Slot| #[trigger]
            jar.contains_key(slot) && slot.name == name && jar[slot].value == map[name]
}

/// `CookieStore::default`: a store without cookies, and without a list of public suffixes.
#[verifier::external_body]
pub(crate) fn empty_store() -> (cookies: CookieJar)
    ensures
        jar(cookies) == Jar::empty(),
{
    CookieJar { store: CookieStore::default() }
}

/// `Cookie::parse`. The result is named. Stated of it: what a cookie that was read has to do with
/// the URL; and how a plain name and value are read that a new session was given.
#[verifier::external_body]
fn parse_cookie(text: &str, origin: &Origin) -> (cookie: Result<Cookie<'static>, CookieError>)
    ensures
        cookie is Ok == parsed_cookie(text@, parts(*origin)) is Some,
        cookie is Ok ==> cookie_from(cookie->Ok_0, parts(*origin)) == parsed_cookie(
            text@,
            parts(*origin),
        ),
        cookie is Ok ==> is_from(cookie_from(cookie->Ok_0, parts(*origin))->Some_0, parts(*origin)),
        forall|pair: Pair|
            plain_pair(pair) && text@ == #[trigger] site_cookie(pair) && parts(*origin)
                == site_parts() ==> cookie is Ok && cookie_from(cookie->Ok_0, parts(*origin))
                == Some(site_offer(pair)),
{
    Cookie::parse(text.to_owned(), &origin.url)
}

/// `CookieStore::insert_raw`: the cookie is read anew as coming from the URL and offered to the
/// store. Whether a cookie that expires is taken depends on the clock and is left open.
#[verifier::external_body]
fn insert_raw(cookies: &mut CookieJar, cookie: &Cookie<'static>, origin: &Origin)
    ensures
        offered_cookie(
            jar(*old(cookies)),
            jar(*final(cookies)),
            cookie_from(*cookie, parts(*origin)),
            parts(*origin),
        ),
{
    cookies.store.insert_raw(cookie, &origin.url).ok();
}

/// `CookieStore::get_request_values`: the names and values of the cookies that are for the URL and
/// that the store looks at, in the order in which the store's maps are walked, which is left open,
/// and without those that have expired. The domains under which the store looks are named, since
/// they are read as host names once more, and are passed over where that fails; stated of them is
/// that it looks for certain under one that covers a web URL's host, starts as host names do and
/// is short enough for every label of it to be read.
#[verifier::external_body]
pub(crate) fn request_values(cookies: &CookieJar, origin: &Origin) -> (pairs: Vec<
    (String, String),
>)
    ensures
        chosen_cookies(
            pairs.deep_view(),
            jar(*cookies),
            |slot: Slot, kept: Kept|
                is_for(slot, kept, parts(*origin)) && looked_under(slot.domain, parts(*origin)),
            |slot: Slot, kept: Kept|
                is_for(slot, kept, parts(*origin)) && surely_looked_under(
                    slot.domain,
                    parts(*origin),
                ),
        ),
{
    let values = cookies.store.get_request_values(&origin.url);
    values.map(|(name, value)| (name.to_owned(), value.to_owned())).collect()
}

/// `CookieStore::iter_any`: the names and values of all cookies, in the order in which the
/// store's maps are walked, which is left open.
#[verifier::external_body]
fn any_values(cookies: &CookieJar) -> (pairs: Vec<(String, String)>)
    ensures
        all_cookies(pairs.deep_view(), jar(*cookies)),
{
    cookies.store.iter_any().map(|c| (c.name().to_owned(), c.value().to_owned())).collect()
}

/// Offers a `Set-Cookie` text from `origin` to the store. A text that is no cookie, and a cookie
/// that is refused, are passed over.
pub fn offer(cookies: &mut CookieJar, text: &str, origin: &Origin)
    ensures
        offered(jar(*old(cookies)), jar(*final(cookies)), text@, parts(*origin)),
        forall|pair: Pair|
            plain_pair(pair) && text@ == #[trigger] site_cookie(pair) && parts(*origin)
                == site_parts() ==> jar(*final(cookies)) == jar(*old(cookies)).insert(
                site_slot(pair.0),
                site_kept(pair.1),
            ),
{
    let parsed = parse_cookie(text, origin);
    if let Ok(cookie) = parsed {
        insert_raw(cookies, &cookie, origin);
    }
    proof {
        reveal_strlit("http");
        reveal_strlit("https");
        assert("http"@ =~= "https"@.take(4));
    }
}

/// The jar's cookies by their names. Where cookies share a name, one of them is taken.
pub fn cookie_map(cookies: &CookieJar) -> (map: HashMap<String, String>)
    ensures
        reported(map.deep_view(), jar(*cookies)),
{
    let pairs = any_values(cookies);
    let ghost listed = pairs.deep_view();
    let map = collect(pairs);
    proof {
        lemma_listing_is_reported(listed, jar(*cookies));
    }
    map
}

proof fn lemma_listing_is_reported(pairs: Seq<Pair>, jar: Jar)
    requires
        all_cookies(pairs, jar),
    ensures
        reported(dict_of(pairs), jar),
{
    let slots = choose|slots: Seq<Slot>|
        {
            &&& #[trigger] lists(pairs, slots, jar)
            &&& forall|slot: Slot| #[trigger] jar.contains_key(slot) ==> slots.contains(slot)
        };
    let map = dict_of(pairs);
    law_dict_holds_the_pairs(pairs);
    assert forall|slot: Slot| #[trigger] jar.contains_key(slot) implies map.contains_key(
        slot.name,
    ) by {
        let i = choose|i: int| 0 <= i < slots.len() && slots[i] == slot;
        assert(map.contains_key(pairs[i].0));
    }
    assert forall|name: Seq<char>| #[trigger] map.contains_key(name) implies exists|slot: Slot|
        #[trigger]
        jar.contains_key(slot) && slot.name == name && jar[slot].value == map[name] by {
        let i = choose|i: int|
            #![trigger pairs[i]]
            0 <= i < pairs.len() && pairs[i] == (name, map[name]);
        assert(jar.contains_key(slots[i]));
    }
}

/// The text of a `cookie` header.
pub open spec fn cookie_line(pairs: Seq<Pair>) -> Seq<char> {
    assignments(pairs, "; "@)
}

/// Cookies that are sent are picked from some slots of the jar.
proof fn lemma_sent_slots(sent: Seq<Pair>, jar: Jar, url: UrlParts) -> (slots: Seq<Slot>)
    requires
        sent_cookies(sent, jar, url),
    ensures
        lists(sent, slots, jar),
        forall|i: int|
            #![trigger slots[i]]
            0 <= i < slots.len() ==> is_for(slots[i], jar[slots[i]], url) && looked_under(
                slots[i].domain,
                url,
            ),
        forall|slot: Slot| #[trigger]
            jar.contains_key(slot) && jar[slot].session && goes_to(slot, jar[slot], url)
                ==> slots.contains(slot),
{
    let choice = |slot: Slot, kept: Kept|
        is_for(slot, kept, url) && looked_under(slot.domain, url);
    let surely = |slot: Slot, kept: Kept|
        is_for(slot, kept, url) && surely_looked_under(slot.domain, url);
    choose|slots: Seq<Slot>| #[trigger] picked(sent, slots, jar, choice, surely)
}

/// A cookie in the jar that does not expire goes with every request to a URL that it goes to.
pub proof fn law_kept_cookie_is_sent(jar: Jar, slot: Slot, sent: Seq<Pair>, url: UrlParts)
    requires
        jar.contains_key(slot),
        jar[slot].session,
        goes_to(slot, jar[slot], url),
        sent_cookies(sent, jar, url),
    ensures
        sent.contains((slot.name, jar[slot].value)),
{
    let slots = lemma_sent_slots(sent, jar, url);
    let i = choose|i: int| 0 <= i < slots.len() && slots[i] == slot;
    assert(sent[i] == (slot.name, jar[slot].value));
}

/// What a server sets, the client sends back: a cookie that does not expire, and that may be set
/// from where it came, goes with the next request to a URL that it goes to.
pub proof fn law_cookie_is_sent_back(
    before: Jar,
    after: Jar,
    text: Seq<char>,
    origin: UrlParts,
    cookie: Offer,
    sent: Seq<Pair>,
    target: UrlParts,
)
    requires
        parsed_cookie(text, origin) == Some(cookie),
        cookie.kept.session,
        !ipv6_host(origin) || covers(cookie.slot.domain, cookie.kept.host_only, origin),
        is_http(origin) || !(before.contains_key(cookie.slot) && before[cookie.slot].http_only),
        offered(before, after, text, origin),
        goes_to(cookie.slot, cookie.kept, target),
        sent_cookies(sent, after, target),
    ensures
        sent.contains((cookie.slot.name, cookie.kept.value)),
{
    law_kept_cookie_is_sent(after, cookie.slot, sent, target);
}

/// A cookie for all paths that does not expire goes back to the very URL that set it.
pub proof fn law_cookie_is_sent_back_to_its_origin(
    before: Jar,
    after: Jar,
    text: Seq<char>,
    origin: UrlParts,
    cookie: Offer,
    sent: Seq<Pair>,
)
    requires
        well_formed(origin),
        is_web(origin),
        parsed_cookie(text, origin) == Some(cookie),
        cookie.kept.session,
        looked_under(cookie.slot.domain, origin) || named_host(cookie.slot.domain),
        !ipv6_host(origin) || covers(cookie.slot.domain, cookie.kept.host_only, origin),
        cookie.slot.path == "/"@,
        cookie.kept.secure ==> is_secure(origin),
        offered(before, after, text, origin),
        sent_cookies(sent, after, origin),
    ensures
        sent.contains((cookie.slot.name, cookie.kept.value)),
{
    lemma_web_paths(origin);
    law_cookie_is_sent_back(before, after, text, origin, cookie, sent, origin);
}

/// A web URL is one of HTTP, and the path `/` covers its path.
pub proof fn lemma_web_paths(url: UrlParts)
    requires
        well_formed(url),
        is_web(url),
    ensures
        is_http(url),
        path_covers("/"@, url),
{
    reveal_strlit("/");
    reveal_strlit("http");
    reveal_strlit("https");
    assert("http"@ =~= "http"@.take(4));
    assert("http"@ =~= "https"@.take(4));
    assert("/"@ =~= url.path.take(1));
}

/// No cookie goes to a URL that it is not for: what is sent is the name and the value of a cookie
/// in the jar whose domain and path cover that of the URL, and that is not kept from its scheme.
pub proof fn law_only_cookies_for_the_target_are_sent(
    sent: Seq<Pair>,
    jar: Jar,
    url: UrlParts,
    pair: Pair,
)
    requires
        sent_cookies(sent, jar, url),
        sent.contains(pair),
    ensures
        exists|slot: Slot| #[trigger]
            jar.contains_key(slot) && is_for(slot, jar[slot], url) && pair == (
                slot.name,
                jar[slot].value,
            ),
{
    let slots = lemma_sent_slots(sent, jar, url);
    let i = choose|i: int| 0 <= i < sent.len() && sent[i] == pair;
    assert(jar.contains_key(slots[i]));
}

/// Cookies stay away from a host that their domains do not cover.
pub proof fn law_no_cookie_goes_to_a_foreign_host(sent: Seq<Pair>, jar: Jar, url: UrlParts)
    requires
        sent_cookies(sent, jar, url),
        forall|slot: Slot| #[trigger]
            jar.contains_key(slot) ==> !covers(slot.domain, jar[slot].host_only, url),
    ensures
        sent.len() == 0,
{
    if sent.len() > 0 {
        assert(sent.contains(sent[0]));
        law_only_cookies_for_the_target_are_sent(sent, jar, url, sent[0]);
    }
}

/// A secure cookie stays away from a URL that is not secure: where all cookies of a name are
/// secure, none of the name is sent there.
pub proof fn law_secure_cookies_need_a_secure_url(
    sent: Seq<Pair>,
    jar: Jar,
    url: UrlParts,
    pair: Pair,
)
    requires
        sent_cookies(sent, jar, url),
        !is_secure(url),
        forall|slot: Slot| #[trigger]
            jar.contains_key(slot) && slot.name == pair.0 ==> jar[slot].secure,
    ensures
        !sent.contains(pair),
{
    if sent.contains(pair) {
        law_only_cookies_for_the_target_are_sent(sent, jar, url, pair);
    }
}

/// Two reports of one jar are the same where no two of its cookies share a name.
pub proof fn law_cookies_are_reported_alike(
    jar: Jar,
    one: Map<Seq<char>, Seq<char>>,
    other: Map<Seq<char>, Seq<char>>,
)
    requires
        reported(one, jar),
        reported(other, jar),
        forall|a: Slot, b: Slot| #[trigger]
            jar.contains_key(a) && #[trigger] jar.contains_key(b) && a.name == b.name ==> a == b,
    ensures
        one == other,
{
    assert forall|name: Seq<char>| one.contains_key(name) == other.contains_key(name) && (
    one.contains_key(name) ==> one[name] == other[name]) by {
        if one.contains_key(name) {
            let slot = choose|slot: Slot| #[trigger]
                jar.contains_key(slot) && slot.name == name && jar[slot].value == one[name];
            assert(other.contains_key(slot.name));
        }
        if other.contains_key(name) {
            let slot = choose|slot: Slot| #[trigger]
                jar.contains_key(slot) && slot.name == name && jar[slot].value == other[name];
            assert(one.contains_key(slot.name));
        }
    }
    assert(one =~= other);
}

/// Of a jar of one cookie at most, which does not expire, the same is sent each time.
pub proof fn lemma_one_cookie_is_sent_alike(
    jar: Jar,
    url: UrlParts,
    one: Seq<Pair>,
    other: Seq<Pair>,
)
    requires
        forall|x: Slot, y: Slot| #[trigger]
            jar.contains_key(x) && #[trigger] jar.contains_key(y) ==> x == y,
        forall|x: Slot| #[trigger] jar.contains_key(x) ==> jar[x].session,
        sent_cookies(one, jar, url),
        sent_cookies(other, jar, url),
    ensures
        one == other,
{
    let a = lemma_sent_slots(one, jar, url);
    let b = lemma_sent_slots(other, jar, url);
    assert(a.len() <= 1) by {
        if a.len() > 1 {
            assert(jar.contains_key(a[0]) && jar.contains_key(a[1]));
        }
    }
    assert(b.len() <= 1) by {
        if b.len() > 1 {
            assert(jar.contains_key(b[0]) && jar.contains_key(b[1]));
        }
    }
    if a.len() == 1 {
        assert(jar.contains_key(a[0]) && b.contains(a[0]));
    }
    if b.len() == 1 {
        assert(jar.contains_key(b[0]) && a.contains(b[0]));
    }
    assert(one =~= other);
}

/// Offering a cookie touches its own slot alone.
pub proof fn law_offer_touches_one_slot(
    before: Jar,
    after: Jar,
    text: Seq<char>,
    origin: UrlParts,
    other: Slot,
)
    requires
        offered(before, after, text, origin),
        parsed_cookie(text, origin) matches Some(offer) ==> offer.slot != other,
    ensures
        after.contains_key(other) == before.contains_key(other),
        before.contains_key(other) ==> after[other] == before[other],
{
}

/// A cookie that is sure to be refused changes nothing.
pub proof fn law_refused_cookie_changes_nothing(
    before: Jar,
    after: Jar,
    text: Seq<char>,
    origin: UrlParts,
    cookie: Offer,
)
    requires
        parsed_cookie(text, origin) == Some(cookie),
        refused(before, cookie.slot, cookie.kept, origin),
        offered(before, after, text, origin),
    ensures
        after == before,
{
}

/// A jar loses no cookie by an offer: every slot that was filled stays so.
pub proof fn law_offer_empties_no_slot(
    before: Jar,
    after: Jar,
    text: Seq<char>,
    origin: UrlParts,
    slot: Slot,
)
    requires
        offered(before, after, text, origin),
        before.contains_key(slot),
    ensures
        after.contains_key(slot),
{
}

/// No cookie is sent twice: two pieces of what is sent come from two slots of the jar.
pub proof fn law_no_cookie_is_sent_twice(
    sent: Seq<Pair>,
    jar: Jar,
    url: UrlParts,
    i: int,
    j: int,
)
    requires
        sent_cookies(sent, jar, url),
        0 <= i < j < sent.len(),
    ensures
        exists|a: Slot, b: Slot|
            a != b && #[trigger] jar.contains_key(a) && #[trigger] jar.contains_key(b) && sent[i]
                == (a.name, jar[a].value) && sent[j] == (b.name, jar[b].value),
{
    let slots = lemma_sent_slots(sent, jar, url);
    assert(jar.contains_key(slots[i]) && jar.contains_key(slots[j]));
}

/// The `cookie` header parts at `;` into one piece for each cookie, in their order: the name, `=`
/// and the value, with a space before each but the first. It is empty where there are none.
pub proof fn law_cookie_line_splits_into_its_cookies(cookies: Seq<Pair>)
    requires
        forall|i: int|
            0 <= i < cookies.len() ==> !(#[trigger] cookies[i]).0.contains(';')
                && !cookies[i].1.contains(';'),
    ensures
        cookies.len() == 0 ==> cookie_line(cookies).len() == 0,
        cookies.len() > 0 ==> split(cookie_line(cookies), ';').len() == cookies.len(),
        forall|i: int|
            0 <= i < cookies.len() ==> #[trigger] split(cookie_line(cookies), ';')[i] == (if i
                == 0 {
                Seq::empty()
            } else {
                " "@
            }) + cookies[i].0 + "="@ + cookies[i].1,
    decreases cookies.len(),
{
    reveal_strlit(" ");
    reveal_strlit("=");
    reveal_strlit("; ");
    if cookies.len() > 0 {
        let rest = cookies.drop_last();
        let last = cookies.last();
        assert(last == cookies[cookies.len() - 1]);
        assert(forall|i: int| 0 <= i < rest.len() ==> (#[trigger] rest[i]) == cookies[i]);
        law_cookie_line_splits_into_its_cookies(rest);
        assert(cookies =~= rest.push(last));
        law_one_pair_more_is_written_after_the_others(rest, last, "; "@);
        let front = if rest.len() == 0 {
            Seq::empty()
        } else {
            " "@
        };
        let piece = front + last.0 + "="@ + last.1;
        assert forall|k: int| 0 <= k < piece.len() implies piece[k] != ';' by {
            let start = front.len();
            if k < start {
                assert(piece[k] == front[k]);
            } else if k < start + last.0.len() {
                assert(piece[k] == last.0[k - start]);
            } else if k > start + last.0.len() {
                assert(piece[k] == last.1[k - start - last.0.len() - 1]);
            } else {
                assert(piece[k] == '=');
            }
        }
        if rest.len() == 0 {
            assert(cookie_line(cookies) =~= piece);
            lemma_split_without_mark(piece, ';');
        } else {
            assert(cookie_line(cookies) =~= cookie_line(rest) + seq![';'] + piece);
            lemma_split_at_last_mark(cookie_line(rest), piece, ';');
        }
    }
}

/// One cookie more is written after the others, however many there were.
pub proof fn law_one_cookie_more_is_written_after_the_others(cookies: Seq<Pair>, cookie: Pair)
    ensures
        cookies.len() == 0 ==> cookie_line(cookies.push(cookie)) == cookie.0 + "="@ + cookie.1,
        cookies.len() > 0 ==> cookie_line(cookies.push(cookie)) == cookie_line(cookies) + "; "@
            + cookie.0 + "="@ + cookie.1,
{
    law_one_pair_more_is_written_after_the_others(cookies, cookie, "; "@);
}

/// A report has every name that a cookie of the jar has, expired or not, and no other; and the
/// value it gives to a name is that of a cookie of the name.
pub proof fn law_a_report_has_the_names_of_the_jar(
    map: Map<Seq<char>, Seq<char>>,
    jar: Jar,
    name: Seq<char>,
)
    requires
        reported(map, jar),
    ensures
        map.contains_key(name) <==> exists|slot: Slot| #[trigger]
            jar.contains_key(slot) && slot.name == name,
        map.contains_key(name) ==> exists|slot: Slot| #[trigger]
            jar.contains_key(slot) && slot.name == name && jar[slot].value == map[name],
{
}

/// Texts that are offered one after the other: none of them changes nothing, and one more is
/// offered to what the others made of the jar.
pub proof fn law_texts_are_offered_one_after_the_other(
    before: Jar,
    after: Jar,
    texts: Seq<Seq<char>>,
    text: Seq<char>,
    url: UrlParts,
)
    ensures
        texts.len() == 0 ==> (all_offered(before, after, texts, url) <==> after == before),
        all_offered(before, after, texts.push(text), url) <==> exists|between: Jar|
            all_offered(before, between, texts, url) && #[trigger] offered(
                between,
                after,
                text,
                url,
            ),
{
    assert(texts.push(text).drop_last() =~= texts);
    assert(texts.push(text).last() == text);
}

/// What an offer can do: it is refused and changes nothing, or the cookie is in its slot as it was
/// read, or what was in that slot has expired and is otherwise as it was.
pub proof fn law_an_offer_keeps_refuses_or_expires(
    before: Jar,
    after: Jar,
    text: Seq<char>,
    origin: UrlParts,
)
    requires
        offered(before, after, text, origin),
    ensures
        parsed_cookie(text, origin) is None ==> after == before,
        parsed_cookie(text, origin) matches Some(cookie) ==> after == before || (
        after.contains_key(cookie.slot) && (after[cookie.slot] == cookie.kept
            || before.contains_key(cookie.slot) && !after[cookie.slot].session
            && after[cookie.slot].value == before[cookie.slot].value)),
{
}

} // verus!
