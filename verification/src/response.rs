//! Responses.

use crate::decode::{
    body_text, brotli_decoded, byte_slice, content, contents, decode_body_with_encoding,
    deflate_decoded, gzip_decoded, is_decodable, law_an_uncoded_body_is_left_alone,
    law_coded_utf8_is_read_back, law_the_first_coding_alone_decides, law_utf8_is_read_back,
    plain_content, readable, text_of_content, text_view, utf8_text,
};
use crate::header_list::{
    empty_list, field_slice, fields, first_value, get_header_value, push_field, HeaderList,
};
use crate::json::{
    faithful, given, json_of, json_parse, json_view, opened, read_json, Json, JsonView,
};
use crate::pairs::{collect, dict_of, Pair};
use bytes::Bytes;
use std::collections::HashMap;
use vstd::prelude::*;
use vstd::utf8::encode_utf8;

verus! {

/// A response: its status, its headers in the order in which they came, and its body as it came.
pub struct Response {
    status: u16,
    headers: HeaderList,
    body: Bytes,
}

/// A response, by its views.
pub struct ResponseView {
    pub status: u16,
    pub headers: Seq<Pair>,
    pub body: Seq<u8>,
}

impl View for Response {
    type V = ResponseView;

    closed spec fn view(&self) -> ResponseView {
        ResponseView {
            status: self.status,
            headers: fields(self.headers),
            body: contents(self.body),
        }
    }
}

impl ResponseView {
    /// The body's text can be had, once its content coding is undone.
    pub open spec fn readable(self) -> bool {
        readable(self.body, self.headers)
    }

    /// The body's text, or the error text of the decoder that failed.
    pub open spec fn text(self) -> Result<Seq<char>, Seq<char>> {
        body_text(self.body, self.headers)
    }

    /// The body's JSON value, or the error text of what failed.
    pub open spec fn json(self) -> Result<JsonView, Seq<char>> {
        match self.text() {
            Ok(text) => json_of(text),
            Err(message) => Err(message),
        }
    }
}

/// The bytes that a header value may hold to be text: visible ASCII, the space and the tab.
pub open spec fn visible(byte: u8) -> bool {
    32 <= byte < 127 || byte == 9
}

/// The text of a header value. One that holds anything but visible ASCII, spaces and tabs counts as
/// empty.
pub open spec fn value_text(value: Seq<u8>) -> Seq<char> {
    if forall|i: int| 0 <= i < value.len() ==> visible(#[trigger] value[i]) {
        value.map_values(|byte: u8| byte as char)
    } else {
        Seq::empty()
    }
}

/// Reads the value of a received header.
pub fn header_text(value: &[u8]) -> (text: String)
    ensures
        text@ == value_text(value@),
{
    for i in 0..value.len()
        invariant
            forall|j: int| 0 <= j < i ==> visible(#[trigger] value@[j]),
    {
        let byte = value[i];
        if !(32 <= byte && byte < 127 || byte == 9) {
            assert(!visible(value@[i as int]));
            return String::new();
        }
    }
    proof {
        let chars = value@.map_values(|byte: u8| byte as char);
        assert(vstd::utf8::is_ascii_chars(chars));
        vstd::utf8::is_ascii_chars_encode_utf8(chars);
        assert(encode_utf8(chars) =~= value@);
        vstd::utf8::encode_utf8_valid_utf8(chars);
        vstd::utf8::encode_utf8_decode_utf8(chars);
    }
    match utf8_text(value) {
        Some(text) => text,
        None => String::new(),
    }
}

/// The received header fields with their values as text.
pub open spec fn received_text(received: Seq<(Seq<char>, Seq<u8>)>) -> Seq<Pair> {
    received.map_values(|field: (Seq<char>, Seq<u8>)| (field.0, value_text(field.1)))
}

/// Reads the header fields of a response, in the order in which they came.
pub fn response_headers(received: &[(String, Vec<u8>)]) -> (headers: HeaderList)
    ensures
        fields(headers) == received_text(received.deep_view()),
{
    let ghost goal = received_text(received.deep_view());
    let mut headers = empty_list();
    for i in 0..received.len()
        invariant
            goal == received_text(received.deep_view()),
            fields(headers) =~= goal.take(i as int),
    {
        let field = (received[i].0.clone(), header_text(received[i].1.as_slice()));
        assert(received[i as int].1.deep_view() =~= received[i as int].1@);
        assert(field.deep_view() == goal[i as int]);
        push_field(&mut headers, field);
        assert(goal.take(i as int).push(goal[i as int]) =~= goal.take(i + 1));
    }
    assert(fields(headers) =~= goal);
    headers
}

impl Response {
    /// A response of these parts.
    pub fn new(status: u16, headers: HeaderList, body: Bytes) -> (response: Self)
        ensures
            response@ == (ResponseView {
                status,
                headers: fields(headers),
                body: contents(body),
            }),
    {
        Response { status, headers, body }
    }

    /// The status code.
    pub fn status(&self) -> (status: u16)
        ensures
            status == self@.status,
    {
        self.status
    }

    /// The headers by their names. Of a name that came more than once, the last value is given.
    pub fn headers(&self) -> (map: HashMap<String, String>)
        ensures
            map.deep_view() == dict_of(self@.headers),
    {
        let slice = field_slice(&self.headers);
        let mut pairs: Vec<(String, String)> = Vec::new();
        for i in 0..slice.len()
            invariant
                pairs.deep_view() =~= slice.deep_view().take(i as int),
        {
            let ghost before = pairs.deep_view();
            pairs.push((slice[i].0.clone(), slice[i].1.clone()));
            assert(pairs.deep_view() =~= before.push(slice.deep_view()[i as int]));
            assert(before.push(slice.deep_view()[i as int]) =~= slice.deep_view().take(i + 1));
        }
        assert(pairs.deep_view() =~= slice.deep_view());
        collect(pairs)
    }

    /// The body as text.
    pub fn text(&self) -> (text: Result<String, String>)
        requires
            self@.readable(),
        ensures
            text_view(text) == self@.text(),
    {
        decode_body_with_encoding(&self.body, &self.headers)
    }

    /// The body as JSON.
    pub fn json(&self) -> (json: Result<Json, String>)
        requires
            self@.readable(),
        ensures
            json_view(json) == self@.json(),
            json matches Ok(json) ==> faithful(json@, json_parse(self@.text()->Ok_0)->Ok_0),
    {
        match self.text() {
            Ok(text) => read_json(text.as_str()),
            Err(message) => Err(message),
        }
    }

    /// Whether the body is as it was sent: its headers name no content coding.
    fn is_uncoded(&self) -> (yes: bool)
        ensures
            yes == (first_value(self@.headers, "content-encoding"@) is None),
    {
        get_header_value(&self.headers, "content-encoding").is_none()
    }

    /// The text of a body with a content coding, which is undone once, or nothing where that text
    /// cannot be had.
    fn coded_text(&self) -> (text: Option<Result<String, String>>)
        ensures
            text is Some == self@.readable(),
            text is Some ==> text_view(text->0) == self@.text(),
    {
        let plain = plain_content(byte_slice(&self.body), &self.headers);
        let decodable = match &plain {
            Ok(bytes) => is_decodable(bytes.as_slice()),
            Err(_) => true,
        };
        if decodable {
            Some(text_of_content(plain))
        } else {
            None
        }
    }

    /// The body as text, or nothing where that text cannot be had.
    pub fn try_text(&self) -> (text: Option<Result<String, String>>)
        ensures
            text is Some == self@.readable(),
            text is Some ==> text_view(text->0) == self@.text(),
    {
        if !self.is_uncoded() {
            self.coded_text()
        } else if is_decodable(byte_slice(&self.body)) {
            Some(self.text())
        } else {
            None
        }
    }

    /// The body as JSON, or nothing where its text cannot be had.
    pub fn try_json(&self) -> (json: Option<Result<Json, String>>)
        ensures
            json is Some == self@.readable(),
            json is Some ==> json_view(json->0) == self@.json(),
            json matches Some(Ok(json)) ==> faithful(
                json@,
                json_parse(self@.text()->Ok_0)->Ok_0,
            ),
    {
        if !self.is_uncoded() {
            match self.coded_text() {
                Some(Ok(text)) => Some(read_json(text.as_str())),
                Some(Err(message)) => Some(Err(message)),
                None => None,
            }
        } else if is_decodable(byte_slice(&self.body)) {
            Some(self.json())
        } else {
            None
        }
    }
}

/// A received header is the same header as text: the fields keep their places and their names, and
/// a value of visible ASCII, spaces and tabs keeps every byte as a character; any other value
/// counts as empty.
pub proof fn law_received_headers_are_kept(received: Seq<(Seq<char>, Seq<u8>)>, i: int)
    ensures
        received_text(received).len() == received.len(),
        0 <= i < received.len() ==> received_text(received)[i].0 == received[i].0,
        0 <= i < received.len() && (forall|j: int|
            0 <= j < received[i].1.len() ==> 32 <= #[trigger] received[i].1[j] < 127
                || received[i].1[j] == 9) ==> received_text(received)[i].1.len()
            == received[i].1.len() && forall|j: int|
            0 <= j < received[i].1.len() ==> (#[trigger] received_text(received)[i].1[j]) as u32
                == received[i].1[j] as u32,
        0 <= i < received.len() && (exists|j: int|
            0 <= j < received[i].1.len() && !(32 <= #[trigger] received[i].1[j] < 127)
                && received[i].1[j] != 9) ==> received_text(received)[i].1.len() == 0,
{
    if 0 <= i < received.len() {
        let value = received[i].1;
        if exists|j: int|
            0 <= j < value.len() && !(32 <= #[trigger] value[j] < 127) && value[j] != 9 {
            let j = choose|j: int|
                0 <= j < value.len() && !(32 <= #[trigger] value[j] < 127) && value[j] != 9;
            assert(!visible(value[j]));
        }
    }
}

/// Text that a server sent as UTF-8 is the text of its response: as it came where no content coding
/// is named, and under `gzip`, `deflate` or `br` where the decoder gives the text's bytes back,
/// whatever other headers there are.
pub proof fn law_a_response_gives_the_text_that_was_sent(
    response: ResponseView,
    text: Seq<char>,
    i: int,
)
    ensures
        (forall|j: int|
            0 <= j < response.headers.len() ==> (#[trigger] response.headers[j]).0
                != "content-encoding"@) && response.body == encode_utf8(text) ==> response.text()
            == Ok::<Seq<char>, Seq<char>>(text),
        0 <= i < response.headers.len() && response.headers[i].0 == "content-encoding"@ && (forall|
            j: int,
        |
            0 <= j < i ==> (#[trigger] response.headers[j]).0 != "content-encoding"@) && (
        response.headers[i].1 == "gzip"@ && gzip_decoded(response.body) == Ok::<
            Seq<u8>,
            Seq<char>,
        >(encode_utf8(text)) || response.headers[i].1 == "deflate"@ && deflate_decoded(
            response.body,
        ) == Ok::<Seq<u8>, Seq<char>>(encode_utf8(text)) || response.headers[i].1 == "br"@
            && brotli_decoded(response.body) == Ok::<Seq<u8>, Seq<char>>(encode_utf8(text)))
            ==> response.text() == Ok::<Seq<char>, Seq<char>>(text) && response.readable(),
{
    law_utf8_is_read_back(text);
    if forall|j: int|
        0 <= j < response.headers.len() ==> (#[trigger] response.headers[j]).0
            != "content-encoding"@ {
        law_an_uncoded_body_is_left_alone(response.body, response.headers);
    }
    if 0 <= i < response.headers.len() && response.headers[i].0 == "content-encoding"@ && (forall|
        j: int,
    |
        0 <= j < i ==> (#[trigger] response.headers[j]).0 != "content-encoding"@) {
        law_the_first_coding_alone_decides(response.body, response.headers, i);
        if content(response.body, response.headers) == Ok::<Seq<u8>, Seq<char>>(
            encode_utf8(text),
        ) {
            law_coded_utf8_is_read_back(text, response.body, response.headers);
        }
    }
}

/// The JSON of a response is that of its text: an error of the text's decoder or of the parser is
/// handed on, and otherwise what is given is what the parsed value holds.
pub proof fn law_a_response_gives_the_json_of_its_text(response: ResponseView)
    ensures
        response.text() matches Err(message) ==> response.json() == Err::<JsonView, Seq<char>>(
            message,
        ),
        response.text() matches Ok(text) ==> (json_parse(text) matches Err(message)
            ==> response.json() == Err::<JsonView, Seq<char>>(message)),
        response.text() matches Ok(text) ==> (json_parse(text) matches Ok(value)
            ==> response.json() == Ok::<JsonView, Seq<char>>(given(opened(value)))),
        response.text() == body_text(response.body, response.headers),
        response.readable() == readable(response.body, response.headers),
{
}

} // verus!
