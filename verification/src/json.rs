//! JSON bodies, opened one level deep.

use crate::pairs::{collect, dict_of, distinct_names, enumerates, law_dict_holds_the_pairs, Pair};
use serde_json::{Number, Value};
use std::collections::HashMap;
use vstd::prelude::*;

verus! {

/// `serde_json::Value`, carried as an opaque value.
#[verifier::external_type_specification]
#[verifier::external_body]
pub struct ExValue(serde_json::Value);

/// `serde_json::Number`, carried as an opaque value.
#[verifier::external_type_specification]
#[verifier::external_body]
pub struct ExNumber(serde_json::Number);

/// A JSON value, opened: the values inside an array or an object are as they were.
pub enum Document {
    Null,
    Bool(bool),
    Number(Number),
    Text(String),
    Array(Vec<Value>),
    Object(Vec<(String, Value)>),
}

/// A name and a JSON value.
pub type Member = (Seq<char>, Value);

/// A document, by its views.
pub enum DocumentView {
    Null,
    Bool(bool),
    Number(Number),
    Text(Seq<char>),
    Array(Seq<Value>),
    Object(Seq<Member>),
}

impl View for Document {
    type V = DocumentView;

    open spec fn view(&self) -> DocumentView {
        match self {
            Document::Null => DocumentView::Null,
            Document::Bool(b) => DocumentView::Bool(*b),
            Document::Number(n) => DocumentView::Number(*n),
            Document::Text(text) => DocumentView::Text(text@),
            Document::Array(items) => DocumentView::Array(items@),
            Document::Object(members) => DocumentView::Object(
                members@.map_values(|member: (String, Value)| (member.0@, member.1)),
            ),
        }
    }
}

/// What a caller is given for a JSON document.
pub enum Json {
    Null,
    Bool(bool),
    Int(i64),
    /// A number of double precision, by its bits.
    Float(u64),
    Text(String),
    /// The JSON texts of an array's items.
    List(Vec<String>),
    /// The JSON texts of an object's members, by their names.
    Dict(HashMap<String, String>),
}

/// What a caller is given, by its views.
pub enum JsonView {
    Null,
    Bool(bool),
    Int(i64),
    Float(u64),
    Text(Seq<char>),
    List(Seq<Seq<char>>),
    Dict(Map<Seq<char>, Seq<char>>),
}

impl View for Json {
    type V = JsonView;

    open spec fn view(&self) -> JsonView {
        match self {
            Json::Null => JsonView::Null,
            Json::Bool(b) => JsonView::Bool(*b),
            Json::Int(i) => JsonView::Int(*i),
            Json::Float(bits) => JsonView::Float(*bits),
            Json::Text(text) => JsonView::Text(text@),
            Json::List(items) => JsonView::List(items.deep_view()),
            Json::Dict(members) => JsonView::Dict(members.deep_view()),
        }
    }
}

/// What `serde_json::from_str` reads in a text: a value, or the text of its error.
pub uninterp spec fn json_parse(text: Seq<char>) -> Result<Value, Seq<char>>;

/// What a value is: its variant and what is directly in it.
pub uninterp spec fn opened(value: Value) -> DocumentView;

/// The compact JSON text of a value (`Value::to_string`).
pub uninterp spec fn json_text(value: Value) -> Seq<char>;

/// A number as an integer of 64 bits with a sign, where it is one (`Number::as_i64`).
pub uninterp spec fn number_whole(number: Number) -> Option<i64>;

/// The bits of a number of double precision, where it can be had so (`Number::as_f64`).
pub uninterp spec fn number_bits(number: Number) -> Option<u64>;

/// A number as JSON has it (`Number::to_string`).
pub uninterp spec fn number_text(number: Number) -> Seq<char>;

/// How deep arrays and objects may stand in each other in a text that is read.
pub open spec fn depth_limit() -> nat {
    127
}

/// Arrays and objects stand in each other `depth` deep at most.
pub open spec fn nested(value: Value, depth: nat) -> bool
    decreases depth,
{
    match opened(value) {
        DocumentView::Array(items) => depth > 0 && forall|i: int|
            0 <= i < items.len() ==> nested(#[trigger] items[i], (depth - 1) as nat),
        DocumentView::Object(members) => depth > 0 && forall|i: int|
            0 <= i < members.len() ==> nested((#[trigger] members[i]).1, (depth - 1) as nat),
        _ => true,
    }
}

/// A number that is written with digits alone, and a sign where it has one.
pub open spec fn whole_number(number: Number) -> bool {
    forall|i: int|
        0 <= i < number_text(number).len() ==> '0' <= #[trigger] number_text(number)[i] <= '9'
            || number_text(number)[i] == '-'
}

/// No number in the value is a floating-point number, as far as `depth` deep.
pub open spec fn floatless(value: Value, depth: nat) -> bool
    decreases depth,
{
    match opened(value) {
        DocumentView::Number(number) => whole_number(number),
        DocumentView::Array(items) => depth > 0 ==> forall|i: int|
            0 <= i < items.len() ==> floatless(#[trigger] items[i], (depth - 1) as nat),
        DocumentView::Object(members) => depth > 0 ==> forall|i: int|
            0 <= i < members.len() ==> floatless((#[trigger] members[i]).1, (depth - 1) as nat),
        _ => true,
    }
}

/// A text from which the value can be read again.
pub open spec fn reads_back(text: Seq<char>, value: Value) -> bool {
    json_parse(text) == Ok::<Value, Seq<char>>(value)
}

/// The names of an object's members are distinct.
pub open spec fn distinct_members(document: DocumentView) -> bool {
    document matches DocumentView::Object(members) ==> forall|i: int, j: int|
        #![trigger members[i], members[j]]
        0 <= i < j < members.len() ==> members[i].0 != members[j].0
}

/// `serde_json::from_str` into a `Value`. The result is named; stated of it is that it nests no
/// deeper than the limit of the parser.
#[verifier::external_body]
fn parse_value(text: &str) -> (value: Result<Value, String>)
    ensures
        value is Ok ==> json_parse(text@) is Ok && json_parse(text@)->Ok_0 == value->Ok_0,
        value is Err ==> json_parse(text@) is Err && json_parse(text@)->Err_0 == value->Err_0@,
        value is Ok ==> nested(value->Ok_0, depth_limit()),
{
    serde_json::from_str(text).map_err(|e| e.to_string())
}

/// A `Value` told apart by its variants. What is in it is named; stated of it is that an object has
/// each name once.
#[verifier::external_body]
fn open_value(value: Value) -> (document: Document)
    ensures
        document@ == opened(value),
        distinct_members(document@),
{
    match value {
        Value::Null => Document::Null,
        Value::Bool(b) => Document::Bool(b),
        Value::Number(n) => Document::Number(n),
        Value::String(text) => Document::Text(text),
        Value::Array(items) => Document::Array(items),
        Value::Object(members) => Document::Object(members.into_iter().collect()),
    }
}

/// `Value::to_string`, of a value that does not nest too deep to be walked. The text is named;
/// stated of it is that the value is read from it again, unless it holds floating-point numbers,
/// which may change their last digit.
#[verifier::external_body]
fn value_text(value: &Value) -> (text: String)
    requires
        nested(*value, depth_limit()),
    ensures
        text@ == json_text(*value),
        floatless(*value, depth_limit()) ==> reads_back(text@, *value),
{
    value.to_string()
}

/// `Number::as_i64`. The result is named.
#[verifier::external_body]
fn whole_of(number: &Number) -> (whole: Option<i64>)
    ensures
        whole == number_whole(*number),
{
    number.as_i64()
}

/// `Number::as_f64`, by its bits. The result is named.
#[verifier::external_body]
fn bits_of(number: &Number) -> (bits: Option<u64>)
    ensures
        bits == number_bits(*number),
{
    number.as_f64().map(|x| x.to_bits())
}

/// `Number::to_string`. The result is named.
#[verifier::external_body]
fn text_of(number: &Number) -> (text: String)
    ensures
        text@ == number_text(*number),
{
    number.to_string()
}

/// The JSON texts of an array's items, in their order.
pub open spec fn item_texts(items: Seq<Value>) -> Seq<Seq<char>> {
    items.map_values(|item: Value| json_text(item))
}

/// The names of an object's members, each with the JSON text of its value.
pub open spec fn member_texts(members: Seq<Member>) -> Seq<Pair> {
    members.map_values(|member: Member| (member.0, json_text(member.1)))
}

/// What a caller is given for a document: a number is an integer where it is one, of double
/// precision where it can be had so, and text otherwise; what is inside an array or an object is
/// given as JSON text.
pub open spec fn given(document: DocumentView) -> JsonView {
    match document {
        DocumentView::Null => JsonView::Null,
        DocumentView::Bool(b) => JsonView::Bool(b),
        DocumentView::Number(n) => match (number_whole(n), number_bits(n)) {
            (Some(i), _) => JsonView::Int(i),
            (None, Some(bits)) => JsonView::Float(bits),
            (None, None) => JsonView::Text(number_text(n)),
        },
        DocumentView::Text(text) => JsonView::Text(text),
        DocumentView::Array(items) => JsonView::List(item_texts(items)),
        DocumentView::Object(members) => JsonView::Dict(dict_of(member_texts(members))),
    }
}

/// The values inside a document do not nest too deep.
pub open spec fn shallow(document: DocumentView) -> bool {
    match document {
        DocumentView::Array(items) => forall|i: int|
            0 <= i < items.len() ==> nested(#[trigger] items[i], depth_limit()),
        DocumentView::Object(members) => forall|i: int|
            0 <= i < members.len() ==> nested((#[trigger] members[i]).1, depth_limit()),
        _ => true,
    }
}

/// The value can be read from its JSON text, unless there are floating-point numbers in it.
pub open spec fn text_reads_back(value: Value) -> bool {
    floatless(value, depth_limit()) ==> reads_back(json_text(value), value)
}

/// The values inside a document can be read from their JSON texts.
pub open spec fn insides_read_back(document: DocumentView) -> bool {
    match document {
        DocumentView::Array(items) => forall|i: int|
            0 <= i < items.len() ==> text_reads_back(#[trigger] items[i]),
        DocumentView::Object(members) => forall|i: int|
            0 <= i < members.len() ==> text_reads_back((#[trigger] members[i]).1),
        _ => true,
    }
}

/// Writes the items of an array as JSON texts, in their order.
fn list_items(items: &Vec<Value>) -> (texts: Vec<String>)
    requires
        shallow(DocumentView::Array(items@)),
    ensures
        texts.deep_view() == item_texts(items@),
        insides_read_back(DocumentView::Array(items@)),
{
    let ghost whole = items@;
    let mut texts: Vec<String> = Vec::new();
    for i in 0..items.len()
        invariant
            whole == items@,
            shallow(DocumentView::Array(whole)),
            texts.deep_view() =~= item_texts(whole).take(i as int),
            forall|j: int| 0 <= j < i ==> text_reads_back(#[trigger] whole[j]),
    {
        let ghost before = texts.deep_view();
        assert(nested(DocumentView::Array(whole)->Array_0[i as int], depth_limit()));
        texts.push(value_text(&items[i]));
        assert(texts.deep_view() =~= before.push(item_texts(whole)[i as int]));
        assert(before.push(item_texts(whole)[i as int]) =~= item_texts(whole).take(i + 1));
    }
    texts
}

/// Writes the members of an object as JSON texts, in their order, each with its name.
fn list_members(members: &Vec<(String, Value)>) -> (texts: Vec<(String, String)>)
    requires
        shallow(Document::Object(*members)@),
    ensures
        texts.deep_view() == member_texts(Document::Object(*members)@->Object_0),
        insides_read_back(Document::Object(*members)@),
{
    let ghost whole = Document::Object(*members)@->Object_0;
    let mut texts: Vec<(String, String)> = Vec::new();
    for i in 0..members.len()
        invariant
            whole == Document::Object(*members)@->Object_0,
            shallow(DocumentView::Object(whole)),
            texts.deep_view() =~= member_texts(whole).take(i as int),
            forall|j: int| 0 <= j < i ==> text_reads_back((#[trigger] whole[j]).1),
    {
        let ghost before = texts.deep_view();
        assert(nested(whole[i as int].1, depth_limit()));
        texts.push((members[i].0.clone(), value_text(&members[i].1)));
        assert(texts.deep_view() =~= before.push(member_texts(whole)[i as int]));
        assert(before.push(member_texts(whole)[i as int]) =~= member_texts(whole).take(i + 1));
    }
    texts
}

/// Makes of a document what a caller is given.
pub fn give(document: Document) -> (json: Json)
    requires
        shallow(document@),
    ensures
        json@ == given(document@),
        insides_read_back(document@),
{
    match document {
        Document::Null => Json::Null,
        Document::Bool(b) => Json::Bool(b),
        Document::Number(n) => {
            if let Some(i) = whole_of(&n) {
                Json::Int(i)
            } else if let Some(bits) = bits_of(&n) {
                Json::Float(bits)
            } else {
                Json::Text(text_of(&n))
            }
        },
        Document::Text(text) => Json::Text(text),
        Document::Array(items) => Json::List(list_items(&items)),
        Document::Object(members) => Json::Dict(collect(list_members(&members))),
    }
}

/// What a caller is given for a text: what its document gives, or the text of the error where it
/// is no JSON.
pub open spec fn json_of(text: Seq<char>) -> Result<JsonView, Seq<char>> {
    match json_parse(text) {
        Ok(value) => Ok(given(opened(value))),
        Err(message) => Err(message),
    }
}

/// A value or an error text, by their views.
pub open spec fn json_view(result: Result<Json, String>) -> Result<JsonView, Seq<char>> {
    match result {
        Ok(json) => Ok(json@),
        Err(message) => Err(message@),
    }
}

/// Nothing of a value is lost in what a caller is given for it. A list has the JSON text of every
/// item, in the items' order, and a dict has the JSON text of every member under its name; and each
/// of them that holds no floating-point number is read back as that item or member.
pub open spec fn faithful(json: JsonView, value: Value) -> bool {
    match (opened(value), json) {
        (DocumentView::Array(items), JsonView::List(texts)) => {
            &&& texts.len() == items.len()
            &&& forall|i: int|
                0 <= i < items.len() ==> texts[i] == json_text(#[trigger] items[i])
            &&& forall|i: int|
                0 <= i < items.len() && (floatless(value, depth_limit()) || floatless(
                    #[trigger] items[i],
                    depth_limit(),
                )) ==> reads_back(texts[i], items[i])
        },
        (DocumentView::Object(members), JsonView::Dict(map)) => {
            &&& enumerates(member_texts(members), map)
            &&& forall|i: int|
                0 <= i < members.len() ==> map.contains_key((#[trigger] members[i]).0)
                    && map[members[i].0] == json_text(members[i].1)
            &&& forall|name: Seq<char>| #[trigger]
                map.contains_key(name) ==> exists|i: int|
                    0 <= i < members.len() && (#[trigger] members[i]).0 == name
            &&& forall|i: int|
                0 <= i < members.len() && (floatless(value, depth_limit()) || floatless(
                    (#[trigger] members[i]).1,
                    depth_limit(),
                )) ==> reads_back(map[members[i].0], members[i].1)
        },
        (DocumentView::Array(_), _) | (DocumentView::Object(_), _) => false,
        _ => true,
    }
}

/// Reads a text as JSON.
pub fn read_json(text: &str) -> (json: Result<Json, String>)
    ensures
        json_view(json) == json_of(text@),
        json matches Ok(json) ==> faithful(json@, json_parse(text@)->Ok_0),
{
    match parse_value(text) {
        Ok(value) => {
            let document = open_value(value);
            proof {
                lemma_insides_are_shallow(value);
            }
            let json = give(document);
            proof {
                if let DocumentView::Array(items) = opened(value) {
                    law_items_are_given_as_their_json_texts(opened(value), items);
                }
                if let DocumentView::Object(members) = opened(value) {
                    law_members_are_given_as_their_json_texts(opened(value), members);
                    lemma_members_are_enumerated(members);
                }
            }
            Ok(json)
        },
        Err(message) => Err(message),
    }
}

/// What is said of a value to some depth holds to one more.
proof fn lemma_one_deeper(value: Value, depth: nat)
    requires
        nested(value, depth),
    ensures
        nested(value, depth + 1),
        floatless(value, depth) ==> floatless(value, depth + 1),
    decreases depth,
{
    match opened(value) {
        DocumentView::Array(items) => {
            assert forall|i: int| 0 <= i < items.len() implies nested(#[trigger] items[i], depth)
                && (floatless(value, depth) ==> floatless(items[i], depth)) by {
                lemma_one_deeper(items[i], (depth - 1) as nat);
            }
        },
        DocumentView::Object(members) => {
            assert forall|i: int|
                0 <= i < members.len() implies nested((#[trigger] members[i]).1, depth) && (
            floatless(value, depth) ==> floatless(members[i].1, depth)) by {
                lemma_one_deeper(members[i].1, (depth - 1) as nat);
            }
        },
        _ => {},
    }
}

/// What is inside a value that was read does not nest too deep, and holds floating-point numbers
/// only where the value does.
proof fn lemma_insides_are_shallow(value: Value)
    requires
        nested(value, depth_limit()),
    ensures
        shallow(opened(value)),
        floatless(value, depth_limit()) ==> match opened(value) {
            DocumentView::Array(items) => forall|i: int|
                0 <= i < items.len() ==> floatless(#[trigger] items[i], depth_limit()),
            DocumentView::Object(members) => forall|i: int|
                0 <= i < members.len() ==> floatless((#[trigger] members[i]).1, depth_limit()),
            _ => true,
        },
{
    let less = (depth_limit() - 1) as nat;
    match opened(value) {
        DocumentView::Array(items) => {
            assert forall|i: int|
                0 <= i < items.len() implies nested(#[trigger] items[i], depth_limit()) && (
            floatless(value, depth_limit()) ==> floatless(items[i], depth_limit())) by {
                lemma_one_deeper(items[i], less);
            }
        },
        DocumentView::Object(members) => {
            assert forall|i: int|
                0 <= i < members.len() implies nested((#[trigger] members[i]).1, depth_limit()) && (
            floatless(value, depth_limit()) ==> floatless(members[i].1, depth_limit())) by {
                lemma_one_deeper(members[i].1, less);
            }
        },
        _ => {},
    }
}

/// Pairs with distinct names are the entries of the map that they collect into.
proof fn lemma_distinct_pairs_are_enumerated(pairs: Seq<Pair>)
    requires
        distinct_names(pairs),
    ensures
        enumerates(pairs, dict_of(pairs)),
{
    let map = dict_of(pairs);
    law_dict_holds_the_pairs(pairs);
    assert forall|i: int| #![trigger pairs[i]] 0 <= i < pairs.len() implies map.contains_key(
        pairs[i].0,
    ) && map[pairs[i].0] == pairs[i].1 by {
        let name = pairs[i].0;
        assert(map.contains_key(name));
        let j = choose|j: int|
            #![trigger pairs[j]]
            0 <= j < pairs.len() && pairs[j] == (name, map[name]);
        assert(pairs[j].0 == pairs[i].0);
        assert(i == j);
    }
}

/// The texts of members with distinct names are the entries of the map that they collect into.
proof fn lemma_members_are_enumerated(members: Seq<Member>)
    requires
        forall|i: int, j: int|
            #![trigger members[i], members[j]]
            0 <= i < j < members.len() ==> members[i].0 != members[j].0,
    ensures
        enumerates(member_texts(members), dict_of(member_texts(members))),
{
    let texts = member_texts(members);
    assert forall|i: int, j: int| 0 <= i < j < texts.len() implies (#[trigger] texts[i]).0 != (
    #[trigger] texts[j]).0 by {
        assert(members[i].0 != members[j].0);
    }
    lemma_distinct_pairs_are_enumerated(texts);
}

/// Every item of an array is given as its own JSON text, whatever it is and whatever the others
/// are, at the place where it stands; and nothing else is in the list.
pub proof fn law_items_are_given_as_their_json_texts(document: DocumentView, items: Seq<Value>)
    requires
        document == DocumentView::Array(items),
    ensures
        given(document) matches JsonView::List(texts) && texts.len() == items.len() && forall|i: int|
            0 <= i < items.len() ==> texts[i] == json_text(#[trigger] items[i]),
{
}

/// Every member of an object is given under its name as the JSON text of its value, whatever that
/// is and whatever the others are; and there are no other names in the dict.
pub proof fn law_members_are_given_as_their_json_texts(document: DocumentView, members: Seq<Member>)
    requires
        document == DocumentView::Object(members),
        forall|i: int, j: int|
            #![trigger members[i], members[j]]
            0 <= i < j < members.len() ==> members[i].0 != members[j].0,
    ensures
        given(document) matches JsonView::Dict(map) && (forall|i: int|
            0 <= i < members.len() ==> map.contains_key((#[trigger] members[i]).0)
                && map[members[i].0] == json_text(members[i].1)) && (forall|name: Seq<char>|
         #[trigger]
            map.contains_key(name) ==> exists|i: int|
                0 <= i < members.len() && (#[trigger] members[i]).0 == name),
{
    let texts = member_texts(members);
    let map = dict_of(texts);
    lemma_members_are_enumerated(members);
    law_dict_holds_the_pairs(texts);
    assert forall|i: int| 0 <= i < members.len() implies map.contains_key(
        (#[trigger] members[i]).0,
    ) && map[members[i].0] == json_text(members[i].1) by {
        assert(texts[i] == (members[i].0, json_text(members[i].1)));
    }
    assert forall|name: Seq<char>| #[trigger] map.contains_key(name) implies exists|i: int|
        0 <= i < members.len() && (#[trigger] members[i]).0 == name by {
        let i = choose|i: int| #![trigger texts[i]] 0 <= i < texts.len() && texts[i].0 == name;
        assert(members[i].0 == name);
    }
}

/// What stands alone is given as it is: a text and a truth value unchanged; and a number as the
/// integer that it is, or else by its bits of double precision, or else as it is written.
pub proof fn law_what_stands_alone_is_given_as_it_is(
    text: Seq<char>,
    truth: bool,
    number: Number,
    whole: i64,
    bits: u64,
)
    ensures
        given(DocumentView::Null) == JsonView::Null,
        given(DocumentView::Bool(truth)) == JsonView::Bool(truth),
        given(DocumentView::Text(text)) == JsonView::Text(text),
        number_whole(number) == Some(whole) ==> given(DocumentView::Number(number))
            == JsonView::Int(whole),
        number_whole(number) is None && number_bits(number) == Some(bits) ==> given(
            DocumentView::Number(number),
        ) == JsonView::Float(bits),
        number_whole(number) is None && number_bits(number) is None ==> given(
            DocumentView::Number(number),
        ) == JsonView::Text(number_text(number)),
{
}

/// Reading fails just where the text is no JSON, and with the parser's words; otherwise it gives
/// what the parsed value gives.
pub proof fn law_reading_fails_with_the_parser(text: Seq<char>)
    ensures
        json_of(text) is Err <==> json_parse(text) is Err,
        json_of(text) is Err ==> json_of(text)->Err_0 == json_parse(text)->Err_0,
        json_of(text) is Ok ==> json_of(text)->Ok_0 == given(opened(json_parse(text)->Ok_0)),
{
}

/// A value that a caller holds is seen in contracts as what it holds.
pub proof fn law_a_value_is_seen_as_it_is(
    truth: bool,
    whole: i64,
    bits: u64,
    text: String,
    items: Vec<String>,
    members: HashMap<String, String>,
    message: String,
)
    ensures
        Json::Null@ == JsonView::Null,
        Json::Bool(truth)@ == JsonView::Bool(truth),
        Json::Int(whole)@ == JsonView::Int(whole),
        Json::Float(bits)@ == JsonView::Float(bits),
        Json::Text(text)@ == JsonView::Text(text@),
        Json::List(items)@ == JsonView::List(items.deep_view()),
        Json::Dict(members)@ == JsonView::Dict(members.deep_view()),
        json_view(Ok(Json::Text(text))) == Ok::<JsonView, Seq<char>>(JsonView::Text(text@)),
        json_view(Ok(Json::List(items))) == Ok::<JsonView, Seq<char>>(
            JsonView::List(items.deep_view()),
        ),
        json_view(Ok(Json::Dict(members))) == Ok::<JsonView, Seq<char>>(
            JsonView::Dict(members.deep_view()),
        ),
        json_view(Ok(Json::Int(whole))) == Ok::<JsonView, Seq<char>>(JsonView::Int(whole)),
        json_view(Ok(Json::Float(bits))) == Ok::<JsonView, Seq<char>>(JsonView::Float(bits)),
        json_view(Ok(Json::Bool(truth))) == Ok::<JsonView, Seq<char>>(JsonView::Bool(truth)),
        json_view(Ok(Json::Null)) == Ok::<JsonView, Seq<char>>(JsonView::Null),
        json_view(Err(message)) == Err::<JsonView, Seq<char>>(message@),
{
}

/// A document is seen in contracts as what it holds, with every item and every member at its place.
pub proof fn law_a_document_is_seen_as_it_is(
    truth: bool,
    number: Number,
    text: String,
    items: Vec<Value>,
    members: Vec<(String, Value)>,
    i: int,
)
    ensures
        Document::Null@ == DocumentView::Null,
        Document::Bool(truth)@ == DocumentView::Bool(truth),
        Document::Number(number)@ == DocumentView::Number(number),
        Document::Text(text)@ == DocumentView::Text(text@),
        Document::Array(items)@ == DocumentView::Array(items@),
        Document::Object(members)@ matches DocumentView::Object(seen) && seen.len()
            == members@.len() && (0 <= i < members@.len() ==> seen[i] == (
            members@[i].0@,
            members@[i].1,
        )),
{
}

} // verus!
