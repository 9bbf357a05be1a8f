//! Query strings.

use crate::pairs::{
    assignment, assignments, dict_of, entries, enumerates, join_assignments,
    law_collecting_undoes_walking, law_one_pair_more_is_written_after_the_others, Pair,
};
use crate::text::{lemma_split_at_last_mark, lemma_split_without_mark, split};
use std::collections::HashMap;
use vstd::prelude::*;
use vstd::utf8::{decode_utf8, encode_utf8};

verus! {

/// The bytes that percent-encoding leaves as they are: letters, digits and `-`, `.`, `_`, `~`.
pub open spec fn unreserved(byte: u8) -> bool {
    ||| 0x30 <= byte <= 0x39
    ||| 0x41 <= byte <= 0x5A
    ||| 0x61 <= byte <= 0x7A
    ||| byte == 0x2D
    ||| byte == 0x2E
    ||| byte == 0x5F
    ||| byte == 0x7E
}

/// The upper-case hexadecimal digit for a number below sixteen.
pub open spec fn hex_digit(digit: int) -> char {
    if digit < 10 {
        (0x30 + digit) as char
    } else {
        (0x41 + digit - 10) as char
    }
}

/// One byte, percent-encoded unless it is unreserved.
pub open spec fn percent_byte(byte: u8) -> Seq<char> {
    if unreserved(byte) {
        seq![byte as char]
    } else {
        seq!['%', hex_digit(byte as int / 16), hex_digit(byte as int % 16)]
    }
}

/// Bytes, percent-encoded one by one.
pub open spec fn percent_encoded(bytes: Seq<u8>) -> Seq<char>
    decreases bytes.len(),
{
    if bytes.len() == 0 {
        Seq::empty()
    } else {
        percent_byte(bytes[0]) + percent_encoded(bytes.drop_first())
    }
}

/// A text, percent-encoded by its UTF-8 bytes.
pub open spec fn encoded_text(text: Seq<char>) -> Seq<char> {
    percent_encoded(encode_utf8(text))
}

/// A pair with its name and its value percent-encoded.
pub open spec fn encoded_pair(pair: Pair) -> Pair {
    (encoded_text(pair.0), encoded_text(pair.1))
}

/// The query string for `params` in their order: `name=value` with both percent-encoded, joined
/// by `&`.
pub open spec fn query(params: Seq<Pair>) -> Seq<char> {
    assignments(params.map_values(|pair: Pair| encoded_pair(pair)), seq!['&'])
}

/// `urlencoding::encode`: every UTF-8 byte of the text but letters, digits and `-`, `.`, `_`, `~`
/// becomes `%` and two upper-case hexadecimal digits.
#[verifier::external_body]
fn encode_component(text: &str) -> (encoded: String)
    ensures
        encoded@ == encoded_text(text@),
{
    urlencoding::encode(text).into_owned()
}

/// The query string for `params`, in the order in which the map is walked.
pub fn encode_params(params: &HashMap<String, String>) -> (text: String)
    ensures
        exists|order: Seq<Pair>|
            enumerates(order, params.deep_view()) && text@ == #[trigger] query(order),
{
    let order = entries(params);
    encode_pairs(order.as_slice())
}

/// The query string for `pairs`, in their order.
pub fn encode_pairs(pairs: &[(String, String)]) -> (text: String)
    ensures
        text@ == query(pairs.deep_view()),
{
    let ghost goal = pairs.deep_view().map_values(|pair: Pair| encoded_pair(pair));
    let mut encoded: Vec<(String, String)> = Vec::new();
    for i in 0..pairs.len()
        invariant
            goal == pairs.deep_view().map_values(|pair: Pair| encoded_pair(pair)),
            encoded.deep_view() =~= goal.take(i as int),
    {
        let ghost before = encoded.deep_view();
        let name = encode_component(pairs[i].0.as_str());
        let value = encode_component(pairs[i].1.as_str());
        encoded.push((name, value));
        assert(encoded.deep_view() =~= before.push(goal[i as int]));
        assert(before.push(goal[i as int]) =~= goal.take(i + 1));
    }
    assert(encoded.deep_view() =~= goal);
    proof {
        reveal_strlit("&");
        assert("&"@ =~= seq!['&']);
    }
    join_assignments(encoded.as_slice(), "&")
}

proof fn lemma_percent_byte(byte: u8)
    ensures
        forall|i: int|
            0 <= i < percent_byte(byte).len() ==> {
                let c = #[trigger] percent_byte(byte)[i];
                c == '%' || unreserved(c as u8) && (c as u32) < 0x80
            },
{
}

/// Percent-encoded text holds nothing but letters, digits and `-`, `.`, `_`, `~`, `%`: none of
/// the characters that part a query string from a URL, or its pieces from each other.
pub proof fn law_encoded_text_holds_no_separator(text: Seq<char>)
    ensures
        forall|i: int|
            0 <= i < encoded_text(text).len() ==> {
                let c = #[trigger] encoded_text(text)[i];
                (c == '%' || unreserved(c as u8) && (c as u32) < 0x80) && c != '&' && c != '='
                    && c != '?' && c != '#'
            },
{
    lemma_encoded_chars(encode_utf8(text));
}

proof fn lemma_encoded_chars(bytes: Seq<u8>)
    ensures
        forall|i: int|
            0 <= i < percent_encoded(bytes).len() ==> {
                let c = #[trigger] percent_encoded(bytes)[i];
                (c == '%' || unreserved(c as u8) && (c as u32) < 0x80) && c != '&' && c != '='
                    && c != '?' && c != '#'
            },
    decreases bytes.len(),
{
    if bytes.len() > 0 {
        lemma_encoded_chars(bytes.drop_first());
        lemma_percent_byte(bytes[0]);
        let head = percent_byte(bytes[0]);
        let tail = percent_encoded(bytes.drop_first());
        assert forall|i: int| 0 <= i < percent_encoded(bytes).len() implies {
            let c = #[trigger] percent_encoded(bytes)[i];
            (c == '%' || unreserved(c as u8) && (c as u32) < 0x80) && c != '&' && c != '=' && c
                != '?' && c != '#'
        } by {
            if i < head.len() {
                assert(percent_encoded(bytes)[i] == head[i]);
            } else {
                assert(percent_encoded(bytes)[i] == tail[i - head.len()]);
            }
        }
    }
}

/// The number that a hexadecimal digit stands for.
pub open spec fn hex_value(c: char) -> int {
    if '0' <= c <= '9' {
        c as int - 0x30
    } else if 'A' <= c <= 'F' {
        c as int - 0x41 + 10
    } else {
        c as int - 0x61 + 10
    }
}

/// The bytes that a percent-encoded text stands for.
pub open spec fn percent_decoded(text: Seq<char>) -> Seq<u8>
    decreases text.len(),
{
    if text.len() == 0 {
        Seq::empty()
    } else if text[0] == '%' && text.len() >= 3 {
        seq![(16 * hex_value(text[1]) + hex_value(text[2])) as u8] + percent_decoded(text.skip(3))
    } else {
        seq![text[0] as u8] + percent_decoded(text.skip(1))
    }
}

/// The text that a percent-encoded text stands for.
pub open spec fn decoded_component(text: Seq<char>) -> Seq<char> {
    decode_utf8(percent_decoded(text))
}

/// The parameter that a piece of a query string stands for: what is before its `=`, and what is
/// after it.
pub open spec fn read_piece(piece: Seq<char>) -> Pair {
    (decoded_component(split(piece, '=')[0]), decoded_component(split(piece, '=')[1]))
}

/// The parameters that a query string stands for: one for each piece between one `&` and the next,
/// and none for an empty one.
pub open spec fn read_query(text: Seq<char>) -> Seq<Pair> {
    if text.len() == 0 {
        Seq::empty()
    } else {
        split(text, '&').map_values(|piece: Seq<char>| read_piece(piece))
    }
}

proof fn lemma_percent_decoding(bytes: Seq<u8>)
    ensures
        percent_decoded(percent_encoded(bytes)) == bytes,
    decreases bytes.len(),
{
    if bytes.len() > 0 {
        let head = percent_byte(bytes[0]);
        let rest = bytes.drop_first();
        let text = percent_encoded(bytes);
        lemma_percent_decoding(rest);
        assert(text.skip(head.len() as int) =~= percent_encoded(rest));
        assert(text[0] == head[0]);
        if !unreserved(bytes[0]) {
            assert(text[1] == head[1] && text[2] == head[2]);
        }
        assert(percent_decoded(text)[0] == bytes[0]);
        assert(percent_decoded(text) =~= seq![bytes[0]] + rest);
        assert(bytes =~= seq![bytes[0]] + rest);
    }
}

/// Percent-decoding undoes percent-encoding.
pub proof fn law_decoding_undoes_encoding(text: Seq<char>)
    ensures
        decoded_component(encoded_text(text)) == text,
{
    lemma_percent_decoding(encode_utf8(text));
    vstd::utf8::encode_utf8_decode_utf8(text);
}

/// A text can be told from its percent-encoded form.
pub proof fn law_encoding_loses_nothing(a: Seq<char>, b: Seq<char>)
    requires
        encoded_text(a) == encoded_text(b),
    ensures
        a == b,
{
    law_decoding_undoes_encoding(a);
    law_decoding_undoes_encoding(b);
}

/// One piece of a query string has no `&` and one `=`, which parts the name from the value.
proof fn lemma_piece(pair: Pair)
    ensures
        !assignment(encoded_pair(pair)).contains('&'),
        split(assignment(encoded_pair(pair)), '=') == seq![
            encoded_text(pair.0),
            encoded_text(pair.1),
        ],
        read_piece(assignment(encoded_pair(pair))) == pair,
{
    let (name, value) = encoded_pair(pair);
    let piece = assignment((name, value));
    law_encoded_text_holds_no_separator(pair.0);
    law_encoded_text_holds_no_separator(pair.1);
    assert forall|i: int| 0 <= i < piece.len() implies piece[i] != '&' by {
        if i < name.len() {
            assert(piece[i] == name[i]);
        } else if i > name.len() {
            assert(piece[i] == value[i - name.len() - 1]);
        }
    }
    lemma_split_without_mark(name, '=');
    lemma_split_at_last_mark(name, value, '=');
    assert(split(piece, '=') =~= seq![name, value]);
    law_decoding_undoes_encoding(pair.0);
    law_decoding_undoes_encoding(pair.1);
}

/// A query string parts into one piece for each parameter.
proof fn lemma_query_pieces(params: Seq<Pair>)
    requires
        params.len() > 0,
    ensures
        query(params).len() > 0,
        split(query(params), '&') == params.map_values(
            |pair: Pair| assignment(encoded_pair(pair)),
        ),
    decreases params.len(),
{
    let coded = params.map_values(|pair: Pair| encoded_pair(pair));
    let last = assignment(encoded_pair(params.last()));
    lemma_piece(params.last());
    if params.len() == 1 {
        lemma_split_without_mark(last, '&');
        assert(last[encoded_pair(params.last()).0.len() as int] == '=');
        assert(split(query(params), '&') =~= params.map_values(
            |pair: Pair| assignment(encoded_pair(pair)),
        ));
    } else {
        let rest = params.drop_last();
        lemma_query_pieces(rest);
        assert(coded.drop_last() =~= rest.map_values(|pair: Pair| encoded_pair(pair)));
        assert(query(params) == query(rest) + seq!['&'] + last);
        lemma_split_at_last_mark(query(rest), last, '&');
        assert(split(query(params), '&') =~= params.map_values(
            |pair: Pair| assignment(encoded_pair(pair)),
        ));
    }
}

/// A query string is read back as its parameters: it is empty where there are none; otherwise it
/// parts at `&` into a piece for each of them, every piece has one `=`, and percent-decoding what
/// is on either side gives the parameter's name and value.
pub proof fn law_query_is_read_back(params: Seq<Pair>)
    ensures
        query(params).len() == 0 <==> params.len() == 0,
        params.len() > 0 ==> split(query(params), '&').len() == params.len(),
        forall|i: int|
            0 <= i < params.len() ==> #[trigger] split(query(params), '&')[i] == assignment(
                encoded_pair(params[i]),
            ) && split(split(query(params), '&')[i], '=').len() == 2,
        forall|i: int|
            0 <= i < params.len() ==> #[trigger] split(query(params), '&')[i] == encoded_text(
                params[i].0,
            ) + "="@ + encoded_text(params[i].1),
        read_query(query(params)) == params,
{
    reveal_strlit("=");
    assert("="@ =~= seq!['=']);
    if params.len() > 0 {
        lemma_query_pieces(params);
        assert forall|i: int| 0 <= i < params.len() implies #[trigger] split(
            query(params),
            '&',
        )[i] == assignment(encoded_pair(params[i])) && split(
            split(query(params), '&')[i],
            '=',
        ).len() == 2 && read_query(query(params))[i] == params[i] by {
            lemma_piece(params[i]);
        }
    }
    assert(read_query(query(params)) =~= params);
}

/// A query string tells its parameters: two lists of parameters with one query string are the
/// same list.
pub proof fn law_query_tells_its_parameters(a: Seq<Pair>, b: Seq<Pair>)
    requires
        query(a) == query(b),
    ensures
        a == b,
{
    law_query_is_read_back(a);
    law_query_is_read_back(b);
}

/// A query string gives the map of parameters back that it was made of, in whatever order the map
/// was walked: every entry is read once.
pub proof fn law_query_gives_its_map_back(map: Map<Seq<char>, Seq<char>>, walk: Seq<Pair>)
    requires
        enumerates(walk, map),
    ensures
        enumerates(read_query(query(walk)), map),
        dict_of(read_query(query(walk))) == map,
{
    law_query_is_read_back(walk);
    law_collecting_undoes_walking(walk, map);
}

/// Two maps of parameters with a query string in common, in whatever order they were walked,
/// are the same map.
pub proof fn law_query_tells_its_map(
    a: Map<Seq<char>, Seq<char>>,
    b: Map<Seq<char>, Seq<char>>,
    walk_a: Seq<Pair>,
    walk_b: Seq<Pair>,
)
    requires
        enumerates(walk_a, a),
        enumerates(walk_b, b),
        query(walk_a) == query(walk_b),
    ensures
        a == b,
{
    law_query_gives_its_map_back(a, walk_a);
    law_query_gives_its_map_back(b, walk_b);
}

/// A query string is written in the order of its parameters: one parameter more adds `&` and the
/// parameter at the end, and changes nothing before.
pub proof fn law_one_parameter_more_comes_last(params: Seq<Pair>, pair: Pair)
    ensures
        params.len() == 0 ==> query(params.push(pair)) == encoded_text(pair.0) + "="@
            + encoded_text(pair.1),
        params.len() > 0 ==> query(params.push(pair)) == query(params) + "&"@ + encoded_text(pair.0)
            + "="@ + encoded_text(pair.1),
{
    reveal_strlit("&");
    assert("&"@ =~= seq!['&']);
    let coded = params.map_values(|pair: Pair| encoded_pair(pair));
    assert(params.push(pair).map_values(|pair: Pair| encoded_pair(pair)) =~= coded.push(
        encoded_pair(pair),
    ));
    law_one_pair_more_is_written_after_the_others(coded, encoded_pair(pair), seq!['&']);
}

/// Percent-encoding goes byte by byte: a letter, a digit and `-`, `.`, `_`, `~` stand for
/// themselves, and any other byte is `%` and its two hexadecimal digits.
pub proof fn law_bytes_are_encoded_one_by_one(a: Seq<u8>, b: Seq<u8>, byte: u8)
    ensures
        percent_encoded(a + b) == percent_encoded(a) + percent_encoded(b),
        percent_encoded(seq![byte]).len() == 1 || percent_encoded(seq![byte]).len() == 3,
        percent_encoded(seq![byte]).len() == 1 ==> percent_encoded(seq![byte])[0] as u32 == byte
            as u32 && (0x30 <= byte <= 0x39 || 0x41 <= byte <= 0x5A || 0x61 <= byte <= 0x7A || byte
            == 0x2D || byte == 0x2E || byte == 0x5F || byte == 0x7E),
        percent_encoded(seq![byte]).len() == 3 ==> percent_encoded(seq![byte])[0] == '%'
            && 16 * hex_value(percent_encoded(seq![byte])[1]) + hex_value(
            percent_encoded(seq![byte])[2],
        ) == byte,
    decreases a.len(),
{
    let one = seq![byte];
    assert(one.drop_first() =~= Seq::<u8>::empty());
    assert(percent_encoded(one.drop_first()) =~= Seq::<char>::empty());
    assert(percent_encoded(one) =~= percent_byte(byte));
    if a.len() == 0 {
        assert(a + b =~= b);
        assert(percent_encoded(a) + percent_encoded(b) =~= percent_encoded(b));
    } else {
        law_bytes_are_encoded_one_by_one(a.drop_first(), b, byte);
        assert((a + b).drop_first() =~= a.drop_first() + b);
        assert((a + b)[0] == a[0]);
        assert(percent_encoded(a + b) =~= percent_encoded(a) + percent_encoded(b));
    }
}

} // verus!
