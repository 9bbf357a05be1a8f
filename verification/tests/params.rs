use sharphttp::params::{encode_pairs, encode_params};
use std::collections::HashMap;

fn pairs(list: &[(&str, &str)]) -> Vec<(String, String)> {
    list.iter().map(|(n, v)| (n.to_string(), v.to_string())).collect()
}

#[test]
fn names_and_values_are_percent_encoded() {
    assert_eq!(encode_pairs(&pairs(&[("q", "search term")])), "q=search%20term");
    assert_eq!(
        encode_pairs(&pairs(&[("a&b", "c=d"), ("\u{e9}", "-_.~")])),
        "a%26b=c%3Dd&%C3%A9=-_.~"
    );
    assert_eq!(encode_pairs(&pairs(&[("AZaz09", "?#/+%")])), "AZaz09=%3F%23%2F%2B%25");
}

#[test]
fn no_parameters_give_no_text() {
    assert_eq!(encode_pairs(&[]), "");
    assert_eq!(encode_params(&HashMap::new()), "");
}

#[test]
fn one_parameter_is_one_assignment() {
    let params = HashMap::from([("q".to_string(), "search term".to_string())]);
    assert_eq!(encode_params(&params), "q=search%20term");
}

#[test]
fn every_parameter_is_there_once() {
    let params: HashMap<String, String> =
        pairs(&[("a", "1"), ("b", "2 3"), ("c", "")]).into_iter().collect();
    let text = encode_params(&params);
    let mut pieces: Vec<&str> = text.split('&').collect();
    pieces.sort();
    assert_eq!(pieces, ["a=1", "b=2%203", "c="]);
}

#[test]
fn different_parameters_give_different_queries() {
    let lists = [
        pairs(&[]),
        pairs(&[("", "")]),
        pairs(&[("a", "b=c")]),
        pairs(&[("a=b", "c")]),
        pairs(&[("a", "b"), ("c", "d")]),
        pairs(&[("a", "b&c=d")]),
        pairs(&[("c", "d"), ("a", "b")]),
    ];
    for (i, a) in lists.iter().enumerate() {
        for (j, b) in lists.iter().enumerate() {
            assert_eq!(encode_pairs(a) == encode_pairs(b), i == j);
        }
    }
}

#[test]
fn a_query_is_read_back() {
    let list = pairs(&[("a&b", "c=d"), ("", ""), ("\u{e9} %41", "\u{1f680}+"), ("x", "~\n")]);
    let text = encode_pairs(&list);
    let read: Vec<(String, String)> = text
        .split('&')
        .map(|piece| {
            let sides: Vec<&str> = piece.split('=').collect();
            assert_eq!(sides.len(), 2);
            let side = |i: usize| urlencoding::decode(sides[i]).unwrap().into_owned();
            (side(0), side(1))
        })
        .collect();
    assert_eq!(read, list);
}
