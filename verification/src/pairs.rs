//! Name/value pairs of text, and the maps they are taken from and collected into.

use std::collections::HashMap;
use vstd::prelude::*;

verus! {

/// A name and its value, as text.
pub type Pair = (Seq<char>, Seq<char>);

/// No two pairs share a name.
pub open spec fn distinct_names(pairs: Seq<Pair>) -> bool {
    forall|i: int, j: int|
        #![trigger pairs[i], pairs[j]]
        0 <= i < j < pairs.len() ==> pairs[i].0 != pairs[j].0
}

/// `pairs` lists every entry of `map` exactly once, in some order.
pub open spec fn enumerates(pairs: Seq<Pair>, map: Map<Seq<char>, Seq<char>>) -> bool {
    &&& forall|i: int|
        #![trigger pairs[i]]
        0 <= i < pairs.len() ==> map.contains_key(pairs[i].0) && map[pairs[i].0] == pairs[i].1
    &&& distinct_names(pairs)
    &&& forall|name: Seq<char>| #[trigger]
        map.contains_key(name) ==> exists|i: int|
            #![trigger pairs[i]]
            0 <= i < pairs.len() && pairs[i].0 == name
}

/// The map that results from entering `pairs` one after the other: a later pair replaces an
/// earlier one of the same name.
pub open spec fn dict_of(pairs: Seq<Pair>) -> Map<Seq<char>, Seq<char>>
    decreases pairs.len(),
{
    if pairs.len() == 0 {
        Map::empty()
    } else {
        dict_of(pairs.drop_last()).insert(pairs.last().0, pairs.last().1)
    }
}

/// `name=value` for every pair, with `separator` between one and the next.
pub open spec fn assignments(pairs: Seq<Pair>, separator: Seq<char>) -> Seq<char>
    decreases pairs.len(),
{
    if pairs.len() == 0 {
        Seq::empty()
    } else if pairs.len() == 1 {
        assignment(pairs[0])
    } else {
        assignments(pairs.drop_last(), separator) + separator + assignment(pairs.last())
    }
}

/// `name=value`.
pub open spec fn assignment(pair: Pair) -> Seq<char> {
    pair.0 + seq!['='] + pair.1
}

/// Every name that occurs in `pairs` is a name of `dict_of(pairs)`, no other is, and the value
/// found there is one that `pairs` gives to that name.
pub proof fn law_dict_holds_the_pairs(pairs: Seq<Pair>)
    ensures
        forall|i: int|
            #![trigger pairs[i]]
            0 <= i < pairs.len() ==> dict_of(pairs).contains_key(pairs[i].0),
        forall|name: Seq<char>| #[trigger]
            dict_of(pairs).contains_key(name) ==> exists|i: int|
                #![trigger pairs[i]]
                0 <= i < pairs.len() && pairs[i] == (name, dict_of(pairs)[name]),
    decreases pairs.len(),
{
    if pairs.len() > 0 {
        let rest = pairs.drop_last();
        law_dict_holds_the_pairs(rest);
        assert forall|i: int| #![trigger pairs[i]] 0 <= i < pairs.len() implies dict_of(
            pairs,
        ).contains_key(pairs[i].0) by {
            if i < rest.len() {
                assert(rest[i] == pairs[i]);
            }
        }
        assert forall|name: Seq<char>| #[trigger]
            dict_of(pairs).contains_key(name) implies exists|i: int|
            #![trigger pairs[i]]
            0 <= i < pairs.len() && pairs[i] == (name, dict_of(pairs)[name]) by {
            if name == pairs.last().0 {
                assert(pairs[pairs.len() - 1] == (name, dict_of(pairs)[name]));
            } else {
                assert(dict_of(rest).contains_key(name));
                let i = choose|i: int|
                    #![trigger rest[i]]
                    0 <= i < rest.len() && rest[i] == (name, dict_of(rest)[name]);
                assert(pairs[i] == rest[i]);
            }
        }
    }
}

/// Collecting the entries of a map, in whatever order they were walked, gives the map back.
pub proof fn law_collecting_undoes_walking(pairs: Seq<Pair>, map: Map<Seq<char>, Seq<char>>)
    requires
        enumerates(pairs, map),
    ensures
        dict_of(pairs) == map,
{
    law_dict_holds_the_pairs(pairs);
    assert forall|name: Seq<char>| dict_of(pairs).contains_key(name) == map.contains_key(name) by {
        if map.contains_key(name) {
            let i = choose|i: int|
                #![trigger pairs[i]]
                0 <= i < pairs.len() && pairs[i].0 == name;
            assert(dict_of(pairs).contains_key(pairs[i].0));
        }
    }
    assert(dict_of(pairs) =~= map);
}

/// The entries of `map` by reference, in the order in which `HashMap` hands them out
/// (`Vec::from_iter` over the map). That order is left open: all that is claimed is that every
/// entry comes once.
#[verifier::external_body]
fn walk<'a>(map: &'a HashMap<String, String>) -> (entries: Vec<(&'a String, &'a String)>)
    ensures
        enumerates(entries.deep_view(), map.deep_view()),
{
    Vec::from_iter(map)
}

/// `HashMap::extend` on an empty map: later entries replace earlier ones of the same name.
#[verifier::external_body]
fn extended(entries: Vec<(String, String)>) -> (map: HashMap<String, String>)
    ensures
        map.deep_view() == dict_of(entries.deep_view()),
{
    let mut map = HashMap::new();
    map.extend(entries);
    map
}

/// The entries of `map`, each once, in the order in which the map is walked.
pub fn entries(map: &HashMap<String, String>) -> (pairs: Vec<(String, String)>)
    ensures
        enumerates(pairs.deep_view(), map.deep_view()),
{
    let walked = walk(map);
    let mut pairs: Vec<(String, String)> = Vec::new();
    for i in 0..walked.len()
        invariant
            pairs.deep_view() =~= walked.deep_view().take(i as int),
    {
        let ghost before = pairs.deep_view();
        pairs.push((walked[i].0.clone(), walked[i].1.clone()));
        assert(pairs.deep_view() =~= before.push(walked.deep_view()[i as int]));
        assert(before.push(walked.deep_view()[i as int]) =~= walked.deep_view().take(i + 1));
    }
    assert(pairs.deep_view() =~= walked.deep_view());
    pairs
}

/// The map that `pairs` collect into; where a name is repeated its last value stays.
pub fn collect(pairs: Vec<(String, String)>) -> (map: HashMap<String, String>)
    ensures
        map.deep_view() == dict_of(pairs.deep_view()),
{
    extended(pairs)
}

/// Writes the pairs out as `name=value`, with `separator` between one and the next.
pub fn join_assignments(pairs: &[(String, String)], separator: &str) -> (text: String)
    ensures
        text@ == assignments(pairs.deep_view(), separator@),
{
    let mut text = String::new();
    for i in 0..pairs.len()
        invariant
            text@ == assignments(pairs.deep_view().take(i as int), separator@),
    {
        proof {
            let whole = pairs.deep_view();
            assert(whole.take(i + 1).drop_last() =~= whole.take(i as int));
            assert(whole.take(i + 1).last() == pairs[i as int].deep_view());
            reveal_strlit("=");
            assert("="@ =~= seq!['=']);
        }
        if i > 0 {
            text.append(separator);
        }
        let ghost before = text@;
        text.append(pairs[i].0.as_str());
        text.append("=");
        text.append(pairs[i].1.as_str());
        assert(text@ =~= before + assignment(pairs[i as int].deep_view()));
    }
    assert(pairs.deep_view().take(pairs.len() as int) =~= pairs.deep_view());
    text
}

/// The last value of a name is the one that is found, and a name that no pair has is not there.
pub proof fn law_last_value_of_a_name_is_found(pairs: Seq<Pair>, name: Seq<char>, i: int)
    ensures
        0 <= i < pairs.len() && pairs[i].0 == name && (forall|j: int|
            i < j < pairs.len() ==> (#[trigger] pairs[j]).0 != name) ==> dict_of(
            pairs,
        ).contains_key(name) && dict_of(pairs)[name] == pairs[i].1,
        (forall|j: int| 0 <= j < pairs.len() ==> (#[trigger] pairs[j]).0 != name) ==> !dict_of(
            pairs,
        ).contains_key(name),
    decreases pairs.len(),
{
    if pairs.len() > 0 {
        let rest = pairs.drop_last();
        law_last_value_of_a_name_is_found(rest, name, i);
        assert(forall|j: int| 0 <= j < rest.len() ==> (#[trigger] rest[j]) == pairs[j]);
        assert(pairs.last() == pairs[pairs.len() - 1]);
        if 0 <= i < rest.len() && (forall|j: int|
            i < j < pairs.len() ==> (#[trigger] pairs[j]).0 != name) {
            assert(forall|j: int| i < j < rest.len() ==> (#[trigger] rest[j]).0 != name);
        }
    }
}

/// Written out, no pairs are an empty text; one pair is its name, `=` and its value; and one pair
/// more adds the separator, its name, `=` and its value, however many there were.
pub proof fn law_one_pair_more_is_written_after_the_others(
    pairs: Seq<Pair>,
    pair: Pair,
    separator: Seq<char>,
)
    ensures
        pairs.len() == 0 ==> assignments(pairs, separator) == Seq::<char>::empty(),
        pairs.len() == 0 ==> assignments(pairs.push(pair), separator) == pair.0 + "="@ + pair.1,
        pairs.len() > 0 ==> assignments(pairs.push(pair), separator) == assignments(
            pairs,
            separator,
        ) + separator + pair.0 + "="@ + pair.1,
{
    reveal_strlit("=");
    assert("="@ =~= seq!['=']);
    assert(pairs.push(pair).drop_last() =~= pairs);
    assert(pairs.push(pair).last() == pair);
    if pairs.len() > 0 {
        assert(assignments(pairs, separator) + separator + assignment(pair) =~= assignments(
            pairs,
            separator,
        ) + separator + pair.0 + "="@ + pair.1);
    }
}

/// Every pair is in the text that the pairs are written out as.
pub proof fn law_every_pair_is_written(pairs: Seq<Pair>, separator: Seq<char>, i: int) -> (start:
    int)
    requires
        0 <= i < pairs.len(),
    ensures
        0 <= start,
        start + pairs[i].0.len() + 1 + pairs[i].1.len() <= assignments(pairs, separator).len(),
        assignments(pairs, separator).subrange(
            start,
            start + pairs[i].0.len() + 1 + pairs[i].1.len(),
        ) == pairs[i].0 + "="@ + pairs[i].1,
    decreases pairs.len(),
{
    reveal_strlit("=");
    assert("="@ =~= seq!['=']);
    let piece = pairs[i].0 + "="@ + pairs[i].1;
    let whole = assignments(pairs, separator);
    if pairs.len() == 1 {
        assert(whole.subrange(0, piece.len() as int) =~= piece);
        0
    } else {
        let front = assignments(pairs.drop_last(), separator);
        if i == pairs.len() - 1 {
            let start = (front + separator).len() as int;
            assert(whole.subrange(start, start + piece.len()) =~= piece);
            start
        } else {
            let start = law_every_pair_is_written(pairs.drop_last(), separator, i);
            assert(whole.subrange(start, start + piece.len()) =~= front.subrange(
                start,
                start + piece.len(),
            ));
            start
        }
    }
}

/// A walk through a map comes to every entry once and to nothing else.
pub proof fn law_a_walk_comes_to_every_entry_once(
    pairs: Seq<Pair>,
    map: Map<Seq<char>, Seq<char>>,
    name: Seq<char>,
)
    requires
        enumerates(pairs, map),
    ensures
        map.contains_key(name) ==> pairs.contains((name, map[name])),
        forall|i: int|
            0 <= i < pairs.len() ==> map.contains_pair((#[trigger] pairs[i]).0, pairs[i].1),
        pairs.no_duplicates(),
        forall|i: int, j: int|
            #![trigger pairs[i], pairs[j]]
            0 <= i < j < pairs.len() ==> pairs[i].0 != pairs[j].0,
{
    if map.contains_key(name) {
        let i = choose|i: int| #![trigger pairs[i]] 0 <= i < pairs.len() && pairs[i].0 == name;
        assert(pairs[i] == (name, map[name]));
    }
}

} // verus!
