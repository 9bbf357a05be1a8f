//! Header fields in the order they were given or received.

use crate::pairs::{entries, enumerates, Pair};
use smallvec::SmallVec;
use std::collections::HashMap;
use vstd::prelude::*;

verus! {

/// An ordered list of header fields, kept in a `smallvec::SmallVec`. Names may repeat.
#[verifier::external_body]
pub struct HeaderList {
    list: SmallVec<[(String, String); 16]>,
}

/// The fields that a header list holds, in order.
pub uninterp spec fn fields(list: HeaderList) -> Seq<Pair>;

/// `SmallVec::new`: a list that holds nothing.
#[verifier::external_body]
pub(crate) fn empty_list() -> (list: HeaderList)
    ensures
        fields(list) == Seq::<Pair>::empty(),
{
    HeaderList { list: SmallVec::new() }
}

/// `SmallVec::push`: the field comes last, and the others keep their places.
#[verifier::external_body]
pub(crate) fn push_field(list: &mut HeaderList, field: (String, String))
    ensures
        fields(*final(list)) == fields(*old(list)).push(field.deep_view()),
{
    list.list.push(field);
}

/// `SmallVec::as_slice`: the fields as a slice, in order.
#[verifier::external_body]
pub(crate) fn field_slice(list: &HeaderList) -> (slice: &[(String, String)])
    ensures
        slice.deep_view() == fields(*list),
{
    list.list.as_slice()
}

/// The value of the first field named `key`, names compared letter for letter.
pub open spec fn first_value(headers: Seq<Pair>, key: Seq<char>) -> Option<Seq<char>>
    decreases headers.len(),
{
    if headers.len() == 0 {
        None
    } else if headers[0].0 == key {
        Some(headers[0].1)
    } else {
        first_value(headers.drop_first(), key)
    }
}

/// Looks a header up: the value of the first field named `key`.
pub fn get_header_value<'a>(headers: &'a HeaderList, key: &str) -> (value: Option<&'a String>)
    ensures
        value.deep_view() == first_value(fields(*headers), key@),
{
    let slice = field_slice(headers);
    let wanted = key.to_owned();
    assert(slice.deep_view().skip(0) =~= slice.deep_view());
    for i in 0..slice.len()
        invariant
            wanted@ == key@,
            slice.deep_view() == fields(*headers),
            first_value(slice.deep_view(), key@) == first_value(
                slice.deep_view().skip(i as int),
                key@,
            ),
    {
        assert(slice.deep_view().skip(i as int)[0] == slice[i as int].deep_view());
        assert(slice.deep_view().skip(i as int).drop_first() =~= slice.deep_view().skip(i + 1));
        if slice[i].0 == wanted {
            return Some(&slice[i].1);
        }
    }
    None
}

/// Puts the entries of `map` into a header list, in the order in which the map is walked.
pub fn hashmap_to_smallvec(map: HashMap<String, String>) -> (list: HeaderList)
    ensures
        enumerates(fields(list), map.deep_view()),
{
    list_of(entries(&map))
}

/// Puts `pairs` into a header list, in order.
pub fn list_of(pairs: Vec<(String, String)>) -> (list: HeaderList)
    ensures
        fields(list) == pairs.deep_view(),
{
    let mut list = empty_list();
    for i in 0..pairs.len()
        invariant
            fields(list) == pairs.deep_view().take(i as int),
    {
        let field = (pairs[i].0.clone(), pairs[i].1.clone());
        push_field(&mut list, field);
        assert(field.deep_view() == pairs.deep_view()[i as int]);
        assert(pairs.deep_view().take(i + 1) =~= pairs.deep_view().take(i as int).push(
            pairs.deep_view()[i as int],
        ));
    }
    assert(pairs.deep_view().take(pairs.len() as int) =~= pairs.deep_view());
    list
}

/// A field that is added at the end changes a look-up only where no earlier field has the
/// looked-up name: the first field of a name is the one that counts.
pub proof fn law_first_field_counts(headers: Seq<Pair>, field: Pair, key: Seq<char>)
    ensures
        first_value(headers.push(field), key) == (if first_value(headers, key) is Some {
            first_value(headers, key)
        } else if field.0 == key {
            Some(field.1)
        } else {
            None
        }),
    decreases headers.len(),
{
    let longer = headers.push(field);
    if headers.len() == 0 {
        assert(longer.drop_first() =~= Seq::<Pair>::empty());
        assert(first_value(longer.drop_first(), key) is None);
    } else {
        assert(longer.drop_first() =~= headers.drop_first().push(field));
        law_first_field_counts(headers.drop_first(), field, key);
    }
}

/// A look-up finds the value of a field that has the name, where no field before it has it, and
/// nothing where no field has it. What other fields there are does not matter.
pub proof fn law_the_first_of_a_name_is_found(headers: Seq<Pair>, key: Seq<char>, i: int)
    ensures
        0 <= i < headers.len() && headers[i].0 == key && (forall|j: int|
            0 <= j < i ==> (#[trigger] headers[j]).0 != key) ==> first_value(headers, key) == Some(
            headers[i].1,
        ),
        (forall|j: int| 0 <= j < headers.len() ==> (#[trigger] headers[j]).0 != key)
            ==> first_value(headers, key) is None,
    decreases headers.len(),
{
    if headers.len() > 0 {
        let rest = headers.drop_first();
        law_the_first_of_a_name_is_found(rest, key, i - 1);
        assert(forall|j: int| 0 <= j < rest.len() ==> (#[trigger] rest[j]) == headers[j + 1]);
        if 0 < i < headers.len() {
            assert(headers[0].0 != key || !(forall|j: int|
                0 <= j < i ==> (#[trigger] headers[j]).0 != key));
        }
    }
}

} // verus!
