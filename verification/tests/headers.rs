use sharphttp::header_list::{get_header_value, hashmap_to_smallvec, list_of};
use sharphttp::pairs::{collect, entries, join_assignments};
use std::collections::HashMap;

fn pairs(list: &[(&str, &str)]) -> Vec<(String, String)> {
    list.iter().map(|(n, v)| (n.to_string(), v.to_string())).collect()
}

#[test]
fn the_first_field_of_a_name_is_found() {
    let list = list_of(pairs(&[("a", "1"), ("b", "2"), ("a", "3")]));
    assert_eq!(get_header_value(&list, "a"), Some(&"1".to_string()));
    assert_eq!(get_header_value(&list, "b"), Some(&"2".to_string()));
    assert_eq!(get_header_value(&list, "A"), None);
    assert_eq!(get_header_value(&list_of(Vec::new()), "a"), None);
}

#[test]
fn a_list_may_outgrow_its_inline_room() {
    let many: Vec<(String, String)> = (0..40).map(|i| (format!("n{}", i), i.to_string())).collect();
    let list = list_of(many);
    assert_eq!(get_header_value(&list, "n39"), Some(&"39".to_string()));
}

#[test]
fn a_map_becomes_a_list() {
    let map: HashMap<String, String> = pairs(&[("a", "1"), ("b", "2")]).into_iter().collect();
    let list = hashmap_to_smallvec(map);
    assert_eq!(get_header_value(&list, "a"), Some(&"1".to_string()));
    assert_eq!(get_header_value(&list, "b"), Some(&"2".to_string()));
    assert_eq!(get_header_value(&list, "c"), None);
}

#[test]
fn collecting_undoes_walking() {
    let map: HashMap<String, String> =
        pairs(&[("a", "1"), ("b", "2"), ("c", "3")]).into_iter().collect();
    assert_eq!(collect(entries(&map)), map);
}

#[test]
fn a_later_pair_replaces_an_earlier_one() {
    let map = collect(pairs(&[("a", "1"), ("b", "2"), ("a", "3")]));
    assert_eq!(map.len(), 2);
    assert_eq!(map["a"], "3");
    assert_eq!(map["b"], "2");
}

#[test]
fn assignments_are_joined() {
    assert_eq!(join_assignments(&pairs(&[("a", "1"), ("b", "2")]), "; "), "a=1; b=2");
    assert_eq!(join_assignments(&pairs(&[("a", "")]), "; "), "a=");
    assert_eq!(join_assignments(&[], "; "), "");
}
