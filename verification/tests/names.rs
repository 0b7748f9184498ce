use fw::names::{comes_before, same_name};

#[test]
fn names_are_the_same_only_letter_for_letter() {
    assert!(same_name("backend", "backend"));
    assert!(same_name("", ""));
    assert!(!same_name("backend", "Backend"));
    assert!(!same_name("backend", "backend "));
    assert!(!same_name("", "a"));
    assert!(same_name("grüße", "grüße"));
    assert!(!same_name("grüße", "grusse"));
}

#[test]
fn names_sort_as_strings_do() {
    let names = ["", "a", "A", "ab", "abc", "b", "infra", "backend", "Zeta", "é", "z", "日本", "a b", "a-b", "10", "9"];
    for a in names {
        for b in names {
            assert_eq!(comes_before(a, b), a < b, "{:?} before {:?}", a, b);
        }
    }
}

#[test]
fn a_prefix_sorts_before_what_it_begins() {
    assert!(comes_before("in", "infra"));
    assert!(!comes_before("infra", "in"));
    assert!(!comes_before("infra", "infra"));
}
