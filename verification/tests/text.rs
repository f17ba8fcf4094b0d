use openlogi::order::{sorted_unique, str_lt};
use openlogi::text::{
    char_ascii_lower, str_eq, str_eq_ignore_ascii_case, trim_end_matches_char,
    trim_start_matches_char,
};

#[test]
fn trims_only_the_given_end() {
    assert_eq!(trim_end_matches_char("//a//b//", '/'), "//a//b");
    assert_eq!(trim_start_matches_char("//a//b//", '/'), "a//b//");
    assert_eq!(trim_end_matches_char("abc", '/'), "abc");
    assert_eq!(trim_start_matches_char("", '/'), "");
    assert_eq!(trim_end_matches_char("ééx", 'x'), "éé");
}

#[test]
fn ascii_case_folding() {
    assert_eq!(char_ascii_lower('A'), 'a');
    assert_eq!(char_ascii_lower('Z'), 'z');
    assert_eq!(char_ascii_lower('z'), 'z');
    assert_eq!(char_ascii_lower('['), '[');
    assert_eq!(char_ascii_lower('É'), 'É');
    assert!(str_eq_ignore_ascii_case("AbC", "aBc"));
    assert!(!str_eq_ignore_ascii_case("É", "é"));
    assert!(!str_eq_ignore_ascii_case("abc", "abcd"));
    assert!(str_eq_ignore_ascii_case("", ""));
}

#[test]
fn exact_equality() {
    assert!(str_eq("front_core.png", "front_core.png"));
    assert!(!str_eq("front_core.png", "Front_core.png"));
    assert!(!str_eq("a", "ab"));
}

#[test]
fn lexicographic_order_matches_std() {
    let words = ["", "a", "ab", "b", "B", "é", "z", "mx_master_3", "mx_master_3s", "mx_master_4"];
    for x in words {
        for y in words {
            assert_eq!(str_lt(x, y), x < y, "{x:?} < {y:?}");
        }
    }
}

#[test]
fn sorted_unique_sorts_and_drops_repeats() {
    let names: Vec<String> = ["mx_master_4", "lift", "mx_master_3s", "lift", "anywhere_3"]
        .iter()
        .map(|s| s.to_string())
        .collect();
    assert_eq!(sorted_unique(&names), vec!["anywhere_3", "lift", "mx_master_3s", "mx_master_4"]);
    assert!(sorted_unique(&Vec::new()).is_empty());
}
