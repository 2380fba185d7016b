use rust_web_browser::text::{chars_of, find_first, matches_at};

fn chars(s: &str) -> Vec<char> {
    s.chars().collect()
}

#[test]
fn chars_of_lists_every_character_in_order() {
    assert_eq!(chars_of(""), Vec::<char>::new());
    assert_eq!(chars_of("a:/"), vec!['a', ':', '/']);
    assert_eq!(chars_of("\u{fc}b\u{65e5}"), vec!['\u{fc}', 'b', '\u{65e5}']);
}

#[test]
fn matches_at_compares_the_whole_pattern() {
    let text = chars("http://host");
    assert!(matches_at(&text, &chars("http"), 0));
    assert!(matches_at(&text, &chars("://"), 4));
    assert!(!matches_at(&text, &chars("://"), 3));
    assert!(!matches_at(&text, &chars("://"), 5));
    assert!(!matches_at(&text, &chars(":/x"), 4));
    assert!(matches_at(&text, &chars("host"), 7));
    assert!(matches_at(&text, &chars(""), 11));
}

#[test]
fn matches_at_finds_nothing_past_the_end() {
    let text = chars("a://");
    assert!(matches_at(&text, &chars("://"), 1));
    assert!(!matches_at(&text, &chars("://"), 2));
    assert!(!matches_at(&text, &chars("://"), 4));
    assert!(!matches_at(&text, &chars(""), 5));
    assert!(!matches_at(&text, &chars("a://b"), 0));
    assert!(!matches_at(&chars(""), &chars("/"), usize::MAX));
}

#[test]
fn find_first_gives_the_leftmost_position() {
    assert_eq!(find_first(&chars("a://b://c"), &chars("://")), Some(1));
    assert_eq!(find_first(&chars("://"), &chars("://")), Some(0));
    assert_eq!(find_first(&chars("ab://"), &chars("://")), Some(2));
    assert_eq!(find_first(&chars("a:/:///"), &chars("://")), Some(3));
    assert_eq!(find_first(&chars("a/b/c"), &chars("/")), Some(1));
    assert_eq!(find_first(&chars("\u{65e5}\u{672c}/x"), &chars("/")), Some(2));
}

#[test]
fn find_first_gives_none_where_the_pattern_is_absent() {
    assert_eq!(find_first(&chars(""), &chars("://")), None);
    assert_eq!(find_first(&chars(":/"), &chars("://")), None);
    assert_eq!(find_first(&chars("a:/b/:c"), &chars("://")), None);
    assert_eq!(find_first(&chars("abc"), &chars("/")), None);
}

#[test]
fn empty_pattern_stands_at_the_start() {
    assert_eq!(find_first(&chars("abc"), &chars("")), Some(0));
    assert_eq!(find_first(&chars(""), &chars("")), Some(0));
}
