use kubizone::text::{
    chars_equal, chars_of, ends_with, find_from, ranges_equal, slice_of, split_chars, starts_with,
    str_ends_with, str_equal,
};

fn chars(s: &str) -> Vec<char> {
    s.chars().collect()
}

fn parts(s: &str, sep: char) -> Vec<String> {
    split_chars(&chars(s), sep).into_iter().map(|part| part.into_iter().collect()).collect()
}

#[test]
fn characters_of_a_string() {
    assert_eq!(chars_of(""), Vec::<char>::new());
    assert_eq!(chars_of("a.b"), vec!['a', '.', 'b']);
    assert_eq!(chars_of("ü€𝄞"), vec!['ü', '€', '𝄞']);
}

#[test]
fn splitting() {
    assert_eq!(parts("www.example.org", '.'), vec!["www", "example", "org"]);
    assert_eq!(parts("example.org.", '.'), vec!["example", "org", ""]);
    assert_eq!(parts("", '.'), vec![""]);
    assert_eq!(parts(".", '.'), vec!["", ""]);
    assert_eq!(parts("..a", '.'), vec!["", "", "a"]);
    assert_eq!(parts("no dots", '.'), vec!["no dots"]);
    assert_eq!(parts("a*b", '*'), vec!["a", "b"]);
    for s in ["www.example.org", "", ".", "a..b.", "ü.é"] {
        let expected: Vec<String> = s.split('.').map(|part| part.to_string()).collect();
        assert_eq!(parts(s, '.'), expected);
    }
}

#[test]
fn finding_and_slicing() {
    let s = chars("a.b.c");
    assert_eq!(find_from(&s, 0, '.'), 1);
    assert_eq!(find_from(&s, 1, '.'), 1);
    assert_eq!(find_from(&s, 2, '.'), 3);
    assert_eq!(find_from(&s, 4, '.'), 5);
    assert_eq!(find_from(&s, 5, '.'), 5);
    assert_eq!(find_from(&s, 0, 'x'), 5);
    assert_eq!(slice_of(&s, 0, 5), s);
    assert_eq!(slice_of(&s, 2, 3), vec!['b']);
    assert_eq!(slice_of(&s, 3, 3), Vec::<char>::new());
}

#[test]
fn comparing() {
    assert!(chars_equal(&chars("abc"), &chars("abc")));
    assert!(!chars_equal(&chars("abc"), &chars("abd")));
    assert!(!chars_equal(&chars("abc"), &chars("ab")));
    assert!(chars_equal(&chars(""), &chars("")));
    assert!(ranges_equal(&chars("xabc"), 1, &chars("abcx"), 0, 3));
    assert!(!ranges_equal(&chars("xabc"), 0, &chars("abcx"), 0, 3));
    assert!(ranges_equal(&chars("a"), 1, &chars("b"), 0, 0));
    assert!(starts_with(&chars("example.org"), &chars("example")));
    assert!(starts_with(&chars("example.org"), &chars("")));
    assert!(!starts_with(&chars("example"), &chars("example.org")));
    assert!(!starts_with(&chars("example.org"), &chars("org")));
    assert!(ends_with(&chars("example.org"), &chars(".org")));
    assert!(ends_with(&chars("example.org"), &chars("example.org")));
    assert!(!ends_with(&chars("org"), &chars("example.org")));
    assert!(!ends_with(&chars("example.org"), &chars("example")));
    assert!(str_equal("kubi.zone", "kubi.zone"));
    assert!(!str_equal("kubi.zone", "kubi.zon"));
    assert!(str_ends_with("www.example.org.", "example.org."));
    assert!(!str_ends_with("www.example.org", "example.org."));
}
