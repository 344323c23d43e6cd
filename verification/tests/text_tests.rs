use crm::text::{
    chars_of, ends_with, find, is_whitespace, join, push_decimal, push_spaces, replace,
    starts_with, str_eq, str_lt, string_of, trim, trim_end,
};

#[test]
fn chars_and_back() {
    let v = chars_of("a-é表");
    assert_eq!(v, vec!['a', '-', 'é', '表']);
    assert_eq!(string_of(&v), "a-é表");
    assert_eq!(string_of(&Vec::new()), "");
}

#[test]
fn equality_of_text() {
    assert!(str_eq("rust-lang", "rust-lang"));
    assert!(str_eq("", ""));
    assert!(!str_eq("rust-lang", "rust-lanG"));
    assert!(!str_eq("ab", "abc"));
    assert!(str_eq("表", "表"));
    assert!(!str_eq("表", "衩"));
}

#[test]
fn order_of_names_is_lexicographic() {
    assert!(str_lt("a", "b"));
    assert!(!str_lt("b", "a"));
    assert!(!str_lt("a", "a"));
    assert!(str_lt("", "a"));
    assert!(!str_lt("a", ""));
    assert!(str_lt("tuna", "tuna-sparse"));
    assert!(str_lt("rsproxy-sparse", "rust-lang"));
    assert!(str_lt("Z", "a"));
    assert!(str_lt("z", "é"));
}

#[test]
fn order_of_names_agrees_with_string_order() {
    let names = ["", "a", "ab", "b", "tuna", "tuna-sparse", "ustc", "Z", "é", "表", "z"];
    for a in names {
        for b in names {
            assert_eq!(str_lt(a, b), a < b, "{} {}", a, b);
        }
    }
}

#[test]
fn prefix_and_suffix() {
    assert!(starts_with("git://host/index", "git:"));
    assert!(!starts_with("https://host", "git:"));
    assert!(!starts_with("gi", "git:"));
    assert!(starts_with("abc", ""));
    assert!(ends_with("https://crates.io/api/v1/crates", "/api/v1/crates"));
    assert!(!ends_with("https://crates.io/api/v1/crates/", "/api/v1/crates"));
    assert!(ends_with("tuna-sparse", "-sparse"));
    assert!(!ends_with("sparse", "-sparse"));
    assert!(ends_with("abc", ""));
}

#[test]
fn replace_every_occurrence() {
    assert_eq!(replace("a{crate}b{crate}", "{crate}", "crm"), "acrmbcrm");
    assert_eq!(replace("sparse+https://x/", "sparse+", ""), "https://x/");
    assert_eq!(replace("aaa", "aa", "b"), "ba");
    assert_eq!(replace("abc", "x", "y"), "abc");
    assert_eq!(replace("abc", "", "y"), "abc");
    assert_eq!(replace("", "a", "y"), "");
    assert_eq!(replace("{crate", "{crate}", "crm"), "{crate");
}

#[test]
fn replace_agrees_with_std_on_patterns() {
    let texts = ["", "a", "aaaa", "abab", "x{crate}y{version}z", "{crate}{crate}", "ab{cr"];
    let patterns = ["a", "aa", "ab", "{crate}", "{version}", "b"];
    for t in texts {
        for p in patterns {
            assert_eq!(replace(t, p, "-+"), t.replace(p, "-+"));
        }
    }
}

#[test]
fn trimming() {
    assert_eq!(trim("  tuna \t\n"), "tuna");
    assert_eq!(trim("tuna"), "tuna");
    assert_eq!(trim(" a b "), "a b");
    assert_eq!(trim("   "), "");
    assert_eq!(trim(""), "");
    assert_eq!(trim("\u{3000}x\u{a0}"), "x");
    assert_eq!(trim_end("  a \n\n"), "  a");
    assert_eq!(trim_end(" \n"), "");
}

#[test]
fn white_space_agrees_with_std() {
    let mut u: u32 = 0;
    while u < 0x3100 {
        if let Some(c) = char::from_u32(u) {
            assert_eq!(is_whitespace(c), c.is_whitespace(), "{:x}", u);
        }
        u += 1;
    }
}

#[test]
fn decimal_numerals() {
    let mut s = String::from("x");
    push_decimal(&mut s, 0);
    assert_eq!(s, "x0");
    let mut s = String::new();
    push_decimal(&mut s, 1205);
    assert_eq!(s, "1205");
    let mut s = String::new();
    push_decimal(&mut s, u128::MAX);
    assert_eq!(s, "340282366920938463463374607431768211455");
}

#[test]
fn runs_of_spaces() {
    let mut s = String::from("ab");
    push_spaces(&mut s, 3);
    assert_eq!(s, "ab   ");
    push_spaces(&mut s, 0);
    assert_eq!(s, "ab   ");
}

#[test]
fn first_place_of_a_pattern() {
    let v: Vec<char> = "abcabc".chars().collect();
    let p = |t: &str| -> Vec<char> { t.chars().collect() };
    assert_eq!(find(&v, &p("bc")), Some(1));
    assert_eq!(find(&v, &p("abc")), Some(0));
    assert_eq!(find(&v, &p("c")), Some(2));
    assert_eq!(find(&v, &p("cab")), Some(2));
    assert_eq!(find(&v, &p("abcabc")), Some(0));
    assert_eq!(find(&v, &p("abcabcd")), None);
    assert_eq!(find(&v, &p("x")), None);
    assert_eq!(find(&v, &p("")), Some(0));
    assert_eq!(find(&p(""), &p("")), Some(0));
    assert_eq!(find(&p(""), &p("a")), None);
}

#[test]
fn joining() {
    let list = |l: &[&str]| -> Vec<String> { l.iter().map(|w| w.to_string()).collect() };
    assert_eq!(join(&list(&["a", "b", "c"]), " "), "a b c");
    assert_eq!(join(&list(&["a"]), ", "), "a");
    assert_eq!(join(&list(&[]), ", "), "");
    assert_eq!(join(&list(&["", ""]), "-"), "-");
}
