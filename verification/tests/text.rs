use vscode2helix::converter::ordmap::OrdMap;
use vscode2helix::converter::sorted::sort_dedup;
use vscode2helix::converter::text::{
    clone_strings, is_whitespace, split_whitespace, starts_with, str_eq, str_lt, strip_prefix,
};

fn owned(items: &[&str]) -> Vec<String> {
    items.iter().map(|s| s.to_string()).collect()
}

const SAMPLES: [&str; 14] = [
    "",
    "a",
    "b",
    "ab",
    "abc",
    "abd",
    "B",
    "bold",
    "italic",
    "é",
    "e\u{301}",
    "\u{10000}",
    "\u{ffff}",
    "zz",
];

#[test]
fn split_whitespace_gives_the_words() {
    assert_eq!(split_whitespace(""), Vec::<String>::new());
    assert_eq!(split_whitespace("   \t\n"), Vec::<String>::new());
    assert_eq!(split_whitespace("italic"), owned(&["italic"]));
    assert_eq!(split_whitespace("bold italic"), owned(&["bold", "italic"]));
    assert_eq!(split_whitespace("  bold   italic  "), owned(&["bold", "italic"]));
    assert_eq!(split_whitespace("a\tb\nc\r\nd"), owned(&["a", "b", "c", "d"]));
    assert_eq!(split_whitespace("x y x"), owned(&["x", "y", "x"]));
    assert_eq!(split_whitespace("é\u{a0}ü\u{3000}ß"), owned(&["é", "ü", "ß"]));
    assert_eq!(split_whitespace("a\u{200b}b"), owned(&["a\u{200b}b"]));
}

#[test]
fn split_whitespace_agrees_with_std_on_samples() {
    let texts = [
        "",
        " ",
        "a",
        " a",
        "a ",
        "bold italic underline",
        "\u{2003}wide\u{2003}spaces\u{2003}",
        "tabs\tand\u{b}vertical\u{c}feeds",
        "\u{85}next\u{85}line",
        "\u{1680}ogham\u{2028}line\u{2029}para\u{202f}narrow\u{205f}math",
        "no\u{feff}space\u{180e}here\u{200b}either",
    ];
    for text in texts {
        let expected: Vec<String> = text.split_whitespace().map(|w| w.to_string()).collect();
        assert_eq!(split_whitespace(text), expected);
    }
}

#[test]
fn is_whitespace_agrees_with_std_on_every_character() {
    let mut count = 0;
    for n in 0..=0x10FFFFu32 {
        if let Some(c) = char::from_u32(n) {
            assert_eq!(is_whitespace(c), c.is_whitespace());
            if is_whitespace(c) {
                count += 1;
                let mut text = String::from("a");
                text.push(c);
                text.push('b');
                assert_eq!(split_whitespace(&text), owned(&["a", "b"]));
            }
        }
    }
    assert_eq!(count, 25);
}

#[test]
fn is_whitespace_on_chosen_characters() {
    for c in ['\t', '\n', '\u{b}', '\u{c}', '\r', ' ', '\u{85}', '\u{a0}', '\u{1680}'] {
        assert!(is_whitespace(c));
    }
    for c in ['\u{2000}', '\u{2005}', '\u{200a}', '\u{2028}', '\u{2029}', '\u{202f}'] {
        assert!(is_whitespace(c));
    }
    assert!(is_whitespace('\u{205f}'));
    assert!(is_whitespace('\u{3000}'));
    for c in ['\u{8}', '\u{e}', '\u{1f}', '!', 'a', '\u{84}', '\u{86}', '\u{9f}', '\u{a1}'] {
        assert!(!is_whitespace(c));
    }
    for c in ['\u{167f}', '\u{1681}', '\u{180e}', '\u{1fff}', '\u{200b}', '\u{2027}'] {
        assert!(!is_whitespace(c));
    }
    for c in ['\u{202a}', '\u{202e}', '\u{2030}', '\u{205e}', '\u{2060}', '\u{2fff}'] {
        assert!(!is_whitespace(c));
    }
    for c in ['\u{3001}', '\u{feff}', '\u{10ffff}'] {
        assert!(!is_whitespace(c));
    }
}

#[test]
fn str_lt_is_the_order_of_strings() {
    for a in SAMPLES {
        for b in SAMPLES {
            assert_eq!(str_lt(a, b), a < b);
        }
    }
    assert!(str_lt("", "a"));
    assert!(!str_lt("a", ""));
    assert!(!str_lt("a", "a"));
    assert!(str_lt("ab", "abc"));
    assert!(str_lt("abc", "abd"));
    assert!(str_lt("B", "a"));
    assert!(str_lt("\u{ffff}", "\u{10000}"));
}

#[test]
fn str_eq_is_equality_of_strings() {
    for a in SAMPLES {
        for b in SAMPLES {
            assert_eq!(str_eq(a, b), a == b);
        }
    }
    assert!(str_eq("", ""));
    assert!(!str_eq("é", "e\u{301}"));
}

#[test]
fn starts_with_checks_the_beginning() {
    for a in SAMPLES {
        for b in SAMPLES {
            assert_eq!(starts_with(a, b), a.starts_with(b));
        }
    }
    assert!(starts_with("entity.name.tag", "entity.name."));
    assert!(!starts_with("entity.name", "entity.name."));
    assert!(starts_with("anything", ""));
    assert!(starts_with("", ""));
    assert!(!starts_with("", "a"));
}

#[test]
fn strip_prefix_takes_the_beginning_off_once() {
    assert_eq!(strip_prefix("entity.name.tag", "entity.name."), Some("tag"));
    assert_eq!(strip_prefix("entity.name", "entity.name."), None);
    assert_eq!(strip_prefix("aaab", "a"), Some("aab"));
    assert_eq!(strip_prefix("ababa", "ab"), Some("aba"));
    assert_eq!(strip_prefix("baa", "a"), None);
    assert_eq!(strip_prefix("abc", ""), Some("abc"));
    assert_eq!(strip_prefix("", ""), Some(""));
    assert_eq!(strip_prefix("", "a"), None);
    assert_eq!(strip_prefix("ééx", "é"), Some("éx"));
    for a in SAMPLES {
        for b in SAMPLES {
            assert_eq!(strip_prefix(a, b), a.strip_prefix(b));
        }
    }
}

#[test]
fn clone_strings_copies_in_order() {
    assert_eq!(clone_strings(&owned(&["b", "a", "b"])), owned(&["b", "a", "b"]));
    assert_eq!(clone_strings(&Vec::new()), Vec::<String>::new());
}

#[test]
fn sort_dedup_orders_and_drops_repeats() {
    assert_eq!(sort_dedup(Vec::new()), Vec::<String>::new());
    assert_eq!(sort_dedup(owned(&["italic", "bold"])), owned(&["bold", "italic"]));
    assert_eq!(sort_dedup(owned(&["b", "a", "b", "a", "c"])), owned(&["a", "b", "c"]));
    assert_eq!(sort_dedup(owned(&["a", "a", "a"])), owned(&["a"]));
    assert_eq!(sort_dedup(owned(&["ab", "a", "", "B"])), owned(&["", "B", "a", "ab"]));
    let mut expected = owned(&SAMPLES);
    expected.sort();
    expected.dedup();
    let mut twice = owned(&SAMPLES);
    twice.extend(owned(&SAMPLES).into_iter().rev());
    assert_eq!(sort_dedup(twice), expected);
}

#[test]
fn ordmap_insert_get_remove() {
    let mut map: OrdMap<u32> = OrdMap::new();
    assert_eq!(map.len(), 0);
    assert_eq!(map.get("a"), None);
    assert!(!map.contains_key("a"));
    assert_eq!(map.remove("a"), None);

    map.insert("m".to_string(), 1);
    map.insert("a".to_string(), 2);
    map.insert("z".to_string(), 3);
    map.insert("m".to_string(), 4);
    assert_eq!(map.len(), 3);
    assert_eq!(map.get("a"), Some(&2));
    assert_eq!(map.get("m"), Some(&4));
    assert_eq!(map.get("z"), Some(&3));
    assert_eq!(map.get("b"), None);
    assert!(map.contains_key("z"));
    assert_eq!(map.keys(), &owned(&["a", "m", "z"]));

    assert_eq!(map.remove("m"), Some(4));
    assert_eq!(map.remove("m"), None);
    assert_eq!(map.len(), 2);
    assert_eq!(map.get("a"), Some(&2));
    assert_eq!(map.get("z"), Some(&3));
    assert_eq!(map.keys(), &owned(&["a", "z"]));
}

#[test]
fn ordmap_agrees_with_a_btree_map() {
    let mut map: OrdMap<usize> = OrdMap::new();
    let mut model = std::collections::BTreeMap::new();
    let keys = ["q", "b", "", "qq", "a", "b", "é", "Q", "a", "zz", "q"];
    for (i, key) in keys.iter().enumerate() {
        map.insert(key.to_string(), i);
        model.insert(key.to_string(), i);
        if i % 3 == 2 {
            let gone = keys[i - 2];
            assert_eq!(map.remove(gone), model.remove(gone));
        }
        assert_eq!(map.len(), model.len());
        let listed: Vec<String> = model.keys().cloned().collect();
        assert_eq!(map.keys(), &listed);
        for key in keys {
            assert_eq!(map.get(key), model.get(key));
        }
    }
}
