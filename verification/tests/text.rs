use duckle::bytes::{bytes_of, extend, find_subslice, part};
use duckle::json::{add_item, add_member, count, field, list, number_json, text, texts_json, Json};
use duckle::number::{decimal_of, read_number, read_signed, signed_decimal_of};
use duckle::order::{before, put_in_order, TextMap};
use duckle::paths::{file_extension, file_stem, flatten_path, is_inside, join as join_paths};
use duckle::text::{
    contains, ends_with, find_from, has_char, is_blank, join, pad_left, pad_right, same,
    same_ignoring_case, split_lines, split_on, split_on_text, split_once, split_words, starts_with,
    strip_all, strip_back, strip_front, strip_prefix, swap_char, take_before, take_before_last, to_lower,
    trim, white_space,
};

const SAMPLES: [&str; 12] = [
    "",
    " ",
    "a",
    "a b",
    "  a\tb\n",
    "\u{a0}x\u{2003}",
    "a,b,,c",
    ",",
    "one\r\ntwo\nthree",
    "\n\n",
    "日本 語",
    "\r\nx\r",
];

#[test]
fn whitespace_is_what_unicode_says_it_is() {
    for c in (0..=0x10ffffu32).filter_map(char::from_u32) {
        assert_eq!(white_space(c), c.is_whitespace(), "{:x}", c as u32);
    }
}

#[test]
fn texts_are_taken_apart_as_std_does() {
    for s in SAMPLES {
        assert_eq!(trim(s), s.trim(), "{s:?}");
        assert_eq!(is_blank(s), s.trim().is_empty(), "{s:?}");
        assert_eq!(split_words(s), s.split_whitespace().collect::<Vec<_>>(), "{s:?}");
        assert_eq!(split_on(s, ','), s.split(',').collect::<Vec<_>>(), "{s:?}");
        assert_eq!(split_lines(s), s.lines().collect::<Vec<_>>(), "{s:?}");
        assert_eq!(split_on_text(s, "\r\n"), s.split("\r\n").collect::<Vec<_>>(), "{s:?}");
        assert_eq!(
            split_once(s, ','),
            s.split_once(',').map(|(a, b)| (a.to_string(), b.to_string())),
            "{s:?}"
        );
        assert_eq!(take_before(s, ','), s.split(',').next().unwrap(), "{s:?}");
        assert_eq!(take_before_last(s, ','), s.rsplit_once(',').map(|x| x.0).unwrap_or(s), "{s:?}");
        assert_eq!(strip_front(s, ','), s.trim_start_matches(','), "{s:?}");
        assert_eq!(strip_back(s, '\n'), s.trim_end_matches('\n'), "{s:?}");
        assert_eq!(to_lower(s), s.to_ascii_lowercase(), "{s:?}");
        assert_eq!(swap_char(s, 'a', 'z'), s.replace('a', "z"), "{s:?}");
        assert_eq!(has_char(s, 'b'), s.contains('b'), "{s:?}");
        assert_eq!(bytes_of(s), s.as_bytes(), "{s:?}");
        for t in SAMPLES {
            assert_eq!(same(s, t), s == t);
            assert_eq!(contains(s, t), s.contains(t), "{s:?} {t:?}");
            assert_eq!(starts_with(s, t), s.starts_with(t), "{s:?} {t:?}");
            assert_eq!(ends_with(s, t), s.ends_with(t), "{s:?} {t:?}");
            assert_eq!(strip_prefix(s, t).as_deref(), s.strip_prefix(t), "{s:?} {t:?}");
            assert_eq!(before(s, t), s < t, "{s:?} {t:?}");
            assert_eq!(same_ignoring_case(s, t), s.eq_ignore_ascii_case(t));
        }
    }
    assert_eq!(strip_all("aaab", "a"), "b");
    assert_eq!(join(&vec!["a".to_string(), "".to_string(), "c".to_string()], ", "), "a, , c");
    assert_eq!(pad_right("ab", 4), format!("{:<4}", "ab"));
    assert_eq!(pad_right("日本語", 2), format!("{:<2}", "日本語"));
    assert_eq!(pad_left("7", 3), format!("{:>3}", "7"));
    assert_eq!(find_from(&vec!['a', 'b', 'a'], 1, 'a'), 2);
}

#[test]
fn numbers_are_read_and_written_as_std_does() {
    for n in [0u64, 7, 10, 999, u64::MAX] {
        assert_eq!(decimal_of(n), n.to_string());
        assert_eq!(read_number(&n.to_string(), u64::MAX), Some(n));
    }
    for n in [0i64, -1, 42, i64::MIN, i64::MAX] {
        assert_eq!(signed_decimal_of(n), n.to_string());
        assert_eq!(read_signed(&n.to_string()), Some(n));
    }
    for s in ["", "+", "-", "+5", "-5", " 5", "5x", "００", "18446744073709551615", "18446744073709551616", "00012"] {
        assert_eq!(read_number(s, u64::MAX), s.parse::<u64>().ok(), "{s}");
        assert_eq!(read_signed(s), s.parse::<i64>().ok(), "{s}");
        assert_eq!(read_number(s, 65_535).map(|n| n as u16), s.parse::<u16>().ok(), "{s}");
    }
}

#[test]
fn a_map_keeps_its_keys_in_order() {
    let mut m: TextMap<u32> = TextMap::new();
    for (i, k) in ["b", "a", "c", "a", "日"].iter().enumerate() {
        m.insert(k.to_string(), i as u32);
    }
    assert_eq!(m.names(), vec!["a", "b", "c", "日"]);
    assert_eq!(m.get("a"), Some(&3));
    assert_eq!(m.len(), 4);
    assert_eq!((m.key_at(1), *m.value_at(1)), ("b", 0));
    m.remove("b");
    m.remove("never");
    assert!(!m.has("b"));
    assert_eq!(m.len(), 3);
}

#[test]
fn an_order_is_stable_either_way() {
    let keys: Vec<String> = ["b", "a", "b", "", "a"].iter().map(|s| s.to_string()).collect();
    assert_eq!(put_in_order(&keys, false), vec![3, 1, 4, 0, 2]);
    assert_eq!(put_in_order(&keys, true), vec![0, 2, 1, 4, 3]);
    assert!(put_in_order(&vec![], false).is_empty());
}

#[test]
fn paths_are_joined_and_taken_apart() {
    assert_eq!(join_paths("/w", "a", false), "/w/a");
    assert_eq!(join_paths("/w/", "a", false), "/w/a");
    assert_eq!(join_paths("/w", "/a", false), "/a");
    assert_eq!(join_paths("", "a", false), "a");
    for name in ["a.json", "a", ".hidden", "a.b.c", "a.", ".."] {
        let p = std::path::Path::new(name);
        assert_eq!(
            file_extension(name).as_deref(),
            p.extension().and_then(|e| e.to_str()),
            "{name}"
        );
        if let Some(stem) = p.file_stem() {
            assert_eq!(file_stem(name), stem.to_str().unwrap(), "{name}");
        }
    }
    assert_eq!(flatten_path("/a/./b/../c//d/", false), "/a/c/d");
    assert_eq!(flatten_path("/../x", false), "/x");
    assert_eq!(flatten_path("a/../../b", false), "b");
    assert!(is_inside("/w", "/w/a", false));
    assert!(is_inside("/w", "/w", false));
    assert!(!is_inside("/w", "/work", false));
    assert!(is_inside("/", "/etc", false));
}

#[test]
fn bytes_are_found_and_cut() {
    let mut v = b"abc".to_vec();
    extend(&mut v, b"def");
    assert_eq!(v, b"abcdef");
    assert_eq!(part(&v, 2, 4), b"cd");
    assert_eq!(find_subslice(&v, b"cd"), Some(2));
    assert_eq!(find_subslice(&v, b"x"), None);
}

#[test]
fn values_are_built_and_read() {
    let mut m: Vec<(String, Json)> = Vec::new();
    add_member(&mut m, "n", number_json(7));
    add_member(&mut m, "t", texts_json(&vec!["a".to_string()]));
    let j = Json::Object(m);
    assert_eq!(count(field(Some(&j), "n")), Some(7));
    let items = list(field(Some(&j), "t")).unwrap();
    assert_eq!(text(Some(&items[0])), Some("a"));
    let copy = j.copy();
    assert_eq!(format!("{copy:?}"), format!("{j:?}"));
    let mut v: Vec<Json> = Vec::new();
    add_item(&mut v, Json::Null);
    assert_eq!(v.len(), 1);
}

#[test]
fn windows_paths_join_and_flatten() {
    assert_eq!(join_paths("C:\\ws", "a/b", true), "C:\\ws\\a\\b");
    assert_eq!(join_paths("C:\\", "a", true), "C:\\a");
    assert_eq!(join_paths("C:/", "a", true), "C:/a");
    assert_eq!(join_paths("C:", "a", true), "C:a");
    assert_eq!(join_paths("C:\\ws", "D:\\x", true), "D:\\x");
    assert_eq!(join_paths("C:\\ws", "/x", true), "C:\\x");
    assert_eq!(join_paths("\\\\srv\\share\\ws", "\\x", true), "\\\\srv\\share\\x");
    assert_eq!(
        join_paths("\\\\?\\UNC\\srv\\share\\ws", "/x", true),
        "\\\\?\\UNC\\srv\\share\\x"
    );
    assert_eq!(flatten_path("C:/a/./b/../c//d/", true), "C:\\a\\c\\d");
    assert_eq!(flatten_path("C:\\..\\..", true), "C:\\");
    assert_eq!(flatten_path("\\\\srv\\share\\..\\x", true), "\\\\srv\\share\\x");
    assert_eq!(flatten_path("a\\..\\..\\b", true), "b");
    assert!(is_inside("C:\\ws", "C:/ws/a", true));
    assert!(!is_inside("C:\\ws", "C:\\ws2", true));
    assert!(!is_inside("C:\\ws", "C:\\ws\\a", false));
}
