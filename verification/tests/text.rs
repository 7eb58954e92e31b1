use mariadb_kb_crawler::text::{char_is_whitespace, trim_whitespace};

#[test]
fn whitespace_is_what_std_calls_whitespace() {
    let mut count = 0;
    for c in (0..=0x10FFFFu32).filter_map(char::from_u32) {
        assert_eq!(char_is_whitespace(c), c.is_whitespace(), "{:x}", c as u32);
        if c.is_whitespace() {
            count += 1;
        }
    }
    assert_eq!(count, 25);
}

#[test]
fn trim_whitespace_matches_str_trim() {
    for s in [" a b ", "\u{3000}x\u{85}", "", "\t\n", "no"] {
        assert_eq!(trim_whitespace(s), s.trim(), "{s:?}");
    }
}
