use io_maildir::dovecot::{allocate_keyword_slot, parse_dovecot_keywords, serialize_dovecot_keywords, DovecotKeywords};

#[test]
fn parse_dovecot_table_basic() {
    let text = "0 Important\n1 Work\n2 Personal\n";
    let table = parse_dovecot_keywords(text);
    assert_eq!(table.get(&'a'), Some(&"Important".to_string()));
    assert_eq!(table.get(&'b'), Some(&"Work".to_string()));
    assert_eq!(table.get(&'c'), Some(&"Personal".to_string()));
}

#[test]
fn parse_dovecot_table_with_gaps() {
    let text = "0 Important\n\n3 Work\n";
    let table = parse_dovecot_keywords(text);
    assert_eq!(table.get(&'a'), Some(&"Important".to_string()));
    assert_eq!(table.get(&'d'), Some(&"Work".to_string()));
    assert!(!table.contains_key(&'b'));
}

#[test]
fn parse_dovecot_table_drops_overflow() {
    let text = "26 ShouldBeIgnored\n0 Ok\n";
    let table = parse_dovecot_keywords(text);
    assert_eq!(table.get(&'a'), Some(&"Ok".to_string()));
    assert_eq!(table.len(), 1);
}

#[test]
fn serialize_dovecot_table_deterministic() {
    let mut table = DovecotKeywords::new();
    table.insert('b', "Work".to_string());
    table.insert('a', "Important".to_string());
    assert_eq!(serialize_dovecot_keywords(&table), "0 Important\n1 Work\n");
}

#[test]
fn allocate_returns_existing_slot() {
    let mut table = DovecotKeywords::new();
    table.insert('a', "Work".to_string());
    assert_eq!(allocate_keyword_slot(&mut table, "Work"), Some('a'));
    assert_eq!(table.len(), 1);
}

#[test]
fn allocate_picks_lowest_free_slot() {
    let mut table = DovecotKeywords::new();
    table.insert('a', "Work".to_string());
    table.insert('c', "Personal".to_string());
    assert_eq!(allocate_keyword_slot(&mut table, "New"), Some('b'));
}

#[test]
fn allocate_returns_none_when_full() {
    let mut table = DovecotKeywords::new();
    for n in 0..26u8 {
        table.insert((b'a' + n) as char, format!("k{n}"));
    }
    assert_eq!(allocate_keyword_slot(&mut table, "extra"), None);
}
