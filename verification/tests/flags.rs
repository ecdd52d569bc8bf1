use io_maildir::dovecot::DovecotKeywords;
use io_maildir::entry::headers::{inject_header, strip_headers};
use io_maildir::entry::{mint_id, MaildirEntry, MaildirFullEntry};
use io_maildir::flag::{KeywordHeader, MaildirFlag, MaildirFlags};
use io_maildir::maildir::MaildirSubdir;
use io_maildir::message::{Message, MessageError};
use io_maildir::path::MaildirFsPath;

/// A dovecot `,S=<size>,W=<vsize>` extension lives in the unique part,
/// before the info section, so it is never a flag.
#[test]
fn size_extensions_are_not_flags() {
    let no_info = MaildirFsPath::new("/x/new/1614632942.M123P456.host,S=1234,W=1256".to_string());
    let flags = MaildirFlags::from(&no_info);
    assert!(flags.is_empty(), "an entry with no info section has no flags, got {:?}", flags.to_string());

    let no_comma = MaildirFsPath::new("/x/new/1614632942.M123P456.host".to_string());
    assert!(MaildirFlags::from(&no_comma).is_empty());

    let with_info = MaildirFsPath::new("/x/cur/1614632942.M123P456.host,S=1234,W=1256:2,Sa".to_string());
    let flags = MaildirFlags::from(&with_info);
    assert!(flags.contains(&MaildirFlag::Seen), "Seen must parse");
    assert_eq!(flags.to_string(), "Sa", "the dovecot slot letter must survive beside the named flag");
}

/// Same rule for the dovecot-resolving reader, or a lowercase letter of
/// the unique part could resolve into a keyword the message never had.
#[test]
fn size_extensions_do_not_resolve_as_dovecot_keywords() {
    let mut table = DovecotKeywords::new();
    table.insert('a', "NonJunk".to_string());
    table.insert('w', "Work".to_string());

    let no_info = MaildirFsPath::new("/x/new/1614632942.M123P456.host,a".to_string());
    let resolved = MaildirFlags::with_dovecot(&no_info, &table);
    assert!(resolved.is_empty(), "no info section means no keywords, got {resolved:?}");

    let with_info = MaildirFsPath::new("/x/cur/1614632942.M123P456.host:2,Sa".to_string());
    let resolved: Vec<String> = MaildirFlags::with_dovecot(&with_info, &table)
        .iter()
        .filter_map(|f| f.as_keyword().map(str::to_string))
        .collect();
    assert_eq!(resolved, vec!["NonJunk".to_string()]);
}

#[test]
fn flags_render_in_canonical_order_whatever_the_insertion_order() {
    let a = MaildirFlags::from_iter(vec![MaildirFlag::Flagged, MaildirFlag::Seen, MaildirFlag::Passed]);
    let b = MaildirFlags::from_iter(vec![MaildirFlag::Passed, MaildirFlag::Flagged, MaildirFlag::Seen]);
    assert_eq!(a.to_string(), "PSF");
    assert_eq!(a, b);
}

#[test]
fn rendered_flags_parse_back() {
    let mut flags = MaildirFlags::from_iter(vec![MaildirFlag::Draft, MaildirFlag::Replied]);
    flags.extend_letters(vec!['c', 'a']);
    let name = format!("root/cur/abc:2,{}", flags.to_string());
    assert_eq!(name, "root/cur/abc:2,RDac");
    let back = MaildirFlags::from(&MaildirFsPath::new(name));
    assert_eq!(back, flags);
}

#[test]
fn keyword_header_names_and_separators() {
    assert_eq!(KeywordHeader::XKeywords.header_name(), "X-Keywords");
    assert_eq!(KeywordHeader::XLabel.header_name(), "X-Label");
    assert_eq!(KeywordHeader::XKeywords.separator(), ',');
    assert_eq!(KeywordHeader::XLabel.separator(), ' ');
    assert_eq!(KeywordHeader::parse("X-Keywords"), Ok(KeywordHeader::XKeywords));
    assert_eq!(KeywordHeader::parse("x_label"), Ok(KeywordHeader::XLabel));
    assert_eq!(KeywordHeader::parse("XLABEL"), Ok(KeywordHeader::XLabel));
    assert!(KeywordHeader::parse("X-Tags").is_err());
}

#[test]
fn injected_header_comes_first() {
    let out = inject_header(b"Subject: x\r\n\r\nbody", "X-Keywords", "a, b");
    assert_eq!(out, b"X-Keywords: a, b\r\nSubject: x\r\n\r\nbody".to_vec());
}

#[test]
fn stripped_headers_leave_the_rest_untouched() {
    let msg = b"From: a\r\nX-Keywords: one,\r\n two\r\nSubject: s\r\n\r\nX-Keywords: in body\r\n".to_vec();
    let out = strip_headers(msg.as_slice(), &vec!["x-keywords".to_string()]);
    assert_eq!(out, b"From: a\r\nSubject: s\r\n\r\nX-Keywords: in body\r\n".to_vec());
    let none = strip_headers(msg.as_slice(), &Vec::new());
    assert_eq!(none, msg);
}

#[test]
fn minted_ids_follow_the_delivery_convention() {
    assert_eq!(mint_id(1700000000, 42, 255, 1234, "host"), "1700000000.#ffM42P1234.host");
    assert_eq!(mint_id(0, 0, 0, 0, ""), "0.#0M0P0.");
}

#[test]
fn minted_ids_differ_when_only_the_counter_moves() {
    let first = mint_id(1700000000, 42, 15, 1234, "host");
    let second = mint_id(1700000000, 42, 16, 1234, "host");
    assert_eq!(first, "1700000000.#fM42P1234.host");
    assert_eq!(second, "1700000000.#10M42P1234.host");
    assert_ne!(first, second);
}

#[test]
fn entries_tell_their_id() {
    let entry = MaildirEntry::from_path(MaildirFsPath::from("root/cur/abc.def:2,S"));
    assert_eq!(entry.id(), Some("abc.def"));
    assert!(entry.flags().contains(&MaildirFlag::Seen));
    let full = MaildirFullEntry::from((MaildirFsPath::from("root/new/xyz"), b"b".to_vec()));
    assert_eq!(full.id(), Some("xyz"));
    assert!(full.flags().is_empty());
    assert_eq!(full.into_contents(), b"b".to_vec());
}

#[test]
fn messages_tell_their_subdir() {
    let m = Message::from((MaildirFsPath::from("root/cur/abc:2,S"), Vec::new()));
    assert_eq!(m.id(), Some("abc"));
    assert!(matches!(m.subdir(true, false, true), Ok(MaildirSubdir::Cur)));
    let bad = Message::from((MaildirFsPath::from("root/other/abc"), Vec::new()));
    assert!(matches!(bad.subdir(true, false, true), Err(MessageError::InvalidSubdir(n)) if n == "other"));
    let orphan = Message::from((MaildirFsPath::from("abc"), Vec::new()));
    assert!(matches!(orphan.subdir(true, false, false), Err(MessageError::InvalidParent(_))));
}

#[test]
fn a_missing_message_path_has_no_subdir() {
    let gone = Message::from((MaildirFsPath::from("root/cur/zzz"), Vec::new()));
    assert!(matches!(
        gone.subdir(false, false, true),
        Err(MessageError::InvalidSubdirPath(p)) if p.as_str() == "root/cur/zzz"
    ));
}

#[test]
fn a_subdir_directory_tells_itself() {
    let dir = Message::from((MaildirFsPath::from("inbox/cur"), Vec::new()));
    assert!(matches!(dir.subdir(false, true, true), Ok(MaildirSubdir::Cur)));
    let file_in_new = Message::from((MaildirFsPath::from("inbox/new/x"), Vec::new()));
    assert!(matches!(file_in_new.subdir(true, false, false), Err(MessageError::InvalidSubdirPath(p)) if p.as_str() == "inbox/new"));
}

#[test]
fn removing_just_added_flags_gives_the_set_back() {
    let before = MaildirFlags::from_iter(vec![MaildirFlag::Seen, MaildirFlag::keyword("Work")]);
    let added = MaildirFlags::from_iter(vec![MaildirFlag::Flagged, MaildirFlag::keyword("Later")]);
    let mut flags = before.clone();
    flags.extend(added.clone());
    assert_eq!(flags.to_string(), "SF");
    flags.difference(&added);
    assert_eq!(flags, before);
}

#[test]
fn adding_or_removing_twice_is_doing_it_once() {
    let base = MaildirFlags::from_iter(vec![MaildirFlag::Seen, MaildirFlag::Draft]);
    let more = MaildirFlags::from_iter(vec![MaildirFlag::Replied]);
    let mut once = base.clone();
    once.extend(more.clone());
    let mut twice = once.clone();
    twice.extend(more.clone());
    assert_eq!(twice, once);
    assert_eq!(once.to_string(), "RSD");

    let mut once = base.clone();
    once.difference(&MaildirFlags::from_iter(vec![MaildirFlag::Seen]));
    let mut twice = once.clone();
    twice.difference(&MaildirFlags::from_iter(vec![MaildirFlag::Seen]));
    assert_eq!(twice, once);
    assert_eq!(once.to_string(), "D");
}
