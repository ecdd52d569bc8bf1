use io_maildir::client::{allocate_keyword_letters, MaildirClient, MaildirClientError};
use io_maildir::coroutine::{MaildirCoroutineState, MaildirReply, MaildirYield};
use io_maildir::dovecot::DovecotKeywords;
use io_maildir::entry::MaildirEntry;
use io_maildir::flag::{KeywordHeader, MaildirFlag, MaildirFlags};
use io_maildir::maildir::{Maildir, MaildirSubdir};
use io_maildir::path::{MaildirFsPath, MaildirPath};

fn p(s: &str) -> MaildirFsPath {
    MaildirFsPath::from(s)
}

fn inbox() -> Maildir {
    Maildir::from_path(p("root/inbox"))
}

fn sidecar() -> MaildirFsPath {
    p("root/inbox/dovecot-keywords")
}

#[test]
fn a_new_client_keeps_no_keyword() {
    let client = MaildirClient::new(p("root"));
    assert_eq!(client.store.root, p("root"));
    assert!(!client.store.maildirpp);
    assert!(!client.dovecot_keywords);
    assert!(client.keywords_header.is_none());
    assert!(client.strip_headers.is_empty());
}

#[test]
fn keywords_get_existing_or_lowest_free_slots() {
    let mut table = DovecotKeywords::new();
    table.insert('a', "Work".to_string());
    table.insert('c', "Personal".to_string());
    let mut flags = MaildirFlags::from_iter(vec![MaildirFlag::Seen]);
    let keywords = vec!["Work".to_string(), "New".to_string(), "Other".to_string()];
    let changed = allocate_keyword_letters(&mut table, &mut flags, &keywords);
    assert!(changed);
    assert_eq!(table.get(&'b'), Some(&"New".to_string()));
    assert_eq!(table.get(&'d'), Some(&"Other".to_string()));
    assert_eq!(flags.to_string(), "Sabd");
}

#[test]
fn known_keywords_leave_the_table_unchanged() {
    let mut table = DovecotKeywords::new();
    table.insert('a', "Work".to_string());
    let mut flags = MaildirFlags::new();
    let changed = allocate_keyword_letters(&mut table, &mut flags, &vec!["Work".to_string()]);
    assert!(!changed);
    assert_eq!(table.len(), 1);
    assert_eq!(flags.to_string(), "a");
}

#[test]
fn a_full_table_drops_the_keyword() {
    let mut table = DovecotKeywords::new();
    for n in 0..26u8 {
        table.insert((b'a' + n) as char, format!("k{n}"));
    }
    let mut flags = MaildirFlags::new();
    let changed = allocate_keyword_letters(&mut table, &mut flags, &vec!["extra".to_string()]);
    assert!(!changed);
    assert!(flags.is_empty());
}

#[test]
fn load_maildir_checks_the_root_and_its_subdirs() {
    let client = MaildirClient::new(p("root"));
    let mut cor = client.load_maildir(&MaildirPath::from("inbox"));
    let probes = match cor.resume(None) {
        MaildirCoroutineState::Yielded(MaildirYield::WantsDirExists(paths)) => paths,
        state => panic!("expected WantsDirExists, got {state:?}"),
    };
    assert_eq!(probes, vec![p("root/inbox"), p("root/inbox/cur"), p("root/inbox/new"), p("root/inbox/tmp")]);
    let reply: Vec<(MaildirFsPath, bool)> =
        probes.into_iter().map(|q| { let ok = q.as_str() != "root/inbox/new"; (q, ok) }).collect();
    match cor.resume(Some(MaildirReply::DirExists(reply))) {
        MaildirCoroutineState::Complete(Err(MaildirClientError::MissingSubdir(MaildirSubdir::New, root))) => {
            assert_eq!(root, p("root/inbox"));
        }
        state => panic!("expected MissingSubdir, got {state:?}"),
    }

    let mut cor = client.load_maildir(&MaildirPath::from("inbox"));
    cor.resume(None);
    match cor.resume(Some(MaildirReply::DirExists(vec![(p("root/inbox"), false)]))) {
        MaildirCoroutineState::Complete(Err(MaildirClientError::NotDir(root))) => assert_eq!(root, p("root/inbox")),
        state => panic!("expected NotDir, got {state:?}"),
    }
}

#[test]
fn adding_a_keyword_allocates_and_writes_its_slot_first() {
    let mut client = MaildirClient::new(p("root"));
    client.dovecot_keywords = true;
    let flags = MaildirFlags::from_iter(vec![MaildirFlag::Seen, MaildirFlag::keyword("NonJunk")]);
    let mut cor = client.add_flags(inbox(), "abc", flags);
    match cor.resume(None) {
        MaildirCoroutineState::Yielded(MaildirYield::WantsFileExists(paths)) => assert_eq!(paths, vec![sidecar()]),
        state => panic!("expected WantsFileExists, got {state:?}"),
    }
    match cor.resume(Some(MaildirReply::FileExists(vec![(sidecar(), false)]))) {
        MaildirCoroutineState::Yielded(MaildirYield::WantsFileCreate(files)) => {
            assert_eq!(files, vec![(sidecar(), b"0 NonJunk\n".to_vec())]);
        }
        state => panic!("expected WantsFileCreate, got {state:?}"),
    }
    match cor.resume(Some(MaildirReply::FileCreate)) {
        MaildirCoroutineState::Yielded(MaildirYield::WantsFileExists(paths)) => {
            assert_eq!(paths, vec![p("root/inbox/new/abc"), p("root/inbox/tmp/abc")]);
        }
        state => panic!("expected WantsFileExists, got {state:?}"),
    }
    cor.resume(Some(MaildirReply::FileExists(vec![(p("root/inbox/new/abc"), false), (p("root/inbox/tmp/abc"), false)])));
    let listing = vec![(p("root/inbox/cur"), vec![p("root/inbox/cur/abc:2,F")])];
    match cor.resume(Some(MaildirReply::DirRead(listing))) {
        MaildirCoroutineState::Yielded(MaildirYield::WantsRename(pairs)) => {
            assert_eq!(pairs, vec![(p("root/inbox/cur/abc:2,F"), p("root/inbox/cur/abc:2,SFa"))]);
        }
        state => panic!("expected WantsRename, got {state:?}"),
    }
    match cor.resume(Some(MaildirReply::Rename)) {
        MaildirCoroutineState::Complete(Ok(())) => {}
        state => panic!("expected Complete(Ok), got {state:?}"),
    }
}

#[test]
fn keywords_are_dropped_without_the_dovecot_option() {
    let client = MaildirClient::new(p("root"));
    let flags = MaildirFlags::from_iter(vec![MaildirFlag::keyword("Work")]);
    let mut cor = client.set_flags(inbox(), "abc", flags);
    match cor.resume(None) {
        MaildirCoroutineState::Yielded(MaildirYield::WantsFileExists(paths)) => {
            assert_eq!(paths, vec![p("root/inbox/new/abc"), p("root/inbox/tmp/abc")]);
        }
        state => panic!("expected WantsFileExists, got {state:?}"),
    }
    match cor.resume(Some(MaildirReply::FileExists(vec![(p("root/inbox/new/abc"), true)]))) {
        MaildirCoroutineState::Complete(Ok(())) => {}
        state => panic!("expected Complete(Ok), got {state:?}"),
    }
}

#[test]
fn stored_keywords_go_into_the_header_without_the_separator() {
    let mut client = MaildirClient::new(p("root"));
    client.keywords_header = Some(KeywordHeader::XKeywords);
    let flags = MaildirFlags::from_iter(vec![
        MaildirFlag::keyword("Important"),
        MaildirFlag::keyword("Foo,Bar"),
        MaildirFlag::keyword("Later"),
    ]);
    let mut cor = client.store(inbox(), MaildirSubdir::Cur, flags, b"Subject: s\r\n\r\nbody".to_vec());
    match cor.resume(None) {
        MaildirCoroutineState::Yielded(MaildirYield::WantsTime) => {}
        state => panic!("expected WantsTime, got {state:?}"),
    }
    cor.resume(Some(MaildirReply::Time { secs: 5, nanos: 6, counter: 7 }));
    cor.resume(Some(MaildirReply::Pid(8)));
    match cor.resume(Some(MaildirReply::Hostname("h".to_string()))) {
        MaildirCoroutineState::Yielded(MaildirYield::WantsFileCreate(files)) => {
            assert_eq!(files[0].0, p("root/inbox/tmp/5.#7M6P8.h"));
            assert_eq!(files[0].1, b"X-Keywords: Important, Later\r\nSubject: s\r\n\r\nbody".to_vec());
        }
        state => panic!("expected WantsFileCreate, got {state:?}"),
    }
    match cor.resume(Some(MaildirReply::FileCreate)) {
        MaildirCoroutineState::Yielded(MaildirYield::WantsRename(pairs)) => {
            assert_eq!(pairs, vec![(p("root/inbox/tmp/5.#7M6P8.h"), p("root/inbox/cur/5.#7M6P8.h:2,"))]);
        }
        state => panic!("expected WantsRename, got {state:?}"),
    }
    match cor.resume(Some(MaildirReply::Rename)) {
        MaildirCoroutineState::Complete(Ok((id, path))) => {
            assert_eq!(id, "5.#7M6P8.h");
            assert_eq!(path, p("root/inbox/cur/5.#7M6P8.h:2,"));
        }
        state => panic!("expected Complete(Ok), got {state:?}"),
    }
}

#[test]
fn a_keyword_holding_only_the_separator_leaves_no_header() {
    let mut client = MaildirClient::new(p("root"));
    client.keywords_header = Some(KeywordHeader::XKeywords);
    let flags = MaildirFlags::from_iter(vec![MaildirFlag::keyword("Foo,Bar")]);
    let mut cor = client.store(inbox(), MaildirSubdir::New, flags, b"body".to_vec());
    cor.resume(None);
    cor.resume(Some(MaildirReply::Time { secs: 1, nanos: 1, counter: 1 }));
    cor.resume(Some(MaildirReply::Pid(1)));
    match cor.resume(Some(MaildirReply::Hostname("h".to_string()))) {
        MaildirCoroutineState::Yielded(MaildirYield::WantsFileCreate(files)) => {
            assert_eq!(files[0].1, b"body".to_vec());
        }
        state => panic!("expected WantsFileCreate, got {state:?}"),
    }
}

#[test]
fn read_entries_strip_the_configured_headers() {
    let mut client = MaildirClient::new(p("root"));
    client.strip_headers = vec!["X-Keywords".to_string()];
    let entries = vec![MaildirEntry::from_path(p("root/inbox/cur/a:2,S")), MaildirEntry::from_path(p("root/inbox/new/b"))];
    let mut cor = client.read_entries(&inbox(), &entries);
    match cor.resume(None) {
        MaildirCoroutineState::Yielded(MaildirYield::WantsFileRead(paths)) => {
            assert_eq!(paths, vec![p("root/inbox/cur/a:2,S"), p("root/inbox/new/b")]);
        }
        state => panic!("expected WantsFileRead, got {state:?}"),
    }
    let files = vec![
        (p("root/inbox/new/b"), b"Subject: b\r\n\r\nB".to_vec()),
        (p("root/inbox/cur/a:2,S"), b"x-keywords: k\r\nSubject: a\r\n\r\nA".to_vec()),
    ];
    match cor.resume(Some(MaildirReply::FileRead(files))) {
        MaildirCoroutineState::Complete(Ok(read)) => {
            assert_eq!(read.len(), 2);
            assert_eq!(read[0].contents(), &b"Subject: a\r\n\r\nA".to_vec());
            assert!(read[0].flags().contains(&MaildirFlag::Seen));
            assert_eq!(read[1].contents(), &b"Subject: b\r\n\r\nB".to_vec());
        }
        state => panic!("expected Complete(Ok), got {state:?}"),
    }
}
