use io_maildir::client::{MaildirClient, MaildirClientError};
use io_maildir::coroutine::{MaildirCoroutineState, MaildirReply, MaildirYield};
use io_maildir::dovecot::load::MaildirDovecotLoad;
use io_maildir::entry::get::MaildirEntryGet;
use io_maildir::entry::headers::extract_keywords_header;
use io_maildir::entry::{MaildirEntry, MaildirFullEntry};
use io_maildir::flag::{KeywordHeader, MaildirFlag, MaildirFlags};
use io_maildir::maildir::{Maildir, MaildirSubdir};
use io_maildir::path::MaildirFsPath;

fn p(s: &str) -> MaildirFsPath {
    MaildirFsPath::from(s)
}

fn maildir(name: &str) -> Maildir {
    Maildir::from_path(p(&format!("root/{name}")))
}

fn sidecar(name: &str) -> MaildirFsPath {
    p(&format!("root/{name}/dovecot-keywords"))
}

fn eml(keywords_header: Option<&str>) -> Vec<u8> {
    let mut lines = vec![
        "From: io-maildir test <test@example.org>".to_string(),
        "Subject: keyword read test".to_string(),
        "Date: Thu, 01 Jan 2026 00:00:00 +0000".to_string(),
    ];
    if let Some(header) = keywords_header {
        lines.push(header.to_string());
    }
    lines.push(String::new());
    lines.push("body".to_string());
    lines.join("\r\n").into_bytes()
}

fn keywords(entry: &MaildirFullEntry) -> Vec<&str> {
    entry.flags().iter().filter_map(MaildirFlag::as_keyword).collect()
}

/// Answers the sidecar probe and read of a read machine with `table`
/// (`None`: no sidecar), and returns the paths then asked for.
fn answer_sidecar<F>(mut resume: F, name: &str, table: Option<&str>) -> Vec<MaildirFsPath>
where
    F: FnMut(Option<MaildirReply>) -> MaildirCoroutineState<MaildirYield, ()>,
{
    match resume(None) {
        MaildirCoroutineState::Yielded(MaildirYield::WantsFileExists(paths)) => assert_eq!(paths, vec![sidecar(name)]),
        state => panic!("expected WantsFileExists, got {state:?}"),
    }
    let exists = table.is_some();
    if exists {
        match resume(Some(MaildirReply::FileExists(vec![(sidecar(name), true)]))) {
            MaildirCoroutineState::Yielded(MaildirYield::WantsFileRead(paths)) => assert_eq!(paths, vec![sidecar(name)]),
            state => panic!("expected WantsFileRead, got {state:?}"),
        }
        let text = table.unwrap();
        match resume(Some(MaildirReply::FileRead(vec![(sidecar(name), text.as_bytes().to_vec())]))) {
            MaildirCoroutineState::Yielded(MaildirYield::WantsFileRead(paths)) => paths,
            state => panic!("expected WantsFileRead, got {state:?}"),
        }
    } else {
        match resume(Some(MaildirReply::FileExists(vec![(sidecar(name), false)]))) {
            MaildirCoroutineState::Yielded(MaildirYield::WantsFileRead(paths)) => paths,
            state => panic!("expected WantsFileRead, got {state:?}"),
        }
    }
}

/// Reads the one entry at `path` of the Maildir `name` holding `bytes`,
/// the sidecar holding `table`.
fn read_only_entry(client: &MaildirClient, name: &str, path: &str, bytes: Vec<u8>, table: Option<&str>) -> MaildirFullEntry {
    let entries = vec![MaildirEntry::from_path(p(path))];
    let mut cor = client.read_entries(&maildir(name), &entries);
    let asked = if client.dovecot_keywords {
        answer_sidecar(
            |arg| match cor.resume(arg) {
                MaildirCoroutineState::Yielded(y) => MaildirCoroutineState::Yielded(y),
                MaildirCoroutineState::Complete(r) => panic!("unexpected end {r:?}"),
            },
            name,
            table,
        )
    } else {
        match cor.resume(None) {
            MaildirCoroutineState::Yielded(MaildirYield::WantsFileRead(paths)) => paths,
            state => panic!("expected WantsFileRead, got {state:?}"),
        }
    };
    assert_eq!(asked, vec![p(path)]);
    match cor.resume(Some(MaildirReply::FileRead(vec![(p(path), bytes)]))) {
        MaildirCoroutineState::Complete(Ok(mut read)) => {
            assert_eq!(read.len(), 1);
            read.remove(0)
        }
        state => panic!("expected Complete(Ok), got {state:?}"),
    }
}

#[test]
fn keywords_stay_unread_while_both_options_are_off() {
    let client = MaildirClient::new(p("root"));
    let entry = read_only_entry(&client, "inbox", "root/inbox/cur/1.h:2,Sa", eml(Some("X-Keywords: Work")), None);
    assert!(keywords(&entry).is_empty());
    assert!(entry.flags().contains(&MaildirFlag::Seen));
    assert_eq!(entry.flags().extra_letters(), &['a']);
}

#[test]
fn dovecot_slot_letters_resolve_on_read() {
    let mut client = MaildirClient::new(p("root"));
    client.dovecot_keywords = true;
    let entry = read_only_entry(&client, "inbox", "root/inbox/cur/1.h:2,Sa", eml(None), Some("0 NonJunk\n"));
    assert_eq!(keywords(&entry), ["NonJunk"]);
    assert!(entry.flags().contains(&MaildirFlag::Seen));
    assert!(entry.flags().extra_letters().is_empty());
}

#[test]
fn header_keywords_resolve_on_read() {
    let mut client = MaildirClient::new(p("root"));
    client.keywords_header = Some(KeywordHeader::XLabel);
    let entry = read_only_entry(&client, "inbox", "root/inbox/cur/1.h:2,", eml(Some("X-Label: later work")), None);
    assert_eq!(keywords(&entry), ["later", "work"]);
}

#[test]
fn every_read_path_resolves_alike() {
    let mut client = MaildirClient::new(p("root"));
    client.dovecot_keywords = true;
    let path = "root/inbox/cur/1.h:2,a";
    let entry = MaildirEntry::from_path(p(path));

    let mut one = client.read_entry(&maildir("inbox"), &entry);
    let asked = answer_sidecar(
        |arg| match one.resume(arg) {
            MaildirCoroutineState::Yielded(y) => MaildirCoroutineState::Yielded(y),
            MaildirCoroutineState::Complete(r) => panic!("unexpected end {r:?}"),
        },
        "inbox",
        Some("0 NonJunk\n"),
    );
    assert_eq!(asked, vec![p(path)]);
    let one = match one.resume(Some(MaildirReply::FileRead(vec![(p(path), eml(None))]))) {
        MaildirCoroutineState::Complete(Ok(mut read)) => read.remove(0),
        state => panic!("expected Complete(Ok), got {state:?}"),
    };
    let sequential = read_only_entry(&client, "inbox", path, eml(None), Some("0 NonJunk\n"));

    let mut get = client.get(maildir("inbox"), "1.h");
    get.resume(None);
    get.resume(Some(MaildirReply::FileExists(vec![(p("root/inbox/new/1.h"), false), (p("root/inbox/tmp/1.h"), false)])));
    match get.resume(Some(MaildirReply::DirRead(vec![(p("root/inbox/cur"), vec![p(path)])]))) {
        MaildirCoroutineState::Yielded(MaildirYield::WantsFileRead(paths)) => assert_eq!(paths, vec![p(path)]),
        state => panic!("expected WantsFileRead, got {state:?}"),
    }
    match get.resume(Some(MaildirReply::FileRead(vec![(p(path), eml(None))]))) {
        MaildirCoroutineState::Yielded(MaildirYield::WantsFileExists(paths)) => assert_eq!(paths, vec![sidecar("inbox")]),
        state => panic!("expected WantsFileExists, got {state:?}"),
    }
    get.resume(Some(MaildirReply::FileExists(vec![(sidecar("inbox"), true)])));
    let fetched = match get.resume(Some(MaildirReply::FileRead(vec![(sidecar("inbox"), b"0 NonJunk\n".to_vec())]))) {
        MaildirCoroutineState::Complete(Ok(entry)) => entry,
        state => panic!("expected Complete(Ok), got {state:?}"),
    };

    assert_eq!(keywords(&one), ["NonJunk"]);
    assert_eq!(one, sequential);
    assert_eq!(keywords(&fetched), ["NonJunk"]);
    assert_eq!(fetched, sequential);
}

#[test]
fn each_mailbox_reads_its_own_table() {
    let mut client = MaildirClient::new(p("root"));
    client.dovecot_keywords = true;
    let inbox = read_only_entry(&client, "inbox", "root/inbox/cur/1.h:2,a", eml(None), Some("0 RootKeyword\n"));
    let work = read_only_entry(&client, "work", "root/work/cur/2.h:2,a", eml(None), Some("0 WorkKeyword\n"));
    assert_eq!(keywords(&inbox), ["RootKeyword"]);
    assert_eq!(keywords(&work), ["WorkKeyword"]);
}

#[test]
fn an_unreadable_sidecar_leaves_the_mailbox_readable() {
    let mut client = MaildirClient::new(p("root"));
    client.dovecot_keywords = true;
    let path = "root/inbox/cur/1.h:2,Sa";
    let entries = vec![MaildirEntry::from_path(p(path))];
    let mut cor = client.read_entries(&maildir("inbox"), &entries);
    cor.resume(None);
    cor.resume(Some(MaildirReply::FileExists(vec![(sidecar("inbox"), true)])));
    match cor.resume(Some(MaildirReply::FileRead(vec![]))) {
        MaildirCoroutineState::Yielded(MaildirYield::WantsFileRead(paths)) => assert_eq!(paths, vec![p(path)]),
        state => panic!("expected WantsFileRead, got {state:?}"),
    }
    let entry = match cor.resume(Some(MaildirReply::FileRead(vec![(p(path), eml(None))]))) {
        MaildirCoroutineState::Complete(Ok(mut read)) => read.remove(0),
        state => panic!("expected Complete(Ok), got {state:?}"),
    };
    assert!(keywords(&entry).is_empty());
    assert!(entry.flags().contains(&MaildirFlag::Seen));
}

#[test]
fn a_missing_sidecar_leaves_the_mailbox_readable() {
    let mut client = MaildirClient::new(p("root"));
    client.dovecot_keywords = true;
    let entry = read_only_entry(&client, "inbox", "root/inbox/cur/1.h:2,Sa", eml(None), None);
    assert!(keywords(&entry).is_empty());
    assert!(entry.flags().contains(&MaildirFlag::Seen));
}

#[test]
fn an_unreadable_entry_fails_the_read() {
    let client = MaildirClient::new(p("root"));
    let entries = vec![MaildirEntry::from_path(p("root/inbox/new/a")), MaildirEntry::from_path(p("root/inbox/new/b"))];
    let mut cor = client.read_entries(&maildir("inbox"), &entries);
    cor.resume(None);
    match cor.resume(Some(MaildirReply::FileRead(vec![(p("root/inbox/new/a"), b"A".to_vec())]))) {
        MaildirCoroutineState::Complete(Err(MaildirClientError::Unreadable(path))) => {
            assert_eq!(path, p("root/inbox/new/b"));
        }
        state => panic!("expected Unreadable, got {state:?}"),
    }
}

#[test]
fn a_located_file_missing_from_the_reply_reads_as_empty() {
    let mut cor = MaildirEntryGet::new(maildir("inbox"), "abc");
    cor.resume(None);
    cor.resume(Some(MaildirReply::FileExists(vec![(p("root/inbox/new/abc"), true)])));
    match cor.resume(Some(MaildirReply::FileRead(vec![]))) {
        MaildirCoroutineState::Complete(Ok(entry)) => {
            assert_eq!(entry.path(), &p("root/inbox/new/abc"));
            assert!(entry.contents().is_empty());
        }
        state => panic!("expected Complete(Ok), got {state:?}"),
    }
}

#[test]
fn an_unreadable_located_file_fails_the_client_get() {
    let client = MaildirClient::new(p("root"));
    let mut cor = client.get(maildir("inbox"), "abc");
    cor.resume(None);
    cor.resume(Some(MaildirReply::FileExists(vec![(p("root/inbox/new/abc"), true)])));
    match cor.resume(Some(MaildirReply::FileRead(vec![]))) {
        MaildirCoroutineState::Complete(Err(MaildirClientError::Unreadable(path))) => {
            assert_eq!(path, p("root/inbox/new/abc"));
        }
        state => panic!("expected Unreadable, got {state:?}"),
    }
}

#[test]
fn a_sidecar_missing_from_the_reply_loads_as_empty() {
    let mut load = MaildirDovecotLoad::new(&maildir("inbox"));
    load.resume(None);
    load.resume(Some(MaildirReply::FileExists(vec![(sidecar("inbox"), true)])));
    match load.resume(Some(MaildirReply::FileRead(vec![]))) {
        MaildirCoroutineState::Complete(Ok(table)) => assert!(table.is_empty()),
        state => panic!("expected Complete(Ok), got {state:?}"),
    }
}

#[test]
fn an_unreadable_sidecar_fails_a_keyword_write() {
    let mut client = MaildirClient::new(p("root"));
    client.dovecot_keywords = true;
    let flags = MaildirFlags::from_iter(vec![MaildirFlag::keyword("NonJunk")]);
    let mut cor = client.store(maildir("inbox"), MaildirSubdir::Cur, flags, eml(None));
    cor.resume(None);
    cor.resume(Some(MaildirReply::FileExists(vec![(sidecar("inbox"), true)])));
    match cor.resume(Some(MaildirReply::FileRead(vec![]))) {
        MaildirCoroutineState::Complete(Err(MaildirClientError::Unreadable(path))) => assert_eq!(path, sidecar("inbox")),
        state => panic!("expected Unreadable, got {state:?}"),
    }
}

#[test]
fn locating_by_id_skips_names_the_id_only_starts() {
    let mut cor = io_maildir::entry::locate::MaildirEntryLocate::new(Maildir::from_path(p("root")), "abc");
    cor.resume(None);
    cor.resume(Some(MaildirReply::FileExists(vec![(p("root/new/abc"), false), (p("root/tmp/abc"), false)])));
    let listing = vec![(p("root/cur"), vec![p("root/cur/abc-2:2,S"), p("root/cur/abc:2,F")])];
    match cor.resume(Some(MaildirReply::DirRead(listing))) {
        MaildirCoroutineState::Complete(Ok(out)) => {
            assert_eq!(out.path, p("root/cur/abc:2,F"));
            assert_eq!(out.subdir, MaildirSubdir::Cur);
            assert_eq!(out.flags, MaildirFlags::from_iter(vec![MaildirFlag::Flagged]));
        }
        state => panic!("expected Complete(Ok), got {state:?}"),
    }
}

/// Runs a client store of `flags` and `body` in `cur` of the inbox,
/// and returns the bytes written.
fn stored_bytes(client: &MaildirClient, flags: MaildirFlags, body: Vec<u8>) -> Vec<u8> {
    let mut cor = client.store(maildir("inbox"), MaildirSubdir::Cur, flags, body);
    cor.resume(None);
    cor.resume(Some(MaildirReply::Time { secs: 1, nanos: 2, counter: 3 }));
    cor.resume(Some(MaildirReply::Pid(4)));
    match cor.resume(Some(MaildirReply::Hostname("h".to_string()))) {
        MaildirCoroutineState::Yielded(MaildirYield::WantsFileCreate(mut files)) => files.remove(0).1,
        state => panic!("expected WantsFileCreate, got {state:?}"),
    }
}

#[test]
fn normal_keyword_round_trips_via_header() {
    let mut client = MaildirClient::new(p("root"));
    client.keywords_header = Some(KeywordHeader::XKeywords);
    let bytes = stored_bytes(&client, MaildirFlags::from_iter(vec![MaildirFlag::keyword("Important")]), eml(None));
    let kws = extract_keywords_header(&bytes, KeywordHeader::XKeywords);
    assert_eq!(kws, vec!["Important".to_string()]);
}

#[test]
fn keyword_with_separator_is_dropped_not_corrupted() {
    let mut client = MaildirClient::new(p("root"));
    client.keywords_header = Some(KeywordHeader::XKeywords);
    let bytes = stored_bytes(&client, MaildirFlags::from_iter(vec![MaildirFlag::keyword("Foo,Bar")]), eml(None));
    let kws = extract_keywords_header(&bytes, KeywordHeader::XKeywords);
    assert!(!kws.iter().any(|k| k == "Foo"), "no corrupted `Foo` fragment should appear");
    assert!(!kws.iter().any(|k| k == "Bar"), "no corrupted `Bar` fragment should appear");
    assert!(kws.is_empty(), "the corruptible keyword should be dropped entirely, got {kws:?}");
}

#[test]
fn label_keywords_written_on_store_read_back() {
    let mut client = MaildirClient::new(p("root"));
    client.keywords_header = Some(KeywordHeader::XLabel);
    let flags = MaildirFlags::from_iter(vec![MaildirFlag::keyword("work"), MaildirFlag::keyword("later")]);
    let bytes = stored_bytes(&client, flags, eml(None));
    assert!(bytes.starts_with(b"X-Label: later work\r\n"));
    let entry = read_only_entry(&client, "inbox", "root/inbox/cur/1.#3M2P4.h:2,", bytes, None);
    assert_eq!(keywords(&entry), ["later", "work"]);
}

#[test]
fn extraction_reads_the_first_field_up_to_case_and_unfolds_it() {
    let bytes = b"Subject: s\r\nx-keywords:  one ,two,\r\n\tthree\r\nX-Keywords: four\r\n\r\nX-Keywords: body\r\n".to_vec();
    assert_eq!(
        extract_keywords_header(&bytes, KeywordHeader::XKeywords),
        vec!["one".to_string(), "two".to_string(), "three".to_string()],
    );
}

#[test]
fn extraction_stops_at_the_end_of_the_header_section() {
    let bytes = b"Subject: s\n\nX-Label: a b\n".to_vec();
    assert!(extract_keywords_header(&bytes, KeywordHeader::XLabel).is_empty());
    assert!(extract_keywords_header(b"", KeywordHeader::XLabel).is_empty());
}

#[test]
fn extraction_skips_empty_pieces() {
    let bytes = b"X-Label:   a   b \r\n\r\n".to_vec();
    assert_eq!(extract_keywords_header(&bytes, KeywordHeader::XLabel), vec!["a".to_string(), "b".to_string()]);
    let bytes = b"X-Keywords: ,, x ,\r\n\r\n".to_vec();
    assert_eq!(extract_keywords_header(&bytes, KeywordHeader::XKeywords), vec!["x".to_string()]);
}

#[test]
fn a_stripped_keywords_header_leaves_the_stored_body() {
    let mut client = MaildirClient::new(p("root"));
    client.keywords_header = Some(KeywordHeader::XKeywords);
    client.strip_headers = vec!["X-Keywords".to_string()];
    let body = eml(None);
    let bytes = stored_bytes(&client, MaildirFlags::from_iter(vec![MaildirFlag::keyword("Important")]), body.clone());
    assert_ne!(bytes, body);
    let entry = read_only_entry(&client, "inbox", "root/inbox/cur/1.#3M2P4.h:2,", bytes, None);
    assert_eq!(entry.contents(), &body);
    assert_eq!(keywords(&entry), ["Important"]);
}
