use io_maildir::coroutine::{MaildirCoroutineState, MaildirReply, MaildirYield};
use io_maildir::entry::copy::{MaildirEntryCopy, MaildirEntryCopyError};
use io_maildir::entry::get::{MaildirEntryGet, MaildirEntryGetError};
use io_maildir::entry::list::{MaildirEntryList, MaildirEntryListError};
use io_maildir::entry::locate::{MaildirEntryLocate, MaildirEntryLocateError};
use io_maildir::entry::relocate::MaildirEntryMove;
use io_maildir::entry::store::MaildirEntryStore;
use io_maildir::flag::{MaildirFlag, MaildirFlags};
use io_maildir::maildir::{Maildir, MaildirSubdir};
use io_maildir::path::MaildirFsPath;

fn p(s: &str) -> MaildirFsPath {
    MaildirFsPath::from(s)
}

fn maildir() -> Maildir {
    Maildir::from_path(p("root"))
}

fn source() -> Maildir {
    Maildir::from_path(p("root/src"))
}

fn target() -> Maildir {
    Maildir::from_path(p("root/dst"))
}

fn locate_wants_file_exists(cor: &mut MaildirEntryLocate) -> Vec<MaildirFsPath> {
    match cor.resume(None) {
        MaildirCoroutineState::Yielded(MaildirYield::WantsFileExists(paths)) => paths,
        state => panic!("expected WantsFileExists, got {state:?}"),
    }
}

#[test]
fn found_in_new_returns_ok() {
    let mut cor = MaildirEntryLocate::new(maildir(), "abc");

    let probes = locate_wants_file_exists(&mut cor);
    let new_path = p("root/new/abc");
    let tmp_path = p("root/tmp/abc");
    assert!(probes.contains(&new_path));
    assert!(probes.contains(&tmp_path));

    let map = vec![(new_path.clone(), true), (tmp_path, false)];
    match cor.resume(Some(MaildirReply::FileExists(map))) {
        MaildirCoroutineState::Complete(Ok(out)) => {
            assert_eq!(out.path, new_path);
            assert_eq!(out.subdir, MaildirSubdir::New);
        }
        state => panic!("expected Complete(Ok), got {state:?}"),
    }
}

#[test]
fn not_found_returns_error() {
    let mut cor = MaildirEntryLocate::new(maildir(), "abc");

    locate_wants_file_exists(&mut cor);

    let probe = vec![(p("root/new/abc"), false), (p("root/tmp/abc"), false)];
    match cor.resume(Some(MaildirReply::FileExists(probe))) {
        MaildirCoroutineState::Yielded(MaildirYield::WantsDirRead(paths)) => {
            assert!(paths.contains(&p("root/cur")));
        }
        state => panic!("expected WantsDirRead, got {state:?}"),
    }

    let entries = vec![(p("root/cur"), Vec::new())];
    match cor.resume(Some(MaildirReply::DirRead(entries))) {
        MaildirCoroutineState::Complete(Err(err)) => {
            assert!(matches!(err, MaildirEntryLocateError::NotFound(_)));
        }
        state => panic!("expected Complete(Err), got {state:?}"),
    }
}

#[test]
fn locate_unexpected_reply_returns_error() {
    let mut cor = MaildirEntryLocate::new(maildir(), "abc");
    locate_wants_file_exists(&mut cor);

    match cor.resume(Some(MaildirReply::DirCreate)) {
        MaildirCoroutineState::Complete(Err(err)) => {
            assert!(matches!(err, MaildirEntryLocateError::UnexpectedArg(_)));
        }
        state => panic!("expected Complete(Err), got {state:?}"),
    }
}

#[test]
fn locate_in_cur_parses_flags_and_takes_the_first_match() {
    let mut cor = MaildirEntryLocate::new(maildir(), "abc");
    locate_wants_file_exists(&mut cor);
    let probe = vec![(p("root/new/abc"), false), (p("root/tmp/abc"), false)];
    cor.resume(Some(MaildirReply::FileExists(probe)));
    let entries = vec![(
        p("root/cur"),
        vec![p("root/cur/zzz:2,S"), p("root/cur/abc:2,FS"), p("root/cur/abcd:2,T")],
    )];
    match cor.resume(Some(MaildirReply::DirRead(entries))) {
        MaildirCoroutineState::Complete(Ok(out)) => {
            assert_eq!(out.path, p("root/cur/abc:2,FS"));
            assert_eq!(out.subdir, MaildirSubdir::Cur);
            assert!(out.flags.contains(&MaildirFlag::Seen));
            assert!(out.flags.contains(&MaildirFlag::Flagged));
            assert_eq!(out.flags.to_string(), "SF");
        }
        state => panic!("expected Complete(Ok), got {state:?}"),
    }
}

#[test]
fn get_unexpected_reply_returns_error() {
    let mut cor = MaildirEntryGet::new(maildir(), "abc");
    match cor.resume(None) {
        MaildirCoroutineState::Yielded(MaildirYield::WantsFileExists(_)) => {}
        state => panic!("expected WantsFileExists, got {state:?}"),
    }

    match cor.resume(Some(MaildirReply::DirCreate)) {
        MaildirCoroutineState::Complete(Err(err)) => {
            assert!(matches!(err, MaildirEntryGetError::Locate(_)));
        }
        state => panic!("expected Complete(Err), got {state:?}"),
    }
}

#[test]
fn get_reads_the_located_file() {
    let mut cor = MaildirEntryGet::new(maildir(), "abc");
    cor.resume(None);
    let probe = vec![(p("root/new/abc"), true), (p("root/tmp/abc"), false)];
    match cor.resume(Some(MaildirReply::FileExists(probe))) {
        MaildirCoroutineState::Yielded(MaildirYield::WantsFileRead(paths)) => {
            assert_eq!(paths, vec![p("root/new/abc")]);
        }
        state => panic!("expected WantsFileRead, got {state:?}"),
    }
    let contents = vec![(p("root/new/abc"), b"Subject: hi\r\n\r\nbody".to_vec())];
    match cor.resume(Some(MaildirReply::FileRead(contents))) {
        MaildirCoroutineState::Complete(Ok(entry)) => {
            assert_eq!(entry.path(), &p("root/new/abc"));
            assert_eq!(entry.contents(), &b"Subject: hi\r\n\r\nbody".to_vec());
            assert_eq!(entry.id(), Some("abc"));
            assert!(entry.flags().is_empty());
        }
        state => panic!("expected Complete(Ok), got {state:?}"),
    }
}

fn list_wants_dir_read(cor: &mut MaildirEntryList) {
    match cor.resume(None) {
        MaildirCoroutineState::Yielded(MaildirYield::WantsDirRead(_)) => {}
        state => panic!("expected WantsDirRead, got {state:?}"),
    }
}

#[test]
fn empty_maildir_returns_empty() {
    let mut cor = MaildirEntryList::new(maildir());
    list_wants_dir_read(&mut cor);

    let entries = vec![(p("root/new"), Vec::new()), (p("root/cur"), Vec::new())];
    match cor.resume(Some(MaildirReply::DirRead(entries))) {
        MaildirCoroutineState::Complete(Ok(out)) => assert!(out.is_empty()),
        state => panic!("expected Complete(Ok), got {state:?}"),
    }
}

#[test]
fn list_unexpected_reply_returns_error() {
    let mut cor = MaildirEntryList::new(maildir());
    list_wants_dir_read(&mut cor);

    match cor.resume(Some(MaildirReply::DirCreate)) {
        MaildirCoroutineState::Complete(Err(err)) => {
            assert!(matches!(err, MaildirEntryListError::UnexpectedArg(_)));
        }
        state => panic!("expected Complete(Err), got {state:?}"),
    }
}

#[test]
fn list_skips_dot_files_and_keeps_confirmed_entries() {
    let mut cor = MaildirEntryList::new(maildir());
    list_wants_dir_read(&mut cor);
    let entries = vec![
        (p("root/new"), vec![p("root/new/a"), p("root/new/.lock")]),
        (p("root/cur"), vec![p("root/cur/b:2,S"), p("root/cur/sub")]),
    ];
    let probes = match cor.resume(Some(MaildirReply::DirRead(entries))) {
        MaildirCoroutineState::Yielded(MaildirYield::WantsFileExists(paths)) => paths,
        state => panic!("expected WantsFileExists, got {state:?}"),
    };
    assert_eq!(probes, vec![p("root/new/a"), p("root/cur/b:2,S"), p("root/cur/sub")]);
    let reply = vec![(p("root/new/a"), true), (p("root/cur/b:2,S"), true), (p("root/cur/sub"), false)];
    match cor.resume(Some(MaildirReply::FileExists(reply))) {
        MaildirCoroutineState::Complete(Ok(out)) => {
            let paths: Vec<&str> = out.iter().map(|e| e.path().as_str()).collect();
            assert_eq!(paths, vec!["root/new/a", "root/cur/b:2,S"]);
        }
        state => panic!("expected Complete(Ok), got {state:?}"),
    }
}

#[test]
fn copy_unexpected_reply_returns_error() {
    let mut cor = MaildirEntryCopy::new("abc", source(), target(), None);
    match cor.resume(None) {
        MaildirCoroutineState::Yielded(MaildirYield::WantsFileExists(_)) => {}
        state => panic!("expected WantsFileExists, got {state:?}"),
    }

    match cor.resume(Some(MaildirReply::DirCreate)) {
        MaildirCoroutineState::Complete(Err(err)) => {
            assert!(matches!(err, MaildirEntryCopyError::Locate(_)));
        }
        state => panic!("expected Complete(Err), got {state:?}"),
    }
}

#[test]
fn cur_copy_stages_in_tmp_mints_fresh_id_and_preserves_flags() {
    // Source carries mbsync's `,U=999` infix and `FS` flags.
    let mut cor = MaildirEntryCopy::new("1700000000.abc.host,U=999", source(), target(), None);

    // Locate: probe new/tmp, miss, scan cur, find the entry.
    match cor.resume(None) {
        MaildirCoroutineState::Yielded(MaildirYield::WantsFileExists(_)) => {}
        state => panic!("expected WantsFileExists, got {state:?}"),
    }
    let probe = vec![
        (p("root/src/new/1700000000.abc.host,U=999"), false),
        (p("root/src/tmp/1700000000.abc.host,U=999"), false),
    ];
    match cor.resume(Some(MaildirReply::FileExists(probe))) {
        MaildirCoroutineState::Yielded(MaildirYield::WantsDirRead(_)) => {}
        state => panic!("expected WantsDirRead, got {state:?}"),
    }
    let entries = vec![(
        p("root/src/cur"),
        vec![p("root/src/cur/1700000000.abc.host,U=999:2,FS")],
    )];
    // Locate completes; the first delivery step asks for time.
    match cor.resume(Some(MaildirReply::DirRead(entries))) {
        MaildirCoroutineState::Yielded(MaildirYield::WantsTime) => {}
        state => panic!("expected WantsTime, got {state:?}"),
    }
    match cor.resume(Some(MaildirReply::Time { secs: 1, nanos: 2, counter: 0 })) {
        MaildirCoroutineState::Yielded(MaildirYield::WantsPid) => {}
        state => panic!("expected WantsPid, got {state:?}"),
    }
    match cor.resume(Some(MaildirReply::Pid(3))) {
        MaildirCoroutineState::Yielded(MaildirYield::WantsHostname) => {}
        state => panic!("expected WantsHostname, got {state:?}"),
    }
    let staged = match cor.resume(Some(MaildirReply::Hostname(String::from("host")))) {
        MaildirCoroutineState::Yielded(MaildirYield::WantsCopy(pairs)) => {
            let (from, to) = &pairs[0];
            assert_eq!(from, &p("root/src/cur/1700000000.abc.host,U=999:2,FS"));
            // The bytes land in the target /tmp, never under the name
            // the destination is enumerated by.
            assert!(to.as_str().starts_with("root/dst/tmp/1."), "got {:?}", to);
            to.clone()
        }
        state => panic!("expected WantsCopy, got {state:?}"),
    };
    match cor.resume(Some(MaildirReply::Copy)) {
        MaildirCoroutineState::Yielded(MaildirYield::WantsRename(pairs)) => {
            let (from, to) = &pairs[0];
            assert_eq!(from, &staged);
            let to = to.as_str();
            // Fresh id under target/cur, no `,U=999`, flags preserved.
            assert!(to.starts_with("root/dst/cur/1."), "got {to}");
            assert!(!to.contains(",U=999"), "carried foreign UID: {to}");
            // Flags preserved; rendered in canonical (sorted) order.
            assert!(to.ends_with(":2,SF"), "flags not preserved: {to}");
        }
        state => panic!("expected WantsRename, got {state:?}"),
    }
    match cor.resume(Some(MaildirReply::Rename)) {
        MaildirCoroutineState::Complete(Ok(())) => {}
        state => panic!("expected Complete(Ok), got {state:?}"),
    }
}

#[test]
fn move_renames_into_target_under_a_fresh_id() {
    let mut cor = MaildirEntryMove::new("abc", source(), target(), Some(MaildirSubdir::Cur));
    cor.resume(None);
    let probe = vec![(p("root/src/new/abc"), true), (p("root/src/tmp/abc"), false)];
    match cor.resume(Some(MaildirReply::FileExists(probe))) {
        MaildirCoroutineState::Yielded(MaildirYield::WantsTime) => {}
        state => panic!("expected WantsTime, got {state:?}"),
    }
    cor.resume(Some(MaildirReply::Time { secs: 10, nanos: 20, counter: 31 }));
    cor.resume(Some(MaildirReply::Pid(40)));
    match cor.resume(Some(MaildirReply::Hostname(String::from("box")))) {
        MaildirCoroutineState::Yielded(MaildirYield::WantsRename(pairs)) => {
            assert_eq!(pairs, vec![(p("root/src/new/abc"), p("root/dst/cur/10.#1fM20P40.box:2,"))]);
        }
        state => panic!("expected WantsRename, got {state:?}"),
    }
    match cor.resume(Some(MaildirReply::Rename)) {
        MaildirCoroutineState::Complete(Ok(())) => {}
        state => panic!("expected Complete(Ok), got {state:?}"),
    }
}

#[test]
fn store_writes_in_tmp_then_renames_into_place() {
    let flags = MaildirFlags::from_iter(vec![MaildirFlag::Seen, MaildirFlag::Replied]);
    let mut cor = MaildirEntryStore::new(maildir(), MaildirSubdir::Cur, flags, b"body".to_vec());
    match cor.resume(None) {
        MaildirCoroutineState::Yielded(MaildirYield::WantsTime) => {}
        state => panic!("expected WantsTime, got {state:?}"),
    }
    cor.resume(Some(MaildirReply::Time { secs: 1700000000, nanos: 5, counter: 10 }));
    cor.resume(Some(MaildirReply::Pid(77)));
    match cor.resume(Some(MaildirReply::Hostname(String::from("host")))) {
        MaildirCoroutineState::Yielded(MaildirYield::WantsFileCreate(files)) => {
            assert_eq!(files, vec![(p("root/tmp/1700000000.#aM5P77.host"), b"body".to_vec())]);
        }
        state => panic!("expected WantsFileCreate, got {state:?}"),
    }
    match cor.resume(Some(MaildirReply::FileCreate)) {
        MaildirCoroutineState::Yielded(MaildirYield::WantsRename(pairs)) => {
            assert_eq!(
                pairs,
                vec![(p("root/tmp/1700000000.#aM5P77.host"), p("root/cur/1700000000.#aM5P77.host:2,RS"))]
            );
        }
        state => panic!("expected WantsRename, got {state:?}"),
    }
    match cor.resume(Some(MaildirReply::Rename)) {
        MaildirCoroutineState::Complete(Ok(out)) => {
            assert_eq!(out.id, "1700000000.#aM5P77.host");
            assert_eq!(out.path, p("root/cur/1700000000.#aM5P77.host:2,RS"));
        }
        state => panic!("expected Complete(Ok), got {state:?}"),
    }
}

#[test]
fn store_in_new_keeps_the_bare_id() {
    let mut cor = MaildirEntryStore::new(maildir(), MaildirSubdir::New, MaildirFlags::new(), Vec::new());
    cor.resume(None);
    cor.resume(Some(MaildirReply::Time { secs: 2, nanos: 0, counter: 0 }));
    cor.resume(Some(MaildirReply::Pid(1)));
    cor.resume(Some(MaildirReply::Hostname(String::from("h"))));
    match cor.resume(Some(MaildirReply::FileCreate)) {
        MaildirCoroutineState::Yielded(MaildirYield::WantsRename(pairs)) => {
            assert_eq!(pairs, vec![(p("root/tmp/2.#0M0P1.h"), p("root/new/2.#0M0P1.h"))]);
        }
        state => panic!("expected WantsRename, got {state:?}"),
    }
}

#[test]
fn store_rejects_a_reply_out_of_turn() {
    let mut cor = MaildirEntryStore::new(maildir(), MaildirSubdir::New, MaildirFlags::new(), Vec::new());
    cor.resume(None);
    match cor.resume(Some(MaildirReply::Pid(1))) {
        MaildirCoroutineState::Complete(Err(_)) => {}
        state => panic!("expected Complete(Err), got {state:?}"),
    }
}

#[test]
fn list_reports_a_repeated_entry_once() {
    let mut cor = MaildirEntryList::new(maildir());
    list_wants_dir_read(&mut cor);
    let entries = vec![
        (p("root/new"), vec![p("root/new/a"), p("root/new/a")]),
        (p("root/cur"), Vec::new()),
    ];
    let probes = match cor.resume(Some(MaildirReply::DirRead(entries))) {
        MaildirCoroutineState::Yielded(MaildirYield::WantsFileExists(paths)) => paths,
        state => panic!("expected WantsFileExists, got {state:?}"),
    };
    let reply = probes.into_iter().map(|q| (q, true)).collect();
    match cor.resume(Some(MaildirReply::FileExists(reply))) {
        MaildirCoroutineState::Complete(Ok(out)) => {
            let paths: Vec<&str> = out.iter().map(|e| e.path().as_str()).collect();
            assert_eq!(paths, vec!["root/new/a"]);
        }
        state => panic!("expected Complete(Ok), got {state:?}"),
    }
}

fn stored_path(counter: u32, flags: MaildirFlags) -> MaildirFsPath {
    let mut cor = MaildirEntryStore::new(maildir(), MaildirSubdir::Cur, flags, Vec::new());
    cor.resume(None);
    cor.resume(Some(MaildirReply::Time { secs: 7, nanos: 3, counter }));
    cor.resume(Some(MaildirReply::Pid(9)));
    cor.resume(Some(MaildirReply::Hostname(String::from("h"))));
    cor.resume(Some(MaildirReply::FileCreate));
    match cor.resume(Some(MaildirReply::Rename)) {
        MaildirCoroutineState::Complete(Ok(out)) => out.path,
        state => panic!("expected Complete(Ok), got {state:?}"),
    }
}

#[test]
fn stores_in_one_tick_land_on_different_files() {
    let first = stored_path(1, MaildirFlags::from_iter(vec![MaildirFlag::Seen]));
    let second = stored_path(16, MaildirFlags::new());
    assert_eq!(first, p("root/cur/7.#1M3P9.h:2,S"));
    assert_eq!(second, p("root/cur/7.#10M3P9.h:2,"));
    assert_ne!(first, second);
}

#[test]
fn a_get_after_a_store_reads_back_the_stored_entry() {
    let mut store = MaildirEntryStore::new(maildir(), MaildirSubdir::Cur, MaildirFlags::new(), b"hello".to_vec());
    store.resume(None);
    store.resume(Some(MaildirReply::Time { secs: 5, nanos: 6, counter: 7 }));
    store.resume(Some(MaildirReply::Pid(8)));
    let written = match store.resume(Some(MaildirReply::Hostname(String::from("h")))) {
        MaildirCoroutineState::Yielded(MaildirYield::WantsFileCreate(files)) => files[0].1.clone(),
        state => panic!("expected WantsFileCreate, got {state:?}"),
    };
    store.resume(Some(MaildirReply::FileCreate));
    let out = match store.resume(Some(MaildirReply::Rename)) {
        MaildirCoroutineState::Complete(Ok(out)) => out,
        state => panic!("expected Complete(Ok), got {state:?}"),
    };

    let mut get = MaildirEntryGet::new(maildir(), &out.id);
    let probes = match get.resume(None) {
        MaildirCoroutineState::Yielded(MaildirYield::WantsFileExists(paths)) => paths,
        state => panic!("expected WantsFileExists, got {state:?}"),
    };
    let reply = probes.into_iter().map(|q| (q, false)).collect();
    match get.resume(Some(MaildirReply::FileExists(reply))) {
        MaildirCoroutineState::Yielded(MaildirYield::WantsDirRead(_)) => {}
        state => panic!("expected WantsDirRead, got {state:?}"),
    }
    let listing = vec![(p("root/cur"), vec![p("root/cur/other:2,S"), out.path.clone()])];
    match get.resume(Some(MaildirReply::DirRead(listing))) {
        MaildirCoroutineState::Yielded(MaildirYield::WantsFileRead(paths)) => assert_eq!(paths, vec![out.path.clone()]),
        state => panic!("expected WantsFileRead, got {state:?}"),
    }
    match get.resume(Some(MaildirReply::FileRead(vec![(out.path.clone(), written)]))) {
        MaildirCoroutineState::Complete(Ok(entry)) => {
            assert_eq!(entry.id(), Some(out.id.as_str()));
            assert_eq!(entry.contents().as_slice(), b"hello");
        }
        state => panic!("expected Complete(Ok), got {state:?}"),
    }
}
