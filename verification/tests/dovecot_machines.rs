use io_maildir::coroutine::{MaildirCoroutineState, MaildirReply, MaildirYield};
use io_maildir::dovecot::load::{MaildirDovecotLoad, MaildirDovecotLoadError};
use io_maildir::dovecot::store::{MaildirDovecotStore, MaildirDovecotStoreError};
use io_maildir::dovecot::DovecotKeywords;
use io_maildir::maildir::Maildir;
use io_maildir::path::MaildirFsPath;

fn maildir() -> Maildir {
    Maildir::from_path(MaildirFsPath::from("root"))
}

fn keywords_path() -> MaildirFsPath {
    MaildirFsPath::from("root/dovecot-keywords")
}

fn load_wants_file_exists(cor: &mut MaildirDovecotLoad) {
    match cor.resume(None) {
        MaildirCoroutineState::Yielded(MaildirYield::WantsFileExists(paths)) => {
            assert!(paths.contains(&keywords_path()));
        }
        state => panic!("expected WantsFileExists, got {state:?}"),
    }
}

#[test]
fn missing_file_returns_empty_table() {
    let m = maildir();
    let mut cor = MaildirDovecotLoad::new(&m);

    load_wants_file_exists(&mut cor);

    let map = vec![(keywords_path(), false)];
    match cor.resume(Some(MaildirReply::FileExists(map))) {
        MaildirCoroutineState::Complete(Ok(table)) => assert!(table.is_empty()),
        state => panic!("expected Complete(Ok), got {state:?}"),
    }
}

#[test]
fn present_file_returns_parsed_table() {
    let m = maildir();
    let mut cor = MaildirDovecotLoad::new(&m);

    load_wants_file_exists(&mut cor);

    let probe = vec![(keywords_path(), true)];
    match cor.resume(Some(MaildirReply::FileExists(probe))) {
        MaildirCoroutineState::Yielded(MaildirYield::WantsFileRead(paths)) => {
            assert!(paths.contains(&keywords_path()));
        }
        state => panic!("expected WantsFileRead, got {state:?}"),
    }

    let contents = vec![(keywords_path(), b"0 Project\n1 Work\n".to_vec())];
    match cor.resume(Some(MaildirReply::FileRead(contents))) {
        MaildirCoroutineState::Complete(Ok(table)) => assert_eq!(table.len(), 2),
        state => panic!("expected Complete(Ok), got {state:?}"),
    }
}

#[test]
fn load_unexpected_reply_returns_error() {
    let m = maildir();
    let mut cor = MaildirDovecotLoad::new(&m);

    load_wants_file_exists(&mut cor);

    match cor.resume(Some(MaildirReply::DirCreate)) {
        MaildirCoroutineState::Complete(Err(err)) => assert!(matches!(err, MaildirDovecotLoadError::UnexpectedArg(_))),
        state => panic!("expected Complete(Err), got {state:?}"),
    }
}

#[test]
fn invalid_utf8_sidecar_reads_as_empty_table() {
    let m = maildir();
    let mut cor = MaildirDovecotLoad::new(&m);
    load_wants_file_exists(&mut cor);
    cor.resume(Some(MaildirReply::FileExists(vec![(keywords_path(), true)])));
    let contents = vec![(keywords_path(), vec![0x30, 0x20, 0xff, 0x0a])];
    match cor.resume(Some(MaildirReply::FileRead(contents))) {
        MaildirCoroutineState::Complete(Ok(table)) => assert!(table.is_empty()),
        state => panic!("expected Complete(Ok), got {state:?}"),
    }
}

fn store_wants_file_create(cor: &mut MaildirDovecotStore) -> Vec<(MaildirFsPath, Vec<u8>)> {
    match cor.resume(None) {
        MaildirCoroutineState::Yielded(MaildirYield::WantsFileCreate(files)) => files,
        state => panic!("expected WantsFileCreate, got {state:?}"),
    }
}

#[test]
fn test() {
    let m = maildir();
    let mut table = DovecotKeywords::new();
    table.insert('a', String::from("Project"));
    let mut cor = MaildirDovecotStore::new(&m, &table);

    let files = store_wants_file_create(&mut cor);
    assert!(files.iter().any(|(path, _)| path == &keywords_path()));

    match cor.resume(Some(MaildirReply::FileCreate)) {
        MaildirCoroutineState::Complete(Ok(())) => {}
        state => panic!("expected Complete(Ok), got {state:?}"),
    }
}

#[test]
fn store_unexpected_reply_returns_error() {
    let m = maildir();
    let mut cor = MaildirDovecotStore::new(&m, &DovecotKeywords::new());
    let _ = store_wants_file_create(&mut cor);

    match cor.resume(Some(MaildirReply::DirCreate)) {
        MaildirCoroutineState::Complete(Err(err)) => assert!(matches!(err, MaildirDovecotStoreError::UnexpectedArg(_))),
        state => panic!("expected Complete(Err), got {state:?}"),
    }
}

#[test]
fn stored_table_loads_back_the_same() {
    let m = maildir();
    let mut table = DovecotKeywords::new();
    table.insert('c', String::from("Personal"));
    table.insert('a', String::from("Important"));
    let mut store = MaildirDovecotStore::new(&m, &table);
    let files = store_wants_file_create(&mut store);
    assert_eq!(files[0].1, b"0 Important\n2 Personal\n".to_vec());

    let mut load = MaildirDovecotLoad::new(&m);
    load.resume(None);
    load.resume(Some(MaildirReply::FileExists(vec![(keywords_path(), true)])));
    match load.resume(Some(MaildirReply::FileRead(files))) {
        MaildirCoroutineState::Complete(Ok(back)) => assert_eq!(back, table),
        state => panic!("expected Complete(Ok), got {state:?}"),
    }
}
