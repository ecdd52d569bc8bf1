use io_maildir::coroutine::{MaildirCoroutineState, MaildirReply, MaildirYield};
use io_maildir::flag::add::{MaildirFlagsAdd, MaildirFlagsAddError};
use io_maildir::flag::remove::MaildirFlagsRemove;
use io_maildir::flag::set::{MaildirFlagsSet, MaildirFlagsSetError};
use io_maildir::flag::{MaildirFlag, MaildirFlags};
use io_maildir::maildir::Maildir;
use io_maildir::path::MaildirFsPath;

fn p(s: &str) -> MaildirFsPath {
    MaildirFsPath::from(s)
}

fn maildir() -> Maildir {
    Maildir::from_path(p("root"))
}

fn seen() -> MaildirFlags {
    MaildirFlags::from_iter(vec![MaildirFlag::Seen])
}

fn in_new() -> Option<MaildirReply> {
    Some(MaildirReply::FileExists(vec![(p("root/new/abc"), true), (p("root/tmp/abc"), false)]))
}

fn in_tmp() -> Option<MaildirReply> {
    Some(MaildirReply::FileExists(vec![(p("root/new/abc"), false), (p("root/tmp/abc"), true)]))
}

fn nowhere() -> Option<MaildirReply> {
    Some(MaildirReply::FileExists(vec![(p("root/new/abc"), false), (p("root/tmp/abc"), false)]))
}

fn cur_listing(name: &str) -> Option<MaildirReply> {
    Some(MaildirReply::DirRead(vec![(p("root/cur"), vec![p(name)])]))
}

#[test]
fn new_subdir_returns_noop_ok() {
    let mut cor = MaildirFlagsAdd::new(maildir(), "abc", MaildirFlags::new());
    match cor.resume(None) {
        MaildirCoroutineState::Yielded(MaildirYield::WantsFileExists(_)) => {}
        state => panic!("expected WantsFileExists, got {state:?}"),
    }
    match cor.resume(in_new()) {
        MaildirCoroutineState::Complete(Ok(())) => {}
        state => panic!("expected Complete(Ok), got {state:?}"),
    }
}

#[test]
fn add_unexpected_reply_returns_error() {
    let mut cor = MaildirFlagsAdd::new(maildir(), "abc", MaildirFlags::new());
    cor.resume(None);
    match cor.resume(Some(MaildirReply::DirCreate)) {
        MaildirCoroutineState::Complete(Err(err)) => assert!(matches!(err, MaildirFlagsAddError::Locate(_))),
        state => panic!("expected Complete(Err), got {state:?}"),
    }
}

#[test]
fn adding_a_flag_moves_a_new_entry_into_cur() {
    let mut cor = MaildirFlagsAdd::new(maildir(), "abc", seen());
    cor.resume(None);
    match cor.resume(in_new()) {
        MaildirCoroutineState::Yielded(MaildirYield::WantsRename(pairs)) => {
            assert_eq!(pairs, vec![(p("root/new/abc"), p("root/cur/abc:2,S"))]);
        }
        state => panic!("expected WantsRename, got {state:?}"),
    }
    match cor.resume(Some(MaildirReply::Rename)) {
        MaildirCoroutineState::Complete(Ok(())) => {}
        state => panic!("expected Complete(Ok), got {state:?}"),
    }
}

#[test]
fn adding_merges_with_the_flags_and_slot_letters_in_cur() {
    let flags = MaildirFlags::from_iter(vec![MaildirFlag::Flagged, MaildirFlag::Passed]);
    let mut cor = MaildirFlagsAdd::new(maildir(), "abc", flags);
    cor.resume(None);
    cor.resume(nowhere());
    match cor.resume(cur_listing("root/cur/abc:2,Sa")) {
        MaildirCoroutineState::Yielded(MaildirYield::WantsRename(pairs)) => {
            assert_eq!(pairs, vec![(p("root/cur/abc:2,Sa"), p("root/cur/abc:2,PSFa"))]);
        }
        state => panic!("expected WantsRename, got {state:?}"),
    }
}

#[test]
fn adding_leaves_an_entry_in_tmp_alone() {
    let mut cor = MaildirFlagsAdd::new(maildir(), "abc", seen());
    cor.resume(None);
    match cor.resume(in_tmp()) {
        MaildirCoroutineState::Complete(Ok(())) => {}
        state => panic!("expected Complete(Ok), got {state:?}"),
    }
}

#[test]
fn removing_an_absent_flag_from_a_new_entry_is_a_noop() {
    let mut cor = MaildirFlagsRemove::new(maildir(), "abc", seen());
    cor.resume(None);
    match cor.resume(in_new()) {
        MaildirCoroutineState::Complete(Ok(())) => {}
        state => panic!("expected Complete(Ok), got {state:?}"),
    }
}

#[test]
fn removing_keeps_the_other_flags_and_slot_letters() {
    let mut cor = MaildirFlagsRemove::new(maildir(), "abc", seen());
    cor.resume(None);
    cor.resume(nowhere());
    match cor.resume(cur_listing("root/cur/abc:2,RSab")) {
        MaildirCoroutineState::Yielded(MaildirYield::WantsRename(pairs)) => {
            assert_eq!(pairs, vec![(p("root/cur/abc:2,RSab"), p("root/cur/abc:2,Rab"))]);
        }
        state => panic!("expected WantsRename, got {state:?}"),
    }
}

fn set_wants_file_exists(cor: &mut MaildirFlagsSet) {
    match cor.resume(None) {
        MaildirCoroutineState::Yielded(MaildirYield::WantsFileExists(_)) => {}
        state => panic!("expected WantsFileExists, got {state:?}"),
    }
}

fn set_wants_rename(cor: &mut MaildirFlagsSet, arg: Option<MaildirReply>) -> Vec<(MaildirFsPath, MaildirFsPath)> {
    match cor.resume(arg) {
        MaildirCoroutineState::Yielded(MaildirYield::WantsRename(pairs)) => pairs,
        state => panic!("expected WantsRename, got {state:?}"),
    }
}

fn set_complete_ok(cor: &mut MaildirFlagsSet, arg: Option<MaildirReply>) {
    match cor.resume(arg) {
        MaildirCoroutineState::Complete(Ok(())) => {}
        state => panic!("expected Complete(Ok), got {state:?}"),
    }
}

#[test]
fn cur_subdir_renames_with_the_new_flags() {
    let mut cor = MaildirFlagsSet::new(maildir(), "abc", seen());

    set_wants_file_exists(&mut cor);

    match cor.resume(nowhere()) {
        MaildirCoroutineState::Yielded(MaildirYield::WantsDirRead(_)) => {}
        state => panic!("expected WantsDirRead, got {state:?}"),
    }

    let pairs = set_wants_rename(&mut cor, cur_listing("root/cur/abc:2,F"));
    let (from, to) = &pairs[0];
    assert_eq!(from, &p("root/cur/abc:2,F"));
    assert_eq!(to, &p("root/cur/abc:2,S"));

    set_complete_ok(&mut cor, Some(MaildirReply::Rename));
}

#[test]
fn new_subdir_renames_into_cur() {
    let mut cor = MaildirFlagsSet::new(maildir(), "abc", seen());

    set_wants_file_exists(&mut cor);

    let pairs = set_wants_rename(&mut cor, in_new());
    let (from, to) = &pairs[0];
    assert_eq!(from, &p("root/new/abc"));
    assert_eq!(to, &p("root/cur/abc:2,S"));

    set_complete_ok(&mut cor, Some(MaildirReply::Rename));
}

#[test]
fn new_subdir_without_flags_returns_noop_ok() {
    let mut cor = MaildirFlagsSet::new(maildir(), "abc", MaildirFlags::new());

    set_wants_file_exists(&mut cor);

    set_complete_ok(&mut cor, in_new());
}

#[test]
fn tmp_subdir_returns_noop_ok() {
    let mut cor = MaildirFlagsSet::new(maildir(), "abc", seen());

    set_wants_file_exists(&mut cor);

    set_complete_ok(&mut cor, in_tmp());
}

#[test]
fn set_unexpected_reply_returns_error() {
    let mut cor = MaildirFlagsSet::new(maildir(), "abc", MaildirFlags::new());
    set_wants_file_exists(&mut cor);

    match cor.resume(Some(MaildirReply::DirCreate)) {
        MaildirCoroutineState::Complete(Err(err)) => assert!(matches!(err, MaildirFlagsSetError::Locate(_))),
        state => panic!("expected Complete(Err), got {state:?}"),
    }
}
