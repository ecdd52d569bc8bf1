use io_maildir::coroutine::{MaildirCoroutineState, MaildirReply, MaildirYield};
use io_maildir::maildir::create::{MaildirCreate, MaildirCreateError};
use io_maildir::maildir::delete::{MaildirDelete, MaildirDeleteError};
use io_maildir::maildir::list::{MaildirList, MaildirListError};
use io_maildir::maildir::rename::{MaildirRename, MaildirRenameError};
use io_maildir::maildir::Maildir;
use io_maildir::path::{MaildirFsPath, MaildirPath};
use io_maildir::store::MaildirStore;

fn p(s: &str) -> MaildirFsPath {
    MaildirFsPath::from(s)
}

fn fs_store() -> MaildirStore {
    MaildirStore { root: p("root"), maildirpp: false }
}

fn maildirpp_store() -> MaildirStore {
    MaildirStore { root: p("root"), maildirpp: true }
}

fn create_wants_dir_create(cor: &mut MaildirCreate) -> Vec<MaildirFsPath> {
    match cor.resume(None) {
        MaildirCoroutineState::Yielded(MaildirYield::WantsDirCreate(paths)) => paths,
        state => panic!("expected WantsDirCreate, got {state:?}"),
    }
}

#[test]
fn fs_creates_nested_subdirs() {
    let mut cor = MaildirCreate::new(&fs_store(), MaildirPath::from("inbox"));

    let paths = create_wants_dir_create(&mut cor);
    assert_eq!(paths.len(), 4);
    assert!(paths.contains(&p("root/inbox")));
    assert!(paths.contains(&p("root/inbox/cur")));
    assert!(paths.contains(&p("root/inbox/new")));
    assert!(paths.contains(&p("root/inbox/tmp")));

    match cor.resume(Some(MaildirReply::DirCreate)) {
        MaildirCoroutineState::Complete(Ok(())) => {}
        state => panic!("expected Complete(Ok), got {state:?}"),
    }
}

#[test]
fn maildirpp_flattens_logical_hierarchy_with_dots() {
    let mut cor = MaildirCreate::new(&maildirpp_store(), MaildirPath::from("Foo/Bar"));

    let paths = create_wants_dir_create(&mut cor);
    assert!(paths.contains(&p("root/.Foo.Bar")));
    assert!(paths.contains(&p("root/.Foo.Bar/cur")));
    assert!(paths.contains(&p("root/.Foo.Bar/new")));
    assert!(paths.contains(&p("root/.Foo.Bar/tmp")));
}

#[test]
fn empty_name_targets_store_root() {
    let mut cor = MaildirCreate::new(&fs_store(), MaildirPath::root());

    let paths = create_wants_dir_create(&mut cor);
    assert!(paths.contains(&p("root")));
    assert!(paths.contains(&p("root/cur")));
}

#[test]
fn create_unexpected_reply_returns_error() {
    let mut cor = MaildirCreate::new(&fs_store(), MaildirPath::from("inbox"));
    let _ = create_wants_dir_create(&mut cor);

    match cor.resume(Some(MaildirReply::FileCreate)) {
        MaildirCoroutineState::Complete(Err(err)) => assert!(matches!(err, MaildirCreateError::UnexpectedArg(_))),
        state => panic!("expected Complete(Err), got {state:?}"),
    }
}

#[test]
fn create_lists_parents_first() {
    let mut cor = MaildirCreate::new(&fs_store(), MaildirPath::from("inbox"));
    let paths = create_wants_dir_create(&mut cor);
    assert_eq!(paths, vec![p("root/inbox"), p("root/inbox/cur"), p("root/inbox/new"), p("root/inbox/tmp")]);
}

fn delete_wants_dir_remove(cor: &mut MaildirDelete) -> Vec<MaildirFsPath> {
    match cor.resume(None) {
        MaildirCoroutineState::Yielded(MaildirYield::WantsDirRemove(paths)) => paths,
        state => panic!("expected WantsDirRemove, got {state:?}"),
    }
}

#[test]
fn fs_removes_resolved_path() {
    let mut cor = MaildirDelete::new(&fs_store(), MaildirPath::from("inbox"));

    let paths = delete_wants_dir_remove(&mut cor);
    assert_eq!(paths.len(), 1);
    assert!(paths.contains(&p("root/inbox")));

    match cor.resume(Some(MaildirReply::DirRemove)) {
        MaildirCoroutineState::Complete(Ok(())) => {}
        state => panic!("expected Complete(Ok), got {state:?}"),
    }
}

#[test]
fn maildirpp_removes_dotted_flat_path() {
    let mut cor = MaildirDelete::new(&maildirpp_store(), MaildirPath::from("Foo/Bar"));

    let paths = delete_wants_dir_remove(&mut cor);
    assert!(paths.contains(&p("root/.Foo.Bar")));
}

#[test]
fn delete_unexpected_reply_returns_error() {
    let mut cor = MaildirDelete::new(&fs_store(), MaildirPath::from("inbox"));
    let _ = delete_wants_dir_remove(&mut cor);

    match cor.resume(Some(MaildirReply::DirCreate)) {
        MaildirCoroutineState::Complete(Err(err)) => assert!(matches!(err, MaildirDeleteError::UnexpectedArg(_))),
        state => panic!("expected Complete(Err), got {state:?}"),
    }
}

fn rename_wants_rename(cor: &mut MaildirRename) -> Vec<(MaildirFsPath, MaildirFsPath)> {
    match cor.resume(None) {
        MaildirCoroutineState::Yielded(MaildirYield::WantsRename(pairs)) => pairs,
        state => panic!("expected WantsRename, got {state:?}"),
    }
}

#[test]
fn fs_resolves_both_sides() {
    let mut cor = MaildirRename::new(&fs_store(), MaildirPath::from("Old"), MaildirPath::from("New"));

    let pairs = rename_wants_rename(&mut cor);
    assert_eq!(pairs.len(), 1);
    assert_eq!(pairs[0].0, p("root/Old"));
    assert_eq!(pairs[0].1, p("root/New"));

    match cor.resume(Some(MaildirReply::Rename)) {
        MaildirCoroutineState::Complete(Ok(())) => {}
        state => panic!("expected Complete(Ok), got {state:?}"),
    }
}

#[test]
fn maildirpp_flattens_both_sides() {
    let mut cor = MaildirRename::new(&maildirpp_store(), MaildirPath::from("Foo/Bar"), MaildirPath::from("Baz/Qux"));

    let pairs = rename_wants_rename(&mut cor);
    assert_eq!(pairs[0].0, p("root/.Foo.Bar"));
    assert_eq!(pairs[0].1, p("root/.Baz.Qux"));
}

#[test]
fn rename_unexpected_reply_returns_error() {
    let mut cor = MaildirRename::new(&fs_store(), MaildirPath::from("Old"), MaildirPath::from("New"));
    let _ = rename_wants_rename(&mut cor);

    match cor.resume(Some(MaildirReply::Copy)) {
        MaildirCoroutineState::Complete(Err(err)) => assert!(matches!(err, MaildirRenameError::UnexpectedArg(_))),
        state => panic!("expected Complete(Err), got {state:?}"),
    }
}

fn list_wants_dir_read(cor: &mut MaildirList, arg: Option<MaildirReply>) -> Vec<MaildirFsPath> {
    match cor.resume(arg) {
        MaildirCoroutineState::Yielded(MaildirYield::WantsDirRead(paths)) => paths,
        state => panic!("expected WantsDirRead, got {state:?}"),
    }
}

fn list_wants_dir_exists(cor: &mut MaildirList, arg: Option<MaildirReply>) -> Vec<MaildirFsPath> {
    match cor.resume(arg) {
        MaildirCoroutineState::Yielded(MaildirYield::WantsDirExists(paths)) => paths,
        state => panic!("expected WantsDirExists, got {state:?}"),
    }
}

fn list_complete_ok(cor: &mut MaildirList, arg: Option<MaildirReply>) -> Vec<Maildir> {
    match cor.resume(arg) {
        MaildirCoroutineState::Complete(Ok(found)) => found,
        state => panic!("expected Complete(Ok), got {state:?}"),
    }
}

fn all(probes: Vec<MaildirFsPath>, answer: bool) -> Option<MaildirReply> {
    Some(MaildirReply::DirExists(probes.into_iter().map(|q| (q, answer)).collect()))
}

#[test]
fn empty_root_returns_empty() {
    let mut cor = MaildirList::new(&fs_store());
    list_wants_dir_read(&mut cor, None);

    let entries = vec![(p("root"), Vec::new())];
    let probes = list_wants_dir_exists(&mut cor, Some(MaildirReply::DirRead(entries)));

    let out = list_complete_ok(&mut cor, all(probes, false));
    assert!(out.is_empty());
}

#[test]
fn root_is_a_maildir_returns_root() {
    let mut cor = MaildirList::new(&fs_store());
    list_wants_dir_read(&mut cor, None);

    let entries = vec![(p("root"), Vec::new())];
    let probes = list_wants_dir_exists(&mut cor, Some(MaildirReply::DirRead(entries)));

    let out = list_complete_ok(&mut cor, all(probes, true));
    assert_eq!(out.len(), 1);
    assert!(out.contains(&Maildir::from_path(p("root"))));
}

#[test]
fn fs_recurses_into_nested_subfolders() {
    let mut cor = MaildirList::new(&fs_store());
    list_wants_dir_read(&mut cor, None);

    let entries = vec![(p("root"), vec![p("root/Foo")])];
    let probes = list_wants_dir_exists(&mut cor, Some(MaildirReply::DirRead(entries)));

    let next = list_wants_dir_read(&mut cor, all(probes, true));
    assert!(next.contains(&p("root/Foo")));

    let entries = vec![(p("root/Foo"), vec![p("root/Foo/Bar")])];
    let probes = list_wants_dir_exists(&mut cor, Some(MaildirReply::DirRead(entries)));

    let next = list_wants_dir_read(&mut cor, all(probes, true));
    assert!(next.contains(&p("root/Foo/Bar")));

    let entries = vec![(p("root/Foo/Bar"), Vec::new())];
    let out = list_complete_ok(&mut cor, Some(MaildirReply::DirRead(entries)));
    let names: Vec<_> = out.iter().map(|m| m.path().as_str()).collect();
    assert!(names.contains(&"root"));
    assert!(names.contains(&"root/Foo"));
    assert!(names.contains(&"root/Foo/Bar"));
    assert_eq!(out.len(), 3);
}

#[test]
fn fs_skips_dotted_children() {
    let mut cor = MaildirList::new(&fs_store());
    list_wants_dir_read(&mut cor, None);

    let entries = vec![(p("root"), vec![p("root/.Hidden"), p("root/Sent")])];
    let probes = list_wants_dir_exists(&mut cor, Some(MaildirReply::DirRead(entries)));
    assert!(!probes.iter().any(|q| q.as_str().contains(".Hidden")));
    assert!(probes.iter().any(|q| q.as_str().contains("Sent")));
}

#[test]
fn maildirpp_keeps_only_dotted_children_no_recursion() {
    let mut cor = MaildirList::new(&maildirpp_store());
    list_wants_dir_read(&mut cor, None);

    let entries = vec![(p("root"), vec![p("root/.Sent"), p("root/Other")])];
    let probes = list_wants_dir_exists(&mut cor, Some(MaildirReply::DirRead(entries)));
    assert!(probes.iter().any(|q| q.as_str() == "root/cur"));
    assert!(probes.iter().any(|q| q.as_str() == "root/.Sent/cur"));
    assert!(!probes.iter().any(|q| q.as_str().contains("Other")));

    let out = list_complete_ok(&mut cor, all(probes, true));
    assert_eq!(out.len(), 2);
    assert!(out.contains(&Maildir::from_path(p("root"))));
    assert!(out.contains(&Maildir::from_path(p("root/.Sent"))));
}

#[test]
fn cur_new_tmp_are_not_candidates() {
    let mut cor = MaildirList::new(&fs_store());
    list_wants_dir_read(&mut cor, None);

    let entries = vec![(p("root"), vec![p("root/cur"), p("root/new"), p("root/tmp")])];
    let probes = list_wants_dir_exists(&mut cor, Some(MaildirReply::DirRead(entries)));
    assert_eq!(probes.len(), 3);
    assert!(probes.iter().all(|q| q.parent() == Some("root")));
}

#[test]
fn maildir_list_unexpected_reply_returns_error() {
    let mut cor = MaildirList::new(&fs_store());
    list_wants_dir_read(&mut cor, None);

    match cor.resume(Some(MaildirReply::DirCreate)) {
        MaildirCoroutineState::Complete(Err(err)) => assert!(matches!(err, MaildirListError::UnexpectedArg(_))),
        state => panic!("expected Complete(Err), got {state:?}"),
    }
}

#[test]
fn a_folder_missing_a_subdir_is_not_listed() {
    let mut cor = MaildirList::new(&fs_store());
    list_wants_dir_read(&mut cor, None);
    let entries = vec![(p("root"), vec![p("root/Half")])];
    let probes = list_wants_dir_exists(&mut cor, Some(MaildirReply::DirRead(entries)));
    let reply: Vec<(MaildirFsPath, bool)> =
        probes.into_iter().map(|q| { let keep = q.as_str() != "root/Half/tmp"; (q, keep) }).collect();
    let next = list_wants_dir_read(&mut cor, Some(MaildirReply::DirExists(reply)));
    assert_eq!(next, vec![p("root/Half")]);
    let out = list_complete_ok(&mut cor, Some(MaildirReply::DirRead(vec![(p("root/Half"), Vec::new())])));
    let names: Vec<_> = out.iter().map(|m| m.path().as_str()).collect();
    assert_eq!(names, vec!["root"]);
}

#[test]
fn fs_reports_a_repeated_folder_once() {
    let mut cor = MaildirList::new(&fs_store());
    list_wants_dir_read(&mut cor, None);
    let mut reply = Some(MaildirReply::DirRead(vec![(p("root"), vec![p("root/Foo"), p("root/Foo")])]));
    let found = loop {
        match cor.resume(reply.take()) {
            MaildirCoroutineState::Yielded(MaildirYield::WantsDirExists(paths)) => {
                reply = all(paths, true);
            }
            MaildirCoroutineState::Yielded(MaildirYield::WantsDirRead(paths)) => {
                reply = Some(MaildirReply::DirRead(paths.into_iter().map(|q| (q, Vec::new())).collect()));
            }
            MaildirCoroutineState::Complete(Ok(found)) => break found,
            state => panic!("unexpected state {state:?}"),
        }
    };
    let names: Vec<_> = found.iter().map(|m| m.path().as_str()).collect();
    assert_eq!(names.iter().filter(|n| **n == "root/Foo").count(), 1);
    assert_eq!(names.iter().filter(|n| **n == "root").count(), 1);
    assert_eq!(found.len(), 2);
}

#[test]
fn fs_does_not_descend_into_regular_files() {
    let mut cor = MaildirList::new(&fs_store());
    list_wants_dir_read(&mut cor, None);
    let entries = vec![(p("root"), vec![p("root/dovecot-keywords"), p("root/inbox")])];
    let probes = list_wants_dir_exists(&mut cor, Some(MaildirReply::DirRead(entries)));
    assert!(probes.contains(&p("root/inbox")));
    assert!(probes.contains(&p("root/dovecot-keywords")));
    let dirs = ["root/inbox", "root/inbox/cur", "root/inbox/new", "root/inbox/tmp"];
    let answer: Vec<_> = probes.into_iter().map(|q| {
        let yes = dirs.contains(&q.as_str());
        (q, yes)
    }).collect();
    let next = list_wants_dir_read(&mut cor, Some(MaildirReply::DirExists(answer)));
    assert_eq!(next, vec![p("root/inbox")]);
    let entries = vec![(
        p("root/inbox"),
        vec![p("root/inbox/cur"), p("root/inbox/dovecot-keywords"), p("root/inbox/new"), p("root/inbox/tmp")],
    )];
    let probes = list_wants_dir_exists(&mut cor, Some(MaildirReply::DirRead(entries)));
    let out = list_complete_ok(&mut cor, all(probes, false));
    let names: Vec<_> = out.iter().map(|m| m.path().as_str()).collect();
    assert_eq!(names, vec!["root/inbox"]);
}

fn run_list_on(store: &MaildirStore, dirs: &[&str], files: &[&str]) -> Vec<String> {
    let mut cor = MaildirList::new(store);
    let mut reply = None;
    loop {
        match cor.resume(reply.take()) {
            MaildirCoroutineState::Yielded(MaildirYield::WantsDirRead(paths)) => {
                let listing = paths
                    .into_iter()
                    .map(|d| {
                        let prefix = format!("{}/", d.as_str());
                        let kids = dirs
                            .iter()
                            .chain(files.iter())
                            .filter(|e| e.starts_with(&prefix) && !e[prefix.len()..].contains('/'))
                            .map(|e| p(e))
                            .collect();
                        (d, kids)
                    })
                    .collect();
                reply = Some(MaildirReply::DirRead(listing));
            }
            MaildirCoroutineState::Yielded(MaildirYield::WantsDirExists(paths)) => {
                reply = Some(MaildirReply::DirExists(
                    paths.into_iter().map(|q| {
                        let yes = dirs.contains(&q.as_str());
                        (q, yes)
                    }).collect(),
                ));
            }
            MaildirCoroutineState::Complete(Ok(found)) => {
                let mut names: Vec<String> = found.iter().map(|m| m.path().as_str().to_string()).collect();
                names.sort();
                return names;
            }
            state => panic!("unexpected state {state:?}"),
        }
    }
}

#[test]
fn listing_after_creating_two_maildirs_gives_exactly_them() {
    let empty = run_list_on(&fs_store(), &["root"], &[]);
    assert!(empty.is_empty());
    let dirs = [
        "root",
        "root/inbox",
        "root/inbox/cur",
        "root/inbox/new",
        "root/inbox/tmp",
        "root/drafts",
        "root/drafts/cur",
        "root/drafts/new",
        "root/drafts/tmp",
    ];
    let files = ["root/inbox/dovecot-keywords", "root/drafts/cur/1.a.h:2,S"];
    let found = run_list_on(&fs_store(), &dirs, &files);
    assert_eq!(found, vec!["root/drafts".to_string(), "root/inbox".to_string()]);
}
