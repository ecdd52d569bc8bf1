use std::collections::{BTreeMap, BTreeSet};
use std::fmt::Debug;

use io_maildir::client::{MaildirClient, MaildirClientError};
use io_maildir::coroutine::{MaildirCoroutineState, MaildirReply, MaildirYield};
use io_maildir::entry::copy::MaildirEntryCopy;
use io_maildir::entry::get::{MaildirEntryGet, MaildirEntryGetError};
use io_maildir::entry::locate::MaildirEntryLocateError;
use io_maildir::entry::list::MaildirEntryList;
use io_maildir::entry::relocate::MaildirEntryMove;
use io_maildir::entry::store::MaildirEntryStore;
use io_maildir::entry::{MaildirEntry, MaildirFullEntry};
use io_maildir::flag::add::MaildirFlagsAdd;
use io_maildir::flag::remove::MaildirFlagsRemove;
use io_maildir::flag::set::MaildirFlagsSet;
use io_maildir::flag::{MaildirFlag, MaildirFlags};
use io_maildir::maildir::create::MaildirCreate;
use io_maildir::maildir::delete::MaildirDelete;
use io_maildir::maildir::list::MaildirList;
use io_maildir::maildir::rename::MaildirRename;
use io_maildir::maildir::{Maildir, MaildirSubdir};
use io_maildir::path::{MaildirFsPath, MaildirPath};
use io_maildir::store::MaildirStore;

/// A filesystem held in memory, answering the work a machine asks for.
struct MemFs {
    dirs: BTreeSet<String>,
    files: BTreeMap<String, Vec<u8>>,
    clock: u64,
    counter: u32,
}

fn parent(path: &str) -> Option<&str> {
    path.rfind('/').map(|i| &path[..i])
}

impl MemFs {
    fn new(root: &str) -> Self {
        let mut fs = MemFs { dirs: BTreeSet::new(), files: BTreeMap::new(), clock: 1_700_000_000, counter: 0 };
        fs.mkdir_all(root);
        fs
    }

    fn mkdir_all(&mut self, path: &str) {
        let mut p = Some(path);
        while let Some(d) = p {
            self.dirs.insert(d.to_string());
            p = parent(d);
        }
    }

    fn is_dir(&self, path: &str) -> bool {
        self.dirs.contains(path)
    }

    fn is_file(&self, path: &str) -> bool {
        self.files.contains_key(path)
    }

    fn has(&self, path: &str) -> bool {
        self.is_dir(path) || self.is_file(path)
    }

    fn children(&self, dir: &str) -> Vec<String> {
        let mut out: Vec<String> = self
            .dirs
            .iter()
            .chain(self.files.keys())
            .filter(|p| parent(p) == Some(dir))
            .cloned()
            .collect();
        out.sort();
        out
    }

    fn remove_file(&mut self, path: &str) {
        assert!(self.files.remove(path).is_some(), "no file at {path}");
    }

    fn perform(&mut self, work: MaildirYield) -> MaildirReply {
        match work {
            MaildirYield::WantsFileExists(paths) => MaildirReply::FileExists(
                paths.into_iter().map(|p| { let e = self.is_file(p.as_str()); (p, e) }).collect(),
            ),
            MaildirYield::WantsDirExists(paths) => MaildirReply::DirExists(
                paths.into_iter().map(|p| { let e = self.is_dir(p.as_str()); (p, e) }).collect(),
            ),
            MaildirYield::WantsDirRead(paths) => MaildirReply::DirRead(
                paths
                    .into_iter()
                    .map(|p| {
                        let names = self.children(p.as_str()).into_iter().map(MaildirFsPath::new).collect();
                        (p, names)
                    })
                    .collect(),
            ),
            MaildirYield::WantsFileRead(paths) => MaildirReply::FileRead(
                paths
                    .into_iter()
                    .filter_map(|p| self.files.get(p.as_str()).cloned().map(|b| (p, b)))
                    .collect(),
            ),
            MaildirYield::WantsFileCreate(files) => {
                for (path, bytes) in files {
                    if let Some(dir) = parent(path.as_str()) {
                        self.mkdir_all(dir);
                    }
                    self.files.insert(path.as_str().to_string(), bytes);
                }
                MaildirReply::FileCreate
            }
            MaildirYield::WantsDirCreate(paths) => {
                for path in paths {
                    self.mkdir_all(path.as_str());
                }
                MaildirReply::DirCreate
            }
            MaildirYield::WantsDirRemove(paths) => {
                for path in paths {
                    let p = path.as_str().to_string();
                    let below = format!("{p}/");
                    assert!(self.dirs.contains(&p), "no directory at {p}");
                    self.dirs.retain(|d| d != &p && !d.starts_with(&below));
                    self.files.retain(|f, _| !f.starts_with(&below));
                }
                MaildirReply::DirRemove
            }
            MaildirYield::WantsRename(pairs) => {
                for (from, to) in pairs {
                    let (from, to) = (from.as_str().to_string(), to.as_str().to_string());
                    if let Some(bytes) = self.files.remove(&from) {
                        self.files.insert(to, bytes);
                    } else {
                        assert!(self.dirs.contains(&from), "nothing at {from}");
                        let below = format!("{from}/");
                        let dirs: Vec<String> =
                            self.dirs.iter().filter(|d| **d == from || d.starts_with(&below)).cloned().collect();
                        for d in dirs {
                            self.dirs.remove(&d);
                            self.dirs.insert(format!("{to}{}", &d[from.len()..]));
                        }
                        let files: Vec<String> = self.files.keys().filter(|f| f.starts_with(&below)).cloned().collect();
                        for f in files {
                            let bytes = self.files.remove(&f).unwrap();
                            self.files.insert(format!("{to}{}", &f[from.len()..]), bytes);
                        }
                    }
                }
                MaildirReply::Rename
            }
            MaildirYield::WantsCopy(pairs) => {
                for (from, to) in pairs {
                    let bytes = self.files.get(from.as_str()).cloned().expect("copy source");
                    self.files.insert(to.as_str().to_string(), bytes);
                }
                MaildirReply::Copy
            }
            MaildirYield::WantsTime => {
                self.clock += 1;
                self.counter += 1;
                MaildirReply::Time { secs: self.clock, nanos: 500, counter: self.counter }
            }
            MaildirYield::WantsPid => MaildirReply::Pid(4242),
            MaildirYield::WantsHostname => MaildirReply::Hostname("host".to_string()),
        }
    }

    fn run<T, E: Debug>(
        &mut self,
        mut step: impl FnMut(Option<MaildirReply>) -> MaildirCoroutineState<MaildirYield, Result<T, E>>,
    ) -> Result<T, E> {
        let mut arg: Option<MaildirReply> = None;
        loop {
            match step(arg.take()) {
                MaildirCoroutineState::Complete(out) => return out,
                MaildirCoroutineState::Yielded(work) => arg = Some(self.perform(work)),
            }
        }
    }
}

/// The client operations run against an in-memory filesystem.
struct Harness {
    fs: MemFs,
    client: MaildirClient,
}

impl Harness {
    fn new(root: &str) -> Self {
        Harness { fs: MemFs::new(root), client: MaildirClient::new(MaildirFsPath::from(root)) }
    }

    fn list_maildirs(&mut self) -> Vec<Maildir> {
        let mut m = self.client.list_maildirs();
        self.fs.run(|a| m.resume(a)).expect("list maildirs")
    }

    fn create_maildir(&mut self, name: &str) {
        let mut m = self.client.create_maildir(MaildirPath::from(name));
        self.fs.run(|a| m.resume(a)).expect("create maildir")
    }

    fn load_maildir(&mut self, name: &str) -> Maildir {
        let mut m = self.client.load_maildir(&MaildirPath::from(name));
        self.fs.run(|a| m.resume(a)).expect("load maildir")
    }

    fn rename_maildir(&mut self, from: &str, to: &str) {
        let mut m = self.client.rename_maildir(MaildirPath::from(from), MaildirPath::from(to));
        self.fs.run(|a| m.resume(a)).expect("rename maildir")
    }

    fn delete_maildir(&mut self, name: &str) {
        let mut m = self.client.delete_maildir(MaildirPath::from(name));
        self.fs.run(|a| m.resume(a)).expect("delete maildir")
    }

    fn store(&mut self, maildir: &Maildir, subdir: MaildirSubdir, flags: MaildirFlags, contents: Vec<u8>) -> (String, MaildirFsPath) {
        let mut m = self.client.store(maildir.clone(), subdir, flags, contents);
        self.fs.run(|a| m.resume(a)).expect("store entry")
    }

    fn list_entries(&mut self, maildir: &Maildir) -> Vec<MaildirEntry> {
        let mut m = self.client.list_entries(maildir.clone());
        self.fs.run(|a| m.resume(a)).expect("list entries")
    }

    fn read_entry(&mut self, maildir: &Maildir, entry: &MaildirEntry) -> MaildirFullEntry {
        let mut m = self.client.read_entry(maildir, entry);
        self.fs.run(|a| m.resume(a)).expect("read entry").remove(0)
    }

    fn read_entries(&mut self, maildir: &Maildir, entries: &[MaildirEntry]) -> Vec<MaildirFullEntry> {
        let mut m = self.client.read_entries(maildir, &entries.to_vec());
        self.fs.run(|a| m.resume(a)).expect("read entries")
    }

    fn get(&mut self, maildir: &Maildir, id: &str) -> MaildirFullEntry {
        let mut m = self.client.get(maildir.clone(), id);
        self.fs.run(|a| m.resume(a)).expect("get entry")
    }

    fn locate(&mut self, maildir: &Maildir, id: &str) -> (MaildirFsPath, MaildirSubdir, MaildirFlags) {
        let mut m = self.client.locate(maildir.clone(), id);
        let out = self.fs.run(|a| m.resume(a)).expect("locate entry");
        (out.path, out.subdir, out.flags)
    }

    fn set_flags(&mut self, maildir: &Maildir, id: &str, flags: MaildirFlags) {
        let mut m = self.client.set_flags(maildir.clone(), id, flags);
        self.fs.run(|a| m.resume(a)).expect("set flags")
    }

    fn add_flags(&mut self, maildir: &Maildir, id: &str, flags: MaildirFlags) {
        let mut m = self.client.add_flags(maildir.clone(), id, flags);
        self.fs.run(|a| m.resume(a)).expect("add flags")
    }

    fn remove_flags(&mut self, maildir: &Maildir, id: &str, flags: MaildirFlags) {
        let mut m = self.client.remove_flags(maildir.clone(), id, flags);
        self.fs.run(|a| m.resume(a)).expect("remove flags")
    }

    fn copy(&mut self, id: &str, source: &Maildir, target: &Maildir, subdir: Option<MaildirSubdir>) {
        let mut m = self.client.copy(id, source.clone(), target.clone(), subdir);
        self.fs.run(|a| m.resume(a)).expect("copy entry")
    }

    fn move_entry(&mut self, id: &str, source: &Maildir, target: &Maildir, subdir: Option<MaildirSubdir>) {
        let mut m = self.client.move_entry(id, source.clone(), target.clone(), subdir);
        self.fs.run(|a| m.resume(a)).expect("move entry")
    }

    /// The keywords of the entry `id`, its slot letters resolved through
    /// the Maildir's table.
    fn dovecot_keywords(&mut self, maildir: &Maildir, id: &str) -> Vec<String> {
        let (path, _, _) = self.locate(maildir, id);
        let mut load = self.client.load_dovecot_keywords(maildir);
        let table = self.fs.run(|a| load.resume(a)).expect("load dovecot table");
        MaildirFlags::with_dovecot(&path, &table).iter().filter_map(|f| f.as_keyword().map(str::to_string)).collect()
    }
}

fn build_eml(from: &str, tag: &str) -> String {
    [
        &format!("From: io-maildir test <{from}>"),
        &format!("To: io-maildir test <{from}>"),
        &format!("Subject: io-maildir integration test {tag}"),
        "Date: Thu, 01 Jan 2026 00:00:00 +0000",
        "MIME-Version: 1.0",
        "Content-Type: text/plain; charset=utf-8",
        "",
        &format!("This is automated test email {tag} from io-maildir tests."),
    ]
    .join("\r\n")
}

fn eml(tag: &str) -> Vec<u8> {
    [
        "From: io-maildir test <test@example.org>",
        "To: io-maildir test <test@example.org>",
        &format!("Subject: keyword fix test {tag}"),
        "Date: Thu, 01 Jan 2026 00:00:00 +0000",
        "",
        &format!("body {tag}"),
    ]
    .join("\r\n")
    .into_bytes()
}

#[test]
fn end_to_end() {
    let mut h = Harness::new("root");

    let maildirs = h.list_maildirs();
    assert!(maildirs.is_empty(), "root should be empty initially");

    h.create_maildir("inbox");
    h.create_maildir("drafts");
    let inbox = h.load_maildir("inbox");
    let drafts = h.load_maildir("drafts");
    for maildir in [&inbox, &drafts] {
        assert!(h.fs.is_dir(maildir.cur().as_str()));
        assert!(h.fs.is_dir(maildir.new().as_str()));
        assert!(h.fs.is_dir(maildir.tmp().as_str()));
    }

    let maildirs = h.list_maildirs();
    assert_eq!(maildirs.len(), 2);
    assert!(maildirs.contains(&inbox));
    assert!(maildirs.contains(&drafts));

    let body_a = build_eml("alice@example.org", "first");
    let body_b = build_eml("bob@example.org", "second");
    let body_c = build_eml("carol@example.org", "third");
    let (id_a, path_a) = h.store(&inbox, MaildirSubdir::New, MaildirFlags::new(), body_a.clone().into_bytes());
    let (id_b, path_b) = h.store(&inbox, MaildirSubdir::Cur, MaildirFlags::new(), body_b.clone().into_bytes());
    let (id_c, path_c) =
        h.store(&inbox, MaildirSubdir::Cur, MaildirFlags::from_iter(vec![MaildirFlag::Seen]), body_c.clone().into_bytes());
    for path in [&path_a, &path_b, &path_c] {
        assert!(h.fs.is_file(path.as_str()));
    }
    assert!(path_a.starts_with(&inbox.new()), "id_a should live in /new");
    assert!(path_b.starts_with(&inbox.cur()), "id_b should live in /cur");
    assert!(path_c.starts_with(&inbox.cur()), "id_c should live in /cur with flags");
    assert_ne!(id_a, id_b);
    assert_ne!(id_b, id_c);
    assert_ne!(id_a, id_c);

    let entries = h.list_entries(&inbox);
    assert_eq!(entries.len(), 3, "expected three entries after store");
    let listed_ids: Vec<&str> = entries.iter().filter_map(|e| e.id()).collect();
    for id in [&id_a, &id_b, &id_c] {
        assert!(listed_ids.contains(&id.as_str()), "id {id} missing from listing");
    }
    let entry_c = entries.iter().find(|e| e.id() == Some(id_c.as_str())).expect("locate entry_c");
    assert!(entry_c.flags().contains(&MaildirFlag::Seen), "entry_c should carry the Seen flag in its filename");

    let entry_a = entries.iter().find(|e| e.id() == Some(id_a.as_str())).expect("locate entry_a");
    let msg_a = h.read_entry(&inbox, entry_a);
    assert_eq!(msg_a.id(), Some(id_a.as_str()));
    assert_eq!(msg_a.contents().as_slice(), body_a.as_bytes());

    let entries_vec: Vec<_> = entries.iter().cloned().collect();
    let bulk_seq = h.read_entries(&inbox, &entries_vec);
    assert_eq!(bulk_seq.len(), 3);
    let seq_ids: Vec<&str> = bulk_seq.iter().filter_map(|m| m.id()).collect();
    for id in [&id_a, &id_b, &id_c] {
        assert!(seq_ids.contains(&id.as_str()));
    }
    // Reading in two chunks, as the parallel read does, gives the same.
    let (left, right) = entries_vec.split_at(1);
    let mut bulk_par = h.read_entries(&inbox, left);
    bulk_par.extend(h.read_entries(&inbox, right));
    assert_eq!(bulk_par, bulk_seq, "sequential and parallel bulk reads must produce the same set");

    let fetched = h.get(&inbox, &id_b);
    assert_eq!(fetched.id(), Some(id_b.as_str()));
    assert_eq!(fetched.contents().as_slice(), body_b.as_bytes());

    let (located_path, located_subdir, located_flags) = h.locate(&inbox, &id_a);
    assert_eq!(located_path, path_a);
    assert_eq!(located_subdir, MaildirSubdir::New);
    assert!(located_flags.is_empty(), "entry_a stored without flags");

    // A set giving a flag to an entry in new moves it into cur.
    h.set_flags(&inbox, &id_a, MaildirFlags::from_iter(vec![MaildirFlag::Seen]));
    let (after_set_a_path, after_set_a_subdir, after_set_a_flags) = h.locate(&inbox, &id_a);
    assert_eq!(after_set_a_subdir, MaildirSubdir::Cur);
    assert_eq!(after_set_a_path, inbox.cur().join(&format!("{id_a}:2,S")));
    assert!(after_set_a_flags.contains(&MaildirFlag::Seen));
    assert!(!h.fs.has(path_a.as_str()));

    h.set_flags(&inbox, &id_b, MaildirFlags::from_iter(vec![MaildirFlag::Seen]));
    let (after_set_path, after_set_subdir, after_set_flags) = h.locate(&inbox, &id_b);
    assert_eq!(after_set_subdir, MaildirSubdir::Cur);
    assert!(after_set_flags.contains(&MaildirFlag::Seen));
    assert!(!h.fs.has(path_b.as_str()), "old flag-less /cur path should no longer exist");
    assert!(h.fs.is_file(after_set_path.as_str()));

    h.add_flags(&inbox, &id_b, MaildirFlags::from_iter(vec![MaildirFlag::Flagged]));
    let (_, _, after_add_flags) = h.locate(&inbox, &id_b);
    assert!(after_add_flags.contains(&MaildirFlag::Seen));
    assert!(after_add_flags.contains(&MaildirFlag::Flagged));

    h.remove_flags(&inbox, &id_b, MaildirFlags::from_iter(vec![MaildirFlag::Seen]));
    let (_, _, after_remove_flags) = h.locate(&inbox, &id_b);
    assert!(!after_remove_flags.contains(&MaildirFlag::Seen));
    assert!(after_remove_flags.contains(&MaildirFlag::Flagged));

    h.copy(&id_b, &inbox, &drafts, Some(MaildirSubdir::Cur));
    assert_eq!(h.list_entries(&inbox).len(), 3, "inbox still holds 3 entries after copy");
    let drafts_after_copy = h.list_entries(&drafts);
    assert_eq!(drafts_after_copy.len(), 1, "drafts now holds 1 entry from the copy");
    let copy_b = drafts_after_copy.iter().next().expect("one drafts entry");
    assert_ne!(copy_b.id(), Some(id_b.as_str()), "copy must mint a fresh id, not reuse the source basename");
    assert_eq!(
        h.read_entry(&drafts, copy_b).contents().as_slice(),
        body_b.as_bytes(),
        "copy must carry the source body",
    );
    assert!(copy_b.flags().contains(&MaildirFlag::Flagged), "copy must preserve the source flags");
    assert_eq!(h.fs.children(drafts.tmp().as_str()).len(), 0, "copy must leave no file behind in the target tmp");

    h.move_entry(&id_c, &inbox, &drafts, Some(MaildirSubdir::Cur));
    assert_eq!(h.list_entries(&inbox).len(), 2, "inbox should hold 2 entries after move");
    let drafts_after_move = h.list_entries(&drafts);
    assert_eq!(drafts_after_move.len(), 2, "drafts should hold 2 entries after move");
    assert!(
        drafts_after_move.iter().all(|e| e.id() != Some(id_c.as_str())),
        "move must mint a fresh id, not reuse the source basename",
    );

    h.rename_maildir("drafts", "archive");
    assert!(!h.fs.has("root/drafts"), "old drafts path should be gone");
    assert!(h.fs.is_dir("root/archive"), "new archive path should exist");
    let archive = h.load_maildir("archive");

    let archive_entries = h.list_entries(&archive);
    let archived_b = archive_entries
        .iter()
        .find(|e| h.read_entry(&archive, e).contents().as_slice() == body_b.as_bytes())
        .expect("locate copy of body_b in archive")
        .clone();
    h.fs.remove_file(archived_b.path().as_str());
    assert_eq!(h.list_entries(&archive).len(), 1, "archive should hold 1 entry after manual file removal");

    h.delete_maildir("archive");
    assert!(!h.fs.has(archive.path().as_str()), "archive dir should be removed");
    let maildirs = h.list_maildirs();
    assert_eq!(maildirs.len(), 1, "only inbox should remain");
    assert!(maildirs.contains(&inbox));
}

fn run_machine<T, E: Debug>(
    fs: &mut MemFs,
    step: impl FnMut(Option<MaildirReply>) -> MaildirCoroutineState<MaildirYield, Result<T, E>>,
) -> T {
    fs.run(step).expect("machine failed")
}

fn message_count(fs: &mut MemFs, maildir: &Maildir) -> usize {
    let mut m = MaildirEntryList::new(maildir.clone());
    run_machine(fs, |a| m.resume(a)).len()
}

#[test]
fn std_machines() {
    let mut fs = MemFs::new("root");
    let store = MaildirStore { root: MaildirFsPath::from("root"), maildirpp: false };

    let mut list = MaildirList::new(&store);
    assert!(run_machine(&mut fs, |a| list.resume(a)).is_empty());

    let mut create = MaildirCreate::new(&store, MaildirPath::from("inbox"));
    run_machine(&mut fs, |a| create.resume(a));
    let mut create = MaildirCreate::new(&store, MaildirPath::from("drafts"));
    run_machine(&mut fs, |a| create.resume(a));
    let inbox = Maildir::from_path(MaildirFsPath::from("root/inbox"));
    let drafts = Maildir::from_path(MaildirFsPath::from("root/drafts"));
    assert!(fs.is_dir("root/inbox/cur"));
    assert!(fs.is_dir("root/inbox/new"));
    assert!(fs.is_dir("root/inbox/tmp"));

    let mut list = MaildirList::new(&store);
    assert_eq!(run_machine(&mut fs, |a| list.resume(a)).len(), 2);

    let msg = b"From: alice@example.com\r\nSubject: Test\r\n\r\nBody\r\n".to_vec();
    let mut st = MaildirEntryStore::new(inbox.clone(), MaildirSubdir::New, MaildirFlags::new(), msg);
    let out = run_machine(&mut fs, |a| st.resume(a));
    let (id, msg_path) = (out.id, out.path);
    assert!(fs.is_file(msg_path.as_str()));
    assert!(msg_path.starts_with(&inbox.new()));

    assert_eq!(message_count(&mut fs, &inbox), 1);

    let mut get = MaildirEntryGet::new(inbox.clone(), &id);
    let message = run_machine(&mut fs, |a| get.resume(a));
    assert_eq!(message.id(), Some(id.as_str()));

    let mut set = MaildirFlagsSet::new(inbox.clone(), &id, MaildirFlags::from_iter(vec![MaildirFlag::Seen]));
    run_machine(&mut fs, |a| set.resume(a));
    let mut add = MaildirFlagsAdd::new(inbox.clone(), &id, MaildirFlags::from_iter(vec![MaildirFlag::Flagged]));
    run_machine(&mut fs, |a| add.resume(a));
    let mut remove = MaildirFlagsRemove::new(inbox.clone(), &id, MaildirFlags::from_iter(vec![MaildirFlag::Seen]));
    run_machine(&mut fs, |a| remove.resume(a));
    assert_eq!(message_count(&mut fs, &inbox), 1);

    let mut copy = MaildirEntryCopy::new(&id, inbox.clone(), drafts.clone(), Some(MaildirSubdir::New));
    run_machine(&mut fs, |a| copy.resume(a));
    assert_eq!(message_count(&mut fs, &inbox), 1);
    assert_eq!(message_count(&mut fs, &drafts), 1);

    let mut mv = MaildirEntryMove::new(&id, inbox.clone(), drafts.clone(), Some(MaildirSubdir::New));
    run_machine(&mut fs, |a| mv.resume(a));
    assert_eq!(message_count(&mut fs, &inbox), 0);

    let mut rename = MaildirRename::new(&store, MaildirPath::from("drafts"), MaildirPath::from("archive"));
    run_machine(&mut fs, |a| rename.resume(a));
    assert!(!fs.is_dir("root/drafts"));
    assert!(fs.is_dir("root/archive"));

    for name in ["inbox", "archive"] {
        let mut delete = MaildirDelete::new(&store, MaildirPath::from(name));
        run_machine(&mut fs, |a| delete.resume(a));
    }
    let mut list = MaildirList::new(&store);
    assert!(run_machine(&mut fs, |a| list.resume(a)).is_empty());
}

#[test]
fn adding_a_flag_moves_the_entry_out_of_new() {
    let mut h = Harness::new("root");
    h.create_maildir("inbox");
    let inbox = h.load_maildir("inbox");

    let (id, path) = h.store(&inbox, MaildirSubdir::New, MaildirFlags::new(), eml("flag"));
    assert_eq!(path, inbox.new().join(&id));

    h.add_flags(&inbox, &id, MaildirFlags::from_iter(vec![MaildirFlag::Seen]));
    assert!(!h.fs.has(path.as_str()), "the entry must leave new once it carries a flag");
    let moved = inbox.cur().join(&format!("{id}:2,S"));
    assert!(h.fs.has(moved.as_str()), "the entry must land in cur under its flags, got no {}", moved.as_str());

    let (located, subdir, flags) = h.locate(&inbox, &id);
    assert_eq!(located, moved);
    assert_eq!(subdir, MaildirSubdir::Cur);
    assert!(flags.contains(&MaildirFlag::Seen));
}

#[test]
fn removing_an_absent_flag_leaves_the_entry_in_new() {
    let mut h = Harness::new("root");
    h.create_maildir("inbox");
    let inbox = h.load_maildir("inbox");

    let (id, path) = h.store(&inbox, MaildirSubdir::New, MaildirFlags::new(), eml("flag"));
    h.remove_flags(&inbox, &id, MaildirFlags::from_iter(vec![MaildirFlag::Seen]));
    assert!(h.fs.has(path.as_str()), "a write that clears nothing must leave the entry unread in new");

    let (located, subdir, _) = h.locate(&inbox, &id);
    assert_eq!(located, path);
    assert_eq!(subdir, MaildirSubdir::New);
}

#[test]
fn add_flag_preserves_dovecot_keyword() {
    let mut h = Harness::new("root");
    h.client.dovecot_keywords = true;
    h.create_maildir("inbox");
    let inbox = h.load_maildir("inbox");

    let (id, _) = h.store(&inbox, MaildirSubdir::Cur, MaildirFlags::from_iter(vec![MaildirFlag::keyword("NonJunk")]), eml("critical"));
    assert_eq!(
        h.dovecot_keywords(&inbox, &id),
        vec!["NonJunk".to_string()],
        "keyword should be encoded via a dovecot slot after store",
    );

    h.add_flags(&inbox, &id, MaildirFlags::from_iter(vec![MaildirFlag::Seen]));
    let (path, _, _) = h.locate(&inbox, &id);
    let named = MaildirFlags::from(&path);
    assert!(named.contains(&MaildirFlag::Seen), "Seen must be present after add_flags");
    assert_eq!(h.dovecot_keywords(&inbox, &id), vec!["NonJunk".to_string()], "NonJunk must survive add_flags(\\Seen)");
}

#[test]
fn remove_one_keyword_leaves_the_other() {
    let mut h = Harness::new("root");
    h.client.dovecot_keywords = true;
    h.create_maildir("inbox");
    let inbox = h.load_maildir("inbox");

    let flags = MaildirFlags::from_iter(vec![MaildirFlag::keyword("NonJunk"), MaildirFlag::keyword("Work")]);
    let (id, _) = h.store(&inbox, MaildirSubdir::Cur, flags, eml("multi"));
    let mut before = h.dovecot_keywords(&inbox, &id);
    before.sort();
    assert_eq!(before, vec!["NonJunk".to_string(), "Work".to_string()]);

    h.remove_flags(&inbox, &id, MaildirFlags::from_iter(vec![MaildirFlag::keyword("Work")]));
    assert_eq!(
        h.dovecot_keywords(&inbox, &id),
        vec!["NonJunk".to_string()],
        "removing Work must leave NonJunk's slot letter intact",
    );
}

#[test]
fn normal_keyword_round_trips_via_dovecot() {
    let mut h = Harness::new("root");
    h.client.dovecot_keywords = true;
    h.create_maildir("inbox");
    let inbox = h.load_maildir("inbox");

    let (id, _) = h.store(&inbox, MaildirSubdir::Cur, MaildirFlags::from_iter(vec![MaildirFlag::keyword("Important")]), eml("normal"));
    assert_eq!(h.dovecot_keywords(&inbox, &id), vec!["Important".to_string()]);
    assert_eq!(h.get(&inbox, &id).flags().iter().filter_map(MaildirFlag::as_keyword).collect::<Vec<_>>(), ["Important"]);
}

#[test]
fn an_entry_removed_by_hand_leaves_the_listing() {
    let mut h = Harness::new("root");
    h.create_maildir("inbox");
    let inbox = h.load_maildir("inbox");
    let (id, path) = h.store(&inbox, MaildirSubdir::Cur, MaildirFlags::new(), eml("gone"));
    assert_eq!(h.list_entries(&inbox).len(), 1);
    h.fs.remove_file(path.as_str());
    assert!(h.list_entries(&inbox).is_empty());
    let mut get = h.client.get(inbox.clone(), &id);
    match h.fs.run(|a| get.resume(a)) {
        Err(MaildirClientError::EntryGet(MaildirEntryGetError::Locate(MaildirEntryLocateError::NotFound(missing)))) => {
            assert_eq!(missing, id);
        }
        other => panic!("expected NotFound, got {other:?}"),
    }
}
