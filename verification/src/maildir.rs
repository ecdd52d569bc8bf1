//! A Maildir directory and its `cur`, `new` and `tmp` subdirectories.

pub mod create;
pub mod delete;
pub mod list;
pub mod rename;

use vstd::prelude::*;

use crate::path::{join_spec, MaildirFsPath};
use crate::text::str_eq;

verus! {

/// Name of the subdirectory holding entries that carry flags.
pub const CUR: &'static str = "cur";
/// Name of the subdirectory holding freshly delivered entries.
pub const NEW: &'static str = "new";
/// Name of the subdirectory holding deliveries in flight.
pub const TMP: &'static str = "tmp";

/// One of the three subdirectories of a Maildir.
#[derive(Clone, Copy, Debug, PartialEq, Eq, Structural)]
pub enum MaildirSubdir {
    Cur,
    New,
    Tmp,
}

/// The directory name of `subdir`.
pub open spec fn subdir_name_spec(subdir: MaildirSubdir) -> Seq<char> {
    match subdir {
        MaildirSubdir::Cur => seq!['c', 'u', 'r'],
        MaildirSubdir::New => seq!['n', 'e', 'w'],
        MaildirSubdir::Tmp => seq!['t', 'm', 'p'],
    }
}

/// The subdirectory named `name`, if any.
pub open spec fn subdir_from_name_spec(name: Seq<char>) -> Option<MaildirSubdir> {
    if name == subdir_name_spec(MaildirSubdir::Cur) {
        Some(MaildirSubdir::Cur)
    } else if name == subdir_name_spec(MaildirSubdir::New) {
        Some(MaildirSubdir::New)
    } else if name == subdir_name_spec(MaildirSubdir::Tmp) {
        Some(MaildirSubdir::Tmp)
    } else {
        None
    }
}

impl MaildirSubdir {
    /// Returns the directory name of this subdir.
    pub fn as_str(&self) -> (r: &'static str)
        ensures
            r@ == subdir_name_spec(*self),
    {
        proof {
            reveal_strlit("cur");
            reveal_strlit("new");
            reveal_strlit("tmp");
            assert("cur"@ =~= subdir_name_spec(MaildirSubdir::Cur));
            assert("new"@ =~= subdir_name_spec(MaildirSubdir::New));
            assert("tmp"@ =~= subdir_name_spec(MaildirSubdir::Tmp));
        }
        match self {
            MaildirSubdir::Cur => "cur",
            MaildirSubdir::New => "new",
            MaildirSubdir::Tmp => "tmp",
        }
    }

    /// Maps a directory name to its subdir: `cur`, `new` or `tmp`.
    pub fn from_name(name: &str) -> (r: Option<MaildirSubdir>)
        ensures
            r == subdir_from_name_spec(name@),
    {
        proof {
            reveal_strlit("cur");
            reveal_strlit("new");
            reveal_strlit("tmp");
            assert("cur"@ =~= subdir_name_spec(MaildirSubdir::Cur));
            assert("new"@ =~= subdir_name_spec(MaildirSubdir::New));
            assert("tmp"@ =~= subdir_name_spec(MaildirSubdir::Tmp));
        }
        if str_eq(name, "cur") {
            Some(MaildirSubdir::Cur)
        } else if str_eq(name, "new") {
            Some(MaildirSubdir::New)
        } else if str_eq(name, "tmp") {
            Some(MaildirSubdir::Tmp)
        } else {
            None
        }
    }
}

/// A Maildir: a root directory with `cur`, `new` and `tmp` below it.
#[derive(Debug, PartialEq, Eq, PartialOrd, Ord, Hash)]
pub struct Maildir {
    root: MaildirFsPath,
}

impl View for Maildir {
    type V = Seq<char>;

    closed spec fn view(&self) -> Seq<char> {
        self.root@
    }
}

impl Clone for Maildir {
    fn clone(&self) -> (r: Self)
        ensures
            r@ == self@,
    {
        Maildir { root: self.root.clone() }
    }
}

impl Maildir {
    /// Wraps `root` as a Maildir, without checking the filesystem.
    pub fn from_path(root: MaildirFsPath) -> (r: Self)
        ensures
            r@ == root@,
    {
        Maildir { root }
    }

    /// Returns the root directory.
    pub fn path(&self) -> (r: &MaildirFsPath)
        ensures
            r@ == self@,
    {
        &self.root
    }

    /// Returns the path of `subdir`.
    pub fn subdir(&self, subdir: &MaildirSubdir) -> (r: MaildirFsPath)
        ensures
            r@ == join_spec(self@, subdir_name_spec(*subdir)),
    {
        self.root.join(subdir.as_str())
    }

    /// Returns the `cur` subdirectory.
    pub fn cur(&self) -> (r: MaildirFsPath)
        ensures
            r@ == join_spec(self@, subdir_name_spec(MaildirSubdir::Cur)),
    {
        self.subdir(&MaildirSubdir::Cur)
    }

    /// Returns the `new` subdirectory.
    pub fn new(&self) -> (r: MaildirFsPath)
        ensures
            r@ == join_spec(self@, subdir_name_spec(MaildirSubdir::New)),
    {
        self.subdir(&MaildirSubdir::New)
    }

    /// Returns the `tmp` subdirectory.
    pub fn tmp(&self) -> (r: MaildirFsPath)
        ensures
            r@ == join_spec(self@, subdir_name_spec(MaildirSubdir::Tmp)),
    {
        self.subdir(&MaildirSubdir::Tmp)
    }
}

} // verus!
