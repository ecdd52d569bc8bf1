//! A message file read from a Maildir: its path and its bytes.

use vstd::prelude::*;

use crate::entry::{entry_id_spec, path_id};
use crate::maildir::{subdir_from_name_spec, MaildirSubdir};
use crate::path::{file_name_spec, parent_spec, MaildirFsPath};

verus! {

/// Why the subdir of a [`Message`] cannot be told.
#[derive(Debug)]
pub enum MessageError {
    /// The message is a file, and its path has no parent directory.
    InvalidParent(MaildirFsPath),
    /// The directory that should hold the message is not a directory.
    InvalidSubdirPath(MaildirFsPath),
    /// The directory that should hold the message has no name.
    InvalidParentName(MaildirFsPath),
    /// The directory's name is none of `cur`, `new` and `tmp`.
    InvalidSubdir(String),
}

/// A message file: its path and its bytes.
#[derive(Debug)]
pub struct Message {
    path: MaildirFsPath,
    contents: Vec<u8>,
}

/// The directory that tells the subdir of a message at `path`: its
/// parent directory when `path` is a file, else `path` itself.
pub open spec fn subdir_dir_spec(path: Seq<char>, is_file: bool) -> Option<Seq<char>> {
    if is_file {
        parent_spec(path)
    } else {
        Some(path)
    }
}

impl Message {
    /// A message read from `path`.
    pub fn from(parts: (MaildirFsPath, Vec<u8>)) -> (r: Self)
        ensures
            r.path()@ == parts.0@,
            r.contents()@ == parts.1@,
    {
        let (path, contents) = parts;
        Message { path, contents }
    }

    /// Returns the path of the message file.
    pub closed spec fn path_spec(&self) -> &MaildirFsPath {
        &self.path
    }

    /// Returns the path of the message file.
    #[verifier::when_used_as_spec(path_spec)]
    pub fn path(&self) -> (r: &MaildirFsPath)
        ensures
            r == self.path_spec(),
    {
        &self.path
    }

    /// Returns the raw bytes.
    pub closed spec fn contents_spec(&self) -> &Vec<u8> {
        &self.contents
    }

    /// Returns the raw bytes.
    #[verifier::when_used_as_spec(contents_spec)]
    pub fn contents(&self) -> (r: &Vec<u8>)
        ensures
            r == self.contents_spec(),
    {
        &self.contents
    }

    /// Returns the message id: the file name before the info-section
    /// separator.
    pub fn id(&self) -> (r: Option<&str>)
        ensures
            match r {
                Some(id) => entry_id_spec(self.path()@) == Some(id@),
                None => entry_id_spec(self.path()@) is None,
            },
    {
        path_id(&self.path)
    }

    /// Returns the subdir holding the message. `is_file` and `is_dir` say
    /// whether the message's path is a file and a directory on disk, and
    /// `parent_is_dir` whether its parent directory is one. A file is told
    /// by its parent directory, a directory by itself; that directory must
    /// exist and be named `cur`, `new` or `tmp`.
    pub fn subdir(&self, is_file: bool, is_dir: bool, parent_is_dir: bool) -> (r: Result<MaildirSubdir, MessageError>)
        ensures
            match subdir_dir_spec(self.path()@, is_file) {
                None => r matches Err(MessageError::InvalidParent(p)) && p@ == self.path()@,
                Some(dir) => if !(if is_file { parent_is_dir } else { is_dir }) {
                    r matches Err(MessageError::InvalidSubdirPath(p)) && p@ == dir
                } else {
                    match file_name_spec(dir) {
                        None => r matches Err(MessageError::InvalidParentName(p)) && p@ == dir,
                        Some(name) => match subdir_from_name_spec(name) {
                            Some(s) => r matches Ok(t) && t == s,
                            None => r matches Err(MessageError::InvalidSubdir(n)) && n@ == name,
                        },
                    }
                },
            },
    {
        let dir = if is_file {
            match self.path.parent() {
                Some(p) => MaildirFsPath::from(p),
                None => return Err(MessageError::InvalidParent(self.path.clone())),
            }
        } else {
            self.path.clone()
        };
        let dir_is_dir = if is_file { parent_is_dir } else { is_dir };
        if !dir_is_dir {
            return Err(MessageError::InvalidSubdirPath(dir));
        }
        let name = match dir.file_name() {
            Some(n) => n,
            None => return Err(MessageError::InvalidParentName(dir)),
        };
        match MaildirSubdir::from_name(name) {
            Some(s) => Ok(s),
            None => Err(MessageError::InvalidSubdir(name.to_owned())),
        }
    }

    /// Gives the bytes away.
    pub fn into_contents(self) -> (r: Vec<u8>)
        ensures
            r@ == self.contents()@,
    {
        self.contents
    }
}

} // verus!
