//! String-backed filesystem paths and logical mailbox names.
//!
//! Paths are handled as plain `/`-separated strings: every coroutine of
//! this crate only ever builds, splits and compares them, and the caller
//! hands them to its own filesystem layer.

use vstd::prelude::*;

use crate::text::{lemma_rfind, rfind, rfind_char, str_chars, str_eq, string_from_chars, is_prefix};

verus! {

/// `p` followed by the component `n`, with one `/` between them.
pub open spec fn join_spec(p: Seq<char>, n: Seq<char>) -> Seq<char> {
    if p.len() == 0 {
        n
    } else if p.last() == '/' {
        p + n
    } else {
        p + seq!['/'] + n
    }
}

/// The last component of `p`, if it is not empty.
pub open spec fn file_name_spec(p: Seq<char>) -> Option<Seq<char>> {
    let name = p.subrange(rfind(p, '/') + 1, p.len() as int);
    if name.len() == 0 {
        None
    } else {
        Some(name)
    }
}

/// Everything before the last `/` of `p`, if there is one.
pub open spec fn parent_spec(p: Seq<char>) -> Option<Seq<char>> {
    if rfind(p, '/') < 0 {
        None
    } else {
        Some(p.take(rfind(p, '/')))
    }
}

/// `p` with its last component replaced by `n`.
pub open spec fn with_file_name_spec(p: Seq<char>, n: Seq<char>) -> Seq<char> {
    match parent_spec(p) {
        Some(parent) => join_spec(parent, n),
        None => n,
    }
}

/// Whether `p` lies at or under `q`, component-wise.
pub open spec fn starts_with_spec(p: Seq<char>, q: Seq<char>) -> bool {
    &&& is_prefix(q, p)
    &&& (p.len() == q.len() || q.len() == 0 || q.last() == '/' || p[q.len() as int] == '/')
}

/// Joining a name that holds no `/` onto a directory gives a path whose
/// file name is that name.
pub proof fn lemma_join_file_name(dir: Seq<char>, name: Seq<char>)
    requires
        name.len() > 0,
        !name.contains('/'),
    ensures
        file_name_spec(join_spec(dir, name)) == Some(name),
{
    let path = join_spec(dir, name);
    lemma_rfind(path, '/');
    let base = path.len() - name.len();
    assert(path.subrange(base, path.len() as int) =~= name);
    if dir.len() > 0 {
        assert(path[base - 1] == '/');
    }
    assert forall|j: int| base <= j < path.len() implies path[j] != '/' by {
        assert(path[j] == name[j - base]);
    }
    assert(rfind(path, '/') == base - 1);
}

/// A path on the filesystem the caller drives, as a `/`-separated
/// string.
#[derive(Debug, PartialEq, Eq, PartialOrd, Ord, Hash)]
pub struct MaildirFsPath {
    path: String,
}

impl View for MaildirFsPath {
    type V = Seq<char>;

    closed spec fn view(&self) -> Seq<char> {
        self.path@
    }
}

impl Clone for MaildirFsPath {
    fn clone(&self) -> (r: Self)
        ensures
            r@ == self@,
    {
        MaildirFsPath { path: self.path.clone() }
    }
}

impl MaildirFsPath {
    /// Wraps `path` as is.
    pub fn new(path: String) -> (r: Self)
        ensures
            r@ == path@,
    {
        MaildirFsPath { path }
    }

    /// Copies `path` into a new path.
    pub fn from(path: &str) -> (r: Self)
        ensures
            r@ == path@,
    {
        MaildirFsPath { path: path.to_owned() }
    }

    /// The empty path.
    pub fn empty() -> (r: Self)
        ensures
            r@ == Seq::<char>::empty(),
    {
        MaildirFsPath { path: String::new() }
    }

    /// Returns the path as a string slice.
    pub fn as_str(&self) -> (r: &str)
        ensures
            r@ == self@,
    {
        self.path.as_str()
    }

    /// Whether both paths spell the same string.
    pub fn same(&self, other: &MaildirFsPath) -> (r: bool)
        ensures
            r == (self@ == other@),
    {
        str_eq(self.path.as_str(), other.path.as_str())
    }

    /// Appends the component `name`.
    pub fn join(&self, name: &str) -> (r: MaildirFsPath)
        ensures
            r@ == join_spec(self@, name@),
    {
        let mut v = str_chars(self.path.as_str());
        let n = str_chars(name);
        if v.len() > 0 && v[v.len() - 1] != '/' {
            v.push('/');
        }
        let mut i: usize = 0;
        let ghost start = v@;
        while i < n.len()
            invariant
                i <= n@.len(),
                v@ == start + n@.take(i as int),
            decreases n@.len() - i,
        {
            v.push(n[i]);
            i = i + 1;
            assert(v@ == start + n@.take(i as int));
        }
        assert(n@.take(n@.len() as int) == n@);
        proof {
            if self@.len() == 0 {
                assert(start + n@ =~= n@);
            } else if self@.last() == '/' {
                assert(start == self@);
            } else {
                assert(start == self@ + seq!['/']);
            }
        }
        MaildirFsPath { path: string_from_chars(v.as_slice()) }
    }

    /// Returns the last component, if it is not empty.
    pub fn file_name(&self) -> (r: Option<&str>)
        ensures
            match r {
                Some(name) => file_name_spec(self@) == Some(name@),
                None => file_name_spec(self@) is None,
            },
    {
        let v = str_chars(self.path.as_str());
        proof { lemma_rfind(self@, '/'); }
        let start: usize = match rfind_char(v.as_slice(), '/') {
            Some(i) => i + 1,
            None => 0,
        };
        proof { lemma_rfind(self@, '/'); }
        if start == v.len() {
            None
        } else {
            Some(self.path.as_str().substring_char(start, v.len()))
        }
    }

    /// Returns everything before the last `/`, if there is one.
    pub fn parent(&self) -> (r: Option<&str>)
        ensures
            match r {
                Some(p) => parent_spec(self@) == Some(p@),
                None => parent_spec(self@) is None,
            },
    {
        let v = str_chars(self.path.as_str());
        proof { lemma_rfind(self@, '/'); }
        match rfind_char(v.as_slice(), '/') {
            Some(i) => Some(self.path.as_str().substring_char(0, i)),
            None => None,
        }
    }

    /// Replaces the last component by `name`.
    pub fn with_file_name(&self, name: &str) -> (r: MaildirFsPath)
        ensures
            r@ == with_file_name_spec(self@, name@),
    {
        match self.parent() {
            Some(parent) => MaildirFsPath::from(parent).join(name),
            None => MaildirFsPath::from(name),
        }
    }

    /// Whether this path lies at or under `base`, component-wise.
    pub fn starts_with(&self, base: &MaildirFsPath) -> (r: bool)
        ensures
            r == starts_with_spec(self@, base@),
    {
        let v = str_chars(self.path.as_str());
        let b = str_chars(base.path.as_str());
        if !crate::text::chars_start_with(v.as_slice(), b.as_slice()) {
            return false;
        }
        v.len() == b.len() || b.len() == 0 || b[b.len() - 1] == '/' || v[b.len()] == '/'
    }
}

/// A logical mailbox name such as `Foo/Bar`, resolved into a
/// [`MaildirFsPath`] by a [`crate::store::MaildirStore`].
#[derive(Debug, PartialEq, Eq, PartialOrd, Ord, Hash)]
pub struct MaildirPath {
    name: String,
}

impl View for MaildirPath {
    type V = Seq<char>;

    closed spec fn view(&self) -> Seq<char> {
        self.name@
    }
}

impl MaildirPath {
    /// Copies `name` into a logical mailbox name.
    pub fn from(name: &str) -> (r: Self)
        ensures
            r@ == name@,
    {
        MaildirPath { name: name.to_owned() }
    }

    /// The empty name, which stands for the store root.
    pub fn root() -> (r: Self)
        ensures
            r@ == Seq::<char>::empty(),
    {
        MaildirPath { name: String::new() }
    }

    /// Returns the name as a string slice.
    pub fn as_str(&self) -> (r: &str)
        ensures
            r@ == self@,
    {
        self.name.as_str()
    }
}

} // verus!
