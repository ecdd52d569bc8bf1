//! The filesystem root holding Maildirs, and its layout.

use vstd::prelude::*;

use crate::path::{join_spec, MaildirFsPath, MaildirPath};
use crate::text::{str_chars, string_from_chars};

verus! {

/// `name` with every `/` turned into a `.`.
pub open spec fn dotted_spec(name: Seq<char>) -> Seq<char> {
    name.map_values(|c: char| if c == '/' { '.' } else { c })
}

/// Where the logical mailbox `name` lives under `root`.
///
/// The empty name is the root itself. The fs layout nests one directory
/// per segment; Maildir++ flattens the name into one dot-prefixed
/// directory directly under the root.
pub open spec fn resolve_spec(root: Seq<char>, maildirpp: bool, name: Seq<char>) -> Seq<char> {
    if name.len() == 0 {
        root
    } else if maildirpp {
        join_spec(root, seq!['.'] + dotted_spec(name))
    } else {
        join_spec(root, name)
    }
}

/// A filesystem root plus the layout of the Maildirs below it.
#[derive(Debug)]
pub struct MaildirStore {
    /// Filesystem root.
    pub root: MaildirFsPath,
    /// `true` for the flat Maildir++ layout, `false` for nested
    /// directories.
    pub maildirpp: bool,
}

impl MaildirStore {
    /// Resolves a logical mailbox name into its filesystem path.
    pub fn resolve(&self, name: &MaildirPath) -> (r: MaildirFsPath)
        ensures
            r@ == resolve_spec(self.root@, self.maildirpp, name@),
    {
        let chars = str_chars(name.as_str());
        if chars.len() == 0 {
            return self.root.clone();
        }
        if !self.maildirpp {
            return self.root.join(name.as_str());
        }
        let mut flat: Vec<char> = Vec::new();
        flat.push('.');
        let mut i: usize = 0;
        while i < chars.len()
            invariant
                i <= chars@.len(),
                flat@ == seq!['.'] + dotted_spec(chars@.take(i as int)),
            decreases chars@.len() - i,
        {
            let c = chars[i];
            flat.push(if c == '/' { '.' } else { c });
            i = i + 1;
            assert(dotted_spec(chars@.take(i as int)) =~= dotted_spec(chars@.take(i - 1)).push(
                if c == '/' { '.' } else { c },
            ));
        }
        assert(chars@.take(chars@.len() as int) == chars@);
        let flat = string_from_chars(flat.as_slice());
        self.root.join(flat.as_str())
    }
}

} // verus!
