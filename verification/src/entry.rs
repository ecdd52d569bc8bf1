//! Maildir entries: the [`MaildirEntry`] lightweight handle, the
//! [`MaildirFullEntry`] body-carrying entry, and the unique names new
//! deliveries are given.

pub mod copy;
pub mod get;
pub mod headers;
pub mod list;
pub mod locate;
pub mod mint;
pub mod relocate;
pub mod store;

use vstd::prelude::*;

use crate::entry::locate::in_subdir;
use crate::flag::{
    cur_name, cur_name_spec, lemma_render_then_parse, parsed_flags, plain_letters, FlagsView, MaildirFlags,
    INFORMATIONAL_SUFFIX_SEPARATOR,
};
use crate::maildir::{Maildir, MaildirSubdir};
use crate::path::{file_name_spec, join_spec, MaildirFsPath};
use crate::text::{dec_chars, dec_spec, hex_chars, hex_spec, lemma_rfind, push_chars, push_str, rfind, rfind_char, str_chars};

verus! {

/// The id of an entry file name: everything before its last `:`, or
/// the whole name.
pub open spec fn name_id_spec(name: Seq<char>) -> Seq<char> {
    if rfind(name, ':') >= 0 {
        name.take(rfind(name, ':'))
    } else {
        name
    }
}

/// The id of the entry at `path`, if the path has a file name.
pub open spec fn entry_id_spec(path: Seq<char>) -> Option<Seq<char>> {
    match file_name_spec(path) {
        Some(name) => Some(name_id_spec(name)),
        None => None,
    }
}

/// The unique name minted for a delivery:
/// `{secs}.#{counter:x}M{nanos}P{pid}.{hostname}`.
pub open spec fn mint_id_spec(secs: u64, nanos: u32, counter: u32, pid: u32, hostname: Seq<char>) -> Seq<char> {
    dec_spec(secs as nat) + seq!['.', '#'] + hex_spec(counter as nat) + seq!['M'] + dec_spec(nanos as nat)
        + seq!['P'] + dec_spec(pid as nat) + seq!['.'] + hostname
}

/// Mints a fresh Maildir unique name following the delivery
/// convention: `{secs}.#{counter:x}M{nanos}P{pid}.{hostname}`.
///
/// `counter` tells apart the names minted within one clock tick by
/// one process; the caller keeps it.
pub fn mint_id(secs: u64, nanos: u32, counter: u32, pid: u32, hostname: &str) -> (r: String)
    ensures
        r@ == mint_id_spec(secs, nanos, counter, pid, hostname@),
{
    let mut s = String::new();
    push_chars(&mut s, dec_chars(secs).as_slice());
    push_str(&mut s, ".#");
    push_chars(&mut s, hex_chars(counter as u64).as_slice());
    push_str(&mut s, "M");
    push_chars(&mut s, dec_chars(nanos as u64).as_slice());
    push_str(&mut s, "P");
    push_chars(&mut s, dec_chars(pid as u64).as_slice());
    push_str(&mut s, ".");
    push_str(&mut s, hostname);
    proof {
        reveal_strlit(".#");
        reveal_strlit("M");
        reveal_strlit("P");
        reveal_strlit(".");
        assert(s@ =~= mint_id_spec(secs, nanos, counter, pid, hostname@));
    }
    s
}

/// Where an entry with id `id` and flags `flags` is delivered in
/// `subdir` of the Maildir at `root`: under `<id>:2,<letters>` in `cur`,
/// under its bare id in `new` and `tmp`.
pub open spec fn target_path_spec(root: Seq<char>, subdir: MaildirSubdir, id: Seq<char>, flags: FlagsView) -> Seq<char> {
    if subdir == MaildirSubdir::Cur {
        in_subdir(root, MaildirSubdir::Cur, cur_name_spec(id, flags))
    } else {
        in_subdir(root, subdir, id)
    }
}

/// The path an entry with id `id` and flags `flags` is delivered to in
/// `subdir` of `maildir`.
pub fn target_path(maildir: &Maildir, subdir: MaildirSubdir, id: &str, flags: &MaildirFlags) -> (r: MaildirFsPath)
    ensures
        r@ == target_path_spec(maildir@, subdir, id@, flags@),
{
    match subdir {
        MaildirSubdir::Cur => {
            let name = cur_name(id, flags);
            maildir.cur().join(name.as_str())
        },
        MaildirSubdir::New => maildir.new().join(id),
        MaildirSubdir::Tmp => maildir.tmp().join(id),
    }
}

/// The id part of an entry file name.
fn name_id(name: &str) -> (r: &str)
    ensures
        r@ == name_id_spec(name@),
{
    let chars = str_chars(name);
    proof { lemma_rfind(name@, ':'); }
    match rfind_char(chars.as_slice(), INFORMATIONAL_SUFFIX_SEPARATOR) {
        Some(i) => name.substring_char(0, i),
        None => name,
    }
}

/// Returns the id of the entry at `path`.
pub(crate) fn path_id(path: &MaildirFsPath) -> (r: Option<&str>)
    ensures
        match r {
            Some(id) => entry_id_spec(path@) == Some(id@),
            None => entry_id_spec(path@) is None,
        },
{
    match path.file_name() {
        Some(name) => Some(name_id(name)),
        None => None,
    }
}

/// A Maildir entry: on-disk path, body bytes and flags.
#[derive(Debug, PartialEq, Eq, PartialOrd, Ord)]
pub struct MaildirFullEntry {
    path: MaildirFsPath,
    contents: Vec<u8>,
    flags: MaildirFlags,
}

impl MaildirFullEntry {
    /// An entry read from `path`, its flags parsed from the file name.
    pub fn from(parts: (MaildirFsPath, Vec<u8>)) -> (r: Self)
        ensures
            r.path()@ == parts.0@,
            r.contents()@ == parts.1@,
            parsed_flags(r.flags()@, parts.0@),
    {
        let (path, contents) = parts;
        let flags = MaildirFlags::from(&path);
        MaildirFullEntry { path, contents, flags }
    }

    /// An entry whose flags were resolved by the caller (named letters
    /// plus custom keywords).
    pub fn with_flags(path: MaildirFsPath, contents: Vec<u8>, flags: MaildirFlags) -> (r: Self)
        ensures
            r.path()@ == path@,
            r.contents()@ == contents@,
            r.flags()@ == flags@,
    {
        MaildirFullEntry { path, contents, flags }
    }

    /// Returns the on-disk path of the entry file.
    pub closed spec fn path_spec(&self) -> &MaildirFsPath {
        &self.path
    }

    /// Returns the on-disk path of the entry file.
    #[verifier::when_used_as_spec(path_spec)]
    pub fn path(&self) -> (r: &MaildirFsPath)
        ensures
            r == self.path_spec(),
    {
        &self.path
    }

    /// Returns the flags of the entry.
    pub closed spec fn flags_spec(&self) -> &MaildirFlags {
        &self.flags
    }

    /// Returns the flags of the entry.
    ///
    /// An entry the client read carries its custom keywords resolved
    /// through the client's own `dovecot_keywords` and
    /// `keywords_header`; one built by hand carries the filename
    /// letters alone.
    #[verifier::when_used_as_spec(flags_spec)]
    pub fn flags(&self) -> (r: &MaildirFlags)
        ensures
            r == self.flags_spec(),
    {
        &self.flags
    }

    /// Returns the raw body bytes.
    pub closed spec fn contents_spec(&self) -> &Vec<u8> {
        &self.contents
    }

    /// Returns the raw body bytes.
    #[verifier::when_used_as_spec(contents_spec)]
    pub fn contents(&self) -> (r: &Vec<u8>)
        ensures
            r == self.contents_spec(),
    {
        &self.contents
    }

    /// Returns the entry id (filename before the info-section
    /// separator).
    pub fn id(&self) -> (r: Option<&str>)
        ensures
            match r {
                Some(id) => entry_id_spec(self.path()@) == Some(id@),
                None => entry_id_spec(self.path()@) is None,
            },
    {
        path_id(&self.path)
    }

    /// Gives the body bytes away.
    pub fn into_contents(self) -> (r: Vec<u8>)
        ensures
            r@ == self.contents()@,
    {
        self.contents
    }
}

/// Lightweight handle to a Maildir entry file (path only, no body).
#[derive(Debug, PartialEq, Eq, PartialOrd, Ord)]
pub struct MaildirEntry {
    path: MaildirFsPath,
}

impl Clone for MaildirEntry {
    fn clone(&self) -> (r: Self)
        ensures
            r.path()@ == self.path()@,
    {
        MaildirEntry { path: self.path.clone() }
    }
}

impl MaildirEntry {
    /// Wraps `path` as an entry handle.
    pub fn from_path(path: MaildirFsPath) -> (r: Self)
        ensures
            r.path()@ == path@,
    {
        MaildirEntry { path }
    }

    /// Returns the on-disk path of the entry file.
    pub closed spec fn path_spec(&self) -> &MaildirFsPath {
        &self.path
    }

    /// Returns the on-disk path of the entry file.
    #[verifier::when_used_as_spec(path_spec)]
    pub fn path(&self) -> (r: &MaildirFsPath)
        ensures
            r == self.path_spec(),
    {
        &self.path
    }

    /// Returns the entry id (filename before the `:2,` flags
    /// separator).
    pub fn id(&self) -> (r: Option<&str>)
        ensures
            match r {
                Some(id) => entry_id_spec(self.path()@) == Some(id@),
                None => entry_id_spec(self.path()@) is None,
            },
    {
        path_id(&self.path)
    }

    /// Parses the flags encoded in the filename.
    pub fn flags(&self) -> (r: MaildirFlags)
        ensures
            parsed_flags(r@, self.path()@),
    {
        MaildirFlags::from(&self.path)
    }

    /// Gives the path away.
    pub fn into_path(self) -> (r: MaildirFsPath)
        ensures
            r@ == self.path()@,
    {
        self.path
    }
}

/// An entry written under `<id>:2,<flags>` keeps its id: the id of the
/// file name is what the caller stored.
pub proof fn lemma_cur_name_keeps_id(dir: Seq<char>, id: Seq<char>, flags: crate::flag::FlagsView)
    requires
        !id.contains('/'),
        plain_letters(flags.letters),
    ensures
        entry_id_spec(join_spec(dir, cur_name_spec(id, flags))) == Some(id),
{
    lemma_render_then_parse(dir, id, flags);
    let name = cur_name_spec(id, flags);
    crate::text::lemma_rfind(name, ':');
    let r = crate::flag::render_spec(flags);
    let colon = id.len() as int;
    assert(name[colon] == ':');
    crate::flag::lemma_render_no_separator(flags);
    assert forall|j: int| colon < j < name.len() implies name[j] != ':' by {
        if j >= colon + 3 {
            assert(name[j] == r[j - colon - 3]);
        }
    }
    assert(rfind(name, ':') == colon);
    assert(name.take(colon) =~= id);
}

/// The value of a lowercase hexadecimal digit.
pub open spec fn hex_digit_value(c: char) -> int {
    if (c as int) <= 57 {
        c as int - 48
    } else {
        c as int - 87
    }
}

/// The value of lowercase hexadecimal digits.
pub open spec fn hex_value(s: Seq<char>) -> int
    decreases s.len(),
{
    if s.len() == 0 {
        0
    } else {
        hex_value(s.drop_last()) * 16 + hex_digit_value(s.last())
    }
}

/// A lowercase hexadecimal digit.
pub open spec fn is_hex_digit(c: char) -> bool {
    (48 <= (c as int) && (c as int) <= 57) || (97 <= (c as int) && (c as int) <= 102)
}

proof fn lemma_hex_digit(d: nat)
    requires
        d < 16,
    ensures
        is_hex_digit(crate::text::digit_spec(d)),
        hex_digit_value(crate::text::digit_spec(d)) == d,
{
    assert(('0' as nat) == 48);
    assert(('a' as nat) == 97);
}

/// Hexadecimal writing reads back as the number written.
proof fn lemma_hex_reads_back(n: nat)
    ensures
        hex_spec(n).len() > 0,
        forall|i: int| 0 <= i < hex_spec(n).len() ==> is_hex_digit(#[trigger] hex_spec(n)[i]),
        hex_value(hex_spec(n)) == n,
    decreases n,
{
    if n < 16 {
        lemma_hex_digit(n);
        assert(hex_spec(n) == seq![crate::text::digit_spec(n)]);
        let s = hex_spec(n);
        assert(s.drop_last() =~= Seq::<char>::empty());
        assert(hex_value(s.drop_last()) == 0);
        assert(s.last() == crate::text::digit_spec(n));
        assert(hex_value(s) == hex_value(s.drop_last()) * 16 + hex_digit_value(s.last()));
    } else {
        let q = n / 16;
        let r = n % 16;
        lemma_hex_reads_back(q);
        lemma_hex_digit(r);
        let s = hex_spec(n);
        assert(s == crate::text::radix_spec(q, 16).push(crate::text::digit_spec(r)));
        assert(s.drop_last() =~= hex_spec(q));
        assert(s.last() == crate::text::digit_spec(r));
        assert(hex_value(s) == hex_value(s.drop_last()) * 16 + hex_digit_value(s.last()));
        assert forall|i: int| 0 <= i < s.len() implies is_hex_digit(#[trigger] s[i]) by {
            if i < s.len() - 1 {
                assert(s[i] == hex_spec(q)[i]);
            }
        }
        assert(q * 16 + r == n) by (nonlinear_arith)
            requires
                q == n / 16,
                r == n % 16,
        ;
    }
}

/// A name minted with one counter is no prefix-sharing twin of a name
/// minted with another: whatever follows each, the two texts differ.
proof fn lemma_mint_prefix_free(
    secs: u64,
    nanos: u32,
    c1: u32,
    c2: u32,
    pid: u32,
    hostname: Seq<char>,
    s1: Seq<char>,
    s2: Seq<char>,
)
    requires
        c1 != c2,
    ensures
        mint_id_spec(secs, nanos, c1, pid, hostname) + s1 != mint_id_spec(secs, nanos, c2, pid, hostname) + s2,
{
    let p = dec_spec(secs as nat) + seq!['.', '#'];
    let q = seq!['M'] + dec_spec(nanos as nat) + seq!['P'] + dec_spec(pid as nat) + seq!['.'] + hostname;
    let h1 = hex_spec(c1 as nat);
    let h2 = hex_spec(c2 as nat);
    lemma_hex_reads_back(c1 as nat);
    lemma_hex_reads_back(c2 as nat);
    let w1 = mint_id_spec(secs, nanos, c1, pid, hostname) + s1;
    let w2 = mint_id_spec(secs, nanos, c2, pid, hostname) + s2;
    assert(w1 =~= p + (h1 + (q + s1)));
    assert(w2 =~= p + (h2 + (q + s2)));
    assert(('M' as int) == 77);
    if w1 == w2 {
        let t1 = h1 + (q + s1);
        let t2 = h2 + (q + s2);
        assert(t1 =~= w1.skip(p.len() as int));
        assert(t2 =~= w2.skip(p.len() as int));
        assert(t1 == t2);
        if h1.len() < h2.len() {
            assert(t1[h1.len() as int] == 'M');
            assert(t2[h1.len() as int] == h2[h1.len() as int]);
            assert(is_hex_digit(h2[h1.len() as int]));
        } else if h2.len() < h1.len() {
            assert(t2[h2.len() as int] == 'M');
            assert(t1[h2.len() as int] == h1[h2.len() as int]);
            assert(is_hex_digit(h1[h2.len() as int]));
        } else {
            assert(h1 =~= t1.take(h1.len() as int));
            assert(h2 =~= t2.take(h2.len() as int));
        }
    }
}

/// Names minted with different counters differ, whatever else they are
/// made of: two deliveries in one clock tick get distinct names as long
/// as the counter moved.
pub proof fn lemma_mint_distinct_counters(secs: u64, nanos: u32, c1: u32, c2: u32, pid: u32, hostname: Seq<char>)
    requires
        c1 != c2,
    ensures
        mint_id_spec(secs, nanos, c1, pid, hostname) != mint_id_spec(secs, nanos, c2, pid, hostname),
{
    let e = Seq::<char>::empty();
    lemma_mint_prefix_free(secs, nanos, c1, c2, pid, hostname, e, e);
    assert(mint_id_spec(secs, nanos, c1, pid, hostname) + e =~= mint_id_spec(secs, nanos, c1, pid, hostname));
    assert(mint_id_spec(secs, nanos, c2, pid, hostname) + e =~= mint_id_spec(secs, nanos, c2, pid, hostname));
}

/// Two deliveries into the same subdir of the same Maildir whose names
/// were minted with different counters land on different files,
/// whatever flags each carries.
pub proof fn lemma_stores_with_distinct_counters(
    root: Seq<char>,
    subdir: MaildirSubdir,
    secs: u64,
    nanos: u32,
    c1: u32,
    c2: u32,
    pid: u32,
    hostname: Seq<char>,
    f1: FlagsView,
    f2: FlagsView,
)
    requires
        c1 != c2,
    ensures
        target_path_spec(root, subdir, mint_id_spec(secs, nanos, c1, pid, hostname), f1) != target_path_spec(
            root,
            subdir,
            mint_id_spec(secs, nanos, c2, pid, hostname),
            f2,
        ),
{
    let id1 = mint_id_spec(secs, nanos, c1, pid, hostname);
    let id2 = mint_id_spec(secs, nanos, c2, pid, hostname);
    let dir = join_spec(root, crate::maildir::subdir_name_spec(subdir));
    let pre = if dir.len() == 0 {
        Seq::<char>::empty()
    } else if dir.last() == '/' {
        dir
    } else {
        dir + seq!['/']
    };
    let (s1, s2) = if subdir == MaildirSubdir::Cur {
        (seq![':', '2', ','] + crate::flag::render_spec(f1), seq![':', '2', ','] + crate::flag::render_spec(f2))
    } else {
        (Seq::<char>::empty(), Seq::<char>::empty())
    };
    let t1 = target_path_spec(root, subdir, id1, f1);
    let t2 = target_path_spec(root, subdir, id2, f2);
    assert(t1 =~= pre + (id1 + s1));
    assert(t2 =~= pre + (id2 + s2));
    lemma_mint_prefix_free(secs, nanos, c1, c2, pid, hostname, s1, s2);
    if t1 == t2 {
        assert(id1 + s1 =~= t1.skip(pre.len() as int));
        assert(id2 + s2 =~= t2.skip(pre.len() as int));
    }
}

proof fn lemma_radix_digits(n: nat, b: nat)
    requires
        2 <= b <= 16,
    ensures
        forall|i: int| 0 <= i < crate::text::radix_spec(n, b).len() ==> is_hex_digit(#[trigger] crate::text::radix_spec(n, b)[i]),
    decreases n,
{
    if n < b {
        lemma_hex_digit(n);
    } else {
        assert(n / b < n) by (nonlinear_arith)
            requires
                b >= 2,
                n >= b,
        ;
        assert(n % b < b) by (nonlinear_arith)
            requires
                b >= 2,
        ;
        lemma_radix_digits(n / b, b);
        lemma_hex_digit(n % b);
        let s = crate::text::radix_spec(n, b);
        let t = crate::text::radix_spec(n / b, b);
        assert(s == t.push(crate::text::digit_spec(n % b)));
        assert forall|i: int| 0 <= i < s.len() implies is_hex_digit(#[trigger] s[i]) by {
            if i < t.len() {
                assert(s[i] == t[i]);
            }
        }
    }
}

proof fn lemma_concat_lacks(a: Seq<char>, b: Seq<char>, c: char)
    requires
        !a.contains(c),
        !b.contains(c),
    ensures
        !(a + b).contains(c),
{
    if (a + b).contains(c) {
        let k = choose|k: int| 0 <= k < (a + b).len() && (a + b)[k] == c;
        if k < a.len() {
            assert(a[k] == c);
        } else {
            assert(b[k - a.len()] == c);
        }
    }
}

proof fn lemma_digits_lack_slash(n: nat, b: nat)
    requires
        2 <= b <= 16,
    ensures
        !crate::text::radix_spec(n, b).contains('/'),
{
    lemma_radix_digits(n, b);
    let s = crate::text::radix_spec(n, b);
    if s.contains('/') {
        let k = choose|k: int| 0 <= k < s.len() && s[k] == '/';
        assert(is_hex_digit(s[k]));
    }
}

proof fn lemma_short_lacks_slash(s: Seq<char>)
    requires
        forall|i: int| 0 <= i < s.len() ==> s[i] != '/',
    ensures
        !s.contains('/'),
{
}

/// A minted name holds a `/` only where the host name does.
pub proof fn lemma_mint_lacks_slash(secs: u64, nanos: u32, counter: u32, pid: u32, hostname: Seq<char>)
    requires
        !hostname.contains('/'),
    ensures
        !mint_id_spec(secs, nanos, counter, pid, hostname).contains('/'),
{
    lemma_digits_lack_slash(secs as nat, 10);
    lemma_digits_lack_slash(counter as nat, 16);
    lemma_digits_lack_slash(nanos as nat, 10);
    lemma_digits_lack_slash(pid as nat, 10);
    let d1 = dec_spec(secs as nat);
    let h = hex_spec(counter as nat);
    let d2 = dec_spec(nanos as nat);
    let d3 = dec_spec(pid as nat);
    let sep = seq!['.', '#'];
    let m = seq!['M'];
    let p = seq!['P'];
    let dot = seq!['.'];
    lemma_short_lacks_slash(sep);
    lemma_short_lacks_slash(m);
    lemma_short_lacks_slash(p);
    lemma_short_lacks_slash(dot);
    lemma_concat_lacks(d1, sep, '/');
    lemma_concat_lacks(d1 + sep, h, '/');
    lemma_concat_lacks(d1 + sep + h, m, '/');
    lemma_concat_lacks(d1 + sep + h + m, d2, '/');
    lemma_concat_lacks(d1 + sep + h + m + d2, p, '/');
    lemma_concat_lacks(d1 + sep + h + m + d2 + p, d3, '/');
    lemma_concat_lacks(d1 + sep + h + m + d2 + p + d3, dot, '/');
    lemma_concat_lacks(d1 + sep + h + m + d2 + p + d3 + dot, hostname, '/');
}

/// `path` is an entry file of `subdir` of the Maildir at `root` for the
/// id `id` and the flags `f`: a file of that subdir whose name reads
/// back as `id`, and, in `cur`, whose info section reads back as `f`;
/// outside `cur` the name is the bare id.
pub open spec fn delivered_as(path: Seq<char>, root: Seq<char>, subdir: MaildirSubdir, id: Seq<char>, f: FlagsView) -> bool {
    let dir = join_spec(root, crate::maildir::subdir_name_spec(subdir));
    if subdir == MaildirSubdir::Cur {
        &&& exists|n: Seq<char>| path == join_spec(dir, n)
        &&& entry_id_spec(path) == Some(id)
        &&& forall|g: FlagsView| parsed_flags(g, path) ==> g == f
    } else {
        path == join_spec(dir, id)
    }
}

/// Where a delivery under `id` with the flags `f` lands is an entry file
/// of that subdir for that id and those flags.
pub proof fn lemma_target_delivers(root: Seq<char>, subdir: MaildirSubdir, id: Seq<char>, f: FlagsView)
    requires
        !id.contains('/'),
        crate::flag::flags_wf(f),
        plain_letters(f.letters),
        forall|x: crate::flag::FlagView| #[trigger] f.flags.contains(x) ==> !(x is Keyword),
    ensures
        delivered_as(target_path_spec(root, subdir, id, f), root, subdir, id, f),
{
    if subdir == MaildirSubdir::Cur {
        let dir = join_spec(root, crate::maildir::subdir_name_spec(subdir));
        let t = target_path_spec(root, subdir, id, f);
        assert(t == join_spec(dir, cur_name_spec(id, f)));
        lemma_cur_name_keeps_id(dir, id, f);
        assert forall|g: FlagsView| parsed_flags(g, t) implies g == f by {
            crate::flag::lemma_written_flags_read_back(dir, id, f, g);
        }
    }
}

} // verus!
