//! Custom keywords. On write, a state machine gives keywords their
//! `dovecot-keywords` slot letters: it loads the Maildir's slot table,
//! allocates a slot to each keyword, writes the table back when it
//! grew, and hands back the flag set carrying the slot letters; the
//! keywords header carries them inline. On read, an entry's flags are
//! resolved through the slot table and the keywords header.

use vstd::prelude::*;
use vstd::utf8::encode_utf8;

use crate::client::allocate_keyword_letters;
use crate::coroutine::{has_read, files_view, MaildirCoroutineState, MaildirReply, MaildirYield};
use crate::dovecot::load::{unread_sidecar, dovecot_load_resumes, sidecar_path, DovecotLoadOutcome, MaildirDovecotLoad, MaildirDovecotLoadError};
use crate::dovecot::store::{dovecot_store_resumes, DovecotStoreOutcome, MaildirDovecotStore, MaildirDovecotStoreError};
use crate::dovecot::{alloc_all, is_first_slot, serialize_spec, slot_in, table_map, table_wf};
use crate::dovecot::DovecotKeywords;
use crate::client::{kept_bytes, stored_contents};
use crate::entry::headers::{
    extract_keywords_header, extract_keywords_spec, header_safe, is_continuation, is_space_char, lacks_byte, lacks_char,
    lemma_char_codes, lemma_strip_injected,
    lemma_encode_concat, lemma_encode_lacks, lemma_encode_one, lemma_extract_injected, lemma_piece_keywords_concat,
    lemma_piece_of_keyword, lemma_split_concat, lemma_split_single, piece_keywords, split_bytes,
};
use crate::flag::{
    cur_name_spec, flag_from_char, header_name_spec, lemma_flags_ext, lemma_letters_of, lemma_render_then_parse, letters_of, plain_letters,
    entry_letters_spec, extra_letter, flags_wf, keywords_of, named_of, names_flag, names_keyword, separator_spec, string_views, FlagView,
    FlagsView, KeywordHeader, MaildirFlags,
};
use crate::path::{join_spec, MaildirFsPath};
use crate::text::{find, find_char, push_str, str_chars};
use crate::maildir::Maildir;

verus! {

/// Failure causes during a [`MaildirKeywordsResolve`] step.
#[derive(Debug)]
pub enum MaildirKeywordsError {
    /// A reply arrived that does not match the awaited step.
    UnexpectedArg(Option<MaildirReply>),
    /// Loading the slot table failed.
    DovecotLoad(MaildirDovecotLoadError),
    /// Writing the slot table back failed.
    DovecotStore(MaildirDovecotStoreError),
    /// The slot table exists but the read reply gave no bytes for it.
    Unreadable(MaildirFsPath),
}

/// Where a [`MaildirKeywordsResolve`] stands.
#[derive(Debug)]
pub enum KeywordsStep {
    /// Nothing to resolve: the flags are handed back on the first step.
    Ready { flags: MaildirFlags },
    /// Loading the slot table.
    Load { load: MaildirDovecotLoad, flags: MaildirFlags, keywords: Vec<String> },
    /// Writing the grown table back.
    Save { save: MaildirDovecotStore, flags: MaildirFlags },
    /// Finished; any further reply is unexpected.
    Done,
}

/// What one step of [`MaildirKeywordsResolve`] gives.
pub type KeywordsOutcome = MaildirCoroutineState<MaildirYield, Result<MaildirFlags, MaildirKeywordsError>>;

/// Resolves custom keywords into `dovecot-keywords` slot letters.
#[derive(Debug)]
pub struct MaildirKeywordsResolve {
    maildir: Maildir,
    step: KeywordsStep,
}

/// `f` is `base` with the slot letter of each of `ks` in the table
/// `m` added.
pub open spec fn with_slot_letters(f: FlagsView, base: FlagsView, m: Map<char, Seq<char>>, ks: Seq<Seq<char>>) -> bool {
    &&& flags_wf(f)
    &&& f.flags == base.flags
    &&& forall|c: char| #[trigger] f.letters.contains(c) <==> (base.letters.contains(c) || exists|j: int|
        0 <= j < ks.len() && slot_in(m, ks[j]) == Some(c))
}

/// `res` is the resolution built, in its Maildir, for the flag set
/// `flags` (keywords included) with the `dovecot-keywords` option
/// `dovecot`: it holds the named flags and letters of `flags` and, when
/// the option is on and there are keywords, the keywords to resolve.
pub open spec fn keywords_fresh(res: MaildirKeywordsResolve, dovecot: bool, flags: FlagsView) -> bool {
    let named = FlagsView { flags: named_of(flags.flags), letters: flags.letters };
    let ks = keywords_of(flags.flags);
    if dovecot && ks.len() > 0 {
        res.step() matches KeywordsStep::Load { load, flags: f, keywords: k } && load.step() is Start
            && load.path_spec() == sidecar_path(res.maildir_spec()) && f@ == named && string_views(k@) == ks
    } else {
        res.step() matches KeywordsStep::Ready { flags: f } && f@ == named
    }
}

/// One step of [`MaildirKeywordsResolve`] from `pre` on `arg` leads to
/// `post` and gives `r`.
pub open spec fn keywords_resumes(
    pre: MaildirKeywordsResolve,
    arg: Option<MaildirReply>,
    post: MaildirKeywordsResolve,
    r: KeywordsOutcome,
) -> bool {
    let root = pre.maildir_spec();
    &&& post.maildir_spec() == root
    &&& match pre.step() {
        KeywordsStep::Ready { flags } => {
            &&& post.step() is Done
            &&& match arg {
                None => r matches MaildirCoroutineState::Complete(Ok(f)) && f@ == flags@,
                _ => r == KeywordsOutcome::Complete(Err(MaildirKeywordsError::UnexpectedArg(arg))),
            }
        },
        KeywordsStep::Load { load, flags, keywords } => match unread_sidecar(load, arg) {
            Some(p) => {
                &&& post.step() is Done
                &&& r matches MaildirCoroutineState::Complete(Err(MaildirKeywordsError::Unreadable(q))) && q@ == p
            },
            None => exists|l2: MaildirDovecotLoad, r2: DovecotLoadOutcome|
            #[trigger] dovecot_load_resumes(load, arg, l2, r2) && match r2 {
                MaildirCoroutineState::Yielded(y) => {
                    &&& post.step() matches KeywordsStep::Load { load: l3, flags: f3, keywords: k3 } && l3 == l2
                        && f3@ == flags@ && k3@ == keywords@
                    &&& r == KeywordsOutcome::Yielded(y)
                },
                MaildirCoroutineState::Complete(Err(e)) => {
                    &&& post.step() is Done
                    &&& r == KeywordsOutcome::Complete(Err(MaildirKeywordsError::DovecotLoad(e)))
                },
                MaildirCoroutineState::Complete(Ok(t)) => {
                    let m = alloc_all(table_map(t@), string_views(keywords@));
                    if m.len() == table_map(t@).len() {
                        &&& post.step() is Done
                        &&& r matches MaildirCoroutineState::Complete(Ok(f)) && with_slot_letters(
                            f@,
                            flags@,
                            m,
                            string_views(keywords@),
                        )
                    } else {
                        &&& post.step() matches KeywordsStep::Save { save, flags: f3 } && save.step() is Write
                            && with_slot_letters(f3@, flags@, m, string_views(keywords@))
                        &&& exists|nt: Seq<(char, Seq<char>)>|
                            table_wf(nt) && table_map(nt) == m && (r matches MaildirCoroutineState::Yielded(
                                MaildirYield::WantsFileCreate(v),
                            ) && files_view(v@) == seq![(sidecar_path(root), encode_utf8(serialize_spec(nt)))])
                    }
                },
            },
        },
        KeywordsStep::Save { save, flags } => exists|s2: MaildirDovecotStore, r2: DovecotStoreOutcome|
            #[trigger] dovecot_store_resumes(save, arg, s2, r2) && match r2 {
                MaildirCoroutineState::Yielded(y) => {
                    &&& post.step() matches KeywordsStep::Save { save: s3, flags: f3 } && s3 == s2 && f3@ == flags@
                    &&& r == KeywordsOutcome::Yielded(y)
                },
                MaildirCoroutineState::Complete(Err(e)) => {
                    &&& post.step() is Done
                    &&& r == KeywordsOutcome::Complete(Err(MaildirKeywordsError::DovecotStore(e)))
                },
                MaildirCoroutineState::Complete(Ok(())) => {
                    &&& post.step() is Done
                    &&& r matches MaildirCoroutineState::Complete(Ok(f)) && f@ == flags@
                },
            },
        KeywordsStep::Done => {
            &&& post.step() is Done
            &&& r == KeywordsOutcome::Complete(Err(MaildirKeywordsError::UnexpectedArg(arg)))
        },
    }
}

impl MaildirKeywordsResolve {
    /// The flags waiting for their slot letters are well formed.
    #[verifier::type_invariant]
    spec fn inv(&self) -> bool {
        self.step matches KeywordsStep::Load { flags, .. } ==> flags_wf(flags@)
    }

    /// The Maildir whose table is used.
    pub closed spec fn maildir_spec(&self) -> Seq<char> {
        self.maildir@
    }

    /// Where the machine stands.
    pub closed spec fn step(&self) -> KeywordsStep {
        self.step
    }

    /// Builds a machine resolving `keywords` for `flags` in `maildir`.
    /// With `dovecot` off, or no keyword, nothing is resolved and the
    /// keywords are dropped.
    pub fn new(maildir: &Maildir, dovecot: bool, flags: MaildirFlags, keywords: Vec<String>) -> (r: Self)
        ensures
            r.maildir_spec() == maildir@,
            if dovecot && keywords@.len() > 0 {
                r.step() matches KeywordsStep::Load { load, flags: f, keywords: k } && load.step() is Start
                    && load.path_spec() == sidecar_path(maildir@) && f@ == flags@ && k@ == keywords@
            } else {
                r.step() matches KeywordsStep::Ready { flags: f } && f@ == flags@
            },
    {
        proof { use_type_invariant(&flags); }
        let step = if dovecot && keywords.len() > 0 {
            KeywordsStep::Load { load: MaildirDovecotLoad::new(maildir), flags, keywords }
        } else {
            KeywordsStep::Ready { flags }
        };
        MaildirKeywordsResolve { maildir: maildir.clone(), step }
    }

    /// Makes the resolution progress with the caller's answer `arg`.
    pub fn resume(&mut self, arg: Option<MaildirReply>) -> (r: KeywordsOutcome)
        ensures
            keywords_resumes(*old(self), arg, *final(self), r),
    {
        proof {
            use_type_invariant(&*self);
        }
        let mut step = KeywordsStep::Done;
        core::mem::swap(&mut step, &mut self.step);
        match step {
            KeywordsStep::Ready { flags } => match arg {
                None => MaildirCoroutineState::Complete(Ok(flags)),
                arg => MaildirCoroutineState::Complete(Err(MaildirKeywordsError::UnexpectedArg(arg))),
            },
            KeywordsStep::Load { mut load, flags, keywords } => {
                let ghost l0 = load;
                let missing = match (load.reading(), &arg) {
                    (Some(path), Some(MaildirReply::FileRead(m))) => if has_read(m, path) {
                        None
                    } else {
                        Some(path.clone())
                    },
                    _ => None,
                };
                if let Some(path) = missing {
                    return MaildirCoroutineState::Complete(Err(MaildirKeywordsError::Unreadable(path)));
                }
                assert(unread_sidecar(l0, arg) is None);
                let r2 = load.resume(arg);
                proof {
                    assert(dovecot_load_resumes(l0, arg, load, r2));
                }
                match r2 {
                    MaildirCoroutineState::Yielded(y) => {
                        self.step = KeywordsStep::Load { load, flags, keywords };
                        MaildirCoroutineState::Yielded(y)
                    },
                    MaildirCoroutineState::Complete(Err(e)) => {
                        MaildirCoroutineState::Complete(Err(MaildirKeywordsError::DovecotLoad(e)))
                    },
                    MaildirCoroutineState::Complete(Ok(table)) => {
                        let ghost t0 = table@;
                        let ghost f0 = flags@;
                        let mut table = table;
                        let mut flags = flags;
                        let changed = allocate_keyword_letters(&mut table, &mut flags, &keywords);
                        proof {
                            crate::dovecot::lemma_table_map(t0);
                            crate::dovecot::lemma_table_map(table@);
                        }
                        let ghost m = alloc_all(table_map(t0), string_views(keywords@));
                        assert(table_map(table@) == m);
                        proof {
                            let ks = string_views(keywords@);
                            assert forall|c: char| #[trigger] flags@.letters.contains(c) <==> (f0.letters.contains(c) || exists|j: int|
                                0 <= j < ks.len() && slot_in(m, ks[j]) == Some(c)) by {
                                if exists|j: int| 0 <= j < keywords@.len() && slot_in(m, keywords@[j]@) == Some(c) {
                                    let j = choose|j: int| 0 <= j < keywords@.len() && slot_in(m, keywords@[j]@) == Some(c);
                                    assert(ks[j] == keywords@[j]@);
                                }
                                if exists|j: int| 0 <= j < ks.len() && slot_in(m, ks[j]) == Some(c) {
                                    let j = choose|j: int| 0 <= j < ks.len() && slot_in(m, ks[j]) == Some(c);
                                    assert(ks[j] == keywords@[j]@);
                                }
                            }
                        }
                        assert(with_slot_letters(flags@, f0, m, string_views(keywords@)));
                        if !changed {
                            assert(m.len() == table_map(t0).len());
                            MaildirCoroutineState::Complete(Ok(flags))
                        } else {
                            let mut save = MaildirDovecotStore::new(&self.maildir, &table);
                            let ghost s0 = save;
                            let r3 = save.resume(None);
                            proof {
                                assert(dovecot_store_resumes(s0, None, save, r3));
                            }
                            assert(m.len() != table_map(t0).len());
                            match r3 {
                                MaildirCoroutineState::Yielded(y) => {
                                    self.step = KeywordsStep::Save { save, flags };
                                    assert(exists|nt: Seq<(char, Seq<char>)>| table_wf(nt) && table_map(nt) == m && (r3 matches MaildirCoroutineState::Yielded(
                                MaildirYield::WantsFileCreate(v),
                            ) && files_view(v@) == seq![(sidecar_path(self.maildir@), encode_utf8(serialize_spec(nt)))]));
                                    MaildirCoroutineState::Yielded(y)
                                },
                                MaildirCoroutineState::Complete(Err(e)) => {
                                    MaildirCoroutineState::Complete(Err(MaildirKeywordsError::DovecotStore(e)))
                                },
                                MaildirCoroutineState::Complete(Ok(())) => MaildirCoroutineState::Complete(Ok(flags)),
                            }
                        }
                    },
                }
            },
            KeywordsStep::Save { mut save, flags } => {
                let ghost s0 = save;
                let r2 = save.resume(arg);
                proof {
                    assert(dovecot_store_resumes(s0, arg, save, r2));
                }
                match r2 {
                    MaildirCoroutineState::Yielded(y) => {
                        self.step = KeywordsStep::Save { save, flags };
                        MaildirCoroutineState::Yielded(y)
                    },
                    MaildirCoroutineState::Complete(Err(e)) => {
                        MaildirCoroutineState::Complete(Err(MaildirKeywordsError::DovecotStore(e)))
                    },
                    MaildirCoroutineState::Complete(Ok(())) => MaildirCoroutineState::Complete(Ok(flags)),
                }
            },
            KeywordsStep::Done => MaildirCoroutineState::Complete(Err(MaildirKeywordsError::UnexpectedArg(arg))),
        }
    }
}

} // verus!

verus! {

/// The keywords of `ks` that do not hold `sep`, in order: a keyword
/// holding the separator would read back as several.
pub open spec fn header_kept(ks: Seq<Seq<char>>, sep: char) -> Seq<Seq<char>>
    decreases ks.len(),
{
    if ks.len() == 0 {
        Seq::empty()
    } else if ks.last().contains(sep) {
        header_kept(ks.drop_last(), sep)
    } else {
        header_kept(ks.drop_last(), sep).push(ks.last())
    }
}

/// `ks` joined by `d`.
pub open spec fn join_with(ks: Seq<Seq<char>>, d: Seq<char>) -> Seq<char>
    decreases ks.len(),
{
    if ks.len() == 0 {
        Seq::empty()
    } else if ks.len() == 1 {
        ks[0]
    } else {
        join_with(ks.drop_last(), d) + d + ks.last()
    }
}

/// What the keywords are joined by in the value of header `h`.
pub open spec fn header_delim(h: KeywordHeader) -> Seq<char> {
    match h {
        KeywordHeader::XKeywords => seq![',', ' '],
        KeywordHeader::XLabel => seq![' '],
    }
}

/// The value of header `h` carrying the keywords `ks`, when any of them
/// can be carried.
pub open spec fn header_value_spec(h: KeywordHeader, ks: Seq<Seq<char>>) -> Option<Seq<char>> {
    let kept = header_kept(ks, separator_spec(h));
    if kept.len() == 0 {
        None
    } else {
        Some(join_with(kept, header_delim(h)))
    }
}

/// The value of header `h` carrying `keywords`: those that do not hold
/// the header's separator, joined; `None` when none is left.
pub fn header_value(h: KeywordHeader, keywords: &Vec<String>) -> (r: Option<String>)
    ensures
        match r {
            Some(v) => header_value_spec(h, string_views(keywords@)) == Some(v@),
            None => header_value_spec(h, string_views(keywords@)) is None,
        },
{
    let ghost ks = string_views(keywords@);
    let sep = h.separator();
    let delim: &str = match h {
        KeywordHeader::XKeywords => ", ",
        KeywordHeader::XLabel => " ",
    };
    proof {
        reveal_strlit(", ");
        reveal_strlit(" ");
        assert(delim@ =~= header_delim(h));
    }
    let mut value = String::new();
    let mut count: usize = 0;
    let mut i: usize = 0;
    proof {
        assert(ks.take(0) =~= Seq::<Seq<char>>::empty());
    }
    while i < keywords.len()
        invariant
            i <= keywords@.len(),
            ks == string_views(keywords@),
            sep == separator_spec(h),
            delim@ == header_delim(h),
            count <= i,
            count as int == header_kept(ks.take(i as int), sep).len(),
            value@ == join_with(header_kept(ks.take(i as int), sep), delim@),
        decreases keywords@.len() - i,
    {
        assert(ks.take(i + 1).drop_last() =~= ks.take(i as int));
        assert(ks[i as int] == keywords@[i as int]@);
        let k = keywords[i].as_str();
        let chars = str_chars(k);
        let ghost prev = header_kept(ks.take(i as int), sep);
        assert(ks.take(i + 1).last() == k@);
        if find_char(chars.as_slice(), sep).is_none() {
            proof {
                crate::text::lemma_find(k@, sep);
                if k@.contains(sep) {
                    let j = choose|j: int| 0 <= j < k@.len() && k@[j] == sep;
                    assert(k@[j] == sep);
                }
            }
            assert(!k@.contains(sep));
            assert(header_kept(ks.take(i + 1), sep) == prev.push(k@));
            if count > 0 {
                push_str(&mut value, delim);
            }
            push_str(&mut value, k);
            count = count + 1;
            proof {
                let np = prev.push(k@);
                if prev.len() > 0 {
                    assert(np.drop_last() =~= prev);
                    assert(join_with(np, delim@) == join_with(prev, delim@) + delim@ + k@);
                } else {
                    assert(join_with(np, delim@) == k@);
                }
            }
        } else {
            proof {
                crate::text::lemma_find(k@, sep);
                assert(k@[find(k@, sep)] == sep);
                assert(k@.contains(sep));
                assert(header_kept(ks.take(i + 1), sep) == prev);
            }
        }
        i = i + 1;
        proof {
            let kept = header_kept(ks.take(i as int), sep);
            assert(value@ =~= join_with(kept, delim@));
        }
    }
    assert(ks.take(i as int) =~= ks);
    if count == 0 {
        None
    } else {
        Some(value)
    }
}

} // verus!

verus! {

/// The custom keywords the header option `h` reads from the message
/// `bytes`.
pub open spec fn header_keywords(h: Option<KeywordHeader>, bytes: Seq<u8>) -> Seq<Seq<char>> {
    match h {
        Some(h) => extract_keywords_spec(bytes, h),
        None => Seq::empty(),
    }
}

/// The slot map of an optional table.
pub open spec fn opt_table(t: Option<DovecotKeywords>) -> Option<Map<char, Seq<char>>> {
    match t {
        Some(t) => Some(table_map(t@)),
        None => None,
    }
}

/// `f` is how the entry at `path` reads, its bytes carrying the header
/// keywords `kws`: the flags its file name names, and `kws`; with a
/// slot map `table`, the lowercase letters of its name that the map
/// names add their keywords and no letter is kept; without one, the
/// letters naming no flag are kept as they are.
pub open spec fn read_flags_spec(f: FlagsView, path: Seq<char>, table: Option<Map<char, Seq<char>>>, kws: Seq<Seq<char>>) -> bool {
    let l = entry_letters_spec(path);
    &&& flags_wf(f)
    &&& forall|g: FlagView| #[trigger]
        f.flags.contains(g) <==> (names_flag(l, g) || (g is Keyword && (kws.contains(g->Keyword_0) || match table {
            Some(m) => names_keyword(l, m, g->Keyword_0),
            None => false,
        })))
    &&& match table {
        Some(_) => f.letters == Seq::<char>::empty(),
        None => forall|c: char| #[trigger] f.letters.contains(c) <==> extra_letter(l, c),
    }
}

/// The flags of the entry at `path` read as `bytes`: its file name's
/// flags, slot letters resolved through `table` when there is one, and
/// the keywords the header `header` carries when it is set.
pub fn read_flags(path: &MaildirFsPath, bytes: &[u8], table: &Option<DovecotKeywords>, header: Option<KeywordHeader>) -> (f: MaildirFlags)
    ensures
        read_flags_spec(f@, path@, opt_table(*table), header_keywords(header, bytes@)),
{
    if let Some(t) = table {
        proof { use_type_invariant(t); }
    }
    let mut f = match table {
        Some(t) => MaildirFlags::with_dovecot(path, t),
        None => MaildirFlags::from(path),
    };
    match header {
        Some(h) => {
            let ks = extract_keywords_header(bytes, h);
            f.extend_keywords(ks);
        },
        None => {},
    }
    f
}

} // verus!

verus! {

/// The keywords kept for the header are keywords of `ks` without `sep`.
proof fn lemma_kept_safe(ks: Seq<Seq<char>>, sep: char)
    requires
        forall|i: int| 0 <= i < ks.len() ==> header_safe(#[trigger] ks[i]),
    ensures
        forall|i: int| 0 <= i < header_kept(ks, sep).len() ==> header_safe(#[trigger] header_kept(ks, sep)[i])
            && lacks_char(header_kept(ks, sep)[i], sep),
    decreases ks.len(),
{
    if ks.len() > 0 {
        let rest = ks.drop_last();
        assert forall|i: int| 0 <= i < rest.len() implies header_safe(#[trigger] rest[i]) by {
            assert(rest[i] == ks[i]);
        }
        lemma_kept_safe(rest, sep);
        let k = ks.last();
        assert(header_safe(ks[ks.len() - 1]));
        if !k.contains(sep) {
            assert forall|j: int| 0 <= j < k.len() implies k[j] != sep by {
                if k[j] == sep {
                    assert(k.contains(sep));
                }
            }
            let kept = header_kept(ks, sep);
            assert(kept == header_kept(rest, sep).push(k));
            assert forall|i: int| 0 <= i < kept.len() implies header_safe(#[trigger] kept[i]) && lacks_char(kept[i], sep) by {
                if i < header_kept(rest, sep).len() {
                    assert(kept[i] == header_kept(rest, sep)[i]);
                }
            }
        }
    }
}

/// Keywords and a separator holding no `c` join into text holding no
/// `c`.
proof fn lemma_join_lacks(ks: Seq<Seq<char>>, d: Seq<char>, c: char)
    requires
        lacks_char(d, c),
        forall|i: int| 0 <= i < ks.len() ==> lacks_char(#[trigger] ks[i], c),
    ensures
        lacks_char(join_with(ks, d), c),
    decreases ks.len(),
{
    if ks.len() > 1 {
        let rest = ks.drop_last();
        assert forall|i: int| 0 <= i < rest.len() implies lacks_char(#[trigger] rest[i], c) by {
            assert(rest[i] == ks[i]);
        }
        lemma_join_lacks(rest, d, c);
        let j = join_with(rest, d);
        let k = ks.last();
        assert(lacks_char(ks[ks.len() - 1], c));
        assert forall|i: int| 0 <= i < (j + d + k).len() implies (j + d + k)[i] != c by {
            if i < j.len() {
                assert((j + d + k)[i] == j[i]);
            } else if i < j.len() + d.len() {
                assert((j + d + k)[i] == d[i - j.len()]);
            } else {
                assert((j + d + k)[i] == k[i - j.len() - d.len()]);
            }
        }
    } else if ks.len() == 1 {
        assert(lacks_char(ks[0], c));
    }
}

/// Comma-joined safe keywords holding no comma, read back from an
/// `X-Keywords` value, give the keywords again.
proof fn lemma_comma_pieces(ks: Seq<Seq<char>>)
    requires
        ks.len() > 0,
        forall|i: int| 0 <= i < ks.len() ==> header_safe(#[trigger] ks[i]) && lacks_char(ks[i], ','),
    ensures
        piece_keywords(split_bytes(seq![32u8] + encode_utf8(join_with(ks, seq![',', ' '])), 44)) == ks,
    decreases ks.len(),
{
    let d = seq![',', ' '];
    lemma_char_codes();
    let k = ks.last();
    assert(header_safe(ks[ks.len() - 1]) && lacks_char(ks[ks.len() - 1], ','));
    lemma_encode_lacks(k, ',');
    let b = seq![32u8] + encode_utf8(k);
    assert(lacks_byte(b, 44)) by {
        assert forall|i: int| 0 <= i < b.len() implies b[i] != 44 by {
            if i > 0 {
                assert(b[i] == encode_utf8(k)[i - 1]);
            }
        }
    }
    lemma_split_single(b, 44);
    lemma_piece_of_keyword(k);
    if ks.len() == 1 {
        assert(ks =~= seq![k]);
    } else {
        let rest = ks.drop_last();
        assert forall|i: int| 0 <= i < rest.len() implies header_safe(#[trigger] rest[i]) && lacks_char(rest[i], ',') by {
            assert(rest[i] == ks[i]);
        }
        lemma_comma_pieces(rest);
        let j = join_with(rest, d);
        assert(join_with(ks, d) == j + d + k);
        lemma_encode_concat(j + d, k);
        lemma_encode_concat(j, d);
        assert(d =~= seq![','] + seq![' ']);
        lemma_encode_concat(seq![','], seq![' ']);
        lemma_encode_one(',');
        lemma_encode_one(' ');
        let a = seq![32u8] + encode_utf8(j);
        assert(seq![32u8] + encode_utf8(join_with(ks, d)) =~= a + seq![44u8] + b);
        lemma_split_concat(a, b, 44);
        lemma_piece_keywords_concat(split_bytes(a, 44), split_bytes(b, 44));
        assert(rest + seq![k] =~= ks);
    }
}

/// Space-joined safe keywords holding no space, read back from an
/// `X-Label` value, give the keywords again.
proof fn lemma_space_pieces(ks: Seq<Seq<char>>)
    requires
        ks.len() > 0,
        forall|i: int| 0 <= i < ks.len() ==> header_safe(#[trigger] ks[i]) && lacks_char(ks[i], ' '),
    ensures
        piece_keywords(split_bytes(seq![32u8] + encode_utf8(join_with(ks, seq![' '])), 32)) == ks,
    decreases ks.len(),
{
    let d = seq![' '];
    lemma_char_codes();
    let k = ks.last();
    assert(header_safe(ks[ks.len() - 1]) && lacks_char(ks[ks.len() - 1], ' '));
    lemma_encode_lacks(k, ' ');
    let b = encode_utf8(k);
    lemma_split_single(b, 32);
    lemma_piece_of_keyword(k);
    if ks.len() == 1 {
        let z = Seq::<u8>::empty();
        assert(seq![32u8] + encode_utf8(join_with(ks, d)) =~= z + seq![32u8] + b);
        lemma_split_concat(z, b, 32);
        assert(lacks_byte(z, 32));
        lemma_split_single(z, 32);
        lemma_piece_keywords_concat(seq![z], seq![b]);
        assert(ks =~= Seq::<Seq<char>>::empty() + seq![k]);
    } else {
        let rest = ks.drop_last();
        assert forall|i: int| 0 <= i < rest.len() implies header_safe(#[trigger] rest[i]) && lacks_char(rest[i], ' ') by {
            assert(rest[i] == ks[i]);
        }
        lemma_space_pieces(rest);
        let j = join_with(rest, d);
        assert(join_with(ks, d) == j + d + k);
        lemma_encode_concat(j + d, k);
        lemma_encode_concat(j, d);
        lemma_encode_one(' ');
        let a = seq![32u8] + encode_utf8(j);
        assert(seq![32u8] + encode_utf8(join_with(ks, d)) =~= a + seq![32u8] + b);
        lemma_split_concat(a, b, 32);
        lemma_piece_keywords_concat(split_bytes(a, 32), split_bytes(b, 32));
        assert(rest + seq![k] =~= ks);
    }
}

/// What the keywords header carries once an entry is stored, reading it
/// gives back: the keywords that hold no separator, in order. This holds
/// for keywords a header line can carry unchanged (see [`header_safe`]),
/// at least one of them kept, and a message not opening with a
/// continuation line.
pub proof fn lemma_header_keywords_round_trip(h: KeywordHeader, ks: Seq<Seq<char>>, contents: Seq<u8>)
    requires
        forall|i: int| 0 <= i < ks.len() ==> header_safe(#[trigger] ks[i]),
        header_kept(ks, separator_spec(h)).len() > 0,
        !is_continuation(contents),
    ensures
        header_keywords(Some(h), stored_contents(Some(h), ks, contents)) == header_kept(ks, separator_spec(h)),
{
    let sep = separator_spec(h);
    let kept = header_kept(ks, sep);
    let d = header_delim(h);
    lemma_kept_safe(ks, sep);
    lemma_char_codes();
    assert(lacks_char(d, '\n'));
    assert forall|i: int| 0 <= i < kept.len() implies lacks_char(#[trigger] kept[i], '\n') by {
        assert(header_safe(kept[i]));
    }
    lemma_join_lacks(kept, d, '\n');
    let v = join_with(kept, d);
    lemma_extract_injected(h, v, contents);
    match h {
        KeywordHeader::XKeywords => {
            lemma_comma_pieces(kept);
        },
        KeywordHeader::XLabel => {
            lemma_space_pieces(kept);
        },
    }
}

} // verus!

verus! {

/// Keywords written into an entry's name as their slot letters read
/// back, through the same slot map, as those keywords, beside the
/// named flags written with them; no letter is left over. This holds
/// for a slot map keyed by lowercase letters in which every keyword
/// has a slot, and named flags carrying no extra letter.
pub proof fn lemma_slot_letters_read_back(
    dir: Seq<char>,
    id: Seq<char>,
    written: FlagsView,
    named: FlagsView,
    m: Map<char, Seq<char>>,
    ks: Seq<Seq<char>>,
    read: FlagsView,
)
    requires
        !id.contains('/'),
        flags_wf(named),
        named.letters.len() == 0,
        forall|x: FlagView| #[trigger] named.flags.contains(x) ==> !(x is Keyword),
        with_slot_letters(written, named, m, ks),
        forall|l: char| #[trigger] m.contains_key(l) ==> 'a' <= l && l <= 'z',
        forall|j: int| 0 <= j < ks.len() ==> (#[trigger] slot_in(m, ks[j])) is Some,
        read_flags_spec(read, join_spec(dir, cur_name_spec(id, written)), Some(m), Seq::empty()),
    ensures
        read.letters == Seq::<char>::empty(),
        forall|x: FlagView| #[trigger]
            read.flags.contains(x) <==> (named.flags.contains(x) || (x is Keyword && ks.contains(x->Keyword_0))),
{
    // Every written letter is the slot of one of the keywords.
    assert forall|c: char| #[trigger] written.letters.contains(c) implies exists|j: int|
        0 <= j < ks.len() && slot_in(m, ks[j]) == Some(c) && m.contains_key(c) && m[c] == ks[j] by {
        assert(!named.letters.contains(c));
        let j = choose|j: int| 0 <= j < ks.len() && slot_in(m, ks[j]) == Some(c);
        assert(exists|l: char| is_first_slot(m, ks[j], l));
        assert(is_first_slot(m, ks[j], c));
    }
    assert(plain_letters(written.letters)) by {
        assert forall|i: int| 0 <= i < written.letters.len() implies flag_from_char(#[trigger] written.letters[i]) is None
            && written.letters[i] != ':' && written.letters[i] != '/' by {
            let c = written.letters[i];
            assert(written.letters.contains(c));
            assert(m.contains_key(c));
        }
    }
    let path = join_spec(dir, cur_name_spec(id, written));
    lemma_render_then_parse(dir, id, written);
    lemma_letters_of(written.flags);
    let l = entry_letters_spec(path);
    let lo = letters_of(written.flags);
    assert(l == lo + written.letters);
    assert forall|x: FlagView| #[trigger] read.flags.contains(x) <==> (named.flags.contains(x) || (x is Keyword
        && ks.contains(x->Keyword_0))) by {
        if x is Keyword {
            let k = x->Keyword_0;
            assert(!names_flag(l, x)) by {
                if names_flag(l, x) {
                    assert(written.flags.contains(x) && !(x is Keyword));
                }
            }
            if names_keyword(l, m, k) {
                let i = choose|i: int|
                    0 <= i < l.len() && 'a' <= #[trigger] l[i] && l[i] <= 'z' && m.contains_key(l[i]) && m[l[i]] == k;
                if i < lo.len() {
                    assert(l[i] == lo[i]);
                    assert(flag_from_char(lo[i]) is Some);
                } else {
                    let c = l[i];
                    assert(c == written.letters[i - lo.len()]);
                    assert(written.letters.contains(c));
                    let j = choose|j: int| 0 <= j < ks.len() && slot_in(m, ks[j]) == Some(c) && m.contains_key(c) && m[c] == ks[j];
                    assert(ks[j] == k);
                    assert(ks.contains(k));
                }
            }
            if ks.contains(k) {
                let j = choose|j: int| 0 <= j < ks.len() && ks[j] == k;
                assert(slot_in(m, ks[j]) is Some);
                let c = slot_in(m, ks[j]).unwrap();
                assert(exists|l2: char| is_first_slot(m, ks[j], l2));
                assert(is_first_slot(m, ks[j], c));
                assert(written.letters.contains(c));
                let q = choose|q: int| 0 <= q < written.letters.len() && written.letters[q] == c;
                assert(l[lo.len() + q] == c);
                assert(names_keyword(l, m, k));
            }
            assert(!named.flags.contains(x));
        } else {
            assert(names_flag(l, x) <==> written.flags.contains(x));
        }
    }
}

} // verus!

verus! {

/// How an entry reads is fixed by its path, the slot map and the header
/// keywords: two flag sets that both read so are equal.
pub proof fn lemma_read_flags_unique(
    f: FlagsView,
    g: FlagsView,
    path: Seq<char>,
    table: Option<Map<char, Seq<char>>>,
    kws: Seq<Seq<char>>,
)
    requires
        read_flags_spec(f, path, table, kws),
        read_flags_spec(g, path, table, kws),
    ensures
        f == g,
{
    assert forall|x: FlagView| f.flags.contains(x) <==> g.flags.contains(x) by {
        assert(f.flags.contains(x) == g.flags.contains(x));
    }
    assert forall|c: char| f.letters.contains(c) <==> g.letters.contains(c) by {
        if table is None {
            assert(f.letters.contains(c) == g.letters.contains(c));
        }
    }
    lemma_flags_ext(f, g);
}

} // verus!

verus! {

/// A message stored with the keywords header, read back with that
/// header among the stripped ones, reads as the message stored without
/// the header would: the header the store puts first leaves no trace.
/// This holds for keywords a header line can carry (see
/// [`header_safe`]) and a message not opening with a continuation line.
pub proof fn lemma_stripped_keywords_header(h: KeywordHeader, ks: Seq<Seq<char>>, contents: Seq<u8>, strip: Seq<String>)
    requires
        forall|i: int| 0 <= i < ks.len() ==> header_safe(#[trigger] ks[i]),
        exists|k: int| 0 <= k < strip.len() && #[trigger] strip[k]@ == header_name_spec(h),
        !is_continuation(contents),
    ensures
        kept_bytes(stored_contents(Some(h), ks, contents), strip) == kept_bytes(contents, strip),
{
    let sep = separator_spec(h);
    let kept = header_kept(ks, sep);
    let d = header_delim(h);
    if kept.len() > 0 {
        lemma_kept_safe(ks, sep);
        lemma_char_codes();
        assert(lacks_char(d, '\n'));
        assert forall|i: int| 0 <= i < kept.len() implies lacks_char(#[trigger] kept[i], '\n') by {
            assert(header_safe(kept[i]));
        }
        lemma_join_lacks(kept, d, '\n');
        let name = header_name_spec(h);
        assert(lacks_char(name, ':') && lacks_char(name, '\n') && name.len() > 0 && !is_space_char(name[0]));
        lemma_strip_injected(contents, name, join_with(kept, d), strip);
    }
}


proof fn lemma_table_key_listed(v: Seq<(char, Seq<char>)>, l: char)
    requires
        table_map(v).contains_key(l),
    ensures
        exists|i: int| 0 <= i < v.len() && (#[trigger] v[i]).0 == l,
    decreases v.len(),
{
    if v.last().0 == l {
        assert(v[v.len() - 1].0 == l);
    } else {
        let t = v.drop_last();
        lemma_table_key_listed(t, l);
        let i = choose|i: int| 0 <= i < t.len() && (#[trigger] t[i]).0 == l;
        assert(v[i] == t[i]);
    }
}

/// Keywords stored through the `dovecot-keywords` sidecar read back. A
/// resolution gave the flag set `written` the slot letters, in the slot
/// table `nt`, of the keywords `ks` beside the named flags `named`, and
/// the sidecar holds `bytes`: either `nt` as the store machine writes
/// it, or a text already parsing to `nt`. The entry delivered to `cur`
/// of the Maildir at `root` under `id` with `written`, read through the
/// table `loaded` that the load machine parses from `bytes` the way
/// [`MaildirFlags::with_dovecot`] reads it, has exactly the named flags
/// and the keywords `ks`, and no letter left over. The slots are
/// lowercase letters, the keyword names survive the sidecar's line
/// format, and every keyword got a slot.
pub proof fn lemma_keywords_read_back_via_sidecar(
    root: Seq<char>,
    id: Seq<char>,
    written: FlagsView,
    named: FlagsView,
    nt: Seq<(char, Seq<char>)>,
    ks: Seq<Seq<char>>,
    bytes: Seq<u8>,
    loaded: Seq<(char, Seq<char>)>,
    read: FlagsView,
)
    requires
        !id.contains('/'),
        flags_wf(named),
        named.letters.len() == 0,
        forall|x: FlagView| #[trigger] named.flags.contains(x) ==> !(x is Keyword),
        with_slot_letters(written, named, table_map(nt), ks),
        forall|j: int| 0 <= j < ks.len() ==> (#[trigger] slot_in(table_map(nt), ks[j])) is Some,
        forall|i: int| 0 <= i < nt.len() ==> 'a' <= #[trigger] nt[i].0 && nt[i].0 <= 'z',
        forall|i: int| 0 <= i < nt.len() ==> crate::dovecot::sidecar_name(#[trigger] nt[i].1),
        bytes == encode_utf8(serialize_spec(nt)) || crate::dovecot::parse_spec(crate::dovecot::load::stored_text(bytes))
            == table_map(nt),
        table_map(loaded) == crate::dovecot::parse_spec(crate::dovecot::load::stored_text(bytes)),
        flags_wf(read),
        read.letters == Seq::<char>::empty(),
        forall|g: FlagView| #[trigger] read.flags.contains(g) <==> (names_flag(
            entry_letters_spec(crate::entry::target_path_spec(root, crate::maildir::MaildirSubdir::Cur, id, written)),
            g,
        ) || (g is Keyword && names_keyword(
            entry_letters_spec(crate::entry::target_path_spec(root, crate::maildir::MaildirSubdir::Cur, id, written)),
            table_map(loaded),
            g->Keyword_0,
        ))),
    ensures
        read.letters == Seq::<char>::empty(),
        forall|x: FlagView| #[trigger]
            read.flags.contains(x) <==> (named.flags.contains(x) || (x is Keyword && ks.contains(x->Keyword_0))),
{
    let m = table_map(nt);
    if bytes == encode_utf8(serialize_spec(nt)) {
        crate::dovecot::store::lemma_store_then_load(nt);
    }
    assert(table_map(loaded) == m);
    assert forall|l: char| #[trigger] m.contains_key(l) implies 'a' <= l && l <= 'z' by {
        lemma_table_key_listed(nt, l);
    }
    let dir = join_spec(root, crate::maildir::subdir_name_spec(crate::maildir::MaildirSubdir::Cur));
    let path = join_spec(dir, cur_name_spec(id, written));
    assert(crate::entry::target_path_spec(root, crate::maildir::MaildirSubdir::Cur, id, written) == path);
    assert(read_flags_spec(read, path, Some(m), Seq::empty()));
    lemma_slot_letters_read_back(dir, id, written, named, m, ks, read);
}
} // verus!
