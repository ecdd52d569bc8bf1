//! Maildir flags: the [`MaildirFlags`] set, the individual
//! [`MaildirFlag`] letters and keywords, and the [`KeywordHeader`]
//! carrying custom keywords inline with a message body.

pub mod add;
pub mod remove;
pub mod set;

use vstd::prelude::*;
use vstd::std_specs::iter::IteratorSpec;

use crate::order::{lemma_seq_lt_total, lemma_seq_lt_trans, seq_lt, str_compare, Rank};
use crate::dovecot::{table_map, table_wf, DovecotKeywords};
use crate::path::{file_name_spec, join_spec, MaildirFsPath};
use crate::text::{find, find_char, lemma_find, lemma_rfind, push_char, push_str, rfind, rfind_char, str_chars};

verus! {

/// A single Maildir flag: a standard IANA letter or a custom keyword.
#[derive(Debug, PartialEq, Eq, PartialOrd, Ord, Hash)]
pub enum MaildirFlag {
    /// The message has been forwarded (`P`).
    Passed,
    /// The message has been replied to (`R`).
    Replied,
    /// The message has been read (`S`).
    Seen,
    /// The message is marked for deletion (`T`).
    Trashed,
    /// The message is a draft (`D`).
    Draft,
    /// The message is flagged for later attention (`F`).
    Flagged,
    /// Custom keyword with no info-section letter; serialised via
    /// dovecot-keywords or a configured header.
    Keyword(String),
}

/// The mathematical value of a [`MaildirFlag`].
pub enum FlagView {
    Passed,
    Replied,
    Seen,
    Trashed,
    Draft,
    Flagged,
    Keyword(Seq<char>),
}

impl View for MaildirFlag {
    type V = FlagView;

    open spec fn view(&self) -> FlagView {
        match self {
            MaildirFlag::Passed => FlagView::Passed,
            MaildirFlag::Replied => FlagView::Replied,
            MaildirFlag::Seen => FlagView::Seen,
            MaildirFlag::Trashed => FlagView::Trashed,
            MaildirFlag::Draft => FlagView::Draft,
            MaildirFlag::Flagged => FlagView::Flagged,
            MaildirFlag::Keyword(s) => FlagView::Keyword(s@),
        }
    }
}

/// Position of a flag's variant in the declaration order.
pub open spec fn flag_rank(f: FlagView) -> int {
    match f {
        FlagView::Passed => 0,
        FlagView::Replied => 1,
        FlagView::Seen => 2,
        FlagView::Trashed => 3,
        FlagView::Draft => 4,
        FlagView::Flagged => 5,
        FlagView::Keyword(_) => 6,
    }
}

/// The order flags are kept and written in: variant order, then
/// keywords by their text.
pub open spec fn flag_lt(a: FlagView, b: FlagView) -> bool {
    match (a, b) {
        (FlagView::Keyword(x), FlagView::Keyword(y)) => seq_lt(x, y),
        _ => flag_rank(a) < flag_rank(b),
    }
}

/// The info-section letter of a flag; keywords have none.
pub open spec fn flag_letter(f: FlagView) -> Seq<char> {
    match f {
        FlagView::Passed => seq!['P'],
        FlagView::Replied => seq!['R'],
        FlagView::Seen => seq!['S'],
        FlagView::Trashed => seq!['T'],
        FlagView::Draft => seq!['D'],
        FlagView::Flagged => seq!['F'],
        FlagView::Keyword(_) => Seq::empty(),
    }
}

/// The named flag an info-section letter stands for.
pub open spec fn flag_from_char(c: char) -> Option<FlagView> {
    if c == 'P' {
        Some(FlagView::Passed)
    } else if c == 'R' {
        Some(FlagView::Replied)
    } else if c == 'S' {
        Some(FlagView::Seen)
    } else if c == 'T' {
        Some(FlagView::Trashed)
    } else if c == 'D' {
        Some(FlagView::Draft)
    } else if c == 'F' {
        Some(FlagView::Flagged)
    } else {
        None
    }
}

/// `flag_lt` is a strict total order.
pub proof fn lemma_flag_lt(a: FlagView, b: FlagView, c: FlagView)
    ensures
        !flag_lt(a, a),
        flag_lt(a, b) ==> !flag_lt(b, a),
        a != b ==> flag_lt(a, b) || flag_lt(b, a),
        flag_lt(a, b) && flag_lt(b, c) ==> flag_lt(a, c),
{
    match (a, b) {
        (FlagView::Keyword(x), FlagView::Keyword(y)) => {
            lemma_seq_lt_total(x, y);
        },
        _ => {},
    }
    match a {
        FlagView::Keyword(x) => {
            lemma_seq_lt_total(x, x);
        },
        _ => {},
    }
    match (a, b, c) {
        (FlagView::Keyword(x), FlagView::Keyword(y), FlagView::Keyword(z)) => {
            if seq_lt(x, y) && seq_lt(y, z) {
                lemma_seq_lt_trans(x, y, z);
            }
        },
        _ => {},
    }
}

impl Clone for MaildirFlag {
    fn clone(&self) -> (r: Self)
        ensures
            r == *self,
    {
        match self {
            MaildirFlag::Passed => MaildirFlag::Passed,
            MaildirFlag::Replied => MaildirFlag::Replied,
            MaildirFlag::Seen => MaildirFlag::Seen,
            MaildirFlag::Trashed => MaildirFlag::Trashed,
            MaildirFlag::Draft => MaildirFlag::Draft,
            MaildirFlag::Flagged => MaildirFlag::Flagged,
            MaildirFlag::Keyword(s) => MaildirFlag::Keyword(s.clone()),
        }
    }
}

impl MaildirFlag {
    /// Maps an info-section letter to its named flag, or [`None`] for
    /// any other character.
    pub fn from_char(c: char) -> (r: Option<MaildirFlag>)
        ensures
            match r {
                Some(f) => flag_from_char(c) == Some(f@),
                None => flag_from_char(c) is None,
            },
    {
        if c == 'P' {
            Some(MaildirFlag::Passed)
        } else if c == 'R' {
            Some(MaildirFlag::Replied)
        } else if c == 'S' {
            Some(MaildirFlag::Seen)
        } else if c == 'T' {
            Some(MaildirFlag::Trashed)
        } else if c == 'D' {
            Some(MaildirFlag::Draft)
        } else if c == 'F' {
            Some(MaildirFlag::Flagged)
        } else {
            None
        }
    }

    /// Builds a [`MaildirFlag::Keyword`] from `s`.
    pub fn keyword(s: &str) -> (r: Self)
        ensures
            r@ == FlagView::Keyword(s@),
    {
        MaildirFlag::Keyword(s.to_owned())
    }

    /// Returns the keyword string when this is a
    /// [`MaildirFlag::Keyword`], else [`None`].
    pub fn as_keyword(&self) -> (r: Option<&str>)
        ensures
            match self@ {
                FlagView::Keyword(k) => r is Some && r.unwrap()@ == k,
                _ => r is None,
            },
    {
        match self {
            MaildirFlag::Keyword(s) => Some(s.as_str()),
            _ => None,
        }
    }

    /// Returns the info-section letter of a named flag.
    pub fn letter(&self) -> (r: Option<char>)
        ensures
            match r {
                Some(c) => flag_letter(self@) == seq![c],
                None => flag_letter(self@).len() == 0,
            },
    {
        match self {
            MaildirFlag::Passed => Some('P'),
            MaildirFlag::Replied => Some('R'),
            MaildirFlag::Seen => Some('S'),
            MaildirFlag::Trashed => Some('T'),
            MaildirFlag::Draft => Some('D'),
            MaildirFlag::Flagged => Some('F'),
            MaildirFlag::Keyword(_) => None,
        }
    }

    /// Renders the flag the way it appears in an info section: its
    /// letter, or nothing for a keyword.
    pub fn to_string(&self) -> (r: String)
        ensures
            r@ == flag_letter(self@),
    {
        let mut s = String::new();
        if let Some(c) = self.letter() {
            push_char(&mut s, c);
        }
        s
    }

    /// Compares two flags in the order sets keep them in.
    pub fn compare(&self, other: &MaildirFlag) -> (r: Rank)
        ensures
            r == Rank::Before <==> flag_lt(self@, other@),
            r == Rank::Same <==> self@ == other@,
            r == Rank::After <==> flag_lt(other@, self@),
    {
        proof { lemma_flag_lt(self@, other@, self@); }
        match (self, other) {
            (MaildirFlag::Keyword(a), MaildirFlag::Keyword(b)) => str_compare(a.as_str(), b.as_str()),
            _ => {
                let x = self.rank();
                let y = other.rank();
                if x < y {
                    Rank::Before
                } else if x == y {
                    Rank::Same
                } else {
                    Rank::After
                }
            },
        }
    }

    fn rank(&self) -> (r: u8)
        ensures
            r as int == flag_rank(self@),
    {
        match self {
            MaildirFlag::Passed => 0,
            MaildirFlag::Replied => 1,
            MaildirFlag::Seen => 2,
            MaildirFlag::Trashed => 3,
            MaildirFlag::Draft => 4,
            MaildirFlag::Flagged => 5,
            MaildirFlag::Keyword(_) => 6,
        }
    }
}


/// The views of a sequence of flags.
pub open spec fn flag_views(s: Seq<MaildirFlag>) -> Seq<FlagView> {
    s.map_values(|f: MaildirFlag| f@)
}

/// Strictly increasing in flag order, hence free of duplicates.
pub open spec fn sorted_flags(s: Seq<FlagView>) -> bool {
    forall|i: int, j: int| 0 <= i < j < s.len() ==> flag_lt(s[i], s[j])
}

/// Strictly increasing in code point order.
pub open spec fn sorted_letters(s: Seq<char>) -> bool {
    forall|i: int, j: int| 0 <= i < j < s.len() ==> s[i] < s[j]
}

/// The mathematical value of a [`MaildirFlags`]: its named flags and
/// keywords, and its extra letters, each in the order they are kept.
pub struct FlagsView {
    pub flags: Seq<FlagView>,
    pub letters: Seq<char>,
}

/// A [`FlagsView`] whose two sequences are strictly sorted.
pub open spec fn flags_wf(v: FlagsView) -> bool {
    sorted_flags(v.flags) && sorted_letters(v.letters)
}

/// The letters of `s`, in order; keywords contribute none.
pub open spec fn letters_of(s: Seq<FlagView>) -> Seq<char>
    decreases s.len(),
{
    if s.len() == 0 {
        Seq::empty()
    } else {
        letters_of(s.drop_last()) + flag_letter(s.last())
    }
}

/// The info-section text of a flag set: the named-flag letters in
/// order, then the extra letters.
pub open spec fn render_spec(v: FlagsView) -> Seq<char> {
    letters_of(v.flags) + v.letters
}

/// Inserts `f` into the strictly sorted `v`.
fn insert_flag(v: &mut Vec<MaildirFlag>, f: MaildirFlag) -> (r: bool)
    requires
        sorted_flags(flag_views(old(v)@)),
    ensures
        sorted_flags(flag_views(final(v)@)),
        forall|g: FlagView| flag_views(final(v)@).contains(g) <==> (flag_views(old(v)@).contains(g) || g == f@),
        r == !flag_views(old(v)@).contains(f@),
{
    let ghost old_views = flag_views(v@);
    let mut i: usize = 0;
    while i < v.len()
        invariant
            v@ == old(v)@,
            old_views == flag_views(v@),
            sorted_flags(old_views),
            i <= v@.len(),
            forall|j: int| 0 <= j < i ==> flag_lt(old_views[j], f@),
        decreases v@.len() - i,
    {
        match v[i].compare(&f) {
            Rank::Before => {
                i = i + 1;
            },
            Rank::Same => {
                assert(old_views[i as int] == f@);
                return false;
            },
            Rank::After => {
                proof {
                    assert forall|j: int| i <= j < old_views.len() implies flag_lt(f@, old_views[j]) by {
                        if j > i {
                            lemma_flag_lt(f@, old_views[i as int], old_views[j]);
                        }
                    }
                    assert forall|j: int| 0 <= j < old_views.len() implies old_views[j] != f@ by {
                        lemma_flag_lt(f@, old_views[j], f@);
                    }
                }
                v.insert(i, f);
                proof {
                    let nv = flag_views(v@);
                    assert(nv =~= old_views.insert(i as int, f@));
                    assert forall|a: int, b: int| 0 <= a < b < nv.len() implies flag_lt(nv[a], nv[b]) by {
                        if b < i {
                        } else if a < i && b == i {
                        } else if a < i {
                            lemma_flag_lt(nv[a], f@, nv[b]);
                        } else if a == i {
                        } else {
                        }
                    }
                    assert forall|g: FlagView| nv.contains(g) <==> (old_views.contains(g) || g == f@) by {
                        if nv.contains(g) {
                            let k = choose|k: int| 0 <= k < nv.len() && nv[k] == g;
                            if k < i {
                                assert(old_views[k] == g);
                            } else if k > i {
                                assert(old_views[k - 1] == g);
                            }
                        }
                        if old_views.contains(g) {
                            let k = choose|k: int| 0 <= k < old_views.len() && old_views[k] == g;
                            if k < i {
                                assert(nv[k] == g);
                            } else {
                                assert(nv[k + 1] == g);
                            }
                        }
                        if g == f@ {
                            assert(nv[i as int] == g);
                        }
                    }
                }
                return true;
            },
        }
    }
    proof {
        assert forall|j: int| 0 <= j < old_views.len() implies old_views[j] != f@ by {
            lemma_flag_lt(old_views[j], f@, old_views[j]);
        }
    }
    v.push(f);
    proof {
        let nv = flag_views(v@);
        assert(nv =~= old_views.push(f@));
        assert forall|g: FlagView| nv.contains(g) <==> (old_views.contains(g) || g == f@) by {
            if nv.contains(g) {
                let k = choose|k: int| 0 <= k < nv.len() && nv[k] == g;
                if k < old_views.len() {
                    assert(old_views[k] == g);
                }
            }
            if old_views.contains(g) {
                let k = choose|k: int| 0 <= k < old_views.len() && old_views[k] == g;
                assert(nv[k] == g);
            }
            if g == f@ {
                assert(nv[old_views.len() as int] == g);
            }
        }
    }
    true
}

/// Inserts `c` into the strictly sorted `v`.
fn insert_letter(v: &mut Vec<char>, c: char) -> (r: bool)
    requires
        sorted_letters(old(v)@),
    ensures
        sorted_letters(final(v)@),
        forall|d: char| final(v)@.contains(d) <==> (old(v)@.contains(d) || d == c),
        r == !old(v)@.contains(c),
{
    let mut i: usize = 0;
    while i < v.len()
        invariant
            v@ == old(v)@,
            sorted_letters(v@),
            i <= v@.len(),
            forall|j: int| 0 <= j < i ==> v@[j] < c,
        decreases v@.len() - i,
    {
        if v[i] < c {
            i = i + 1;
        } else if v[i] == c {
            return false;
        } else {
            let ghost old_v = v@;
            v.insert(i, c);
            proof {
                assert(v@ =~= old_v.insert(i as int, c));
                assert forall|d: char| v@.contains(d) <==> (old_v.contains(d) || d == c) by {
                    if v@.contains(d) {
                        let k = choose|k: int| 0 <= k < v@.len() && v@[k] == d;
                        if k < i {
                            assert(old_v[k] == d);
                        } else if k > i {
                            assert(old_v[k - 1] == d);
                        }
                    }
                    if old_v.contains(d) {
                        let k = choose|k: int| 0 <= k < old_v.len() && old_v[k] == d;
                        if k < i {
                            assert(v@[k] == d);
                        } else {
                            assert(v@[k + 1] == d);
                        }
                    }
                    if d == c {
                        assert(v@[i as int] == d);
                    }
                }
            }
            return true;
        }
    }
    let ghost old_v = v@;
    v.push(c);
    proof {
        assert(v@ =~= old_v.push(c));
        assert forall|d: char| v@.contains(d) <==> (old_v.contains(d) || d == c) by {
            if v@.contains(d) {
                let k = choose|k: int| 0 <= k < v@.len() && v@[k] == d;
                if k < old_v.len() {
                    assert(old_v[k] == d);
                }
            }
            if old_v.contains(d) {
                let k = choose|k: int| 0 <= k < old_v.len() && old_v[k] == d;
                assert(v@[k] == d);
            }
            if d == c {
                assert(v@[old_v.len() as int] == d);
            }
        }
    }
    true
}


/// Whether the strictly sorted `v` holds `f`.
fn has_flag(v: &Vec<MaildirFlag>, f: &MaildirFlag) -> (r: bool)
    ensures
        r == flag_views(v@).contains(f@),
{
    let mut i: usize = 0;
    while i < v.len()
        invariant
            i <= v@.len(),
            forall|j: int| 0 <= j < i ==> flag_views(v@)[j] != f@,
        decreases v@.len() - i,
    {
        if v[i].compare(f) == Rank::Same {
            assert(flag_views(v@)[i as int] == f@);
            return true;
        }
        i = i + 1;
    }
    false
}

/// Whether `v` holds `c`.
fn has_letter(v: &Vec<char>, c: char) -> (r: bool)
    ensures
        r == v@.contains(c),
{
    let mut i: usize = 0;
    while i < v.len()
        invariant
            i <= v@.len(),
            forall|j: int| 0 <= j < i ==> v@[j] != c,
        decreases v@.len() - i,
    {
        if v[i] == c {
            return true;
        }
        i = i + 1;
    }
    false
}

/// The elements of the strictly sorted `v` that `drop` does not hold,
/// in order.
fn flags_without(v: &Vec<MaildirFlag>, drop: &Vec<MaildirFlag>) -> (r: Vec<MaildirFlag>)
    requires
        sorted_flags(flag_views(v@)),
    ensures
        sorted_flags(flag_views(r@)),
        forall|g: FlagView| flag_views(r@).contains(g) <==> (flag_views(v@).contains(g) && !flag_views(drop@).contains(g)),
{
    let ghost vs = flag_views(v@);
    let mut out: Vec<MaildirFlag> = Vec::new();
    let ghost mut idx: Seq<int> = Seq::empty();
    let mut i: usize = 0;
    while i < v.len()
        invariant
            vs == flag_views(v@),
            sorted_flags(vs),
            i <= v@.len(),
            idx.len() == out@.len(),
            forall|k: int| 0 <= k < idx.len() ==> 0 <= #[trigger] idx[k] < i && flag_views(out@)[k] == vs[idx[k]],
            forall|a: int, b: int| 0 <= a < b < idx.len() ==> idx[a] < idx[b],
            forall|g: FlagView| flag_views(out@).contains(g) <==> (exists|j: int| 0 <= j < i && vs[j] == g && !flag_views(drop@).contains(g)),
        decreases v@.len() - i,
    {
        let ghost before = flag_views(out@);
        if !has_flag(drop, &v[i]) {
            out.push(v[i].clone());
            proof {
                idx = idx.push(i as int);
                assert(flag_views(out@) =~= before.push(vs[i as int]));
            }
        }
        proof {
            let now = flag_views(out@);
            assert forall|g: FlagView| now.contains(g) <==> (exists|j: int| 0 <= j < i + 1 && vs[j] == g && !flag_views(drop@).contains(g)) by {
                if now.contains(g) {
                    let k = choose|k: int| 0 <= k < now.len() && now[k] == g;
                    if k < before.len() {
                        assert(before[k] == g);
                        assert(before.contains(g));
                    } else {
                        assert(vs[i as int] == g);
                    }
                }
                if exists|j: int| 0 <= j < i + 1 && vs[j] == g && !flag_views(drop@).contains(g) {
                    let j = choose|j: int| 0 <= j < i + 1 && vs[j] == g && !flag_views(drop@).contains(g);
                    if j < i {
                        assert(before.contains(g));
                        let k = choose|k: int| 0 <= k < before.len() && before[k] == g;
                        assert(now[k] == g);
                    } else {
                        assert(now[now.len() - 1] == g);
                    }
                }
            }
        }
        i = i + 1;
    }
    proof {
        let now = flag_views(out@);
        assert forall|a: int, b: int| 0 <= a < b < now.len() implies flag_lt(now[a], now[b]) by {
            assert(idx[a] < idx[b]);
        }
        assert forall|g: FlagView| now.contains(g) <==> (vs.contains(g) && !flag_views(drop@).contains(g)) by {
            if vs.contains(g) && !flag_views(drop@).contains(g) {
                let j = choose|j: int| 0 <= j < vs.len() && vs[j] == g;
                assert(exists|j: int| 0 <= j < i && vs[j] == g && !flag_views(drop@).contains(g));
            }
        }
    }
    out
}

/// The elements of the strictly sorted `v` that `drop` does not hold,
/// in order.
fn letters_without(v: &Vec<char>, drop: &Vec<char>) -> (r: Vec<char>)
    requires
        sorted_letters(v@),
    ensures
        sorted_letters(r@),
        forall|c: char| r@.contains(c) <==> (v@.contains(c) && !drop@.contains(c)),
{
    let mut out: Vec<char> = Vec::new();
    let ghost mut idx: Seq<int> = Seq::empty();
    let mut i: usize = 0;
    while i < v.len()
        invariant
            sorted_letters(v@),
            i <= v@.len(),
            idx.len() == out@.len(),
            forall|k: int| 0 <= k < idx.len() ==> 0 <= #[trigger] idx[k] < i && out@[k] == v@[idx[k]],
            forall|a: int, b: int| 0 <= a < b < idx.len() ==> idx[a] < idx[b],
            forall|c: char| out@.contains(c) <==> (exists|j: int| 0 <= j < i && v@[j] == c && !drop@.contains(c)),
        decreases v@.len() - i,
    {
        let ghost before = out@;
        if !has_letter(drop, v[i]) {
            out.push(v[i]);
            proof {
                idx = idx.push(i as int);
            }
        }
        proof {
            assert forall|c: char| out@.contains(c) <==> (exists|j: int| 0 <= j < i + 1 && v@[j] == c && !drop@.contains(c)) by {
                if out@.contains(c) {
                    let k = choose|k: int| 0 <= k < out@.len() && out@[k] == c;
                    if k < before.len() {
                        assert(before[k] == c);
                        assert(before.contains(c));
                    } else {
                        assert(v@[i as int] == c);
                    }
                }
                if exists|j: int| 0 <= j < i + 1 && v@[j] == c && !drop@.contains(c) {
                    let j = choose|j: int| 0 <= j < i + 1 && v@[j] == c && !drop@.contains(c);
                    if j < i {
                        assert(before.contains(c));
                        let k = choose|k: int| 0 <= k < before.len() && before[k] == c;
                        assert(out@[k] == c);
                    } else {
                        assert(out@[out@.len() - 1] == c);
                    }
                }
            }
        }
        i = i + 1;
    }
    proof {
        assert forall|a: int, b: int| 0 <= a < b < out@.len() implies out@[a] < out@[b] by {
            assert(idx[a] < idx[b]);
        }
        assert forall|c: char| out@.contains(c) <==> (v@.contains(c) && !drop@.contains(c)) by {
            if v@.contains(c) && !drop@.contains(c) {
                let j = choose|j: int| 0 <= j < v@.len() && v@[j] == c;
                assert(exists|j: int| 0 <= j < i && v@[j] == c && !drop@.contains(c));
            }
        }
    }
    out
}


/// Character separating an entry's unique name from its `2,<flags>`
/// info section (the Unix convention).
pub const INFORMATIONAL_SUFFIX_SEPARATOR: char = ':';

/// The `<letters>` of a file name's `<id>:2,<letters>` info section:
/// what follows the first `,` after the last `:`.
pub open spec fn info_letters_spec(name: Seq<char>) -> Option<Seq<char>> {
    let i = rfind(name, ':');
    if i < 0 {
        None
    } else {
        let info = name.subrange(i + 1, name.len() as int);
        let j = find(info, ',');
        if j < 0 {
            None
        } else {
            Some(info.subrange(j + 1, info.len() as int))
        }
    }
}

/// The info-section letters of the entry at `path`, empty when it has
/// no file name or no info section.
pub open spec fn entry_letters_spec(path: Seq<char>) -> Seq<char> {
    match file_name_spec(path) {
        Some(name) => match info_letters_spec(name) {
            Some(letters) => letters,
            None => Seq::empty(),
        },
        None => Seq::empty(),
    }
}

/// `letters` names the flag `g` by one of its characters.
pub open spec fn names_flag(letters: Seq<char>, g: FlagView) -> bool {
    exists|i: int| 0 <= i < letters.len() && flag_from_char(letters[i]) == Some(g)
}

/// `c` is one of `letters` and names no flag.
pub open spec fn extra_letter(letters: Seq<char>, c: char) -> bool {
    letters.contains(c) && flag_from_char(c) is None
}

/// Returns the `<letters>` part of an entry filename's
/// `<id>:2,<letters>` info section, if any.
///
/// Splits at the marker, not at the last comma, so that dovecot's
/// `,S=<size>,W=<vsize>` extensions in the unique part are not read as
/// flag letters.
pub fn info_letters(file_name: &str) -> (r: Option<&str>)
    ensures
        match r {
            Some(l) => info_letters_spec(file_name@) == Some(l@),
            None => info_letters_spec(file_name@) is None,
        },
{
    let chars = str_chars(file_name);
    proof { lemma_rfind(file_name@, ':'); }
    let i = match rfind_char(chars.as_slice(), ':') {
        Some(i) => i,
        None => return None,
    };
    let info = file_name.substring_char(i + 1, chars.len());
    let info_chars = str_chars(info);
    proof { lemma_find(info@, ','); }
    match find_char(info_chars.as_slice(), ',') {
        Some(j) => Some(info.substring_char(j + 1, info_chars.len())),
        None => None,
    }
}

/// `v` is the flag set written in the info section of the file name of
/// `path`: the flags its letters name, and its other letters verbatim.
pub open spec fn parsed_flags(v: FlagsView, path: Seq<char>) -> bool {
    &&& flags_wf(v)
    &&& forall|g: FlagView| #[trigger] v.flags.contains(g) <==> names_flag(entry_letters_spec(path), g)
    &&& forall|c: char| #[trigger] v.letters.contains(c) <==> extra_letter(entry_letters_spec(path), c)
}

/// A set of Maildir flags plus opaque info-section letters.
///
/// Both parts are kept sorted, so the info section a set renders to is
/// deterministic.
#[derive(Debug, PartialEq, Eq, PartialOrd, Ord)]
pub struct MaildirFlags {
    /// Named flags and custom keywords.
    flags: Vec<MaildirFlag>,
    /// Info-section letters with no named counterpart (typically
    /// resolved dovecot slots), written verbatim after the flags.
    extra_letters: Vec<char>,
}

impl View for MaildirFlags {
    type V = FlagsView;

    closed spec fn view(&self) -> FlagsView {
        FlagsView { flags: flag_views(self.flags@), letters: self.extra_letters@ }
    }
}

/// The keyword texts of `s`, in order.
pub open spec fn keywords_of(s: Seq<FlagView>) -> Seq<Seq<char>>
    decreases s.len(),
{
    if s.len() == 0 {
        Seq::empty()
    } else {
        match s.last() {
            FlagView::Keyword(k) => keywords_of(s.drop_last()).push(k),
            _ => keywords_of(s.drop_last()),
        }
    }
}

/// The named (non-keyword) flags of `s`, in order.
pub open spec fn named_of(s: Seq<FlagView>) -> Seq<FlagView>
    decreases s.len(),
{
    if s.len() == 0 {
        Seq::empty()
    } else {
        match s.last() {
            FlagView::Keyword(_) => named_of(s.drop_last()),
            _ => named_of(s.drop_last()).push(s.last()),
        }
    }
}

/// The texts of a sequence of strings.
pub open spec fn string_views(s: Seq<String>) -> Seq<Seq<char>> {
    s.map_values(|x: String| x@)
}

impl Clone for MaildirFlags {
    fn clone(&self) -> (r: Self)
        ensures
            r@ == self@,
    {
        proof { use_type_invariant(self); }
        let mut flags: Vec<MaildirFlag> = Vec::new();
        let mut i: usize = 0;
        while i < self.flags.len()
            invariant
                i <= self.flags@.len(),
                flags@ == self.flags@.take(i as int),
            decreases self.flags@.len() - i,
        {
            flags.push(self.flags[i].clone());
            i = i + 1;
            assert(flags@ =~= self.flags@.take(i as int));
        }
        assert(self.flags@.take(self.flags@.len() as int) == self.flags@);
        MaildirFlags { flags, extra_letters: self.extra_letters.clone() }
    }
}

impl MaildirFlags {
    /// Every set keeps its flags and its extra letters strictly sorted.
    #[verifier::type_invariant]
    pub open spec fn sorted(self) -> bool {
        flags_wf(self@)
    }

    /// Adds the extra letter `c`.
    fn add_letter(&mut self, c: char)
        ensures
            flags_wf(final(self)@),
            final(self)@.flags == old(self)@.flags,
            forall|d: char| #[trigger] final(self)@.letters.contains(d) <==> (old(self)@.letters.contains(d) || d == c),
    {
        proof { use_type_invariant(&*self); }
        let mut letters: Vec<char> = Vec::new();
        core::mem::swap(&mut letters, &mut self.extra_letters);
        insert_letter(&mut letters, c);
        self.extra_letters = letters;
    }

    /// The empty set.
    pub fn new() -> (r: Self)
        ensures
            r@.flags == Seq::<FlagView>::empty(),
            r@.letters == Seq::<char>::empty(),
            flags_wf(r@),
    {
        let r = MaildirFlags { flags: Vec::new(), extra_letters: Vec::new() };
        assert(r@.flags =~= Seq::<FlagView>::empty());
        r
    }

    /// Builds a set holding every flag of `flags`.
    pub fn from_iter(flags: Vec<MaildirFlag>) -> (r: Self)
        ensures
            flags_wf(r@),
            forall|g: FlagView| #[trigger] r@.flags.contains(g) <==> flag_views(flags@).contains(g),
            r@.letters == Seq::<char>::empty(),
    {
        let mut r = MaildirFlags::new();
        let ghost all = flag_views(flags@);
        let mut i: usize = 0;
        while i < flags.len()
            invariant
                flags_wf(r@),
                r@.letters == Seq::<char>::empty(),
                all == flag_views(flags@),
                i <= all.len(),
                forall|g: FlagView| r@.flags.contains(g) <==> all.take(i as int).contains(g),
            decreases all.len() - i,
        {
            r.insert(flags[i].clone());
            proof {
                assert(all.take(i + 1) =~= all.take(i as int).push(all[i as int]));
                lemma_push_contains(all.take(i as int), all[i as int]);
            }
            i = i + 1;
        }
        assert(all.take(all.len() as int) =~= all);
        r
    }

    /// Returns `true` when no flag, keyword or extra letter is set.
    pub fn is_empty(&self) -> (r: bool)
        ensures
            r == (self@.flags.len() == 0 && self@.letters.len() == 0),
    {
        self.flags.len() == 0 && self.extra_letters.len() == 0
    }

    /// Returns the total count of flags, keywords and extra letters.
    pub fn len(&self) -> (r: usize)
        ensures
            r == if self@.flags.len() + self@.letters.len() <= usize::MAX {
                (self@.flags.len() + self@.letters.len()) as usize
            } else {
                usize::MAX
            },
    {
        self.flags.len().saturating_add(self.extra_letters.len())
    }

    /// Returns `true` when `flag` is present in the set.
    pub fn contains(&self, flag: &MaildirFlag) -> (r: bool)
        ensures
            r == self@.flags.contains(flag@),
    {
        has_flag(&self.flags, flag)
    }

    /// Returns the named flags and keywords, in the order they are kept.
    pub fn as_slice(&self) -> (r: &[MaildirFlag])
        ensures
            flag_views(r@) == self@.flags,
    {
        self.flags.as_slice()
    }

    /// Iterates over the named flags and keywords, sorted.
    pub fn iter(&self) -> (r: core::slice::Iter<'_, MaildirFlag>)
        ensures
            r.remaining().len() == self@.flags.len(),
            forall|i: int| 0 <= i < self@.flags.len() ==> (*r.remaining()[i])@ == self@.flags[i],
    {
        broadcast use vstd::std_specs::slice::axiom_spec_slice_iter;
        self.flags.as_slice().iter()
    }

    /// Returns the extra info-section letters, sorted.
    pub fn extra_letters(&self) -> (r: &[char])
        ensures
            r@ == self@.letters,
    {
        self.extra_letters.as_slice()
    }

    /// Inserts `flag`, returning `true` when it was not already set.
    pub fn insert(&mut self, flag: MaildirFlag) -> (r: bool)
        ensures
            flags_wf(final(self)@),
            forall|g: FlagView| #[trigger] final(self)@.flags.contains(g) <==> (old(self)@.flags.contains(g) || g == flag@),
            final(self)@.letters == old(self)@.letters,
            r == !old(self)@.flags.contains(flag@),
    {
        proof { use_type_invariant(&*self); }
        let mut flags: Vec<MaildirFlag> = Vec::new();
        core::mem::swap(&mut flags, &mut self.flags);
        let r = insert_flag(&mut flags, flag);
        self.flags = flags;
        r
    }

    /// Merges every flag, keyword and extra letter of `flags` in.
    pub fn extend(&mut self, flags: MaildirFlags)
        ensures
            flags_wf(final(self)@),
            forall|g: FlagView| #[trigger] final(self)@.flags.contains(g) <==> (old(self)@.flags.contains(g) || flags@.flags.contains(g)),
            forall|c: char| #[trigger] final(self)@.letters.contains(c) <==> (old(self)@.letters.contains(c) || flags@.letters.contains(c)),
    {
        proof { use_type_invariant(&*self); }
        let ghost all_named = flags@.flags;
        let MaildirFlags { flags: named, extra_letters: letters } = flags;
        let mut k: usize = 0;
        while k < named.len()
            invariant
                flags_wf(self@),
                self@.letters == old(self)@.letters,
                all_named == flag_views(named@),
                k <= all_named.len(),
                forall|g: FlagView| self@.flags.contains(g) <==> (old(self)@.flags.contains(g) || all_named.take(k as int).contains(g)),
            decreases all_named.len() - k,
        {
            self.insert(named[k].clone());
            proof {
                assert(all_named.take(k + 1) =~= all_named.take(k as int).push(all_named[k as int]));
                lemma_push_contains(all_named.take(k as int), all_named[k as int]);
            }
            k = k + 1;
        }
        assert(all_named.take(all_named.len() as int) =~= all_named);
        let ghost all_letters = letters@;
        let ghost merged = self@.flags;
        let mut i: usize = 0;
        while i < letters.len()
            invariant
                flags_wf(self@),
                letters@ == all_letters,
                i <= all_letters.len(),
                self@.flags == merged,
                forall|g: FlagView| merged.contains(g) <==> (old(self)@.flags.contains(g) || all_named.contains(g)),
                forall|c: char| self@.letters.contains(c) <==> (old(self)@.letters.contains(c) || all_letters.take(i as int).contains(c)),
            decreases all_letters.len() - i,
        {
            self.add_letter(letters[i]);
            proof {
                assert(all_letters.take(i + 1) =~= all_letters.take(i as int).push(all_letters[i as int]));
                lemma_push_contains(all_letters.take(i as int), all_letters[i as int]);
            }
            i = i + 1;
        }
        assert(all_letters.take(all_letters.len() as int) =~= all_letters);
    }

    /// Removes from this set every flag and letter present in `flags`.
    pub fn difference(&mut self, flags: &MaildirFlags)
        ensures
            flags_wf(final(self)@),
            forall|g: FlagView| #[trigger] final(self)@.flags.contains(g) <==> (old(self)@.flags.contains(g) && !flags@.flags.contains(g)),
            forall|c: char| #[trigger] final(self)@.letters.contains(c) <==> (old(self)@.letters.contains(c) && !flags@.letters.contains(c)),
    {
        proof { use_type_invariant(&*self); }
        self.flags = flags_without(&self.flags, &flags.flags);
        self.extra_letters = letters_without(&self.extra_letters, &flags.extra_letters);
    }

    /// Adds raw keyword strings as [`MaildirFlag::Keyword`] entries.
    pub fn extend_keywords(&mut self, keywords: Vec<String>)
        ensures
            flags_wf(final(self)@),
            forall|g: FlagView| #[trigger] final(self)@.flags.contains(g) <==> (old(self)@.flags.contains(g) || (g is Keyword && string_views(keywords@).contains(g->Keyword_0))),
            final(self)@.letters == old(self)@.letters,
    {
        proof { use_type_invariant(&*self); }
        let ghost ks = string_views(keywords@);
        let mut i: usize = 0;
        while i < keywords.len()
            invariant
                flags_wf(self@),
                self@.letters == old(self)@.letters,
                ks == string_views(keywords@),
                i <= ks.len(),
                forall|g: FlagView| self@.flags.contains(g) <==> (old(self)@.flags.contains(g) || (g is Keyword && ks.take(i as int).contains(g->Keyword_0))),
            decreases ks.len() - i,
        {
            self.insert(MaildirFlag::Keyword(keywords[i].clone()));
            proof {
                assert(ks.take(i + 1) =~= ks.take(i as int).push(ks[i as int]));
                lemma_push_contains(ks.take(i as int), ks[i as int]);
            }
            i = i + 1;
        }
        assert(ks.take(ks.len() as int) =~= ks);
    }

    /// Appends raw info-section letters written verbatim after the
    /// named flags (typically resolved dovecot slot letters).
    pub fn extend_letters(&mut self, letters: Vec<char>)
        ensures
            flags_wf(final(self)@),
            final(self)@.flags == old(self)@.flags,
            forall|c: char| #[trigger] final(self)@.letters.contains(c) <==> (old(self)@.letters.contains(c) || letters@.contains(c)),
    {
        proof { use_type_invariant(&*self); }
        let mut i: usize = 0;
        while i < letters.len()
            invariant
                flags_wf(self@),
                self@.flags == old(self)@.flags,
                i <= letters@.len(),
                forall|c: char| self@.letters.contains(c) <==> (old(self)@.letters.contains(c) || letters@.take(i as int).contains(c)),
            decreases letters@.len() - i,
        {
            self.add_letter(letters[i]);
            proof {
                assert(letters@.take(i + 1) =~= letters@.take(i as int).push(letters@[i as int]));
                lemma_push_contains(letters@.take(i as int), letters@[i as int]);
            }
            i = i + 1;
        }
        assert(letters@.take(letters@.len() as int) =~= letters@);
    }

    /// Drains every [`MaildirFlag::Keyword`] out, returning the keyword
    /// strings in the order the set keeps them (lexicographic).
    pub fn drain_keywords(&mut self) -> (r: Vec<String>)
        ensures
            flags_wf(final(self)@),
            final(self)@.flags == named_of(old(self)@.flags),
            final(self)@.letters == old(self)@.letters,
            string_views(r@) == keywords_of(old(self)@.flags),
    {
        proof { use_type_invariant(&*self); }
        let ghost vs = self@.flags;
        let mut named: Vec<MaildirFlag> = Vec::new();
        let mut keywords: Vec<String> = Vec::new();
        let mut i: usize = 0;
        while i < self.flags.len()
            invariant
                self@ == old(self)@,
                vs == self@.flags,
                i <= vs.len(),
                flag_views(named@) == named_of(vs.take(i as int)),
                string_views(keywords@) == keywords_of(vs.take(i as int)),
            decreases vs.len() - i,
        {
            assert(vs.take(i + 1).drop_last() =~= vs.take(i as int));
            match &self.flags[i] {
                MaildirFlag::Keyword(k) => {
                    keywords.push(k.clone());
                    assert(string_views(keywords@) =~= keywords_of(vs.take(i + 1)));
                },
                f => {
                    named.push(f.clone());
                    assert(flag_views(named@) =~= named_of(vs.take(i + 1)));
                },
            }
            i = i + 1;
        }
        assert(vs.take(vs.len() as int) =~= vs);
        proof { lemma_named_of_sorted(vs); }
        self.flags = named;
        keywords
    }

    /// Renders the info-section letters: named flags in order, then the
    /// extra letters.
    pub fn to_string(&self) -> (r: String)
        ensures
            r@ == render_spec(self@),
    {
        let mut s = String::new();
        let mut i: usize = 0;
        let ghost vs = self@.flags;
        while i < self.flags.len()
            invariant
                vs == self@.flags,
                i <= vs.len(),
                s@ == letters_of(vs.take(i as int)),
            decreases vs.len() - i,
        {
            assert(vs.take(i + 1).drop_last() =~= vs.take(i as int));
            if let Some(c) = self.flags[i].letter() {
                push_char(&mut s, c);
            }
            i = i + 1;
            assert(s@ =~= letters_of(vs.take(i as int)));
        }
        assert(vs.take(vs.len() as int) =~= vs);
        let mut j: usize = 0;
        while j < self.extra_letters.len()
            invariant
                j <= self@.letters.len(),
                s@ == letters_of(vs) + self@.letters.take(j as int),
            decreases self@.letters.len() - j,
        {
            push_char(&mut s, self.extra_letters[j]);
            j = j + 1;
            assert(s@ =~= letters_of(vs) + self@.letters.take(j as int));
        }
        assert(self@.letters.take(self@.letters.len() as int) =~= self@.letters);
        s
    }

    /// Parses the flags encoded in the info section of `path`'s file
    /// name. Letters naming no flag are kept verbatim as extra letters.
    pub fn from(path: &MaildirFsPath) -> (r: MaildirFlags)
        ensures
            parsed_flags(r@, path@),
    {
        let mut r = MaildirFlags::new();
        let name = match path.file_name() {
            Some(name) => name,
            None => return r,
        };
        let letters = match info_letters(name) {
            Some(l) => l,
            None => return r,
        };
        let chars = str_chars(letters);
        let ghost l = chars@;
        let mut i: usize = 0;
        while i < chars.len()
            invariant
                flags_wf(r@),
                l == chars@,
                i <= l.len(),
                forall|g: FlagView| r@.flags.contains(g) <==> names_flag(l.take(i as int), g),
                forall|c: char| r@.letters.contains(c) <==> extra_letter(l.take(i as int), c),
            decreases l.len() - i,
        {
            let c = chars[i];
            let ghost before = l.take(i as int);
            let ghost after = l.take(i + 1);
            assert(after =~= before.push(c));
            match MaildirFlag::from_char(c) {
                Some(f) => {
                    r.insert(f);
                },
                None => {
                    r.add_letter(c);
                },
            }
            proof {
                assert forall|g: FlagView| names_flag(after, g) <==> (names_flag(before, g) || flag_from_char(c) == Some(g)) by {
                    if names_flag(after, g) {
                        let k = choose|k: int| 0 <= k < after.len() && flag_from_char(after[k]) == Some(g);
                        if k < before.len() {
                            assert(before[k] == after[k]);
                        }
                    }
                    if names_flag(before, g) {
                        let k = choose|k: int| 0 <= k < before.len() && flag_from_char(before[k]) == Some(g);
                        assert(after[k] == before[k]);
                    }
                    if flag_from_char(c) == Some(g) {
                        assert(after[i as int] == c);
                    }
                }
                assert forall|d: char| after.contains(d) <==> (before.contains(d) || d == c) by {
                    if after.contains(d) {
                        let k = choose|k: int| 0 <= k < after.len() && after[k] == d;
                        if k < before.len() {
                            assert(before[k] == d);
                        }
                    }
                    if before.contains(d) {
                        let k = choose|k: int| 0 <= k < before.len() && before[k] == d;
                        assert(after[k] == d);
                    }
                    if d == c {
                        assert(after[i as int] == d);
                    }
                }
            }
            i = i + 1;
        }
        assert(l.take(l.len() as int) =~= l);
        r
    }
}

/// What a pushed sequence contains.
pub proof fn lemma_push_contains<A>(s: Seq<A>, x: A)
    ensures
        forall|y: A| #[trigger] s.push(x).contains(y) <==> (s.contains(y) || y == x),
{
    assert forall|y: A| #[trigger] s.push(x).contains(y) <==> (s.contains(y) || y == x) by {
        if s.push(x).contains(y) {
            let k = choose|k: int| 0 <= k < s.push(x).len() && s.push(x)[k] == y;
            if k < s.len() {
                assert(s[k] == y);
            }
        }
        if s.contains(y) {
            let k = choose|k: int| 0 <= k < s.len() && s[k] == y;
            assert(s.push(x)[k] == y);
        }
        if y == x {
            assert(s.push(x)[s.len() as int] == y);
        }
    }
}

/// `letters` holds a lowercase letter naming no flag that `table` maps
/// to the keyword `k`.
pub open spec fn names_keyword(letters: Seq<char>, table: Map<char, Seq<char>>, k: Seq<char>) -> bool {
    exists|i: int|
        0 <= i < letters.len() && 'a' <= #[trigger] letters[i] && letters[i] <= 'z' && table.contains_key(letters[i])
            && table[letters[i]] == k
}

impl MaildirFlags {
    /// Like [`MaildirFlags::from`] but resolves lowercase `a..z` letters
    /// through a dovecot-keywords table; other unnamed letters are
    /// dropped.
    pub fn with_dovecot(path: &MaildirFsPath, table: &DovecotKeywords) -> (r: MaildirFlags)
        ensures
            flags_wf(r@),
            r@.letters == Seq::<char>::empty(),
            forall|g: FlagView| #[trigger] r@.flags.contains(g) <==> (names_flag(entry_letters_spec(path@), g)
                || (g is Keyword && names_keyword(entry_letters_spec(path@), table_map(table@), g->Keyword_0))),
    {
        proof { use_type_invariant(table); }
        let mut r = MaildirFlags::new();
        let name = match path.file_name() {
            Some(name) => name,
            None => return r,
        };
        let letters = match info_letters(name) {
            Some(l) => l,
            None => return r,
        };
        let chars = str_chars(letters);
        let ghost l = chars@;
        let ghost m = table_map(table@);
        let mut i: usize = 0;
        while i < chars.len()
            invariant
                flags_wf(r@),
                r@.letters == Seq::<char>::empty(),
                table_wf(table@),
                m == table_map(table@),
                l == chars@,
                i <= l.len(),
                forall|g: FlagView| r@.flags.contains(g) <==> (names_flag(l.take(i as int), g)
                    || (g is Keyword && names_keyword(l.take(i as int), m, g->Keyword_0))),
            decreases l.len() - i,
        {
            let c = chars[i];
            let ghost before = l.take(i as int);
            let ghost after = l.take(i + 1);
            assert(after =~= before.push(c));
            let ghost mut added: Option<FlagView> = None;
            match MaildirFlag::from_char(c) {
                Some(f) => {
                    proof { added = Some(f@); }
                    r.insert(f);
                },
                None => {
                    if 'a' <= c && c <= 'z' {
                        match table.get(&c) {
                            Some(k) => {
                                proof { added = Some(FlagView::Keyword(k@)); }
                                r.insert(MaildirFlag::Keyword(k.clone()));
                            },
                            None => {},
                        }
                    }
                },
            }
            proof {
                assert forall|g: FlagView| names_flag(after, g) <==> (names_flag(before, g) || flag_from_char(c) == Some(g)) by {
                    if names_flag(after, g) {
                        let k = choose|k: int| 0 <= k < after.len() && flag_from_char(after[k]) == Some(g);
                        if k < before.len() {
                            assert(before[k] == after[k]);
                        }
                    }
                    if names_flag(before, g) {
                        let k = choose|k: int| 0 <= k < before.len() && flag_from_char(before[k]) == Some(g);
                        assert(after[k] == before[k]);
                    }
                    if flag_from_char(c) == Some(g) {
                        assert(after[i as int] == c);
                    }
                }
                assert forall|k: Seq<char>| names_keyword(after, m, k) <==> (names_keyword(before, m, k)
                    || ('a' <= c && c <= 'z' && m.contains_key(c) && m[c] == k)) by {
                    if names_keyword(after, m, k) {
                        let j = choose|j: int| 0 <= j < after.len() && 'a' <= #[trigger] after[j] && after[j] <= 'z'
                            && m.contains_key(after[j]) && m[after[j]] == k;
                        if j < before.len() {
                            assert(before[j] == after[j]);
                        }
                    }
                    if names_keyword(before, m, k) {
                        let j = choose|j: int| 0 <= j < before.len() && 'a' <= #[trigger] before[j] && before[j] <= 'z'
                            && m.contains_key(before[j]) && m[before[j]] == k;
                        assert(after[j] == before[j]);
                    }
                    if 'a' <= c && c <= 'z' && m.contains_key(c) && m[c] == k {
                        assert(after[i as int] == c);
                    }
                }
                assert(flag_from_char(c) is Some ==> !('a' <= c && c <= 'z'));
            }
            i = i + 1;
        }
        assert(l.take(l.len() as int) =~= l);
        r
    }
}

/// Dropping the keywords of a sorted sequence keeps it sorted.
proof fn lemma_named_of_sorted(s: Seq<FlagView>)
    requires
        sorted_flags(s),
    ensures
        sorted_flags(named_of(s)),
        forall|g: FlagView| named_of(s).contains(g) ==> s.contains(g),
    decreases s.len(),
{
    if s.len() > 0 {
        let t = s.drop_last();
        assert(sorted_flags(t));
        lemma_named_of_sorted(t);
        if !(s.last() is Keyword) {
            let n = named_of(t);
            assert(named_of(s) == n.push(s.last()));
            assert forall|a: int, b: int| 0 <= a < b < named_of(s).len() implies flag_lt(named_of(s)[a], named_of(s)[b]) by {
                if b == n.len() {
                    assert(n.contains(n[a]));
                    assert(t.contains(n[a]));
                    let k = choose|k: int| 0 <= k < t.len() && t[k] == n[a];
                    assert(s[k] == n[a]);
                }
            }
            assert forall|g: FlagView| named_of(s).contains(g) implies s.contains(g) by {
                let k = choose|k: int| 0 <= k < named_of(s).len() && named_of(s)[k] == g;
                if k < n.len() {
                    assert(n[k] == g);
                    assert(n.contains(g));
                    assert(t.contains(g));
                    let m = choose|m: int| 0 <= m < t.len() && t[m] == g;
                    assert(s[m] == g);
                } else {
                    assert(s[s.len() - 1] == g);
                }
            }
        } else {
            assert(named_of(s) == named_of(t));
            assert forall|g: FlagView| named_of(s).contains(g) implies s.contains(g) by {
                assert(named_of(t).contains(g));
                assert(t.contains(g));
                let m = choose|m: int| 0 <= m < t.len() && t[m] == g;
                assert(s[m] == g);
            }
        }
    }
}


/// The file name of an entry in `cur` carrying `flags`:
/// `<id>:2,<letters>`.
pub open spec fn cur_name_spec(id: Seq<char>, flags: FlagsView) -> Seq<char> {
    id + seq![':', '2', ','] + render_spec(flags)
}

/// Builds the file name `<id>:2,<letters>` of an entry in `cur`
/// carrying `flags`.
pub fn cur_name(id: &str, flags: &MaildirFlags) -> (r: String)
    ensures
        r@ == cur_name_spec(id@, flags@),
{
    let mut name = String::new();
    push_str(&mut name, id);
    push_char(&mut name, INFORMATIONAL_SUFFIX_SEPARATOR);
    push_str(&mut name, "2,");
    let letters = flags.to_string();
    push_str(&mut name, letters.as_str());
    proof {
        reveal_strlit("2,");
        assert(name@ =~= cur_name_spec(id@, flags@));
    }
    name
}

/// `f` holds the flags and letters of `a` together with those of `b`.
pub open spec fn flags_union(f: FlagsView, a: FlagsView, b: FlagsView) -> bool {
    &&& flags_wf(f)
    &&& forall|g: FlagView| #[trigger] f.flags.contains(g) <==> (a.flags.contains(g) || b.flags.contains(g))
    &&& forall|c: char| #[trigger] f.letters.contains(c) <==> (a.letters.contains(c) || b.letters.contains(c))
}

/// `f` holds the flags and letters of `a` that `b` does not hold.
pub open spec fn flags_minus(f: FlagsView, a: FlagsView, b: FlagsView) -> bool {
    &&& flags_wf(f)
    &&& forall|g: FlagView| #[trigger] f.flags.contains(g) <==> (a.flags.contains(g) && !b.flags.contains(g))
    &&& forall|c: char| #[trigger] f.letters.contains(c) <==> (a.letters.contains(c) && !b.letters.contains(c))
}

/// Two strictly sorted flag sequences holding the same flags are equal.
pub proof fn lemma_sorted_flags_unique(a: Seq<FlagView>, b: Seq<FlagView>)
    requires
        sorted_flags(a),
        sorted_flags(b),
        forall|g: FlagView| a.contains(g) <==> b.contains(g),
    ensures
        a == b,
    decreases a.len(),
{
    if a.len() == 0 {
        if b.len() > 0 {
            assert(b.contains(b[0]));
        }
        assert(a =~= b);
    } else {
        assert(a.contains(a[0]));
        let k = choose|k: int| 0 <= k < b.len() && b[k] == a[0];
        assert(b.contains(b[0]));
        let j = choose|j: int| 0 <= j < a.len() && a[j] == b[0];
        lemma_flag_lt(a[0], b[0], a[0]);
        if j > 0 {
            assert(flag_lt(a[0], a[j]));
        }
        if k > 0 {
            assert(flag_lt(b[0], b[k]));
        }
        assert(a[0] == b[0]);
        let a1 = a.drop_first();
        let b1 = b.drop_first();
        assert forall|g: FlagView| a1.contains(g) implies b1.contains(g) by {
            let i = choose|i: int| 0 <= i < a1.len() && a1[i] == g;
            assert(a[i + 1] == g);
            assert(flag_lt(a[0], a[i + 1]));
            lemma_flag_lt(g, g, g);
            assert(b.contains(g));
            let m = choose|m: int| 0 <= m < b.len() && b[m] == g;
            assert(m != 0);
            assert(b1[m - 1] == g);
        }
        assert forall|g: FlagView| b1.contains(g) implies a1.contains(g) by {
            let i = choose|i: int| 0 <= i < b1.len() && b1[i] == g;
            assert(b[i + 1] == g);
            assert(flag_lt(b[0], b[i + 1]));
            lemma_flag_lt(g, g, g);
            assert(a.contains(g));
            let m = choose|m: int| 0 <= m < a.len() && a[m] == g;
            assert(m != 0);
            assert(a1[m - 1] == g);
        }
        lemma_sorted_flags_unique(a1, b1);
        assert forall|i: int| 0 <= i < a.len() implies a[i] == b[i] by {
            if i > 0 {
                assert(a[i] == a1[i - 1]);
                assert(b[i] == b1[i - 1]);
            }
        }
        assert(a =~= b);
    }
}

/// Two strictly sorted letter sequences holding the same letters are
/// equal.
pub proof fn lemma_sorted_letters_unique(a: Seq<char>, b: Seq<char>)
    requires
        sorted_letters(a),
        sorted_letters(b),
        forall|c: char| a.contains(c) <==> b.contains(c),
    ensures
        a == b,
    decreases a.len(),
{
    if a.len() == 0 {
        if b.len() > 0 {
            assert(b.contains(b[0]));
        }
        assert(a =~= b);
    } else {
        assert(a.contains(a[0]));
        let k = choose|k: int| 0 <= k < b.len() && b[k] == a[0];
        assert(b.contains(b[0]));
        let j = choose|j: int| 0 <= j < a.len() && a[j] == b[0];
        if j > 0 {
            assert(a[0] < a[j]);
        }
        if k > 0 {
            assert(b[0] < b[k]);
        }
        assert(a[0] == b[0]);
        let a1 = a.drop_first();
        let b1 = b.drop_first();
        assert forall|c: char| a1.contains(c) implies b1.contains(c) by {
            let i = choose|i: int| 0 <= i < a1.len() && a1[i] == c;
            assert(a[i + 1] == c);
            assert(a[0] < a[i + 1]);
            assert(b.contains(c));
            let m = choose|m: int| 0 <= m < b.len() && b[m] == c;
            assert(m != 0);
            assert(b1[m - 1] == c);
        }
        assert forall|c: char| b1.contains(c) implies a1.contains(c) by {
            let i = choose|i: int| 0 <= i < b1.len() && b1[i] == c;
            assert(b[i + 1] == c);
            assert(b[0] < b[i + 1]);
            assert(a.contains(c));
            let m = choose|m: int| 0 <= m < a.len() && a[m] == c;
            assert(m != 0);
            assert(a1[m - 1] == c);
        }
        lemma_sorted_letters_unique(a1, b1);
        assert forall|i: int| 0 <= i < a.len() implies a[i] == b[i] by {
            if i > 0 {
                assert(a[i] == a1[i - 1]);
                assert(b[i] == b1[i - 1]);
            }
        }
        assert(a =~= b);
    }
}

/// A well-formed flag set is determined by which flags and letters it
/// holds.
pub proof fn lemma_flags_ext(a: FlagsView, b: FlagsView)
    requires
        flags_wf(a),
        flags_wf(b),
        forall|g: FlagView| a.flags.contains(g) <==> b.flags.contains(g),
        forall|c: char| a.letters.contains(c) <==> b.letters.contains(c),
    ensures
        a == b,
{
    lemma_sorted_flags_unique(a.flags, b.flags);
    lemma_sorted_letters_unique(a.letters, b.letters);
}

/// The well-formed set holding the flags and letters of `a` and `b`.
pub open spec fn union_spec(a: FlagsView, b: FlagsView) -> FlagsView {
    choose|f: FlagsView| flags_union(f, a, b)
}

/// The well-formed set holding the flags and letters of `a` that `b`
/// does not hold.
pub open spec fn minus_spec(a: FlagsView, b: FlagsView) -> FlagsView {
    choose|f: FlagsView| flags_minus(f, a, b)
}

/// Any set that is the union of `a` and `b` is `union_spec(a, b)`.
pub proof fn lemma_union_spec(f: FlagsView, a: FlagsView, b: FlagsView)
    requires
        flags_union(f, a, b),
    ensures
        union_spec(a, b) == f,
{
    let u = union_spec(a, b);
    assert(flags_union(u, a, b));
    lemma_flags_ext(u, f);
}

/// Any set that is `a` without `b` is `minus_spec(a, b)`.
pub proof fn lemma_minus_spec(f: FlagsView, a: FlagsView, b: FlagsView)
    requires
        flags_minus(f, a, b),
    ensures
        minus_spec(a, b) == f,
{
    let u = minus_spec(a, b);
    assert(flags_minus(u, a, b));
    lemma_flags_ext(u, f);
}

/// A flag set with no flag, keyword or letter.
pub open spec fn flags_empty(f: FlagsView) -> bool {
    f.flags.len() == 0 && f.letters.len() == 0
}

/// Extra letters that read back as themselves: none names a flag or
/// is a separator of the file name.
pub open spec fn plain_letters(letters: Seq<char>) -> bool {
    forall|i: int| 0 <= i < letters.len() ==> flag_from_char(#[trigger] letters[i]) is None && letters[i] != ':' && letters[i] != '/'
}

pub(crate) proof fn lemma_letters_of(s: Seq<FlagView>)
    ensures
        forall|i: int| 0 <= i < letters_of(s).len() ==> {
            let c = #[trigger] letters_of(s)[i];
            &&& flag_from_char(c) is Some
            &&& s.contains(flag_from_char(c).unwrap())
        },
        forall|g: FlagView| s.contains(g) && !(g is Keyword) ==> letters_of(s).contains(flag_letter(g)[0]),
    decreases s.len(),
{
    if s.len() > 0 {
        let t = s.drop_last();
        lemma_letters_of(t);
        let last = s.last();
        let lt = letters_of(t);
        assert(letters_of(s) == lt + flag_letter(last));
        assert forall|i: int| 0 <= i < letters_of(s).len() implies {
            let c = #[trigger] letters_of(s)[i];
            &&& flag_from_char(c) is Some
            &&& s.contains(flag_from_char(c).unwrap())
        } by {
            let c = letters_of(s)[i];
            if i < lt.len() {
                assert(c == lt[i]);
                let g = flag_from_char(c).unwrap();
                assert(t.contains(g));
                let k = choose|k: int| 0 <= k < t.len() && t[k] == g;
                assert(s[k] == g);
            } else {
                assert(c == flag_letter(last)[i - lt.len()]);
                assert(s[s.len() - 1] == last);
            }
        }
        assert forall|g: FlagView| s.contains(g) && !(g is Keyword) implies letters_of(s).contains(flag_letter(g)[0]) by {
            let k = choose|k: int| 0 <= k < s.len() && s[k] == g;
            if k < t.len() {
                assert(t[k] == g);
                assert(t.contains(g));
                let j = choose|j: int| 0 <= j < lt.len() && lt[j] == flag_letter(g)[0];
                assert(letters_of(s)[j] == lt[j]);
            } else {
                assert(letters_of(s)[lt.len() as int] == flag_letter(g)[0]);
            }
        }
    }
}

/// A rendered info section holds no `:` or `/`.
pub proof fn lemma_render_no_separator(flags: FlagsView)
    requires
        plain_letters(flags.letters),
    ensures
        forall|i: int| 0 <= i < render_spec(flags).len() ==> render_spec(flags)[i] != ':' && render_spec(flags)[i] != '/',
{
    let r = render_spec(flags);
    lemma_letters_of(flags.flags);
    let lo = letters_of(flags.flags);
    assert forall|i: int| 0 <= i < r.len() implies r[i] != ':' && r[i] != '/' by {
        if i < lo.len() {
            assert(r[i] == lo[i]);
        } else {
            assert(r[i] == flags.letters[i - lo.len()]);
        }
    }
}

/// Writing a flag set into an entry's file name and parsing the name
/// back gives the same named flags and extra letters; keywords, which
/// have no letter, are not written.
pub proof fn lemma_render_then_parse(dir: Seq<char>, id: Seq<char>, flags: FlagsView)
    requires
        !id.contains('/'),
        plain_letters(flags.letters),
    ensures
        file_name_spec(join_spec(dir, cur_name_spec(id, flags))) == Some(cur_name_spec(id, flags)),
        entry_letters_spec(join_spec(dir, cur_name_spec(id, flags))) == render_spec(flags),
        forall|g: FlagView| names_flag(entry_letters_spec(join_spec(dir, cur_name_spec(id, flags))), g)
            <==> (flags.flags.contains(g) && !(g is Keyword)),
        forall|c: char| extra_letter(entry_letters_spec(join_spec(dir, cur_name_spec(id, flags))), c)
            <==> flags.letters.contains(c),
{
    let name = cur_name_spec(id, flags);
    let r = render_spec(flags);
    lemma_letters_of(flags.flags);
    let lo = letters_of(flags.flags);
    assert(r == lo + flags.letters);
    assert forall|i: int| 0 <= i < r.len() implies r[i] != ':' && r[i] != '/' && (flag_from_char(#[trigger] r[i]) is Some
        ==> flags.flags.contains(flag_from_char(r[i]).unwrap())) by {
        if i < lo.len() {
            assert(r[i] == lo[i]);
        } else {
            assert(r[i] == flags.letters[i - lo.len()]);
        }
    }
    // The file name is `name`: it holds no `/`.
    assert(!name.contains('/')) by {
        if name.contains('/') {
            let k = choose|k: int| 0 <= k < name.len() && name[k] == '/';
            if k < id.len() {
                assert(name[k] == id[k]);
                assert(id.contains('/'));
            } else if k >= id.len() + 3 {
                assert(name[k] == r[k - id.len() - 3]);
            }
        }
    }
    let path = join_spec(dir, name);
    crate::path::lemma_join_file_name(dir, name);
    crate::text::lemma_rfind(name, ':');
    assert(file_name_spec(path) == Some(name));
    let colon = id.len() as int;
    assert(name[colon] == ':');
    assert forall|j: int| colon < j < name.len() implies name[j] != ':' by {
        if j >= colon + 3 {
            assert(name[j] == r[j - colon - 3]);
        }
    }
    assert(crate::text::rfind(name, ':') == colon);
    let info = name.subrange(colon + 1, name.len() as int);
    assert(info[0] == '2');
    assert(info[1] == ',');
    crate::text::lemma_find(info, ',');
    assert(crate::text::find(info, ',') == 1);
    assert(info.subrange(2, info.len() as int) =~= r);
    assert(entry_letters_spec(path) == r);
    assert forall|g: FlagView| names_flag(r, g) <==> (flags.flags.contains(g) && !(g is Keyword)) by {
        if names_flag(r, g) {
            let k = choose|k: int| 0 <= k < r.len() && flag_from_char(r[k]) == Some(g);
            assert(flags.flags.contains(flag_from_char(r[k]).unwrap()));
        }
        if flags.flags.contains(g) && !(g is Keyword) {
            let j = choose|j: int| 0 <= j < lo.len() && lo[j] == flag_letter(g)[0];
            assert(r[j] == lo[j]);
            assert(flag_from_char(flag_letter(g)[0]) == Some(g));
        }
    }
    assert forall|c: char| extra_letter(r, c) <==> flags.letters.contains(c) by {
        if extra_letter(r, c) {
            let k = choose|k: int| 0 <= k < r.len() && r[k] == c;
            if k < lo.len() {
                assert(r[k] == lo[k]);
            } else {
                assert(flags.letters[k - lo.len()] == c);
            }
        }
        if flags.letters.contains(c) {
            let k = choose|k: int| 0 <= k < flags.letters.len() && flags.letters[k] == c;
            assert(r[lo.len() + k] == c);
        }
    }
}

/// A flag set with no keyword, written into an entry's file name,
/// parses back as the very same set.
pub proof fn lemma_written_flags_read_back(dir: Seq<char>, id: Seq<char>, f: FlagsView, g: FlagsView)
    requires
        !id.contains('/'),
        flags_wf(f),
        plain_letters(f.letters),
        forall|x: FlagView| #[trigger] f.flags.contains(x) ==> !(x is Keyword),
        parsed_flags(g, join_spec(dir, cur_name_spec(id, f))),
    ensures
        g == f,
{
    lemma_render_then_parse(dir, id, f);
    lemma_flags_ext(g, f);
}


/// Every flag set read from the file name of `path` holds exactly the
/// named flags of `f`, its keywords left out, and the extra letters of
/// `f`.
pub open spec fn reads_back_as(path: Seq<char>, f: FlagsView) -> bool {
    forall|g: FlagsView| #[trigger] parsed_flags(g, path) ==> {
        &&& forall|x: FlagView| #[trigger] g.flags.contains(x) <==> (f.flags.contains(x) && !(x is Keyword))
        &&& forall|c: char| #[trigger] g.letters.contains(c) <==> f.letters.contains(c)
    }
}

/// A name written with `f` reads back as `f`, keywords aside.
pub proof fn lemma_cur_name_reads_back(dir: Seq<char>, id: Seq<char>, f: FlagsView)
    requires
        !id.contains('/'),
        plain_letters(f.letters),
    ensures
        reads_back_as(join_spec(dir, cur_name_spec(id, f)), f),
{
    lemma_render_then_parse(dir, id, f);
}

/// The info-section letters of an entry file name hold no `:` and no
/// `/`.
pub proof fn lemma_entry_letters_plain(path: Seq<char>)
    ensures
        forall|i: int| 0 <= i < entry_letters_spec(path).len() ==> #[trigger] entry_letters_spec(path)[i] != ':'
            && entry_letters_spec(path)[i] != '/',
{
    let l = entry_letters_spec(path);
    crate::text::lemma_rfind(path, '/');
    match file_name_spec(path) {
        Some(name) => {
            let a = rfind(path, '/') + 1;
            assert forall|k: int| 0 <= k < name.len() implies name[k] != '/' by {
                assert(name[k] == path[a + k]);
            }
            crate::text::lemma_rfind(name, ':');
            match info_letters_spec(name) {
                Some(letters) => {
                    let b = rfind(name, ':') + 1;
                    let info = name.subrange(b, name.len() as int);
                    crate::text::lemma_find(info, ',');
                    let j = crate::text::find(info, ',') + 1;
                    assert forall|i: int| 0 <= i < l.len() implies l[i] != ':' && l[i] != '/' by {
                        assert(l[i] == info[j + i]);
                        assert(info[j + i] == name[b + j + i]);
                    }
                },
                None => {},
            }
        },
        None => {},
    }
}

/// What a flag set read from a file name holds as extra letters are
/// plain letters.
pub proof fn lemma_parsed_letters_plain(v: FlagsView, path: Seq<char>, w: Seq<char>)
    requires
        parsed_flags(v, path),
        forall|c: char| #[trigger] w.contains(c) ==> v.letters.contains(c),
    ensures
        plain_letters(w),
{
    lemma_entry_letters_plain(path);
    assert forall|i: int| 0 <= i < w.len() implies flag_from_char(#[trigger] w[i]) is None && w[i] != ':' && w[i] != '/' by {
        assert(w.contains(w[i]));
        assert(extra_letter(entry_letters_spec(path), w[i]));
        let k = choose|k: int| 0 <= k < entry_letters_spec(path).len() && entry_letters_spec(path)[k] == w[i];
    }
}
} // verus!

verus! {

/// Header carrying custom keywords inline with a message body.
///
/// `XKeywords` follows the comma-separated convention of OfflineIMAP
/// and mbsync; `XLabel` the space-separated one of mutt and notmuch.
#[derive(Clone, Copy, Debug, PartialEq, Eq, Structural)]
pub enum KeywordHeader {
    /// The `X-Keywords` header, comma-separated.
    XKeywords,
    /// The `X-Label` header, space-separated.
    XLabel,
}

/// The on-the-wire name of header `h`.
pub open spec fn header_name_spec(h: KeywordHeader) -> Seq<char> {
    match h {
        KeywordHeader::XKeywords => seq!['X', '-', 'K', 'e', 'y', 'w', 'o', 'r', 'd', 's'],
        KeywordHeader::XLabel => seq!['X', '-', 'L', 'a', 'b', 'e', 'l'],
    }
}

/// The character separating keywords in the value of header `h`.
pub open spec fn separator_spec(h: KeywordHeader) -> char {
    match h {
        KeywordHeader::XKeywords => ',',
        KeywordHeader::XLabel => ' ',
    }
}

/// `c` with ASCII upper case folded to lower case.
pub open spec fn lower_char(c: char) -> char {
    if 'A' <= c && c <= 'Z' {
        ((c as u32) + 32) as char
    } else {
        c
    }
}

/// `s` with ASCII upper case folded to lower case.
pub open spec fn lower_chars(s: Seq<char>) -> Seq<char> {
    s.map_values(|c: char| lower_char(c))
}

/// The header a configuration name stands for: `x-keywords`,
/// `xkeywords` or `x_keywords`, or `x-label`, `xlabel` or `x_label`, in
/// any ASCII case.
pub open spec fn header_from_name_spec(s: Seq<char>) -> Option<KeywordHeader> {
    let l = lower_chars(s);
    if l == seq!['x', '-', 'k', 'e', 'y', 'w', 'o', 'r', 'd', 's'] || l == seq![
        'x',
        'k',
        'e',
        'y',
        'w',
        'o',
        'r',
        'd',
        's',
    ] || l == seq!['x', '_', 'k', 'e', 'y', 'w', 'o', 'r', 'd', 's'] {
        Some(KeywordHeader::XKeywords)
    } else if l == seq!['x', '-', 'l', 'a', 'b', 'e', 'l'] || l == seq!['x', 'l', 'a', 'b', 'e', 'l'] || l
        == seq!['x', '_', 'l', 'a', 'b', 'e', 'l'] {
        Some(KeywordHeader::XLabel)
    } else {
        None
    }
}

impl KeywordHeader {
    /// Returns the on-the-wire header name.
    pub fn header_name(&self) -> (r: &'static str)
        ensures
            r@ == header_name_spec(*self),
    {
        proof {
            reveal_strlit("X-Keywords");
            reveal_strlit("X-Label");
            assert("X-Keywords"@ =~= header_name_spec(KeywordHeader::XKeywords));
            assert("X-Label"@ =~= header_name_spec(KeywordHeader::XLabel));
        }
        match self {
            KeywordHeader::XKeywords => "X-Keywords",
            KeywordHeader::XLabel => "X-Label",
        }
    }

    /// Returns the character separating keywords in the header value.
    pub fn separator(&self) -> (r: char)
        ensures
            r == separator_spec(*self),
    {
        match self {
            KeywordHeader::XKeywords => ',',
            KeywordHeader::XLabel => ' ',
        }
    }

    /// Reads a header from its configuration name, in any ASCII case.
    pub fn parse(s: &str) -> (r: Result<KeywordHeader, &'static str>)
        ensures
            match header_from_name_spec(s@) {
                Some(h) => r == Ok::<KeywordHeader, &'static str>(h),
                None => r is Err,
            },
    {
        let chars = str_chars(s);
        let mut lower: Vec<char> = Vec::new();
        let mut i: usize = 0;
        while i < chars.len()
            invariant
                i <= chars@.len(),
                chars@ == s@,
                lower@ == lower_chars(chars@.take(i as int)),
            decreases chars@.len() - i,
        {
            let c = chars[i];
            let l = if 'A' <= c && c <= 'Z' {
                let b = (c as u8) + 32;
                b as char
            } else {
                c
            };
            proof {
                if 'A' <= c && c <= 'Z' {
                    assert(l == lower_char(c));
                }
            }
            lower.push(l);
            i = i + 1;
            assert(lower@ =~= lower_chars(chars@.take(i as int)));
        }
        assert(chars@.take(i as int) =~= chars@);
        let l = crate::text::string_from_chars(lower.as_slice());
        let l = l.as_str();
        proof {
            reveal_strlit("x-keywords");
            reveal_strlit("xkeywords");
            reveal_strlit("x_keywords");
            reveal_strlit("x-label");
            reveal_strlit("xlabel");
            reveal_strlit("x_label");
            assert("x-keywords"@ =~= seq!['x', '-', 'k', 'e', 'y', 'w', 'o', 'r', 'd', 's']);
            assert("xkeywords"@ =~= seq!['x', 'k', 'e', 'y', 'w', 'o', 'r', 'd', 's']);
            assert("x_keywords"@ =~= seq!['x', '_', 'k', 'e', 'y', 'w', 'o', 'r', 'd', 's']);
            assert("x-label"@ =~= seq!['x', '-', 'l', 'a', 'b', 'e', 'l']);
            assert("xlabel"@ =~= seq!['x', 'l', 'a', 'b', 'e', 'l']);
            assert("x_label"@ =~= seq!['x', '_', 'l', 'a', 'b', 'e', 'l']);
        }
        if crate::text::str_eq(l, "x-keywords") || crate::text::str_eq(l, "xkeywords") || crate::text::str_eq(
            l,
            "x_keywords",
        ) {
            Ok(KeywordHeader::XKeywords)
        } else if crate::text::str_eq(l, "x-label") || crate::text::str_eq(l, "xlabel") || crate::text::str_eq(
            l,
            "x_label",
        ) {
            Ok(KeywordHeader::XLabel)
        } else {
            Err("expected x-keywords or x-label")
        }
    }
}

} // verus!

verus! {

/// `s` with the flag `x` put in its place.
pub open spec fn ins_flag(s: Seq<FlagView>, x: FlagView) -> Seq<FlagView>
    decreases s.len(),
{
    if s.len() == 0 {
        seq![x]
    } else if s[0] == x {
        s
    } else if flag_lt(x, s[0]) {
        seq![x] + s
    } else {
        seq![s[0]] + ins_flag(s.drop_first(), x)
    }
}

/// `s` with the letter `c` put in its place.
pub open spec fn ins_letter(s: Seq<char>, c: char) -> Seq<char>
    decreases s.len(),
{
    if s.len() == 0 {
        seq![c]
    } else if s[0] == c {
        s
    } else if c < s[0] {
        seq![c] + s
    } else {
        seq![s[0]] + ins_letter(s.drop_first(), c)
    }
}

proof fn lemma_ins_flag(s: Seq<FlagView>, x: FlagView)
    requires
        sorted_flags(s),
    ensures
        sorted_flags(ins_flag(s, x)),
        forall|y: FlagView| #[trigger] ins_flag(s, x).contains(y) <==> (s.contains(y) || y == x),
    decreases s.len(),
{
    let r = ins_flag(s, x);
    if s.len() == 0 {
        assert(r =~= seq![x]);
        assert forall|y: FlagView| #[trigger] r.contains(y) <==> (s.contains(y) || y == x) by {
            if r.contains(y) {
                assert(r[0] == y);
            }
            if y == x {
                assert(r[0] == y);
            }
        }
    } else if s[0] == x {
        assert forall|y: FlagView| #[trigger] r.contains(y) <==> (s.contains(y) || y == x) by {
            if y == x {
                assert(s[0] == y);
            }
        }
    } else if flag_lt(x, s[0]) {
        assert forall|i: int, j: int| 0 <= i < j < r.len() implies flag_lt(r[i], r[j]) by {
            if i == 0 {
                assert(r[j] == s[j - 1]);
                if j - 1 > 0 {
                    lemma_flag_lt(x, s[0], s[j - 1]);
                }
            } else {
                assert(r[i] == s[i - 1] && r[j] == s[j - 1]);
            }
        }
        assert forall|y: FlagView| #[trigger] r.contains(y) <==> (s.contains(y) || y == x) by {
            if r.contains(y) {
                let k = choose|k: int| 0 <= k < r.len() && r[k] == y;
                if k > 0 {
                    assert(s[k - 1] == y);
                }
            }
            if s.contains(y) {
                let k = choose|k: int| 0 <= k < s.len() && s[k] == y;
                assert(r[k + 1] == y);
            }
            if y == x {
                assert(r[0] == y);
            }
        }
    } else {
        let t = s.drop_first();
        assert(sorted_flags(t)) by {
            assert forall|i: int, j: int| 0 <= i < j < t.len() implies flag_lt(t[i], t[j]) by {
                assert(t[i] == s[i + 1] && t[j] == s[j + 1]);
            }
        }
        lemma_ins_flag(t, x);
        lemma_flag_lt(s[0], x, s[0]);
        let q = ins_flag(t, x);
        assert(r == seq![s[0]] + q);
        assert forall|i: int, j: int| 0 <= i < j < r.len() implies flag_lt(r[i], r[j]) by {
            if i == 0 {
                let y = r[j];
                assert(y == q[j - 1]);
                assert(q.contains(y));
                if y != x {
                    assert(t.contains(y));
                    let k = choose|k: int| 0 <= k < t.len() && t[k] == y;
                    assert(s[k + 1] == y);
                }
            } else {
                assert(r[i] == q[i - 1] && r[j] == q[j - 1]);
            }
        }
        assert forall|y: FlagView| #[trigger] r.contains(y) <==> (s.contains(y) || y == x) by {
            if r.contains(y) {
                let k = choose|k: int| 0 <= k < r.len() && r[k] == y;
                if k == 0 {
                    assert(s[0] == y);
                } else {
                    assert(q[k - 1] == y);
                    assert(q.contains(y));
                    if t.contains(y) {
                        let m = choose|m: int| 0 <= m < t.len() && t[m] == y;
                        assert(s[m + 1] == y);
                    }
                }
            }
            if s.contains(y) {
                let k = choose|k: int| 0 <= k < s.len() && s[k] == y;
                if k == 0 {
                    assert(r[0] == y);
                } else {
                    assert(t[k - 1] == y);
                    assert(t.contains(y));
                    assert(q.contains(y));
                    let m = choose|m: int| 0 <= m < q.len() && q[m] == y;
                    assert(r[m + 1] == y);
                }
            }
            if y == x {
                assert(q.contains(y));
                let m = choose|m: int| 0 <= m < q.len() && q[m] == y;
                assert(r[m + 1] == y);
            }
        }
    }
}

proof fn lemma_ins_letter(s: Seq<char>, c: char)
    requires
        sorted_letters(s),
    ensures
        sorted_letters(ins_letter(s, c)),
        forall|y: char| #[trigger] ins_letter(s, c).contains(y) <==> (s.contains(y) || y == c),
    decreases s.len(),
{
    let r = ins_letter(s, c);
    if s.len() == 0 {
        assert(r =~= seq![c]);
        assert forall|y: char| #[trigger] r.contains(y) <==> (s.contains(y) || y == c) by {
            if r.contains(y) {
                assert(r[0] == y);
            }
            if y == c {
                assert(r[0] == y);
            }
        }
    } else if s[0] == c {
        assert forall|y: char| #[trigger] r.contains(y) <==> (s.contains(y) || y == c) by {
            if y == c {
                assert(s[0] == y);
            }
        }
    } else if c < s[0] {
        assert forall|i: int, j: int| 0 <= i < j < r.len() implies r[i] < r[j] by {
            if i == 0 {
                assert(r[j] == s[j - 1]);
            } else {
                assert(r[i] == s[i - 1] && r[j] == s[j - 1]);
            }
        }
        assert forall|y: char| #[trigger] r.contains(y) <==> (s.contains(y) || y == c) by {
            if r.contains(y) {
                let k = choose|k: int| 0 <= k < r.len() && r[k] == y;
                if k > 0 {
                    assert(s[k - 1] == y);
                }
            }
            if s.contains(y) {
                let k = choose|k: int| 0 <= k < s.len() && s[k] == y;
                assert(r[k + 1] == y);
            }
            if y == c {
                assert(r[0] == y);
            }
        }
    } else {
        let t = s.drop_first();
        assert(sorted_letters(t)) by {
            assert forall|i: int, j: int| 0 <= i < j < t.len() implies t[i] < t[j] by {
                assert(t[i] == s[i + 1] && t[j] == s[j + 1]);
            }
        }
        lemma_ins_letter(t, c);
        let q = ins_letter(t, c);
        assert(r == seq![s[0]] + q);
        assert forall|i: int, j: int| 0 <= i < j < r.len() implies r[i] < r[j] by {
            if i == 0 {
                let y = r[j];
                assert(y == q[j - 1]);
                assert(q.contains(y));
                if y != c {
                    assert(t.contains(y));
                    let k = choose|k: int| 0 <= k < t.len() && t[k] == y;
                    assert(s[k + 1] == y);
                }
            } else {
                assert(r[i] == q[i - 1] && r[j] == q[j - 1]);
            }
        }
        assert forall|y: char| #[trigger] r.contains(y) <==> (s.contains(y) || y == c) by {
            if r.contains(y) {
                let k = choose|k: int| 0 <= k < r.len() && r[k] == y;
                if k == 0 {
                    assert(s[0] == y);
                } else {
                    assert(q[k - 1] == y);
                    assert(q.contains(y));
                    if t.contains(y) {
                        let m = choose|m: int| 0 <= m < t.len() && t[m] == y;
                        assert(s[m + 1] == y);
                    }
                }
            }
            if s.contains(y) {
                let k = choose|k: int| 0 <= k < s.len() && s[k] == y;
                if k == 0 {
                    assert(r[0] == y);
                } else {
                    assert(t[k - 1] == y);
                    assert(t.contains(y));
                    assert(q.contains(y));
                    let m = choose|m: int| 0 <= m < q.len() && q[m] == y;
                    assert(r[m + 1] == y);
                }
            }
            if y == c {
                assert(q.contains(y));
                let m = choose|m: int| 0 <= m < q.len() && q[m] == y;
                assert(r[m + 1] == y);
            }
        }
    }
}

} // verus!

verus! {

/// `s` with each of `xs` put in its place.
pub open spec fn ins_flags(s: Seq<FlagView>, xs: Seq<FlagView>) -> Seq<FlagView>
    decreases xs.len(),
{
    if xs.len() == 0 {
        s
    } else {
        ins_flag(ins_flags(s, xs.drop_last()), xs.last())
    }
}

/// `s` with each of `cs` put in its place.
pub open spec fn ins_letters(s: Seq<char>, cs: Seq<char>) -> Seq<char>
    decreases cs.len(),
{
    if cs.len() == 0 {
        s
    } else {
        ins_letter(ins_letters(s, cs.drop_last()), cs.last())
    }
}

/// The flags of `s` that `bs` does not hold, in order.
pub open spec fn drop_flags(s: Seq<FlagView>, bs: Seq<FlagView>) -> Seq<FlagView>
    decreases s.len(),
{
    if s.len() == 0 {
        Seq::empty()
    } else if bs.contains(s.last()) {
        drop_flags(s.drop_last(), bs)
    } else {
        drop_flags(s.drop_last(), bs).push(s.last())
    }
}

/// The letters of `s` that `bs` does not hold, in order.
pub open spec fn drop_letters(s: Seq<char>, bs: Seq<char>) -> Seq<char>
    decreases s.len(),
{
    if s.len() == 0 {
        Seq::empty()
    } else if bs.contains(s.last()) {
        drop_letters(s.drop_last(), bs)
    } else {
        drop_letters(s.drop_last(), bs).push(s.last())
    }
}

proof fn lemma_ins_flags(s: Seq<FlagView>, xs: Seq<FlagView>)
    requires
        sorted_flags(s),
    ensures
        sorted_flags(ins_flags(s, xs)),
        forall|y: FlagView| #[trigger] ins_flags(s, xs).contains(y) <==> (s.contains(y) || xs.contains(y)),
    decreases xs.len(),
{
    if xs.len() > 0 {
        lemma_ins_flags(s, xs.drop_last());
        lemma_ins_flag(ins_flags(s, xs.drop_last()), xs.last());
        lemma_push_contains(xs.drop_last(), xs.last());
        assert(xs.drop_last().push(xs.last()) =~= xs);
    }
}

proof fn lemma_ins_letters(s: Seq<char>, cs: Seq<char>)
    requires
        sorted_letters(s),
    ensures
        sorted_letters(ins_letters(s, cs)),
        forall|y: char| #[trigger] ins_letters(s, cs).contains(y) <==> (s.contains(y) || cs.contains(y)),
    decreases cs.len(),
{
    if cs.len() > 0 {
        lemma_ins_letters(s, cs.drop_last());
        lemma_ins_letter(ins_letters(s, cs.drop_last()), cs.last());
        lemma_push_contains(cs.drop_last(), cs.last());
        assert(cs.drop_last().push(cs.last()) =~= cs);
    }
}

proof fn lemma_drop_flags(s: Seq<FlagView>, bs: Seq<FlagView>)
    requires
        sorted_flags(s),
    ensures
        sorted_flags(drop_flags(s, bs)),
        forall|y: FlagView| #[trigger] drop_flags(s, bs).contains(y) <==> (s.contains(y) && !bs.contains(y)),
    decreases s.len(),
{
    if s.len() > 0 {
        let t = s.drop_last();
        assert(sorted_flags(t));
        lemma_drop_flags(t, bs);
        lemma_push_contains(t, s.last());
        assert(t.push(s.last()) =~= s);
        let d = drop_flags(t, bs);
        if !bs.contains(s.last()) {
            lemma_push_contains(d, s.last());
            let r = d.push(s.last());
            assert forall|i: int, j: int| 0 <= i < j < r.len() implies flag_lt(r[i], r[j]) by {
                if j == d.len() {
                    assert(d.contains(r[i]));
                    assert(t.contains(r[i]));
                    let k = choose|k: int| 0 <= k < t.len() && t[k] == r[i];
                    assert(s[k] == r[i]);
                } else {
                    assert(r[i] == d[i] && r[j] == d[j]);
                }
            }
        }
    }
}

proof fn lemma_drop_letters(s: Seq<char>, bs: Seq<char>)
    requires
        sorted_letters(s),
    ensures
        sorted_letters(drop_letters(s, bs)),
        forall|y: char| #[trigger] drop_letters(s, bs).contains(y) <==> (s.contains(y) && !bs.contains(y)),
    decreases s.len(),
{
    if s.len() > 0 {
        let t = s.drop_last();
        assert(sorted_letters(t));
        lemma_drop_letters(t, bs);
        lemma_push_contains(t, s.last());
        assert(t.push(s.last()) =~= s);
        let d = drop_letters(t, bs);
        if !bs.contains(s.last()) {
            lemma_push_contains(d, s.last());
            let r = d.push(s.last());
            assert forall|i: int, j: int| 0 <= i < j < r.len() implies r[i] < r[j] by {
                if j == d.len() {
                    assert(d.contains(r[i]));
                    assert(t.contains(r[i]));
                    let k = choose|k: int| 0 <= k < t.len() && t[k] == r[i];
                    assert(s[k] == r[i]);
                } else {
                    assert(r[i] == d[i] && r[j] == d[j]);
                }
            }
        }
    }
}

/// A well-formed set has a union with any other: `union_spec` is one.
pub proof fn lemma_union_exists(a: FlagsView, b: FlagsView)
    requires
        flags_wf(a),
    ensures
        flags_union(union_spec(a, b), a, b),
{
    lemma_ins_flags(a.flags, b.flags);
    lemma_ins_letters(a.letters, b.letters);
    let u = FlagsView { flags: ins_flags(a.flags, b.flags), letters: ins_letters(a.letters, b.letters) };
    assert(flags_union(u, a, b));
}

/// A well-formed set less any other is well defined: `minus_spec` is
/// it.
pub proof fn lemma_minus_exists(a: FlagsView, b: FlagsView)
    requires
        flags_wf(a),
    ensures
        flags_minus(minus_spec(a, b), a, b),
{
    lemma_drop_flags(a.flags, b.flags);
    lemma_drop_letters(a.letters, b.letters);
    let m = FlagsView { flags: drop_flags(a.flags, b.flags), letters: drop_letters(a.letters, b.letters) };
    assert(flags_minus(m, a, b));
}

/// Removing flags just added gives back the set from before the add,
/// when none of them was in it already.
pub proof fn lemma_remove_undoes_add(a: FlagsView, b: FlagsView)
    requires
        flags_wf(a),
        forall|x: FlagView| #[trigger] b.flags.contains(x) ==> !a.flags.contains(x),
        forall|c: char| #[trigger] b.letters.contains(c) ==> !a.letters.contains(c),
    ensures
        minus_spec(union_spec(a, b), b) == a,
{
    lemma_union_exists(a, b);
    let u = union_spec(a, b);
    lemma_minus_exists(u, b);
    lemma_flags_ext(minus_spec(u, b), a);
}

/// Adding the same flags a second time changes nothing.
pub proof fn lemma_add_twice(a: FlagsView, b: FlagsView)
    requires
        flags_wf(a),
    ensures
        union_spec(union_spec(a, b), b) == union_spec(a, b),
{
    lemma_union_exists(a, b);
    let u = union_spec(a, b);
    lemma_union_exists(u, b);
    lemma_flags_ext(union_spec(u, b), u);
}

/// Removing the same flags a second time changes nothing.
pub proof fn lemma_remove_twice(a: FlagsView, b: FlagsView)
    requires
        flags_wf(a),
    ensures
        minus_spec(minus_spec(a, b), b) == minus_spec(a, b),
{
    lemma_minus_exists(a, b);
    let m = minus_spec(a, b);
    lemma_minus_exists(m, b);
    lemma_flags_ext(minus_spec(m, b), m);
}

} // verus!
