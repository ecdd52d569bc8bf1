//! The `dovecot-keywords` sidecar file dropped at the root of a Maildir
//! by Dovecot / mbsync, mapping single lowercase letters `a..z` to
//! keyword names: its slot table, parser and serialiser.

pub mod load;
pub mod store;

use vstd::prelude::*;

use crate::text::{
    chars_subrange, dec_chars, dec_spec, digit_spec, find_whitespace, is_ws, first_ws, lemma_first_ws, push_chars, push_str,
    str_chars, str_eq, string_from_chars, trim_bounds, trim_spec,
};

verus! {

/// Number of slots: one per letter `a..z`.
pub const SLOT_COUNT: u8 = 26;

/// The letter of slot `n`.
pub open spec fn slot_letter(n: nat) -> char {
    (97 + n) as char
}

/// The slot a letter names, if it is one of `a..z`.
pub open spec fn letter_slot_spec(c: char) -> Option<nat> {
    if 'a' <= c && c <= 'z' {
        Some((c as nat - 97) as nat)
    } else {
        None
    }
}

/// Strictly increasing letters, hence one name per letter.
pub open spec fn table_wf(v: Seq<(char, Seq<char>)>) -> bool {
    forall|i: int, j: int| 0 <= i < j < v.len() ==> v[i].0 < v[j].0
}

/// The letter-to-name map of a table's entries; a later entry wins.
pub open spec fn table_map(v: Seq<(char, Seq<char>)>) -> Map<char, Seq<char>>
    decreases v.len(),
{
    if v.len() == 0 {
        Map::empty()
    } else {
        table_map(v.drop_last()).insert(v.last().0, v.last().1)
    }
}

/// The letter-to-keyword table of a Maildir's `dovecot-keywords`
/// sidecar, kept in ascending letter order.
#[derive(Debug, PartialEq, Eq)]
pub struct DovecotKeywords {
    entries: Vec<(char, String)>,
}

/// The texts of a table's entries.
pub open spec fn entry_views(v: Seq<(char, String)>) -> Seq<(char, Seq<char>)> {
    v.map_values(|e: (char, String)| (e.0, e.1@))
}

impl View for DovecotKeywords {
    type V = Seq<(char, Seq<char>)>;

    closed spec fn view(&self) -> Seq<(char, Seq<char>)> {
        entry_views(self.entries@)
    }
}

/// In a well-formed table, the map holds exactly the entries.
pub proof fn lemma_table_map(v: Seq<(char, Seq<char>)>)
    requires
        table_wf(v),
    ensures
        forall|c: char| table_map(v).contains_key(c) <==> (exists|i: int| 0 <= i < v.len() && v[i].0 == c),
        forall|i: int| 0 <= i < v.len() ==> #[trigger] table_map(v)[v[i].0] == v[i].1,
        table_map(v).dom().finite(),
        table_map(v).len() == v.len(),
    decreases v.len(),
{
    if v.len() > 0 {
        let t = v.drop_last();
        assert(table_wf(t));
        lemma_table_map(t);
        assert(!table_map(t).contains_key(v.last().0)) by {
            if table_map(t).contains_key(v.last().0) {
                let i = choose|i: int| 0 <= i < t.len() && t[i].0 == v.last().0;
                assert(v[i].0 < v[v.len() - 1].0);
            }
        }
        assert forall|c: char| table_map(v).contains_key(c) <==> (exists|i: int| 0 <= i < v.len() && v[i].0 == c) by {
            if exists|i: int| 0 <= i < v.len() && v[i].0 == c {
                let i = choose|i: int| 0 <= i < v.len() && v[i].0 == c;
                if i < t.len() {
                    assert(t[i].0 == c);
                }
            }
            if table_map(t).contains_key(c) {
                let i = choose|i: int| 0 <= i < t.len() && t[i].0 == c;
                assert(v[i].0 == c);
            }
        }
        assert forall|i: int| 0 <= i < v.len() implies #[trigger] table_map(v)[v[i].0] == v[i].1 by {
            if i < t.len() {
                assert(t[i] == v[i]);
                assert(v[i].0 != v.last().0);
            }
        }
    }
}

impl DovecotKeywords {
    /// Every table keeps its letters strictly ascending.
    #[verifier::type_invariant]
    pub open spec fn ascending(self) -> bool {
        table_wf(self@)
    }

    /// The empty table.
    pub fn new() -> (r: Self)
        ensures
            r@ == Seq::<(char, Seq<char>)>::empty(),
    {
        let r = DovecotKeywords { entries: Vec::new() };
        assert(r@ =~= Seq::<(char, Seq<char>)>::empty());
        r
    }

    /// Number of named slots.
    pub fn len(&self) -> (r: usize)
        ensures
            r == self@.len(),
    {
        self.entries.len()
    }

    /// Whether no slot is named.
    pub fn is_empty(&self) -> (r: bool)
        ensures
            r == (self@.len() == 0),
    {
        self.entries.len() == 0
    }

    /// The entries in ascending letter order.
    pub fn entries(&self) -> (r: &[(char, String)])
        ensures
            entry_views(r@) == self@,
    {
        self.entries.as_slice()
    }

    /// The keyword named by slot `letter`.
    pub fn get(&self, letter: &char) -> (r: Option<&String>)
        ensures
            match r {
                Some(name) => table_map(self@).contains_key(*letter) && table_map(self@)[*letter] == name@,
                None => !table_map(self@).contains_key(*letter),
            },
    {
        proof {
            use_type_invariant(self);
            lemma_table_map(self@);
        }
        let mut i: usize = 0;
        while i < self.entries.len()
            invariant
                i <= self@.len(),
                table_wf(self@),
                forall|j: int| 0 <= j < i ==> self@[j].0 != *letter,
            decreases self@.len() - i,
        {
            if self.entries[i].0 == *letter {
                assert(self@[i as int].0 == *letter);
                assert(self@[i as int].1 == self.entries@[i as int].1@);
                proof { lemma_table_map(self@); }
                assert(table_map(self@)[self@[i as int].0] == self@[i as int].1);
                return Some(&self.entries[i].1);
            }
            i = i + 1;
        }
        None
    }

    /// Whether slot `letter` is named.
    pub fn contains_key(&self, letter: &char) -> (r: bool)
        ensures
            r == table_map(self@).contains_key(*letter),
    {
        self.get(letter).is_some()
    }

    /// Names slot `letter` `name`, returning the name it replaces.
    pub fn insert(&mut self, letter: char, name: String) -> (r: Option<String>)
        ensures
            table_wf(final(self)@),
            table_map(final(self)@) == table_map(old(self)@).insert(letter, name@),
            match r {
                Some(prev) => table_map(old(self)@).contains_key(letter) && table_map(old(self)@)[letter] == prev@,
                None => !table_map(old(self)@).contains_key(letter),
            },
    {
        proof { use_type_invariant(&*self); }
        let mut entries: Vec<(char, String)> = Vec::new();
        core::mem::swap(&mut entries, &mut self.entries);
        let r = insert_entry(&mut entries, letter, name);
        self.entries = entries;
        r
    }
}

/// Names slot `letter` `name` in the ascending entries `entries`,
/// returning the name it replaces.
fn insert_entry(entries: &mut Vec<(char, String)>, letter: char, name: String) -> (r: Option<String>)
    requires
        table_wf(entry_views(old(entries)@)),
    ensures
        table_wf(entry_views(final(entries)@)),
        table_map(entry_views(final(entries)@)) == table_map(entry_views(old(entries)@)).insert(letter, name@),
        match r {
            Some(prev) => table_map(entry_views(old(entries)@)).contains_key(letter) && table_map(entry_views(old(entries)@))[letter] == prev@,
            None => !table_map(entry_views(old(entries)@)).contains_key(letter),
        },
{
    let ghost old_v = entry_views(entries@);
    proof { lemma_table_map(old_v); }
    let ghost new_name = name@;
    let mut i: usize = 0;
    while i < entries.len() && entries[i].0 < letter
        invariant
            entry_views(entries@) == old_v,
            table_wf(old_v),
            i <= old_v.len(),
            forall|j: int| 0 <= j < i ==> old_v[j].0 < letter,
        decreases old_v.len() - i,
    {
        i = i + 1;
    }
    if i < entries.len() && entries[i].0 == letter {
        let prev = entries[i].1.clone();
        let ghost old_entries = entries@;
        let entry = (letter, name);
        let ghost ge = entry;
        entries.set(i, entry);
        proof {
            assert(entries@ == old_entries.update(i as int, ge));
            let nv = entry_views(entries@);
            assert(nv =~= old_v.update(i as int, (letter, new_name)));
            assert forall|k: int| 0 <= k < nv.len() implies nv[k].0 == old_v[k].0 by {}
            assert(table_wf(nv));
            lemma_table_map(nv);
            assert(table_map(nv) =~= table_map(old_v).insert(letter, new_name)) by {
                assert forall|c: char| table_map(nv).contains_key(c) <==> table_map(old_v).insert(letter, new_name).contains_key(c) by {
                    if exists|j: int| 0 <= j < old_v.len() && old_v[j].0 == c {
                        let j = choose|j: int| 0 <= j < old_v.len() && old_v[j].0 == c;
                        assert(nv[j].0 == c);
                    }
                    if exists|j: int| 0 <= j < nv.len() && nv[j].0 == c {
                        let j = choose|j: int| 0 <= j < nv.len() && nv[j].0 == c;
                        assert(old_v[j].0 == c);
                    }
                    if c == letter {
                        assert(nv[i as int].0 == c);
                    }
                }
                assert forall|c: char| table_map(nv).contains_key(c) implies table_map(nv)[c] == table_map(old_v).insert(letter, new_name)[c] by {
                    let j = choose|j: int| 0 <= j < nv.len() && nv[j].0 == c;
                    assert(table_map(nv)[nv[j].0] == nv[j].1);
                    if j != i {
                        assert(old_v[j].0 != old_v[i as int].0);
                        assert(table_map(old_v)[old_v[j].0] == old_v[j].1);
                    }
                }
            }
            assert(old_v[i as int].1 == old_entries[i as int].1@);
            assert(table_map(old_v)[old_v[i as int].0] == old_v[i as int].1);
        }
        return Some(prev);
    }
    proof {
        assert forall|j: int| i <= j < old_v.len() implies letter < old_v[j].0 by {
            assert(letter < old_v[i as int].0 || letter == old_v[i as int].0);
            if j > i {
                assert(old_v[i as int].0 < old_v[j].0);
            }
        }
        assert(!table_map(old_v).contains_key(letter)) by {
            if table_map(old_v).contains_key(letter) {
                let j = choose|j: int| 0 <= j < old_v.len() && old_v[j].0 == letter;
            }
        }
    }
    entries.insert(i, (letter, name));
    proof {
        let nv = entry_views(entries@);
        assert(nv =~= old_v.insert(i as int, (letter, new_name)));
        assert(table_wf(nv));
        lemma_table_map(nv);
        assert(table_map(nv) =~= table_map(old_v).insert(letter, new_name)) by {
            assert forall|c: char| table_map(nv).contains_key(c) <==> table_map(old_v).insert(letter, new_name).contains_key(c) by {
                if exists|j: int| 0 <= j < old_v.len() && old_v[j].0 == c {
                    let j = choose|j: int| 0 <= j < old_v.len() && old_v[j].0 == c;
                    if j < i {
                        assert(nv[j].0 == c);
                    } else {
                        assert(nv[j + 1].0 == c);
                    }
                }
                if exists|j: int| 0 <= j < nv.len() && nv[j].0 == c {
                    let j = choose|j: int| 0 <= j < nv.len() && nv[j].0 == c;
                    if j < i {
                        assert(old_v[j].0 == c);
                    } else if j > i {
                        assert(old_v[j - 1].0 == c);
                    }
                }
                if c == letter {
                    assert(nv[i as int].0 == c);
                }
            }
            assert forall|c: char| table_map(nv).contains_key(c) implies table_map(nv)[c] == table_map(old_v).insert(letter, new_name)[c] by {
                let j = choose|j: int| 0 <= j < nv.len() && nv[j].0 == c;
                assert(table_map(nv)[nv[j].0] == nv[j].1);
                if j < i {
                    assert(table_map(old_v)[old_v[j].0] == old_v[j].1);
                } else if j > i {
                    assert(table_map(old_v)[old_v[j - 1].0] == old_v[j - 1].1);
                }
            }
        }
    }
    None
}

/// An ASCII decimal digit.
pub open spec fn is_digit(c: char) -> bool {
    '0' <= c && c <= '9'
}

/// The value of a run of decimal digits.
pub open spec fn digits_value(s: Seq<char>) -> nat
    decreases s.len(),
{
    if s.len() == 0 {
        0
    } else {
        digits_value(s.drop_last()) * 10 + ((s.last() as int - 48) as nat)
    }
}

/// `u8::from_str`: an optional `+`, then one or more decimal digits
/// worth at most 255.
pub open spec fn parse_u8_spec(s: Seq<char>) -> Option<nat> {
    let d = unsigned_digits(s);
    if d.len() > 0 && all_digits(d) && digits_value(d) <= 255 {
        Some(digits_value(d))
    } else {
        None
    }
}

/// The digits of an unsigned number: `s` without a leading `+`.
pub open spec fn unsigned_digits(s: Seq<char>) -> Seq<char> {
    if s.len() > 0 && s[0] == '+' {
        s.drop_first()
    } else {
        s
    }
}

/// Every character of `s` is a decimal digit.
pub open spec fn all_digits(s: Seq<char>) -> bool {
    forall|i: int| 0 <= i < s.len() ==> is_digit(#[trigger] s[i])
}

/// The slot entry one line of a `dovecot-keywords` file names, if
/// any: `<slot> <name>` with the slot below 26, after trimming.
pub open spec fn parse_line_spec(line: Seq<char>) -> Option<(char, Seq<char>)> {
    let t = trim_spec(line);
    let k = first_ws(t);
    if k < 0 {
        None
    } else {
        match parse_u8_spec(t.take(k)) {
            Some(n) => if n < 26 {
                Some((slot_letter(n), trim_spec(t.skip(k + 1))))
            } else {
                None
            },
            None => None,
        }
    }
}

/// `m` updated by one line.
pub open spec fn apply_line(m: Map<char, Seq<char>>, line: Seq<char>) -> Map<char, Seq<char>> {
    match parse_line_spec(line) {
        Some((c, name)) => m.insert(c, name),
        None => m,
    }
}

/// The table built by the complete lines of `text`, and the text of
/// the line still open.
pub open spec fn parse_acc(text: Seq<char>) -> (Map<char, Seq<char>>, Seq<char>)
    decreases text.len(),
{
    if text.len() == 0 {
        (Map::empty(), Seq::empty())
    } else {
        let (m, cur) = parse_acc(text.drop_last());
        if text.last() == '\n' {
            (apply_line(m, cur), Seq::empty())
        } else {
            (m, cur.push(text.last()))
        }
    }
}

/// The slot table a `dovecot-keywords` file describes: its lines in
/// order, a later line naming a slot again winning.
pub open spec fn parse_spec(text: Seq<char>) -> Map<char, Seq<char>> {
    apply_line(parse_acc(text).0, parse_acc(text).1)
}

/// The line a slot entry is written as; letters outside `a..z` are
/// not written.
pub open spec fn slot_line(e: (char, Seq<char>)) -> Seq<char> {
    match letter_slot_spec(e.0) {
        Some(n) => dec_spec(n) + seq![' '] + e.1 + seq!['\n'],
        None => Seq::empty(),
    }
}

/// The `dovecot-keywords` text of a table's entries, in order.
pub open spec fn serialize_spec(v: Seq<(char, Seq<char>)>) -> Seq<char>
    decreases v.len(),
{
    if v.len() == 0 {
        Seq::empty()
    } else {
        serialize_spec(v.drop_last()) + slot_line(v.last())
    }
}

/// The first letter, in table order, naming `keyword`.
pub open spec fn slot_of_spec(v: Seq<(char, Seq<char>)>, keyword: Seq<char>) -> Option<char>
    decreases v.len(),
{
    if v.len() == 0 {
        None
    } else if v[0].1 == keyword {
        Some(v[0].0)
    } else {
        slot_of_spec(v.drop_first(), keyword)
    }
}

/// The lowest slot letter from slot `n` on that `m` leaves free.
pub open spec fn free_slot_from(m: Map<char, Seq<char>>, n: nat) -> Option<char>
    decreases 26 - n,
{
    if n >= 26 {
        None
    } else if !m.contains_key(slot_letter(n)) {
        Some(slot_letter(n))
    } else {
        free_slot_from(m, n + 1)
    }
}

/// The letter of slot `n`.
fn slot_char(n: u8) -> (c: char)
    requires
        n < 26,
    ensures
        c == slot_letter(n as nat),
{
    let letters: [char; 26] = [
        'a', 'b', 'c', 'd', 'e', 'f', 'g', 'h', 'i', 'j', 'k', 'l', 'm', 'n', 'o', 'p', 'q', 'r',
        's', 't', 'u', 'v', 'w', 'x', 'y', 'z',
    ];
    let c = letters[n as usize];
    assert(c == slot_letter(n as nat)) by {
        assert(letters@ =~= seq![
            'a', 'b', 'c', 'd', 'e', 'f', 'g', 'h', 'i', 'j', 'k', 'l', 'm', 'n', 'o', 'p', 'q',
            'r', 's', 't', 'u', 'v', 'w', 'x', 'y', 'z',
        ]);
    }
    c
}

/// Returns the slot number letter `c` stands for, if it is one of
/// `a..z`.
pub fn letter_to_slot(c: char) -> (r: Option<u8>)
    ensures
        match r {
            Some(n) => letter_slot_spec(c) == Some(n as nat),
            None => letter_slot_spec(c) is None,
        },
{
    let mut n: u8 = 0;
    while n < SLOT_COUNT
        invariant
            n <= 26,
            forall|k: nat| k < n ==> slot_letter(k) != c,
        decreases 26 - n,
    {
        if slot_char(n) == c {
            return Some(n);
        }
        n = n + 1;
    }
    proof {
        if 'a' <= c && c <= 'z' {
            let k = (c as nat - 97) as nat;
            assert(slot_letter(k) == c);
        }
    }
    None
}

proof fn lemma_digits_monotone(s: Seq<char>, k: int)
    requires
        0 <= k <= s.len(),
        forall|i: int| 0 <= i < s.len() ==> is_digit(s[i]),
    ensures
        digits_value(s.take(k)) <= digits_value(s),
    decreases s.len(),
{
    if k < s.len() {
        let t = s.drop_last();
        assert(t.take(k) == s.take(k));
        lemma_digits_monotone(t, k);
    } else {
        assert(s.take(k) == s);
    }
}

/// `u8::from_str` on characters.
fn parse_u8(s: &[char]) -> (r: Option<u8>)
    ensures
        match r {
            Some(n) => parse_u8_spec(s@) == Some(n as nat),
            None => parse_u8_spec(s@) is None,
        },
{
    let start: usize = if s.len() > 0 && s[0] == '+' { 1 } else { 0 };
    let ghost d = unsigned_digits(s@);
    assert(d == s@.skip(start as int));
    if start == s.len() {
        return None;
    }
    let mut v: u32 = 0;
    let mut i: usize = start;
    while i < s.len()
        invariant
            start <= i <= s@.len(),
            d == s@.skip(start as int),
            d == unsigned_digits(s@),
            v as nat == digits_value(d.take(i - start)),
            v <= 255,
            forall|j: int| 0 <= j < i - start ==> is_digit(d[j]),
        decreases s@.len() - i,
    {
        let c = s[i];
        assert(d[i - start] == s@[i as int]);
        if !('0' <= c && c <= '9') {
            assert(!is_digit(d[i - start]));
            assert(!all_digits(d));
            assert(parse_u8_spec(s@) is None);
            return None;
        }
        let digit: u32 = if c == '0' { 0 } else if c == '1' { 1 } else if c == '2' { 2 } else if c == '3' { 3 }
            else if c == '4' { 4 } else if c == '5' { 5 } else if c == '6' { 6 } else if c == '7' { 7 }
            else if c == '8' { 8 } else { 9 };
        assert(d.take(i - start + 1).drop_last() == d.take(i - start));
        assert(digit as int == c as int - 48);
        v = v * 10 + digit;
        i = i + 1;
        assert(v as nat == digits_value(d.take(i - start)));
        if v > 255 {
            proof {
                if all_digits(d) {
                    lemma_digits_monotone(d, i - start);
                    assert(digits_value(d) > 255);
                }
                assert(parse_u8_spec(s@) is None);
            }
            return None;
        }
    }
    assert(d.take(i - start) == d);
    Some(v as u8)
}

/// The entry one line names, if any.
fn parse_line(line: &[char]) -> (r: Option<(char, String)>)
    ensures
        match r {
            Some(e) => parse_line_spec(line@) == Some((e.0, e.1@)),
            None => parse_line_spec(line@) is None,
        },
{
    let (start, end) = trim_bounds(line);
    let t = chars_subrange(line, start, end);
    let ghost tt = t@;
    assert(tt == trim_spec(line@));
    let k = match find_whitespace(t.as_slice()) {
        Some(k) => k,
        None => return None,
    };
    proof { lemma_first_ws(tt); }
    let idx = chars_subrange(t.as_slice(), 0, k);
    assert(idx@ == tt.take(k as int));
    let n = match parse_u8(idx.as_slice()) {
        Some(n) => n,
        None => return None,
    };
    if n >= SLOT_COUNT {
        return None;
    }
    let rest = chars_subrange(t.as_slice(), k + 1, t.len());
    assert(rest@ == tt.skip(k + 1));
    let (a, b) = trim_bounds(rest.as_slice());
    let trimmed = chars_subrange(rest.as_slice(), a, b);
    let name = string_from_chars(trimmed.as_slice());
    Some((slot_char(n), name))
}

/// Updates `table` by one line.
fn apply_line_to(table: &mut DovecotKeywords, line: &[char])
    ensures
        table_wf(final(table)@),
        table_map(final(table)@) == apply_line(table_map(old(table)@), line@),
{
    proof { use_type_invariant(&*table); }
    match parse_line(line) {
        Some((letter, name)) => {
            table.insert(letter, name);
        },
        None => {},
    }
}

/// Parses a `dovecot-keywords` file content into a slot table.
///
/// Each non-empty line is expected to start with a slot number (decimal
/// integer, 0-based) followed by whitespace and the keyword name. Slot
/// `N` maps to letter `'a' + N` while `N < 26`. Gaps and trailing
/// whitespace are tolerated; malformed lines are skipped.
pub fn parse_dovecot_keywords(text: &str) -> (r: DovecotKeywords)
    ensures
        table_wf(r@),
        table_map(r@) == parse_spec(text@),
{
    let chars = str_chars(text);
    let mut table = DovecotKeywords::new();
    let mut cur: Vec<char> = Vec::new();
    let mut i: usize = 0;
    assert(table_map(table@) =~= Map::<char, Seq<char>>::empty());
    while i < chars.len()
        invariant
            i <= chars@.len(),
            table_wf(table@),
            table_map(table@) == parse_acc(chars@.take(i as int)).0,
            cur@ == parse_acc(chars@.take(i as int)).1,
        decreases chars@.len() - i,
    {
        assert(chars@.take(i + 1).drop_last() == chars@.take(i as int));
        if chars[i] == '\n' {
            apply_line_to(&mut table, cur.as_slice());
            cur = Vec::new();
        } else {
            cur.push(chars[i]);
        }
        i = i + 1;
    }
    apply_line_to(&mut table, cur.as_slice());
    assert(chars@.take(chars@.len() as int) == chars@);
    table
}

/// Serialises a slot table back into the `dovecot-keywords` line
/// format. Slot indices are written in ascending order, so the output
/// is deterministic.
pub fn serialize_dovecot_keywords(table: &DovecotKeywords) -> (r: String)
    ensures
        r@ == serialize_spec(table@),
{
    let mut out = String::new();
    let mut i: usize = 0;
    while i < table.entries.len()
        invariant
            i <= table@.len(),
            out@ == serialize_spec(table@.take(i as int)),
        decreases table@.len() - i,
    {
        assert(table@.take(i + 1).drop_last() == table@.take(i as int));
        let (letter, name) = (table.entries[i].0, &table.entries[i].1);
        assert(table@[i as int] == (letter, name@));
        match letter_to_slot(letter) {
            Some(n) => {
                let digits = dec_chars(n as u64);
                push_chars(&mut out, digits.as_slice());
                push_str(&mut out, " ");
                push_str(&mut out, name.as_str());
                push_str(&mut out, "\n");
                proof {
                    reveal_strlit(" ");
                    reveal_strlit("\n");
                    assert(out@ =~= serialize_spec(table@.take(i as int)) + slot_line(table@[i as int]));
                }
            },
            None => {
                assert(out@ =~= serialize_spec(table@.take(i as int)) + slot_line(table@[i as int]));
            },
        }
        i = i + 1;
    }
    assert(table@.take(table@.len() as int) == table@);
    out
}

/// Returns the slot letter `table` already names `keyword` by, if any.
///
/// The read counterpart of [`allocate_keyword_slot`], for callers with
/// nothing to write: a keyword the table does not name is on no message
/// of that Maildir either.
pub fn keyword_slot(table: &DovecotKeywords, keyword: &str) -> (r: Option<char>)
    ensures
        r == slot_of_spec(table@, keyword@),
{
    let mut i: usize = 0;
    assert(table@.skip(0) == table@);
    while i < table.entries.len()
        invariant
            i <= table@.len(),
            slot_of_spec(table@, keyword@) == slot_of_spec(table@.skip(i as int), keyword@),
        decreases table@.len() - i,
    {
        assert(table@.skip(i as int).drop_first() == table@.skip(i + 1));
        assert(table@.skip(i as int)[0] == table@[i as int]);
        assert(table@[i as int].1 == table.entries@[i as int].1@);
        if str_eq(table.entries[i].1.as_str(), keyword) {
            return Some(table.entries[i].0);
        }
        i = i + 1;
    }
    None
}

/// Returns the lowest free slot if `keyword` is not yet known, or the
/// existing letter if it is. Returns `None` when every slot is taken.
pub fn allocate_keyword_slot(table: &mut DovecotKeywords, keyword: &str) -> (r: Option<char>)
    ensures
        table_wf(final(table)@),
        match slot_of_spec(old(table)@, keyword@) {
            Some(l) => r == Some(l) && final(table)@ == old(table)@,
            None => match free_slot_from(table_map(old(table)@), 0) {
                Some(l) => r == Some(l) && table_map(final(table)@) == table_map(old(table)@).insert(l, keyword@),
                None => r is None && final(table)@ == old(table)@,
            },
        },
{
    proof { use_type_invariant(&*table); }
    if let Some(letter) = keyword_slot(table, keyword) {
        return Some(letter);
    }
    let mut n: u8 = 0;
    while n < SLOT_COUNT
        invariant
            n <= 26,
            table@ == old(table)@,
            table_wf(table@),
            slot_of_spec(old(table)@, keyword@) is None,
            free_slot_from(table_map(table@), 0) == free_slot_from(table_map(table@), n as nat),
        decreases 26 - n,
    {
        let letter = slot_char(n);
        if !table.contains_key(&letter) {
            table.insert(letter, keyword.to_owned());
            return Some(letter);
        }
        n = n + 1;
    }
    None
}


/// A keyword name that survives a write and read of the sidecar: not
/// empty, no line break, no leading or trailing whitespace.
pub open spec fn sidecar_name(name: Seq<char>) -> bool {
    &&& name.len() > 0
    &&& !is_ws(name[0])
    &&& !is_ws(name.last())
    &&& !name.contains('\n')
}

proof fn lemma_digit_value(d: nat)
    requires
        d < 10,
    ensures
        is_digit(digit_spec(d)),
        digit_spec(d) as int - 48 == d,
        !is_ws(digit_spec(d)),
        digit_spec(d) != '+',
        digit_spec(d) != '\n',
{
    assert(('0' as nat) == 48);
}

/// The decimal writing of `n` reads back as `n`.
proof fn lemma_dec_digits(n: nat)
    ensures
        dec_spec(n).len() > 0,
        all_digits(dec_spec(n)),
        digits_value(dec_spec(n)) == n,
        forall|i: int| 0 <= i < dec_spec(n).len() ==> !is_ws(#[trigger] dec_spec(n)[i]) && dec_spec(n)[i] != '\n',
        dec_spec(n)[0] != '+',
    decreases n,
{
    if n < 10 {
        lemma_digit_value(n);
        assert(dec_spec(n) == seq![digit_spec(n)]);
        assert(dec_spec(n).drop_last() =~= Seq::<char>::empty());
        assert(digits_value(dec_spec(n)) == digits_value(Seq::<char>::empty()) * 10 + ((digit_spec(n) as int - 48) as nat));
    } else {
        lemma_dec_digits(n / 10);
        lemma_digit_value(n % 10);
        let p = dec_spec(n / 10);
        assert(dec_spec(n) == p.push(digit_spec(n % 10)));
        assert(dec_spec(n).drop_last() == p);
        assert(n / 10 * 10 + n % 10 == n);
        assert(dec_spec(n).last() == digit_spec(n % 10));
        assert(digits_value(dec_spec(n)) == digits_value(p) * 10 + ((digit_spec(n % 10) as int - 48) as nat));
        assert forall|i: int| 0 <= i < dec_spec(n).len() implies is_digit(#[trigger] dec_spec(n)[i]) by {
            if i < p.len() {
                assert(dec_spec(n)[i] == p[i]);
            }
        }
    }
}

proof fn lemma_trim_clean(s: Seq<char>)
    requires
        s.len() > 0,
        !is_ws(s[0]),
        !is_ws(s.last()),
    ensures
        trim_spec(s) == s,
{
}

/// The first whitespace of `a + b` when `a` has none.
proof fn lemma_first_ws_concat(a: Seq<char>, b: Seq<char>)
    requires
        forall|i: int| 0 <= i < a.len() ==> !is_ws(#[trigger] a[i]),
        first_ws(b) >= 0,
    ensures
        first_ws(a + b) == a.len() + first_ws(b),
    decreases a.len(),
{
    if a.len() > 0 {
        assert((a + b).drop_first() == a.drop_first() + b);
        lemma_first_ws_concat(a.drop_first(), b);
    } else {
        assert(a + b == b);
    }
}

/// One serialised slot line parses back to its entry.
proof fn lemma_parse_slot_line(n: nat, name: Seq<char>)
    requires
        n < 26,
        sidecar_name(name),
    ensures
        parse_line_spec(dec_spec(n) + seq![' '] + name) == Some((slot_letter(n), name)),
{
    let d = dec_spec(n);
    let line = d + seq![' '] + name;
    lemma_dec_digits(n);
    assert(line[0] == d[0]);
    assert(line.last() == name.last());
    lemma_trim_clean(line);
    lemma_trim_clean(name);
    let rest = seq![' '] + name;
    assert(line == d + rest);
    assert(first_ws(rest) == 0);
    lemma_first_ws_concat(d, rest);
    assert(line.take(d.len() as int) == d);
    assert(line.skip(d.len() as int + 1) =~= name);
    assert(unsigned_digits(d) == d);
}

/// Appending a line without terminator leaves it open.
proof fn lemma_parse_acc_open(x: Seq<char>, l: Seq<char>)
    requires
        parse_acc(x).1 == Seq::<char>::empty(),
        !l.contains('\n'),
    ensures
        parse_acc(x + l) == (parse_acc(x).0, l),
    decreases l.len(),
{
    if l.len() == 0 {
        assert(x + l == x);
    } else {
        let l2 = l.drop_last();
        assert(!l2.contains('\n')) by {
            if l2.contains('\n') {
                let k = choose|k: int| 0 <= k < l2.len() && l2[k] == '\n';
                assert(l[k] == '\n');
            }
        }
        lemma_parse_acc_open(x, l2);
        assert((x + l).drop_last() == x + l2);
        assert(l.last() != '\n') by {
            assert(l[l.len() - 1] == l.last());
        }
        assert(parse_acc(x + l2).1.push(l.last()) == l);
    }
}

/// Writing a table and parsing it back gives the table again, as long
/// as its letters are slot letters and its names survive the line
/// format.
pub proof fn lemma_serialize_then_parse(v: Seq<(char, Seq<char>)>)
    requires
        forall|i: int| 0 <= i < v.len() ==> 'a' <= #[trigger] v[i].0 && v[i].0 <= 'z',
        forall|i: int| 0 <= i < v.len() ==> sidecar_name(#[trigger] v[i].1),
    ensures
        parse_spec(serialize_spec(v)) == table_map(v),
{
    lemma_serialize_parse_acc(v);
    assert(parse_line_spec(Seq::<char>::empty()) is None);
}

proof fn lemma_serialize_parse_acc(v: Seq<(char, Seq<char>)>)
    requires
        forall|i: int| 0 <= i < v.len() ==> 'a' <= #[trigger] v[i].0 && v[i].0 <= 'z',
        forall|i: int| 0 <= i < v.len() ==> sidecar_name(#[trigger] v[i].1),
    ensures
        parse_acc(serialize_spec(v)) == (table_map(v), Seq::<char>::empty()),
    decreases v.len(),
{
    if v.len() > 0 {
        let t = v.drop_last();
        assert forall|i: int| 0 <= i < t.len() implies 'a' <= #[trigger] t[i].0 && t[i].0 <= 'z' by {
            assert(t[i] == v[i]);
        }
        assert forall|i: int| 0 <= i < t.len() implies sidecar_name(#[trigger] t[i].1) by {
            assert(t[i] == v[i]);
        }
        lemma_serialize_parse_acc(t);
        let e = v.last();
        assert('a' <= v[v.len() - 1].0 && v[v.len() - 1].0 <= 'z');
        assert(sidecar_name(v[v.len() - 1].1));
        let n = (e.0 as nat - 97) as nat;
        assert(letter_slot_spec(e.0) == Some(n));
        assert(slot_letter(n) == e.0);
        let d = dec_spec(n);
        lemma_dec_digits(n);
        let l = d + seq![' '] + e.1;
        assert(!l.contains('\n')) by {
            if l.contains('\n') {
                let k = choose|k: int| 0 <= k < l.len() && l[k] == '\n';
                if k < d.len() {
                    assert(l[k] == d[k]);
                } else if k > d.len() {
                    assert(l[k] == e.1[k - d.len() - 1]);
                    assert(e.1.contains('\n'));
                }
            }
        }
        let x = serialize_spec(t);
        assert(serialize_spec(v) == x + l + seq!['\n']);
        lemma_parse_acc_open(x, l);
        assert((x + l + seq!['\n']).drop_last() == x + l);
        lemma_parse_slot_line(n, e.1);
    } else {
        assert(table_map(v) == Map::<char, Seq<char>>::empty());
    }
}

} // verus!

verus! {

/// Whether `m` names letter `l` `k`.
pub open spec fn names_at(m: Map<char, Seq<char>>, l: char, k: Seq<char>) -> bool {
    m.contains_key(l) && m[l] == k
}

/// `l` is the smallest letter `m` names `k` by.
pub open spec fn is_first_slot(m: Map<char, Seq<char>>, k: Seq<char>, l: char) -> bool {
    &&& names_at(m, l, k)
    &&& forall|l2: char| l2 < l ==> !#[trigger] names_at(m, l2, k)
}

/// The smallest letter `m` names `k` by, if any.
pub open spec fn slot_in(m: Map<char, Seq<char>>, k: Seq<char>) -> Option<char> {
    if exists|l: char| is_first_slot(m, k, l) {
        Some(choose|l: char| is_first_slot(m, k, l))
    } else {
        None
    }
}

/// The table `m` after the slot allocation of `k`: unchanged when `k`
/// already has a letter or no slot is free, else with `k` in the lowest
/// free slot.
pub open spec fn alloc_map(m: Map<char, Seq<char>>, k: Seq<char>) -> Map<char, Seq<char>> {
    match slot_in(m, k) {
        Some(_) => m,
        None => match free_slot_from(m, 0) {
            Some(l) => m.insert(l, k),
            None => m,
        },
    }
}

/// The table `m` after the slot allocation of each of `ks`, in order.
pub open spec fn alloc_all(m: Map<char, Seq<char>>, ks: Seq<Seq<char>>) -> Map<char, Seq<char>>
    decreases ks.len(),
{
    if ks.len() == 0 {
        m
    } else {
        alloc_map(alloc_all(m, ks.drop_last()), ks.last())
    }
}

/// At most one letter is the smallest naming `k`.
pub proof fn lemma_first_slot_unique(m: Map<char, Seq<char>>, k: Seq<char>, l: char)
    requires
        is_first_slot(m, k, l),
    ensures
        slot_in(m, k) == Some(l),
{
    let c = choose|c: char| is_first_slot(m, k, c);
    assert(is_first_slot(m, k, c));
    if c < l {
        assert(names_at(m, c, k));
    } else if l < c {
        assert(names_at(m, l, k));
    }
}

/// In a well-formed table, the first letter in table order naming `k`
/// is the smallest letter naming it.
pub proof fn lemma_slot_of_is_slot_in(v: Seq<(char, Seq<char>)>, k: Seq<char>)
    requires
        table_wf(v),
    ensures
        slot_of_spec(v, k) == slot_in(table_map(v), k),
    decreases v.len(),
{
    lemma_table_map(v);
    let m = table_map(v);
    if v.len() == 0 {
        if slot_in(m, k) is Some {
            let l = choose|l: char| is_first_slot(m, k, l);
            assert(m.contains_key(l));
        }
    } else if v[0].1 == k {
        assert(m[v[0].0] == v[0].1);
        assert forall|l2: char| l2 < v[0].0 implies !#[trigger] names_at(m, l2, k) by {
            if m.contains_key(l2) {
                let j = choose|j: int| 0 <= j < v.len() && v[j].0 == l2;
                if j > 0 {
                    assert(v[0].0 < v[j].0);
                }
            }
        }
        assert(is_first_slot(m, k, v[0].0));
        lemma_first_slot_unique(m, k, v[0].0);
    } else {
        let v1 = v.drop_first();
        assert(table_wf(v1));
        lemma_slot_of_is_slot_in(v1, k);
        lemma_table_map(v1);
        let m1 = table_map(v1);
        assert forall|l: char| #![trigger names_at(m, l, k)] #![trigger names_at(m1, l, k)] names_at(m, l, k) == names_at(m1, l, k) by {
            if names_at(m, l, k) {
                let i = choose|i: int| 0 <= i < v.len() && v[i].0 == l;
                assert(m[v[i].0] == v[i].1);
                assert(i != 0);
                assert(v1[i - 1] == v[i]);
                assert(m1[v1[i - 1].0] == v1[i - 1].1);
            }
            if names_at(m1, l, k) {
                let i = choose|i: int| 0 <= i < v1.len() && v1[i].0 == l;
                assert(v1[i] == v[i + 1]);
                assert(m1[v1[i].0] == v1[i].1);
                assert(m[v[i + 1].0] == v[i + 1].1);
            }
        }
        match slot_in(m1, k) {
            Some(l) => {
                let c = choose|c: char| is_first_slot(m1, k, c);
                assert(is_first_slot(m1, k, c));
                assert(is_first_slot(m, k, c));
                lemma_first_slot_unique(m, k, c);
            },
            None => {
                if slot_in(m, k) is Some {
                    let c = choose|c: char| is_first_slot(m, k, c);
                    assert(is_first_slot(m1, k, c));
                }
            },
        }
    }
}

proof fn lemma_slot_of_none(v: Seq<(char, Seq<char>)>, k: Seq<char>)
    requires
        forall|i: int| 0 <= i < v.len() ==> v[i].1 != k,
    ensures
        slot_of_spec(v, k) is None,
    decreases v.len(),
{
    if v.len() > 0 {
        assert forall|i: int| 0 <= i < v.drop_first().len() implies v.drop_first()[i].1 != k by {
            assert(v.drop_first()[i] == v[i + 1]);
        }
        lemma_slot_of_none(v.drop_first(), k);
    }
}

} // verus!

verus! {

/// `slot_in` depends only on which letters name `k`.
pub proof fn lemma_slot_in_same(m: Map<char, Seq<char>>, m1: Map<char, Seq<char>>, k: Seq<char>)
    requires
        forall|l: char| #![trigger names_at(m, l, k)] #![trigger names_at(m1, l, k)] names_at(m, l, k) == names_at(m1, l, k),
    ensures
        slot_in(m, k) == slot_in(m1, k),
{
    if slot_in(m1, k) is Some {
        let c = choose|c: char| is_first_slot(m1, k, c);
        assert(is_first_slot(m, k, c));
        lemma_first_slot_unique(m, k, c);
        lemma_first_slot_unique(m1, k, c);
    } else if slot_in(m, k) is Some {
        let c = choose|c: char| is_first_slot(m, k, c);
        assert(is_first_slot(m1, k, c));
    }
}

/// Allocating `k` changes the slot of no other keyword, and changes
/// nothing when `k` already has a slot.
pub proof fn lemma_alloc_keeps(m: Map<char, Seq<char>>, k: Seq<char>, k2: Seq<char>)
    ensures
        slot_in(m, k) is Some ==> alloc_map(m, k) == m,
        k2 != k ==> slot_in(alloc_map(m, k), k2) == slot_in(m, k2),
{
    if k2 != k {
        let m1 = alloc_map(m, k);
        if slot_in(m, k) is None {
            match free_slot_from(m, 0) {
                Some(l) => {
                    lemma_free_slot_free(m, 0);
                    assert forall|l2: char| #![trigger names_at(m, l2, k2)] #![trigger names_at(m1, l2, k2)] names_at(m, l2, k2) == names_at(m1, l2, k2) by {
                        if l2 == l {
                            assert(!m.contains_key(l));
                        }
                    }
                    lemma_slot_in_same(m, m1, k2);
                },
                None => {},
            }
        }
    }
}

/// A slot letter `free_slot_from` gives is free.
proof fn lemma_free_slot_free(m: Map<char, Seq<char>>, n: nat)
    ensures
        free_slot_from(m, n) matches Some(l) ==> !m.contains_key(l),
    decreases 26 - n,
{
    if n < 26 && m.contains_key(slot_letter(n)) {
        lemma_free_slot_free(m, n + 1);
    }
}

/// No entry of `v` names `k` when `slot_of_spec` finds none.
proof fn lemma_slot_of_none_all(v: Seq<(char, Seq<char>)>, k: Seq<char>)
    requires
        slot_of_spec(v, k) is None,
    ensures
        forall|i: int| 0 <= i < v.len() ==> v[i].1 != k,
    decreases v.len(),
{
    if v.len() > 0 {
        lemma_slot_of_none_all(v.drop_first(), k);
        assert forall|i: int| 0 <= i < v.len() implies v[i].1 != k by {
            if i > 0 {
                assert(v[i] == v.drop_first()[i - 1]);
            }
        }
    }
}

/// Allocates the slot of `keyword` in `table`, and returns it: the
/// letter the table already names it by, or else the lowest free slot
/// letter; `None` when every slot is taken.
pub fn allocate_slot(table: &mut DovecotKeywords, keyword: &str) -> (r: Option<char>)
    ensures
        table_wf(final(table)@),
        table_map(final(table)@) == alloc_map(table_map(old(table)@), keyword@),
        r == slot_in(table_map(final(table)@), keyword@),
{
    proof { use_type_invariant(&*table); }
    let ghost v0 = table@;
    let ghost m0 = table_map(v0);
    proof {
        lemma_slot_of_is_slot_in(v0, keyword@);
    }
    let r = allocate_keyword_slot(table, keyword);
    proof {
        let m1 = table_map(table@);
        match slot_of_spec(v0, keyword@) {
            Some(l) => {},
            None => {
                lemma_slot_of_none_all(v0, keyword@);
                lemma_table_map(v0);
                match free_slot_from(m0, 0) {
                    Some(l) => {
                        lemma_free_slot_free(m0, 0);
                        assert forall|l2: char| l2 < l implies !#[trigger] names_at(m1, l2, keyword@) by {
                            if names_at(m1, l2, keyword@) {
                                assert(m0.contains_key(l2));
                                let i = choose|i: int| 0 <= i < v0.len() && v0[i].0 == l2;
                                assert(m0[v0[i].0] == v0[i].1);
                            }
                        }
                        assert(is_first_slot(m1, keyword@, l));
                        lemma_first_slot_unique(m1, keyword@, l);
                    },
                    None => {},
                }
            },
        }
    }
    r
}

} // verus!
