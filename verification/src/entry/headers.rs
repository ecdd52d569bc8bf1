//! RFC 5322 header helpers on raw message bytes: putting a header field
//! first, dropping named fields from the header section, and reading the
//! keywords a field carries.
//!
//! A message is read as lines, each running up to and including its
//! line feed. The header section ends at the first blank line; a line
//! starting with a space or a tab continues the field above it.

use vstd::prelude::*;
use vstd::utf8::{decode_utf8, encode_scalar, encode_utf8, valid_utf8};

use crate::flag::{header_name_spec, string_views, KeywordHeader};
use crate::text::push_str;

verus! {

/// Index of the first line feed of `s`, or `-1`.
pub open spec fn find_lf(s: Seq<u8>) -> int
    decreases s.len(),
{
    if s.len() == 0 {
        -1
    } else if s[0] == 10 {
        0
    } else if find_lf(s.drop_first()) < 0 {
        -1
    } else {
        find_lf(s.drop_first()) + 1
    }
}

/// Where the first line of `s` ends: just after its line feed, or at
/// the end of `s`.
pub open spec fn first_line_end(s: Seq<u8>) -> int {
    if find_lf(s) < 0 {
        s.len() as int
    } else {
        find_lf(s) + 1
    }
}

/// The lines of `s`, in order; joined back they give `s`.
pub open spec fn lines_of(s: Seq<u8>) -> Seq<Seq<u8>>
    decreases s.len(),
{
    if s.len() == 0 {
        Seq::empty()
    } else {
        let k = first_line_end(s);
        if 0 < k <= s.len() {
            seq![s.take(k)] + lines_of(s.skip(k))
        } else {
            seq![s]
        }
    }
}

/// The lines `ls` joined back into bytes.
pub open spec fn join_lines(ls: Seq<Seq<u8>>) -> Seq<u8>
    decreases ls.len(),
{
    if ls.len() == 0 {
        Seq::empty()
    } else {
        ls[0] + join_lines(ls.drop_first())
    }
}

/// A blank line: it ends the header section.
pub open spec fn is_blank(line: Seq<u8>) -> bool {
    line == seq![10u8] || line == seq![13u8, 10u8]
}

/// A line continuing the field above it.
pub open spec fn is_continuation(line: Seq<u8>) -> bool {
    line.len() > 0 && (line[0] == 32 || line[0] == 9)
}

/// Index of the first `:` of `s`, or `-1`.
pub open spec fn find_colon(s: Seq<u8>) -> int
    decreases s.len(),
{
    if s.len() == 0 {
        -1
    } else if s[0] == 58 {
        0
    } else if find_colon(s.drop_first()) < 0 {
        -1
    } else {
        find_colon(s.drop_first()) + 1
    }
}

/// An ASCII byte folded to lower case.
pub open spec fn ascii_lower(b: u8) -> u8 {
    if 65 <= b <= 90 {
        (b + 32) as u8
    } else {
        b
    }
}

/// Whether `a` and `b` are equal up to ASCII case.
pub open spec fn ascii_ci_eq(a: Seq<u8>, b: Seq<u8>) -> bool {
    a.len() == b.len() && forall|i: int| 0 <= i < a.len() ==> ascii_lower(#[trigger] a[i]) == ascii_lower(b[i])
}

/// Whether the field starting at `line` is named one of `names`, up to
/// ASCII case.
pub open spec fn field_named(line: Seq<u8>, names: Seq<Seq<u8>>) -> bool {
    let c = find_colon(line);
    c >= 0 && exists|k: int| 0 <= k < names.len() && ascii_ci_eq(line.take(c), #[trigger] names[k])
}

/// The lines `ls` with every field named one of `names` left out of the
/// header section. `in_header` tells whether the header section is still
/// running, `dropping` whether the field being read is left out.
pub open spec fn strip_lines(ls: Seq<Seq<u8>>, names: Seq<Seq<u8>>, in_header: bool, dropping: bool) -> Seq<u8>
    decreases ls.len(),
{
    if ls.len() == 0 {
        Seq::empty()
    } else {
        let l = ls[0];
        let rest = ls.drop_first();
        if !in_header {
            l + strip_lines(rest, names, false, dropping)
        } else if is_blank(l) {
            l + strip_lines(rest, names, false, dropping)
        } else if is_continuation(l) {
            (if dropping {
                Seq::empty()
            } else {
                l
            }) + strip_lines(rest, names, true, dropping)
        } else {
            let d = field_named(l, names);
            (if d {
                Seq::empty()
            } else {
                l
            }) + strip_lines(rest, names, true, d)
        }
    }
}

/// The UTF-8 bytes of each of `names`.
pub open spec fn names_bytes(names: Seq<String>) -> Seq<Seq<u8>> {
    names.map_values(|n: String| encode_utf8(n@))
}

/// The message `contents` without the header fields named one of
/// `names`.
pub open spec fn strip_headers_spec(contents: Seq<u8>, names: Seq<String>) -> Seq<u8> {
    strip_lines(lines_of(contents), names_bytes(names), true, false)
}

/// `lines_of` splits off the first line.
proof fn lemma_lines_of_unfold(s: Seq<u8>)
    requires
        s.len() > 0,
    ensures
        0 < first_line_end(s) <= s.len(),
        lines_of(s) == seq![s.take(first_line_end(s))] + lines_of(s.skip(first_line_end(s))),
    decreases s.len(),
{
    lemma_find_lf(s);
}

proof fn lemma_find_lf(s: Seq<u8>)
    ensures
        -1 <= find_lf(s) < s.len(),
        find_lf(s) >= 0 ==> s[find_lf(s)] == 10,
        forall|j: int| 0 <= j < s.len() && (find_lf(s) < 0 || j < find_lf(s)) ==> s[j] != 10,
    decreases s.len(),
{
    if s.len() > 0 && s[0] != 10 {
        lemma_find_lf(s.drop_first());
        assert forall|j: int| 0 <= j < s.len() && (find_lf(s) < 0 || j < find_lf(s)) implies s[j] != 10 by {
            if j > 0 {
                assert(s[j] == s.drop_first()[j - 1]);
            }
        }
    }
}

proof fn lemma_find_colon(s: Seq<u8>)
    ensures
        -1 <= find_colon(s) < s.len(),
        find_colon(s) >= 0 ==> s[find_colon(s)] == 58,
        forall|j: int| 0 <= j < s.len() && (find_colon(s) < 0 || j < find_colon(s)) ==> s[j] != 58,
    decreases s.len(),
{
    if s.len() > 0 && s[0] != 58 {
        lemma_find_colon(s.drop_first());
        assert forall|j: int| 0 <= j < s.len() && (find_colon(s) < 0 || j < find_colon(s)) implies s[j] != 58 by {
            if j > 0 {
                assert(s[j] == s.drop_first()[j - 1]);
            }
        }
    }
}

/// Splitting into lines and joining back gives the bytes again.
pub proof fn lemma_join_lines_of(s: Seq<u8>)
    ensures
        join_lines(lines_of(s)) == s,
    decreases s.len(),
{
    if s.len() > 0 {
        lemma_lines_of_unfold(s);
        let k = first_line_end(s);
        lemma_join_lines_of(s.skip(k));
        let ls = lines_of(s);
        assert(ls.drop_first() =~= lines_of(s.skip(k)));
        assert(s.take(k) + s.skip(k) =~= s);
    }
}

/// Past the header section, stripping keeps the lines as they are.
proof fn lemma_strip_body(ls: Seq<Seq<u8>>, names: Seq<Seq<u8>>, dropping: bool)
    ensures
        strip_lines(ls, names, false, dropping) == join_lines(ls),
    decreases ls.len(),
{
    if ls.len() > 0 {
        lemma_strip_body(ls.drop_first(), names, dropping);
    }
}

/// The end of the line of `s` starting at `i`: just after its line
/// feed, or the end of `s`.
fn line_end(s: &[u8], i: usize) -> (r: usize)
    requires
        i < s@.len(),
    ensures
        i < r <= s@.len(),
        r - i == first_line_end(s@.skip(i as int)),
{
    let ghost t = s@.skip(i as int);
    proof {
        lemma_find_lf(t);
    }
    let mut j: usize = i;
    while j < s.len()
        invariant
            i <= j <= s@.len(),
            t == s@.skip(i as int),
            -1 <= find_lf(t) < t.len(),
            find_lf(t) >= 0 ==> t[find_lf(t)] == 10,
            forall|k: int| 0 <= k < t.len() && (find_lf(t) < 0 || k < find_lf(t)) ==> t[k] != 10,
            forall|k: int| i <= k < j ==> s@[k] != 10,
        decreases s@.len() - j,
    {
        if s[j] == 10 {
            proof {
                assert(t[j - i] == 10);
                if find_lf(t) >= 0 && find_lf(t) < j - i {
                    assert(s@[i + find_lf(t)] == t[find_lf(t)]);
                }
            }
            return j + 1;
        }
        j = j + 1;
    }
    proof {
        if find_lf(t) >= 0 {
            assert(s@[i + find_lf(t)] == t[find_lf(t)]);
        }
    }
    s.len()
}

/// Whether `a` and `b` are equal up to ASCII case.
fn ascii_eq_ignore_case(a: &[u8], b: &[u8]) -> (r: bool)
    ensures
        r == ascii_ci_eq(a@, b@),
{
    if a.len() != b.len() {
        return false;
    }
    let mut i: usize = 0;
    while i < a.len()
        invariant
            a@.len() == b@.len(),
            i <= a@.len(),
            forall|j: int| 0 <= j < i ==> ascii_lower(#[trigger] a@[j]) == ascii_lower(b@[j]),
        decreases a@.len() - i,
    {
        let x = a[i];
        let y = b[i];
        let lx = if 65 <= x && x <= 90 { x + 32 } else { x };
        let ly = if 65 <= y && y <= 90 { y + 32 } else { y };
        if lx != ly {
            return false;
        }
        i = i + 1;
    }
    true
}

/// Whether the field starting at `line` is named one of `names`.
fn is_field_named(line: &[u8], names: &Vec<Vec<u8>>) -> (r: bool)
    ensures
        r == field_named(line@, names@.map_values(|n: Vec<u8>| n@)),
{
    let ghost ns = names@.map_values(|n: Vec<u8>| n@);
    proof {
        lemma_find_colon(line@);
    }
    let mut c: usize = 0;
    while c < line.len() && line[c] != 58
        invariant
            c <= line@.len(),
            forall|j: int| 0 <= j < c ==> line@[j] != 58,
        decreases line@.len() - c,
    {
        c = c + 1;
    }
    if c == line.len() {
        proof {
            if find_colon(line@) >= 0 {
                assert(line@[find_colon(line@)] == 58);
            }
        }
        return false;
    }
    proof {
        if find_colon(line@) < 0 || find_colon(line@) > c {
            assert(line@[c as int] == 58);
        }
        assert(find_colon(line@) == c);
    }
    let name = slice_prefix(line, c);
    let mut k: usize = 0;
    while k < names.len()
        invariant
            k <= names@.len(),
            name@ == line@.take(c as int),
            find_colon(line@) == c as int,
            ns == names@.map_values(|n: Vec<u8>| n@),
            forall|j: int| 0 <= j < k ==> !ascii_ci_eq(line@.take(c as int), #[trigger] ns[j]),
        decreases names@.len() - k,
    {
        if ascii_eq_ignore_case(name.as_slice(), names[k].as_slice()) {
            assert(ascii_ci_eq(line@.take(c as int), ns[k as int]));
            return true;
        }
        k = k + 1;
    }
    false
}

/// The first `n` bytes of `s`.
fn slice_prefix(s: &[u8], n: usize) -> (r: Vec<u8>)
    requires
        n <= s@.len(),
    ensures
        r@ == s@.take(n as int),
{
    slice_range(s, 0, n)
}

/// The bytes of `s` in `[a, b)`.
fn slice_range(s: &[u8], a: usize, b: usize) -> (r: Vec<u8>)
    requires
        a <= b <= s@.len(),
    ensures
        r@ == s@.subrange(a as int, b as int),
{
    let mut out: Vec<u8> = Vec::new();
    let mut i: usize = a;
    while i < b
        invariant
            a <= i <= b <= s@.len(),
            out@ == s@.subrange(a as int, i as int),
        decreases b - i,
    {
        out.push(s[i]);
        i = i + 1;
        assert(out@ =~= s@.subrange(a as int, i as int));
    }
    out
}

/// Appends the bytes of `s` in `[a, b)` to `out`.
fn push_range(out: &mut Vec<u8>, s: &[u8], a: usize, b: usize)
    requires
        a <= b <= s@.len(),
    ensures
        final(out)@ == old(out)@ + s@.subrange(a as int, b as int),
{
    let ghost start = out@;
    let mut i: usize = a;
    while i < b
        invariant
            a <= i <= b <= s@.len(),
            out@ == start + s@.subrange(a as int, i as int),
        decreases b - i,
    {
        out.push(s[i]);
        i = i + 1;
        assert(out@ =~= start + s@.subrange(a as int, i as int));
    }
}

/// Drops from `contents` every header field whose name is one of
/// `names`, up to ASCII case, with its continuation lines; the rest of
/// the message is kept byte for byte.
pub fn strip_headers(contents: &[u8], names: &Vec<String>) -> (r: Vec<u8>)
    ensures
        r@ == strip_headers_spec(contents@, names@),
{
    let mut nb: Vec<Vec<u8>> = Vec::new();
    let mut k: usize = 0;
    while k < names.len()
        invariant
            k <= names@.len(),
            nb@.len() == k,
            forall|j: int| 0 <= j < k ==> #[trigger] nb@[j]@ == encode_utf8(names@[j]@),
        decreases names@.len() - k,
    {
        nb.push(names[k].as_str().as_bytes_vec());
        k = k + 1;
    }
    let ghost ns = nb@.map_values(|n: Vec<u8>| n@);
    assert(ns =~= names_bytes(names@));
    let ghost all = strip_lines(lines_of(contents@), ns, true, false);
    let mut out: Vec<u8> = Vec::new();
    let mut in_header = true;
    let mut dropping = false;
    let mut i: usize = 0;
    proof {
        assert(contents@.skip(0) =~= contents@);
    }
    while i < contents.len()
        invariant
            i <= contents@.len(),
            ns == nb@.map_values(|n: Vec<u8>| n@),
            out@ + strip_lines(lines_of(contents@.skip(i as int)), ns, in_header, dropping) == all,
        decreases contents@.len() - i,
    {
        let ghost t = contents@.skip(i as int);
        let j = line_end(contents, i);
        proof {
            lemma_lines_of_unfold(t);
            assert(t.take(j - i) =~= contents@.subrange(i as int, j as int));
            assert(t.skip(j - i) =~= contents@.skip(j as int));
            assert(lines_of(t)[0] == contents@.subrange(i as int, j as int));
            assert(lines_of(t).drop_first() =~= lines_of(contents@.skip(j as int)));
        }
        let ghost line = contents@.subrange(i as int, j as int);
        let ghost before = out@;
        let ghost in0 = in_header;
        let ghost d0 = dropping;
        let ghost rest = lines_of(contents@.skip(j as int));
        proof {
            assert(line.len() > 0);
            assert(line[0] == contents@[i as int]);
        }
        if !in_header {
            push_range(&mut out, contents, i, j);
        } else {
            let blank = (j - i == 1 && contents[i] == 10) || (j - i == 2 && contents[i] == 13 && contents[i + 1] == 10);
            proof {
                if j - i == 1 && contents@[i as int] == 10 {
                    assert(line =~= seq![10u8]);
                }
                if j - i == 2 && contents@[i as int] == 13 && contents@[i + 1] == 10 {
                    assert(line =~= seq![13u8, 10u8]);
                }
                if is_blank(line) {
                    assert(line.len() == 1 || line.len() == 2);
                    if line.len() == 2 {
                        assert(line[1] == contents@[i + 1]);
                    }
                }
                assert(blank == is_blank(line));
            }
            if blank {
                push_range(&mut out, contents, i, j);
                in_header = false;
            } else if contents[i] == 32 || contents[i] == 9 {
                if !dropping {
                    push_range(&mut out, contents, i, j);
                }
            } else {
                let line_bytes = slice_range(contents, i, j);
                dropping = is_field_named(line_bytes.as_slice(), &nb);
                if !dropping {
                    push_range(&mut out, contents, i, j);
                }
            }
        }
        proof {
            assert(strip_lines(lines_of(t), ns, in0, d0) == (out@.skip(before.len() as int)) + strip_lines(
                rest,
                ns,
                in_header,
                dropping,
            )) by {
                assert(out@.skip(before.len() as int) =~= (if out@.len() == before.len() {
                    Seq::<u8>::empty()
                } else {
                    line
                }));
            }
            assert(out@ =~= before + out@.skip(before.len() as int));
        }
        i = j;
    }
    proof {
        assert(contents@.skip(i as int) =~= Seq::<u8>::empty());
        assert(out@ =~= all);
    }
    out
}

/// The message `contents` with the field `name: value` put first, its
/// line ended by CRLF.
pub open spec fn inject_header_spec(contents: Seq<u8>, name: Seq<char>, value: Seq<char>) -> Seq<u8> {
    encode_utf8(name + seq![':', ' '] + value + seq!['\r', '\n']) + contents
}

/// Puts the header field `name: value` first in the message `contents`.
pub fn inject_header(contents: &[u8], name: &str, value: &str) -> (r: Vec<u8>)
    ensures
        r@ == inject_header_spec(contents@, name@, value@),
{
    let mut line = String::new();
    push_str(&mut line, name);
    push_str(&mut line, ": ");
    push_str(&mut line, value);
    push_str(&mut line, "\r\n");
    proof {
        reveal_strlit(": ");
        reveal_strlit("\r\n");
        assert(line@ =~= name@ + seq![':', ' '] + value@ + seq!['\r', '\n']);
    }
    let mut out = line.as_str().as_bytes_vec();
    push_range(&mut out, contents, 0, contents.len());
    assert(contents@.subrange(0, contents@.len() as int) =~= contents@);
    out
}

} // verus!

verus! {

/// `line` without its line ending: a final line feed, and a carriage
/// return just before it.
pub open spec fn chomp(line: Seq<u8>) -> Seq<u8> {
    if line.len() > 0 && line.last() == 10 {
        let l = line.drop_last();
        if l.len() > 0 && l.last() == 13 {
            l.drop_last()
        } else {
            l
        }
    } else {
        line
    }
}

/// The continuation lines opening `ls`, without their line endings,
/// joined.
pub open spec fn unfolded(ls: Seq<Seq<u8>>) -> Seq<u8>
    decreases ls.len(),
{
    if ls.len() > 0 && is_continuation(ls[0]) {
        chomp(ls[0]) + unfolded(ls.drop_first())
    } else {
        Seq::empty()
    }
}

/// The value of the first field of the header section `ls` named
/// `name` up to ASCII case: what follows its colon, with its
/// continuation lines unfolded.
pub open spec fn field_value(ls: Seq<Seq<u8>>, name: Seq<u8>) -> Option<Seq<u8>>
    decreases ls.len(),
{
    if ls.len() == 0 {
        None
    } else {
        let l = ls[0];
        if is_blank(l) {
            None
        } else if !is_continuation(l) && field_named(l, seq![name]) {
            Some(chomp(l).skip(find_colon(l) + 1) + unfolded(ls.drop_first()))
        } else {
            field_value(ls.drop_first(), name)
        }
    }
}

/// Index of the first byte `b` of `s`, or `-1`.
pub open spec fn find_byte(s: Seq<u8>, b: u8) -> int
    decreases s.len(),
{
    if s.len() == 0 {
        -1
    } else if s[0] == b {
        0
    } else if find_byte(s.drop_first(), b) < 0 {
        -1
    } else {
        find_byte(s.drop_first(), b) + 1
    }
}

/// `s` cut at each byte `sep`.
pub open spec fn split_bytes(s: Seq<u8>, sep: u8) -> Seq<Seq<u8>>
    decreases s.len(),
{
    let i = find_byte(s, sep);
    if 0 <= i < s.len() {
        seq![s.take(i)] + split_bytes(s.skip(i + 1), sep)
    } else {
        seq![s]
    }
}

/// Space, tab, carriage return or line feed.
pub open spec fn is_space_byte(b: u8) -> bool {
    b == 32 || b == 9 || b == 13 || b == 10
}

/// `s` without its leading white space.
pub open spec fn trim_front(s: Seq<u8>) -> Seq<u8>
    decreases s.len(),
{
    if s.len() > 0 && is_space_byte(s[0]) {
        trim_front(s.drop_first())
    } else {
        s
    }
}

/// `s` without its trailing white space.
pub open spec fn trim_back(s: Seq<u8>) -> Seq<u8>
    decreases s.len(),
{
    if s.len() > 0 && is_space_byte(s.last()) {
        trim_back(s.drop_last())
    } else {
        s
    }
}

/// The keywords spelled by the pieces `ps`, in order: each piece
/// trimmed of white space, kept when something valid as UTF-8 is left.
pub open spec fn piece_keywords(ps: Seq<Seq<u8>>) -> Seq<Seq<char>>
    decreases ps.len(),
{
    if ps.len() == 0 {
        Seq::empty()
    } else {
        let t = trim_back(trim_front(ps[0]));
        (if t.len() > 0 && valid_utf8(t) {
            seq![decode_utf8(t)]
        } else {
            Seq::empty()
        }) + piece_keywords(ps.drop_first())
    }
}

/// The byte separating keywords in the value of header `h`.
pub open spec fn separator_byte(h: KeywordHeader) -> u8 {
    match h {
        KeywordHeader::XKeywords => 44,
        KeywordHeader::XLabel => 32,
    }
}

/// The keywords the message `contents` carries in header `h`: the
/// value of its first such field, cut at the separator.
pub open spec fn extract_keywords_spec(contents: Seq<u8>, h: KeywordHeader) -> Seq<Seq<char>> {
    match field_value(lines_of(contents), encode_utf8(header_name_spec(h))) {
        Some(v) => piece_keywords(split_bytes(v, separator_byte(h))),
        None => Seq::empty(),
    }
}

proof fn lemma_find_byte(s: Seq<u8>, b: u8)
    ensures
        -1 <= find_byte(s, b) < s.len(),
        find_byte(s, b) >= 0 ==> s[find_byte(s, b)] == b,
        forall|j: int| 0 <= j < s.len() && (find_byte(s, b) < 0 || j < find_byte(s, b)) ==> s[j] != b,
    decreases s.len(),
{
    if s.len() > 0 && s[0] != b {
        lemma_find_byte(s.drop_first(), b);
        assert forall|j: int| 0 <= j < s.len() && (find_byte(s, b) < 0 || j < find_byte(s, b)) implies s[j] != b by {
            if j > 0 {
                assert(s[j] == s.drop_first()[j - 1]);
            }
        }
    }
}

/// The first index of `b` in `s` is the one a scan finds.
proof fn lemma_find_byte_at(s: Seq<u8>, b: u8, i: int)
    requires
        0 <= i <= s.len(),
        forall|j: int| 0 <= j < i ==> s[j] != b,
        i == s.len() || s[i] == b,
    ensures
        find_byte(s, b) == (if i == s.len() { -1 } else { i }),
{
    lemma_find_byte(s, b);
    if find_byte(s, b) >= 0 && find_byte(s, b) < i {
        assert(s[find_byte(s, b)] == b);
    }
}

/// Where the colon of `line` is, when it has one.
fn colon_at(line: &[u8]) -> (r: Option<usize>)
    ensures
        match r {
            Some(c) => find_colon(line@) == c as int && c < line@.len(),
            None => find_colon(line@) < 0,
        },
{
    proof {
        lemma_find_colon(line@);
    }
    let mut c: usize = 0;
    while c < line.len()
        invariant
            c <= line@.len(),
            -1 <= find_colon(line@) < line@.len(),
            find_colon(line@) >= 0 ==> line@[find_colon(line@)] == 58,
            forall|j: int| 0 <= j < line@.len() && (find_colon(line@) < 0 || j < find_colon(line@)) ==> line@[j] != 58,
            forall|j: int| 0 <= j < c ==> line@[j] != 58,
        decreases line@.len() - c,
    {
        if line[c] == 58 {
            proof {
                if find_colon(line@) < 0 || find_colon(line@) > c {
                    assert(line@[c as int] == 58);
                }
                if 0 <= find_colon(line@) < c {
                    assert(line@[find_colon(line@)] == 58);
                }
            }
            return Some(c);
        }
        c = c + 1;
    }
    proof {
        if find_colon(line@) >= 0 {
            assert(line@[find_colon(line@)] == 58);
        }
    }
    None
}

/// Where the line of `s` in `[a, b)` ends once its line ending is
/// dropped.
fn chomp_end(s: &[u8], a: usize, b: usize) -> (e: usize)
    requires
        a <= b <= s@.len(),
    ensures
        a <= e <= b,
        s@.subrange(a as int, e as int) == chomp(s@.subrange(a as int, b as int)),
{
    let ghost line = s@.subrange(a as int, b as int);
    if b > a && s[b - 1] == 10 {
        assert(line.last() == s@[b - 1]);
        assert(line.drop_last() =~= s@.subrange(a as int, b - 1));
        if b - 1 > a && s[b - 2] == 13 {
            assert(line.drop_last().last() == s@[b - 2]);
            assert(line.drop_last().drop_last() =~= s@.subrange(a as int, b - 2));
            b - 2
        } else {
            proof {
                if b - 1 > a {
                    assert(line.drop_last().last() == s@[b - 2]);
                }
            }
            b - 1
        }
    } else {
        proof {
            if b > a {
                assert(line.last() == s@[b - 1]);
            }
        }
        b
    }
}

/// The value of the first header field of `contents` named `name`, up
/// to ASCII case, continuation lines unfolded.
fn field_value_of(contents: &[u8], name: &[u8]) -> (r: Option<Vec<u8>>)
    ensures
        match r {
            Some(v) => field_value(lines_of(contents@), name@) == Some(v@),
            None => field_value(lines_of(contents@), name@) is None,
        },
{
    let mut names: Vec<Vec<u8>> = Vec::new();
    names.push(slice_prefix(name, name.len()));
    assert(name@.take(name@.len() as int) =~= name@);
    assert(names@.map_values(|n: Vec<u8>| n@) =~= seq![name@]);
    let mut i: usize = 0;
    proof {
        assert(contents@.skip(0) =~= contents@);
    }
    while i < contents.len()
        invariant
            i <= contents@.len(),
            names@.map_values(|n: Vec<u8>| n@) == seq![name@],
            field_value(lines_of(contents@), name@) == field_value(lines_of(contents@.skip(i as int)), name@),
        decreases contents@.len() - i,
    {
        let ghost t = contents@.skip(i as int);
        let j = line_end(contents, i);
        proof {
            lemma_lines_of_unfold(t);
            assert(t.take(j - i) =~= contents@.subrange(i as int, j as int));
            assert(t.skip(j - i) =~= contents@.skip(j as int));
            assert(lines_of(t)[0] == contents@.subrange(i as int, j as int));
            assert(lines_of(t).drop_first() =~= lines_of(contents@.skip(j as int)));
        }
        let ghost line = contents@.subrange(i as int, j as int);
        proof {
            assert(line.len() > 0);
            assert(line[0] == contents@[i as int]);
        }
        let blank = (j - i == 1 && contents[i] == 10) || (j - i == 2 && contents[i] == 13 && contents[i + 1] == 10);
        proof {
            if j - i == 1 && contents@[i as int] == 10 {
                assert(line =~= seq![10u8]);
            }
            if j - i == 2 && contents@[i as int] == 13 && contents@[i + 1] == 10 {
                assert(line =~= seq![13u8, 10u8]);
            }
            if is_blank(line) {
                if line.len() == 2 {
                    assert(line[1] == contents@[i + 1]);
                }
            }
            assert(blank == is_blank(line));
        }
        if blank {
            return None;
        }
        if contents[i] != 32 && contents[i] != 9 {
            let line_bytes = slice_range(contents, i, j);
            if is_field_named(line_bytes.as_slice(), &names) {
                let c = match colon_at(line_bytes.as_slice()) {
                    Some(c) => c,
                    None => {
                        assert(false);
                        0
                    },
                };
                let e = chomp_end(contents, i, j);
                proof {
                    lemma_find_colon(line);
                    assert(line_bytes@ == line);
                    assert(c < line.len());
                    assert(contents@[i + c] == line[c as int]);
                    assert(line[c as int] == 58);
                    if i + c >= e {
                        // The colon is not part of the line ending.
                        assert(contents@[i + c] == 10 || contents@[i + c] == 13);
                    }
                }
                let mut value: Vec<u8> = Vec::new();
                push_range(&mut value, contents, i + c + 1, e);
                proof {
                    assert(value@ =~= chomp(line).skip(c + 1));
                }
                let ghost head = value@;
                let mut k: usize = j;
                proof {
                    assert(head + unfolded(lines_of(contents@.skip(k as int))) == value@ + unfolded(
                        lines_of(contents@.skip(j as int)),
                    ));
                }
                while k < contents.len() && (contents[k] == 32 || contents[k] == 9)
                    invariant
                        j <= k <= contents@.len(),
                        value@ + unfolded(lines_of(contents@.skip(k as int))) == head + unfolded(
                            lines_of(contents@.skip(j as int)),
                        ),
                    decreases contents@.len() - k,
                {
                    let ghost u = contents@.skip(k as int);
                    let k2 = line_end(contents, k);
                    proof {
                        lemma_lines_of_unfold(u);
                        assert(u.take(k2 - k) =~= contents@.subrange(k as int, k2 as int));
                        assert(u.skip(k2 - k) =~= contents@.skip(k2 as int));
                        assert(lines_of(u)[0] == contents@.subrange(k as int, k2 as int));
                        assert(lines_of(u).drop_first() =~= lines_of(contents@.skip(k2 as int)));
                        assert(contents@.subrange(k as int, k2 as int)[0] == contents@[k as int]);
                        assert(is_continuation(lines_of(u)[0]));
                    }
                    let ghost before = value@;
                    let e2 = chomp_end(contents, k, k2);
                    push_range(&mut value, contents, k, e2);
                    proof {
                        assert(value@ =~= before + chomp(contents@.subrange(k as int, k2 as int)));
                        assert(unfolded(lines_of(u)) == chomp(contents@.subrange(k as int, k2 as int)) + unfolded(
                            lines_of(contents@.skip(k2 as int)),
                        ));
                        assert(value@ + unfolded(lines_of(contents@.skip(k2 as int))) =~= before + unfolded(
                            lines_of(u),
                        ));
                    }
                    k = k2;
                }
                proof {
                    let u = contents@.skip(k as int);
                    if k < contents@.len() {
                        lemma_lines_of_unfold(u);
                        assert(lines_of(u)[0][0] == u[0]);
                        assert(!is_continuation(lines_of(u)[0]));
                    } else {
                        assert(u.len() == 0);
                    }
                    assert(unfolded(lines_of(u)) =~= Seq::<u8>::empty());
                    assert(value@ =~= head + unfolded(lines_of(contents@.skip(j as int))));
                }
                return Some(value);
            }
        }
        proof {
            assert(line[0] == contents@[i as int]);
        }
        i = j;
    }
    proof {
        assert(contents@.skip(i as int) =~= Seq::<u8>::empty());
    }
    None
}


/// Dropping `k` leading white space bytes, up to a byte that is none,
/// is trimming the front.
proof fn lemma_trim_front(s: Seq<u8>, k: int)
    requires
        0 <= k <= s.len(),
        forall|j: int| 0 <= j < k ==> is_space_byte(#[trigger] s[j]),
        k == s.len() || !is_space_byte(s[k]),
    ensures
        trim_front(s) == s.skip(k),
    decreases k,
{
    if k == 0 {
        assert(s.skip(0) =~= s);
    } else {
        assert(is_space_byte(s[0]));
        assert forall|j: int| 0 <= j < k - 1 implies is_space_byte(#[trigger] s.drop_first()[j]) by {
            assert(s.drop_first()[j] == s[j + 1]);
        }
        if k - 1 < s.drop_first().len() {
            assert(s.drop_first()[k - 1] == s[k]);
        }
        lemma_trim_front(s.drop_first(), k - 1);
        assert(s.drop_first().skip(k - 1) =~= s.skip(k));
    }
}

/// Keeping the first `k` bytes, when all after them are white space
/// and the last kept is none, is trimming the back.
proof fn lemma_trim_back(s: Seq<u8>, k: int)
    requires
        0 <= k <= s.len(),
        forall|j: int| k <= j < s.len() ==> is_space_byte(#[trigger] s[j]),
        k == 0 || !is_space_byte(s[k - 1]),
    ensures
        trim_back(s) == s.take(k),
    decreases s.len() - k,
{
    if k == s.len() {
        assert(s.take(k) =~= s);
    } else {
        assert(is_space_byte(s.last()));
        assert forall|j: int| k <= j < s.drop_last().len() implies is_space_byte(#[trigger] s.drop_last()[j]) by {
            assert(s.drop_last()[j] == s[j]);
        }
        if k > 0 {
            assert(s.drop_last()[k - 1] == s[k - 1]);
        }
        lemma_trim_back(s.drop_last(), k);
        assert(s.drop_last().take(k) =~= s.take(k));
    }
}

/// The keyword the piece of `v` in `[a, b)` spells, when it spells one.
fn piece_keyword(v: &[u8], a: usize, b: usize) -> (r: Option<String>)
    requires
        a <= b <= v@.len(),
    ensures
        ({
            let t = trim_back(trim_front(v@.subrange(a as int, b as int)));
            match r {
                Some(k) => t.len() > 0 && valid_utf8(t) && k@ == decode_utf8(t),
                None => !(t.len() > 0 && valid_utf8(t)),
            }
        }),
{
    let ghost p = v@.subrange(a as int, b as int);
    let mut x: usize = a;
    while x < b && (v[x] == 32 || v[x] == 9 || v[x] == 13 || v[x] == 10)
        invariant
            a <= x <= b <= v@.len(),
            forall|j: int| a <= j < x ==> is_space_byte(#[trigger] v@[j]),
        decreases b - x,
    {
        x = x + 1;
    }
    proof {
        assert forall|j: int| 0 <= j < x - a implies is_space_byte(#[trigger] p[j]) by {
            assert(p[j] == v@[a + j]);
        }
        if x < b {
            assert(p[x - a] == v@[x as int]);
        }
        lemma_trim_front(p, x - a);
    }
    let ghost f = p.skip(x - a);
    assert(f =~= v@.subrange(x as int, b as int));
    let mut y: usize = b;
    while y > x && (v[y - 1] == 32 || v[y - 1] == 9 || v[y - 1] == 13 || v[y - 1] == 10)
        invariant
            a <= x <= y <= b <= v@.len(),
            forall|j: int| y <= j < b ==> is_space_byte(#[trigger] v@[j]),
        decreases y - x,
    {
        y = y - 1;
    }
    proof {
        assert forall|j: int| y - x <= j < f.len() implies is_space_byte(#[trigger] f[j]) by {
            assert(f[j] == v@[x + j]);
        }
        if y > x {
            assert(f[y - x - 1] == v@[y - 1]);
        }
        lemma_trim_back(f, y - x);
        assert(f.take(y - x) =~= v@.subrange(x as int, y as int));
    }
    if x < y {
        let piece = slice_range(v, x, y);
        match crate::text::decode_text(piece.as_slice()) {
            Some(text) => Some(text.to_owned()),
            None => None,
        }
    } else {
        None
    }
}

/// Cutting at the first separator splits off the first piece.
proof fn lemma_split_step(s: Seq<u8>, sep: u8, j: int)
    requires
        0 <= j <= s.len(),
        forall|k: int| 0 <= k < j ==> s[k] != sep,
        j == s.len() || s[j] == sep,
    ensures
        split_bytes(s, sep) == (if j == s.len() {
            seq![s]
        } else {
            seq![s.take(j)] + split_bytes(s.skip(j + 1), sep)
        }),
{
    lemma_find_byte_at(s, sep, j);
}

/// The keywords the header value `v` carries, cut at `sep`.
fn value_keywords(v: &[u8], sep: u8) -> (r: Vec<String>)
    ensures
        string_views(r@) == piece_keywords(split_bytes(v@, sep)),
{
    let ghost all = piece_keywords(split_bytes(v@, sep));
    let mut out: Vec<String> = Vec::new();
    let mut start: usize = 0;
    let mut done = false;
    proof {
        assert(v@.skip(0) =~= v@);
        assert(string_views(out@) =~= Seq::<Seq<char>>::empty());
    }
    while !done
        invariant
            start <= v@.len(),
            done ==> string_views(out@) == all,
            !done ==> string_views(out@) + piece_keywords(split_bytes(v@.skip(start as int), sep)) == all,
        decreases v@.len() - start + (if done {
            0int
        } else {
            1int
        }),
    {
        let ghost rest = v@.skip(start as int);
        let mut j: usize = start;
        while j < v.len() && v[j] != sep
            invariant
                start <= j <= v@.len(),
                forall|k: int| start <= k < j ==> v@[k] != sep,
            decreases v@.len() - j,
        {
            j = j + 1;
        }
        proof {
            assert forall|k: int| 0 <= k < j - start implies rest[k] != sep by {
                assert(rest[k] == v@[start + k]);
            }
            if j < v@.len() {
                assert(rest[j - start] == v@[j as int]);
            }
            lemma_split_step(rest, sep, j - start);
            if j < v@.len() {
                assert(rest.take(j - start) =~= v@.subrange(start as int, j as int));
                assert(rest.skip(j - start + 1) =~= v@.skip(j + 1));
            } else {
                assert(rest =~= v@.subrange(start as int, j as int));
            }
        }
        let ghost ps = split_bytes(rest, sep);
        let ghost before = string_views(out@);
        let kw = piece_keyword(v, start, j);
        match kw {
            Some(k) => {
                out.push(k);
            },
            None => {},
        }
        proof {
            let t = trim_back(trim_front(v@.subrange(start as int, j as int)));
            assert(ps[0] == v@.subrange(start as int, j as int));
            let head = if t.len() > 0 && valid_utf8(t) {
                seq![decode_utf8(t)]
            } else {
                Seq::empty()
            };
            assert(piece_keywords(ps) == head + piece_keywords(ps.drop_first()));
            assert(string_views(out@) =~= before + head);
            if j < v@.len() {
                assert(ps.drop_first() =~= split_bytes(v@.skip(j + 1), sep));
            } else {
                assert(ps.drop_first() =~= Seq::<Seq<u8>>::empty());
            }
        }
        if j == v.len() {
            done = true;
        } else {
            start = j + 1;
        }
    }
    out
}

/// Reads the custom keywords `contents` carries in header `header`:
/// the value of its first such field in the header section, cut at the
/// header's separator, each piece trimmed of white space; empty pieces
/// and pieces that are not UTF-8 are skipped.
pub fn extract_keywords_header(contents: &[u8], header: KeywordHeader) -> (r: Vec<String>)
    ensures
        string_views(r@) == extract_keywords_spec(contents@, header),
{
    let name = header.header_name().as_bytes_vec();
    let sep: u8 = match header {
        KeywordHeader::XKeywords => 44,
        KeywordHeader::XLabel => 32,
    };
    match field_value_of(contents, name.as_slice()) {
        Some(v) => value_keywords(v.as_slice(), sep),
        None => {
            let out: Vec<String> = Vec::new();
            assert(string_views(out@) =~= Seq::<Seq<char>>::empty());
            out
        },
    }
}

} // verus!

verus! {

/// ASCII white space, as a character.
pub open spec fn is_space_char(c: char) -> bool {
    c == ' ' || c == '\t' || c == '\r' || c == '\n'
}

/// `s` holds no `c`.
pub open spec fn lacks_char(s: Seq<char>, c: char) -> bool {
    forall|i: int| 0 <= i < s.len() ==> s[i] != c
}

/// `s` holds no byte `b`.
pub open spec fn lacks_byte(s: Seq<u8>, b: u8) -> bool {
    forall|i: int| 0 <= i < s.len() ==> s[i] != b
}

proof fn lemma_low_scalar(v: u32)
    by (bit_vector)
    requires
        v <= 0x7F,
    ensures
        ((v & 0x7F) as u8) as u32 == v,
{
}

proof fn lemma_high_bytes(v: u32)
    by (bit_vector)
    ensures
        (0xC0u8 | ((v >> 6) & 0x1F) as u8) >= 0x80u8,
        (0xE0u8 | ((v >> 12) & 0x0F) as u8) >= 0x80u8,
        (0xF0u8 | ((v >> 18) & 0x7) as u8) >= 0x80u8,
        (0x80u8 | (v & 0x3F) as u8) >= 0x80u8,
        (0x80u8 | ((v >> 6) & 0x3F) as u8) >= 0x80u8,
        (0x80u8 | ((v >> 12) & 0x3F) as u8) >= 0x80u8,
{
}

/// A character below 128 encodes as its own code; any other as bytes
/// of 128 and up.
proof fn lemma_encode_scalar_bytes(c: char)
    ensures
        encode_scalar(c as u32).len() > 0,
        (c as u32) < 128 ==> encode_scalar(c as u32) == seq![(c as u32) as u8] && ((c as u32) as u8) as u32
            == c as u32,
        (c as u32) >= 128 ==> forall|i: int| 0 <= i < encode_scalar(c as u32).len() ==> #[trigger] encode_scalar(c as u32)[i] >= 128,
{
    let v = c as u32;
    lemma_high_bytes(v);
    if v < 128 {
        lemma_low_scalar(v);
    }
}

/// Encoding distributes over concatenation.
pub proof fn lemma_encode_concat(a: Seq<char>, b: Seq<char>)
    ensures
        encode_utf8(a + b) == encode_utf8(a) + encode_utf8(b),
    decreases a.len(),
{
    if a.len() == 0 {
        assert(a + b =~= b);
    } else {
        assert((a + b)[0] == a[0]);
        assert((a + b).drop_first() =~= a.drop_first() + b);
        lemma_encode_concat(a.drop_first(), b);
    }
}

/// A one-character sequence encodes as its character.
proof fn lemma_encode_single(c: char)
    ensures
        encode_utf8(seq![c]) == encode_scalar(c as u32),
{
    let s = seq![c];
    assert(s[0] == c);
    assert(s.drop_first() =~= Seq::<char>::empty());
    assert(encode_utf8(s.drop_first()) =~= Seq::<u8>::empty());
    assert(encode_utf8(s) =~= encode_scalar(c as u32) + Seq::<u8>::empty());
}

/// A one-character sequence below 128 encodes as its code.
pub(crate) proof fn lemma_encode_one(c: char)
    requires
        (c as u32) < 128,
    ensures
        encode_utf8(seq![c]) == seq![(c as u32) as u8],
{
    lemma_encode_scalar_bytes(c);
    lemma_encode_single(c);
}

/// A byte below 128 shows in an encoding only where its character shows.
pub(crate) proof fn lemma_encode_lacks(s: Seq<char>, c: char)
    requires
        (c as u32) < 128,
        lacks_char(s, c),
    ensures
        lacks_byte(encode_utf8(s), (c as u32) as u8),
    decreases s.len(),
{
    if s.len() > 0 {
        lemma_encode_scalar_bytes(s[0]);
        lemma_encode_scalar_bytes(c);
        assert(lacks_char(s.drop_first(), c)) by {
            assert forall|i: int| 0 <= i < s.drop_first().len() implies s.drop_first()[i] != c by {
                assert(s.drop_first()[i] == s[i + 1]);
            }
        }
        lemma_encode_lacks(s.drop_first(), c);
        let e = encode_scalar(s[0] as u32);
        let r = encode_utf8(s.drop_first());
        assert forall|i: int| 0 <= i < encode_utf8(s).len() implies encode_utf8(s)[i] != (c as u32) as u8 by {
            assert(encode_utf8(s) == e + r);
            if i < e.len() {
                assert(encode_utf8(s)[i] == e[i]);
                if (s[0] as u32) < 128 {
                    assert(s[0] != c);
                    assert(e[i] == (s[0] as u32) as u8);
                    if (s[0] as u32) == (c as u32) {
                        lemma_char_code_eq(s[0], c);
                    }
                } else {
                    assert(e[i] >= 128);
                }
            } else {
                assert(encode_utf8(s)[i] == r[i - e.len()]);
            }
        }
    }
}

/// Characters with one code are one character.
proof fn lemma_char_code_eq(a: char, b: char)
    requires
        a as u32 == b as u32,
    ensures
        a == b,
{
    vstd::utf8::char_u32_cast(a, a as u32);
    vstd::utf8::char_u32_cast(b, b as u32);
}

/// The codes of the ASCII characters the header text is made of.
pub(crate) proof fn lemma_char_codes()
    ensures
        (' ' as u32) == 32,
        ('\t' as u32) == 9,
        ('\r' as u32) == 13,
        ('\n' as u32) == 10,
        (',' as u32) == 44,
        (':' as u32) == 58,
{
}

/// The first byte of an encoding is white space only when the first
/// character is.
pub(crate) proof fn lemma_encode_first(s: Seq<char>)
    requires
        s.len() > 0,
    ensures
        encode_utf8(s).len() > 0,
        is_space_byte(encode_utf8(s)[0]) ==> is_space_char(s[0]),
{
    lemma_encode_scalar_bytes(s[0]);
    lemma_char_codes();
    assert(encode_utf8(s) == encode_scalar(s[0] as u32) + encode_utf8(s.drop_first()));
    assert(encode_utf8(s)[0] == encode_scalar(s[0] as u32)[0]);
    if (s[0] as u32) < 128 && is_space_byte(encode_utf8(s)[0]) {
        let b = encode_utf8(s)[0];
        assert(b == 32 || b == 9 || b == 13 || b == 10);
        assert(encode_scalar(s[0] as u32)[0] == (s[0] as u32) as u8);
        assert(s[0] as u32 == b as u32);
        if b == 32 {
            lemma_char_code_eq(s[0], ' ');
        } else if b == 9 {
            lemma_char_code_eq(s[0], '\t');
        } else if b == 13 {
            lemma_char_code_eq(s[0], '\r');
        } else {
            lemma_char_code_eq(s[0], '\n');
        }
    }
}

/// The last byte of an encoding is white space only when the last
/// character is.
proof fn lemma_encode_last(s: Seq<char>)
    requires
        s.len() > 0,
    ensures
        encode_utf8(s).len() > 0,
        is_space_byte(encode_utf8(s).last()) ==> is_space_char(s.last()),
{
    let a = s.drop_last();
    let c = s.last();
    assert(s =~= a + seq![c]);
    lemma_encode_concat(a, seq![c]);
    lemma_encode_scalar_bytes(c);
    lemma_encode_single(c);
    lemma_char_codes();
    let e = encode_scalar(c as u32);
    assert(encode_utf8(s).last() == e.last());
    if (c as u32) < 128 && is_space_byte(e.last()) {
        let b = e.last();
        assert(c as u32 == b as u32);
        if b == 32 {
            lemma_char_code_eq(c, ' ');
        } else if b == 9 {
            lemma_char_code_eq(c, '\t');
        } else if b == 13 {
            lemma_char_code_eq(c, '\r');
        } else {
            lemma_char_code_eq(c, '\n');
        }
    }
}


/// A keyword a header field carries unchanged: not empty, neither
/// starting nor ending with white space, and holding no line feed.
pub open spec fn header_safe(k: Seq<char>) -> bool {
    &&& k.len() > 0
    &&& !is_space_char(k[0])
    &&& !is_space_char(k.last())
    &&& lacks_char(k, '\n')
}

/// A first line ending at its only line feed splits off whole.
pub(crate) proof fn lemma_lines_first(line: Seq<u8>, rest: Seq<u8>)
    requires
        line.len() > 0,
        line.last() == 10,
        lacks_byte(line.drop_last(), 10),
    ensures
        lines_of(line + rest) == seq![line] + lines_of(rest),
{
    let s = line + rest;
    lemma_lines_of_unfold(s);
    lemma_find_lf(s);
    let k = line.len() - 1;
    assert(s[k] == 10);
    if find_lf(s) >= 0 && find_lf(s) < k {
        assert(s[find_lf(s)] == line.drop_last()[find_lf(s)]);
    }
    assert(find_lf(s) == k);
    assert(s.take(line.len() as int) =~= line);
    assert(s.skip(line.len() as int) =~= rest);
}

/// Bytes not opening with a space or a tab start no continuation.
pub(crate) proof fn lemma_unfolded_none(c: Seq<u8>)
    requires
        !is_continuation(c),
    ensures
        unfolded(lines_of(c)) == Seq::<u8>::empty(),
{
    if c.len() > 0 {
        lemma_lines_of_unfold(c);
        assert(lines_of(c)[0] == c.take(first_line_end(c)));
        assert(lines_of(c)[0][0] == c[0]);
    } else {
        assert(lines_of(c) =~= Seq::<Seq<u8>>::empty());
    }
}

/// Bytes holding no separator are one piece.
pub(crate) proof fn lemma_split_single(a: Seq<u8>, sep: u8)
    requires
        lacks_byte(a, sep),
    ensures
        split_bytes(a, sep) == seq![a],
{
    lemma_find_byte_at(a, sep, a.len() as int);
}

/// Cutting at a separator between two parts gives the pieces of each.
pub(crate) proof fn lemma_split_concat(a: Seq<u8>, b: Seq<u8>, sep: u8)
    ensures
        split_bytes(a + seq![sep] + b, sep) == split_bytes(a, sep) + split_bytes(b, sep),
    decreases a.len(),
{
    let s = a + seq![sep] + b;
    lemma_find_byte(a, sep);
    if find_byte(a, sep) < 0 {
        assert forall|j: int| 0 <= j < a.len() implies s[j] != sep by {
            assert(s[j] == a[j]);
        }
        assert(s[a.len() as int] == sep);
        lemma_find_byte_at(s, sep, a.len() as int);
        lemma_find_byte_at(a, sep, a.len() as int);
        assert(s.take(a.len() as int) =~= a);
        assert(s.skip(a.len() as int + 1) =~= b);
    } else {
        let i = find_byte(a, sep);
        assert forall|j: int| 0 <= j < i implies s[j] != sep by {
            assert(s[j] == a[j]);
        }
        assert(s[i] == a[i]);
        lemma_find_byte_at(s, sep, i);
        assert(s.take(i) =~= a.take(i));
        assert(s.skip(i + 1) =~= a.skip(i + 1) + seq![sep] + b);
        lemma_split_concat(a.skip(i + 1), b, sep);
        assert(split_bytes(a, sep) == seq![a.take(i)] + split_bytes(a.skip(i + 1), sep));
        assert(seq![a.take(i)] + (split_bytes(a.skip(i + 1), sep) + split_bytes(b, sep)) =~= (seq![a.take(i)]
            + split_bytes(a.skip(i + 1), sep)) + split_bytes(b, sep));
    }
}

/// The keywords of two runs of pieces are those of each.
pub(crate) proof fn lemma_piece_keywords_concat(p: Seq<Seq<u8>>, q: Seq<Seq<u8>>)
    ensures
        piece_keywords(p + q) == piece_keywords(p) + piece_keywords(q),
    decreases p.len(),
{
    if p.len() == 0 {
        assert(p + q =~= q);
    } else {
        assert((p + q)[0] == p[0]);
        assert((p + q).drop_first() =~= p.drop_first() + q);
        lemma_piece_keywords_concat(p.drop_first(), q);
        let t = trim_back(trim_front(p[0]));
        let head = if t.len() > 0 && valid_utf8(t) {
            seq![decode_utf8(t)]
        } else {
            Seq::empty()
        };
        assert(head + (piece_keywords(p.drop_first()) + piece_keywords(q)) =~= (head + piece_keywords(
            p.drop_first(),
        )) + piece_keywords(q));
    }
}

/// The piece a safe keyword encodes to, with or without one leading
/// space, spells that keyword; an empty piece spells none.
pub(crate) proof fn lemma_piece_of_keyword(k: Seq<char>)
    requires
        header_safe(k),
    ensures
        piece_keywords(seq![encode_utf8(k)]) == seq![k],
        piece_keywords(seq![seq![32u8] + encode_utf8(k)]) == seq![k],
        piece_keywords(seq![Seq::<u8>::empty()]) == Seq::<Seq<char>>::empty(),
{
    let e = encode_utf8(k);
    lemma_encode_first(k);
    lemma_encode_last(k);
    vstd::utf8::encode_utf8_valid_utf8(k);
    vstd::utf8::encode_utf8_decode_utf8(k);
    assert(trim_front(e) == e);
    assert(trim_back(e) == e);
    let sp = seq![32u8] + e;
    assert(sp[0] == 32);
    assert(sp.drop_first() =~= e);
    assert(trim_front(sp) == trim_front(e));
    let one = seq![e];
    assert(one[0] == e);
    assert(one.drop_first() =~= Seq::<Seq<u8>>::empty());
    assert(piece_keywords(one.drop_first()) =~= Seq::<Seq<char>>::empty());
    assert(trim_back(trim_front(one[0])) == e);
    assert(piece_keywords(one) =~= seq![k]);
    let two = seq![sp];
    assert(two.drop_first() =~= Seq::<Seq<u8>>::empty());
    assert(piece_keywords(two) =~= seq![k]);
    let z = seq![Seq::<u8>::empty()];
    assert(z.drop_first() =~= Seq::<Seq<u8>>::empty());
    assert(trim_front(Seq::<u8>::empty()) =~= Seq::<u8>::empty());
    assert(piece_keywords(z) =~= Seq::<Seq<char>>::empty());
}


/// The bytes of the line `name: v` that putting a field first adds.
pub open spec fn field_line(name: Seq<char>, v: Seq<char>) -> Seq<u8> {
    encode_utf8(name + seq![':', ' '] + v + seq!['\r', '\n'])
}

/// The line a field put first makes is the first line of the message,
/// a field line whose name is `name` and whose value is a space then
/// `v`.
proof fn lemma_field_line(contents: Seq<u8>, name: Seq<char>, v: Seq<char>)
    requires
        name.len() > 0,
        !is_space_char(name[0]),
        lacks_char(name, ':'),
        lacks_char(name, '\n'),
        lacks_char(v, '\n'),
    ensures
        inject_header_spec(contents, name, v) == field_line(name, v) + contents,
        lines_of(field_line(name, v) + contents) == seq![field_line(name, v)] + lines_of(contents),
        !is_blank(field_line(name, v)),
        !is_continuation(field_line(name, v)),
        find_colon(field_line(name, v)) == encode_utf8(name).len(),
        field_line(name, v).take(encode_utf8(name).len() as int) == encode_utf8(name),
        chomp(field_line(name, v)).skip(encode_utf8(name).len() as int + 1) == seq![32u8] + encode_utf8(v),
{
    let ne = encode_utf8(name);
    lemma_char_codes();
    lemma_encode_lacks(name, '\n');
    lemma_encode_lacks(name, ':');
    lemma_encode_lacks(v, '\n');
    lemma_encode_first(name);
    let cs = seq![':', ' '];
    let crlf = seq!['\r', '\n'];
    assert(cs =~= seq![':'] + seq![' ']);
    assert(crlf =~= seq!['\r'] + seq!['\n']);
    lemma_encode_concat(seq![':'], seq![' ']);
    lemma_encode_concat(seq!['\r'], seq!['\n']);
    lemma_encode_one(':');
    lemma_encode_one(' ');
    lemma_encode_one('\r');
    lemma_encode_one('\n');
    let ve = encode_utf8(v);
    assert(encode_utf8(cs) =~= seq![58u8, 32u8]);
    assert(encode_utf8(crlf) =~= seq![13u8, 10u8]);
    lemma_encode_concat(name, cs);
    lemma_encode_concat(name + cs, v);
    lemma_encode_concat(name + cs + v, crlf);
    let line = ne + seq![58u8, 32u8] + ve + seq![13u8, 10u8];
    assert(field_line(name, v) =~= line);
    let body = ne + seq![58u8, 32u8] + ve;
    assert(line.drop_last() =~= body + seq![13u8]);
    assert(lacks_byte(line.drop_last(), 10)) by {
        assert forall|i: int| 0 <= i < line.drop_last().len() implies line.drop_last()[i] != 10 by {
            if i < ne.len() {
                assert(line.drop_last()[i] == ne[i]);
            } else if i < ne.len() + 2 {
            } else if i < body.len() {
                assert(line.drop_last()[i] == ve[i - ne.len() - 2]);
            }
        }
    }
    lemma_lines_first(line, contents);
    assert(line.len() >= 4);
    assert(line[0] == ne[0]);
    lemma_find_colon(line);
    let c = ne.len() as int;
    assert(line[c] == 58);
    if find_colon(line) >= 0 && find_colon(line) < c {
        assert(line[find_colon(line)] == ne[find_colon(line)]);
    }
    assert(line.take(c) =~= ne);
    assert(line.last() == 10);
    assert(line.drop_last().last() == 13);
    assert(chomp(line) =~= body);
    assert(chomp(line).skip(c + 1) =~= seq![32u8] + ve);
}

/// The field `name: v` put first in `contents` is the field a read of
/// header `h` finds, its value a space then `v`.
pub(crate) proof fn lemma_extract_injected(h: KeywordHeader, v: Seq<char>, contents: Seq<u8>)
    requires
        lacks_char(v, '\n'),
        !is_continuation(contents),
    ensures
        extract_keywords_spec(inject_header_spec(contents, header_name_spec(h), v), h) == piece_keywords(
            split_bytes(seq![32u8] + encode_utf8(v), separator_byte(h)),
        ),
{
    let name = header_name_spec(h);
    let ne = encode_utf8(name);
    lemma_char_codes();
    assert(lacks_char(name, '\n') && lacks_char(name, ':') && name.len() > 0 && !is_space_char(name[0]));
    lemma_field_line(contents, name, v);
    let line = field_line(name, v);
    let ls = lines_of(line + contents);
    assert(ls[0] == line);
    assert(ls.drop_first() =~= lines_of(contents));
    let c = ne.len() as int;
    assert(ascii_ci_eq(line.take(c), seq![ne][0]));
    assert(field_named(line, seq![ne]));
    lemma_unfolded_none(contents);
    assert(field_value(ls, ne) == Some(chomp(line).skip(c + 1) + unfolded(ls.drop_first())));
    assert(seq![32u8] + encode_utf8(v) + Seq::<u8>::empty() =~= seq![32u8] + encode_utf8(v));
}

/// Reading a header section from a line that continues no field, the
/// field dropped before it no longer matters.
proof fn lemma_strip_fresh(ls: Seq<Seq<u8>>, names: Seq<Seq<u8>>)
    requires
        ls.len() == 0 || !is_continuation(ls[0]),
    ensures
        strip_lines(ls, names, true, true) == strip_lines(ls, names, true, false),
{
    if ls.len() > 0 && is_blank(ls[0]) {
        lemma_strip_body(ls.drop_first(), names, true);
        lemma_strip_body(ls.drop_first(), names, false);
    }
}

/// A field put first and then stripped by name leaves the message as
/// stripping alone would.
pub(crate) proof fn lemma_strip_injected(contents: Seq<u8>, name: Seq<char>, v: Seq<char>, names: Seq<String>)
    requires
        name.len() > 0,
        !is_space_char(name[0]),
        lacks_char(name, ':'),
        lacks_char(name, '\n'),
        lacks_char(v, '\n'),
        exists|k: int| 0 <= k < names.len() && #[trigger] names[k]@ == name,
        !is_continuation(contents),
    ensures
        strip_headers_spec(inject_header_spec(contents, name, v), names) == strip_headers_spec(contents, names),
{
    let ne = encode_utf8(name);
    lemma_field_line(contents, name, v);
    let line = field_line(name, v);
    let ls = lines_of(line + contents);
    assert(ls[0] == line);
    assert(ls.drop_first() =~= lines_of(contents));
    let c = ne.len() as int;
    let nb = names_bytes(names);
    let k = choose|k: int| 0 <= k < names.len() && #[trigger] names[k]@ == name;
    assert(nb[k] == ne);
    assert(ascii_ci_eq(line.take(c), nb[k]));
    assert(field_named(line, nb));
    let rest = lines_of(contents);
    if contents.len() > 0 {
        lemma_lines_of_unfold(contents);
        assert(rest[0][0] == contents[0]);
    } else {
        assert(rest =~= Seq::<Seq<u8>>::empty());
    }
    lemma_strip_fresh(rest, nb);
    assert(strip_lines(ls, nb, true, false) == Seq::<u8>::empty() + strip_lines(rest, nb, true, true));
    assert(Seq::<u8>::empty() + strip_lines(rest, nb, true, true) =~= strip_lines(rest, nb, true, true));
}

} // verus!
