//! Character-level text primitives.
//!
//! A text is modelled as its sequence of characters. The executable functions
//! work on a decoded `Vec<char>` and name parts of it by index ranges, so that a
//! document is decoded once however many lines and fields are read from it.

use vstd::prelude::*;
use vstd::utf8::encode_utf8;

verus! {

/// `String::push` appends the given character at the end of the string.
pub assume_specification[ String::push ](s: &mut String, c: char)
    ensures
        final(s)@ == old(s)@.push(c),
;

/// The number of bytes a text takes in UTF-8.
pub open spec fn byte_len(s: Seq<char>) -> nat {
    encode_utf8(s).len()
}

/// The characters with the Unicode `White_Space` property.
pub open spec fn is_whitespace(c: char) -> bool {
    ||| '\u{9}' <= c <= '\u{d}'
    ||| c == ' '
    ||| c == '\u{85}'
    ||| c == '\u{a0}'
    ||| c == '\u{1680}'
    ||| '\u{2000}' <= c <= '\u{200a}'
    ||| c == '\u{2028}'
    ||| c == '\u{2029}'
    ||| c == '\u{202f}'
    ||| c == '\u{205f}'
    ||| c == '\u{3000}'
}

/// `s` without its leading whitespace.
pub open spec fn trim_start(s: Seq<char>) -> Seq<char>
    decreases s.len(),
{
    if s.len() > 0 && is_whitespace(s[0]) {
        trim_start(s.drop_first())
    } else {
        s
    }
}

/// `s` without its trailing whitespace.
pub open spec fn trim_end(s: Seq<char>) -> Seq<char>
    decreases s.len(),
{
    if s.len() > 0 && is_whitespace(s.last()) {
        trim_end(s.drop_last())
    } else {
        s
    }
}

/// `s` without the whitespace around it.
pub open spec fn trim(s: Seq<char>) -> Seq<char> {
    trim_end(trim_start(s))
}

/// `s` without the run of `c` it begins with.
pub open spec fn strip_leading(s: Seq<char>, c: char) -> Seq<char>
    decreases s.len(),
{
    if s.len() > 0 && s[0] == c {
        strip_leading(s.drop_first(), c)
    } else {
        s
    }
}

/// Whether `pat` stands in `s` at index `i`.
pub open spec fn occurs_at(s: Seq<char>, pat: Seq<char>, i: int) -> bool {
    &&& 0 <= i
    &&& i + pat.len() <= s.len()
    &&& s.subrange(i, i + pat.len()) == pat
}

/// Whether `s` begins with `pat`.
pub open spec fn starts_with(s: Seq<char>, pat: Seq<char>) -> bool {
    occurs_at(s, pat, 0)
}

/// The first index from `i` on at which `pat` stands in `s`.
pub open spec fn find_from(s: Seq<char>, pat: Seq<char>, i: int) -> Option<int>
    decreases s.len() - i + 1,
{
    if i < 0 || i + pat.len() > s.len() {
        None
    } else if occurs_at(s, pat, i) {
        Some(i)
    } else {
        find_from(s, pat, i + 1)
    }
}

/// The first index at which `pat` stands in `s`.
pub open spec fn find(s: Seq<char>, pat: Seq<char>) -> Option<int> {
    find_from(s, pat, 0)
}

/// Whether `s` has nothing but whitespace.
pub open spec fn is_blank(s: Seq<char>) -> bool {
    forall|i: int| 0 <= i < s.len() ==> is_whitespace(#[trigger] s[i])
}

/// The index of the first line feed of `s`, or its length where it has none.
pub open spec fn line_end(s: Seq<char>) -> nat
    decreases s.len(),
{
    if s.len() == 0 || s[0] == '\n' {
        0
    } else {
        1 + line_end(s.drop_first())
    }
}

/// `s` without one carriage return at its end.
pub open spec fn strip_carriage_return(s: Seq<char>) -> Seq<char> {
    if s.len() > 0 && s.last() == '\r' {
        s.drop_last()
    } else {
        s
    }
}

/// The lines of `s`. A line ends at a line feed, or at a carriage return with a
/// line feed behind it; the ending of the last line is optional.
pub open spec fn lines(s: Seq<char>) -> Seq<Seq<char>>
    decreases s.len(),
{
    if s.len() == 0 {
        Seq::empty()
    } else if line_end(s) < s.len() {
        seq![strip_carriage_return(s.take(line_end(s) as int))] + lines(
            s.skip(line_end(s) as int + 1),
        )
    } else {
        seq![s]
    }
}

/// The part of `chars` that a pair of indices names.
pub open spec fn part(chars: Seq<char>, range: (usize, usize)) -> Seq<char> {
    chars.subrange(range.0 as int, range.1 as int)
}

/// Whether a pair of indices names a part of `chars`.
pub open spec fn in_bounds(chars: Seq<char>, range: (usize, usize)) -> bool {
    range.0 <= range.1 <= chars.len()
}

/// The parts of `chars` that a list of ranges names.
pub open spec fn parts(chars: Seq<char>, ranges: Seq<(usize, usize)>) -> Seq<Seq<char>> {
    Seq::new(ranges.len(), |i: int| part(chars, ranges[i]))
}

/// A found index holds an occurrence, and none stands before it; where nothing
/// is found, there is no occurrence at all.
pub proof fn lemma_find_is_first(s: Seq<char>, pat: Seq<char>)
    ensures
        match find(s, pat) {
            Some(i) => occurs_at(s, pat, i) && forall|j: int| 0 <= j < i ==> !occurs_at(s, pat, j),
            None => forall|j: int| !occurs_at(s, pat, j),
        },
{
    lemma_find_from_is_first(s, pat, 0);
}

proof fn lemma_find_from_is_first(s: Seq<char>, pat: Seq<char>, i: int)
    requires
        0 <= i,
    ensures
        match find_from(s, pat, i) {
            Some(k) => i <= k && occurs_at(s, pat, k) && forall|j: int|
                i <= j < k ==> !occurs_at(s, pat, j),
            None => forall|j: int| i <= j ==> !occurs_at(s, pat, j),
        },
    decreases s.len() - i + 1,
{
    if i + pat.len() <= s.len() && !occurs_at(s, pat, i) {
        lemma_find_from_is_first(s, pat, i + 1);
    }
}

/// A trimmed text neither begins nor ends with whitespace.
pub proof fn lemma_trim_is_trimmed(s: Seq<char>)
    ensures
        trim(s).len() > 0 ==> !is_whitespace(trim(s)[0]) && !is_whitespace(trim(s).last()),
{
    lemma_trim_start_is_trimmed(s);
    lemma_trim_end_is_trimmed(trim_start(s));
}

proof fn lemma_trim_start_is_trimmed(s: Seq<char>)
    ensures
        trim_start(s).len() > 0 ==> !is_whitespace(trim_start(s)[0]),
    decreases s.len(),
{
    if s.len() > 0 && is_whitespace(s[0]) {
        lemma_trim_start_is_trimmed(s.drop_first());
    }
}

proof fn lemma_trim_end_is_trimmed(s: Seq<char>)
    ensures
        trim_end(s).len() > 0 ==> !is_whitespace(trim_end(s).last()) && trim_end(s)[0] == s[0],
    decreases s.len(),
{
    if s.len() > 0 && is_whitespace(s.last()) {
        lemma_trim_end_is_trimmed(s.drop_last());
    }
}

/// Whether `t` stands somewhere in `s`.
pub open spec fn is_part(s: Seq<char>, t: Seq<char>) -> bool {
    exists|i: int| occurs_at(s, t, i)
}

/// A range of a text is a part of it.
pub proof fn lemma_range_is_part(s: Seq<char>, lo: int, hi: int)
    requires
        0 <= lo <= hi <= s.len(),
    ensures
        is_part(s, s.subrange(lo, hi)),
{
    assert(occurs_at(s, s.subrange(lo, hi), lo));
}

/// A part of a part of a text is a part of the text.
pub proof fn lemma_part_of_part(s: Seq<char>, t: Seq<char>, u: Seq<char>)
    requires
        is_part(s, t),
        is_part(t, u),
    ensures
        is_part(s, u),
{
    let i = choose|i: int| occurs_at(s, t, i);
    let j = choose|j: int| occurs_at(t, u, j);
    assert(s.subrange(i + j, i + j + u.len()) =~= t.subrange(j, j + u.len()));
    assert(occurs_at(s, u, i + j));
}

/// What trimming leaves of a text is a part of it.
pub proof fn lemma_trim_is_part(s: Seq<char>)
    ensures
        is_part(s, trim(s)),
{
    lemma_trim_start_is_part(s);
    lemma_trim_end_is_part(trim_start(s));
    lemma_part_of_part(s, trim_start(s), trim(s));
}

proof fn lemma_trim_start_is_part(s: Seq<char>)
    ensures
        is_part(s, trim_start(s)),
    decreases s.len(),
{
    if s.len() > 0 && is_whitespace(s[0]) {
        lemma_range_is_part(s, 1, s.len() as int);
        lemma_trim_start_is_part(s.drop_first());
        lemma_part_of_part(s, s.drop_first(), trim_start(s));
    } else {
        assert(s.subrange(0, s.len() as int) =~= s);
        lemma_range_is_part(s, 0, s.len() as int);
    }
}

proof fn lemma_trim_end_is_part(s: Seq<char>)
    ensures
        is_part(s, trim_end(s)),
    decreases s.len(),
{
    if s.len() > 0 && is_whitespace(s.last()) {
        lemma_range_is_part(s, 0, s.len() - 1);
        lemma_trim_end_is_part(s.drop_last());
        lemma_part_of_part(s, s.drop_last(), trim_end(s));
    } else {
        assert(s.subrange(0, s.len() as int) =~= s);
        lemma_range_is_part(s, 0, s.len() as int);
    }
}

/// What is left of a text behind a run of a character is a part of it.
pub proof fn lemma_strip_is_part(s: Seq<char>, c: char)
    ensures
        is_part(s, strip_leading(s, c)),
    decreases s.len(),
{
    if s.len() > 0 && s[0] == c {
        lemma_range_is_part(s, 1, s.len() as int);
        lemma_strip_is_part(s.drop_first(), c);
        lemma_part_of_part(s, s.drop_first(), strip_leading(s, c));
    } else {
        assert(s.subrange(0, s.len() as int) =~= s);
        lemma_range_is_part(s, 0, s.len() as int);
    }
}

/// A line ends no later than its text.
pub proof fn lemma_line_end_bound(s: Seq<char>)
    ensures
        line_end(s) <= s.len(),
    decreases s.len(),
{
    if s.len() > 0 && s[0] != '\n' {
        lemma_line_end_bound(s.drop_first());
    }
}

proof fn lemma_line_end_of_front(a: Seq<char>, b: Seq<char>)
    requires
        a.len() > 0,
        a.last() == '\n',
    ensures
        line_end(a) < a.len(),
        line_end(a + b) == line_end(a),
    decreases a.len(),
{
    if a[0] != '\n' {
        lemma_line_end_of_front(a.drop_first(), b);
        assert((a + b).drop_first() =~= a.drop_first() + b);
    }
}

/// Where a text ends with a line feed, the lines of what is put behind it follow its
/// own.
pub proof fn lemma_lines_append(a: Seq<char>, b: Seq<char>)
    requires
        a.len() == 0 || a.last() == '\n',
    ensures
        lines(a + b) == lines(a) + lines(b),
    decreases a.len(),
{
    if a.len() == 0 {
        assert(a + b =~= b);
        assert(lines(a) + lines(b) =~= lines(b));
    } else {
        lemma_line_end_of_front(a, b);
        let end = line_end(a) as int;
        let rest = a.skip(end + 1);
        lemma_lines_append(rest, b);
        assert((a + b).take(end) =~= a.take(end));
        assert((a + b).skip(end + 1) =~= rest + b);
        assert(lines(a + b) =~= lines(a) + lines(b));
    }
}

/// Each line of a text is a part of it.
pub proof fn lemma_line_is_part(s: Seq<char>, k: int)
    requires
        0 <= k < lines(s).len(),
    ensures
        is_part(s, lines(s)[k]),
    decreases s.len(),
{
    lemma_line_end_bound(s);
    let end = line_end(s) as int;
    if end < s.len() {
        let line = strip_carriage_return(s.take(end));
        if k == 0 {
            assert(line =~= s.subrange(0, line.len() as int));
            lemma_range_is_part(s, 0, line.len() as int);
        } else {
            let rest = s.skip(end + 1);
            assert(rest =~= s.subrange(end + 1, s.len() as int));
            lemma_range_is_part(s, end + 1, s.len() as int);
            lemma_line_is_part(rest, k - 1);
            lemma_part_of_part(s, rest, lines(rest)[k - 1]);
        }
    } else {
        assert(s.subrange(0, s.len() as int) =~= s);
        lemma_range_is_part(s, 0, s.len() as int);
    }
}

/// The whitespace characters are those that Unicode gives the property to, by their
/// code points.
pub proof fn law_whitespace_is_that_of_unicode(c: char)
    ensures
        is_whitespace(c) <==> {
            let code = c as u32;
            ||| 0x9 <= code <= 0xd
            ||| code == 0x20
            ||| code == 0x85
            ||| code == 0xa0
            ||| code == 0x1680
            ||| 0x2000 <= code <= 0x200a
            ||| 0x2028 <= code <= 0x2029
            ||| code == 0x202f
            ||| code == 0x205f
            ||| code == 0x3000
        },
{
}

/// Whether `t` stands in `s` at `lo`, with nothing but whitespace around it.
pub open spec fn is_core_at(s: Seq<char>, t: Seq<char>, lo: int) -> bool {
    &&& 0 <= lo
    &&& lo + t.len() <= s.len()
    &&& s.subrange(lo, lo + t.len()) == t
    &&& forall|j: int| 0 <= j < lo ==> is_whitespace(#[trigger] s[j])
    &&& forall|j: int| lo + t.len() <= j < s.len() ==> is_whitespace(#[trigger] s[j])
}

/// Whether `s` is whitespace, `t`, and whitespace again.
pub open spec fn is_core(s: Seq<char>, t: Seq<char>) -> bool {
    exists|lo: int| is_core_at(s, t, lo)
}

/// Trimming takes off whitespace alone, at both ends, and all of it: a text is
/// whitespace, what trimming leaves, and whitespace again.
pub proof fn law_trim_takes_off_whitespace_alone(s: Seq<char>)
    ensures
        is_core(s, trim(s)),
        trim(s).len() > 0 ==> !is_whitespace(trim(s)[0]) && !is_whitespace(trim(s).last()),
{
    lemma_trim_is_trimmed(s);
    let lo = lemma_trim_start_cut(s);
    let rest = trim_start(s);
    let hi = lemma_trim_end_cut(rest);
    assert forall|j: int| lo + hi <= j < s.len() implies is_whitespace(#[trigger] s[j]) by {
        assert(rest[j - lo] == s[j]);
    }
    assert(s.subrange(lo, lo + hi) =~= trim(s));
    assert(is_core_at(s, trim(s), lo));
}

proof fn lemma_trim_start_cut(s: Seq<char>) -> (lo: int)
    ensures
        0 <= lo <= s.len(),
        trim_start(s) == s.skip(lo),
        forall|j: int| 0 <= j < lo ==> is_whitespace(#[trigger] s[j]),
    decreases s.len(),
{
    if s.len() > 0 && is_whitespace(s[0]) {
        let rest = s.drop_first();
        let lo = lemma_trim_start_cut(rest);
        assert(rest.skip(lo) =~= s.skip(lo + 1));
        assert forall|j: int| 0 <= j < lo + 1 implies is_whitespace(#[trigger] s[j]) by {
            if j > 0 {
                assert(rest[j - 1] == s[j]);
            }
        }
        lo + 1
    } else {
        assert(s.skip(0) =~= s);
        0
    }
}

proof fn lemma_trim_end_cut(s: Seq<char>) -> (hi: int)
    ensures
        0 <= hi <= s.len(),
        trim_end(s) == s.take(hi),
        forall|j: int| hi <= j < s.len() ==> is_whitespace(#[trigger] s[j]),
    decreases s.len(),
{
    if s.len() > 0 && is_whitespace(s.last()) {
        let rest = s.drop_last();
        let hi = lemma_trim_end_cut(rest);
        assert(rest.take(hi) =~= s.take(hi));
        assert forall|j: int| hi <= j < s.len() implies is_whitespace(#[trigger] s[j]) by {
            if j < rest.len() {
                assert(rest[j] == s[j]);
            }
        }
        hi
    } else {
        assert(s.take(s.len() as int) =~= s);
        s.len() as int
    }
}

/// A text with nothing but whitespace around it, and none at its ends, is what
/// trimming leaves.
pub proof fn lemma_core_is_trimmed(s: Seq<char>, t: Seq<char>, lo: int)
    requires
        is_core_at(s, t, lo),
        t.len() > 0,
        !is_whitespace(t[0]),
        !is_whitespace(t.last()),
    ensures
        trim(s) == t,
{
    law_trim_takes_off_whitespace_alone(s);
    let at = choose|at: int| is_core_at(s, trim(s), at);
    let core = trim(s);
    assert(s[lo] == t[0]);
    assert(s[lo + t.len() - 1] == t.last());
    if core.len() == 0 {
        assert(is_whitespace(s[lo]));
    }
    assert(s[at] == core[0]);
    assert(s[at + core.len() - 1] == core.last());
    assert(at == lo);
    assert(at + core.len() == lo + t.len());
}

/// The characters of a text that are no whitespace.
pub open spec fn unspaced(s: Seq<char>) -> Seq<char> {
    s.filter(|c: char| !is_whitespace(c))
}

/// Text behind text has the signs of both.
pub proof fn lemma_unspaced_add(a: Seq<char>, b: Seq<char>)
    ensures
        unspaced(a + b) == unspaced(a) + unspaced(b),
{
    Seq::filter_distributes_over_add(a, b, |c: char| !is_whitespace(c));
}

/// Whitespace has no signs.
pub proof fn lemma_unspaced_blank(s: Seq<char>)
    requires
        forall|j: int| 0 <= j < s.len() ==> is_whitespace(#[trigger] s[j]),
    ensures
        unspaced(s) == Seq::<char>::empty(),
    decreases s.len(),
{
    reveal(Seq::filter);
    if s.len() > 0 {
        let rest = s.drop_last();
        assert forall|j: int| 0 <= j < rest.len() implies is_whitespace(#[trigger] rest[j]) by {
            assert(rest[j] == s[j]);
        }
        assert(is_whitespace(s[s.len() - 1]));
        lemma_unspaced_blank(rest);
    }
}

/// Trimming loses no sign.
pub proof fn law_trim_keeps_every_sign(s: Seq<char>)
    ensures
        unspaced(trim(s)) == unspaced(s),
{
    law_trim_takes_off_whitespace_alone(s);
    let t = trim(s);
    let lo = choose|lo: int| is_core_at(s, t, lo);
    let front = s.take(lo);
    let back = s.skip(lo + t.len());
    lemma_unspaced_blank(front);
    lemma_unspaced_blank(back);
    lemma_unspaced_add(front, t);
    lemma_unspaced_add(front + t, back);
    assert(front + t + back =~= s);
    assert(unspaced(s) =~= unspaced(t));
}

/// What is taken off the front of a text is a run of the one character, and all of it.
pub proof fn law_strip_takes_off_one_character(s: Seq<char>, c: char)
    ensures
        strip_leading(s, c).len() <= s.len(),
        strip_leading(s, c) == s.skip(s.len() - strip_leading(s, c).len()),
        forall|j: int| 0 <= j < s.len() - strip_leading(s, c).len() ==> #[trigger] s[j] == c,
        strip_leading(s, c).len() > 0 ==> strip_leading(s, c)[0] != c,
    decreases s.len(),
{
    if s.len() > 0 && s[0] == c {
        let rest = s.drop_first();
        law_strip_takes_off_one_character(rest, c);
        let cut = s.len() - strip_leading(s, c).len();
        assert(rest.skip(cut - 1) =~= s.skip(cut));
        assert forall|j: int| 0 <= j < cut implies #[trigger] s[j] == c by {
            if j > 0 {
                assert(rest[j - 1] == s[j]);
            }
        }
    } else {
        assert(s.skip(0) =~= s);
    }
}

/// A text that is found stands at the index, and nowhere before it; where it is not
/// found, it stands nowhere.
pub proof fn law_find_is_the_first_place(s: Seq<char>, pat: Seq<char>)
    ensures
        match find(s, pat) {
            Some(i) => {
                &&& 0 <= i
                &&& i + pat.len() <= s.len()
                &&& s.subrange(i, i + pat.len()) == pat
                &&& forall|j: int| 0 <= j < i ==> #[trigger] s.subrange(j, j + pat.len()) != pat
            },
            None => forall|j: int|
                0 <= j && j + pat.len() <= s.len() ==> #[trigger] s.subrange(j, j + pat.len())
                    != pat,
        },
{
    lemma_find_is_first(s, pat);
    match find(s, pat) {
        Some(i) => {
            assert forall|j: int| 0 <= j < i implies #[trigger] s.subrange(j, j + pat.len())
                != pat by {
                assert(!occurs_at(s, pat, j));
            }
        },
        None => {
            assert forall|j: int| 0 <= j && j + pat.len() <= s.len() implies #[trigger] s.subrange(
                j,
                j + pat.len(),
            ) != pat by {
                assert(!occurs_at(s, pat, j));
            }
        },
    }
}

/// A line ends at the first line feed, or with the text where there is none.
pub proof fn law_line_ends_at_line_feed(s: Seq<char>)
    ensures
        line_end(s) <= s.len(),
        line_end(s) < s.len() ==> s[line_end(s) as int] == '\n',
        forall|j: int| 0 <= j < line_end(s) ==> #[trigger] s[j] != '\n',
    decreases s.len(),
{
    if s.len() > 0 && s[0] != '\n' {
        let rest = s.drop_first();
        law_line_ends_at_line_feed(rest);
        assert forall|j: int| 0 <= j < line_end(s) implies #[trigger] s[j] != '\n' by {
            if j > 0 {
                assert(rest[j - 1] == s[j]);
            }
        }
        if line_end(s) < s.len() {
            assert(rest[line_end(rest) as int] == s[line_end(s) as int]);
        }
    }
}

/// Lines are what stands between line feeds: the text before the first line feed,
/// without a carriage return at its end, is the first line, and the lines of what
/// stands behind it follow. A text without line feeds is one line, or none where it
/// is empty.
pub proof fn law_lines_stand_between_line_feeds(line: Seq<char>, rest: Seq<char>)
    requires
        !line.contains('\n'),
    ensures
        lines(line + seq!['\n'] + rest) == seq![
            if line.len() > 0 && line[line.len() - 1] == '\r' {
                line.take(line.len() - 1)
            } else {
                line
            },
        ] + lines(rest),
        lines(line) == if line.len() == 0 {
            Seq::empty()
        } else {
            seq![line]
        },
{
    let s = line + seq!['\n'] + rest;
    let end = line.len() as int;
    law_line_ends_at_line_feed(s);
    law_line_ends_at_line_feed(line);
    assert(s[end] == '\n');
    if line_end(s) < end {
        assert(line[line_end(s) as int] == s[line_end(s) as int]);
        assert(line.contains('\n'));
    }
    if line_end(line) < end {
        assert(line.contains(line[line_end(line) as int]));
    }
    assert(s.take(end) =~= line);
    assert(s.skip(end + 1) =~= rest);
    assert(line.len() > 0 ==> line.drop_last() =~= line.take(line.len() - 1));
}

/// Whether `c` is whitespace.
pub fn whitespace(c: char) -> (r: bool)
    ensures
        r == is_whitespace(c),
{
    ('\u{9}' <= c && c <= '\u{d}') || c == ' ' || c == '\u{85}' || c == '\u{a0}' || c == '\u{1680}'
        || ('\u{2000}' <= c && c <= '\u{200a}') || c == '\u{2028}' || c == '\u{2029}' || c
        == '\u{202f}' || c == '\u{205f}' || c == '\u{3000}'
}

/// The characters of a string.
pub fn chars_of(s: &str) -> (r: Vec<char>)
    ensures
        r@ == s@,
{
    let mut out: Vec<char> = Vec::new();
    for c in it: s.chars()
        invariant
            it.seq() == s@,
            out@ == s@.take(it.index()),
    {
        out.push(c);
    }
    out
}

/// Whether two strings have the same characters.
pub fn same_text(a: &str, b: &str) -> (r: bool)
    ensures
        r == (a@ == b@),
{
    let x = chars_of(a);
    let y = chars_of(b);
    if x.len() != y.len() {
        return false;
    }
    let mut i: usize = 0;
    while i < x.len()
        invariant
            x@ == a@,
            y@ == b@,
            x@.len() == y@.len(),
            i <= x@.len(),
            forall|k: int| 0 <= k < i ==> x@[k] == y@[k],
        decreases x@.len() - i,
    {
        if x[i] != y[i] {
            return false;
        }
        i += 1;
    }
    assert(x@ =~= y@);
    true
}

/// The first `max` characters of a string, or all of it where it is shorter.
pub fn take_chars(s: &str, max: usize) -> (r: String)
    ensures
        r@ == if s@.len() <= max {
            s@
        } else {
            s@.take(max as int)
        },
{
    let chars = chars_of(s);
    if chars.len() <= max {
        string_of(&chars, 0, chars.len())
    } else {
        string_of(&chars, 0, max)
    }
}

/// The string that a range of `chars` spells.
pub fn string_of(chars: &Vec<char>, start: usize, end: usize) -> (r: String)
    requires
        in_bounds(chars@, (start, end)),
    ensures
        r@ == part(chars@, (start, end)),
{
    let mut out = String::new();
    let mut i: usize = start;
    while i < end
        invariant
            start <= i <= end <= chars@.len(),
            out@ == chars@.subrange(start as int, i as int),
        decreases end - i,
    {
        out.push(chars[i]);
        i += 1;
    }
    out
}

/// Whether `pat` stands in `chars` at `at`, before `end`.
pub fn occurs(chars: &Vec<char>, pat: &Vec<char>, start: usize, end: usize, at: usize) -> (r: bool)
    requires
        in_bounds(chars@, (start, end)),
        start <= at <= end,
    ensures
        r == occurs_at(part(chars@, (start, end)), pat@, at - start),
{
    let ghost s = part(chars@, (start, end));
    if pat.len() > end - at {
        return false;
    }
    let mut k: usize = 0;
    while k < pat.len()
        invariant
            s == part(chars@, (start, end)),
            start <= at <= end <= chars@.len(),
            k <= pat@.len() <= end - at,
            forall|j: int| 0 <= j < k ==> chars@[at + j] == pat@[j],
        decreases pat@.len() - k,
    {
        if chars[at + k] != pat[k] {
            assert(s.subrange(at - start, at - start + pat@.len())[k as int] == chars@[at + k]);
            return false;
        }
        k += 1;
    }
    assert(s.subrange(at - start, at - start + pat@.len()) =~= pat@);
    true
}

/// The index in `chars` of the first place in a range where `pat` stands.
pub fn find_in(chars: &Vec<char>, pat: &Vec<char>, start: usize, end: usize) -> (r: Option<usize>)
    requires
        in_bounds(chars@, (start, end)),
    ensures
        match r {
            Some(at) => start <= at && at + pat@.len() <= end && find(
                part(chars@, (start, end)),
                pat@,
            ) == Some(at - start),
            None => find(part(chars@, (start, end)), pat@) is None,
        },
{
    let ghost s = part(chars@, (start, end));
    let mut at: usize = start;
    while pat.len() <= end - at
        invariant
            s == part(chars@, (start, end)),
            start <= at <= end <= chars@.len(),
            find(s, pat@) == find_from(s, pat@, at - start),
        decreases end - at,
    {
        if occurs(chars, pat, start, end, at) {
            return Some(at);
        }
        proof {
            if pat@.len() == 0 {
                assert(s.subrange(at - start, at - start) =~= pat@);
            }
        }
        at += 1;
    }
    None
}

/// The range that is left of one without the whitespace around it.
pub fn trim_range(chars: &Vec<char>, start: usize, end: usize) -> (r: (usize, usize))
    requires
        in_bounds(chars@, (start, end)),
    ensures
        start <= r.0 <= r.1 <= end,
        part(chars@, r) == trim(part(chars@, (start, end))),
{
    let mut lo: usize = start;
    while lo < end && whitespace(chars[lo])
        invariant
            start <= lo <= end <= chars@.len(),
            trim_start(part(chars@, (start, end))) == trim_start(part(chars@, (lo, end))),
        decreases end - lo,
    {
        assert(part(chars@, (lo, end)).drop_first() =~= part(chars@, ((lo + 1) as usize, end)));
        lo += 1;
    }
    assert(trim_start(part(chars@, (lo, end))) == part(chars@, (lo, end)));
    let mut hi: usize = end;
    while lo < hi && whitespace(chars[hi - 1])
        invariant
            start <= lo <= hi <= end <= chars@.len(),
            trim_end(part(chars@, (lo, end))) == trim_end(part(chars@, (lo, hi))),
        decreases hi - lo,
    {
        assert(part(chars@, (lo, hi)).drop_last() =~= part(chars@, (lo, (hi - 1) as usize)));
        hi -= 1;
    }
    (lo, hi)
}

/// Where a range begins without the run of `c` at its start.
pub fn skip_leading(chars: &Vec<char>, c: char, start: usize, end: usize) -> (r: usize)
    requires
        in_bounds(chars@, (start, end)),
    ensures
        start <= r <= end,
        part(chars@, (r, end)) == strip_leading(part(chars@, (start, end)), c),
{
    let mut lo: usize = start;
    while lo < end && chars[lo] == c
        invariant
            start <= lo <= end <= chars@.len(),
            strip_leading(part(chars@, (start, end)), c) == strip_leading(
                part(chars@, (lo, end)),
                c,
            ),
        decreases end - lo,
    {
        assert(part(chars@, (lo, end)).drop_first() =~= part(chars@, ((lo + 1) as usize, end)));
        lo += 1;
    }
    lo
}

/// Whether a character stands in a range.
pub fn contains_char(chars: &Vec<char>, c: char, start: usize, end: usize) -> (r: bool)
    requires
        in_bounds(chars@, (start, end)),
    ensures
        r == part(chars@, (start, end)).contains(c),
{
    let ghost s = part(chars@, (start, end));
    let mut i: usize = start;
    while i < end
        invariant
            s == part(chars@, (start, end)),
            start <= i <= end <= chars@.len(),
            forall|j: int| 0 <= j < i - start ==> s[j] != c,
        decreases end - i,
    {
        if chars[i] == c {
            assert(s[i - start] == c);
            return true;
        }
        i += 1;
    }
    false
}

/// Whether a range has nothing but whitespace.
pub fn blank(chars: &Vec<char>, start: usize, end: usize) -> (r: bool)
    requires
        in_bounds(chars@, (start, end)),
    ensures
        r == is_blank(part(chars@, (start, end))),
{
    let ghost s = part(chars@, (start, end));
    let mut i: usize = start;
    while i < end
        invariant
            s == part(chars@, (start, end)),
            start <= i <= end <= chars@.len(),
            forall|j: int| 0 <= j < i - start ==> is_whitespace(#[trigger] s[j]),
        decreases end - i,
    {
        if !whitespace(chars[i]) {
            assert(!is_whitespace(s[i - start]));
            return false;
        }
        i += 1;
    }
    true
}

/// Where the first line of a range stops.
pub fn line_stop(chars: &Vec<char>, start: usize, end: usize) -> (r: usize)
    requires
        in_bounds(chars@, (start, end)),
    ensures
        start <= r <= end,
        r - start == line_end(part(chars@, (start, end))),
{
    let ghost s = part(chars@, (start, end));
    let mut k: usize = start;
    while k < end && chars[k] != '\n'
        invariant
            start <= k <= end <= chars@.len(),
            s == part(chars@, (start, end)),
            line_end(s) == (k - start) + line_end(part(chars@, (k, end))),
        decreases end - k,
    {
        assert(part(chars@, (k, end)).drop_first() =~= part(chars@, ((k + 1) as usize, end)));
        k += 1;
    }
    k
}

/// The ranges of the lines of a range.
pub fn line_ranges(chars: &Vec<char>, start: usize, end: usize) -> (r: Vec<(usize, usize)>)
    requires
        in_bounds(chars@, (start, end)),
    ensures
        forall|i: int| 0 <= i < r@.len() ==> in_bounds(chars@, #[trigger] r@[i]),
        parts(chars@, r@) == lines(part(chars@, (start, end))),
{
    let ghost whole = lines(part(chars@, (start, end)));
    let mut out: Vec<(usize, usize)> = Vec::new();
    let mut lo: usize = start;
    while lo < end
        invariant
            start <= lo <= end <= chars@.len(),
            whole == lines(part(chars@, (start, end))),
            forall|i: int| 0 <= i < out@.len() ==> in_bounds(chars@, #[trigger] out@[i]),
            whole == parts(chars@, out@) + lines(part(chars@, (lo, end))),
        decreases end - lo,
    {
        let ghost rest = part(chars@, (lo, end));
        let k = line_stop(chars, lo, end);
        let ghost before = out@;
        if k < end {
            let stop = if lo < k && chars[k - 1] == '\r' {
                k - 1
            } else {
                k
            };
            out.push((lo, stop));
            proof {
                assert(rest.take(k - lo) =~= part(chars@, (lo, k)));
                assert(strip_carriage_return(rest.take(k - lo)) =~= part(chars@, (lo, stop)));
                assert(rest.skip(k - lo + 1) =~= part(chars@, ((k + 1) as usize, end)));
                assert(parts(chars@, out@) =~= parts(chars@, before).push(
                    part(chars@, (lo, stop)),
                ));
                assert(whole =~= parts(chars@, out@) + lines(
                    part(chars@, ((k + 1) as usize, end)),
                ));
            }
            lo = k + 1;
        } else {
            out.push((lo, end));
            proof {
                assert(parts(chars@, out@) =~= parts(chars@, before).push(rest));
                assert(part(chars@, (end, end)) =~= Seq::empty());
                assert(whole =~= parts(chars@, out@) + lines(part(chars@, (end, end))));
            }
            lo = end;
        }
    }
    assert(part(chars@, (lo, end)) =~= Seq::empty());
    assert(whole =~= parts(chars@, out@));
    out
}

} // verus!
