//! Training pairs: how they are cut out of legal documents and collected.
//!
//! Precedents and laws are Markdown documents with a YAML frontmatter. A
//! precedent gives at most one pair, its ruling summary and what it cites; a law
//! gives one or two pairs per article.

use vstd::prelude::*;

use crate::text::{
    blank, chars_of, contains_char, find_in, line_ranges, line_stop, occurs, skip_leading,
    string_of, trim_range,
};

verus! {

/// The fewest bytes of a ruling summary, or of an article body, that is used.
pub const MIN_PASSAGE_BYTES: usize = 20;

/// The fewest bytes of a cited statute, a case name or an article heading that
/// is used.
pub const MIN_LABEL_BYTES: usize = 5;

/// The most spaces that stand before a heading.
pub const MAX_INDENT: usize = 3;

/// A training pair: two texts that belong together.
///
/// For a precedent the anchor is the ruling summary (판결요지) and the positive
/// the statutes it refers to (참조조문) or its case name (사건명).
#[derive(Debug, Clone)]
pub struct TextPair {
    pub anchor: String,
    pub positive: String,
}

/// The texts of a training pair.
#[verifier::ext_equal]
pub struct PairView {
    pub anchor: Seq<char>,
    pub positive: Seq<char>,
}

impl View for TextPair {
    type V = PairView;

    open spec fn view(&self) -> PairView {
        PairView { anchor: self.anchor@, positive: self.positive@ }
    }
}

/// The texts of a list of pairs.
pub open spec fn pair_views(pairs: Seq<TextPair>) -> Seq<PairView> {
    Seq::new(pairs.len(), |i: int| pairs[i]@)
}

/// Whether an index is the first of a line, or has nothing before it on its line but
/// some spaces, `indent` at most.
pub open spec fn opens_line(doc: Seq<char>, i: int, indent: nat) -> bool
    decreases indent,
{
    ||| i == 0
    ||| doc[i - 1] == '\n'
    ||| indent > 0 && doc[i - 1] == ' ' && opens_line(doc, i - 1, (indent - 1) as nat)
}

/// Whether a heading stands in a document at an index: at the start of a line, as far
/// as a heading is not indented by more than Markdown allows, with nothing but
/// whitespace behind it on that line.
pub open spec fn is_heading_at(doc: Seq<char>, marker: Seq<char>, i: int) -> bool {
    let rest = doc.skip(i + marker.len());
    &&& crate::text::occurs_at(doc, marker, i)
    &&& opens_line(doc, i, MAX_INDENT as nat)
    &&& crate::text::is_blank(rest.take(crate::text::line_end(rest) as int))
}

/// The first index from `i` on at which a heading stands in a document.
pub open spec fn find_heading_from(doc: Seq<char>, marker: Seq<char>, i: int) -> Option<int>
    decreases doc.len() - i + 1,
{
    if i < 0 || i + marker.len() > doc.len() {
        None
    } else if is_heading_at(doc, marker, i) {
        Some(i)
    } else {
        find_heading_from(doc, marker, i + 1)
    }
}

/// The text under the first line that is `## heading`, up to the next line that begins
/// with a heading of that level, if any is left once trimmed.
pub open spec fn section(doc: Seq<char>, heading: Seq<char>) -> Option<Seq<char>> {
    let marker = "## "@ + heading;
    match find_heading_from(doc, marker, 0) {
        None => None,
        Some(at) => {
            let rest = doc.skip(at + marker.len());
            let body = match crate::text::find(rest, "\n## "@) {
                Some(end) => rest.take(end),
                None => rest,
            };
            let text = crate::text::trim(body);
            if text.len() == 0 {
                None
            } else {
                Some(text)
            }
        },
    }
}

/// What a line says of a field: the text behind the field's name and the colons
/// that follow it, of which there must be one. Whitespace may stand between the two.
pub open spec fn field_value(line: Seq<char>, field: Seq<char>) -> Option<Seq<char>> {
    let line = crate::text::trim(line);
    if crate::text::starts_with(line, field) {
        let rest = crate::text::trim(line.skip(field.len() as int));
        let value = crate::text::trim(crate::text::strip_leading(rest, ':'));
        if rest.len() > 0 && rest[0] == ':' && value.len() > 0 {
            Some(value)
        } else {
            None
        }
    } else {
        None
    }
}

/// The value in the first line that has one for a field.
pub open spec fn first_field(lines: Seq<Seq<char>>, field: Seq<char>) -> Option<Seq<char>>
    decreases lines.len(),
{
    if lines.len() == 0 {
        None
    } else {
        match field_value(lines[0], field) {
            Some(value) => Some(value),
            None => first_field(lines.skip(1), field),
        }
    }
}

/// Whether a line closes a frontmatter: it is `---`.
pub open spec fn is_fence(line: Seq<char>) -> bool {
    crate::text::starts_with(line, "---"@) && crate::text::is_blank(line.skip(3))
}

/// How many lines stand before the first that closes a frontmatter.
pub open spec fn lines_before_fence(lines: Seq<Seq<char>>) -> nat
    decreases lines.len(),
{
    if lines.len() == 0 || is_fence(lines[0]) {
        0
    } else {
        1 + lines_before_fence(lines.skip(1))
    }
}

/// The value of a field in a document's frontmatter, which stands between the
/// `---` that the document begins with and the next line that is `---`.
pub open spec fn frontmatter_field(doc: Seq<char>, field: Seq<char>) -> Option<Seq<char>> {
    let lines = crate::text::lines(doc.skip(3));
    let end = lines_before_fence(lines);
    if crate::text::starts_with(doc, "---"@) && end < lines.len() {
        first_field(lines.take(end as int), field)
    } else {
        None
    }
}

/// The pair of a precedent: its summary with the statutes it refers to, or with
/// its case name where it names none, unless one of the two is too short.
pub open spec fn precedent_pair(doc: Seq<char>) -> Option<PairView> {
    match section(doc, "판결요지"@) {
        None => None,
        Some(summary) => {
            let cited = match section(doc, "참조조문"@) {
                Some(text) => Some(text),
                None => frontmatter_field(doc, "사건명"@),
            };
            match cited {
                None => None,
                Some(positive) => if crate::text::byte_len(summary) < MIN_PASSAGE_BYTES
                    || crate::text::byte_len(positive) < MIN_LABEL_BYTES {
                    None
                } else {
                    Some(PairView { anchor: summary, positive })
                },
            }
        },
    }
}

/// Whether a line is an article heading, `##### 제N조 (title)`.
pub open spec fn is_article_heading(line: Seq<char>) -> bool {
    let line = crate::text::trim(line);
    crate::text::starts_with(line, "##### 제"@) && line.contains('조')
}

/// The text of a heading line, without its leading `#` signs.
pub open spec fn heading_text(line: Seq<char>) -> Seq<char> {
    crate::text::trim(crate::text::strip_leading(crate::text::trim(line), '#'))
}

/// Whether a line is a heading of any level.
pub open spec fn is_heading(line: Seq<char>) -> bool {
    let line = crate::text::trim(line);
    line.len() > 0 && line[0] == '#'
}

/// How many lines stand before the next heading.
pub open spec fn body_lines(lines: Seq<Seq<char>>) -> nat
    decreases lines.len(),
{
    if lines.len() == 0 || is_heading(lines[0]) {
        0
    } else {
        1 + body_lines(lines.skip(1))
    }
}

/// The trimmed lines that are not blank, joined by single spaces.
pub open spec fn joined(lines: Seq<Seq<char>>) -> Seq<char>
    decreases lines.len(),
{
    if lines.len() == 0 {
        Seq::empty()
    } else {
        let head = joined(lines.drop_last());
        let line = crate::text::trim(lines.last());
        if line.len() == 0 {
            head
        } else if head.len() == 0 {
            line
        } else {
            head.push(' ') + line
        }
    }
}

/// The pairs of one article: its heading with its body and, where the law has a
/// title, the title with the heading. An article that is too short gives none.
pub open spec fn article_pairs(title: Seq<char>, heading: Seq<char>, body: Seq<char>) -> Seq<
    PairView,
> {
    if crate::text::byte_len(heading) < MIN_LABEL_BYTES || crate::text::byte_len(body)
        < MIN_PASSAGE_BYTES {
        Seq::empty()
    } else if title.len() == 0 {
        seq![PairView { anchor: heading, positive: body }]
    } else {
        seq![
            PairView { anchor: heading, positive: body },
            PairView { anchor: title, positive: heading },
        ]
    }
}

/// The pairs of the articles in a list of lines.
pub open spec fn pairs_of_lines(lines: Seq<Seq<char>>, title: Seq<char>) -> Seq<PairView>
    decreases lines.len(),
{
    if lines.len() == 0 {
        Seq::empty()
    } else if is_article_heading(lines[0]) {
        let end = 1 + body_lines(lines.skip(1));
        proof {
            lemma_body_lines_bound(lines.skip(1));
        }
        article_pairs(title, heading_text(lines[0]), joined(lines.subrange(1, end as int)))
            + pairs_of_lines(lines.skip(end as int), title)
    } else {
        pairs_of_lines(lines.skip(1), title)
    }
}

/// The title of a law, empty where its frontmatter has none.
pub open spec fn law_title(doc: Seq<char>) -> Seq<char> {
    match frontmatter_field(doc, "제목"@) {
        Some(title) => title,
        None => Seq::empty(),
    }
}

/// The pairs of a law document.
pub open spec fn law_pairs(doc: Seq<char>) -> Seq<PairView> {
    pairs_of_lines(crate::text::lines(doc), law_title(doc))
}

/// A body never reaches past the last line.
pub proof fn lemma_body_lines_bound(lines: Seq<Seq<char>>)
    ensures
        body_lines(lines) <= lines.len(),
    decreases lines.len(),
{
    if lines.len() > 0 && !is_heading(lines[0]) {
        lemma_body_lines_bound(lines.skip(1));
    }
}

/// Whether an index is the first of a line, or has nothing before it on its line but
/// some spaces.
fn is_line_start(chars: &Vec<char>, at: usize, indent: usize) -> (r: bool)
    requires
        at <= chars@.len(),
    ensures
        r == opens_line(chars@, at as int, indent as nat),
    decreases indent,
{
    at == 0 || chars[at - 1] == '\n' || (indent > 0 && chars[at - 1] == ' ' && is_line_start(
        chars,
        at - 1,
        indent - 1,
    ))
}

/// The index of the first line that is a heading.
fn find_heading(chars: &Vec<char>, marker: &Vec<char>) -> (r: Option<usize>)
    ensures
        match r {
            Some(at) => at + marker@.len() <= chars@.len() && find_heading_from(
                chars@,
                marker@,
                0,
            ) == Some(at as int),
            None => find_heading_from(chars@, marker@, 0) is None,
        },
{
    let len = chars.len();
    let mut at: usize = 0;
    assert(crate::text::part(chars@, (0, len)) =~= chars@);
    while marker.len() <= len - at
        invariant
            len == chars@.len(),
            at <= len,
            crate::text::part(chars@, (0, len)) == chars@,
            find_heading_from(chars@, marker@, 0) == find_heading_from(chars@, marker@, at as int),
        decreases len - at,
    {
        if occurs(chars, marker, 0, len, at) && is_line_start(chars, at, MAX_INDENT) {
            let after = at + marker.len();
            let stop = line_stop(chars, after, len);
            let ghost rest = chars@.skip(after as int);
            proof {
                assert(crate::text::part(chars@, (after, len)) =~= rest);
                assert(crate::text::part(chars@, (after, stop)) =~= rest.take(stop - after));
            }
            if blank(chars, after, stop) {
                return Some(at);
            }
        }
        if at == len {
            assert(find_heading_from(chars@, marker@, len + 1) is None);
            return None;
        }
        at += 1;
    }
    None
}

/// Extract the text under a `## heading` section.
pub fn extract_section(doc: &str, heading: &str) -> (r: Option<String>)
    ensures
        match r {
            Some(text) => section(doc@, heading@) == Some(text@),
            None => section(doc@, heading@) is None,
        },
{
    let chars = chars_of(doc);
    let mut marker = chars_of("## ");
    let mut tail = chars_of(heading);
    marker.append(&mut tail);
    let next = chars_of("\n## ");
    let len = chars.len();
    match find_heading(&chars, &marker) {
        None => None,
        Some(at) => {
            let after = at + marker.len();
            assert(crate::text::part(chars@, (after, len)) =~= doc@.skip(after as int));
            let end = match find_in(&chars, &next, after, len) {
                Some(end) => {
                    assert(crate::text::part(chars@, (after, end)) =~= doc@.skip(
                        after as int,
                    ).take(end - after));
                    end
                },
                None => len,
            };
            let (lo, hi) = trim_range(&chars, after, end);
            if lo == hi {
                None
            } else {
                Some(string_of(&chars, lo, hi))
            }
        },
    }
}

/// How many lines stand before the first that closes a frontmatter.
fn count_before_fence(chars: &Vec<char>, fence: &Vec<char>, ranges: &Vec<(usize, usize)>) -> (r:
    usize)
    requires
        fence@ == "---"@,
        forall|k: int| 0 <= k < ranges@.len() ==> crate::text::in_bounds(
            chars@,
            #[trigger] ranges@[k],
        ),
    ensures
        r <= ranges@.len(),
        r == lines_before_fence(crate::text::parts(chars@, ranges@)),
{
    let ghost all = crate::text::parts(chars@, ranges@);
    let mut i: usize = 0;
    assert(all.skip(0) =~= all);
    proof {
        reveal_strlit("---");
    }
    while i < ranges.len()
        invariant
            fence@ == "---"@,
            fence@.len() == 3,
            i <= ranges@.len(),
            all == crate::text::parts(chars@, ranges@),
            forall|k: int| 0 <= k < ranges@.len() ==> crate::text::in_bounds(
                chars@,
                #[trigger] ranges@[k],
            ),
            lines_before_fence(all) == i + lines_before_fence(all.skip(i as int)),
        decreases ranges@.len() - i,
    {
        let range = ranges[i];
        let ghost line = crate::text::part(chars@, range);
        assert(all.skip(i as int)[0] == line);
        assert(all.skip(i as int).skip(1) =~= all.skip(i + 1));
        if occurs(chars, fence, range.0, range.1, range.0) {
            assert(crate::text::part(chars@, ((range.0 + 3) as usize, range.1)) =~= line.skip(3));
            if blank(chars, range.0 + 3, range.1) {
                return i;
            }
        }
        i += 1;
    }
    i
}

/// Extract the value of a YAML frontmatter field.
pub fn extract_frontmatter_field(doc: &str, field: &str) -> (r: Option<String>)
    ensures
        match r {
            Some(value) => frontmatter_field(doc@, field@) == Some(value@),
            None => frontmatter_field(doc@, field@) is None,
        },
{
    let chars = chars_of(doc);
    let fence = chars_of("---");
    let name = chars_of(field);
    let len = chars.len();
    proof {
        reveal_strlit("---");
        assert(crate::text::part(chars@, (0, len)) =~= doc@);
    }
    if !occurs(&chars, &fence, 0, len, 0) {
        return None;
    }
    assert(crate::text::part(chars@, (3, len)) =~= doc@.skip(3));
    let ranges = line_ranges(&chars, 3, len);
    let end = count_before_fence(&chars, &fence, &ranges);
    if end == ranges.len() {
        assert(crate::text::lines(doc@.skip(3)).len() == ranges@.len());
        return None;
    }
    let ghost all = crate::text::lines(doc@.skip(3)).take(end as int);
    assert(crate::text::lines(doc@.skip(3)).len() == ranges@.len());
    assert(all.skip(0) =~= all);
    let mut i: usize = 0;
    while i < end
        invariant
            chars@ == doc@,
            name@ == field@,
            i <= end < ranges@.len(),
            forall|k: int| 0 <= k < ranges@.len() ==> crate::text::in_bounds(
                chars@,
                #[trigger] ranges@[k],
            ),
            all == crate::text::parts(chars@, ranges@).take(end as int),
            frontmatter_field(doc@, field@) == first_field(all.skip(i as int), field@),
        decreases end - i,
    {
        let range = ranges[i];
        assert(all.skip(i as int)[0] == crate::text::part(chars@, range));
        assert(all.skip(i as int).skip(1) =~= all.skip(i + 1));
        let (lo, hi) = trim_range(&chars, range.0, range.1);
        if occurs(&chars, &name, lo, hi, lo) {
            let at = lo + name.len();
            assert(crate::text::part(chars@, (at, hi)) =~= crate::text::part(
                chars@,
                (lo, hi),
            ).skip(field@.len() as int));
            let (rlo, rhi) = trim_range(&chars, at, hi);
            if rlo < rhi && chars[rlo] == ':' {
                let from = skip_leading(&chars, ':', rlo, rhi);
                let (vlo, vhi) = trim_range(&chars, from, rhi);
                if vlo < vhi {
                    return Some(string_of(&chars, vlo, vhi));
                }
            }
        }
        i += 1;
    }
    assert(all.skip(i as int) =~= Seq::empty());
    None
}

/// Extract the pair of a precedent document.
pub fn extract_precedent_pair(doc: &str) -> (r: Option<TextPair>)
    ensures
        match r {
            Some(pair) => precedent_pair(doc@) == Some(pair@),
            None => precedent_pair(doc@) is None,
        },
{
    let summary = match extract_section(doc, "판결요지") {
        Some(text) => text,
        None => return None,
    };
    let cited = match extract_section(doc, "참조조문") {
        Some(text) => Some(text),
        None => extract_frontmatter_field(doc, "사건명"),
    };
    let positive = match cited {
        Some(text) => text,
        None => return None,
    };
    if summary.as_str().as_bytes().len() < MIN_PASSAGE_BYTES || positive.as_str().as_bytes().len()
        < MIN_LABEL_BYTES {
        return None;
    }
    Some(TextPair { anchor: summary, positive })
}

/// Extract the pairs of a law document: for each article `##### 제N조 (title)`
/// its heading with its body, and the law's title with the heading.
pub fn extract_law_pairs(doc: &str) -> (r: Vec<TextPair>)
    ensures
        pair_views(r@) == law_pairs(doc@),
{
    let title = match extract_frontmatter_field(doc, "제목") {
        Some(title) => title,
        None => String::new(),
    };
    let chars = chars_of(doc);
    let article = chars_of("##### 제");
    let hash = chars_of("#");
    proof {
        reveal_strlit("#");
        assert(crate::text::part(chars@, (0, chars.len())) =~= doc@);
    }
    let ranges = line_ranges(&chars, 0, chars.len());
    let ghost all = crate::text::lines(doc@);
    assert(all.skip(0) =~= all);
    let mut pairs: Vec<TextPair> = Vec::new();
    assert(pair_views(pairs@) + law_pairs(doc@) =~= law_pairs(doc@));
    let mut i: usize = 0;
    while i < ranges.len()
        invariant
            chars@ == doc@,
            title@ == law_title(doc@),
            article@ == "##### 제"@,
            hash@.len() == 1,
            hash@[0] == '#',
            i <= ranges@.len(),
            forall|k: int| 0 <= k < ranges@.len() ==> crate::text::in_bounds(
                chars@,
                #[trigger] ranges@[k],
            ),
            all == crate::text::parts(chars@, ranges@),
            law_pairs(doc@) == pair_views(pairs@) + pairs_of_lines(all.skip(i as int), title@),
        decreases ranges@.len() - i,
    {
        let range = ranges[i];
        let ghost rest = all.skip(i as int);
        let ghost before = pair_views(pairs@);
        assert(rest[0] == crate::text::part(chars@, range));
        assert(rest.skip(1) =~= all.skip(i + 1));
        let (lo, hi) = trim_range(&chars, range.0, range.1);
        if occurs(&chars, &article, lo, hi, lo) && contains_char(&chars, '조', lo, hi) {
            let from = skip_leading(&chars, '#', lo, hi);
            let (hlo, hhi) = trim_range(&chars, from, hi);
            let heading = string_of(&chars, hlo, hhi);
            assert(heading@ == heading_text(rest[0]));
            let mut body = String::new();
            let mut j: usize = i + 1;
            let ghost start = j as int;
            assert(all.subrange(start, start) =~= Seq::empty());
            while j < ranges.len()
                invariant_except_break
                    body_lines(all.skip(start)) == (j - start) + body_lines(all.skip(j as int)),
                invariant
                    hash@.len() == 1,
                    hash@[0] == '#',
                    0 <= start <= j <= ranges@.len(),
                    forall|k: int| 0 <= k < ranges@.len() ==> crate::text::in_bounds(
                        chars@,
                        #[trigger] ranges@[k],
                    ),
                    all == crate::text::parts(chars@, ranges@),
                    body@ == joined(all.subrange(start, j as int)),
                ensures
                    body_lines(all.skip(start)) == j - start,
                decreases ranges@.len() - j,
            {
                let next = ranges[j];
                assert(all.skip(j as int)[0] == crate::text::part(chars@, next));
                assert(all.skip(j as int).skip(1) =~= all.skip(j + 1));
                let (nlo, nhi) = trim_range(&chars, next.0, next.1);
                let ghost line = crate::text::part(chars@, (nlo, nhi));
                if occurs(&chars, &hash, nlo, nhi, nlo) {
                    assert(line.subrange(0, 1)[0] == line[0]);
                    break;
                }
                proof {
                    if line.len() > 0 && line[0] == '#' {
                        assert(line.subrange(0, 1) =~= hash@);
                    }
                    let taken = all.subrange(start, j + 1);
                    assert(taken.drop_last() =~= all.subrange(start, j as int));
                    assert(taken.last() == all[j as int]);
                }
                if nlo < nhi {
                    if !body.as_str().is_empty() {
                        body.push(' ');
                    }
                    let text = string_of(&chars, nlo, nhi);
                    body.append(text.as_str());
                    assert(Seq::<char>::empty() + text@ =~= text@);
                }
                j += 1;
            }
            assert(rest.subrange(1, 1 + (j - start)) =~= all.subrange(start, j as int));
            assert(rest.skip(1 + (j - start)) =~= all.skip(j as int));
            if heading.as_str().as_bytes().len() >= MIN_LABEL_BYTES && body.as_str().as_bytes().len()
                >= MIN_PASSAGE_BYTES {
                pairs.push(TextPair { anchor: heading.clone(), positive: body });
                if !title.as_str().is_empty() {
                    pairs.push(TextPair { anchor: title.clone(), positive: heading });
                }
            }
            proof {
                let found = article_pairs(title@, heading_text(rest[0]), joined(all.subrange(start, j as int)));
                assert(pair_views(pairs@) =~= before + found);
                assert(law_pairs(doc@) =~= pair_views(pairs@) + pairs_of_lines(
                    all.skip(j as int),
                    title@,
                ));
            }
            i = j;
        } else {
            i += 1;
        }
    }
    assert(all.skip(i as int) =~= Seq::empty());
    assert(law_pairs(doc@) =~= pair_views(pairs@));
    pairs
}

/// Whether a number of pairs is as many as the limit allows.
pub open spec fn reached(count: nat, limit: Option<usize>) -> bool {
    match limit {
        Some(limit) => count >= limit,
        None => false,
    }
}

/// A list of texts behind a list of strings.
pub open spec fn text_views(texts: Seq<String>) -> Seq<Seq<char>> {
    Seq::new(texts.len(), |i: int| texts[i]@)
}

/// The pairs of a precedent, of which there is one at most.
pub open spec fn precedent_pairs(doc: Seq<char>) -> Seq<PairView> {
    match precedent_pair(doc) {
        Some(pair) => seq![pair],
        None => Seq::empty(),
    }
}

/// Every pair of a list of precedents.
pub open spec fn all_precedent_pairs(docs: Seq<Seq<char>>) -> Seq<PairView>
    decreases docs.len(),
{
    if docs.len() == 0 {
        Seq::empty()
    } else {
        all_precedent_pairs(docs.drop_last()) + precedent_pairs(docs.last())
    }
}

/// Every pair of a list of laws.
pub open spec fn all_law_pairs(docs: Seq<Seq<char>>) -> Seq<PairView>
    decreases docs.len(),
{
    if docs.len() == 0 {
        Seq::empty()
    } else {
        all_law_pairs(docs.drop_last()) + law_pairs(docs.last())
    }
}

/// Every pair of a corpus: first those of the precedents, then those of the laws.
pub open spec fn all_pairs(precedents: Seq<Seq<char>>, laws: Seq<Seq<char>>) -> Seq<PairView> {
    all_precedent_pairs(precedents) + all_law_pairs(laws)
}

/// The first pairs of a list, as many as the limit allows.
pub open spec fn capped(pairs: Seq<PairView>, limit: Option<usize>) -> Seq<PairView> {
    match limit {
        Some(limit) => if limit < pairs.len() {
            pairs.take(limit as int)
        } else {
            pairs
        },
        None => pairs,
    }
}

/// The first pairs of a corpus, as many as the limit allows.
pub open spec fn limited_pairs(
    precedents: Seq<Seq<char>>,
    laws: Seq<Seq<char>>,
    limit: Option<usize>,
) -> Seq<PairView> {
    capped(all_pairs(precedents, laws), limit)
}

/// The collections that training pairs come from.
#[derive(Debug, Clone, Copy, PartialEq, Eq, Structural)]
pub enum Collection {
    Precedents,
    Laws,
}

impl Collection {
    /// The name of a collection in the index.
    pub fn name(&self) -> (r: &'static str)
        ensures
            r@ == match *self {
                Collection::Precedents => "precedents"@,
                Collection::Laws => "laws"@,
            },
    {
        match self {
            Collection::Precedents => "precedents",
            Collection::Laws => "laws",
        }
    }
}

/// The loading of training pairs, a document at a time.
///
/// [`PairLoader::wanted`] says from which collection the next document is wanted,
/// [`PairLoader::accept`] takes it, and [`PairLoader::finish_collection`] says that
/// the collection has no more.
pub struct PairLoader {
    limit: Option<usize>,
    pairs: Vec<TextPair>,
    stage: Option<Collection>,
    precedents: Ghost<Seq<Seq<char>>>,
    laws: Ghost<Seq<Seq<char>>>,
}

impl PairLoader {
    /// The most pairs that are loaded.
    pub closed spec fn limit(&self) -> Option<usize> {
        self.limit
    }

    /// The collection that is being read, if any is left.
    pub closed spec fn stage(&self) -> Option<Collection> {
        self.stage
    }

    /// The precedents so far.
    pub closed spec fn precedents(&self) -> Seq<Seq<char>> {
        self.precedents@
    }

    /// The laws so far.
    pub closed spec fn laws(&self) -> Seq<Seq<char>> {
        self.laws@
    }

    /// The pairs so far.
    pub closed spec fn pair_views(&self) -> Seq<PairView> {
        pair_views(self.pairs@)
    }

    /// What holds of a loader at every time: its pairs are those of the documents
    /// so far, and no law comes before the last precedent.
    pub open spec fn wf(&self) -> bool {
        &&& self.pair_views() == limited_pairs(self.precedents(), self.laws(), self.limit())
        &&& self.stage() == Some(Collection::Precedents) ==> self.laws().len() == 0
    }

    /// Begin to load, up to a limit.
    pub fn start(limit: Option<usize>) -> (r: PairLoader)
        ensures
            r.wf(),
            r.limit() == limit,
            r.stage() == Some(Collection::Precedents),
            r.precedents() == Seq::<Seq<char>>::empty(),
            r.laws() == Seq::<Seq<char>>::empty(),
    {
        let pairs: Vec<TextPair> = Vec::new();
        assert(pair_views(pairs@) =~= limited_pairs(Seq::empty(), Seq::empty(), limit));
        PairLoader {
            limit,
            pairs,
            stage: Some(Collection::Precedents),
            precedents: Ghost(Seq::empty()),
            laws: Ghost(Seq::empty()),
        }
    }

    /// Whether there are as many pairs as the limit allows.
    pub fn is_full(&self) -> (r: bool)
        ensures
            r == reached(self.pair_views().len(), self.limit()),
            r <==> (self.limit() matches Some(limit) && self.pair_views().len() >= limit),
    {
        assert(pair_views(self.pairs@).len() == self.pairs@.len());
        match self.limit {
            Some(limit) => self.pairs.len() >= limit,
            None => false,
        }
    }

    /// The collection that the next document is wanted from: none where nothing is
    /// left to read, or where the limit allows no further pair.
    pub fn wanted(&self) -> (r: Option<Collection>)
        ensures
            r == if reached(self.pair_views().len(), self.limit()) {
                None
            } else {
                self.stage()
            },
            r is None <==> self.stage() is None || (self.limit() matches Some(limit)
                && self.pair_views().len() >= limit),
    {
        if self.is_full() {
            None
        } else {
            self.stage
        }
    }

    /// Take the next document of the collection that is being read.
    pub fn accept(&mut self, doc: &str)
        requires
            old(self).wf(),
            old(self).stage() is Some,
        ensures
            final(self).wf(),
            final(self).limit() == old(self).limit(),
            final(self).stage() == old(self).stage(),
            match old(self).stage() {
                Some(Collection::Precedents) => final(self).precedents() == old(
                    self,
                ).precedents().push(doc@) && final(self).laws() == old(self).laws(),
                _ => final(self).precedents() == old(self).precedents() && final(self).laws()
                    == old(self).laws().push(doc@),
            },
    {
        let ghost before = all_pairs(self.precedents@, self.laws@);
        let ghost precedents = self.precedents@;
        let ghost laws = self.laws@;
        assert(pair_views(self.pairs@).len() == self.pairs@.len());
        match self.stage {
            Some(Collection::Precedents) => {
                let mut found: Vec<TextPair> = Vec::new();
                if let Some(pair) = extract_precedent_pair(doc) {
                    found.push(pair);
                }
                assert(pair_views(found@) =~= precedent_pairs(doc@));
                append_capped(&mut self.pairs, found, self.limit);
                self.precedents = Ghost(precedents.push(doc@));
                proof {
                    let after = precedents.push(doc@);
                    assert(after.drop_last() =~= precedents);
                    assert(all_pairs(after, laws) =~= before + precedent_pairs(doc@));
                    lemma_capped_append(before, precedent_pairs(doc@), self.limit);
                }
            },
            _ => {
                let found = extract_law_pairs(doc);
                append_capped(&mut self.pairs, found, self.limit);
                self.laws = Ghost(laws.push(doc@));
                proof {
                    let after = laws.push(doc@);
                    assert(after.drop_last() =~= laws);
                    assert(all_pairs(precedents, after) =~= before + law_pairs(doc@));
                    lemma_capped_append(before, law_pairs(doc@), self.limit);
                }
            },
        }
    }

    /// Go on to the next collection.
    pub fn finish_collection(&mut self)
        requires
            old(self).wf(),
        ensures
            final(self).wf(),
            final(self).limit() == old(self).limit(),
            final(self).precedents() == old(self).precedents(),
            final(self).laws() == old(self).laws(),
            final(self).stage() == if old(self).stage() == Some(Collection::Precedents) {
                Some(Collection::Laws)
            } else {
                None
            },
    {
        self.stage = match self.stage {
            Some(Collection::Precedents) => Some(Collection::Laws),
            _ => None,
        };
    }

    /// The pairs that were loaded.
    pub fn into_pairs(self) -> (r: Vec<TextPair>)
        requires
            self.wf(),
        ensures
            pair_views(r@) == limited_pairs(self.precedents(), self.laws(), self.limit()),
    {
        self.pairs
    }
}

/// Add pairs one by one, as long as the limit allows.
fn append_capped(pairs: &mut Vec<TextPair>, more: Vec<TextPair>, limit: Option<usize>)
    requires
        limit matches Some(limit) ==> old(pairs)@.len() <= limit,
    ensures
        pair_views(final(pairs)@) == capped(pair_views(old(pairs)@) + pair_views(more@), limit),
{
    let ghost before = pair_views(pairs@);
    let ghost added = pair_views(more@);
    assert(before + added.take(0) =~= before);
    for pair in it: more
        invariant
            added == pair_views(it.seq()),
            before == pair_views(old(pairs)@),
            limit matches Some(limit) ==> pairs@.len() <= limit,
            pair_views(pairs@) == before + added.take(it.index()),
    {
        let full = match limit {
            Some(limit) => pairs.len() >= limit,
            None => false,
        };
        assert(pair_views(pairs@).len() == pairs@.len());
        if full {
            assert(pair_views(pairs@) =~= capped(before + added, limit));
            return ;
        }
        let ghost view = pair@;
        let ghost done = pair_views(pairs@);
        assert(view == added[it.index()]);
        pairs.push(pair);
        assert(pair_views(pairs@) =~= done.push(view));
        assert(pair_views(pairs@) =~= before + added.take(it.index() + 1));
    }
    assert(added.take(added.len() as int) =~= added);
    assert(pair_views(pairs@).len() == pairs@.len());
}

proof fn lemma_capped_append(pairs: Seq<PairView>, more: Seq<PairView>, limit: Option<usize>)
    ensures
        capped(capped(pairs, limit) + more, limit) == capped(pairs + more, limit),
{
    assert(capped(capped(pairs, limit) + more, limit) =~= capped(pairs + more, limit));
}

/// Once as many pairs are there as the limit allows, no further document changes
/// them.
pub proof fn law_full_list_is_final(
    precedents: Seq<Seq<char>>,
    more_precedents: Seq<Seq<char>>,
    laws: Seq<Seq<char>>,
    more_laws: Seq<Seq<char>>,
    limit: Option<usize>,
)
    requires
        reached(limited_pairs(precedents, laws, limit).len(), limit),
        more_precedents.len() > 0 ==> laws.len() == 0,
    ensures
        limited_pairs(precedents + more_precedents, laws + more_laws, limit) == limited_pairs(
            precedents,
            laws,
            limit,
        ),
{
    let few = all_pairs(precedents, laws);
    let many = all_pairs(precedents + more_precedents, laws + more_laws);
    lemma_precedent_pairs_concat(precedents, more_precedents);
    lemma_law_pairs_concat(laws, more_laws);
    if more_precedents.len() == 0 {
        assert(precedents + more_precedents =~= precedents);
        assert(many =~= few + all_law_pairs(more_laws));
    } else {
        assert(laws + more_laws =~= more_laws);
        assert(many =~= few + (all_precedent_pairs(more_precedents) + all_law_pairs(more_laws)));
    }
    assert(capped(many, limit) =~= capped(few, limit));
}

proof fn lemma_precedent_pairs_concat(docs: Seq<Seq<char>>, more: Seq<Seq<char>>)
    ensures
        all_precedent_pairs(docs + more) == all_precedent_pairs(docs) + all_precedent_pairs(more),
    decreases more.len(),
{
    if more.len() == 0 {
        assert(docs + more =~= docs);
        assert(all_precedent_pairs(docs) + Seq::empty() =~= all_precedent_pairs(docs));
    } else {
        assert((docs + more).drop_last() =~= docs + more.drop_last());
        lemma_precedent_pairs_concat(docs, more.drop_last());
        assert(all_precedent_pairs(docs + more) =~= all_precedent_pairs(docs)
            + all_precedent_pairs(more));
    }
}

proof fn lemma_law_pairs_concat(docs: Seq<Seq<char>>, more: Seq<Seq<char>>)
    ensures
        all_law_pairs(docs + more) == all_law_pairs(docs) + all_law_pairs(more),
    decreases more.len(),
{
    if more.len() == 0 {
        assert(docs + more =~= docs);
        assert(all_law_pairs(docs) + Seq::empty() =~= all_law_pairs(docs));
    } else {
        assert((docs + more).drop_last() =~= docs + more.drop_last());
        lemma_law_pairs_concat(docs, more.drop_last());
        assert(all_law_pairs(docs + more) =~= all_law_pairs(docs) + all_law_pairs(more));
    }
}

/// Load the pairs of precedents, up to the limit.
pub fn load_precedent_pairs(docs: &Vec<String>, loader: &mut PairLoader)
    requires
        old(loader).wf(),
        old(loader).stage() == Some(Collection::Precedents),
    ensures
        final(loader).wf(),
        final(loader).limit() == old(loader).limit(),
        final(loader).stage() == old(loader).stage(),
        final(loader).precedents() == old(loader).precedents() + text_views(docs@),
        final(loader).laws() == old(loader).laws(),
{
    let ghost all = text_views(docs@);
    let ghost first = loader.precedents();
    let mut i: usize = 0;
    assert(first + all.take(0) =~= first);
    while i < docs.len()
        invariant
            i <= docs@.len(),
            all == text_views(docs@),
            first == old(loader).precedents(),
            loader.wf(),
            loader.limit() == old(loader).limit(),
            loader.stage() == old(loader).stage(),
            loader.stage() == Some(Collection::Precedents),
            loader.precedents() == first + all.take(i as int),
            loader.laws() == old(loader).laws(),
        decreases docs@.len() - i,
    {
        if loader.is_full() {
            proof {
                law_full_list_is_final(
                    loader.precedents(),
                    all.skip(i as int),
                    loader.laws(),
                    Seq::empty(),
                    loader.limit(),
                );
                assert(loader.precedents() + all.skip(i as int) =~= first + all);
                assert(loader.laws() + Seq::<Seq<char>>::empty() =~= loader.laws());
            }
            loader.precedents = Ghost(first + all);
            return ;
        }
        loader.accept(docs[i].as_str());
        assert(first + all.take(i + 1) =~= (first + all.take(i as int)).push(docs@[i as int]@));
        i += 1;
    }
    assert(all.take(i as int) =~= all);
}

/// Load the pairs of laws, up to the limit.
pub fn load_law_pairs(docs: &Vec<String>, loader: &mut PairLoader)
    requires
        old(loader).wf(),
        old(loader).stage() == Some(Collection::Laws),
    ensures
        final(loader).wf(),
        final(loader).limit() == old(loader).limit(),
        final(loader).stage() == old(loader).stage(),
        final(loader).precedents() == old(loader).precedents(),
        final(loader).laws() == old(loader).laws() + text_views(docs@),
{
    let ghost all = text_views(docs@);
    let ghost first = loader.laws();
    let mut i: usize = 0;
    assert(first + all.take(0) =~= first);
    while i < docs.len()
        invariant
            i <= docs@.len(),
            all == text_views(docs@),
            first == old(loader).laws(),
            loader.wf(),
            loader.limit() == old(loader).limit(),
            loader.stage() == old(loader).stage(),
            loader.stage() == Some(Collection::Laws),
            loader.precedents() == old(loader).precedents(),
            loader.laws() == first + all.take(i as int),
        decreases docs@.len() - i,
    {
        if loader.is_full() {
            proof {
                law_full_list_is_final(
                    loader.precedents(),
                    Seq::empty(),
                    loader.laws(),
                    all.skip(i as int),
                    loader.limit(),
                );
                assert(loader.laws() + all.skip(i as int) =~= first + all);
                assert(loader.precedents() + Seq::<Seq<char>>::empty() =~= loader.precedents());
            }
            loader.laws = Ghost(first + all);
            return ;
        }
        loader.accept(docs[i].as_str());
        assert(first + all.take(i + 1) =~= (first + all.take(i as int)).push(docs@[i as int]@));
        i += 1;
    }
    assert(all.take(i as int) =~= all);
}

/// Load training pairs from all collections, with an optional cap for fast
/// debugging.
pub fn load_pairs_limited(
    precedents: &Vec<String>,
    laws: &Vec<String>,
    limit: Option<usize>,
) -> (r: Vec<TextPair>)
    ensures
        pair_views(r@) == limited_pairs(text_views(precedents@), text_views(laws@), limit),
        limit matches Some(limit) ==> r@.len() <= limit,
        limit matches Some(limit) && limit >= all_pairs(
            text_views(precedents@),
            text_views(laws@),
        ).len() ==> pair_views(r@) == all_pairs(text_views(precedents@), text_views(laws@)),
{
    let mut loader = PairLoader::start(limit);
    load_precedent_pairs(precedents, &mut loader);
    loader.finish_collection();
    load_law_pairs(laws, &mut loader);
    proof {
        assert(Seq::empty() + text_views(precedents@) =~= text_views(precedents@));
        assert(Seq::empty() + text_views(laws@) =~= text_views(laws@));
    }
    let pairs = loader.into_pairs();
    assert(pair_views(pairs@).len() == pairs@.len());
    pairs
}

/// Load every training pair of a corpus.
pub fn load_pairs(precedents: &Vec<String>, laws: &Vec<String>) -> (r: Vec<TextPair>)
    ensures
        pair_views(r@) == all_pairs(text_views(precedents@), text_views(laws@)),
{
    load_pairs_limited(precedents, laws, None)
}

/// Without a limit a corpus gives the pairs of every precedent, in order, and
/// then those of every law; so does a limit that is not exceeded.
pub proof fn law_no_limit_loads_everything(
    precedents: Seq<Seq<char>>,
    laws: Seq<Seq<char>>,
    limit: Option<usize>,
)
    requires
        limit matches Some(limit) ==> limit >= all_pairs(precedents, laws).len(),
    ensures
        limited_pairs(precedents, laws, limit) == all_precedent_pairs(precedents) + all_law_pairs(
            laws,
        ),
{
}

/// A limit only cuts the list of pairs short: what is loaded with one is a
/// prefix of what is loaded without.
pub proof fn law_limit_gives_prefix(
    precedents: Seq<Seq<char>>,
    laws: Seq<Seq<char>>,
    limit: Option<usize>,
)
    ensures
        limited_pairs(precedents, laws, limit).is_prefix_of(limited_pairs(precedents, laws, None)),
{
    let some = limited_pairs(precedents, laws, limit);
    assert(some =~= all_pairs(precedents, laws).take(some.len() as int));
}

/// The smaller of two limits gives a prefix of what the larger gives.
pub proof fn law_smaller_limit_gives_prefix(
    precedents: Seq<Seq<char>>,
    laws: Seq<Seq<char>>,
    smaller: usize,
    larger: usize,
)
    requires
        smaller <= larger,
    ensures
        limited_pairs(precedents, laws, Some(smaller)).is_prefix_of(
            limited_pairs(precedents, laws, Some(larger)),
        ),
{
    let few = limited_pairs(precedents, laws, Some(smaller));
    let many = limited_pairs(precedents, laws, Some(larger));
    assert(few =~= many.take(few.len() as int));
}

/// A limit is a cap: no more pairs are loaded than it says, and fewer only where
/// there are no more.
pub proof fn law_limit_is_a_cap(precedents: Seq<Seq<char>>, laws: Seq<Seq<char>>, limit: usize)
    ensures
        limited_pairs(precedents, laws, Some(limit)).len() == if limit < all_pairs(
            precedents,
            laws,
        ).len() {
            limit as nat
        } else {
            all_pairs(precedents, laws).len()
        },
{
}

/// A law with a title gives its pairs two by two: each article's heading with its
/// body, and behind it the title with that heading.
pub proof fn law_titled_law_gives_pairs_in_twos(doc: Seq<char>)
    requires
        law_title(doc).len() > 0,
    ensures
        law_pairs(doc).len() % 2 == 0,
        forall|i: int|
            0 <= i && 2 * i + 1 < law_pairs(doc).len() ==> {
                &&& (#[trigger] law_pairs(doc)[2 * i + 1]).anchor == law_title(doc)
                &&& law_pairs(doc)[2 * i + 1].positive == law_pairs(doc)[2 * i].anchor
            },
{
    let lines = crate::text::lines(doc);
    lemma_pairs_in_twos(lines, law_title(doc));
    assert forall|i: int| 0 <= i && 2 * i + 1 < law_pairs(doc).len() implies {
        &&& (#[trigger] law_pairs(doc)[2 * i + 1]).anchor == law_title(doc)
        &&& law_pairs(doc)[2 * i + 1].positive == law_pairs(doc)[2 * i].anchor
    } by {
        assert(is_titled_two(law_pairs(doc), law_title(doc), i));
    }
}

spec fn is_titled_two(pairs: Seq<PairView>, title: Seq<char>, i: int) -> bool {
    pairs[2 * i + 1].anchor == title && pairs[2 * i + 1].positive == pairs[2 * i].anchor
}

proof fn lemma_pairs_in_twos(lines: Seq<Seq<char>>, title: Seq<char>)
    requires
        title.len() > 0,
    ensures
        pairs_of_lines(lines, title).len() % 2 == 0,
        forall|i: int|
            0 <= i && 2 * i + 1 < pairs_of_lines(lines, title).len() ==> #[trigger] is_titled_two(
                pairs_of_lines(lines, title),
                title,
                i,
            ),
    decreases lines.len(),
{
    if lines.len() > 0 {
        if is_article_heading(lines[0]) {
            let end = 1 + body_lines(lines.skip(1));
            lemma_body_lines_bound(lines.skip(1));
            let first = article_pairs(
                title,
                heading_text(lines[0]),
                joined(lines.subrange(1, end as int)),
            );
            let rest = pairs_of_lines(lines.skip(end as int), title);
            let all = pairs_of_lines(lines, title);
            lemma_pairs_in_twos(lines.skip(end as int), title);
            assert(all =~= first + rest);
            assert forall|i: int| 0 <= i && 2 * i + 1 < all.len() implies #[trigger] is_titled_two(
                all,
                title,
                i,
            ) by {
                if first.len() == 0 {
                    assert(is_titled_two(rest, title, i));
                } else if i > 0 {
                    assert(is_titled_two(rest, title, i - 1));
                }
            }
        } else {
            lemma_pairs_in_twos(lines.skip(1), title);
        }
    }
}

/// Whether a text has characters, and no whitespace at its ends.
pub open spec fn is_trimmed_text(s: Seq<char>) -> bool {
    s.len() > 0 && !crate::text::is_whitespace(s[0]) && !crate::text::is_whitespace(s.last())
}

/// What holds of every training pair: both texts are there, without whitespace
/// around them, and the positive is not shorter than the shortest label.
pub open spec fn is_usable(pair: PairView) -> bool {
    &&& is_trimmed_text(pair.anchor)
    &&& is_trimmed_text(pair.positive)
    &&& crate::text::byte_len(pair.positive) >= MIN_LABEL_BYTES
}

/// Whether every pair of a list is usable.
pub open spec fn all_usable(pairs: Seq<PairView>) -> bool {
    forall|i: int| 0 <= i < pairs.len() ==> is_usable(#[trigger] pairs[i])
}

/// Every pair that is loaded, with or without a limit, is usable.
pub proof fn law_loaded_pairs_are_usable(
    precedents: Seq<Seq<char>>,
    laws: Seq<Seq<char>>,
    limit: Option<usize>,
)
    ensures
        all_usable(limited_pairs(precedents, laws, limit)),
{
    let some = limited_pairs(precedents, laws, limit);
    let all = limited_pairs(precedents, laws, None);
    law_limit_gives_prefix(precedents, laws, limit);
    lemma_precedent_pairs_usable(precedents);
    lemma_law_pairs_usable(laws);
    assert forall|i: int| 0 <= i < some.len() implies is_usable(#[trigger] some[i]) by {
        assert(some[i] == all[i]);
    }
}

/// Both texts of a precedent's pair stand in the document word for word.
pub proof fn law_precedent_pair_is_quoted(doc: Seq<char>)
    ensures
        precedent_pair(doc) matches Some(pair) ==> crate::text::is_part(doc, pair.anchor)
            && crate::text::is_part(doc, pair.positive),
{
    lemma_section_quoted(doc, "판결요지"@);
    lemma_section_quoted(doc, "참조조문"@);
    lemma_frontmatter_quoted(doc, "사건명"@);
}

/// A found heading is a line of the document, and none stands before it; where
/// none is found, there is none.
pub proof fn lemma_heading_is_first(doc: Seq<char>, marker: Seq<char>, i: int)
    requires
        0 <= i,
    ensures
        match find_heading_from(doc, marker, i) {
            Some(k) => i <= k && is_heading_at(doc, marker, k) && forall|j: int|
                i <= j < k ==> !is_heading_at(doc, marker, j),
            None => forall|j: int| i <= j ==> !is_heading_at(doc, marker, j),
        },
    decreases doc.len() - i + 1,
{
    if i + marker.len() <= doc.len() && !is_heading_at(doc, marker, i) {
        lemma_heading_is_first(doc, marker, i + 1);
    }
}

proof fn lemma_section_quoted(doc: Seq<char>, heading: Seq<char>)
    ensures
        section(doc, heading) matches Some(text) ==> crate::text::is_part(doc, text),
{
    let marker = "## "@ + heading;
    if let Some(at) = find_heading_from(doc, marker, 0) {
        lemma_heading_is_first(doc, marker, 0);
        let after = at + marker.len();
        let rest = doc.skip(after);
        crate::text::lemma_find_is_first(rest, "\n## "@);
        let body = match crate::text::find(rest, "\n## "@) {
            Some(end) => rest.take(end),
            None => rest,
        };
        assert(body =~= doc.subrange(after, after + body.len()));
        crate::text::lemma_range_is_part(doc, after, after + body.len());
        crate::text::lemma_trim_is_part(body);
        crate::text::lemma_part_of_part(doc, body, crate::text::trim(body));
    }
}

proof fn lemma_field_quoted(text: Seq<char>, lines: Seq<Seq<char>>, field: Seq<char>)
    requires
        forall|k: int| 0 <= k < lines.len() ==> crate::text::is_part(text, #[trigger] lines[k]),
    ensures
        first_field(lines, field) matches Some(value) ==> crate::text::is_part(text, value),
    decreases lines.len(),
{
    if lines.len() > 0 {
        let line = crate::text::trim(lines[0]);
        crate::text::lemma_trim_is_part(lines[0]);
        crate::text::lemma_part_of_part(text, lines[0], line);
        if crate::text::starts_with(line, field) {
            let behind = line.skip(field.len() as int);
            let rest = crate::text::trim(behind);
            let value = crate::text::strip_leading(rest, ':');
            assert(behind =~= line.subrange(field.len() as int, line.len() as int));
            crate::text::lemma_range_is_part(line, field.len() as int, line.len() as int);
            crate::text::lemma_part_of_part(text, line, behind);
            crate::text::lemma_trim_is_part(behind);
            crate::text::lemma_part_of_part(text, behind, rest);
            crate::text::lemma_strip_is_part(rest, ':');
            crate::text::lemma_part_of_part(text, rest, value);
            crate::text::lemma_trim_is_part(value);
            crate::text::lemma_part_of_part(text, value, crate::text::trim(value));
        }
        lemma_field_quoted(text, lines.skip(1), field);
    }
}

proof fn lemma_fence_bound(lines: Seq<Seq<char>>)
    ensures
        lines_before_fence(lines) <= lines.len(),
    decreases lines.len(),
{
    if lines.len() > 0 && !is_fence(lines[0]) {
        lemma_fence_bound(lines.skip(1));
    }
}

proof fn lemma_frontmatter_quoted(doc: Seq<char>, field: Seq<char>)
    ensures
        frontmatter_field(doc, field) matches Some(value) ==> crate::text::is_part(doc, value),
{
    reveal_strlit("---");
    if crate::text::starts_with(doc, "---"@) {
        let rest = doc.skip(3);
        let lines = crate::text::lines(rest);
        let front = lines.take(lines_before_fence(lines) as int);
        lemma_fence_bound(lines);
        assert(rest =~= doc.subrange(3, doc.len() as int));
        crate::text::lemma_range_is_part(doc, 3, doc.len() as int);
        assert forall|k: int| 0 <= k < front.len() implies crate::text::is_part(
            doc,
            #[trigger] front[k],
        ) by {
            crate::text::lemma_line_is_part(rest, k);
            crate::text::lemma_part_of_part(doc, rest, lines[k]);
        }
        lemma_field_quoted(doc, front, field);
    }
}

/// Whether a document's frontmatter is closed by a line that ends before an index.
pub open spec fn is_closed_at(doc: Seq<char>, k: int) -> bool {
    let lines = crate::text::lines(doc.subrange(3, k));
    3 < k <= doc.len() && doc[k - 1] == '\n' && lines_before_fence(lines) < lines.len()
}

/// Once a document's frontmatter is closed, what is put behind the document never
/// changes a field of it, also where it looks like one.
pub proof fn law_text_behind_frontmatter_is_ignored(
    doc: Seq<char>,
    behind: Seq<char>,
    field: Seq<char>,
)
    requires
        exists|k: int| #[trigger] is_closed_at(doc, k),
    ensures
        frontmatter_field(doc + behind, field) == frontmatter_field(doc, field),
{
    reveal_strlit("---");
    let k = choose|k: int| #[trigger] is_closed_at(doc, k);
    lemma_front_decides(doc, k, field);
    assert((doc + behind).subrange(3, k) =~= doc.subrange(3, k));
    lemma_front_decides(doc + behind, k, field);
    assert((doc + behind).subrange(0, 3) =~= doc.subrange(0, 3));
}

proof fn lemma_front_decides(doc: Seq<char>, k: int, field: Seq<char>)
    requires
        is_closed_at(doc, k),
    ensures
        crate::text::starts_with(doc, "---"@) ==> frontmatter_field(doc, field) == ({
            let lines = crate::text::lines(doc.subrange(3, k));
            first_field(lines.take(lines_before_fence(lines) as int), field)
        }),
{
    let front = doc.subrange(3, k);
    let rest = doc.skip(k);
    let lines = crate::text::lines(front);
    let all = crate::text::lines(doc.skip(3));
    assert(front.last() == doc[k - 1]);
    crate::text::lemma_lines_append(front, rest);
    assert(front + rest =~= doc.skip(3));
    lemma_fence_of_front(lines, crate::text::lines(rest));
    let end = lines_before_fence(lines) as int;
    assert(all.take(end) =~= lines.take(end));
}

proof fn lemma_fence_of_front(lines: Seq<Seq<char>>, rest: Seq<Seq<char>>)
    requires
        lines_before_fence(lines) < lines.len(),
    ensures
        lines_before_fence(lines + rest) == lines_before_fence(lines),
    decreases lines.len(),
{
    if !is_fence(lines[0]) {
        lemma_fence_of_front(lines.skip(1), rest);
        assert((lines + rest).skip(1) =~= lines.skip(1) + rest);
    }
}

proof fn lemma_section_trimmed(doc: Seq<char>, heading: Seq<char>)
    ensures
        section(doc, heading) matches Some(text) ==> is_trimmed_text(text),
{
    let marker = "## "@ + heading;
    if let Some(at) = find_heading_from(doc, marker, 0) {
        let rest = doc.skip(at + marker.len());
        let body = match crate::text::find(rest, "\n## "@) {
            Some(end) => rest.take(end),
            None => rest,
        };
        crate::text::lemma_trim_is_trimmed(body);
    }
}

proof fn lemma_field_trimmed(lines: Seq<Seq<char>>, field: Seq<char>)
    ensures
        first_field(lines, field) matches Some(value) ==> is_trimmed_text(value),
    decreases lines.len(),
{
    if lines.len() > 0 {
        let line = crate::text::trim(lines[0]);
        let rest = crate::text::trim(line.skip(field.len() as int));
        crate::text::lemma_trim_is_trimmed(crate::text::strip_leading(rest, ':'));
        lemma_field_trimmed(lines.skip(1), field);
    }
}

proof fn lemma_frontmatter_trimmed(doc: Seq<char>, field: Seq<char>)
    ensures
        frontmatter_field(doc, field) matches Some(value) ==> is_trimmed_text(value),
{
    let lines = crate::text::lines(doc.skip(3));
    lemma_field_trimmed(lines.take(lines_before_fence(lines) as int), field);
}

proof fn lemma_precedent_pairs_usable(docs: Seq<Seq<char>>)
    ensures
        all_usable(all_precedent_pairs(docs)),
    decreases docs.len(),
{
    if docs.len() > 0 {
        lemma_section_trimmed(docs.last(), "판결요지"@);
        lemma_section_trimmed(docs.last(), "참조조문"@);
        lemma_frontmatter_trimmed(docs.last(), "사건명"@);
        lemma_precedent_pairs_usable(docs.drop_last());
    }
}

proof fn lemma_joined_trimmed(lines: Seq<Seq<char>>)
    ensures
        joined(lines).len() > 0 ==> is_trimmed_text(joined(lines)),
    decreases lines.len(),
{
    if lines.len() > 0 {
        lemma_joined_trimmed(lines.drop_last());
        crate::text::lemma_trim_is_trimmed(lines.last());
    }
}

proof fn lemma_lines_usable(lines: Seq<Seq<char>>, title: Seq<char>)
    requires
        title.len() > 0 ==> is_trimmed_text(title),
    ensures
        all_usable(pairs_of_lines(lines, title)),
    decreases lines.len(),
{
    if lines.len() > 0 {
        if is_article_heading(lines[0]) {
            let end = 1 + body_lines(lines.skip(1));
            lemma_body_lines_bound(lines.skip(1));
            let heading = heading_text(lines[0]);
            let body = joined(lines.subrange(1, end as int));
            crate::text::lemma_trim_is_trimmed(
                crate::text::strip_leading(crate::text::trim(lines[0]), '#'),
            );
            lemma_joined_trimmed(lines.subrange(1, end as int));
            lemma_lines_usable(lines.skip(end as int), title);
            assert(crate::text::byte_len(Seq::<char>::empty()) == 0);
            assert(heading.len() == 0 ==> heading =~= Seq::<char>::empty());
            assert(body.len() == 0 ==> body =~= Seq::<char>::empty());
            assert(all_usable(article_pairs(title, heading, body)));
        } else {
            lemma_lines_usable(lines.skip(1), title);
        }
    }
}

proof fn lemma_law_pairs_usable(docs: Seq<Seq<char>>)
    ensures
        all_usable(all_law_pairs(docs)),
    decreases docs.len(),
{
    if docs.len() > 0 {
        lemma_frontmatter_trimmed(docs.last(), "제목"@);
        lemma_lines_usable(crate::text::lines(docs.last()), law_title(docs.last()));
        lemma_law_pairs_usable(docs.drop_last());
    }
}

/// Whether the line of an index has `indent` spaces and nothing else before it.
pub open spec fn is_indented_by(doc: Seq<char>, at: int, indent: int) -> bool {
    &&& 0 <= indent <= at
    &&& forall|j: int| at - indent <= j < at ==> #[trigger] doc[j] == ' '
    &&& at == indent || doc[at - indent - 1] == '\n'
}

/// Whether `## heading` is a line of a document, indented by three spaces at most, with
/// its first sign at an index: nothing but whitespace stands behind it up to the line
/// feed.
pub open spec fn is_heading_line(doc: Seq<char>, heading: Seq<char>, at: int) -> bool {
    let after = at + 3 + heading.len();
    &&& 0 <= at
    &&& after <= doc.len()
    &&& doc.subrange(at, after) == seq!['#', '#', ' '] + heading
    &&& exists|indent: int| 0 <= indent <= 3 && #[trigger] is_indented_by(doc, at, indent)
    &&& is_blank_up_to_line_feed(doc, after)
}

/// Whether a section that begins at an index goes up to another: there the next line
/// begins with `## `, or the document ends, and neither is so before.
pub open spec fn ends_section(doc: Seq<char>, after: int, end: int) -> bool {
    &&& after <= end <= doc.len()
    &&& end == doc.len() || (end + 4 <= doc.len() && doc.subrange(end, end + 4) == seq![
        '\n',
        '#',
        '#',
        ' ',
    ])
    &&& forall|j: int|
        after <= j < end && j + 4 <= doc.len() ==> #[trigger] doc.subrange(j, j + 4) != seq![
            '\n',
            '#',
            '#',
            ' ',
        ]
}

proof fn lemma_opens_line(doc: Seq<char>, i: int, indent: nat)
    requires
        0 <= i <= doc.len(),
    ensures
        opens_line(doc, i, indent) <==> exists|k: int|
            0 <= k <= indent && #[trigger] is_indented_by(doc, i, k),
    decreases indent,
{
    if i == 0 || doc[i - 1] == '\n' {
        assert(is_indented_by(doc, i, 0));
    } else {
        if indent > 0 {
            lemma_opens_line(doc, i - 1, (indent - 1) as nat);
        }
        if opens_line(doc, i, indent) {
            let k = choose|k: int| 0 <= k <= indent - 1 && #[trigger] is_indented_by(doc, i - 1, k);
            assert(is_indented_by(doc, i, k + 1));
        }
        if exists|k: int| 0 <= k <= indent && #[trigger] is_indented_by(doc, i, k) {
            let k = choose|k: int| 0 <= k <= indent && #[trigger] is_indented_by(doc, i, k);
            assert(k > 0);
            assert(doc[i - 1] == ' ');
            assert(is_indented_by(doc, i - 1, k - 1));
        }
    }
}

/// Whether nothing but whitespace stands from an index up to the next line feed.
pub open spec fn is_blank_up_to_line_feed(doc: Seq<char>, after: int) -> bool {
    forall|j: int|
        after <= j < doc.len() && !doc.subrange(after, j + 1).contains('\n')
            ==> crate::text::is_whitespace(#[trigger] doc[j])
}

proof fn lemma_line_feed_is_behind(doc: Seq<char>, after: int, j: int)
    requires
        0 <= after <= j < doc.len(),
    ensures
        !doc.subrange(after, j + 1).contains('\n') <==> j < after + crate::text::line_end(
            doc.skip(after),
        ),
{
    let rest = doc.skip(after);
    let end = crate::text::line_end(rest) as int;
    let part = doc.subrange(after, j + 1);
    crate::text::law_line_ends_at_line_feed(rest);
    if j < after + end {
        if part.contains('\n') {
            let k = choose|k: int| 0 <= k < part.len() && part[k] == '\n';
            assert(rest[k] == part[k]);
        }
    } else {
        assert(part[end] == rest[end]);
    }
}

proof fn lemma_blank_line(doc: Seq<char>, after: int)
    requires
        0 <= after <= doc.len(),
    ensures
        crate::text::is_blank(
            doc.skip(after).take(crate::text::line_end(doc.skip(after)) as int),
        ) <==> is_blank_up_to_line_feed(doc, after),
{
    let rest = doc.skip(after);
    let end = crate::text::line_end(rest) as int;
    let line = rest.take(end);
    crate::text::law_line_ends_at_line_feed(rest);
    if crate::text::is_blank(line) {
        assert forall|j: int|
            after <= j < doc.len() && !doc.subrange(after, j + 1).contains(
                '\n',
            ) implies crate::text::is_whitespace(#[trigger] doc[j]) by {
            lemma_line_feed_is_behind(doc, after, j);
            assert(line[j - after] == doc[j]);
        }
    }
    if is_blank_up_to_line_feed(doc, after) {
        assert forall|i: int| 0 <= i < line.len() implies crate::text::is_whitespace(
            #[trigger] line[i],
        ) by {
            lemma_line_feed_is_behind(doc, after, after + i);
            assert(crate::text::is_whitespace(doc[after + i]));
        }
    }
}

proof fn lemma_heading_line(doc: Seq<char>, heading: Seq<char>, at: int)
    requires
        0 <= at,
    ensures
        is_heading_at(doc, "## "@ + heading, at) <==> is_heading_line(doc, heading, at),
{
    reveal_strlit("## ");
    let marker = "## "@ + heading;
    assert(marker =~= seq!['#', '#', ' '] + heading);
    assert(marker.len() == 3 + heading.len());
    if at + marker.len() <= doc.len() {
        lemma_opens_line(doc, at, MAX_INDENT as nat);
        lemma_blank_line(doc, at + marker.len());
    }
}

/// A section is complete: what stands behind the first line that is its heading, up to
/// the next line that begins with `## `, is whitespace, the text of the section, and
/// whitespace again. Where there is nothing but whitespace, there is no text.
pub proof fn law_section_is_complete(doc: Seq<char>, heading: Seq<char>, at: int, end: int)
    requires
        is_heading_line(doc, heading, at),
        forall|j: int| 0 <= j < at ==> !is_heading_line(doc, heading, j),
        ends_section(doc, at + 3 + heading.len(), end),
    ensures
        match section(doc, heading) {
            Some(text) => {
                &&& text.len() > 0
                &&& !crate::text::is_whitespace(text[0])
                &&& !crate::text::is_whitespace(text.last())
                &&& crate::text::is_core(doc.subrange(at + 3 + heading.len(), end), text)
            },
            None => forall|j: int|
                at + 3 + heading.len() <= j < end ==> crate::text::is_whitespace(#[trigger] doc[j]),
        },
{
    reveal_strlit("## ");
    let after = at + 3 + heading.len();
    let body = doc.subrange(after, end);
    lemma_first_heading(doc, heading, at);
    lemma_section_end(doc, after, end);
    lemma_section_text(doc, heading, at, end);
    crate::text::law_trim_takes_off_whitespace_alone(body);
    if section(doc, heading) is None {
        lemma_blank_core(body, crate::text::trim(body));
        assert forall|j: int| after <= j < end implies crate::text::is_whitespace(
            #[trigger] doc[j],
        ) by {
            assert(body[j - after] == doc[j]);
        }
    }
}

proof fn lemma_section_text(doc: Seq<char>, heading: Seq<char>, at: int, end: int)
    requires
        0 <= at,
        at + 3 + heading.len() <= end <= doc.len(),
        find_heading_from(doc, "## "@ + heading, 0) == Some(at),
        match crate::text::find(doc.skip(at + 3 + heading.len()), "\n## "@) {
            Some(i) => end == at + 3 + heading.len() + i,
            None => end == doc.len(),
        },
    ensures
        section(doc, heading) == ({
            let text = crate::text::trim(doc.subrange(at + 3 + heading.len(), end));
            if text.len() == 0 {
                None
            } else {
                Some(text)
            }
        }),
{
    reveal_strlit("## ");
    let after = at + 3 + heading.len();
    let rest = doc.skip(after);
    assert(("## "@ + heading).len() == 3 + heading.len());
    assert(rest.take(end - after) =~= doc.subrange(after, end));
    assert(end == doc.len() ==> rest =~= doc.subrange(after, end));
}

proof fn lemma_blank_core(s: Seq<char>, t: Seq<char>)
    requires
        crate::text::is_core(s, t),
        t.len() == 0,
    ensures
        forall|j: int| 0 <= j < s.len() ==> crate::text::is_whitespace(#[trigger] s[j]),
{
    let lo = choose|lo: int| crate::text::is_core_at(s, t, lo);
    assert forall|j: int| 0 <= j < s.len() implies crate::text::is_whitespace(#[trigger] s[j]) by {
        assert(j < lo || lo <= j);
    }
}

proof fn lemma_first_heading(doc: Seq<char>, heading: Seq<char>, at: int)
    requires
        is_heading_line(doc, heading, at),
        forall|j: int| 0 <= j < at ==> !is_heading_line(doc, heading, j),
    ensures
        find_heading_from(doc, "## "@ + heading, 0) == Some(at),
{
    let marker = "## "@ + heading;
    lemma_heading_line(doc, heading, at);
    lemma_heading_is_first(doc, marker, 0);
    if let Some(k) = find_heading_from(doc, marker, 0) {
        lemma_heading_line(doc, heading, k);
    }
}

proof fn lemma_section_end(doc: Seq<char>, after: int, end: int)
    requires
        0 <= after,
        ends_section(doc, after, end),
    ensures
        match crate::text::find(doc.skip(after), "\n## "@) {
            Some(i) => end == after + i,
            None => end == doc.len(),
        },
{
    reveal_strlit("\n## ");
    let rest = doc.skip(after);
    let next = "\n## "@;
    assert(next =~= seq!['\n', '#', '#', ' ']);
    crate::text::law_find_is_the_first_place(rest, next);
    if end < doc.len() {
        assert(rest.subrange(end - after, end - after + next.len()) =~= doc.subrange(end, end + 4));
    }
    if let Some(i) = crate::text::find(rest, next) {
        assert(doc.subrange(after + i, after + i + 4) =~= rest.subrange(i, i + next.len()));
    }
}

/// Without a line that is its heading, a section has no text.
pub proof fn law_section_needs_its_heading(doc: Seq<char>, heading: Seq<char>)
    requires
        forall|j: int| 0 <= j <= doc.len() ==> !is_heading_line(doc, heading, j),
    ensures
        section(doc, heading) is None,
{
    let marker = "## "@ + heading;
    lemma_heading_is_first(doc, marker, 0);
    if let Some(k) = find_heading_from(doc, marker, 0) {
        lemma_heading_line(doc, heading, k);
    }
}

/// Whether a line says that a field has a value: the name stands at `name`, colons from
/// `colon` up to `behind`, and the value from `at` on. All else is whitespace, and the
/// value has none at its ends.
pub open spec fn says(
    line: Seq<char>,
    field: Seq<char>,
    value: Seq<char>,
    name: int,
    colon: int,
    behind: int,
    at: int,
) -> bool {
    &&& 0 <= name
    &&& name + field.len() <= colon < behind <= at
    &&& at + value.len() <= line.len()
    &&& line.subrange(name, name + field.len()) == field
    &&& line.subrange(at, at + value.len()) == value
    &&& forall|j: int| colon <= j < behind ==> #[trigger] line[j] == ':'
    &&& forall|j: int|
        0 <= j < name || name + field.len() <= j < colon || behind <= j < at || at + value.len()
            <= j < line.len() ==> crate::text::is_whitespace(#[trigger] line[j])
    &&& value.len() > 0
    &&& !crate::text::is_whitespace(value[0])
    &&& !crate::text::is_whitespace(value.last())
    &&& at == behind ==> value[0] != ':'
}

/// A line gives a field a value exactly where it says so: the name, a colon, and the
/// value, whole, with whitespace around each.
pub proof fn law_field_has_the_value_that_its_line_says(
    line: Seq<char>,
    field: Seq<char>,
    value: Seq<char>,
)
    requires
        field.len() > 0,
        !crate::text::is_whitespace(field[0]),
    ensures
        field_value(line, field) == Some(value) <==> exists|
            name: int,
            colon: int,
            behind: int,
            at: int,
        | says(line, field, value, name, colon, behind, at),
{
    if field_value(line, field) == Some(value) {
        lemma_value_is_said(line, field, value);
    }
    if exists|name: int, colon: int, behind: int, at: int|
        says(line, field, value, name, colon, behind, at) {
        let (name, colon, behind, at) = choose|name: int, colon: int, behind: int, at: int|
            says(line, field, value, name, colon, behind, at);
        lemma_said_value_is_read(line, field, value, name, colon, behind, at);
    }
}

proof fn lemma_core_of_range(s: Seq<char>, from: int, to: int, t: Seq<char>, lo: int)
    requires
        0 <= from <= to <= s.len(),
        crate::text::is_core_at(s.subrange(from, to), t, lo),
    ensures
        0 <= lo,
        from + lo + t.len() <= to,
        s.subrange(from + lo, from + lo + t.len()) == t,
        forall|j: int| from <= j < from + lo ==> crate::text::is_whitespace(#[trigger] s[j]),
        forall|j: int|
            from + lo + t.len() <= j < to ==> crate::text::is_whitespace(#[trigger] s[j]),
{
    let part = s.subrange(from, to);
    assert(part.subrange(lo, lo + t.len()) =~= s.subrange(from + lo, from + lo + t.len()));
    assert forall|j: int| from <= j < from + lo implies crate::text::is_whitespace(
        #[trigger] s[j],
    ) by {
        assert(part[j - from] == s[j]);
    }
    assert forall|j: int| from + lo + t.len() <= j < to implies crate::text::is_whitespace(
        #[trigger] s[j],
    ) by {
        assert(part[j - from] == s[j]);
    }
}

proof fn lemma_tail_is_said(line: Seq<char>, behind: int, to: int, value: Seq<char>) -> (at: int)
    requires
        0 <= behind <= to <= line.len(),
        value == crate::text::trim(line.subrange(behind, to)),
        value.len() > 0,
        line[behind] != ':' || behind == to,
    ensures
        behind <= at,
        at + value.len() <= to,
        line.subrange(at, at + value.len()) == value,
        forall|j: int| behind <= j < at ==> crate::text::is_whitespace(#[trigger] line[j]),
        forall|j: int| at + value.len() <= j < to ==> crate::text::is_whitespace(#[trigger] line[j]),
        at == behind ==> value[0] != ':',
{
    let tail = line.subrange(behind, to);
    crate::text::law_trim_takes_off_whitespace_alone(tail);
    let d = choose|d: int| crate::text::is_core_at(tail, value, d);
    lemma_core_of_range(line, behind, to, value, d);
    assert(value[0] == line.subrange(behind + d, behind + d + value.len())[0]);
    behind + d
}

proof fn lemma_rest_is_said(line: Seq<char>, from: int, to: int) -> (r: (int, int, int))
    requires
        0 <= from <= to <= line.len(),
        crate::text::trim(line.subrange(from, to)).len() > 0,
        crate::text::trim(line.subrange(from, to))[0] == ':',
    ensures
        ({
            let (colon, behind, stop) = r;
            let rest = crate::text::trim(line.subrange(from, to));
            &&& from <= colon < behind <= stop <= to
            &&& crate::text::strip_leading(rest, ':') == line.subrange(behind, stop)
            &&& behind < stop ==> line[behind] != ':'
            &&& forall|j: int| from <= j < colon ==> crate::text::is_whitespace(#[trigger] line[j])
            &&& forall|j: int| colon <= j < behind ==> #[trigger] line[j] == ':'
            &&& forall|j: int| stop <= j < to ==> crate::text::is_whitespace(#[trigger] line[j])
        }),
{
    let after = line.subrange(from, to);
    let rest = crate::text::trim(after);
    crate::text::law_trim_takes_off_whitespace_alone(after);
    let b = choose|b: int| crate::text::is_core_at(after, rest, b);
    lemma_core_of_range(line, from, to, rest, b);
    let colon = from + b;
    let stop = colon + rest.len();
    let tail = crate::text::strip_leading(rest, ':');
    crate::text::law_strip_takes_off_one_character(rest, ':');
    let behind = colon + (rest.len() - tail.len());
    assert(tail =~= line.subrange(behind, stop));
    assert(tail.len() > 0 ==> tail[0] == line[behind]);
    assert forall|j: int| colon <= j < behind implies #[trigger] line[j] == ':' by {
        assert(rest[j - colon] == line.subrange(colon, stop)[j - colon]);
    }
    (colon, behind, stop)
}

proof fn lemma_value_is_said(line: Seq<char>, field: Seq<char>, value: Seq<char>)
    requires
        field_value(line, field) == Some(value),
    ensures
        exists|name: int, colon: int, behind: int, at: int|
            says(line, field, value, name, colon, behind, at),
{
    let width = field.len() as int;
    let core = crate::text::trim(line);
    crate::text::law_trim_takes_off_whitespace_alone(line);
    let name = choose|name: int| crate::text::is_core_at(line, core, name);
    let to = name + core.len();
    assert(core.skip(width) =~= line.subrange(name + width, to));
    assert(core.subrange(0, width) =~= line.subrange(name, name + width));
    let (colon, behind, stop) = lemma_rest_is_said(line, name + width, to);
    let at = lemma_tail_is_said(line, behind, stop, value);
    crate::text::lemma_trim_is_trimmed(line.subrange(behind, stop));
    assert(says(line, field, value, name, colon, behind, at));
}

proof fn lemma_said_value_is_read(
    line: Seq<char>,
    field: Seq<char>,
    value: Seq<char>,
    name: int,
    colon: int,
    behind: int,
    at: int,
)
    requires
        field.len() > 0,
        !crate::text::is_whitespace(field[0]),
        says(line, field, value, name, colon, behind, at),
    ensures
        field_value(line, field) == Some(value),
{
    let end = at + value.len();
    let width = field.len() as int;
    let core = line.subrange(name, end);
    let after = line.subrange(name + width, end);
    let rest = line.subrange(colon, end);
    let tail = line.subrange(behind, end);
    assert(line.subrange(name, name + width)[0] == line[name]);
    assert(line.subrange(at, end)[0] == line[at]);
    assert(line.subrange(at, end)[value.len() - 1] == line[end - 1]);
    assert(crate::text::is_core_at(line, core, name));
    crate::text::lemma_core_is_trimmed(line, core, name);
    assert(core.subrange(0, width) =~= field) by {
        assert(core.subrange(0, width) =~= line.subrange(name, name + width));
    }
    assert(core.skip(width) =~= after);
    lemma_rest_is_trimmed(line, after, name + width, colon, end);
    lemma_colons_are_taken_off(line, rest, tail, colon, behind, end);
    assert(tail.subrange(at - behind, at - behind + value.len()) =~= value);
    assert forall|j: int| 0 <= j < at - behind implies crate::text::is_whitespace(
        #[trigger] tail[j],
    ) by {
        assert(tail[j] == line[behind + j]);
    }
    assert(crate::text::is_core_at(tail, value, at - behind));
    crate::text::lemma_core_is_trimmed(tail, value, at - behind);
    assert(rest[0] == line[colon]);
}

proof fn lemma_rest_is_trimmed(line: Seq<char>, after: Seq<char>, from: int, colon: int, end: int)
    requires
        0 <= from <= colon < end <= line.len(),
        after == line.subrange(from, end),
        forall|j: int| from <= j < colon ==> crate::text::is_whitespace(#[trigger] line[j]),
        line[colon] == ':',
        !crate::text::is_whitespace(line[end - 1]),
    ensures
        crate::text::trim(after) == line.subrange(colon, end),
{
    let rest = line.subrange(colon, end);
    let lo = colon - from;
    assert(after.subrange(lo, lo + rest.len()) =~= rest);
    assert forall|j: int| 0 <= j < lo implies crate::text::is_whitespace(#[trigger] after[j]) by {
        assert(after[j] == line[from + j]);
    }
    assert(crate::text::is_core_at(after, rest, lo));
    assert(rest[0] == ':');
    assert(rest.last() == line[end - 1]);
    crate::text::lemma_core_is_trimmed(after, rest, lo);
}

proof fn lemma_colons_are_taken_off(
    line: Seq<char>,
    rest: Seq<char>,
    tail: Seq<char>,
    colon: int,
    behind: int,
    end: int,
)
    requires
        0 <= colon <= behind < end <= line.len(),
        rest == line.subrange(colon, end),
        tail == line.subrange(behind, end),
        forall|j: int| colon <= j < behind ==> #[trigger] line[j] == ':',
        line[behind] != ':',
    ensures
        crate::text::strip_leading(rest, ':') == tail,
{
    let left = crate::text::strip_leading(rest, ':');
    crate::text::law_strip_takes_off_one_character(rest, ':');
    let cut = rest.len() - left.len();
    if cut < behind - colon {
        assert(left[0] == rest[cut]);
        assert(rest[cut] == line[colon + cut]);
    }
    if cut > behind - colon {
        assert(rest[behind - colon] == line[behind]);
    }
    assert(left =~= tail);
}

/// Whether a line is `---`, with nothing but whitespace behind it.
pub open spec fn is_closing_line(line: Seq<char>) -> bool {
    &&& line.len() >= 3
    &&& line.take(3) == seq!['-', '-', '-']
    &&& forall|j: int| 3 <= j < line.len() ==> crate::text::is_whitespace(#[trigger] line[j])
}

proof fn lemma_closing_line(line: Seq<char>)
    ensures
        is_fence(line) <==> is_closing_line(line),
{
    reveal_strlit("---");
    assert("---"@ =~= seq!['-', '-', '-']);
    if line.len() >= 3 {
        let rest = line.skip(3);
        assert(line.subrange(0, 3) =~= line.take(3));
        if is_fence(line) {
            assert forall|j: int| 3 <= j < line.len() implies crate::text::is_whitespace(
                #[trigger] line[j],
            ) by {
                assert(rest[j - 3] == line[j]);
            }
        }
        if is_closing_line(line) {
            assert forall|j: int| 0 <= j < rest.len() implies crate::text::is_whitespace(
                #[trigger] rest[j],
            ) by {
                assert(rest[j] == line[j + 3]);
            }
        }
    }
}

proof fn lemma_first_fence(lines: Seq<Seq<char>>, end: int)
    requires
        0 <= end <= lines.len(),
        end < lines.len() ==> is_closing_line(lines[end]),
        forall|k: int| 0 <= k < end ==> !is_closing_line(#[trigger] lines[k]),
    ensures
        lines_before_fence(lines) == end,
    decreases end,
{
    if lines.len() > 0 {
        lemma_closing_line(lines[0]);
        if end > 0 {
            let rest = lines.skip(1);
            assert(!is_closing_line(lines[0]));
            assert forall|k: int| 0 <= k < end - 1 implies !is_closing_line(#[trigger] rest[k]) by {
                assert(rest[k] == lines[k + 1]);
            }
            lemma_first_fence(rest, end - 1);
        }
    }
}

proof fn lemma_first_field(lines: Seq<Seq<char>>, field: Seq<char>)
    ensures
        match first_field(lines, field) {
            Some(value) => exists|k: int|
                0 <= k < lines.len() && field_value(#[trigger] lines[k], field) == Some(value)
                    && forall|j: int|
                    0 <= j < k ==> field_value(#[trigger] lines[j], field) is None,
            None => forall|j: int|
                0 <= j < lines.len() ==> field_value(#[trigger] lines[j], field) is None,
        },
    decreases lines.len(),
{
    if lines.len() > 0 {
        let rest = lines.skip(1);
        if field_value(lines[0], field) is None {
            lemma_first_field(rest, field);
            match first_field(rest, field) {
                Some(value) => {
                    let k = choose|k: int|
                        0 <= k < rest.len() && field_value(#[trigger] rest[k], field) == Some(value)
                            && forall|j: int|
                            0 <= j < k ==> field_value(#[trigger] rest[j], field) is None;
                    assert(lines[k + 1] == rest[k]);
                    assert forall|j: int| 0 <= j < k + 1 implies field_value(
                        #[trigger] lines[j],
                        field,
                    ) is None by {
                        if j > 0 {
                            assert(rest[j - 1] == lines[j]);
                        }
                    }
                },
                None => {
                    assert forall|j: int| 0 <= j < lines.len() implies field_value(
                        #[trigger] lines[j],
                        field,
                    ) is None by {
                        if j > 0 {
                            assert(rest[j - 1] == lines[j]);
                        }
                    }
                },
            }
        }
    }
}

/// A frontmatter field is read from the lines between the opening `---` and the first
/// line that is `---`, and from the first of them that gives it a value.
pub proof fn law_field_is_read_between_the_fences(doc: Seq<char>, field: Seq<char>, end: int)
    requires
        doc.len() >= 3,
        doc.take(3) == seq!['-', '-', '-'],
        0 <= end < crate::text::lines(doc.skip(3)).len(),
        is_closing_line(crate::text::lines(doc.skip(3))[end]),
        forall|k: int|
            0 <= k < end ==> !is_closing_line(#[trigger] crate::text::lines(doc.skip(3))[k]),
    ensures
        match frontmatter_field(doc, field) {
            Some(value) => exists|k: int|
                0 <= k < end && field_value(
                    #[trigger] crate::text::lines(doc.skip(3))[k],
                    field,
                ) == Some(value) && forall|j: int|
                    0 <= j < k ==> field_value(
                        #[trigger] crate::text::lines(doc.skip(3))[j],
                        field,
                    ) is None,
            None => forall|j: int|
                0 <= j < end ==> field_value(
                    #[trigger] crate::text::lines(doc.skip(3))[j],
                    field,
                ) is None,
        },
{
    reveal_strlit("---");
    let lines = crate::text::lines(doc.skip(3));
    let front = lines.take(end);
    assert("---"@ =~= seq!['-', '-', '-']);
    assert(doc.subrange(0, 3) =~= doc.take(3));
    lemma_first_fence(lines, end);
    lemma_first_field(front, field);
    match frontmatter_field(doc, field) {
        Some(value) => {
            let k = choose|k: int|
                0 <= k < front.len() && field_value(#[trigger] front[k], field) == Some(value)
                    && forall|j: int|
                    0 <= j < k ==> field_value(#[trigger] front[j], field) is None;
            assert(lines[k] == front[k]);
            assert forall|j: int| 0 <= j < k implies field_value(
                #[trigger] lines[j],
                field,
            ) is None by {
                assert(front[j] == lines[j]);
            }
        },
        None => {
            assert forall|j: int| 0 <= j < end implies field_value(
                #[trigger] lines[j],
                field,
            ) is None by {
                assert(front[j] == lines[j]);
            }
        },
    }
}

/// A document has no frontmatter fields where it does not begin with `---`, or where no
/// further line is `---`.
pub proof fn law_frontmatter_needs_both_fences(doc: Seq<char>, field: Seq<char>)
    requires
        doc.len() < 3 || doc.take(3) != seq!['-', '-', '-'] || forall|k: int|
            0 <= k < crate::text::lines(doc.skip(3)).len() ==> !is_closing_line(
                #[trigger] crate::text::lines(doc.skip(3))[k],
            ),
    ensures
        frontmatter_field(doc, field) is None,
{
    reveal_strlit("---");
    let lines = crate::text::lines(doc.skip(3));
    assert("---"@ =~= seq!['-', '-', '-']);
    if doc.len() >= 3 {
        assert(doc.subrange(0, 3) =~= doc.take(3));
        if doc.take(3) == seq!['-', '-', '-'] {
            lemma_first_fence(lines, lines.len() as int);
        }
    }
}

/// A precedent gives one pair: its whole ruling summary, with the whole section of
/// statutes or, where there is none, with the case name of the frontmatter. It gives
/// none where one of the two is missing or takes too few bytes.
pub proof fn law_precedent_pairs_its_summary(doc: Seq<char>, pair: PairView)
    ensures
        precedent_pair(doc) == Some(pair) <==> {
            &&& section(doc, "판결요지"@) == Some(pair.anchor)
            &&& match section(doc, "참조조문"@) {
                Some(statutes) => pair.positive == statutes,
                None => frontmatter_field(doc, "사건명"@) == Some(pair.positive),
            }
            &&& vstd::utf8::encode_utf8(pair.anchor).len() >= 20
            &&& vstd::utf8::encode_utf8(pair.positive).len() >= 5
        },
{
}

/// An article's body keeps every sign of its lines, in order.
pub proof fn law_body_keeps_every_sign(lines: Seq<Seq<char>>)
    ensures
        crate::text::unspaced(joined(lines)) == crate::text::unspaced(lines.flatten()),
    decreases lines.len(),
{
    reveal(Seq::filter);
    if lines.len() == 0 {
        assert(joined(lines) =~= lines.flatten());
    } else {
        let head = lines.drop_last();
        let last = lines.last();
        let line = crate::text::trim(last);
        law_body_keeps_every_sign(head);
        head.lemma_flatten_push(last);
        assert(head.push(last) =~= lines);
        crate::text::lemma_unspaced_add(head.flatten(), last);
        crate::text::law_trim_keeps_every_sign(last);
        let space = seq![' '];
        assert(crate::text::unspaced(line) == crate::text::unspaced(last));
        if line.len() == 0 {
            assert(line =~= Seq::empty());
            crate::text::lemma_unspaced_blank(line);
            assert(crate::text::unspaced(joined(lines)) =~= crate::text::unspaced(head.flatten())
                + crate::text::unspaced(last));
        } else if joined(head).len() == 0 {
            assert(joined(head) =~= Seq::empty());
            crate::text::lemma_unspaced_blank(joined(head));
            assert(crate::text::unspaced(joined(lines)) =~= crate::text::unspaced(head.flatten())
                + crate::text::unspaced(last));
        } else {
            crate::text::lemma_unspaced_blank(space);
            crate::text::lemma_unspaced_add(joined(head), space);
            crate::text::lemma_unspaced_add(joined(head) + space, line);
            assert(joined(head).push(' ') =~= joined(head) + space);
            assert(crate::text::unspaced(joined(lines)) =~= crate::text::unspaced(head.flatten())
                + crate::text::unspaced(last));
        }
    }
}

/// The body of some lines is that of the first of them and that of the others, with one
/// space between the two where both have signs; the body of one line is the line
/// without the whitespace around it.
pub proof fn law_bodies_are_joined_by_a_space(lines: Seq<Seq<char>>, more: Seq<Seq<char>>)
    ensures
        joined(lines + more) == if joined(more).len() == 0 {
            joined(lines)
        } else if joined(lines).len() == 0 {
            joined(more)
        } else {
            joined(lines) + seq![' '] + joined(more)
        },
        lines.len() == 1 ==> joined(lines) == crate::text::trim(lines[0]),
        lines.len() == 0 ==> joined(lines).len() == 0,
    decreases more.len(),
{
    if lines.len() == 1 {
        assert(lines.drop_last() =~= Seq::empty());
        assert(joined(lines.drop_last()).len() == 0);
        let line = crate::text::trim(lines[0]);
        assert(line.len() == 0 ==> line =~= Seq::empty());
    }
    if more.len() == 0 {
        assert(lines + more =~= lines);
    } else {
        let fewer = more.drop_last();
        law_bodies_are_joined_by_a_space(lines, fewer);
        assert((lines + more).drop_last() =~= lines + fewer);
        assert((lines + more).last() == more.last());
        assert(joined(lines + more) =~= if joined(more).len() == 0 {
            joined(lines)
        } else if joined(lines).len() == 0 {
            joined(more)
        } else {
            joined(lines) + seq![' '] + joined(more)
        });
    }
}

/// Each line of an article, without the whitespace around it, stands in the body.
pub proof fn law_body_quotes_every_line(lines: Seq<Seq<char>>, k: int)
    requires
        0 <= k < lines.len(),
    ensures
        crate::text::is_part(joined(lines), crate::text::trim(lines[k])),
{
    let line = crate::text::trim(lines[k]);
    let one = seq![lines[k]];
    let before = lines.take(k);
    let after = lines.skip(k + 1);
    law_bodies_are_joined_by_a_space(one, after);
    law_bodies_are_joined_by_a_space(before, one + after);
    assert(before + (one + after) =~= lines);
    let tail = joined(one + after);
    let body = joined(lines);
    if line.len() == 0 {
        assert(body.subrange(0, 0) =~= line);
        assert(crate::text::occurs_at(body, line, 0));
    } else {
        assert(tail.subrange(0, line.len() as int) =~= line);
        let at = body.len() - tail.len();
        assert(body.subrange(at, at + line.len()) =~= tail.subrange(0, line.len() as int));
        assert(crate::text::occurs_at(body, line, at));
    }
}

/// Whether a line, without the whitespace around it, begins with `#`.
pub open spec fn begins_with_hash(line: Seq<char>) -> bool {
    let line = crate::text::trim(line);
    line.len() > 0 && line[0] == '#'
}

/// Whether a line, without the whitespace around it, begins with `##### 제` and names an
/// article (조).
pub open spec fn names_article(line: Seq<char>) -> bool {
    let line = crate::text::trim(line);
    &&& line.len() >= 7
    &&& line.take(7) == seq!['#', '#', '#', '#', '#', ' ', '제']
    &&& exists|j: int| 0 <= j < line.len() && #[trigger] line[j] == '조'
}

/// The pairs that an article with a heading line and body lines is to give.
pub open spec fn pairs_of_article(
    title: Seq<char>,
    line: Seq<char>,
    body: Seq<Seq<char>>,
) -> Seq<PairView> {
    let heading = crate::text::trim(
        crate::text::strip_leading(crate::text::trim(line), '#'),
    );
    if vstd::utf8::encode_utf8(heading).len() < 5 || vstd::utf8::encode_utf8(joined(body)).len()
        < 20 {
        Seq::empty()
    } else {
        seq![PairView { anchor: heading, positive: joined(body) }] + if title.len() == 0 {
            Seq::empty()
        } else {
            seq![PairView { anchor: title, positive: heading }]
        }
    }
}

proof fn lemma_names_article(line: Seq<char>)
    ensures
        is_article_heading(line) <==> names_article(line),
        is_heading(line) <==> begins_with_hash(line),
        names_article(line) ==> begins_with_hash(line),
{
    reveal_strlit("##### 제");
    let line = crate::text::trim(line);
    assert("##### 제"@ =~= seq!['#', '#', '#', '#', '#', ' ', '제']);
    if line.len() >= 7 {
        assert(line.subrange(0, 7) =~= line.take(7));
        assert(line.take(7)[0] == line[0]);
    }
}

proof fn lemma_body_lines_append(lines: Seq<Seq<char>>, rest: Seq<Seq<char>>)
    requires
        rest.len() == 0 || is_heading(rest[0]),
    ensures
        body_lines(lines + rest) == body_lines(lines),
    decreases lines.len(),
{
    if lines.len() == 0 {
        assert(lines + rest =~= rest);
    } else if !is_heading(lines[0]) {
        lemma_body_lines_append(lines.skip(1), rest);
        assert((lines + rest).skip(1) =~= lines.skip(1) + rest);
    }
}

proof fn lemma_body_lines_whole(lines: Seq<Seq<char>>)
    requires
        forall|k: int| 0 <= k < lines.len() ==> !begins_with_hash(#[trigger] lines[k]),
    ensures
        body_lines(lines) == lines.len(),
    decreases lines.len(),
{
    if lines.len() > 0 {
        let rest = lines.skip(1);
        lemma_names_article(lines[0]);
        assert(!begins_with_hash(lines[0]));
        assert forall|k: int| 0 <= k < rest.len() implies !begins_with_hash(#[trigger] rest[k]) by {
            assert(rest[k] == lines[k + 1]);
        }
        lemma_body_lines_whole(rest);
    }
}

proof fn lemma_pairs_append(front: Seq<Seq<char>>, rest: Seq<Seq<char>>, title: Seq<char>)
    requires
        rest.len() == 0 || is_heading(rest[0]),
    ensures
        pairs_of_lines(front + rest, title) == pairs_of_lines(front, title) + pairs_of_lines(
            rest,
            title,
        ),
    decreases front.len(),
{
    let all = front + rest;
    if front.len() == 0 {
        assert(all =~= rest);
        assert(pairs_of_lines(front, title) + pairs_of_lines(rest, title) =~= pairs_of_lines(
            rest,
            title,
        ));
    } else if is_article_heading(front[0]) {
        let behind = front.skip(1);
        let end = 1 + body_lines(behind);
        lemma_body_lines_bound(behind);
        lemma_body_lines_append(behind, rest);
        assert(all.skip(1) =~= behind + rest);
        assert(all.subrange(1, end as int) =~= front.subrange(1, end as int));
        assert(all.skip(end as int) =~= front.skip(end as int) + rest);
        lemma_pairs_append(front.skip(end as int), rest, title);
        assert(pairs_of_lines(all, title) =~= pairs_of_lines(front, title) + pairs_of_lines(
            rest,
            title,
        ));
    } else {
        assert(all.skip(1) =~= front.skip(1) + rest);
        lemma_pairs_append(front.skip(1), rest, title);
    }
}

/// An article gives its own pairs, whatever stands around it: its heading with all of
/// its lines up to the next heading, and the title of the law with its heading. They
/// stand behind those of the lines before it and before those of the lines behind it.
pub proof fn law_article_gives_its_pairs(
    before: Seq<Seq<char>>,
    line: Seq<char>,
    body: Seq<Seq<char>>,
    rest: Seq<Seq<char>>,
    title: Seq<char>,
)
    requires
        names_article(line),
        forall|k: int| 0 <= k < body.len() ==> !begins_with_hash(#[trigger] body[k]),
        rest.len() == 0 || begins_with_hash(rest[0]),
    ensures
        pairs_of_lines(before + seq![line] + body + rest, title) == pairs_of_lines(before, title)
            + pairs_of_article(title, line, body) + pairs_of_lines(rest, title),
{
    lemma_names_article(line);
    if rest.len() > 0 {
        lemma_names_article(rest[0]);
    }
    let article = seq![line] + body;
    let tail = article + rest;
    assert(tail[0] == line);
    lemma_pairs_append(before, tail, title);
    assert(before + tail =~= before + seq![line] + body + rest);
    lemma_pairs_append(article, rest, title);
    lemma_body_lines_whole(body);
    assert(article.skip(1) =~= body);
    assert(article.subrange(1, article.len() as int) =~= body);
    assert(pairs_of_lines(article.skip(article.len() as int), title).len() == 0);
    assert(pairs_of_lines(article, title) =~= pairs_of_article(title, line, body));
    assert(pairs_of_lines(before, title) + (pairs_of_article(title, line, body) + pairs_of_lines(
        rest,
        title,
    )) =~= pairs_of_lines(before, title) + pairs_of_article(title, line, body) + pairs_of_lines(
        rest,
        title,
    ));
}

/// Lines that name no article give no pairs.
pub proof fn law_only_articles_give_pairs(lines: Seq<Seq<char>>, title: Seq<char>)
    requires
        forall|k: int| 0 <= k < lines.len() ==> !names_article(#[trigger] lines[k]),
    ensures
        pairs_of_lines(lines, title).len() == 0,
    decreases lines.len(),
{
    if lines.len() > 0 {
        let rest = lines.skip(1);
        lemma_names_article(lines[0]);
        assert(!names_article(lines[0]));
        assert forall|k: int| 0 <= k < rest.len() implies !names_article(#[trigger] rest[k]) by {
            assert(rest[k] == lines[k + 1]);
        }
        law_only_articles_give_pairs(rest, title);
    }
}

/// The pairs of a law are those of all its lines, under the title that its frontmatter
/// gives it.
pub proof fn law_law_is_read_line_by_line(doc: Seq<char>)
    ensures
        law_pairs(doc) == pairs_of_lines(
            crate::text::lines(doc),
            match frontmatter_field(doc, "제목"@) {
                Some(title) => title,
                None => Seq::empty(),
            },
        ),
{
}

/// Every document of a corpus gives its own pairs, in the order of the documents: each
/// precedent its one pair, if it has one, and each law all of its pairs.
pub proof fn law_corpus_gives_the_pairs_of_each_document(
    docs: Seq<Seq<char>>,
    doc: Seq<char>,
    more: Seq<Seq<char>>,
)
    ensures
        all_precedent_pairs(docs + seq![doc] + more) == all_precedent_pairs(docs) + match precedent_pair(
            doc,
        ) {
            Some(pair) => seq![pair],
            None => Seq::empty(),
        } + all_precedent_pairs(more),
        all_law_pairs(docs + seq![doc] + more) == all_law_pairs(docs) + law_pairs(doc)
            + all_law_pairs(more),
        all_precedent_pairs(Seq::empty()).len() == 0,
        all_law_pairs(Seq::empty()).len() == 0,
{
    let one = seq![doc];
    assert(one.drop_last() =~= Seq::empty());
    assert(all_precedent_pairs(one.drop_last()).len() == 0);
    assert(all_law_pairs(one.drop_last()).len() == 0);
    lemma_precedent_pairs_concat(docs, one);
    lemma_precedent_pairs_concat(docs + one, more);
    lemma_law_pairs_concat(docs, one);
    lemma_law_pairs_concat(docs + one, more);
    assert(all_precedent_pairs(one) =~= precedent_pairs(doc));
    assert(all_law_pairs(one) =~= law_pairs(doc));
}

/// Lists of texts and of pairs are taken item by item.
pub proof fn law_lists_are_taken_item_by_item(texts: Seq<String>, pairs: Seq<TextPair>, i: int)
    ensures
        text_views(texts).len() == texts.len(),
        pair_views(pairs).len() == pairs.len(),
        0 <= i < texts.len() ==> text_views(texts)[i] == texts[i]@,
        0 <= i < pairs.len() ==> pair_views(pairs)[i].anchor == pairs[i].anchor@
            && pair_views(pairs)[i].positive == pairs[i].positive@,
{
}

/// Counts the active documents of every collection.
pub const COUNT_ACTIVE_SQL: &'static str = "SELECT COUNT(*) FROM documents WHERE active = 1";

/// Counts the active documents of the collection that it is given.
pub const COUNT_ACTIVE_IN_COLLECTION_SQL: &'static str =
    "SELECT COUNT(*) FROM documents WHERE active = 1 AND collection = ?1";

/// The query that counts active documents, in one collection or in all.
pub fn count_active_documents_sql(collection: Option<&str>) -> (r: &'static str)
    ensures
        r@ == if collection is Some {
            COUNT_ACTIVE_IN_COLLECTION_SQL@
        } else {
            COUNT_ACTIVE_SQL@
        },
{
    match collection {
        Some(_) => COUNT_ACTIVE_IN_COLLECTION_SQL,
        None => COUNT_ACTIVE_SQL,
    }
}

/// Numbers of documents and pairs in a corpus.
#[derive(Debug, Clone, Copy, PartialEq, Eq, Structural)]
pub struct CorpusStats {
    pub documents: usize,
    pub precedent_documents: usize,
    pub law_documents: usize,
    pub training_pairs: usize,
}

/// The numbers that describe a corpus: the counts of its active documents, and
/// how many training pairs were loaded from it.
pub fn inspect_corpus(
    documents: usize,
    precedent_documents: usize,
    law_documents: usize,
    loader: PairLoader,
) -> (r: CorpusStats)
    requires
        loader.wf(),
        loader.limit() is None,
    ensures
        r.documents == documents,
        r.precedent_documents == precedent_documents,
        r.law_documents == law_documents,
        r.training_pairs == all_pairs(loader.precedents(), loader.laws()).len(),
{
    let pairs = loader.into_pairs();
    assert(pair_views(pairs@).len() == pairs@.len());
    CorpusStats { documents, precedent_documents, law_documents, training_pairs: pairs.len() }
}

} // verus!
