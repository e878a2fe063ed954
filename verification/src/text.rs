//! Byte-level search in UTF-8 text: where a needle occurs in a haystack,
//! and why those places are safe to cut a string at.

use vstd::prelude::*;
use vstd::string::StringSliceAdditionalSpecFns;
use vstd::utf8::*;

verus! {

/// A half-open byte range `[start, end)` inside a line.
pub type Span = (usize, usize);

/// The spans of an executable list, as mathematical pairs.
pub open spec fn span_ints(spans: Seq<Span>) -> Seq<(int, int)> {
    Seq::new(spans.len(), |i: int| (spans[i].0 as int, spans[i].1 as int))
}

/// `needle` stands in `hay` at byte offset `at`.
pub open spec fn matches_at(hay: Seq<u8>, needle: Seq<u8>, at: int) -> bool {
    &&& 0 <= at
    &&& at + needle.len() <= hay.len()
    &&& hay.subrange(at, at + needle.len()) =~= needle
}

/// The start offsets of the non-overlapping occurrences of a non-empty
/// `needle` in `hay`, searching from `from` on, from left to right: the
/// leftmost occurrence is taken, and the search resumes right behind it.
pub open spec fn literal_starts(hay: Seq<u8>, needle: Seq<u8>, from: int) -> Seq<int>
    decreases hay.len() - from,
{
    if needle.len() == 0 || from < 0 || from + needle.len() > hay.len() {
        Seq::empty()
    } else if matches_at(hay, needle, from) {
        seq![from] + literal_starts(hay, needle, from + needle.len())
    } else {
        literal_starts(hay, needle, from + 1)
    }
}

/// The character boundaries of `hay` from `from` on, in ascending order.
pub open spec fn boundaries_from(hay: Seq<u8>, from: int) -> Seq<int>
    decreases hay.len() + 1 - from,
{
    if from < 0 || from > hay.len() {
        Seq::empty()
    } else if is_char_boundary(hay, from) {
        seq![from] + boundaries_from(hay, from + 1)
    } else {
        boundaries_from(hay, from + 1)
    }
}

/// The spans at which a literal `needle` is reported in `hay`. A non-empty
/// needle gives its non-overlapping occurrences from left to right. The
/// empty needle gives one empty span at every character boundary.
pub open spec fn literal_spans(hay: Seq<u8>, needle: Seq<u8>) -> Seq<(int, int)> {
    if needle.len() == 0 {
        boundaries_from(hay, 0).map_values(|s: int| (s, s))
    } else {
        literal_starts(hay, needle, 0).map_values(|s: int| (s, s + needle.len()))
    }
}

/// Removing a valid prefix from valid UTF-8 leaves valid UTF-8.
pub proof fn lemma_valid_suffix(a: Seq<u8>, b: Seq<u8>)
    requires
        valid_utf8(a),
        valid_utf8(a + b),
    ensures
        valid_utf8(b),
    decreases a.len(),
{
    if a.len() == 0 {
        assert(a + b =~= b);
    } else {
        let rest = pop_first_scalar(a);
        assert(valid_first_scalar(a));
        assert(valid_first_scalar(a + b));
        assert(length_of_first_scalar(a + b) == length_of_first_scalar(a));
        assert(pop_first_scalar(a + b) =~= rest + b);
        lemma_valid_suffix(rest, b);
    }
}

/// An occurrence of a non-empty needle in UTF-8 text starts and ends on
/// character boundaries of the text.
pub proof fn lemma_match_on_boundaries(hay: Seq<u8>, needle: Seq<u8>, at: int)
    requires
        valid_utf8(hay),
        valid_utf8(needle),
        needle.len() > 0,
        matches_at(hay, needle, at),
    ensures
        is_char_boundary(hay, at),
        is_char_boundary(hay, at + needle.len()),
{
    let end = at + needle.len();
    is_char_boundary_iff_not_is_continuation_byte(needle, 0);
    assert(hay[at] == hay.subrange(at, end)[0]);
    is_char_boundary_iff_not_is_continuation_byte(hay, at);
    if end == hay.len() {
        is_char_boundary_start_end_of_seq(hay);
    } else {
        valid_utf8_split(hay, at);
        let tail = hay.subrange(at, hay.len() as int);
        let rest = hay.subrange(end, hay.len() as int);
        assert(tail =~= needle + rest);
        lemma_valid_suffix(needle, rest);
        is_char_boundary_iff_not_is_continuation_byte(rest, 0);
        assert(rest[0] == hay[end]);
        is_char_boundary_iff_not_is_continuation_byte(hay, end);
    }
}

/// Tells whether `needle` stands in `hay` at byte offset `at`.
pub fn occurs_at(hay: &[u8], needle: &[u8], at: usize) -> (found: bool)
    requires
        at + needle@.len() <= hay@.len(),
    ensures
        found == matches_at(hay@, needle@, at as int),
{
    let width: usize = needle.len();
    let total: usize = hay.len();
    let mut k: usize = 0;
    while k < width
        invariant
            k <= width == needle@.len(),
            at + width <= total == hay@.len(),
            forall|j: int| 0 <= j < k ==> hay@[at + j] == needle@[j],
        decreases width - k,
    {
        if hay[at + k] != needle[k] {
            proof {
                assert(hay@.subrange(at as int, at + needle@.len())[k as int] == hay@[at + k]);
            }
            return false;
        }
        k += 1;
    }
    true
}

/// `span` lies inside `text` and both its ends are character boundaries.
pub open spec fn span_fits(text: Seq<u8>, span: (int, int)) -> bool {
    &&& 0 <= span.0 <= span.1 <= text.len()
    &&& is_char_boundary(text, span.0)
    &&& is_char_boundary(text, span.1)
}

/// Every span of the list fits `text`.
pub open spec fn spans_fit(text: Seq<u8>, spans: Seq<(int, int)>) -> bool {
    forall|i: int| 0 <= i < spans.len() ==> span_fits(text, #[trigger] spans[i])
}

/// The start offsets of an executable list of spans.
pub open spec fn span_starts(spans: Seq<Span>) -> Seq<int> {
    Seq::new(spans.len(), |i: int| spans[i].0 as int)
}

/// Every start that the search for a non-empty needle reports is an
/// occurrence, at or behind the offset the search began at.
pub proof fn lemma_literal_starts_match(hay: Seq<u8>, needle: Seq<u8>, from: int)
    ensures
        forall|i: int|
            0 <= i < literal_starts(hay, needle, from).len() ==> from <= #[trigger] literal_starts(
                hay,
                needle,
                from,
            )[i] && matches_at(hay, needle, literal_starts(hay, needle, from)[i]),
    decreases hay.len() - from,
{
    let found = literal_starts(hay, needle, from);
    if needle.len() == 0 || from < 0 || from + needle.len() > hay.len() {
    } else if matches_at(hay, needle, from) {
        let behind = literal_starts(hay, needle, from + needle.len());
        lemma_literal_starts_match(hay, needle, from + needle.len());
        assert forall|i: int| 0 <= i < found.len() implies from <= #[trigger] found[i]
            && matches_at(hay, needle, found[i]) by {
            if i > 0 {
                assert(found[i] == behind[i - 1]);
            }
        }
    } else {
        let behind = literal_starts(hay, needle, from + 1);
        lemma_literal_starts_match(hay, needle, from + 1);
        assert forall|i: int| 0 <= i < found.len() implies from <= #[trigger] found[i]
            && matches_at(hay, needle, found[i]) by {
            assert(found[i] == behind[i]);
        }
    }
}

/// Every offset among the boundaries from `from` on is a character
/// boundary inside the text, at or behind `from`.
pub proof fn lemma_boundaries_are_boundaries(hay: Seq<u8>, from: int)
    ensures
        forall|i: int|
            0 <= i < boundaries_from(hay, from).len() ==> {
                let b = #[trigger] boundaries_from(hay, from)[i];
                from <= b <= hay.len() && is_char_boundary(hay, b)
            },
    decreases hay.len() + 1 - from,
{
    let found = boundaries_from(hay, from);
    if from < 0 || from > hay.len() {
    } else {
        let behind = boundaries_from(hay, from + 1);
        lemma_boundaries_are_boundaries(hay, from + 1);
        assert forall|i: int| 0 <= i < found.len() implies from <= #[trigger] found[i] <= hay.len()
            && is_char_boundary(hay, found[i]) by {
            if is_char_boundary(hay, from) {
                if i > 0 {
                    assert(found[i] == behind[i - 1]);
                }
            } else {
                assert(found[i] == behind[i]);
            }
        }
    }
}

/// The spans reported for a literal needle in UTF-8 text can be cut out of
/// the text: they lie inside it, on character boundaries.
pub proof fn lemma_literal_spans_fit(hay: Seq<u8>, needle: Seq<u8>)
    requires
        valid_utf8(hay),
        valid_utf8(needle),
    ensures
        spans_fit(hay, literal_spans(hay, needle)),
{
    let spans = literal_spans(hay, needle);
    assert forall|i: int| 0 <= i < spans.len() implies span_fits(hay, #[trigger] spans[i]) by {
        if needle.len() == 0 {
            lemma_boundaries_are_boundaries(hay, 0);
            let b = boundaries_from(hay, 0)[i];
            assert(spans[i] == (b, b));
        } else {
            lemma_literal_starts_match(hay, needle, 0);
            let s = literal_starts(hay, needle, 0)[i];
            assert(spans[i] == (s, s + needle.len()));
            lemma_match_on_boundaries(hay, needle, s);
        }
    }
}

/// Finds a literal needle in a line: the non-overlapping occurrences of a
/// non-empty needle from left to right, or, for the empty needle, one empty
/// span at every character boundary.
pub fn find_literal(hay: &str, needle: &str) -> (spans: Vec<Span>)
    ensures
        span_ints(spans@) =~= literal_spans(hay.spec_bytes(), needle.spec_bytes()),
        spans_fit(hay.spec_bytes(), span_ints(spans@)),
{
    let h = hay.as_bytes();
    let n = needle.as_bytes();
    let total: usize = h.len();
    let width: usize = n.len();
    let ghost hb = hay.spec_bytes();
    let ghost nb = needle.spec_bytes();
    let mut spans: Vec<Span> = Vec::new();
    proof {
        encode_utf8_valid_utf8(hay@);
        encode_utf8_valid_utf8(needle@);
        lemma_literal_spans_fit(hb, nb);
    }
    if width == 0 {
        let mut i: usize = 0;
        while i < total
            invariant
                i <= total == hb.len(),
                hb == hay.spec_bytes(),
                span_starts(spans@) + boundaries_from(hb, i as int) =~= boundaries_from(hb, 0),
                forall|k: int| 0 <= k < spans@.len() ==> (#[trigger] spans@[k]).1 == spans@[k].0,
            decreases total - i,
        {
            if hay.is_char_boundary(i) {
                spans.push((i, i));
            }
            i += 1;
        }
        proof {
            is_char_boundary_start_end_of_seq(hb);
            assert(boundaries_from(hb, total + 1) =~= Seq::<int>::empty());
        }
        spans.push((total, total));
        assert(span_starts(spans@) =~= boundaries_from(hb, 0));
    } else if width <= total {
        let last: usize = total - width;
        let mut i: usize = 0;
        while i <= last
            invariant
                i <= total == hb.len(),
                0 < width == nb.len(),
                last == total - width,
                h@ == hb,
                n@ == nb,
                span_starts(spans@) + literal_starts(hb, nb, i as int) =~= literal_starts(hb, nb, 0),
                forall|k: int|
                    0 <= k < spans@.len() ==> (#[trigger] spans@[k]).1 == spans@[k].0 + width,
            decreases total - i,
        {
            if occurs_at(h, n, i) {
                spans.push((i, i + width));
                i += width;
            } else {
                i += 1;
            }
        }
        assert(span_starts(spans@) =~= literal_starts(hb, nb, 0));
    }
    assert(span_ints(spans@) =~= literal_spans(hb, nb));
    spans
}

/// A character boundary of a text is also one of each prefix of the text
/// that ends on a later boundary.
pub proof fn lemma_boundary_in_prefix(text: Seq<u8>, start: int, end: int)
    requires
        valid_utf8(text),
        span_fits(text, (start, end)),
    ensures
        valid_utf8(text.subrange(0, end)),
        is_char_boundary(text.subrange(0, end), start),
{
    let head = text.subrange(0, end);
    valid_utf8_split(text, end);
    if start == end {
        is_char_boundary_start_end_of_seq(head);
    } else {
        is_char_boundary_iff_not_is_continuation_byte(text, start);
        assert(head[start] == text[start]);
        is_char_boundary_iff_not_is_continuation_byte(head, start);
    }
}

/// An ASCII byte of UTF-8 text is a character of its own: the text can be
/// cut before it and behind it.
pub proof fn lemma_ascii_byte_boundaries(text: Seq<u8>, at: int)
    requires
        valid_utf8(text),
        0 <= at < text.len(),
        text[at] <= 0x7f,
    ensures
        is_char_boundary(text, at),
        is_char_boundary(text, at + 1),
{
    is_char_boundary_iff_not_is_continuation_byte(text, at);
    if at + 1 == text.len() {
        is_char_boundary_start_end_of_seq(text);
    } else {
        valid_utf8_split(text, at);
        let tail = text.subrange(at, text.len() as int);
        assert(tail[0] == text[at]);
        assert(valid_first_scalar(tail));
        assert(length_of_first_scalar(tail) == 1);
        let rest = pop_first_scalar(tail);
        assert(rest =~= text.subrange(at + 1, text.len() as int));
        is_char_boundary_iff_not_is_continuation_byte(rest, 0);
        assert(rest[0] == text[at + 1]);
        is_char_boundary_iff_not_is_continuation_byte(text, at + 1);
    }
}

/// Cuts the bytes `start..end` out of a text.
pub fn cut<'a>(text: &'a str, start: usize, end: usize) -> (part: &'a str)
    requires
        span_fits(text.spec_bytes(), (start as int, end as int)),
    ensures
        part.spec_bytes() == text.spec_bytes().subrange(start as int, end as int),
{
    proof {
        encode_utf8_valid_utf8(text@);
        lemma_boundary_in_prefix(text.spec_bytes(), start as int, end as int);
    }
    let (head, _) = text.split_at(end);
    let (_, part) = head.split_at(start);
    assert(part.spec_bytes() =~= text.spec_bytes().subrange(start as int, end as int));
    part
}

/// `needle` occurs somewhere in `hay`.
pub open spec fn contains(hay: Seq<u8>, needle: Seq<u8>) -> bool {
    exists|at: int| matches_at(hay, needle, at)
}

/// Tells whether `needle` occurs somewhere in `hay`. The empty needle
/// occurs in every text.
pub fn contains_literal(hay: &str, needle: &str) -> (found: bool)
    ensures
        found == contains(hay.spec_bytes(), needle.spec_bytes()),
{
    let h = hay.as_bytes();
    let n = needle.as_bytes();
    let total: usize = h.len();
    let width: usize = n.len();
    if width > total {
        return false;
    }
    let last: usize = total - width;
    let mut i: usize = 0;
    while i <= last
        invariant
            i <= last + 1,
            last == total - width,
            total == h@.len(),
            width == n@.len(),
            h@ == hay.spec_bytes(),
            n@ == needle.spec_bytes(),
            forall|at: int| 0 <= at < i ==> !matches_at(h@, n@, at),
        decreases last + 1 - i,
    {
        if occurs_at(h, n, i) {
            return true;
        }
        i += 1;
    }
    false
}

/// A text is determined by its bytes.
pub proof fn lemma_same_bytes_same_text(left: Seq<char>, right: Seq<char>)
    requires
        encode_utf8(left) == encode_utf8(right),
    ensures
        left == right,
{
    encode_utf8_decode_utf8(left);
    encode_utf8_decode_utf8(right);
}

/// Tells whether two texts are the same.
pub fn same_text(left: &str, right: &str) -> (same: bool)
    ensures
        same == (left@ == right@),
{
    let a = left.as_bytes();
    let b = right.as_bytes();
    if a.len() != b.len() {
        return false;
    }
    let same = occurs_at(a, b, 0);
    proof {
        if same {
            assert(a@.subrange(0, a@.len() as int) =~= a@);
            lemma_same_bytes_same_text(left@, right@);
        }
    }
    same
}

/// The occurrences that the search reports do not overlap, and come from
/// left to right.
pub proof fn lemma_literal_starts_apart(hay: Seq<u8>, needle: Seq<u8>, from: int, i: int, j: int)
    requires
        0 <= i < j < literal_starts(hay, needle, from).len(),
    ensures
        literal_starts(hay, needle, from)[i] + needle.len() <= literal_starts(
            hay,
            needle,
            from,
        )[j],
    decreases hay.len() - from,
{
    let found = literal_starts(hay, needle, from);
    if needle.len() == 0 || from < 0 || from + needle.len() > hay.len() {
    } else if matches_at(hay, needle, from) {
        let behind = literal_starts(hay, needle, from + needle.len());
        assert(found[j] == behind[j - 1]);
        if i == 0 {
            lemma_literal_starts_match(hay, needle, from + needle.len());
        } else {
            assert(found[i] == behind[i - 1]);
            lemma_literal_starts_apart(hay, needle, from + needle.len(), i - 1, j - 1);
        }
    } else {
        lemma_literal_starts_apart(hay, needle, from + 1, i, j);
    }
}

/// The search passes over no occurrence: every occurrence at or behind the
/// offset where the search began is reported, or begins inside a reported
/// one.
pub proof fn lemma_literal_starts_cover(hay: Seq<u8>, needle: Seq<u8>, from: int, at: int)
    requires
        needle.len() > 0,
        0 <= from <= at,
        matches_at(hay, needle, at),
    ensures
        exists|i: int|
            0 <= i < literal_starts(hay, needle, from).len() && (#[trigger] literal_starts(
                hay,
                needle,
                from,
            )[i]) <= at < literal_starts(hay, needle, from)[i] + needle.len(),
    decreases hay.len() - from,
{
    let found = literal_starts(hay, needle, from);
    if matches_at(hay, needle, from) {
        let behind = literal_starts(hay, needle, from + needle.len());
        if at < from + needle.len() {
            assert(found[0] == from);
        } else {
            lemma_literal_starts_cover(hay, needle, from + needle.len(), at);
            let i = choose|i: int|
                0 <= i < behind.len() && (#[trigger] behind[i]) <= at < behind[i] + needle.len();
            assert(found[i + 1] == behind[i]);
        }
    } else {
        lemma_literal_starts_cover(hay, needle, from + 1, at);
    }
}

/// No choice of occurrences that do not overlap has more members than the
/// search reports: the number of spans reported for a non-empty needle is
/// the number of non-overlapping occurrences of the needle.
pub proof fn lemma_literal_count_is_greatest(
    hay: Seq<u8>,
    needle: Seq<u8>,
    from: int,
    others: Seq<int>,
)
    requires
        needle.len() > 0,
        0 <= from,
        forall|k: int|
            0 <= k < others.len() ==> from <= #[trigger] others[k] && matches_at(
                hay,
                needle,
                others[k],
            ),
        forall|k: int, m: int|
            0 <= k < m < others.len() ==> #[trigger] others[k] + needle.len() <= #[trigger] others[m],
    ensures
        others.len() <= literal_starts(hay, needle, from).len(),
    decreases hay.len() - from,
{
    if others.len() > 0 {
        let first = others[0];
        assert(from + needle.len() <= hay.len());
        if matches_at(hay, needle, from) {
            let rest = others.skip(1);
            assert forall|k: int| 0 <= k < rest.len() implies from + needle.len()
                <= #[trigger] rest[k] && matches_at(hay, needle, rest[k]) by {
                assert(rest[k] == others[k + 1]);
                assert(others[0] + needle.len() <= others[k + 1]);
            }
            assert forall|k: int, m: int| 0 <= k < m < rest.len() implies #[trigger] rest[k]
                + needle.len() <= #[trigger] rest[m] by {
                assert(rest[k] == others[k + 1]);
                assert(rest[m] == others[m + 1]);
            }
            lemma_literal_count_is_greatest(hay, needle, from + needle.len(), rest);
        } else {
            assert forall|k: int| 0 <= k < others.len() implies from + 1 <= #[trigger] others[k]
                && matches_at(hay, needle, others[k]) by {}
            lemma_literal_count_is_greatest(hay, needle, from + 1, others);
        }
    }
}

/// The character boundaries come in ascending order.
pub proof fn lemma_boundaries_ascend(hay: Seq<u8>, from: int, i: int, j: int)
    requires
        0 <= i < j < boundaries_from(hay, from).len(),
    ensures
        boundaries_from(hay, from)[i] < boundaries_from(hay, from)[j],
    decreases hay.len() + 1 - from,
{
    let found = boundaries_from(hay, from);
    if from < 0 || from > hay.len() {
    } else {
        let behind = boundaries_from(hay, from + 1);
        if is_char_boundary(hay, from) {
            assert(found[j] == behind[j - 1]);
            if i == 0 {
                lemma_boundaries_are_boundaries(hay, from + 1);
            } else {
                assert(found[i] == behind[i - 1]);
                lemma_boundaries_ascend(hay, from + 1, i - 1, j - 1);
            }
        } else {
            lemma_boundaries_ascend(hay, from + 1, i, j);
        }
    }
}

/// The spans reported for a literal needle start at strictly ascending
/// offsets, and each lies inside the text.
pub proof fn lemma_literal_spans_ascend(hay: Seq<u8>, needle: Seq<u8>, i: int, j: int)
    requires
        0 <= i < j < literal_spans(hay, needle).len(),
    ensures
        literal_spans(hay, needle)[i].0 < literal_spans(hay, needle)[j].0,
{
    if needle.len() == 0 {
        lemma_boundaries_ascend(hay, 0, i, j);
    } else {
        lemma_literal_starts_apart(hay, needle, 0, i, j);
    }
}

/// Every span reported for a literal needle lies inside the text.
pub proof fn lemma_literal_spans_inside(hay: Seq<u8>, needle: Seq<u8>, i: int)
    requires
        0 <= i < literal_spans(hay, needle).len(),
    ensures
        0 <= literal_spans(hay, needle)[i].0 <= literal_spans(hay, needle)[i].1 <= hay.len(),
{
    if needle.len() == 0 {
        lemma_boundaries_are_boundaries(hay, 0);
    } else {
        lemma_literal_starts_match(hay, needle, 0);
    }
}

} // verus!
