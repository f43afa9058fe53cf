//! Scanning a text for the matches of a pattern.

use vstd::prelude::*;
use vstd::string::StringSliceAdditionalSpecFns;
use vstd::utf8::*;
use crate::error::ScrapeError;
use crate::store::texts;

verus! {

/// The error of `regex::Regex::new`. It is handed on unread: nothing is
/// claimed of what it holds.
#[verifier::external_type_specification]
#[verifier::external_body]
pub struct ExRegexError(regex::Error);

/// Whether `regex::Regex::new` compiles `pattern`.
pub uninterp spec fn regex_accepts(pattern: Seq<char>) -> bool;

/// The byte spans, start and end, of the matches that a regex compiled from
/// `pattern` yields from `Regex::find_iter` on `haystack`, in the order in
/// which it yields them.
pub uninterp spec fn regex_spans(pattern: Seq<char>, haystack: Seq<char>) -> Seq<(usize, usize)>;

/// A span lies within `bytes` and both of its ends fall between characters.
pub open spec fn span_fits(span: (usize, usize), bytes: Seq<u8>) -> bool {
    &&& span.0 <= span.1 <= bytes.len()
    &&& is_char_boundary(bytes, span.0 as int)
    &&& is_char_boundary(bytes, span.1 as int)
}

/// Every span fits `bytes`.
pub open spec fn spans_fit(spans: Seq<(usize, usize)>, bytes: Seq<u8>) -> bool {
    forall|i: int| 0 <= i < spans.len() ==> span_fits(#[trigger] spans[i], bytes)
}

/// The spans run from left to right without overlap, and an empty span never
/// touches the end of the span before it.
pub open spec fn spans_advance(spans: Seq<(usize, usize)>) -> bool {
    forall|i: int, j: int|
        #![trigger spans[i], spans[j]]
        0 <= i && j == i + 1 && j < spans.len() ==> {
            &&& spans[i].1 <= spans[j].0
            &&& (spans[j].0 == spans[j].1 ==> spans[i].1 < spans[j].0)
        }
}

/// What holds of the spans of every scan of `text`.
pub open spec fn scan_shape(spans: Seq<(usize, usize)>, text: Seq<char>) -> bool {
    &&& spans_fit(spans, encode_utf8(text))
    &&& spans_advance(spans)
}

/// Compiles `pattern` with `regex::Regex::new` and, if that succeeds, walks
/// `Regex::find_iter` over `haystack`, handing out `Match::start` and
/// `Match::end` of each match.
///
/// Trusted: the error is returned exactly when the pattern does not compile,
/// and nothing is scanned then. Otherwise the spans are those that the regex
/// crate reports, which it documents as byte offsets with start no greater
/// than end, on UTF-8 boundaries of the haystack, of successive
/// non-overlapping matches among which no empty match overlaps another match.
#[verifier::external_body]
fn find_spans(pattern: &str, haystack: &str) -> (found: Result<Vec<(usize, usize)>, regex::Error>)
    ensures
        found is Ok <==> regex_accepts(pattern@),
        found matches Ok(spans) ==> {
            &&& spans@ == regex_spans(pattern@, haystack@)
            &&& scan_shape(spans@, haystack@)
        },
{
    let re = regex::Regex::new(pattern)?;
    Ok(re.find_iter(haystack).map(|m| (m.start(), m.end())).collect())
}

/// The text that a span covers.
pub open spec fn span_text(text: Seq<char>, span: (usize, usize)) -> Seq<char> {
    decode_utf8(encode_utf8(text).subrange(span.0 as int, span.1 as int))
}

/// The texts that the spans cover, one for one.
pub open spec fn span_texts(text: Seq<char>, spans: Seq<(usize, usize)>) -> Seq<Seq<char>> {
    Seq::new(spans.len(), |i: int| span_text(text, spans[i]))
}

/// The matches of `pattern` in `text`: the text under each span of one scan.
pub open spec fn matches_of(pattern: Seq<char>, text: Seq<char>) -> Seq<Seq<char>> {
    span_texts(text, regex_spans(pattern, text))
}

/// A position between characters stays one in the part of the text that
/// begins at an earlier such position.
proof fn lemma_boundary_in_tail(bytes: Seq<u8>, start: int, end: int)
    requires
        valid_utf8(bytes),
        0 <= start <= end <= bytes.len(),
        is_char_boundary(bytes, start),
        is_char_boundary(bytes, end),
    ensures
        valid_utf8(bytes.subrange(start, bytes.len() as int)),
        is_char_boundary(bytes.subrange(start, bytes.len() as int), end - start),
{
    let tail = bytes.subrange(start, bytes.len() as int);
    valid_utf8_split(bytes, start);
    if end < bytes.len() {
        is_char_boundary_iff_not_is_continuation_byte(bytes, end);
        is_char_boundary_iff_not_is_continuation_byte(tail, end - start);
    } else {
        is_char_boundary_start_end_of_seq(tail);
    }
}

/// Copies out the part of `text` from byte `start` up to byte `end`, if
/// these delimit a part of it.
pub fn slice_span(text: &str, start: usize, end: usize) -> (piece: Option<String>)
    ensures
        piece is Some <==> span_fits((start, end), text.spec_bytes()),
        piece matches Some(s) ==> s@ == span_text(text@, (start, end)),
{
    let ghost bytes = text.spec_bytes();
    proof {
        encode_utf8_valid_utf8(text@);
    }
    if start <= end && text.is_char_boundary(start) && text.is_char_boundary(end) {
        proof {
            lemma_boundary_in_tail(bytes, start as int, end as int);
        }
        let (_, tail) = text.split_at(start);
        let (piece, _) = tail.split_at(end - start);
        proof {
            assert(piece.spec_bytes() =~= bytes.subrange(start as int, end as int));
            encode_utf8_decode_utf8(piece@);
        }
        Some(piece.to_owned())
    } else {
        None
    }
}

/// Copies out the text under each span, in order; nothing if a span does not
/// fit the text.
pub fn collect_matches(text: &str, spans: &Vec<(usize, usize)>) -> (matches: Option<Vec<String>>)
    ensures
        matches is Some <==> spans_fit(spans@, text.spec_bytes()),
        matches matches Some(found) ==> found.len() == spans.len() && texts(found@) == span_texts(
            text@,
            spans@,
        ),
{
    let mut found: Vec<String> = Vec::new();
    let mut i: usize = 0;
    while i < spans.len()
        invariant
            i <= spans.len(),
            found.len() == i,
            forall|j: int| 0 <= j < i ==> span_fits(#[trigger] spans[j], text.spec_bytes()),
            forall|j: int| 0 <= j < i ==> (#[trigger] found[j])@ == span_text(text@, spans[j]),
        decreases spans.len() - i,
    {
        let (start, end) = spans[i];
        match slice_span(text, start, end) {
            Some(piece) => {
                found.push(piece);
            },
            None => {
                return None;
            },
        }
        i += 1;
    }
    assert(texts(found@) =~= span_texts(text@, spans@));
    Some(found)
}

/// Makes the outcome of an extraction out of what a scan of `text` reported:
/// the text under each span, in order, or a pattern error where the pattern
/// did not compile.
pub fn matches_from_scan(text: &str, scanned: Result<Vec<(usize, usize)>, regex::Error>) -> (outcome:
    Result<Vec<String>, ScrapeError>)
    requires
        scanned matches Ok(spans) ==> spans_fit(spans@, text.spec_bytes()),
    ensures
        match scanned {
            Ok(spans) => outcome matches Ok(found) && texts(found@) == span_texts(text@, spans@),
            Err(_) => outcome == Err::<Vec<String>, ScrapeError>(ScrapeError::Pattern),
        },
{
    match scanned {
        Ok(spans) => Ok(collect_matches(text, &spans).unwrap()),
        Err(_) => Err(ScrapeError::Pattern),
    }
}

/// Scans `text` once for `pattern`, from left to right, and returns the
/// matched texts in the order in which they occur. A pattern that does not
/// compile is an error, and nothing is scanned then.
pub fn extract(text: &str, pattern: &str) -> (outcome: Result<Vec<String>, ScrapeError>)
    ensures
        outcome is Ok <==> regex_accepts(pattern@),
        outcome matches Ok(found) ==> {
            &&& texts(found@) == matches_of(pattern@, text@)
            &&& scan_shape(regex_spans(pattern@, text@), text@)
        },
        outcome matches Err(e) ==> e == ScrapeError::Pattern,
{
    matches_from_scan(text, find_spans(pattern, text))
}

/// Matches come from left to right and do not overlap: of two matches of one
/// scan the earlier ends where the later begins or before it, and strictly
/// before it if the later is empty. So no empty match is reported twice at
/// one position.
pub proof fn lemma_matches_in_order(spans: Seq<(usize, usize)>, text: Seq<char>, i: int, j: int)
    requires
        scan_shape(spans, text),
        0 <= i < j < spans.len(),
    ensures
        spans[i].1 <= spans[j].0,
        spans[j].0 == spans[j].1 ==> spans[i].1 < spans[j].0,
        spans[i].0 == spans[i].1 && spans[j].0 == spans[j].1 ==> spans[i] != spans[j],
    decreases j - i,
{
    let bytes = encode_utf8(text);
    assert(span_fits(spans[i], bytes));
    assert(span_fits(spans[j], bytes));
    if j > i + 1 {
        lemma_matches_in_order(spans, text, i, j - 1);
        assert(span_fits(spans[j - 1], bytes));
    }
    let before = spans[j - 1];
    let after = spans[j];
    assert(before.1 <= after.0 && (after.0 == after.1 ==> before.1 < after.0));
}

/// A scan of the empty text yields no match, or one empty match and no more.
pub proof fn lemma_scan_of_empty_text(spans: Seq<(usize, usize)>)
    requires
        scan_shape(spans, Seq::<char>::empty()),
    ensures
        spans.len() <= 1,
        span_texts(Seq::<char>::empty(), spans) == Seq::<Seq<char>>::empty() || span_texts(
            Seq::<char>::empty(),
            spans,
        ) == seq![Seq::<char>::empty()],
{
    let text = Seq::<char>::empty();
    let bytes = encode_utf8(text);
    assert(bytes.len() == 0);
    if spans.len() >= 2 {
        assert(span_fits(spans[0], bytes));
        assert(span_fits(spans[1], bytes));
        lemma_matches_in_order(spans, text, 0, 1);
    }
    if spans.len() == 1 {
        assert(span_fits(spans[0], bytes));
        assert(bytes.subrange(0, 0) =~= bytes);
        encode_utf8_decode_utf8(text);
        assert(span_text(text, spans[0]) == text);
        assert(span_texts(text, spans) =~= seq![text]);
    } else {
        assert(span_texts(text, spans) =~= Seq::<Seq<char>>::empty());
    }
}

/// The text under a fitting span is a contiguous part of the text: what
/// stands before the span, the match, and what stands after it make up the
/// whole.
pub proof fn lemma_match_is_part_of_text(text: Seq<char>, span: (usize, usize))
    requires
        span_fits(span, encode_utf8(text)),
    ensures
        text == decode_utf8(encode_utf8(text).subrange(0, span.0 as int)) + span_text(text, span)
            + decode_utf8(
            encode_utf8(text).subrange(span.1 as int, encode_utf8(text).len() as int),
        ),
{
    let bytes = encode_utf8(text);
    let (a, b) = (span.0 as int, span.1 as int);
    let tail = bytes.subrange(a, bytes.len() as int);
    encode_utf8_valid_utf8(text);
    encode_utf8_decode_utf8(text);
    lemma_boundary_in_tail(bytes, a, b);
    decode_utf8_split(bytes, a);
    decode_utf8_split(tail, b - a);
    assert(tail.subrange(0, b - a) =~= bytes.subrange(a, b));
    assert(tail.subrange(b - a, tail.len() as int) =~= bytes.subrange(b, bytes.len() as int));
}

} // verus!
