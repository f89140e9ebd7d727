//! The entity span extractor: from a flat sequence of tags, one per
//! character, to the typed spans the tags mark out.
use vstd::prelude::*;
use crate::text::{
    ascii_upper, begins_with, contains_ignore_case, contains_ignoring_case, is_single_char, matches_at,
    starts_with_char,
};
use crate::token::{segment_tags, segment_words, Segment};

verus! {

/// The kind of entity a tag stands for. The tag is searched, without regard
/// to ASCII case, for one of five marks, in a fixed order; the first mark
/// found decides.
pub open spec fn tag_name(tag: Seq<char>) -> Seq<char> {
    if contains_ignore_case(tag, "PRO"@) {
        "product_name"@
    } else if contains_ignore_case(tag, "PER"@) {
        "person_name"@
    } else if contains_ignore_case(tag, "TIM"@) {
        "time"@
    } else if contains_ignore_case(tag, "ORG"@) {
        "org_name"@
    } else if contains_ignore_case(tag, "LOC"@) {
        "location"@
    } else {
        "unknown"@
    }
}

/// Names the kind of entity that `tag` stands for.
pub fn get_tag_name(tag: &str) -> (r: &'static str)
    ensures
        r@ == tag_name(tag@),
{
    if contains_ignoring_case(tag, "PRO") {
        "product_name"
    } else if contains_ignoring_case(tag, "PER") {
        "person_name"
    } else if contains_ignoring_case(tag, "TIM") {
        "time"
    } else if contains_ignoring_case(tag, "ORG") {
        "org_name"
    } else if contains_ignoring_case(tag, "LOC") {
        "location"
    } else {
        "unknown"
    }
}

/// Whether a tag opens a span: any tag whose first character is `B` does.
pub open spec fn opens_span(tag: Seq<char>) -> bool {
    begins_with(tag, 'B')
}

/// Whether a tag closes the open span: only the tag `O` does.
pub open spec fn closes_span(tag: Seq<char>) -> bool {
    tag == seq!['O']
}

/// The extractor between two tags: the start of the span that is open, if
/// one is, and the spans closed so far.
pub struct ScanState {
    pub open: Option<int>,
    pub spans: Seq<(int, int, Seq<char>)>,
}

/// The extractor after the first `n` tags. It starts outside any span. An
/// opening tag met outside opens a span there; a closing tag met inside
/// closes the span, which ends before the closing tag and takes its kind
/// from the tag it opened on. Every other tag changes nothing.
pub open spec fn scan(tags: Seq<Seq<char>>, n: int) -> ScanState
    decreases n,
{
    if n <= 0 {
        ScanState { open: None, spans: Seq::empty() }
    } else {
        let before = scan(tags, n - 1);
        let tag = tags[n - 1];
        match before.open {
            None => if opens_span(tag) {
                ScanState { open: Some(n - 1), spans: before.spans }
            } else {
                before
            },
            Some(start) => if closes_span(tag) {
                ScanState {
                    open: None,
                    spans: before.spans.push((start, n - 1, tag_name(tags[start]))),
                }
            } else {
                before
            },
        }
    }
}

/// The spans of a tag sequence: those closed when the extractor has seen
/// every tag. A span still open at the end is not among them.
pub open spec fn entity_spans(tags: Seq<Seq<char>>) -> Seq<(int, int, Seq<char>)> {
    scan(tags, tags.len() as int).spans
}

/// What holds of the extractor after any number of tags.
pub open spec fn scan_ordered(tags: Seq<Seq<char>>, n: int) -> bool {
    let state = scan(tags, n);
    &&& forall|i: int|
        0 <= i < state.spans.len() ==> {
            let span = #[trigger] state.spans[i];
            &&& 0 <= span.0 < span.1 < n
            &&& opens_span(tags[span.0])
            &&& closes_span(tags[span.1])
            &&& span.2 == tag_name(tags[span.0])
        }
    &&& forall|i: int, j: int|
        0 <= i < j < state.spans.len() ==> (#[trigger] state.spans[i]).1 < (
        #[trigger] state.spans[j]).0
    &&& match state.open {
        Some(start) => {
            &&& 0 <= start < n
            &&& opens_span(tags[start])
            &&& forall|i: int| 0 <= i < state.spans.len() ==> (#[trigger] state.spans[i]).1 < start
        },
        None => true,
    }
}

/// The extractor keeps its spans in order at every step.
pub proof fn lemma_scan_ordered(tags: Seq<Seq<char>>, n: int)
    requires
        0 <= n <= tags.len(),
    ensures
        scan_ordered(tags, n),
    decreases n,
{
    if n > 0 {
        lemma_scan_ordered(tags, n - 1);
        let before = scan(tags, n - 1);
        let after = scan(tags, n);
        let tag = tags[n - 1];
        match before.open {
            None => {},
            Some(start) => {
                if closes_span(tag) {
                    let closed = (start, n - 1, tag_name(tags[start]));
                    assert(start != n - 1) by {
                        if start == n - 1 {
                            assert(tags[start][0] == 'B');
                            assert(tags[start][0] == 'O');
                        }
                    }
                    assert forall|i: int| 0 <= i < after.spans.len() implies {
                        let span = #[trigger] after.spans[i];
                        &&& 0 <= span.0 < span.1 < n
                        &&& opens_span(tags[span.0])
                        &&& closes_span(tags[span.1])
                        &&& span.2 == tag_name(tags[span.0])
                    } by {
                        if i < before.spans.len() {
                            assert(after.spans[i] == before.spans[i]);
                        } else {
                            assert(after.spans[i] == closed);
                        }
                    }
                    assert forall|i: int, j: int| 0 <= i < j < after.spans.len() implies (
                    #[trigger] after.spans[i]).1 < (#[trigger] after.spans[j]).0 by {
                        assert(after.spans[i] == before.spans[i]);
                        if j < before.spans.len() {
                            assert(after.spans[j] == before.spans[j]);
                        } else {
                            assert(after.spans[j] == closed);
                        }
                    }
                }
            },
        }
    }
}

/// The spans of a tag sequence lie within it, none is empty, each runs from
/// an opening tag up to a closing tag and is named after the tag it opens
/// on, and each ends before the next one starts: they are strictly ordered
/// by their starts and do not overlap.
pub proof fn lemma_spans_ordered(tags: Seq<Seq<char>>)
    ensures
        forall|i: int|
            0 <= i < entity_spans(tags).len() ==> {
                let span = #[trigger] entity_spans(tags)[i];
                &&& 0 <= span.0 < span.1 < tags.len()
                &&& opens_span(tags[span.0])
                &&& closes_span(tags[span.1])
                &&& span.2 == tag_name(tags[span.0])
            },
        forall|i: int, j: int|
            0 <= i < j < entity_spans(tags).len() ==> {
                &&& (#[trigger] entity_spans(tags)[i]).1 < (#[trigger] entity_spans(tags)[j]).0
                &&& entity_spans(tags)[i].0 < entity_spans(tags)[j].0
            },
{
    lemma_scan_ordered(tags, tags.len() as int);
    let spans = entity_spans(tags);
    assert forall|i: int, j: int| 0 <= i < j < spans.len() implies {
        &&& (#[trigger] spans[i]).1 < (#[trigger] spans[j]).0
        &&& spans[i].0 < spans[j].0
    } by {
        assert(spans[i].0 < spans[i].1);
    }
}

/// The spans closed after `n` tags are still there, in the same places,
/// after `m >= n` tags.
pub proof fn lemma_spans_kept(tags: Seq<Seq<char>>, n: int, m: int)
    requires
        0 <= n <= m,
    ensures
        scan(tags, n).spans.len() <= scan(tags, m).spans.len(),
        forall|i: int|
            0 <= i < scan(tags, n).spans.len() ==> scan(tags, m).spans[i] == (#[trigger] scan(
                tags,
                n,
            ).spans[i]),
    decreases m - n,
{
    if n < m {
        lemma_spans_kept(tags, n, m - 1);
    }
}

/// A span open after `n` tags is still open after `m` tags, from the same
/// start, where no closing tag stands between.
proof fn lemma_stays_open(tags: Seq<Seq<char>>, start: int, n: int, m: int)
    requires
        0 <= n <= m,
        scan(tags, n).open == Some(start),
        forall|k: int| n <= k < m ==> !closes_span(#[trigger] tags[k]),
    ensures
        scan(tags, m).open == Some(start),
        scan(tags, m).spans == scan(tags, n).spans,
    decreases m - n,
{
    if n < m {
        lemma_stays_open(tags, start, n, m - 1);
    }
}

/// Whether the spans of `tags` hold one that starts at `p`, ends at `end`
/// and is named after the tag at `p`, with no closing tag strictly between
/// the two positions.
pub open spec fn span_between(tags: Seq<Seq<char>>, p: int, end: int) -> bool {
    &&& forall|k: int| p < k < end ==> !closes_span(#[trigger] tags[k])
    &&& entity_spans(tags).contains((p, end, tag_name(tags[p])))
}

/// An opening tag at position `p`, met while no span is open and followed
/// by a closing tag at a position `q`, gives a span that starts at `p`, is
/// named after the tag at `p` and ends at the first closing tag after `p`.
pub proof fn lemma_span_from_opening_tag(tags: Seq<Seq<char>>, p: int, q: int)
    requires
        0 <= p < q < tags.len(),
        scan(tags, p).open is None,
        opens_span(tags[p]),
        closes_span(tags[q]),
    ensures
        exists|end: int| p < end <= q && #[trigger] span_between(tags, p, end),
    decreases q - p,
{
    if forall|k: int| p < k < q ==> !closes_span(#[trigger] tags[k]) {
        assert(scan(tags, p + 1).open == Some(p));
        assert(!closes_span(tags[p])) by {
            if closes_span(tags[p]) {
                assert(tags[p][0] == 'O');
            }
        }
        lemma_stays_open(tags, p, p + 1, q);
        let closed = (p, q, tag_name(tags[p]));
        let at = scan(tags, q).spans.len() as int;
        assert(scan(tags, q + 1).spans[at] == closed);
        lemma_spans_kept(tags, q + 1, tags.len() as int);
        assert(entity_spans(tags)[at] == closed);
        assert(span_between(tags, p, q));
    } else {
        let k = choose|k: int| p < k < q && closes_span(#[trigger] tags[k]);
        lemma_span_from_opening_tag(tags, p, k);
        let end = choose|end: int| p < end <= k && #[trigger] span_between(tags, p, end);
        assert(p < end <= q && span_between(tags, p, end));
    }
}

/// The tag `B-LOC` at position `p`, met while no span is open and followed
/// later by the tag `O`, gives a span that starts at `p` and is a location.
pub proof fn lemma_location_span(tags: Seq<Seq<char>>, p: int, q: int)
    requires
        0 <= p < q < tags.len(),
        scan(tags, p).open is None,
        tags[p] == "B-LOC"@,
        tags[q] == "O"@,
    ensures
        exists|end: int|
            p < end <= q && #[trigger] entity_spans(tags).contains((p, end, "location"@)),
{
    reveal_strlit("B-LOC");
    reveal_strlit("O");
    reveal_strlit("PRO");
    reveal_strlit("PER");
    reveal_strlit("TIM");
    reveal_strlit("ORG");
    reveal_strlit("LOC");
    let tag = "B-LOC"@;
    assert(tags[q] =~= seq!['O']);
    assert(matches_at(tag, "LOC"@, 2)) by {
        assert forall|j: int| 0 <= j < 3 implies ascii_upper(#[trigger] tag[2 + j]) == ascii_upper(
            "LOC"@[j],
        ) by {}
    }
    assert forall|pat: Seq<char>|
        (pat == "PRO"@ || pat == "PER"@ || pat == "TIM"@ || pat == "ORG"@) implies !contains_ignore_case(
            tag,
            pat,
        ) by {
        assert forall|at: int| !matches_at(tag, pat, at) by {
            if matches_at(tag, pat, at) {
                assert(0 <= at <= 2);
                assert(ascii_upper(tag[at + 0]) == ascii_upper(pat[0]));
                assert(ascii_upper(tag[at + 1]) == ascii_upper(pat[1]));
                assert(ascii_upper(tag[at + 2]) == ascii_upper(pat[2]));
            }
        }
    }
    assert(tag_name(tag) == "location"@);
    lemma_span_from_opening_tag(tags, p, q);
    let end = choose|end: int| p < end <= q && #[trigger] span_between(tags, p, end);
    assert(entity_spans(tags).contains((p, end, "location"@)));
}

/// The spans of a list as the extractor states them: positions as
/// integers, the kind by its characters.
pub open spec fn span_views(spans: Seq<(usize, usize, &'static str)>) -> Seq<(int, int, Seq<char>)> {
    Seq::new(spans.len(), |i: int| (spans[i].0 as int, spans[i].1 as int, spans[i].2@))
}

/// Scans `tags` once and returns the spans they mark out, each as its first
/// position, the position after its last, and the kind of entity.
pub fn extract_entities(tags: &[String]) -> (r: Vec<(usize, usize, &'static str)>)
    ensures
        span_views(r@) == entity_spans(tags.deep_view()),
        forall|i: int| 0 <= i < r.len() ==> (#[trigger] r[i]).0 < r[i].1 < tags.len(),
        forall|i: int, j: int| 0 <= i < j < r.len() ==> (#[trigger] r[i]).1 < (#[trigger] r[j]).0,
{
    let ghost all = tags.deep_view();
    let mut is_tag: bool = false;
    let mut start_index: usize = 0;
    let mut entities: Vec<(usize, usize, &'static str)> = Vec::new();
    let mut index: usize = 0;
    while index < tags.len()
        invariant
            index <= tags.len(),
            all == tags.deep_view(),
            is_tag == (scan(all, index as int).open is Some),
            is_tag ==> scan(all, index as int).open == Some(start_index as int),
            is_tag ==> start_index < index,
            span_views(entities@) == scan(all, index as int).spans,
        decreases tags.len() - index,
    {
        let tag = tags[index].as_str();
        proof {
            assert(all[index as int] == tag@);
        }
        if !is_tag && starts_with_char(tag, 'B') {
            start_index = index;
            is_tag = true;
        } else if is_tag && is_single_char(tag, 'O') {
            let name = get_tag_name(tags[start_index].as_str());
            proof {
                assert(all[start_index as int] == tags[start_index as int]@);
            }
            let ghost before = entities@;
            entities.push((start_index, index, name));
            is_tag = false;
            proof {
                assert(span_views(entities@) =~= span_views(before).push(
                    (start_index as int, index as int, name@),
                ));
            }
        }
        index += 1;
    }
    proof {
        lemma_spans_ordered(all);
        let spans = entity_spans(all);
        assert forall|i: int| 0 <= i < entities.len() implies (#[trigger] entities[i]).0
            < entities[i].1 < tags.len() by {
            assert(span_views(entities@)[i] == spans[i]);
        }
        assert forall|i: int, j: int| 0 <= i < j < entities.len() implies (#[trigger] entities[i]).1
            < (#[trigger] entities[j]).0 by {
            assert(span_views(entities@)[i] == spans[i]);
            assert(span_views(entities@)[j] == spans[j]);
        }
    }
    entities
}

/// What recognition finds in one sentence: the words and part-of-speech
/// tags of its segments, and the entity spans over its characters.
#[derive(Debug, Clone, PartialEq)]
pub struct NamedEntity {
    /// The words of the segments, in order.
    pub word: Vec<String>,
    /// The part-of-speech tags of the segments, in order.
    pub tag: Vec<String>,
    /// The entity spans, in the order of their starts.
    pub entity: Vec<(usize, usize, &'static str)>,
}

impl NamedEntity {
    /// Puts together the result for a sentence from its segments and from
    /// the tags a labeller gave to its characters.
    pub fn new(segments: &[Segment], labels: &[String]) -> (r: NamedEntity)
        ensures
            r.word.deep_view() == segment_words(segments.deep_view()),
            r.tag.deep_view() == segment_tags(segments.deep_view()),
            span_views(r.entity@) == entity_spans(labels.deep_view()),
            forall|i: int|
                0 <= i < r.entity.len() ==> (#[trigger] r.entity[i]).0 < r.entity[i].1
                    < labels.len(),
            forall|i: int, j: int|
                0 <= i < j < r.entity.len() ==> (#[trigger] r.entity[i]).1 < (
                #[trigger] r.entity[j]).0,
    {
        let mut word: Vec<String> = Vec::with_capacity(segments.len());
        let mut tag: Vec<String> = Vec::with_capacity(segments.len());
        let mut i: usize = 0;
        while i < segments.len()
            invariant
                i <= segments.len(),
                word.len() == i,
                tag.len() == i,
                forall|k: int| 0 <= k < i ==> (#[trigger] word[k])@ == segments[k].word@,
                forall|k: int| 0 <= k < i ==> (#[trigger] tag[k])@ == segments[k].tag@,
            decreases segments.len() - i,
        {
            word.push(segments[i].word.clone());
            tag.push(segments[i].tag.clone());
            i += 1;
        }
        proof {
            assert(word.deep_view() =~= segment_words(segments.deep_view()));
            assert(tag.deep_view() =~= segment_tags(segments.deep_view()));
        }
        NamedEntity { word, tag, entity: extract_entities(labels) }
    }
}

} // verus!
