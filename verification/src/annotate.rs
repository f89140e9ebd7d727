//! The boundary annotator: one token per character of a sentence, each with
//! the place of the character in its segment and the segment's
//! part-of-speech tag.
use vstd::prelude::*;
use vstd::string::StrSliceExecFns;
use jieba_rs::Jieba;
use crate::segment::{tag_words, tagged_words, MAX_SENTENCE_CHARS};
use crate::text::{char_string, chars_of};
use crate::token::{concat, token_words, BoundaryStatus, NerError, Segment, SplitWord, SplitWordView};

verus! {

/// The status of the character at `offset` in a segment of `len`
/// characters.
pub open spec fn status_at(len: int, offset: int) -> BoundaryStatus {
    if len == 1 {
        BoundaryStatus::S
    } else if offset == 0 {
        BoundaryStatus::B
    } else if offset == len - 1 {
        BoundaryStatus::E
    } else {
        BoundaryStatus::I
    }
}

/// What one segment gives to its characters: for each of them, in order,
/// its status and the segment's tag.
pub open spec fn segment_marks(segment: (Seq<char>, Seq<char>)) -> Seq<(BoundaryStatus, Seq<char>)> {
    Seq::new(segment.0.len(), |i: int| (status_at(segment.0.len() as int, i), segment.1))
}

/// The marks of all the segments, one after another.
pub open spec fn marks(segments: Seq<(Seq<char>, Seq<char>)>) -> Seq<(BoundaryStatus, Seq<char>)>
    decreases segments.len(),
{
    if segments.len() == 0 {
        Seq::empty()
    } else {
        marks(segments.drop_last()) + segment_marks(segments.last())
    }
}

/// The number of characters that stand before segment `j`.
pub open spec fn segment_start(segments: Seq<(Seq<char>, Seq<char>)>, j: int) -> int {
    marks(segments.take(j)).len() as int
}

/// Whether the segments hold exactly as many characters as the sentence.
pub open spec fn covers(sentence: Seq<char>, segments: Seq<(Seq<char>, Seq<char>)>) -> bool {
    marks(segments).len() == sentence.len()
}

/// The token of the character `c` under `mark`.
pub open spec fn char_token(c: char, mark: (BoundaryStatus, Seq<char>)) -> SplitWordView {
    SplitWordView { word: seq![c], status: mark.0, tag: mark.1, entity_type: Seq::empty() }
}

/// The annotated sentence: the k-th token is the k-th character of the
/// sentence under the k-th mark of the segments.
pub open spec fn annotated(
    sentence: Seq<char>,
    segments: Seq<(Seq<char>, Seq<char>)>,
) -> Seq<SplitWordView> {
    Seq::new(sentence.len(), |k: int| char_token(sentence[k], marks(segments)[k]))
}

/// The marks of the first `j + 1` segments are those of the first `j`
/// followed by those of segment `j`.
pub proof fn lemma_marks_step(segments: Seq<(Seq<char>, Seq<char>)>, j: int)
    requires
        0 <= j < segments.len(),
    ensures
        marks(segments.take(j + 1)) == marks(segments.take(j)) + segment_marks(segments[j]),
{
    assert(segments.take(j + 1).drop_last() =~= segments.take(j));
}

/// The marks of a prefix of the segments are a prefix of the marks of all.
pub proof fn lemma_marks_prefix(segments: Seq<(Seq<char>, Seq<char>)>, j: int)
    requires
        0 <= j <= segments.len(),
    ensures
        marks(segments.take(j)).len() <= marks(segments).len(),
        marks(segments).take(marks(segments.take(j)).len() as int) == marks(segments.take(j)),
    decreases segments.len() - j,
{
    if j == segments.len() {
        assert(segments.take(j) =~= segments);
        assert(marks(segments).take(marks(segments).len() as int) =~= marks(segments));
    } else {
        lemma_marks_prefix(segments, j + 1);
        lemma_marks_step(segments, j);
        let short = marks(segments.take(j));
        let long = marks(segments.take(j + 1));
        assert(long.take(short.len() as int) =~= short);
        assert(marks(segments).take(short.len() as int) =~= marks(segments).take(
            long.len() as int,
        ).take(short.len() as int));
    }
}

/// Laying the one-character texts of an annotated sentence end to end gives
/// the sentence back, whatever the segments were.
pub proof fn lemma_round_trip(sentence: Seq<char>, segments: Seq<(Seq<char>, Seq<char>)>)
    ensures
        concat(token_words(annotated(sentence, segments))) == sentence,
    decreases sentence.len(),
{
    let words = token_words(annotated(sentence, segments));
    if sentence.len() == 0 {
        assert(concat(words) =~= sentence);
    } else {
        let shorter = sentence.drop_last();
        lemma_round_trip(shorter, segments);
        assert(words.drop_last() =~= token_words(annotated(shorter, segments)));
        assert(words.last() =~= seq![sentence.last()]);
        assert(concat(words) =~= sentence);
    }
}

/// Every segment shows in the annotated sentence as one run of tokens that
/// carry its tag: a lone `S` where the segment has one character, else a
/// `B`, then `I` throughout, then an `E`.
pub proof fn lemma_status_well_formed(
    sentence: Seq<char>,
    segments: Seq<(Seq<char>, Seq<char>)>,
    j: int,
)
    requires
        covers(sentence, segments),
        0 <= j < segments.len(),
    ensures
        ({
            let start = segment_start(segments, j);
            let n = segments[j].0.len() as int;
            let tokens = annotated(sentence, segments);
            &&& 0 <= start
            &&& start + n <= tokens.len()
            &&& start + n == segment_start(segments, j + 1)
            &&& forall|i: int| 0 <= i < n ==> (#[trigger] tokens[start + i]).tag == segments[j].1
            &&& forall|i: int|
                0 <= i < n ==> (#[trigger] tokens[start + i]).status == status_at(n, i)
            &&& n == 1 ==> tokens[start].status == BoundaryStatus::S
            &&& n >= 2 ==> tokens[start].status == BoundaryStatus::B
            &&& n >= 2 ==> tokens[start + n - 1].status == BoundaryStatus::E
            &&& forall|i: int|
                0 < i < n - 1 ==> (#[trigger] tokens[start + i]).status == BoundaryStatus::I
        }),
{
    let start = segment_start(segments, j);
    let n = segments[j].0.len() as int;
    let tokens = annotated(sentence, segments);
    let all = marks(segments);
    let upto = marks(segments.take(j + 1));
    lemma_marks_step(segments, j);
    lemma_marks_prefix(segments, j + 1);
    assert(upto.len() == start + n);
    assert forall|i: int| 0 <= i < n implies all[start + i] == segment_marks(segments[j])[i] by {
        assert(all.take(upto.len() as int)[start + i] == upto[start + i]);
    }
    assert forall|i: int| 0 <= i < n implies (#[trigger] tokens[start + i]).tag == segments[j].1
        && tokens[start + i].status == status_at(n, i) by {
        assert(all[start + i] == segment_marks(segments[j])[i]);
    }
    if n >= 1 {
        assert(tokens[start + 0].status == status_at(n, 0));
        assert(tokens[start + (n - 1)].status == status_at(n, n - 1));
    }
}

/// Annotating the sentence that an annotated sentence spells out, with the
/// same segments, gives the same tokens again.
pub proof fn lemma_reannotation_stable(sentence: Seq<char>, segments: Seq<(Seq<char>, Seq<char>)>)
    ensures
        annotated(concat(token_words(annotated(sentence, segments))), segments) == annotated(
            sentence,
            segments,
        ),
{
    lemma_round_trip(sentence, segments);
}

/// The status of the character at `offset` in a segment of `len`
/// characters.
fn status_of(len: usize, offset: usize) -> (r: BoundaryStatus)
    requires
        offset < len,
    ensures
        r == status_at(len as int, offset as int),
{
    if len == 1 {
        BoundaryStatus::S
    } else if offset == 0 {
        BoundaryStatus::B
    } else if offset == len - 1 {
        BoundaryStatus::E
    } else {
        BoundaryStatus::I
    }
}

/// Splits `sentence` into one token per character and gives each token the
/// status and the tag that `segments` assign to its position.
///
/// Fails when the segments do not hold exactly as many characters as the
/// sentence; what the characters of the segments are is not looked at.
pub fn annotate(sentence: &str, segments: &[Segment]) -> (r: Result<Vec<SplitWord>, NerError>)
    ensures
        match r {
            Ok(tokens) => {
                &&& covers(sentence@, segments.deep_view())
                &&& tokens.deep_view() == annotated(sentence@, segments.deep_view())
                &&& tokens.len() == sentence@.len()
                &&& concat(token_words(tokens.deep_view())) == sentence@
            },
            Err(e) => {
                &&& !covers(sentence@, segments.deep_view())
                &&& e == (NerError::InputConsistency { sentence: 0 })
            },
        },
{
    let ghost segs = segments.deep_view();
    let chars = chars_of(sentence);
    let mut tokens: Vec<SplitWord> = Vec::new();
    let mut j: usize = 0;
    while j < segments.len()
        invariant
            j <= segments.len(),
            segs == segments.deep_view(),
            chars@ == sentence@,
            tokens.len() == marks(segs.take(j as int)).len(),
            tokens.len() <= chars.len(),
            forall|k: int|
                0 <= k < tokens.len() ==> (#[trigger] tokens[k]).deep_view() == char_token(
                    sentence@[k],
                    marks(segs.take(j as int))[k],
                ),
        decreases segments.len() - j,
    {
        let segment = &segments[j];
        let n: usize = segment.word.as_str().unicode_len();
        let ghost before = marks(segs.take(j as int));
        let ghost run = segment_marks(segs[j as int]);
        proof {
            lemma_marks_step(segs, j as int);
            lemma_marks_prefix(segs, j as int + 1);
        }
        let mut i: usize = 0;
        while i < n
            invariant
                i <= n,
                j < segments.len(),
                segs == segments.deep_view(),
                chars@ == sentence@,
                segment == segments[j as int],
                n == segs[j as int].0.len(),
                before == marks(segs.take(j as int)),
                run == segment_marks(segs[j as int]),
                before.len() + run.len() <= marks(segs).len(),
                tokens.len() == before.len() + i,
                tokens.len() <= chars.len(),
                forall|k: int|
                    0 <= k < tokens.len() ==> (#[trigger] tokens[k]).deep_view() == char_token(
                        sentence@[k],
                        (before + run)[k],
                    ),
            decreases n - i,
        {
            let at: usize = tokens.len();
            if at >= chars.len() {
                return Err(NerError::InputConsistency { sentence: 0 });
            }
            let token = SplitWord {
                word: char_string(chars[at]),
                status: status_of(n, i),
                tag: segment.tag.clone(),
                entity_type: String::new(),
            };
            proof {
                assert(token.deep_view() == char_token(sentence@[at as int], (before + run)[at as int]));
            }
            tokens.push(token);
            i += 1;
        }
        j += 1;
    }
    proof {
        assert(segs.take(segs.len() as int) =~= segs);
    }
    if tokens.len() != chars.len() {
        return Err(NerError::InputConsistency { sentence: 0 });
    }
    proof {
        assert(tokens.deep_view() =~= annotated(sentence@, segs));
        lemma_round_trip(sentence@, segs);
    }
    Ok(tokens)
}

/// Segments `sentence` with `segmentor`, hidden Markov model on, and
/// annotates it with what the segmenter found. Returns the tokens together
/// with the segments they were made from.
///
/// The sentence must be short enough for the segmenter.
pub fn split_by_words(segmentor: &Jieba, sentence: &str) -> (r: Result<
    (Vec<SplitWord>, Vec<Segment>),
    NerError,
>)
    requires
        sentence@.len() <= MAX_SENTENCE_CHARS,
    ensures
        match r {
            Ok((tokens, segments)) => {
                &&& segments.deep_view() == tagged_words(*segmentor, sentence@, true)
                &&& covers(sentence@, segments.deep_view())
                &&& tokens.deep_view() == annotated(sentence@, segments.deep_view())
                &&& tokens.len() == sentence@.len()
                &&& concat(token_words(tokens.deep_view())) == sentence@
            },
            Err(e) => {
                &&& !covers(sentence@, tagged_words(*segmentor, sentence@, true))
                &&& e == (NerError::InputConsistency { sentence: 0 })
            },
        },
{
    let segments = tag_words(segmentor, sentence, true);
    match annotate(sentence, segments.as_slice()) {
        Ok(tokens) => Ok((tokens, segments)),
        Err(e) => Err(e),
    }
}

} // verus!
