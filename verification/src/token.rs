//! The data that flows between the stages of the pipeline: segments as the
//! segmenter emits them, character tokens as the annotator leaves them, and
//! the errors a stage can report.
use vstd::prelude::*;

verus! {

/// Where a character stands within the segment that owns it.
#[derive(Clone, Copy, Debug, PartialEq, Eq, Structural)]
pub enum BoundaryStatus {
    /// First character of a segment of two or more characters.
    B,
    /// A character strictly between the first and the last.
    I,
    /// Last character of a segment of two or more characters.
    E,
    /// The only character of its segment.
    S,
}

impl BoundaryStatus {
    /// The one-letter name under which the status appears in a feature.
    pub open spec fn name(self) -> Seq<char> {
        match self {
            BoundaryStatus::B => seq!['B'],
            BoundaryStatus::I => seq!['I'],
            BoundaryStatus::E => seq!['E'],
            BoundaryStatus::S => seq!['S'],
        }
    }

    /// The one-letter name of the status.
    pub fn as_str(self) -> (r: &'static str)
        ensures
            r@ == self.name(),
    {
        proof {
            reveal_strlit("B");
            reveal_strlit("I");
            reveal_strlit("E");
            reveal_strlit("S");
        }
        let r = match self {
            BoundaryStatus::B => "B",
            BoundaryStatus::I => "I",
            BoundaryStatus::E => "E",
            BoundaryStatus::S => "S",
        };
        assert(r@ =~= self.name());
        r
    }
}

/// One unit of a segmenter's output: a run of characters of the sentence
/// and the part-of-speech tag given to the run.
#[derive(Clone, Debug, PartialEq, Eq)]
pub struct Segment {
    /// The characters of the segment.
    pub word: String,
    /// The part-of-speech tag of the segment.
    pub tag: String,
}

impl DeepView for Segment {
    type V = (Seq<char>, Seq<char>);

    /// A segment is its word and its tag, in that order.
    open spec fn deep_view(&self) -> (Seq<char>, Seq<char>) {
        (self.word@, self.tag@)
    }
}

/// One character position of a sentence after annotation.
#[derive(Clone, Debug, PartialEq, Eq)]
pub struct SplitWord {
    /// The character itself.
    pub word: String,
    /// Where the character stands in its segment.
    pub status: BoundaryStatus,
    /// The part-of-speech tag of the segment that owns the character.
    pub tag: String,
    /// The gold entity label of the character in a training corpus; empty
    /// outside training.
    pub entity_type: String,
}

/// The mathematical content of a `SplitWord`.
pub struct SplitWordView {
    pub word: Seq<char>,
    pub status: BoundaryStatus,
    pub tag: Seq<char>,
    pub entity_type: Seq<char>,
}

impl DeepView for SplitWord {
    type V = SplitWordView;

    open spec fn deep_view(&self) -> SplitWordView {
        SplitWordView {
            word: self.word@,
            status: self.status,
            tag: self.tag@,
            entity_type: self.entity_type@,
        }
    }
}

/// What can go wrong between raw text and model-ready data.
#[derive(Clone, Copy, Debug, PartialEq, Eq, Structural)]
pub enum NerError {
    /// The segments handed to the annotator do not hold as many characters
    /// as the sentence does. `sentence` is the position of the sentence in
    /// its corpus, zero for a sentence that stands alone.
    InputConsistency { sentence: usize },
    /// A corpus line that is not blank holds no space, so it lacks the
    /// label. `line` is the position of the line, counted from zero.
    MalformedCorpusLine { line: usize },
}

/// The words of a list of segments, in order.
pub open spec fn segment_words(segments: Seq<(Seq<char>, Seq<char>)>) -> Seq<Seq<char>> {
    Seq::new(segments.len(), |i: int| segments[i].0)
}

/// The part-of-speech tags of a list of segments, in order.
pub open spec fn segment_tags(segments: Seq<(Seq<char>, Seq<char>)>) -> Seq<Seq<char>> {
    Seq::new(segments.len(), |i: int| segments[i].1)
}

/// The texts of a list of tokens, in order.
pub open spec fn token_words(tokens: Seq<SplitWordView>) -> Seq<Seq<char>> {
    Seq::new(tokens.len(), |i: int| tokens[i].word)
}

/// The gold labels of a list of tokens, in order.
pub open spec fn token_labels(tokens: Seq<SplitWordView>) -> Seq<Seq<char>> {
    Seq::new(tokens.len(), |i: int| tokens[i].entity_type)
}

/// All the sequences of `parts` laid end to end.
pub open spec fn concat(parts: Seq<Seq<char>>) -> Seq<char>
    decreases parts.len(),
{
    if parts.len() == 0 {
        Seq::empty()
    } else {
        concat(parts.drop_last()) + parts.last()
    }
}

} // verus!
