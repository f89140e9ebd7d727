//! The training corpus parser. A corpus is a list of lines: a line that is
//! not blank holds a token, a space and the token's gold label, and a blank
//! line ends a sentence.
use vstd::prelude::*;
use vstd::string::{StrSliceExecFns, StringExecFns};
use jieba_rs::Jieba;
use crate::annotate::{annotate, annotated, covers, lemma_round_trip};
use crate::features::{sent2features, sentence_features};
use crate::segment::{tag_words, tagged_words, MAX_SENTENCE_CHARS};
use crate::text::chars_of;
use crate::token::{concat, token_labels, token_words, NerError, Segment, SplitWord, SplitWordView};

verus! {

/// The position of the first space of `line` at or after `from`, or the
/// length of the line where no space follows.
pub open spec fn field_end(line: Seq<char>, from: int) -> int
    decreases line.len() - from,
{
    if from >= line.len() {
        line.len() as int
    } else if line[from] == ' ' {
        from
    } else {
        field_end(line, from + 1)
    }
}

/// Whether a line holds a space, and with it a second field.
pub open spec fn has_label(line: Seq<char>) -> bool {
    line.contains(' ')
}

/// The first field of a line: what stands before its first space.
pub open spec fn line_token(line: Seq<char>) -> Seq<char> {
    line.subrange(0, field_end(line, 0))
}

/// The second field of a line: what stands between its first space and its
/// second, or the end of the line.
pub open spec fn line_label(line: Seq<char>) -> Seq<char> {
    let from = field_end(line, 0) + 1;
    line.subrange(from, field_end(line, from))
}

/// A stretch without a space that ends at a space, or at the end of the
/// line, ends the field that starts with it.
pub proof fn lemma_field_end(line: Seq<char>, from: int, to: int)
    requires
        0 <= from <= to <= line.len(),
        forall|k: int| from <= k < to ==> line[k] != ' ',
        to == line.len() || line[to] == ' ',
    ensures
        field_end(line, from) == to,
    decreases to - from,
{
    if from < to {
        lemma_field_end(line, from + 1, to);
    }
}

/// Splits a corpus line at its spaces and returns the first two fields, the
/// token and its label. Either may be empty. A line without a space has no
/// label and gives `None`.
pub fn parse_corpus_line(line: &str) -> (r: Option<(String, String)>)
    ensures
        match r {
            Some((token, label)) => {
                &&& has_label(line@)
                &&& token@ == line_token(line@)
                &&& label@ == line_label(line@)
            },
            None => !has_label(line@),
        },
{
    let chars = chars_of(line);
    let mut token = String::new();
    let mut i: usize = 0;
    while i < chars.len() && chars[i] != ' '
        invariant
            i <= chars.len(),
            chars@ == line@,
            forall|k: int| 0 <= k < i ==> line@[k] != ' ',
            token@ == line@.subrange(0, i as int),
        decreases chars.len() - i,
    {
        token.push(chars[i]);
        proof {
            assert(line@.subrange(0, i as int).push(line@[i as int]) =~= line@.subrange(
                0,
                i as int + 1,
            ));
        }
        i += 1;
    }
    proof {
        lemma_field_end(line@, 0, i as int);
    }
    if i == chars.len() {
        return None;
    }
    proof {
        assert(line@[i as int] == ' ');
    }
    let mut label = String::new();
    let mut j: usize = i + 1;
    proof {
        assert(line@.subrange(i as int + 1, j as int) =~= Seq::<char>::empty());
    }
    while j < chars.len() && chars[j] != ' '
        invariant
            i < j <= chars.len(),
            chars@ == line@,
            forall|k: int| i < k < j ==> line@[k] != ' ',
            label@ == line@.subrange(i as int + 1, j as int),
        decreases chars.len() - j,
    {
        label.push(chars[j]);
        proof {
            assert(line@.subrange(i as int + 1, j as int).push(line@[j as int]) =~= line@.subrange(
                i as int + 1,
                j as int + 1,
            ));
        }
        j += 1;
    }
    proof {
        lemma_field_end(line@, i as int + 1, j as int);
    }
    Some((token, label))
}

/// The tokens of a list of corpus entries, in order.
pub open spec fn entry_tokens(entries: Seq<(Seq<char>, Seq<char>)>) -> Seq<Seq<char>> {
    Seq::new(entries.len(), |i: int| entries[i].0)
}

/// The gold labels of a list of corpus entries, in order.
pub open spec fn entry_labels(entries: Seq<(Seq<char>, Seq<char>)>) -> Seq<Seq<char>> {
    Seq::new(entries.len(), |i: int| entries[i].1)
}

/// The sentence that a list of corpus entries spells out.
pub open spec fn corpus_sentence(entries: Seq<(Seq<char>, Seq<char>)>) -> Seq<char> {
    concat(entry_tokens(entries))
}

/// The token at position `k` of an annotated sentence, with the gold label
/// of entry `k`.
pub open spec fn labeled_token(token: SplitWordView, label: Seq<char>) -> SplitWordView {
    SplitWordView { word: token.word, status: token.status, tag: token.tag, entity_type: label }
}

/// The labelled sentence of a list of entries under a segmentation of the
/// sentence they spell: the sentence annotated character by character, each
/// token with the label of the entry at its position. There is none where
/// the segments do not cover the sentence, or where the sentence has not
/// one character for each entry.
pub open spec fn labeled(
    entries: Seq<(Seq<char>, Seq<char>)>,
    segments: Seq<(Seq<char>, Seq<char>)>,
) -> Option<Seq<SplitWordView>> {
    let sentence = corpus_sentence(entries);
    if covers(sentence, segments) && sentence.len() == entries.len() {
        Some(
            Seq::new(
                entries.len(),
                |k: int| labeled_token(annotated(sentence, segments)[k], entries[k].1),
            ),
        )
    } else {
        None
    }
}

/// The entries that a labelled sentence spells out: for each token its
/// text and its gold label.
pub open spec fn token_entries(tokens: Seq<SplitWordView>) -> Seq<(Seq<char>, Seq<char>)> {
    Seq::new(tokens.len(), |k: int| (tokens[k].word, tokens[k].entity_type))
}

/// Reading a labelled sentence back as corpus entries and labelling those
/// with the same segments gives the same labelled sentence again.
pub proof fn lemma_relabeling_stable(
    entries: Seq<(Seq<char>, Seq<char>)>,
    segments: Seq<(Seq<char>, Seq<char>)>,
)
    requires
        labeled(entries, segments) is Some,
    ensures
        corpus_sentence(token_entries(labeled(entries, segments)->0)) == corpus_sentence(entries),
        labeled(token_entries(labeled(entries, segments)->0), segments) == labeled(
            entries,
            segments,
        ),
{
    let sentence = corpus_sentence(entries);
    let tokens = labeled(entries, segments)->0;
    let again = token_entries(tokens);
    lemma_round_trip(sentence, segments);
    assert(entry_tokens(again) =~= token_words(annotated(sentence, segments)));
    assert(labeled(again, segments)->0 =~= tokens);
}

/// Lays the tokens of `entries` end to end.
pub fn join_tokens(entries: &[(String, String)]) -> (r: String)
    ensures
        r@ == corpus_sentence(entries.deep_view()),
{
    let ghost tokens = entry_tokens(entries.deep_view());
    let mut sentence = String::new();
    let mut i: usize = 0;
    while i < entries.len()
        invariant
            i <= entries.len(),
            tokens == entry_tokens(entries.deep_view()),
            sentence@ == concat(tokens.take(i as int)),
        decreases entries.len() - i,
    {
        proof {
            assert(tokens.take(i as int + 1).drop_last() =~= tokens.take(i as int));
            assert(tokens.take(i as int + 1).last() == entries[i as int].0@);
        }
        sentence.append(entries[i].0.as_str());
        i += 1;
    }
    proof {
        assert(tokens.take(entries.len() as int) =~= tokens);
    }
    sentence
}

/// Annotates the sentence that `entries` spell out with `segments`, and
/// gives each token the gold label of the entry at its position.
///
/// Fails where the segments do not hold as many characters as the
/// sentence, or the sentence has not one character for each entry.
pub fn label_sentence(entries: &[(String, String)], segments: &[Segment]) -> (r: Result<
    Vec<SplitWord>,
    NerError,
>)
    ensures
        match r {
            Ok(tokens) => {
                &&& labeled(entries.deep_view(), segments.deep_view()) == Some(tokens.deep_view())
                &&& tokens.len() == entries.len()
            },
            Err(e) => {
                &&& labeled(entries.deep_view(), segments.deep_view()) is None
                &&& e == (NerError::InputConsistency { sentence: 0 })
            },
        },
{
    let sentence = join_tokens(entries);
    let plain = match annotate(sentence.as_str(), segments) {
        Ok(tokens) => tokens,
        Err(e) => {
            return Err(e);
        },
    };
    if plain.len() != entries.len() {
        return Err(NerError::InputConsistency { sentence: 0 });
    }
    let mut tokens: Vec<SplitWord> = Vec::with_capacity(plain.len());
    let mut k: usize = 0;
    while k < plain.len()
        invariant
            k <= plain.len(),
            plain.len() == entries.len(),
            tokens.len() == k,
            forall|i: int|
                0 <= i < k ==> (#[trigger] tokens[i]).deep_view() == labeled_token(
                    plain[i].deep_view(),
                    entries[i].1@,
                ),
        decreases plain.len() - k,
    {
        let token = &plain[k];
        tokens.push(
            SplitWord {
                word: token.word.clone(),
                status: token.status,
                tag: token.tag.clone(),
                entity_type: entries[k].1.clone(),
            },
        );
        k += 1;
    }
    proof {
        assert(tokens.deep_view() =~= labeled(entries.deep_view(), segments.deep_view())->0);
    }
    Ok(tokens)
}

/// One sentence of a training set: the feature vectors of its tokens and,
/// position for position, their gold labels.
#[derive(Clone, Debug, PartialEq, Eq)]
pub struct TrainingSentence {
    /// One feature vector per token.
    pub features: Vec<Vec<String>>,
    /// One gold label per token.
    pub labels: Vec<String>,
}

/// The mathematical content of a `TrainingSentence`.
pub struct TrainingSentenceView {
    pub features: Seq<Seq<Seq<char>>>,
    pub labels: Seq<Seq<char>>,
}

impl DeepView for TrainingSentence {
    type V = TrainingSentenceView;

    open spec fn deep_view(&self) -> TrainingSentenceView {
        TrainingSentenceView { features: self.features.deep_view(), labels: self.labels.deep_view() }
    }
}

/// The training sentence that a labelled sentence gives.
pub open spec fn training_sentence(tokens: Seq<SplitWordView>) -> TrainingSentenceView {
    TrainingSentenceView { features: sentence_features(tokens), labels: token_labels(tokens) }
}

/// A corpus reader between two lines: the entries of the sentence it is
/// in, and the sentences it has finished.
pub struct CorpusState {
    pub entries: Seq<(Seq<char>, Seq<char>)>,
    pub sentences: Seq<TrainingSentenceView>,
}

/// The corpus reader after the first `n` lines, or the error that stopped
/// it on the way. It starts with nothing. A line that is not blank adds an
/// entry to the sentence it is in, and is an error where it has no label.
/// A blank line ends that sentence: the sentence is segmented, labelled and
/// turned into features, which is an error where it cannot be labelled.
pub open spec fn corpus_after(segmenter: Jieba, lines: Seq<Seq<char>>, n: int) -> Result<
    CorpusState,
    NerError,
>
    decreases n,
{
    if n <= 0 {
        Ok(CorpusState { entries: Seq::empty(), sentences: Seq::empty() })
    } else {
        match corpus_after(segmenter, lines, n - 1) {
            Err(e) => Err(e),
            Ok(state) => {
                let line = lines[n - 1];
                if line.len() == 0 {
                    let sentence = corpus_sentence(state.entries);
                    match labeled(state.entries, tagged_words(segmenter, sentence, true)) {
                        Some(tokens) => Ok(
                            CorpusState {
                                entries: Seq::empty(),
                                sentences: state.sentences.push(training_sentence(tokens)),
                            },
                        ),
                        None => Err(
                            NerError::InputConsistency { sentence: state.sentences.len() as usize },
                        ),
                    }
                } else if has_label(line) {
                    Ok(
                        CorpusState {
                            entries: state.entries.push((line_token(line), line_label(line))),
                            sentences: state.sentences,
                        },
                    )
                } else {
                    Err(NerError::MalformedCorpusLine { line: (n - 1) as usize })
                }
            },
        }
    }
}

/// The training set of a corpus: the sentences that a blank line ended, in
/// the order of the corpus. Entries after the last blank line belong to no
/// finished sentence and are left out.
pub open spec fn training_sentences(segmenter: Jieba, lines: Seq<Seq<char>>) -> Result<
    Seq<TrainingSentenceView>,
    NerError,
> {
    match corpus_after(segmenter, lines, lines.len() as int) {
        Ok(state) => Ok(state.sentences),
        Err(e) => Err(e),
    }
}

/// Once the corpus reader has stopped on an error, the error stays.
pub proof fn lemma_error_stays(segmenter: Jieba, lines: Seq<Seq<char>>, n: int, m: int)
    requires
        0 <= n <= m,
        corpus_after(segmenter, lines, n) is Err,
    ensures
        corpus_after(segmenter, lines, m) == corpus_after(segmenter, lines, n),
    decreases m - n,
{
    if n < m {
        lemma_error_stays(segmenter, lines, n, m - 1);
    }
}

/// The gold labels of `tokens`, in order.
fn labels_of(tokens: &[SplitWord]) -> (r: Vec<String>)
    ensures
        r.deep_view() == token_labels(tokens.deep_view()),
        r.len() == tokens.len(),
{
    let mut labels: Vec<String> = Vec::with_capacity(tokens.len());
    let mut i: usize = 0;
    while i < tokens.len()
        invariant
            i <= tokens.len(),
            labels.len() == i,
            forall|k: int| 0 <= k < i ==> (#[trigger] labels[k])@ == tokens[k].entity_type@,
        decreases tokens.len() - i,
    {
        labels.push(tokens[i].entity_type.clone());
        i += 1;
    }
    proof {
        assert(labels.deep_view() =~= token_labels(tokens.deep_view()));
    }
    labels
}

/// Reads a corpus line by line and builds its training set, segmenting
/// each finished sentence with `segmentor`, hidden Markov model on.
///
/// Stops at the first line without a label and at the first sentence that
/// cannot be labelled, whichever comes first, and reports the position of
/// the line or of the sentence.
///
/// The corpus must not have more lines than the longest sentence that the
/// segmenter takes has characters.
pub fn training_set(segmentor: &Jieba, lines: &[String]) -> (r: Result<
    Vec<TrainingSentence>,
    NerError,
>)
    requires
        lines.len() <= MAX_SENTENCE_CHARS,
    ensures
        match r {
            Ok(sentences) => {
                &&& training_sentences(*segmentor, lines.deep_view()) == Ok::<
                    Seq<TrainingSentenceView>,
                    NerError,
                >(sentences.deep_view())
                &&& forall|i: int|
                    0 <= i < sentences.len() ==> (#[trigger] sentences[i]).features.len()
                        == sentences[i].labels.len()
            },
            Err(e) => training_sentences(*segmentor, lines.deep_view()) == Err::<
                Seq<TrainingSentenceView>,
                NerError,
            >(e),
        },
{
    let ghost all = lines.deep_view();
    let mut entries: Vec<(String, String)> = Vec::new();
    let mut sentences: Vec<TrainingSentence> = Vec::new();
    let mut n: usize = 0;
    proof {
        assert(entries.deep_view() =~= Seq::<(Seq<char>, Seq<char>)>::empty());
        assert(sentences.deep_view() =~= Seq::<TrainingSentenceView>::empty());
    }
    while n < lines.len()
        invariant
            n <= lines.len(),
            all == lines.deep_view(),
            lines.len() <= MAX_SENTENCE_CHARS,
            sentences.len() <= n,
            entries.len() <= n,
            forall|i: int|
                0 <= i < sentences.len() ==> (#[trigger] sentences[i]).features.len()
                    == sentences[i].labels.len(),
            corpus_after(*segmentor, all, n as int) == Ok::<CorpusState, NerError>(
                CorpusState { entries: entries.deep_view(), sentences: sentences.deep_view() },
            ),
        decreases lines.len() - n,
    {
        let line = lines[n].as_str();
        proof {
            assert(all[n as int] == line@);
        }
        if line.is_empty() {
            let sentence = join_tokens(entries.as_slice());
            if sentence.as_str().unicode_len() != entries.len() {
                proof {
                    lemma_error_stays(*segmentor, all, n as int + 1, lines.len() as int);
                }
                return Err(NerError::InputConsistency { sentence: sentences.len() });
            }
            let segments = tag_words(segmentor, sentence.as_str(), true);
            match label_sentence(entries.as_slice(), segments.as_slice()) {
                Ok(tokens) => {
                    let ghost before = sentences.deep_view();
                    let finished = TrainingSentence {
                        features: sent2features(tokens.as_slice()),
                        labels: labels_of(tokens.as_slice()),
                    };
                    sentences.push(finished);
                    entries = Vec::new();
                    proof {
                        assert(sentences.deep_view() =~= before.push(
                            training_sentence(tokens.deep_view()),
                        ));
                        assert(entries.deep_view() =~= Seq::<(Seq<char>, Seq<char>)>::empty());
                    }
                },
                Err(_) => {
                    proof {
                        lemma_error_stays(*segmentor, all, n as int + 1, lines.len() as int);
                    }
                    return Err(NerError::InputConsistency { sentence: sentences.len() });
                },
            }
        } else {
            match parse_corpus_line(line) {
                Some(entry) => {
                    let ghost before = entries.deep_view();
                    entries.push(entry);
                    proof {
                        assert(entries.deep_view() =~= before.push(
                            (line_token(line@), line_label(line@)),
                        ));
                    }
                },
                None => {
                    proof {
                        lemma_error_stays(*segmentor, all, n as int + 1, lines.len() as int);
                    }
                    return Err(NerError::MalformedCorpusLine { line: n });
                },
            }
        }
        n += 1;
    }
    Ok(sentences)
}

} // verus!
