//! The word segmenter. Segmentation and part-of-speech tagging are the work
//! of `jieba_rs`; nothing of it is proved here.
use vstd::prelude::*;
use jieba_rs::Jieba;
use crate::token::Segment;

verus! {

/// `jieba_rs::Jieba`, a dictionary-driven segmenter. Its inside is not
/// visible to the proofs.
#[verifier::external_type_specification]
#[verifier::external_body]
pub struct ExJieba(jieba_rs::Jieba);

/// The words and part-of-speech tags that `segmenter` finds in `sentence`,
/// with or without its hidden Markov model for unknown words. The outcome is
/// fixed by the segmenter's dictionary and the text; no shape is claimed
/// for it, not even that the words add up to the sentence.
pub uninterp spec fn tagged_words(segmenter: Jieba, sentence: Seq<char>, hmm: bool) -> Seq<
    (Seq<char>, Seq<char>),
>;

/// The longest sentence, in characters, that is handed to the segmenter.
/// `jieba_rs` keeps the byte offsets within a run of text in 32 bits, and
/// a character takes at most four bytes: a sentence of this length fits
/// whatever its characters are.
pub const MAX_SENTENCE_CHARS: usize = 0x3FFF_FFFF;

/// Runs `Jieba::tag` and copies the word and the tag out of each item it
/// returns. The contract only gives the outcome its name; the sentence is
/// kept within the length that the segmenter's offsets can hold.
#[verifier::external_body]
pub(crate) fn tag_words(segmenter: &Jieba, sentence: &str, hmm: bool) -> (r: Vec<Segment>)
    requires
        sentence@.len() <= MAX_SENTENCE_CHARS,
    ensures
        r.deep_view() == tagged_words(*segmenter, sentence@, hmm),
{
    segmenter
        .tag(sentence, hmm)
        .into_iter()
        .map(|t| Segment { word: t.word.to_string(), tag: t.tag.to_string() })
        .collect()
}

} // verus!
