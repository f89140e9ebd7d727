//! The feature builder: for every token of an annotated sentence, the
//! feature strings that describe it and its two neighbours to a sequence
//! labeller.
use vstd::prelude::*;
use vstd::string::StringExecFns;
use crate::text::{all_ascii_digits, is_ascii_digit_char, is_digit_word};
use crate::token::{SplitWord, SplitWordView};

verus! {

/// How a truth value is spelled in a feature.
pub open spec fn truth_name(b: bool) -> Seq<char> {
    if b {
        "True"@
    } else {
        "False"@
    }
}

/// The features a token has of itself: the bias marker, its text, whether
/// the text is all ASCII digits, its part-of-speech tag and its status.
pub open spec fn own_features(token: SplitWordView) -> Seq<Seq<char>> {
    seq![
        "bias"@,
        "word="@ + token.word,
        "word.isdigit="@ + truth_name(all_ascii_digits(token.word)),
        "postag="@ + token.tag,
        "cuttag="@ + token.status.name(),
    ]
}

/// The features a token has of its left neighbour, or the start marker
/// where it has none.
pub open spec fn left_features(tokens: Seq<SplitWordView>, i: int) -> Seq<Seq<char>> {
    if i > 0 {
        seq![
            "-1:word="@ + tokens[i - 1].word,
            "-1:postag="@ + tokens[i - 1].tag,
            "-1:cuttag="@ + tokens[i - 1].status.name(),
        ]
    } else {
        seq!["BOS"@]
    }
}

/// The features a token has of its right neighbour, or the end marker
/// where it has none.
pub open spec fn right_features(tokens: Seq<SplitWordView>, i: int) -> Seq<Seq<char>> {
    if i < tokens.len() - 1 {
        seq![
            "+1:word="@ + tokens[i + 1].word,
            "+1:postag="@ + tokens[i + 1].tag,
            "+1:cuttag="@ + tokens[i + 1].status.name(),
        ]
    } else {
        seq!["EOS"@]
    }
}

/// The feature vector of token `i`: its own features, then those of the
/// left side, then those of the right side.
pub open spec fn token_features(tokens: Seq<SplitWordView>, i: int) -> Seq<Seq<char>> {
    own_features(tokens[i]) + left_features(tokens, i) + right_features(tokens, i)
}

/// The feature vectors of a sentence, one per token and in the order of
/// the tokens.
pub open spec fn sentence_features(tokens: Seq<SplitWordView>) -> Seq<Seq<Seq<char>>> {
    Seq::new(tokens.len(), |i: int| token_features(tokens, i))
}

/// A token with a neighbour on each side has eleven features, one at either
/// end of a longer sentence has nine, and the token of a one-token sentence
/// has seven: a missing neighbour's three features give way to one marker.
pub proof fn lemma_feature_count(tokens: Seq<SplitWordView>, i: int)
    requires
        0 <= i < tokens.len(),
    ensures
        0 < i < tokens.len() - 1 ==> token_features(tokens, i).len() == 11,
        tokens.len() > 1 && (i == 0 || i == tokens.len() - 1) ==> token_features(tokens, i).len()
            == 9,
        tokens.len() == 1 ==> token_features(tokens, i).len() == 7,
{
}

/// The digit feature of a token reads `word.isdigit=True` where every
/// character of its text is an ASCII digit and `word.isdigit=False` where
/// one is not, and the two readings differ.
pub proof fn lemma_digit_feature(token: SplitWordView)
    ensures
        all_ascii_digits(token.word) <==> own_features(token)[2] == "word.isdigit=True"@,
        !all_ascii_digits(token.word) <==> own_features(token)[2] == "word.isdigit=False"@,
{
    reveal_strlit("word.isdigit=");
    reveal_strlit("True");
    reveal_strlit("False");
    reveal_strlit("word.isdigit=True");
    reveal_strlit("word.isdigit=False");
    assert("word.isdigit="@ + "True"@ =~= "word.isdigit=True"@);
    assert("word.isdigit="@ + "False"@ =~= "word.isdigit=False"@);
    assert("word.isdigit=True"@.len() != "word.isdigit=False"@.len());
}

/// A text that holds the Chinese numeral for one is not made of ASCII
/// digits, whatever else it holds.
pub proof fn lemma_chinese_numeral_is_no_digit(word: Seq<char>, k: int)
    requires
        0 <= k < word.len(),
        word[k] == '\u{4e00}',
    ensures
        !all_ascii_digits(word),
{
    assert(!is_ascii_digit_char(word[k]));
}

/// The string `key` followed by `value`.
fn keyed(key: &str, value: &str) -> (r: String)
    ensures
        r@ == key@ + value@,
{
    let mut out = String::from_str(key);
    out.append(value);
    out
}

/// Builds the feature vector of the token at position `i` of
/// `split_words`.
pub fn word2features(split_words: &[SplitWord], i: usize) -> (r: Vec<String>)
    requires
        i < split_words.len(),
    ensures
        r.deep_view() == token_features(split_words.deep_view(), i as int),
        r.len() == 5 + (if i > 0 { 3int } else { 1int }) + (if i < split_words.len() - 1 {
            3int
        } else {
            1int
        }),
{
    let ghost tokens = split_words.deep_view();
    let split_word = &split_words[i];
    let is_digit = is_digit_word(split_word.word.as_str());
    let mut features: Vec<String> = Vec::new();
    features.push(String::from_str("bias"));
    features.push(keyed("word=", split_word.word.as_str()));
    features.push(keyed("word.isdigit=", if is_digit { "True" } else { "False" }));
    features.push(keyed("postag=", split_word.tag.as_str()));
    features.push(keyed("cuttag=", split_word.status.as_str()));
    proof {
        assert(features.deep_view() =~= own_features(tokens[i as int]));
    }
    if i > 0 {
        let split_word1 = &split_words[i - 1];
        features.push(keyed("-1:word=", split_word1.word.as_str()));
        features.push(keyed("-1:postag=", split_word1.tag.as_str()));
        features.push(keyed("-1:cuttag=", split_word1.status.as_str()));
    } else {
        features.push(String::from_str("BOS"));
    }
    proof {
        assert(features.deep_view() =~= own_features(tokens[i as int]) + left_features(
            tokens,
            i as int,
        ));
    }
    if i < split_words.len() - 1 {
        let split_word1 = &split_words[i + 1];
        features.push(keyed("+1:word=", split_word1.word.as_str()));
        features.push(keyed("+1:postag=", split_word1.tag.as_str()));
        features.push(keyed("+1:cuttag=", split_word1.status.as_str()));
    } else {
        features.push(String::from_str("EOS"));
    }
    proof {
        assert(features.deep_view() =~= token_features(tokens, i as int));
    }
    features
}

/// Builds the feature vectors of a whole sentence.
pub fn sent2features(split_words: &[SplitWord]) -> (r: Vec<Vec<String>>)
    ensures
        r.deep_view() == sentence_features(split_words.deep_view()),
        r.len() == split_words.len(),
{
    let mut features: Vec<Vec<String>> = Vec::with_capacity(split_words.len());
    let mut i: usize = 0;
    while i < split_words.len()
        invariant
            i <= split_words.len(),
            features.len() == i,
            forall|k: int|
                0 <= k < i ==> (#[trigger] features[k]).deep_view() == token_features(
                    split_words.deep_view(),
                    k,
                ),
        decreases split_words.len() - i,
    {
        features.push(word2features(split_words, i));
        i += 1;
    }
    proof {
        assert(features.deep_view() =~= sentence_features(split_words.deep_view()));
    }
    features
}

} // verus!
