use chinese_ner::{
    annotate, join_tokens, label_sentence, parse_corpus_line, sent2features, training_set, BoundaryStatus,
    NerError, Segment, SplitWord, TrainingSentence,
};
use jieba_rs::Jieba;

fn lines(text: &[&str]) -> Vec<String> {
    text.iter().map(|l| l.to_string()).collect()
}

fn entry(token: &str, label: &str) -> (String, String) {
    (token.to_string(), label.to_string())
}

fn segment(word: &str, tag: &str) -> Segment {
    Segment { word: word.to_string(), tag: tag.to_string() }
}

#[test]
fn corpus_line_fields() {
    assert_eq!(parse_corpus_line("北 LOC"), Some(entry("北", "LOC")));
    assert_eq!(parse_corpus_line("a O"), Some(entry("a", "O")));
    assert_eq!(parse_corpus_line("ab cd"), Some(entry("ab", "cd")));
}

#[test]
fn corpus_line_ignores_what_follows_the_second_field() {
    assert_eq!(parse_corpus_line("北 LOC extra words"), Some(entry("北", "LOC")));
    assert_eq!(parse_corpus_line("北 LOC "), Some(entry("北", "LOC")));
}

#[test]
fn corpus_line_fields_may_be_empty() {
    assert_eq!(parse_corpus_line(" "), Some(entry("", "")));
    assert_eq!(parse_corpus_line("北 "), Some(entry("北", "")));
    assert_eq!(parse_corpus_line(" LOC"), Some(entry("", "LOC")));
    assert_eq!(parse_corpus_line("北  LOC"), Some(entry("北", "")));
}

#[test]
fn corpus_line_without_a_space_has_no_label() {
    assert_eq!(parse_corpus_line("北"), None);
    assert_eq!(parse_corpus_line("北\tLOC"), None);
    assert_eq!(parse_corpus_line("北　LOC"), None);
    assert_eq!(parse_corpus_line(""), None);
}

#[test]
fn joined_tokens() {
    assert_eq!(join_tokens(&[entry("北", "B"), entry("京", "E"), entry("。", "O")]), "北京。");
    assert_eq!(join_tokens(&[]), "");
}

#[test]
fn labelled_sentence() {
    let entries = vec![entry("北", "LOC"), entry("京", "LOC"), entry("好", "O")];
    let segments = vec![segment("北京", "ns"), segment("好", "a")];
    let tokens = label_sentence(&entries, &segments).unwrap();
    assert_eq!(
        tokens,
        vec![
            SplitWord { word: "北".to_string(), status: BoundaryStatus::B, tag: "ns".to_string(), entity_type: "LOC".to_string() },
            SplitWord { word: "京".to_string(), status: BoundaryStatus::E, tag: "ns".to_string(), entity_type: "LOC".to_string() },
            SplitWord { word: "好".to_string(), status: BoundaryStatus::S, tag: "a".to_string(), entity_type: "O".to_string() },
        ]
    );
}

#[test]
fn labelled_sentence_needs_segments_that_cover() {
    let entries = vec![entry("北", "LOC"), entry("京", "LOC")];
    assert_eq!(label_sentence(&entries, &[segment("北", "ns")]), Err(NerError::InputConsistency { sentence: 0 }));
    assert_eq!(
        label_sentence(&entries, &[segment("北京好", "ns")]),
        Err(NerError::InputConsistency { sentence: 0 })
    );
}

#[test]
fn labelled_sentence_needs_one_character_per_entry() {
    let entries = vec![entry("北京", "LOC"), entry("好", "O")];
    let segments = vec![segment("北京", "ns"), segment("好", "a")];
    assert_eq!(label_sentence(&entries, &segments), Err(NerError::InputConsistency { sentence: 0 }));
    let entries = vec![entry("北", "LOC"), entry("", "O")];
    assert_eq!(label_sentence(&entries, &[segment("北", "ns")]), Err(NerError::InputConsistency { sentence: 0 }));
}

#[test]
fn labelled_sentence_of_nothing() {
    assert_eq!(label_sentence(&[], &[]), Ok(vec![]));
}

#[test]
fn relabelling_a_parsed_sentence_is_stable() {
    let entries = vec![entry("仙", "LOC"), entry("鹤", "LOC"), entry("门", "LOC"), entry("。", "O")];
    let segments = vec![segment("仙鹤", "n"), segment("门", "n"), segment("。", "x")];
    let first = label_sentence(&entries, &segments).unwrap();
    let again: Vec<(String, String)> =
        first.iter().map(|t| (t.word.clone(), t.entity_type.clone())).collect();
    assert_eq!(again, entries);
    let second = label_sentence(&again, &segments).unwrap();
    assert_eq!(first, second);
}

#[test]
fn training_set_of_one_sentence() {
    let jieba = Jieba::new();
    let corpus = lines(&["纽 LOC", "约 LOC", "的 O", "天 O", "气 O", ""]);
    let set = training_set(&jieba, &corpus).unwrap();
    assert_eq!(set.len(), 1);
    assert_eq!(set[0].labels, vec!["LOC", "LOC", "O", "O", "O"]);
    let segments: Vec<Segment> = jieba
        .tag("纽约的天气", true)
        .into_iter()
        .map(|t| Segment { word: t.word.to_string(), tag: t.tag.to_string() })
        .collect();
    let tokens = annotate("纽约的天气", &segments).unwrap();
    assert_eq!(set[0].features, sent2features(&tokens));
    assert_eq!(set[0].features[0][1], "word=纽");
    assert_eq!(set[0].features[0][4], "cuttag=B");
    assert_eq!(set[0].features[1][4], "cuttag=E");
    assert_eq!(set[0].features[2][3], "postag=uj");
}

#[test]
fn training_set_keeps_the_order_of_the_corpus() {
    let jieba = Jieba::new();
    let corpus = lines(&["好 O", "", "北 LOC", "京 LOC", "", "李 PER", "白 PER", ""]);
    let set = training_set(&jieba, &corpus).unwrap();
    assert_eq!(set.len(), 3);
    assert_eq!(set[0].labels, vec!["O"]);
    assert_eq!(set[1].labels, vec!["LOC", "LOC"]);
    assert_eq!(set[2].labels, vec!["PER", "PER"]);
    assert_eq!(set[0].features.len(), 1);
    assert_eq!(set[0].features[0].len(), 7);
    assert_eq!(set[1].features[0][1], "word=北");
    assert_eq!(set[2].features[1][1], "word=白");
}

#[test]
fn training_set_drops_a_sentence_that_no_blank_line_ends() {
    let jieba = Jieba::new();
    let corpus = lines(&["北 LOC", "京 LOC", "", "李 PER", "白 PER"]);
    let set = training_set(&jieba, &corpus).unwrap();
    assert_eq!(set.len(), 1);
    assert_eq!(set[0].labels, vec!["LOC", "LOC"]);
    assert_eq!(training_set(&jieba, &lines(&["北 LOC", "京 LOC"])), Ok(vec![]));
}

#[test]
fn training_set_of_blank_lines_holds_empty_sentences() {
    let jieba = Jieba::new();
    let empty = TrainingSentence { features: vec![], labels: vec![] };
    assert_eq!(training_set(&jieba, &lines(&[""])), Ok(vec![empty.clone()]));
    let set = training_set(&jieba, &lines(&["", "好 O", "", ""])).unwrap();
    assert_eq!(set.len(), 3);
    assert_eq!(set[0], empty);
    assert_eq!(set[1].labels, vec!["O"]);
    assert_eq!(set[2], empty);
    assert_eq!(training_set(&jieba, &[]), Ok(vec![]));
}

#[test]
fn training_set_reports_a_line_without_label() {
    let jieba = Jieba::new();
    let corpus = lines(&["北 LOC", "京 LOC", "", "李PER", "白 PER", ""]);
    assert_eq!(training_set(&jieba, &corpus), Err(NerError::MalformedCorpusLine { line: 3 }));
    assert_eq!(training_set(&jieba, &lines(&["北"])), Err(NerError::MalformedCorpusLine { line: 0 }));
}

#[test]
fn training_set_reports_a_sentence_that_cannot_be_labelled() {
    let jieba = Jieba::new();
    let corpus = lines(&["好 O", "", "北京 LOC", "好 O", ""]);
    assert_eq!(training_set(&jieba, &corpus), Err(NerError::InputConsistency { sentence: 1 }));
}

#[test]
fn training_set_reports_the_first_fault() {
    let jieba = Jieba::new();
    let corpus = lines(&["北京 LOC", "", "李PER", ""]);
    assert_eq!(training_set(&jieba, &corpus), Err(NerError::InputConsistency { sentence: 0 }));
    let corpus = lines(&["李PER", "", "北京 LOC", ""]);
    assert_eq!(training_set(&jieba, &corpus), Err(NerError::MalformedCorpusLine { line: 0 }));
}
