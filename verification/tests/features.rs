use chinese_ner::{is_digit_word, sent2features, word2features, BoundaryStatus, SplitWord};

fn token(word: &str, status: BoundaryStatus, tag: &str) -> SplitWord {
    SplitWord { word: word.to_string(), status, tag: tag.to_string(), entity_type: String::new() }
}

fn three() -> Vec<SplitWord> {
    vec![
        token("纽", BoundaryStatus::B, "ns"),
        token("约", BoundaryStatus::E, "ns"),
        token("7", BoundaryStatus::S, "m"),
    ]
}

#[test]
fn features_of_an_inner_token() {
    assert_eq!(
        word2features(&three(), 1),
        vec![
            "bias",
            "word=约",
            "word.isdigit=False",
            "postag=ns",
            "cuttag=E",
            "-1:word=纽",
            "-1:postag=ns",
            "-1:cuttag=B",
            "+1:word=7",
            "+1:postag=m",
            "+1:cuttag=S",
        ]
    );
}

#[test]
fn features_of_the_first_token() {
    assert_eq!(
        word2features(&three(), 0),
        vec![
            "bias",
            "word=纽",
            "word.isdigit=False",
            "postag=ns",
            "cuttag=B",
            "BOS",
            "+1:word=约",
            "+1:postag=ns",
            "+1:cuttag=E",
        ]
    );
}

#[test]
fn features_of_the_last_token() {
    assert_eq!(
        word2features(&three(), 2),
        vec![
            "bias",
            "word=7",
            "word.isdigit=True",
            "postag=m",
            "cuttag=S",
            "-1:word=约",
            "-1:postag=ns",
            "-1:cuttag=E",
            "EOS",
        ]
    );
}

#[test]
fn features_of_a_lone_token() {
    let tokens = vec![token("啊", BoundaryStatus::S, "zg")];
    assert_eq!(
        word2features(&tokens, 0),
        vec!["bias", "word=啊", "word.isdigit=False", "postag=zg", "cuttag=S", "BOS", "EOS"]
    );
}

#[test]
fn feature_counts() {
    let tokens = three();
    assert_eq!(word2features(&tokens, 0).len(), 9);
    assert_eq!(word2features(&tokens, 1).len(), 11);
    assert_eq!(word2features(&tokens, 2).len(), 9);
    assert_eq!(word2features(&tokens[..1], 0).len(), 7);
    let pair = &tokens[..2];
    assert_eq!(word2features(pair, 0).len(), 9);
    assert_eq!(word2features(pair, 1).len(), 9);
}

#[test]
fn sentence_features_follow_the_tokens() {
    let tokens = three();
    let all = sent2features(&tokens);
    assert_eq!(all.len(), 3);
    for i in 0..3 {
        assert_eq!(all[i], word2features(&tokens, i));
    }
    assert_eq!(sent2features(&[]), Vec::<Vec<String>>::new());
}

#[test]
fn digit_words() {
    assert!(is_digit_word("0"));
    assert!(is_digit_word("0123456789"));
    assert!(is_digit_word(""));
    assert!(!is_digit_word("一"));
    assert!(!is_digit_word("1一2"));
    assert!(!is_digit_word("12a"));
    assert!(!is_digit_word("１２"));
    assert!(!is_digit_word("٣"));
    assert!(!is_digit_word("-1"));
    assert!(!is_digit_word("/"));
    assert!(!is_digit_word(":"));
}

#[test]
fn digit_feature_of_a_chinese_numeral() {
    let tokens = vec![token("一", BoundaryStatus::S, "m")];
    assert_eq!(word2features(&tokens, 0)[2], "word.isdigit=False");
    let tokens = vec![token("2024", BoundaryStatus::S, "m")];
    assert_eq!(word2features(&tokens, 0)[2], "word.isdigit=True");
}
