use chinese_ner::{contains_ignoring_case, extract_entities, get_tag_name, split_by_words, NamedEntity, Segment};
use jieba_rs::Jieba;

fn tags(names: &[&str]) -> Vec<String> {
    names.iter().map(|n| n.to_string()).collect()
}

#[test]
fn test_ner_predict() {
    let jieba = Jieba::new();
    let sentence = "今天纽约的天气真好啊，京华大酒店的李白经理吃了一只北京烤鸭。";
    let (tokens, segments) = split_by_words(&jieba, sentence).unwrap();
    let labels = tags(&[
        "O", "O", "B-LOC", "E-LOC", "O", "O", "O", "O", "O", "O", "O", "B-ORG", "I-ORG", "I-ORG",
        "I-ORG", "E-ORG", "O", "B-PER", "E-PER", "O", "O", "O", "O", "O", "O", "B-LOC", "E-LOC",
        "O", "O", "O",
    ]);
    assert_eq!(tokens.len(), labels.len());
    let result = NamedEntity::new(&segments, &labels);
    assert_eq!(result.word, vec!["今天", "纽约", "的", "天气", "真好", "啊", "，", "京华", "大酒店", "的", "李白", "经理", "吃", "了", "一只", "北京烤鸭", "。"]);
    assert_eq!(result.tag, vec!["t", "ns", "uj", "n", "d", "zg", "x", "nz", "n", "uj", "nr", "n", "v", "ul", "m", "n", "x"]);
    assert_eq!(result.entity, vec![(2, 4, "location"), (11, 16, "org_name"), (17, 19, "person_name"), (25, 27, "location")]);
}

#[test]
fn reference_tags_give_the_reference_spans() {
    let labels = tags(&[
        "O", "O", "B-LOC", "E-LOC", "O", "O", "O", "O", "O", "O", "O", "B-ORG", "I-ORG", "I-ORG",
        "I-ORG", "E-ORG", "O", "B-PER", "E-PER", "O", "O", "O", "O", "O", "O", "B-LOC", "E-LOC",
        "O", "O", "O",
    ]);
    assert_eq!(
        extract_entities(&labels),
        vec![(2, 4, "location"), (11, 16, "org_name"), (17, 19, "person_name"), (25, 27, "location")]
    );
}

#[test]
fn named_entity_keeps_words_and_tags_of_the_segments() {
    let segments = vec![
        Segment { word: "纽约".to_string(), tag: "ns".to_string() },
        Segment { word: "好".to_string(), tag: "a".to_string() },
    ];
    let result = NamedEntity::new(&segments, &tags(&["B-LOC", "E-LOC", "O"]));
    assert_eq!(result.word, vec!["纽约", "好"]);
    assert_eq!(result.tag, vec!["ns", "a"]);
    assert_eq!(result.entity, vec![(0, 2, "location")]);
}

#[test]
fn tag_names() {
    assert_eq!(get_tag_name("B-PRO"), "product_name");
    assert_eq!(get_tag_name("I-PER"), "person_name");
    assert_eq!(get_tag_name("E-TIM"), "time");
    assert_eq!(get_tag_name("S-ORG"), "org_name");
    assert_eq!(get_tag_name("B-LOC"), "location");
    assert_eq!(get_tag_name("B-MISC"), "unknown");
    assert_eq!(get_tag_name("O"), "unknown");
    assert_eq!(get_tag_name(""), "unknown");
    assert_eq!(get_tag_name("LO"), "unknown");
    assert_eq!(get_tag_name("L-OC"), "unknown");
}

#[test]
fn tag_names_ignore_ascii_case() {
    assert_eq!(get_tag_name("b-loc"), "location");
    assert_eq!(get_tag_name("B-Per"), "person_name");
    assert_eq!(get_tag_name("pro"), "product_name");
    assert_eq!(get_tag_name("b-oRg"), "org_name");
    assert_eq!(get_tag_name("tIm"), "time");
}

#[test]
fn tag_names_go_by_the_first_mark_in_the_fixed_order() {
    assert_eq!(get_tag_name("LOC-PRO"), "product_name");
    assert_eq!(get_tag_name("LOC-PER"), "person_name");
    assert_eq!(get_tag_name("ORG-TIM"), "time");
    assert_eq!(get_tag_name("LOC-ORG"), "org_name");
    assert_eq!(get_tag_name("PERORGLOC"), "person_name");
}

#[test]
fn containment() {
    assert!(contains_ignoring_case("B-LOC", "LOC"));
    assert!(contains_ignoring_case("B-LOC", "b-l"));
    assert!(contains_ignoring_case("B-LOC", ""));
    assert!(contains_ignoring_case("", ""));
    assert!(!contains_ignoring_case("", "L"));
    assert!(!contains_ignoring_case("LO", "LOC"));
    assert!(!contains_ignoring_case("B-LOC", "LOCK"));
    assert!(contains_ignoring_case("北京LOC烤鸭", "loc"));
    assert!(!contains_ignoring_case("ｌｏｃ", "LOC"));
    assert!(!contains_ignoring_case("@", "`"));
    assert!(!contains_ignoring_case("[", "{"));
}

#[test]
fn location_span_starts_at_its_opening_tag() {
    let spans = extract_entities(&tags(&["O", "O", "B-LOC", "I-LOC", "E-LOC", "O", "O"]));
    assert_eq!(spans, vec![(2, 5, "location")]);
    let spans = extract_entities(&tags(&["B-LOC", "O"]));
    assert_eq!(spans, vec![(0, 1, "location")]);
}

#[test]
fn opening_tag_inside_an_open_span_opens_nothing() {
    let spans = extract_entities(&tags(&["B-PER", "B-LOC", "E-LOC", "O", "O"]));
    assert_eq!(spans, vec![(0, 3, "person_name")]);
}

#[test]
fn span_open_at_the_end_is_dropped() {
    assert_eq!(extract_entities(&tags(&["O", "B-LOC", "E-LOC"])), vec![]);
    assert_eq!(extract_entities(&tags(&["B-PER", "E-PER", "O", "B-LOC", "E-LOC"])), vec![(0, 2, "person_name")]);
    assert_eq!(extract_entities(&tags(&["B-LOC"])), vec![]);
}

#[test]
fn any_tag_that_begins_with_b_opens_a_span() {
    assert_eq!(extract_entities(&tags(&["BLOC", "O"])), vec![(0, 1, "location")]);
    assert_eq!(extract_entities(&tags(&["B", "O"])), vec![(0, 1, "unknown")]);
    assert_eq!(extract_entities(&tags(&["Bper", "x", "O"])), vec![(0, 2, "person_name")]);
    assert_eq!(extract_entities(&tags(&["b-LOC", "O"])), vec![]);
    assert_eq!(extract_entities(&tags(&["I-LOC", "E-LOC", "O"])), vec![]);
    assert_eq!(extract_entities(&tags(&["S-LOC", "O"])), vec![]);
}

#[test]
fn only_the_exact_tag_o_closes_a_span() {
    assert_eq!(extract_entities(&tags(&["B-LOC", "o", "O-", "OO", "", "O"])), vec![(0, 5, "location")]);
    assert_eq!(extract_entities(&tags(&["B-LOC", "E-LOC", "S-PER", "O"])), vec![(0, 3, "location")]);
}

#[test]
fn spans_are_ordered_and_apart() {
    let labels = tags(&["B-TIM", "O", "B-PRO", "I-PRO", "O", "O", "B-ORG", "O", "B-X", "O"]);
    let spans = extract_entities(&labels);
    assert_eq!(spans, vec![(0, 1, "time"), (2, 4, "product_name"), (6, 7, "org_name"), (8, 9, "unknown")]);
    for pair in spans.windows(2) {
        assert!(pair[0].1 < pair[1].0);
    }
    for span in &spans {
        assert!(span.0 < span.1 && span.1 < labels.len());
    }
}

#[test]
fn no_tags_no_spans() {
    assert_eq!(extract_entities(&[]), vec![]);
    assert_eq!(extract_entities(&tags(&["O", "O"])), vec![]);
}
