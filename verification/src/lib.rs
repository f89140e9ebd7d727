//! Feature engineering and tag decoding for Chinese named-entity
//! recognition: from raw text to per-character feature vectors, and from a
//! flat tag sequence back to typed entity spans.
pub mod annotate;
pub mod corpus;
pub mod entity;
pub mod features;
pub mod segment;
pub mod text;
pub mod token;

pub use annotate::{annotate, split_by_words};
pub use corpus::{join_tokens, label_sentence, parse_corpus_line, training_set, TrainingSentence};
pub use entity::{extract_entities, get_tag_name, NamedEntity};
pub use features::{sent2features, word2features};
pub use text::{contains_ignoring_case, is_digit_word};
pub use segment::MAX_SENTENCE_CHARS;
pub use token::{BoundaryStatus, NerError, Segment, SplitWord};
