//! Keyword-in-context indexing: every word of every line that is not a stop
//! word yields the line rotated so that the word leads, and the records are
//! listed in order of their lower-cased contexts.

pub mod casing;
pub mod engine;
pub mod error;
pub mod order;
pub mod stopwords;
pub mod tokenizer;

pub use engine::{normalize_words, process_kwic, rotated_context};
pub use error::{nonempty_lines, KwicError};
pub use order::sort_by_context;
pub use stopwords::{default_stop_words, stop_words_from_lines, stop_words_or_default};
pub use tokenizer::split_into_words;
