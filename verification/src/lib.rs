//! Chapter-by-chapter vocabulary analysis of a long text.
//!
//! A book is cut into chapters, each chapter into word tokens, and every
//! chapter is scored against two vocabularies. All of the text handling is
//! stated over sequences of characters and proved against those statements.

pub mod analysis;
pub mod chapters;
pub mod config;
pub mod density;
pub mod lines;
pub mod positions;
pub mod text;
pub mod tokens;
pub mod verdict;

pub use analysis::{score_chapters, terms_in, ChapterDensities};
pub use chapters::{chapterize, is_book_end, is_chapter_start};
pub use config::Config;
pub use density::{
    calculate_avg_nearest_term_dist, calculate_term_count, calculate_term_density, Density, Ratio,
};
pub use lines::to_trimmed_lines;
pub use tokens::{tokenize, tokens_in};
pub use verdict::{classify, report_line, Verdict};
