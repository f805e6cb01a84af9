//! Sentence segmentation with two complementary backends behind one API: Punkt
//! (trained per language, knows abbreviations) and ICU (Unicode UAX#29 rules).
//! Every view of a segmentation tiles its input: boundaries ascend and end at the
//! input's length, spans are contiguous, and the sentences concatenate to the input.

pub mod detect;
pub mod icu;
pub mod laws;
pub mod punkt;
pub mod segmenter;
pub mod tiling;
pub mod utf8;

pub use detect::{language_from_code, language_of_code, spec_detect, whatlang_language_code};
pub use icu::{icu_breaks_str, icu_breaks_utf8, sentence_ends_from_breaks};
pub use punkt::train::Trainer;
pub use punkt::trainer::TrainingData;
pub use segmenter::{Backend, Error, Language, Mode, Newlines, Segmenter, Span};
