//! The Punkt backend: Kiss & Strunk's unsupervised sentence boundary detection, driven
//! by a model trained per language.

use vstd::prelude::*;

use crate::segmenter::{Error, Language};
use trainer::TrainingData;
use vstd::string::StringSliceAdditionalSpecFns;
use crate::tiling::ascending_boundaries;

pub mod collections;
pub mod context;
pub mod english;
pub mod freqdist;
pub mod json;
pub mod tokenizer;
pub mod train;
pub mod trainer;

verus! {

/// Whether the trained model for `lang` is embedded in this build: only English's is.
pub open spec fn model_compiled_in(lang: Language) -> bool {
    lang == Language::English
}

/// The trained model for `lang`, or `None` if it is not embedded.
pub fn training_data(lang: Language) -> (r: Option<TrainingData>)
    ensures
        r is Some <==> model_compiled_in(lang),
        r matches Some(d) ==> d.contents() == english::english_model(),
{
    match lang {
        Language::English => Some(english::english()),
        _ => None,
    }
}

/// What the Punkt backend reports for `lang`: the sentence ends found with its model,
/// or `ModelUnavailable` when its model is not embedded.
pub open spec fn spec_boundaries(lang: Language, text: &str) -> Result<Seq<usize>, Error> {
    if model_compiled_in(lang) {
        Ok(tokenizer::ends_from(text.spec_bytes(), english::english_model(), 0))
    } else {
        Err(Error::ModelUnavailable(lang))
    }
}

/// Sentence-end offsets according to Punkt.
pub fn boundaries(lang: Language, text: &str) -> (r: Result<Vec<usize>, Error>)
    ensures
        match (r, spec_boundaries(lang, text)) {
            (Ok(v), Ok(s)) => v@ == s,
            (Err(e1), Err(e2)) => e1 == e2,
            _ => false,
        },
        r matches Ok(v) ==> ascending_boundaries(v@, text.spec_bytes())
            && text.spec_bytes().len() <= usize::MAX,
{
    match training_data(lang) {
        Some(data) => Ok(tokenizer::sentence_ends(text, &data)),
        None => Err(Error::ModelUnavailable(lang)),
    }
}

} // verus!
