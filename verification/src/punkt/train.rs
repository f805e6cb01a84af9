//! Training new Punkt models from a corpus.

use std::marker::PhantomData;
use vstd::prelude::*;

verus! {

/// Builds data about abbreviations, sentence starters, collocations and the contexts
/// words appear in, which the sentence tokenizer uses to decide whether a period is part
/// of an abbreviation or ends a sentence. `P` supplies the training parameters.
pub struct Trainer<P> {
    params: PhantomData<P>,
}

impl<P> Trainer<P> {
    /// A new trainer.
    pub fn new() -> (t: Trainer<P>) {
        Trainer { params: PhantomData }
    }
}

} // verus!
