# sentence_splitter

Sentence segmentation with two backends behind one API, verified with Verus.

* **Punkt** — Kiss & Strunk's sentence boundary decision, driven by a per-language
  model of abbreviations, sentence starters, collocations and orthographic contexts.
  This build embeds a small English model (`punkt::english`); every other language
  reports `Error::ModelUnavailable`, and `Segmenter::auto` falls back to ICU for it.
* **ICU** — the Unicode sentence rules (UAX#29), through `icu_segmenter`.
  `Newlines::Space` (the default) segments as if line feeds were spaces;
  `Newlines::Separator` is strict UAX#29.

`Segmenter::boundaries`, `spans` and `sentences` are three views of one segmentation,
and their contracts state that they tile the input: boundaries ascend, lie on character
boundaries and end at the input's length; spans are contiguous; the sentences
concatenate to the input byte for byte.

Layout of `src/`:

| module | contents |
|---|---|
| `segmenter` | `Segmenter`, `Language`, `Backend`, `Newlines`, `Error`, `Span` and their specifications |
| `tiling` | the views of a segmentation and the proofs that they tile the input |
| `icu` | the ICU backend; `icu_segmenter` calls behind trusted wrappers |
| `detect` | language detection for `Segmenter::auto`; `whatlang` behind a trusted wrapper |
| `utf8` | replacing line feeds by spaces keeps UTF-8 valid with the same character boundaries |
| `laws` | properties relating several operations |
| `punkt` | model availability, the boundary decision (`tokenizer`, with `decide_break` taking the word types), the English model, `TrainingData` (its `hashbrown` collections and JSON loading through `serde_json`), `FrequencyDistribution`, the orthographic-context step and token-pair predicates of training (`context`), `Trainer` |

`app/lib.rs` gives the error type `Display` and `std::error::Error`.
