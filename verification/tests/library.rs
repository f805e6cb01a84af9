use sentence_splitter::punkt::context::{
    consecutive_items, context_flag, is_potential_collocation, is_potential_sentence_starter,
    next_context, token_contexts, LetterCase, OrthographyPosition, TokenFlags,
};
use sentence_splitter::punkt::freqdist::FrequencyDistribution;
use sentence_splitter::punkt::json::JsonValue;
use sentence_splitter::punkt::tokenizer::decide_break;
use sentence_splitter::punkt::training_data;
use sentence_splitter::punkt::train::Trainer;
use sentence_splitter::punkt::trainer::{Collocation, TrainingData};
use sentence_splitter::tiling::{close_last_sentence, sentences_from_spans, spans_from_boundaries};
use sentence_splitter::{
    language_from_code, sentence_ends_from_breaks, Backend, Error, Language, Newlines, Segmenter, Span,
};

#[test]
fn span_len_and_emptiness() {
    let s = Span::new(3, 8);
    assert_eq!((s.start, s.end), (3, 8));
    assert_eq!(s.len(), 5);
    assert!(!s.is_empty());
    assert!(Span::new(4, 4).is_empty());
    assert_eq!(Span::new(4, 4).len(), 0);
}

#[test]
fn language_names_are_feature_suffixes() {
    assert_eq!(Language::English.name(), "english");
    assert_eq!(Language::Slovene.name(), "slovene");
    assert_eq!(Language::Turkish.name(), "turkish");
}

#[test]
fn only_the_english_model_is_embedded() {
    assert_eq!(Language::available(), vec![Language::English]);
    assert!(Language::English.is_available());
    assert!(!Language::French.is_available());
    assert!(Segmenter::punkt(Language::English).is_ok());
    assert_eq!(Segmenter::punkt(Language::French), Err(Error::ModelUnavailable(Language::French)));
}

#[test]
fn error_messages_name_the_missing_feature() {
    assert_eq!(
        Error::ModelUnavailable(Language::German).to_string(),
        "no punkt model for German; enable the \"lang-german\" feature"
    );
    assert_eq!(
        Error::NoBackendAvailable.to_string(),
        "no usable backend: language undetected and the \"icu\" feature is off"
    );
}

#[test]
fn explicit_backends_ignore_the_text() {
    let icu = Segmenter::icu();
    assert_eq!(icu.backend_for("Hello there."), Ok(Backend::Icu));
    assert_eq!(icu.backend_for("这是第一句。"), Ok(Backend::Icu));
}

#[test]
fn with_newlines_changes_only_the_policy() {
    let a = Segmenter::icu();
    let b = a.with_newlines(Newlines::Separator);
    assert_ne!(a, b);
    assert_eq!(b.with_newlines(Newlines::Space), a);
}

#[test]
fn icu_boundaries_ascend_and_end_at_the_length() {
    let seg = Segmenter::icu();
    let text = "Ceci tuera cela. Le livre tuera l’édifice.";
    let ends = seg.boundaries(text).unwrap();
    assert_eq!(ends, vec![17, text.len()]);
    assert_eq!(seg.sentences(text).unwrap(), ["Ceci tuera cela. ", "Le livre tuera l’édifice."]);
    assert_eq!(seg.spans(text).unwrap(), vec![Span::new(0, 17), Span::new(17, text.len())]);
}

#[test]
fn empty_text_has_no_sentences() {
    for seg in [Segmenter::icu(), Segmenter::auto()] {
        assert!(seg.boundaries("").unwrap().is_empty());
        assert!(seg.spans("").unwrap().is_empty());
        assert!(seg.sentences("").unwrap().is_empty());
    }
}

#[test]
fn text_without_terminator_is_one_sentence() {
    let text = "One sentence with no terminator";
    assert_eq!(Segmenter::icu().boundaries(text).unwrap(), vec![text.len()]);
}

#[test]
fn icu_tiles_wrapped_and_multibyte_text() {
    for newlines in [Newlines::Space, Newlines::Separator] {
        let seg = Segmenter::icu().with_newlines(newlines);
        for text in [
            "\n\nLeading blank lines. Then text.\n",
            "Wrapped text does\nnot end a sentence. The next one starts here.",
            "这是第一句。这是第二句。",
            "Trailing whitespace after the end.   ",
        ] {
            let sentences = seg.sentences(text).unwrap();
            assert_eq!(sentences.concat(), text);
            let ends = seg.boundaries(text).unwrap();
            assert_eq!(*ends.last().unwrap(), text.len());
            assert!(ends.windows(2).all(|w| w[0] < w[1]));
            assert!(ends.iter().all(|&e| text.is_char_boundary(e)));
        }
    }
}

#[test]
fn auto_uses_punkt_for_english() {
    let auto = Segmenter::auto();
    let english = "This is a reasonably long English text, long enough for the detector \
                   to identify the language with confidence. It has several sentences.";
    assert_eq!(auto.backend_for(english).unwrap(), Backend::Punkt(Language::English));
    assert_eq!(auto.sentences(english).unwrap().len(), 2);
}

#[test]
fn punkt_decisions() {
    let seg = Segmenter::punkt(Language::English).unwrap();
    // A question or exclamation always ends a sentence.
    assert_eq!(seg.boundaries("Why? Because! Done").unwrap(), vec![4, 13, 18]);
    // Closing quotes and brackets stay with their sentence.
    assert_eq!(seg.sentences("He said \"stop.\" Then left.").unwrap(), ["He said \"stop.\"", " Then left."]);
    // An abbreviation followed by a sentence starter ends a sentence.
    assert_eq!(seg.boundaries("It was 5 p.m. The end.").unwrap(), vec![13, 22]);
    // An initial before a capitalized name does not.
    assert_eq!(seg.sentences("J. Smith came. He left.").unwrap(), ["J. Smith came.", " He left."]);
    // A number with a period before a lowercase word does not.
    assert_eq!(seg.sentences("Page 5. then more.").unwrap(), ["Page 5. then more."]);
    // Trailing whitespace becomes its own closing piece.
    assert_eq!(seg.boundaries("End.  ").unwrap(), vec![4, 6]);
    assert!(seg.boundaries("").unwrap().is_empty());
}

#[test]
fn iso_codes_map_to_languages() {
    assert_eq!(language_from_code("eng"), Some(Language::English));
    assert_eq!(language_from_code("nob"), Some(Language::Norwegian));
    assert_eq!(language_from_code("ell"), Some(Language::Greek));
    assert_eq!(language_from_code("cmn"), None);
    assert_eq!(language_from_code("en"), None);
}

#[test]
fn leading_zero_break_is_dropped() {
    assert_eq!(sentence_ends_from_breaks(vec![0, 5, 9]), vec![5, 9]);
    assert_eq!(sentence_ends_from_breaks(vec![0]), Vec::<usize>::new());
    assert_eq!(sentence_ends_from_breaks(vec![3, 9]), vec![3, 9]);
}

#[test]
fn closing_the_last_sentence() {
    assert_eq!(close_last_sentence(vec![4, 9], 9), vec![4, 9]);
    assert_eq!(close_last_sentence(vec![4, 7], 9), vec![4, 7, 9]);
    assert_eq!(close_last_sentence(vec![], 9), vec![9]);
}

#[test]
fn spans_and_sentences_from_boundaries() {
    let spans = spans_from_boundaries(&vec![3, 5, 9]);
    assert_eq!(spans, vec![Span::new(0, 3), Span::new(3, 5), Span::new(5, 9)]);
    let text = "abcdefghi";
    assert_eq!(sentences_from_spans(text, &spans), ["abc", "de", "fghi"]);
}

#[test]
fn collocation_keeps_its_words() {
    let c = Collocation::new("new", "york");
    assert_eq!(*c.left(), "new");
    assert_eq!(*c.right(), "york");
}

const MODEL: &str = r###"{
    "abbrev_types": ["dr", "p.m", "Va", 7],
    "sentence_starters": ["however", "the"],
    "collocations": [["##number##", "corrections"], ["x", "new", "york"], "ignored"],
    "ortho_context": {"among": 34, "the": 300, "odd": -1, "text": "x"}
}"###;

#[test]
fn training_data_loads_from_json() {
    let data = TrainingData::from_json(MODEL).unwrap();
    assert!(data.contains_abbrev("dr"));
    assert!(data.contains_abbrev("p.m"));
    assert!(data.contains_abbrev("va"));
    assert!(!data.contains_abbrev("Va"));
    assert!(data.contains_sentence_starter("however"));
    assert!(!data.contains_sentence_starter("among"));
    assert!(data.contains_collocation("##number##", "corrections"));
    assert!(data.contains_collocation("new", "york"));
    assert!(!data.contains_collocation("x", "new"));
    assert_eq!(data.get_orthographic_context("among"), 34);
    assert_eq!(data.get_orthographic_context("the"), 44);
    assert_eq!(data.get_orthographic_context("odd"), 0);
    assert_eq!(data.get_orthographic_context("text"), 0);
    assert_eq!(data.get_orthographic_context("missing"), 0);
    let parsed: TrainingData = MODEL.parse().unwrap();
    assert!(parsed.contains_abbrev("va"));
}

#[test]
fn training_data_errors_name_the_bad_section() {
    let err = |s: &str| TrainingData::from_json(s).err();
    assert_eq!(err("not json"), Some("no json object found containing training data"));
    assert_eq!(err("[1, 2]"), Some("no json object found containing training data"));
    assert_eq!(err(r#"{"sentence_starters": [], "collocations": [], "ortho_context": {}}"#),
        Some("failed to parse expected path"));
    assert_eq!(err(r#"{"abbrev_types": [], "sentence_starters": {}, "collocations": [], "ortho_context": {}}"#),
        Some("failed to parse expected path"));
    assert_eq!(err(r#"{"abbrev_types": [], "sentence_starters": [], "ortho_context": {}}"#),
        Some("failed to parse expected path"));
    assert_eq!(err(r#"{"abbrev_types": [], "sentence_starters": [], "collocations": [["a"]], "ortho_context": {}}"#),
        Some("failed to parse collocations section"));
    assert_eq!(err(r#"{"abbrev_types": [], "sentence_starters": [], "collocations": [["a", 1]], "ortho_context": {}}"#),
        Some("failed to parse collocations section"));
    assert_eq!(err(r#"{"abbrev_types": [], "sentence_starters": [], "collocations": [], "ortho_context": []}"#),
        Some("failed to parse orthographic context section"));
    assert!(TrainingData::from_json(r#"{"abbrev_types": [], "sentence_starters": [], "collocations": [], "ortho_context": {}}"#).is_ok());
}

#[test]
fn training_data_updates() {
    let mut data = TrainingData::new();
    assert!(data.insert_abbrev("Etc"));
    assert!(data.contains_abbrev("etc"));
    assert!(!data.contains_abbrev("Etc"));
    assert!(!data.insert_abbrev("etc"));
    assert!(data.remove_abbrev("etc"));
    assert!(!data.remove_abbrev("etc"));
    assert!(data.insert_sentence_starter("But"));
    assert!(!data.insert_sentence_starter("But"));
    assert!(data.contains_sentence_starter("But"));
    assert!(data.insert_collocation("St", "Louis"));
    assert!(!data.insert_collocation("St", "Louis"));
    assert!(data.insert_collocation("St", "Paul"));
    assert!(data.contains_collocation("St", "Paul"));
    assert!(data.insert_orthographic_context("word", 2));
    assert!(!data.insert_orthographic_context("word", 8));
    assert_eq!(data.get_orthographic_context("word"), 10);
    let default = TrainingData::default();
    assert!(!default.contains_abbrev("etc"));
}

#[test]
fn frequency_distribution_counts_items() {
    let mut f: FrequencyDistribution<&str> = FrequencyDistribution::new();
    f.insert("a");
    f.insert("a");
    f.insert("b");
    assert_eq!(f.get(&"a"), 2);
    assert_eq!(f.get(&"b"), 1);
    assert_eq!(f.get(&"c"), 0);
    assert_eq!(f.sum_counts(), 3);
    assert_eq!(f.len(), 2);
    let mut keys: Vec<&str> = f.keys().copied().collect();
    keys.sort();
    assert_eq!(keys, ["a", "b"]);
    let mut pairs: Vec<(&str, usize)> = f.iter().map(|(k, c)| (*k, *c)).collect();
    pairs.sort();
    assert_eq!(pairs, [("a", 2), ("b", 1)]);
    f.remove(&"a");
    assert_eq!(f.get(&"a"), 0);
    assert_eq!(f.sum_counts(), 1);
    f.remove(&"z");
    assert_eq!(f.sum_counts(), 1);
    f.clear();
    assert_eq!(f.len(), 0);
    // Clearing forgets the keys and their counts, so nothing is counted any more.
    assert_eq!(f.sum_counts(), 0);
    assert_eq!(f.get(&"b"), 0);
    f.insert("c");
    assert_eq!(f.sum_counts(), 1);
    assert_eq!(f.len(), 1);
    let g: FrequencyDistribution<u64> = FrequencyDistribution::with_capacity(8);
    assert_eq!(g.len(), 0);
    assert_eq!(g.sum_counts(), 0);
}

#[test]
fn trainer_can_be_created() {
    let _t: Trainer<()> = Trainer::new();
}

#[test]
fn break_decision_from_word_types() {
    let english = training_data(Language::English).unwrap();
    let text = "Dr. Smith left.";
    // "dr" is an abbreviation, and "smith" is no sentence starter.
    assert!(!decide_break(text, &english, 0, 3, 4, 9, "dr", "smith"));
    // The same token, had its word type not been an abbreviation, ends a sentence.
    assert!(decide_break(text, &english, 0, 3, 4, 9, "xyz", "smith"));
    // The last token ends the text and the sentence.
    assert!(decide_break(text, &english, 10, 15, 15, 15, "left", "left"));
    // A token without a terminator ends nothing.
    assert!(!decide_break(text, &english, 4, 9, 10, 15, "smith", "left"));
    // A question mark always ends a sentence.
    assert!(decide_break("Why? So.", &english, 0, 4, 5, 8, "", ""));
}

#[test]
fn training_data_from_a_parsed_value() {
    let s = |x: &str| JsonValue::Str(x.to_string());
    let member = |k: &str, v: JsonValue| (k.to_string(), v);
    let value = JsonValue::Object(vec![
        member("abbrev_types", JsonValue::Array(vec![s("Dr"), JsonValue::Number(Some(3))])),
        member("sentence_starters", JsonValue::Array(vec![s("however")])),
        member("collocations", JsonValue::Array(vec![JsonValue::Array(vec![s("new"), s("york")])])),
        member("ortho_context", JsonValue::Object(vec![member("the", JsonValue::Number(Some(258)))])),
    ]);
    let data = TrainingData::from_json_value(&value).unwrap();
    assert!(data.contains_abbrev("dr"));
    assert!(data.contains_sentence_starter("however"));
    assert!(data.contains_collocation("new", "york"));
    assert_eq!(data.get_orthographic_context("the"), 2);
    assert_eq!(
        TrainingData::from_json_value(&JsonValue::Null).err(),
        Some("no json object found containing training data")
    );
    let bad = JsonValue::Object(vec![
        member("abbrev_types", JsonValue::Array(vec![])),
        member("sentence_starters", JsonValue::Array(vec![])),
        member("collocations", JsonValue::Array(vec![JsonValue::Array(vec![s("a")])])),
        member("ortho_context", JsonValue::Object(vec![])),
    ]);
    assert_eq!(TrainingData::from_json_value(&bad).err(), Some("failed to parse collocations section"));
}

fn flags(case: LetterCase) -> TokenFlags {
    TokenFlags {
        is_paragraph_start: false,
        is_newline_start: false,
        first_case: case,
        is_sentence_break: false,
        is_numeric: false,
        is_initial: false,
        is_ellipsis: false,
        is_abbrev: false,
        is_alphabetic: true,
        is_non_punct: true,
    }
}

#[test]
fn orthographic_context_steps() {
    assert_eq!(context_flag(OrthographyPosition::Initial, LetterCase::Upper), 2);
    assert_eq!(context_flag(OrthographyPosition::Internal, LetterCase::Upper), 4);
    assert_eq!(context_flag(OrthographyPosition::Unknown, LetterCase::Upper), 8);
    assert_eq!(context_flag(OrthographyPosition::Initial, LetterCase::Lower), 16);
    assert_eq!(context_flag(OrthographyPosition::Internal, LetterCase::Lower), 32);
    assert_eq!(context_flag(OrthographyPosition::Unknown, LetterCase::Lower), 64);
    assert_eq!(context_flag(OrthographyPosition::Initial, LetterCase::Unknown), 0);
    let word = flags(LetterCase::Lower);
    let end = TokenFlags { is_sentence_break: true, ..flags(LetterCase::Lower) };
    let number_end = TokenFlags { is_numeric: true, ..end };
    let abbrev = TokenFlags { is_abbrev: true, ..flags(LetterCase::Upper) };
    assert_eq!(next_context(OrthographyPosition::Internal, &word), (OrthographyPosition::Internal, 32));
    assert_eq!(next_context(OrthographyPosition::Internal, &end), (OrthographyPosition::Initial, 32));
    assert_eq!(next_context(OrthographyPosition::Initial, &number_end), (OrthographyPosition::Unknown, 16));
    assert_eq!(next_context(OrthographyPosition::Internal, &abbrev), (OrthographyPosition::Unknown, 4));
    let para = TokenFlags { is_paragraph_start: true, ..flags(LetterCase::Upper) };
    assert_eq!(next_context(OrthographyPosition::Internal, &para).1, 2);
    assert_eq!(next_context(OrthographyPosition::Unknown, &para).1, 8);
    let line = TokenFlags { is_newline_start: true, ..flags(LetterCase::Upper) };
    assert_eq!(next_context(OrthographyPosition::Internal, &line).1, 8);
    let upper = flags(LetterCase::Upper);
    assert_eq!(token_contexts(&[upper, end, upper, abbrev, word]), vec![4, 32, 2, 4, 64]);
    assert!(token_contexts(&[]).is_empty());
}

#[test]
fn potential_starters_and_collocations() {
    let word = flags(LetterCase::Lower);
    let end = TokenFlags { is_sentence_break: true, ..word };
    let number_end = TokenFlags { is_numeric: true, ..end };
    let abbrev = TokenFlags { is_abbrev: true, ..word };
    assert!(is_potential_sentence_starter(&word, &end));
    assert!(!is_potential_sentence_starter(&word, &number_end));
    assert!(!is_potential_sentence_starter(&word, &word));
    assert!(is_potential_collocation(false, false, &number_end, &word));
    assert!(!is_potential_collocation(false, false, &end, &word));
    assert!(!is_potential_collocation(false, false, &abbrev, &word));
    assert!(is_potential_collocation(false, true, &abbrev, &word));
    assert!(is_potential_collocation(true, false, &word, &word));
    let punct = TokenFlags { is_non_punct: false, ..word };
    assert!(!is_potential_collocation(false, false, &number_end, &punct));
}

#[test]
fn consecutive_items_pair_each_with_the_next() {
    let v = [1, 2, 3];
    assert_eq!(consecutive_items(&v), vec![(&1, Some(&2)), (&2, Some(&3)), (&3, None)]);
    let empty: [u8; 0] = [];
    assert!(consecutive_items(&empty).is_empty());
}

#[test]
fn icu_newlines_as_spaces_segment_the_flattened_text() {
    let text = "A wrapped line\ncontinues here. A second sentence.";
    let flat = text.replace('\n', " ");
    let space = Segmenter::icu().with_newlines(Newlines::Space);
    let separator = Segmenter::icu().with_newlines(Newlines::Separator);
    assert_eq!(space.boundaries(text).unwrap(), separator.boundaries(&flat).unwrap());
    assert_eq!(space.boundaries(text).unwrap(), vec![31, 49]);
}

#[test]
fn segmenters_are_their_mode_and_policy() {
    assert_eq!(Segmenter::icu(), Segmenter::icu().with_newlines(Newlines::Space));
    assert_eq!(Segmenter::auto(), Segmenter::auto().with_newlines(Newlines::Space));
    let english = Segmenter::punkt(Language::English).unwrap();
    assert_eq!(english, english.with_newlines(Newlines::Space));
    assert_eq!(
        english.with_newlines(Newlines::Separator).with_newlines(Newlines::Space),
        english
    );
    assert_ne!(Segmenter::icu(), Segmenter::auto());
}

#[test]
fn language_names_are_distinct_lowercase_variant_names() {
    let all = [
        Language::Czech, Language::Danish, Language::Dutch, Language::English, Language::Estonian,
        Language::Finnish, Language::French, Language::German, Language::Greek, Language::Italian,
        Language::Norwegian, Language::Polish, Language::Portuguese, Language::Slovene,
        Language::Spanish, Language::Swedish, Language::Turkish,
    ];
    for (i, a) in all.iter().enumerate() {
        assert_eq!(a.name(), format!("{:?}", a).to_lowercase());
        for b in &all[i + 1..] {
            assert_ne!(a.name(), b.name());
        }
    }
}

#[test]
fn frequency_distribution_count_never_exceeds_total() {
    let mut f: FrequencyDistribution<u64> = FrequencyDistribution::new();
    for k in [1u64, 2, 2, 3, 3, 3] {
        f.insert(k);
    }
    assert_eq!(f.sum_counts(), 6);
    assert_eq!(f.len(), 3);
    let total: usize = f.iter().map(|(_, c)| *c).sum();
    assert_eq!(total, f.sum_counts());
    for k in [1u64, 2, 3, 4] {
        assert!(f.get(&k) <= f.sum_counts());
    }
    f.remove(&3);
    assert_eq!((f.len(), f.sum_counts()), (2, 3));
    f.remove(&3);
    assert_eq!((f.len(), f.sum_counts()), (2, 3));
}

#[test]
fn frequency_distribution_from_pairs() {
    let mut f: FrequencyDistribution<&str> =
        FrequencyDistribution::from_iter(vec![("a", 2), ("b", 0), ("a", 1)]);
    assert_eq!(f.get(&"a"), 3);
    assert_eq!(f.get(&"b"), 0);
    assert_eq!(f.len(), 2);
    assert_eq!(f.sum_counts(), 3);
    assert_eq!(f.iter_non_zero(), vec![&"a"]);
    f.extend(vec![("c", 4), ("b", 1)]);
    assert_eq!(f.sum_counts(), 8);
    assert_eq!(f.get(&"b"), 1);
    let mut non_zero: Vec<&str> = f.iter_non_zero().into_iter().copied().collect();
    non_zero.sort();
    assert_eq!(non_zero, ["a", "b", "c"]);
    f.extend(vec![]);
    assert_eq!(f.sum_counts(), 8);
}
