//! The English model embedded in this build.

use vstd::prelude::*;

use crate::punkt::trainer::{ModelContents, TrainingData};

verus! {

/// The English abbreviations: each word as it appears before its final period,
/// lowercase.
pub open spec fn english_abbrevs() -> Set<Seq<char>> {
    Set::<Seq<char>>::empty()
        .insert("dr"@)
        .insert("mr"@)
        .insert("mrs"@)
        .insert("ms"@)
        .insert("messrs"@)
        .insert("prof"@)
        .insert("rev"@)
        .insert("gen"@)
        .insert("gov"@)
        .insert("sen"@)
        .insert("rep"@)
        .insert("col"@)
        .insert("lt"@)
        .insert("sgt"@)
        .insert("capt"@)
        .insert("adm"@)
        .insert("maj"@)
        .insert("st"@)
        .insert("jr"@)
        .insert("sr"@)
        .insert("inc"@)
        .insert("ltd"@)
        .insert("corp"@)
        .insert("bros"@)
        .insert("mt"@)
        .insert("ft"@)
        .insert("vs"@)
        .insert("etc"@)
        .insert("e.g"@)
        .insert("i.e"@)
        .insert("a.m"@)
        .insert("p.m"@)
        .insert("u.s"@)
        .insert("u.k"@)
        .insert("jan"@)
        .insert("feb"@)
        .insert("apr"@)
        .insert("jun"@)
        .insert("jul"@)
        .insert("aug"@)
        .insert("sept"@)
        .insert("oct"@)
        .insert("nov"@)
        .insert("dec"@)
        .insert("va"@)
        .insert("w.va"@)
        .insert("calif"@)
        .insert("mass"@)
        .insert("conn"@)
        .insert("pa"@)
        .insert("n.y"@)
        .insert("n.j"@)
        .insert("fla"@)
        .insert("ill"@)
        .insert("tex"@)
}

/// Words that commonly start an English sentence.
pub open spec fn english_sentence_starters() -> Set<Seq<char>> {
    Set::<Seq<char>>::empty()
        .insert("he"@)
        .insert("she"@)
        .insert("it"@)
        .insert("they"@)
        .insert("we"@)
        .insert("i"@)
        .insert("but"@)
        .insert("however"@)
        .insert("the"@)
        .insert("this"@)
        .insert("in"@)
        .insert("and"@)
}

/// The English model: its abbreviations and sentence starters, with no collocations and
/// no orthographic contexts.
pub open spec fn english_model() -> ModelContents {
    (english_abbrevs(), english_sentence_starters(), Map::empty(), Map::empty())
}

/// The English model.
pub fn english() -> (d: TrainingData)
    ensures
        d.contents() == english_model(),
{
    let mut d = TrainingData::new();
    d.add_abbreviation("dr");
    d.add_abbreviation("mr");
    d.add_abbreviation("mrs");
    d.add_abbreviation("ms");
    d.add_abbreviation("messrs");
    d.add_abbreviation("prof");
    d.add_abbreviation("rev");
    d.add_abbreviation("gen");
    d.add_abbreviation("gov");
    d.add_abbreviation("sen");
    d.add_abbreviation("rep");
    d.add_abbreviation("col");
    d.add_abbreviation("lt");
    d.add_abbreviation("sgt");
    d.add_abbreviation("capt");
    d.add_abbreviation("adm");
    d.add_abbreviation("maj");
    d.add_abbreviation("st");
    d.add_abbreviation("jr");
    d.add_abbreviation("sr");
    d.add_abbreviation("inc");
    d.add_abbreviation("ltd");
    d.add_abbreviation("corp");
    d.add_abbreviation("bros");
    d.add_abbreviation("mt");
    d.add_abbreviation("ft");
    d.add_abbreviation("vs");
    d.add_abbreviation("etc");
    d.add_abbreviation("e.g");
    d.add_abbreviation("i.e");
    d.add_abbreviation("a.m");
    d.add_abbreviation("p.m");
    d.add_abbreviation("u.s");
    d.add_abbreviation("u.k");
    d.add_abbreviation("jan");
    d.add_abbreviation("feb");
    d.add_abbreviation("apr");
    d.add_abbreviation("jun");
    d.add_abbreviation("jul");
    d.add_abbreviation("aug");
    d.add_abbreviation("sept");
    d.add_abbreviation("oct");
    d.add_abbreviation("nov");
    d.add_abbreviation("dec");
    d.add_abbreviation("va");
    d.add_abbreviation("w.va");
    d.add_abbreviation("calif");
    d.add_abbreviation("mass");
    d.add_abbreviation("conn");
    d.add_abbreviation("pa");
    d.add_abbreviation("n.y");
    d.add_abbreviation("n.j");
    d.add_abbreviation("fla");
    d.add_abbreviation("ill");
    d.add_abbreviation("tex");
    d.insert_sentence_starter("he");
    d.insert_sentence_starter("she");
    d.insert_sentence_starter("it");
    d.insert_sentence_starter("they");
    d.insert_sentence_starter("we");
    d.insert_sentence_starter("i");
    d.insert_sentence_starter("but");
    d.insert_sentence_starter("however");
    d.insert_sentence_starter("the");
    d.insert_sentence_starter("this");
    d.insert_sentence_starter("in");
    d.insert_sentence_starter("and");
    d
}

} // verus!
