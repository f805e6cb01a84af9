use vstd::prelude::*;
use vstd::string::StringSliceAdditionalSpecFns;

use crate::detect;
use crate::icu;
use crate::punkt;
use crate::tiling::{
    close_last_sentence, concat, lemma_close_tiles, lemma_pieces_concat, lemma_spans_of_tiling,
    sentences_from_spans, spans_from_boundaries, spec_close, spec_pieces, spec_spans, tiles,
    valid_spans,
};

verus! {

/// A half-open byte range `[start, end)` into the text that was segmented.
#[derive(Debug, Clone, Copy, PartialEq, Eq, Structural)]
pub struct Span {
    pub start: usize,
    pub end: usize,
}

impl Span {
    pub fn new(start: usize, end: usize) -> (s: Self)
        ensures
            s.start == start,
            s.end == end,
    {
        Self { start, end }
    }

    /// Number of bytes covered.
    pub fn len(&self) -> (n: usize)
        requires
            self.start <= self.end,
        ensures
            n == self.end - self.start,
    {
        self.end - self.start
    }

    pub fn is_empty(&self) -> (b: bool)
        ensures
            b == (self.start == self.end),
    {
        self.start == self.end
    }
}

/// A language with a trained Punkt model. Every variant exists whether or not its
/// model is compiled in; [`Language::is_available`] answers the latter.
#[derive(Debug, Clone, Copy, PartialEq, Eq, Hash, Structural)]
#[non_exhaustive]
pub enum Language {
    Czech,
    Danish,
    Dutch,
    English,
    Estonian,
    Finnish,
    French,
    German,
    Greek,
    Italian,
    Norwegian,
    Polish,
    Portuguese,
    Slovene,
    Spanish,
    Swedish,
    Turkish,
}

/// Which algorithm produced (or would produce) a segmentation.
#[derive(Debug, Clone, Copy, PartialEq, Eq, Structural)]
pub enum Backend {
    Punkt(Language),
    Icu,
}

/// Whether a line break ends a sentence.
#[derive(Debug, Clone, Copy, PartialEq, Eq, Structural)]
pub enum Newlines {
    /// Newlines are treated as spaces, so a sentence may span wrapped lines (the default).
    /// Only the ICU backend is affected; Punkt treats a newline as ordinary whitespace.
    Space,
    /// Strict UAX#29: a newline ends a sentence.
    Separator,
}

#[derive(Debug, Clone, Copy, PartialEq, Eq, Structural)]
pub enum Error {
    /// No Punkt model for this language is compiled in.
    ModelUnavailable(Language),
    /// The language could not be identified and no fallback backend exists.
    NoBackendAvailable,
}

/// How a segmenter chooses its backend.
#[derive(Debug, Clone, Copy, PartialEq, Eq, Structural)]
pub enum Mode {
    Punkt(Language),
    Icu,
    Auto,
}

/// Splits text into sentences. Cheap to construct and to copy.
#[derive(Debug, Clone, Copy, PartialEq, Eq, Structural)]
pub struct Segmenter {
    mode: Mode,
    newlines: Newlines,
}

/// Every language, in declaration order.
pub open spec fn all_languages() -> Seq<Language> {
    seq![
        Language::Czech,
        Language::Danish,
        Language::Dutch,
        Language::English,
        Language::Estonian,
        Language::Finnish,
        Language::French,
        Language::German,
        Language::Greek,
        Language::Italian,
        Language::Norwegian,
        Language::Polish,
        Language::Portuguese,
        Language::Slovene,
        Language::Spanish,
        Language::Swedish,
        Language::Turkish,
    ]
}

/// The lowercase English name of a language, also the suffix of its `lang-*` feature.
pub open spec fn language_name(l: Language) -> Seq<char> {
    match l {
        Language::Czech => "czech"@,
        Language::Danish => "danish"@,
        Language::Dutch => "dutch"@,
        Language::English => "english"@,
        Language::Estonian => "estonian"@,
        Language::Finnish => "finnish"@,
        Language::French => "french"@,
        Language::German => "german"@,
        Language::Greek => "greek"@,
        Language::Italian => "italian"@,
        Language::Norwegian => "norwegian"@,
        Language::Polish => "polish"@,
        Language::Portuguese => "portuguese"@,
        Language::Slovene => "slovene"@,
        Language::Spanish => "spanish"@,
        Language::Swedish => "swedish"@,
        Language::Turkish => "turkish"@,
    }
}

/// The variant's own name, as `{:?}` prints it.
pub open spec fn language_debug_name(l: Language) -> Seq<char> {
    match l {
        Language::Czech => "Czech"@,
        Language::Danish => "Danish"@,
        Language::Dutch => "Dutch"@,
        Language::English => "English"@,
        Language::Estonian => "Estonian"@,
        Language::Finnish => "Finnish"@,
        Language::French => "French"@,
        Language::German => "German"@,
        Language::Greek => "Greek"@,
        Language::Italian => "Italian"@,
        Language::Norwegian => "Norwegian"@,
        Language::Polish => "Polish"@,
        Language::Portuguese => "Portuguese"@,
        Language::Slovene => "Slovene"@,
        Language::Spanish => "Spanish"@,
        Language::Swedish => "Swedish"@,
        Language::Turkish => "Turkish"@,
    }
}

/// Whether the language's trained Punkt model is compiled in.
pub open spec fn spec_is_available(l: Language) -> bool {
    punkt::model_compiled_in(l)
}

/// The languages among `langs` whose model is compiled in, in order.
pub open spec fn available_among(langs: Seq<Language>) -> Seq<Language> {
    langs.filter(|l: Language| spec_is_available(l))
}

/// The message an error displays.
pub open spec fn error_message(e: Error) -> Seq<char> {
    match e {
        Error::ModelUnavailable(l) => "no punkt model for "@ + language_debug_name(l)
            + "; enable the \"lang-"@ + language_name(l) + "\" feature"@,
        Error::NoBackendAvailable => "no usable backend: language undetected and the \"icu\" feature is off"@,
    }
}

/// The backend a segmenter picks for a text whose characters are `text`.
pub open spec fn spec_backend_for(seg: Segmenter, text: Seq<char>) -> Result<Backend, Error> {
    match seg.mode() {
        Mode::Punkt(l) => Ok(Backend::Punkt(l)),
        Mode::Icu => Ok(Backend::Icu),
        Mode::Auto => match detect::spec_detect(text) {
            Some(l) => if spec_is_available(l) {
                Ok(Backend::Punkt(l))
            } else {
                Ok(Backend::Icu)
            },
            None => Ok(Backend::Icu),
        },
    }
}

/// Sentence ends as the chosen backend reports them, before the last sentence is closed.
pub open spec fn spec_backend_ends(seg: Segmenter, text: &str, backend: Backend) -> Result<Seq<usize>, Error> {
    match backend {
        Backend::Punkt(l) => punkt::spec_boundaries(l, text),
        Backend::Icu => Ok(icu::spec_boundaries(text, seg.newline_policy())),
    }
}

/// Byte offset just past each sentence's end: empty for empty text, else the backend's
/// ends with the last sentence closed at `text.len()`.
pub open spec fn spec_boundaries(seg: Segmenter, text: &str) -> Result<Seq<usize>, Error> {
    if text@.len() == 0 {
        Ok(Seq::empty())
    } else {
        match spec_backend_for(seg, text@) {
            Err(e) => Err(e),
            Ok(b) => match spec_backend_ends(seg, text, b) {
                Err(e) => Err(e),
                Ok(ends) => Ok(spec_close(ends, text.spec_bytes().len() as usize)),
            },
        }
    }
}

impl Segmenter {
    pub closed spec fn mode(self) -> Mode {
        self.mode
    }

    pub closed spec fn newline_policy(self) -> Newlines {
        self.newlines
    }

    /// Punkt with the trained model for `lang`; fails rather than silently yielding
    /// nothing when that model is not compiled in.
    pub fn punkt(lang: Language) -> (r: Result<Self, Error>)
        ensures
            spec_is_available(lang) ==> (r matches Ok(s) && s.mode() == Mode::Punkt(lang)
                && s.newline_policy() == Newlines::Space),
            !spec_is_available(lang) ==> r == Err::<Self, Error>(Error::ModelUnavailable(lang)),
    {
        if !lang.is_available() {
            return Err(Error::ModelUnavailable(lang));
        }
        Ok(Self { mode: Mode::Punkt(lang), newlines: Newlines::Space })
    }

    /// ICU (UAX#29): needs no training data and works for any script.
    pub fn icu() -> (s: Self)
        ensures
            s.mode() == Mode::Icu,
            s.newline_policy() == Newlines::Space,
    {
        Self { mode: Mode::Icu, newlines: Newlines::Space }
    }

    /// Detects the language of each text and picks Punkt when its model is compiled in,
    /// ICU otherwise.
    pub fn auto() -> (s: Self)
        ensures
            s.mode() == Mode::Auto,
            s.newline_policy() == Newlines::Space,
    {
        Self { mode: Mode::Auto, newlines: Newlines::Space }
    }

    pub fn with_newlines(self, newlines: Newlines) -> (s: Self)
        ensures
            s.mode() == self.mode(),
            s.newline_policy() == newlines,
            self.newline_policy() == newlines ==> s == self,
    {
        let mut s = self;
        s.newlines = newlines;
        s
    }

    /// Which backend this segmenter uses for `text`: constant except in auto mode,
    /// which decides per text.
    pub fn backend_for(&self, text: &str) -> (r: Result<Backend, Error>)
        ensures
            r == spec_backend_for(*self, text@),
            r is Ok,
    {
        match self.mode {
            Mode::Punkt(lang) => Ok(Backend::Punkt(lang)),
            Mode::Icu => Ok(Backend::Icu),
            Mode::Auto => {
                match detect::detect(text) {
                    Some(lang) => {
                        if lang.is_available() {
                            Ok(Backend::Punkt(lang))
                        } else {
                            Ok(Backend::Icu)
                        }
                    },
                    None => Ok(Backend::Icu),
                }
            },
        }
    }

    /// Byte offset just past the end of each sentence, ascending; the last is always
    /// `text.len()`, so the offsets tile the input; empty input gives no offsets.
    pub fn boundaries(&self, text: &str) -> (r: Result<Vec<usize>, Error>)
        ensures
            match (r, spec_boundaries(*self, text)) {
                (Ok(v), Ok(s)) => v@ == s,
                (Err(e1), Err(e2)) => e1 == e2,
                _ => false,
            },
            r matches Ok(v) ==> tiles(v@, text.spec_bytes()),
            spec_boundaries(*self, text) matches Ok(s) ==> tiles(s, text.spec_bytes()),
    {
        broadcast use vstd::utf8::encode_utf8_valid_utf8;

        if text.is_empty() {
            assert(text.spec_bytes() =~= Seq::<u8>::empty());
            return Ok(Vec::new());
        }
        assert(text.spec_bytes().len() > 0);
        let backend = self.backend_for(text)?;
        let ends = match backend {
            Backend::Punkt(lang) => punkt::boundaries(lang, text)?,
            Backend::Icu => icu::boundaries(text, self.newlines),
        };
        proof {
            lemma_close_tiles(ends@, text.spec_bytes());
        }
        Ok(close_last_sentence(ends, text.len()))
    }

    /// Sentence spans, contiguous and covering the whole input.
    pub fn spans(&self, text: &str) -> (r: Result<Vec<Span>, Error>)
        ensures
            match (r, spec_boundaries(*self, text)) {
                (Ok(v), Ok(s)) => v@ == spec_spans(s),
                (Err(e1), Err(e2)) => e1 == e2,
                _ => false,
            },
            r matches Ok(v) ==> {
                &&& valid_spans(v@, text.spec_bytes())
                &&& (v@.len() == 0 <==> text.spec_bytes().len() == 0)
                &&& v@.len() > 0 ==> v@[0].start == 0 && v@.last().end == text.spec_bytes().len()
                &&& forall|i: int| 0 <= i < v@.len() ==> (#[trigger] v@[i]).start < v@[i].end
                &&& forall|i: int|
                    0 <= i < v@.len() - 1 ==> (#[trigger] v@[i]).end == v@[i + 1].start
            },
            spec_boundaries(*self, text) matches Ok(s) ==> tiles(s, text.spec_bytes()),
    {
        broadcast use vstd::utf8::encode_utf8_valid_utf8;

        let ends = self.boundaries(text)?;
        proof {
            lemma_spans_of_tiling(ends@, text.spec_bytes());
        }
        Ok(spans_from_boundaries(&ends))
    }

    /// The sentences themselves, borrowed from `text`: concatenated, they reproduce
    /// the input exactly.
    pub fn sentences<'t>(&self, text: &'t str) -> (r: Result<Vec<&'t str>, Error>)
        ensures
            match (r, spec_boundaries(*self, text)) {
                (Ok(v), Ok(s)) => v@.len() == s.len() && forall|i: int|
                    0 <= i < v@.len() ==> (#[trigger] v@[i]).spec_bytes() == spec_pieces(
                        text.spec_bytes(),
                        s,
                    )[i],
                (Err(e1), Err(e2)) => e1 == e2,
                _ => false,
            },
            r matches Ok(v) ==> concat(v@.map_values(|s: &str| s.spec_bytes())) == text.spec_bytes(),
    {
        let ghost bytes = text.spec_bytes();
        let spans = self.spans(text)?;
        let v = sentences_from_spans(text, &spans);
        proof {
            let ends = spec_boundaries(*self, text)->Ok_0;
            lemma_pieces_concat(bytes, ends);
            assert(v@.map_values(|s: &str| s.spec_bytes()) =~= spec_pieces(bytes, ends));
        }
        Ok(v)
    }
}

/// `c` in lowercase, when it is an ASCII capital letter; else `c`.
pub open spec fn ascii_lower(c: char) -> char {
    if 'A' <= c && c <= 'Z' {
        ((c as u32) + 32) as char
    } else {
        c
    }
}

/// A language's name is its variant's name in lowercase.
pub proof fn law_name_is_lowercase_variant_name(l: Language)
    ensures
        language_name(l) == language_debug_name(l).map_values(|c: char| ascii_lower(c)),
{
    reveal_strlit("czech");
    reveal_strlit("danish");
    reveal_strlit("dutch");
    reveal_strlit("english");
    reveal_strlit("estonian");
    reveal_strlit("finnish");
    reveal_strlit("french");
    reveal_strlit("german");
    reveal_strlit("greek");
    reveal_strlit("italian");
    reveal_strlit("norwegian");
    reveal_strlit("polish");
    reveal_strlit("portuguese");
    reveal_strlit("slovene");
    reveal_strlit("spanish");
    reveal_strlit("swedish");
    reveal_strlit("turkish");
    reveal_strlit("Czech");
    reveal_strlit("Danish");
    reveal_strlit("Dutch");
    reveal_strlit("English");
    reveal_strlit("Estonian");
    reveal_strlit("Finnish");
    reveal_strlit("French");
    reveal_strlit("German");
    reveal_strlit("Greek");
    reveal_strlit("Italian");
    reveal_strlit("Norwegian");
    reveal_strlit("Polish");
    reveal_strlit("Portuguese");
    reveal_strlit("Slovene");
    reveal_strlit("Spanish");
    reveal_strlit("Swedish");
    reveal_strlit("Turkish");
    assert(language_name(l) =~= language_debug_name(l).map_values(|c: char| ascii_lower(c)));
}

/// Different languages have different names, so each names its own `lang-*` feature.
pub proof fn law_language_names_are_distinct(a: Language, b: Language)
    ensures
        language_name(a) == language_name(b) ==> a == b,
{
    reveal_strlit("czech");
    reveal_strlit("danish");
    reveal_strlit("dutch");
    reveal_strlit("english");
    reveal_strlit("estonian");
    reveal_strlit("finnish");
    reveal_strlit("french");
    reveal_strlit("german");
    reveal_strlit("greek");
    reveal_strlit("italian");
    reveal_strlit("norwegian");
    reveal_strlit("polish");
    reveal_strlit("portuguese");
    reveal_strlit("slovene");
    reveal_strlit("spanish");
    reveal_strlit("swedish");
    reveal_strlit("turkish");
    if a != b {
        assert(language_name(a).len() != language_name(b).len() || language_name(a)[0]
            != language_name(b)[0] || language_name(a)[1] != language_name(b)[1]
            || language_name(a)[2] != language_name(b)[2]);
    }
}

/// A segmenter is nothing but its mode and its newline policy: two segmenters that
/// agree on both are the same segmenter.
pub proof fn law_segmenter_is_mode_and_policy(a: Segmenter, b: Segmenter)
    requires
        a.mode() == b.mode(),
        a.newline_policy() == b.newline_policy(),
    ensures
        a == b,
{
}

impl Language {
    /// The lowercase English name, which is also the `lang-*` feature suffix.
    pub fn name(&self) -> (n: &'static str)
        ensures
            n@ == language_name(*self),
    {
        match self {
            Language::Czech => "czech",
            Language::Danish => "danish",
            Language::Dutch => "dutch",
            Language::English => "english",
            Language::Estonian => "estonian",
            Language::Finnish => "finnish",
            Language::French => "french",
            Language::German => "german",
            Language::Greek => "greek",
            Language::Italian => "italian",
            Language::Norwegian => "norwegian",
            Language::Polish => "polish",
            Language::Portuguese => "portuguese",
            Language::Slovene => "slovene",
            Language::Spanish => "spanish",
            Language::Swedish => "swedish",
            Language::Turkish => "turkish",
        }
    }

    fn debug_name(&self) -> (n: &'static str)
        ensures
            n@ == language_debug_name(*self),
    {
        match self {
            Language::Czech => "Czech",
            Language::Danish => "Danish",
            Language::Dutch => "Dutch",
            Language::English => "English",
            Language::Estonian => "Estonian",
            Language::Finnish => "Finnish",
            Language::French => "French",
            Language::German => "German",
            Language::Greek => "Greek",
            Language::Italian => "Italian",
            Language::Norwegian => "Norwegian",
            Language::Polish => "Polish",
            Language::Portuguese => "Portuguese",
            Language::Slovene => "Slovene",
            Language::Spanish => "Spanish",
            Language::Swedish => "Swedish",
            Language::Turkish => "Turkish",
        }
    }

    /// Whether this language's Punkt model was compiled in.
    pub fn is_available(&self) -> (b: bool)
        ensures
            b == spec_is_available(*self),
    {
        punkt::training_data(*self).is_some()
    }

    /// Every language whose model is compiled in, in declaration order.
    pub fn available() -> (v: Vec<Language>)
        ensures
            v@ == available_among(all_languages()),
    {
        let all: Vec<Language> = vec![
            Language::Czech,
            Language::Danish,
            Language::Dutch,
            Language::English,
            Language::Estonian,
            Language::Finnish,
            Language::French,
            Language::German,
            Language::Greek,
            Language::Italian,
            Language::Norwegian,
            Language::Polish,
            Language::Portuguese,
            Language::Slovene,
            Language::Spanish,
            Language::Swedish,
            Language::Turkish,
        ];
        assert(all@ == all_languages());
        let mut res: Vec<Language> = Vec::new();
        let mut i: usize = 0;
        while i < all.len()
            invariant
                i <= all@.len(),
                all@ == all_languages(),
                res@ == available_among(all_languages().take(i as int)),
            decreases all@.len() - i,
        {
            let l = all[i];
            if l.is_available() {
                res.push(l);
            }
            proof {
                let t = all_languages().take(i + 1);
                assert(t.drop_last() =~= all_languages().take(i as int));
                assert(t.last() == l);
                reveal_with_fuel(Seq::filter, 1);
            }
            i += 1;
        }
        assert(all_languages().take(all@.len() as int) == all_languages());
        res
    }
}

impl Error {
    /// The human-readable message, naming the `lang-*` feature that would supply a
    /// missing model.
    pub fn to_string(&self) -> (s: String)
        ensures
            s@ == error_message(*self),
    {
        match self {
            Error::ModelUnavailable(lang) => {
                let mut s = String::from_str("no punkt model for ");
                s.append(lang.debug_name());
                s.append("; enable the \"lang-");
                s.append(lang.name());
                s.append("\" feature");
                s
            },
            Error::NoBackendAvailable => String::from_str(
                "no usable backend: language undetected and the \"icu\" feature is off",
            ),
        }
    }
}

} // verus!
