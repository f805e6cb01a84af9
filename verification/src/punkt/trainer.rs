//! A trained Punkt model: abbreviations, collocations, sentence starters and the
//! orthographic context of words, and how it is loaded from JSON.

use vstd::prelude::*;

use crate::punkt::collections::{
    bucket, byte_map_contents, string_set_contents, string_set_map_contents, ByteMap, StringSet,
    StringSetMap,
};
use crate::punkt::json::{parse_json, serde_json_parse, JsonModel, JsonValue};

verus! {

broadcast use vstd::string::group_string_axioms;

/// Bit flags recording the positions and cases in which a word has been seen.
pub type OrthographicContext = u8;

/// What `str::to_lowercase` yields for a string.
pub uninterp spec fn lowercase(s: Seq<char>) -> Seq<char>;

/// `str::to_lowercase`. Claims only that the result is a function of the string.
#[verifier::external_body]
pub(crate) fn to_lowercase(s: &str) -> (r: String)
    ensures
        r@ == lowercase(s@),
{
    s.to_lowercase()
}

/// A collocation: a pair of words with a high likelihood of appearing together.
#[derive(Debug)]
pub struct Collocation<T> {
    l: T,
    r: T,
}

impl<T> Collocation<T> {
    pub closed spec fn spec_left(&self) -> T {
        self.l
    }

    pub closed spec fn spec_right(&self) -> T {
        self.r
    }

    pub fn new(l: T, r: T) -> (c: Collocation<T>)
        ensures
            c.spec_left() == l,
            c.spec_right() == r,
    {
        Collocation { l: l, r: r }
    }

    pub fn left(&self) -> (l: &T)
        ensures
            *l == self.spec_left(),
    {
        &self.l
    }

    pub fn right(&self) -> (r: &T)
        ensures
            *r == self.spec_right(),
    {
        &self.r
    }
}

/// The contents of a model: abbreviations, sentence starters, collocations (each left
/// word with the right words it is known to precede) and orthographic contexts.
pub type ModelContents = (
    Set<Seq<char>>,
    Set<Seq<char>>,
    Map<Seq<char>, Set<Seq<char>>>,
    Map<Seq<char>, u8>,
);

/// Data obtained during training, used to decide whether a period ends a sentence.
#[derive(Debug)]
pub struct TrainingData {
    abbrevs: StringSet,
    collocations: StringSetMap,
    sentence_starters: StringSet,
    orthographic_context: ByteMap,
}

/// The member value of the first member of `members` named `key`.
pub open spec fn lookup(members: Seq<(Seq<char>, JsonModel)>, key: Seq<char>) -> Option<JsonModel>
    decreases members.len(),
{
    if members.len() == 0 {
        None
    } else if members[0].0 == key {
        Some(members[0].1)
    } else {
        lookup(members.drop_first(), key)
    }
}

/// Abbreviations after inserting `tok`: unless the token itself is already known, its
/// lowercase form is added.
pub open spec fn add_abbrev(set: Set<Seq<char>>, tok: Seq<char>) -> Set<Seq<char>> {
    if set.contains(tok) {
        set
    } else {
        set.insert(lowercase(tok))
    }
}

/// Abbreviations after inserting each string item in turn.
pub open spec fn fold_abbrevs(set: Set<Seq<char>>, items: Seq<JsonModel>) -> Set<Seq<char>>
    decreases items.len(),
{
    if items.len() == 0 {
        set
    } else {
        let next = match items[0] {
            JsonModel::Str(st) => add_abbrev(set, st),
            _ => set,
        };
        fold_abbrevs(next, items.drop_first())
    }
}

/// Sentence starters after inserting each string item in turn.
pub open spec fn fold_starters(set: Set<Seq<char>>, items: Seq<JsonModel>) -> Set<Seq<char>>
    decreases items.len(),
{
    if items.len() == 0 {
        set
    } else {
        let next = match items[0] {
            JsonModel::Str(st) => set.insert(st),
            _ => set,
        };
        fold_starters(next, items.drop_first())
    }
}

/// The (left, right) words of a collocation item: its last two elements, both strings.
pub open spec fn collocation_pair(ar: Seq<JsonModel>) -> Option<(Seq<char>, Seq<char>)> {
    if ar.len() >= 2 {
        match (ar[ar.len() - 2], ar[ar.len() - 1]) {
            (JsonModel::Str(l), JsonModel::Str(r)) => Some((l, r)),
            _ => None,
        }
    } else {
        None
    }
}

/// Collocations after adding each array item's pair in turn; `None` as soon as an
/// array item does not end in two strings. Items that are not arrays are skipped.
pub open spec fn fold_collocations(
    m: Map<Seq<char>, Set<Seq<char>>>,
    items: Seq<JsonModel>,
) -> Option<Map<Seq<char>, Set<Seq<char>>>>
    decreases items.len(),
{
    if items.len() == 0 {
        Some(m)
    } else {
        match items[0] {
            JsonModel::Array(ar) => match collocation_pair(ar) {
                Some((l, r)) => fold_collocations(m.insert(l, bucket(m, l).insert(r)), items.drop_first()),
                None => None,
            },
            _ => fold_collocations(m, items.drop_first()),
        }
    }
}

/// Orthographic contexts after recording each member whose value is an unsigned integer,
/// truncated to its low byte.
pub open spec fn fold_ortho(m: Map<Seq<char>, u8>, members: Seq<(Seq<char>, JsonModel)>) -> Map<Seq<char>, u8>
    decreases members.len(),
{
    if members.len() == 0 {
        m
    } else {
        let next = match members[0].1 {
            JsonModel::Number(Some(c)) => m.insert(members[0].0, c as u8),
            _ => m,
        };
        fold_ortho(next, members.drop_first())
    }
}

/// The model a JSON text describes, or the message explaining why it describes none.
pub open spec fn spec_load(text: Seq<char>) -> Result<ModelContents, Seq<char>> {
    match serde_json_parse(text) {
        Some(v) => load_model(v),
        None => Err("no json object found containing training data"@),
    }
}

/// The model a parsed JSON value describes, or the message explaining why it
/// describes none.
pub open spec fn load_model(v: JsonModel) -> Result<ModelContents, Seq<char>> {
    match v {
        JsonModel::Object(members) => match lookup(members, "abbrev_types"@) {
            Some(JsonModel::Array(abbrevs)) => match lookup(members, "sentence_starters"@) {
                Some(JsonModel::Array(starters)) => match lookup(members, "collocations"@) {
                    Some(JsonModel::Array(collocations)) => match fold_collocations(
                        Map::empty(),
                        collocations,
                    ) {
                        Some(cm) => match lookup(members, "ortho_context"@) {
                            Some(JsonModel::Object(ortho)) => Ok(
                                (
                                    fold_abbrevs(Set::empty(), abbrevs),
                                    fold_starters(Set::empty(), starters),
                                    cm,
                                    fold_ortho(Map::empty(), ortho),
                                ),
                            ),
                            _ => Err("failed to parse orthographic context section"@),
                        },
                        None => Err("failed to parse collocations section"@),
                    },
                    _ => Err("failed to parse expected path"@),
                },
                _ => Err("failed to parse expected path"@),
            },
            _ => Err("failed to parse expected path"@),
        },
        _ => Err("no json object found containing training data"@),
    }
}

/// Contexts after recording that `tok` appears in `ctxt`: its flags merged with any
/// already recorded.
pub open spec fn record_context(m: Map<Seq<char>, u8>, tok: Seq<char>, ctxt: u8) -> Map<Seq<char>, u8> {
    if m.contains_key(tok) {
        m.insert(tok, m[tok] | ctxt)
    } else {
        m.insert(tok, ctxt)
    }
}

/// Recording a context for a word keeps every flag recorded for it before and adds the
/// new ones; other words keep their contexts.
pub proof fn law_context_flags_accumulate(m: Map<Seq<char>, u8>, tok: Seq<char>, ctxt: u8, other: Seq<char>)
    ensures
        record_context(m, tok, ctxt)[tok] & ctxt == ctxt,
        m.contains_key(tok) ==> record_context(m, tok, ctxt)[tok] & m[tok] == m[tok],
        other != tok ==> record_context(m, tok, ctxt).contains_key(other) == m.contains_key(other),
        other != tok && m.contains_key(other) ==> record_context(m, tok, ctxt)[other] == m[other],
{
    if m.contains_key(tok) {
        let old_flags = m[tok];
        assert((old_flags | ctxt) & ctxt == ctxt && (old_flags | ctxt) & old_flags == old_flags) by (bit_vector);
    } else {
        assert(ctxt & ctxt == ctxt) by (bit_vector);
    }
}

/// After an abbreviation is inserted, the token or its lowercase form is known.
pub proof fn law_inserted_abbreviation_is_known(before: Set<Seq<char>>, tok: Seq<char>)
    ensures
        add_abbrev(before, tok).contains(tok) || add_abbrev(before, tok).contains(lowercase(tok)),
        before.subset_of(add_abbrev(before, tok)),
{
}

/// Loading collocations fails exactly when some array item does not end in two strings.
pub proof fn law_collocations_fail_exactly_on_a_bad_pair(
    m: Map<Seq<char>, Set<Seq<char>>>,
    items: Seq<JsonModel>,
)
    ensures
        fold_collocations(m, items) is None <==> exists|i: int|
            0 <= i < items.len() && (#[trigger] items[i] matches JsonModel::Array(ar)
                && collocation_pair(ar) is None),
    decreases items.len(),
{
    if items.len() > 0 {
        let rest = items.drop_first();
        let next = match items[0] {
            JsonModel::Array(ar) => match collocation_pair(ar) {
                Some((l, r)) => m.insert(l, bucket(m, l).insert(r)),
                None => m,
            },
            _ => m,
        };
        law_collocations_fail_exactly_on_a_bad_pair(next, rest);
        assert forall|i: int| 0 < i < items.len() implies #[trigger] items[i] == rest[i - 1] by {}
        if exists|i: int|
            0 <= i < items.len() && (#[trigger] items[i] matches JsonModel::Array(ar)
                && collocation_pair(ar) is None) {
            let i = choose|i: int|
                0 <= i < items.len() && (#[trigger] items[i] matches JsonModel::Array(ar)
                    && collocation_pair(ar) is None);
            if i > 0 {
                assert(rest[i - 1] == items[i]);
            }
        }
        if exists|j: int|
            0 <= j < rest.len() && (#[trigger] rest[j] matches JsonModel::Array(ar)
                && collocation_pair(ar) is None) {
            let j = choose|j: int|
                0 <= j < rest.len() && (#[trigger] rest[j] matches JsonModel::Array(ar)
                    && collocation_pair(ar) is None);
            assert(items[j + 1] == rest[j]);
        }
    }
}

/// When loading collocations succeeds, a right word is known after a left word exactly
/// when it was before, or some array item ends in that pair.
pub proof fn law_loaded_collocations(
    m: Map<Seq<char>, Set<Seq<char>>>,
    items: Seq<JsonModel>,
    l: Seq<char>,
    x: Seq<char>,
)
    requires
        fold_collocations(m, items) is Some,
    ensures
        bucket(fold_collocations(m, items)->Some_0, l).contains(x) <==> bucket(m, l).contains(x)
            || exists|i: int|
            0 <= i < items.len() && (#[trigger] items[i] matches JsonModel::Array(ar)
                && collocation_pair(ar) == Some((l, x))),
    decreases items.len(),
{
    if items.len() > 0 {
        let rest = items.drop_first();
        let next = match items[0] {
            JsonModel::Array(ar) => match collocation_pair(ar) {
                Some((a, b)) => m.insert(a, bucket(m, a).insert(b)),
                None => m,
            },
            _ => m,
        };
        law_loaded_collocations(next, rest, l, x);
        let found = exists|i: int|
            0 <= i < items.len() && (#[trigger] items[i] matches JsonModel::Array(ar)
                && collocation_pair(ar) == Some((l, x)));
        let found_rest = exists|j: int|
            0 <= j < rest.len() && (#[trigger] rest[j] matches JsonModel::Array(ar)
                && collocation_pair(ar) == Some((l, x)));
        if found {
            let i = choose|i: int|
                0 <= i < items.len() && (#[trigger] items[i] matches JsonModel::Array(ar)
                    && collocation_pair(ar) == Some((l, x)));
            if i > 0 {
                assert(rest[i - 1] == items[i]);
            }
        }
        if found_rest {
            let j = choose|j: int|
                0 <= j < rest.len() && (#[trigger] rest[j] matches JsonModel::Array(ar)
                    && collocation_pair(ar) == Some((l, x)));
            assert(items[j + 1] == rest[j]);
        }
    }
}

/// Loaded orthographic contexts: a word has one exactly when it had one before or some
/// member named after it is an unsigned integer, and its context is then the low byte of
/// such a member's value, or the one it had before.
pub proof fn law_loaded_ortho(m: Map<Seq<char>, u8>, members: Seq<(Seq<char>, JsonModel)>, k: Seq<char>)
    ensures
        fold_ortho(m, members).contains_key(k) <==> m.contains_key(k) || exists|i: int|
            0 <= i < members.len() && (#[trigger] members[i]).0 == k && members[i].1 matches JsonModel::Number(Some(_)),
        fold_ortho(m, members).contains_key(k) ==> (exists|i: int|
            0 <= i < members.len() && (#[trigger] members[i]).0 == k && (members[i].1 matches JsonModel::Number(Some(c))
                && fold_ortho(m, members)[k] == c as u8)) || (m.contains_key(k) && fold_ortho(
            m,
            members,
        )[k] == m[k]),
    decreases members.len(),
{
    if members.len() > 0 {
        let rest = members.drop_first();
        let next = match members[0].1 {
            JsonModel::Number(Some(c)) => m.insert(members[0].0, c as u8),
            _ => m,
        };
        law_loaded_ortho(next, rest, k);
        let r = fold_ortho(m, members);
        assert(r == fold_ortho(next, rest));
        if exists|i: int|
            0 <= i < members.len() && (#[trigger] members[i]).0 == k && members[i].1 matches JsonModel::Number(Some(_)) {
            let i = choose|i: int|
                0 <= i < members.len() && (#[trigger] members[i]).0 == k && members[i].1 matches JsonModel::Number(Some(_));
            if i > 0 {
                assert(rest[i - 1] == members[i]);
            }
        }
        if exists|j: int|
            0 <= j < rest.len() && (#[trigger] rest[j]).0 == k && rest[j].1 matches JsonModel::Number(Some(_)) {
            let j = choose|j: int|
                0 <= j < rest.len() && (#[trigger] rest[j]).0 == k && rest[j].1 matches JsonModel::Number(Some(_));
            assert(members[j + 1] == rest[j]);
        }
        if r.contains_key(k) {
            if exists|j: int|
                0 <= j < rest.len() && (#[trigger] rest[j]).0 == k && (rest[j].1 matches JsonModel::Number(Some(c))
                    && r[k] == c as u8) {
                let j = choose|j: int|
                    0 <= j < rest.len() && (#[trigger] rest[j]).0 == k && (rest[j].1 matches JsonModel::Number(Some(c))
                        && r[k] == c as u8);
                assert(members[j + 1] == rest[j]);
            } else if members[0].0 == k && members[0].1 matches JsonModel::Number(Some(_)) {
                assert(members[0].0 == k);
            }
        }
    }
}

/// Whether a parsed value describes a model: an object whose `abbrev_types`,
/// `sentence_starters` and `collocations` are arrays, every array item of whose
/// `collocations` ends in two strings, and whose `ortho_context` is an object. Items
/// and members of any other shape are skipped.
pub open spec fn describes_a_model(v: JsonModel) -> bool {
    match v {
        JsonModel::Object(members) => {
            &&& lookup(members, "abbrev_types"@) matches Some(JsonModel::Array(_))
            &&& lookup(members, "sentence_starters"@) matches Some(JsonModel::Array(_))
            &&& lookup(members, "collocations"@) matches Some(JsonModel::Array(items))
            &&& forall|i: int|
                0 <= i < items.len() ==> (#[trigger] items[i] matches JsonModel::Array(ar)
                    ==> collocation_pair(ar) is Some)
            &&& lookup(members, "ortho_context"@) matches Some(JsonModel::Object(_))
        },
        _ => false,
    }
}

/// Loading a parsed value succeeds exactly when it describes a model.
pub proof fn law_load_succeeds_exactly_when(v: JsonModel)
    ensures
        load_model(v) is Ok <==> describes_a_model(v),
{
    if let JsonModel::Object(members) = v {
        if let Some(JsonModel::Array(items)) = lookup(members, "collocations"@) {
            law_collocations_fail_exactly_on_a_bad_pair(Map::empty(), items);
        }
    }
}

/// Loading a JSON text succeeds exactly when it parses and describes a model.
pub proof fn law_load_text_succeeds_exactly_when(text: Seq<char>)
    ensures
        spec_load(text) is Ok <==> (serde_json_parse(text) matches Some(v) && describes_a_model(v)),
{
    if let Some(v) = serde_json_parse(text) {
        law_load_succeeds_exactly_when(v);
    }
}

/// Loaded sentence starters are those already known and the string items.
pub proof fn law_loaded_starters(set: Set<Seq<char>>, items: Seq<JsonModel>, x: Seq<char>)
    ensures
        fold_starters(set, items).contains(x) <==> set.contains(x) || exists|i: int|
            0 <= i < items.len() && #[trigger] items[i] == JsonModel::Str(x),
    decreases items.len(),
{
    if items.len() > 0 {
        let rest = items.drop_first();
        let next = match items[0] {
            JsonModel::Str(st) => set.insert(st),
            _ => set,
        };
        law_loaded_starters(next, rest, x);
        if exists|i: int| 0 <= i < items.len() && #[trigger] items[i] == JsonModel::Str(x) {
            let i = choose|i: int| 0 <= i < items.len() && #[trigger] items[i] == JsonModel::Str(x);
            if i > 0 {
                assert(rest[i - 1] == items[i]);
            }
        }
        if exists|j: int| 0 <= j < rest.len() && #[trigger] rest[j] == JsonModel::Str(x) {
            let j = choose|j: int| 0 <= j < rest.len() && #[trigger] rest[j] == JsonModel::Str(x);
            assert(items[j + 1] == rest[j]);
        }
    }
}

/// Every loaded abbreviation is one already known or the lowercase form of a string
/// item, and every string item is afterwards known, itself or in lowercase.
pub proof fn law_loaded_abbrevs(set: Set<Seq<char>>, items: Seq<JsonModel>, x: Seq<char>)
    ensures
        fold_abbrevs(set, items).contains(x) ==> set.contains(x) || exists|i: int|
            0 <= i < items.len() && (#[trigger] items[i] matches JsonModel::Str(a) && lowercase(a)
                == x),
        set.subset_of(fold_abbrevs(set, items)),
        forall|i: int|
            0 <= i < items.len() && (#[trigger] items[i] matches JsonModel::Str(a)) ==> (
            fold_abbrevs(set, items).contains(items[i]->Str_0) || fold_abbrevs(set, items).contains(
                lowercase(items[i]->Str_0),
            )),
    decreases items.len(),
{
    if items.len() > 0 {
        let rest = items.drop_first();
        let next = match items[0] {
            JsonModel::Str(st) => add_abbrev(set, st),
            _ => set,
        };
        law_loaded_abbrevs(next, rest, x);
        let result = fold_abbrevs(set, items);
        assert(result == fold_abbrevs(next, rest));
        if result.contains(x) && !set.contains(x) {
            if next.contains(x) {
                assert(items[0] matches JsonModel::Str(a) && lowercase(a) == x);
            } else {
                let j = choose|j: int|
                    0 <= j < rest.len() && (#[trigger] rest[j] matches JsonModel::Str(a) && lowercase(
                        a,
                    ) == x);
                assert(items[j + 1] == rest[j]);
            }
        }
        assert forall|i: int|
            0 <= i < items.len() && (#[trigger] items[i] matches JsonModel::Str(a)) implies (
            result.contains(items[i]->Str_0) || result.contains(lowercase(items[i]->Str_0))) by {
            if i == 0 {
                let a = items[0]->Str_0;
                assert(next.contains(a) || next.contains(lowercase(a)));
            } else {
                assert(rest[i - 1] == items[i]);
            }
        }
    }
}

/// The models of an array's items.
pub open spec fn items_model(items: Seq<JsonValue>) -> Seq<JsonModel> {
    Seq::new(items.len(), |i: int| items[i]@)
}

/// The models of an object's members.
pub open spec fn members_model(members: Seq<(String, JsonValue)>) -> Seq<(Seq<char>, JsonModel)> {
    Seq::new(members.len(), |i: int| (members[i].0@, members[i].1@))
}

/// The model of an array or object value is the sequence of its elements' models.
proof fn lemma_container_view(v: JsonValue)
    ensures
        v matches JsonValue::Array(a) ==> v@ == JsonModel::Array(items_model(a@)),
        v matches JsonValue::Object(m) ==> v@ == JsonModel::Object(members_model(m@)),
{
    match v {
        JsonValue::Array(a) => {
            let s = v@->Array_0;
            assert(s.len() == a@.len());
            assert forall|i: int| 0 <= i < s.len() implies s[i] == items_model(a@)[i] by {}
            assert(s =~= items_model(a@));
        },
        JsonValue::Object(m) => {
            let s = v@->Object_0;
            assert(s.len() == m@.len());
            assert forall|i: int| 0 <= i < s.len() implies s[i] == members_model(m@)[i] by {}
            assert(s =~= members_model(m@));
        },
        _ => {},
    }
}

/// The member value of the first member of `members` named `key`.
fn find_member<'a>(members: &'a Vec<(String, JsonValue)>, key: &str) -> (r: Option<&'a JsonValue>)
    ensures
        match r {
            Some(v) => lookup(members_model(members@), key@) == Some(v@),
            None => lookup(members_model(members@), key@) is None,
        },
{
    let key_string = String::from_str(key);
    let ghost model = members_model(members@);
    assert(model.skip(0) =~= model);
    let mut i: usize = 0;
    while i < members.len()
        invariant
            i <= members@.len(),
            key_string@ == key@,
            model == members_model(members@),
            lookup(model.skip(i as int), key@) == lookup(model, key@),
        decreases members@.len() - i,
    {
        assert(model.skip(i as int).drop_first() =~= model.skip(i + 1));
        if members[i].0 == key_string {
            return Some(&members[i].1);
        }
        i += 1;
    }
    proof {
        assert(model.skip(i as int).len() == 0);
    }
    None
}

impl TrainingData {
    /// The abbreviations known to the model.
    pub closed spec fn abbrevs(&self) -> Set<Seq<char>> {
        string_set_contents(self.abbrevs)
    }

    /// The words known to commonly start a sentence.
    pub closed spec fn sentence_starters(&self) -> Set<Seq<char>> {
        string_set_contents(self.sentence_starters)
    }

    /// Each left word of a known collocation, with the right words it is known to precede.
    pub closed spec fn collocations(&self) -> Map<Seq<char>, Set<Seq<char>>> {
        string_set_map_contents(self.collocations)
    }

    /// The orthographic context recorded for each word.
    pub closed spec fn orthographic_contexts(&self) -> Map<Seq<char>, u8> {
        byte_map_contents(self.orthographic_context)
    }

    /// Everything the model holds.
    pub open spec fn contents(&self) -> ModelContents {
        (self.abbrevs(), self.sentence_starters(), self.collocations(), self.orthographic_contexts())
    }

    /// A new, empty model.
    pub fn new() -> (d: TrainingData)
        ensures
            d.abbrevs() == Set::<Seq<char>>::empty(),
            d.sentence_starters() == Set::<Seq<char>>::empty(),
            d.collocations() == Map::<Seq<char>, Set<Seq<char>>>::empty(),
            d.orthographic_contexts() == Map::<Seq<char>, u8>::empty(),
    {
        let d = TrainingData {
            abbrevs: StringSet::new(),
            collocations: StringSetMap::new(),
            sentence_starters: StringSet::new(),
            orthographic_context: ByteMap::new(),
        };
        assert(d.collocations() =~= Map::<Seq<char>, Set<Seq<char>>>::empty());
        assert(d.orthographic_contexts() =~= Map::<Seq<char>, u8>::empty());
        d
    }

    /// Whether a token is considered to be an abbreviation.
    pub fn contains_abbrev(&self, tok: &str) -> (b: bool)
        ensures
            b == self.abbrevs().contains(tok@),
    {
        self.abbrevs.contains(tok)
    }

    /// Inserts a newly learned abbreviation, lowercased, unless the token itself is
    /// already one; true iff something was added.
    pub fn insert_abbrev(&mut self, tok: &str) -> (b: bool)
        ensures
            final(self).abbrevs() == add_abbrev(old(self).abbrevs(), tok@),
            b == (!old(self).abbrevs().contains(tok@) && !old(self).abbrevs().contains(lowercase(tok@))),
            final(self).sentence_starters() == old(self).sentence_starters(),
            final(self).collocations() == old(self).collocations(),
            final(self).orthographic_contexts() == old(self).orthographic_contexts(),
    {
        if !self.contains_abbrev(tok) {
            self.abbrevs.insert(to_lowercase(tok))
        } else {
            false
        }
    }

    /// Adds `abbrev` to the abbreviations exactly as given.
    pub(crate) fn add_abbreviation(&mut self, abbrev: &str)
        ensures
            final(self).abbrevs() == old(self).abbrevs().insert(abbrev@),
            final(self).sentence_starters() == old(self).sentence_starters(),
            final(self).collocations() == old(self).collocations(),
            final(self).orthographic_contexts() == old(self).orthographic_contexts(),
    {
        self.abbrevs.insert(abbrev.to_string());
    }

    /// Removes a learned abbreviation; true iff it was known.
    pub fn remove_abbrev(&mut self, tok: &str) -> (b: bool)
        ensures
            final(self).abbrevs() == old(self).abbrevs().remove(tok@),
            b == old(self).abbrevs().contains(tok@),
            final(self).sentence_starters() == old(self).sentence_starters(),
            final(self).collocations() == old(self).collocations(),
            final(self).orthographic_contexts() == old(self).orthographic_contexts(),
    {
        self.abbrevs.remove(tok)
    }

    /// Whether a token is considered to commonly start a sentence.
    pub fn contains_sentence_starter(&self, tok: &str) -> (b: bool)
        ensures
            b == self.sentence_starters().contains(tok@),
    {
        self.sentence_starters.contains(tok)
    }

    /// Inserts a newly learned sentence starter; true iff it was not yet known.
    pub fn insert_sentence_starter(&mut self, tok: &str) -> (b: bool)
        ensures
            final(self).sentence_starters() == old(self).sentence_starters().insert(tok@),
            b == !old(self).sentence_starters().contains(tok@),
            final(self).abbrevs() == old(self).abbrevs(),
            final(self).collocations() == old(self).collocations(),
            final(self).orthographic_contexts() == old(self).orthographic_contexts(),
    {
        if !self.contains_sentence_starter(tok) {
            self.sentence_starters.insert(tok.to_string())
        } else {
            assert(old(self).sentence_starters().insert(tok@) =~= old(self).sentence_starters());
            false
        }
    }

    /// Whether the pair of words is known to appear together.
    pub fn contains_collocation(&self, left: &str, right: &str) -> (b: bool)
        ensures
            b == bucket(self.collocations(), left@).contains(right@),
    {
        match self.collocations.get(left) {
            Some(s) => s.contains(right),
            None => false,
        }
    }

    /// Inserts a newly learned pair of words that frequently appear together; true iff
    /// it was not yet known.
    pub fn insert_collocation(&mut self, left: &str, right: &str) -> (b: bool)
        ensures
            final(self).collocations() == old(self).collocations().insert(
                left@,
                bucket(old(self).collocations(), left@).insert(right@),
            ),
            b == !bucket(old(self).collocations(), left@).contains(right@),
            final(self).abbrevs() == old(self).abbrevs(),
            final(self).sentence_starters() == old(self).sentence_starters(),
            final(self).orthographic_contexts() == old(self).orthographic_contexts(),
    {
        if !self.collocations.contains_key(left) {
            self.collocations.insert(left.to_string(), StringSet::new());
        }
        assert(bucket(self.collocations(), left@) == bucket(old(self).collocations(), left@));
        if !self.contains_collocation(left, right) {
            self.collocations.insert_into_bucket(left.to_string(), right.to_string());
            true
        } else {
            assert(bucket(old(self).collocations(), left@).insert(right@) =~= bucket(
                old(self).collocations(),
                left@,
            ));
            assert(self.collocations() =~= old(self).collocations().insert(
                left@,
                bucket(old(self).collocations(), left@).insert(right@),
            ));
            false
        }
    }

    /// Records that a word appears in `ctxt`: merged into its known context, or new;
    /// true iff the word was new.
    pub fn insert_orthographic_context(&mut self, tok: &str, ctxt: OrthographicContext) -> (b: bool)
        ensures
            final(self).orthographic_contexts() == record_context(
                old(self).orthographic_contexts(),
                tok@,
                ctxt,
            ),
            b == !old(self).orthographic_contexts().contains_key(tok@),
            final(self).abbrevs() == old(self).abbrevs(),
            final(self).sentence_starters() == old(self).sentence_starters(),
            final(self).collocations() == old(self).collocations(),
    {
        match self.orthographic_context.get(tok) {
            Some(c) => {
                self.orthographic_context.insert(tok.to_string(), c | ctxt);
                false
            },
            None => {
                self.orthographic_context.insert(tok.to_string(), ctxt);
                true
            },
        }
    }

    /// The orthographic context recorded for a token, or 0 if it was never seen.
    pub fn get_orthographic_context(&self, tok: &str) -> (c: u8)
        ensures
            c == if self.orthographic_contexts().contains_key(tok@) {
                self.orthographic_contexts()[tok@]
            } else {
                0u8
            },
    {
        match self.orthographic_context.get(tok) {
            Some(c) => c,
            None => 0,
        }
    }

    fn load_abbrevs(&mut self, items: &Vec<JsonValue>)
        ensures
            final(self).abbrevs() == fold_abbrevs(old(self).abbrevs(), items_model(items@)),
            final(self).sentence_starters() == old(self).sentence_starters(),
            final(self).collocations() == old(self).collocations(),
            final(self).orthographic_contexts() == old(self).orthographic_contexts(),
    {
        let ghost model = items_model(items@);
        assert(model.skip(0) =~= model);
        let mut i: usize = 0;
        while i < items.len()
            invariant
                i <= items@.len(),
                model == items_model(items@),
                fold_abbrevs(self.abbrevs(), model.skip(i as int)) == fold_abbrevs(
                    old(self).abbrevs(),
                    model,
                ),
                self.sentence_starters() == old(self).sentence_starters(),
                self.collocations() == old(self).collocations(),
                self.orthographic_contexts() == old(self).orthographic_contexts(),
            decreases items@.len() - i,
        {
            assert(model.skip(i as int).drop_first() =~= model.skip(i + 1));
            match &items[i] {
                JsonValue::Str(st) => {
                    self.insert_abbrev(st.as_str());
                },
                _ => {},
            }
            i += 1;
        }
        assert(model.skip(i as int) =~= Seq::<JsonModel>::empty());
    }

    fn load_starters(&mut self, items: &Vec<JsonValue>)
        ensures
            final(self).sentence_starters() == fold_starters(
                old(self).sentence_starters(),
                items_model(items@),
            ),
            final(self).abbrevs() == old(self).abbrevs(),
            final(self).collocations() == old(self).collocations(),
            final(self).orthographic_contexts() == old(self).orthographic_contexts(),
    {
        let ghost model = items_model(items@);
        assert(model.skip(0) =~= model);
        let mut i: usize = 0;
        while i < items.len()
            invariant
                i <= items@.len(),
                model == items_model(items@),
                fold_starters(self.sentence_starters(), model.skip(i as int)) == fold_starters(
                    old(self).sentence_starters(),
                    model,
                ),
                self.abbrevs() == old(self).abbrevs(),
                self.collocations() == old(self).collocations(),
                self.orthographic_contexts() == old(self).orthographic_contexts(),
            decreases items@.len() - i,
        {
            assert(model.skip(i as int).drop_first() =~= model.skip(i + 1));
            match &items[i] {
                JsonValue::Str(st) => {
                    self.insert_sentence_starter(st.as_str());
                },
                _ => {},
            }
            i += 1;
        }
        assert(model.skip(i as int) =~= Seq::<JsonModel>::empty());
    }

    /// Adds each collocation item's pair; false (with the model partly updated) as soon
    /// as an array item does not end in two strings.
    fn load_collocations(&mut self, items: &Vec<JsonValue>) -> (ok: bool)
        ensures
            ok == fold_collocations(old(self).collocations(), items_model(items@)) is Some,
            ok ==> final(self).collocations() == fold_collocations(
                old(self).collocations(),
                items_model(items@),
            )->Some_0,
            final(self).abbrevs() == old(self).abbrevs(),
            final(self).sentence_starters() == old(self).sentence_starters(),
            final(self).orthographic_contexts() == old(self).orthographic_contexts(),
    {
        let ghost model = items_model(items@);
        assert(model.skip(0) =~= model);
        let mut i: usize = 0;
        while i < items.len()
            invariant
                i <= items@.len(),
                model == items_model(items@),
                fold_collocations(self.collocations(), model.skip(i as int)) == fold_collocations(
                    old(self).collocations(),
                    model,
                ),
                self.abbrevs() == old(self).abbrevs(),
                self.sentence_starters() == old(self).sentence_starters(),
                self.orthographic_contexts() == old(self).orthographic_contexts(),
            decreases items@.len() - i,
        {
            assert(model.skip(i as int).drop_first() =~= model.skip(i + 1));
            match &items[i] {
                JsonValue::Array(ar) => {
                    let n = ar.len();
                    let ghost arm = items_model(ar@);
                    proof {
                        assert(model[i as int] == items@[i as int]@);
                        lemma_container_view(items@[i as int]);
                    }
                    if n < 2 {
                        return false;
                    }
                    match (&ar[n - 2], &ar[n - 1]) {
                        (JsonValue::Str(l), JsonValue::Str(r)) => {
                            proof {
                                assert(arm[n - 2] == ar@[n - 2]@);
                                assert(arm[n - 1] == ar@[n - 1]@);
                                assert(collocation_pair(arm) == Some((l@, r@)));
                            }
                            self.collocations.insert_into_bucket(l.clone(), r.clone());
                        },
                        _ => {
                            proof {
                                assert(arm[n - 2] == ar@[n - 2]@);
                                assert(arm[n - 1] == ar@[n - 1]@);
                                assert(collocation_pair(arm) is None);
                            }
                            return false;
                        },
                    }
                },
                _ => {},
            }
            i += 1;
        }
        assert(model.skip(i as int) =~= Seq::<JsonModel>::empty());
        true
    }

    fn load_ortho(&mut self, members: &Vec<(String, JsonValue)>)
        ensures
            final(self).orthographic_contexts() == fold_ortho(
                old(self).orthographic_contexts(),
                members_model(members@),
            ),
            final(self).abbrevs() == old(self).abbrevs(),
            final(self).sentence_starters() == old(self).sentence_starters(),
            final(self).collocations() == old(self).collocations(),
    {
        let ghost model = members_model(members@);
        assert(model.skip(0) =~= model);
        let mut i: usize = 0;
        while i < members.len()
            invariant
                i <= members@.len(),
                model == members_model(members@),
                fold_ortho(self.orthographic_contexts(), model.skip(i as int)) == fold_ortho(
                    old(self).orthographic_contexts(),
                    model,
                ),
                self.abbrevs() == old(self).abbrevs(),
                self.sentence_starters() == old(self).sentence_starters(),
                self.collocations() == old(self).collocations(),
            decreases members@.len() - i,
        {
            assert(model.skip(i as int).drop_first() =~= model.skip(i + 1));
            match &members[i].1 {
                JsonValue::Number(Some(c)) => {
                    self.orthographic_context.insert(members[i].0.clone(), #[verifier::truncate] (*c as u8));
                },
                _ => {},
            }
            i += 1;
        }
        assert(model.skip(i as int) =~= Seq::<(Seq<char>, JsonModel)>::empty());
    }

    /// Loads a model from its JSON form: an object whose `abbrev_types` and
    /// `sentence_starters` are arrays of strings, whose `collocations` is an array of
    /// word pairs and whose `ortho_context` maps words to their context flags.
    pub fn from_json(s: &str) -> (r: Result<TrainingData, &'static str>)
        ensures
            match (r, spec_load(s@)) {
                (Ok(d), Ok(m)) => d.contents() == m,
                (Err(e), Err(msg)) => e@ == msg,
                _ => false,
            },
    {
        match parse_json(s) {
            Some(v) => TrainingData::from_json_value(&v),
            None => Err("no json object found containing training data"),
        }
    }

    /// Loads a model from a parsed JSON value (see [`TrainingData::from_json`]).
    pub fn from_json_value(parsed: &JsonValue) -> (r: Result<TrainingData, &'static str>)
        ensures
            match (r, load_model(parsed@)) {
                (Ok(d), Ok(m)) => d.contents() == m,
                (Err(e), Err(msg)) => e@ == msg,
                _ => false,
            },
    {
        let members = match parsed {
            JsonValue::Object(members) => members,
            _ => return Err("no json object found containing training data"),
        };
        let ghost mm = members_model(members@);
        proof {
            lemma_container_view(*parsed);
        }
        let mut data = TrainingData::new();
        let found = find_member(members, "abbrev_types");
        proof {
            if let Some(v) = found {
                lemma_container_view(*v);
            }
        }
        match found {
            Some(JsonValue::Array(items)) => data.load_abbrevs(items),
            _ => return Err("failed to parse expected path"),
        }
        let found = find_member(members, "sentence_starters");
        proof {
            if let Some(v) = found {
                lemma_container_view(*v);
            }
        }
        match found {
            Some(JsonValue::Array(items)) => data.load_starters(items),
            _ => return Err("failed to parse expected path"),
        }
        let found = find_member(members, "collocations");
        proof {
            if let Some(v) = found {
                lemma_container_view(*v);
            }
        }
        match found {
            Some(JsonValue::Array(items)) => {
                if !data.load_collocations(items) {
                    return Err("failed to parse collocations section");
                }
            },
            _ => return Err("failed to parse expected path"),
        }
        let found = find_member(members, "ortho_context");
        proof {
            if let Some(v) = found {
                lemma_container_view(*v);
            }
        }
        match found {
            Some(JsonValue::Object(ortho)) => data.load_ortho(ortho),
            _ => return Err("failed to parse orthographic context section"),
        }
        Ok(data)
    }
}

impl Default for TrainingData {
    fn default() -> (d: TrainingData)
        ensures
            d.abbrevs() == Set::<Seq<char>>::empty(),
            d.sentence_starters() == Set::<Seq<char>>::empty(),
            d.collocations() == Map::<Seq<char>, Set<Seq<char>>>::empty(),
            d.orthographic_contexts() == Map::<Seq<char>, u8>::empty(),
    {
        TrainingData::new()
    }
}

impl std::str::FromStr for TrainingData {
    type Err = &'static str;

    /// Deserializes JSON and loads the data into a new model (see [`TrainingData::from_json`]).
    fn from_str(s: &str) -> (r: Result<TrainingData, &'static str>)
        ensures
            match (r, spec_load(s@)) {
                (Ok(d), Ok(m)) => d.contents() == m,
                (Err(e), Err(msg)) => e@ == msg,
                _ => false,
            },
    {
        TrainingData::from_json(s)
    }
}

} // verus!
