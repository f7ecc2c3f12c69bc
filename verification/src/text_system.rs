//! The decisions of the Parley-backed text system that are not measurement:
//! which family a font stack resolves to, and which glyph a wrapped line starts
//! at.

use crate::text::{
    chars_of, is_trimmed_piece, lemma_split_on_concat, lemma_trimmed_piece_is_its_own_split,
    lemma_trimmed_pieces_concat, lemma_trimmed_pieces_shape, piece_at, split_on, split_trimmed,
    string_of, trim, trimmed_pieces,
};
use parley::fontique::{Collection, FamilyId, GenericFamily};
use vstd::prelude::*;

verus! {

broadcast use vstd::string::group_string_axioms;

/// Parley's font collection: the registered faces and the host's own.
#[verifier::external_type_specification]
#[verifier::external_body]
pub struct ExCollection(Collection);

/// A generic family, such as `sans-serif`.
#[verifier::external_type_specification]
#[verifier::external_body]
pub struct ExGenericFamily(GenericFamily);

/// A family's identifier within a collection.
#[verifier::external_type_specification]
#[verifier::external_body]
pub struct ExFamilyId(FamilyId);

/// The names a family stack lists, in order: the comma-separated names, each
/// trimmed, with blank ones left out.
pub open spec fn family_names_of(family: Seq<char>) -> Seq<Seq<char>> {
    trimmed_pieces(split_on(family, ','))
}

/// Every name a stack lists is a name: not blank, without whitespace at either
/// end, and without a comma in it.
pub proof fn lemma_family_names_are_trimmed(family: Seq<char>)
    ensures
        forall|i: int|
            0 <= i < family_names_of(family).len() ==> is_trimmed_piece(
                #[trigger] family_names_of(family)[i],
                ',',
            ),
{
    lemma_trimmed_pieces_shape(family, ',');
}

/// A stack lists every name of both of its parts: the names of two stacks
/// joined by a comma are the names of the first followed by the names of the
/// second, none dropped and none added.
pub proof fn lemma_joined_stacks_list_both(a: Seq<char>, b: Seq<char>)
    ensures
        family_names_of(a.push(',') + b) == family_names_of(a) + family_names_of(b),
{
    lemma_split_on_concat(a, b, ',');
    lemma_trimmed_pieces_concat(split_on(a, ','), split_on(b, ','));
}

/// A single name is a stack of that name alone.
pub proof fn lemma_a_name_is_a_stack_of_one(name: Seq<char>)
    requires
        is_trimmed_piece(name, ','),
    ensures
        family_names_of(name) == seq![name],
{
    lemma_trimmed_piece_is_its_own_split(name, ',');
}

/// The generic family a name stands for, as `GenericFamily::parse` reads it.
pub uninterp spec fn generic_family_named(name: Seq<char>) -> Option<GenericFamily>;

/// The CSS generic family names that `GenericFamily::parse` knows.
pub open spec fn generic_family_names() -> Seq<Seq<char>> {
    seq![
        "serif"@,
        "sans-serif"@,
        "monospace"@,
        "cursive"@,
        "fantasy"@,
        "system-ui"@,
        "ui-serif"@,
        "ui-sans-serif"@,
        "ui-monospace"@,
        "ui-rounded"@,
        "emoji"@,
        "math"@,
        "fangsong"@,
    ]
}

/// A character with ASCII capitals made small, and every other character left
/// as it is.
pub open spec fn ascii_lowercase(c: char) -> char {
    if 'A' <= c <= 'Z' {
        ((c as u32) + 32) as char
    } else {
        c
    }
}

/// Whether a name stands for a generic family: trimmed and with its ASCII
/// capitals made small, it is one of the [`generic_family_names`].
pub open spec fn is_generic_family_name(name: Seq<char>) -> bool {
    generic_family_names().contains(trim(name).map_values(|c: char| ascii_lowercase(c)))
}

/// `GenericFamily::parse`: the generic family a name stands for, or `None`.
/// The source trims the name, makes its ASCII capitals small and matches it
/// against the thirteen CSS generic names, so it answers `Some` exactly for
/// those names; which variant it answers with is named, not stated.
#[verifier::external_body]
fn parse_generic_family(name: &str) -> (generic: Option<GenericFamily>)
    ensures
        generic == generic_family_named(name@),
        generic is Some <==> is_generic_family_name(name@),
{
    GenericFamily::parse(name)
}

/// `Collection::generic_families`, taking the first: the family the collection
/// maps `generic` to first. Which that is depends on the collection and the
/// host's fonts, so nothing is stated of it.
#[verifier::external_body]
fn first_generic_family(collection: &mut Collection, generic: GenericFamily) -> Option<FamilyId> {
    collection.generic_families(generic).next()
}

/// `Collection::family_name`: the name of a family in the collection, if it
/// has one. It depends on the collection's contents, so nothing is stated of it.
#[verifier::external_body]
fn family_name(collection: &mut Collection, id: FamilyId) -> Option<String> {
    collection.family_name(id).map(|name| name.to_string())
}

/// `Collection::family_id`, asked whether it finds anything: whether the
/// collection has a family of that name. It depends on the collection's
/// contents, so nothing is stated of it.
#[verifier::external_body]
fn has_family(collection: &mut Collection, name: &str) -> bool {
    collection.family_id(name).is_some()
}

/// The names a family stack lists, in order: the comma-separated names, each
/// trimmed, with blank ones left out.
pub fn family_stack(family: &str) -> (names: Vec<String>)
    ensures
        names@.map_values(|name: String| name@) == family_names_of(family@),
{
    let chars = chars_of(family);
    assert(chars@.subrange(0, chars@.len() as int) =~= family@);
    let pieces = split_trimmed(&chars, 0, ',');
    let ghost expected = pieces@.map_values(|b: (usize, usize)| piece_at(chars@, b));
    let mut names: Vec<String> = Vec::new();
    let mut i: usize = 0;
    while i < pieces.len()
        invariant
            i <= pieces@.len(),
            expected == pieces@.map_values(|b: (usize, usize)| piece_at(chars@, b)),
            forall|k: int|
                0 <= k < pieces@.len() ==> #[trigger] pieces@[k].0 <= pieces@[k].1 <= chars@.len(),
            names@.map_values(|name: String| name@) == expected.take(i as int),
        decreases pieces@.len() - i,
    {
        let (lo, hi) = pieces[i];
        let ghost before = names@.map_values(|name: String| name@);
        names.push(string_of(&chars, lo, hi));
        assert(pieces@[i as int] == (lo, hi));
        assert(names@.map_values(|name: String| name@) =~= before.push(expected[i as int]));
        assert(expected.take(i + 1) =~= expected.take(i as int).push(expected[i as int]));
        i = i + 1;
    }
    assert(expected.take(pieces@.len() as int) =~= expected);
    names
}

/// What one name of a stack resolves to, given what the collection said of it:
/// for a generic name (`generic` is `Some`), the family the collection names
/// first for it, if any; for any other name, the name itself if the collection
/// has a family of that name.
pub fn resolve_name(name: &str, generic: Option<Option<String>>, exists: bool) -> (resolved:
    Option<String>)
    ensures
        generic matches Some(first) ==> resolved == first,
        generic is None && exists ==> (resolved matches Some(r) && r@ == name@),
        generic is None && !exists ==> resolved is None,
{
    match generic {
        Some(first) => first,
        None => if exists {
            Some(name.to_owned())
        } else {
            None
        },
    }
}

/// The first answer that is `Some`, or `None` if there is none.
pub open spec fn first_some(answers: Seq<Option<Seq<char>>>) -> Option<Seq<char>>
    decreases answers.len(),
{
    if answers.len() == 0 {
        None
    } else if answers[0] is Some {
        answers[0]
    } else {
        first_some(answers.drop_first())
    }
}

/// An answer as its characters.
pub open spec fn answer_view(answer: Option<String>) -> Option<Seq<char>> {
    match answer {
        Some(name) => Some(name@),
        None => None,
    }
}

/// Which of a stack's answers the stack resolves to: the first one that names
/// a family, the names being tried in the order the stack lists them.
pub fn first_resolved(answers: &Vec<Option<String>>) -> (resolved: Option<String>)
    ensures
        answer_view(resolved) == first_some(answers@.map_values(|a: Option<String>| answer_view(a))),
{
    let ghost views = answers@.map_values(|a: Option<String>| answer_view(a));
    let mut i: usize = 0;
    assert(views.skip(0) =~= views);
    while i < answers.len()
        invariant
            i <= answers@.len(),
            views == answers@.map_values(|a: Option<String>| answer_view(a)),
            first_some(views) == first_some(views.skip(i as int)),
        decreases answers@.len() - i,
    {
        assert(views.skip(i as int)[0] == views[i as int]);
        assert(views.skip(i as int).drop_first() =~= views.skip(i + 1));
        match &answers[i] {
            Some(name) => {
                return Some(name.clone());
            },
            None => {},
        }
        i = i + 1;
    }
    assert(views.skip(i as int).len() == 0);
    None
}

/// What the collection answers for one name of a stack: for a generic name,
/// the family it maps that generic to first, if any; for any other name, the
/// name itself if the collection has a family of that name.
fn answer_for(collection: &mut Collection, name: &str) -> (answer: Option<String>)
    ensures
        answer matches Some(r) ==> is_generic_family_name(name@) || r@ == name@,
{
    match parse_generic_family(name) {
        Some(generic) => {
            let first = match first_generic_family(collection, generic) {
                Some(id) => family_name(collection, id),
                None => None,
            };
            resolve_name(name, Some(first), false)
        },
        None => {
            let exists = has_family(collection, name);
            resolve_name(name, None, exists)
        },
    }
}

/// The family a stack actually resolves to.
///
/// Walks the comma-separated names in order, as the shaper does, and answers
/// with the first the collection can name a concrete family for: a generic
/// name answers with the first family the collection maps it to, and any other
/// name answers with itself if the collection has it. The walk stops at the
/// first answer, and [`first_resolved`] states which answer wins; what the
/// collection answers for each name depends on the fonts it holds, so the
/// answers themselves are not stated here.
pub fn resolved_family(collection: &mut Collection, family: &str) -> (resolved: Option<String>)
    ensures
        family_names_of(family@).len() == 0 ==> resolved is None,
        resolved matches Some(r) ==> exists|i: int|
            0 <= i < family_names_of(family@).len() && (is_generic_family_name(
                #[trigger] family_names_of(family@)[i],
            ) || r@ == family_names_of(family@)[i]),
{
    let names = family_stack(family);
    let ghost stack = family_names_of(family@);
    let mut answers: Vec<Option<String>> = Vec::new();
    let mut i: usize = 0;
    while i < names.len()
        invariant
            i <= names@.len(),
            stack == family_names_of(family@),
            names@.map_values(|name: String| name@) == stack,
            answers@.len() == i,
            forall|j: int| 0 <= j < i ==> #[trigger] answers@[j] is None,
        decreases names@.len() - i,
    {
        let name = names[i].as_str();
        assert(name@ == stack[i as int]);
        let answer = answer_for(collection, name);
        let found = answer.is_some();
        answers.push(answer);
        if found {
            let ghost views = answers@.map_values(|a: Option<String>| answer_view(a));
            proof {
                lemma_first_some_of_last(views);
            }
            let resolved = first_resolved(&answers);
            assert(answer_view(resolved) == views[i as int]);
            return resolved;
        }
        i = i + 1;
    }
    None
}

/// Answers that are all `None` but the last: the last is the first `Some`.
proof fn lemma_first_some_of_last(answers: Seq<Option<Seq<char>>>)
    requires
        answers.len() > 0,
        forall|j: int| 0 <= j < answers.len() - 1 ==> #[trigger] answers[j] is None,
    ensures
        first_some(answers) == answers[answers.len() - 1],
    decreases answers.len(),
{
    if answers.len() > 1 {
        let rest = answers.drop_first();
        assert forall|j: int| 0 <= j < rest.len() - 1 implies #[trigger] rest[j] is None by {
            assert(rest[j] == answers[j + 1]);
        }
        lemma_first_some_of_last(rest);
        assert(answers[0] is None);
        assert(first_some(answers) == first_some(rest));
        assert(rest[rest.len() - 1] == answers[answers.len() - 1]);
    } else {
        assert(answers.drop_first().len() == 0);
        assert(first_some(answers.drop_first()) is None);
    }
}

/// Whether glyph `glyph` of run `run` carries the text that starts at `byte`.
pub open spec fn glyph_starts_at(runs: Seq<Vec<usize>>, byte: usize, run: int, glyph: int) -> bool {
    &&& 0 <= run < runs.len()
    &&& 0 <= glyph < runs[run]@.len()
    &&& runs[run]@[glyph] == byte
}

/// Whether glyph `(run, glyph)` comes before glyph `(other_run, other_glyph)`.
pub open spec fn glyph_before(run: int, glyph: int, other_run: int, other_glyph: int) -> bool {
    run < other_run || (run == other_run && glyph < other_glyph)
}

/// Returns the wrap boundary whose glyph carries the given byte index: the run
/// and the glyph within it of the first glyph, in order, whose text starts at
/// `byte`. `runs` holds, for each run, the byte index each of its glyphs starts
/// at.
pub fn wrap_boundary_for_byte(runs: &Vec<Vec<usize>>, byte: usize) -> (boundary: Option<
    (usize, usize),
>)
    ensures
        boundary matches Some((run, glyph)) ==> {
            &&& glyph_starts_at(runs@, byte, run as int, glyph as int)
            &&& forall|r: int, g: int|
                glyph_starts_at(runs@, byte, r, g) ==> !glyph_before(r, g, run as int, glyph as int)
        },
        boundary is None ==> forall|r: int, g: int| !glyph_starts_at(runs@, byte, r, g),
{
    let mut run: usize = 0;
    while run < runs.len()
        invariant
            run <= runs@.len(),
            forall|r: int, g: int| 0 <= r < run ==> !glyph_starts_at(runs@, byte, r, g),
        decreases runs@.len() - run,
    {
        let glyphs = &runs[run];
        let mut glyph: usize = 0;
        while glyph < glyphs.len()
            invariant
                run < runs@.len(),
                glyphs@ == runs@[run as int]@,
                glyph <= glyphs@.len(),
                forall|r: int, g: int| 0 <= r < run ==> !glyph_starts_at(runs@, byte, r, g),
                forall|g: int| 0 <= g < glyph ==> !glyph_starts_at(runs@, byte, run as int, g),
            decreases glyphs@.len() - glyph,
        {
            if glyphs[glyph] == byte {
                return Some((run, glyph));
            }
            glyph = glyph + 1;
        }
        run = run + 1;
    }
    None
}

} // verus!
