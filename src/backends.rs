//! Calls into the file-type matcher of `ignore` and the tokenizer of `typos`.

use crate::config::strs_set;
use vstd::prelude::*;

verus! {

#[verifier::external_type_specification]
#[verifier::external_body]
pub struct ExTypesBuilder(ignore::types::TypesBuilder);

#[verifier::external_type_specification]
#[verifier::external_body]
pub struct ExTypes(ignore::types::Types);

#[verifier::external_type_specification]
#[verifier::external_body]
pub struct ExIgnoreError(ignore::Error);

#[verifier::external_type_specification]
#[verifier::external_body]
pub struct ExTokenizer(typos::tokens::Tokenizer);

/// The definitions a builder holds: each file type name with its globs.
pub uninterp spec fn builder_defs(b: ignore::types::TypesBuilder) -> Map<Seq<char>, Set<Seq<char>>>;

/// The definitions a built matcher holds: each file type name with its globs.
pub uninterp spec fn matcher_defs(t: ignore::types::Types) -> Map<Seq<char>, Set<Seq<char>>>;

/// The definitions after `ignore`'s built-in file types are added to `m`.
pub uninterp spec fn with_defaults(m: Map<Seq<char>, Set<Seq<char>>>) -> Map<Seq<char>, Set<Seq<char>>>;

/// Whether `ignore` accepts a string as a file type name (not `all`, and
/// only Unicode letters and digits).
pub uninterp spec fn type_name_accepted(name: Seq<char>) -> bool;

/// Whether every glob of the given definitions compiles into one glob set.
pub uninterp spec fn matcher_builds(defs: Map<Seq<char>, Set<Seq<char>>>) -> bool;

/// Whether a builder, with its definitions and selections, builds.
pub uninterp spec fn builder_builds(b: ignore::types::TypesBuilder) -> bool;

/// The type whose glob a built matcher finds last for a file name, if any.
pub uninterp spec fn matched_type(t: ignore::types::Types, file_name: Seq<char>) -> Option<Seq<char>>;

/// The definitions after `glob` is added under `name`.
pub open spec fn defs_add(m: Map<Seq<char>, Set<Seq<char>>>, name: Seq<char>, glob: Seq<char>) -> Map<
    Seq<char>,
    Set<Seq<char>>,
> {
    m.insert(
        name,
        if m.contains_key(name) {
            m[name]
        } else {
            Set::empty()
        }.insert(glob),
    )
}

/// Relies on ignore::types::TypesBuilder::new: the builder starts with no
/// definitions.
#[verifier::external_body]
pub(crate) fn types_builder_new() -> (r: ignore::types::TypesBuilder)
    ensures
        builder_defs(r).dom() == Set::<Seq<char>>::empty(),
{
    ignore::types::TypesBuilder::new()
}

/// Relies on ignore::types::TypesBuilder::add_defaults: it adds the fixed
/// table of built-in definitions.
#[verifier::external_body]
pub(crate) fn types_builder_add_defaults(b: &mut ignore::types::TypesBuilder)
    ensures
        builder_defs(*final(b)) == with_defaults(builder_defs(*old(b))),
{
    b.add_defaults();
}

/// Relies on ignore::types::TypesBuilder::definitions: one entry per defined
/// type, of which the name is kept.
#[verifier::external_body]
pub(crate) fn types_builder_names(b: &ignore::types::TypesBuilder) -> (r: Vec<String>)
    ensures
        strs_set(r@) == builder_defs(*b).dom(),
{
    b.definitions().iter().map(|d| d.name().to_string()).collect()
}

/// Relies on ignore::types::TypesBuilder::add: a glob is added under `name`,
/// or, for a name it refuses, nothing changes and an error comes back.
#[verifier::external_body]
pub(crate) fn types_builder_add(b: &mut ignore::types::TypesBuilder, name: &str, glob: &str) -> (r: Result<
    (),
    ignore::Error,
>)
    ensures
        r is Ok == type_name_accepted(name@),
        r is Ok ==> builder_defs(*final(b)) == defs_add(builder_defs(*old(b)), name@, glob@),
        r is Err ==> builder_defs(*final(b)) == builder_defs(*old(b)),
{
    b.add(name, glob)
}

/// Relies on ignore::types::TypesBuilder::select: selecting `all` selects
/// every defined type and leaves the definitions alone, so a build then
/// compiles every glob of the definitions.
#[verifier::external_body]
pub(crate) fn types_builder_select_all(b: &mut ignore::types::TypesBuilder)
    ensures
        builder_defs(*final(b)) == builder_defs(*old(b)),
        builder_builds(*final(b)) == matcher_builds(builder_defs(*final(b))),
{
    b.select("all");
}

/// Relies on ignore::types::TypesBuilder::build: compiles the globs of the
/// selected types; the matcher keeps the definitions.
#[verifier::external_body]
pub(crate) fn types_builder_build(b: &ignore::types::TypesBuilder) -> (r: Result<
    ignore::types::Types,
    ignore::Error,
>)
    ensures
        r is Ok == builder_builds(*b),
        r matches Ok(t) ==> matcher_defs(t) == builder_defs(*b),
{
    b.build()
}

/// Relies on ignore::types::Types::matched: the name of the file type whose
/// glob matches the file name last, if any; it is one of the definitions.
#[verifier::external_body]
pub(crate) fn types_matched_name(t: &ignore::types::Types, file_name: &String) -> (r: Option<String>)
    ensures
        match r {
            Some(n) => matched_type(*t, file_name@) == Some(n@) && matcher_defs(*t).contains_key(n@),
            None => matched_type(*t, file_name@) is None,
        },
{
    let p = std::path::Path::new(file_name.as_str());
    t.matched(p, false).inner().and_then(|g| g.file_type_def()).map(|d| d.name().to_string())
}

/// Relies on ignore::types::Types::definitions: each definition's name and
/// globs.
#[verifier::external_body]
pub(crate) fn types_definitions(t: &ignore::types::Types) -> (r: Vec<(String, Vec<String>)>)
    ensures
        forall|i: int|
            0 <= i < r@.len() ==> matcher_defs(*t).contains_key(#[trigger] r@[i].0@) && strs_set(r@[i].1@)
                == matcher_defs(*t)[r@[i].0@],
        forall|k: Seq<char>| #[trigger]
            matcher_defs(*t).contains_key(k) ==> exists|i: int| 0 <= i < r@.len() && r@[i].0@ == k,
{
    t.definitions().iter().map(|d| (d.name().to_string(), d.globs().to_vec())).collect()
}

/// Relies on typos::tokens::TokenizerBuilder (new, unicode, build): a
/// tokenizer that accepts Unicode identifiers or not.
#[verifier::external_body]
pub(crate) fn build_tokenizer(unicode: bool) -> (r: typos::tokens::Tokenizer) {
    typos::tokens::TokenizerBuilder::new().unicode(unicode).build()
}

} // verus!
