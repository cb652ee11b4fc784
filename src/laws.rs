//! Properties of configuration resolution as a whole.

use crate::config::{
    dumped, lemma_merge_engine_idempotent, merge_config, merge_engine, merge_opt, merge_tokenizer,
    ConfigView, EngineConfig, EngineView, Locale, TokenizerConfig,
};
use crate::policy::{dict_of, empty_config, resolve, unicode_of, ConfigEngine, DirConfig};
use vstd::prelude::*;

verus! {

/// Every field that `o` sets has the same value in `e`; the dictionary
/// entries of `o` are among those of `e`.
pub open spec fn dominated(e: EngineView, o: EngineView) -> bool {
    &&& (o.binary is Some ==> e.binary == o.binary)
    &&& (o.check_filename is Some ==> e.check_filename == o.check_filename)
    &&& (o.check_file is Some ==> e.check_file == o.check_file)
    &&& match o.tokenizer {
        Some(t) => match e.tokenizer {
            Some(x) => {
                &&& (t.unicode is Some ==> x.unicode == t.unicode)
                &&& (t.ignore_hex is Some ==> x.ignore_hex == t.ignore_hex)
                &&& (t.identifier_leading_digits is Some ==> x.identifier_leading_digits
                    == t.identifier_leading_digits)
            },
            None => false,
        },
        None => true,
    }
    &&& match o.dict {
        Some(d) => match e.dict {
            Some(x) => {
                &&& (d.locale is Some ==> x.locale == d.locale)
                &&& forall|k: Seq<char>| #[trigger]
                    d.identifiers.contains_key(k) ==> x.identifiers.contains_key(k)
                        && x.identifiers[k] == d.identifiers[k]
                &&& forall|k: Seq<char>| #[trigger]
                    d.words.contains_key(k) ==> x.words.contains_key(k) && x.words[k] == d.words[k]
            },
            None => false,
        },
        None => true,
    }
}

pub proof fn lemma_merge_dominated(x: EngineView, o: EngineView)
    ensures
        dominated(merge_engine(x, o), o),
{
}

/// After resolution, every field set in the override section has its
/// value both in the default section and in every type section.
pub proof fn lemma_overrides_take_precedence(
    isolated: bool,
    project: Option<ConfigView>,
    overrides: Option<ConfigView>,
)
    ensures
        dominated(
            resolve(isolated, project, overrides).default,
            resolve(isolated, project, overrides).overrides,
        ),
        forall|k: Seq<char>| #[trigger]
            resolve(isolated, project, overrides).types.contains_key(k) ==> dominated(
                resolve(isolated, project, overrides).types[k].engine,
                resolve(isolated, project, overrides).overrides,
            ),
{
    let c = resolve(isolated, project, overrides);
    lemma_merge_dominated(c.default, c.overrides);
    assert forall|k: Seq<char>| #[trigger] c.types.contains_key(k) implies dominated(
        c.types[k].engine,
        c.overrides,
    ) by {
        let l = crate::policy::layered(isolated, project, overrides);
        lemma_merge_dominated(merge_engine(l.default, l.types[k].engine), l.overrides);
    }
}

/// With isolation the project file is never consulted: the result is
/// what the built-in defaults and the overrides alone give.
pub proof fn lemma_isolation(project: Option<ConfigView>, overrides: Option<ConfigView>)
    ensures
        resolve(true, project, overrides) == resolve(false, None, overrides),
{
}

// ---------------------------------------------------------------------------
// Round trip of a dumped configuration
// ---------------------------------------------------------------------------

pub open spec fn tokenizer_of(e: EngineView) -> TokenizerConfig {
    match e.tokenizer {
        Some(t) => t,
        None => TokenizerConfig { unicode: None, ignore_hex: None, identifier_leading_digits: None },
    }
}

/// What a file's policy is made of, from an engine configuration: its
/// flags, the Unicode switch its tokenizer is built with, and the
/// dictionary's locale and extensions.
pub open spec fn policy_fields(e: EngineView) -> (bool, bool, bool, bool, Locale, Map<Seq<char>, Seq<char>>, Map<Seq<char>, Seq<char>>) {
    (
        e.binary.unwrap_or(false),
        e.check_filename.unwrap_or(true),
        e.check_file.unwrap_or(true),
        unicode_of(e),
        dict_of(e).locale.unwrap_or(Locale::En),
        dict_of(e).identifiers,
        dict_of(e).words,
    )
}

pub proof fn lemma_parts_of_merge(a: EngineView, b: EngineView)
    ensures
        tokenizer_of(merge_engine(a, b)) == merge_tokenizer(tokenizer_of(a), tokenizer_of(b)),
        dict_of(merge_engine(a, b)).locale == merge_opt(dict_of(a).locale, dict_of(b).locale),
        dict_of(merge_engine(a, b)).identifiers == dict_of(a).identifiers.union_prefer_right(dict_of(b).identifiers),
        dict_of(merge_engine(a, b)).words == dict_of(a).words.union_prefer_right(dict_of(b).words),
{
    let m = merge_engine(a, b);
    assert(dict_of(m).identifiers =~= dict_of(a).identifiers.union_prefer_right(dict_of(b).identifiers));
    assert(dict_of(m).words =~= dict_of(a).words.union_prefer_right(dict_of(b).words));
}

/// The three layers under a type's effective engine, read back over the
/// built-in defaults, give the same policy.
pub proof fn lemma_reload_engine(base: EngineView, ld: EngineView, t: EngineView, o: EngineView)
    requires
        base == EngineConfig::from_defaults_view(),
    ensures
        policy_fields(merge_engine(
            merge_engine(merge_engine(base, merge_engine(ld, o)), merge_engine(merge_engine(ld, t), o)),
            o,
        )) == policy_fields(merge_engine(merge_engine(ld, t), o)),
        policy_fields(merge_engine(merge_engine(base, merge_engine(ld, o)), o)) == policy_fields(
            merge_engine(ld, o),
        ),
{
    let x = merge_engine(ld, o);
    let y = merge_engine(merge_engine(ld, t), o);
    let bx = merge_engine(base, x);
    let bxy = merge_engine(bx, y);
    let lt = merge_engine(ld, t);
    lemma_parts_of_merge(ld, o);
    lemma_parts_of_merge(ld, t);
    lemma_parts_of_merge(lt, o);
    lemma_parts_of_merge(base, x);
    lemma_parts_of_merge(bx, y);
    lemma_parts_of_merge(bxy, o);
    lemma_parts_of_merge(bx, o);
    let (bi, li, ti, oi) = (dict_of(base).identifiers, dict_of(ld).identifiers, dict_of(t).identifiers, dict_of(o).identifiers);
    let (bw, lw, tw, ow) = (dict_of(base).words, dict_of(ld).words, dict_of(t).words, dict_of(o).words);
    assert(bi == Map::<Seq<char>, Seq<char>>::empty());
    assert(bw == Map::<Seq<char>, Seq<char>>::empty());
    assert(dict_of(merge_engine(bxy, o)).identifiers =~= dict_of(y).identifiers);
    assert(dict_of(merge_engine(bxy, o)).words =~= dict_of(y).words);
    assert(dict_of(merge_engine(bx, o)).identifiers =~= dict_of(x).identifiers);
    assert(dict_of(merge_engine(bx, o)).words =~= dict_of(x).words);
}

/// The fully defaulted dump of an effective configuration, loaded again as
/// the overrides of an isolated run, gives every file the policy it had:
/// the same type sections, and for the default and each type the same
/// flags, tokenizer and dictionary.
pub proof fn lemma_dump_round_trip(isolated: bool, project: Option<ConfigView>, overrides: Option<ConfigView>)
    ensures
        ({
            let c = resolve(isolated, project, overrides);
            let again = resolve(true, None, Some(merge_config(empty_config(), dumped(c))));
            &&& again.types.dom() == c.types.dom()
            &&& policy_fields(again.default) == policy_fields(c.default)
            &&& forall|k: Seq<char>| #[trigger]
                c.types.contains_key(k) ==> policy_fields(again.types[k].engine) == policy_fields(
                    c.types[k].engine,
                )
        }),
{
    let c = resolve(isolated, project, overrides);
    let l = crate::policy::layered(isolated, project, overrides);
    let d = dumped(c);
    let r = merge_config(empty_config(), d);
    let l2 = merge_config(empty_config(), r);
    let again = resolve(true, None, Some(r));
    let base = EngineConfig::from_defaults_view();
    let e0 = crate::config::empty_engine();
    // merging into nothing changes nothing the policy reads
    assert(merge_engine(e0, l.overrides) == l.overrides) by {
        lemma_merge_engine_idempotent(e0, l.overrides);
        if let Some(dd) = l.overrides.dict {
            assert(Map::<Seq<char>, Seq<char>>::empty().union_prefer_right(dd.identifiers) =~= dd.identifiers);
            assert(Map::<Seq<char>, Seq<char>>::empty().union_prefer_right(dd.words) =~= dd.words);
        }
    }
    lemma_empty_merge(d.default);
    lemma_empty_merge(r.default);
    lemma_empty_merge(merge_engine(e0, l.overrides));
    assert(d.overrides == l.overrides);
    assert(r.overrides == l.overrides);
    assert(l2.overrides == l.overrides);
    assert(l2.default == d.default);
    lemma_reload_engine(base, l.default, crate::config::empty_engine(), l.overrides);
    assert(merge_engine(l.default, e0) == l.default);
    assert(again.types.dom() =~= c.types.dom());
    assert forall|k: Seq<char>| #[trigger] c.types.contains_key(k) implies policy_fields(again.types[k].engine)
        == policy_fields(c.types[k].engine) by {
        let t = l.types[k].engine;
        assert(d.types[k] == c.types[k]);
        assert(r.types[k] == c.types[k]);
        assert(l2.types[k] == c.types[k]);
        lemma_reload_engine(base, l.default, t, l.overrides);
    }
}

pub proof fn lemma_empty_merge(e: EngineView)
    ensures
        merge_engine(crate::config::empty_engine(), e) == e,
        merge_engine(e, crate::config::empty_engine()) == e,
{
    if let Some(dd) = e.dict {
        assert(Map::<Seq<char>, Seq<char>>::empty().union_prefer_right(dd.identifiers) =~= dd.identifiers);
        assert(Map::<Seq<char>, Seq<char>>::empty().union_prefer_right(dd.words) =~= dd.words);
    }
}

/// In a directory resolved from `c`, a file whose matched type is `t` gets
/// that type's `binary` setting, and a file that matches no type gets the
/// default section's.
pub proof fn lemma_type_fallback(engine: &ConfigEngine, d: DirConfig, c: ConfigView, t: Seq<char>)
    requires
        engine.dir_resolved(d, c),
        c.types.contains_key(t),
    ensures
        d.file_config_spec(Some(t)).binary == c.types[t].engine.binary.unwrap_or(false),
        d.file_config_spec(None).binary == c.default.binary.unwrap_or(false),
{
}

} // verus!
