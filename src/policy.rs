use crate::backends::{
    build_tokenizer, builder_defs, defs_add, matched_type, matcher_builds, matcher_defs,
    type_name_accepted, types_builder_add, types_builder_add_defaults, types_builder_build,
    types_builder_names, types_builder_new, types_builder_select_all, types_definitions,
    types_matched_name, with_defaults,
};
use crate::config::{
    copy_strs, has_name, lemma_types_map_at, lemma_types_map_push, lemma_types_map_take,
    merge_config, merge_engine, pairs_view, strs_view, types_map, unique_names, Config,
    ConfigView, EngineConfig, EngineView, Locale, TypeEngineConfig, TypeView,
};
use crate::intern::Intern;
use vstd::prelude::*;

verus! {

// ---------------------------------------------------------------------------
// Interning store
// ---------------------------------------------------------------------------

/// Owned copies of dictionary text, addressed by symbol for as long as the
/// store lives.
pub struct ConfigStorage {
    texts: Vec<String>,
}

impl ConfigStorage {
    pub closed spec fn view(&self) -> Seq<Seq<char>> {
        strs_view(self.texts@)
    }

    pub fn new() -> (r: Self)
        ensures
            r@ == Seq::<Seq<char>>::empty(),
    {
        let r = ConfigStorage { texts: Vec::new() };
        assert(strs_view(r.texts@) =~= Seq::empty());
        r
    }

    /// Stores a copy of `text`; the returned symbol reads it back.
    pub fn get(&mut self, text: &String) -> (symbol: usize)
        ensures
            symbol == old(self)@.len(),
            final(self)@ == old(self)@.push(text@),
    {
        let symbol = self.texts.len();
        self.texts.push(text.clone());
        assert(strs_view(self.texts@) =~= strs_view(old(self).texts@).push(text@));
        symbol
    }

    pub fn text(&self, symbol: usize) -> (r: &String)
        requires
            symbol < self@.len(),
        ensures
            r@ == self@[symbol as int],
    {
        &self.texts[symbol]
    }

    pub fn len(&self) -> (r: usize)
        ensures
            r == self@.len(),
    {
        self.texts.len()
    }
}

impl Default for ConfigStorage {
    fn default() -> (r: Self)
        ensures
            r@ == Seq::<Seq<char>>::empty(),
    {
        Self::new()
    }
}

// ---------------------------------------------------------------------------
// Resolved entities
// ---------------------------------------------------------------------------

/// The user's dictionary extensions for one effective configuration, layered
/// over the built-in dictionary of `locale`. Text is held in the engine's
/// storage and named here by symbol.
pub struct Dictionary {
    pub locale: Locale,
    pub identifiers: Vec<(usize, usize)>,
    pub words: Vec<(usize, usize)>,
}

/// The entries of a symbol list, read through the storage.
pub open spec fn entries_text(s: Seq<(usize, usize)>, texts: Seq<Seq<char>>) -> Seq<(Seq<char>, Seq<char>)> {
    s.map_values(|p: (usize, usize)| (texts[p.0 as int], texts[p.1 as int]))
}

pub open spec fn symbols_below(s: Seq<(usize, usize)>, n: nat) -> bool {
    forall|i: int| 0 <= i < s.len() ==> (#[trigger] s[i]).0 < n && s[i].1 < n
}

impl Dictionary {
    pub open spec fn symbols_below(&self, n: nat) -> bool {
        symbols_below(self.identifiers@, n) && symbols_below(self.words@, n)
    }
}

/// Resolved flags and resource symbols of one file class.
#[derive(Clone, Copy, Debug, PartialEq, Eq, Structural)]
pub struct FileConfig {
    pub tokenizer: usize,
    pub dict: usize,
    pub check_filenames: bool,
    pub check_files: bool,
    pub binary: bool,
}

/// The flags that an effective engine configuration resolves to.
pub open spec fn flags_match(f: FileConfig, e: EngineView) -> bool {
    &&& f.binary == e.binary.unwrap_or(false)
    &&& f.check_filenames == e.check_filename.unwrap_or(true)
    &&& f.check_files == e.check_file.unwrap_or(true)
}

/// A tokenizer of `typos` with the Unicode switch it was built with.
pub struct BuiltTokenizer {
    pub unicode: bool,
    pub inner: typos::tokens::Tokenizer,
}

/// The Unicode switch that an engine configuration resolves to.
pub open spec fn unicode_of(e: EngineView) -> bool {
    match e.tokenizer {
        Some(t) => t.unicode.unwrap_or(true),
        None => true,
    }
}

/// The ready-to-use view for one file.
pub struct Policy<'a> {
    pub check_filenames: bool,
    pub check_files: bool,
    pub binary: bool,
    pub tokenizer: &'a BuiltTokenizer,
    pub dict: &'a Dictionary,
}

impl<'a> Policy<'a> {
    /// Built-in flags over the given tokenizer and dictionary.
    pub fn new(tokenizer: &'a BuiltTokenizer, dict: &'a Dictionary) -> (r: Self)
        ensures
            r.check_filenames,
            r.check_files,
            !r.binary,
            r.tokenizer == tokenizer,
            r.dict == dict,
    {
        Policy { check_filenames: true, check_files: true, binary: false, tokenizer, dict }
    }
}

#[derive(Debug)]
pub enum ConfigError {
    /// A type section with no `extend_glob` names no built-in type.
    UnknownType { name: String },
    /// A type section adds globs under a name that `ignore` refuses as a
    /// file type name; `glob` is the first glob it was given.
    InvalidGlob { name: String, glob: String },
    /// A glob of the file type definitions does not compile.
    Matcher,
}

/// A type section that the matcher could not resolve: it adds no glob and its
/// name is not among `known`.
pub open spec fn unresolvable(t: (String, TypeEngineConfig), known: Seq<Seq<char>>) -> bool {
    t.1.extend_glob@.len() == 0 && !known.contains(t.0@)
}

/// Rejects type sections that neither extend a glob nor name a known type.
pub fn check_type_names(types: &Vec<(String, TypeEngineConfig)>, known: &Vec<String>) -> (r: Result<
    (),
    ConfigError,
>)
    ensures
        r is Ok <==> forall|i: int| 0 <= i < types@.len() ==> !unresolvable(#[trigger] types@[i], strs_view(known@)),
        match r {
            Err(ConfigError::UnknownType { name }) => exists|i: int|
                0 <= i < types@.len() && unresolvable(#[trigger] types@[i], strs_view(known@)) && types@[i].0@ == name@,
            Err(_) => false,
            Ok(_) => true,
        },
{
    let mut i: usize = 0;
    while i < types.len()
        invariant
            i <= types@.len(),
            forall|j: int| 0 <= j < i ==> !unresolvable(#[trigger] types@[j], strs_view(known@)),
        decreases types@.len() - i,
    {
        if types[i].1.extend_glob.len() == 0 {
            let mut found = false;
            let mut j: usize = 0;
            while j < known.len()
                invariant
                    i < types@.len(),
                    j <= known@.len(),
                    found <==> exists|t: int| 0 <= t < j && known@[t]@ == types@[i as int].0@,
                decreases known@.len() - j,
            {
                if known[j] == types[i].0 {
                    found = true;
                }
                j = j + 1;
            }
            proof {
                if found {
                    let t = choose|t: int| 0 <= t < j && known@[t]@ == types@[i as int].0@;
                    assert(strs_view(known@)[t] == types@[i as int].0@);
                }
                if strs_view(known@).contains(types@[i as int].0@) {
                    let t = choose|t: int| 0 <= t < known@.len() && strs_view(known@)[t] == types@[i as int].0@;
                    assert(known@[t]@ == types@[i as int].0@);
                }
            }
            if !found {
                return Err(ConfigError::UnknownType { name: types[i].0.clone() });
            }
        }
        i = i + 1;
    }
    Ok(())
}

// ---------------------------------------------------------------------------
// Resolution
// ---------------------------------------------------------------------------

pub open spec fn empty_config() -> ConfigView {
    ConfigView {
        files: crate::config::WalkView {
            ignore_hidden: None,
            ignore_files: None,
            ignore_dot: None,
            ignore_vcs: None,
            ignore_global: None,
            ignore_parent: None,
            exclude: Set::empty(),
        },
        default: crate::config::empty_engine(),
        types: Map::empty(),
        overrides: crate::config::empty_engine(),
    }
}

pub open spec fn opt_view(c: Option<&Config>) -> Option<ConfigView> {
    match c {
        Some(c) => Some(c@),
        None => None,
    }
}

/// The layers before the per-type and default engines are finalised:
/// built-in nothing, then the project's file unless isolated, then the
/// run's overrides.
pub open spec fn layered(isolated: bool, project: Option<ConfigView>, overrides: Option<ConfigView>) -> ConfigView {
    let c1 = match project {
        Some(p) if !isolated => merge_config(empty_config(), p),
        _ => empty_config(),
    };
    match overrides {
        Some(o) => merge_config(c1, o),
        None => c1,
    }
}

/// A type's effective engine: the default section, then the type's own
/// settings, then the override section.
pub open spec fn type_engine(c: ConfigView, t: TypeView) -> TypeView {
    TypeView { globs: t.globs, engine: merge_engine(merge_engine(c.default, t.engine), c.overrides) }
}

/// The effective configuration of a directory.
pub open spec fn resolve(isolated: bool, project: Option<ConfigView>, overrides: Option<ConfigView>) -> ConfigView {
    let c = layered(isolated, project, overrides);
    ConfigView {
        files: c.files,
        default: merge_engine(c.default, c.overrides),
        types: c.types.map_values(|t: TypeView| type_engine(c, t)),
        overrides: c.overrides,
    }
}

/// Builds the effective type sections of `c`.
fn resolve_types(c: &Config) -> (r: Vec<(String, TypeEngineConfig)>)
    requires
        c.wf(),
    ensures
        unique_names(r@),
        types_map(r@) == c@.types.map_values(|t: TypeView| type_engine(c@, t)),
{
    let mut r: Vec<(String, TypeEngineConfig)> = Vec::new();
    let mut i: usize = 0;
    assert(types_map(r@) =~= Map::empty());
    assert(types_map(c.type_@.take(0)) =~= Map::empty());
    while i < c.type_.len()
        invariant
            c.wf(),
            i <= c.type_@.len(),
            unique_names(r@),
            r@.len() == i,
            forall|j: int| 0 <= j < i ==> r@[j].0@ == c.type_@[j].0@,
            types_map(r@) == types_map(c.type_@.take(i as int)).map_values(|t: TypeView| type_engine(c@, t)),
        decreases c.type_@.len() - i,
    {
        let mut engine = c.default.copy();
        engine.update(&c.type_[i].1.engine);
        engine.update(&c.overrides);
        let entry = (c.type_[i].0.clone(), TypeEngineConfig { extend_glob: copy_strs(&c.type_[i].1.extend_glob), engine });
        proof {
            let k = c.type_@[i as int].0@;
            lemma_types_map_take(c.type_@, i as int);
            if has_name(r@, k) {
                let j = choose|j: int| 0 <= j < r@.len() && r@[j].0@ == k;
                assert(c.type_@[j].0@ == k);
            }
            lemma_types_map_push(r@, entry);
            assert(types_map(c.type_@.take(i as int + 1)).map_values(|t: TypeView| type_engine(c@, t))
                =~= types_map(c.type_@.take(i as int)).map_values(|t: TypeView| type_engine(c@, t)).insert(
                k,
                type_engine(c@, c.type_@[i as int].1@),
            ));
        }
        r.push(entry);
        i = i + 1;
    }
    assert(c.type_@.take(i as int) =~= c.type_@);
    r
}

// ---------------------------------------------------------------------------
// Directory state
// ---------------------------------------------------------------------------

/// `a` names `p` or one of its ancestors.
pub open spec fn is_ancestor(a: Seq<Seq<char>>, p: Seq<Seq<char>>) -> bool {
    a.len() <= p.len() && a == p.take(a.len() as int)
}

pub proof fn lemma_first_named<T>(s: Seq<(String, T)>, n: Seq<char>)
    requires
        has_name(s, n),
    ensures
        exists|i: int| first_named(s, n, i),
    decreases s.len(),
{
    let t = s.drop_last();
    assert(forall|j: int| 0 <= j < t.len() ==> t[j] == s[j]);
    if has_name(t, n) {
        lemma_first_named(t, n);
        let i = choose|i: int| first_named(t, n, i);
        assert(first_named(s, n, i));
    } else {
        let k = choose|k: int| 0 <= k < s.len() && s[k].0@ == n;
        if k < t.len() {
            assert(t[k].0@ == n);
        }
        assert forall|j: int| 0 <= j < s.len() - 1 implies s[j].0@ != n by {
            if s[j].0@ == n {
                assert(t[j].0@ == n);
            }
        }
        assert(first_named(s, n, s.len() - 1));
    }
}

/// The resolved state of one initialised directory.
pub struct DirConfig {
    pub walk: usize,
    pub default: FileConfig,
    pub types: Vec<(String, FileConfig)>,
    pub type_matcher: ignore::types::Types,
}

/// The first position at which `name` stands in `s`.
pub open spec fn first_named<T>(s: Seq<(String, T)>, name: Seq<char>, i: int) -> bool {
    0 <= i < s.len() && s[i].0@ == name && forall|j: int| 0 <= j < i ==> s[j].0@ != name
}

impl DirConfig {
    /// The file class of a type name: the named type's, else the default.
    pub open spec fn file_config_spec(&self, name: Option<Seq<char>>) -> FileConfig {
        match name {
            Some(n) => if has_name(self.types@, n) {
                self.types@[choose|i: int| first_named(self.types@, n, i)].1
            } else {
                self.default
            },
            None => self.default,
        }
    }

    pub fn file_config_for(&self, name: Option<&String>) -> (r: FileConfig)
        ensures
            r == self.file_config_spec(match name {
                Some(n) => Some(n@),
                None => None,
            }),
    {
        match name {
            Some(n) => match crate::config::find_type(&self.types, n) {
                Some(i) => {
                    proof {
                        assert(first_named(self.types@, n@, i as int));
                        let j = choose|j: int| first_named(self.types@, n@, j);
                        assert(j == i);
                    }
                    self.types[i].1
                },
                None => self.default,
            },
            None => self.default,
        }
    }

}

pub open spec fn file_config_ok(f: FileConfig, n_tokenizers: nat, n_dicts: nat) -> bool {
    f.tokenizer < n_tokenizers && f.dict < n_dicts
}

pub open spec fn dir_ok(d: DirConfig, n_walks: nat, n_tokenizers: nat, n_dicts: nat) -> bool {
    &&& d.walk < n_walks
    &&& file_config_ok(d.default, n_tokenizers, n_dicts)
    &&& forall|i: int| 0 <= i < d.types@.len() ==> file_config_ok(#[trigger] d.types@[i].1, n_tokenizers, n_dicts)
}

/// Every directory's symbols are in range, and no directory is cached twice.
pub open spec fn dirs_ok(dirs: Seq<(Seq<Seq<char>>, DirConfig)>, n_walks: nat, n_tokenizers: nat, n_dicts: nat) -> bool {
    &&& forall|i: int| 0 <= i < dirs.len() ==> dir_ok(#[trigger] dirs[i].1, n_walks, n_tokenizers, n_dicts)
    &&& forall|i: int, j: int| 0 <= i < dirs.len() && 0 <= j < dirs.len() && dirs[i].0 == dirs[j].0 ==> i == j
}

pub open spec fn dicts_ok(dicts: Seq<Dictionary>, n_texts: nat) -> bool {
    forall|i: int| 0 <= i < dicts.len() ==> (#[trigger] dicts[i]).symbols_below(n_texts)
}

/// The dictionary extensions of `d`, read through `texts`, are those of the
/// engine configuration `e`.
pub open spec fn dict_matches(d: Dictionary, texts: Seq<Seq<char>>, e: EngineView) -> bool {
    &&& d.locale == dict_of(e).locale.unwrap_or(Locale::En)
    &&& crate::config::pairs_map(entries_text(d.identifiers@, texts)) == dict_of(e).identifiers
    &&& crate::config::pairs_map(entries_text(d.words@, texts)) == dict_of(e).words
}

pub open spec fn extends<T>(a: Seq<T>, b: Seq<T>) -> bool {
    a.len() <= b.len() && forall|i: int| 0 <= i < a.len() ==> b[i] == a[i]
}

pub proof fn lemma_entries_stable(s: Seq<(usize, usize)>, a: Seq<Seq<char>>, b: Seq<Seq<char>>)
    requires
        symbols_below(s, a.len()),
        extends(a, b),
    ensures
        entries_text(s, a) == entries_text(s, b),
{
    assert forall|i: int| 0 <= i < s.len() implies entries_text(s, a)[i] == entries_text(s, b)[i] by {
        assert(s[i].0 < a.len() && s[i].1 < a.len());
    }
    assert(entries_text(s, a) =~= entries_text(s, b));
}

pub proof fn lemma_pairs_map_last(s: Seq<(Seq<char>, Seq<char>)>, i: int)
    requires
        0 <= i < s.len(),
        forall|j: int| i < j < s.len() ==> s[j].0 != s[i].0,
    ensures
        crate::config::pairs_map(s).contains_key(s[i].0),
        crate::config::pairs_map(s)[s[i].0] == s[i].1,
    decreases s.len(),
{
    if i < s.len() - 1 {
        let t = s.drop_last();
        assert(forall|j: int| i < j < t.len() ==> t[j] == s[j]);
        lemma_pairs_map_last(t, i);
    }
}

pub proof fn lemma_pairs_map_absent(s: Seq<(Seq<char>, Seq<char>)>, k: Seq<char>)
    requires
        forall|j: int| 0 <= j < s.len() ==> s[j].0 != k,
    ensures
        !crate::config::pairs_map(s).contains_key(k),
    decreases s.len(),
{
    if s.len() > 0 {
        let t = s.drop_last();
        assert(forall|j: int| 0 <= j < t.len() ==> t[j] == s[j]);
        lemma_pairs_map_absent(t, k);
    }
}

/// Stores both sides of each pair and returns their symbols.
fn intern_pairs(storage: &mut ConfigStorage, pairs: &Vec<(String, String)>) -> (r: Vec<(usize, usize)>)
    ensures
        extends(old(storage)@, final(storage)@),
        symbols_below(r@, final(storage)@.len()),
        entries_text(r@, final(storage)@) == pairs_view(pairs@),
{
    let mut r: Vec<(usize, usize)> = Vec::new();
    let mut i: usize = 0;
    while i < pairs.len()
        invariant
            i <= pairs@.len(),
            r@.len() == i,
            extends(old(storage)@, storage@),
            symbols_below(r@, storage@.len()),
            forall|j: int|
                0 <= j < i ==> storage@[(#[trigger] r@[j]).0 as int] == pairs@[j].0@ && storage@[r@[j].1 as int]
                    == pairs@[j].1@,
        decreases pairs@.len() - i,
    {
        let k = storage.get(&pairs[i].0);
        let v = storage.get(&pairs[i].1);
        r.push((k, v));
        i = i + 1;
    }
    assert(entries_text(r@, storage@) =~= pairs_view(pairs@));
    r
}

pub proof fn lemma_dirs_ok_grow(
    dirs: Seq<(Seq<Seq<char>>, DirConfig)>,
    w1: nat,
    t1: nat,
    d1: nat,
    w2: nat,
    t2: nat,
    d2: nat,
)
    requires
        dirs_ok(dirs, w1, t1, d1),
        w1 <= w2,
        t1 <= t2,
        d1 <= d2,
    ensures
        dirs_ok(dirs, w2, t2, d2),
{
    assert forall|i: int| 0 <= i < dirs.len() implies dir_ok(#[trigger] dirs[i].1, w2, t2, d2) by {
        let d = dirs[i].1;
        assert(dir_ok(d, w1, t1, d1));
        assert forall|j: int| 0 <= j < d.types@.len() implies file_config_ok(#[trigger] d.types@[j].1, t2, d2) by {
            assert(file_config_ok(d.types@[j].1, t1, d1));
        }
    }
}

/// The definitions after all of `globs` are added under `name`; nothing
/// changes for no globs.
pub open spec fn defs_add_all(m: Map<Seq<char>, Set<Seq<char>>>, name: Seq<char>, globs: Set<Seq<char>>) -> Map<
    Seq<char>,
    Set<Seq<char>>,
> {
    if globs == Set::<Seq<char>>::empty() {
        m
    } else {
        m.insert(
            name,
            if m.contains_key(name) {
                m[name]
            } else {
                Set::empty()
            }.union(globs),
        )
    }
}

pub proof fn lemma_strs_set_push(s: Seq<String>, i: int)
    requires
        0 <= i < s.len(),
    ensures
        crate::config::strs_set(s.take(i + 1)) == crate::config::strs_set(s.take(i)).insert(s[i]@),
        crate::config::strs_set(s.take(0)) == Set::<Seq<char>>::empty(),
        s.len() > 0 ==> crate::config::strs_set(s) != Set::<Seq<char>>::empty(),
{
    let a = strs_view(s.take(i));
    assert(strs_view(s.take(i + 1)) =~= a.push(s[i]@));
    assert(a.push(s[i]@).to_set() =~= a.to_set().insert(s[i]@)) by {
        assert forall|x: Seq<char>| a.push(s[i]@).contains(x) implies a.contains(x) || x == s[i]@ by {
            let j = choose|j: int| 0 <= j < a.len() + 1 && a.push(s[i]@)[j] == x;
            if j < a.len() {
                assert(a[j] == x);
            }
        }
        assert forall|x: Seq<char>| a.contains(x) implies a.push(s[i]@).contains(x) by {
            let j = choose|j: int| 0 <= j < a.len() && a[j] == x;
            assert(a.push(s[i]@)[j] == x);
        }
        assert(a.push(s[i]@)[a.len() as int] == s[i]@);
    }
    assert(strs_view(s.take(0)).to_set() =~= Set::empty());
    if s.len() > 0 {
        assert(strs_view(s)[0] == s[0]@);
        assert(crate::config::strs_set(s).contains(s[0]@));
    }
}

/// Adds each glob of a type section to the matcher under the section's name.
fn add_globs(builder: &mut ignore::types::TypesBuilder, name: &String, globs: &Vec<String>) -> (r: Result<
    (),
    ConfigError,
>)
    ensures
        match r {
            Err(ConfigError::InvalidGlob { name: n, glob }) => n@ == name@ && crate::config::strs_set(globs@).contains(glob@)
                && !type_name_accepted(name@) && globs@.len() > 0,
            Err(_) => false,
            Ok(_) => (globs@.len() == 0 || type_name_accepted(name@)) && builder_defs(*final(builder)) == defs_add_all(
                builder_defs(*old(builder)),
                name@,
                crate::config::strs_set(globs@),
            ),
        },
{
    let ghost m0 = builder_defs(*builder);
    let mut g: usize = 0;
    proof {
        if globs@.len() > 0 {
            lemma_strs_set_push(globs@, 0);
        }
        assert(strs_view(globs@.take(0)).to_set() =~= Set::empty());
    }
    while g < globs.len()
        invariant
            g <= globs@.len(),
            g > 0 ==> type_name_accepted(name@),
            builder_defs(*builder) == defs_add_all(m0, name@, crate::config::strs_set(globs@.take(g as int))),
        decreases globs@.len() - g,
    {
        let ghost before = builder_defs(*builder);
        match types_builder_add(builder, name.as_str(), globs[g].as_str()) {
            Ok(()) => {},
            Err(_) => {
                proof {
                    assert(strs_view(globs@)[g as int] == globs@[g as int]@);
                }
                return Err(ConfigError::InvalidGlob { name: name.clone(), glob: globs[g].clone() });
            },
        }
        proof {
            lemma_strs_set_push(globs@, g as int);
            let s0 = crate::config::strs_set(globs@.take(g as int));
            let x = globs@[g as int]@;
            assert(defs_add_all(m0, name@, s0.insert(x)) =~= defs_add(defs_add_all(m0, name@, s0), name@, x)) by {
                if s0 == Set::<Seq<char>>::empty() {
                    assert(Set::<Seq<char>>::empty().union(s0.insert(x)) =~= Set::<Seq<char>>::empty().insert(x));
                    if m0.contains_key(name@) {
                        assert(m0[name@].union(s0.insert(x)) =~= m0[name@].insert(x));
                    }
                } else {
                    assert(s0.insert(x) != Set::<Seq<char>>::empty()) by {
                        assert(s0.insert(x).contains(x));
                    }
                    if m0.contains_key(name@) {
                        assert(m0[name@].union(s0.insert(x)) =~= m0[name@].union(s0).insert(x));
                    } else {
                        assert(Set::<Seq<char>>::empty().union(s0.insert(x)) =~= Set::<Seq<char>>::empty().union(s0).insert(x));
                    }
                }
            }
        }
        g = g + 1;
    }
    assert(globs@.take(g as int) =~= globs@);
    Ok(())
}

/// `ignore`'s built-in file type definitions.
pub open spec fn builtin_defs() -> Map<Seq<char>, Set<Seq<char>>> {
    with_defaults(Map::empty())
}

/// The file type definitions of `base` with the globs of each type section
/// added under its name.
pub open spec fn section_defs(base: Map<Seq<char>, Set<Seq<char>>>, tm: Map<Seq<char>, TypeView>) -> Map<
    Seq<char>,
    Set<Seq<char>>,
> {
    Map::new(
        |k: Seq<char>| base.contains_key(k) || (tm.contains_key(k) && tm[k].globs != Set::<Seq<char>>::empty()),
        |k: Seq<char>|
            if base.contains_key(k) {
                base[k]
            } else {
                Set::empty()
            }.union(
                if tm.contains_key(k) {
                    tm[k].globs
                } else {
                    Set::empty()
                },
            ),
    )
}

/// A type section adds no glob and names no built-in type.
pub open spec fn has_unknown_type(c: ConfigView) -> bool {
    exists|k: Seq<char>|
        #[trigger] c.types.contains_key(k) && c.types[k].globs == Set::<Seq<char>>::empty()
            && !builtin_defs().contains_key(k)
}

/// A type section adds globs under a name that `ignore` refuses.
pub open spec fn has_refused_name(c: ConfigView) -> bool {
    exists|k: Seq<char>|
        #[trigger] c.types.contains_key(k) && c.types[k].globs != Set::<Seq<char>>::empty() && !type_name_accepted(k)
}

pub proof fn lemma_section_defs_insert(
    base: Map<Seq<char>, Set<Seq<char>>>,
    tm: Map<Seq<char>, TypeView>,
    k: Seq<char>,
    v: TypeView,
)
    requires
        !tm.contains_key(k),
    ensures
        section_defs(base, tm.insert(k, v)) == defs_add_all(section_defs(base, tm), k, v.globs),
{
    let l = section_defs(base, tm.insert(k, v));
    let r = defs_add_all(section_defs(base, tm), k, v.globs);
    assert forall|x: Seq<char>| #[trigger] l.contains_key(x) <==> r.contains_key(x) by {}
    assert forall|x: Seq<char>| #[trigger] l.contains_key(x) implies l[x] == r[x] by {
        if x == k {
            if base.contains_key(k) {
                assert(base[k].union(Set::<Seq<char>>::empty()) =~= base[k]);
            }
            assert(Set::<Seq<char>>::empty().union(Set::<Seq<char>>::empty()) =~= Set::<Seq<char>>::empty());
        }
    }
    assert(l =~= r);
}

pub proof fn lemma_strs_set_empty(s: Seq<String>)
    ensures
        (crate::config::strs_set(s) == Set::<Seq<char>>::empty()) == (s.len() == 0),
{
    if s.len() == 0 {
        assert(crate::config::strs_set(s) =~= Set::<Seq<char>>::empty());
    } else {
        lemma_strs_set_push(s, 0);
    }
}

/// The type that a directory's matcher assigns the file name of `p`.
pub open spec fn file_type_of(d: DirConfig, p: Seq<Seq<char>>) -> Option<Seq<char>> {
    if p.len() == 0 {
        None
    } else {
        matched_type(d.type_matcher, p.last())
    }
}

pub struct ConfigEngine {
    storage: ConfigStorage,
    overrides: Option<Config>,
    isolated: bool,
    configs: Vec<(Vec<String>, DirConfig)>,
    walk: Intern<crate::config::Walk>,
    tokenizer: Intern<BuiltTokenizer>,
    dict: Intern<Dictionary>,
}

/// What a dictionary resolves to from an engine configuration's `dict`.
pub open spec fn dict_of(e: EngineView) -> crate::config::DictView {
    match e.dict {
        Some(d) => d,
        None => crate::config::DictView { locale: None, identifiers: Map::empty(), words: Map::empty() },
    }
}

impl ConfigEngine {
    pub closed spec fn isolated(&self) -> bool {
        self.isolated
    }

    pub closed spec fn overrides(&self) -> Option<ConfigView> {
        match self.overrides {
            Some(o) => Some(o@),
            None => None,
        }
    }

    /// The initialised directories, in order of initialisation.
    pub closed spec fn dirs(&self) -> Seq<(Seq<Seq<char>>, DirConfig)> {
        self.configs@.map_values(|e: (Vec<String>, DirConfig)| (strs_view(e.0@), e.1))
    }

    pub closed spec fn walks(&self) -> Seq<crate::config::Walk> {
        self.walk@
    }

    pub closed spec fn tokenizers(&self) -> Seq<BuiltTokenizer> {
        self.tokenizer@
    }

    pub closed spec fn dicts(&self) -> Seq<Dictionary> {
        self.dict@
    }

    pub closed spec fn texts(&self) -> Seq<Seq<char>> {
        self.storage@
    }

    pub open spec fn file_config_ok(&self, f: FileConfig) -> bool {
        file_config_ok(f, self.tokenizers().len(), self.dicts().len())
    }

    pub open spec fn has_dir(&self, cwd: Seq<Seq<char>>) -> bool {
        exists|i: int| 0 <= i < self.dirs().len() && self.dirs()[i].0 == cwd
    }

    pub closed spec fn wf(&self) -> bool {
        &&& match self.overrides {
            Some(o) => o.wf(),
            None => true,
        }
        &&& dirs_ok(self.dirs(), self.walks().len(), self.tokenizers().len(), self.dicts().len())
        &&& dicts_ok(self.dicts(), self.texts().len())
    }

    /// The cached state of directory `cwd`, which must have been initialised.
    pub open spec fn dir(&self, cwd: Seq<Seq<char>>) -> DirConfig {
        self.dirs()[choose|i: int| 0 <= i < self.dirs().len() && self.dirs()[i].0 == cwd].1
    }

    /// An engine that shares nothing yet and consults project files.
    pub fn new(storage: ConfigStorage) -> (r: Self)
        ensures
            r.wf(),
            !r.isolated(),
            r.overrides() is None,
            r.dirs().len() == 0,
    {
        let r = ConfigEngine {
            storage,
            overrides: None,
            isolated: false,
            configs: Vec::new(),
            walk: Intern::new(),
            tokenizer: Intern::new(),
            dict: Intern::new(),
        };
        assert(r.dirs() =~= Seq::empty());
        r
    }

    pub fn set_overrides(&mut self, overrides: Config)
        requires
            old(self).wf(),
            overrides.wf(),
        ensures
            final(self).wf(),
            final(self).overrides() == Some(overrides@),
            final(self).isolated() == old(self).isolated(),
            final(self).dirs() == old(self).dirs(),
    {
        self.overrides = Some(overrides);
    }

    pub fn set_isolated(&mut self, isolated: bool)
        requires
            old(self).wf(),
        ensures
            final(self).wf(),
            final(self).isolated() == isolated,
            final(self).overrides() == old(self).overrides(),
            final(self).dirs() == old(self).dirs(),
    {
        self.isolated = isolated;
    }

    /// The effective configuration of a directory whose nearest project
    /// file holds `project` (`None` where there is none): the project file
    /// unless isolated, the overrides merged over it, and the override
    /// section applied last to the default and to every type section.
    pub fn load_config(&self, project: Option<&Config>) -> (r: Config)
        requires
            self.wf(),
            match project {
                Some(p) => p.wf(),
                None => true,
            },
        ensures
            r.wf(),
            r@ == resolve(self.isolated(), opt_view(project), self.overrides()),
    {
        let mut config = Config::empty();
        if !self.isolated {
            if let Some(p) = project {
                config.update(p);
            }
        }
        if let Some(o) = &self.overrides {
            config.update(o);
        }
        let types = resolve_types(&config);
        let overrides = config.overrides.copy();
        config.default.update(&overrides);
        config.type_ = types;
        config
    }

    /// `f` carries the flags of `e`, its tokenizer the Unicode switch of `e`,
    /// and its dictionary the extensions of `e`.
    pub open spec fn engine_resolved(&self, f: FileConfig, e: EngineView) -> bool {
        &&& flags_match(f, e)
        &&& self.tokenizers()[f.tokenizer as int].unicode == unicode_of(e)
        &&& dict_matches(self.dicts()[f.dict as int], self.texts(), e)
    }

    /// Interns the tokenizer and dictionary of `engine` and returns its file
    /// class.
    fn init_file_config(&mut self, engine: &EngineConfig) -> (r: FileConfig)
        requires
            old(self).wf(),
        ensures
            final(self).wf(),
            final(self).file_config_ok(r),
            final(self).engine_resolved(r, engine@),
            final(self).isolated() == old(self).isolated(),
            final(self).overrides() == old(self).overrides(),
            final(self).dirs() == old(self).dirs(),
            final(self).walks() == old(self).walks(),
            r.tokenizer == old(self).tokenizers().len(),
            r.dict == old(self).dicts().len(),
            final(self).tokenizers().len() == old(self).tokenizers().len() + 1,
            final(self).dicts().len() == old(self).dicts().len() + 1,
            extends(old(self).tokenizers(), final(self).tokenizers()),
            extends(old(self).dicts(), final(self).dicts()),
            extends(old(self).texts(), final(self).texts()),
    {
        let binary = engine.binary();
        let check_filenames = engine.check_filename();
        let check_files = engine.check_file();
        let tokenizer_config = match engine.tokenizer {
            Some(t) => t,
            None => crate::config::TokenizerConfig::from_defaults(),
        };
        let dict_config = match &engine.dict {
            Some(d) => d.copy(),
            None => crate::config::DictConfig::empty(),
        };
        let ghost texts0 = self.storage@;
        let identifiers = intern_pairs(&mut self.storage, &dict_config.extend_identifiers);
        let ghost texts1 = self.storage@;
        let words = intern_pairs(&mut self.storage, &dict_config.extend_words);
        proof {
            lemma_entries_stable(identifiers@, texts1, self.storage@);
            assert(dict_config@ == dict_of(engine@));
            assert(symbols_below(identifiers@, self.storage@.len()));
            assert forall|i: int| 0 <= i < self.dict@.len() implies (#[trigger] self.dict@[i]).symbols_below(
                self.storage@.len(),
            ) by {
                assert(self.dict@[i].symbols_below(texts0.len()));
            }
        }
        let dict = Dictionary { locale: dict_config.locale(), identifiers, words };
        let unicode = tokenizer_config.unicode();
        let tokenizer = BuiltTokenizer { unicode, inner: build_tokenizer(unicode) };
        let dict_symbol = self.dict.intern(dict);
        let tokenizer_symbol = self.tokenizer.intern(tokenizer);
        let r = FileConfig { tokenizer: tokenizer_symbol, dict: dict_symbol, check_filenames, check_files, binary };
        proof {
            assert(dicts_ok(self.dicts(), self.texts().len()));
            lemma_dirs_ok_grow(
                self.dirs(),
                self.walks().len(),
                (self.tokenizers().len() - 1) as nat,
                (self.dicts().len() - 1) as nat,
                self.walks().len(),
                self.tokenizers().len(),
                self.dicts().len(),
            );
        }
        r
    }

    /// `d` is the resolved state of the effective configuration `c`.
    pub open spec fn dir_resolved(&self, d: DirConfig, c: ConfigView) -> bool {
        &&& self.walks()[d.walk as int]@ == c.files
        &&& self.engine_resolved(d.default, c.default)
        &&& forall|k: Seq<char>|
            #[trigger] c.types.contains_key(k) ==> has_name(d.types@, k) && self.engine_resolved(
                d.file_config_spec(Some(k)),
                c.types[k].engine,
            )
        &&& forall|i: int| 0 <= i < d.types@.len() ==> c.types.contains_key(#[trigger] d.types@[i].0@)
        &&& matcher_defs(d.type_matcher) == section_defs(builtin_defs(), c.types)
    }

    /// Resolves and caches the configuration of directory `cwd`, whose
    /// nearest project file holds `project`. Nothing happens where `cwd` is
    /// cached already.
    pub fn init_dir(&mut self, cwd: &Vec<String>, project: Option<&Config>) -> (r: Result<(), ConfigError>)
        requires
            old(self).wf(),
            match project {
                Some(p) => p.wf(),
                None => true,
            },
        ensures
            final(self).wf(),
            final(self).isolated() == old(self).isolated(),
            final(self).overrides() == old(self).overrides(),
            old(self).has_dir(strs_view(cwd@)) ==> r is Ok && *final(self) == *old(self),
            r is Err ==> final(self).dirs() == old(self).dirs(),
            extends(old(self).walks(), final(self).walks()),
            extends(old(self).tokenizers(), final(self).tokenizers()),
            extends(old(self).dicts(), final(self).dicts()),
            extends(old(self).texts(), final(self).texts()),
            !old(self).has_dir(strs_view(cwd@)) ==> ({
                let c = resolve(old(self).isolated(), opt_view(project), old(self).overrides());
                &&& (r is Ok <==> !has_unknown_type(c) && !has_refused_name(c) && matcher_builds(
                    section_defs(builtin_defs(), c.types),
                ))
                &&& (r matches Err(ConfigError::UnknownType { .. }) <==> has_unknown_type(c))
                &&& (r matches Err(ConfigError::InvalidGlob { .. }) <==> !has_unknown_type(c) && has_refused_name(c))
            }),
            !old(self).has_dir(strs_view(cwd@)) && r is Ok ==> {
                &&& final(self).dirs().len() == old(self).dirs().len() + 1
                &&& final(self).dirs().drop_last() == old(self).dirs()
                &&& final(self).dirs().last().0 == strs_view(cwd@)
                &&& final(self).dir_resolved(
                    final(self).dirs().last().1,
                    resolve(old(self).isolated(), opt_view(project), old(self).overrides()),
                )
            },
            match r {
                Err(ConfigError::UnknownType { name }) => {
                    let c = resolve(old(self).isolated(), opt_view(project), old(self).overrides());
                    c.types.contains_key(name@) && c.types[name@].globs == Set::<Seq<char>>::empty()
                },
                Err(ConfigError::InvalidGlob { name, glob }) => {
                    let c = resolve(old(self).isolated(), opt_view(project), old(self).overrides());
                    c.types.contains_key(name@) && c.types[name@].globs.contains(glob@) && !type_name_accepted(name@)
                },
                _ => true,
            },
    {
        if let Some(_) = self.find_dir(cwd) {
            return Ok(());
        }
        let ghost c = resolve(self.isolated, opt_view(project), self.overrides());
        let config = self.load_config(project);
        let Config { files, default, type_, overrides } = config;
        let walk = self.walk.intern(files);
        proof {
            lemma_dirs_ok_grow(
                self.dirs(),
                (self.walks().len() - 1) as nat,
                self.tokenizers().len(),
                self.dicts().len(),
                self.walks().len(),
                self.tokenizers().len(),
                self.dicts().len(),
            );
        }
        let mut builder = types_builder_new();
        proof {
            assert(builder_defs(builder) =~= Map::empty());
        }
        types_builder_add_defaults(&mut builder);
        let known = types_builder_names(&builder);
        proof {
            assert(strs_view(known@).to_set() == builtin_defs().dom());
            assert forall|j: int| 0 <= j < type_@.len() implies (unresolvable(#[trigger] type_@[j], strs_view(known@)) <==> (
            c.types[type_@[j].0@].globs == Set::<Seq<char>>::empty() && !builtin_defs().contains_key(type_@[j].0@))) by {
                lemma_types_map_at(type_@, j);
                lemma_strs_set_empty(type_@[j].1.extend_glob@);
                assert(strs_view(known@).contains(type_@[j].0@) == strs_view(known@).to_set().contains(type_@[j].0@));
            }
            assert(has_unknown_type(c) ==> exists|j: int| 0 <= j < type_@.len() && unresolvable(#[trigger] type_@[j], strs_view(known@))) by {
                if has_unknown_type(c) {
                    let k = choose|k: Seq<char>|
                        #[trigger] c.types.contains_key(k) && c.types[k].globs == Set::<Seq<char>>::empty()
                            && !builtin_defs().contains_key(k);
                    let j = choose|j: int| 0 <= j < type_@.len() && type_@[j].0@ == k;
                    assert(unresolvable(type_@[j], strs_view(known@)));
                }
            }
        }
        match check_type_names(&type_, &known) {
            Ok(()) => {},
            Err(e) => {
                proof {
                    if let ConfigError::UnknownType { name } = &e {
                        let i = choose|i: int|
                            0 <= i < type_@.len() && unresolvable(#[trigger] type_@[i], strs_view(known@))
                                && type_@[i].0@ == name@;
                        lemma_types_map_at(type_@, i);
                        assert(crate::config::strs_set(type_@[i].1.extend_glob@) =~= Set::empty());
                        assert(c.types.contains_key(name@));
                    }
                }
                return Err(e);
            },
        }
        proof {
            assert(types_map(type_@.take(0)) =~= Map::empty());
            assert(section_defs(builtin_defs(), Map::empty()) =~= builtin_defs()) by {
                assert forall|k: Seq<char>| builtin_defs().contains_key(k) implies builtin_defs()[k].union(
                    Set::<Seq<char>>::empty(),
                ) == builtin_defs()[k] by {
                    assert(builtin_defs()[k].union(Set::<Seq<char>>::empty()) =~= builtin_defs()[k]);
                }
            }
        }
        let mut types: Vec<(String, FileConfig)> = Vec::new();
        let mut i: usize = 0;
        while i < type_.len()
            invariant
                self.wf(),
                !old(self).has_dir(strs_view(cwd@)),
                c == resolve(old(self).isolated(), opt_view(project), old(self).overrides()),
                unique_names(type_@),
                types_map(type_@) == c.types,
                walk < self.walks().len(),
                self.walks()[walk as int]@ == c.files,
                self.isolated() == old(self).isolated(),
                self.overrides() == old(self).overrides(),
                self.dirs() == old(self).dirs(),
                extends(old(self).walks(), self.walks()),
                extends(old(self).tokenizers(), self.tokenizers()),
                extends(old(self).dicts(), self.dicts()),
                extends(old(self).texts(), self.texts()),
                !has_unknown_type(c),
                builder_defs(builder) == section_defs(builtin_defs(), types_map(type_@.take(i as int))),
                forall|j: int|
                    0 <= j < i ==> (#[trigger] type_@[j]).1.extend_glob@.len() == 0 || type_name_accepted(type_@[j].0@),
                i <= type_@.len(),
                types@.len() == i,
                forall|j: int| 0 <= j < i ==> (#[trigger] types@[j]).0@ == type_@[j].0@,
                forall|j: int| 0 <= j < i ==> self.file_config_ok((#[trigger] types@[j]).1),
                forall|j: int| 0 <= j < i ==> self.engine_resolved((#[trigger] types@[j]).1, type_@[j].1.engine@),
            decreases type_@.len() - i,
        {
            let ghost defs_before = builder_defs(builder);
            match add_globs(&mut builder, &type_[i].0, &type_[i].1.extend_glob) {
                Ok(()) => {},
                Err(e) => {
                    proof {
                        lemma_types_map_at(type_@, i as int);
                        lemma_strs_set_empty(type_@[i as int].1.extend_glob@);
                        assert(c.types.contains_key(type_@[i as int].0@));
                    }
                    return Err(e);
                },
            }
            proof {
                lemma_types_map_take(type_@, i as int);
                lemma_section_defs_insert(
                    builtin_defs(),
                    types_map(type_@.take(i as int)),
                    type_@[i as int].0@,
                    type_@[i as int].1@,
                );
            }
            let ghost before = self.dicts();
            let ghost texts_before = self.texts();
            let ghost prior = types@;
            proof {
                assert forall|j: int| 0 <= j < i implies self.file_config_ok((#[trigger] prior[j]).1) && self.engine_resolved(prior[j].1, type_@[j].1.engine@) by {
                    assert(prior[j] == types@[j]);
                }
            }
            let fc = self.init_file_config(&type_[i].1.engine);
            proof {
                assert forall|j: int| 0 <= j < i implies self.file_config_ok((#[trigger] prior[j]).1) && self.engine_resolved(prior[j].1, type_@[j].1.engine@) by {
                    let f = prior[j].1;
                    assert(f.dict < before.len());
                    let d = self.dicts()[f.dict as int];
                    assert(d == before[f.dict as int]);
                    assert(d.symbols_below(texts_before.len()));
                    lemma_entries_stable(d.identifiers@, texts_before, self.texts());
                    lemma_entries_stable(d.words@, texts_before, self.texts());
                }
            }
            types.push((type_[i].0.clone(), fc));
            i = i + 1;
        }
        let mut default = default;
        default.update(&overrides);
        proof {
            let l = layered(old(self).isolated(), opt_view(project), old(self).overrides());
            crate::config::lemma_merge_engine_idempotent(l.default, l.overrides);
        }
        let ghost before = self.dicts();
        let ghost texts_before = self.texts();
        let ghost prior = types@;
        let default_fc = self.init_file_config(&default);
        proof {
            assert forall|j: int| 0 <= j < type_@.len() implies self.file_config_ok((#[trigger] prior[j]).1) && self.engine_resolved(prior[j].1, type_@[j].1.engine@) by {
                let f = prior[j].1;
                let d = self.dicts()[f.dict as int];
                assert(d == before[f.dict as int]);
                assert(d.symbols_below(texts_before.len()));
                lemma_entries_stable(d.identifiers@, texts_before, self.texts());
                lemma_entries_stable(d.words@, texts_before, self.texts());
            }
        }
        proof {
            assert(type_@.take(type_@.len() as int) =~= type_@);
            assert(!has_refused_name(c)) by {
                if has_refused_name(c) {
                    let k = choose|k: Seq<char>|
                        #[trigger] c.types.contains_key(k) && c.types[k].globs != Set::<Seq<char>>::empty()
                            && !type_name_accepted(k);
                    let j = choose|j: int| 0 <= j < type_@.len() && type_@[j].0@ == k;
                    lemma_types_map_at(type_@, j);
                    lemma_strs_set_empty(type_@[j].1.extend_glob@);
                }
            }
        }
        types_builder_select_all(&mut builder);
        let type_matcher = match types_builder_build(&builder) {
            Ok(t) => t,
            Err(_) => return Err(ConfigError::Matcher),
        };
        let key = copy_strs(cwd);
        let d = DirConfig { walk, default: default_fc, types, type_matcher };
        let ghost dirs0 = self.dirs();
        self.configs.push((key, d));
        proof {
            assert(self.dirs() =~= dirs0.push((strs_view(cwd@), d)));
            assert(self.dirs().drop_last() =~= dirs0);
            assert forall|k: Seq<char>| #[trigger] c.types.contains_key(k) implies has_name(d.types@, k) && self.engine_resolved(
                d.file_config_spec(Some(k)),
                c.types[k].engine,
            ) by {
                let j = choose|j: int| 0 <= j < type_@.len() && type_@[j].0@ == k;
                assert(d.types@[j].0@ == k);
                lemma_first_named(d.types@, k);
                let f = choose|f: int| first_named(d.types@, k, f);
                assert(type_@[f].0@ == k);
                lemma_types_map_at(type_@, f);
            }
            assert forall|i: int| 0 <= i < d.types@.len() implies c.types.contains_key(#[trigger] d.types@[i].0@) by {
                lemma_types_map_at(type_@, i);
            }
            assert(dir_ok(d, self.walks().len(), self.tokenizers().len(), self.dicts().len()));
            assert forall|a: int, b: int|
                0 <= a < self.dirs().len() && 0 <= b < self.dirs().len() && self.dirs()[a].0 == self.dirs()[b].0 implies a == b by {
                if a < dirs0.len() && b == dirs0.len() {
                    assert(dirs0[a].0 == strs_view(cwd@));
                }
                if b < dirs0.len() && a == dirs0.len() {
                    assert(dirs0[b].0 == strs_view(cwd@));
                }
            }
        }
        Ok(())
    }

    /// Directory `i` is the nearest initialised ancestor of `p`.
    pub open spec fn nearest(&self, i: int, p: Seq<Seq<char>>) -> bool {
        &&& 0 <= i < self.dirs().len()
        &&& is_ancestor(self.dirs()[i].0, p)
        &&& forall|j: int|
            0 <= j < self.dirs().len() && is_ancestor(#[trigger] self.dirs()[j].0, p) ==> self.dirs()[j].0.len()
                <= self.dirs()[i].0.len()
    }

    pub open spec fn covers(&self, p: Seq<Seq<char>>) -> bool {
        exists|j: int| 0 <= j < self.dirs().len() && is_ancestor(#[trigger] self.dirs()[j].0, p)
    }

    /// `r` is the policy of file class `f`.
    pub open spec fn policy_of(&self, r: Policy, f: FileConfig) -> bool {
        &&& r.binary == f.binary
        &&& r.check_filenames == f.check_filenames
        &&& r.check_files == f.check_files
        &&& *r.tokenizer == self.tokenizers()[f.tokenizer as int]
        &&& *r.dict == self.dicts()[f.dict as int]
    }

    /// The walk settings of an initialised directory.
    pub fn walk(&self, cwd: &Vec<String>) -> (r: &crate::config::Walk)
        requires
            self.wf(),
            self.has_dir(strs_view(cwd@)),
        ensures
            *r == self.walks()[self.dir(strs_view(cwd@)).walk as int],
    {
        let i = self.find_dir(cwd).unwrap();
        proof {
            let j = choose|j: int| 0 <= j < self.dirs().len() && self.dirs()[j].0 == strs_view(cwd@);
            assert(j == i);
            assert(self.dirs()[i as int].1 == self.configs@[i as int].1);
            assert(dir_ok(self.dirs()[i as int].1, self.walks().len(), self.tokenizers().len(), self.dicts().len()));
        }
        self.walk.get(self.configs[i].1.walk)
    }

    /// Each file type the matcher of an initialised directory knows, with
    /// its globs.
    pub fn file_types(&self, cwd: &Vec<String>) -> (r: Vec<(String, Vec<String>)>)
        requires
            self.wf(),
            self.has_dir(strs_view(cwd@)),
        ensures
            forall|i: int|
                0 <= i < r@.len() ==> matcher_defs(self.dir(strs_view(cwd@)).type_matcher).contains_key(
                    #[trigger] r@[i].0@,
                ) && crate::config::strs_set(r@[i].1@) == matcher_defs(self.dir(strs_view(cwd@)).type_matcher)[r@[i].0@],
            forall|k: Seq<char>| #[trigger]
                matcher_defs(self.dir(strs_view(cwd@)).type_matcher).contains_key(k) ==> exists|i: int|
                    0 <= i < r@.len() && r@[i].0@ == k,
    {
        let i = self.find_dir(cwd).unwrap();
        proof {
            let j = choose|j: int| 0 <= j < self.dirs().len() && self.dirs()[j].0 == strs_view(cwd@);
            assert(j == i);
            assert(self.dirs()[i as int].1 == self.configs@[i as int].1);
        }
        types_definitions(&self.configs[i].1.type_matcher)
    }

    /// The nearest initialised ancestor of `path`, `path` itself included.
    fn get_dir(&self, path: &Vec<String>) -> (r: Option<usize>)
        requires
            self.wf(),
        ensures
            match r {
                Some(i) => self.nearest(i as int, strs_view(path@)),
                None => !self.covers(strs_view(path@)),
            },
    {
        let ghost p = strs_view(path@);
        let mut k: usize = path.len();
        loop
            invariant
                self.wf(),
                p == strs_view(path@),
                k <= path@.len(),
                forall|j: int|
                    0 <= j < self.dirs().len() && is_ancestor(#[trigger] self.dirs()[j].0, p) ==> self.dirs()[j].0.len() <= k,
            decreases k,
        {
            let mut j: usize = 0;
            while j < self.configs.len()
                invariant
                    self.wf(),
                    p == strs_view(path@),
                    k <= path@.len(),
                    j <= self.configs@.len(),
                    forall|t: int| 0 <= t < j ==> self.dirs()[t].0 != p.take(k as int),
                    forall|t: int|
                        0 <= t < self.dirs().len() && is_ancestor(#[trigger] self.dirs()[t].0, p) ==> self.dirs()[t].0.len()
                            <= k,
                decreases self.configs@.len() - j,
            {
                assert(self.dirs()[j as int].0 == strs_view(self.configs@[j as int].0@));
                if same_path(&self.configs[j].0, path, k) {
                    return Some(j);
                }
                j = j + 1;
            }
            proof {
                assert forall|t: int|
                    0 <= t < self.dirs().len() && is_ancestor(#[trigger] self.dirs()[t].0, p) implies self.dirs()[t].0.len()
                        < k by {
                    if self.dirs()[t].0.len() == k {
                        assert(self.dirs()[t].0 == p.take(k as int));
                    }
                }
            }
            if k == 0 {
                return None;
            }
            k = k - 1;
        }
    }

    /// No directory is cached twice.
    pub proof fn lemma_dirs_unique(&self)
        requires
            self.wf(),
        ensures
            forall|i: int, j: int|
                0 <= i < self.dirs().len() && 0 <= j < self.dirs().len() && self.dirs()[i].0 == self.dirs()[j].0
                    ==> i == j,
    {
    }

    /// At most one directory is the nearest initialised ancestor of a path.
    pub proof fn lemma_nearest_unique(&self, i: int, j: int, p: Seq<Seq<char>>)
        requires
            self.wf(),
            self.nearest(i, p),
            self.nearest(j, p),
        ensures
            i == j,
    {
        assert(self.dirs()[i].0 == self.dirs()[j].0);
    }

    /// The policy of `path` where the type matcher assigned it the type
    /// `name` (`None`: no type).
    pub fn policy_with_type(&self, path: &Vec<String>, name: Option<&String>) -> (r: Policy<'_>)
        requires
            self.wf(),
            self.covers(strs_view(path@)),
        ensures
            forall|i: int|
                self.nearest(i, strs_view(path@)) ==> self.policy_of(
                    r,
                    self.dirs()[i].1.file_config_spec(
                        match name {
                            Some(n) => Some(n@),
                            None => None,
                        },
                    ),
                ),
    {
        let i = self.get_dir(path).unwrap();
        let dir = &self.configs[i].1;
        let f = dir.file_config_for(name);
        proof {
            assert(self.dirs()[i as int].1 == *dir);
            assert(dir_ok(*dir, self.walks().len(), self.tokenizers().len(), self.dicts().len()));
            if let Some(n) = name {
                if has_name(dir.types@, n@) {
                    lemma_first_named(dir.types@, n@);
                    let t = choose|t: int| first_named(dir.types@, n@, t);
                    assert(file_config_ok(dir.types@[t].1, self.tokenizers().len(), self.dicts().len()));
                }
            }
            assert forall|j: int| self.nearest(j, strs_view(path@)) implies j == i by {
                self.lemma_nearest_unique(i as int, j, strs_view(path@));
            }
        }
        Policy {
            check_filenames: f.check_filenames,
            check_files: f.check_files,
            binary: f.binary,
            tokenizer: self.tokenizer.get(f.tokenizer),
            dict: self.dict.get(f.dict),
        }
    }

    /// The policy of `path`: that of the type the nearest initialised
    /// ancestor's matcher assigns its file name, else that directory's
    /// default.
    pub fn policy(&self, path: &Vec<String>) -> (r: Policy<'_>)
        requires
            self.wf(),
            self.covers(strs_view(path@)),
        ensures
            forall|i: int|
                self.nearest(i, strs_view(path@)) ==> self.policy_of(
                    r,
                    self.dirs()[i].1.file_config_spec(file_type_of(self.dirs()[i].1, strs_view(path@))),
                ),
    {
        let i = self.get_dir(path).unwrap();
        let name = if path.len() == 0 {
            None
        } else {
            types_matched_name(&self.configs[i].1.type_matcher, &path[path.len() - 1])
        };
        proof {
            assert(self.dirs()[i as int].1 == self.configs@[i as int].1);
            if path@.len() > 0 {
                assert(strs_view(path@).last() == path@.last()@);
            }
            assert forall|j: int| self.nearest(j, strs_view(path@)) implies j == i by {
                self.lemma_nearest_unique(i as int, j, strs_view(path@));
            }
        }
        self.policy_with_type(path, name.as_ref())
    }

    /// The correction that a list of dictionary extensions gives `word`; of
    /// two entries for one word the later counts.
    fn lookup(&self, entries: &Vec<(usize, usize)>, word: &String) -> (r: Option<String>)
        ensures
            symbols_below(entries@, self.texts().len()) ==> match r {
                Some(c) => crate::config::pairs_map(entries_text(entries@, self.texts())).contains_key(word@)
                    && c@ == crate::config::pairs_map(entries_text(entries@, self.texts()))[word@],
                None => !crate::config::pairs_map(entries_text(entries@, self.texts())).contains_key(word@),
            },
    {
        let ghost s = entries_text(entries@, self.texts());
        let mut i: usize = entries.len();
        while i > 0
            invariant
                i <= entries@.len(),
                s == entries_text(entries@, self.texts()),
                symbols_below(entries@, self.texts().len()) ==> forall|j: int| i <= j < s.len() ==> s[j].0 != word@,
            decreases i,
        {
            i = i - 1;
            let (k, v) = entries[i];
            if k < self.storage.len() && v < self.storage.len() {
                if *self.storage.text(k) == *word {
                    proof {
                        if symbols_below(entries@, self.texts().len()) {
                            lemma_pairs_map_last(s, i as int);
                        }
                    }
                    return Some(self.storage.text(v).clone());
                }
            }
        }
        proof {
            if symbols_below(entries@, self.texts().len()) {
                lemma_pairs_map_absent(s, word@);
            }
        }
        None
    }

    /// The correction that `dict`'s word extensions give `word`.
    pub fn correct_word(&self, dict: &Dictionary, word: &String) -> (r: Option<String>)
        ensures
            dict.symbols_below(self.texts().len()) ==> match r {
                Some(c) => crate::config::pairs_map(entries_text(dict.words@, self.texts())).contains_key(word@)
                    && c@ == crate::config::pairs_map(entries_text(dict.words@, self.texts()))[word@],
                None => !crate::config::pairs_map(entries_text(dict.words@, self.texts())).contains_key(word@),
            },
    {
        self.lookup(&dict.words, word)
    }

    /// The correction that `dict`'s identifier extensions give `ident`.
    pub fn correct_ident(&self, dict: &Dictionary, ident: &String) -> (r: Option<String>)
        ensures
            dict.symbols_below(self.texts().len()) ==> match r {
                Some(c) => crate::config::pairs_map(entries_text(dict.identifiers@, self.texts())).contains_key(ident@)
                    && c@ == crate::config::pairs_map(entries_text(dict.identifiers@, self.texts()))[ident@],
                None => !crate::config::pairs_map(entries_text(dict.identifiers@, self.texts())).contains_key(ident@),
            },
    {
        self.lookup(&dict.identifiers, ident)
    }

    /// Position of the directory `cwd` itself, if initialised.
    fn find_dir(&self, cwd: &Vec<String>) -> (r: Option<usize>)
        requires
            self.wf(),
        ensures
            match r {
                Some(i) => i < self.dirs().len() && self.dirs()[i as int].0 == strs_view(cwd@),
                None => !self.has_dir(strs_view(cwd@)),
            },
    {
        assert(strs_view(cwd@).take(cwd@.len() as int) =~= strs_view(cwd@));
        let mut i: usize = 0;
        while i < self.configs.len()
            invariant
                i <= self.configs@.len(),
                strs_view(cwd@).take(cwd@.len() as int) == strs_view(cwd@),
                forall|j: int| 0 <= j < i ==> self.dirs()[j].0 != strs_view(cwd@),
            decreases self.configs@.len() - i,
        {
            assert(self.dirs()[i as int].0 == strs_view(self.configs@[i as int].0@));
            let same = same_path(&self.configs[i].0, cwd, cwd.len());
            if same {
                return Some(i);
            }
            assert(self.dirs()[i as int].0 != strs_view(cwd@));
            i = i + 1;
        }
        None
    }
}

/// Whether `key` names the first `n` components of `path`.
fn same_path(key: &Vec<String>, path: &Vec<String>, n: usize) -> (r: bool)
    requires
        n <= path@.len(),
    ensures
        r == (strs_view(key@) == strs_view(path@).take(n as int)),
{
    if key.len() != n {
        proof {
            assert(strs_view(key@).len() != strs_view(path@).take(n as int).len());
        }
        return false;
    }
    let mut i: usize = 0;
    while i < n
        invariant
            n <= path@.len(),
            key@.len() == n,
            i <= n,
            forall|j: int| 0 <= j < i ==> key@[j]@ == path@[j]@,
        decreases n - i,
    {
        if key[i] != path[i] {
            proof {
                assert(strs_view(key@)[i as int] != strs_view(path@).take(n as int)[i as int]);
            }
            return false;
        }
        i = i + 1;
    }
    assert(strs_view(key@) =~= strs_view(path@).take(n as int));
    true
}

} // verus!
