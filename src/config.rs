use vstd::prelude::*;

verus! {

// ---------------------------------------------------------------------------
// Mathematical model
// ---------------------------------------------------------------------------

/// An optional field after merging `b` into `a`: `b` wins where it is set.
pub open spec fn merge_opt<T>(a: Option<T>, b: Option<T>) -> Option<T> {
    match b {
        Some(_) => b,
        None => a,
    }
}

pub open spec fn strs_view(s: Seq<String>) -> Seq<Seq<char>> {
    s.map_values(|x: String| x@)
}

/// The set of patterns held by a list.
pub open spec fn strs_set(s: Seq<String>) -> Set<Seq<char>> {
    strs_view(s).to_set()
}

pub open spec fn pairs_view(s: Seq<(String, String)>) -> Seq<(Seq<char>, Seq<char>)> {
    s.map_values(|p: (String, String)| (p.0@, p.1@))
}

/// A list of pairs read as a mapping; a later pair overrides an earlier one.
pub open spec fn pairs_map(s: Seq<(Seq<char>, Seq<char>)>) -> Map<Seq<char>, Seq<char>>
    decreases s.len(),
{
    if s.len() == 0 {
        Map::empty()
    } else {
        pairs_map(s.drop_last()).insert(s.last().0, s.last().1)
    }
}

pub open spec fn pairs_model(s: Seq<(String, String)>) -> Map<Seq<char>, Seq<char>> {
    pairs_map(pairs_view(s))
}

#[derive(Clone, Copy, Debug, PartialEq, Eq, Structural)]
pub enum Locale {
    En,
    EnUs,
    EnGb,
    EnCa,
    EnAu,
}

#[derive(Clone, Copy, Debug, PartialEq, Eq, Structural)]
pub struct TokenizerConfig {
    pub unicode: Option<bool>,
    pub ignore_hex: Option<bool>,
    pub identifier_leading_digits: Option<bool>,
}

pub open spec fn merge_tokenizer(a: TokenizerConfig, b: TokenizerConfig) -> TokenizerConfig {
    TokenizerConfig {
        unicode: merge_opt(a.unicode, b.unicode),
        ignore_hex: merge_opt(a.ignore_hex, b.ignore_hex),
        identifier_leading_digits: merge_opt(a.identifier_leading_digits, b.identifier_leading_digits),
    }
}

pub struct DictConfig {
    pub locale: Option<Locale>,
    pub extend_identifiers: Vec<(String, String)>,
    pub extend_words: Vec<(String, String)>,
}

#[verifier::ext_equal]
pub struct DictView {
    pub locale: Option<Locale>,
    pub identifiers: Map<Seq<char>, Seq<char>>,
    pub words: Map<Seq<char>, Seq<char>>,
}

impl View for DictConfig {
    type V = DictView;

    open spec fn view(&self) -> DictView {
        DictView {
            locale: self.locale,
            identifiers: pairs_model(self.extend_identifiers@),
            words: pairs_model(self.extend_words@),
        }
    }
}

pub open spec fn merge_dict(a: DictView, b: DictView) -> DictView {
    DictView {
        locale: merge_opt(a.locale, b.locale),
        identifiers: a.identifiers.union_prefer_right(b.identifiers),
        words: a.words.union_prefer_right(b.words),
    }
}

pub struct EngineConfig {
    pub binary: Option<bool>,
    pub check_filename: Option<bool>,
    pub check_file: Option<bool>,
    pub tokenizer: Option<TokenizerConfig>,
    pub dict: Option<DictConfig>,
}

#[verifier::ext_equal]
pub struct EngineView {
    pub binary: Option<bool>,
    pub check_filename: Option<bool>,
    pub check_file: Option<bool>,
    pub tokenizer: Option<TokenizerConfig>,
    pub dict: Option<DictView>,
}

impl View for EngineConfig {
    type V = EngineView;

    open spec fn view(&self) -> EngineView {
        EngineView {
            binary: self.binary,
            check_filename: self.check_filename,
            check_file: self.check_file,
            tokenizer: self.tokenizer,
            dict: match self.dict {
                Some(d) => Some(d@),
                None => None,
            },
        }
    }
}

pub open spec fn merge_engine(a: EngineView, b: EngineView) -> EngineView {
    EngineView {
        binary: merge_opt(a.binary, b.binary),
        check_filename: merge_opt(a.check_filename, b.check_filename),
        check_file: merge_opt(a.check_file, b.check_file),
        tokenizer: match (a.tokenizer, b.tokenizer) {
            (Some(x), Some(y)) => Some(merge_tokenizer(x, y)),
            (_, None) => a.tokenizer,
            (None, Some(_)) => b.tokenizer,
        },
        dict: match (a.dict, b.dict) {
            (Some(x), Some(y)) => Some(merge_dict(x, y)),
            (_, None) => a.dict,
            (None, Some(_)) => b.dict,
        },
    }
}

pub open spec fn empty_engine() -> EngineView {
    EngineView { binary: None, check_filename: None, check_file: None, tokenizer: None, dict: None }
}

pub struct Walk {
    pub ignore_hidden: Option<bool>,
    pub ignore_files: Option<bool>,
    pub ignore_dot: Option<bool>,
    pub ignore_vcs: Option<bool>,
    pub ignore_global: Option<bool>,
    pub ignore_parent: Option<bool>,
    pub extend_exclude: Vec<String>,
}

#[verifier::ext_equal]
pub struct WalkView {
    pub ignore_hidden: Option<bool>,
    pub ignore_files: Option<bool>,
    pub ignore_dot: Option<bool>,
    pub ignore_vcs: Option<bool>,
    pub ignore_global: Option<bool>,
    pub ignore_parent: Option<bool>,
    pub exclude: Set<Seq<char>>,
}

impl View for Walk {
    type V = WalkView;

    open spec fn view(&self) -> WalkView {
        WalkView {
            ignore_hidden: self.ignore_hidden,
            ignore_files: self.ignore_files,
            ignore_dot: self.ignore_dot,
            ignore_vcs: self.ignore_vcs,
            ignore_global: self.ignore_global,
            ignore_parent: self.ignore_parent,
            exclude: strs_set(self.extend_exclude@),
        }
    }
}

pub open spec fn merge_walk(a: WalkView, b: WalkView) -> WalkView {
    WalkView {
        ignore_hidden: merge_opt(a.ignore_hidden, b.ignore_hidden),
        ignore_files: merge_opt(a.ignore_files, b.ignore_files),
        ignore_dot: merge_opt(a.ignore_dot, b.ignore_dot),
        ignore_vcs: merge_opt(a.ignore_vcs, b.ignore_vcs),
        ignore_global: merge_opt(a.ignore_global, b.ignore_global),
        ignore_parent: merge_opt(a.ignore_parent, b.ignore_parent),
        exclude: a.exclude.union(b.exclude),
    }
}

pub struct TypeEngineConfig {
    pub extend_glob: Vec<String>,
    pub engine: EngineConfig,
}

#[verifier::ext_equal]
pub struct TypeView {
    pub globs: Set<Seq<char>>,
    pub engine: EngineView,
}

impl View for TypeEngineConfig {
    type V = TypeView;

    open spec fn view(&self) -> TypeView {
        TypeView { globs: strs_set(self.extend_glob@), engine: self.engine@ }
    }
}

pub open spec fn merge_type(a: TypeView, b: TypeView) -> TypeView {
    TypeView { globs: a.globs.union(b.globs), engine: merge_engine(a.engine, b.engine) }
}

/// No two entries share a type name.
pub open spec fn unique_names<T>(s: Seq<(String, T)>) -> bool {
    forall|i: int, j: int| 0 <= i < s.len() && 0 <= j < s.len() && s[i].0@ == s[j].0@ ==> i == j
}

pub open spec fn has_name<T>(s: Seq<(String, T)>, k: Seq<char>) -> bool {
    exists|i: int| 0 <= i < s.len() && s[i].0@ == k
}

/// The per-type sections as a mapping from type name.
pub open spec fn types_map(s: Seq<(String, TypeEngineConfig)>) -> Map<Seq<char>, TypeView> {
    Map::new(
        |k: Seq<char>| has_name(s, k),
        |k: Seq<char>| s[choose|i: int| 0 <= i < s.len() && s[i].0@ == k].1@,
    )
}

pub open spec fn merge_types(a: Map<Seq<char>, TypeView>, b: Map<Seq<char>, TypeView>) -> Map<
    Seq<char>,
    TypeView,
> {
    Map::new(
        |k: Seq<char>| a.contains_key(k) || b.contains_key(k),
        |k: Seq<char>|
            if a.contains_key(k) && b.contains_key(k) {
                merge_type(a[k], b[k])
            } else if b.contains_key(k) {
                b[k]
            } else {
                a[k]
            },
    )
}

pub struct Config {
    pub files: Walk,
    pub default: EngineConfig,
    pub type_: Vec<(String, TypeEngineConfig)>,
    pub overrides: EngineConfig,
}

#[verifier::ext_equal]
pub struct ConfigView {
    pub files: WalkView,
    pub default: EngineView,
    pub types: Map<Seq<char>, TypeView>,
    pub overrides: EngineView,
}

impl View for Config {
    type V = ConfigView;

    open spec fn view(&self) -> ConfigView {
        ConfigView {
            files: self.files@,
            default: self.default@,
            types: types_map(self.type_@),
            overrides: self.overrides@,
        }
    }
}

impl Config {
    /// Type names are unique.
    pub open spec fn wf(&self) -> bool {
        unique_names(self.type_@)
    }
}

pub open spec fn merge_config(a: ConfigView, b: ConfigView) -> ConfigView {
    ConfigView {
        files: merge_walk(a.files, b.files),
        default: merge_engine(a.default, b.default),
        types: merge_types(a.types, b.types),
        overrides: merge_engine(a.overrides, b.overrides),
    }
}

// ---------------------------------------------------------------------------
// Lemmas on the model
// ---------------------------------------------------------------------------

pub proof fn lemma_pairs_map_append(a: Seq<(Seq<char>, Seq<char>)>, b: Seq<(Seq<char>, Seq<char>)>)
    ensures
        pairs_map(a + b) == pairs_map(a).union_prefer_right(pairs_map(b)),
    decreases b.len(),
{
    if b.len() == 0 {
        assert(a + b =~= a);
        assert(pairs_map(a).union_prefer_right(pairs_map(b)) =~= pairs_map(a));
    } else {
        assert((a + b).drop_last() =~= a + b.drop_last());
        assert((a + b).last() == b.last());
        lemma_pairs_map_append(a, b.drop_last());
        assert(pairs_map(a + b) =~= pairs_map(a).union_prefer_right(pairs_map(b)));
    }
}

pub proof fn lemma_types_map_at(s: Seq<(String, TypeEngineConfig)>, i: int)
    requires
        unique_names(s),
        0 <= i < s.len(),
    ensures
        types_map(s).contains_key(s[i].0@),
        types_map(s)[s[i].0@] == s[i].1@,
{
    let k = s[i].0@;
    assert(has_name(s, k));
    let j = choose|j: int| 0 <= j < s.len() && s[j].0@ == k;
    assert(j == i);
}

// ---------------------------------------------------------------------------
// Executable copies, with their views preserved
// ---------------------------------------------------------------------------

pub fn copy_strs(v: &Vec<String>) -> (r: Vec<String>)
    ensures
        strs_view(r@) == strs_view(v@),
{
    let mut r: Vec<String> = Vec::new();
    append_strs(&mut r, v);
    assert(strs_view(Seq::<String>::empty()) + strs_view(v@) =~= strs_view(v@));
    r
}

/// Appends copies of `b`'s patterns to `a`.
pub fn append_strs(a: &mut Vec<String>, b: &Vec<String>)
    ensures
        strs_view(final(a)@) == strs_view(old(a)@) + strs_view(b@),
{
    let ghost a0 = a@;
    let mut i: usize = 0;
    while i < b.len()
        invariant
            i <= b@.len(),
            a@.len() == a0.len() + i,
            forall|j: int| 0 <= j < a0.len() ==> a@[j]@ == a0[j]@,
            forall|j: int| 0 <= j < i ==> a@[a0.len() + j]@ == b@[j]@,
        decreases b@.len() - i,
    {
        a.push(b[i].clone());
        i = i + 1;
    }
    assert(strs_view(a@) =~= strs_view(a0) + strs_view(b@));
}

/// Appends copies of `b`'s pairs to `a`.
pub fn append_pairs(a: &mut Vec<(String, String)>, b: &Vec<(String, String)>)
    ensures
        pairs_view(final(a)@) == pairs_view(old(a)@) + pairs_view(b@),
{
    let ghost a0 = a@;
    let mut i: usize = 0;
    while i < b.len()
        invariant
            i <= b@.len(),
            a@.len() == a0.len() + i,
            forall|j: int| 0 <= j < a0.len() ==> a@[j].0@ == a0[j].0@ && a@[j].1@ == a0[j].1@,
            forall|j: int|
                0 <= j < i ==> a@[a0.len() + j].0@ == b@[j].0@ && a@[a0.len() + j].1@ == b@[j].1@,
        decreases b@.len() - i,
    {
        let k = b[i].0.clone();
        let v = b[i].1.clone();
        a.push((k, v));
        i = i + 1;
    }
    assert(pairs_view(a@) =~= pairs_view(a0) + pairs_view(b@));
}

pub fn copy_pairs(v: &Vec<(String, String)>) -> (r: Vec<(String, String)>)
    ensures
        pairs_view(r@) == pairs_view(v@),
{
    let mut r: Vec<(String, String)> = Vec::new();
    append_pairs(&mut r, v);
    assert(pairs_view(Seq::<(String, String)>::empty()) + pairs_view(v@) =~= pairs_view(v@));
    r
}

// ---------------------------------------------------------------------------
// Merging
// ---------------------------------------------------------------------------

impl TokenizerConfig {
    pub fn empty() -> (r: Self)
        ensures
            r == (TokenizerConfig { unicode: None, ignore_hex: None, identifier_leading_digits: None }),
    {
        TokenizerConfig { unicode: None, ignore_hex: None, identifier_leading_digits: None }
    }

    /// Every setting with its built-in value.
    pub fn from_defaults() -> (r: Self)
        ensures
            r == (TokenizerConfig {
                unicode: Some(true),
                ignore_hex: Some(true),
                identifier_leading_digits: Some(false),
            }),
    {
        TokenizerConfig {
            unicode: Some(true),
            ignore_hex: Some(true),
            identifier_leading_digits: Some(false),
        }
    }

    pub fn update(&mut self, source: &TokenizerConfig)
        ensures
            *final(self) == merge_tokenizer(*old(self), *source),
    {
        if source.unicode.is_some() {
            self.unicode = source.unicode;
        }
        if source.ignore_hex.is_some() {
            self.ignore_hex = source.ignore_hex;
        }
        if source.identifier_leading_digits.is_some() {
            self.identifier_leading_digits = source.identifier_leading_digits;
        }
    }

    pub fn unicode(&self) -> (r: bool)
        ensures
            r == self.unicode.unwrap_or(true),
    {
        match self.unicode {
            Some(b) => b,
            None => true,
        }
    }

    pub fn ignore_hex(&self) -> (r: bool)
        ensures
            r == self.ignore_hex.unwrap_or(true),
    {
        match self.ignore_hex {
            Some(b) => b,
            None => true,
        }
    }

    pub fn identifier_leading_digits(&self) -> (r: bool)
        ensures
            r == self.identifier_leading_digits.unwrap_or(false),
    {
        match self.identifier_leading_digits {
            Some(b) => b,
            None => false,
        }
    }
}

impl DictConfig {
    pub fn empty() -> (r: Self)
        ensures
            r@ == (DictView { locale: None, identifiers: Map::empty(), words: Map::empty() }),
    {
        let r = DictConfig { locale: None, extend_identifiers: Vec::new(), extend_words: Vec::new() };
        assert(pairs_view(r.extend_identifiers@) =~= Seq::empty());
        assert(pairs_view(r.extend_words@) =~= Seq::empty());
        r
    }

    pub fn from_defaults() -> (r: Self)
        ensures
            r@ == (DictView { locale: Some(Locale::En), identifiers: Map::empty(), words: Map::empty() }),
    {
        let mut r = Self::empty();
        r.locale = Some(Locale::En);
        r
    }

    pub fn copy(&self) -> (r: Self)
        ensures
            r@ == self@,
    {
        DictConfig {
            locale: self.locale,
            extend_identifiers: copy_pairs(&self.extend_identifiers),
            extend_words: copy_pairs(&self.extend_words),
        }
    }

    pub fn update(&mut self, source: &DictConfig)
        ensures
            final(self)@ == merge_dict(old(self)@, source@),
    {
        if source.locale.is_some() {
            self.locale = source.locale;
        }
        let ghost ids = self.extend_identifiers@;
        let ghost words = self.extend_words@;
        append_pairs(&mut self.extend_identifiers, &source.extend_identifiers);
        append_pairs(&mut self.extend_words, &source.extend_words);
        proof {
            lemma_pairs_map_append(pairs_view(ids), pairs_view(source.extend_identifiers@));
            lemma_pairs_map_append(pairs_view(words), pairs_view(source.extend_words@));
        }
    }

    pub fn locale(&self) -> (r: Locale)
        ensures
            r == self.locale.unwrap_or(Locale::En),
    {
        match self.locale {
            Some(l) => l,
            None => Locale::En,
        }
    }
}

impl EngineConfig {
    pub open spec fn from_defaults_view() -> EngineView {
        EngineView {
            binary: Some(false),
            check_filename: Some(true),
            check_file: Some(true),
            tokenizer: Some(TokenizerConfig {
                unicode: Some(true),
                ignore_hex: Some(true),
                identifier_leading_digits: Some(false),
            }),
            dict: Some(DictView { locale: Some(Locale::En), identifiers: Map::empty(), words: Map::empty() }),
        }
    }

    pub fn empty() -> (r: Self)
        ensures
            r@ == empty_engine(),
    {
        EngineConfig { binary: None, check_filename: None, check_file: None, tokenizer: None, dict: None }
    }

    pub fn from_defaults() -> (r: Self)
        ensures
            r@ == (EngineView {
                binary: Some(false),
                check_filename: Some(true),
                check_file: Some(true),
                tokenizer: Some(TokenizerConfig {
                    unicode: Some(true),
                    ignore_hex: Some(true),
                    identifier_leading_digits: Some(false),
                }),
                dict: Some(DictView { locale: Some(Locale::En), identifiers: Map::empty(), words: Map::empty() }),
            }),
    {
        EngineConfig {
            binary: Some(false),
            check_filename: Some(true),
            check_file: Some(true),
            tokenizer: Some(TokenizerConfig::from_defaults()),
            dict: Some(DictConfig::from_defaults()),
        }
    }

    pub fn copy(&self) -> (r: Self)
        ensures
            r@ == self@,
    {
        let dict = match &self.dict {
            Some(d) => Some(d.copy()),
            None => None,
        };
        EngineConfig {
            binary: self.binary,
            check_filename: self.check_filename,
            check_file: self.check_file,
            tokenizer: self.tokenizer,
            dict,
        }
    }

    pub fn update(&mut self, source: &EngineConfig)
        ensures
            final(self)@ == merge_engine(old(self)@, source@),
    {
        if source.binary.is_some() {
            self.binary = source.binary;
        }
        if source.check_filename.is_some() {
            self.check_filename = source.check_filename;
        }
        if source.check_file.is_some() {
            self.check_file = source.check_file;
        }
        match (&mut self.tokenizer, &source.tokenizer) {
            (Some(t), Some(s)) => t.update(s),
            (None, Some(s)) => self.tokenizer = Some(*s),
            (_, None) => {},
        }
        match (&mut self.dict, &source.dict) {
            (Some(d), Some(s)) => d.update(s),
            (None, Some(s)) => self.dict = Some(s.copy()),
            (_, None) => {},
        }
    }

    pub fn binary(&self) -> (r: bool)
        ensures
            r == self.binary.unwrap_or(false),
    {
        match self.binary {
            Some(b) => b,
            None => false,
        }
    }

    pub fn check_filename(&self) -> (r: bool)
        ensures
            r == self.check_filename.unwrap_or(true),
    {
        match self.check_filename {
            Some(b) => b,
            None => true,
        }
    }

    pub fn check_file(&self) -> (r: bool)
        ensures
            r == self.check_file.unwrap_or(true),
    {
        match self.check_file {
            Some(b) => b,
            None => true,
        }
    }
}

pub proof fn lemma_strs_set_append(a: Seq<Seq<char>>, b: Seq<Seq<char>>)
    ensures
        (a + b).to_set() == a.to_set().union(b.to_set()),
{
    assert forall|x: Seq<char>| (a + b).contains(x) implies a.contains(x) || b.contains(x) by {
        let i = choose|i: int| 0 <= i < (a + b).len() && (a + b)[i] == x;
        if i >= a.len() {
            assert(b[i - a.len()] == x);
        }
    }
    assert forall|x: Seq<char>| a.contains(x) || b.contains(x) implies (a + b).contains(x) by {
        if a.contains(x) {
            let i = choose|i: int| 0 <= i < a.len() && a[i] == x;
            assert((a + b)[i] == x);
        } else {
            let i = choose|i: int| 0 <= i < b.len() && b[i] == x;
            assert((a + b)[a.len() + i] == x);
        }
    }
    assert((a + b).to_set() =~= a.to_set().union(b.to_set()));
}

impl Walk {
    pub open spec fn from_defaults_view() -> WalkView {
        WalkView {
            ignore_hidden: Some(true),
            ignore_files: Some(true),
            ignore_dot: Some(true),
            ignore_vcs: Some(true),
            ignore_global: Some(true),
            ignore_parent: Some(true),
            exclude: Set::empty(),
        }
    }

    pub fn empty() -> (r: Self)
        ensures
            r@ == (WalkView {
                ignore_hidden: None,
                ignore_files: None,
                ignore_dot: None,
                ignore_vcs: None,
                ignore_global: None,
                ignore_parent: None,
                exclude: Set::empty(),
            }),
    {
        let r = Walk {
            ignore_hidden: None,
            ignore_files: None,
            ignore_dot: None,
            ignore_vcs: None,
            ignore_global: None,
            ignore_parent: None,
            extend_exclude: Vec::new(),
        };
        assert(strs_view(r.extend_exclude@).to_set() =~= Set::empty());
        r
    }

    pub fn from_defaults() -> (r: Self)
        ensures
            r@ == (WalkView {
                ignore_hidden: Some(true),
                ignore_files: Some(true),
                ignore_dot: Some(true),
                ignore_vcs: Some(true),
                ignore_global: Some(true),
                ignore_parent: Some(true),
                exclude: Set::empty(),
            }),
    {
        let mut r = Self::empty();
        r.ignore_hidden = Some(true);
        r.ignore_files = Some(true);
        r.ignore_dot = Some(true);
        r.ignore_vcs = Some(true);
        r.ignore_global = Some(true);
        r.ignore_parent = Some(true);
        r
    }

    pub fn copy(&self) -> (r: Self)
        ensures
            r@ == self@,
    {
        Walk {
            ignore_hidden: self.ignore_hidden,
            ignore_files: self.ignore_files,
            ignore_dot: self.ignore_dot,
            ignore_vcs: self.ignore_vcs,
            ignore_global: self.ignore_global,
            ignore_parent: self.ignore_parent,
            extend_exclude: copy_strs(&self.extend_exclude),
        }
    }

    pub fn update(&mut self, source: &Walk)
        ensures
            final(self)@ == merge_walk(old(self)@, source@),
    {
        if source.ignore_hidden.is_some() {
            self.ignore_hidden = source.ignore_hidden;
        }
        if source.ignore_files.is_some() {
            self.ignore_files = source.ignore_files;
        }
        if source.ignore_dot.is_some() {
            self.ignore_dot = source.ignore_dot;
        }
        if source.ignore_vcs.is_some() {
            self.ignore_vcs = source.ignore_vcs;
        }
        if source.ignore_global.is_some() {
            self.ignore_global = source.ignore_global;
        }
        if source.ignore_parent.is_some() {
            self.ignore_parent = source.ignore_parent;
        }
        let ghost before = self.extend_exclude@;
        append_strs(&mut self.extend_exclude, &source.extend_exclude);
        proof {
            lemma_strs_set_append(strs_view(before), strs_view(source.extend_exclude@));
        }
    }

    pub fn ignore_hidden(&self) -> (r: bool)
        ensures
            r == self.ignore_hidden.unwrap_or(true),
    {
        match self.ignore_hidden {
            Some(b) => b,
            None => true,
        }
    }

    /// Whether `.ignore` files are honoured; the general `ignore_files`
    /// switch is the fallback.
    pub fn ignore_dot(&self) -> (r: bool)
        ensures
            r == self.ignore_dot.unwrap_or(self.ignore_files.unwrap_or(true)),
    {
        match self.ignore_dot {
            Some(b) => b,
            None => match self.ignore_files {
                Some(b) => b,
                None => true,
            },
        }
    }

    pub fn ignore_vcs(&self) -> (r: bool)
        ensures
            r == self.ignore_vcs.unwrap_or(self.ignore_files.unwrap_or(true)),
    {
        match self.ignore_vcs {
            Some(b) => b,
            None => match self.ignore_files {
                Some(b) => b,
                None => true,
            },
        }
    }

    /// Global ignore files fall back to the VCS switch, then to `ignore_files`.
    pub fn ignore_global(&self) -> (r: bool)
        ensures
            r == self.ignore_global.unwrap_or(self.ignore_vcs.unwrap_or(self.ignore_files.unwrap_or(true))),
    {
        match self.ignore_global {
            Some(b) => b,
            None => self.ignore_vcs(),
        }
    }

    pub fn ignore_parent(&self) -> (r: bool)
        ensures
            r == self.ignore_parent.unwrap_or(self.ignore_files.unwrap_or(true)),
    {
        match self.ignore_parent {
            Some(b) => b,
            None => match self.ignore_files {
                Some(b) => b,
                None => true,
            },
        }
    }
}

impl TypeEngineConfig {
    pub fn empty() -> (r: Self)
        ensures
            r@ == (TypeView { globs: Set::empty(), engine: empty_engine() }),
    {
        let r = TypeEngineConfig { extend_glob: Vec::new(), engine: EngineConfig::empty() };
        assert(strs_view(r.extend_glob@).to_set() =~= Set::empty());
        r
    }

    pub fn copy(&self) -> (r: Self)
        ensures
            r@ == self@,
    {
        TypeEngineConfig { extend_glob: copy_strs(&self.extend_glob), engine: self.engine.copy() }
    }

    pub fn update(&mut self, source: &TypeEngineConfig)
        ensures
            final(self)@ == merge_type(old(self)@, source@),
    {
        let ghost before = self.extend_glob@;
        append_strs(&mut self.extend_glob, &source.extend_glob);
        proof {
            lemma_strs_set_append(strs_view(before), strs_view(source.extend_glob@));
        }
        self.engine.update(&source.engine);
    }
}

pub proof fn lemma_types_map_update(s: Seq<(String, TypeEngineConfig)>, j: int, e: (String, TypeEngineConfig))
    requires
        unique_names(s),
        0 <= j < s.len(),
        s[j].0@ == e.0@,
    ensures
        unique_names(s.update(j, e)),
        types_map(s.update(j, e)) == types_map(s).insert(e.0@, e.1@),
{
    let s2 = s.update(j, e);
    assert(forall|i: int| 0 <= i < s.len() ==> s2[i].0@ == s[i].0@);
    assert(unique_names(s2));
    let m = types_map(s).insert(e.0@, e.1@);
    assert forall|k: Seq<char>| #[trigger] types_map(s2).contains_key(k) <==> m.contains_key(k) by {
        if has_name(s, k) {
            let i = choose|i: int| 0 <= i < s.len() && s[i].0@ == k;
            assert(s2[i].0@ == k);
        }
        if has_name(s2, k) {
            let i = choose|i: int| 0 <= i < s2.len() && s2[i].0@ == k;
            assert(s[i].0@ == k);
        }
    }
    assert forall|k: Seq<char>| #[trigger] m.contains_key(k) implies types_map(s2)[k] == m[k] by {
        if k == e.0@ {
            lemma_types_map_at(s2, j);
        } else {
            let i = choose|i: int| 0 <= i < s.len() && s[i].0@ == k;
            assert(i != j);
            lemma_types_map_at(s, i);
            lemma_types_map_at(s2, i);
        }
    }
    assert(types_map(s2) =~= m);
}

pub proof fn lemma_types_map_push(s: Seq<(String, TypeEngineConfig)>, e: (String, TypeEngineConfig))
    requires
        unique_names(s),
        !has_name(s, e.0@),
    ensures
        unique_names(s.push(e)),
        types_map(s.push(e)) == types_map(s).insert(e.0@, e.1@),
{
    let s2 = s.push(e);
    assert forall|i: int, j: int|
        0 <= i < s2.len() && 0 <= j < s2.len() && s2[i].0@ == s2[j].0@ implies i == j by {
        if i < s.len() && j == s.len() {
            assert(s[i].0@ == e.0@);
        }
        if j < s.len() && i == s.len() {
            assert(s[j].0@ == e.0@);
        }
    }
    let m = types_map(s).insert(e.0@, e.1@);
    assert forall|k: Seq<char>| #[trigger] types_map(s2).contains_key(k) <==> m.contains_key(k) by {
        if has_name(s, k) {
            let i = choose|i: int| 0 <= i < s.len() && s[i].0@ == k;
            assert(s2[i].0@ == k);
        }
        if k == e.0@ {
            assert(s2[s.len() as int].0@ == k);
        }
        if has_name(s2, k) {
            let i = choose|i: int| 0 <= i < s2.len() && s2[i].0@ == k;
            if i < s.len() {
                assert(s[i].0@ == k);
            }
        }
    }
    assert forall|k: Seq<char>| #[trigger] m.contains_key(k) implies types_map(s2)[k] == m[k] by {
        if k == e.0@ {
            lemma_types_map_at(s2, s.len() as int);
        } else {
            let i = choose|i: int| 0 <= i < s.len() && s[i].0@ == k;
            lemma_types_map_at(s, i);
            lemma_types_map_at(s2, i);
        }
    }
    assert(types_map(s2) =~= m);
}

/// Position of the section named `name`, if there is one.
pub fn find_type<T>(v: &Vec<(String, T)>, name: &String) -> (r: Option<usize>)
    ensures
        match r {
            Some(i) => i < v@.len() && v@[i as int].0@ == name@ && forall|j: int|
                0 <= j < i ==> v@[j].0@ != name@,
            None => !has_name(v@, name@),
        },
{
    let mut i: usize = 0;
    while i < v.len()
        invariant
            i <= v@.len(),
            forall|j: int| 0 <= j < i ==> v@[j].0@ != name@,
        decreases v@.len() - i,
    {
        if v[i].0 == *name {
            return Some(i);
        }
        i = i + 1;
    }
    None
}

pub proof fn lemma_merge_types_insert(
    a: Map<Seq<char>, TypeView>,
    b: Map<Seq<char>, TypeView>,
    k: Seq<char>,
    v: TypeView,
)
    requires
        !b.contains_key(k),
    ensures
        merge_types(a, b.insert(k, v)) == merge_types(a, b).insert(
            k,
            if a.contains_key(k) {
                merge_type(a[k], v)
            } else {
                v
            },
        ),
{
    assert(merge_types(a, b.insert(k, v)) =~= merge_types(a, b).insert(
        k,
        if a.contains_key(k) {
            merge_type(a[k], v)
        } else {
            v
        },
    ));
}

pub proof fn lemma_types_map_take(s: Seq<(String, TypeEngineConfig)>, i: int)
    requires
        unique_names(s),
        0 <= i < s.len(),
    ensures
        unique_names(s.take(i)),
        !has_name(s.take(i), s[i].0@),
        types_map(s.take(i + 1)) == types_map(s.take(i)).insert(s[i].0@, s[i].1@),
{
    let t = s.take(i);
    assert(s.take(i + 1) =~= t.push(s[i]));
    if has_name(t, s[i].0@) {
        let j = choose|j: int| 0 <= j < t.len() && t[j].0@ == s[i].0@;
        assert(s[j].0@ == s[i].0@);
    }
    lemma_types_map_push(t, s[i]);
}

impl Config {
    /// A configuration with nothing set.
    pub fn empty() -> (r: Self)
        ensures
            r.wf(),
            r@ == (ConfigView {
                files: WalkView {
                    ignore_hidden: None,
                    ignore_files: None,
                    ignore_dot: None,
                    ignore_vcs: None,
                    ignore_global: None,
                    ignore_parent: None,
                    exclude: Set::empty(),
                },
                default: empty_engine(),
                types: Map::empty(),
                overrides: empty_engine(),
            }),
    {
        let r = Config {
            files: Walk::empty(),
            default: EngineConfig::empty(),
            type_: Vec::new(),
            overrides: EngineConfig::empty(),
        };
        assert(types_map(r.type_@) =~= Map::empty());
        r
    }

    /// Every setting with its built-in value and no type sections.
    pub fn from_defaults() -> (r: Self)
        ensures
            r.wf(),
            r@.files == Walk::from_defaults_view(),
            r@.default == EngineConfig::from_defaults_view(),
            r@.types == Map::<Seq<char>, TypeView>::empty(),
            r@.overrides == empty_engine(),
    {
        let r = Config {
            files: Walk::from_defaults(),
            default: EngineConfig::from_defaults(),
            type_: Vec::new(),
            overrides: EngineConfig::empty(),
        };
        assert(types_map(r.type_@) =~= Map::empty());
        r
    }

    pub fn copy(&self) -> (r: Self)
        requires
            self.wf(),
        ensures
            r.wf(),
            r@ == self@,
    {
        let mut r = Config {
            files: self.files.copy(),
            default: self.default.copy(),
            type_: Vec::new(),
            overrides: self.overrides.copy(),
        };
        let mut i: usize = 0;
        assert(types_map(r.type_@) =~= Map::empty());
        assert(types_map(self.type_@.take(0)) =~= Map::empty());
        while i < self.type_.len()
            invariant
                self.wf(),
                i <= self.type_@.len(),
                r.files@ == self.files@,
                r.default@ == self.default@,
                r.overrides@ == self.overrides@,
                unique_names(r.type_@),
                r.type_@.len() == i,
                forall|j: int| 0 <= j < i ==> r.type_@[j].0@ == self.type_@[j].0@,
                types_map(r.type_@) == types_map(self.type_@.take(i as int)),
            decreases self.type_@.len() - i,
        {
            let name = self.type_[i].0.clone();
            let ty = self.type_[i].1.copy();
            proof {
                lemma_types_map_take(self.type_@, i as int);
                if has_name(r.type_@, name@) {
                    let j = choose|j: int| 0 <= j < r.type_@.len() && r.type_@[j].0@ == name@;
                    assert(self.type_@[j].0@ == self.type_@[i as int].0@);
                }
                lemma_types_map_push(r.type_@, (name, ty));
            }
            r.type_.push((name, ty));
            i = i + 1;
        }
        assert(self.type_@.take(i as int) =~= self.type_@);
        r
    }

    /// Merges `source` into `self`: every field set in `source` replaces the
    /// one here, type sections are merged by name, lists are extended.
    pub fn update(&mut self, source: &Config)
        requires
            old(self).wf(),
            source.wf(),
        ensures
            final(self).wf(),
            final(self)@ == merge_config(old(self)@, source@),
    {
        self.files.update(&source.files);
        self.default.update(&source.default);
        self.overrides.update(&source.overrides);
        let ghost a = types_map(self.type_@);
        let mut i: usize = 0;
        assert(types_map(source.type_@.take(0)) =~= Map::empty());
        assert(merge_types(a, Map::empty()) =~= a);
        while i < source.type_.len()
            invariant
                source.wf(),
                i <= source.type_@.len(),
                unique_names(self.type_@),
                types_map(self.type_@) == merge_types(a, types_map(source.type_@.take(i as int))),
                self.files@ == merge_walk(old(self).files@, source.files@),
                self.default@ == merge_engine(old(self).default@, source.default@),
                self.overrides@ == merge_engine(old(self).overrides@, source.overrides@),
            decreases source.type_@.len() - i,
        {
            let ghost b = types_map(source.type_@.take(i as int));
            let ghost k = source.type_@[i as int].0@;
            let ghost v = source.type_@[i as int].1@;
            proof {
                lemma_types_map_take(source.type_@, i as int);
                lemma_merge_types_insert(a, b, k, v);
            }
            let name = &source.type_[i].0;
            match find_type(&self.type_, name) {
                Some(j) => {
                    let mut ty = self.type_[j].1.copy();
                    proof {
                        lemma_types_map_at(self.type_@, j as int);
                    }
                    ty.update(&source.type_[i].1);
                    let entry = (name.clone(), ty);
                    proof {
                        assert(!b.contains_key(k));
                        assert(a.contains_key(k));
                        assert(types_map(self.type_@)[k] == a[k]);
                        lemma_types_map_update(self.type_@, j as int, entry);
                    }
                    self.type_.set(j, entry);
                },
                None => {
                    let mut ty = TypeEngineConfig::empty();
                    ty.update(&source.type_[i].1);
                    let entry = (name.clone(), ty);
                    proof {
                        assert(!types_map(self.type_@).contains_key(k));
                        assert(!a.contains_key(k));
                        lemma_types_map_push(self.type_@, entry);
                        assert(merge_type(TypeView { globs: Set::empty(), engine: empty_engine() }, v) == v) by {
                            lemma_merge_empty(v);
                        }
                    }
                    self.type_.push(entry);
                },
            }
            i = i + 1;
        }
        assert(source.type_@.take(i as int) =~= source.type_@);
    }
}

pub proof fn lemma_merge_empty(v: TypeView)
    ensures
        merge_type(TypeView { globs: Set::empty(), engine: empty_engine() }, v) == v,
{
    assert(Set::<Seq<char>>::empty().union(v.globs) =~= v.globs);
}

// ---------------------------------------------------------------------------
// Laws of merging
// ---------------------------------------------------------------------------

pub proof fn lemma_merge_engine_idempotent(a: EngineView, b: EngineView)
    ensures
        merge_engine(merge_engine(a, b), b) == merge_engine(a, b),
        merge_engine(b, b) == b,
{
    if let (Some(x), Some(y)) = (a.dict, b.dict) {
        assert(merge_dict(merge_dict(x, y), y) =~= merge_dict(x, y));
    }
    if let Some(y) = b.dict {
        assert(merge_dict(y, y) =~= y);
    }
}

pub proof fn lemma_merge_type_idempotent(a: TypeView, b: TypeView)
    ensures
        merge_type(merge_type(a, b), b) == merge_type(a, b),
        merge_type(b, b) == b,
{
    lemma_merge_engine_idempotent(a.engine, b.engine);
    assert(a.globs.union(b.globs).union(b.globs) =~= a.globs.union(b.globs));
    assert(b.globs.union(b.globs) =~= b.globs);
}

/// Merging the same configuration twice has the effect of merging it once.
pub proof fn lemma_merge_idempotent(a: Config, b: Config)
    requires
        a.wf(),
        b.wf(),
    ensures
        merge_config(merge_config(a@, b@), b@) == merge_config(a@, b@),
{
    let (x, y) = (a@, b@);
    lemma_merge_engine_idempotent(x.default, y.default);
    lemma_merge_engine_idempotent(x.overrides, y.overrides);
    let once = merge_types(x.types, y.types);
    assert forall|k: Seq<char>| #[trigger] once.contains_key(k) && y.types.contains_key(k) implies merge_type(
        once[k],
        y.types[k],
    ) == once[k] by {
        if x.types.contains_key(k) {
            lemma_merge_type_idempotent(x.types[k], y.types[k]);
        } else {
            lemma_merge_type_idempotent(y.types[k], y.types[k]);
        }
    }
    assert(merge_types(once, y.types) =~= once);
    assert(merge_walk(merge_walk(x.files, y.files), y.files) =~= merge_walk(x.files, y.files));
    assert(x.files.exclude.union(y.files.exclude).union(y.files.exclude) =~= x.files.exclude.union(
        y.files.exclude,
    ));
}

// ---------------------------------------------------------------------------
// Dumping
// ---------------------------------------------------------------------------

/// The fully defaulted dump of a configuration: built-in values under it.
pub open spec fn dumped(c: ConfigView) -> ConfigView {
    merge_config(
        ConfigView {
            files: Walk::from_defaults_view(),
            default: EngineConfig::from_defaults_view(),
            types: Map::empty(),
            overrides: crate::config::empty_engine(),
        },
        c,
    )
}

/// The fully defaulted form of `config`, as a configuration file would
/// hold it.
pub fn dump_config(config: &Config) -> (r: Config)
    requires
        config.wf(),
    ensures
        r.wf(),
        r@ == dumped(config@),
{
    let mut r = Config::from_defaults();
    r.update(config);
    r
}

} // verus!
