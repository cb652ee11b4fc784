use typos_policy::config::{find_type, Config, DictConfig, EngineConfig, Locale, TokenizerConfig, TypeEngineConfig, Walk};
use typos_policy::intern::Intern;
use typos_policy::policy::{check_type_names, ConfigError, ConfigStorage};

fn sample(binary: bool, glob: &str, word: (&str, &str)) -> Config {
    let mut c = Config::empty();
    c.default.binary = Some(binary);
    let mut dict = DictConfig::empty();
    dict.extend_words.push((word.0.to_string(), word.1.to_string()));
    c.default.dict = Some(dict);
    let mut ty = TypeEngineConfig::empty();
    ty.extend_glob.push(glob.to_string());
    c.type_.push(("py".to_string(), ty));
    c.files.extend_exclude.push("target".to_string());
    c
}

#[test]
fn merge_twice_equals_merge_once() {
    let a = sample(true, "*.py", ("teh", "the"));
    let b = sample(false, "*.pyi", ("teh", "ten"));

    let mut once = a.copy();
    once.update(&b);
    let mut twice = a.copy();
    twice.update(&b);
    twice.update(&b);

    assert_eq!(once.default.binary, twice.default.binary);
    assert_eq!(once.type_.len(), twice.type_.len());
    let i = find_type(&twice.type_, &"py".to_string()).unwrap();
    let mut globs = twice.type_[i].1.extend_glob.clone();
    globs.sort();
    globs.dedup();
    assert_eq!(globs, vec!["*.py".to_string(), "*.pyi".to_string()]);
    let words = &twice.default.dict.as_ref().unwrap().extend_words;
    assert_eq!(words.last().unwrap().1, "ten");
}

#[test]
fn unset_fields_do_not_clear() {
    let mut a = Config::empty();
    a.default.check_file = Some(false);
    a.update(&Config::empty());
    assert_eq!(a.default.check_file, Some(false));
}

#[test]
fn merge_adds_new_type_section() {
    let mut a = Config::empty();
    let b = sample(true, "*.py", ("a", "b"));
    a.update(&b);
    assert!(find_type(&a.type_, &"py".to_string()).is_some());
    assert_eq!(a.type_.len(), 1);
}

#[test]
fn tokenizer_merge_is_field_wise() {
    let mut t = TokenizerConfig { unicode: Some(false), ignore_hex: None, identifier_leading_digits: None };
    t.update(&TokenizerConfig { unicode: None, ignore_hex: Some(false), identifier_leading_digits: None });
    assert_eq!(t, TokenizerConfig { unicode: Some(false), ignore_hex: Some(false), identifier_leading_digits: None });
    assert!(!t.unicode());
    assert!(!t.ignore_hex());
    assert!(!t.identifier_leading_digits());
}

#[test]
fn defaults_are_filled_in() {
    let d = Config::from_defaults();
    assert_eq!(d.default.binary, Some(false));
    assert_eq!(d.default.check_filename, Some(true));
    assert_eq!(d.default.check_file, Some(true));
    assert_eq!(d.default.dict.as_ref().unwrap().locale, Some(Locale::En));
    assert_eq!(d.files.ignore_parent, Some(true));
    let e = EngineConfig::empty();
    assert!(!e.binary());
    assert!(e.check_filename());
    assert!(e.check_file());
    assert_eq!(DictConfig::empty().locale(), Locale::En);
}

#[test]
fn walk_fallbacks() {
    let mut w = Walk::empty();
    w.ignore_files = Some(false);
    assert!(!w.ignore_dot());
    assert!(!w.ignore_vcs());
    assert!(!w.ignore_global());
    assert!(!w.ignore_parent());
    assert!(w.ignore_hidden());
    w.ignore_vcs = Some(true);
    assert!(w.ignore_global());
}

#[test]
fn dump_round_trip_keeps_policy_fields() {
    let mut c = Config::empty();
    c.default.binary = Some(true);
    let mut dumped = Config::from_defaults();
    dumped.update(&c);
    let mut reloaded = Config::empty();
    reloaded.update(&dumped);
    assert_eq!(reloaded.default.binary(), c.default.binary());
    assert_eq!(reloaded.default.check_file(), c.default.check_file());
}

#[test]
fn check_type_names_reports_first_unknown() {
    let mut types = Vec::new();
    types.push(("rust".to_string(), TypeEngineConfig::empty()));
    types.push(("nope".to_string(), TypeEngineConfig::empty()));
    let known = vec!["rust".to_string()];
    match check_type_names(&types, &known) {
        Err(ConfigError::UnknownType { name }) => assert_eq!(name, "nope"),
        other => panic!("unexpected {:?}", other),
    }
    let mut globbed = TypeEngineConfig::empty();
    globbed.extend_glob.push("*.n".to_string());
    types[1].1 = globbed;
    assert!(check_type_names(&types, &known).is_ok());
    assert!(check_type_names(&Vec::new(), &Vec::new()).is_ok());
}

#[test]
fn intern_assigns_fresh_symbols() {
    let mut i: Intern<u32> = Intern::new();
    assert_eq!(i.intern(7), 0);
    assert_eq!(i.intern(7), 1);
    assert_eq!(*i.get(1), 7);
    assert_eq!(i.len(), 2);
}

#[test]
fn storage_keeps_text() {
    let mut s = ConfigStorage::new();
    let a = s.get(&"hello".to_string());
    let b = s.get(&"hello".to_string());
    assert_ne!(a, b);
    assert_eq!(s.text(a), "hello");
    assert_eq!(s.len(), 2);
}
