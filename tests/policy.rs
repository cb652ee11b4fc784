use typos_policy::config::{find_type, Config, EngineConfig, TypeEngineConfig};
use typos_policy::policy::{ConfigEngine, ConfigError, ConfigStorage};

const NEVER_EXIST_TYPE: &str = "THISyTYPEySHOULDyNEVERyEXISTyBUTyIyHATEyYOUyIFyITyDOES";

fn cwd() -> Vec<String> {
    vec!["home".to_string(), "user".to_string(), "project".to_string()]
}

fn join(dir: &[String], name: &str) -> Vec<String> {
    let mut p = dir.to_vec();
    p.push(name.to_string());
    p
}

fn engine_with(config: Config) -> ConfigEngine {
    let storage = ConfigStorage::new();
    let mut engine = ConfigEngine::new(storage);
    engine.set_isolated(true);
    engine.set_overrides(config);
    engine
}

#[test]
fn test_load_config_applies_overrides() {
    let toml_type = "toml".to_string();

    let mut config = Config::empty();
    config.default.binary = Some(true);
    config.default.check_filename = Some(true);
    let mut ty = TypeEngineConfig::empty();
    ty.engine.check_filename = Some(false);
    ty.engine.check_file = Some(true);
    config.type_.push((toml_type.clone(), ty));
    config.overrides.binary = Some(false);
    config.overrides.check_file = Some(false);
    let engine = engine_with(config);

    let loaded = engine.load_config(None);
    assert_eq!(loaded.default.binary, Some(false));
    assert_eq!(loaded.default.check_filename, Some(true));
    assert_eq!(loaded.default.check_file, Some(false));
    let i = find_type(&loaded.type_, &toml_type).unwrap();
    assert_eq!(loaded.type_[i].1.engine.binary, Some(false));
    assert_eq!(loaded.type_[i].1.engine.check_filename, Some(false));
    assert_eq!(loaded.type_[i].1.engine.check_file, Some(false));
}

#[test]
fn test_init_fails_on_unknown_type() {
    let mut config = Config::empty();
    config
        .type_
        .push((NEVER_EXIST_TYPE.to_string(), TypeEngineConfig::empty()));
    let mut engine = engine_with(config);

    let result = engine.init_dir(&cwd(), None);
    assert!(result.is_err());
}

#[test]
fn test_policy_default() {
    let mut engine = engine_with(Config::empty());

    engine.init_dir(&cwd(), None).unwrap();
    let policy = engine.policy(&join(&cwd(), "Cargo.toml"));
    assert!(!policy.binary);
}

fn never_type_config() -> Config {
    let mut config = Config::empty();
    config.default.binary = Some(true);
    let mut ty = TypeEngineConfig::empty();
    ty.extend_glob.push(NEVER_EXIST_TYPE.to_string());
    ty.engine.binary = Some(false);
    config.type_.push((NEVER_EXIST_TYPE.to_string(), ty));
    config
}

#[test]
fn test_policy_fallback() {
    let mut engine = engine_with(never_type_config());

    engine.init_dir(&cwd(), None).unwrap();
    let policy = engine.policy(&join(&cwd(), "Cargo.toml"));
    assert!(policy.binary);
}

#[test]
fn test_policy_type_specific() {
    let mut engine = engine_with(never_type_config());

    engine.init_dir(&cwd(), None).unwrap();
    let policy = engine.policy(&join(&cwd(), "Cargo.toml"));
    assert!(policy.binary);
    let policy = engine.policy(&join(&cwd(), NEVER_EXIST_TYPE));
    assert!(!policy.binary);
}

#[test]
fn unknown_type_error_names_the_type() {
    let mut config = Config::empty();
    config
        .type_
        .push((NEVER_EXIST_TYPE.to_string(), TypeEngineConfig::empty()));
    let mut engine = engine_with(config);
    match engine.init_dir(&cwd(), None) {
        Err(ConfigError::UnknownType { name }) => assert_eq!(name, NEVER_EXIST_TYPE),
        other => panic!("unexpected {:?}", other),
    }
}

#[test]
fn built_in_type_without_globs_is_accepted() {
    let mut config = Config::empty();
    let mut ty = TypeEngineConfig::empty();
    ty.engine.binary = Some(true);
    config.type_.push(("rust".to_string(), ty));
    let mut engine = engine_with(config);
    engine.init_dir(&cwd(), None).unwrap();
    assert!(engine.policy(&join(&cwd(), "main.rs")).binary);
    assert!(!engine.policy(&join(&cwd(), "notes.txt")).binary);
}

#[test]
fn refused_toml_type_is_an_invalid_glob() {
    let mut config = Config::empty();
    let mut ty = TypeEngineConfig::empty();
    ty.extend_glob.push("*.foo".to_string());
    config.type_.push(("my-type".to_string(), ty));
    let mut engine = engine_with(config);
    match engine.init_dir(&cwd(), None) {
        Err(ConfigError::InvalidGlob { name, glob }) => {
            assert_eq!(name, "my-type");
            assert_eq!(glob, "*.foo");
        }
        other => panic!("unexpected {:?}", other),
    }
}

#[test]
fn malformed_glob_fails_the_matcher() {
    let mut config = Config::empty();
    let mut ty = TypeEngineConfig::empty();
    ty.extend_glob.push("a[".to_string());
    config.type_.push(("broken".to_string(), ty));
    let mut engine = engine_with(config);
    assert!(matches!(
        engine.init_dir(&cwd(), None),
        Err(ConfigError::Matcher)
    ));
}

#[test]
fn init_dir_is_idempotent() {
    let mut engine = engine_with(never_type_config());
    engine.init_dir(&cwd(), None).unwrap();
    engine.init_dir(&cwd(), None).unwrap();
    assert!(!engine.policy(&join(&cwd(), NEVER_EXIST_TYPE)).binary);
}

#[test]
fn policy_uses_nearest_initialised_ancestor() {
    let storage = ConfigStorage::new();
    let mut engine = ConfigEngine::new(storage);
    engine.set_isolated(true);
    let mut outer = Config::empty();
    outer.default.binary = Some(true);
    engine.set_overrides(outer);
    engine.init_dir(&cwd(), None).unwrap();

    let mut inner = Config::empty();
    inner.default.binary = Some(false);
    engine.set_overrides(inner);
    let sub = join(&cwd(), "sub");
    engine.init_dir(&sub, None).unwrap();

    let deep = join(&join(&sub, "deeper"), "file.txt");
    assert!(!engine.policy(&deep).binary);
    assert!(engine.policy(&join(&cwd(), "file.txt")).binary);
}

#[test]
fn walk_settings_come_from_the_files_section() {
    let mut config = Config::empty();
    config.files.ignore_hidden = Some(false);
    config.files.extend_exclude.push("target".to_string());
    let mut engine = engine_with(config);
    engine.init_dir(&cwd(), None).unwrap();
    let walk = engine.walk(&cwd());
    assert!(!walk.ignore_hidden());
    assert!(walk.ignore_vcs());
    assert_eq!(walk.extend_exclude, vec!["target".to_string()]);
}

#[test]
fn isolation_ignores_project_file() {
    let mut project = Config::empty();
    project.default.binary = Some(true);

    let isolated = engine_with(Config::empty());
    assert_eq!(isolated.load_config(Some(&project)).default.binary, None);

    let mut open = ConfigEngine::new(ConfigStorage::new());
    open.set_overrides(Config::empty());
    assert_eq!(open.load_config(Some(&project)).default.binary, Some(true));
}

#[test]
fn overrides_win_over_project_and_type() {
    let mut project = Config::empty();
    project.default.check_file = Some(true);
    let mut ty = TypeEngineConfig::empty();
    ty.extend_glob.push("*.md".to_string());
    ty.engine.check_file = Some(true);
    project.type_.push(("md".to_string(), ty));

    let mut overrides = Config::empty();
    overrides.overrides.check_file = Some(false);
    let mut engine = ConfigEngine::new(ConfigStorage::new());
    engine.set_overrides(overrides);
    let loaded = engine.load_config(Some(&project));
    assert_eq!(loaded.default.check_file, Some(false));
    let i = find_type(&loaded.type_, &"md".to_string()).unwrap();
    assert_eq!(loaded.type_[i].1.engine.check_file, Some(false));
}

#[test]
fn dictionary_extensions_reach_the_policy() {
    let mut config = Config::empty();
    let mut dict = typos_policy::config::DictConfig::empty();
    dict.extend_words
        .push(("teh".to_string(), "the".to_string()));
    config.default.dict = Some(dict);
    let mut engine = engine_with(config);
    engine.init_dir(&cwd(), None).unwrap();
    let policy = engine.policy(&join(&cwd(), "a.txt"));
    assert_eq!(policy.dict.words.len(), 1);
    assert_eq!(policy.dict.identifiers.len(), 0);
}

#[test]
fn file_types_lists_added_type() {
    let mut engine = engine_with(never_type_config());
    engine.init_dir(&cwd(), None).unwrap();
    let types = engine.file_types(&cwd());
    assert!(types
        .iter()
        .any(|(name, globs)| name == NEVER_EXIST_TYPE && globs == &vec![NEVER_EXIST_TYPE.to_string()]));
    assert!(types.iter().any(|(name, _)| name == "rust"));
}

#[test]
fn tokenizer_switch_reaches_the_policy() {
    let mut config = Config::empty();
    config.default.tokenizer = Some(typos_policy::config::TokenizerConfig {
        unicode: Some(false),
        ignore_hex: None,
        identifier_leading_digits: None,
    });
    let mut engine = engine_with(config);
    engine.init_dir(&cwd(), None).unwrap();
    assert!(!engine.policy(&join(&cwd(), "a.txt")).tokenizer.unicode);

    let mut plain = engine_with(Config::empty());
    plain.init_dir(&cwd(), None).unwrap();
    assert!(plain.policy(&join(&cwd(), "a.txt")).tokenizer.unicode);
}

#[test]
fn failed_init_keeps_earlier_directories() {
    let mut engine = engine_with(never_type_config());
    engine.init_dir(&cwd(), None).unwrap();
    let mut bad = Config::empty();
    bad.type_
        .push((NEVER_EXIST_TYPE.to_string(), TypeEngineConfig::empty()));
    engine.set_overrides(bad);
    let other = vec!["elsewhere".to_string()];
    assert!(engine.init_dir(&other, None).is_err());
    assert!(!engine.policy(&join(&cwd(), NEVER_EXIST_TYPE)).binary);
    assert!(engine.policy(&join(&cwd(), "Cargo.toml")).binary);
}
