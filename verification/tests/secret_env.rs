use std::cell::Cell;
use std::collections::HashMap;

use config::{Config, ConfigError, File, FileFormat, Source, Value, ValueKind};
use config_secret::collect::{origin_for, Collector};
use config_secret::pattern::Target;
use config_secret::tree::Tree;
use config_secret::EnvironmentSecretFile;

fn json_document() -> &'static str {
    r#"{
  "server": { "host": "0.0.0.0", "port": 5000 },
  "redis": {
    "nodes": [
      "redis://10.0.0.1:6379",
      "redis://10.0.0.2:6379",
      "redis://10.0.0.3:6379"
    ]
  }
}"#
}

fn yaml_document() -> &'static str {
    "server:\n  host: 0.0.0.0\n  port: 5000\nredis:\n  nodes:\n    - redis://10.0.0.1:6379\n    - redis://10.0.0.2:6379\n    - redis://10.0.0.3:6379\n"
}

fn get_test_file(path: &str) -> String {
    format!("/srv/tests/assets/{}", path)
}

fn to_tree(map: HashMap<String, Value>) -> Tree {
    let mut tree = Tree::new();
    for (key, value) in map {
        tree.insert(key, value);
    }
    tree
}

fn to_map(tree: Tree) -> HashMap<String, Value> {
    tree.into_entries().into_iter().collect()
}

/// Stands for the document loader: the documents are held in memory and
/// found by the file name at the end of the path.
fn load(path: &str) -> Result<Tree, ConfigError> {
    let (text, format) = if path.ends_with("config.json") {
        (json_document(), FileFormat::Json)
    } else if path.ends_with("config.yaml") {
        (yaml_document(), FileFormat::Yaml)
    } else if path.ends_with("other.json") {
        (r#"{ "server": "elsewhere", "extra": true }"#, FileFormat::Json)
    } else if path.ends_with("broken.json") {
        (r#"{ "server": "#, FileFormat::Json)
    } else {
        return Err(ConfigError::NotFound(path.to_string()));
    };
    File::from_str(text, format).collect().map(to_tree)
}

fn pairs(vars: &[(&str, &str)]) -> Vec<(String, String)> {
    vars.iter().map(|(name, value)| (name.to_string(), value.to_string())).collect()
}

fn try_collect(
    source: &EnvironmentSecretFile,
    vars: &[(&str, &str)],
) -> Result<HashMap<String, Value>, ConfigError> {
    source.collect_with(&pairs(vars), load).map(to_map)
}

fn collect(source: &EnvironmentSecretFile, vars: &[(&str, &str)]) -> HashMap<String, Value> {
    try_collect(source, vars).unwrap()
}

#[derive(Clone, Debug)]
struct Collected(HashMap<String, Value>);

impl Source for Collected {
    fn clone_into_box(&self) -> Box<dyn Source + Send + Sync> {
        Box::new(self.clone())
    }

    fn collect(&self) -> Result<HashMap<String, Value>, ConfigError> {
        Ok(self.0.clone())
    }
}

struct Settings {
    server: ServerSettings,
    redis: RedisSettings,
}

struct ServerSettings {
    host: String,
    port: u16,
}

struct RedisSettings {
    nodes: Vec<String>,
}

struct ScopedSettings {
    a: Settings,
}

fn settings_at(config: &Config, scope: &str) -> Settings {
    Settings {
        server: ServerSettings {
            host: config.get::<String>(&format!("{}server.host", scope)).unwrap(),
            port: config.get::<u16>(&format!("{}server.port", scope)).unwrap(),
        },
        redis: RedisSettings {
            nodes: config.get::<Vec<String>>(&format!("{}redis.nodes", scope)).unwrap(),
        },
    }
}

fn layered(source: &EnvironmentSecretFile, vars: &[(&str, &str)]) -> Config {
    Config::builder().add_source(Collected(collect(source, vars))).build().unwrap()
}

#[test]
fn test_prefix_is_removed_from_key() {
    let path = get_test_file("config.json");
    let vars = [("A_B_FILE", path.as_str())];
    let source = EnvironmentSecretFile::with_prefix("A");
    assert!(collect(&source, &vars).contains_key("b"));
}

#[test]
fn test_prefix_with_variant_forms_of_spelling() {
    let path = get_test_file("config.json");

    let vars = [("a_A_FILE", path.as_str())];
    let source = EnvironmentSecretFile::with_prefix("a");
    assert!(collect(&source, &vars).contains_key("a"));

    let vars = [("aB_A_FILE", path.as_str())];
    let source = EnvironmentSecretFile::with_prefix("aB");
    assert!(collect(&source, &vars).contains_key("a"));

    let vars = [("Ab_A_FILE", path.as_str())];
    let source = EnvironmentSecretFile::with_prefix("ab");
    assert!(collect(&source, &vars).contains_key("a"));
}

#[test]
fn test_separator_behavior() {
    let path = get_test_file("config.json");
    let vars = [("C_B_A_FILE", path.as_str())];
    let source = EnvironmentSecretFile::with_prefix("C").separator("_");
    assert!(collect(&source, &vars).contains_key("b.a"));
}

#[test]
fn test_empty_value_is_ignored() {
    let vars = [("C_A_B_FILE", "")];
    let source = EnvironmentSecretFile::with_prefix("c");
    assert!(!collect(&source, &vars).contains_key("a_b"));
}

#[test]
fn test_keep_prefix() {
    let path = get_test_file("config.json");
    let vars = [("C_A_C_FILE", path.as_str())];

    // Do not keep the prefix
    let source = EnvironmentSecretFile::with_prefix("C");
    assert!(collect(&source, &vars).contains_key("a_c"));

    let source = EnvironmentSecretFile::with_prefix("C").keep_prefix(false);
    assert!(collect(&source, &vars).contains_key("a_c"));

    // Keep the prefix
    let source = EnvironmentSecretFile::with_prefix("C").keep_prefix(true);
    assert!(collect(&source, &vars).contains_key("c_a_c"));
}

#[test]
fn test_custom_separator_behavior() {
    let path = get_test_file("config.json");
    let vars = [("C.B.A.FILE", path.as_str())];
    let source = EnvironmentSecretFile::with_prefix("C").separator(".");
    assert!(collect(&source, &vars).contains_key("b.a"));
}

#[test]
fn test_custom_prefix_separator_behavior() {
    let path = get_test_file("config.json");
    let vars = [("C-B.A.FILE", path.as_str())];
    let source = EnvironmentSecretFile::with_prefix("C").separator(".").prefix_separator("-");

    assert!(collect(&source, &vars).contains_key("b.a"));
}

#[test]
fn test_custom_suffix_behavior() {
    let path = get_test_file("config.json");
    let vars = [("C_B_A_SECRET", path.as_str())];
    let source = EnvironmentSecretFile::with_prefix("C").separator("_").suffix("SECRET");

    assert!(collect(&source, &vars).contains_key("b.a"));
}

#[test]
fn test_custom_suffix_separator_behavior() {
    let path = get_test_file("config.json");
    let vars = [("C.B.A-FILE", path.as_str())];
    let source = EnvironmentSecretFile::with_prefix("C").separator(".").suffix_separator("-");

    assert!(collect(&source, &vars).contains_key("b.a"));
}

#[test]
fn test_any_format_behavior() {
    let path = get_test_file("config.yaml");
    let vars = [("D_E_F_FILE", path.as_str())];
    let source = EnvironmentSecretFile::with_prefix("D").separator("_");
    assert!(collect(&source, &vars).contains_key("e.f"));
}

#[test]
fn test_full_pattern_behavior() {
    let path = get_test_file("config.yaml");
    let vars = [("F_FILE", path.as_str())];
    let source = EnvironmentSecretFile::with_prefix("F").separator("_");
    assert!(collect(&source, &vars).contains_key("server"));
    assert!(collect(&source, &vars).contains_key("redis"));
}

#[test]
fn test_scoped_serialize() {
    let path = get_test_file("config.json");
    let vars = [("J_A_FILE", path.as_str())];
    let source = EnvironmentSecretFile::with_prefix("J").separator("_");

    let config = layered(&source, &vars);

    let settings = ScopedSettings { a: settings_at(&config, "a.") };

    assert!(settings.a.server.host == "0.0.0.0");
    assert!(settings.a.server.port == 5000);
    assert!(
        settings.a.redis.nodes
            == vec!["redis://10.0.0.1:6379", "redis://10.0.0.2:6379", "redis://10.0.0.3:6379"]
    );
}

#[test]
fn test_scoped_serialize_yaml() {
    let path = get_test_file("config.yaml");
    let vars = [("Y_A_FILE", path.as_str())];
    let source = EnvironmentSecretFile::with_prefix("Y").separator("_");

    let config = layered(&source, &vars);

    let settings = ScopedSettings { a: settings_at(&config, "a.") };

    assert!(settings.a.server.host == "0.0.0.0");
    assert!(settings.a.server.port == 5000);
    assert!(
        settings.a.redis.nodes
            == vec!["redis://10.0.0.1:6379", "redis://10.0.0.2:6379", "redis://10.0.0.3:6379"]
    );
}

#[test]
fn test_full_serialize() {
    let path = get_test_file("config.json");
    let vars = [("F_FILE", path.as_str())];
    let source = EnvironmentSecretFile::with_prefix("F").separator("_");

    let config = layered(&source, &vars);

    let settings = settings_at(&config, "");

    assert!(settings.server.host == "0.0.0.0");
    assert!(settings.server.port == 5000);
    assert!(
        settings.redis.nodes
            == vec!["redis://10.0.0.1:6379", "redis://10.0.0.2:6379", "redis://10.0.0.3:6379"]
    );
}

#[test]
fn test_full_serialize_yaml() {
    let path = get_test_file("config.yaml");
    let vars = [("FY_FILE", path.as_str())];
    let source = EnvironmentSecretFile::with_prefix("FY").separator("_");

    let config = layered(&source, &vars);

    let settings = settings_at(&config, "");

    assert!(settings.server.host == "0.0.0.0");
    assert!(settings.server.port == 5000);
    assert!(
        settings.redis.nodes
            == vec!["redis://10.0.0.1:6379", "redis://10.0.0.2:6379", "redis://10.0.0.3:6379"]
    );
}

#[test]
fn json_and_yaml_documents_load_to_the_same_tree() {
    let from_json = to_map(load("config.json").unwrap());
    let from_yaml = to_map(load("config.yaml").unwrap());
    assert_eq!(from_json.len(), 2);
    assert_eq!(from_json.get("server").unwrap().kind, from_yaml.get("server").unwrap().kind);
    assert_eq!(from_json.get("redis").unwrap().kind, from_yaml.get("redis").unwrap().kind);
}

#[test]
fn default_patterns_without_prefix() {
    let patterns = EnvironmentSecretFile::default().patterns();
    assert_eq!(patterns.prefix_pattern(), None);
    assert_eq!(patterns.suffix_pattern(), "_file");
    assert_eq!(patterns.full_pattern(), "file");
}

#[test]
fn default_patterns_with_prefix() {
    let patterns = EnvironmentSecretFile::with_prefix("App").patterns();
    assert_eq!(patterns.prefix_pattern(), Some("app_".to_string()));
    assert_eq!(patterns.suffix_pattern(), "_file");
    assert_eq!(patterns.full_pattern(), "app_file");
}

#[test]
fn separator_is_the_default_around_prefix_and_suffix() {
    let patterns = EnvironmentSecretFile::with_prefix("C").separator(".").patterns();
    assert_eq!(patterns.prefix_pattern(), Some("c.".to_string()));
    assert_eq!(patterns.suffix_pattern(), ".file");
    assert_eq!(patterns.full_pattern(), "c.file");
}

#[test]
fn own_separators_override_the_shared_one() {
    let patterns = EnvironmentSecretFile::with_prefix("C")
        .separator(".")
        .prefix_separator("-")
        .suffix_separator("+")
        .suffix("Secret")
        .patterns();
    assert_eq!(patterns.prefix_pattern(), Some("c-".to_string()));
    assert_eq!(patterns.suffix_pattern(), "+secret");
}

#[test]
fn full_pattern_has_no_separator_where_the_separators_differ() {
    let patterns =
        EnvironmentSecretFile::with_prefix("C").separator(".").prefix_separator("-").patterns();
    assert_eq!(patterns.full_pattern(), "cfile");

    let patterns = EnvironmentSecretFile::with_prefix("C").suffix_separator("-").patterns();
    assert_eq!(patterns.full_pattern(), "cfile");
}

#[test]
fn full_pattern_keeps_the_separator_where_both_are_set_alike() {
    let patterns = EnvironmentSecretFile::with_prefix("C")
        .prefix_separator("-")
        .suffix_separator("-")
        .suffix("S")
        .patterns();
    assert_eq!(patterns.full_pattern(), "c-s");
}

#[test]
fn full_pattern_matches_whatever_the_case() {
    let path = get_test_file("config.json");
    let source = EnvironmentSecretFile::with_prefix("App");
    for name in ["APP_FILE", "app_file", "App_File"] {
        let tree = collect(&source, &[(name, path.as_str())]);
        assert_eq!(tree.len(), 2);
        assert!(tree.contains_key("server"));
        assert!(tree.contains_key("redis"));
    }
}

#[test]
fn full_pattern_without_prefix_is_the_suffix() {
    let path = get_test_file("config.json");
    let source = EnvironmentSecretFile::default();
    let tree = collect(&source, &[("FILE", path.as_str())]);
    assert_eq!(tree.len(), 2);
    assert!(tree.contains_key("server"));
}

#[test]
fn full_pattern_with_differing_separators_is_matched() {
    let path = get_test_file("config.json");
    let source = EnvironmentSecretFile::with_prefix("C").separator(".").prefix_separator("-");
    let tree = collect(&source, &[("CFILE", path.as_str())]);
    assert!(tree.contains_key("server"));
    assert!(tree.contains_key("redis"));
}

#[test]
fn merged_values_are_those_of_the_document() {
    let path = get_test_file("config.json");
    let source = EnvironmentSecretFile::with_prefix("F");
    let tree = collect(&source, &[("F_FILE", path.as_str())]);
    let document = to_map(load(&path).unwrap());
    assert_eq!(tree, document);
}

#[test]
fn attached_table_holds_the_document_and_its_origin() {
    let path = get_test_file("config.json");
    let source = EnvironmentSecretFile::with_prefix("P");
    let tree = collect(&source, &[("P_X_FILE", path.as_str())]);
    assert_eq!(tree.len(), 1);
    let value = tree.get("x").unwrap();
    assert_eq!(value.origin(), Some("secret:x:/srv/tests/assets/config.json"));
    assert_eq!(value.kind, ValueKind::Table(to_map(load(&path).unwrap())));
}

#[test]
fn kept_prefix_is_part_of_key_and_origin() {
    let path = get_test_file("config.json");
    let source = EnvironmentSecretFile::with_prefix("P").keep_prefix(true);
    let tree = collect(&source, &[("P_X_FILE", path.as_str())]);
    assert_eq!(tree.len(), 1);
    let value = tree.get("p_x").unwrap();
    assert_eq!(value.origin(), Some("secret:p_x:/srv/tests/assets/config.json"));
}

#[test]
fn kept_prefix_is_translated_with_the_key() {
    let path = get_test_file("config.json");
    let source = EnvironmentSecretFile::with_prefix("C").separator("_").keep_prefix(true);
    let tree = collect(&source, &[("C_A_C_FILE", path.as_str())]);
    assert!(tree.contains_key("c.a.c"));
    assert_eq!(tree.len(), 1);
}

#[test]
fn key_is_lower_cased_and_path_is_not() {
    let source = EnvironmentSecretFile::with_prefix("app");
    let tree = collect(&source, &[("APP_DataBase_FILE", "/Secrets/APP/config.json")]);
    let value = tree.get("database").unwrap();
    assert_eq!(value.origin(), Some("secret:database:/Secrets/APP/config.json"));
}

#[test]
fn names_outside_the_ascii_range_are_lower_cased() {
    let path = get_test_file("config.json");
    let source = EnvironmentSecretFile::with_prefix("É");
    let tree = collect(&source, &[("É_ÄB_FILE", path.as_str())]);
    assert!(tree.contains_key("äb"));
    assert_eq!(tree.len(), 1);
}

#[test]
fn same_shape_under_either_separator() {
    let path = get_test_file("config.json");
    let underscores = collect(
        &EnvironmentSecretFile::with_prefix("C").separator("_"),
        &[("C_B_A_FILE", path.as_str())],
    );
    let dots = collect(
        &EnvironmentSecretFile::with_prefix("C").separator("."),
        &[("C.B.A.FILE", path.as_str())],
    );
    assert_eq!(underscores.len(), 1);
    assert_eq!(underscores, dots);
}

#[test]
fn separator_of_several_characters() {
    let path = get_test_file("config.json");
    let source = EnvironmentSecretFile::with_prefix("C").separator("__");
    let tree = collect(&source, &[("C__B__A_X__FILE", path.as_str())]);
    assert!(tree.contains_key("b.a_x"));
}

#[test]
fn occurrences_of_the_separator_do_not_overlap() {
    let path = get_test_file("config.json");
    let source = EnvironmentSecretFile::default().separator("__").suffix_separator("-");
    let tree = collect(&source, &[("A___B_____C-FILE", path.as_str())]);
    assert!(tree.contains_key("a._b.._c"));
}

#[test]
fn no_prefix_takes_every_name_with_the_suffix() {
    let path = get_test_file("config.json");
    let source = EnvironmentSecretFile::default();
    let vars = [("DB_FILE", path.as_str()), ("HOME", "/root"), ("CACHE_FILE", path.as_str())];
    let tree = collect(&source, &vars);
    assert_eq!(tree.len(), 2);
    assert!(tree.contains_key("db"));
    assert!(tree.contains_key("cache"));
}

#[test]
fn suffix_alone_after_the_prefix_gives_the_empty_key() {
    let path = get_test_file("config.json");
    let source = EnvironmentSecretFile::with_prefix("C");
    let tree = collect(&source, &[("C__FILE", path.as_str())]);
    assert_eq!(tree.len(), 1);
    assert!(tree.contains_key(""));
}

#[test]
fn names_that_fail_a_check_are_passed_over() {
    let path = get_test_file("config.json");
    let source = EnvironmentSecretFile::with_prefix("C");
    let vars = [
        ("D_A_FILE", path.as_str()),
        ("C_A_FILES", path.as_str()),
        ("C_A", path.as_str()),
        ("CA_FILE", path.as_str()),
        ("XC_A_FILE", path.as_str()),
        ("PATH", "/usr/bin"),
    ];
    assert!(collect(&source, &vars).is_empty());
}

#[test]
fn passed_over_variables_are_not_loaded() {
    let source = EnvironmentSecretFile::with_prefix("C");
    let vars = [("HOME", "/no/such/file"), ("C_A", "/no/such/file"), ("C_A_FILE", "")];
    assert!(try_collect(&source, &vars).unwrap().is_empty());
}

#[test]
fn empty_value_is_ignored_for_the_full_pattern_too() {
    let source = EnvironmentSecretFile::with_prefix("F");
    assert!(collect(&source, &[("F_FILE", "")]).is_empty());
}

#[test]
fn later_variable_wins_on_the_same_key() {
    let first = get_test_file("config.json");
    let second = get_test_file("other.json");
    let source = EnvironmentSecretFile::with_prefix("c");
    let vars = [("C_A_FILE", first.as_str()), ("c_a_file", second.as_str())];
    let tree = collect(&source, &vars);
    assert_eq!(tree.len(), 1);
    assert_eq!(tree.get("a").unwrap().origin(), Some("secret:a:/srv/tests/assets/other.json"));
    assert_eq!(tree.get("a").unwrap().kind, ValueKind::Table(to_map(load(&second).unwrap())));
}

#[test]
fn later_root_merge_replaces_earlier_keys() {
    let first = get_test_file("config.json");
    let second = get_test_file("other.json");
    let source = EnvironmentSecretFile::with_prefix("F");
    let vars = [("F_FILE", first.as_str()), ("f_file", second.as_str())];
    let tree = collect(&source, &vars);
    assert_eq!(tree.len(), 3);
    assert_eq!(tree.get("server").unwrap().kind, ValueKind::String("elsewhere".to_string()));
    assert_eq!(tree.get("extra").unwrap().kind, ValueKind::Boolean(true));
    assert!(tree.contains_key("redis"));
}

#[test]
fn root_merge_replaces_an_attached_table() {
    let first = get_test_file("config.json");
    let source = EnvironmentSecretFile::with_prefix("F");
    let vars = [("F_SERVER_FILE", first.as_str()), ("F_FILE", first.as_str())];
    let tree = collect(&source, &vars);
    assert_eq!(tree, to_map(load(&first).unwrap()));
}

#[test]
fn one_failed_load_fails_the_whole_pass() {
    let good = get_test_file("config.json");
    let bad = get_test_file("broken.json");
    let source = EnvironmentSecretFile::with_prefix("C");
    let vars = [("C_A_FILE", good.as_str()), ("C_B_FILE", bad.as_str()), ("C_C_FILE", good.as_str())];
    let outcome = try_collect(&source, &vars);
    assert!(matches!(outcome, Err(ConfigError::FileParse { .. })));
}

#[test]
fn failed_load_at_the_root_fails_the_whole_pass() {
    let good = get_test_file("config.json");
    let source = EnvironmentSecretFile::with_prefix("C");
    let vars = [("C_A_FILE", good.as_str()), ("C_FILE", "/no/such/file")];
    match try_collect(&source, &vars) {
        Err(ConfigError::NotFound(path)) => assert_eq!(path, "/no/such/file"),
        other => panic!("expected the loader's error, got {:?}", other),
    }
}

#[test]
fn first_failure_is_the_one_reported() {
    let source = EnvironmentSecretFile::with_prefix("C");
    let vars = [("C_A_FILE", "/first/missing"), ("C_B_FILE", "/second/missing")];
    match try_collect(&source, &vars) {
        Err(ConfigError::NotFound(path)) => assert_eq!(path, "/first/missing"),
        other => panic!("expected the first error, got {:?}", other),
    }
}

#[test]
fn nothing_is_loaded_after_a_failure() {
    let good = get_test_file("config.json");
    let bad = get_test_file("broken.json");
    let source = EnvironmentSecretFile::with_prefix("C");
    let vars = pairs(&[
        ("C_A_FILE", good.as_str()),
        ("HOME", "/root"),
        ("C_B_FILE", bad.as_str()),
        ("C_C_FILE", good.as_str()),
        ("C_FILE", good.as_str()),
    ]);
    let calls = Cell::new(0);
    let outcome = source.collect_with(&vars, |path: &str| {
        calls.set(calls.get() + 1);
        load(path)
    });
    assert!(outcome.is_err());
    assert_eq!(calls.get(), 2);
}

#[test]
fn loader_is_called_with_the_value_as_it_stands() {
    let source = EnvironmentSecretFile::with_prefix("C");
    let vars = pairs(&[("C_A_FILE", "/Mixed/Case/config.json")]);
    let seen = Cell::new(false);
    let outcome = source.collect_with(&vars, |path: &str| {
        seen.set(path == "/Mixed/Case/config.json");
        load(path)
    });
    assert!(outcome.is_ok());
    assert!(seen.get());
}

#[test]
fn no_variables_give_the_empty_tree() {
    let source = EnvironmentSecretFile::with_prefix("C");
    assert!(collect(&source, &[]).is_empty());
}

#[test]
fn builders_set_and_replace_fields() {
    let path = get_test_file("config.json");
    let source = EnvironmentSecretFile::default().prefix("A").prefix("B");
    let vars = [("A_X_FILE", path.as_str()), ("B_Y_FILE", path.as_str())];
    let tree = collect(&source, &vars);
    assert_eq!(tree.len(), 1);
    assert!(tree.contains_key("y"));
}

#[test]
fn clone_keeps_the_configuration() {
    let source = EnvironmentSecretFile::with_prefix("C")
        .separator(".")
        .prefix_separator("-")
        .suffix("S")
        .suffix_separator("+")
        .keep_prefix(true);
    let copy = source.clone();
    let path = get_test_file("config.json");
    let vars = [("C-B.A+S", path.as_str())];
    assert_eq!(collect(&source, &vars), collect(&copy, &vars));
    assert!(collect(&copy, &vars).contains_key("c-b.a"));
}

#[test]
fn classify_tells_the_three_cases_apart() {
    let patterns = EnvironmentSecretFile::with_prefix("C").separator("_").patterns();
    assert!(matches!(patterns.classify("C_FILE", "x.json"), Some(Target::Root)));
    match patterns.classify("C_B_A_FILE", "x.json") {
        Some(Target::Key(key)) => assert_eq!(key, "b.a"),
        other => panic!("expected a key, got {:?}", other),
    }
    assert!(patterns.classify("C_B_A_FILE", "").is_none());
    assert!(patterns.classify("C_FILE", "").is_none());
    assert!(patterns.classify("D_B_A_FILE", "x.json").is_none());
    assert!(patterns.classify("C_B_A", "x.json").is_none());
}

#[test]
fn collector_goes_step_by_step() {
    let source = EnvironmentSecretFile::with_prefix("C");
    let mut collector: Collector = source.collector();

    assert!(collector.decide("HOME", "/root").is_none());

    let target = collector.decide("C_A_FILE", "config.json").unwrap();
    assert!(matches!(&target, Target::Key(key) if key == "a"));
    collector.record(target, "config.json", load("config.json"));

    let target = collector.decide("C_FILE", "other.json").unwrap();
    assert!(matches!(target, Target::Root));
    collector.record(target, "other.json", load("other.json"));

    let tree = collector.finish().unwrap();
    assert!(tree.contains_key("a"));
    assert!(tree.contains_key("server"));
    assert!(tree.contains_key("extra"));
    assert!(!tree.contains_key("redis"));
}

#[test]
fn collector_asks_for_nothing_after_a_failure() {
    let source = EnvironmentSecretFile::with_prefix("C");
    let mut collector = source.collector();

    let target = collector.decide("C_A_FILE", "missing").unwrap();
    collector.record(target, "missing", load("missing"));
    assert!(collector.decide("C_B_FILE", "config.json").is_none());
    assert!(collector.decide("C_FILE", "config.json").is_none());

    collector.record(Target::Root, "config.json", load("config.json"));
    match collector.finish() {
        Err(ConfigError::NotFound(path)) => assert_eq!(path, "missing"),
        other => panic!("expected the first error, got {:?}", other),
    }
}

#[test]
fn origin_is_made_of_key_and_path() {
    assert_eq!(origin_for("b.a", "/etc/secret.yaml"), "secret:b.a:/etc/secret.yaml");
    assert_eq!(origin_for("", ""), "secret::");
}

#[test]
fn tree_insert_get_and_replace() {
    let mut tree = Tree::new();
    assert!(!tree.contains_key("a"));
    assert!(tree.get("a").is_none());

    tree.insert("a".to_string(), Value::from(1));
    tree.insert("b".to_string(), Value::from("two"));
    tree.insert("a".to_string(), Value::from(3));

    assert!(tree.contains_key("a"));
    assert!(tree.contains_key("b"));
    assert!(!tree.contains_key("A"));
    assert_eq!(tree.get("a").unwrap().kind, ValueKind::I64(3));
    assert_eq!(tree.get("b").unwrap().kind, ValueKind::String("two".to_string()));

    let entries = tree.into_entries();
    assert_eq!(entries.len(), 2);
    assert_eq!(entries[0].0, "a");
    assert_eq!(entries[0].1.kind, ValueKind::I64(3));
    assert_eq!(entries[1].0, "b");
}

#[test]
fn tree_merge_prefers_the_other_tree() {
    let mut tree = Tree::new();
    tree.insert("a".to_string(), Value::from(1));
    tree.insert("b".to_string(), Value::from(2));

    let mut other = Tree::new();
    other.insert("b".to_string(), Value::from(20));
    other.insert("c".to_string(), Value::from(30));

    tree.merge(other);
    let map = to_map(tree);
    assert_eq!(map.len(), 3);
    assert_eq!(map.get("a").unwrap().kind, ValueKind::I64(1));
    assert_eq!(map.get("b").unwrap().kind, ValueKind::I64(20));
    assert_eq!(map.get("c").unwrap().kind, ValueKind::I64(30));
}
