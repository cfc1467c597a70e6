use dictation_core::models::discover_models_from;
use dictation_core::models::extract_json_string;
use dictation_core::models::parse_model_json;
use dictation_core::models::str_le;
use dictation_core::models::ModelInfo;

const SMALL: &str = "{\n  \"key\": \"small-en-us\",\n  \"size\": \"40M\",\n  \"description\": \"Lightweight model\"\n}\n";
const BIG: &str = "{\n  \"key\": \"big-en-us\",\n  \"size\": \"1.8G\",\n  \"description\": \"Accurate model\"\n}\n";

#[test]
fn extract_finds_value() {
    assert_eq!(
        extract_json_string(SMALL, "key"),
        Some("small-en-us".to_string())
    );
    assert_eq!(extract_json_string(SMALL, "size"), Some("40M".to_string()));
    assert_eq!(
        extract_json_string(SMALL, "description"),
        Some("Lightweight model".to_string())
    );
}

#[test]
fn extract_missing_field_is_none() {
    assert_eq!(extract_json_string(SMALL, "license"), None);
    assert_eq!(extract_json_string("", "key"), None);
}

#[test]
fn extract_needs_colon_and_quotes() {
    assert_eq!(extract_json_string("\"key\"", "key"), None);
    assert_eq!(extract_json_string("\"key\":", "key"), None);
    assert_eq!(extract_json_string("\"key\": \"open", "key"), None);
}

#[test]
fn extract_empty_value() {
    assert_eq!(
        extract_json_string("{\"key\": \"\"}", "key"),
        Some("".to_string())
    );
}

#[test]
fn extract_takes_first_occurrence() {
    assert_eq!(
        extract_json_string("{\"key\": \"a\", \"key\": \"b\"}", "key"),
        Some("a".to_string())
    );
}

#[test]
fn parse_full_descriptor() {
    let m = parse_model_json(SMALL).unwrap();
    assert_eq!(m.key, "small-en-us");
    assert_eq!(m.size, "40M");
    assert_eq!(m.description, "Lightweight model");
}

#[test]
fn parse_missing_key_is_skipped() {
    assert_eq!(
        parse_model_json("{\"size\": \"40M\", \"description\": \"x\"}"),
        None
    );
}

#[test]
fn parse_missing_size_falls_back() {
    let m = parse_model_json("{\"key\": \"k\", \"description\": \"x\"}").unwrap();
    assert_eq!(m.size, "Unknown");
    assert_eq!(m.description, "x");
}

#[test]
fn parse_missing_description_falls_back() {
    let m = parse_model_json("{\"key\": \"k\", \"size\": \"40M\"}").unwrap();
    assert_eq!(m.description, "No description");
}

#[test]
fn discover_sorts_by_key() {
    // listing order small before big: output must still be sorted by key
    let contents = vec![SMALL.to_string(), BIG.to_string()];
    let models = discover_models_from(&contents);
    let keys: Vec<&str> = models.iter().map(|m| m.key.as_str()).collect();
    assert_eq!(keys, vec!["big-en-us", "small-en-us"]);

    let contents_rev = vec![BIG.to_string(), SMALL.to_string()];
    let models_rev = discover_models_from(&contents_rev);
    let keys_rev: Vec<&str> = models_rev.iter().map(|m| m.key.as_str()).collect();
    assert_eq!(keys_rev, vec!["big-en-us", "small-en-us"]);
}

#[test]
fn discover_skips_malformed() {
    let contents = vec![
        SMALL.to_string(),
        "not a descriptor at all".to_string(),
        "{\"size\": \"1G\"}".to_string(),
    ];
    let models = discover_models_from(&contents);
    assert_eq!(models.len(), 1);
    assert_eq!(models[0].key, "small-en-us");
}

#[test]
fn discover_empty_input() {
    let contents: Vec<String> = Vec::new();
    assert_eq!(discover_models_from(&contents), Vec::<ModelInfo>::new());
}

#[test]
fn discover_keeps_duplicates() {
    let contents = vec![BIG.to_string(), BIG.to_string()];
    let models = discover_models_from(&contents);
    assert_eq!(models.len(), 2);
    assert_eq!(models[0], models[1]);
}

#[test]
fn string_order_is_lexicographic() {
    assert!(str_le("big-en-us", "small-en-us"));
    assert!(!str_le("small-en-us", "big-en-us"));
    assert!(str_le("", "a"));
    assert!(str_le("ab", "ab"));
    assert!(str_le("ab", "abc"));
    assert!(!str_le("abc", "ab"));
}
