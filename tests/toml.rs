use dev_utils::app_data::extract_app_data_with_sections;
use dev_utils::toml::{extract_key_value, TomlFile};

const CARGO: &str = "# package metadata\n[package]\nname = \"dev_utils\"  # the name\nversion = \"0.1.0\"\nkeywords = [\"dev\",\n  \"utils\"]\nauthors = [\n\"A\",\n\"B\"\n]\n\n[dependencies]\nrand = \"0.8\"\n\r\n[package]\nname = \"again\"\n";

#[test]
fn key_value_lines() {
    assert_eq!(
        extract_key_value(" name = \"x\" "),
        Some(("name".to_string(), "x".to_string()))
    );
    assert_eq!(
        extract_key_value("a=b=c"),
        Some(("a".to_string(), "b=c".to_string()))
    );
    assert_eq!(extract_key_value("no pair here"), None);
}

#[test]
fn toml_sections_and_lookups() {
    let file = TomlFile::new("Cargo.toml", CARGO);
    assert_eq!(file.path, "Cargo.toml");
    assert_eq!(file.data.len(), 2);
    assert_eq!(
        file.get_section_attribute("package", "name"),
        Some(&"again".to_string())
    );
    assert_eq!(
        file.get_section_attribute("package", "version"),
        Some(&"0.1.0".to_string())
    );
    assert_eq!(
        file.get_section_attribute("dependencies", "rand"),
        Some(&"0.8".to_string())
    );
    assert_eq!(file.get_section_attribute("dependencies", "serde"), None);
    assert_eq!(file.get_section_attribute("lib", "name"), None);
    let package = file.get_section_data("package").unwrap();
    assert_eq!(package[0], ("name".to_string(), "again".to_string()));
    assert!(file.get_section_data("workspace").is_none());
}

#[test]
fn keys_before_any_section_are_dropped() {
    let file = TomlFile::new("x.toml", "a = 1\n[s]\nb = 2");
    assert_eq!(file.data.len(), 1);
    assert_eq!(file.get_section_attribute("s", "b"), Some(&"2".to_string()));
    assert_eq!(file.get_section_attribute("", "a"), None);
}

#[test]
fn app_data_picks_wanted_keys() {
    let wanted: &[(&str, &[&str])] = &[
        ("package", &["name", "version", "keywords", "authors"]),
        ("dependencies", &["serde"]),
    ];
    let data = extract_app_data_with_sections(CARGO, wanted);
    assert_eq!(data.len(), 1);
    let (section, entries) = &data[0];
    assert_eq!(section, "package");
    let get = |k: &str| {
        entries
            .iter()
            .find(|(key, _)| key == k)
            .map(|(_, v)| v.clone())
    };
    assert_eq!(get("name"), Some("again".to_string()));
    assert_eq!(get("version"), Some("0.1.0".to_string()));
    assert_eq!(get("keywords"), Some("\"dev\",\"utils\"".to_string()));
    assert_eq!(get("authors"), Some("\"A\",\"B\"".to_string()));
}
