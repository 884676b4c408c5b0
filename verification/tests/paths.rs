use vscode2helix::paths::{default_output, output_path, strip_suffix};

#[test]
fn default_output_replaces_the_ending() {
    assert_eq!(default_output("theme.json"), Some("theme.toml".to_string()));
    assert_eq!(default_output("theme.jsonc"), Some("theme.toml".to_string()));
    assert_eq!(default_output("dir/my.theme.json"), Some("dir/my.theme.toml".to_string()));
    assert_eq!(default_output(".json"), Some(".toml".to_string()));
    assert_eq!(default_output("a.json.jsonc"), Some("a.json.toml".to_string()));
    assert_eq!(default_output("a.jsonc.json"), Some("a.jsonc.toml".to_string()));
    assert_eq!(default_output("thème.json"), Some("thème.toml".to_string()));
}

#[test]
fn default_output_of_other_names_is_none() {
    assert_eq!(default_output("theme.toml"), None);
    assert_eq!(default_output("theme"), None);
    assert_eq!(default_output(""), None);
    assert_eq!(default_output("theme.JSON"), None);
    assert_eq!(default_output("theme.json "), None);
    assert_eq!(default_output("json"), None);
}

#[test]
fn output_path_prefers_the_named_file() {
    assert_eq!(output_path("in.json", Some("out.toml".to_string())), Some("out.toml".to_string()));
    assert_eq!(output_path("in.txt", Some("x".to_string())), Some("x".to_string()));
    assert_eq!(output_path("in.jsonc", None), Some("in.toml".to_string()));
    assert_eq!(output_path("in.txt", None), None);
}

#[test]
fn strip_suffix_agrees_with_std() {
    let names = ["", "a", ".json", "a.json", "a.jsonc", "json", "é.json", "a.json.json"];
    let endings = ["", ".json", ".jsonc", "n", "é.json", "a.json.json.json"];
    for name in names {
        for ending in endings {
            assert_eq!(strip_suffix(name, ending), name.strip_suffix(ending));
        }
    }
}
