use json_comments::StripComments;
use vscode2helix::converter::helix;
use vscode2helix::converter::vscode::{Palette, Scope, Settings, Theme, TokenColor};

const DOCUMENT: &str = r##"{
    // the palette
    "colors": {
        "editor.background": "#1e1e1e",
        "editor.selectionBackground": "#264f78", /* swapped on purpose */
        "editor.selectionForeground": "#ffffff",
        "statusBar.foreground": "#cccccc"
    },
    # the rules
    "tokenColors": [
        { "scope": "comment", "settings": { "fontStyle": "italic", "foreground": "#6a9955" } },
        { "scope": ["entity.name.function", "entity.name"], "settings": { "foreground": "#dcdcaa" } },
        { "scope": "comment", "settings": { "fontStyle": "bold" } },
        { "scope": "punctuation", "settings": {} }
    ]
}"##;

fn text_of(value: &serde_json::Value, field: &str) -> Option<String> {
    value.get(field).and_then(|v| v.as_str()).map(|s| s.to_string())
}

fn source_of(document: &str) -> Theme {
    let value: serde_json::Value =
        serde_json::from_reader(StripComments::new(document.as_bytes())).unwrap();
    let mut colors = Palette::new();
    for (role, color) in value["colors"].as_object().unwrap() {
        colors.insert(role.clone(), color.as_str().unwrap().to_string());
    }
    let mut token_colors = Vec::new();
    for rule in value["tokenColors"].as_array().unwrap() {
        let scope = match &rule["scope"] {
            serde_json::Value::String(name) => Scope::String(name.clone()),
            names => Scope::StringArray(
                names.as_array().unwrap().iter().map(|n| n.as_str().unwrap().to_string()).collect(),
            ),
        };
        let settings = Settings {
            font_style: text_of(&rule["settings"], "fontStyle"),
            foreground: text_of(&rule["settings"], "foreground"),
            background: text_of(&rule["settings"], "background"),
        };
        token_colors.push(TokenColor { scope, settings });
    }
    Theme { colors, token_colors }
}

fn rendered(theme: &helix::Theme) -> String {
    let mut table = toml::value::Table::new();
    for key in theme.keys() {
        let record = theme.get(key).unwrap();
        let mut fields = toml::value::Table::new();
        if let Some(fg) = &record.fg {
            fields.insert("fg".to_string(), toml::Value::String(fg.clone()));
        }
        if let Some(bg) = &record.bg {
            fields.insert("bg".to_string(), toml::Value::String(bg.clone()));
        }
        if let Some(modifiers) = &record.modifiers {
            let items = modifiers.iter().map(|m| toml::Value::String(m.clone())).collect();
            fields.insert("modifiers".to_string(), toml::Value::Array(items));
        }
        table.insert(key.clone(), toml::Value::Table(fields));
    }
    toml::to_string_pretty(&toml::Value::Table(table)).unwrap()
}

#[test]
fn document_converts_to_the_same_text_twice() {
    let first = rendered(&helix::Theme::from(&source_of(DOCUMENT)));
    let second = rendered(&helix::Theme::from(&source_of(DOCUMENT)));
    assert_eq!(first, second);
    assert!(!first.is_empty());
}

#[test]
fn document_with_comments_converts_to_the_expected_theme() {
    let theme = helix::Theme::from(&source_of(DOCUMENT));
    let text = rendered(&theme);
    let back: toml::Value = toml::from_str(&text).unwrap();
    let table = back.as_table().unwrap();

    let keys: Vec<&str> = table.keys().map(|k| k.as_str()).collect();
    assert_eq!(
        keys,
        vec![
            "comment",
            "function",
            "ui.background",
            "ui.help",
            "ui.selection",
            "ui.statusline",
            "ui.text"
        ]
    );

    let comment = table["comment"].as_table().unwrap();
    assert_eq!(comment["fg"].as_str(), Some("#6a9955"));
    assert!(comment.get("bg").is_none());
    let modifiers: Vec<&str> =
        comment["modifiers"].as_array().unwrap().iter().map(|m| m.as_str().unwrap()).collect();
    assert_eq!(modifiers, vec!["bold", "italic"]);

    assert_eq!(table["function"]["fg"].as_str(), Some("#dcdcaa"));
    assert_eq!(table["ui.text"]["fg"].as_str(), Some("#dcdcaa"));
    assert_eq!(table["ui.background"]["bg"].as_str(), Some("#1e1e1e"));
    assert!(table["ui.background"].get("fg").is_none());
    assert_eq!(table["ui.help"]["bg"].as_str(), Some("#1e1e1e"));
    assert_eq!(table["ui.selection"]["fg"].as_str(), Some("#264f78"));
    assert_eq!(table["ui.selection"]["bg"].as_str(), Some("#ffffff"));
    assert_eq!(table["ui.statusline"]["fg"].as_str(), Some("#cccccc"));
    assert!(table["ui.statusline"].get("bg").is_none());
    for (_, record) in table {
        assert!(!record.as_table().unwrap().is_empty());
    }
}
