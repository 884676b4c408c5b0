//! The mapping from a source theme to a target theme, as mathematics: the
//! naming of target keys, the merge of a setting into the record at a key,
//! and the fixed table of user-interface keys.

use crate::converter::helix::ScopeView;
use crate::converter::text::{has_prefix, str_eq, strip_prefix};
use crate::converter::vscode::{lookup, SettingsView, ThemeView, TokenColorView};
use vstd::prelude::*;

verus! {

/// A target theme as a plain map from keys to records.
pub type Records = Map<Seq<char>, ScopeView>;

/// The target key of the scope name `name`: `ui.text` for the name
/// `entity.name` itself; for a name that begins with `entity.name.`, what
/// follows that beginning, taken off once; and any other name as it is.
pub open spec fn target_key(name: Seq<char>) -> Seq<char> {
    if name == "entity.name"@ {
        "ui.text"@
    } else if has_prefix(name, "entity.name."@) {
        name.skip("entity.name."@.len() as int)
    } else {
        name
    }
}

/// The target key of the scope name `name`.
pub fn key_of(name: &str) -> (key: String)
    ensures
        key@ == target_key(name@),
{
    if str_eq(name, "entity.name") {
        "ui.text".to_owned()
    } else {
        match strip_prefix(name, "entity.name.") {
            Some(rest) => rest.to_owned(),
            None => name.to_owned(),
        }
    }
}

/// How a user-interface key takes its colours from the palette: the
/// foreground from one role, the background from one role, or the
/// foreground from the first role and the background from the second.
#[derive(Debug)]
pub enum Mapping {
    Fg(&'static str),
    Bg(&'static str),
    FgBg(&'static str, &'static str),
}

/// One line of the table of user-interface keys.
#[derive(Debug)]
pub struct UiMapping {
    pub key: &'static str,
    pub mapping: Mapping,
}

/// The table of user-interface keys, in the order in which they are
/// written. The cursor and the selection take their foreground from the
/// palette's background role and their background from its foreground role.
pub open spec fn ui_table() -> Seq<UiMapping> {
    seq![
        UiMapping { key: "ui.background", mapping: Mapping::Bg("editor.background") },
        UiMapping {
            key: "ui.cursor",
            mapping: Mapping::FgBg("editorCursor.background", "editorCursor.foreground"),
        },
        UiMapping { key: "ui.cursor.match", mapping: Mapping::Bg("editorBracketMatch.background") },
        UiMapping { key: "ui.linenr", mapping: Mapping::Fg("editorLineNumber.foreground") },
        UiMapping {
            key: "ui.linenr.selected",
            mapping: Mapping::Fg("editorLineNumber.activeForeground"),
        },
        UiMapping {
            key: "ui.statusline",
            mapping: Mapping::FgBg("statusBar.foreground", "statusBar.background"),
        },
        UiMapping {
            key: "ui.popup",
            mapping: Mapping::FgBg(
                "editorSuggestWidget.foreground",
                "editorSuggestWidget.background",
            ),
        },
        UiMapping { key: "ui.window", mapping: Mapping::Bg("window.activeBorder") },
        UiMapping { key: "ui.help", mapping: Mapping::FgBg("foreground", "editor.background") },
        UiMapping {
            key: "ui.menu",
            mapping: Mapping::FgBg("editorHoverWidget.foreground", "editorHoverWidget.background"),
        },
        UiMapping {
            key: "ui.selection",
            mapping: Mapping::FgBg("editor.selectionBackground", "editor.selectionForeground"),
        },
        UiMapping {
            key: "warning",
            mapping: Mapping::FgBg("editorWarning.foreground", "editorWarning.background"),
        },
        UiMapping {
            key: "error",
            mapping: Mapping::FgBg("editorError.foreground", "editorError.background"),
        },
        UiMapping {
            key: "info",
            mapping: Mapping::FgBg("editorInfo.foreground", "editorInfo.background"),
        },
        UiMapping {
            key: "hint",
            mapping: Mapping::FgBg("editorHint.foreground", "editorHint.background"),
        },
    ]
}

/// The table of user-interface keys.
pub fn ui_mappings() -> (table: Vec<UiMapping>)
    ensures
        table@ == ui_table(),
{
    let mut table: Vec<UiMapping> = Vec::new();
    table.push(UiMapping { key: "ui.background", mapping: Mapping::Bg("editor.background") });
    table.push(
        UiMapping {
            key: "ui.cursor",
            mapping: Mapping::FgBg("editorCursor.background", "editorCursor.foreground"),
        },
    );
    table.push(
        UiMapping { key: "ui.cursor.match", mapping: Mapping::Bg("editorBracketMatch.background") },
    );
    table.push(UiMapping { key: "ui.linenr", mapping: Mapping::Fg("editorLineNumber.foreground") });
    table.push(
        UiMapping {
            key: "ui.linenr.selected",
            mapping: Mapping::Fg("editorLineNumber.activeForeground"),
        },
    );
    table.push(
        UiMapping {
            key: "ui.statusline",
            mapping: Mapping::FgBg("statusBar.foreground", "statusBar.background"),
        },
    );
    table.push(
        UiMapping {
            key: "ui.popup",
            mapping: Mapping::FgBg(
                "editorSuggestWidget.foreground",
                "editorSuggestWidget.background",
            ),
        },
    );
    table.push(UiMapping { key: "ui.window", mapping: Mapping::Bg("window.activeBorder") });
    table.push(
        UiMapping { key: "ui.help", mapping: Mapping::FgBg("foreground", "editor.background") },
    );
    table.push(
        UiMapping {
            key: "ui.menu",
            mapping: Mapping::FgBg("editorHoverWidget.foreground", "editorHoverWidget.background"),
        },
    );
    table.push(
        UiMapping {
            key: "ui.selection",
            mapping: Mapping::FgBg("editor.selectionBackground", "editor.selectionForeground"),
        },
    );
    table.push(
        UiMapping {
            key: "warning",
            mapping: Mapping::FgBg("editorWarning.foreground", "editorWarning.background"),
        },
    );
    table.push(
        UiMapping {
            key: "error",
            mapping: Mapping::FgBg("editorError.foreground", "editorError.background"),
        },
    );
    table.push(
        UiMapping {
            key: "info",
            mapping: Mapping::FgBg("editorInfo.foreground", "editorInfo.background"),
        },
    );
    table.push(
        UiMapping {
            key: "hint",
            mapping: Mapping::FgBg("editorHint.foreground", "editorHint.background"),
        },
    );
    proof {
        assert(table@ =~= ui_table());
    }
    table
}

/// What `mapping` takes from the palette `colors`: a role that the palette
/// does not name leaves its field absent.
pub open spec fn palette_settings(
    colors: Map<Seq<char>, Seq<char>>,
    mapping: Mapping,
) -> SettingsView {
    match mapping {
        Mapping::Fg(fg) => SettingsView {
            font_style: None,
            foreground: lookup(colors, fg@),
            background: None,
        },
        Mapping::Bg(bg) => SettingsView {
            font_style: None,
            foreground: None,
            background: lookup(colors, bg@),
        },
        Mapping::FgBg(fg, bg) => SettingsView {
            font_style: None,
            foreground: lookup(colors, fg@),
            background: lookup(colors, bg@),
        },
    }
}

/// The record that `records` holds at `key`, or the empty record.
pub open spec fn record_at(records: Records, key: Seq<char>) -> ScopeView {
    if records.contains_key(key) {
        records[key]
    } else {
        ScopeView::empty()
    }
}

/// `records` after `settings` has been merged into the record at `key`. A
/// record that is empty after the merge leaves the map.
pub open spec fn merge_at(records: Records, key: Seq<char>, settings: SettingsView) -> Records {
    let record = record_at(records, key).merged(settings);
    if record.is_empty() {
        records.remove(key)
    } else {
        records.insert(key, record)
    }
}

/// `records` after `settings` has been merged at the target key of each of
/// `names`, in order.
pub open spec fn apply_names(
    records: Records,
    names: Seq<Seq<char>>,
    settings: SettingsView,
) -> Records
    decreases names.len(),
{
    if names.len() == 0 {
        records
    } else {
        merge_at(
            apply_names(records, names.drop_last(), settings),
            target_key(names.last()),
            settings,
        )
    }
}

/// `records` after each of `rules` has been applied, in order.
pub open spec fn apply_rules(records: Records, rules: Seq<TokenColorView>) -> Records
    decreases rules.len(),
{
    if rules.len() == 0 {
        records
    } else {
        apply_names(
            apply_rules(records, rules.drop_last()),
            rules.last().scopes,
            rules.last().settings,
        )
    }
}

/// `records` after each line of `table` has merged what it takes from the
/// palette `colors` at its key, in order.
pub open spec fn apply_palette(
    records: Records,
    colors: Map<Seq<char>, Seq<char>>,
    table: Seq<UiMapping>,
) -> Records
    decreases table.len(),
{
    if table.len() == 0 {
        records
    } else {
        merge_at(
            apply_palette(records, colors, table.drop_last()),
            table.last().key@,
            palette_settings(colors, table.last().mapping),
        )
    }
}

/// The target theme of the source theme `source`: the token style rules
/// applied to the empty theme, then the table of user-interface keys.
pub open spec fn converted(source: ThemeView) -> Records {
    apply_palette(
        apply_rules(Map::empty(), source.token_colors),
        source.colors,
        ui_table(),
    )
}

/// Every record is non-empty, and its modifiers, if present, are in
/// ascending order, each once.
pub open spec fn well_kept(records: Records) -> bool {
    forall|key: Seq<char>| #[trigger]
        records.contains_key(key) ==> !records[key].is_empty() && records[key].is_tidy()
}

} // verus!
