//! What holds of every target theme, proved of the mapping as the rules
//! state it.

use crate::converter::helix::ScopeView;
use crate::converter::rules::{
    apply_names, apply_palette, apply_rules, converted, merge_at, palette_settings, record_at,
    target_key, ui_table, well_kept, Records, UiMapping,
};
use crate::converter::sorted::{
    ascending, lemma_ascending_no_duplicates, lemma_ascending_unique, lemma_sorted_set,
    same_elements,
};
use crate::converter::text::{has_prefix, words};
use crate::converter::vscode;
use crate::converter::vscode::{lookup, SettingsView, ThemeView, TokenColorView};
use vstd::prelude::*;

verus! {

// Target keys

/// The scope name `entity.name` has the target key `ui.text`.
pub proof fn lemma_target_key_of_alias()
    ensures
        target_key("entity.name"@) == "ui.text"@,
{
}

/// A scope name made of `entity.name.` and a rest has the rest for its
/// target key, whatever the rest is: the beginning is taken off once.
pub proof fn lemma_target_key_of_prefixed(rest: Seq<char>)
    ensures
        target_key("entity.name."@ + rest) == rest,
{
    reveal_strlit("entity.name.");
    reveal_strlit("entity.name");
    let prefix = "entity.name."@;
    let name = prefix + rest;
    assert(name.take(prefix.len() as int) =~= prefix);
    assert(name.skip(prefix.len() as int) =~= rest);
}

/// Any other scope name is its own target key.
pub proof fn lemma_target_key_of_plain(name: Seq<char>)
    requires
        name != "entity.name"@,
        !has_prefix(name, "entity.name."@),
    ensures
        target_key(name) == name,
{
}

// Merging

/// Of two merges into one record, the later decides each colour that it
/// sets, and leaves the others as the earlier merge left them.
pub proof fn lemma_later_color_wins(record: ScopeView, first: SettingsView, second: SettingsView)
    ensures
        second.foreground is Some ==> record.merged(first).merged(second).fg == second.foreground,
        second.foreground is None ==> record.merged(first).merged(second).fg == record.merged(
            first,
        ).fg,
        second.background is Some ==> record.merged(first).merged(second).bg == second.background,
        second.background is None ==> record.merged(first).merged(second).bg == record.merged(
            first,
        ).bg,
{
}

/// After the merge of a font style, the modifiers of a record are present,
/// in ascending order, and hold the words of the font style and what the
/// record held before, and nothing else.
pub proof fn lemma_merged_modifiers(record: ScopeView, settings: SettingsView)
    requires
        settings.font_style is Some,
    ensures
        record.merged(settings).modifiers is Some,
        ascending(record.merged(settings).modifiers->0),
        forall|x: Seq<char>| #[trigger]
            record.merged(settings).modifiers->0.contains(x) <==> (words(
                settings.font_style->0,
            ).contains(x) || (record.modifiers is Some && record.modifiers->0.contains(x))),
{
    let style = settings.font_style->0;
    let held = match record.modifiers {
        Some(modifiers) => modifiers,
        None => Seq::empty(),
    };
    let all = words(style) + held;
    lemma_sorted_set(all);
    let merged = record.merged(settings).modifiers->0;
    assert forall|x: Seq<char>| #[trigger]
        merged.contains(x) <==> (words(style).contains(x) || (record.modifiers is Some
            && record.modifiers->0.contains(x))) by {
        assert(merged.contains(x) <==> all.contains(x));
        if all.contains(x) {
            let i = choose|i: int| 0 <= i < all.len() && all[i] == x;
            if i < words(style).len() {
                assert(words(style)[i] == x);
            } else {
                assert(held[i - words(style).len()] == x);
            }
        }
        if words(style).contains(x) {
            let i = choose|i: int| 0 <= i < words(style).len() && words(style)[i] == x;
            assert(all[i] == x);
        }
        if held.contains(x) {
            let i = choose|i: int| 0 <= i < held.len() && held[i] == x;
            assert(all[i + words(style).len()] == x);
        }
    }
}

/// A merge keeps the modifiers of a record in ascending order.
pub proof fn lemma_merged_tidy(record: ScopeView, settings: SettingsView)
    requires
        record.is_tidy(),
    ensures
        record.merged(settings).is_tidy(),
{
    if let Some(style) = settings.font_style {
        lemma_sorted_set(
            words(style) + match record.modifiers {
                Some(modifiers) => modifiers,
                None => Seq::empty(),
            },
        );
    }
}

/// A merge at a key leaves there the record that was there with the
/// settings merged into it, and leaves the key out if that record is empty.
pub proof fn lemma_merge_at_record(records: Records, key: Seq<char>, settings: SettingsView)
    ensures
        record_at(merge_at(records, key, settings), key) == record_at(records, key).merged(
            settings,
        ),
        merge_at(records, key, settings).contains_key(key) == !record_at(records, key).merged(
            settings,
        ).is_empty(),
{
}

/// A merge touches the record at its key and no other.
pub proof fn lemma_merge_at_is_local(
    records: Records,
    key: Seq<char>,
    settings: SettingsView,
    other: Seq<char>,
)
    requires
        other != key,
    ensures
        merge_at(records, key, settings).contains_key(other) == records.contains_key(other),
        records.contains_key(other) ==> merge_at(records, key, settings)[other] == records[other],
{
}

/// A merge at a key keeps a well-kept theme well kept.
pub proof fn lemma_merge_at_well_kept(records: Records, key: Seq<char>, settings: SettingsView)
    requires
        well_kept(records),
    ensures
        well_kept(merge_at(records, key, settings)),
{
    lemma_merged_tidy(record_at(records, key), settings);
}

// Every target theme

proof fn lemma_apply_names_well_kept(
    records: Records,
    names: Seq<Seq<char>>,
    settings: SettingsView,
)
    requires
        well_kept(records),
    ensures
        well_kept(apply_names(records, names, settings)),
    decreases names.len(),
{
    if names.len() > 0 {
        lemma_apply_names_well_kept(records, names.drop_last(), settings);
        lemma_merge_at_well_kept(
            apply_names(records, names.drop_last(), settings),
            target_key(names.last()),
            settings,
        );
    }
}

proof fn lemma_apply_rules_well_kept(records: Records, rules: Seq<TokenColorView>)
    requires
        well_kept(records),
    ensures
        well_kept(apply_rules(records, rules)),
    decreases rules.len(),
{
    if rules.len() > 0 {
        lemma_apply_rules_well_kept(records, rules.drop_last());
        lemma_apply_names_well_kept(
            apply_rules(records, rules.drop_last()),
            rules.last().scopes,
            rules.last().settings,
        );
    }
}

proof fn lemma_apply_palette_well_kept(
    records: Records,
    colors: Map<Seq<char>, Seq<char>>,
    table: Seq<UiMapping>,
)
    requires
        well_kept(records),
    ensures
        well_kept(apply_palette(records, colors, table)),
    decreases table.len(),
{
    if table.len() > 0 {
        lemma_apply_palette_well_kept(records, colors, table.drop_last());
        lemma_merge_at_well_kept(
            apply_palette(records, colors, table.drop_last()),
            table.last().key@,
            palette_settings(colors, table.last().mapping),
        );
    }
}

/// The target theme of every source theme is well kept.
pub proof fn lemma_converted_well_kept(source: ThemeView)
    ensures
        well_kept(converted(source)),
{
    lemma_apply_rules_well_kept(Map::empty(), source.token_colors);
    lemma_apply_palette_well_kept(
        apply_rules(Map::empty(), source.token_colors),
        source.colors,
        ui_table(),
    );
}

/// No target theme holds a key whose record has all three fields absent.
pub proof fn lemma_no_empty_record(source: ThemeView, key: Seq<char>)
    requires
        converted(source).contains_key(key),
    ensures
        !converted(source)[key].is_empty(),
{
    lemma_converted_well_kept(source);
}

/// The modifiers of every record of a target theme are in ascending order
/// and hold no modifier twice.
pub proof fn lemma_modifiers_ascending(source: ThemeView, key: Seq<char>)
    requires
        converted(source).contains_key(key),
        converted(source)[key].modifiers is Some,
    ensures
        ascending(converted(source)[key].modifiers->0),
        converted(source)[key].modifiers->0.no_duplicates(),
{
    lemma_converted_well_kept(source);
    lemma_ascending_no_duplicates(converted(source)[key].modifiers->0);
}

/// Source themes with the same palette and the same rules have the same
/// target theme: the result depends on nothing else.
pub proof fn lemma_conversion_deterministic(a: vscode::Theme, b: vscode::Theme)
    requires
        a@ == b@,
    ensures
        converted(a@) == converted(b@),
{
}

/// A theme has one list of its keys in ascending order: two such lists of
/// the keys of `records` are the same list.
pub proof fn lemma_keys_determined(records: Records, a: Seq<Seq<char>>, b: Seq<Seq<char>>)
    requires
        ascending(a),
        ascending(b),
        forall|key: Seq<char>| #[trigger] a.contains(key) <==> records.contains_key(key),
        forall|key: Seq<char>| #[trigger] b.contains(key) <==> records.contains_key(key),
    ensures
        a == b,
{
    assert(same_elements(a, b));
    lemma_ascending_unique(a, b);
}

// Keys of the table and keys of the rules

/// Whether `key` is the key of a line of `table`.
pub open spec fn is_key_of(table: Seq<UiMapping>, key: Seq<char>) -> bool {
    exists|i: int| 0 <= i < table.len() && #[trigger] table[i].key@ == key
}

/// Whether `key` is the target key of a scope name of one of `rules`.
pub open spec fn is_named_by(rules: Seq<TokenColorView>, key: Seq<char>) -> bool {
    exists|i: int, j: int|
        0 <= i < rules.len() && 0 <= j < rules[i].scopes.len() && target_key(
            #[trigger] rules[i].scopes[j],
        ) == key
}

/// The keys of the table of user-interface keys differ from one another.
pub proof fn lemma_ui_table_keys_differ()
    ensures
        forall|i: int, j: int|
            0 <= i < j < ui_table().len() ==> #[trigger] ui_table()[i].key@
                != #[trigger] ui_table()[j].key@,
{
    reveal_strlit("ui.background");
    reveal_strlit("ui.cursor");
    reveal_strlit("ui.cursor.match");
    reveal_strlit("ui.linenr");
    reveal_strlit("ui.linenr.selected");
    reveal_strlit("ui.statusline");
    reveal_strlit("ui.popup");
    reveal_strlit("ui.window");
    reveal_strlit("ui.help");
    reveal_strlit("ui.menu");
    reveal_strlit("ui.selection");
    reveal_strlit("warning");
    reveal_strlit("error");
    reveal_strlit("info");
    reveal_strlit("hint");
    let t = ui_table();
    assert(t.len() == 15);
    assert(t[0].key@.len() == 13);
    assert(t[1].key@.len() == 9);
    assert(t[2].key@.len() == 15);
    assert(t[3].key@.len() == 9);
    assert(t[4].key@.len() == 18);
    assert(t[5].key@.len() == 13);
    assert(t[6].key@.len() == 8);
    assert(t[7].key@.len() == 9);
    assert(t[8].key@.len() == 7);
    assert(t[9].key@.len() == 7);
    assert(t[10].key@.len() == 12);
    assert(t[11].key@.len() == 7);
    assert(t[12].key@.len() == 5);
    assert(t[13].key@.len() == 4);
    assert(t[14].key@.len() == 4);
    assert(t[0].key@[3] == 'b');
    assert(t[5].key@[3] == 's');
    assert(t[1].key@[3] == 'c');
    assert(t[3].key@[3] == 'l');
    assert(t[7].key@[3] == 'w');
    assert(t[8].key@[3] == 'h');
    assert(t[9].key@[3] == 'm');
    assert(t[11].key@[3] == 'n');
    assert(t[13].key@[0] == 'i');
    assert(t[14].key@[0] == 'h');
    assert forall|i: int, j: int| 0 <= i < j < t.len() implies #[trigger] t[i].key@
        != #[trigger] t[j].key@ by {
        if t[i].key@.len() == t[j].key@.len() {
            if t[i].key@.len() == 4 {
                assert(t[i].key@[0] != t[j].key@[0]);
            } else {
                assert(t[i].key@[3] != t[j].key@[3]);
            }
        }
    }
}

/// The table leaves alone the record at a key that none of its lines has.
pub proof fn lemma_apply_palette_misses(
    records: Records,
    colors: Map<Seq<char>, Seq<char>>,
    table: Seq<UiMapping>,
    key: Seq<char>,
)
    requires
        !is_key_of(table, key),
    ensures
        apply_palette(records, colors, table).contains_key(key) == records.contains_key(key),
        record_at(apply_palette(records, colors, table), key) == record_at(records, key),
    decreases table.len(),
{
    if table.len() > 0 {
        let head = table.drop_last();
        assert(!is_key_of(head, key)) by {
            if is_key_of(head, key) {
                let i = choose|i: int| 0 <= i < head.len() && #[trigger] head[i].key@ == key;
                assert(table[i].key@ == key);
            }
        }
        lemma_apply_palette_misses(records, colors, head, key);
        assert(table[table.len() - 1].key@ != key);
    }
}

/// Where the keys of `table` differ from one another, the record at the key
/// of a line is the record that was there with what the line takes from the
/// palette merged into it, and the key is absent if that record is empty.
pub proof fn lemma_apply_palette_line(
    records: Records,
    colors: Map<Seq<char>, Seq<char>>,
    table: Seq<UiMapping>,
    i: int,
)
    requires
        0 <= i < table.len(),
        forall|a: int, b: int|
            0 <= a < b < table.len() ==> #[trigger] table[a].key@ != #[trigger] table[b].key@,
    ensures
        record_at(apply_palette(records, colors, table), table[i].key@) == record_at(
            records,
            table[i].key@,
        ).merged(palette_settings(colors, table[i].mapping)),
        apply_palette(records, colors, table).contains_key(table[i].key@) == !record_at(
            records,
            table[i].key@,
        ).merged(palette_settings(colors, table[i].mapping)).is_empty(),
    decreases table.len(),
{
    let key = table[i].key@;
    let head = table.drop_last();
    if i == table.len() - 1 {
        assert(!is_key_of(head, key)) by {
            if is_key_of(head, key) {
                let a = choose|a: int| 0 <= a < head.len() && #[trigger] head[a].key@ == key;
                assert(table[a].key@ != table[i].key@);
            }
        }
        lemma_apply_palette_misses(records, colors, head, key);
    } else {
        assert forall|a: int, b: int| 0 <= a < b < head.len() implies #[trigger] head[a].key@
            != #[trigger] head[b].key@ by {
            assert(table[a].key@ != table[b].key@);
        }
        assert(head[i] == table[i]);
        lemma_apply_palette_line(records, colors, head, i);
        assert(table[i].key@ != table[table.len() - 1].key@);
    }
}

proof fn lemma_apply_names_misses(
    records: Records,
    names: Seq<Seq<char>>,
    settings: SettingsView,
    key: Seq<char>,
)
    requires
        forall|j: int| 0 <= j < names.len() ==> target_key(#[trigger] names[j]) != key,
    ensures
        apply_names(records, names, settings).contains_key(key) == records.contains_key(key),
        record_at(apply_names(records, names, settings), key) == record_at(records, key),
    decreases names.len(),
{
    if names.len() > 0 {
        let head = names.drop_last();
        assert forall|j: int| 0 <= j < head.len() implies target_key(#[trigger] head[j])
            != key by {
            assert(head[j] == names[j]);
        }
        lemma_apply_names_misses(records, head, settings, key);
        assert(target_key(names[names.len() - 1]) != key);
    }
}

/// Rules leave alone the record at a key that none of their scope names
/// has for its target key.
pub proof fn lemma_apply_rules_misses(
    records: Records,
    rules: Seq<TokenColorView>,
    key: Seq<char>,
)
    requires
        !is_named_by(rules, key),
    ensures
        apply_rules(records, rules).contains_key(key) == records.contains_key(key),
        record_at(apply_rules(records, rules), key) == record_at(records, key),
    decreases rules.len(),
{
    if rules.len() > 0 {
        let head = rules.drop_last();
        let last = rules.last();
        assert(!is_named_by(head, key)) by {
            if is_named_by(head, key) {
                let (i, j) = choose|i: int, j: int|
                    0 <= i < head.len() && 0 <= j < head[i].scopes.len() && target_key(
                        #[trigger] head[i].scopes[j],
                    ) == key;
                assert(target_key(rules[i].scopes[j]) == key);
            }
        }
        lemma_apply_rules_misses(records, head, key);
        assert forall|j: int| 0 <= j < last.scopes.len() implies target_key(
            #[trigger] last.scopes[j],
        ) != key by {
            assert(rules[rules.len() - 1].scopes[j] == last.scopes[j]);
        }
        lemma_apply_names_misses(apply_rules(records, head), last.scopes, last.settings, key);
    }
}

/// At a key that the table does not have, a target theme holds what the
/// rules put there: the palette has no part in it.
pub proof fn lemma_rule_key(source: ThemeView, key: Seq<char>)
    requires
        !is_key_of(ui_table(), key),
    ensures
        converted(source).contains_key(key) == apply_rules(
            Map::empty(),
            source.token_colors,
        ).contains_key(key),
        record_at(converted(source), key) == record_at(
            apply_rules(Map::empty(), source.token_colors),
            key,
        ),
{
    lemma_apply_palette_misses(
        apply_rules(Map::empty(), source.token_colors),
        source.colors,
        ui_table(),
        key,
    );
}

/// At a key of the table that no rule names, a target theme holds what the
/// line of that key takes from the palette and nothing else: the foreground
/// from the line's foreground role, the background from its background
/// role, no modifiers. Where the palette gives the line nothing, the theme
/// does not hold the key.
pub proof fn lemma_ui_key(source: ThemeView, i: int)
    requires
        0 <= i < ui_table().len(),
        !is_named_by(source.token_colors, ui_table()[i].key@),
    ensures
        ({
            let line = ui_table()[i];
            let taken = palette_settings(source.colors, line.mapping);
            &&& converted(source).contains_key(line.key@) == (taken.foreground is Some
                || taken.background is Some)
            &&& record_at(converted(source), line.key@) == ScopeView {
                fg: taken.foreground,
                bg: taken.background,
                modifiers: None,
            }
        }),
{
    let key = ui_table()[i].key@;
    let after_rules = apply_rules(Map::empty(), source.token_colors);
    lemma_apply_rules_misses(Map::empty(), source.token_colors, key);
    lemma_ui_table_keys_differ();
    lemma_apply_palette_line(after_rules, source.colors, ui_table(), i);
}

/// At a key of the table, whatever the rules put there, a colour that the
/// line of that key takes from the palette is the colour of the record.
pub proof fn lemma_ui_key_colors(source: ThemeView, i: int)
    requires
        0 <= i < ui_table().len(),
    ensures
        ({
            let line = ui_table()[i];
            let taken = palette_settings(source.colors, line.mapping);
            &&& taken.foreground is Some ==> converted(source).contains_key(line.key@)
                && converted(source)[line.key@].fg == taken.foreground
            &&& taken.background is Some ==> converted(source).contains_key(line.key@)
                && converted(source)[line.key@].bg == taken.background
        }),
{
    lemma_ui_table_keys_differ();
    lemma_apply_palette_line(
        apply_rules(Map::empty(), source.token_colors),
        source.colors,
        ui_table(),
        i,
    );
}

/// The key `ui.background` of a theme whose rules do not name it is held
/// where the palette names the role `editor.background`, and then with that
/// colour as its background and nothing else.
pub proof fn lemma_ui_background(source: ThemeView)
    requires
        !is_named_by(source.token_colors, "ui.background"@),
    ensures
        converted(source).contains_key("ui.background"@) == source.colors.contains_key(
            "editor.background"@,
        ),
        record_at(converted(source), "ui.background"@) == (ScopeView {
            fg: None,
            bg: lookup(source.colors, "editor.background"@),
            modifiers: None,
        }),
{
    assert(ui_table()[0].key == "ui.background");
    lemma_ui_key(source, 0);
}

/// The selection takes its foreground from the palette's selection
/// background and its background from the palette's selection foreground.
pub proof fn lemma_ui_selection(source: ThemeView)
    ensures
        source.colors.contains_key("editor.selectionBackground"@) ==> converted(
            source,
        ).contains_key("ui.selection"@) && converted(source)["ui.selection"@].fg == Some(
            source.colors["editor.selectionBackground"@],
        ),
        source.colors.contains_key("editor.selectionForeground"@) ==> converted(
            source,
        ).contains_key("ui.selection"@) && converted(source)["ui.selection"@].bg == Some(
            source.colors["editor.selectionForeground"@],
        ),
{
    assert(ui_table()[10].key == "ui.selection");
    lemma_ui_key_colors(source, 10);
}

} // verus!
