//! The target model: style records and the theme that maps keys to them.

use crate::converter::ordmap::OrdMap;
use crate::converter::laws::{lemma_converted_well_kept, lemma_merge_at_well_kept};
use crate::converter::rules::{
    apply_names, apply_palette, apply_rules, converted, key_of, merge_at, palette_settings,
    ui_mappings, ui_table, well_kept, Mapping, Records,
};
use crate::converter::sorted::{ascending, sort_dedup, sorted_set};
use crate::converter::text::{clone_strings, split_whitespace, views, words};
use crate::converter::vscode;
use crate::converter::vscode::{view_of, Palette, Settings, SettingsView, TokenColor};
use vstd::prelude::*;
use vstd::std_specs::convert::FromSpecImpl;

verus! {

/// The views of a list of strings that may be absent.
pub open spec fn views_of(v: Option<Vec<String>>) -> Option<Seq<Seq<char>>> {
    match v {
        Some(v) => Some(views(v@)),
        None => None,
    }
}

/// A style record: a foreground colour, a background colour and a list of
/// modifiers. Each may be absent.
#[derive(Debug)]
pub struct Scope {
    pub fg: Option<String>,
    pub bg: Option<String>,
    pub modifiers: Option<Vec<String>>,
}

/// A `Scope` value as plain sequences of characters.
pub struct ScopeView {
    pub fg: Option<Seq<char>>,
    pub bg: Option<Seq<char>>,
    pub modifiers: Option<Seq<Seq<char>>>,
}

impl ScopeView {
    /// The record with all three fields absent.
    pub open spec fn empty() -> ScopeView {
        ScopeView { fg: None, bg: None, modifiers: None }
    }

    /// Whether all three fields are absent.
    pub open spec fn is_empty(self) -> bool {
        self.fg is None && self.bg is None && self.modifiers is None
    }

    /// Whether the modifiers, if present, are in ascending order, each once.
    pub open spec fn is_tidy(self) -> bool {
        match self.modifiers {
            Some(modifiers) => ascending(modifiers),
            None => true,
        }
    }

    /// The record after `settings` has been merged into it: a colour that
    /// `settings` holds takes the place of the record's, and the words of a
    /// font style that it holds join the record's modifiers, the whole then
    /// in ascending order and each once.
    pub open spec fn merged(self, settings: SettingsView) -> ScopeView {
        ScopeView {
            fg: if settings.foreground is Some {
                settings.foreground
            } else {
                self.fg
            },
            bg: if settings.background is Some {
                settings.background
            } else {
                self.bg
            },
            modifiers: match settings.font_style {
                Some(style) => Some(
                    sorted_set(
                        words(style) + match self.modifiers {
                            Some(modifiers) => modifiers,
                            None => Seq::empty(),
                        },
                    ),
                ),
                None => self.modifiers,
            },
        }
    }
}

impl View for Scope {
    type V = ScopeView;

    open spec fn view(&self) -> ScopeView {
        ScopeView { fg: view_of(self.fg), bg: view_of(self.bg), modifiers: views_of(self.modifiers) }
    }
}

impl Scope {
    /// The record with the given fields.
    pub fn new(fg: Option<String>, bg: Option<String>, modifiers: Option<Vec<String>>) -> (s: Self)
        ensures
            s.fg == fg,
            s.bg == bg,
            s.modifiers == modifiers,
    {
        Scope { fg, bg, modifiers }
    }

    /// The record that holds the foreground colour `fg` and nothing else.
    pub fn fg(fg: &str) -> (s: Self)
        ensures
            s@ == (ScopeView { fg: Some(fg@), bg: None, modifiers: None }),
    {
        Scope::new(Some(fg.to_owned()), None, None)
    }

    /// Whether all three fields are absent.
    pub fn is_empty(&self) -> (r: bool)
        ensures
            r == self@.is_empty(),
    {
        self.fg.is_none() && self.bg.is_none() && self.modifiers.is_none()
    }

    /// Merges `settings` into the record.
    pub fn merge(&mut self, settings: &Settings)
        ensures
            final(self)@ == old(self)@.merged(settings@),
    {
        if let Some(fg) = &settings.foreground {
            self.fg = Some(fg.clone());
        }
        if let Some(bg) = &settings.background {
            self.bg = Some(bg.clone());
        }
        if let Some(style) = &settings.font_style {
            let mut all = split_whitespace(style.as_str());
            if let Some(modifiers) = &self.modifiers {
                let ghost first = views(all@);
                let mut held = clone_strings(modifiers);
                all.append(&mut held);
                proof {
                    assert(views(all@) =~= first + views(modifiers@));
                }
            } else {
                proof {
                    assert(views(all@) =~= views(all@) + Seq::<Seq<char>>::empty());
                }
            }
            self.modifiers = Some(sort_dedup(all));
        }
    }
}

impl Default for Scope {
    /// The record with all three fields absent.
    fn default() -> (s: Self)
        ensures
            s@ == ScopeView::empty(),
    {
        Scope::new(None, None, None)
    }
}

/// A target theme: a map from keys to style records. Every record in it
/// is non-empty, and its modifiers, if present, are in ascending order.
#[derive(Debug)]
pub struct Theme {
    records: OrdMap<Scope>,
}

impl View for Theme {
    type V = Records;

    closed spec fn view(&self) -> Records {
        self.records@.map_values(|record: Scope| record@)
    }
}

/// A copy of the colour that the palette gives to `role`, if it names it.
fn color_of(colors: &Palette, role: &str) -> (color: Option<String>)
    ensures
        view_of(color) == vscode::lookup(colors@, role@),
{
    match colors.get(role) {
        Some(color) => Some(color.clone()),
        None => None,
    }
}

impl Theme {
    #[verifier::type_invariant]
    spec fn kept(self) -> bool {
        well_kept(self@)
    }

    /// The theme that holds no key.
    pub fn new() -> (theme: Self)
        ensures
            theme@ == Map::<Seq<char>, ScopeView>::empty(),
            well_kept(theme@),
    {
        let records = OrdMap::new();
        proof {
            assert(records@.map_values(|record: Scope| record@) =~= Map::<
                Seq<char>,
                ScopeView,
            >::empty());
        }
        Theme { records }
    }

    /// The number of keys.
    pub fn len(&self) -> (n: usize)
        ensures
            self@.dom().finite(),
            n == self@.len(),
    {
        let n = self.records.len();
        proof {
            assert(self@.dom() =~= self.records@.dom());
        }
        n
    }

    /// Whether the theme holds `key`.
    pub fn contains_key(&self, key: &str) -> (r: bool)
        ensures
            r == self@.contains_key(key@),
    {
        self.records.contains_key(key)
    }

    /// The record at `key`, if the theme holds that key. The record is not
    /// empty, and its modifiers, if present, are in ascending order.
    pub fn get(&self, key: &str) -> (r: Option<&Scope>)
        ensures
            match r {
                Some(record) => self@.contains_key(key@) && record@ == self@[key@]
                    && !record@.is_empty() && record@.is_tidy(),
                None => !self@.contains_key(key@),
            },
    {
        proof {
            use_type_invariant(self);
        }
        self.records.get(key)
    }

    /// The keys of the theme, in ascending order.
    pub fn keys(&self) -> (r: &Vec<String>)
        ensures
            ascending(views(r@)),
            forall|k: Seq<char>| #[trigger] views(r@).contains(k) <==> self@.contains_key(k),
    {
        self.records.keys()
    }

    /// Merges `settings` into the record at `key`, which is the empty
    /// record if the theme does not hold the key. A record that is empty
    /// after the merge leaves the theme.
    pub fn merge(&mut self, key: &str, settings: &Settings)
        ensures
            final(self)@ == merge_at(old(self)@, key@, settings@),
            well_kept(final(self)@),
    {
        proof {
            use_type_invariant(&*self);
            lemma_merge_at_well_kept(self@, key@, settings@);
        }
        let mut records = OrdMap::new();
        std::mem::swap(&mut records, &mut self.records);
        let ghost before = records@;
        let mut record = match records.remove(key) {
            Some(record) => record,
            None => Scope::default(),
        };
        record.merge(settings);
        if !record.is_empty() {
            records.insert(key.to_owned(), record);
        }
        proof {
            assert(records@.map_values(|record: Scope| record@) =~= merge_at(
                before.map_values(|record: Scope| record@),
                key@,
                settings@,
            ));
        }
        self.records = records;
    }

    /// Merges what `rule` sets at the target key of each of its scope
    /// names, in order.
    pub fn apply_rule(&mut self, rule: &TokenColor)
        ensures
            final(self)@ == apply_names(old(self)@, rule@.scopes, rule@.settings),
            well_kept(final(self)@),
    {
        let names = rule.scope.names();
        let mut i: usize = 0;
        while i < names.len()
            invariant
                i <= names.len(),
                views(names@) == rule@.scopes,
                self@ == apply_names(old(self)@, rule@.scopes.take(i as int), rule@.settings),
            decreases names.len() - i,
        {
            let key = key_of(names[i].as_str());
            self.merge(key.as_str(), &rule.settings);
            proof {
                assert(rule@.scopes.take(i + 1).drop_last() =~= rule@.scopes.take(i as int));
            }
            i = i + 1;
        }
        proof {
            assert(rule@.scopes.take(i as int) =~= rule@.scopes);
            use_type_invariant(&*self);
        }
    }

    /// Merges what each line of the table of user-interface keys takes
    /// from the palette `colors` at the key of that line, in order.
    pub fn apply_palette(&mut self, colors: &Palette)
        ensures
            final(self)@ == apply_palette(old(self)@, colors@, ui_table()),
            well_kept(final(self)@),
    {
        let table = ui_mappings();
        let mut i: usize = 0;
        while i < table.len()
            invariant
                i <= table.len(),
                table@ == ui_table(),
                self@ == apply_palette(old(self)@, colors@, table@.take(i as int)),
            decreases table.len() - i,
        {
            let line = &table[i];
            let settings = match line.mapping {
                Mapping::Fg(fg) => Settings {
                    font_style: None,
                    foreground: color_of(colors, fg),
                    background: None,
                },
                Mapping::Bg(bg) => Settings {
                    font_style: None,
                    foreground: None,
                    background: color_of(colors, bg),
                },
                Mapping::FgBg(fg, bg) => Settings {
                    font_style: None,
                    foreground: color_of(colors, fg),
                    background: color_of(colors, bg),
                },
            };
            proof {
                assert(settings@ == palette_settings(colors@, line.mapping));
                assert(table@.take(i + 1).drop_last() =~= table@.take(i as int));
            }
            self.merge(line.key, &settings);
            i = i + 1;
        }
        proof {
            assert(table@.take(i as int) =~= table@);
            use_type_invariant(&*self);
        }
    }
}

impl From<&vscode::Theme> for Theme {
    /// The target theme of `source`: its token style rules applied to the
    /// empty theme in order, then the table of user-interface keys.
    fn from(source: &vscode::Theme) -> (target: Self)
        ensures
            target@ == converted(source@),
            well_kept(target@),
    {
        proof {
            lemma_converted_well_kept(source@);
        }
        let mut target = Theme::new();
        let mut i: usize = 0;
        while i < source.token_colors.len()
            invariant
                i <= source.token_colors.len(),
                target@ == apply_rules(Map::empty(), source@.token_colors.take(i as int)),
            decreases source.token_colors.len() - i,
        {
            target.apply_rule(&source.token_colors[i]);
            proof {
                assert(source@.token_colors.take(i + 1).drop_last() =~= source@.token_colors.take(
                    i as int,
                ));
            }
            i = i + 1;
        }
        proof {
            assert(source@.token_colors.take(i as int) =~= source@.token_colors);
        }
        target.apply_palette(&source.colors);
        target
    }
}

/// `from` is stated by its own `ensures`, over the views of the two
/// themes: specifications name no value of the target type itself.
impl FromSpecImpl<&vscode::Theme> for Theme {
    open spec fn obeys_from_spec() -> bool {
        false
    }

    open spec fn from_spec(source: &vscode::Theme) -> Self {
        arbitrary()
    }
}

} // verus!
