//! The source model: a palette of named colours and an ordered list of
//! token style rules.

use crate::converter::helix;
use crate::converter::ordmap::OrdMap;
use crate::converter::text::{clone_strings, views};
use vstd::prelude::*;

verus! {

/// The view of a string that may be absent.
pub open spec fn view_of(s: Option<String>) -> Option<Seq<char>> {
    match s {
        Some(s) => Some(s@),
        None => None,
    }
}

/// What a rule sets: a foreground colour, a background colour and a font
/// style that lists modifiers separated by white space. Each may be absent.
#[derive(Debug)]
pub struct Settings {
    pub font_style: Option<String>,
    pub foreground: Option<String>,
    pub background: Option<String>,
}

/// A `Settings` value as plain sequences of characters.
pub struct SettingsView {
    pub font_style: Option<Seq<char>>,
    pub foreground: Option<Seq<char>>,
    pub background: Option<Seq<char>>,
}

impl View for Settings {
    type V = SettingsView;

    open spec fn view(&self) -> SettingsView {
        SettingsView {
            font_style: view_of(self.font_style),
            foreground: view_of(self.foreground),
            background: view_of(self.background),
        }
    }
}

/// The scope selector of a rule: one scope name, or several in order.
#[derive(Debug)]
pub enum Scope {
    String(String),
    StringArray(Vec<String>),
}

impl View for Scope {
    type V = Seq<Seq<char>>;

    /// The scope names that the selector stands for, in order.
    open spec fn view(&self) -> Seq<Seq<char>> {
        match self {
            Scope::String(name) => seq![name@],
            Scope::StringArray(names) => views(names@),
        }
    }
}

impl Scope {
    /// The scope names that the selector stands for, in order.
    pub fn names(&self) -> (names: Vec<String>)
        ensures
            views(names@) == self@,
    {
        match self {
            Scope::String(name) => {
                let mut names: Vec<String> = Vec::new();
                names.push(name.clone());
                proof {
                    assert(views(names@) =~= seq![name@]);
                }
                names
            },
            Scope::StringArray(names) => clone_strings(names),
        }
    }
}

/// One token style rule: the scopes it applies to and what it sets there.
#[derive(Debug)]
pub struct TokenColor {
    pub scope: Scope,
    pub settings: Settings,
}

/// A `TokenColor` value as plain sequences.
pub struct TokenColorView {
    pub scopes: Seq<Seq<char>>,
    pub settings: SettingsView,
}

impl View for TokenColor {
    type V = TokenColorView;

    open spec fn view(&self) -> TokenColorView {
        TokenColorView { scopes: self.scope@, settings: self.settings@ }
    }
}

impl TokenColor {
    /// Merges what this rule sets into the style record `scope`.
    pub fn to_helix_scope(&self, scope: &mut helix::Scope)
        ensures
            final(scope)@ == old(scope)@.merged(self.settings@),
    {
        scope.merge(&self.settings);
    }
}

/// The palette: a colour value for each colour role that it names.
#[derive(Debug)]
pub struct Palette {
    roles: OrdMap<String>,
}

impl View for Palette {
    type V = Map<Seq<char>, Seq<char>>;

    closed spec fn view(&self) -> Map<Seq<char>, Seq<char>> {
        self.roles@.map_values(|value: String| value@)
    }
}

impl Palette {
    /// The palette that names no role.
    pub fn new() -> (p: Self)
        ensures
            p@ == Map::<Seq<char>, Seq<char>>::empty(),
    {
        let p = Palette { roles: OrdMap::new() };
        proof {
            assert(p@ =~= Map::<Seq<char>, Seq<char>>::empty());
        }
        p
    }

    /// Gives `role` the colour `value`, in place of the one it had.
    pub fn insert(&mut self, role: String, value: String)
        ensures
            final(self)@ == old(self)@.insert(role@, value@),
    {
        self.roles.insert(role, value);
        proof {
            assert(self@ =~= old(self)@.insert(role@, value@));
        }
    }

    /// The colour of `role`, if the palette names that role.
    pub fn get(&self, role: &str) -> (r: Option<&String>)
        ensures
            view_of_ref(r) == lookup(self@, role@),
    {
        self.roles.get(role)
    }

    /// The number of roles that the palette names.
    pub fn len(&self) -> (n: usize)
        ensures
            self@.dom().finite(),
            n == self@.len(),
    {
        let n = self.roles.len();
        proof {
            assert(self@.dom() =~= self.roles@.dom());
        }
        n
    }

    /// The roles that the palette names, in ascending order.
    pub fn roles(&self) -> (r: &Vec<String>)
        ensures
            crate::converter::sorted::ascending(views(r@)),
            forall|k: Seq<char>| #[trigger] views(r@).contains(k) <==> self@.contains_key(k),
    {
        self.roles.keys()
    }
}

/// The view of a borrowed string that may be absent.
pub open spec fn view_of_ref(s: Option<&String>) -> Option<Seq<char>> {
    match s {
        Some(s) => Some(s@),
        None => None,
    }
}

/// The colour that `colors` gives to `role`, if it names that role.
pub open spec fn lookup(colors: Map<Seq<char>, Seq<char>>, role: Seq<char>) -> Option<Seq<char>> {
    if colors.contains_key(role) {
        Some(colors[role])
    } else {
        None
    }
}

/// A source theme: the palette and the token style rules, in the order in
/// which they apply.
#[derive(Debug)]
pub struct Theme {
    pub colors: Palette,
    pub token_colors: Vec<TokenColor>,
}

/// A `Theme` value as a plain map and a plain sequence.
pub struct ThemeView {
    pub colors: Map<Seq<char>, Seq<char>>,
    pub token_colors: Seq<TokenColorView>,
}

impl View for Theme {
    type V = ThemeView;

    open spec fn view(&self) -> ThemeView {
        ThemeView {
            colors: self.colors@,
            token_colors: Seq::new(self.token_colors.len() as nat, |i: int| self.token_colors[i]@),
        }
    }
}

} // verus!
