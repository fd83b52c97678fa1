//! Font weights, interaction states, state selectors, theme errors, and
//! themes with their inheritance.

use crate::ir::layout::keyword_result;
use crate::expr::ast::strings_view;
use crate::handler::graph::contains_str;
use crate::ir::name_map::NameMap;
use crate::parser::error::opt_view;
use crate::text::{concat3, keyword_of, push_str, spec_keyword, str_eq, to_owned_string};
use vstd::prelude::*;

verus! {

/// Font weight.
#[derive(Debug, Clone, Copy, PartialEq, Eq, Hash)]
pub enum FontWeight {
    Thin,
    Light,
    Normal,
    Medium,
    Bold,
    Black,
}

pub open spec fn font_weight_named(k: Seq<char>) -> Option<FontWeight> {
    if k == "thin"@ {
        Some(FontWeight::Thin)
    } else if k == "light"@ {
        Some(FontWeight::Light)
    } else if k == "normal"@ {
        Some(FontWeight::Normal)
    } else if k == "medium"@ {
        Some(FontWeight::Medium)
    } else if k == "bold"@ {
        Some(FontWeight::Bold)
    } else if k == "black"@ {
        Some(FontWeight::Black)
    } else {
        None
    }
}

/// The CSS numeric weight of each font weight.
pub open spec fn spec_css_weight(w: FontWeight) -> u16 {
    match w {
        FontWeight::Thin => 100,
        FontWeight::Light => 300,
        FontWeight::Normal => 400,
        FontWeight::Medium => 500,
        FontWeight::Bold => 700,
        FontWeight::Black => 900,
    }
}

impl FontWeight {
    /// Parses the six weight keywords, ignoring case and surrounding whitespace.
    pub fn parse(s: &str) -> (res: Result<FontWeight, String>)
        ensures
            keyword_result(
                font_weight_named(spec_keyword(s@)),
                res,
                s@,
                "Invalid font weight: '"@,
                "'. Expected thin, light, normal, medium, bold, or black"@,
            ),
    {
        let k = keyword_of(s);
        let k = k.as_str();
        if str_eq(k, "thin") {
            Ok(FontWeight::Thin)
        } else if str_eq(k, "light") {
            Ok(FontWeight::Light)
        } else if str_eq(k, "normal") {
            Ok(FontWeight::Normal)
        } else if str_eq(k, "medium") {
            Ok(FontWeight::Medium)
        } else if str_eq(k, "bold") {
            Ok(FontWeight::Bold)
        } else if str_eq(k, "black") {
            Ok(FontWeight::Black)
        } else {
            Err(
                concat3(
                    "Invalid font weight: '",
                    s,
                    "'. Expected thin, light, normal, medium, bold, or black",
                ),
            )
        }
    }

    /// The CSS numeric value of the weight.
    pub fn to_css(&self) -> (res: u16)
        ensures
            res == spec_css_weight(*self),
    {
        match self {
            FontWeight::Thin => 100,
            FontWeight::Light => 300,
            FontWeight::Normal => 400,
            FontWeight::Medium => 500,
            FontWeight::Bold => 700,
            FontWeight::Black => 900,
        }
    }
}

/// Widget interaction state.
#[derive(Debug, Clone, Copy, PartialEq, Eq, Hash, PartialOrd, Ord, Structural)]
pub enum WidgetState {
    Hover,
    Focus,
    Active,
    Disabled,
}

pub open spec fn widget_state_named(k: Seq<char>) -> Option<WidgetState> {
    if k == "hover"@ {
        Some(WidgetState::Hover)
    } else if k == "focus"@ {
        Some(WidgetState::Focus)
    } else if k == "active"@ {
        Some(WidgetState::Active)
    } else if k == "disabled"@ {
        Some(WidgetState::Disabled)
    } else {
        None
    }
}

impl WidgetState {
    /// Parses a state prefix (`hover`, `focus`, `active`, `disabled`),
    /// ignoring case and surrounding whitespace.
    pub fn from_prefix(s: &str) -> (res: Option<WidgetState>)
        ensures
            res == widget_state_named(spec_keyword(s@)),
    {
        let k = keyword_of(s);
        let k = k.as_str();
        if str_eq(k, "hover") {
            Some(WidgetState::Hover)
        } else if str_eq(k, "focus") {
            Some(WidgetState::Focus)
        } else if str_eq(k, "active") {
            Some(WidgetState::Active)
        } else if str_eq(k, "disabled") {
            Some(WidgetState::Disabled)
        } else {
            None
        }
    }
}

/// The distinct states of `states`, in `Ord` order (what sorting and
/// deduplicating gives).
pub open spec fn sorted_distinct_states(states: Seq<WidgetState>) -> Seq<WidgetState> {
    let h: Seq<WidgetState> = if states.contains(WidgetState::Hover) {
        seq![WidgetState::Hover]
    } else {
        seq![]
    };
    let f: Seq<WidgetState> = if states.contains(WidgetState::Focus) {
        seq![WidgetState::Focus]
    } else {
        seq![]
    };
    let a: Seq<WidgetState> = if states.contains(WidgetState::Active) {
        seq![WidgetState::Active]
    } else {
        seq![]
    };
    let d: Seq<WidgetState> = if states.contains(WidgetState::Disabled) {
        seq![WidgetState::Disabled]
    } else {
        seq![]
    };
    h + f + a + d
}

/// Every state of `req` is among `active`.
pub open spec fn all_states_active(req: Seq<WidgetState>, active: Seq<WidgetState>) -> bool {
    forall|i: int| 0 <= i < req.len() ==> active.contains(#[trigger] req[i])
}

/// A selector for state styles: one state, or several that must all be active.
#[derive(Debug, Clone, PartialEq, Eq, Hash)]
pub enum StateSelector {
    Single(WidgetState),
    Combined(Vec<WidgetState>),
}

fn vec_contains_state(v: &Vec<WidgetState>, s: WidgetState) -> (res: bool)
    ensures
        res == v@.contains(s),
{
    let mut i: usize = 0;
    while i < v.len()
        invariant
            i <= v.len(),
            forall|j: int| 0 <= j < i ==> v@[j] != s,
        decreases v.len() - i,
    {
        if v[i] == s {
            return true;
        }
        i = i + 1;
    }
    false
}

fn slice_contains_state(v: &[WidgetState], s: WidgetState) -> (res: bool)
    ensures
        res == v@.contains(s),
{
    let mut i: usize = 0;
    while i < v.len()
        invariant
            i <= v.len(),
            forall|j: int| 0 <= j < i ==> v@[j] != s,
        decreases v.len() - i,
    {
        if v[i] == s {
            return true;
        }
        i = i + 1;
    }
    false
}

impl StateSelector {
    /// A selector for one state.
    pub fn single(state: WidgetState) -> (res: StateSelector)
        ensures
            res == StateSelector::Single(state),
    {
        StateSelector::Single(state)
    }

    /// A selector for several states: one state gives `Single`, anything else
    /// gives `Combined` with the distinct states in order.
    pub fn combined(states: Vec<WidgetState>) -> (res: StateSelector)
        ensures
            states@.len() == 1 ==> res == StateSelector::Single(states@[0]),
            states@.len() != 1 ==> (res matches StateSelector::Combined(v) && v@
                == sorted_distinct_states(states@)),
    {
        if states.len() == 1 {
            StateSelector::Single(states[0])
        } else {
            let mut out: Vec<WidgetState> = Vec::new();
            if vec_contains_state(&states, WidgetState::Hover) {
                out.push(WidgetState::Hover);
            }
            if vec_contains_state(&states, WidgetState::Focus) {
                out.push(WidgetState::Focus);
            }
            if vec_contains_state(&states, WidgetState::Active) {
                out.push(WidgetState::Active);
            }
            if vec_contains_state(&states, WidgetState::Disabled) {
                out.push(WidgetState::Disabled);
            }
            assert(out@ =~= sorted_distinct_states(states@));
            StateSelector::Combined(out)
        }
    }

    /// Whether the selector applies when `active_states` are active.
    pub open spec fn spec_matches(self, active_states: Seq<WidgetState>) -> bool {
        match self {
            StateSelector::Single(s) => active_states.contains(s),
            StateSelector::Combined(req) => all_states_active(req@, active_states),
        }
    }

    /// Whether the selector applies when `active_states` are active.
    pub fn matches(&self, active_states: &[WidgetState]) -> (res: bool)
        ensures
            res == self.spec_matches(active_states@),
    {
        match self {
            StateSelector::Single(state) => slice_contains_state(active_states, *state),
            StateSelector::Combined(required_states) => {
                let mut i: usize = 0;
                while i < required_states.len()
                    invariant
                        i <= required_states.len(),
                        *self == StateSelector::Combined(*required_states),
                        forall|j: int|
                            0 <= j < i ==> active_states@.contains(#[trigger] required_states@[j]),
                    decreases required_states.len() - i,
                {
                    if !slice_contains_state(active_states, required_states[i]) {
                        assert(!active_states@.contains(required_states@[i as int]));
                        assert(!all_states_active(required_states@, active_states@));
                        return false;
                    }
                    i = i + 1;
                }
                true
            },
        }
    }

    /// Specificity for cascade resolution: 1 for a single state, else the
    /// number of combined states.
    pub fn specificity(&self) -> (res: usize)
        ensures
            res == (match self {
                StateSelector::Single(_) => 1,
                StateSelector::Combined(states) => states@.len(),
            }),
    {
        match self {
            StateSelector::Single(_) => 1,
            StateSelector::Combined(states) => states.len(),
        }
    }
}

/// Error codes for theme-related errors.
#[derive(Debug, Clone, Copy, PartialEq, Eq)]
pub enum ThemeErrorKind {
    NoThemesDefined,
    InvalidDefaultTheme,
    MissingPaletteColor,
    InvalidColorValue,
    DuplicateThemeName,
    ThemeNotFound,
    CircularInheritance,
    ExceedsMaxDepth,
}

/// A theme-related error: its kind and a message.
#[derive(Debug, Clone, PartialEq)]
pub struct ThemeError {
    pub kind: ThemeErrorKind,
    pub message: String,
}

pub open spec fn spec_theme_error_code(k: ThemeErrorKind) -> Seq<char> {
    match k {
        ThemeErrorKind::NoThemesDefined => "THEME_001"@,
        ThemeErrorKind::InvalidDefaultTheme => "THEME_002"@,
        ThemeErrorKind::MissingPaletteColor => "THEME_003"@,
        ThemeErrorKind::InvalidColorValue => "THEME_004"@,
        ThemeErrorKind::DuplicateThemeName => "THEME_005"@,
        ThemeErrorKind::ThemeNotFound => "THEME_006"@,
        ThemeErrorKind::CircularInheritance => "THEME_007"@,
        ThemeErrorKind::ExceedsMaxDepth => "THEME_008"@,
    }
}

impl ThemeErrorKind {
    /// The error code as `Display` prints it (`THEME_001` to `THEME_008`).
    pub fn code(&self) -> (res: String)
        ensures
            res@ == spec_theme_error_code(*self),
    {
        let s = match self {
            ThemeErrorKind::NoThemesDefined => "THEME_001",
            ThemeErrorKind::InvalidDefaultTheme => "THEME_002",
            ThemeErrorKind::MissingPaletteColor => "THEME_003",
            ThemeErrorKind::InvalidColorValue => "THEME_004",
            ThemeErrorKind::DuplicateThemeName => "THEME_005",
            ThemeErrorKind::ThemeNotFound => "THEME_006",
            ThemeErrorKind::CircularInheritance => "THEME_007",
            ThemeErrorKind::ExceedsMaxDepth => "THEME_008",
        };
        crate::text::to_owned_string(s)
    }
}

impl ThemeError {
    /// The message, as `Display` prints the error.
    pub fn to_message(&self) -> (res: String)
        ensures
            res@ == self.message@,
    {
        self.message.clone()
    }
}

// ---------------------------------------------------------------------------
// Themes and their inheritance
// ---------------------------------------------------------------------------

impl View for ThemeError {
    type V = (ThemeErrorKind, Seq<char>);

    open spec fn view(&self) -> (ThemeErrorKind, Seq<char>) {
        (self.kind, self.message@)
    }
}

/// A theme as the library's rules read it: its name and the theme it extends.
/// Its palette, typography, spacing and base styles hold floating-point
/// values; the application keeps them beside the theme, under the same key.
#[derive(Debug, PartialEq)]
pub struct Theme {
    pub name: String,
    pub extends: Option<String>,
}

/// The view of a theme.
pub struct SpecTheme {
    pub name: Seq<char>,
    pub extends: Option<Seq<char>>,
}

impl View for Theme {
    type V = SpecTheme;

    open spec fn view(&self) -> SpecTheme {
        SpecTheme { name: self.name@, extends: opt_view(self.extends) }
    }
}

impl Theme {
    /// A copy of the theme.
    pub fn duplicate(&self) -> (res: Theme)
        ensures
            res@ == self@,
    {
        let extends = match &self.extends {
            Some(p) => Some(p.clone()),
            None => None,
        };
        Theme { name: self.name.clone(), extends }
    }
}

/// `parts` with `sep` between each two neighbours.
pub open spec fn join_with(parts: Seq<Seq<char>>, sep: Seq<char>) -> Seq<char>
    decreases parts.len(),
{
    if parts.len() == 0 {
        Seq::empty()
    } else if parts.len() == 1 {
        parts[0]
    } else {
        join_with(parts.drop_last(), sep) + sep + parts.last()
    }
}

/// Joins strings with a separator (`[String]::join`).
pub fn join_strings(parts: &Vec<String>, sep: &str) -> (res: String)
    ensures
        res@ == join_with(strings_view(parts@), sep@),
{
    let ghost all = strings_view(parts@);
    let mut out = String::new();
    let mut i: usize = 0;
    while i < parts.len()
        invariant
            i <= parts.len(),
            all == strings_view(parts@),
            out@ == join_with(all.subrange(0, i as int), sep@),
        decreases parts.len() - i,
    {
        proof {
            assert(all.subrange(0, i + 1).drop_last() =~= all.subrange(0, i as int));
            assert(all.subrange(0, i + 1).last() == parts@[i as int]@);
        }
        if i > 0 {
            push_str(&mut out, sep);
        }
        push_str(&mut out, parts[i].as_str());
        i = i + 1;
    }
    assert(all.subrange(0, parts.len() as int) =~= all);
    out
}

pub open spec fn circular_message(visited: Seq<Seq<char>>, parent: Seq<char>) -> Seq<char> {
    "THEME_007: Circular theme inheritance detected: "@ + join_with(visited, " → "@) + " → "@
        + parent
}

pub open spec fn parent_missing_message(parent: Seq<char>, name: Seq<char>) -> Seq<char> {
    "THEME_006: Parent theme '"@ + parent + "' not found for theme '"@ + name + "'"@
}

pub open spec fn too_deep_message(name: Seq<char>) -> Seq<char> {
    "THEME_008: Theme inheritance depth exceeds 5 levels for '"@ + name + "'"@
}

/// How many more themes a chain may take before it is too deep.
pub open spec fn depth_left(visited: Seq<Seq<char>>) -> nat {
    if visited.len() < 6 {
        (6 - visited.len()) as nat
    } else {
        0
    }
}

/// Checking the inheritance chain of `t` among `themes`, with `visited` the
/// names already on the chain: the outcome, and the names on the chain after.
/// A parent that is already on the chain is circular; one that is not a theme
/// is missing; a chain of more than five themes is too deep.
pub open spec fn inheritance_check(
    themes: Map<Seq<char>, SpecTheme>,
    t: SpecTheme,
    visited: Seq<Seq<char>>,
) -> (Result<(), (ThemeErrorKind, Seq<char>)>, Seq<Seq<char>>)
    decreases depth_left(visited),
{
    match t.extends {
        None => (Ok(()), visited),
        Some(p) => if visited.contains(p) {
            (Err((ThemeErrorKind::CircularInheritance, circular_message(visited, p))), visited)
        } else if !themes.dom().contains(p) {
            (Err((ThemeErrorKind::ThemeNotFound, parent_missing_message(p, t.name))), visited)
        } else {
            let v2 = visited.push(t.name);
            if v2.len() > 5 {
                (Err((ThemeErrorKind::ExceedsMaxDepth, too_deep_message(t.name))), v2)
            } else {
                let r = inheritance_check(themes, themes[p], v2);
                match r.0 {
                    Ok(_) => (Ok(()), visited),
                    Err(e) => (Err(e), r.1),
                }
            }
        },
    }
}

impl Theme {
    /// Checks this theme's inheritance chain: every parent exists, no theme
    /// comes back, and the chain is at most five themes deep. `visited` holds
    /// the names already on the chain; it is restored on success.
    pub fn validate_inheritance(&self, all_themes: &NameMap<Theme>, visited: &mut Vec<String>) -> (res:
        Result<(), ThemeError>)
        ensures
            strings_view(final(visited)@) == inheritance_check(
                all_themes@,
                self@,
                strings_view(old(visited)@),
            ).1,
            match res {
                Ok(_) => inheritance_check(all_themes@, self@, strings_view(old(visited)@)).0 is Ok,
                Err(e) => inheritance_check(all_themes@, self@, strings_view(old(visited)@)).0
                    == Err::<(), (ThemeErrorKind, Seq<char>)>(e@),
            },
        decreases depth_left(strings_view(old(visited)@)),
    {
        let ghost v0 = strings_view(visited@);
        match &self.extends {
            None => Ok(()),
            Some(parent) => {
                if contains_str(visited, parent.as_str()) {
                    let mut message = to_owned_string("THEME_007: Circular theme inheritance detected: ");
                    let chain = join_strings(visited, " → ");
                    push_str(&mut message, chain.as_str());
                    push_str(&mut message, " → ");
                    push_str(&mut message, parent.as_str());
                    return Err(ThemeError { kind: ThemeErrorKind::CircularInheritance, message });
                }
                match all_themes.get(parent.as_str()) {
                    None => {
                        let mut message = to_owned_string("THEME_006: Parent theme '");
                        push_str(&mut message, parent.as_str());
                        push_str(&mut message, "' not found for theme '");
                        push_str(&mut message, self.name.as_str());
                        push_str(&mut message, "'");
                        Err(ThemeError { kind: ThemeErrorKind::ThemeNotFound, message })
                    },
                    Some(p) => {
                        visited.push(self.name.clone());
                        proof {
                            assert(strings_view(visited@) =~= v0.push(self.name@));
                        }
                        if visited.len() > 5 {
                            let mut message = to_owned_string(
                                "THEME_008: Theme inheritance depth exceeds 5 levels for '",
                            );
                            push_str(&mut message, self.name.as_str());
                            push_str(&mut message, "'");
                            return Err(ThemeError { kind: ThemeErrorKind::ExceedsMaxDepth, message });
                        }
                        match p.validate_inheritance(all_themes, visited) {
                            Err(e) => Err(e),
                            Ok(()) => {
                                proof {
                                    let r = inheritance_check(all_themes@, p@, v0.push(self.name@));
                                    assert(r.0 is Ok ==> r.1 == v0.push(self.name@));
                                    assert(strings_view(visited@) == v0.push(self.name@));
                                }
                                let ghost before = visited@;
                                let _ = visited.pop();
                                proof {
                                    assert(before.len() == v0.len() + 1);
                                    assert forall|j: int| 0 <= j < v0.len() implies strings_view(visited@)[j] == v0[j] by {
                                        assert(visited@[j] == before[j]);
                                        assert(strings_view(before)[j] == v0.push(self.name@)[j]);
                                    }
                                    assert(strings_view(visited@) =~= v0);
                                }
                                Ok(())
                            },
                        }
                    },
                }
            },
        }
    }
}

/// The theme file: its themes by name, the default theme, and whether the
/// system's light or dark preference picks the theme.
#[derive(Debug, PartialEq)]
pub struct ThemeDocument {
    pub themes: NameMap<Theme>,
    pub default_theme: Option<String>,
    pub follow_system: bool,
}

/// The view of a theme document.
pub struct SpecThemeDocument {
    pub themes: Map<Seq<char>, SpecTheme>,
    pub default_theme: Option<Seq<char>>,
    pub follow_system: bool,
}

impl View for ThemeDocument {
    type V = SpecThemeDocument;

    open spec fn view(&self) -> SpecThemeDocument {
        SpecThemeDocument {
            themes: self.themes@,
            default_theme: opt_view(self.default_theme),
            follow_system: self.follow_system,
        }
    }
}

/// Following parents from `t` ends within `n` themes: at a theme without a
/// parent, or whose parent is not a theme.
pub open spec fn chain_ends(themes: Map<Seq<char>, SpecTheme>, t: SpecTheme, n: nat) -> bool
    decreases n,
{
    n > 0 && match t.extends {
        None => true,
        Some(p) => !themes.dom().contains(p) || chain_ends(themes, themes[p], (n - 1) as nat),
    }
}

/// How many themes a chain of parents may pass before it is taken not to end.
/// A chain that ends passes each theme at most once, so this only adds slack
/// (enough for the six themes the inheritance check allows).
pub open spec fn chain_bound(themes: Map<Seq<char>, SpecTheme>) -> nat {
    themes.dom().len() + 7
}

/// Every theme's chain of parents ends: no theme is its own ancestor.
pub open spec fn inheritance_terminates(themes: Map<Seq<char>, SpecTheme>) -> bool {
    forall|k: Seq<char>|
        themes.dom().contains(k) ==> #[trigger] chain_ends(themes, themes[k], chain_bound(themes))
}

/// The keys of the ancestors of `t` that are themes, nearest first, following
/// at most `n` parents.
pub open spec fn ancestors(themes: Map<Seq<char>, SpecTheme>, t: SpecTheme, n: nat) -> Seq<Seq<char>>
    decreases n,
{
    if n == 0 {
        Seq::empty()
    } else {
        match t.extends {
            Some(p) => if themes.dom().contains(p) {
                seq![p] + ancestors(themes, themes[p], (n - 1) as nat)
            } else {
                Seq::empty()
            },
            None => Seq::empty(),
        }
    }
}

/// The lineage of the theme under `key`: the key, then the keys of its
/// ancestors, nearest first. Resolving a theme lays each of these over the
/// next: a value the theme sets wins over its parent's, and so on up.
pub open spec fn lineage(themes: Map<Seq<char>, SpecTheme>, key: Seq<char>) -> Seq<Seq<char>> {
    seq![key] + ancestors(themes, themes[key], chain_bound(themes))
}

/// The theme used when nothing else is asked for: the system's preference
/// when the document follows it and has such a theme, else the document's
/// default, else `light`.
pub open spec fn effective_default_of(d: SpecThemeDocument, system: Option<Seq<char>>) -> Seq<char> {
    if d.follow_system && system is Some && d.themes.dom().contains(system->0) {
        system->0
    } else if d.default_theme is Some {
        d.default_theme->0
    } else {
        "light"@
    }
}

pub open spec fn opt_str_view(o: Option<&str>) -> Option<Seq<char>> {
    match o {
        Some(s) => Some(s@),
        None => None,
    }
}

pub open spec fn invalid_default_message(d: Seq<char>, keys: Seq<Seq<char>>) -> Seq<char> {
    "THEME_002: Default theme '"@ + d + "' not found. Available: "@ + join_with(keys, ", "@)
}

/// Ancestors along a chain that ends do not depend on how far one may look.
proof fn lemma_ancestors_fuel(themes: Map<Seq<char>, SpecTheme>, t: SpecTheme, n: nat, m: nat)
    requires
        chain_ends(themes, t, n),
        n <= m,
    ensures
        chain_ends(themes, t, m),
        ancestors(themes, t, n) == ancestors(themes, t, m),
    decreases n,
{
    if let Some(p) = t.extends {
        if themes.dom().contains(p) {
            lemma_ancestors_fuel(themes, themes[p], (n - 1) as nat, (m - 1) as nat);
        }
    }
}

/// A chain whose inheritance check succeeds ends within the depth left.
proof fn lemma_check_ok_chain_ends(themes: Map<Seq<char>, SpecTheme>, t: SpecTheme, visited: Seq<Seq<char>>)
    requires
        inheritance_check(themes, t, visited).0 is Ok,
    ensures
        chain_ends(themes, t, depth_left(visited) + 1),
    decreases depth_left(visited),
{
    if let Some(p) = t.extends {
        let v2 = visited.push(t.name);
        lemma_check_ok_chain_ends(themes, themes[p], v2);
    }
}

/// A document whose inheritance validates can be resolved: following parents
/// from any theme ends.
pub proof fn lemma_validated_inheritance_terminates(themes: Map<Seq<char>, SpecTheme>)
    requires
        forall|k: Seq<char>|
            themes.dom().contains(k) ==> (#[trigger] inheritance_check(themes, themes[k], Seq::empty())).0 is Ok,
    ensures
        inheritance_terminates(themes),
{
    assert forall|k: Seq<char>| themes.dom().contains(k) implies #[trigger] chain_ends(themes, themes[k], chain_bound(themes)) by {
        assert(inheritance_check(themes, themes[k], Seq::empty()).0 is Ok);
        lemma_check_ok_chain_ends(themes, themes[k], Seq::empty());
        lemma_ancestors_fuel(themes, themes[k], depth_left(Seq::<Seq<char>>::empty()) + 1, chain_bound(themes));
    }
}

/// The lineage of the theme `t` stored under `key`.
fn lineage_of(themes: &NameMap<Theme>, key: &String, t: &Theme) -> (res: Vec<String>)
    requires
        themes@.dom().contains(key@),
        themes@[key@] == t@,
        chain_ends(themes@, t@, chain_bound(themes@)),
    ensures
        strings_view(res@) == lineage(themes@, key@),
{
    let ghost n0 = chain_bound(themes@);
    let mut out: Vec<String> = Vec::new();
    out.push(key.clone());
    let mut cur: &Theme = t;
    let ghost mut fuel: nat = n0;
    proof {
        assert(strings_view(out@) =~= seq![key@]);
    }
    loop
        invariant
            chain_ends(themes@, cur@, fuel),
            strings_view(out@) + ancestors(themes@, cur@, fuel) == seq![key@] + ancestors(
                themes@,
                t@,
                n0,
            ),
        ensures
            strings_view(out@) == seq![key@] + ancestors(themes@, t@, n0),
        decreases fuel,
    {
        match &cur.extends {
            None => {
                assert(strings_view(out@) + ancestors(themes@, cur@, fuel) =~= strings_view(out@));
                break;
            },
            Some(p) => match themes.get(p.as_str()) {
                None => {
                    assert(strings_view(out@) + ancestors(themes@, cur@, fuel) =~= strings_view(out@));
                    break;
                },
                Some(pt) => {
                    let ghost before = strings_view(out@);
                    out.push(p.clone());
                    proof {
                        assert(strings_view(out@) =~= before.push(p@));
                        assert(ancestors(themes@, cur@, fuel) == seq![p@] + ancestors(themes@, pt@, (fuel - 1) as nat));
                        assert(before + (seq![p@] + ancestors(themes@, pt@, (fuel - 1) as nat)) =~= before.push(p@) + ancestors(themes@, pt@, (fuel - 1) as nat));
                        fuel = (fuel - 1) as nat;
                    }
                    cur = pt;
                },
            },
        }
    }
    out
}

impl ThemeDocument {
    /// Checks the inheritance of every theme (see `Theme::validate_inheritance`);
    /// fails with the error of a theme whose check fails.
    pub fn validate_inheritance(&self) -> (res: Result<(), ThemeError>)
        ensures
            res is Ok <==> forall|k: Seq<char>|
                self.themes@.dom().contains(k) ==> (#[trigger] inheritance_check(
                    self.themes@,
                    self.themes@[k],
                    Seq::empty(),
                )).0 is Ok,
            match res {
                Ok(_) => true,
                Err(e) => exists|k: Seq<char>|
                    self.themes@.dom().contains(k) && (#[trigger] inheritance_check(
                        self.themes@,
                        self.themes@[k],
                        Seq::empty(),
                    )).0 == Err::<(), (ThemeErrorKind, Seq<char>)>(e@),
            },
    {
        let entries = self.themes.entries();
        let mut i: usize = 0;
        while i < entries.len()
            invariant
                i <= entries@.len(),
                forall|j: int|
                    0 <= j < entries@.len() ==> self.themes@.dom().contains(#[trigger] entries@[j].0@)
                        && self.themes@[entries@[j].0@] == entries@[j].1@,
                forall|k: Seq<char>| #[trigger] self.themes@.dom().contains(k) ==> exists|j: int| 0 <= j < entries@.len() && (#[trigger] entries@[j]).0@ == k,
                forall|j: int|
                    0 <= j < i ==> (#[trigger] inheritance_check(
                        self.themes@,
                        self.themes@[entries@[j].0@],
                        Seq::empty(),
                    )).0 is Ok,
            decreases entries.len() - i,
        {
            let mut visited: Vec<String> = Vec::new();
            proof {
                assert(strings_view(visited@) =~= Seq::<Seq<char>>::empty());
            }
            match entries[i].1.validate_inheritance(&self.themes, &mut visited) {
                Err(e) => {
                    assert(self.themes@.dom().contains(entries@[i as int].0@));
                    return Err(e);
                },
                Ok(()) => {},
            }
            i = i + 1;
        }
        proof {
            assert forall|k: Seq<char>| self.themes@.dom().contains(k) implies (#[trigger] inheritance_check(
                self.themes@,
                self.themes@[k],
                Seq::empty(),
            )).0 is Ok by {
                let j = choose|j: int| 0 <= j < entries@.len() && (#[trigger] entries@[j]).0@ == k;
                assert(inheritance_check(self.themes@, self.themes@[entries@[j].0@], Seq::empty()).0 is Ok);
            }
        }
        Ok(())
    }

    /// Whether following parents from every theme ends; resolving inheritance
    /// is defined exactly then.
    pub fn inheritance_ends(&self) -> (res: bool)
        ensures
            res == inheritance_terminates(self.themes@),
    {
        let n = self.themes.len();
        let bound: u128 = n as u128 + 7;
        let entries = self.themes.entries();
        let mut i: usize = 0;
        while i < entries.len()
            invariant
                i <= entries@.len(),
                bound == chain_bound(self.themes@),
                forall|j: int|
                    0 <= j < entries@.len() ==> self.themes@.dom().contains(#[trigger] entries@[j].0@)
                        && self.themes@[entries@[j].0@] == entries@[j].1@,
                forall|k: Seq<char>| #[trigger] self.themes@.dom().contains(k) ==> exists|j: int| 0 <= j < entries@.len() && (#[trigger] entries@[j]).0@ == k,
                forall|j: int|
                    0 <= j < i ==> #[trigger] chain_ends(self.themes@, self.themes@[entries@[j].0@], chain_bound(self.themes@)),
            decreases entries.len() - i,
        {
            if !self.chain_ends_within(&entries[i].1, bound) {
                assert(self.themes@.dom().contains(entries@[i as int].0@));
                return false;
            }
            i = i + 1;
        }
        proof {
            assert forall|k: Seq<char>| self.themes@.dom().contains(k) implies #[trigger] chain_ends(self.themes@, self.themes@[k], chain_bound(self.themes@)) by {
                let j = choose|j: int| 0 <= j < entries@.len() && (#[trigger] entries@[j]).0@ == k;
                assert(chain_ends(self.themes@, self.themes@[entries@[j].0@], chain_bound(self.themes@)));
            }
        }
        true
    }

    /// Each theme's key with its lineage, which says how the theme's values
    /// are resolved from its ancestors. Defined when every chain of parents
    /// ends (otherwise resolving never finishes).
    pub fn resolve_inheritance(&self) -> (res: Vec<(String, Vec<String>)>)
        requires
            inheritance_terminates(self.themes@),
        ensures
            res@.len() == self.themes@.dom().len(),
            forall|i: int|
                0 <= i < res@.len() ==> self.themes@.dom().contains(#[trigger] res@[i].0@)
                    && strings_view(res@[i].1@) == lineage(self.themes@, res@[i].0@),
            forall|k: Seq<char>| #[trigger] self.themes@.dom().contains(k) ==> exists|i: int| 0 <= i < res@.len() && (#[trigger] res@[i]).0@ == k,
            forall|i: int, j: int| 0 <= i < j < res@.len() ==> (#[trigger] res@[i]).0@ != (#[trigger] res@[j]).0@,
    {
        let n = self.themes.len();
        let entries = self.themes.entries();
        let mut out: Vec<(String, Vec<String>)> = Vec::new();
        let mut i: usize = 0;
        while i < entries.len()
            invariant
                i <= entries@.len(),
                n == entries@.len(),
                out@.len() == i,
                inheritance_terminates(self.themes@),
                forall|j: int|
                    0 <= j < entries@.len() ==> self.themes@.dom().contains(#[trigger] entries@[j].0@)
                        && self.themes@[entries@[j].0@] == entries@[j].1@,
                forall|j: int| 0 <= j < i ==> (#[trigger] out@[j]).0@ == entries@[j].0@,
                forall|j: int| 0 <= j < i ==> strings_view((#[trigger] out@[j]).1@) == lineage(self.themes@, out@[j].0@),
            decreases entries.len() - i,
        {
            let key = &entries[i].0;
            proof {
                assert(self.themes@.dom().contains(key@));
                assert(chain_ends(self.themes@, self.themes@[key@], chain_bound(self.themes@)));
            }
            let l = lineage_of(&self.themes, key, &entries[i].1);
            out.push((key.clone(), l));
            i = i + 1;
        }
        proof {
            assert forall|k: Seq<char>| #[trigger] self.themes@.dom().contains(k) implies exists|i: int| 0 <= i < out@.len() && (#[trigger] out@[i]).0@ == k by {
                let j = choose|j: int| 0 <= j < entries@.len() && (#[trigger] entries@[j]).0@ == k;
                assert(out@[j].0@ == k);
            }
            assert forall|i: int, j: int| 0 <= i < j < out@.len() implies (#[trigger] out@[i]).0@ != (#[trigger] out@[j]).0@ by {
                assert(self.themes.keys_seq()[i] == entries@[i].0@);
                assert(self.themes.keys_seq()[j] == entries@[j].0@);
            }
        }
        out
    }

    /// The theme to start with when the user has chosen none (see
    /// `effective_default_of`).
    pub fn effective_default<'a>(&'a self, system_preference: Option<&'a str>) -> (res: &'a str)
        ensures
            res@ == effective_default_of(self@, opt_str_view(system_preference)),
    {
        if self.follow_system {
            if let Some(sys) = system_preference {
                if self.themes.contains_key(sys) {
                    return sys;
                }
            }
        }
        match &self.default_theme {
            Some(d) => d.as_str(),
            None => "light",
        }
    }

    /// The rules of a theme file that concern names: there is at least one
    /// theme, and the default theme, if one is named, exists.
    pub fn validate_names(&self) -> (res: Result<(), ThemeError>)
        ensures
            res is Ok <==> (self.themes@.dom().len() > 0 && (self@.default_theme is Some
                ==> self.themes@.dom().contains(self@.default_theme->0))),
            self.themes@.dom().len() == 0 ==> res is Err && res->Err_0@ == (
                ThemeErrorKind::NoThemesDefined,
                "THEME_001: At least one theme must be defined in theme.dampen"@,
            ),
            (self.themes@.dom().len() > 0 && self@.default_theme is Some
                && !self.themes@.dom().contains(self@.default_theme->0)) ==> res is Err
                && res->Err_0@ == (ThemeErrorKind::InvalidDefaultTheme, invalid_default_message(
                self@.default_theme->0,
                self.themes.keys_seq(),
            )),
    {
        if self.themes.is_empty() {
            return Err(ThemeError {
                kind: ThemeErrorKind::NoThemesDefined,
                message: to_owned_string("THEME_001: At least one theme must be defined in theme.dampen"),
            });
        }
        if let Some(d) = &self.default_theme {
            if !self.themes.contains_key(d.as_str()) {
                let entries = self.themes.entries();
                let mut keys: Vec<String> = Vec::new();
                let mut i: usize = 0;
                while i < entries.len()
                    invariant
                        i <= entries@.len(),
                        keys@.len() == i,
                        self.themes.keys_seq().len() == entries@.len(),
                        forall|j: int| 0 <= j < entries@.len() ==> #[trigger] self.themes.keys_seq()[j] == entries@[j].0@,
                        forall|j: int| 0 <= j < i ==> (#[trigger] keys@[j])@ == entries@[j].0@,
                    decreases entries.len() - i,
                {
                    keys.push(entries[i].0.clone());
                    i = i + 1;
                }
                assert(strings_view(keys@) =~= self.themes.keys_seq());
                let mut message = to_owned_string("THEME_002: Default theme '");
                push_str(&mut message, d.as_str());
                push_str(&mut message, "' not found. Available: ");
                let listed = join_strings(&keys, ", ");
                push_str(&mut message, listed.as_str());
                return Err(ThemeError { kind: ThemeErrorKind::InvalidDefaultTheme, message });
            }
        }
        Ok(())
    }

    /// Whether following parents from `t` ends within `n` themes.
    fn chain_ends_within(&self, t: &Theme, n: u128) -> (res: bool)
        ensures
            res == chain_ends(self.themes@, t@, n as nat),
        decreases n,
    {
        if n == 0 {
            return false;
        }
        match &t.extends {
            None => true,
            Some(p) => match self.themes.get(p.as_str()) {
                None => true,
                Some(pt) => self.chain_ends_within(pt, n - 1),
            },
        }
    }
}

// ---------------------------------------------------------------------------
// Style classes and their inheritance
// ---------------------------------------------------------------------------

/// A style class as the library's rules read it: its name and the classes it
/// extends. Its style, layout and state variants hold floating-point values;
/// the application keeps them beside the class, under the same key.
#[derive(Debug, PartialEq)]
pub struct StyleClass {
    pub name: String,
    pub extends: Vec<String>,
}

/// The view of a style class.
pub struct SpecStyleClass {
    pub name: Seq<char>,
    pub extends: Seq<Seq<char>>,
}

impl View for StyleClass {
    type V = SpecStyleClass;

    open spec fn view(&self) -> SpecStyleClass {
        SpecStyleClass { name: self.name@, extends: strings_view(self.extends@) }
    }
}

pub open spec fn class_too_deep_message(name: Seq<char>) -> Seq<char> {
    "Style class inheritance depth exceeds 5 levels (class: "@ + name + ")"@
}

pub open spec fn class_cycle_message(path: Seq<Seq<char>>, name: Seq<char>) -> Seq<char> {
    "Circular style class dependency detected: "@ + join_with(path, " → "@) + " → "@ + name
}

pub open spec fn class_depth_left(depth: nat) -> nat {
    if depth <= 6 {
        (6 - depth) as nat
    } else {
        0
    }
}

/// The depth check of a class at `depth` levels below where it started: a
/// class more than five levels down is too deep; otherwise each parent that
/// is a class is checked one level further down, in order, and the first
/// failure is the result.
pub open spec fn class_depth_check(classes: Map<Seq<char>, SpecStyleClass>, c: SpecStyleClass, depth: nat) -> Result<(), Seq<char>>
    decreases class_depth_left(depth), 1nat, 0nat,
{
    if depth > 5 {
        Err(class_too_deep_message(c.name))
    } else {
        parents_depth_check(classes, c.extends, depth)
    }
}

/// The depth check of the parents `ps` of a class at `depth`.
pub open spec fn parents_depth_check(classes: Map<Seq<char>, SpecStyleClass>, ps: Seq<Seq<char>>, depth: nat) -> Result<(), Seq<char>>
    decreases class_depth_left(depth), 0nat, ps.len(),
{
    if ps.len() == 0 {
        Ok(())
    } else {
        let first = if classes.dom().contains(ps[0]) && depth < 6 {
            class_depth_check(classes, classes[ps[0]], depth + 1)
        } else {
            Ok(())
        };
        match first {
            Err(e) => Err(e),
            Ok(_) => parents_depth_check(classes, ps.drop_first(), depth),
        }
    }
}

/// The keys of the classes whose name is not on `path`.
pub open spec fn unvisited(classes: Map<Seq<char>, SpecStyleClass>, path: Seq<Seq<char>>) -> Set<Seq<char>> {
    classes.dom().filter(|k: Seq<char>| !path.contains(classes[k].name))
}

/// The cycle check of a class reached along `path`: its name on the path is
/// a cycle; otherwise each parent that is a class is checked with the name
/// added to the path, in order, and the first failure is the result.
pub open spec fn class_cycle_check(classes: Map<Seq<char>, SpecStyleClass>, c: SpecStyleClass, path: Seq<Seq<char>>) -> Result<(), Seq<char>>
    decreases unvisited(classes, path.push(c.name)).len(), 1nat, 0nat
    when classes.dom().finite()
{
    if path.contains(c.name) {
        Err(class_cycle_message(path, c.name))
    } else {
        parents_cycle_check(classes, c.extends, path.push(c.name))
    }
}

/// The cycle check of the parents `ps` of a class, with `path` ending in it.
pub open spec fn parents_cycle_check(classes: Map<Seq<char>, SpecStyleClass>, ps: Seq<Seq<char>>, path: Seq<Seq<char>>) -> Result<(), Seq<char>>
    decreases unvisited(classes, path).len(), 0nat, ps.len()
    when classes.dom().finite()
{
    if ps.len() == 0 {
        Ok(())
    } else {
        let first = if classes.dom().contains(ps[0]) {
            if path.contains(classes[ps[0]].name) {
                Err(class_cycle_message(path, classes[ps[0]].name))
            } else {
                proof {
                    lemma_unvisited_shrinks(classes, path, ps[0]);
                }
                class_cycle_check(classes, classes[ps[0]], path)
            }
        } else {
            Ok(())
        };
        match first {
            Err(e) => Err(e),
            Ok(_) => parents_cycle_check(classes, ps.drop_first(), path),
        }
    }
}

/// Putting the name of an unvisited class on the path leaves fewer unvisited classes.
pub proof fn lemma_unvisited_shrinks(classes: Map<Seq<char>, SpecStyleClass>, path: Seq<Seq<char>>, k: Seq<char>)
    requires
        classes.dom().finite(),
        classes.dom().contains(k),
        !path.contains(classes[k].name),
    ensures
        unvisited(classes, path.push(classes[k].name)).len() < unvisited(classes, path).len(),
{
    let s = unvisited(classes, path);
    let s2 = unvisited(classes, path.push(classes[k].name));
    assert(s.contains(k));
    assert(!s2.contains(k)) by {
        assert(path.push(classes[k].name).contains(classes[k].name)) by {
            assert(path.push(classes[k].name)[path.len() as int] == classes[k].name);
        }
    }
    assert(s2.subset_of(s.remove(k))) by {
        assert forall|x: Seq<char>| s2.contains(x) implies s.remove(k).contains(x) by {
            if path.contains(classes[x].name) {
                let j = choose|j: int| 0 <= j < path.len() && path[j] == classes[x].name;
                assert(path.push(classes[k].name)[j] == classes[x].name);
            }
        }
    }
    vstd::set_lib::lemma_len_subset(s, classes.dom());
    vstd::set_lib::lemma_len_subset(s2, s.remove(k));
    vstd::set::axiom_set_remove_len(s, k);
}

impl StyleClass {
    /// A copy of the class.
    pub fn duplicate(&self) -> (res: StyleClass)
        ensures
            res@ == self@,
    {
        StyleClass { name: self.name.clone(), extends: crate::expr::ast::copy_strings(&self.extends) }
    }

    /// Checks that no chain of parents from this class, which is `depth`
    /// levels below where the check started, goes more than five levels
    /// (see `class_depth_check`).
    pub fn check_inheritance_depth(&self, all_classes: &NameMap<StyleClass>, depth: u8) -> (res: Result<(), String>)
        ensures
            match res {
                Ok(_) => class_depth_check(all_classes@, self@, depth as nat) is Ok,
                Err(e) => class_depth_check(all_classes@, self@, depth as nat) == Err::<(), Seq<char>>(e@),
            },
        decreases class_depth_left(depth as nat),
    {
        if depth > 5 {
            let mut message = to_owned_string("Style class inheritance depth exceeds 5 levels (class: ");
            push_str(&mut message, self.name.as_str());
            push_str(&mut message, ")");
            return Err(message);
        }
        let ghost ps = self@.extends;
        assert(ps.subrange(0, ps.len() as int) =~= ps);
        let mut i: usize = 0;
        while i < self.extends.len()
            invariant
                depth <= 5,
                i <= self.extends@.len(),
                ps == strings_view(self.extends@),
                parents_depth_check(all_classes@, ps, depth as nat) == parents_depth_check(
                    all_classes@,
                    ps.subrange(i as int, ps.len() as int),
                    depth as nat,
                ),
            decreases self.extends.len() - i,
        {
            let ghost rest = ps.subrange(i as int, ps.len() as int);
            proof {
                assert(rest.drop_first() =~= ps.subrange(i + 1, ps.len() as int));
                assert(rest[0] == self.extends@[i as int]@);
            }
            if let Some(parent) = all_classes.get(self.extends[i].as_str()) {
                match parent.check_inheritance_depth(all_classes, depth + 1) {
                    Err(e) => return Err(e),
                    Ok(()) => {},
                }
            }
            i = i + 1;
        }
        proof {
            assert(ps.subrange(ps.len() as int, ps.len() as int) =~= Seq::<Seq<char>>::empty());
        }
        Ok(())
    }

    /// Checks that no class is reached again along its own chain of parents
    /// (see `class_cycle_check`, started with an empty path).
    pub fn check_circular_dependency(&self, all_classes: &NameMap<StyleClass>) -> (res: Result<(), String>)
        ensures
            all_classes@.dom().finite(),
            match res {
                Ok(_) => class_cycle_check(all_classes@, self@, Seq::empty()) is Ok,
                Err(e) => class_cycle_check(all_classes@, self@, Seq::empty()) == Err::<(), Seq<char>>(e@),
            },
    {
        let _ = all_classes.len();
        let mut path: Vec<String> = Vec::new();
        proof {
            assert(strings_view(path@) =~= Seq::<Seq<char>>::empty());
        }
        self.cycle_check(all_classes, &mut path)
    }

    fn cycle_check(&self, all_classes: &NameMap<StyleClass>, path: &mut Vec<String>) -> (res: Result<(), String>)
        requires
            all_classes@.dom().finite(),
        ensures
            res is Ok ==> final(path)@ == old(path)@,
            match res {
                Ok(_) => class_cycle_check(all_classes@, self@, strings_view(old(path)@)) is Ok,
                Err(e) => class_cycle_check(all_classes@, self@, strings_view(old(path)@)) == Err::<(), Seq<char>>(e@),
            },
        decreases unvisited(all_classes@, strings_view(old(path)@).push(self@.name)).len(),
    {
        let ghost p0 = strings_view(path@);
        let ghost v0 = path@;
        if contains_str(path, self.name.as_str()) {
            return Err(cycle_message(path, self.name.as_str()));
        }
        path.push(self.name.clone());
        let ghost p1 = strings_view(path@);
        proof {
            assert(p1 =~= p0.push(self.name@));
        }
        let ghost ps = self@.extends;
        assert(ps.subrange(0, ps.len() as int) =~= ps);
        let mut i: usize = 0;
        while i < self.extends.len()
            invariant
                all_classes@.dom().finite(),
                i <= self.extends@.len(),
                ps == strings_view(self.extends@),
                p1 == p0.push(self.name@),
                p0 == strings_view(old(path)@),
                !p0.contains(self@.name),
                strings_view(path@) == p1,
                path@ == v0.push(path@.last()),
                path@.len() == v0.len() + 1,
                parents_cycle_check(all_classes@, ps, p1) == parents_cycle_check(
                    all_classes@,
                    ps.subrange(i as int, ps.len() as int),
                    p1,
                ),
            decreases self.extends.len() - i,
        {
            let ghost rest = ps.subrange(i as int, ps.len() as int);
            proof {
                assert(rest.drop_first() =~= ps.subrange(i + 1, ps.len() as int));
                assert(rest[0] == self.extends@[i as int]@);
            }
            if let Some(parent) = all_classes.get(self.extends[i].as_str()) {
                proof {
                    assert(parent@ == all_classes@[rest[0]]);
                    assert(class_cycle_check(all_classes@, self@, p0) == parents_cycle_check(all_classes@, ps, p1));
                }
                if contains_str(path, parent.name.as_str()) {
                    proof {
                        assert(parents_cycle_check(all_classes@, rest, p1) == Err::<(), Seq<char>>(class_cycle_message(p1, parent@.name)));
                    }
                    return Err(cycle_message(path, parent.name.as_str()));
                }
                proof {
                    lemma_unvisited_shrinks(all_classes@, p1, rest[0]);
                    assert(unvisited(all_classes@, strings_view(path@).push(parent@.name)).len()
                        < unvisited(all_classes@, p0.push(self@.name)).len());
                }
                match parent.cycle_check(all_classes, path) {
                    Err(e) => return Err(e),
                    Ok(()) => {},
                }
            }
            i = i + 1;
        }
        proof {
            assert(ps.subrange(ps.len() as int, ps.len() as int) =~= Seq::<Seq<char>>::empty());
        }
        let ghost before = path@;
        let _ = path.pop();
        proof {
            assert(path@ =~= v0);
        }
        Ok(())
    }

    /// Checks that every class this class extends exists; fails naming the
    /// first that does not.
    pub fn check_parents_exist(&self, all_classes: &NameMap<StyleClass>) -> (res: Result<(), String>)
        ensures
            match res {
                Ok(_) => forall|j: int| 0 <= j < self@.extends.len() ==> all_classes@.dom().contains(#[trigger] self@.extends[j]),
                Err(e) => exists|j: int| 0 <= j < self@.extends.len() && !all_classes@.dom().contains(#[trigger] self@.extends[j])
                    && (forall|m: int| 0 <= m < j ==> all_classes@.dom().contains(#[trigger] self@.extends[m]))
                    && e@ == "Parent class '"@ + self@.extends[j] + "' not found"@,
            },
    {
        let mut i: usize = 0;
        while i < self.extends.len()
            invariant
                i <= self.extends@.len(),
                forall|m: int| 0 <= m < i ==> all_classes@.dom().contains(#[trigger] self@.extends[m]),
            decreases self.extends.len() - i,
        {
            if !all_classes.contains_key(self.extends[i].as_str()) {
                let mut message = to_owned_string("Parent class '");
                push_str(&mut message, self.extends[i].as_str());
                push_str(&mut message, "' not found");
                assert(self@.extends[i as int] == self.extends@[i as int]@);
                return Err(message);
            }
            i = i + 1;
        }
        Ok(())
    }
}

fn cycle_message(path: &Vec<String>, name: &str) -> (res: String)
    ensures
        res@ == class_cycle_message(strings_view(path@), name@),
{
    let mut message = to_owned_string("Circular style class dependency detected: ");
    let chain = join_strings(path, " → ");
    push_str(&mut message, chain.as_str());
    push_str(&mut message, " → ");
    push_str(&mut message, name);
    message
}

} // verus!
