//! The active theme and how it changes at run time.

use crate::ir::name_map::NameMap;
use crate::ir::theme::{
    effective_default_of, opt_str_view, SpecTheme, SpecThemeDocument, Theme, ThemeDocument,
    ThemeError, ThemeErrorKind,
};
use crate::parser::error::opt_view;
use crate::text::{push_str, to_owned_string};
use vstd::prelude::*;

verus! {

/// Which theme is active among the loaded themes, with the system's and the
/// user's preference and whether the system's preference is followed.
#[derive(Debug)]
pub struct ThemeContext {
    active_theme: String,
    themes: NameMap<Theme>,
    system_preference: Option<String>,
    follow_system: bool,
    user_preference: Option<String>,
}

/// The view of a theme context.
pub struct SpecThemeContext {
    pub active: Seq<char>,
    pub themes: Map<Seq<char>, SpecTheme>,
    pub system_preference: Option<Seq<char>>,
    pub follow_system: bool,
    pub user_preference: Option<Seq<char>>,
}

impl View for ThemeContext {
    type V = SpecThemeContext;

    closed spec fn view(&self) -> SpecThemeContext {
        SpecThemeContext {
            active: self.active_theme@,
            themes: self.themes@,
            system_preference: opt_view(self.system_preference),
            follow_system: self.follow_system,
            user_preference: opt_view(self.user_preference),
        }
    }
}

/// The theme a document starts with: the name of the theme stored as
/// `user_preference` if there is one, else the document's effective default.
pub open spec fn initial_active(d: SpecThemeDocument, system: Option<Seq<char>>) -> Seq<char> {
    if d.themes.dom().contains("user_preference"@) {
        d.themes["user_preference"@].name
    } else {
        effective_default_of(d, system)
    }
}

/// The active theme names a loaded theme.
pub open spec fn active_is_loaded(c: SpecThemeContext) -> bool {
    c.themes.dom().contains(c.active)
}

/// Switching to `name`: it must be a loaded theme; it becomes active and is
/// remembered as the user's choice.
pub open spec fn after_set_theme(c: SpecThemeContext, name: Seq<char>) -> (
    Result<(), (ThemeErrorKind, Seq<char>)>,
    SpecThemeContext,
) {
    if c.themes.dom().contains(name) {
        (Ok(()), SpecThemeContext { active: name, user_preference: Some(name), ..c })
    } else {
        (
            Err((ThemeErrorKind::ThemeNotFound, "THEME_006: Theme '"@ + name + "' not found"@)),
            c,
        )
    }
}

/// A new system preference is recorded; it becomes active when the system is
/// followed, the user has chosen no theme, and such a theme is loaded.
pub open spec fn after_system_preference(c: SpecThemeContext, pref: Seq<char>) -> SpecThemeContext {
    let c2 = SpecThemeContext { system_preference: Some(pref), ..c };
    if c.follow_system && c.user_preference is None && c.themes.dom().contains(pref) {
        SpecThemeContext { active: pref, ..c2 }
    } else {
        c2
    }
}

/// Following the system or not; when it is turned on, a known system
/// preference that names a loaded theme becomes active.
pub open spec fn after_set_follow_system(c: SpecThemeContext, follow: bool) -> SpecThemeContext {
    let c2 = SpecThemeContext { follow_system: follow, ..c };
    if follow && c.system_preference is Some && c.themes.dom().contains(c.system_preference->0) {
        SpecThemeContext { active: c.system_preference->0, ..c2 }
    } else {
        c2
    }
}

/// Reloading from a new document: its themes replace the old ones; the active
/// theme stays if the new document has it, else the new document's effective
/// default (under the known system preference) becomes active.
pub open spec fn after_reload(c: SpecThemeContext, d: SpecThemeDocument) -> SpecThemeContext {
    SpecThemeContext {
        themes: d.themes,
        active: if d.themes.dom().contains(c.active) {
            c.active
        } else {
            effective_default_of(d, c.system_preference)
        },
        ..c
    }
}

impl ThemeContext {
    /// Creates the context for a document. Fails when the document has no
    /// themes, or when the theme it starts with (`initial_active`) is not one
    /// of them.
    pub fn from_document(document: ThemeDocument, system_preference: Option<&str>) -> (res: Result<
        ThemeContext,
        ThemeError,
    >)
        ensures
            document@.themes.dom().len() == 0 ==> res is Err && res->Err_0@ == (
                ThemeErrorKind::NoThemesDefined,
                "THEME_001: Cannot create ThemeContext with no themes"@,
            ),
            document@.themes.dom().len() > 0 && !document@.themes.dom().contains(
                initial_active(document@, opt_str_view(system_preference)),
            ) ==> res is Err && res->Err_0@ == (
                ThemeErrorKind::ThemeNotFound,
                "THEME_006: Active theme '"@ + initial_active(document@, opt_str_view(system_preference))
                    + "' not found in document"@,
            ),
            document@.themes.dom().len() > 0 && document@.themes.dom().contains(
                initial_active(document@, opt_str_view(system_preference)),
            ) ==> res is Ok && res->Ok_0@ == (SpecThemeContext {
                active: initial_active(document@, opt_str_view(system_preference)),
                themes: document@.themes,
                system_preference: opt_str_view(system_preference),
                follow_system: document@.follow_system,
                user_preference: None,
            }),
            res is Ok ==> active_is_loaded(res->Ok_0@),
    {
        if document.themes.is_empty() {
            return Err(ThemeError {
                kind: ThemeErrorKind::NoThemesDefined,
                message: to_owned_string("THEME_001: Cannot create ThemeContext with no themes"),
            });
        }
        let active_theme = match document.themes.get("user_preference") {
            Some(t) => {
                proof {
                    reveal_strlit("user_preference");
                }
                t.name.clone()
            },
            None => to_owned_string(document.effective_default(system_preference)),
        };
        if !document.themes.contains_key(active_theme.as_str()) {
            let mut message = to_owned_string("THEME_006: Active theme '");
            push_str(&mut message, active_theme.as_str());
            push_str(&mut message, "' not found in document");
            return Err(ThemeError { kind: ThemeErrorKind::ThemeNotFound, message });
        }
        let system_preference = match system_preference {
            Some(s) => Some(to_owned_string(s)),
            None => None,
        };
        Ok(ThemeContext {
            active_theme,
            themes: document.themes,
            system_preference,
            follow_system: document.follow_system,
            user_preference: None,
        })
    }

    /// The active theme.
    pub fn active(&self) -> (res: &Theme)
        requires
            active_is_loaded(self@),
        ensures
            res@ == self@.themes[self@.active],
    {
        self.themes.get(self.active_theme.as_str()).unwrap()
    }

    /// The name of the active theme.
    pub fn active_name(&self) -> (res: &str)
        ensures
            res@ == self@.active,
    {
        self.active_theme.as_str()
    }

    /// Switches to the theme `name` (see `after_set_theme`).
    pub fn set_theme(&mut self, name: &str) -> (res: Result<(), ThemeError>)
        ensures
            final(self)@ == after_set_theme(old(self)@, name@).1,
            match res {
                Ok(_) => after_set_theme(old(self)@, name@).0 is Ok,
                Err(e) => after_set_theme(old(self)@, name@).0 == Err::<(), (ThemeErrorKind, Seq<char>)>(e@),
            },
    {
        if !self.themes.contains_key(name) {
            let mut message = to_owned_string("THEME_006: Theme '");
            push_str(&mut message, name);
            push_str(&mut message, "' not found");
            return Err(ThemeError { kind: ThemeErrorKind::ThemeNotFound, message });
        }
        self.active_theme = to_owned_string(name);
        self.user_preference = Some(to_owned_string(name));
        Ok(())
    }

    /// Records a new system preference (see `after_system_preference`).
    pub fn update_system_preference(&mut self, preference: &str)
        ensures
            final(self)@ == after_system_preference(old(self)@, preference@),
    {
        self.system_preference = Some(to_owned_string(preference));
        if self.follow_system && self.user_preference.is_none() && self.themes.contains_key(preference) {
            self.active_theme = to_owned_string(preference);
        }
    }

    /// Turns following the system on or off (see `after_set_follow_system`).
    pub fn set_follow_system(&mut self, follow: bool)
        ensures
            final(self)@ == after_set_follow_system(old(self)@, follow),
    {
        self.follow_system = follow;
        if follow {
            let pref = match &self.system_preference {
                Some(p) => {
                    if self.themes.contains_key(p.as_str()) {
                        Some(p.clone())
                    } else {
                        None
                    }
                },
                None => None,
            };
            if let Some(p) = pref {
                self.active_theme = p;
            }
        }
    }

    /// Whether the system's preference is followed.
    pub fn follow_system(&self) -> (res: bool)
        ensures
            res == self@.follow_system,
    {
        self.follow_system
    }

    /// Replaces the themes by those of a new document (see `after_reload`).
    pub fn reload(&mut self, document: ThemeDocument)
        ensures
            final(self)@ == after_reload(old(self)@, document@),
    {
        let keep = document.themes.contains_key(self.active_theme.as_str());
        if !keep {
            let fallback = {
                let sys = match &self.system_preference {
                    Some(s) => Some(s.as_str()),
                    None => None,
                };
                to_owned_string(document.effective_default(sys))
            };
            self.active_theme = fallback;
        }
        self.themes = document.themes;
    }

    /// The names of the loaded themes.
    pub fn available_themes(&self) -> (res: Vec<&str>)
        ensures
            res@.len() == self@.themes.dom().len(),
            forall|i: int| 0 <= i < res@.len() ==> self@.themes.dom().contains(#[trigger] res@[i]@),
            forall|k: Seq<char>| #[trigger] self@.themes.dom().contains(k) ==> exists|i: int| 0 <= i < res@.len() && (#[trigger] res@[i])@ == k,
            forall|i: int, j: int| 0 <= i < j < res@.len() ==> (#[trigger] res@[i])@ != (#[trigger] res@[j])@,
    {
        let n = self.themes.len();
        let entries = self.themes.entries();
        let mut out: Vec<&str> = Vec::new();
        let mut i: usize = 0;
        while i < entries.len()
            invariant
                i <= entries@.len(),
                n == entries@.len(),
                out@.len() == i,
                forall|j: int|
                    0 <= j < entries@.len() ==> self.themes@.dom().contains(#[trigger] entries@[j].0@),
                forall|j: int| 0 <= j < i ==> (#[trigger] out@[j])@ == entries@[j].0@,
            decreases entries.len() - i,
        {
            out.push(entries[i].0.as_str());
            i = i + 1;
        }
        proof {
            assert forall|k: Seq<char>| #[trigger] self@.themes.dom().contains(k) implies exists|i: int| 0 <= i < out@.len() && (#[trigger] out@[i])@ == k by {
                let j = choose|j: int| 0 <= j < entries@.len() && (#[trigger] entries@[j]).0@ == k;
                assert(out@[j]@ == k);
            }
            assert forall|i: int| 0 <= i < out@.len() implies self@.themes.dom().contains(#[trigger] out@[i]@) by {
                assert(self.themes@.dom().contains(entries@[i].0@));
            }
            assert forall|i: int, j: int| 0 <= i < j < out@.len() implies (#[trigger] out@[i])@ != (#[trigger] out@[j])@ by {
                assert(self.themes.keys_seq()[i] == entries@[i].0@);
                assert(self.themes.keys_seq()[j] == entries@[j].0@);
            }
        }
        out
    }

    /// Whether a theme of that name is loaded.
    pub fn has_theme(&self, name: &str) -> (res: bool)
        ensures
            res == self@.themes.dom().contains(name@),
    {
        self.themes.contains_key(name)
    }
}

/// Once the user has chosen a theme, no change of the system's preference
/// changes the active theme.
pub proof fn lemma_user_choice_outlasts_system(c: SpecThemeContext, name: Seq<char>, pref: Seq<char>)
    requires
        c.themes.dom().contains(name),
    ensures
        after_set_theme(c, name).0 is Ok,
        after_system_preference(after_set_theme(c, name).1, pref).active == name,
{
}

/// While the system is not followed, a change of its preference leaves the
/// active theme as it is.
pub proof fn lemma_unfollowed_system_is_ignored(c: SpecThemeContext, pref: Seq<char>)
    requires
        !c.follow_system,
    ensures
        after_system_preference(c, pref).active == c.active,
{
}

/// Switching themes, new system preferences and turning system-following on
/// or off never leave the active theme pointing at a theme that is not loaded.
pub proof fn lemma_active_stays_loaded(
    c: SpecThemeContext,
    name: Seq<char>,
    pref: Seq<char>,
    follow: bool,
)
    requires
        active_is_loaded(c),
    ensures
        active_is_loaded(after_set_theme(c, name).1),
        active_is_loaded(after_system_preference(c, pref)),
        active_is_loaded(after_set_follow_system(c, follow)),
{
}

/// Reloading keeps the active theme loaded when the new document has the
/// current theme or its own effective default.
pub proof fn lemma_reload_keeps_loaded(c: SpecThemeContext, d: SpecThemeDocument)
    requires
        d.themes.dom().contains(c.active) || d.themes.dom().contains(
            effective_default_of(d, c.system_preference),
        ),
    ensures
        active_is_loaded(after_reload(c, d)),
{
}

/// Choosing the same theme a second time changes nothing more.
pub proof fn lemma_set_theme_idempotent(c: SpecThemeContext, name: Seq<char>)
    ensures
        after_set_theme(after_set_theme(c, name).1, name) == after_set_theme(c, name),
{
}

} // verus!
