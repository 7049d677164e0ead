//! One row of the apps list: which label and description line it shows, and
//! what the user may do with the package from it.
use vstd::prelude::*;
use crate::label::pkg_label;
pub use crate::label::prettify_pkg_id;
use crate::lists::{PackageState, Removal, UadList};
use crate::text::chars_of;

verus! {

/// The description placeholder of packages that the lists know nothing about.
pub const NO_DESCRIPTION: &'static str = "[No description]";

/// A package as the device-side code sees it.
#[derive(Clone, Debug)]
pub struct CorePackage {
    pub name: String,
    pub description: String,
    pub removal: Removal,
    pub state: PackageState,
    pub list: UadList,
}

/// One row of the apps list.
#[derive(Clone, Debug)]
pub struct PackageRow {
    pub name: String,
    /// Human-readable app name (from AI enrichment or curated data). Empty when
    /// unknown: the row then falls back to [`prettify_pkg_id`] of `name`.
    pub friendly_name: String,
    pub description: String,
    pub removal: Removal,
    pub state: PackageState,
    pub list: UadList,
    pub selected: bool,
    pub current: bool,
    /// `false` for third-party (user-installed) apps; `true` for system packages.
    pub is_system: bool,
}

/// What the user did on a row.
#[derive(Clone, Copy, Debug, PartialEq, Eq, Structural)]
pub enum Message {
    PackagePressed,
    ToggleSelection(bool),
    /// Flip this package between enabled and disabled, in place.
    ToggleState,
}

/// `k` is where the first line of `s` ends: at the first `\n`, or at the end.
pub open spec fn is_line_end(s: Seq<char>, k: int) -> bool {
    &&& 0 <= k <= s.len()
    &&& (k == s.len() || s[k] == '\n')
    &&& forall|j: int| 0 <= j < k ==> s[j] != '\n'
}

/// The first line of `s` as `str::lines` yields it: up to the first `\n`,
/// without the `\r` of a `\r\n` ending.
pub open spec fn first_line(s: Seq<char>) -> Seq<char> {
    let k = choose|k: int| is_line_end(s, k);
    let line = s.take(k);
    if k < s.len() && line.len() > 0 && line.last() == '\r' {
        line.drop_last()
    } else {
        line
    }
}

/// Whether `s` begins with `prefix`.
pub open spec fn starts_with(s: Seq<char>, prefix: Seq<char>) -> bool {
    prefix.len() <= s.len() && s.take(prefix.len() as int) == prefix
}

/// A description worth showing: not empty and not the unknown-package placeholder.
pub open spec fn shows_description(description: Seq<char>) -> bool {
    description.len() > 0 && !starts_with(description, NO_DESCRIPTION@)
}

/// Whether the user may act on a package at all: unsafe enabled packages
/// stay untouchable unless expert mode is on.
pub open spec fn unlocked(removal: Removal, state: PackageState, expert_mode: bool) -> bool {
    removal != Removal::Unsafe || state != PackageState::Enabled || expert_mode
}

/// Whether a package can be flipped between enabled and disabled in place:
/// disabling needs Android 6 (SDK 23) or later, re-enabling always works.
pub open spec fn toggleable(
    removal: Removal,
    state: PackageState,
    expert_mode: bool,
    android_sdk: u8,
) -> bool {
    unlocked(removal, state, expert_mode) && match state {
        PackageState::Enabled => android_sdk >= 23,
        PackageState::Disabled => true,
        _ => false,
    }
}

/// The text of the state cell.
pub open spec fn state_text(state: PackageState) -> Seq<char> {
    match state {
        PackageState::Enabled => "Enabled"@,
        PackageState::Disabled => "Disabled"@,
        PackageState::Uninstalled => "Uninstalled"@,
        PackageState::All => "Error"@,
    }
}

/// Whether the characters `s` begin with the string `prefix`.
fn chars_start_with(s: &Vec<char>, prefix: &str) -> (r: bool)
    ensures
        r == starts_with(s@, prefix@),
{
    let p = chars_of(prefix);
    if p.len() > s.len() {
        return false;
    }
    let mut i: usize = 0;
    while i < p.len()
        invariant
            p.len() <= s.len(),
            p@ == prefix@,
            i <= p.len(),
            forall|j: int| 0 <= j < i ==> s@[j] == p@[j],
        decreases p.len() - i,
    {
        if s[i] != p[i] {
            assert(s@.take(p.len() as int)[i as int] != p@[i as int]);
            return false;
        }
        i += 1;
    }
    assert(s@.take(p.len() as int) =~= p@);
    true
}

impl PackageRow {
    /// A row for a (system) package with no friendly name yet.
    pub fn new(
        name: &str,
        description: &str,
        removal: Removal,
        state: PackageState,
        list: UadList,
        selected: bool,
        current: bool,
    ) -> (row: Self)
        ensures
            row.name@ == name@,
            row.friendly_name@ == Seq::<char>::empty(),
            row.description@ == description@,
            row.removal == removal,
            row.state == state,
            row.list == list,
            row.selected == selected,
            row.current == current,
            row.is_system,
    {
        PackageRow {
            name: String::from_str(name),
            friendly_name: String::new(),
            description: String::from_str(description),
            removal,
            state,
            list,
            selected,
            current,
            is_system: true,
        }
    }

    /// A row for a device package: not selected, not current, no friendly name.
    pub fn from_core(core: &CorePackage) -> (row: Self)
        ensures
            row.name@ == core.name@,
            row.friendly_name@ == Seq::<char>::empty(),
            row.description@ == core.description@,
            row.removal == core.removal,
            row.state == core.state,
            row.list == core.list,
            !row.selected,
            !row.current,
            row.is_system,
    {
        PackageRow {
            name: core.name.clone(),
            friendly_name: String::new(),
            description: core.description.clone(),
            removal: core.removal,
            state: core.state,
            list: core.list,
            selected: false,
            current: false,
            is_system: true,
        }
    }

    /// The package as the device-side code sees it.
    pub fn to_core(&self) -> (core: CorePackage)
        ensures
            core.name@ == self.name@,
            core.description@ == self.description@,
            core.removal == self.removal,
            core.state == self.state,
            core.list == self.list,
    {
        CorePackage {
            name: self.name.clone(),
            description: self.description.clone(),
            removal: self.removal,
            state: self.state,
            list: self.list,
        }
    }

    /// The name the row shows prominently: the friendly name when known,
    /// else a label derived from the package id.
    pub fn display_name(&self) -> (r: String)
        ensures
            r@ == if self.friendly_name@.len() == 0 {
                pkg_label(self.name@)
            } else {
                self.friendly_name@
            },
    {
        if self.friendly_name.as_str().is_empty() {
            prettify_pkg_id(self.name.as_str())
        } else {
            self.friendly_name.clone()
        }
    }

    /// The description line shown under the name: the first line of a real
    /// description, nothing for an empty one or the unknown-package placeholder.
    pub fn description_line(&self) -> (r: Option<String>)
        ensures
            match r {
                Some(line) => shows_description(self.description@) && line@ == first_line(
                    self.description@,
                ),
                None => !shows_description(self.description@),
            },
    {
        let d = chars_of(self.description.as_str());
        if d.len() == 0 || chars_start_with(&d, NO_DESCRIPTION) {
            return None;
        }
        let mut line = String::new();
        let mut i: usize = 0;
        while i < d.len() && d[i] != '\n'
            invariant
                i <= d.len(),
                d@ == self.description@,
                line@ == d@.take(i as int),
                forall|j: int| 0 <= j < i ==> d@[j] != '\n',
            decreases d.len() - i,
        {
            crate::text::push_char(&mut line, d[i]);
            assert(d@.take(i + 1) =~= d@.take(i as int).push(d@[i as int]));
            i += 1;
        }
        assert(is_line_end(d@, i as int));
        let ghost k = choose|k: int| is_line_end(d@, k);
        assert(k == i as int) by {
            if k < i {
                assert(d@[k] != '\n');
            } else if k > i {
                assert(d@[i as int] != '\n');
            }
        }
        if i < d.len() && i > 0 && d[i - 1] == '\r' {
            let mut trimmed = String::new();
            let mut j: usize = 0;
            while j < i - 1
                invariant
                    j <= i - 1,
                    i <= d.len(),
                    trimmed@ == d@.take(j as int),
                decreases i - 1 - j,
            {
                crate::text::push_char(&mut trimmed, d[j]);
                assert(d@.take(j + 1) =~= d@.take(j as int).push(d@[j as int]));
                j += 1;
            }
            assert(d@.take(i as int).drop_last() =~= d@.take(i - 1));
            return Some(trimmed);
        }
        Some(line)
    }

    /// Whether the user may act on this package (see [`unlocked`]).
    pub fn is_unlocked(&self, expert_mode: bool) -> (r: bool)
        ensures
            r == unlocked(self.removal, self.state, expert_mode),
    {
        self.removal != Removal::Unsafe || self.state != PackageState::Enabled || expert_mode
    }

    /// Whether the state cell works as an enabled/disabled toggle on a device
    /// running the given SDK level (see [`toggleable`]).
    pub fn is_toggleable(&self, expert_mode: bool, android_sdk: u8) -> (r: bool)
        ensures
            r == toggleable(self.removal, self.state, expert_mode, android_sdk),
    {
        self.is_unlocked(expert_mode) && match self.state {
            PackageState::Enabled => android_sdk >= 23,
            PackageState::Disabled => true,
            PackageState::Uninstalled | PackageState::All => false,
        }
    }

    /// The text of the state cell.
    pub fn state_label(&self) -> (r: &'static str)
        ensures
            r@ == state_text(self.state),
    {
        match self.state {
            PackageState::Enabled => "Enabled",
            PackageState::Disabled => "Disabled",
            PackageState::Uninstalled => "Uninstalled",
            PackageState::All => "Error",
        }
    }
}

/// A package that can be toggled in place is always one the user may act on,
/// and re-enabling a disabled package the user may act on works on every
/// Android version.
pub proof fn law_toggle_needs_unlock(
    removal: Removal,
    state: PackageState,
    expert_mode: bool,
    android_sdk: u8,
)
    ensures
        toggleable(removal, state, expert_mode, android_sdk) ==> unlocked(
            removal,
            state,
            expert_mode,
        ),
        state == PackageState::Disabled && unlocked(removal, state, expert_mode) ==> toggleable(
            removal,
            state,
            expert_mode,
            android_sdk,
        ),
        removal == Removal::Unsafe && state == PackageState::Enabled && !expert_mode ==> !toggleable(
            removal,
            state,
            expert_mode,
            android_sdk,
        ),
{
}

/// Only an enabled package of the unsafe removal class can be locked, and
/// only with expert mode off: every other package is one the user may act on.
pub proof fn law_only_unsafe_enabled_is_locked(
    removal: Removal,
    state: PackageState,
    expert_mode: bool,
)
    ensures
        removal != Removal::Unsafe ==> unlocked(removal, state, expert_mode),
        state != PackageState::Enabled ==> unlocked(removal, state, expert_mode),
        expert_mode ==> unlocked(removal, state, expert_mode),
        removal == Removal::Unsafe && state == PackageState::Enabled && !expert_mode ==> !unlocked(
            removal,
            state,
            expert_mode,
        ),
{
}

/// Disabling in place needs SDK 23 whatever the removal class and expert
/// mode; uninstalled packages (and the catch-all state) never toggle; an
/// enabled package the user may act on toggles from SDK 23 on.
pub proof fn law_toggle_by_state_and_sdk(
    removal: Removal,
    state: PackageState,
    expert_mode: bool,
    android_sdk: u8,
)
    ensures
        state == PackageState::Enabled && android_sdk < 23 ==> !toggleable(
            removal,
            state,
            expert_mode,
            android_sdk,
        ),
        state == PackageState::Uninstalled ==> !toggleable(removal, state, expert_mode, android_sdk),
        state == PackageState::All ==> !toggleable(removal, state, expert_mode, android_sdk),
        state == PackageState::Enabled && android_sdk >= 23 && unlocked(removal, state, expert_mode)
            ==> toggleable(removal, state, expert_mode, android_sdk),
{
}

/// The first line holds no line feed and is where the description starts;
/// a description without a line feed is its own first line.
pub proof fn law_first_line_shape(s: Seq<char>)
    ensures
        forall|k: int| 0 <= k < first_line(s).len() ==> #[trigger] first_line(s)[k] != '\n',
        first_line(s).len() <= s.len(),
        first_line(s) == s.take(first_line(s).len() as int),
        !s.contains('\n') ==> first_line(s) == s,
{
    let e = if exists|k: int| 0 <= k < s.len() && s[k] == '\n' {
        let k0 = choose|k: int| 0 <= k < s.len() && s[k] == '\n';
        lemma_first_newline(s, k0)
    } else {
        assert(is_line_end(s, s.len() as int));
        s.len() as int
    };
    assert(is_line_end(s, e));
    let k = choose|k: int| is_line_end(s, k);
    assert(k == e) by {
        if k < e {
            assert(s[k] != '\n');
        } else if k > e {
            assert(s[e] != '\n');
        }
    }
    let line = s.take(k);
    if k < s.len() && line.len() > 0 && line.last() == '\r' {
        assert(line.drop_last() =~= s.take(k - 1));
    }
    if !s.contains('\n') {
        if k < s.len() {
            assert(s[k] == '\n');
        }
        assert(s.take(s.len() as int) =~= s);
    }
}

proof fn lemma_first_newline(s: Seq<char>, k0: int) -> (e: int)
    requires
        0 <= k0 < s.len(),
        s[k0] == '\n',
    ensures
        is_line_end(s, e),
        e < s.len(),
    decreases k0,
{
    if forall|j: int| 0 <= j < k0 ==> s[j] != '\n' {
        k0
    } else {
        let j = choose|j: int| 0 <= j < k0 && s[j] == '\n';
        lemma_first_newline(s, j)
    }
}

/// A description is shown unless it is empty or starts with the placeholder;
/// in particular every non-empty description not starting with `[` is shown.
pub proof fn law_description_shown(d: Seq<char>)
    ensures
        d.len() == 0 ==> !shows_description(d),
        starts_with(d, NO_DESCRIPTION@) ==> !shows_description(d),
        d.len() > 0 && d[0] != '[' ==> shows_description(d),
{
    reveal_strlit("[No description]");
    if d.len() > 0 && d[0] != '[' && starts_with(d, NO_DESCRIPTION@) {
        assert(d.take(16)[0] == d[0]);
    }
}

} // verus!
