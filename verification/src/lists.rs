//! The classifications the curated package lists attach to a package.
use vstd::prelude::*;

verus! {

/// Which curated list a package comes from.
#[derive(Clone, Copy, Debug, PartialEq, Eq, Structural, Hash)]
pub enum UadList {
    All,
    Aosp,
    Carrier,
    Google,
    Misc,
    Oem,
    Pending,
    Unlisted,
}

/// Installation state of a package on the device.
#[derive(Clone, Copy, Debug, PartialEq, Eq, Structural, Hash)]
pub enum PackageState {
    All,
    Enabled,
    Uninstalled,
    Disabled,
}

/// How safe it is to remove a package.
#[derive(Clone, Copy, Debug, PartialEq, Eq, Structural, Hash)]
pub enum Removal {
    All,
    Recommended,
    Advanced,
    Expert,
    Unsafe,
    Unlisted,
}

impl Default for UadList {
    /// All lists.
    fn default() -> (r: Self)
        ensures
            r == UadList::All,
    {
        UadList::All
    }
}

impl Default for PackageState {
    /// Enabled packages.
    fn default() -> (r: Self)
        ensures
            r == PackageState::Enabled,
    {
        PackageState::Enabled
    }
}

impl Default for Removal {
    /// Recommended removals.
    fn default() -> (r: Self)
        ensures
            r == Removal::Recommended,
    {
        Removal::Recommended
    }
}

} // verus!
