//! The resolved configuration the scheduler runs with, and the
//! per-directory override a group may carry.
//!
//! Loading and merging configuration files is the caller's concern; the
//! library receives a fully resolved [`Config`] value.  What is computed
//! here — directory defaulting and the strategy-override rule — is
//! verified.

use vstd::prelude::*;
use vstd::string::StringExecFns;

verus! {

/// How a bucket that resolved to several candidates picks among them.
#[derive(Clone, Copy, Debug, PartialEq, Eq, Structural)]
pub enum GroupSelectionStrategy {
    /// Divide the hour evenly among the candidates and rotate through them.
    Spread,
    /// Pick one candidate uniformly at random.
    Random,
}

/// General settings of a run.
#[derive(Clone, Debug)]
pub struct GeneralConfig {
    pub backend: String,
    pub enable_special: bool,
    pub group_selection_strategy: GroupSelectionStrategy,
    pub execute_on_change: Option<String>,
}

/// The directories a run reads from.
#[derive(Clone, Debug)]
pub struct DirectoryConfig {
    pub wallpaper: String,
    pub special: String,
    pub collections: String,
}

/// A fully resolved configuration.
#[derive(Clone, Debug)]
pub struct Config {
    pub general: GeneralConfig,
    pub directories: DirectoryConfig,
    /// The hour-to-name table of the override collection.
    pub special_entries: Vec<(u8, String)>,
}

/// The override a group directory may carry.
#[derive(Clone, Debug)]
pub struct GroupConfig {
    pub general: Option<GeneralGroupConfig>,
}

/// The general section of a group's override.
#[derive(Clone, Debug)]
pub struct GeneralGroupConfig {
    pub selection_strategy: Option<GroupSelectionStrategy>,
}

impl DirectoryConfig {
    /// Fills the optional directories from the mandatory one: the override
    /// collection defaults to a `special` subdirectory of the wallpaper
    /// directory, and the collections directory to the wallpaper directory
    /// itself.
    pub fn apply_defaults(&mut self)
        ensures
            final(self).wallpaper == old(self).wallpaper,
            old(self).special@.len() == 0 ==> final(self).special@ == old(self).wallpaper@
                + "/special"@,
            old(self).special@.len() > 0 ==> final(self).special == old(self).special,
            old(self).collections@.len() == 0 ==> final(self).collections@ == old(
                self,
            ).wallpaper@,
            old(self).collections@.len() > 0 ==> final(self).collections == old(
                self,
            ).collections,
    {
        if self.special.as_str().is_empty() {
            let mut joined = self.wallpaper.clone();
            joined.append("/special");
            self.special = joined;
        }
        if self.collections.as_str().is_empty() {
            self.collections = self.wallpaper.clone();
        }
    }
}

/// The strategy a group's override leaves in force: its own, if its
/// configuration carries one, else the configured base strategy.  An absent
/// or unparsable override means "no override".
pub open spec fn spec_effective_strategy(
    base: GroupSelectionStrategy,
    local: Option<GroupConfig>,
) -> GroupSelectionStrategy {
    match local {
        Some(c) => match c.general {
            Some(g) => match g.selection_strategy {
                Some(s) => s,
                None => base,
            },
            None => base,
        },
        None => base,
    }
}

/// Applies a group's local override to the configured strategy.
pub fn effective_strategy(base: GroupSelectionStrategy, local: &Option<GroupConfig>) -> (r:
    GroupSelectionStrategy)
    ensures
        r == spec_effective_strategy(base, *local),
{
    match local {
        Some(c) => match &c.general {
            Some(g) => match g.selection_strategy {
                Some(s) => s,
                None => base,
            },
            None => base,
        },
        None => base,
    }
}

} // verus!
