//! The managed-game model: the per-game configuration with its ordered mod
//! registry, the global configuration naming the managed games, and the
//! registry operations — lookup, enable and disable, adding and removing
//! mods, and the load-order editor.

use vstd::prelude::*;

use crate::app::MoveSubcommand;
use crate::error::Error;
use crate::registry::{
    reg_clear, reg_entry_at, reg_len, reg_mark_uninstalled_at, reg_new, reg_push,
    reg_set_enabled_at, reg_shift_insert, reg_shift_remove_at, registry_entries,
};
use crate::utils::{clone_strings, contains_str, is_substring, lower_of, to_lower};
use indexmap::IndexMap;
use std::collections::hash_map::RandomState;

verus! {

// ---------------------------------------------------------------------------
// ManagedMod
// ---------------------------------------------------------------------------

/// One managed mod archive: its enable state, the path of its archive in the
/// archive store, the path of its extraction cache once extraction has
/// completed, and its recorded install-source parts.
#[derive(Debug, Clone)]
pub struct ManagedMod {
    pub enabled: bool,
    pub extracted: Option<String>,
    pub archive: String,
    pub parts: Vec<String>,
}

impl ManagedMod {
    /// The install-source roots this mod deploys from: the recorded parts, or
    /// the whole extracted tree when no parts were ever recorded.
    pub open spec fn spec_part_paths(self) -> Seq<String> {
        if self.parts@.len() > 0 {
            self.parts@
        } else {
            match self.extracted {
                Some(e) => seq![e],
                None => Seq::empty(),
            }
        }
    }

    /// The extraction step must run: the mod is enabled and no completed
    /// extraction is recorded.
    pub open spec fn spec_needs_extraction(self) -> bool {
        self.enabled && self.extracted is None
    }

    /// A fresh, disabled, unextracted mod for a newly stored archive.
    pub fn new(archive: String) -> (r: Self)
        ensures
            !r.enabled,
            r.extracted is None,
            r.archive == archive,
            r.parts@.len() == 0,
    {
        ManagedMod { enabled: false, extracted: None, archive, parts: Vec::new() }
    }

    /// The install-source roots, exactly `spec_part_paths`.
    pub fn part_paths(&self) -> (r: Vec<String>)
        ensures
            r@ == self.spec_part_paths(),
    {
        if self.parts.len() > 0 {
            clone_strings(&self.parts)
        } else {
            match &self.extracted {
                Some(e) => {
                    let mut v: Vec<String> = Vec::new();
                    v.push(e.clone());
                    proof {
                        assert(v@ =~= self.spec_part_paths());
                    }
                    v
                },
                None => Vec::new(),
            }
        }
    }

    /// Must the extraction step run for this mod?
    pub fn needs_extraction(&self) -> (r: bool)
        ensures
            r == self.spec_needs_extraction(),
    {
        self.enabled && self.extracted.is_none()
    }

    /// Record a completed extraction.  Everything else is untouched.
    pub fn record_extracted(&mut self, dir: String)
        ensures
            *final(self) == (ManagedMod { extracted: Some(dir), ..*old(self) }),
    {
        self.extracted = Some(dir);
    }

    /// The part resolver.  Recorded parts are sticky: once non-empty they are
    /// returned unchanged and never recomputed.  Otherwise, with no installer
    /// descriptor in the tree the whole extracted tree is the one root, and
    /// with one the externally chosen subset is recorded and returned.
    pub fn resolve_parts(&mut self, descriptor_found: bool, chosen: &Vec<String>) -> (r: Vec<
        String,
    >)
        ensures
            old(self).parts@.len() > 0 ==> *final(self) == *old(self) && r@ == old(self).parts@,
            old(self).parts@.len() == 0 && !descriptor_found ==> *final(self) == *old(self) && r@
                == old(self).spec_part_paths(),
            old(self).parts@.len() == 0 && descriptor_found ==> final(self).enabled == old(
                self,
            ).enabled && final(self).extracted == old(self).extracted && final(self).archive == old(
                self,
            ).archive && final(self).parts@ == chosen@ && r@ == chosen@,
    {
        if self.parts.len() > 0 {
            clone_strings(&self.parts)
        } else if !descriptor_found {
            self.part_paths()
        } else {
            let recorded = clone_strings(chosen);
            self.parts = clone_strings(chosen);
            recorded
        }
    }
}

// ---------------------------------------------------------------------------
// DeploymentMethod
// ---------------------------------------------------------------------------

/// How a file is materialized under the install root.
#[derive(Debug, Clone, Copy, PartialEq, Eq, Structural)]
pub enum DeploymentMethod {
    Hardlink,
    Symlink,
}

impl Default for DeploymentMethod {
    /// Hard links are the default method.
    fn default() -> (r: Self)
        ensures
            r == DeploymentMethod::Hardlink,
    {
        DeploymentMethod::Hardlink
    }
}

// ---------------------------------------------------------------------------
// Config
// ---------------------------------------------------------------------------

/// A game's durable configuration: where the game lives, how to deploy, and
/// the ordered mod registry, whose sequence order is the load order.
pub struct Config {
    pub game_folder: String,
    pub data_folder: Option<String>,
    pub plugins_file: Option<String>,
    pub exe: Option<String>,
    pub deployment: DeploymentMethod,
    pub mods: IndexMap<String, ManagedMod, RandomState>,
}

impl Config {
    /// The registry's entries in load order.
    pub open spec fn mods_seq(self) -> Seq<(String, ManagedMod)> {
        registry_entries(self.mods)
    }

    /// Mod names are distinct, as the registry's map structure keeps them.
    pub open spec fn wf(self) -> bool {
        distinct_keys(self.mods_seq())
    }
}

/// No two entries share a name.
pub open spec fn distinct_keys(mods: Seq<(String, ManagedMod)>) -> bool {
    forall|i: int, j: int|
        0 <= i < j < mods.len() ==> (#[trigger] mods[i].0@) != (#[trigger] mods[j].0@)
}

/// No entry carries this name.
pub open spec fn key_absent(mods: Seq<(String, ManagedMod)>, key: Seq<char>) -> bool {
    forall|j: int| 0 <= j < mods.len() ==> (#[trigger] mods[j].0@) != key
}

impl Default for Config {
    /// An empty configuration with no game folder and no mods.
    fn default() -> (r: Self)
        ensures
            r.game_folder@ == Seq::<char>::empty(),
            r.data_folder is None,
            r.plugins_file is None,
            r.exe is None,
            r.deployment == DeploymentMethod::Hardlink,
            r.mods_seq() == Seq::<(String, ManagedMod)>::empty(),
            r.wf(),
    {
        Config {
            game_folder: String::new(),
            data_folder: None,
            plugins_file: None,
            exe: None,
            deployment: DeploymentMethod::Hardlink,
            mods: reg_new(),
        }
    }
}

// ---------------------------------------------------------------------------
// Mod lookup
// ---------------------------------------------------------------------------

/// A registry key matches a selector when the lowered selector occurs in the
/// lowered key.
pub open spec fn name_matches(key: Seq<char>, query: Seq<char>) -> bool {
    is_substring(lower_of(key), lower_of(query))
}

/// The selector resolves to position `i`: the key there matches and no
/// earlier key does.
pub open spec fn resolves_to(mods: Seq<(String, ManagedMod)>, query: Seq<char>, i: int) -> bool {
    &&& 0 <= i < mods.len()
    &&& name_matches(mods[i].0@, query)
    &&& forall|j: int| 0 <= j < i ==> !name_matches(#[trigger] mods[j].0@, query)
}

/// Case-insensitive substring lookup of a mod by selector, returning the
/// position of the first matching entry, or the unknown-mod error carrying
/// the lowered selector.
pub fn get_mod(mods: &IndexMap<String, ManagedMod, RandomState>, name: &str) -> (r: Result<
    usize,
    Error,
>)
    ensures
        match r {
            Ok(i) => resolves_to(registry_entries(*mods), name@, i as int),
            Err(e) => {
                &&& forall|j: int|
                    0 <= j < registry_entries(*mods).len() ==> !name_matches(
                        #[trigger] registry_entries(*mods)[j].0@,
                        name@,
                    )
                &&& e matches Error::UnknownMod(s) && s@ == lower_of(name@)
            },
        },
{
    let lowered = to_lower(name);
    let len = reg_len(mods);
    let mut i: usize = 0;
    while i < len
        invariant
            len == registry_entries(*mods).len(),
            i <= len,
            lowered@ == lower_of(name@),
            forall|j: int|
                0 <= j < i ==> !name_matches(#[trigger] registry_entries(*mods)[j].0@, name@),
        decreases len - i,
    {
        let entry = reg_entry_at(mods, i);
        let lowered_key = to_lower(entry.0.as_str());
        if contains_str(lowered_key.as_str(), lowered.as_str()) {
            return Ok(i);
        }
        i += 1;
    }
    Err(Error::UnknownMod(lowered))
}

proof fn lemma_remove_distinct(mods: Seq<(String, ManagedMod)>, i: int)
    requires
        distinct_keys(mods),
        0 <= i < mods.len(),
    ensures
        distinct_keys(mods.remove(i)),
        key_absent(mods.remove(i), mods[i].0@),
{
    mods.remove_ensures(i);
    assert forall|a: int, b: int|
        0 <= a < b < mods.remove(i).len() implies (#[trigger] mods.remove(i)[a].0@) != (
    #[trigger] mods.remove(i)[b].0@) by {
        let oa = if a < i { a } else { a + 1 };
        let ob = if b < i { b } else { b + 1 };
        assert(mods.remove(i)[a] == mods[oa]);
        assert(mods.remove(i)[b] == mods[ob]);
    }
    assert forall|j: int| 0 <= j < mods.remove(i).len() implies (#[trigger] mods.remove(i)[j].0@)
        != mods[i].0@ by {
        let oj = if j < i { j } else { j + 1 };
        assert(mods.remove(i)[j] == mods[oj]);
    }
}

proof fn lemma_insert_distinct(mods: Seq<(String, ManagedMod)>, t: int, p: (String, ManagedMod))
    requires
        distinct_keys(mods),
        key_absent(mods, p.0@),
        0 <= t <= mods.len(),
    ensures
        distinct_keys(mods.insert(t, p)),
{
    mods.insert_ensures(t, p);
    assert forall|a: int, b: int|
        0 <= a < b < mods.insert(t, p).len() implies (#[trigger] mods.insert(t, p)[a].0@) != (
    #[trigger] mods.insert(t, p)[b].0@) by {
        if a != t && b != t {
            let oa = if a < t { a } else { a - 1 };
            let ob = if b < t { b } else { b - 1 };
            assert(mods.insert(t, p)[a] == mods[oa]);
            assert(mods.insert(t, p)[b] == mods[ob]);
        } else if a == t {
            let ob = b - 1;
            assert(mods.insert(t, p)[b] == mods[ob]);
        } else {
            let oa = a;
            assert(mods.insert(t, p)[a] == mods[oa]);
        }
    }
}

/// The mod with its enable flag set to `enabled` and everything else as it
/// was.
pub open spec fn with_enabled(mm: ManagedMod, enabled: bool) -> ManagedMod {
    ManagedMod { enabled, ..mm }
}

/// The mod disabled and with its extraction record cleared, as an uninstall
/// leaves it.
pub open spec fn uninstalled(mm: ManagedMod) -> ManagedMod {
    ManagedMod { enabled: false, extracted: None, ..mm }
}

/// The settings outside the registry agree.
pub open spec fn same_settings(a: Config, b: Config) -> bool {
    &&& a.game_folder == b.game_folder
    &&& a.data_folder == b.data_folder
    &&& a.plugins_file == b.plugins_file
    &&& a.exe == b.exe
    &&& a.deployment == b.deployment
}

/// No entry's name matches the selector.
pub open spec fn no_match(mods: Seq<(String, ManagedMod)>, query: Seq<char>) -> bool {
    forall|j: int| 0 <= j < mods.len() ==> !name_matches(#[trigger] mods[j].0@, query)
}

impl Config {
    /// Lookup within this configuration's registry.
    pub fn get_mod(&self, name: &str) -> (r: Result<usize, Error>)
        ensures
            match r {
                Ok(i) => resolves_to(self.mods_seq(), name@, i as int),
                Err(e) => {
                    &&& forall|j: int|
                        0 <= j < self.mods_seq().len() ==> !name_matches(
                            #[trigger] self.mods_seq()[j].0@,
                            name@,
                        )
                    &&& e matches Error::UnknownMod(s) && s@ == lower_of(name@)
                },
            },
    {
        get_mod(&self.mods, name)
    }
}

// ---------------------------------------------------------------------------
// Game
// ---------------------------------------------------------------------------

/// A managed game: its name and its configuration.
pub struct Game {
    pub name: String,
    pub config: Config,
}

/// The registry with the entry at `mi` moved to position `target`.
pub open spec fn moved_seq(mods: Seq<(String, ManagedMod)>, mi: int, target: int) -> Seq<
    (String, ManagedMod),
> {
    mods.remove(mi).insert(target, mods[mi])
}

/// How many spots a `Down` or `Up` move travels: one if unspecified.
pub open spec fn move_steps(n: Option<usize>) -> int {
    match n {
        Some(k) => k as int,
        None => 1,
    }
}

/// What a successful move did to the registry: the moved entry resolved, the
/// relative target (if any) resolved elsewhere, and the entry went to the
/// destination's position.
pub open spec fn move_ok(
    olds: Seq<(String, ManagedMod)>,
    news: Seq<(String, ManagedMod)>,
    moved: Seq<char>,
    to: MoveSubcommand,
) -> bool {
    match to {
        MoveSubcommand::Above { name } => exists|mi: int, oi: int|
            #![trigger resolves_to(olds, moved, mi), resolves_to(olds, name@, oi)]
            {
                &&& resolves_to(olds, moved, mi)
                &&& resolves_to(olds, name@, oi)
                &&& oi != mi
                &&& news == moved_seq(olds, mi, if oi < mi { oi } else { oi - 1 })
            },
        MoveSubcommand::Below { name } => exists|mi: int, oi: int|
            #![trigger resolves_to(olds, moved, mi), resolves_to(olds, name@, oi)]
            {
                &&& resolves_to(olds, moved, mi)
                &&& resolves_to(olds, name@, oi)
                &&& oi != mi
                &&& news == moved_seq(olds, mi, if oi < mi { oi + 1 } else { oi })
            },
        MoveSubcommand::Top => exists|mi: int|
            #![trigger resolves_to(olds, moved, mi)]
            resolves_to(olds, moved, mi) && news == moved_seq(olds, mi, 0),
        MoveSubcommand::Bottom => exists|mi: int|
            #![trigger resolves_to(olds, moved, mi)]
            resolves_to(olds, moved, mi) && news == moved_seq(olds, mi, olds.len() - 1),
        MoveSubcommand::Down { n } => exists|mi: int|
            #![trigger resolves_to(olds, moved, mi)]
            resolves_to(olds, moved, mi) && news == moved_seq(
                olds,
                mi,
                if mi + move_steps(n) <= olds.len() - 1 {
                    mi + move_steps(n)
                } else {
                    olds.len() - 1
                },
            ),
        MoveSubcommand::Up { n } => exists|mi: int|
            #![trigger resolves_to(olds, moved, mi)]
            resolves_to(olds, moved, mi) && news == moved_seq(
                olds,
                mi,
                if move_steps(n) <= mi {
                    mi - move_steps(n)
                } else {
                    0
                },
            ),
    }
}

/// The errors of a relative move once the moved entry has resolved at `mi`:
/// the other selector matches nothing, or both resolve to the same entry.
pub open spec fn relative_move_err(
    olds: Seq<(String, ManagedMod)>,
    other: String,
    mi: int,
    e: Error,
) -> bool {
    ||| (e matches Error::UnknownMod(s) && no_match(olds, other@) && s@ == lower_of(other@))
    ||| (e matches Error::SelfRelativeMove(s) && resolves_to(olds, other@, mi) && s == olds[mi].0)
}

/// Exactly when a move fails, and with which error.  Every failure leaves the
/// registry untouched.
pub open spec fn move_err(
    olds: Seq<(String, ManagedMod)>,
    moved: Seq<char>,
    to: MoveSubcommand,
    e: Error,
) -> bool {
    ||| (e matches Error::UnknownMod(s) && no_match(olds, moved) && s@ == lower_of(moved))
    ||| (exists|mi: int|
        #![trigger resolves_to(olds, moved, mi)]
        resolves_to(olds, moved, mi) && match to {
            MoveSubcommand::Above { name } => relative_move_err(olds, name, mi, e),
            MoveSubcommand::Below { name } => relative_move_err(olds, name, mi, e),
            _ => false,
        })
}

impl Game {
    /// Names in the registry are distinct.
    pub open spec fn wf(self) -> bool {
        self.config.wf()
    }

    /// The registry's entries in load order.
    pub open spec fn mods_seq(self) -> Seq<(String, ManagedMod)> {
        self.config.mods_seq()
    }

    /// This game's configuration file under the manager's directory tree.
    pub fn config_file(&self, home: &str) -> (r: String)
        ensures
            r@ == home@ + "/.clim"@ + "/"@ + self.name@ + "/clim.toml"@,
    {
        crate::library::game_config_file(home, self.name.as_str())
    }

    /// Lookup of a mod by selector.
    pub fn get_mod(&self, name: &str) -> (r: Result<usize, Error>)
        ensures
            match r {
                Ok(i) => resolves_to(self.mods_seq(), name@, i as int),
                Err(e) => e matches Error::UnknownMod(s) && no_match(self.mods_seq(), name@) && s@
                    == lower_of(name@),
            },
    {
        get_mod(&self.config.mods, name)
    }

    /// Set the enable flag of the mod the selector resolves to.
    fn set_enabled(&mut self, name: &str, enabled: bool) -> (r: Result<usize, Error>)
        ensures
            final(self).name == old(self).name,
            same_settings(final(self).config, old(self).config),
            old(self).wf() ==> final(self).wf(),
            match r {
                Ok(i) => {
                    &&& resolves_to(old(self).mods_seq(), name@, i as int)
                    &&& final(self).mods_seq() == old(self).mods_seq().update(
                        i as int,
                        (
                            old(self).mods_seq()[i as int].0,
                            with_enabled(old(self).mods_seq()[i as int].1, enabled),
                        ),
                    )
                },
                Err(e) => {
                    &&& *final(self) == *old(self)
                    &&& no_match(old(self).mods_seq(), name@)
                    &&& e matches Error::UnknownMod(s) && s@ == lower_of(name@)
                },
            },
    {
        let i = match get_mod(&self.config.mods, name) {
            Ok(i) => i,
            Err(e) => return Err(e),
        };
        reg_set_enabled_at(&mut self.config.mods, i, enabled);
        Ok(i)
    }

    /// Enable the mod the selector resolves to.
    pub fn enable(&mut self, name: &str) -> (r: Result<usize, Error>)
        ensures
            final(self).name == old(self).name,
            same_settings(final(self).config, old(self).config),
            old(self).wf() ==> final(self).wf(),
            match r {
                Ok(i) => {
                    &&& resolves_to(old(self).mods_seq(), name@, i as int)
                    &&& final(self).mods_seq() == old(self).mods_seq().update(
                        i as int,
                        (
                            old(self).mods_seq()[i as int].0,
                            with_enabled(old(self).mods_seq()[i as int].1, true),
                        ),
                    )
                },
                Err(e) => {
                    &&& *final(self) == *old(self)
                    &&& no_match(old(self).mods_seq(), name@)
                    &&& e matches Error::UnknownMod(s) && s@ == lower_of(name@)
                },
            },
    {
        self.set_enabled(name, true)
    }

    /// Disable the mod the selector resolves to.
    pub fn disable(&mut self, name: &str) -> (r: Result<usize, Error>)
        ensures
            final(self).name == old(self).name,
            same_settings(final(self).config, old(self).config),
            old(self).wf() ==> final(self).wf(),
            match r {
                Ok(i) => {
                    &&& resolves_to(old(self).mods_seq(), name@, i as int)
                    &&& final(self).mods_seq() == old(self).mods_seq().update(
                        i as int,
                        (
                            old(self).mods_seq()[i as int].0,
                            with_enabled(old(self).mods_seq()[i as int].1, false),
                        ),
                    )
                },
                Err(e) => {
                    &&& *final(self) == *old(self)
                    &&& no_match(old(self).mods_seq(), name@)
                    &&& e matches Error::UnknownMod(s) && s@ == lower_of(name@)
                },
            },
    {
        self.set_enabled(name, false)
    }

    /// Set every mod's enable flag.
    fn set_all_enabled(&mut self, enabled: bool)
        ensures
            final(self).name == old(self).name,
            same_settings(final(self).config, old(self).config),
            final(self).mods_seq().len() == old(self).mods_seq().len(),
            forall|j: int|
                0 <= j < old(self).mods_seq().len() ==> #[trigger] final(self).mods_seq()[j] == (
                    old(self).mods_seq()[j].0,
                    with_enabled(old(self).mods_seq()[j].1, enabled),
                ),
            old(self).wf() ==> final(self).wf(),
    {
        let len = reg_len(&self.config.mods);
        let mut i: usize = 0;
        while i < len
            invariant
                len == self.config.mods_seq().len(),
                i <= len,
                self.name == old(self).name,
                same_settings(self.config, old(self).config),
                old(self).mods_seq().len() == len,
                forall|j: int|
                    0 <= j < i ==> #[trigger] self.config.mods_seq()[j] == (
                        old(self).mods_seq()[j].0,
                        with_enabled(old(self).mods_seq()[j].1, enabled),
                    ),
                forall|j: int|
                    i <= j < len ==> #[trigger] self.config.mods_seq()[j] == old(self).mods_seq()[j],
            decreases len - i,
        {
            reg_set_enabled_at(&mut self.config.mods, i, enabled);
            i += 1;
        }
        proof {
            if old(self).wf() {
                assert forall|a: int, b: int|
                    0 <= a < b < self.config.mods_seq().len() implies (
                #[trigger] self.config.mods_seq()[a].0@) != (
                #[trigger] self.config.mods_seq()[b].0@) by {
                    assert(self.config.mods_seq()[a].0 == old(self).mods_seq()[a].0);
                    assert(self.config.mods_seq()[b].0 == old(self).mods_seq()[b].0);
                }
            }
        }
    }

    /// Enable every mod.
    pub fn enable_all(&mut self)
        ensures
            final(self).name == old(self).name,
            same_settings(final(self).config, old(self).config),
            final(self).mods_seq().len() == old(self).mods_seq().len(),
            forall|j: int|
                0 <= j < old(self).mods_seq().len() ==> #[trigger] final(self).mods_seq()[j] == (
                    old(self).mods_seq()[j].0,
                    with_enabled(old(self).mods_seq()[j].1, true),
                ),
            old(self).wf() ==> final(self).wf(),
    {
        self.set_all_enabled(true)
    }

    /// Disable every mod.
    pub fn disable_all(&mut self)
        ensures
            final(self).name == old(self).name,
            same_settings(final(self).config, old(self).config),
            final(self).mods_seq().len() == old(self).mods_seq().len(),
            forall|j: int|
                0 <= j < old(self).mods_seq().len() ==> #[trigger] final(self).mods_seq()[j] == (
                    old(self).mods_seq()[j].0,
                    with_enabled(old(self).mods_seq()[j].1, false),
                ),
            old(self).wf() ==> final(self).wf(),
    {
        self.set_all_enabled(false)
    }

    /// Register one archive that the caller has stored: under an existing
    /// name the enable flag is updated in place, under a new name a fresh
    /// entry is appended.  Returns whether the name was new.
    pub fn add(&mut self, mod_name: String, archive: String, enable: bool) -> (r: bool)
        ensures
            final(self).name == old(self).name,
            same_settings(final(self).config, old(self).config),
            old(self).wf() ==> final(self).wf(),
            r == key_absent(old(self).mods_seq(), mod_name@),
            !r ==> exists|j: int|
                0 <= j < old(self).mods_seq().len() && (#[trigger] old(self).mods_seq()[j].0@)
                    == mod_name@ && final(self).mods_seq() == old(self).mods_seq().update(
                    j,
                    (old(self).mods_seq()[j].0, with_enabled(old(self).mods_seq()[j].1, enable)),
                ),
            r ==> {
                &&& final(self).mods_seq().len() == old(self).mods_seq().len() + 1
                &&& forall|j: int|
                    0 <= j < old(self).mods_seq().len() ==> #[trigger] final(self).mods_seq()[j]
                        == old(self).mods_seq()[j]
                &&& final(self).mods_seq().last().0 == mod_name
                &&& final(self).mods_seq().last().1.enabled == enable
                &&& final(self).mods_seq().last().1.extracted is None
                &&& final(self).mods_seq().last().1.archive == archive
                &&& final(self).mods_seq().last().1.parts@.len() == 0
            },
    {
        let len = reg_len(&self.config.mods);
        let mut i: usize = 0;
        while i < len
            invariant
                *self == *old(self),
                len == self.config.mods_seq().len(),
                i <= len,
                forall|j: int| 0 <= j < i ==> (#[trigger] self.config.mods_seq()[j].0@) != mod_name@,
            decreases len - i,
        {
            let entry = reg_entry_at(&self.config.mods, i);
            if entry.0 == mod_name {
                reg_set_enabled_at(&mut self.config.mods, i, enable);
                proof {
                    assert((i as int) < old(self).mods_seq().len() && (old(
                        self,
                    ).mods_seq()[i as int].0@) == mod_name@ && self.config.mods_seq() == old(
                        self,
                    ).mods_seq().update(
                        i as int,
                        (
                            old(self).mods_seq()[i as int].0,
                            with_enabled(old(self).mods_seq()[i as int].1, enable),
                        ),
                    ));
                    if old(self).wf() {
                        assert forall|a: int, b: int|
                            0 <= a < b < self.config.mods_seq().len() implies (
                        #[trigger] self.config.mods_seq()[a].0@) != (
                        #[trigger] self.config.mods_seq()[b].0@) by {
                            assert(self.config.mods_seq()[a].0 == old(self).mods_seq()[a].0);
                            assert(self.config.mods_seq()[b].0 == old(self).mods_seq()[b].0);
                        }
                    }
                }
                return false;
            }
            i += 1;
        }
        let mut fresh = ManagedMod::new(archive);
        fresh.enabled = enable;
        reg_push(&mut self.config.mods, mod_name, fresh);
        proof {
            if old(self).wf() {
                assert forall|a: int, b: int|
                    0 <= a < b < self.config.mods_seq().len() implies (
                #[trigger] self.config.mods_seq()[a].0@) != (
                #[trigger] self.config.mods_seq()[b].0@) by {
                    if b < self.config.mods_seq().len() - 1 {
                        assert(self.config.mods_seq()[a] == old(self).mods_seq()[a]);
                        assert(self.config.mods_seq()[b] == old(self).mods_seq()[b]);
                    } else {
                        assert(self.config.mods_seq()[a] == old(self).mods_seq()[a]);
                    }
                }
            }
        }
        true
    }

    /// Uninstall the mod the selector resolves to: disable it and clear its
    /// extraction record, or drop the entry entirely when the archive is
    /// deleted too.
    pub fn uninstall(&mut self, name: &str, delete_archives: bool) -> (r: Result<usize, Error>)
        ensures
            final(self).name == old(self).name,
            same_settings(final(self).config, old(self).config),
            old(self).wf() ==> final(self).wf(),
            match r {
                Ok(i) => {
                    &&& resolves_to(old(self).mods_seq(), name@, i as int)
                    &&& delete_archives ==> final(self).mods_seq() == old(self).mods_seq().remove(
                        i as int,
                    )
                    &&& !delete_archives ==> final(self).mods_seq() == old(self).mods_seq().update(
                        i as int,
                        (old(self).mods_seq()[i as int].0, uninstalled(old(self).mods_seq()[i as int].1)),
                    )
                },
                Err(e) => {
                    &&& *final(self) == *old(self)
                    &&& no_match(old(self).mods_seq(), name@)
                    &&& e matches Error::UnknownMod(s) && s@ == lower_of(name@)
                },
            },
    {
        let i = match get_mod(&self.config.mods, name) {
            Ok(i) => i,
            Err(e) => return Err(e),
        };
        if delete_archives {
            proof {
                if old(self).wf() {
                    lemma_remove_distinct(old(self).mods_seq(), i as int);
                }
            }
            let _ = reg_shift_remove_at(&mut self.config.mods, i);
        } else {
            reg_mark_uninstalled_at(&mut self.config.mods, i);
            proof {
                if old(self).wf() {
                    assert forall|a: int, b: int|
                        0 <= a < b < self.config.mods_seq().len() implies (
                    #[trigger] self.config.mods_seq()[a].0@) != (
                    #[trigger] self.config.mods_seq()[b].0@) by {
                        assert(self.config.mods_seq()[a].0 == old(self).mods_seq()[a].0);
                        assert(self.config.mods_seq()[b].0 == old(self).mods_seq()[b].0);
                    }
                }
            }
        }
        Ok(i)
    }

    /// Uninstall every mod: disable all and clear their extraction records,
    /// or empty the registry when archives are deleted too.
    pub fn uninstall_all(&mut self, delete_archives: bool)
        ensures
            final(self).name == old(self).name,
            same_settings(final(self).config, old(self).config),
            old(self).wf() ==> final(self).wf(),
            delete_archives ==> final(self).mods_seq().len() == 0,
            !delete_archives ==> {
                &&& final(self).mods_seq().len() == old(self).mods_seq().len()
                &&& forall|j: int|
                    0 <= j < old(self).mods_seq().len() ==> #[trigger] final(self).mods_seq()[j]
                        == (old(self).mods_seq()[j].0, uninstalled(old(self).mods_seq()[j].1))
            },
    {
        if delete_archives {
            reg_clear(&mut self.config.mods);
            return ;
        }
        let len = reg_len(&self.config.mods);
        let mut i: usize = 0;
        while i < len
            invariant
                len == self.config.mods_seq().len(),
                i <= len,
                self.name == old(self).name,
                same_settings(self.config, old(self).config),
                old(self).mods_seq().len() == len,
                forall|j: int|
                    0 <= j < i ==> #[trigger] self.config.mods_seq()[j] == (
                        old(self).mods_seq()[j].0,
                        uninstalled(old(self).mods_seq()[j].1),
                    ),
                forall|j: int|
                    i <= j < len ==> #[trigger] self.config.mods_seq()[j] == old(self).mods_seq()[j],
            decreases len - i,
        {
            reg_mark_uninstalled_at(&mut self.config.mods, i);
            i += 1;
        }
        proof {
            if old(self).wf() {
                assert forall|a: int, b: int|
                    0 <= a < b < self.config.mods_seq().len() implies (
                #[trigger] self.config.mods_seq()[a].0@) != (
                #[trigger] self.config.mods_seq()[b].0@) by {
                    assert(self.config.mods_seq()[a].0 == old(self).mods_seq()[a].0);
                    assert(self.config.mods_seq()[b].0 == old(self).mods_seq()[b].0);
                }
            }
        }
    }

    /// The load-order editor.  Resolution happens before any mutation, so a
    /// failed move leaves the registry exactly as it was; a successful one
    /// removes the moved entry and reinserts it at the destination.
    pub fn move_mod(&mut self, moved: &str, to: &MoveSubcommand) -> (r: Result<(), Error>)
        requires
            old(self).wf(),
        ensures
            final(self).name == old(self).name,
            same_settings(final(self).config, old(self).config),
            final(self).wf(),
            match r {
                Ok(()) => move_ok(old(self).mods_seq(), final(self).mods_seq(), moved@, *to),
                Err(e) => *final(self) == *old(self) && move_err(
                    old(self).mods_seq(),
                    moved@,
                    *to,
                    e,
                ),
            },
    {
        let ghost olds = self.mods_seq();
        let mi = match get_mod(&self.config.mods, moved) {
            Ok(i) => i,
            Err(e) => return Err(e),
        };
        let len = reg_len(&self.config.mods);
        let target: usize = match to {
            MoveSubcommand::Above { name } => {
                let oi = match get_mod(&self.config.mods, name.as_str()) {
                    Ok(i) => i,
                    Err(e) => return Err(e),
                };
                if oi == mi {
                    let entry = reg_entry_at(&self.config.mods, mi);
                    return Err(Error::SelfRelativeMove(entry.0));
                }
                if oi < mi {
                    oi
                } else {
                    oi - 1
                }
            },
            MoveSubcommand::Below { name } => {
                let oi = match get_mod(&self.config.mods, name.as_str()) {
                    Ok(i) => i,
                    Err(e) => return Err(e),
                };
                if oi == mi {
                    let entry = reg_entry_at(&self.config.mods, mi);
                    return Err(Error::SelfRelativeMove(entry.0));
                }
                if oi < mi {
                    oi + 1
                } else {
                    oi
                }
            },
            MoveSubcommand::Top => 0,
            MoveSubcommand::Bottom => len - 1,
            MoveSubcommand::Down { n } => {
                let s: usize = match n {
                    Some(k) => *k,
                    None => 1,
                };
                if s <= len - 1 - mi {
                    mi + s
                } else {
                    len - 1
                }
            },
            MoveSubcommand::Up { n } => {
                let s: usize = match n {
                    Some(k) => *k,
                    None => 1,
                };
                if s <= mi {
                    mi - s
                } else {
                    0
                }
            },
        };
        proof {
            lemma_remove_distinct(olds, mi as int);
        }
        let removed = reg_shift_remove_at(&mut self.config.mods, mi);
        proof {
            assert(removed == olds[mi as int]);
            lemma_insert_distinct(self.config.mods_seq(), target as int, removed);
        }
        reg_shift_insert(&mut self.config.mods, target, removed.0, removed.1);
        Ok(())
    }
}

// ---------------------------------------------------------------------------
// Install root selection
// ---------------------------------------------------------------------------

/// The destination directory for one mod part: the game folder itself when no
/// data folder is configured or the part already nests one, otherwise the
/// data folder under the game folder.
pub fn install_dir(game_folder: &str, data_folder: Option<&String>, mod_has_data_folder: bool) -> (r:
    String)
    ensures
        match data_folder {
            Some(d) => r@ == if mod_has_data_folder {
                game_folder@
            } else {
                game_folder@ + "/"@ + d@
            },
            None => r@ == game_folder@,
        },
{
    match data_folder {
        Some(d) if !mod_has_data_folder => {
            let mut r = game_folder.to_owned();
            r.append("/");
            r.append(d.as_str());
            r
        },
        _ => game_folder.to_owned(),
    }
}

// ---------------------------------------------------------------------------
// GlobalConfig
// ---------------------------------------------------------------------------

/// The manager's global state: the active game and the set of managed games.
pub struct GlobalConfig {
    pub active_game: Option<String>,
    pub games: Vec<String>,
}

impl GlobalConfig {
    /// Game names are distinct.
    pub open spec fn wf(self) -> bool {
        forall|i: int, j: int|
            0 <= i < j < self.games@.len() ==> (#[trigger] self.games@[i]@) != (
            #[trigger] self.games@[j]@)
    }

    /// A game of this name is managed.
    pub open spec fn spec_has_game(self, name: Seq<char>) -> bool {
        exists|i: int| 0 <= i < self.games@.len() && (#[trigger] self.games@[i]@) == name
    }

    /// Is a game of this name managed?
    pub fn contains_game(&self, name: &String) -> (r: bool)
        ensures
            r == self.spec_has_game(name@),
    {
        let mut i: usize = 0;
        while i < self.games.len()
            invariant
                i <= self.games@.len(),
                forall|j: int| 0 <= j < i ==> (#[trigger] self.games@[j]@) != name@,
            decreases self.games@.len() - i,
        {
            if self.games[i] == *name {
                return true;
            }
            i += 1;
        }
        false
    }

    /// Make a game of this name the active one, if it is managed.
    pub fn set_active(&mut self, name: String) -> (r: Result<(), Error>)
        ensures
            final(self).games == old(self).games,
            match r {
                Ok(()) => old(self).spec_has_game(name@) && final(self).active_game == Some(name),
                Err(e) => {
                    &&& *final(self) == *old(self)
                    &&& !old(self).spec_has_game(name@)
                    &&& e matches Error::UnknownGame(s) && s == name
                },
            },
    {
        if self.contains_game(&name) {
            self.active_game = Some(name);
            Ok(())
        } else {
            Err(Error::UnknownGame(name))
        }
    }

    /// The name of the active game: the no-active-game error when none is
    /// set, the unknown-game error when the set name is not managed.
    pub fn active_game(&self) -> (r: Result<String, Error>)
        ensures
            match r {
                Ok(n) => self.active_game matches Some(a) && a == n && self.spec_has_game(n@),
                Err(e) => match e {
                    Error::NoActiveGame => self.active_game is None,
                    Error::UnknownGame(s) => self.active_game matches Some(a) && a == s
                        && !self.spec_has_game(s@),
                    _ => false,
                },
            },
    {
        match &self.active_game {
            Some(a) => {
                if self.contains_game(a) {
                    Ok(a.clone())
                } else {
                    Err(Error::UnknownGame(a.clone()))
                }
            },
            None => Err(Error::NoActiveGame),
        }
    }

    /// Register a new game: refuse a name already managed, otherwise record
    /// it, make it active, and hand back its fresh configuration for the
    /// caller to persist.
    pub fn init_game(
        &mut self,
        name: String,
        folder: String,
        data: Option<String>,
        plugins: Option<String>,
        exe: Option<String>,
    ) -> (r: Result<Game, Error>)
        ensures
            match r {
                Ok(g) => {
                    &&& !old(self).spec_has_game(name@)
                    &&& final(self).games@ == old(self).games@.push(name)
                    &&& final(self).active_game == Some(name)
                    &&& old(self).wf() ==> final(self).wf()
                    &&& g.name == name
                    &&& g.config.game_folder == folder
                    &&& g.config.data_folder == data
                    &&& g.config.plugins_file == plugins
                    &&& g.config.exe == exe
                    &&& g.config.deployment == DeploymentMethod::Hardlink
                    &&& g.mods_seq().len() == 0
                    &&& g.wf()
                },
                Err(e) => {
                    &&& *final(self) == *old(self)
                    &&& old(self).spec_has_game(name@)
                    &&& e matches Error::AlreadyManaged(s) && s == name
                },
            },
    {
        if self.contains_game(&name) {
            return Err(Error::AlreadyManaged(name));
        }
        self.active_game = Some(name.clone());
        self.games.push(name.clone());
        proof {
            if old(self).wf() {
                assert forall|a: int, b: int|
                    0 <= a < b < self.games@.len() implies (#[trigger] self.games@[a]@) != (
                #[trigger] self.games@[b]@) by {
                    if b < self.games@.len() - 1 {
                        assert(self.games@[a] == old(self).games@[a]);
                        assert(self.games@[b] == old(self).games@[b]);
                    } else {
                        assert(self.games@[a] == old(self).games@[a]);
                        assert(self.games@[b]@ == name@);
                    }
                }
            }
        }
        let game = Game {
            name,
            config: Config {
                game_folder: folder,
                data_folder: data,
                plugins_file: plugins,
                exe,
                deployment: DeploymentMethod::Hardlink,
                mods: reg_new(),
            },
        };
        Ok(game)
    }
}

impl Default for GlobalConfig {
    /// No active game and no managed games.
    fn default() -> (r: Self)
        ensures
            r.active_game is None,
            r.games@.len() == 0,
            r.wf(),
    {
        GlobalConfig { active_game: None, games: Vec::new() }
    }
}

} // verus!
