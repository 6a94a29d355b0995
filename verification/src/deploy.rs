//! The deployment reconciler.
//!
//! A deploy pass first removes, for every mod in the registry and every
//! recorded part, each file the part contributes to the install tree, and
//! then rebuilds the overlay from scratch: strictly in registry order, every
//! enabled and extracted mod's parts are linked in, later links replacing
//! earlier ones, so that the later entry of the load order wins a collision.
//!
//! The library plans the pass; the caller walks the real trees (handing in a
//! [`ModListing`] per registry entry, in registry order) and executes the
//! returned actions.  The model of the install tree is a map from destination
//! path (relative to the game folder) to the link's source, and the laws at
//! the end of this module pin down what a pass does to that map.

use vstd::prelude::*;

use crate::game::{Game, ManagedMod};
use crate::registry::{reg_entry_at, reg_len};
use crate::utils::clone_strings;

verus! {

// ---------------------------------------------------------------------------
// Listings and actions
// ---------------------------------------------------------------------------

/// What a walk of one part's source tree found: the part's root, whether the
/// tree nests the configured data folder, and the relative path of every file
/// under the root.
pub struct PartListing {
    pub root: String,
    pub has_data_folder: bool,
    pub files: Vec<Vec<String>>,
}

/// The walked parts of one mod, in the order of its recorded parts.
pub struct ModListing {
    pub parts: Vec<PartListing>,
}

/// One step of a deploy pass, for the caller to execute on the filesystem.
#[derive(Debug, Clone, PartialEq, Eq)]
pub enum DeployAction {
    /// Remove the file at `dest` (relative to the game folder) if present,
    /// then remove ancestor directories that became empty.
    Remove { dest: Vec<String> },
    /// Create a link at `dest` pointing at `source_rel` under `source_root`,
    /// replacing whatever an earlier action of the same pass put there.
    Link { dest: Vec<String>, source_root: String, source_rel: Vec<String> },
}

/// A destination path, relative to the game folder.
pub type Dest = Seq<Seq<char>>;

/// Where a link points: a part root and a path relative to it.
pub type LinkSource = (Seq<char>, Seq<Seq<char>>);

/// The mathematical content of one action: its destination, and its source
/// for a link, nothing for a removal.
pub type Act = (Dest, Option<LinkSource>);

/// The content of one action.
pub open spec fn act_view(a: DeployAction) -> Act {
    match a {
        DeployAction::Remove { dest } => (dest.deep_view(), None),
        DeployAction::Link { dest, source_root, source_rel } => (
            dest.deep_view(),
            Some((source_root@, source_rel.deep_view())),
        ),
    }
}

/// The content of a whole plan.
pub open spec fn plan_view(p: Seq<DeployAction>) -> Seq<Act> {
    p.map_values(|a: DeployAction| act_view(a))
}

// ---------------------------------------------------------------------------
// The model of the install tree
// ---------------------------------------------------------------------------

/// One action applied to the model tree.
pub open spec fn apply_act(t: Map<Dest, LinkSource>, a: Act) -> Map<Dest, LinkSource> {
    match a.1 {
        None => t.remove(a.0),
        Some(src) => t.insert(a.0, src),
    }
}

/// A sequence of actions applied in order.
pub open spec fn apply_acts(t: Map<Dest, LinkSource>, acts: Seq<Act>) -> Map<Dest, LinkSource>
    decreases acts.len(),
{
    if acts.len() == 0 {
        t
    } else {
        apply_acts(apply_act(t, acts[0]), acts.skip(1))
    }
}

// ---------------------------------------------------------------------------
// What a pass plans
// ---------------------------------------------------------------------------

/// The mod is linked in by the install phase: enabled, with a completed
/// extraction.
pub open spec fn installs(mm: ManagedMod) -> bool {
    mm.enabled && mm.extracted is Some
}

/// The install prefix of one part: nothing when no data folder is configured
/// or the part already nests it, otherwise the data folder.
pub open spec fn part_prefix(data_folder: Option<String>, p: PartListing) -> Seq<Seq<char>> {
    match data_folder {
        Some(d) => if p.has_data_folder {
            Seq::empty()
        } else {
            seq![d@]
        },
        None => Seq::empty(),
    }
}

/// The destination of the `k`-th file of a part.
pub open spec fn dest_of(data_folder: Option<String>, p: PartListing, k: int) -> Dest {
    part_prefix(data_folder, p) + p.files@[k].deep_view()
}

/// The removal actions of one part, one per file.
pub open spec fn part_remove_acts(data_folder: Option<String>, p: PartListing) -> Seq<Act> {
    Seq::new(p.files@.len(), |k: int| (dest_of(data_folder, p, k), None))
}

/// The link actions of one part, one per file.
pub open spec fn part_link_acts(data_folder: Option<String>, p: PartListing) -> Seq<Act> {
    Seq::new(
        p.files@.len(),
        |k: int| (dest_of(data_folder, p, k), Some((p.root@, p.files@[k].deep_view()))),
    )
}

/// The removal actions of one mod: its parts in order.
pub open spec fn mod_remove_acts(data_folder: Option<String>, parts: Seq<PartListing>) -> Seq<Act>
    decreases parts.len(),
{
    if parts.len() == 0 {
        Seq::empty()
    } else {
        mod_remove_acts(data_folder, parts.drop_last()) + part_remove_acts(
            data_folder,
            parts.last(),
        )
    }
}

/// The link actions of one mod: its parts in order.
pub open spec fn mod_link_acts(data_folder: Option<String>, parts: Seq<PartListing>) -> Seq<Act>
    decreases parts.len(),
{
    if parts.len() == 0 {
        Seq::empty()
    } else {
        mod_link_acts(data_folder, parts.drop_last()) + part_link_acts(data_folder, parts.last())
    }
}

/// The undeploy phase: removals for every mod, enabled or not.
pub open spec fn undeploy_acts(data_folder: Option<String>, listings: Seq<ModListing>) -> Seq<Act>
    decreases listings.len(),
{
    if listings.len() == 0 {
        Seq::empty()
    } else {
        undeploy_acts(data_folder, listings.drop_last()) + mod_remove_acts(
            data_folder,
            listings.last().parts@,
        )
    }
}

/// The install phase over the first `n` registry entries: links for every mod
/// that is enabled and extracted, in registry order.
pub open spec fn install_acts_upto(
    data_folder: Option<String>,
    mods: Seq<(String, ManagedMod)>,
    listings: Seq<ModListing>,
    n: int,
) -> Seq<Act>
    decreases n,
{
    if n <= 0 {
        Seq::empty()
    } else {
        install_acts_upto(data_folder, mods, listings, n - 1) + if installs(mods[n - 1].1) {
            mod_link_acts(data_folder, listings[n - 1].parts@)
        } else {
            Seq::empty()
        }
    }
}

/// The install phase of a pass.
pub open spec fn install_acts(
    data_folder: Option<String>,
    mods: Seq<(String, ManagedMod)>,
    listings: Seq<ModListing>,
) -> Seq<Act> {
    install_acts_upto(data_folder, mods, listings, listings.len() as int)
}

/// A full pass: undeploy everything, then install in order.
pub open spec fn pass_acts(
    data_folder: Option<String>,
    mods: Seq<(String, ManagedMod)>,
    listings: Seq<ModListing>,
) -> Seq<Act> {
    undeploy_acts(data_folder, listings) + install_acts(data_folder, mods, listings)
}

// ---------------------------------------------------------------------------
// Destinations and link maps
// ---------------------------------------------------------------------------

/// The destinations of a sequence of actions.
pub open spec fn acts_dests(acts: Seq<Act>) -> Set<Dest> {
    Set::new(|d: Dest| exists|k: int| 0 <= k < acts.len() && (#[trigger] acts[k]).0 == d)
}

/// Every action is a removal.
pub open spec fn all_removes(acts: Seq<Act>) -> bool {
    forall|k: int| 0 <= k < acts.len() ==> (#[trigger] acts[k]).1 is None
}

/// Every action is a link.
pub open spec fn all_links(acts: Seq<Act>) -> bool {
    forall|k: int| 0 <= k < acts.len() ==> (#[trigger] acts[k]).1 is Some
}

/// The map a sequence of actions builds from nothing, a later action
/// overriding an earlier one at the same destination.
pub open spec fn link_map(acts: Seq<Act>) -> Map<Dest, LinkSource>
    decreases acts.len(),
{
    if acts.len() == 0 {
        Map::empty()
    } else {
        match acts.last().1 {
            Some(src) => link_map(acts.drop_last()).insert(acts.last().0, src),
            None => link_map(acts.drop_last()).remove(acts.last().0),
        }
    }
}

/// `d` is one of the destinations of a part.
pub open spec fn part_contributes(data: Option<String>, p: PartListing, d: Dest) -> bool {
    exists|k: int| 0 <= k < p.files@.len() && d == #[trigger] dest_of(data, p, k)
}

/// `d` is one of the destinations of a sequence of parts.
pub open spec fn parts_contribute(data: Option<String>, parts: Seq<PartListing>, d: Dest) -> bool {
    exists|j: int| 0 <= j < parts.len() && part_contributes(data, #[trigger] parts[j], d)
}

/// `d` is one of the destinations of a mod's recorded parts.
pub open spec fn contributes(data: Option<String>, l: ModListing, d: Dest) -> bool {
    parts_contribute(data, l.parts@, d)
}

/// `d` is contributed by some mod of the registry.
pub open spec fn any_contributes(data: Option<String>, listings: Seq<ModListing>, d: Dest) -> bool {
    exists|i: int| 0 <= i < listings.len() && contributes(data, #[trigger] listings[i], d)
}

// ---------------------------------------------------------------------------
// How plans act on the tree
// ---------------------------------------------------------------------------

proof fn lemma_apply_concat(t: Map<Dest, LinkSource>, a: Seq<Act>, b: Seq<Act>)
    ensures
        apply_acts(t, a + b) == apply_acts(apply_acts(t, a), b),
    decreases a.len(),
{
    if a.len() == 0 {
        assert(a + b =~= b);
    } else {
        assert((a + b)[0] == a[0]);
        assert((a + b).skip(1) =~= a.skip(1) + b);
        lemma_apply_concat(apply_act(t, a[0]), a.skip(1), b);
    }
}

proof fn lemma_apply_links(t: Map<Dest, LinkSource>, acts: Seq<Act>)
    requires
        all_links(acts),
    ensures
        apply_acts(t, acts) == t.union_prefer_right(link_map(acts)),
    decreases acts.len(),
{
    if acts.len() == 0 {
        assert(t.union_prefer_right(link_map(acts)) =~= t);
    } else {
        let dl = acts.drop_last();
        let last = acts.last();
        assert forall|k: int| 0 <= k < dl.len() implies (#[trigger] dl[k]).1 is Some by {
            assert(dl[k] == acts[k]);
        }
        lemma_apply_links(t, dl);
        assert(acts =~= dl + seq![last]);
        lemma_apply_concat(t, dl, seq![last]);
        assert(seq![last].skip(1) =~= Seq::<Act>::empty());
        match last.1 {
            Some(src) => {
                let mid = apply_acts(t, dl);
                assert(apply_acts(t, acts) == apply_acts(mid, seq![last]));
                assert(seq![last][0] == last);
                assert(apply_acts(mid, seq![last]) == apply_acts(
                    apply_act(mid, last),
                    seq![last].skip(1),
                ));
                assert(apply_acts(apply_act(mid, last), seq![last].skip(1)) == apply_act(
                    mid,
                    last,
                ));
                assert(apply_act(mid, last) == mid.insert(last.0, src));
                assert(t.union_prefer_right(link_map(dl)).insert(last.0, src)
                    =~= t.union_prefer_right(link_map(dl).insert(last.0, src)));
            },
            None => {
                assert(false);
            },
        }
    }
}

proof fn lemma_apply_removes(t: Map<Dest, LinkSource>, acts: Seq<Act>)
    requires
        all_removes(acts),
    ensures
        apply_acts(t, acts) == t.remove_keys(acts_dests(acts)),
    decreases acts.len(),
{
    if acts.len() == 0 {
        assert(acts_dests(acts) =~= Set::<Dest>::empty());
        assert(t.remove_keys(acts_dests(acts)) =~= t);
    } else {
        let d0 = acts[0].0;
        assert forall|k: int| 0 <= k < acts.skip(1).len() implies (#[trigger] acts.skip(
            1,
        )[k]).1 is None by {
            assert(acts.skip(1)[k] == acts[k + 1]);
        }
        lemma_apply_removes(t.remove(d0), acts.skip(1));
        assert(acts_dests(acts) =~= acts_dests(acts.skip(1)).insert(d0)) by {
            assert forall|d: Dest| acts_dests(acts).contains(d) implies acts_dests(
                acts.skip(1),
            ).insert(d0).contains(d) by {
                let k = choose|k: int| 0 <= k < acts.len() && (#[trigger] acts[k]).0 == d;
                if k > 0 {
                    assert(acts.skip(1)[k - 1] == acts[k]);
                    assert(acts_dests(acts.skip(1)).contains(d));
                }
            }
            assert forall|d: Dest| acts_dests(acts.skip(1)).insert(d0).contains(d) implies
                acts_dests(acts).contains(d) by {
                if acts_dests(acts.skip(1)).contains(d) {
                    let k = choose|k: int|
                        0 <= k < acts.skip(1).len() && (#[trigger] acts.skip(1)[k]).0 == d;
                    assert(acts[k + 1] == acts.skip(1)[k]);
                    assert(acts[k + 1].0 == d);
                } else {
                    assert(acts[0].0 == d);
                }
            }
        }
        assert(t.remove(d0).remove_keys(acts_dests(acts.skip(1))) =~= t.remove_keys(
            acts_dests(acts),
        ));
    }
}

proof fn lemma_acts_dests_concat(a: Seq<Act>, b: Seq<Act>)
    ensures
        acts_dests(a + b) == acts_dests(a).union(acts_dests(b)),
{
    assert forall|d: Dest| acts_dests(a + b).contains(d) implies acts_dests(a).union(
        acts_dests(b),
    ).contains(d) by {
        let k = choose|k: int| 0 <= k < (a + b).len() && (#[trigger] (a + b)[k]).0 == d;
        if k < a.len() {
            assert(a[k] == (a + b)[k]);
            assert(acts_dests(a).contains(d));
        } else {
            assert(b[k - a.len()] == (a + b)[k]);
            assert(acts_dests(b).contains(d));
        }
    }
    assert forall|d: Dest| acts_dests(a).union(acts_dests(b)).contains(d) implies acts_dests(
        a + b,
    ).contains(d) by {
        if acts_dests(a).contains(d) {
            let k = choose|k: int| 0 <= k < a.len() && (#[trigger] a[k]).0 == d;
            assert((a + b)[k] == a[k]);
            assert((a + b)[k].0 == d);
        } else {
            let k = choose|k: int| 0 <= k < b.len() && (#[trigger] b[k]).0 == d;
            assert((a + b)[a.len() + k] == b[k]);
            assert((a + b)[a.len() + k].0 == d);
        }
    }
    assert(acts_dests(a + b) =~= acts_dests(a).union(acts_dests(b)));
}

proof fn lemma_part_remove_dests(data: Option<String>, p: PartListing, d: Dest)
    ensures
        acts_dests(part_remove_acts(data, p)).contains(d) <==> part_contributes(data, p, d),
        all_removes(part_remove_acts(data, p)),
{
    let acts = part_remove_acts(data, p);
    if acts_dests(acts).contains(d) {
        let k = choose|k: int| 0 <= k < acts.len() && (#[trigger] acts[k]).0 == d;
        assert(d == dest_of(data, p, k));
    }
    if part_contributes(data, p, d) {
        let k = choose|k: int| 0 <= k < p.files@.len() && d == #[trigger] dest_of(data, p, k);
        assert(acts[k].0 == d);
        assert(acts_dests(acts).contains(d));
    }
}

proof fn lemma_part_link_dests(data: Option<String>, p: PartListing, d: Dest)
    ensures
        acts_dests(part_link_acts(data, p)).contains(d) <==> part_contributes(data, p, d),
        all_links(part_link_acts(data, p)),
{
    let acts = part_link_acts(data, p);
    if acts_dests(acts).contains(d) {
        let k = choose|k: int| 0 <= k < acts.len() && (#[trigger] acts[k]).0 == d;
        assert(d == dest_of(data, p, k));
    }
    if part_contributes(data, p, d) {
        let k = choose|k: int| 0 <= k < p.files@.len() && d == #[trigger] dest_of(data, p, k);
        assert(acts[k].0 == d);
        assert(acts_dests(acts).contains(d));
    }
}

proof fn lemma_parts_contribute_step(data: Option<String>, parts: Seq<PartListing>, d: Dest)
    requires
        parts.len() > 0,
    ensures
        parts_contribute(data, parts, d) <==> (parts_contribute(data, parts.drop_last(), d)
            || part_contributes(data, parts.last(), d)),
{
    if parts_contribute(data, parts, d) {
        let j = choose|j: int|
            0 <= j < parts.len() && part_contributes(data, #[trigger] parts[j], d);
        if j < parts.len() - 1 {
            assert(parts.drop_last()[j] == parts[j]);
            assert(parts_contribute(data, parts.drop_last(), d));
        }
    }
    if parts_contribute(data, parts.drop_last(), d) {
        let j = choose|j: int|
            0 <= j < parts.drop_last().len() && part_contributes(
                data,
                #[trigger] parts.drop_last()[j],
                d,
            );
        assert(parts[j] == parts.drop_last()[j]);
        assert(parts_contribute(data, parts, d));
    }
    if part_contributes(data, parts.last(), d) {
        assert(part_contributes(data, parts[parts.len() - 1], d));
        assert(parts_contribute(data, parts, d));
    }
}

proof fn lemma_mod_remove_dests(data: Option<String>, parts: Seq<PartListing>, d: Dest)
    ensures
        acts_dests(mod_remove_acts(data, parts)).contains(d) <==> parts_contribute(data, parts, d),
        all_removes(mod_remove_acts(data, parts)),
    decreases parts.len(),
{
    if parts.len() == 0 {
        assert(!acts_dests(mod_remove_acts(data, parts)).contains(d));
    } else {
        let a = mod_remove_acts(data, parts.drop_last());
        let b = part_remove_acts(data, parts.last());
        lemma_mod_remove_dests(data, parts.drop_last(), d);
        lemma_part_remove_dests(data, parts.last(), d);
        lemma_acts_dests_concat(a, b);
        lemma_parts_contribute_step(data, parts, d);
        assert forall|k: int| 0 <= k < (a + b).len() implies (#[trigger] (a + b)[k]).1 is None by {
            if k < a.len() {
                assert((a + b)[k] == a[k]);
            } else {
                assert((a + b)[k] == b[k - a.len()]);
            }
        }
    }
}

proof fn lemma_mod_link_dests(data: Option<String>, parts: Seq<PartListing>, d: Dest)
    ensures
        acts_dests(mod_link_acts(data, parts)).contains(d) <==> parts_contribute(data, parts, d),
        all_links(mod_link_acts(data, parts)),
    decreases parts.len(),
{
    if parts.len() == 0 {
        assert(!acts_dests(mod_link_acts(data, parts)).contains(d));
    } else {
        let a = mod_link_acts(data, parts.drop_last());
        let b = part_link_acts(data, parts.last());
        lemma_mod_link_dests(data, parts.drop_last(), d);
        lemma_part_link_dests(data, parts.last(), d);
        lemma_acts_dests_concat(a, b);
        lemma_parts_contribute_step(data, parts, d);
        assert forall|k: int| 0 <= k < (a + b).len() implies (#[trigger] (a + b)[k]).1 is Some by {
            if k < a.len() {
                assert((a + b)[k] == a[k]);
            } else {
                assert((a + b)[k] == b[k - a.len()]);
            }
        }
    }
}

proof fn lemma_undeploy_dests(data: Option<String>, listings: Seq<ModListing>, d: Dest)
    ensures
        acts_dests(undeploy_acts(data, listings)).contains(d) <==> any_contributes(
            data,
            listings,
            d,
        ),
        all_removes(undeploy_acts(data, listings)),
    decreases listings.len(),
{
    if listings.len() == 0 {
        assert(!acts_dests(undeploy_acts(data, listings)).contains(d));
    } else {
        let a = undeploy_acts(data, listings.drop_last());
        let b = mod_remove_acts(data, listings.last().parts@);
        lemma_undeploy_dests(data, listings.drop_last(), d);
        lemma_mod_remove_dests(data, listings.last().parts@, d);
        lemma_acts_dests_concat(a, b);
        assert forall|k: int| 0 <= k < (a + b).len() implies (#[trigger] (a + b)[k]).1 is None by {
            if k < a.len() {
                assert((a + b)[k] == a[k]);
            } else {
                assert((a + b)[k] == b[k - a.len()]);
            }
        }
        if any_contributes(data, listings, d) {
            let i = choose|i: int|
                0 <= i < listings.len() && contributes(data, #[trigger] listings[i], d);
            if i < listings.len() - 1 {
                assert(listings.drop_last()[i] == listings[i]);
                assert(any_contributes(data, listings.drop_last(), d));
            } else {
                assert(contributes(data, listings.last(), d));
            }
        }
        if any_contributes(data, listings.drop_last(), d) {
            let i = choose|i: int|
                0 <= i < listings.drop_last().len() && contributes(
                    data,
                    #[trigger] listings.drop_last()[i],
                    d,
                );
            assert(listings[i] == listings.drop_last()[i]);
            assert(any_contributes(data, listings, d));
        }
        if contributes(data, listings.last(), d) {
            assert(contributes(data, listings[listings.len() - 1], d));
            assert(any_contributes(data, listings, d));
        }
    }
}

proof fn lemma_install_dests(
    data: Option<String>,
    mods: Seq<(String, ManagedMod)>,
    listings: Seq<ModListing>,
    n: int,
    d: Dest,
)
    requires
        n <= mods.len(),
        n <= listings.len(),
    ensures
        acts_dests(install_acts_upto(data, mods, listings, n)).contains(d) <==> exists|i: int|
            0 <= i < n && installs(#[trigger] mods[i].1) && contributes(data, listings[i], d),
        all_links(install_acts_upto(data, mods, listings, n)),
    decreases n,
{
    if n <= 0 {
        assert(!acts_dests(install_acts_upto(data, mods, listings, n)).contains(d));
    } else {
        let a = install_acts_upto(data, mods, listings, n - 1);
        let b = if installs(mods[n - 1].1) {
            mod_link_acts(data, listings[n - 1].parts@)
        } else {
            Seq::<Act>::empty()
        };
        lemma_install_dests(data, mods, listings, n - 1, d);
        lemma_mod_link_dests(data, listings[n - 1].parts@, d);
        lemma_acts_dests_concat(a, b);
        assert forall|k: int| 0 <= k < (a + b).len() implies (#[trigger] (a + b)[k]).1 is Some by {
            if k < a.len() {
                assert((a + b)[k] == a[k]);
            } else {
                assert((a + b)[k] == b[k - a.len()]);
            }
        }
        assert(!acts_dests(Seq::<Act>::empty()).contains(d));
        if exists|i: int|
            0 <= i < n && installs(#[trigger] mods[i].1) && contributes(data, listings[i], d) {
            let i = choose|i: int|
                0 <= i < n && installs(#[trigger] mods[i].1) && contributes(data, listings[i], d);
            if i < n - 1 {
                assert(acts_dests(a).contains(d));
            } else {
                assert(acts_dests(b).contains(d));
            }
            assert(acts_dests(a + b).contains(d));
        }
        if acts_dests(a + b).contains(d) {
            if acts_dests(b).contains(d) {
                assert(installs(mods[n - 1].1) && contributes(data, listings[n - 1], d));
            }
        }
    }
}

proof fn lemma_link_map_concat(a: Seq<Act>, b: Seq<Act>)
    requires
        all_links(b),
    ensures
        link_map(a + b) == link_map(a).union_prefer_right(link_map(b)),
    decreases b.len(),
{
    if b.len() == 0 {
        assert(a + b =~= a);
        assert(link_map(a).union_prefer_right(link_map(b)) =~= link_map(a));
    } else {
        let bd = b.drop_last();
        assert forall|k: int| 0 <= k < bd.len() implies (#[trigger] bd[k]).1 is Some by {
            assert(bd[k] == b[k]);
        }
        lemma_link_map_concat(a, bd);
        assert((a + b).drop_last() =~= a + bd);
        assert((a + b).last() == b.last());
        match b.last().1 {
            Some(src) => {
                assert(link_map(a + b) == link_map(a + bd).insert(b.last().0, src));
                assert(link_map(a).union_prefer_right(link_map(bd)).insert(b.last().0, src)
                    =~= link_map(a).union_prefer_right(link_map(bd).insert(b.last().0, src)));
            },
            None => {
                assert(false);
            },
        }
    }
}

proof fn lemma_link_map_dom(acts: Seq<Act>)
    requires
        all_links(acts),
    ensures
        link_map(acts).dom() == acts_dests(acts),
    decreases acts.len(),
{
    if acts.len() == 0 {
        assert forall|d: Dest| !acts_dests(acts).contains(d) by {}
        assert(link_map(acts).dom() =~= acts_dests(acts));
    } else {
        let dl = acts.drop_last();
        assert forall|k: int| 0 <= k < dl.len() implies (#[trigger] dl[k]).1 is Some by {
            assert(dl[k] == acts[k]);
        }
        lemma_link_map_dom(dl);
        match acts.last().1 {
            Some(src) => {
                assert forall|d: Dest| link_map(acts).dom().contains(d) implies acts_dests(
                    acts,
                ).contains(d) by {
                    if d == acts.last().0 {
                        assert(acts[acts.len() - 1].0 == d);
                    } else {
                        let k = choose|k: int| 0 <= k < dl.len() && (#[trigger] dl[k]).0 == d;
                        assert(acts[k] == dl[k]);
                        assert(acts[k].0 == d);
                    }
                }
                assert forall|d: Dest| acts_dests(acts).contains(d) implies link_map(
                    acts,
                ).dom().contains(d) by {
                    let k = choose|k: int| 0 <= k < acts.len() && (#[trigger] acts[k]).0 == d;
                    if k < acts.len() - 1 {
                        assert(dl[k] == acts[k]);
                        assert(acts_dests(dl).contains(d));
                    }
                }
                assert(link_map(acts).dom() =~= acts_dests(acts));
            },
            None => {
                assert(false);
            },
        }
    }
}

proof fn lemma_link_map_values(acts: Seq<Act>, d: Dest)
    requires
        all_links(acts),
        link_map(acts).dom().contains(d),
    ensures
        exists|k: int|
            0 <= k < acts.len() && (#[trigger] acts[k]).0 == d && acts[k].1 == Some(
                link_map(acts)[d],
            ),
    decreases acts.len(),
{
    let dl = acts.drop_last();
    assert forall|k: int| 0 <= k < dl.len() implies (#[trigger] dl[k]).1 is Some by {
        assert(dl[k] == acts[k]);
    }
    match acts.last().1 {
        Some(src) => {
            if acts.last().0 == d {
                assert(acts[acts.len() - 1].0 == d && acts[acts.len() - 1].1 == Some(
                    link_map(acts)[d],
                ));
            } else {
                lemma_link_map_values(dl, d);
                let k = choose|k: int|
                    0 <= k < dl.len() && (#[trigger] dl[k]).0 == d && dl[k].1 == Some(
                        link_map(dl)[d],
                    );
                assert(acts[k] == dl[k]);
                assert(acts[k].0 == d && acts[k].1 == Some(link_map(acts)[d]));
            }
        },
        None => {
            assert(false);
        },
    }
}

/// The links one mod alone puts in place: its parts in order, a later file
/// replacing an earlier one at the same destination.
pub open spec fn mod_map(data: Option<String>, l: ModListing) -> Map<Dest, LinkSource> {
    link_map(mod_link_acts(data, l.parts@))
}

proof fn lemma_mod_link_act_shape(data: Option<String>, parts: Seq<PartListing>, m: int)
    requires
        0 <= m < mod_link_acts(data, parts).len(),
    ensures
        exists|j: int, k: int|
            #![trigger parts[j].files@[k]]
            {
                &&& 0 <= j < parts.len()
                &&& 0 <= k < parts[j].files@.len()
                &&& mod_link_acts(data, parts)[m] == (
                    dest_of(data, parts[j], k),
                    Some((parts[j].root@, parts[j].files@[k].deep_view())),
                )
            },
    decreases parts.len(),
{
    let a = mod_link_acts(data, parts.drop_last());
    let b = part_link_acts(data, parts.last());
    if m < a.len() {
        lemma_mod_link_act_shape(data, parts.drop_last(), m);
        let (j, k): (int, int) = choose|j: int, k: int|
            #![trigger parts.drop_last()[j].files@[k]]
            {
                &&& 0 <= j < parts.drop_last().len()
                &&& 0 <= k < parts.drop_last()[j].files@.len()
                &&& mod_link_acts(data, parts.drop_last())[m] == (
                    dest_of(data, parts.drop_last()[j], k),
                    Some((
                        parts.drop_last()[j].root@,
                        parts.drop_last()[j].files@[k].deep_view(),
                    )),
                )
            };
        assert(parts.drop_last()[j] == parts[j]);
        assert(mod_link_acts(data, parts)[m] == a[m]);
        assert(0 <= j < parts.len() && 0 <= k < parts[j].files@.len() && mod_link_acts(
            data,
            parts,
        )[m] == (dest_of(data, parts[j], k), Some((parts[j].root@, parts[j].files@[k].deep_view()))));
    } else {
        let k = m - a.len();
        assert(mod_link_acts(data, parts)[m] == b[k]);
        let j = parts.len() - 1;
        assert(parts[j] == parts.last());
        assert(0 <= j < parts.len() && 0 <= k < parts[j].files@.len() && mod_link_acts(
            data,
            parts,
        )[m] == (dest_of(data, parts[j], k), Some((parts[j].root@, parts[j].files@[k].deep_view()))));
    }
}

/// Every link a mod installs points at a file inside one of its own parts,
/// and sits at that file's own destination.
pub proof fn lemma_mod_map_sources(data: Option<String>, l: ModListing, d: Dest)
    requires
        mod_map(data, l).dom().contains(d),
    ensures
        exists|j: int, k: int|
            #![trigger l.parts@[j].files@[k]]
            {
                &&& 0 <= j < l.parts@.len()
                &&& 0 <= k < l.parts@[j].files@.len()
                &&& d == dest_of(data, l.parts@[j], k)
                &&& mod_map(data, l)[d] == (
                    l.parts@[j].root@,
                    l.parts@[j].files@[k].deep_view(),
                )
            },
{
    lemma_mod_link_dests(data, l.parts@, d);
    lemma_link_map_values(mod_link_acts(data, l.parts@), d);
    let m = choose|m: int|
        0 <= m < mod_link_acts(data, l.parts@).len() && (#[trigger] mod_link_acts(
            data,
            l.parts@,
        )[m]).0 == d && mod_link_acts(data, l.parts@)[m].1 == Some(mod_map(data, l)[d]);
    lemma_mod_link_act_shape(data, l.parts@, m);
}

proof fn lemma_install_winner(
    data: Option<String>,
    mods: Seq<(String, ManagedMod)>,
    listings: Seq<ModListing>,
    n: int,
    j: int,
    d: Dest,
)
    requires
        mods.len() == listings.len(),
        0 <= j < n <= listings.len(),
        installs(mods[j].1),
        contributes(data, listings[j], d),
        forall|k: int|
            j < k < n && installs(#[trigger] mods[k].1) ==> !contributes(data, listings[k], d),
    ensures
        link_map(install_acts_upto(data, mods, listings, n)).dom().contains(d),
        link_map(install_acts_upto(data, mods, listings, n))[d] == mod_map(data, listings[j])[d],
    decreases n,
{
    let a = install_acts_upto(data, mods, listings, n - 1);
    let b_acts = mod_link_acts(data, listings[n - 1].parts@);
    lemma_install_dests(data, mods, listings, n - 1, d);
    lemma_mod_link_dests(data, listings[n - 1].parts@, d);
    if n - 1 == j {
        lemma_link_map_concat(a, b_acts);
        lemma_link_map_dom(b_acts);
        assert(link_map(b_acts).dom().contains(d));
    } else {
        lemma_install_winner(data, mods, listings, n - 1, j, d);
        if installs(mods[n - 1].1) {
            assert(!contributes(data, listings[n - 1], d));
            lemma_link_map_concat(a, b_acts);
            lemma_link_map_dom(b_acts);
            assert(!link_map(b_acts).dom().contains(d));
        } else {
            assert(install_acts_upto(data, mods, listings, n) =~= a);
        }
    }
}

// ---------------------------------------------------------------------------
// The laws of a deploy pass
// ---------------------------------------------------------------------------

/// The set of destinations the registry's recorded parts cover.
pub open spec fn overlay_dests(data: Option<String>, listings: Seq<ModListing>) -> Set<Dest> {
    Set::new(|d: Dest| any_contributes(data, listings, d))
}

/// The overlay the install phase builds: the enabled, extracted mods' links
/// in registry order.
pub open spec fn installed_map(
    data: Option<String>,
    mods: Seq<(String, ManagedMod)>,
    listings: Seq<ModListing>,
) -> Map<Dest, LinkSource> {
    link_map(install_acts(data, mods, listings))
}

/// One deploy pass turns any prior tree into: the prior tree minus every
/// destination that any mod's recorded parts cover, overlaid with the links
/// of the enabled mods in registry order.  The pass never computes a diff, so
/// this holds whatever the prior tree was — the self-healing property.
pub proof fn theorem_deploy_pass(
    t: Map<Dest, LinkSource>,
    data: Option<String>,
    mods: Seq<(String, ManagedMod)>,
    listings: Seq<ModListing>,
)
    requires
        mods.len() == listings.len(),
    ensures
        apply_acts(t, pass_acts(data, mods, listings)) == t.remove_keys(
            overlay_dests(data, listings),
        ).union_prefer_right(installed_map(data, mods, listings)),
{
    let u = undeploy_acts(data, listings);
    let ins = install_acts(data, mods, listings);
    lemma_apply_concat(t, u, ins);
    assert forall|d: Dest|
        acts_dests(u).contains(d) <==> #[trigger] overlay_dests(data, listings).contains(d) by {
        lemma_undeploy_dests(data, listings, d);
    }
    lemma_undeploy_dests(data, listings, Seq::empty());
    assert(acts_dests(u) =~= overlay_dests(data, listings));
    lemma_apply_removes(t, u);
    lemma_install_dests(data, mods, listings, listings.len() as int, Seq::empty());
    lemma_apply_links(t.remove_keys(overlay_dests(data, listings)), ins);
}

/// The overlay's destinations all lie in the covered set: whatever the
/// install phase writes, the undeploy phase of a later pass removes first.
proof fn lemma_installed_sub_overlay(
    data: Option<String>,
    mods: Seq<(String, ManagedMod)>,
    listings: Seq<ModListing>,
)
    requires
        mods.len() == listings.len(),
    ensures
        forall|d: Dest|
            #[trigger] installed_map(data, mods, listings).dom().contains(d) ==> overlay_dests(
                data,
                listings,
            ).contains(d),
{
    let n = listings.len() as int;
    lemma_install_dests(data, mods, listings, n, Seq::empty());
    lemma_link_map_dom(install_acts(data, mods, listings));
    assert forall|d: Dest|
        #[trigger] installed_map(data, mods, listings).dom().contains(d) implies overlay_dests(
        data,
        listings,
    ).contains(d) by {
        lemma_install_dests(data, mods, listings, n, d);
        let i = choose|i: int|
            0 <= i < n && installs(#[trigger] mods[i].1) && contributes(data, listings[i], d);
        assert(contributes(data, listings[i], d));
        assert(any_contributes(data, listings, d));
    }
}

/// Running a deploy pass twice with no registry change in between yields the
/// same install tree as running it once.
pub proof fn lemma_pass_idempotent(
    t: Map<Dest, LinkSource>,
    data: Option<String>,
    mods: Seq<(String, ManagedMod)>,
    listings: Seq<ModListing>,
)
    requires
        mods.len() == listings.len(),
    ensures
        apply_acts(apply_acts(t, pass_acts(data, mods, listings)), pass_acts(data, mods, listings))
            == apply_acts(t, pass_acts(data, mods, listings)),
{
    let dests = overlay_dests(data, listings);
    let inst = installed_map(data, mods, listings);
    let t1 = apply_acts(t, pass_acts(data, mods, listings));
    theorem_deploy_pass(t, data, mods, listings);
    theorem_deploy_pass(t1, data, mods, listings);
    lemma_installed_sub_overlay(data, mods, listings);
    assert(t1.remove_keys(dests) =~= t.remove_keys(dests));
    assert(t1.remove_keys(dests).union_prefer_right(inst) =~= t1);
}

/// Later in the load order wins: when an enabled mod produces a file at a
/// destination and no mod later in registry order also produces one there,
/// the pass leaves that mod's own link at the destination — a file inside one
/// of its parts (`lemma_mod_map_sources` says which).
pub proof fn lemma_later_mod_wins(
    t: Map<Dest, LinkSource>,
    data: Option<String>,
    mods: Seq<(String, ManagedMod)>,
    listings: Seq<ModListing>,
    j: int,
    d: Dest,
)
    requires
        mods.len() == listings.len(),
        0 <= j < mods.len(),
        installs(mods[j].1),
        contributes(data, listings[j], d),
        forall|k: int|
            j < k < mods.len() && installs(#[trigger] mods[k].1) ==> !contributes(
                data,
                listings[k],
                d,
            ),
    ensures
        apply_acts(t, pass_acts(data, mods, listings)).dom().contains(d),
        apply_acts(t, pass_acts(data, mods, listings))[d] == mod_map(data, listings[j])[d],
        mod_map(data, listings[j]).dom().contains(d),
{
    theorem_deploy_pass(t, data, mods, listings);
    lemma_install_winner(data, mods, listings, listings.len() as int, j, d);
    lemma_mod_link_dests(data, listings[j].parts@, d);
    lemma_link_map_dom(mod_link_acts(data, listings[j].parts@));
}

/// Disabling a previously deployed mod and re-running the pass removes every
/// destination only it contributed, while a destination that a still-enabled
/// mod also contributes remains present.
pub proof fn lemma_disable_then_redeploy(
    t: Map<Dest, LinkSource>,
    data: Option<String>,
    mods: Seq<(String, ManagedMod)>,
    mods2: Seq<(String, ManagedMod)>,
    listings: Seq<ModListing>,
    i: int,
    d: Dest,
)
    requires
        mods.len() == listings.len(),
        mods2.len() == mods.len(),
        0 <= i < mods.len(),
        !mods2[i].1.enabled,
        forall|k: int| 0 <= k < mods.len() && k != i ==> #[trigger] mods2[k] == mods[k],
    ensures
        (contributes(data, listings[i], d) && (forall|k: int|
            0 <= k < mods.len() && k != i && installs(#[trigger] mods2[k].1) ==> !contributes(
                data,
                listings[k],
                d,
            ))) ==> !apply_acts(
            apply_acts(t, pass_acts(data, mods, listings)),
            pass_acts(data, mods2, listings),
        ).dom().contains(d),
        (exists|k: int|
            0 <= k < mods.len() && k != i && installs(#[trigger] mods2[k].1) && contributes(
                data,
                listings[k],
                d,
            )) ==> apply_acts(
            apply_acts(t, pass_acts(data, mods, listings)),
            pass_acts(data, mods2, listings),
        ).dom().contains(d),
{
    let t1 = apply_acts(t, pass_acts(data, mods, listings));
    theorem_deploy_pass(t1, data, mods2, listings);
    lemma_install_dests(data, mods2, listings, listings.len() as int, d);
    lemma_link_map_dom(install_acts(data, mods2, listings));
    if contributes(data, listings[i], d) && (forall|k: int|
        0 <= k < mods.len() && k != i && installs(#[trigger] mods2[k].1) ==> !contributes(
            data,
            listings[k],
            d,
        )) {
        assert(any_contributes(data, listings, d));
        lemma_install_dests(data, mods2, listings, listings.len() as int, d);
        if acts_dests(install_acts(data, mods2, listings)).contains(d) {
            let k = choose|k: int|
                0 <= k < listings.len() && installs(#[trigger] mods2[k].1) && contributes(
                    data,
                    listings[k],
                    d,
                );
            assert(!installs(mods2[i].1));
            assert(false);
        }
    }
    if exists|k: int|
        0 <= k < mods.len() && k != i && installs(#[trigger] mods2[k].1) && contributes(
            data,
            listings[k],
            d,
        ) {
        let k = choose|k: int|
            0 <= k < mods.len() && k != i && installs(#[trigger] mods2[k].1) && contributes(
                data,
                listings[k],
                d,
            );
        lemma_install_dests(data, mods2, listings, listings.len() as int, d);
        assert(acts_dests(install_acts(data, mods2, listings)).contains(d));
    }
}

/// Every enabled, extracted mod's destinations are present after a pass.  A
/// mod whose extraction failed has no completed extraction, so it is not
/// installed and — its listing being empty — contributes nothing, while every
/// other enabled mod still gets all of its files.
pub proof fn lemma_pass_installs_enabled(
    t: Map<Dest, LinkSource>,
    data: Option<String>,
    mods: Seq<(String, ManagedMod)>,
    listings: Seq<ModListing>,
    k: int,
    d: Dest,
)
    requires
        mods.len() == listings.len(),
        0 <= k < mods.len(),
        installs(mods[k].1),
        contributes(data, listings[k], d),
    ensures
        apply_acts(t, pass_acts(data, mods, listings)).dom().contains(d),
{
    theorem_deploy_pass(t, data, mods, listings);
    lemma_install_dests(data, mods, listings, listings.len() as int, d);
    lemma_link_map_dom(install_acts(data, mods, listings));
}

/// A mod with nothing listed — no recorded parts walked, as after a failed
/// extraction — contributes no destination at all.
pub proof fn lemma_empty_listing_contributes_nothing(
    data: Option<String>,
    l: ModListing,
    d: Dest,
)
    requires
        l.parts@.len() == 0,
    ensures
        !contributes(data, l, d),
{
}

// ---------------------------------------------------------------------------
// Executable planners
// ---------------------------------------------------------------------------

/// The install prefix of a part, as components.
fn prefix_of(data_folder: &Option<String>, p: &PartListing) -> (r: Vec<String>)
    ensures
        r.deep_view() == part_prefix(*data_folder, *p),
{
    let mut out: Vec<String> = Vec::new();
    match data_folder {
        Some(d) => {
            if !p.has_data_folder {
                out.push(d.clone());
            }
        },
        None => {},
    }
    proof {
        assert(out.deep_view() =~= part_prefix(*data_folder, *p));
    }
    out
}

/// Pushing onto a plan appends the action's content to its view.
proof fn lemma_plan_view_push(s: Seq<DeployAction>, a: DeployAction)
    ensures
        plan_view(s.push(a)) == plan_view(s).push(act_view(a)),
{
    assert(plan_view(s.push(a)) =~= plan_view(s).push(act_view(a)));
}

/// Concatenate two component paths.
fn join_path(prefix: &Vec<String>, rel: &Vec<String>) -> (r: Vec<String>)
    ensures
        r.deep_view() == prefix.deep_view() + rel.deep_view(),
{
    let mut out = clone_strings(prefix);
    let mut k: usize = 0;
    while k < rel.len()
        invariant
            k <= rel@.len(),
            out@.len() == prefix@.len() + k,
            out@.take(prefix@.len() as int) == prefix@,
            out@.skip(prefix@.len() as int) == rel@.take(k as int),
        decreases rel@.len() - k,
    {
        out.push(rel[k].clone());
        proof {
            assert(out@.take(prefix@.len() as int) =~= prefix@);
            assert(out@.skip(prefix@.len() as int) =~= rel@.take(k + 1));
        }
        k += 1;
    }
    proof {
        assert(rel@.take(rel@.len() as int) =~= rel@);
        assert(out@ =~= prefix@ + rel@);
        assert(out.deep_view() =~= prefix.deep_view() + rel.deep_view());
    }
    out
}

/// Append one part's removal actions.
fn push_part_removes(out: &mut Vec<DeployAction>, data_folder: &Option<String>, p: &PartListing)
    ensures
        plan_view(final(out)@) == plan_view(old(out)@) + part_remove_acts(*data_folder, *p),
{
    let prefix = prefix_of(data_folder, p);
    let mut k: usize = 0;
    while k < p.files.len()
        invariant
            k <= p.files@.len(),
            prefix.deep_view() == part_prefix(*data_folder, *p),
            plan_view(out@) =~= plan_view(old(out)@) + Seq::new(
                k as nat,
                |m: int| (dest_of(*data_folder, *p, m), None),
            ),
        decreases p.files@.len() - k,
    {
        let dest = join_path(&prefix, &p.files[k]);
        let ghost prev = out@;
        let ghost dv = dest.deep_view();
        out.push(DeployAction::Remove { dest });
        proof {
            lemma_plan_view_push(prev, out@.last());
            assert(dv == dest_of(*data_folder, *p, k as int));
            assert(plan_view(out@) =~= plan_view(old(out)@) + Seq::new(
                (k + 1) as nat,
                |m: int| (dest_of(*data_folder, *p, m), None),
            ));
        }
        k += 1;
    }
    proof {
        assert(Seq::new(p.files@.len(), |m: int| (dest_of(*data_folder, *p, m), None))
            =~= part_remove_acts(*data_folder, *p));
    }
}

/// Append one part's link actions.
fn push_part_links(out: &mut Vec<DeployAction>, data_folder: &Option<String>, p: &PartListing)
    ensures
        plan_view(final(out)@) == plan_view(old(out)@) + part_link_acts(*data_folder, *p),
{
    let prefix = prefix_of(data_folder, p);
    let mut k: usize = 0;
    while k < p.files.len()
        invariant
            k <= p.files@.len(),
            prefix.deep_view() == part_prefix(*data_folder, *p),
            plan_view(out@) =~= plan_view(old(out)@) + Seq::new(
                k as nat,
                |m: int|
                    (dest_of(*data_folder, *p, m), Some((p.root@, p.files@[m].deep_view()))),
            ),
        decreases p.files@.len() - k,
    {
        let dest = join_path(&prefix, &p.files[k]);
        let source_rel = clone_strings(&p.files[k]);
        let ghost prev = out@;
        let ghost dv = dest.deep_view();
        let ghost sv = source_rel.deep_view();
        out.push(DeployAction::Link { dest, source_root: p.root.clone(), source_rel });
        proof {
            lemma_plan_view_push(prev, out@.last());
            assert(dv == dest_of(*data_folder, *p, k as int));
            assert(sv =~= p.files@[k as int].deep_view());
            assert(plan_view(out@) =~= plan_view(old(out)@) + Seq::new(
                (k + 1) as nat,
                |m: int|
                    (dest_of(*data_folder, *p, m), Some((p.root@, p.files@[m].deep_view()))),
            ));
        }
        k += 1;
    }
    proof {
        assert(Seq::new(
            p.files@.len(),
            |m: int| (dest_of(*data_folder, *p, m), Some((p.root@, p.files@[m].deep_view()))),
        ) =~= part_link_acts(*data_folder, *p));
    }
}

/// Append one mod's removal actions.
fn push_mod_removes(out: &mut Vec<DeployAction>, data_folder: &Option<String>, l: &ModListing)
    ensures
        plan_view(final(out)@) == plan_view(old(out)@) + mod_remove_acts(*data_folder, l.parts@),
{
    let mut j: usize = 0;
    while j < l.parts.len()
        invariant
            j <= l.parts@.len(),
            plan_view(out@) =~= plan_view(old(out)@) + mod_remove_acts(
                *data_folder,
                l.parts@.take(j as int),
            ),
        decreases l.parts@.len() - j,
    {
        push_part_removes(out, data_folder, &l.parts[j]);
        proof {
            assert(l.parts@.take(j + 1).drop_last() =~= l.parts@.take(j as int));
            assert(l.parts@.take(j + 1).last() == l.parts@[j as int]);
        }
        j += 1;
    }
    proof {
        assert(l.parts@.take(l.parts@.len() as int) =~= l.parts@);
    }
}

/// Append one mod's link actions.
fn push_mod_links(out: &mut Vec<DeployAction>, data_folder: &Option<String>, l: &ModListing)
    ensures
        plan_view(final(out)@) == plan_view(old(out)@) + mod_link_acts(*data_folder, l.parts@),
{
    let mut j: usize = 0;
    while j < l.parts.len()
        invariant
            j <= l.parts@.len(),
            plan_view(out@) =~= plan_view(old(out)@) + mod_link_acts(
                *data_folder,
                l.parts@.take(j as int),
            ),
        decreases l.parts@.len() - j,
    {
        push_part_links(out, data_folder, &l.parts[j]);
        proof {
            assert(l.parts@.take(j + 1).drop_last() =~= l.parts@.take(j as int));
            assert(l.parts@.take(j + 1).last() == l.parts@[j as int]);
        }
        j += 1;
    }
    proof {
        assert(l.parts@.take(l.parts@.len() as int) =~= l.parts@);
    }
}

impl Game {
    /// Plan the undeploy phase: one removal per file of every recorded part
    /// of every mod, enabled or not.
    pub fn undeploy_plan(&self, listings: &Vec<ModListing>) -> (r: Vec<DeployAction>)
        ensures
            plan_view(r@) == undeploy_acts(self.config.data_folder, listings@),
    {
        let mut out: Vec<DeployAction> = Vec::new();
        let mut i: usize = 0;
        while i < listings.len()
            invariant
                i <= listings@.len(),
                plan_view(out@) =~= undeploy_acts(self.config.data_folder, listings@.take(i as int)),
            decreases listings@.len() - i,
        {
            push_mod_removes(&mut out, &self.config.data_folder, &listings[i]);
            proof {
                assert(listings@.take(i + 1).drop_last() =~= listings@.take(i as int));
                assert(listings@.take(i + 1).last() == listings@[i as int]);
            }
            i += 1;
        }
        proof {
            assert(listings@.take(listings@.len() as int) =~= listings@);
        }
        out
    }

    /// Plan the install phase: strictly in registry order, one link per file
    /// of every part of every enabled, extracted mod.
    pub fn install_plan(&self, listings: &Vec<ModListing>) -> (r: Vec<DeployAction>)
        requires
            listings@.len() == self.mods_seq().len(),
        ensures
            plan_view(r@) == install_acts(self.config.data_folder, self.mods_seq(), listings@),
    {
        let mut out: Vec<DeployAction> = Vec::new();
        let len = reg_len(&self.config.mods);
        let mut i: usize = 0;
        while i < len
            invariant
                len == self.mods_seq().len(),
                listings@.len() == len,
                i <= len,
                plan_view(out@) =~= install_acts_upto(
                    self.config.data_folder,
                    self.mods_seq(),
                    listings@,
                    i as int,
                ),
            decreases len - i,
        {
            let entry = reg_entry_at(&self.config.mods, i);
            if entry.1.enabled && entry.1.extracted.is_some() {
                push_mod_links(&mut out, &self.config.data_folder, &listings[i]);
            }
            i += 1;
        }
        out
    }

    /// Plan one full deploy pass: the undeploy phase followed by the install
    /// phase.  Executing the returned actions in order performs, on the model
    /// tree, exactly what [`theorem_deploy_pass`] states.
    pub fn deploy_plan(&self, listings: &Vec<ModListing>) -> (r: Vec<DeployAction>)
        requires
            listings@.len() == self.mods_seq().len(),
        ensures
            plan_view(r@) == pass_acts(self.config.data_folder, self.mods_seq(), listings@),
    {
        let mut out = self.undeploy_plan(listings);
        let mut ins = self.install_plan(listings);
        let ghost ov = out@;
        let ghost iv = ins@;
        out.append(&mut ins);
        proof {
            assert(plan_view(out@) =~= plan_view(ov) + plan_view(iv));
        }
        out
    }
}

} // verus!
