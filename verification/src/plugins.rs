//! The plugin list writer: scan every enabled mod's parts in registry order
//! for recognized plugin files, keep the first occurrence of each file name,
//! and render one activation line per plugin.  The caller writes the lines to
//! the configured plugins file.

use vstd::prelude::*;

use crate::deploy::{ModListing, PartListing};
use crate::game::{Game, ManagedMod};
use crate::registry::{reg_entry_at, reg_len};

verus! {

/// A recognized plugin file name: a non-empty stem and the extension `esp`,
/// `esm` or `esl`.
pub open spec fn is_plugin_name(name: Seq<char>) -> bool {
    &&& name.len() >= 5
    &&& name[name.len() - 4] == '.'
    &&& name[name.len() - 3] == 'e'
    &&& name[name.len() - 2] == 's'
    &&& (name[name.len() - 1] == 'p' || name[name.len() - 1] == 'm' || name[name.len() - 1]
        == 'l')
}

/// Does this file name carry a plugin extension?
pub fn plugin_name(name: &str) -> (r: bool)
    ensures
        r == is_plugin_name(name@),
{
    let len: usize = name.unicode_len();
    if len < 5 {
        return false;
    }
    if name.get_char(len - 4) != '.' {
        return false;
    }
    if name.get_char(len - 3) != 'e' {
        return false;
    }
    if name.get_char(len - 2) != 's' {
        return false;
    }
    let c = name.get_char(len - 1);
    c == 'p' || c == 'm' || c == 'l'
}

/// The plugin name one file contributes: its last component's name, when that
/// carries a plugin extension.
pub open spec fn file_plugin_name(f: Vec<String>) -> Option<Seq<char>> {
    if f@.len() > 0 && is_plugin_name(f@.last()@) {
        Some(f@.last()@)
    } else {
        None
    }
}

/// The plugin names a part's files contribute, in file order.
pub open spec fn files_plugin_names(files: Seq<Vec<String>>) -> Seq<Seq<char>>
    decreases files.len(),
{
    if files.len() == 0 {
        Seq::empty()
    } else {
        files_plugin_names(files.drop_last()) + match file_plugin_name(files.last()) {
            Some(n) => seq![n],
            None => Seq::empty(),
        }
    }
}

/// The plugin names a mod's parts contribute, in part and file order.
pub open spec fn parts_plugin_names(parts: Seq<PartListing>) -> Seq<Seq<char>>
    decreases parts.len(),
{
    if parts.len() == 0 {
        Seq::empty()
    } else {
        parts_plugin_names(parts.drop_last()) + files_plugin_names(parts.last().files@)
    }
}

/// Every enabled mod's plugin names over the first `n` registry entries, in
/// registry order, duplicates still present.
pub open spec fn all_plugin_names(
    mods: Seq<(String, ManagedMod)>,
    listings: Seq<ModListing>,
    n: int,
) -> Seq<Seq<char>>
    decreases n,
{
    if n <= 0 {
        Seq::empty()
    } else {
        all_plugin_names(mods, listings, n - 1) + if mods[n - 1].1.enabled {
            parts_plugin_names(listings[n - 1].parts@)
        } else {
            Seq::empty()
        }
    }
}

/// Deduplicate, keeping the first occurrence of each name and its position.
pub open spec fn dedup_first(s: Seq<Seq<char>>) -> Seq<Seq<char>>
    decreases s.len(),
{
    if s.len() == 0 {
        Seq::empty()
    } else {
        let d = dedup_first(s.drop_last());
        if d.contains(s.last()) {
            d
        } else {
            d.push(s.last())
        }
    }
}

/// One activation line per name: the marker `*` before the name.
pub open spec fn starred(names: Seq<Seq<char>>) -> Seq<Seq<char>> {
    Seq::new(names.len(), |i: int| seq!['*'] + names[i])
}

/// Is the name already among the collected ones?
fn contains_name(v: &Vec<String>, x: &String) -> (r: bool)
    ensures
        r == v.deep_view().contains(x@),
{
    let mut i: usize = 0;
    while i < v.len()
        invariant
            i <= v@.len(),
            forall|j: int| 0 <= j < i ==> v.deep_view()[j] != x@,
        decreases v@.len() - i,
    {
        if v[i] == *x {
            proof {
                assert(v.deep_view()[i as int] == x@);
            }
            return true;
        }
        i += 1;
    }
    proof {
        if v.deep_view().contains(x@) {
            let j = choose|j: int| 0 <= j < v.deep_view().len() && v.deep_view()[j] == x@;
            assert(false);
        }
    }
    false
}

/// Push a name unless it was seen; the collected names track `dedup_first` of
/// the names seen so far.
fn collect_name(out: &mut Vec<String>, seen: Ghost<Seq<Seq<char>>>, name: &String)
    requires
        old(out).deep_view() == dedup_first(seen@),
    ensures
        final(out).deep_view() == dedup_first(seen@.push(name@)),
{
    proof {
        assert(seen@.push(name@).drop_last() =~= seen@);
    }
    if !contains_name(out, name) {
        let ghost prev = out.deep_view();
        out.push(name.clone());
        proof {
            assert(out.deep_view() =~= prev.push(name@));
        }
    }
}

impl Game {
    /// The plugin list: every enabled mod's recognized plugin file names, in
    /// registry, part and file order, first occurrence kept.
    pub fn plugins(&self, listings: &Vec<ModListing>) -> (r: Vec<String>)
        requires
            listings@.len() == self.mods_seq().len(),
        ensures
            r.deep_view() == dedup_first(
                all_plugin_names(self.mods_seq(), listings@, listings@.len() as int),
            ),
    {
        let mut out: Vec<String> = Vec::new();
        let ghost seen: Seq<Seq<char>> = Seq::empty();
        let len = reg_len(&self.config.mods);
        let mut i: usize = 0;
        while i < len
            invariant
                len == self.mods_seq().len(),
                listings@.len() == len,
                i <= len,
                seen == all_plugin_names(self.mods_seq(), listings@, i as int),
                out.deep_view() == dedup_first(seen),
            decreases len - i,
        {
            let ghost seen_mod_start = seen;
            let entry = reg_entry_at(&self.config.mods, i);
            if entry.1.enabled {
                let parts = &listings[i].parts;
                let mut j: usize = 0;
                while j < parts.len()
                    invariant
                        j <= parts@.len(),
                        seen == seen_mod_start + parts_plugin_names(parts@.take(j as int)),
                        out.deep_view() == dedup_first(seen),
                    decreases parts@.len() - j,
                {
                    let ghost seen_part_start = seen;
                    let files = &parts[j].files;
                    let mut k: usize = 0;
                    while k < files.len()
                        invariant
                            k <= files@.len(),
                            seen == seen_part_start + files_plugin_names(files@.take(k as int)),
                            out.deep_view() == dedup_first(seen),
                        decreases files@.len() - k,
                    {
                        let f = &files[k];
                        if f.len() > 0 {
                            let last = &f[f.len() - 1];
                            if plugin_name(last.as_str()) {
                                collect_name(&mut out, Ghost(seen), last);
                                proof {
                                    seen = seen.push(last@);
                                }
                            }
                        }
                        proof {
                            assert(files@.take(k + 1).drop_last() =~= files@.take(k as int));
                            assert(files@.take(k + 1).last() == files@[k as int]);
                            assert(seen =~= seen_part_start + files_plugin_names(
                                files@.take(k + 1),
                            ));
                        }
                        k += 1;
                    }
                    proof {
                        assert(files@.take(files@.len() as int) =~= files@);
                        assert(parts@.take(j + 1).drop_last() =~= parts@.take(j as int));
                        assert(parts@.take(j + 1).last() == parts@[j as int]);
                        assert(seen =~= seen_mod_start + parts_plugin_names(parts@.take(j + 1)));
                    }
                    j += 1;
                }
                proof {
                    assert(parts@.take(parts@.len() as int) =~= parts@);
                }
            }
            proof {
                assert(seen =~= all_plugin_names(self.mods_seq(), listings@, i + 1));
            }
            i += 1;
        }
        out
    }

    /// The plugin list rendered as activation lines, one per plugin, each
    /// prefixed with the `*` marker, ready to be written out.
    pub fn plugin_lines(&self, listings: &Vec<ModListing>) -> (r: Vec<String>)
        requires
            listings@.len() == self.mods_seq().len(),
        ensures
            r.deep_view() == starred(
                dedup_first(all_plugin_names(self.mods_seq(), listings@, listings@.len() as int)),
            ),
    {
        let names = self.plugins(listings);
        let mut out: Vec<String> = Vec::new();
        let mut i: usize = 0;
        proof {
            reveal_strlit("*");
        }
        while i < names.len()
            invariant
                i <= names@.len(),
                "*"@ =~= seq!['*'],
                out.deep_view() =~= starred(names.deep_view()).take(i as int),
            decreases names@.len() - i,
        {
            let mut line = "*".to_owned();
            line.append(names[i].as_str());
            let ghost prev = out.deep_view();
            let ghost lv = line@;
            out.push(line);
            proof {
                assert(lv == seq!['*'] + names.deep_view()[i as int]);
                assert(out.deep_view() =~= prev.push(lv));
                assert(prev.push(lv) =~= starred(names.deep_view()).take(i + 1));
            }
            i += 1;
        }
        proof {
            assert(starred(names.deep_view()).take(names@.len() as int) =~= starred(
                names.deep_view(),
            ));
        }
        out
    }
}

} // verus!
