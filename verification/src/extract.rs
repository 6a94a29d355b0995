//! The extractor's decisions: which mods need the external extraction tool,
//! how its exit status is judged, and how a freshly extracted tree is
//! normalized.  The caller runs the tool and moves the files; extraction is
//! recorded on the mod (see [`ManagedMod::record_extracted`]) and never
//! repeated once recorded.

use vstd::prelude::*;

use crate::error::Error;
use crate::game::{Game, ManagedMod};
use crate::registry::{reg_entry_at, reg_len};

verus! {

/// A freshly extracted root is hoisted when it holds exactly one directory
/// entry and that entry is not the recognized data-folder name.
pub open spec fn spec_should_hoist(dir_entries: Seq<String>, data_folder: Option<String>) -> bool {
    dir_entries.len() == 1 && match data_folder {
        Some(d) => dir_entries[0]@ != d@,
        None => true,
    }
}

/// The redundant wrapper directory to hoist out of a freshly extracted root,
/// if there is one.  `dir_entries` are the names of the root's immediate
/// directory entries.
pub fn hoist_target(dir_entries: &Vec<String>, data_folder: &Option<String>) -> (r: Option<String>)
    ensures
        match r {
            Some(w) => spec_should_hoist(dir_entries@, *data_folder) && w@ == dir_entries@[0]@,
            None => !spec_should_hoist(dir_entries@, *data_folder),
        },
{
    if dir_entries.len() != 1 {
        return None;
    }
    match data_folder {
        Some(d) => {
            if dir_entries[0] == *d {
                None
            } else {
                Some(dir_entries[0].clone())
            }
        },
        None => Some(dir_entries[0].clone()),
    }
}

/// Judge the external extraction tool's exit: success means the destination
/// now holds the complete tree, anything else is the extraction error for
/// this mod alone — the pass goes on for the other mods.
pub fn extraction_result(archive: &String, success: bool, code: Option<i32>) -> (r: Result<
    (),
    Error,
>)
    ensures
        match r {
            Ok(()) => success,
            Err(e) => e matches Error::Extraction { archive: a, code: c } && !success && a@
                == archive@ && c == code,
        },
{
    if success {
        Ok(())
    } else {
        Err(Error::Extraction { archive: archive.clone(), code })
    }
}

/// The output flag handed to the extraction tool: `-o` followed by the
/// destination directory.
pub fn extractor_output_flag(dest: &str) -> (r: String)
    ensures
        r@ == "-o"@ + dest@,
{
    let mut r = "-o".to_owned();
    r.append(dest);
    r
}

/// Extraction runs at most once: once a completed extraction has been
/// recorded for a mod, the extract step of any later pass — which invokes the
/// tool only for mods that still need extraction — leaves the mod alone.
pub proof fn lemma_extract_at_most_once(mm: ManagedMod, dir: String)
    ensures
        !(ManagedMod { extracted: Some(dir), ..mm }).spec_needs_extraction(),
{
}

impl Game {
    /// The positions of the mods the extract step must run the tool for:
    /// exactly the enabled mods without a recorded extraction, in registry
    /// order.
    pub fn extract_queue(&self) -> (r: Vec<usize>)
        ensures
            forall|m: int| 0 <= m < r@.len() ==> (#[trigger] r@[m]) < self.mods_seq().len(),
            forall|m: int, q: int| 0 <= m < q < r@.len() ==> r@[m] < r@[q],
            forall|i: int|
                0 <= i < self.mods_seq().len() ==> ((exists|m: int|
                    0 <= m < r@.len() && (#[trigger] r@[m]) as int == i) <==> self.mods_seq()[i].1.spec_needs_extraction()),
    {
        let mut out: Vec<usize> = Vec::new();
        let len = reg_len(&self.config.mods);
        let mut i: usize = 0;
        while i < len
            invariant
                len == self.mods_seq().len(),
                i <= len,
                forall|m: int| 0 <= m < out@.len() ==> (#[trigger] out@[m]) < i,
                forall|m: int, q: int| 0 <= m < q < out@.len() ==> out@[m] < out@[q],
                forall|j: int|
                    0 <= j < i ==> ((exists|m: int|
                        0 <= m < out@.len() && (#[trigger] out@[m]) as int == j)
                        <==> self.mods_seq()[j].1.spec_needs_extraction()),
            decreases len - i,
        {
            let entry = reg_entry_at(&self.config.mods, i);
            let ghost prev = out@;
            let needs = entry.1.needs_extraction();
            if needs {
                out.push(i);
            }
            proof {
                assert forall|j: int|
                    0 <= j <= i as int implies ((exists|m: int|
                    0 <= m < out@.len() && (#[trigger] out@[m]) as int == j)
                    <==> self.mods_seq()[j].1.spec_needs_extraction()) by {
                    if j == i as int {
                        if needs {
                            assert(out@[out@.len() - 1] as int == j);
                        } else {
                            if exists|m: int|
                                0 <= m < out@.len() && (#[trigger] out@[m]) as int == j {
                                let m = choose|m: int|
                                    0 <= m < out@.len() && (#[trigger] out@[m]) as int == j;
                                assert(prev[m] < i);
                                assert(false);
                            }
                        }
                    } else {
                        if self.mods_seq()[j].1.spec_needs_extraction() {
                            let m = choose|m: int|
                                0 <= m < prev.len() && (#[trigger] prev[m]) as int == j;
                            assert(out@[m] as int == j);
                        } else {
                            if exists|m: int|
                                0 <= m < out@.len() && (#[trigger] out@[m]) as int == j {
                                let m = choose|m: int|
                                    0 <= m < out@.len() && (#[trigger] out@[m]) as int == j;
                                if m < prev.len() {
                                    assert(prev[m] as int == j);
                                } else {
                                    assert(out@[m] as int == i as int);
                                }
                                assert(false);
                            }
                        }
                    }
                }
                assert forall|m: int, q: int| 0 <= m < q < out@.len() implies out@[m] < out@[q] by {
                    if q < prev.len() {
                        assert(prev[m] == out@[m] && prev[q] == out@[q]);
                    } else {
                        assert(out@[m] == prev[m] && prev[m] < i);
                    }
                }
            }
            i += 1;
        }
        out
    }
}

} // verus!
