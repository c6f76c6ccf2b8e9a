//! Choosing the target to debug from what `cargo metadata` reports.

use vstd::prelude::*;
use crate::text::{str_eq, string_of};

verus! {

/// A target to debug: its name, its source file, and its kind.
#[derive(Debug)]
pub struct DebugTarget {
    pub name: String,
    pub bin_path: String,
    pub kind: String,
}

impl Clone for DebugTarget {
    fn clone(&self) -> (r: Self)
        ensures
            r == *self,
    {
        DebugTarget { name: self.name.clone(), bin_path: self.bin_path.clone(), kind: self.kind.clone() }
    }
}

/// A target of a package as `cargo metadata` lists it.
pub struct MetadataTarget {
    pub name: String,
    pub kind: Vec<String>,
    pub src_path: String,
}

/// A package as `cargo metadata` lists it.
pub struct MetadataPackage {
    pub name: String,
    pub id: String,
    pub targets: Vec<MetadataTarget>,
    pub manifest_path: String,
}

/// What `cargo metadata` reports: the packages and the ids of the
/// workspace members.
pub struct CargoMetadata {
    pub packages: Vec<MetadataPackage>,
    pub workspace_members: Vec<String>,
}

/// The views of a list of strings.
pub open spec fn strings_view(v: Seq<String>) -> Seq<Seq<char>> {
    v.map_values(|s: String| s@)
}

/// A target is debuggable when its kinds include `bin`.
pub open spec fn is_bin_target(t: MetadataTarget) -> bool {
    strings_view(t.kind@).contains("bin"@)
}

/// A package is considered when it is a workspace member.
pub open spec fn is_member(m: CargoMetadata, p: MetadataPackage) -> bool {
    strings_view(m.workspace_members@).contains(p.id@)
}

/// The first `bin` target of the first workspace member that has one, as
/// (package index, target index).
pub open spec fn first_bin_from(m: CargoMetadata, i: int, j: int) -> Option<(int, int)>
    decreases m.packages@.len() - i, m.packages@[i].targets@.len() - j,
{
    if i < 0 || i >= m.packages@.len() {
        None
    } else if !is_member(m, m.packages@[i]) || j < 0 || j >= m.packages@[i].targets@.len() {
        first_bin_from(m, i + 1, 0)
    } else if is_bin_target(m.packages@[i].targets@[j]) {
        Some((i, j))
    } else {
        first_bin_from(m, i, j + 1)
    }
}

fn contains_str(v: &Vec<String>, s: &str) -> (r: bool)
    ensures
        r == strings_view(v@).contains(s@),
{
    let mut i: usize = 0;
    while i < v.len()
        invariant
            i <= v@.len(),
            forall|k: int| 0 <= k < i ==> v@[k]@ != s@,
        decreases v.len() - i,
    {
        if str_eq(v[i].as_str(), s) {
            assert(strings_view(v@)[i as int] == s@);
            return true;
        }
        i = i + 1;
    }
    proof {
        if strings_view(v@).contains(s@) {
            let w = choose|w: int| 0 <= w < strings_view(v@).len() && strings_view(v@)[w] == s@;
            assert(v@[w]@ == s@);
        }
    }
    false
}

/// The target to debug: the first `bin` target of the first workspace
/// member that has one, or `None`.
pub fn select_debug_target(metadata: &CargoMetadata) -> (r: Option<DebugTarget>)
    ensures
        match first_bin_from(*metadata, 0, 0) {
            Some((i, j)) => r matches Some(t) && t.name@ == metadata.packages@[i].targets@[j].name@
                && t.bin_path@ == metadata.packages@[i].targets@[j].src_path@ && t.kind@ == "bin"@,
            None => r is None,
        },
{
    let mut i: usize = 0;
    while i < metadata.packages.len()
        invariant
            i <= metadata.packages@.len(),
            first_bin_from(*metadata, 0, 0) == first_bin_from(*metadata, i as int, 0),
        decreases metadata.packages.len() - i,
    {
        let p = &metadata.packages[i];
        if contains_str(&metadata.workspace_members, p.id.as_str()) {
            let mut j: usize = 0;
            while j < p.targets.len()
                invariant
                    i < metadata.packages@.len(),
                    *p == metadata.packages@[i as int],
                    is_member(*metadata, *p),
                    j <= p.targets@.len(),
                    first_bin_from(*metadata, 0, 0) == first_bin_from(*metadata, i as int, j as int),
                decreases p.targets.len() - j,
            {
                let t = &p.targets[j];
                if contains_str(&t.kind, "bin") {
                    return Some(DebugTarget {
                        name: string_of(t.name.as_str()),
                        bin_path: string_of(t.src_path.as_str()),
                        kind: string_of("bin"),
                    });
                }
                j = j + 1;
            }
        }
        i = i + 1;
    }
    None
}

} // verus!
