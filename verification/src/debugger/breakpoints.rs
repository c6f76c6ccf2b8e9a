//! The breakpoints set in the editor's gutter, per file: clicking a line
//! sets a breakpoint there, clicking it again removes it. Files are told
//! apart as paths are (by their components), so `src//main.rs` and
//! `src/main.rs` are one file.

use vstd::prelude::*;
use crate::paths::{path_components, spec_path_components};

verus! {

/// A breakpoint in the gutter: its file, its 1-based line, and whether it
/// is enabled.
pub struct Breakpoint {
    pub file_path: String,
    pub line: u32,
    pub enabled: bool,
}

/// A breakpoint as (file, line, enabled).
pub open spec fn bp_view(b: Breakpoint) -> (Seq<char>, u32, bool) {
    (b.file_path@, b.line, b.enabled)
}

/// The first file entry whose key is `key`.
pub open spec fn key_index(files: Seq<(Seq<Seq<char>>, Seq<(Seq<char>, u32, bool)>)>, key: Seq<Seq<char>>) -> Option<int>
    decreases files.len(),
{
    if files.len() == 0 {
        None
    } else {
        match key_index(files.drop_last(), key) {
            Some(i) => Some(i),
            None => if files.last().0 == key { Some(files.len() - 1) } else { None },
        }
    }
}

/// The breakpoints of the file with key `key`, in the order they were set.
pub open spec fn breakpoints_for(files: Seq<(Seq<Seq<char>>, Seq<(Seq<char>, u32, bool)>)>, key: Seq<Seq<char>>) -> Seq<(Seq<char>, u32, bool)> {
    match key_index(files, key) {
        Some(i) => files[i].1,
        None => Seq::empty(),
    }
}

/// Where the breakpoint on `line` is in `bps`, if there is one.
pub open spec fn line_position(bps: Seq<(Seq<char>, u32, bool)>, line: u32) -> Option<int>
    decreases bps.len(),
{
    if bps.len() == 0 {
        None
    } else {
        match line_position(bps.drop_last(), line) {
            Some(i) => Some(i),
            None => if bps.last().1 == line { Some(bps.len() - 1) } else { None },
        }
    }
}

/// The breakpoints of a file after `line` was clicked: the breakpoint on
/// that line removed, or an enabled one for `file` added at the end.
pub open spec fn toggled(bps: Seq<(Seq<char>, u32, bool)>, file: Seq<char>, line: u32) -> Seq<(Seq<char>, u32, bool)> {
    match line_position(bps, line) {
        Some(i) => bps.remove(i),
        None => bps.push((file, line, true)),
    }
}

/// The files after `line` of the file with key `key` (at `file`) was
/// clicked: that file's breakpoints toggled, or a new file with one
/// breakpoint added at the end.
pub open spec fn after_toggle(files: Seq<(Seq<Seq<char>>, Seq<(Seq<char>, u32, bool)>)>, key: Seq<Seq<char>>, file: Seq<char>, line: u32) -> Seq<(Seq<Seq<char>>, Seq<(Seq<char>, u32, bool)>)> {
    match key_index(files, key) {
        Some(i) => files.update(i, (files[i].0, toggled(files[i].1, file, line))),
        None => files.push((key, seq![(file, line, true)])),
    }
}

/// Every breakpoint, file after file, in the order the files got their
/// first breakpoint.
pub open spec fn all_breakpoints(files: Seq<(Seq<Seq<char>>, Seq<(Seq<char>, u32, bool)>)>) -> Seq<(Seq<char>, u32, bool)>
    decreases files.len(),
{
    if files.len() == 0 {
        Seq::empty()
    } else {
        all_breakpoints(files.drop_last()) + files.last().1
    }
}

/// No two breakpoints of a file are on the same line.
pub open spec fn lines_distinct(bps: Seq<(Seq<char>, u32, bool)>) -> bool {
    forall|a: int, b: int| 0 <= a < b < bps.len() ==> (#[trigger] bps[a]).1 != (#[trigger] bps[b]).1
}

/// The breakpoints of the editor, per file.
pub struct BreakpointManager {
    files: Vec<(Vec<String>, Vec<Breakpoint>)>,
}

proof fn lemma_key_index_bounds(files: Seq<(Seq<Seq<char>>, Seq<(Seq<char>, u32, bool)>)>, key: Seq<Seq<char>>)
    ensures
        key_index(files, key) matches Some(i) ==> 0 <= i < files.len() && files[i].0 == key
            && forall|m: int| 0 <= m < i ==> files[m].0 != key,
        key_index(files, key) is None ==> forall|m: int| 0 <= m < files.len() ==> files[m].0 != key,
    decreases files.len(),
{
    if files.len() > 0 {
        let d = files.drop_last();
        lemma_key_index_bounds(d, key);
        assert forall|m: int| 0 <= m < d.len() implies #[trigger] d[m] == files[m] by {}
        assert(files.last() == files[files.len() - 1]);
        match key_index(d, key) {
            Some(i) => {
                assert(key_index(files, key) == Some(i));
                assert(d[i] == files[i]);
                assert forall|m: int| 0 <= m < i implies files[m].0 != key by {
                    assert(d[m] == files[m]);
                }
            },
            None => {
                assert forall|m: int| 0 <= m < files.len() - 1 implies files[m].0 != key by {
                    assert(d[m] == files[m]);
                }
                if files.last().0 == key {
                    assert(key_index(files, key) == Some(files.len() - 1));
                } else {
                    assert(key_index(files, key) is None);
                }
            },
        }
    }
}

proof fn lemma_key_index_first(files: Seq<(Seq<Seq<char>>, Seq<(Seq<char>, u32, bool)>)>, key: Seq<Seq<char>>, i: int)
    requires
        0 <= i < files.len(),
        files[i].0 == key,
        forall|m: int| 0 <= m < i ==> files[m].0 != key,
    ensures
        key_index(files, key) == Some(i),
    decreases files.len(),
{
    if i < files.len() - 1 {
        lemma_key_index_first(files.drop_last(), key, i);
    } else {
        lemma_key_index_absent(files.drop_last(), key);
    }
}

proof fn lemma_key_index_absent(files: Seq<(Seq<Seq<char>>, Seq<(Seq<char>, u32, bool)>)>, key: Seq<Seq<char>>)
    requires
        forall|m: int| 0 <= m < files.len() ==> files[m].0 != key,
    ensures
        key_index(files, key) is None,
    decreases files.len(),
{
    if files.len() > 0 {
        lemma_key_index_absent(files.drop_last(), key);
    }
}

proof fn lemma_line_position(bps: Seq<(Seq<char>, u32, bool)>, line: u32)
    ensures
        line_position(bps, line) matches Some(i) ==> 0 <= i < bps.len() && bps[i].1 == line
            && forall|m: int| 0 <= m < i ==> bps[m].1 != line,
        line_position(bps, line) is None ==> forall|m: int| 0 <= m < bps.len() ==> bps[m].1 != line,
    decreases bps.len(),
{
    if bps.len() > 0 {
        let d = bps.drop_last();
        lemma_line_position(d, line);
        assert(bps.last() == bps[bps.len() - 1]);
        match line_position(d, line) {
            Some(i) => {
                assert(line_position(bps, line) == Some(i));
                assert(d[i] == bps[i]);
                assert forall|m: int| 0 <= m < i implies bps[m].1 != line by {
                    assert(d[m] == bps[m]);
                }
            },
            None => {
                assert forall|m: int| 0 <= m < bps.len() - 1 implies bps[m].1 != line by {
                    assert(d[m] == bps[m]);
                }
            },
        }
    }
}

proof fn lemma_line_position_first(bps: Seq<(Seq<char>, u32, bool)>, line: u32, i: int)
    requires
        0 <= i < bps.len(),
        bps[i].1 == line,
        forall|m: int| 0 <= m < i ==> bps[m].1 != line,
    ensures
        line_position(bps, line) == Some(i),
    decreases bps.len(),
{
    lemma_line_position(bps, line);
    if i < bps.len() - 1 {
        lemma_line_position_first(bps.drop_last(), line, i);
    } else {
        lemma_line_position(bps.drop_last(), line);
    }
}

/// Clicking a line of a file turns its breakpoint there on or off: after
/// the click the file has a breakpoint on that line exactly when it had
/// none before, and its other lines are as they were.
pub proof fn lemma_toggle_flips(bps: Seq<(Seq<char>, u32, bool)>, file: Seq<char>, line: u32, other: u32)
    requires
        lines_distinct(bps),
    ensures
        lines_distinct(toggled(bps, file, line)),
        (exists|k: int| 0 <= k < toggled(bps, file, line).len() && toggled(bps, file, line)[k].1 == line)
            <==> !(exists|k: int| 0 <= k < bps.len() && bps[k].1 == line),
        other != line ==> ((exists|k: int| 0 <= k < toggled(bps, file, line).len() && toggled(bps, file, line)[k].1 == other)
            <==> (exists|k: int| 0 <= k < bps.len() && bps[k].1 == other)),
{
    lemma_line_position(bps, line);
    let t = toggled(bps, file, line);
    match line_position(bps, line) {
        Some(i) => {
            assert(bps.remove(i) == t);
            assert forall|a: int, b: int| 0 <= a < b < t.len() implies (#[trigger] t[a]).1 != (#[trigger] t[b]).1 by {
                let a2 = if a < i { a } else { a + 1 };
                let b2 = if b < i { b } else { b + 1 };
                assert(t[a] == bps[a2]);
                assert(t[b] == bps[b2]);
                assert(bps[a2].1 != bps[b2].1);
            }
            assert(exists|k: int| 0 <= k < bps.len() && bps[k].1 == line);
            if exists|k: int| 0 <= k < t.len() && t[k].1 == line {
                let k = choose|k: int| 0 <= k < t.len() && t[k].1 == line;
                let k2 = if k < i { k } else { k + 1 };
                assert(t[k] == bps[k2]);
                assert(bps[k2].1 == bps[i].1);
            }
            if other != line {
                if exists|k: int| 0 <= k < bps.len() && bps[k].1 == other {
                    let k = choose|k: int| 0 <= k < bps.len() && bps[k].1 == other;
                    assert(k != i);
                    let k2 = if k < i { k } else { k - 1 };
                    assert(t[k2] == bps[k]);
                }
                if exists|k: int| 0 <= k < t.len() && t[k].1 == other {
                    let k = choose|k: int| 0 <= k < t.len() && t[k].1 == other;
                    let k2 = if k < i { k } else { k + 1 };
                    assert(t[k] == bps[k2]);
                }
            }
        },
        None => {
            assert(t == bps.push((file, line, true)));
            assert forall|a: int, b: int| 0 <= a < b < t.len() implies (#[trigger] t[a]).1 != (#[trigger] t[b]).1 by {
                if b == bps.len() {
                    assert(t[a] == bps[a]);
                } else {
                    assert(t[a] == bps[a]);
                    assert(t[b] == bps[b]);
                }
            }
            assert(t[bps.len() as int].1 == line);
            if other != line {
                if exists|k: int| 0 <= k < bps.len() && bps[k].1 == other {
                    let k = choose|k: int| 0 <= k < bps.len() && bps[k].1 == other;
                    assert(t[k] == bps[k]);
                }
                if exists|k: int| 0 <= k < t.len() && t[k].1 == other {
                    let k = choose|k: int| 0 <= k < t.len() && t[k].1 == other;
                    assert(k < bps.len());
                    assert(t[k] == bps[k]);
                }
            }
        },
    }
}

fn same_components(a: &Vec<String>, b: &Vec<String>) -> (r: bool)
    ensures
        r == (a@.map_values(|s: String| s@) == b@.map_values(|s: String| s@)),
{
    let ghost av = a@.map_values(|s: String| s@);
    let ghost bv = b@.map_values(|s: String| s@);
    if a.len() != b.len() {
        assert(av.len() != bv.len());
        return false;
    }
    let mut i: usize = 0;
    while i < a.len()
        invariant
            a@.len() == b@.len(),
            av == a@.map_values(|s: String| s@),
            bv == b@.map_values(|s: String| s@),
            i <= a@.len(),
            forall|m: int| 0 <= m < i ==> av[m] == bv[m],
        decreases a.len() - i,
    {
        if !crate::text::str_eq(a[i].as_str(), b[i].as_str()) {
            assert(av[i as int] != bv[i as int]);
            return false;
        }
        i = i + 1;
    }
    assert(av =~= bv);
    true
}

fn toggle_in(bps: &mut Vec<Breakpoint>, file_path: String, line: u32)
    ensures
        final(bps)@.map_values(|b: Breakpoint| bp_view(b)) == toggled(old(bps)@.map_values(|b: Breakpoint| bp_view(b)), file_path@, line),
{
    let ghost bv = bps@.map_values(|b: Breakpoint| bp_view(b));
    let mut i: usize = 0;
    while i < bps.len()
        invariant
            bv == bps@.map_values(|b: Breakpoint| bp_view(b)),
            bps@ == old(bps)@,
            i <= bv.len(),
            forall|m: int| 0 <= m < i ==> bv[m].1 != line,
        decreases bps.len() - i,
    {
        if bps[i].line == line {
            proof {
                lemma_line_position_first(bv, line, i as int);
            }
            bps.remove(i);
            assert(bps@.map_values(|b: Breakpoint| bp_view(b)) =~= bv.remove(i as int));
            return;
        }
        i = i + 1;
    }
    proof {
        lemma_line_position(bv, line);
        if line_position(bv, line) is Some {
            let k = line_position(bv, line)->0;
            assert(bv[k].1 == line);
        }
    }
    let ghost fp = file_path@;
    bps.push(Breakpoint { file_path, line, enabled: true });
    assert(bps@.map_values(|b: Breakpoint| bp_view(b)) =~= bv.push((fp, line, true)));
}

proof fn lemma_key_index_same_keys(
    a: Seq<(Seq<Seq<char>>, Seq<(Seq<char>, u32, bool)>)>,
    b: Seq<(Seq<Seq<char>>, Seq<(Seq<char>, u32, bool)>)>,
    key: Seq<Seq<char>>,
)
    requires
        a.len() == b.len(),
        forall|m: int| 0 <= m < a.len() ==> #[trigger] a[m].0 == b[m].0,
    ensures
        key_index(a, key) == key_index(b, key),
    decreases a.len(),
{
    if a.len() > 0 {
        let da = a.drop_last();
        let db = b.drop_last();
        assert forall|m: int| 0 <= m < da.len() implies #[trigger] da[m].0 == db[m].0 by {
            assert(da[m] == a[m]);
            assert(db[m] == b[m]);
        }
        lemma_key_index_same_keys(da, db, key);
        assert(a.last().0 == b.last().0);
    }
}

/// Clicking a line of a file changes that file's breakpoints as `toggled`
/// says, and no other file's.
pub proof fn lemma_toggle_changes_one_file(
    files: Seq<(Seq<Seq<char>>, Seq<(Seq<char>, u32, bool)>)>,
    key: Seq<Seq<char>>,
    file: Seq<char>,
    line: u32,
    other: Seq<Seq<char>>,
)
    ensures
        breakpoints_for(after_toggle(files, key, file, line), key) == toggled(breakpoints_for(files, key), file, line),
        other != key ==> breakpoints_for(after_toggle(files, key, file, line), other) == breakpoints_for(files, other),
{
    let t = after_toggle(files, key, file, line);
    lemma_key_index_bounds(files, key);
    match key_index(files, key) {
        Some(i) => {
            assert forall|m: int| 0 <= m < files.len() implies #[trigger] files[m].0 == t[m].0 by {}
            lemma_key_index_same_keys(files, t, key);
            lemma_key_index_same_keys(files, t, other);
            lemma_key_index_bounds(files, other);
            if other != key {
                if let Some(j) = key_index(files, other) {
                    assert(j != i);
                    assert(t[j] == files[j]);
                }
            }
        },
        None => {
            assert(t.drop_last() =~= files);
            assert(key_index(t, key) == Some(files.len() as int));
            assert(toggled(Seq::empty(), file, line) =~= seq![(file, line, true)]);
            if other != key {
                assert(key_index(t, other) == key_index(files, other));
                lemma_key_index_bounds(files, other);
                if let Some(j) = key_index(files, other) {
                    assert(t[j] == files[j]);
                }
            }
        },
    }
}

impl BreakpointManager {
    /// The files with their breakpoints, as (path components, breakpoints),
    /// in the order the files got their first breakpoint.
    pub closed spec fn files(&self) -> Seq<(Seq<Seq<char>>, Seq<(Seq<char>, u32, bool)>)> {
        self.files@.map_values(|f: (Vec<String>, Vec<Breakpoint>)| (
            f.0@.map_values(|s: String| s@),
            f.1@.map_values(|b: Breakpoint| bp_view(b)),
        ))
    }

    /// No file has two breakpoints on one line.
    pub open spec fn wf(&self) -> bool {
        forall|i: int| 0 <= i < self.files().len() ==> lines_distinct(#[trigger] self.files()[i].1)
    }

    /// The breakpoints of the file at `path`.
    pub open spec fn breakpoints_at(&self, path: Seq<char>) -> Seq<(Seq<char>, u32, bool)> {
        breakpoints_for(self.files(), spec_path_components(path))
    }

    /// No breakpoints.
    pub fn new() -> (r: Self)
        ensures
            r.files().len() == 0,
            r.wf(),
    {
        let r = BreakpointManager { files: Vec::new() };
        assert(r.files() =~= Seq::empty());
        r
    }

    fn find_file(&self, key: &Vec<String>) -> (r: Option<usize>)
        ensures
            match r {
                Some(i) => key_index(self.files(), key@.map_values(|s: String| s@)) == Some(i as int),
                None => key_index(self.files(), key@.map_values(|s: String| s@)) is None,
            },
    {
        let ghost kv = key@.map_values(|s: String| s@);
        let ghost fv = self.files();
        let mut i: usize = 0;
        while i < self.files.len()
            invariant
                fv == self.files(),
                kv == key@.map_values(|s: String| s@),
                i <= fv.len(),
                forall|m: int| 0 <= m < i ==> fv[m].0 != kv,
            decreases self.files.len() - i,
        {
            if same_components(&self.files[i].0, key) {
                proof {
                    lemma_key_index_first(fv, kv, i as int);
                }
                return Some(i);
            }
            i = i + 1;
        }
        proof {
            lemma_key_index_absent(fv, kv);
        }
        None
    }

    /// Click on `line` of `file_path`: its breakpoint there is removed, or
    /// an enabled one is added at the end of the file's breakpoints (see
    /// `toggled`). Files are found by their path components.
    pub fn toggle_breakpoint(&mut self, file_path: String, line: u32)
        ensures
            final(self).files() == after_toggle(old(self).files(), spec_path_components(file_path@), file_path@, line),
            old(self).wf() ==> final(self).wf(),
    {
        let key = path_components(file_path.as_str());
        let ghost fv = self.files();
        let ghost kv = key@.map_values(|s: String| s@);
        let ghost fp = file_path@;
        match self.find_file(&key) {
            Some(i) => {
                proof {
                    lemma_key_index_bounds(fv, kv);
                }
                let (k, mut bps) = self.files.remove(i);
                let ghost bv = bps@.map_values(|b: Breakpoint| bp_view(b));
                assert(bv == fv[i as int].1);
                toggle_in(&mut bps, file_path, line);
                self.files.insert(i, (k, bps));
                proof {
                    let nv = self.files();
                    assert(nv =~= fv.update(i as int, (fv[i as int].0, toggled(fv[i as int].1, fp, line))));
                    if forall|m: int| 0 <= m < fv.len() ==> lines_distinct(#[trigger] fv[m].1) {
                        lemma_toggle_flips(fv[i as int].1, fp, line, line);
                        assert forall|m: int| 0 <= m < nv.len() implies lines_distinct(#[trigger] nv[m].1) by {
                            if m != i {
                                assert(nv[m] == fv[m]);
                            }
                        }
                    }
                }
            },
            None => {
                let mut bps: Vec<Breakpoint> = Vec::new();
                bps.push(Breakpoint { file_path, line, enabled: true });
                assert(bps@.map_values(|b: Breakpoint| bp_view(b)) =~= seq![(fp, line, true)]);
                self.files.push((key, bps));
                proof {
                    let nv = self.files();
                    assert(nv =~= fv.push((kv, seq![(fp, line, true)])));
                    assert(lines_distinct(seq![(fp, line, true)]));
                    assert forall|m: int| 0 <= m < nv.len() && (forall|q: int| 0 <= q < fv.len() ==> lines_distinct(#[trigger] fv[q].1))
                        implies lines_distinct(#[trigger] nv[m].1) by {
                        if m < fv.len() {
                            assert(nv[m] == fv[m]);
                        }
                    }
                }
            },
        }
    }

    /// Every breakpoint, file after file (see `all_breakpoints`).
    pub fn get_breakpoints(&self) -> (r: Vec<Breakpoint>)
        ensures
            r@.map_values(|b: Breakpoint| bp_view(b)) == all_breakpoints(self.files()),
    {
        let ghost fv = self.files();
        let mut r: Vec<Breakpoint> = Vec::new();
        let mut i: usize = 0;
        while i < self.files.len()
            invariant
                fv == self.files(),
                i <= fv.len(),
                r@.map_values(|b: Breakpoint| bp_view(b)) == all_breakpoints(fv.take(i as int)),
            decreases self.files.len() - i,
        {
            let ghost before = r@.map_values(|b: Breakpoint| bp_view(b));
            let bps = &self.files[i].1;
            let mut j: usize = 0;
            while j < bps.len()
                invariant
                    j <= bps@.len(),
                    r@.map_values(|b: Breakpoint| bp_view(b)) == before + bps@.take(j as int).map_values(|b: Breakpoint| bp_view(b)),
                decreases bps.len() - j,
            {
                let b = &bps[j];
                let path = b.file_path.clone();
                assert(path@ == b.file_path@);
                let ghost prev = r@.map_values(|b: Breakpoint| bp_view(b));
                r.push(Breakpoint { file_path: path, line: b.line, enabled: b.enabled });
                assert(r@.map_values(|b: Breakpoint| bp_view(b)) =~= prev.push(bp_view(bps@[j as int])));
                assert(bps@.take(j + 1).map_values(|b: Breakpoint| bp_view(b)) =~= bps@.take(j as int).map_values(|b: Breakpoint| bp_view(b)).push(bp_view(bps@[j as int])));
                assert(r@.map_values(|b: Breakpoint| bp_view(b)) =~= before + bps@.take(j + 1).map_values(|b: Breakpoint| bp_view(b)));
                j = j + 1;
            }
            assert(bps@.take(j as int) =~= bps@);
            assert(fv.take(i + 1).drop_last() =~= fv.take(i as int));
            assert(fv.take(i + 1).last() == fv[i as int]);
            i = i + 1;
        }
        assert(fv.take(i as int) =~= fv);
        r
    }
}

} // verus!
