//! Finding the Rust project around a path, and what the debugger can run in
//! it.

use vstd::prelude::*;
use crate::paths::{ancestor, path_answer, path_join, path_parent, spec_path_join, spec_path_parent};
use crate::text::{str_eq, string_from_chars, chars_of, string_of, concat};

verus! {

/// A Rust project: its root, manifest, name, target directory, the binaries
/// the debugger can run, and its workspace members.
#[derive(Debug)]
pub struct RustProject {
    pub root: String,
    pub cargo_toml: String,
    pub project_name: String,
    pub target_dir: String,
    pub binaries: Vec<RustBinary>,
    pub is_workspace: bool,
    pub workspace_members: Vec<String>,
}

/// A binary the debugger can run: its name, where the executable is (or
/// will be once built), its kind, and whether it is built.
#[derive(Debug)]
pub struct RustBinary {
    pub name: String,
    pub path: String,
    pub binary_type: BinaryType,
    pub is_built: bool,
}

/// The kind of a binary target.
#[derive(Debug, Clone, Copy, PartialEq, Eq, Structural)]
pub enum BinaryType {
    Binary,
    Example,
    Test,
    Benchmark,
}

impl BinaryType {
    /// The name shown for the kind.
    pub open spec fn spec_display(self) -> Seq<char> {
        match self {
            BinaryType::Binary => "Binary"@,
            BinaryType::Example => "Example"@,
            BinaryType::Test => "Test"@,
            BinaryType::Benchmark => "Benchmark"@,
        }
    }

    /// The name shown for the kind.
    pub fn to_display_string(&self) -> (r: String)
        ensures
            r@ == self.spec_display(),
    {
        match self {
            BinaryType::Binary => string_of("Binary"),
            BinaryType::Example => string_of("Example"),
            BinaryType::Test => string_of("Test"),
            BinaryType::Benchmark => string_of("Benchmark"),
        }
    }
}

/// What the existence test `manifest_exists` answered, on some call, for
/// the `Cargo.toml` of directory `dir` (the path `Path::join` makes of them).
pub open spec fn manifest_answer<F: Fn(&str) -> bool>(manifest_exists: F, dir: Seq<char>, present: bool) -> bool {
    path_answer(manifest_exists, spec_path_join(dir, "Cargo.toml"@), present)
}

/// The `j`-th directory up from `start` exists and its manifest was
/// reported absent.
pub open spec fn absent_at<F: Fn(&str) -> bool>(manifest_exists: F, start: Seq<char>, j: nat) -> bool {
    match ancestor(start, j) {
        Some(a) => manifest_answer(manifest_exists, a, false),
        None => false,
    }
}

/// `d` is the `k`-th directory up from `start` (see `ancestor`), its
/// manifest was found, and the manifests of the `k` directories before it
/// were not.
pub open spec fn root_found_at<F: Fn(&str) -> bool>(manifest_exists: F, start: Seq<char>, k: nat, d: Seq<char>) -> bool {
    &&& ancestor(start, k) == Some(d)
    &&& manifest_answer(manifest_exists, d, true)
    &&& forall|j: nat| j < k ==> #[trigger] absent_at(manifest_exists, start, j)
}

/// No directory from `start` upwards had its manifest found.
pub open spec fn no_root_above<F: Fn(&str) -> bool>(manifest_exists: F, start: Seq<char>) -> bool {
    forall|j: nat| (#[trigger] ancestor(start, j)) is Some ==> absent_at(manifest_exists, start, j)
}

/// Where the search for a project root starts: the directory of a file
/// (`None` when it has none), or the path itself.
pub open spec fn search_start(path: Seq<char>, path_is_file: bool) -> Option<Seq<char>> {
    if path_is_file {
        spec_path_parent(path)
    } else {
        Some(path)
    }
}

proof fn lemma_ancestor_none_after(p: Seq<char>, n: nat, m: nat)
    requires
        ancestor(p, n) is None,
        n <= m,
    ensures
        ancestor(p, m) is None,
    decreases m - n,
{
    if m > n {
        lemma_ancestor_none_after(p, n, (m - 1) as nat);
    }
}

/// The nearest directory, from `start` upwards (parent after parent), whose
/// `Cargo.toml` the existence test `manifest_exists` reports: the first one
/// reported present, or `None` when every one up to the root is reported
/// absent.
pub fn nearest_manifest_dir<F: Fn(&str) -> bool>(start: &str, manifest_exists: F) -> (r: Option<String>)
    requires
        forall|m: &str| manifest_exists.requires((m,)),
    ensures
        match r {
            Some(d) => exists|k: nat| #[trigger] root_found_at(manifest_exists, start@, k, d@),
            None => no_root_above(manifest_exists, start@),
        },
{
    let mut current = string_of(start);
    let ghost mut depth: nat = 0;
    proof {
        assert(ancestor(start@, 0) == Some(start@));
    }
    loop
        invariant
            forall|m: &str| manifest_exists.requires((m,)),
            ancestor(start@, depth) == Some(current@),
            forall|j: nat| j < depth ==> #[trigger] absent_at(manifest_exists, start@, j),
        decreases current@.len(),
    {
        let manifest = path_join(current.as_str(), "Cargo.toml");
        let m = manifest.as_str();
        let found = manifest_exists(m);
        proof {
            assert(manifest_answer(manifest_exists, current@, found));
        }
        if found {
            proof {
                assert(root_found_at(manifest_exists, start@, depth, current@));
            }
            let res = Some(current);
            assert(root_found_at(manifest_exists, start@, depth, res->0@));
            return res;
        }
        match path_parent(current.as_str()) {
            Some(p) => {
                proof {
                    assert(ancestor(start@, depth + 1) == spec_path_parent(current@));
                    assert forall|j: nat| j < depth + 1 implies #[trigger] absent_at(manifest_exists, start@, j) by {
                        if j == depth {
                            assert(ancestor(start@, j) == Some(current@));
                        }
                    }
                    depth = depth + 1;
                }
                current = p;
            },
            None => {
                proof {
                    assert(ancestor(start@, depth + 1) is None);
                    assert forall|j: nat| (#[trigger] ancestor(start@, j)) is Some implies absent_at(manifest_exists, start@, j) by {
                        if j > depth {
                            lemma_ancestor_none_after(start@, depth + 1, j);
                        } else if j == depth {
                            assert(ancestor(start@, j) == Some(current@));
                        }
                    }
                }
                return None;
            },
        }
    }
}

/// The root of the Rust project around `path`: the nearest directory, from
/// `path` itself (or, for a file, its directory) upwards, whose `Cargo.toml`
/// exists. `path_is_file` says whether `path` is a file, and
/// `manifest_exists` tests whether a manifest exists (the disk answers).
pub fn find_rust_project_root<F: Fn(&str) -> bool>(path: &str, path_is_file: bool, manifest_exists: F) -> (r: Option<String>)
    requires
        forall|m: &str| manifest_exists.requires((m,)),
    ensures
        match search_start(path@, path_is_file) {
            None => r is None,
            Some(st) => match r {
                Some(d) => exists|k: nat| #[trigger] root_found_at(manifest_exists, st, k, d@),
                None => no_root_above(manifest_exists, st),
            },
        },
{
    if path_is_file {
        match path_parent(path) {
            Some(p) => {
                let ghost f = manifest_exists;
                let r = nearest_manifest_dir(p.as_str(), manifest_exists);
                assert(search_start(path@, path_is_file) == Some(p@));
                let ghost st = search_start(path@, path_is_file)->0;
                assert(st == p@);
                assert(r is None ==> no_root_above(f, st));
                r
            },
            None => None,
        }
    } else {
        let ghost f = manifest_exists;
        let r = nearest_manifest_dir(path, manifest_exists);
        assert(search_start(path@, path_is_file) == Some(path@));
        let ghost st = search_start(path@, path_is_file)->0;
        assert(st == path@);
        assert(r is None ==> no_root_above(f, st));
        r
    }
}

/// Whether `path` is inside a Rust project: whether `find_rust_project_root`
/// finds a root above it.
pub fn is_rust_project<F: Fn(&str) -> bool>(path: &str, path_is_file: bool, manifest_exists: F) -> (r: bool)
    requires
        forall|m: &str| manifest_exists.requires((m,)),
    ensures
        match search_start(path@, path_is_file) {
            None => !r,
            Some(st) => {
                &&& r ==> exists|k: nat, d: Seq<char>| #[trigger] root_found_at(manifest_exists, st, k, d)
                &&& !r ==> no_root_above(manifest_exists, st)
            },
        },
{
    match find_rust_project_root(path, path_is_file, manifest_exists) {
        Some(_) => true,
        None => false,
    }
}

// ---------------------------------------------------------------------------
// Project information
// ---------------------------------------------------------------------------

/// What a Cargo manifest says, as read by the `toml` crate: the package
/// name (when it is a string), whether there is a `workspace` table, the
/// workspace members (each string member, `None` for others) when
/// `workspace.members` is an array, and the `name` of each `[[bin]]` entry
/// when `bin` is an array.
pub type ManifestFacts = (Option<String>, bool, Option<Vec<Option<String>>>, Option<Vec<Option<String>>>);

/// The view of optional strings.
pub open spec fn opt_strings_view(v: Seq<Option<String>>) -> Seq<Option<Seq<char>>> {
    v.map_values(|o: Option<String>| match o {
        Some(s) => Some(s@),
        None => None,
    })
}

/// The view of what a manifest says.
pub open spec fn facts_view(f: ManifestFacts) -> (Option<Seq<char>>, bool, Option<Seq<Option<Seq<char>>>>, Option<Seq<Option<Seq<char>>>>) {
    (
        match f.0 {
            Some(n) => Some(n@),
            None => None,
        },
        f.1,
        match f.2 {
            Some(m) => Some(opt_strings_view(m@)),
            None => None,
        },
        match f.3 {
            Some(b) => Some(opt_strings_view(b@)),
            None => None,
        },
    )
}

/// What `toml` reads from a manifest with this text (`None` when it is not
/// a TOML document); see `parse_manifest`.
pub uninterp spec fn spec_manifest_facts(content: Seq<char>) -> Option<(Option<Seq<char>>, bool, Option<Seq<Option<Seq<char>>>>, Option<Seq<Option<Seq<char>>>>)>;

/// Parses the text with `toml` (`str::parse::<toml::Table>`) and reads
/// `package.name`, the presence of `workspace`, `workspace.members` and the
/// names of the `bin` entries with `get`, `as_str` and `as_array`. The
/// result is named by `spec_manifest_facts`; TOML's grammar is not stated.
#[verifier::external_body]
fn parse_manifest(content: &str) -> (r: Option<ManifestFacts>)
    ensures
        match r {
            Some(f) => spec_manifest_facts(content@) == Some(facts_view(f)),
            None => spec_manifest_facts(content@) is None,
        },
{
    let doc: toml::Table = content.parse().ok()?;
    let s = |v: &toml::Value| v.as_str().map(String::from);
    let name = doc.get("package").and_then(|p| p.get("name")).and_then(s);
    let members = doc.get("workspace").and_then(|w| w.get("members")).and_then(|m| m.as_array());
    let bins = doc.get("bin").and_then(|b| b.as_array());
    Some((
        name,
        doc.get("workspace").is_some(),
        members.map(|a| a.iter().map(s).collect()),
        bins.map(|a| a.iter().map(|b| b.get("name").and_then(s)).collect()),
    ))
}

/// `-` replaced by `_`, as Cargo names executables.
pub open spec fn underscored(name: Seq<char>) -> Seq<char> {
    name.map_values(|c: char| if c == '-' { '_' } else { c })
}

fn underscore_name(name: &str) -> (r: String)
    ensures
        r@ == underscored(name@),
{
    let cs = chars_of(name);
    let mut out: Vec<char> = Vec::new();
    for i in 0..cs.len()
        invariant
            cs@ == name@,
            out@ == cs@.take(i as int).map_values(|c: char| if c == '-' { '_' } else { c }),
    {
        if cs[i] == '-' {
            out.push('_');
        } else {
            out.push(cs[i]);
        }
        assert(out@ =~= cs@.take(i + 1).map_values(|c: char| if c == '-' { '_' } else { c }));
    }
    assert(cs@.take(cs@.len() as int) =~= cs@);
    string_from_chars(&out)
}

/// The string members, in order.
pub open spec fn string_members(m: Seq<Option<Seq<char>>>) -> Seq<Seq<char>>
    decreases m.len(),
{
    if m.len() == 0 {
        Seq::empty()
    } else {
        let prev = string_members(m.drop_last());
        match m.last() {
            Some(s) => prev.push(s),
            None => prev,
        }
    }
}

/// The `[[bin]]` targets other than the package's own, as (name, path,
/// kind), in order.
pub open spec fn extra_bins(bins: Seq<Option<Seq<char>>>, project_name: Seq<char>, debug_dir: Seq<char>) -> Seq<(Seq<char>, Seq<char>, BinaryType)>
    decreases bins.len(),
{
    if bins.len() == 0 {
        Seq::empty()
    } else {
        let prev = extra_bins(bins.drop_last(), project_name, debug_dir);
        match bins.last() {
            Some(n) => if n != project_name {
                prev.push((n, spec_path_join(debug_dir, underscored(n)), BinaryType::Binary))
            } else {
                prev
            },
            None => prev,
        }
    }
}

/// The examples, as (name, path, kind), in order.
pub open spec fn example_bins(examples: Seq<Seq<char>>, debug_dir: Seq<char>) -> Seq<(Seq<char>, Seq<char>, BinaryType)> {
    examples.map_values(|e: Seq<char>| (e, spec_path_join(spec_path_join(debug_dir, "examples"@), e), BinaryType::Example))
}

/// The binaries of a project, as (name, path, kind): the package's debug
/// binary (built or not), its release binary when one was found, the other
/// `[[bin]]` targets, and the examples when the examples directory exists.
pub open spec fn planned_binaries(
    root: Seq<char>,
    name: Seq<char>,
    bins: Seq<Option<Seq<char>>>,
    examples: Seq<Seq<char>>,
    with_release: bool,
    with_examples: bool,
) -> Seq<(Seq<char>, Seq<char>, BinaryType)> {
    let target = spec_path_join(root, "target"@);
    let debug_dir = spec_path_join(target, "debug"@);
    let release_dir = spec_path_join(target, "release"@);
    let main = seq![(name, spec_path_join(debug_dir, underscored(name)), BinaryType::Binary)];
    let release = if with_release {
        seq![(name + " (release)"@, spec_path_join(release_dir, underscored(name)), BinaryType::Binary)]
    } else {
        Seq::empty()
    };
    main + release + extra_bins(bins, name, debug_dir) + if with_examples {
        example_bins(examples, debug_dir)
    } else {
        Seq::empty()
    }
}

/// The `[[bin]]` names, none when `bin` is not an array.
pub open spec fn bins_of(b: Option<Seq<Option<Seq<char>>>>) -> Seq<Option<Seq<char>>> {
    match b {
        Some(v) => v,
        None => Seq::empty(),
    }
}

/// The views of a list of names.
pub open spec fn names_view(v: Seq<String>) -> Seq<Seq<char>> {
    v.map_values(|e: String| e@)
}

/// The binaries follow the plan of `planned_binaries` that the disk's
/// answers select (whether the release binary and the examples directory
/// exist), and each is marked built as the disk answered for its path.
pub open spec fn binaries_as_answered<F: Fn(&str) -> bool>(
    path_exists: F,
    bs: Seq<RustBinary>,
    root: Seq<char>,
    name: Seq<char>,
    bins: Seq<Option<Seq<char>>>,
    examples: Seq<Seq<char>>,
) -> bool {
    let release = spec_path_join(spec_path_join(spec_path_join(root, "target"@), "release"@), underscored(name));
    &&& exists|wr: bool, we: bool| {
        &&& binaries_view(bs) == #[trigger] planned_binaries(root, name, bins, examples, wr, we)
        &&& path_answer(path_exists, release, wr)
        &&& path_answer(path_exists, spec_path_join(root, "examples"@), we)
    }
    &&& forall|i: int| 0 <= i < bs.len() ==> path_answer(path_exists, (#[trigger] bs[i]).path@, bs[i].is_built)
}

/// The view of binaries as (name, path, kind).
pub open spec fn binaries_view(v: Seq<RustBinary>) -> Seq<(Seq<char>, Seq<char>, BinaryType)> {
    v.map_values(|b: RustBinary| (b.name@, b.path@, b.binary_type))
}

fn push_binary(v: &mut Vec<RustBinary>, name: String, path: String, binary_type: BinaryType, is_built: bool)
    ensures
        binaries_view(final(v)@) == binaries_view(old(v)@).push((name@, path@, binary_type)),
        final(v)@.len() == old(v)@.len() + 1,
        forall|k: int| 0 <= k < old(v)@.len() ==> #[trigger] final(v)@[k] == old(v)@[k],
        final(v)@.last().path@ == path@,
        final(v)@.last().is_built == is_built,
{
    let ghost before = binaries_view(v@);
    let ghost p = path@;
    v.push(RustBinary { name, path, binary_type, is_built });
    assert(binaries_view(v@) =~= before.push((name@, p, binary_type)));
}

/// Information about the project at `project_root` given what its manifest
/// says (`facts`, as `parse_manifest` reads them) and the names of the `.rs`
/// files in its `examples` directory. Which binaries are built, whether a
/// release build and the examples directory exist, is read from the disk:
/// `path_exists` answers whether a path exists on the disk (see
/// `binaries_as_answered`).
pub fn project_from_facts<F: Fn(&str) -> bool>(
    project_root: &str,
    facts: ManifestFacts,
    examples: &Vec<String>,
    path_exists: F,
) -> (p: RustProject)
    requires
        forall|m: &str| path_exists.requires((m,)),
    ensures
        ({
            let f = facts_view(facts);
            let name = match f.0 {
                Some(n) => n,
                None => "unknown"@,
            };
            &&& p.root@ == project_root@
            &&& p.cargo_toml@ == spec_path_join(project_root@, "Cargo.toml"@)
            &&& p.project_name@ == name
            &&& p.target_dir@ == spec_path_join(project_root@, "target"@)
            &&& p.is_workspace == f.1
            &&& p.workspace_members@.map_values(|m: String| m@) == (if f.1 {
                match f.2 {
                    Some(m) => string_members(m),
                    None => Seq::empty(),
                }
            } else {
                Seq::empty()
            })
            &&& binaries_as_answered(path_exists, p.binaries@, project_root@, name, bins_of(f.3), names_view(examples@))
        }),
{
    let cargo_toml = path_join(project_root, "Cargo.toml");
    let ghost fv = facts_view(facts);
    let (name_opt, is_workspace, members_opt, bins_opt) = facts;
    let project_name = match name_opt {
        Some(n) => n,
        None => string_of("unknown"),
    };
    let mut workspace_members: Vec<String> = Vec::new();
    if is_workspace {
        match &members_opt {
            Some(m) => {
                let ghost mv = opt_strings_view(m@);
                for i in 0..m.len()
                    invariant
                        mv == opt_strings_view(m@),
                        workspace_members@.map_values(|x: String| x@) == string_members(mv.take(i as int)),
                {
                    proof {
                        assert(mv.take(i + 1).drop_last() =~= mv.take(i as int));
                    }
                    match &m[i] {
                        Some(s) => {
                            let ghost before = workspace_members@.map_values(|x: String| x@);
                            workspace_members.push(string_of(s.as_str()));
                            assert(workspace_members@.map_values(|x: String| x@) =~= before.push(s@));
                        },
                        None => {},
                    }
                }
                proof {
                    assert(mv.take(mv.len() as int) =~= mv);
                }
            },
            None => {
                assert(workspace_members@.map_values(|x: String| x@) =~= Seq::<Seq<char>>::empty());
            },
        }
    } else {
        assert(workspace_members@.map_values(|x: String| x@) =~= Seq::<Seq<char>>::empty());
    }
    let target_dir = path_join(project_root, "target");
    let debug_dir = path_join(target_dir.as_str(), "debug");
    let release_dir = path_join(target_dir.as_str(), "release");
    let main_name = underscore_name(project_name.as_str());
    let mut binaries: Vec<RustBinary> = Vec::new();
    let debug_binary = path_join(debug_dir.as_str(), main_name.as_str());
    let built = path_exists(debug_binary.as_str());
    assert(path_answer(path_exists, debug_binary@, built));
    push_binary(&mut binaries, string_of(project_name.as_str()), debug_binary, BinaryType::Binary, built);
    let release_binary = path_join(release_dir.as_str(), main_name.as_str());
    let with_release = path_exists(release_binary.as_str());
    assert(path_answer(path_exists, release_binary@, with_release));
    if with_release {
        push_binary(&mut binaries, concat(project_name.as_str(), " (release)"), release_binary, BinaryType::Binary, true);
    }
    assert(forall|k: int| 0 <= k < binaries@.len() ==> path_answer(path_exists, (#[trigger] binaries@[k]).path@, binaries@[k].is_built));
    let ghost bins_v: Seq<Option<Seq<char>>> = match &bins_opt {
        Some(b) => opt_strings_view(b@),
        None => Seq::empty(),
    };
    let ghost head = binaries_view(binaries@);
    match &bins_opt {
        Some(b) => {
            for i in 0..b.len()
                invariant
                    bins_v == opt_strings_view(b@),
                    binaries_view(binaries@) == head + extra_bins(bins_v.take(i as int), project_name@, debug_dir@),
                    forall|m: &str| path_exists.requires((m,)),
                    forall|k: int| 0 <= k < binaries@.len() ==> path_answer(path_exists, (#[trigger] binaries@[k]).path@, binaries@[k].is_built),
            {
                proof {
                    assert(bins_v.take(i + 1).drop_last() =~= bins_v.take(i as int));
                }
                match &b[i] {
                    Some(n) => {
                        if !str_eq(n.as_str(), project_name.as_str()) {
                            let bin_name = underscore_name(n.as_str());
                            let debug_path = path_join(debug_dir.as_str(), bin_name.as_str());
                            let exists = path_exists(debug_path.as_str());
                            assert(path_answer(path_exists, debug_path@, exists));
                            push_binary(&mut binaries, string_of(n.as_str()), debug_path, BinaryType::Binary, exists);
                        }
                    },
                    None => {},
                }
            }
            proof {
                assert(bins_v.take(bins_v.len() as int) =~= bins_v);
            }
        },
        None => {
            assert(binaries_view(binaries@) =~= head + extra_bins(bins_v, project_name@, debug_dir@));
        },
    }
    let ghost mid = binaries_view(binaries@);

    let examples_dir = path_join(project_root, "examples");
    let with_examples = path_exists(examples_dir.as_str());
    assert(path_answer(path_exists, examples_dir@, with_examples));
    if with_examples {
        let ex_dir = path_join(debug_dir.as_str(), "examples");
        for i in 0..examples.len()
            invariant
                ex_dir@ == spec_path_join(debug_dir@, "examples"@),
                binaries_view(binaries@) == mid + example_bins(examples@.map_values(|e: String| e@).take(i as int), debug_dir@),
                forall|m: &str| path_exists.requires((m,)),
                forall|k: int| 0 <= k < binaries@.len() ==> path_answer(path_exists, (#[trigger] binaries@[k]).path@, binaries@[k].is_built),
        {
            let ghost before = binaries_view(binaries@);
            let example_binary = path_join(ex_dir.as_str(), examples[i].as_str());
            let exists = path_exists(example_binary.as_str());
            assert(path_answer(path_exists, example_binary@, exists));
            push_binary(&mut binaries, string_of(examples[i].as_str()), example_binary, BinaryType::Example, exists);
            assert(example_bins(examples@.map_values(|e: String| e@).take(i + 1), debug_dir@) =~= example_bins(
                examples@.map_values(|e: String| e@).take(i as int),
                debug_dir@,
            ).push((examples@[i as int]@, spec_path_join(spec_path_join(debug_dir@, "examples"@), examples@[i as int]@), BinaryType::Example)));
            assert(binaries_view(binaries@) =~= mid + example_bins(examples@.map_values(|e: String| e@).take(i + 1), debug_dir@));
        }
        assert(examples@.map_values(|e: String| e@).take(examples@.len() as int) =~= examples@.map_values(|e: String| e@));
    } else {
        assert(binaries_view(binaries@) =~= mid + Seq::<(Seq<char>, Seq<char>, BinaryType)>::empty());
    }
    let ghost nm = project_name@;
    let ghost bv = match fv.3 {
        Some(b) => b,
        None => Seq::empty(),
    };
    assert(bv == bins_v);
    assert(binaries_view(binaries@) =~= planned_binaries(project_root@, nm, bv, names_view(examples@), with_release, with_examples));
    assert(binaries_as_answered(path_exists, binaries@, project_root@, nm, bins_of(fv.3), names_view(examples@)));
    RustProject {
        root: string_of(project_root),
        cargo_toml,
        project_name,
        target_dir,
        binaries,
        is_workspace,
        workspace_members,
    }
}

/// Information about the project at `project_root`, given the text of its
/// `Cargo.toml` (`None` when there is none or it could not be read) and the
/// names of the `.rs` files in its `examples` directory: `None` exactly when
/// there is no manifest text or it is not TOML, else `project_from_facts`
/// of what the manifest says (with `path_exists` answering for the disk).
pub fn get_rust_project_info<F: Fn(&str) -> bool>(
    project_root: &str,
    cargo_content: Option<&str>,
    examples: &Vec<String>,
    path_exists: F,
) -> (r: Option<RustProject>)
    requires
        forall|m: &str| path_exists.requires((m,)),
    ensures
        r matches Some(p) ==> {
            &&& cargo_content matches Some(c) && spec_manifest_facts(c@) matches Some(f) && {
                let name = match f.0 {
                    Some(n) => n,
                    None => "unknown"@,
                };
                &&& p.root@ == project_root@
                &&& p.cargo_toml@ == spec_path_join(project_root@, "Cargo.toml"@)
                &&& p.project_name@ == name
                &&& p.target_dir@ == spec_path_join(project_root@, "target"@)
                &&& p.is_workspace == f.1
                &&& p.workspace_members@.map_values(|m: String| m@) == (if f.1 {
                    match f.2 {
                        Some(m) => string_members(m),
                        None => Seq::empty(),
                    }
                } else {
                    Seq::empty()
                })
                &&& binaries_as_answered(path_exists, p.binaries@, project_root@, name, bins_of(f.3), names_view(examples@))
            }
        },
        r is Some <==> (cargo_content matches Some(c) && spec_manifest_facts(c@) is Some),
{
    match cargo_content {
        Some(c) => match parse_manifest(c) {
            Some(facts) => Some(project_from_facts(project_root, facts, examples, path_exists)),
            None => None,
        },
        None => None,
    }
}

} // verus!
