//! The built-in Rust diagnostics extension: its manifest, its enabled state,
//! the decisions around opening Rust files in rust-analyzer (deferring
//! them while a session is being restored, and finding a file's workspace),
//! and the version numbers sent with each saved document.

use vstd::prelude::*;
use crate::extensions::{ExtensionContributions, ExtensionManifest, LinterContribution};
use crate::extensions::native::{
    builtin_manifest, enabled_state, load_enabled_state, opt_view, BuiltinExtension,
    NativeExtension, NativeRegistry,
};
use crate::paths::{has_rs_extension, path_parent, spec_path_extension, spec_path_parent};
use crate::debugger::rust_project::{nearest_manifest_dir, no_root_above, root_found_at};
use crate::text::{str_eq, string_of};

verus! {

/// The Rust diagnostics extension and whether it is enabled.
pub struct RustDiagnosticsExtension {
    pub enabled: bool,
}

impl RustDiagnosticsExtension {
    /// The extension, enabled as the state file's text says (enabled when
    /// the file is missing or silent about it).
    pub fn new(config: Option<&str>) -> (r: Self)
        ensures
            r.enabled == enabled_state(opt_view(config), "rust-diagnostics"@),
    {
        RustDiagnosticsExtension { enabled: load_enabled_state(config, "rust-diagnostics") }
    }
}

/// The contributions of the diagnostics extension: one linter, for `rs`
/// files, run natively (no script).
pub open spec fn is_rust_linter_contribution(c: ExtensionContributions) -> bool {
    &&& c.status_bar is None
    &&& c.css is None
    &&& c.keybindings@.len() == 0
    &&& c.commands@.len() == 0
    &&& c.context_menus is None
    &&& c.linters@.len() == 1
    &&& c.linters@[0].languages@.len() == 1
    &&& c.linters@[0].languages@[0]@ == "rs"@
    &&& c.linters@[0].script@.len() == 0
    &&& c.hooks is None
    &&& c.text_transforms@.len() == 0
    &&& c.sidebar_panels@.len() == 0
}

fn rust_linter_contribution() -> (r: ExtensionContributions)
    ensures
        is_rust_linter_contribution(r),
{
    let mut c = ExtensionContributions::default();
    let mut languages: Vec<String> = Vec::new();
    languages.push(string_of("rs"));
    let script = string_of("");
    proof {
        reveal_strlit("");
    }
    c.linters.push(LinterContribution { languages, script });
    c
}

impl NativeExtension for RustDiagnosticsExtension {
    open spec fn spec_id(&self) -> Seq<char> {
        "rust-diagnostics"@
    }

    open spec fn spec_enabled(&self) -> bool {
        self.enabled
    }

    fn id(&self) -> (r: &str) {
        "rust-diagnostics"
    }

    fn manifest(&self) -> (r: ExtensionManifest)
        ensures
            r.name@ == "Rust Diagnostics"@,
            r.version@ == "1.0.0"@,
            r.author@ == "Built-in"@,
            r.icon is None,
            r.is_native,
            is_rust_linter_contribution(r.contributions),
    {
        builtin_manifest(
            "rust-diagnostics",
            "Rust Diagnostics",
            "Real-time Rust diagnostics via rust-analyzer LSP. Provides error and warning underlines, a diagnostics panel, and status bar counts for Rust projects.",
            self.enabled,
            rust_linter_contribution(),
        )
    }

    fn is_enabled(&self) -> (r: bool) {
        self.enabled
    }

    fn set_enabled(&mut self, enabled: bool) {
        self.enabled = enabled;
    }
}

/// Register the Rust diagnostics extension, enabled as the state file's
/// text says.
pub fn register(registry: &mut NativeRegistry<BuiltinExtension>, config: Option<&str>)
    ensures
        final(registry).ids() == old(registry).ids().push("rust-diagnostics"@),
        final(registry).enabled() == old(registry).enabled().push(
            enabled_state(opt_view(config), "rust-diagnostics"@),
        ),
{
    registry.register(BuiltinExtension::RustDiagnostics(RustDiagnosticsExtension::new(config)));
}

/// Whether Rust diagnostics are enabled in this registry (enabled when the
/// extension was never registered).
pub fn is_enabled(registry: &NativeRegistry<BuiltinExtension>) -> (r: bool)
    ensures
        r == registry.enabled_of("rust-diagnostics"@),
{
    registry.is_enabled_by_id("rust-diagnostics")
}

// ---------------------------------------------------------------------------
// Deferred opening of Rust files
// ---------------------------------------------------------------------------

/// Whether opening Rust files in rust-analyzer is being deferred (while a
/// session is restored), and the files waiting, each once, in the order they
/// were opened.
pub struct RustLspOpens {
    defer: bool,
    pending: Vec<String>,
}

/// What to do with a file that was just opened.
#[derive(PartialEq, Eq, Structural)]
pub enum LspOpenAction {
    /// Nothing: the extension is disabled or the file is not Rust.
    Skip,
    /// The file waits for the end of the deferral.
    Queued,
    /// Open it in rust-analyzer now.
    Open,
}

impl RustLspOpens {
    /// Whether opening is deferred.
    pub closed spec fn deferring(&self) -> bool {
        self.defer
    }

    /// The files waiting.
    pub closed spec fn pending(&self) -> Seq<Seq<char>> {
        self.pending@.map_values(|p: String| p@)
    }

    /// Not deferring, nothing waiting.
    pub fn new() -> (r: Self)
        ensures
            !r.deferring(),
            r.pending() == Seq::<Seq<char>>::empty(),
            r.pending().no_duplicates(),
    {
        let r = RustLspOpens { defer: false, pending: Vec::new() };
        assert(r.pending() =~= Seq::<Seq<char>>::empty());
        r
    }

    /// Decide what to do with a file that was opened, queueing it (once)
    /// while opening is deferred.
    pub fn file_open_action(&mut self, enabled: bool, file_path: &str) -> (r: LspOpenAction)
        ensures
            final(self).deferring() == old(self).deferring(),
            old(self).pending().no_duplicates() ==> final(self).pending().no_duplicates(),
            !enabled || spec_path_extension(file_path@) != Some("rs"@) ==> {
                &&& r == LspOpenAction::Skip
                &&& final(self).pending() == old(self).pending()
            },
            enabled && spec_path_extension(file_path@) == Some("rs"@) && !old(self).deferring() ==> {
                &&& r == LspOpenAction::Open
                &&& final(self).pending() == old(self).pending()
            },
            enabled && spec_path_extension(file_path@) == Some("rs"@) && old(self).deferring() ==> {
                &&& r == LspOpenAction::Queued
                &&& final(self).pending() == if old(self).pending().contains(file_path@) {
                    old(self).pending()
                } else {
                    old(self).pending().push(file_path@)
                }
            },
    {
        if !enabled || !has_rs_extension(file_path) {
            return LspOpenAction::Skip;
        }
        if !self.defer {
            return LspOpenAction::Open;
        }
        let ghost before = self.pending();
        let mut i: usize = 0;
        while i < self.pending.len()
            invariant
                i <= self.pending@.len(),
                enabled,
                self.defer,
                spec_path_extension(file_path@) == Some("rs"@),
                before == old(self).pending(),
                before == self.pending@.map_values(|p: String| p@),
                forall|k: int| 0 <= k < i ==> before[k] != file_path@,
            decreases self.pending.len() - i,
        {
            if str_eq(self.pending[i].as_str(), file_path) {
                assert(before[i as int] == file_path@);
                return LspOpenAction::Queued;
            }
            i = i + 1;
        }
        proof {
            if before.contains(file_path@) {
                let w = choose|w: int| 0 <= w < before.len() && before[w] == file_path@;
                assert(false);
            }
        }
        self.pending.push(string_of(file_path));
        assert(self.pending() =~= before.push(file_path@));
        proof {
            if before.no_duplicates() {
                assert forall|a: int, b: int| 0 <= a < b < self.pending().len() implies self.pending()[a] != self.pending()[b] by {
                    if b == before.len() {
                        assert(before.contains(self.pending()[a]) || self.pending()[a] != file_path@);
                    }
                }
            }
        }
        LspOpenAction::Queued
    }

    /// The files to open now that the deferral is over; none when the
    /// extension is disabled. Either way the queue is emptied.
    pub fn flush_deferred_rust_lsp_opens(&mut self, enabled: bool) -> (r: Vec<String>)
        ensures
            final(self).deferring() == old(self).deferring(),
            final(self).pending() == Seq::<Seq<char>>::empty(),
            enabled ==> r@.map_values(|p: String| p@) == old(self).pending(),
            !enabled ==> r@.len() == 0,
    {
        let mut taken: Vec<String> = Vec::new();
        std::mem::swap(&mut taken, &mut self.pending);
        assert(self.pending() =~= Seq::<Seq<char>>::empty());
        if enabled {
            taken
        } else {
            Vec::new()
        }
    }
}

/// Start or stop deferring the opening of Rust files; the queue is kept.
pub fn set_defer_rust_lsp_opens(opens: &mut RustLspOpens, defer: bool)
    ensures
        final(opens).deferring() == defer,
        final(opens).pending() == old(opens).pending(),
{
    opens.defer = defer;
}

/// The workspace of a Rust file: the nearest directory, from the file's
/// directory upwards, whose `Cargo.toml` exists (`manifest_exists` tests
/// that; the disk answers), else the file's directory, or the path itself
/// when it has no parent.
pub fn find_workspace_root<F: Fn(&str) -> bool>(file_path: &str, manifest_exists: F) -> (r: String)
    requires
        forall|m: &str| manifest_exists.requires((m,)),
    ensures
        match spec_path_parent(file_path@) {
            None => r@ == file_path@,
            Some(dir) => {
                ||| exists|k: nat| #[trigger] root_found_at(manifest_exists, dir, k, r@)
                ||| no_root_above(manifest_exists, dir) && r@ == dir
            },
        },
{
    match path_parent(file_path) {
        None => string_of(file_path),
        Some(dir) => match nearest_manifest_dir(dir.as_str(), manifest_exists) {
            Some(root) => root,
            None => dir,
        },
    }
}

// ---------------------------------------------------------------------------
// Document versions sent to rust-analyzer
// ---------------------------------------------------------------------------

/// The version of the document `uri` in `entries`: the first entry for it.
pub open spec fn version_in(entries: Seq<(Seq<char>, i32)>, uri: Seq<char>) -> Option<i32>
    decreases entries.len(),
{
    if entries.len() == 0 {
        None
    } else if entries[0].0 == uri {
        Some(entries[0].1)
    } else {
        version_in(entries.drop_first(), uri)
    }
}

/// The version last sent to rust-analyzer for each document, by URI.
pub struct DocumentVersions {
    entries: Vec<(String, i32)>,
}

proof fn lemma_version_at(s: Seq<(Seq<char>, i32)>, k: int, uri: Seq<char>)
    requires
        0 <= k < s.len(),
        s[k].0 == uri,
        forall|m: int| 0 <= m < k ==> s[m].0 != uri,
    ensures
        version_in(s, uri) == Some(s[k].1),
    decreases k,
{
    if k > 0 {
        assert(s[0].0 != uri);
        lemma_version_at(s.drop_first(), k - 1, uri);
    }
}

proof fn lemma_version_absent(s: Seq<(Seq<char>, i32)>, uri: Seq<char>)
    requires
        forall|m: int| 0 <= m < s.len() ==> s[m].0 != uri,
    ensures
        version_in(s, uri) is None,
    decreases s.len(),
{
    if s.len() > 0 {
        assert(s[0].0 != uri);
        lemma_version_absent(s.drop_first(), uri);
    }
}

/// Replacing an entry of another document leaves the version of `u` as it is.
proof fn lemma_version_other_update(s: Seq<(Seq<char>, i32)>, k: int, e: (Seq<char>, i32), u: Seq<char>)
    requires
        0 <= k < s.len(),
        s[k].0 != u,
        e.0 != u,
    ensures
        version_in(s.update(k, e), u) == version_in(s, u),
    decreases k,
{
    let t = s.update(k, e);
    if k == 0 {
        assert(t.drop_first() =~= s.drop_first());
    } else {
        assert(t[0] == s[0]);
        assert(t.drop_first() =~= s.drop_first().update(k - 1, e));
        lemma_version_other_update(s.drop_first(), k - 1, e, u);
    }
}

/// Appending an entry of another document leaves the version of `u` as it is.
proof fn lemma_version_other_push(s: Seq<(Seq<char>, i32)>, e: (Seq<char>, i32), u: Seq<char>)
    requires
        e.0 != u,
    ensures
        version_in(s.push(e), u) == version_in(s, u),
    decreases s.len(),
{
    let t = s.push(e);
    if s.len() == 0 {
        assert(t.drop_first() =~= Seq::<(Seq<char>, i32)>::empty());
    } else {
        assert(t[0] == s[0]);
        assert(t.drop_first() =~= s.drop_first().push(e));
        lemma_version_other_push(s.drop_first(), e, u);
    }
}

impl DocumentVersions {
    /// The version of each document, `None` before its first save.
    pub closed spec fn version(&self, uri: Seq<char>) -> Option<i32> {
        version_in(self.entries@.map_values(|e: (String, i32)| (e.0@, e.1)), uri)
    }

    /// No document has a version.
    pub fn new() -> (r: Self)
        ensures
            forall|u: Seq<char>| #[trigger] r.version(u) is None,
    {
        let r = DocumentVersions { entries: Vec::new() };
        assert(r.entries@.map_values(|e: (String, i32)| (e.0@, e.1)) =~= Seq::<(Seq<char>, i32)>::empty());
        r
    }

    fn find(&self, uri: &str) -> (r: Option<usize>)
        ensures
            match r {
                Some(k) => k < self.entries@.len() && self.entries@[k as int].0@ == uri@
                    && forall|m: int| 0 <= m < k ==> self.entries@[m].0@ != uri@,
                None => forall|m: int| 0 <= m < self.entries@.len() ==> self.entries@[m].0@ != uri@,
            },
    {
        let mut i: usize = 0;
        while i < self.entries.len()
            invariant
                i <= self.entries@.len(),
                forall|m: int| 0 <= m < i ==> self.entries@[m].0@ != uri@,
            decreases self.entries.len() - i,
        {
            if str_eq(self.entries[i].0.as_str(), uri) {
                return Some(i);
            }
            i = i + 1;
        }
        None
    }

    /// The version last sent for `uri`.
    pub fn version_of(&self, uri: &str) -> (r: Option<i32>)
        ensures
            r == self.version(uri@),
    {
        let ghost ev = self.entries@.map_values(|e: (String, i32)| (e.0@, e.1));
        match self.find(uri) {
            Some(k) => {
                proof {
                    lemma_version_at(ev, k as int, uri@);
                }
                Some(self.entries[k].1)
            },
            None => {
                proof {
                    lemma_version_absent(ev, uri@);
                }
                None
            },
        }
    }

    /// The version to send with the next save of `uri`: one more than the
    /// last (the first save sends 1). Other documents keep theirs.
    pub fn next_version(&mut self, uri: &str) -> (r: i32)
        requires
            match old(self).version(uri@) {
                Some(v) => v < i32::MAX,
                None => true,
            },
        ensures
            r == match old(self).version(uri@) {
                Some(v) => v + 1,
                None => 1,
            },
            final(self).version(uri@) == Some(r),
            forall|u: Seq<char>| u != uri@ ==> #[trigger] final(self).version(u) == old(self).version(u),
    {
        let ghost ev = self.entries@.map_values(|e: (String, i32)| (e.0@, e.1));
        match self.find(uri) {
            Some(k) => {
                proof {
                    lemma_version_at(ev, k as int, uri@);
                }
                let v = self.entries[k].1 + 1;
                let key = self.entries[k].0.clone();
                self.entries.set(k, (key, v));
                proof {
                    let nv = self.entries@.map_values(|e: (String, i32)| (e.0@, e.1));
                    assert(nv =~= ev.update(k as int, (uri@, v)));
                    lemma_version_at(nv, k as int, uri@);
                    assert forall|u: Seq<char>| u != uri@ implies #[trigger] version_in(nv, u) == version_in(ev, u) by {
                        lemma_version_other_update(ev, k as int, (uri@, v), u);
                    }
                }
                v
            },
            None => {
                proof {
                    lemma_version_absent(ev, uri@);
                }
                self.entries.push((string_of(uri), 1));
                proof {
                    let nv = self.entries@.map_values(|e: (String, i32)| (e.0@, e.1));
                    assert(nv =~= ev.push((uri@, 1i32)));
                    lemma_version_at(nv, ev.len() as int, uri@);
                    assert forall|u: Seq<char>| u != uri@ implies #[trigger] version_in(nv, u) == version_in(ev, u) by {
                        lemma_version_other_push(ev, (uri@, 1i32), u);
                    }
                }
                1
            },
        }
    }

    /// Every version is forgotten (rust-analyzer was shut down).
    pub fn clear(&mut self)
        ensures
            forall|u: Seq<char>| #[trigger] final(self).version(u) is None,
    {
        self.entries = Vec::new();
        assert(self.entries@.map_values(|e: (String, i32)| (e.0@, e.1)) =~= Seq::<(Seq<char>, i32)>::empty());
    }
}

} // verus!
