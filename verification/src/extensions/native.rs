//! Built-in extensions: the trait they implement, the registry that holds
//! them, and the file that records which of them are enabled.

use vstd::prelude::*;
use crate::extensions::{ExtensionContributions, ExtensionManifest};
use crate::extensions::code_completion::CodeCompletionExtension;
use crate::extensions::rust_completion::RustCompletionExtension;
use crate::extensions::rust_diagnostics::RustDiagnosticsExtension;
use crate::paths::{home_dir, path_join, spec_path_join};
use crate::text::{str_eq, string_of};

verus! {

/// An extension compiled into the editor. It appears in the extension list
/// beside script extensions and can be enabled or disabled.
pub trait NativeExtension: Send + Sync {
    /// The extension id.
    spec fn spec_id(&self) -> Seq<char>;

    /// Whether the extension is enabled.
    spec fn spec_enabled(&self) -> bool;

    /// The extension id (matches its manifest's id).
    fn id(&self) -> (r: &str)
        ensures
            r@ == self.spec_id(),
    ;

    /// The manifest shown in the extension list; its id is the extension's
    /// id and its enabled flag the extension's state.
    fn manifest(&self) -> (r: ExtensionManifest)
        ensures
            r.id@ == self.spec_id(),
            r.enabled == self.spec_enabled(),
    ;

    /// Whether the extension is enabled.
    fn is_enabled(&self) -> (r: bool)
        ensures
            r == self.spec_enabled(),
    ;

    /// Enable or disable the extension.
    fn set_enabled(&mut self, enabled: bool)
        ensures
            final(self).spec_enabled() == enabled,
            final(self).spec_id() == old(self).spec_id(),
    ;

    /// Called when the application starts.
    fn on_app_start(&self) {
    }

    /// Called when a directory is opened in the explorer.
    fn on_directory_open(&self, dir: &str) {
    }

    /// Called when a file is opened in the editor.
    fn on_file_open(&self, file_path: &str) {
    }

    /// Called when a file is saved.
    fn on_file_save(&self, file_path: &str) {
    }

    /// Called when a file tab is closed.
    fn on_file_close(&self, file_path: &str) {
    }

    /// Called when the application shuts down.
    fn shutdown(&self) {
    }
}

/// The registered built-in extensions, in registration order.
pub struct NativeRegistry<E: NativeExtension> {
    extensions: Vec<E>,
}

impl<E: NativeExtension> NativeRegistry<E> {
    /// The ids of the registered extensions, in order.
    pub closed spec fn ids(&self) -> Seq<Seq<char>> {
        self.extensions@.map_values(|e: E| e.spec_id())
    }

    /// The registered extensions, in order.
    pub closed spec fn extensions(&self) -> Seq<E> {
        self.extensions@
    }

    /// Which registered extensions are enabled, in order.
    pub closed spec fn enabled(&self) -> Seq<bool> {
        self.extensions@.map_values(|e: E| e.spec_enabled())
    }

    /// An empty registry.
    pub fn new() -> (r: Self)
        ensures
            r.ids().len() == 0,
            r.enabled().len() == 0,
    {
        NativeRegistry { extensions: Vec::new() }
    }

    /// Register an extension; it goes last.
    pub fn register(&mut self, ext: E)
        ensures
            final(self).ids() == old(self).ids().push(ext.spec_id()),
            final(self).enabled() == old(self).enabled().push(ext.spec_enabled()),
    {
        let ghost e = ext;
        self.extensions.push(ext);
        assert(self.ids() =~= old(self).ids().push(e.spec_id()));
        assert(self.enabled() =~= old(self).enabled().push(e.spec_enabled()));
    }

    /// The number of registered extensions.
    pub fn len(&self) -> (r: usize)
        ensures
            r == self.ids().len(),
    {
        self.extensions.len()
    }

    /// The manifests of all registered extensions, in order: the `i`-th is
    /// what the `i`-th extension's `manifest` returns.
    pub fn get_native_manifests(&self) -> (r: Vec<ExtensionManifest>)
        ensures
            r@.len() == self.ids().len(),
            forall|i: int| 0 <= i < r@.len() ==> call_ensures(E::manifest, (&self.extensions()[i],), #[trigger] r@[i]),
            forall|i: int| 0 <= i < r@.len() ==> (#[trigger] r@[i]).id@ == self.ids()[i] && r@[i].enabled
                == self.enabled()[i],
    {
        let mut r: Vec<ExtensionManifest> = Vec::new();
        let manifest_of = E::manifest;
        for i in 0..self.extensions.len()
            invariant
                r@.len() == i,
                forall|k: int| 0 <= k < i ==> call_ensures(E::manifest, (&self.extensions()[k],), #[trigger] r@[k]),
                forall|k: int| 0 <= k < i ==> (#[trigger] r@[k]).id@ == self.ids()[k] && r@[k].enabled
                    == self.enabled()[k],
        {
            let m = manifest_of(&self.extensions[i]);
            r.push(m);
        }
        r
    }

    /// Whether an extension with this id is registered.
    pub fn is_native_extension(&self, id: &str) -> (r: bool)
        ensures
            r == self.ids().contains(id@),
    {
        let mut i: usize = 0;
        while i < self.extensions.len()
            invariant
                i <= self.extensions@.len(),
                forall|k: int| 0 <= k < i ==> self.ids()[k] != id@,
            decreases self.extensions.len() - i,
        {
            if str_eq(self.extensions[i].id(), id) {
                assert(self.ids()[i as int] == id@);
                return true;
            }
            i = i + 1;
        }
        proof {
            if self.ids().contains(id@) {
                let w = choose|w: int| 0 <= w < self.ids().len() && self.ids()[w] == id@;
                assert(false);
            }
        }
        false
    }

    /// Enable or disable the first extension with this id; nothing happens
    /// when none has it.
    pub fn set_native_enabled(&mut self, id: &str, enabled: bool)
        ensures
            final(self).ids() == old(self).ids(),
            match first_index_of(old(self).ids(), id@) {
                Some(k) => final(self).enabled() == old(self).enabled().update(k, enabled),
                None => final(self).enabled() == old(self).enabled(),
            },
            old(self).ids().contains(id@) ==> registry_state(final(self).ids(), final(self).enabled(), id@) == enabled,
            forall|x: Seq<char>| x != id@ ==> #[trigger] registry_state(final(self).ids(), final(self).enabled(), x)
                == registry_state(old(self).ids(), old(self).enabled(), x),
    {
        proof {
            lemma_first_index_from(old(self).ids(), id@, 0);
        }
        let ghost ids0 = self.ids();
        let ghost en0 = self.enabled();
        self.set_first_enabled(id, enabled);
        proof {
            lemma_set_then_enabled(ids0, en0, self.enabled(), id@, enabled);
        }
    }

    fn set_first_enabled(&mut self, id: &str, enabled: bool)
        ensures
            final(self).ids() == old(self).ids(),
            final(self).enabled().len() == old(self).enabled().len(),
            match first_index_of(old(self).ids(), id@) {
                Some(k) => final(self).enabled() == old(self).enabled().update(k, enabled),
                None => final(self).enabled() == old(self).enabled(),
            },
    {
        let mut i: usize = 0;
        while i < self.extensions.len()
            invariant
                i <= self.extensions@.len(),
                self.ids() == old(self).ids(),
                self.enabled() == old(self).enabled(),
                first_index_of(old(self).ids(), id@) == first_index_from_seq(old(self).ids(), id@, i as int),
            decreases self.extensions.len() - i,
        {
            if str_eq(self.extensions[i].id(), id) {
                assert(self.ids()[i as int] == id@);
                let ghost old_ids = self.ids();
                let ghost old_en = self.enabled();
                let mut ext = self.extensions.remove(i);
                ext.set_enabled(enabled);
                self.extensions.insert(i, ext);
                assert(self.ids() =~= old_ids);
                assert(self.enabled() =~= old_en.update(i as int, enabled));
                return;
            }
            i = i + 1;
        }
    }

    /// Call `on_app_start` on every enabled extension, in order.
    pub fn fire_on_app_start(&self) {
        for i in 0..self.extensions.len() {
            if self.extensions[i].is_enabled() {
                self.extensions[i].on_app_start();
            }
        }
    }

    /// Call `on_directory_open` on every enabled extension, in order.
    pub fn fire_on_directory_open(&self, dir: &str) {
        for i in 0..self.extensions.len() {
            if self.extensions[i].is_enabled() {
                self.extensions[i].on_directory_open(dir);
            }
        }
    }

    /// Call `on_file_open` on every enabled extension, in order.
    pub fn fire_on_file_open(&self, file_path: &str) {
        for i in 0..self.extensions.len() {
            if self.extensions[i].is_enabled() {
                self.extensions[i].on_file_open(file_path);
            }
        }
    }

    /// Call `on_file_save` on every enabled extension, in order.
    pub fn fire_on_file_save(&self, file_path: &str) {
        for i in 0..self.extensions.len() {
            if self.extensions[i].is_enabled() {
                self.extensions[i].on_file_save(file_path);
            }
        }
    }

    /// Call `on_file_close` on every enabled extension, in order.
    pub fn fire_on_file_close(&self, file_path: &str) {
        for i in 0..self.extensions.len() {
            if self.extensions[i].is_enabled() {
                self.extensions[i].on_file_close(file_path);
            }
        }
    }

    /// Call `shutdown` on every extension, enabled or not.
    pub fn shutdown_all(&self) {
        for i in 0..self.extensions.len() {
            self.extensions[i].shutdown();
        }
    }
}

impl<E: NativeExtension> NativeRegistry<E> {
    /// Whether the extension `id` is enabled according to the registry: the
    /// state of the first extension with that id, or enabled when none has it.
    pub open spec fn enabled_of(&self, id: Seq<char>) -> bool {
        registry_state(self.ids(), self.enabled(), id)
    }

    /// Whether the extension `id` is enabled (see `enabled_of`).
    pub fn is_enabled_by_id(&self, id: &str) -> (r: bool)
        ensures
            r == self.enabled_of(id@),
    {
        let mut i: usize = 0;
        while i < self.extensions.len()
            invariant
                i <= self.extensions@.len(),
                first_index_of(self.ids(), id@) == first_index_from_seq(self.ids(), id@, i as int),
            decreases self.extensions.len() - i,
        {
            if str_eq(self.extensions[i].id(), id) {
                return self.extensions[i].is_enabled();
            }
            i = i + 1;
        }
        true
    }
}

/// The manifest of a built-in extension: version 1.0.0, author "Built-in",
/// no icon, marked native.
pub fn builtin_manifest(
    id: &str,
    name: &str,
    description: &str,
    enabled: bool,
    contributions: ExtensionContributions,
) -> (r: ExtensionManifest)
    ensures
        r.id@ == id@,
        r.name@ == name@,
        r.version@ == "1.0.0"@,
        r.description@ == description@,
        r.author@ == "Built-in"@,
        r.enabled == enabled,
        r.icon is None,
        r.is_native,
        r.contributions == contributions,
{
    ExtensionManifest {
        id: string_of(id),
        name: string_of(name),
        version: string_of("1.0.0"),
        description: string_of(description),
        author: string_of("Built-in"),
        enabled,
        icon: None,
        is_native: true,
        contributions,
    }
}

/// The extensions built into the editor.
pub enum BuiltinExtension {
    CodeCompletion(CodeCompletionExtension),
    RustCompletion(RustCompletionExtension),
    RustDiagnostics(RustDiagnosticsExtension),
}

impl NativeExtension for BuiltinExtension {
    open spec fn spec_id(&self) -> Seq<char> {
        match self {
            BuiltinExtension::CodeCompletion(e) => e.spec_id(),
            BuiltinExtension::RustCompletion(e) => e.spec_id(),
            BuiltinExtension::RustDiagnostics(e) => e.spec_id(),
        }
    }

    open spec fn spec_enabled(&self) -> bool {
        match self {
            BuiltinExtension::CodeCompletion(e) => e.spec_enabled(),
            BuiltinExtension::RustCompletion(e) => e.spec_enabled(),
            BuiltinExtension::RustDiagnostics(e) => e.spec_enabled(),
        }
    }

    fn id(&self) -> (r: &str) {
        match self {
            BuiltinExtension::CodeCompletion(e) => e.id(),
            BuiltinExtension::RustCompletion(e) => e.id(),
            BuiltinExtension::RustDiagnostics(e) => e.id(),
        }
    }

    fn manifest(&self) -> (r: ExtensionManifest) {
        match self {
            BuiltinExtension::CodeCompletion(e) => e.manifest(),
            BuiltinExtension::RustCompletion(e) => e.manifest(),
            BuiltinExtension::RustDiagnostics(e) => e.manifest(),
        }
    }

    fn is_enabled(&self) -> (r: bool) {
        match self {
            BuiltinExtension::CodeCompletion(e) => e.is_enabled(),
            BuiltinExtension::RustCompletion(e) => e.is_enabled(),
            BuiltinExtension::RustDiagnostics(e) => e.is_enabled(),
        }
    }

    fn set_enabled(&mut self, enabled: bool) {
        match self {
            BuiltinExtension::CodeCompletion(e) => e.set_enabled(enabled),
            BuiltinExtension::RustCompletion(e) => e.set_enabled(enabled),
            BuiltinExtension::RustDiagnostics(e) => e.set_enabled(enabled),
        }
    }
}

/// The view of an optional string.
pub open spec fn opt_view(s: Option<&str>) -> Option<Seq<char>> {
    match s {
        Some(t) => Some(t@),
        None => None,
    }
}

/// A first occurrence found from `i` on is at or after `i`, within `s`,
/// and holds `x`.
pub proof fn lemma_first_index_from(s: Seq<Seq<char>>, x: Seq<char>, i: int)
    ensures
        first_index_from_seq(s, x, i) matches Some(j) ==> i <= j < s.len() && s[j] == x,
    decreases s.len() - i,
{
    if 0 <= i < s.len() && s[i] != x {
        lemma_first_index_from(s, x, i + 1);
    }
}

/// In a registry, switching an extension on or off by id is what its state
/// then reads: the extension has the new state, every other id keeps its
/// state, and no extension is added or removed.
pub proof fn lemma_set_then_enabled(
    ids: Seq<Seq<char>>,
    before: Seq<bool>,
    after: Seq<bool>,
    id: Seq<char>,
    enabled: bool,
)
    requires
        before.len() == ids.len(),
        match first_index_of(ids, id) {
            Some(k) => after == before.update(k, enabled),
            None => after == before,
        },
    ensures
        ids.contains(id) ==> registry_state(ids, after, id) == enabled,
        forall|x: Seq<char>| x != id ==> #[trigger] registry_state(ids, after, x) == registry_state(ids, before, x),
{
    lemma_first_index_from(ids, id, 0);
    if ids.contains(id) {
        let w = choose|w: int| 0 <= w < ids.len() && ids[w] == id;
        lemma_first_index_found_at(ids, id, 0, w);
    }
    assert forall|x: Seq<char>| x != id implies #[trigger] registry_state(ids, after, x) == registry_state(ids, before, x) by {
        lemma_first_index_from(ids, x, 0);
    }
}

proof fn lemma_first_index_found_at(s: Seq<Seq<char>>, x: Seq<char>, i: int, w: int)
    requires
        0 <= i <= w < s.len(),
        s[w] == x,
    ensures
        first_index_from_seq(s, x, i) is Some,
    decreases w - i,
{
    if s[i] != x {
        lemma_first_index_found_at(s, x, i + 1, w);
    }
}

/// The state of `id` given the ids and states of a registry: that of the
/// first extension with the id, or enabled when none has it.
pub open spec fn registry_state(ids: Seq<Seq<char>>, enabled: Seq<bool>, id: Seq<char>) -> bool {
    match first_index_of(ids, id) {
        Some(k) => enabled[k],
        None => true,
    }
}

/// Index of the first occurrence of `x` in `s` from `i` on.
pub open spec fn first_index_from_seq(s: Seq<Seq<char>>, x: Seq<char>, i: int) -> Option<int>
    decreases s.len() - i,
{
    if i < 0 || i >= s.len() {
        None
    } else if s[i] == x {
        Some(i)
    } else {
        first_index_from_seq(s, x, i + 1)
    }
}

/// Index of the first occurrence of `x` in `s`.
pub open spec fn first_index_of(s: Seq<Seq<char>>, x: Seq<char>) -> Option<int> {
    first_index_from_seq(s, x, 0)
}

// ---------------------------------------------------------------------------
// The enabled-state file shared by the built-in extensions
// ---------------------------------------------------------------------------

/// Where the enabled flags live: `~/.config/dvop/native_extensions.json`,
/// or the same path relative to the working directory without a home.
pub open spec fn config_path_for(home: Option<Seq<char>>) -> Seq<char> {
    match home {
        Some(h) => spec_path_join(spec_path_join(spec_path_join(h, ".config"@), "dvop"@), "native_extensions.json"@),
        None => ".config/dvop/native_extensions.json"@,
    }
}

/// The path of the enabled-state file for this home directory.
pub fn config_path_from(home: Option<&str>) -> (r: String)
    ensures
        r@ == config_path_for(match home {
            Some(h) => Some(h@),
            None => None,
        }),
{
    match home {
        Some(h) => {
            let a = path_join(h, ".config");
            let b = path_join(a.as_str(), "dvop");
            path_join(b.as_str(), "native_extensions.json")
        },
        None => string_of(".config/dvop/native_extensions.json"),
    }
}

/// The path of the enabled-state file for the current user: the path for
/// the home directory found, or for none.
pub fn config_path() -> (r: String)
    ensures
        exists|home: Option<Seq<char>>| r@ == config_path_for(home),
{
    match home_dir() {
        Some(h) => {
            let r = config_path_from(Some(h.as_str()));
            assert(r@ == config_path_for(Some(h@)));
            r
        },
        None => {
            let r = config_path_from(None);
            assert(r@ == config_path_for(None));
            r
        },
    }
}

/// What `serde_json::from_str::<BTreeMap<String, bool>>` gives for this
/// text: its entries in key order, or `None` when it is not such an object.
pub uninterp spec fn spec_json_flags(json: Seq<char>) -> Option<Seq<(Seq<char>, bool)>>;

/// What `serde_json::to_string_pretty` writes for the map made of these
/// entries (a later entry for a key replacing an earlier one).
pub uninterp spec fn spec_flags_json(entries: Seq<(Seq<char>, bool)>) -> Seq<char>;

/// The views of flag entries.
pub open spec fn flags_view(v: Seq<(String, bool)>) -> Seq<(Seq<char>, bool)> {
    v.map_values(|e: (String, bool)| (e.0@, e.1))
}

/// Calls `serde_json::from_str::<BTreeMap<String, bool>>` and lists the
/// entries; named by `spec_json_flags`.
#[verifier::external_body]
fn parse_flags(json: &str) -> (r: Option<Vec<(String, bool)>>)
    ensures
        match r {
            Some(v) => spec_json_flags(json@) == Some(flags_view(v@)),
            None => spec_json_flags(json@) is None,
        },
{
    let map: std::collections::BTreeMap<String, bool> = serde_json::from_str(json).ok()?;
    Some(map.into_iter().collect())
}

/// Calls `serde_json::to_string_pretty` on the `BTreeMap` collected from
/// these entries (a later entry for a key replacing an earlier one); named
/// by `spec_flags_json`. Serialising such a map cannot fail; were it to, the
/// text would be empty. Stated besides: reading the text back with
/// `serde_json::from_str` gives the same flag for every key (JSON strings
/// and booleans round-trip).
#[verifier::external_body]
fn flags_to_json(entries: &Vec<(String, bool)>) -> (r: String)
    ensures
        r@ == spec_flags_json(flags_view(entries@)),
        spec_json_flags(r@) is Some,
        forall|k: Seq<char>| #[trigger] flag_of(spec_json_flags(r@)->0, k) == flag_of(flags_view(entries@), k),
{
    let map: std::collections::BTreeMap<String, bool> = entries.iter().cloned().collect();
    serde_json::to_string_pretty(&map).unwrap_or_default()
}

/// The flag of `key` in `entries`: the last entry for it, or `None`.
pub open spec fn flag_of(entries: Seq<(Seq<char>, bool)>, key: Seq<char>) -> Option<bool>
    decreases entries.len(),
{
    if entries.len() == 0 {
        None
    } else if entries.last().0 == key {
        Some(entries.last().1)
    } else {
        flag_of(entries.drop_last(), key)
    }
}

/// Whether the extension `key` is enabled, given the text of the state file
/// (`None` when it could not be read): its flag there, or enabled when the
/// file is missing, unreadable, not a flag map, or silent about it.
pub open spec fn enabled_state(config: Option<Seq<char>>, key: Seq<char>) -> bool {
    match config {
        Some(text) => match spec_json_flags(text) {
            Some(entries) => match flag_of(entries, key) {
                Some(b) => b,
                None => true,
            },
            None => true,
        },
        None => true,
    }
}

/// Whether the extension `key` is enabled according to the flags read from
/// the state file: its last flag there, or enabled when there is none.
pub fn flag_in(entries: &Vec<(String, bool)>, key: &str) -> (r: bool)
    ensures
        r == match flag_of(flags_view(entries@), key@) {
            Some(b) => b,
            None => true,
        },
{
    let ghost ev = flags_view(entries@);
    let mut n = entries.len();
    assert(ev.take(n as int) =~= ev);
    while n > 0
        invariant
            n <= entries@.len(),
            ev == flags_view(entries@),
            flag_of(ev, key@) == flag_of(ev.take(n as int), key@),
        decreases n,
    {
        proof {
            assert(ev.take(n as int).drop_last() =~= ev.take(n - 1));
        }
        if str_eq(entries[n - 1].0.as_str(), key) {
            assert(ev[n - 1] == (entries@[n - 1].0@, entries@[n - 1].1));
            assert(ev.take(n as int).last() == ev[n - 1]);
            return entries[n - 1].1;
        }
        n = n - 1;
    }
    assert(ev.take(0) =~= Seq::<(Seq<char>, bool)>::empty());
    true
}

/// Whether the extension `key` is enabled according to the state file's
/// text (see `enabled_state`).
pub fn load_enabled_state(config: Option<&str>, key: &str) -> (r: bool)
    ensures
        r == enabled_state(match config {
            Some(t) => Some(t@),
            None => None,
        }, key@),
{
    match config {
        Some(text) => match parse_flags(text) {
            Some(entries) => flag_in(&entries, key),
            None => true,
        },
        None => true,
    }
}

/// The state file's text after setting `key` to `enabled`: the flags read
/// from `config` (none when it is missing or not a flag map) with that one
/// replaced or added.
pub open spec fn toggled_flags(config: Option<Seq<char>>, key: Seq<char>, enabled: bool) -> Seq<char> {
    let old_entries = match config {
        Some(text) => match spec_json_flags(text) {
            Some(e) => e,
            None => Seq::empty(),
        },
        None => Seq::empty(),
    };
    spec_flags_json(old_entries.push((key, enabled)))
}

/// The text of the flags `entries` with `key` set to `enabled` (replacing
/// any flag it had): reading it back gives `enabled` for `key` and, for
/// every other key, what `entries` gave.
pub fn flags_text_with(entries: Vec<(String, bool)>, key: &str, enabled: bool) -> (r: String)
    ensures
        r@ == spec_flags_json(flags_view(entries@).push((key@, enabled))),
        spec_json_flags(r@) matches Some(e) && flag_of(e, key@) == Some(enabled),
        forall|k: Seq<char>| k != key@ ==> #[trigger] flag_of(spec_json_flags(r@)->0, k) == flag_of(flags_view(entries@), k),
{
    let ghost before = flags_view(entries@);
    let mut entries = entries;
    entries.push((string_of(key), enabled));
    assert(flags_view(entries@) =~= before.push((key@, enabled)));
    let r = flags_to_json(&entries);
    proof {
        let e = spec_json_flags(r@)->0;
        assert(flag_of(e, key@) == flag_of(before.push((key@, enabled)), key@));
        assert forall|k: Seq<char>| k != key@ implies #[trigger] flag_of(spec_json_flags(r@)->0, k) == flag_of(before, k) by {
            assert(flag_of(e, k) == flag_of(before.push((key@, enabled)), k));
            assert(before.push((key@, enabled)).drop_last() =~= before);
        }
    }
    r
}

/// The text to write to the state file to record `enabled` for `key`.
pub fn persist_enabled_state(config: Option<&str>, key: &str, enabled: bool) -> (r: String)
    ensures
        r@ == toggled_flags(match config {
            Some(t) => Some(t@),
            None => None,
        }, key@, enabled),
        enabled_state(Some(r@), key@) == enabled,
        forall|k: Seq<char>| k != key@ ==> #[trigger] enabled_state(Some(r@), k) == enabled_state(opt_view(config), k),
{
    let entries: Vec<(String, bool)> = match config {
        Some(t) => match parse_flags(t) {
            Some(v) => v,
            None => Vec::new(),
        },
        None => Vec::new(),
    };
    let ghost before = flags_view(entries@);
    let ghost cfg: Option<Seq<char>> = match config {
        Some(t) => Some(t@),
        None => None,
    };
    assert(before == match cfg {
        Some(text) => match spec_json_flags(text) {
            Some(e) => e,
            None => Seq::<(Seq<char>, bool)>::empty(),
        },
        None => Seq::<(Seq<char>, bool)>::empty(),
    });
    let r = flags_text_with(entries, key, enabled);
    proof {
        assert forall|k: Seq<char>| k != key@ implies #[trigger] enabled_state(Some(r@), k) == enabled_state(opt_view(config), k) by {
            assert(flag_of(spec_json_flags(r@)->0, k) == flag_of(before, k));
            if before.len() == 0 {
                assert(flag_of(before, k) is None);
            }
        }
    }
    r
}

} // verus!
