//! Validation of extension manifests: ids, versions, script paths and the
//! uniqueness rules of each kind of contribution.

use vstd::prelude::*;
use crate::extensions::{
    ExtensionContributions, ExtensionManifest, KeybindingContribution, EditorContextMenu,
    FileExplorerContextMenu, LinterContribution, SidebarPanelContribution,
    TextTransformContribution,
};
use crate::paths::{
    path_is_absolute, spec_path_is_absolute, path_join, spec_path_join, path_canonicalize, path_components,
    spec_path_components,
};
use crate::text::{
    concat, contains_char, contains_str, contains_string, ends_with_char, is_alphanumeric,
    is_ascii_digit_spec, seq_contains_sub, seq_ends_with, seq_starts_with, spec_is_alphanumeric,
    spec_lowercase, spec_trim, starts_with_char, string_of, to_lowercase, trim, chars_of,
    split_chars, split_on, str_eq, join_on, lemma_split_join, lemma_split_single, lemma_split_concat,
};

verus! {

/// Why a manifest was refused; each variant carries a message.
#[derive(Debug)]
pub enum ManifestValidationError {
    /// Invalid JSON syntax.
    InvalidJson(String),
    /// A required field is missing.
    MissingField(String),
    /// The id is not lowercase letters, digits and hyphens.
    InvalidId(String),
    /// A path or name tries to leave the extension directory.
    PathTraversal(String),
    /// A script path is not relative to the extension directory.
    RelativePath(String),
    /// The version is not MAJOR.MINOR.PATCH.
    InvalidVersion(String),
    /// A keybinding is malformed.
    InvalidKeybinding(String),
    /// A context menu entry is malformed.
    InvalidContextMenu(String),
    /// A linter is malformed.
    InvalidLinter(String),
    /// A sidebar panel or text transform is malformed.
    InvalidPanel(String),
    /// Two contributions share an id, label, key or language.
    DuplicateContribution(String),
}

/// The variant of a `ManifestValidationError`, without its message.
#[derive(Debug, Clone, Copy, PartialEq, Eq, Structural)]
pub enum ErrorKind {
    InvalidJson,
    MissingField,
    InvalidId,
    PathTraversal,
    RelativePath,
    InvalidVersion,
    InvalidKeybinding,
    InvalidContextMenu,
    InvalidLinter,
    InvalidPanel,
    DuplicateContribution,
}

impl View for ManifestValidationError {
    type V = (ErrorKind, Seq<char>);

    open spec fn view(&self) -> (ErrorKind, Seq<char>) {
        match self {
            ManifestValidationError::InvalidJson(m) => (ErrorKind::InvalidJson, m@),
            ManifestValidationError::MissingField(m) => (ErrorKind::MissingField, m@),
            ManifestValidationError::InvalidId(m) => (ErrorKind::InvalidId, m@),
            ManifestValidationError::PathTraversal(m) => (ErrorKind::PathTraversal, m@),
            ManifestValidationError::RelativePath(m) => (ErrorKind::RelativePath, m@),
            ManifestValidationError::InvalidVersion(m) => (ErrorKind::InvalidVersion, m@),
            ManifestValidationError::InvalidKeybinding(m) => (ErrorKind::InvalidKeybinding, m@),
            ManifestValidationError::InvalidContextMenu(m) => (ErrorKind::InvalidContextMenu, m@),
            ManifestValidationError::InvalidLinter(m) => (ErrorKind::InvalidLinter, m@),
            ManifestValidationError::InvalidPanel(m) => (ErrorKind::InvalidPanel, m@),
            ManifestValidationError::DuplicateContribution(m) => (ErrorKind::DuplicateContribution, m@),
        }
    }
}

/// A refusal: its kind and its message.
pub type Failure = (ErrorKind, Seq<char>);

/// The text a user sees for an error of this kind with this message.
pub open spec fn error_text(kind: ErrorKind, msg: Seq<char>) -> Seq<char> {
    match kind {
        ErrorKind::InvalidJson => "Invalid JSON: "@ + msg,
        ErrorKind::MissingField => "Missing required field: "@ + msg,
        ErrorKind::InvalidId => "Invalid ID: "@ + msg,
        ErrorKind::PathTraversal => "Path traversal detected: "@ + msg,
        ErrorKind::RelativePath => "Relative path not allowed: "@ + msg,
        ErrorKind::InvalidVersion => "Invalid version: "@ + msg,
        ErrorKind::InvalidKeybinding => "Invalid keybinding: "@ + msg,
        ErrorKind::InvalidContextMenu => "Invalid context menu: "@ + msg,
        ErrorKind::InvalidLinter => "Invalid linter: "@ + msg,
        ErrorKind::InvalidPanel => "Invalid sidebar panel: "@ + msg,
        ErrorKind::DuplicateContribution => "Duplicate contribution: "@ + msg,
    }
}

impl ManifestValidationError {
    /// The error of this kind with this message.
    pub fn from_kind(kind: ErrorKind, msg: String) -> (r: Self)
        ensures
            r@ == (kind, msg@),
    {
        match kind {
            ErrorKind::InvalidJson => ManifestValidationError::InvalidJson(msg),
            ErrorKind::MissingField => ManifestValidationError::MissingField(msg),
            ErrorKind::InvalidId => ManifestValidationError::InvalidId(msg),
            ErrorKind::PathTraversal => ManifestValidationError::PathTraversal(msg),
            ErrorKind::RelativePath => ManifestValidationError::RelativePath(msg),
            ErrorKind::InvalidVersion => ManifestValidationError::InvalidVersion(msg),
            ErrorKind::InvalidKeybinding => ManifestValidationError::InvalidKeybinding(msg),
            ErrorKind::InvalidContextMenu => ManifestValidationError::InvalidContextMenu(msg),
            ErrorKind::InvalidLinter => ManifestValidationError::InvalidLinter(msg),
            ErrorKind::InvalidPanel => ManifestValidationError::InvalidPanel(msg),
            ErrorKind::DuplicateContribution => ManifestValidationError::DuplicateContribution(msg),
        }
    }

    /// The kind of this error.
    pub fn kind(&self) -> (r: ErrorKind)
        ensures
            r == self@.0,
    {
        match self {
            ManifestValidationError::InvalidJson(_) => ErrorKind::InvalidJson,
            ManifestValidationError::MissingField(_) => ErrorKind::MissingField,
            ManifestValidationError::InvalidId(_) => ErrorKind::InvalidId,
            ManifestValidationError::PathTraversal(_) => ErrorKind::PathTraversal,
            ManifestValidationError::RelativePath(_) => ErrorKind::RelativePath,
            ManifestValidationError::InvalidVersion(_) => ErrorKind::InvalidVersion,
            ManifestValidationError::InvalidKeybinding(_) => ErrorKind::InvalidKeybinding,
            ManifestValidationError::InvalidContextMenu(_) => ErrorKind::InvalidContextMenu,
            ManifestValidationError::InvalidLinter(_) => ErrorKind::InvalidLinter,
            ManifestValidationError::InvalidPanel(_) => ErrorKind::InvalidPanel,
            ManifestValidationError::DuplicateContribution(_) => ErrorKind::DuplicateContribution,
        }
    }

    /// The message carried by this error.
    pub fn message(&self) -> (r: &str)
        ensures
            r@ == self@.1,
    {
        match self {
            ManifestValidationError::InvalidJson(m) => m.as_str(),
            ManifestValidationError::MissingField(m) => m.as_str(),
            ManifestValidationError::InvalidId(m) => m.as_str(),
            ManifestValidationError::PathTraversal(m) => m.as_str(),
            ManifestValidationError::RelativePath(m) => m.as_str(),
            ManifestValidationError::InvalidVersion(m) => m.as_str(),
            ManifestValidationError::InvalidKeybinding(m) => m.as_str(),
            ManifestValidationError::InvalidContextMenu(m) => m.as_str(),
            ManifestValidationError::InvalidLinter(m) => m.as_str(),
            ManifestValidationError::InvalidPanel(m) => m.as_str(),
            ManifestValidationError::DuplicateContribution(m) => m.as_str(),
        }
    }

    /// The text shown to the user for this error.
    pub fn to_message_string(&self) -> (r: String)
        ensures
            r@ == error_text(self@.0, self@.1),
    {
        let m = self.message();
        match self {
            ManifestValidationError::InvalidJson(_) => concat("Invalid JSON: ", m),
            ManifestValidationError::MissingField(_) => concat("Missing required field: ", m),
            ManifestValidationError::InvalidId(_) => concat("Invalid ID: ", m),
            ManifestValidationError::PathTraversal(_) => concat("Path traversal detected: ", m),
            ManifestValidationError::RelativePath(_) => concat("Relative path not allowed: ", m),
            ManifestValidationError::InvalidVersion(_) => concat("Invalid version: ", m),
            ManifestValidationError::InvalidKeybinding(_) => concat("Invalid keybinding: ", m),
            ManifestValidationError::InvalidContextMenu(_) => concat("Invalid context menu: ", m),
            ManifestValidationError::InvalidLinter(_) => concat("Invalid linter: ", m),
            ManifestValidationError::InvalidPanel(_) => concat("Invalid sidebar panel: ", m),
            ManifestValidationError::DuplicateContribution(_) => concat("Duplicate contribution: ", m),
        }
    }
}

/// An error of this kind whose message is `prefix` followed by `detail`.
fn fail_with(kind: ErrorKind, prefix: &str, detail: &str) -> (r: ManifestValidationError)
    ensures
        r@ == (kind, prefix@ + detail@),
{
    ManifestValidationError::from_kind(kind, concat(prefix, detail))
}

/// An error of this kind with the message `msg`.
fn fail_plain(kind: ErrorKind, msg: &str) -> (r: ManifestValidationError)
    ensures
        r@ == (kind, msg@),
{
    ManifestValidationError::from_kind(kind, string_of(msg))
}

// ---------------------------------------------------------------------------
// Script paths
// ---------------------------------------------------------------------------

/// Why a script path is refused, if it is. Paths are trimmed first; an empty
/// path is accepted (no script).
pub open spec fn script_path_failure(script: Seq<char>) -> Option<Failure> {
    let t = spec_trim(script);
    if t.len() == 0 {
        None
    } else if spec_path_is_absolute(t) {
        Some((ErrorKind::RelativePath, "Script paths must be relative to extension directory, got: "@ + t))
    } else if seq_contains_sub(t, ".."@) {
        Some((ErrorKind::PathTraversal, "Path traversal not allowed in script paths, got: "@ + t))
    } else if t.contains('\0') {
        Some((ErrorKind::PathTraversal, "Null bytes not allowed in script paths, got: "@ + t))
    } else if seq_starts_with(t, '/') {
        Some((ErrorKind::RelativePath, "Script paths must not start with /, got: "@ + t))
    } else if t.contains('\\') {
        Some((ErrorKind::PathTraversal, "Backslashes not allowed in script paths, got: "@ + t))
    } else {
        None
    }
}

/// Validate a single script path.
pub fn validate_script_path(script: &str) -> (r: Result<(), ManifestValidationError>)
    ensures
        match r {
            Ok(_) => script_path_failure(script@) is None,
            Err(e) => script_path_failure(script@) == Some(e@),
        },
{
    let t = trim(script);
    if t.is_empty() {
        return Ok(());
    }
    if path_is_absolute(t) {
        return Err(fail_with(ErrorKind::RelativePath, "Script paths must be relative to extension directory, got: ", t));
    }
    if contains_str(t, "..") {
        return Err(fail_with(ErrorKind::PathTraversal, "Path traversal not allowed in script paths, got: ", t));
    }
    if contains_char(t, '\0') {
        return Err(fail_with(ErrorKind::PathTraversal, "Null bytes not allowed in script paths, got: ", t));
    }
    if starts_with_char(t, '/') {
        return Err(fail_with(ErrorKind::RelativePath, "Script paths must not start with /, got: ", t));
    }
    if contains_char(t, '\\') {
        return Err(fail_with(ErrorKind::PathTraversal, "Backslashes not allowed in script paths, got: ", t));
    }
    Ok(())
}

// ---------------------------------------------------------------------------
// Id and version
// ---------------------------------------------------------------------------

/// Every character is alphanumeric or a hyphen.
pub open spec fn id_chars_ok(id: Seq<char>) -> bool {
    forall|i: int| 0 <= i < id.len() ==> spec_is_alphanumeric(#[trigger] id[i]) || id[i] == '-'
}

/// Why an extension id is refused, if it is.
pub open spec fn id_failure(id: Seq<char>) -> Option<Failure> {
    if id.len() == 0 {
        Some((ErrorKind::MissingField, "id"@))
    } else if spec_lowercase(id) != id {
        Some((ErrorKind::InvalidId, "ID must be lowercase, got: "@ + id))
    } else if !id_chars_ok(id) {
        Some((ErrorKind::InvalidId, "ID must contain only lowercase letters, numbers, and hyphens, got: "@ + id))
    } else if seq_starts_with(id, '-') || seq_ends_with(id, '-') {
        Some((ErrorKind::InvalidId, "ID cannot start or end with hyphen, got: "@ + id))
    } else {
        None
    }
}

/// Validate an extension id.
pub fn validate_id(id: &str) -> (r: Result<(), ManifestValidationError>)
    ensures
        match r {
            Ok(_) => id_failure(id@) is None,
            Err(e) => id_failure(id@) == Some(e@),
        },
{
    if id.is_empty() {
        return Err(fail_plain(ErrorKind::MissingField, "id"));
    }
    let normalized = to_lowercase(id);
    let same = normalized.as_str().to_owned() == id.to_owned();
    if !same {
        return Err(fail_with(ErrorKind::InvalidId, "ID must be lowercase, got: ", id));
    }
    let cs = chars_of(id);
    let mut i: usize = 0;
    while i < cs.len()
        invariant
            cs@ == id@,
            id@.len() > 0,
            spec_lowercase(id@) == id@,
            i <= cs.len(),
            forall|k: int| 0 <= k < i ==> spec_is_alphanumeric(#[trigger] id@[k]) || id@[k] == '-',
        decreases cs.len() - i,
    {
        let c = cs[i];
        if !(is_alphanumeric(c) || c == '-') {
            assert(!(spec_is_alphanumeric(id@[i as int]) || id@[i as int] == '-'));
            assert(!id_chars_ok(id@));
            return Err(fail_with(ErrorKind::InvalidId, "ID must contain only lowercase letters, numbers, and hyphens, got: ", id));
        }
        i = i + 1;
    }
    if starts_with_char(id, '-') || ends_with_char(id, '-') {
        return Err(fail_with(ErrorKind::InvalidId, "ID cannot start or end with hyphen, got: ", id));
    }
    Ok(())
}

/// Every character is an ASCII digit or a dot.
pub open spec fn version_chars_ok(v: Seq<char>) -> bool {
    forall|i: int| 0 <= i < v.len() ==> is_ascii_digit_spec(#[trigger] v[i]) || v[i] == '.'
}

/// Why a version string is refused, if it is.
pub open spec fn version_failure(version: Seq<char>) -> Option<Failure> {
    let n = spec_trim(version);
    let parts = split_on(n, '.');
    if n.len() == 0 {
        Some((ErrorKind::MissingField, "version"@))
    } else if !version_chars_ok(n) {
        Some((ErrorKind::InvalidVersion, "Version must contain only digits and dots, got: "@ + version))
    } else if parts.len() != 3 {
        Some((ErrorKind::InvalidVersion, "Version must be in format MAJOR.MINOR.PATCH, got: "@ + version))
    } else if exists|k: int| 0 <= k < 3 && (#[trigger] parts[k]).len() == 0 {
        Some((ErrorKind::InvalidVersion, "Version parts cannot be empty, got: "@ + version))
    } else {
        None
    }
}

/// Validate a semantic version, MAJOR.MINOR.PATCH.
pub fn validate_version(version: &str) -> (r: Result<(), ManifestValidationError>)
    ensures
        match r {
            Ok(_) => version_failure(version@) is None,
            Err(e) => version_failure(version@) == Some(e@),
        },
{
    let n = trim(version);
    if n.is_empty() {
        return Err(fail_plain(ErrorKind::MissingField, "version"));
    }
    let cs = chars_of(n);
    let mut i: usize = 0;
    while i < cs.len()
        invariant
            cs@ == n@,
            n@ == spec_trim(version@),
            n@.len() > 0,
            i <= cs.len(),
            forall|k: int| 0 <= k < i ==> is_ascii_digit_spec(#[trigger] n@[k]) || n@[k] == '.',
        decreases cs.len() - i,
    {
        let c = cs[i];
        if !(('0' <= c && c <= '9') || c == '.') {
            assert(!(is_ascii_digit_spec(n@[i as int]) || n@[i as int] == '.'));
            assert(!version_chars_ok(n@));
            return Err(fail_with(ErrorKind::InvalidVersion, "Version must contain only digits and dots, got: ", version));
        }
        i = i + 1;
    }
    assert(version_chars_ok(n@));
    let parts = split_chars(&cs, '.');
    if parts.len() != 3 {
        return Err(fail_with(ErrorKind::InvalidVersion, "Version must be in format MAJOR.MINOR.PATCH, got: ", version));
    }
    let mut k: usize = 0;
    while k < 3
        invariant
            parts@.len() == 3,
            split_on(n@, '.').len() == 3,
            version_chars_ok(n@),
            n@ == spec_trim(version@),
            n@.len() > 0,
            cs@ == n@,
            forall|j: int| 0 <= j < parts@.len() ==> (#[trigger] parts@[j])@ == split_on(n@, '.')[j],
            forall|j: int| 0 <= j < k ==> (#[trigger] split_on(n@, '.')[j]).len() != 0,
        decreases 3 - k,
    {
        if parts[k].len() == 0 {
            assert(split_on(n@, '.')[k as int].len() == 0);
            assert(exists|j: int| 0 <= j < 3 && (#[trigger] split_on(n@, '.')[j]).len() == 0);
            return Err(fail_with(ErrorKind::InvalidVersion, "Version parts cannot be empty, got: ", version));
        }
        k = k + 1;
    }
    Ok(())
}

// ---------------------------------------------------------------------------
// Keybindings
// ---------------------------------------------------------------------------

/// Whether `seen` holds a string equal to `x`.
pub open spec fn seen_has(seen: Seq<Seq<char>>, x: Seq<char>) -> bool {
    seen.contains(x)
}

/// The views of a vector of strings.
pub open spec fn views(v: Seq<String>) -> Seq<Seq<char>> {
    v.map_values(|s: String| s@)
}

/// Why the keybindings from index `i` on are refused, given the (lowercased)
/// keys already seen.
pub open spec fn keybindings_failure_from(
    kbs: Seq<KeybindingContribution>,
    i: int,
    seen: Seq<Seq<char>>,
) -> Option<Failure>
    decreases kbs.len() - i,
{
    if i < 0 || i >= kbs.len() {
        None
    } else {
        let key = spec_trim(kbs[i].key@);
        if key.len() == 0 {
            Some((ErrorKind::InvalidKeybinding, "Keybinding key cannot be empty"@))
        } else if seq_contains_sub(key, ".."@) {
            Some((ErrorKind::PathTraversal, "Path traversal not allowed in keybindings, got: "@ + key))
        } else if key.contains('\0') {
            Some((ErrorKind::PathTraversal, "Null bytes not allowed in keybindings, got: "@ + key))
        } else if seen.contains(spec_lowercase(key)) {
            Some((ErrorKind::DuplicateContribution, "Duplicate keybinding: "@ + key))
        } else {
            keybindings_failure_from(kbs, i + 1, seen.push(spec_lowercase(key)))
        }
    }
}

/// Why the keybindings of `c` are refused, if they are.
pub open spec fn keybindings_failure(c: ExtensionContributions) -> Option<Failure> {
    keybindings_failure_from(c.keybindings@, 0, Seq::empty())
}

/// `x` is in `seen` exactly when a string of `v` has its characters.
proof fn lemma_views_contains(v: Seq<String>, x: Seq<char>)
    ensures
        views(v).contains(x) == exists|k: int| 0 <= k < v.len() && (#[trigger] v[k])@ == x,
{
    if views(v).contains(x) {
        let k = choose|k: int| 0 <= k < views(v).len() && views(v)[k] == x;
        assert(v[k]@ == x);
    }
    if exists|k: int| 0 <= k < v.len() && (#[trigger] v[k])@ == x {
        let k = choose|k: int| 0 <= k < v.len() && (#[trigger] v[k])@ == x;
        assert(views(v)[k] == x);
    }
}

/// Whether a string with the characters of `x` is already in `seen`.
fn seen_contains(seen: &Vec<String>, x: &str) -> (r: bool)
    ensures
        r == views(seen@).contains(x@),
{
    proof {
        lemma_views_contains(seen@, x@);
    }
    contains_string(seen, x)
}

/// Validate keybinding keys: non-empty, no `..`, no NUL, no duplicates
/// (compared lowercased).
pub fn validate_keybindings(contributions: &ExtensionContributions) -> (r: Result<(), ManifestValidationError>)
    ensures
        match r {
            Ok(_) => keybindings_failure(*contributions) is None,
            Err(e) => keybindings_failure(*contributions) == Some(e@),
        },
{
    let kbs = &contributions.keybindings;
    let mut seen: Vec<String> = Vec::new();
    assert(views(seen@) =~= Seq::<Seq<char>>::empty());
    let mut i: usize = 0;
    while i < kbs.len()
        invariant
            i <= kbs.len(),
            keybindings_failure(*contributions) == keybindings_failure_from(kbs@, i as int, views(seen@)),
            kbs == &contributions.keybindings,
        decreases kbs.len() - i,
    {
        let key = trim(kbs[i].key.as_str());
        if key.is_empty() {
            return Err(fail_plain(ErrorKind::InvalidKeybinding, "Keybinding key cannot be empty"));
        }
        if contains_str(key, "..") {
            return Err(fail_with(ErrorKind::PathTraversal, "Path traversal not allowed in keybindings, got: ", key));
        }
        if contains_char(key, '\0') {
            return Err(fail_with(ErrorKind::PathTraversal, "Null bytes not allowed in keybindings, got: ", key));
        }
        let lower = to_lowercase(key);
        if seen_contains(&seen, lower.as_str()) {
            return Err(fail_with(ErrorKind::DuplicateContribution, "Duplicate keybinding: ", key));
        }
        let ghost old_seen = seen@;
        seen.push(lower);
        proof {
            assert(views(seen@) =~= views(old_seen).push(spec_lowercase(key@)));
        }
        i = i + 1;
    }
    Ok(())
}

// ---------------------------------------------------------------------------
// Context menus
// ---------------------------------------------------------------------------

/// The (label, script) pairs of editor menu entries.
pub open spec fn editor_pairs(es: Seq<EditorContextMenu>) -> Seq<(Seq<char>, Seq<char>)> {
    es.map_values(|e: EditorContextMenu| (e.label@, e.script@))
}

/// The (label, script) pairs of file explorer menu entries.
pub open spec fn explorer_pairs(es: Seq<FileExplorerContextMenu>) -> Seq<(Seq<char>, Seq<char>)> {
    es.map_values(|e: FileExplorerContextMenu| (e.label@, e.script@))
}

/// Checks menu entries from index `i` on. `Ok` carries the (lowercased)
/// labels seen so far; `empty_msg` and `dup_prefix` name the menu.
pub open spec fn menu_failure_from(
    entries: Seq<(Seq<char>, Seq<char>)>,
    i: int,
    seen: Seq<Seq<char>>,
    empty_msg: Seq<char>,
    dup_prefix: Seq<char>,
) -> Result<Seq<Seq<char>>, Failure>
    decreases entries.len() - i,
{
    if i < 0 || i >= entries.len() {
        Ok(seen)
    } else {
        let label = spec_trim(entries[i].0);
        if label.len() == 0 {
            Err((ErrorKind::InvalidContextMenu, empty_msg))
        } else if seen.contains(spec_lowercase(label)) {
            Err((ErrorKind::DuplicateContribution, dup_prefix + label))
        } else {
            match script_path_failure(entries[i].1) {
                Some(f) => Err(f),
                None => menu_failure_from(entries, i + 1, seen.push(spec_lowercase(label)), empty_msg, dup_prefix),
            }
        }
    }
}

/// Why the context menus of `c` are refused, if they are. Labels must be
/// unique across both menus.
pub open spec fn context_menus_failure(c: ExtensionContributions) -> Option<Failure> {
    match c.context_menus {
        None => None,
        Some(cm) => match menu_failure_from(
            editor_pairs(cm.editor@),
            0,
            Seq::empty(),
            "Editor context menu label cannot be empty"@,
            "Duplicate editor context menu label: "@,
        ) {
            Err(f) => Some(f),
            Ok(seen) => match menu_failure_from(
                explorer_pairs(cm.file_explorer@),
                0,
                seen,
                "File explorer context menu label cannot be empty"@,
                "Duplicate file explorer context menu label: "@,
            ) {
                Err(f) => Some(f),
                Ok(_) => None,
            },
        },
    }
}

fn validate_editor_menu(
    es: &Vec<EditorContextMenu>,
    seen: &mut Vec<String>,
) -> (r: Result<(), ManifestValidationError>)
    ensures
        match menu_failure_from(
            editor_pairs(es@),
            0,
            views(old(seen)@),
            "Editor context menu label cannot be empty"@,
            "Duplicate editor context menu label: "@,
        ) {
            Ok(s) => r is Ok && views(final(seen)@) == s,
            Err(f) => r matches Err(e) && e@ == f,
        },
{
    let ghost start = views(seen@);
    let ghost pairs = editor_pairs(es@);
    let mut i: usize = 0;
    while i < es.len()
        invariant
            i <= es.len(),
            pairs == editor_pairs(es@),
            start == views(old(seen)@),
            menu_failure_from(pairs, 0, start, "Editor context menu label cannot be empty"@, "Duplicate editor context menu label: "@)
                == menu_failure_from(pairs, i as int, views(seen@), "Editor context menu label cannot be empty"@, "Duplicate editor context menu label: "@),
        decreases es.len() - i,
    {
        assert(pairs[i as int] == (es@[i as int].label@, es@[i as int].script@));
        let label = trim(es[i].label.as_str());
        if label.is_empty() {
            return Err(fail_plain(ErrorKind::InvalidContextMenu, "Editor context menu label cannot be empty"));
        }
        let lower = to_lowercase(label);
        if seen_contains(seen, lower.as_str()) {
            return Err(fail_with(ErrorKind::DuplicateContribution, "Duplicate editor context menu label: ", label));
        }
        let ghost old_seen = seen@;
        seen.push(lower);
        proof {
            assert(views(seen@) =~= views(old_seen).push(spec_lowercase(label@)));
        }
        validate_script_path(es[i].script.as_str())?;
        i = i + 1;
    }
    Ok(())
}

fn validate_explorer_menu(
    es: &Vec<FileExplorerContextMenu>,
    seen: &mut Vec<String>,
) -> (r: Result<(), ManifestValidationError>)
    ensures
        match menu_failure_from(
            explorer_pairs(es@),
            0,
            views(old(seen)@),
            "File explorer context menu label cannot be empty"@,
            "Duplicate file explorer context menu label: "@,
        ) {
            Ok(s) => r is Ok && views(final(seen)@) == s,
            Err(f) => r matches Err(e) && e@ == f,
        },
{
    let ghost start = views(seen@);
    let ghost pairs = explorer_pairs(es@);
    let mut i: usize = 0;
    while i < es.len()
        invariant
            i <= es.len(),
            pairs == explorer_pairs(es@),
            start == views(old(seen)@),
            menu_failure_from(pairs, 0, start, "File explorer context menu label cannot be empty"@, "Duplicate file explorer context menu label: "@)
                == menu_failure_from(pairs, i as int, views(seen@), "File explorer context menu label cannot be empty"@, "Duplicate file explorer context menu label: "@),
        decreases es.len() - i,
    {
        assert(pairs[i as int] == (es@[i as int].label@, es@[i as int].script@));
        let label = trim(es[i].label.as_str());
        if label.is_empty() {
            return Err(fail_plain(ErrorKind::InvalidContextMenu, "File explorer context menu label cannot be empty"));
        }
        let lower = to_lowercase(label);
        if seen_contains(seen, lower.as_str()) {
            return Err(fail_with(ErrorKind::DuplicateContribution, "Duplicate file explorer context menu label: ", label));
        }
        let ghost old_seen = seen@;
        seen.push(lower);
        proof {
            assert(views(seen@) =~= views(old_seen).push(spec_lowercase(label@)));
        }
        validate_script_path(es[i].script.as_str())?;
        i = i + 1;
    }
    Ok(())
}

/// Validate context menu entries: non-empty labels, unique (lowercased)
/// labels across both menus, acceptable script paths.
pub fn validate_context_menus(contributions: &ExtensionContributions) -> (r: Result<(), ManifestValidationError>)
    ensures
        match r {
            Ok(_) => context_menus_failure(*contributions) is None,
            Err(e) => context_menus_failure(*contributions) == Some(e@),
        },
{
    let mut seen: Vec<String> = Vec::new();
    assert(views(seen@) =~= Seq::<Seq<char>>::empty());
    match &contributions.context_menus {
        None => Ok(()),
        Some(cm) => {
            validate_editor_menu(&cm.editor, &mut seen)?;
            validate_explorer_menu(&cm.file_explorer, &mut seen)?;
            Ok(())
        },
    }
}

// ---------------------------------------------------------------------------
// Linters
// ---------------------------------------------------------------------------

/// Checks the languages of one linter from index `j` on; `Ok` carries the
/// (trimmed, lowercased) languages seen so far, across all linters.
pub open spec fn languages_failure_from(langs: Seq<String>, j: int, seen: Seq<Seq<char>>) -> Result<Seq<Seq<char>>, Failure>
    decreases langs.len() - j,
{
    if j < 0 || j >= langs.len() {
        Ok(seen)
    } else {
        let t = spec_lowercase(spec_trim(langs[j]@));
        if t.len() == 0 {
            Err((ErrorKind::InvalidLinter, "Empty language specified in linter"@))
        } else if seq_contains_sub(t, ".."@) {
            Err((ErrorKind::PathTraversal, "Path traversal not allowed in language names, got: "@ + t))
        } else if seen.contains(t) {
            Err((ErrorKind::DuplicateContribution, "Duplicate language in linter: "@ + t))
        } else {
            languages_failure_from(langs, j + 1, seen.push(t))
        }
    }
}

/// Why the linters from index `i` on are refused, given the languages seen.
pub open spec fn linters_failure_from(ls: Seq<LinterContribution>, i: int, seen: Seq<Seq<char>>) -> Option<Failure>
    decreases ls.len() - i,
{
    if i < 0 || i >= ls.len() {
        None
    } else {
        match languages_failure_from(ls[i].languages@, 0, seen) {
            Err(f) => Some(f),
            Ok(next) => match script_path_failure(ls[i].script@) {
                Some(f) => Some(f),
                None => linters_failure_from(ls, i + 1, next),
            },
        }
    }
}

/// Why the linters of `c` are refused, if they are.
pub open spec fn linters_failure(c: ExtensionContributions) -> Option<Failure> {
    linters_failure_from(c.linters@, 0, Seq::empty())
}

fn validate_languages(langs: &Vec<String>, seen: &mut Vec<String>) -> (r: Result<(), ManifestValidationError>)
    ensures
        match languages_failure_from(langs@, 0, views(old(seen)@)) {
            Ok(s) => r is Ok && views(final(seen)@) == s,
            Err(f) => r matches Err(e) && e@ == f,
        },
{
    let ghost start = views(seen@);
    let mut j: usize = 0;
    while j < langs.len()
        invariant
            j <= langs.len(),
            start == views(old(seen)@),
            languages_failure_from(langs@, 0, start) == languages_failure_from(langs@, j as int, views(seen@)),
        decreases langs.len() - j,
    {
        let trimmed = trim(langs[j].as_str());
        let t = to_lowercase(trimmed);
        if t.as_str().is_empty() {
            return Err(fail_plain(ErrorKind::InvalidLinter, "Empty language specified in linter"));
        }
        if contains_str(t.as_str(), "..") {
            return Err(fail_with(ErrorKind::PathTraversal, "Path traversal not allowed in language names, got: ", t.as_str()));
        }
        if seen_contains(seen, t.as_str()) {
            return Err(fail_with(ErrorKind::DuplicateContribution, "Duplicate language in linter: ", t.as_str()));
        }
        let ghost old_seen = seen@;
        let ghost tv = t@;
        seen.push(t);
        proof {
            assert(views(seen@) =~= views(old_seen).push(tv));
        }
        j = j + 1;
    }
    Ok(())
}

/// Validate linters: languages non-empty, without `..`, unique across all
/// linters (trimmed, lowercased); acceptable script paths.
pub fn validate_linters(contributions: &ExtensionContributions) -> (r: Result<(), ManifestValidationError>)
    ensures
        match r {
            Ok(_) => linters_failure(*contributions) is None,
            Err(e) => linters_failure(*contributions) == Some(e@),
        },
{
    let ls = &contributions.linters;
    let mut seen: Vec<String> = Vec::new();
    assert(views(seen@) =~= Seq::<Seq<char>>::empty());
    let mut i: usize = 0;
    while i < ls.len()
        invariant
            i <= ls.len(),
            ls == &contributions.linters,
            linters_failure(*contributions) == linters_failure_from(ls@, i as int, views(seen@)),
        decreases ls.len() - i,
    {
        validate_languages(&ls[i].languages, &mut seen)?;
        validate_script_path(ls[i].script.as_str())?;
        i = i + 1;
    }
    Ok(())
}

// ---------------------------------------------------------------------------
// Sidebar panels and text transforms
// ---------------------------------------------------------------------------

/// Why the sidebar panels from index `i` on are refused, given the
/// (lowercased) ids and titles seen so far.
pub open spec fn panels_failure_from(
    ps: Seq<SidebarPanelContribution>,
    i: int,
    ids: Seq<Seq<char>>,
    titles: Seq<Seq<char>>,
) -> Option<Failure>
    decreases ps.len() - i,
{
    if i < 0 || i >= ps.len() {
        None
    } else {
        let id = spec_trim(ps[i].id@);
        let title = spec_trim(ps[i].title@);
        let icon = ps[i].icon@;
        if id.len() == 0 {
            Some((ErrorKind::InvalidPanel, "Sidebar panel ID cannot be empty"@))
        } else if ids.contains(spec_lowercase(id)) {
            Some((ErrorKind::DuplicateContribution, "Duplicate sidebar panel ID: "@ + id))
        } else if title.len() == 0 {
            Some((ErrorKind::InvalidPanel, "Sidebar panel title cannot be empty"@))
        } else if titles.contains(spec_lowercase(title)) {
            Some((ErrorKind::DuplicateContribution, "Duplicate sidebar panel title: "@ + title))
        } else if icon.len() == 0 {
            Some((ErrorKind::InvalidPanel, "Sidebar panel icon cannot be empty"@))
        } else if seq_contains_sub(icon, ".."@) {
            Some((ErrorKind::PathTraversal, "Path traversal not allowed in icon names, got: "@ + icon))
        } else {
            match script_path_failure(ps[i].script@) {
                Some(f) => Some(f),
                None => panels_failure_from(
                    ps,
                    i + 1,
                    ids.push(spec_lowercase(id)),
                    titles.push(spec_lowercase(title)),
                ),
            }
        }
    }
}

/// Why the sidebar panels of `c` are refused, if they are.
pub open spec fn panels_failure(c: ExtensionContributions) -> Option<Failure> {
    panels_failure_from(c.sidebar_panels@, 0, Seq::empty(), Seq::empty())
}

/// Validate sidebar panels: non-empty unique ids and titles (compared
/// lowercased), a non-empty icon name without `..`, acceptable script paths.
pub fn validate_sidebar_panels(contributions: &ExtensionContributions) -> (r: Result<(), ManifestValidationError>)
    ensures
        match r {
            Ok(_) => panels_failure(*contributions) is None,
            Err(e) => panels_failure(*contributions) == Some(e@),
        },
{
    let ps = &contributions.sidebar_panels;
    let mut ids: Vec<String> = Vec::new();
    let mut titles: Vec<String> = Vec::new();
    assert(views(ids@) =~= Seq::<Seq<char>>::empty());
    assert(views(titles@) =~= Seq::<Seq<char>>::empty());
    let mut i: usize = 0;
    while i < ps.len()
        invariant
            i <= ps.len(),
            ps == &contributions.sidebar_panels,
            panels_failure(*contributions) == panels_failure_from(ps@, i as int, views(ids@), views(titles@)),
        decreases ps.len() - i,
    {
        let panel = &ps[i];
        let id = trim(panel.id.as_str());
        if id.is_empty() {
            return Err(fail_plain(ErrorKind::InvalidPanel, "Sidebar panel ID cannot be empty"));
        }
        let lower_id = to_lowercase(id);
        if seen_contains(&ids, lower_id.as_str()) {
            return Err(fail_with(ErrorKind::DuplicateContribution, "Duplicate sidebar panel ID: ", id));
        }
        let title = trim(panel.title.as_str());
        if title.is_empty() {
            return Err(fail_plain(ErrorKind::InvalidPanel, "Sidebar panel title cannot be empty"));
        }
        let lower_title = to_lowercase(title);
        if seen_contains(&titles, lower_title.as_str()) {
            return Err(fail_with(ErrorKind::DuplicateContribution, "Duplicate sidebar panel title: ", title));
        }
        if panel.icon.as_str().is_empty() {
            return Err(fail_plain(ErrorKind::InvalidPanel, "Sidebar panel icon cannot be empty"));
        }
        if contains_str(panel.icon.as_str(), "..") {
            return Err(fail_with(ErrorKind::PathTraversal, "Path traversal not allowed in icon names, got: ", panel.icon.as_str()));
        }
        validate_script_path(panel.script.as_str())?;
        let ghost old_ids = ids@;
        let ghost old_titles = titles@;
        ids.push(lower_id);
        titles.push(lower_title);
        proof {
            assert(views(ids@) =~= views(old_ids).push(spec_lowercase(id@)));
            assert(views(titles@) =~= views(old_titles).push(spec_lowercase(title@)));
        }
        i = i + 1;
    }
    Ok(())
}

/// Why the text transforms from index `i` on are refused, given the
/// (lowercased) ids seen so far.
pub open spec fn transforms_failure_from(ts: Seq<TextTransformContribution>, i: int, seen: Seq<Seq<char>>) -> Option<Failure>
    decreases ts.len() - i,
{
    if i < 0 || i >= ts.len() {
        None
    } else {
        let id = spec_trim(ts[i].id@);
        if id.len() == 0 {
            Some((ErrorKind::InvalidPanel, "Text transform ID cannot be empty"@))
        } else if seen.contains(spec_lowercase(id)) {
            Some((ErrorKind::DuplicateContribution, "Duplicate text transform ID: "@ + id))
        } else if spec_trim(ts[i].title@).len() == 0 {
            Some((ErrorKind::InvalidPanel, "Text transform title cannot be empty"@))
        } else {
            match script_path_failure(ts[i].script@) {
                Some(f) => Some(f),
                None => transforms_failure_from(ts, i + 1, seen.push(spec_lowercase(id))),
            }
        }
    }
}

/// Why the text transforms of `c` are refused, if they are.
pub open spec fn transforms_failure(c: ExtensionContributions) -> Option<Failure> {
    transforms_failure_from(c.text_transforms@, 0, Seq::empty())
}

/// Validate text transforms: non-empty unique ids (compared lowercased),
/// non-empty titles, acceptable script paths.
pub fn validate_text_transforms(contributions: &ExtensionContributions) -> (r: Result<(), ManifestValidationError>)
    ensures
        match r {
            Ok(_) => transforms_failure(*contributions) is None,
            Err(e) => transforms_failure(*contributions) == Some(e@),
        },
{
    let ts = &contributions.text_transforms;
    let mut seen: Vec<String> = Vec::new();
    assert(views(seen@) =~= Seq::<Seq<char>>::empty());
    let mut i: usize = 0;
    while i < ts.len()
        invariant
            i <= ts.len(),
            ts == &contributions.text_transforms,
            transforms_failure(*contributions) == transforms_failure_from(ts@, i as int, views(seen@)),
        decreases ts.len() - i,
    {
        let t = &ts[i];
        let id = trim(t.id.as_str());
        if id.is_empty() {
            return Err(fail_plain(ErrorKind::InvalidPanel, "Text transform ID cannot be empty"));
        }
        let lower = to_lowercase(id);
        if seen_contains(&seen, lower.as_str()) {
            return Err(fail_with(ErrorKind::DuplicateContribution, "Duplicate text transform ID: ", id));
        }
        if trim(t.title.as_str()).is_empty() {
            return Err(fail_plain(ErrorKind::InvalidPanel, "Text transform title cannot be empty"));
        }
        validate_script_path(t.script.as_str())?;
        let ghost old_seen = seen@;
        seen.push(lower);
        proof {
            assert(views(seen@) =~= views(old_seen).push(spec_lowercase(id@)));
        }
        i = i + 1;
    }
    Ok(())
}

// ---------------------------------------------------------------------------
// All script paths of a manifest
// ---------------------------------------------------------------------------

/// The path held by an optional string, as a list of zero or one paths.
pub open spec fn opt_path(o: Option<String>) -> Seq<Seq<char>> {
    match o {
        Some(p) => seq![p@],
        None => Seq::empty(),
    }
}

/// The hook scripts, in the order open, save, close, app start.
pub open spec fn hook_paths(h: Option<crate::extensions::HooksContribution>) -> Seq<Seq<char>> {
    match h {
        Some(h) => opt_path(h.on_file_open) + opt_path(h.on_file_save) + opt_path(h.on_file_close)
            + opt_path(h.on_app_start),
        None => Seq::empty(),
    }
}

/// Every script or file path a manifest names, in the order they are checked:
/// status bar, CSS, keybindings, commands, editor menu, file explorer menu,
/// linters, hooks, text transforms, sidebar panels.
pub open spec fn all_script_paths(c: ExtensionContributions) -> Seq<Seq<char>> {
    status_paths(c) + css_paths(c) + c.keybindings@.map_values(|k: KeybindingContribution| k.script@)
        + c.commands@.map_values(|k: crate::extensions::CommandContribution| k.script@)
        + editor_paths(c) + explorer_paths(c)
        + c.linters@.map_values(|l: LinterContribution| l.script@) + hook_paths(c.hooks)
        + c.text_transforms@.map_values(|t: TextTransformContribution| t.script@)
        + c.sidebar_panels@.map_values(|p: SidebarPanelContribution| p.script@)
}

/// The status bar script, if any.
pub open spec fn status_paths(c: ExtensionContributions) -> Seq<Seq<char>> {
    match c.status_bar {
        Some(sb) => seq![sb.script@],
        None => Seq::empty(),
    }
}

/// The CSS file, if any.
pub open spec fn css_paths(c: ExtensionContributions) -> Seq<Seq<char>> {
    match c.css {
        Some(css) => seq![css.file@],
        None => Seq::empty(),
    }
}

/// The editor menu scripts.
pub open spec fn editor_paths(c: ExtensionContributions) -> Seq<Seq<char>> {
    match c.context_menus {
        Some(cm) => cm.editor@.map_values(|e: EditorContextMenu| e.script@),
        None => Seq::empty(),
    }
}

/// The file explorer menu scripts.
pub open spec fn explorer_paths(c: ExtensionContributions) -> Seq<Seq<char>> {
    match c.context_menus {
        Some(cm) => cm.file_explorer@.map_values(|e: FileExplorerContextMenu| e.script@),
        None => Seq::empty(),
    }
}

/// The first refused path from index `i` on, if any.
pub open spec fn paths_failure_from(ps: Seq<Seq<char>>, i: int) -> Option<Failure>
    decreases ps.len() - i,
{
    if i < 0 || i >= ps.len() {
        None
    } else {
        match script_path_failure(ps[i]) {
            Some(f) => Some(f),
            None => paths_failure_from(ps, i + 1),
        }
    }
}

/// Why the script paths of `c` are refused, if they are.
pub open spec fn script_paths_failure(c: ExtensionContributions) -> Option<Failure> {
    paths_failure_from(all_script_paths(c), 0)
}

/// The views of a list of string slices.
pub open spec fn str_views(v: Seq<&str>) -> Seq<Seq<char>> {
    v.map_values(|s: &str| s@)
}

proof fn lemma_str_views_push(v: Seq<&str>, s: &str)
    ensures
        str_views(v.push(s)) == str_views(v).push(s@),
{
    assert(str_views(v.push(s)) =~= str_views(v).push(s@));
}

fn append_keybindings_scripts<'a>(all: &mut Vec<&'a str>, items: &'a Vec<KeybindingContribution>)
    ensures
        str_views(final(all)@) == str_views(old(all)@) + items@.map_values(|k: KeybindingContribution| k.script@),
{
    let ghost base = str_views(all@);
    for i in 0..items.len()
        invariant
            str_views(all@) == base + items@.take(i as int).map_values(|k: KeybindingContribution| k.script@),
    {
        let s = items[i].script.as_str();
        proof { lemma_str_views_push(all@, s); }
        all.push(s);
        proof {
            assert(items@.take(i + 1).map_values(|k: KeybindingContribution| k.script@)
                =~= items@.take(i as int).map_values(|k: KeybindingContribution| k.script@).push(items@[i as int].script@));
        }
    }
    proof {
        assert(items@.take(items@.len() as int) =~= items@);
    }
}

fn append_commands_scripts<'a>(all: &mut Vec<&'a str>, items: &'a Vec<crate::extensions::CommandContribution>)
    ensures
        str_views(final(all)@) == str_views(old(all)@) + items@.map_values(|k: crate::extensions::CommandContribution| k.script@),
{
    let ghost base = str_views(all@);
    for i in 0..items.len()
        invariant
            str_views(all@) == base + items@.take(i as int).map_values(|k: crate::extensions::CommandContribution| k.script@),
    {
        let s = items[i].script.as_str();
        proof { lemma_str_views_push(all@, s); }
        all.push(s);
        proof {
            assert(items@.take(i + 1).map_values(|k: crate::extensions::CommandContribution| k.script@)
                =~= items@.take(i as int).map_values(|k: crate::extensions::CommandContribution| k.script@).push(items@[i as int].script@));
        }
    }
    proof {
        assert(items@.take(items@.len() as int) =~= items@);
    }
}

fn append_editor_scripts<'a>(all: &mut Vec<&'a str>, items: &'a Vec<EditorContextMenu>)
    ensures
        str_views(final(all)@) == str_views(old(all)@) + items@.map_values(|e: EditorContextMenu| e.script@),
{
    let ghost base = str_views(all@);
    for i in 0..items.len()
        invariant
            str_views(all@) == base + items@.take(i as int).map_values(|e: EditorContextMenu| e.script@),
    {
        let s = items[i].script.as_str();
        proof { lemma_str_views_push(all@, s); }
        all.push(s);
        proof {
            assert(items@.take(i + 1).map_values(|e: EditorContextMenu| e.script@)
                =~= items@.take(i as int).map_values(|e: EditorContextMenu| e.script@).push(items@[i as int].script@));
        }
    }
    proof {
        assert(items@.take(items@.len() as int) =~= items@);
    }
}

fn append_explorer_scripts<'a>(all: &mut Vec<&'a str>, items: &'a Vec<FileExplorerContextMenu>)
    ensures
        str_views(final(all)@) == str_views(old(all)@) + items@.map_values(|e: FileExplorerContextMenu| e.script@),
{
    let ghost base = str_views(all@);
    for i in 0..items.len()
        invariant
            str_views(all@) == base + items@.take(i as int).map_values(|e: FileExplorerContextMenu| e.script@),
    {
        let s = items[i].script.as_str();
        proof { lemma_str_views_push(all@, s); }
        all.push(s);
        proof {
            assert(items@.take(i + 1).map_values(|e: FileExplorerContextMenu| e.script@)
                =~= items@.take(i as int).map_values(|e: FileExplorerContextMenu| e.script@).push(items@[i as int].script@));
        }
    }
    proof {
        assert(items@.take(items@.len() as int) =~= items@);
    }
}

fn append_linters_scripts<'a>(all: &mut Vec<&'a str>, items: &'a Vec<LinterContribution>)
    ensures
        str_views(final(all)@) == str_views(old(all)@) + items@.map_values(|l: LinterContribution| l.script@),
{
    let ghost base = str_views(all@);
    for i in 0..items.len()
        invariant
            str_views(all@) == base + items@.take(i as int).map_values(|l: LinterContribution| l.script@),
    {
        let s = items[i].script.as_str();
        proof { lemma_str_views_push(all@, s); }
        all.push(s);
        proof {
            assert(items@.take(i + 1).map_values(|l: LinterContribution| l.script@)
                =~= items@.take(i as int).map_values(|l: LinterContribution| l.script@).push(items@[i as int].script@));
        }
    }
    proof {
        assert(items@.take(items@.len() as int) =~= items@);
    }
}

fn append_transforms_scripts<'a>(all: &mut Vec<&'a str>, items: &'a Vec<TextTransformContribution>)
    ensures
        str_views(final(all)@) == str_views(old(all)@) + items@.map_values(|t: TextTransformContribution| t.script@),
{
    let ghost base = str_views(all@);
    for i in 0..items.len()
        invariant
            str_views(all@) == base + items@.take(i as int).map_values(|t: TextTransformContribution| t.script@),
    {
        let s = items[i].script.as_str();
        proof { lemma_str_views_push(all@, s); }
        all.push(s);
        proof {
            assert(items@.take(i + 1).map_values(|t: TextTransformContribution| t.script@)
                =~= items@.take(i as int).map_values(|t: TextTransformContribution| t.script@).push(items@[i as int].script@));
        }
    }
    proof {
        assert(items@.take(items@.len() as int) =~= items@);
    }
}

fn append_panels_scripts<'a>(all: &mut Vec<&'a str>, items: &'a Vec<SidebarPanelContribution>)
    ensures
        str_views(final(all)@) == str_views(old(all)@) + items@.map_values(|p: SidebarPanelContribution| p.script@),
{
    let ghost base = str_views(all@);
    for i in 0..items.len()
        invariant
            str_views(all@) == base + items@.take(i as int).map_values(|p: SidebarPanelContribution| p.script@),
    {
        let s = items[i].script.as_str();
        proof { lemma_str_views_push(all@, s); }
        all.push(s);
        proof {
            assert(items@.take(i + 1).map_values(|p: SidebarPanelContribution| p.script@)
                =~= items@.take(i as int).map_values(|p: SidebarPanelContribution| p.script@).push(items@[i as int].script@));
        }
    }
    proof {
        assert(items@.take(items@.len() as int) =~= items@);
    }
}

fn append_opt<'a>(all: &mut Vec<&'a str>, o: &'a Option<String>)
    ensures
        str_views(final(all)@) == str_views(old(all)@) + opt_path(*o),
{
    if let Some(p) = o {
        let s = p.as_str();
        proof { lemma_str_views_push(all@, s); }
        all.push(s);
    } else {
        assert(str_views(all@) =~= str_views(all@) + opt_path(*o));
    }
}

/// Every script path of the contributions, in checking order.
fn collect_script_paths<'a>(c: &'a ExtensionContributions) -> (r: Vec<&'a str>)
    ensures
        str_views(r@) == all_script_paths(*c),
{
    let mut all: Vec<&'a str> = Vec::new();
    assert(str_views(all@) =~= Seq::<Seq<char>>::empty());
    if let Some(sb) = &c.status_bar {
        let s = sb.script.as_str();
        proof { lemma_str_views_push(all@, s); }
        all.push(s);
    }
    assert(str_views(all@) =~= status_paths(*c));
    let ghost a1 = str_views(all@);
    if let Some(css) = &c.css {
        let s = css.file.as_str();
        proof { lemma_str_views_push(all@, s); }
        all.push(s);
    }
    assert(str_views(all@) =~= a1 + css_paths(*c));
    append_keybindings_scripts(&mut all, &c.keybindings);
    append_commands_scripts(&mut all, &c.commands);
    let ghost a2 = str_views(all@);
    if let Some(cm) = &c.context_menus {
        append_editor_scripts(&mut all, &cm.editor);
    }
    assert(str_views(all@) =~= a2 + editor_paths(*c));
    let ghost a3 = str_views(all@);
    if let Some(cm) = &c.context_menus {
        append_explorer_scripts(&mut all, &cm.file_explorer);
    }
    assert(str_views(all@) =~= a3 + explorer_paths(*c));
    append_linters_scripts(&mut all, &c.linters);
    let ghost a4 = str_views(all@);
    if let Some(hooks) = &c.hooks {
        append_opt(&mut all, &hooks.on_file_open);
        append_opt(&mut all, &hooks.on_file_save);
        append_opt(&mut all, &hooks.on_file_close);
        append_opt(&mut all, &hooks.on_app_start);
    }
    assert(str_views(all@) =~= a4 + hook_paths(c.hooks));
    append_transforms_scripts(&mut all, &c.text_transforms);
    append_panels_scripts(&mut all, &c.sidebar_panels);
    assert(str_views(all@) =~= all_script_paths(*c));
    all
}

/// Validate every script path of the contributions, in order. `base_dir`,
/// the extension directory, does not enter the checks.
pub fn validate_script_paths(contributions: &ExtensionContributions, base_dir: &str) -> (r: Result<(), ManifestValidationError>)
    ensures
        match r {
            Ok(_) => script_paths_failure(*contributions) is None,
            Err(e) => script_paths_failure(*contributions) == Some(e@),
        },
{
    let all = collect_script_paths(contributions);
    let mut k: usize = 0;
    while k < all.len()
        invariant
            k <= all.len(),
            str_views(all@) == all_script_paths(*contributions),
            script_paths_failure(*contributions) == paths_failure_from(str_views(all@), k as int),
        decreases all.len() - k,
    {
        validate_script_path(all[k])?;
        k = k + 1;
    }
    Ok(())
}

// ---------------------------------------------------------------------------
// Whole manifests
// ---------------------------------------------------------------------------

/// Why a manifest is refused, if it is: the first failing check among id,
/// version, script paths, keybindings, context menus, linters, sidebar panels
/// and text transforms.
pub open spec fn manifest_failure(m: ExtensionManifest) -> Option<Failure> {
    let c = m.contributions;
    if id_failure(m.id@) is Some {
        id_failure(m.id@)
    } else if version_failure(m.version@) is Some {
        version_failure(m.version@)
    } else if script_paths_failure(c) is Some {
        script_paths_failure(c)
    } else if keybindings_failure(c) is Some {
        keybindings_failure(c)
    } else if context_menus_failure(c) is Some {
        context_menus_failure(c)
    } else if linters_failure(c) is Some {
        linters_failure(c)
    } else if panels_failure(c) is Some {
        panels_failure(c)
    } else {
        transforms_failure(c)
    }
}

/// Validate an extension manifest. `Ok` exactly when `manifest_failure` finds
/// nothing; otherwise the error is the first failure it names.
pub fn validate_manifest(manifest: &ExtensionManifest, base_dir: &str) -> (r: Result<(), ManifestValidationError>)
    ensures
        match r {
            Ok(_) => manifest_failure(*manifest) is None,
            Err(e) => manifest_failure(*manifest) == Some(e@),
        },
{
    validate_id(manifest.id.as_str())?;
    validate_version(manifest.version.as_str())?;
    validate_script_paths(&manifest.contributions, base_dir)?;
    validate_keybindings(&manifest.contributions)?;
    validate_context_menus(&manifest.contributions)?;
    validate_linters(&manifest.contributions)?;
    validate_sidebar_panels(&manifest.contributions)?;
    validate_text_transforms(&manifest.contributions)?;
    Ok(())
}

// ---------------------------------------------------------------------------
// Canonical script paths
// ---------------------------------------------------------------------------

/// Whether `canonicalize_script_path` refuses a script path outright:
/// blank after trimming, or holding `..`, a NUL, a leading `/` or a backslash.
pub open spec fn script_candidate_rejected(script: Seq<char>) -> bool {
    let t = spec_trim(script);
    t.len() == 0 || seq_contains_sub(t, ".."@) || t.contains('\0') || seq_starts_with(t, '/')
        || t.contains('\\')
}

/// The path that `canonicalize_script_path` resolves: the trimmed script
/// joined to the extension directory, unless the script is refused.
pub open spec fn script_candidate(script: Seq<char>, base_dir: Seq<char>) -> Option<Seq<char>> {
    if script_candidate_rejected(script) {
        None
    } else {
        Some(spec_path_join(base_dir, spec_trim(script)))
    }
}

/// `c` lies under `b` as `Path::starts_with` decides it: the components of
/// `b` are the first components of `c`.
pub open spec fn path_starts_with(c: Seq<char>, b: Seq<char>) -> bool {
    let cc = spec_path_components(c);
    let bc = spec_path_components(b);
    bc.len() <= cc.len() && cc.subrange(0, bc.len() as int) == bc
}

/// What `canonicalize_path` returns once the file system has answered with
/// `canonical` (the canonical form of the path, if it has one) and `base`
/// (that of the base directory): the path as given when it has no canonical
/// form; `None` when the canonical path escapes the canonical base
/// directory; else the canonical path.
pub open spec fn canonical_answer(
    path: Seq<char>,
    canonical: Option<Seq<char>>,
    base: Option<Seq<char>>,
) -> Option<Seq<char>> {
    match canonical {
        None => Some(path),
        Some(c) => match base {
            Some(b) => if path_starts_with(c, b) { Some(c) } else { None },
            None => Some(c),
        },
    }
}

/// The text of an optional string.
pub open spec fn opt_text(o: Option<String>) -> Option<Seq<char>> {
    match o {
        Some(s) => Some(s@),
        None => None,
    }
}

/// The path `canonicalize_script_path` would resolve, before asking the file
/// system.
pub fn script_path_candidate(script: &str, base_dir: &str) -> (r: Option<String>)
    ensures
        match script_candidate(script@, base_dir@) {
            Some(p) => r matches Some(s) && s@ == p,
            None => r is None,
        },
{
    let t = trim(script);
    if t.is_empty() || contains_str(t, "..") || contains_char(t, '\0') || starts_with_char(t, '/')
        || contains_char(t, '\\') {
        return None;
    }
    Some(path_join(base_dir, t))
}


/// Whether the path `c` lies under `b`, component by component.
pub fn path_starts_with_exec(c: &str, b: &str) -> (r: bool)
    ensures
        r == path_starts_with(c@, b@),
{
    let cc = path_components(c);
    let bc = path_components(b);
    let ghost cv = cc@.map_values(|s: String| s@);
    let ghost bv = bc@.map_values(|s: String| s@);
    if bc.len() > cc.len() {
        return false;
    }
    let mut i: usize = 0;
    while i < bc.len()
        invariant
            bc.len() <= cc.len(),
            i <= bc.len(),
            cv == cc@.map_values(|s: String| s@),
            bv == bc@.map_values(|s: String| s@),
            cv == spec_path_components(c@),
            bv == spec_path_components(b@),
            forall|k: int| 0 <= k < i ==> cv[k] == bv[k],
        decreases bc.len() - i,
    {
        if !str_eq(cc[i].as_str(), bc[i].as_str()) {
            assert(cv[i as int] != bv[i as int]);
            assert(cv.subrange(0, bv.len() as int)[i as int] == cv[i as int]);
            return false;
        }
        i = i + 1;
    }
    assert(cv.subrange(0, bv.len() as int) =~= bv);
    true
}

/// `canonicalize_path` once the file system has answered (see
/// `canonical_answer`).
pub fn resolve_canonical(path: &str, canonical: Option<String>, base: Option<String>) -> (r: Option<String>)
    ensures
        opt_text(r) == canonical_answer(path@, opt_text(canonical), opt_text(base)),
{
    match canonical {
        None => Some(path.to_owned()),
        Some(c) => match base {
            Some(b) => if path_starts_with_exec(c.as_str(), b.as_str()) {
                Some(c)
            } else {
                None
            },
            None => Some(c),
        },
    }
}

/// Canonicalize a path, returning `None` when it escapes `base_dir`: the
/// file system is asked for the canonical forms of `path` and `base_dir`,
/// and the answer is `canonical_answer` of them. Whatever the file system
/// answers, a path that comes back is `path` itself or an absolute path.
pub fn canonicalize_path(path: &str, base_dir: &str) -> (r: Option<String>)
    ensures
        exists|canonical: Option<Seq<char>>, base: Option<Seq<char>>|
            (canonical matches Some(c) ==> spec_path_is_absolute(c))
            && #[trigger] canonical_answer(path@, canonical, base) == opt_text(r),
        r matches Some(p) ==> p@ == path@ || spec_path_is_absolute(p@),
{
    let canonical = path_canonicalize(path);
    let base = match canonical {
        Some(_) => path_canonicalize(base_dir),
        None => None,
    };
    let r = resolve_canonical(path, canonical, base);
    assert(canonical_answer(path@, opt_text(canonical), opt_text(base)) == opt_text(r));
    r
}

/// Canonicalize a script path relative to the extension directory: `None`
/// when the script is refused (see `script_candidate_rejected`), otherwise
/// `canonicalize_path` of the joined path (see `script_candidate`), which is
/// `None` when the file it names escapes `base_dir`.
pub fn canonicalize_script_path(script: &str, base_dir: &str) -> (r: Option<String>)
    ensures
        script_candidate_rejected(script@) ==> r is None,
        match script_candidate(script@, base_dir@) {
            Some(p) => exists|canonical: Option<Seq<char>>, base: Option<Seq<char>>|
                (canonical matches Some(c) ==> spec_path_is_absolute(c))
                && #[trigger] canonical_answer(p, canonical, base) == opt_text(r),
            None => r is None,
        },
        r matches Some(p) ==> spec_path_is_absolute(p@) || script_candidate(script@, base_dir@) == Some(p@),
{
    match script_path_candidate(script, base_dir) {
        Some(full) => canonicalize_path(full.as_str(), base_dir),
        None => None,
    }
}

// ---------------------------------------------------------------------------
// Laws
// ---------------------------------------------------------------------------

/// A script path that cannot reach outside the extension directory: blank,
/// or (after trimming) not absolute, without `..`, NUL or backslash, and not
/// starting with `/`.
pub open spec fn safe_script_path(p: Seq<char>) -> bool {
    let t = spec_trim(p);
    t.len() == 0 || (!spec_path_is_absolute(t) && !seq_contains_sub(t, ".."@) && !t.contains('\0')
        && !seq_starts_with(t, '/') && !t.contains('\\'))
}

/// Validation accepts exactly the safe script paths.
pub proof fn lemma_script_path_accepted_iff_safe(script: Seq<char>)
    ensures
        script_path_failure(script) is None <==> safe_script_path(script),
{
}

/// A non-blank script path that validation accepts is one that
/// `canonicalize_script_path` resolves (it does not return `None`).
pub proof fn lemma_accepted_script_is_resolved(script: Seq<char>)
    requires
        script_path_failure(script) is None,
        spec_trim(script).len() > 0,
    ensures
        !script_candidate_rejected(script),
{
}

/// A script path that `canonicalize_script_path` resolves, and that is not
/// absolute, is one that validation accepts.
pub proof fn lemma_resolved_script_is_accepted(script: Seq<char>)
    requires
        !script_candidate_rejected(script),
        !spec_path_is_absolute(spec_trim(script)),
    ensures
        script_path_failure(script) is None,
{
}

proof fn lemma_paths_from_safe(ps: Seq<Seq<char>>, i: int)
    requires
        0 <= i,
        paths_failure_from(ps, i) is None,
    ensures
        forall|j: int| i <= j < ps.len() ==> safe_script_path(#[trigger] ps[j]),
    decreases ps.len() - i,
{
    if i < ps.len() {
        lemma_paths_from_safe(ps, i + 1);
        assert forall|j: int| i <= j < ps.len() implies safe_script_path(#[trigger] ps[j]) by {
            if j == i {
                lemma_script_path_accepted_iff_safe(ps[i]);
            }
        }
    }
}

proof fn lemma_paths_failure_first(ps: Seq<Seq<char>>, i: int)
    requires
        0 <= i,
    ensures
        paths_failure_from(ps, i) is None <==> forall|j: int| i <= j < ps.len() ==> (#[trigger] script_path_failure(ps[j])) is None,
        paths_failure_from(ps, i) matches Some(f) ==> exists|j: int| {
            &&& i <= j < ps.len()
            &&& #[trigger] script_path_failure(ps[j]) == Some(f)
            &&& forall|m: int| i <= m < j ==> (#[trigger] script_path_failure(ps[m])) is None
        },
    decreases ps.len() - i,
{
    if i < ps.len() {
        lemma_paths_failure_first(ps, i + 1);
        if script_path_failure(ps[i]) is None {
            if let Some(f) = paths_failure_from(ps, i + 1) {
                let j = choose|j: int| {
                    &&& i + 1 <= j < ps.len()
                    &&& #[trigger] script_path_failure(ps[j]) == Some(f)
                    &&& forall|m: int| i + 1 <= m < j ==> (#[trigger] script_path_failure(ps[m])) is None
                };
                assert forall|m: int| i <= m < j implies (#[trigger] script_path_failure(ps[m])) is None by {}
            }
        } else {
            let f = script_path_failure(ps[i])->0;
            assert(script_path_failure(ps[i]) == Some(f));
        }
    }
}

/// The script paths of the contributions (in the order `all_script_paths`
/// lists them) are accepted exactly when each one is, and a refusal is that
/// of the first path refused.
pub proof fn lemma_script_paths_each(c: ExtensionContributions)
    ensures
        script_paths_failure(c) is None <==> forall|j: int| 0 <= j < all_script_paths(c).len()
            ==> (#[trigger] script_path_failure(all_script_paths(c)[j])) is None,
        script_paths_failure(c) matches Some(f) ==> exists|j: int| {
            &&& 0 <= j < all_script_paths(c).len()
            &&& #[trigger] script_path_failure(all_script_paths(c)[j]) == Some(f)
            &&& forall|m: int| 0 <= m < j ==> (#[trigger] script_path_failure(all_script_paths(c)[m])) is None
        },
{
    lemma_paths_failure_first(all_script_paths(c), 0);
}

/// Every script or file path named by an accepted manifest is safe.
pub proof fn lemma_accepted_manifest_paths_safe(m: ExtensionManifest)
    requires
        manifest_failure(m) is None,
    ensures
        forall|j: int| 0 <= j < all_script_paths(m.contributions).len()
            ==> safe_script_path(#[trigger] all_script_paths(m.contributions)[j]),
{
    lemma_paths_from_safe(all_script_paths(m.contributions), 0);
}

/// The id of an accepted manifest is non-empty, unchanged by lowercasing,
/// made of alphanumerics and hyphens, and neither starts nor ends with a hyphen.
pub proof fn lemma_accepted_manifest_id(m: ExtensionManifest)
    requires
        manifest_failure(m) is None,
    ensures
        m.id@.len() > 0,
        spec_lowercase(m.id@) == m.id@,
        id_chars_ok(m.id@),
        m.id@[0] != '-',
        m.id@[m.id@.len() - 1] != '-',
{
}

/// The trimmed version of an accepted manifest is three non-empty runs of
/// ASCII digits separated by dots.
pub proof fn lemma_accepted_manifest_version(m: ExtensionManifest)
    requires
        manifest_failure(m) is None,
    ensures
        version_chars_ok(spec_trim(m.version@)),
        split_on(spec_trim(m.version@), '.').len() == 3,
        forall|k: int| 0 <= k < 3 ==> (#[trigger] split_on(spec_trim(m.version@), '.')[k]).len() > 0,
{
}

/// A non-empty run of ASCII digits.
pub open spec fn digit_run(p: Seq<char>) -> bool {
    p.len() > 0 && forall|i: int| 0 <= i < p.len() ==> is_ascii_digit_spec(#[trigger] p[i])
}

/// A version is accepted exactly when its trimmed text is three non-empty
/// runs of ASCII digits joined by dots (`1.0.0`, ` 01.2.3 `; not `1..0`,
/// `1.0.x` or `1.0`).
pub proof fn lemma_version_accepted_iff_three_numbers(version: Seq<char>)
    ensures
        version_failure(version) is None <==> exists|a: Seq<char>, b: Seq<char>, c: Seq<char>|
            digit_run(a) && digit_run(b) && digit_run(c)
            && #[trigger] spec_trim(version) == a + seq!['.'] + b + seq!['.'] + c,
{
    let n = spec_trim(version);
    let dot = seq!['.'];
    if version_failure(version) is None {
        let parts = split_on(n, '.');
        lemma_split_join(n, '.');
        let (a, b, c) = (parts[0], parts[1], parts[2]);
        assert(parts.drop_last().drop_last() =~= seq![a]);
        assert(join_on(parts.drop_last(), '.') == join_on(parts.drop_last().drop_last(), '.') + dot + b);
        assert(n == a + dot + b + dot + c);
        assert(!a.contains('.') && !b.contains('.') && !c.contains('.')) by {
            assert(parts[0] == a && parts[1] == b && parts[2] == c);
        }
        assert forall|i: int| 0 <= i < a.len() implies is_ascii_digit_spec(#[trigger] a[i]) by {
            assert(n[i] == a[i]);
            if a[i] == '.' {
                assert(a.contains('.'));
            }
        }
        assert forall|i: int| 0 <= i < b.len() implies is_ascii_digit_spec(#[trigger] b[i]) by {
            assert(n[a.len() + 1 + i] == b[i]);
            if b[i] == '.' {
                assert(b.contains('.'));
            }
        }
        assert forall|i: int| 0 <= i < c.len() implies is_ascii_digit_spec(#[trigger] c[i]) by {
            assert(n[a.len() + b.len() + 2 + i] == c[i]);
            if c[i] == '.' {
                assert(c.contains('.'));
            }
        }
        assert(digit_run(a) && digit_run(b) && digit_run(c));
    }
    if exists|a: Seq<char>, b: Seq<char>, c: Seq<char>|
        digit_run(a) && digit_run(b) && digit_run(c) && #[trigger] spec_trim(version) == a + seq!['.'] + b + seq!['.'] + c {
        let (a, b, c) = choose|a: Seq<char>, b: Seq<char>, c: Seq<char>|
            digit_run(a) && digit_run(b) && digit_run(c) && #[trigger] spec_trim(version) == a + seq!['.'] + b + seq!['.'] + c;
        assert(!a.contains('.')) by {
            if a.contains('.') {
                let w = choose|w: int| 0 <= w < a.len() && a[w] == '.';
                assert(is_ascii_digit_spec(a[w]));
            }
        }
        assert(!b.contains('.')) by {
            if b.contains('.') {
                let w = choose|w: int| 0 <= w < b.len() && b[w] == '.';
                assert(is_ascii_digit_spec(b[w]));
            }
        }
        assert(!c.contains('.')) by {
            if c.contains('.') {
                let w = choose|w: int| 0 <= w < c.len() && c[w] == '.';
                assert(is_ascii_digit_spec(c[w]));
            }
        }
        lemma_split_single(a, '.');
        lemma_split_single(b, '.');
        lemma_split_single(c, '.');
        lemma_split_concat(b, c, '.');
        let bc = b + dot + c;
        lemma_split_concat(a, bc, '.');
        assert(n =~= a + dot + bc);
        let parts = split_on(n, '.');
        assert(parts =~= seq![a, b, c]);
        assert forall|i: int| 0 <= i < n.len() implies is_ascii_digit_spec(#[trigger] n[i]) || n[i] == '.' by {
            if i < a.len() {
                assert(n[i] == a[i]);
            } else if i == a.len() {
            } else if i < a.len() + 1 + b.len() {
                assert(n[i] == b[i - a.len() - 1]);
            } else if i == a.len() + 1 + b.len() {
            } else {
                assert(n[i] == c[i - a.len() - b.len() - 2]);
            }
        }
        assert(parts[0].len() > 0 && parts[1].len() > 0 && parts[2].len() > 0);
    }
}

/// The normalized key of keybinding `k`: trimmed, then lowercased.
pub open spec fn key_norm(kbs: Seq<KeybindingContribution>, k: int) -> Seq<char> {
    spec_lowercase(spec_trim(kbs[k].key@))
}

proof fn lemma_keys_distinct_from(kbs: Seq<KeybindingContribution>, i: int, seen: Seq<Seq<char>>)
    requires
        0 <= i,
        keybindings_failure_from(kbs, i, seen) is None,
    ensures
        forall|j: int| i <= j < kbs.len() ==> !seen.contains(#[trigger] key_norm(kbs, j)),
        forall|j: int, k: int| i <= j < k < kbs.len() ==> key_norm(kbs, j) != key_norm(kbs, k),
    decreases kbs.len() - i,
{
    if i < kbs.len() {
        let n = key_norm(kbs, i);
        lemma_keys_distinct_from(kbs, i + 1, seen.push(n));
        assert forall|j: int| i <= j < kbs.len() implies !seen.contains(#[trigger] key_norm(kbs, j)) by {
            if j > i {
                if seen.contains(key_norm(kbs, j)) {
                    let w = choose|w: int| 0 <= w < seen.len() && seen[w] == key_norm(kbs, j);
                    assert(seen.push(n)[w] == key_norm(kbs, j));
                }
            }
        }
        assert forall|j: int, k: int| i <= j < k < kbs.len() implies key_norm(kbs, j) != key_norm(kbs, k) by {
            if j == i {
                assert(seen.push(n)[seen.len() as int] == n);
                assert(!seen.push(n).contains(key_norm(kbs, k)));
            }
        }
    }
}

/// The keys of an accepted manifest's keybindings are pairwise distinct
/// once trimmed and lowercased.
pub proof fn lemma_accepted_manifest_keys_distinct(m: ExtensionManifest)
    requires
        manifest_failure(m) is None,
    ensures
        forall|j: int, k: int| 0 <= j < k < m.contributions.keybindings@.len()
            ==> key_norm(m.contributions.keybindings@, j) != key_norm(m.contributions.keybindings@, k),
{
    lemma_keys_distinct_from(m.contributions.keybindings@, 0, Seq::empty());
}

} // verus!
