//! What the editor runs for script extensions: the lifecycle hook scripts,
//! the linters for a file, the sidebar panel scripts, the names of the
//! actions behind keybindings and menu entries, and the status bar line.

use vstd::prelude::*;
use crate::extensions::{Extension, HooksContribution, LinterContribution, SidebarPanelContribution};
use crate::extensions::manager::ext_ids;
use crate::extensions::native::{first_index_from_seq, first_index_of, NativeExtension, NativeRegistry};
use crate::paths::{path_extension, path_file_name, path_join, spec_path_extension, spec_path_file_name, spec_path_join};
use crate::text::{
    concat, decimal, decimal_string, is_alphanumeric, spec_is_alphanumeric, spec_lowercase,
    spec_trim, split_chars, split_on, str_eq, string_from_chars, string_of,
    to_lowercase, trim, chars_of, lemma_split_single, lemma_split_concat,
};

verus! {

proof fn lemma_take_step<T>(s: Seq<T>, i: int)
    requires
        0 <= i < s.len(),
    ensures
        s.take(i + 1).drop_last() == s.take(i),
        s.take(i + 1).last() == s[i],
{
    assert(s.take(i + 1).drop_last() =~= s.take(i));
}

// ---------------------------------------------------------------------------
// Lifecycle hooks
// ---------------------------------------------------------------------------

/// The lifecycle events an extension can hook.
#[derive(Debug, Clone, Copy, PartialEq, Eq, Structural)]
pub enum HookKind {
    AppStart,
    FileOpen,
    FileSave,
    FileClose,
}

/// The script an extension's hooks name for an event.
pub open spec fn hook_script(h: HooksContribution, kind: HookKind) -> Option<String> {
    match kind {
        HookKind::AppStart => h.on_app_start,
        HookKind::FileOpen => h.on_file_open,
        HookKind::FileSave => h.on_file_save,
        HookKind::FileClose => h.on_file_close,
    }
}

/// The hook scripts to run for an event: those of the enabled extensions
/// that hook it, each joined to its extension's directory, in order.
pub open spec fn hook_scripts_of(exts: Seq<Extension>, kind: HookKind) -> Seq<Seq<char>>
    decreases exts.len(),
{
    if exts.len() == 0 {
        Seq::empty()
    } else {
        let e = exts.last();
        let prev = hook_scripts_of(exts.drop_last(), kind);
        if e.manifest.enabled && e.manifest.contributions.hooks is Some
            && hook_script(e.manifest.contributions.hooks->0, kind) is Some {
            prev.push(spec_path_join(e.path@, hook_script(e.manifest.contributions.hooks->0, kind)->0@))
        } else {
            prev
        }
    }
}

fn hook_of(h: &HooksContribution, kind: HookKind) -> (r: &Option<String>)
    ensures
        *r == hook_script(*h, kind),
{
    match kind {
        HookKind::AppStart => &h.on_app_start,
        HookKind::FileOpen => &h.on_file_open,
        HookKind::FileSave => &h.on_file_save,
        HookKind::FileClose => &h.on_file_close,
    }
}

/// The hook scripts to run for an event (see `hook_scripts_of`); the file
/// hooks are given the file's path as their argument.
pub fn hook_scripts(exts: &[Extension], kind: HookKind) -> (r: Vec<String>)
    ensures
        r@.map_values(|s: String| s@) == hook_scripts_of(exts@, kind),
{
    let mut r: Vec<String> = Vec::new();
    for i in 0..exts.len()
        invariant
            r@.map_values(|s: String| s@) == hook_scripts_of(exts@.take(i as int), kind),
    {
        proof {
            lemma_take_step(exts@, i as int);
        }
        let e = &exts[i];
        if e.manifest.enabled {
            match &e.manifest.contributions.hooks {
                Some(h) => match hook_of(h, kind) {
                    Some(script) => {
                        let ghost before = r@.map_values(|s: String| s@);
                        r.push(path_join(e.path.as_str(), script.as_str()));
                        assert(r@.map_values(|s: String| s@) =~= before.push(
                            spec_path_join(e.path@, script@),
                        ));
                    },
                    None => {},
                },
                None => {},
            }
        }
    }
    proof {
        assert(exts@.take(exts@.len() as int) =~= exts@);
    }
    r
}

// ---------------------------------------------------------------------------
// Linters
// ---------------------------------------------------------------------------

/// The extension of a file, lowercased; empty when it has none.
pub open spec fn file_ext_lower(path: Seq<char>) -> Seq<char> {
    match spec_path_extension(path) {
        Some(e) => spec_lowercase(e),
        None => Seq::empty(),
    }
}

/// The lowercased extension of the file at `path` (empty when it has none).
pub fn file_extension_lower(path: &str) -> (r: String)
    ensures
        r@ == file_ext_lower(path@),
{
    match path_extension(path) {
        Some(e) => to_lowercase(e.as_str()),
        None => String::new(),
    }
}

/// A linter applies to files whose lowercased extension is one of its
/// languages, lowercased.
pub open spec fn linter_applies(l: LinterContribution, file_ext: Seq<char>) -> bool {
    exists|k: int| 0 <= k < l.languages@.len() && spec_lowercase(#[trigger] l.languages@[k]@) == file_ext
}

/// The scripts of the linters in `ls` that apply, joined to `dir`, each
/// with the extension's name.
pub open spec fn applying_linters(ls: Seq<LinterContribution>, dir: Seq<char>, name: Seq<char>, file_ext: Seq<char>) -> Seq<(Seq<char>, Seq<char>)>
    decreases ls.len(),
{
    if ls.len() == 0 {
        Seq::empty()
    } else {
        let prev = applying_linters(ls.drop_last(), dir, name, file_ext);
        if linter_applies(ls.last(), file_ext) {
            prev.push((name, spec_path_join(dir, ls.last().script@)))
        } else {
            prev
        }
    }
}

/// The linters to run on a file with this (lowercased) extension: those of
/// the enabled script extensions (built-in ones lint natively) that apply,
/// as (extension name, script path), in order.
pub open spec fn linters_for(exts: Seq<Extension>, file_ext: Seq<char>) -> Seq<(Seq<char>, Seq<char>)>
    decreases exts.len(),
{
    if exts.len() == 0 {
        Seq::empty()
    } else {
        let e = exts.last();
        let prev = linters_for(exts.drop_last(), file_ext);
        if e.manifest.enabled && !e.manifest.is_native {
            prev + applying_linters(e.manifest.contributions.linters@, e.path@, e.manifest.name@, file_ext)
        } else {
            prev
        }
    }
}

fn applies(l: &LinterContribution, file_ext: &str) -> (r: bool)
    ensures
        r == linter_applies(*l, file_ext@),
{
    let mut k: usize = 0;
    while k < l.languages.len()
        invariant
            k <= l.languages@.len(),
            forall|j: int| 0 <= j < k ==> spec_lowercase(#[trigger] l.languages@[j]@) != file_ext@,
        decreases l.languages.len() - k,
    {
        let low = to_lowercase(l.languages[k].as_str());
        if str_eq(low.as_str(), file_ext) {
            return true;
        }
        k = k + 1;
    }
    false
}

/// The linters to run on a file with this lowercased extension (see
/// `linters_for`).
pub fn linter_scripts(exts: &[Extension], file_ext: &str) -> (r: Vec<(String, String)>)
    ensures
        r@.map_values(|p: (String, String)| (p.0@, p.1@)) == linters_for(exts@, file_ext@),
{
    let mut r: Vec<(String, String)> = Vec::new();
    for i in 0..exts.len()
        invariant
            r@.map_values(|p: (String, String)| (p.0@, p.1@)) == linters_for(exts@.take(i as int), file_ext@),
    {
        proof {
            lemma_take_step(exts@, i as int);
        }
        let e = &exts[i];
        if e.manifest.enabled && !e.manifest.is_native {
            let ghost prev = linters_for(exts@.take(i as int), file_ext@);
            let ls = &e.manifest.contributions.linters;
            for j in 0..ls.len()
                invariant
                    r@.map_values(|p: (String, String)| (p.0@, p.1@)) == prev + applying_linters(
                        ls@.take(j as int),
                        e.path@,
                        e.manifest.name@,
                        file_ext@,
                    ),
            {
                proof {
                    lemma_take_step(ls@, j as int);
                }
                if applies(&ls[j], file_ext) {
                    let ghost before = r@.map_values(|p: (String, String)| (p.0@, p.1@));
                    r.push((string_of(e.manifest.name.as_str()), path_join(e.path.as_str(), ls[j].script.as_str())));
                    assert(r@.map_values(|p: (String, String)| (p.0@, p.1@)) =~= before.push(
                        (e.manifest.name@, spec_path_join(e.path@, ls@[j as int].script@)),
                    ));
                    assert(prev + applying_linters(ls@.take(j + 1), e.path@, e.manifest.name@, file_ext@)
                        =~= before.push((e.manifest.name@, spec_path_join(e.path@, ls@[j as int].script@))));
                }
            }
            proof {
                assert(ls@.take(ls@.len() as int) =~= ls@);
            }
        }
    }
    proof {
        assert(exts@.take(exts@.len() as int) =~= exts@);
    }
    r
}

/// How serious a lint is.
#[derive(Debug, Clone, Copy, PartialEq, Eq, Structural)]
pub enum LintSeverity {
    Error,
    Warning,
    Info,
}

/// The severity a linter script reports: `error`, `warning`, anything else
/// counts as information.
pub fn severity_from(s: &str) -> (r: LintSeverity)
    ensures
        r == (if s@ == "error"@ {
            LintSeverity::Error
        } else if s@ == "warning"@ {
            LintSeverity::Warning
        } else {
            LintSeverity::Info
        }),
{
    if str_eq(s, "error") {
        LintSeverity::Error
    } else if str_eq(s, "warning") {
        LintSeverity::Warning
    } else {
        LintSeverity::Info
    }
}

// ---------------------------------------------------------------------------
// Sidebar panels
// ---------------------------------------------------------------------------

/// Position of the first (extension, panel) pair, in order, whose enabled
/// extension has id `ext_id` and whose panel has id `panel_id`.
pub open spec fn panel_hit(exts: Seq<Extension>, ext_id: Seq<char>, panel_id: Seq<char>, i: int, j: int) -> bool {
    &&& 0 <= i < exts.len()
    &&& exts[i].manifest.id@ == ext_id
    &&& exts[i].manifest.enabled
    &&& 0 <= j < exts[i].manifest.contributions.sidebar_panels@.len()
    &&& exts[i].manifest.contributions.sidebar_panels@[j].id@ == panel_id
}

/// The script behind the sidebar panel `panel_id` of the enabled extension
/// `ext_id`, joined to that extension's directory; `None` when there is no
/// such panel.
pub fn sidebar_panel_script(exts: &[Extension], ext_id: &str, panel_id: &str) -> (r: Option<String>)
    ensures
        match r {
            Some(p) => exists|i: int, j: int| {
                &&& panel_hit(exts@, ext_id@, panel_id@, i, j)
                &&& (forall|i2: int, j2: int| panel_hit(exts@, ext_id@, panel_id@, i2, j2) ==> i < i2 || (i == i2 && j <= j2))
                &&& p@ == spec_path_join(exts@[i].path@, exts@[i].manifest.contributions.sidebar_panels@[j].script@)
            },
            None => forall|i: int, j: int| !panel_hit(exts@, ext_id@, panel_id@, i, j),
        },
{
    let mut i: usize = 0;
    while i < exts.len()
        invariant
            i <= exts@.len(),
            forall|i2: int, j2: int| 0 <= i2 < i ==> !panel_hit(exts@, ext_id@, panel_id@, i2, j2),
        decreases exts.len() - i,
    {
        let e = &exts[i];
        if str_eq(e.manifest.id.as_str(), ext_id) && e.manifest.enabled {
            let ps = &e.manifest.contributions.sidebar_panels;
            let mut j: usize = 0;
            while j < ps.len()
                invariant
                    i < exts@.len(),
                    *e == exts@[i as int],
                    ps == &e.manifest.contributions.sidebar_panels,
                    e.manifest.id@ == ext_id@,
                    e.manifest.enabled,
                    j <= ps@.len(),
                    forall|i2: int, j2: int| 0 <= i2 < i ==> !panel_hit(exts@, ext_id@, panel_id@, i2, j2),
                    forall|j2: int| 0 <= j2 < j ==> !panel_hit(exts@, ext_id@, panel_id@, i as int, j2),
                decreases ps.len() - j,
            {
                if str_eq(ps[j].id.as_str(), panel_id) {
                    assert(panel_hit(exts@, ext_id@, panel_id@, i as int, j as int));
                    return Some(path_join(e.path.as_str(), ps[j].script.as_str()));
                }
                j = j + 1;
            }
            assert forall|i2: int, j2: int| 0 <= i2 < i + 1 implies !panel_hit(exts@, ext_id@, panel_id@, i2, j2) by {
                if i2 == i && panel_hit(exts@, ext_id@, panel_id@, i2, j2) {
                    assert(j2 < j);
                }
            }
        }
        i = i + 1;
    }
    None
}

// ---------------------------------------------------------------------------
// Action names and accelerators
// ---------------------------------------------------------------------------

/// The accelerator text for one `+`-separated part of a key description:
/// modifier names (in any case) become GTK modifiers, any other key is kept
/// trimmed and lowercased (`L` gives `l`).
pub open spec fn accel_part(part: Seq<char>) -> Seq<char> {
    let t = spec_trim(part);
    let l = spec_lowercase(t);
    if l == "ctrl"@ || l == "control"@ {
        "<Control>"@
    } else if l == "shift"@ {
        "<Shift>"@
    } else if l == "alt"@ {
        "<Alt>"@
    } else if l == "super"@ || l == "meta"@ {
        "<Super>"@
    } else {
        l
    }
}

/// The accelerator text of each part, concatenated.
pub open spec fn accel_of(parts: Seq<Seq<char>>) -> Seq<char>
    decreases parts.len(),
{
    if parts.len() == 0 {
        Seq::empty()
    } else {
        accel_of(parts.drop_last()) + accel_part(parts.last())
    }
}

fn accel_piece(part: &str) -> (r: String)
    ensures
        r@ == accel_part(part@),
{
    let t = trim(part);
    let l = to_lowercase(t);
    if str_eq(l.as_str(), "ctrl") || str_eq(l.as_str(), "control") {
        string_of("<Control>")
    } else if str_eq(l.as_str(), "shift") {
        string_of("<Shift>")
    } else if str_eq(l.as_str(), "alt") {
        string_of("<Alt>")
    } else if str_eq(l.as_str(), "super") || str_eq(l.as_str(), "meta") {
        string_of("<Super>")
    } else {
        l
    }
}

/// The GTK accelerator for a key description: `Ctrl+Shift+L` gives
/// `<Control><Shift>l`.
pub fn key_string_to_gtk_accel(key: &str) -> (r: String)
    ensures
        r@ == accel_of(split_on(key@, '+')),
{
    let cs = chars_of(key);
    let parts = split_chars(&cs, '+');
    let ghost ps = split_on(key@, '+');
    let mut accel = String::new();
    for i in 0..parts.len()
        invariant
            cs@ == key@,
            ps == split_on(key@, '+'),
            parts@.len() == ps.len(),
            forall|k: int| 0 <= k < parts@.len() ==> (#[trigger] parts@[k])@ == ps[k],
            accel@ == accel_of(ps.take(i as int)),
    {
        proof {
            lemma_take_step(ps, i as int);
        }
        let part = string_from_chars(&parts[i]);
        let piece = accel_piece(part.as_str());
        accel.append(piece.as_str());
    }
    proof {
        assert(ps.take(ps.len() as int) =~= ps);
    }
    accel
}

/// Each `+`-separated part of a key description maps on its own: a
/// modifier name, trimmed and in any case, becomes its GTK modifier token
/// (`ctrl`/`control` → `<Control>`, `shift` → `<Shift>`, `alt` → `<Alt>`,
/// `super`/`meta` → `<Super>`), never the name itself; any other part
/// becomes the trimmed key, lowercased.
pub proof fn lemma_accel_part_tokens(part: Seq<char>)
    ensures
        ({
            let l = spec_lowercase(spec_trim(part));
            &&& (l == "ctrl"@ || l == "control"@) ==> accel_part(part) == "<Control>"@
            &&& l == "shift"@ ==> accel_part(part) == "<Shift>"@
            &&& l == "alt"@ ==> accel_part(part) == "<Alt>"@
            &&& (l == "super"@ || l == "meta"@) ==> accel_part(part) == "<Super>"@
            &&& !(l == "ctrl"@ || l == "control"@ || l == "shift"@ || l == "alt"@ || l == "super"@ || l == "meta"@)
                ==> accel_part(part) == l
            &&& (l == "ctrl"@ || l == "control"@ || l == "shift"@ || l == "alt"@ || l == "super"@ || l == "meta"@)
                ==> accel_part(part) != l && accel_part(part)[0] == '<'
        }),
{
    reveal_strlit("<Control>");
    reveal_strlit("<Shift>");
    reveal_strlit("<Alt>");
    reveal_strlit("<Super>");
    reveal_strlit("ctrl");
    reveal_strlit("control");
    reveal_strlit("shift");
    reveal_strlit("alt");
    reveal_strlit("super");
    reveal_strlit("meta");
    let l = spec_lowercase(spec_trim(part));
    assert("super"@[1] != "shift"@[1]);
    assert("meta"@[0] != "ctrl"@[0]);
    assert("super"@ != "shift"@);
    assert("meta"@ != "ctrl"@);
    if l == "ctrl"@ || l == "control"@ || l == "shift"@ || l == "alt"@ || l == "super"@ || l == "meta"@ {
        assert(accel_part(part)[0] == '<');
        assert(l[0] != '<');
    }
}

/// The accelerator of `mods + "+" + key` is the accelerator of `mods`
/// followed by that of `key`, and a description without `+` is one part:
/// the parts of a key description are translated one by one, in order.
pub proof fn lemma_accel_of_plus(mods: Seq<char>, key: Seq<char>)
    requires
        !key.contains('+'),
    ensures
        accel_of(split_on(key, '+')) == accel_part(key),
        accel_of(split_on(mods + seq!['+'] + key, '+')) == accel_of(split_on(mods, '+')) + accel_part(key),
{
    lemma_split_single(key, '+');
    assert(seq![key].drop_last() =~= Seq::<Seq<char>>::empty());
    assert(accel_of(Seq::<Seq<char>>::empty()) == Seq::<char>::empty());
    assert(accel_of(seq![key]) =~= accel_part(key));
    lemma_split_concat(mods, key, '+');
    let ps = split_on(mods, '+');
    assert((ps + seq![key]).drop_last() =~= ps);
    assert((ps + seq![key]).last() == key);
}

/// A title made into an action name: lowercased, every character that is
/// not alphanumeric replaced by `-`.
pub open spec fn sanitized(s: Seq<char>) -> Seq<char> {
    spec_lowercase(s).map_values(|c: char| if spec_is_alphanumeric(c) { c } else { '-' })
}

/// Make a title usable in an action name (see `sanitized`).
pub fn sanitize_action_name(s: &str) -> (r: String)
    ensures
        r@ == sanitized(s@),
{
    let low = to_lowercase(s);
    let cs = chars_of(low.as_str());
    let mut out: Vec<char> = Vec::new();
    for i in 0..cs.len()
        invariant
            cs@ == spec_lowercase(s@),
            out@ == cs@.take(i as int).map_values(|c: char| if spec_is_alphanumeric(c) { c } else { '-' }),
    {
        let c = cs[i];
        if is_alphanumeric(c) {
            out.push(c);
        } else {
            out.push('-');
        }
        assert(out@ =~= cs@.take(i + 1).map_values(|c: char| if spec_is_alphanumeric(c) { c } else { '-' }));
    }
    assert(cs@.take(cs@.len() as int) =~= cs@);
    string_from_chars(&out)
}

/// The action behind an extension keybinding: `ext-<id>-<sanitized title>`.
pub fn keybinding_action_name(ext_id: &str, title: &str) -> (r: String)
    ensures
        r@ == "ext-"@ + ext_id@ + "-"@ + sanitized(title@),
{
    let mut r = string_of("ext-");
    r.append(ext_id);
    r.append("-");
    let t = sanitize_action_name(title);
    r.append(t.as_str());
    r
}

/// The label of an editor context menu entry made into an action name
/// part: lowercased, spaces replaced by `-`.
pub open spec fn label_slug(label: Seq<char>) -> Seq<char> {
    spec_lowercase(label).map_values(|c: char| if c == ' ' { '-' } else { c })
}

/// The action behind an editor context menu entry:
/// `ext-editor-ctx-<lowercased label, spaces as dashes>`.
pub fn editor_context_action_name(label: &str) -> (r: String)
    ensures
        r@ == "ext-editor-ctx-"@ + label_slug(label@),
{
    let low = to_lowercase(label);
    let cs = chars_of(low.as_str());
    let mut out: Vec<char> = Vec::new();
    for i in 0..cs.len()
        invariant
            cs@ == spec_lowercase(label@),
            out@ == cs@.take(i as int).map_values(|c: char| if c == ' ' { '-' } else { c }),
    {
        let c = cs[i];
        if c == ' ' {
            out.push('-');
        } else {
            out.push(c);
        }
        assert(out@ =~= cs@.take(i + 1).map_values(|c: char| if c == ' ' { '-' } else { c }));
    }
    assert(cs@.take(cs@.len() as int) =~= cs@);
    let slug = string_from_chars(&out);
    concat("ext-editor-ctx-", slug.as_str())
}

// ---------------------------------------------------------------------------
// The status bar line
// ---------------------------------------------------------------------------

/// The name shown for the active file: its file name, `Unknown` when the
/// path has none, `Untitled` when there is no file.
pub open spec fn shown_name(path: Option<Seq<char>>) -> Seq<char> {
    match path {
        Some(p) => match spec_path_file_name(p) {
            Some(n) => n,
            None => "Unknown"@,
        },
        None => "Untitled"@,
    }
}

/// The status bar line: `line:column`, then, for a named file, its name,
/// its size part and the extensions' text after ` | `.
pub open spec fn status_line(line: nat, column: nat, path: Option<Seq<char>>, size_part: Seq<char>, ext_text: Seq<char>) -> Seq<char> {
    let name = shown_name(path);
    let pos = decimal(line) + ":"@ + decimal(column);
    let ext_part = if ext_text.len() == 0 { Seq::empty() } else { " | "@ + ext_text };
    if name == "Untitled"@ {
        pos
    } else {
        pos + " | "@ + name + size_part + ext_part
    }
}

/// The status bar line for the cursor at `line`:`column` (counted from 1)
/// in the file at `path` (see `status_line`); `size_part` is the file size
/// already formatted with its leading ` | `, or empty.
pub fn status_line_text(line: u64, column: u64, path: Option<&str>, size_part: &str, ext_text: &str) -> (r: String)
    ensures
        r@ == status_line(line as nat, column as nat, crate::extensions::native::opt_view(path), size_part@, ext_text@),
{
    let name = match path {
        Some(p) => match path_file_name(p) {
            Some(n) => n,
            None => string_of("Unknown"),
        },
        None => string_of("Untitled"),
    };
    let mut r = decimal_string(line);
    r.append(":");
    let c = decimal_string(column);
    r.append(c.as_str());
    if str_eq(name.as_str(), "Untitled") {
        return r;
    }
    r.append(" | ");
    r.append(name.as_str());
    r.append(size_part);
    if ext_text.unicode_len() > 0 {
        r.append(" | ");
        r.append(ext_text);
    }
    r
}

// ---------------------------------------------------------------------------
// Refreshing after a toggle
// ---------------------------------------------------------------------------

/// A part of the editor to refresh after an extension was enabled or
/// disabled.
pub enum RefreshStep {
    /// The built-in extension's own state.
    Native,
    /// The custom CSS.
    Css,
    /// The status bar text.
    StatusBar,
    /// The extension's keybinding actions.
    Keybindings,
    /// These editor context menu actions, and the menus of the open editors.
    EditorMenus(Vec<String>),
    /// The activity bar buttons of the panels with these titles.
    SidebarPanels(Vec<String>),
}

/// A step as (kind, names): 0 native, 1 CSS, 2 status bar, 3 keybindings,
/// 4 editor menus (action names), 5 sidebar panels (titles).
pub open spec fn step_view(s: RefreshStep) -> (int, Seq<Seq<char>>) {
    match s {
        RefreshStep::Native => (0, Seq::empty()),
        RefreshStep::Css => (1, Seq::empty()),
        RefreshStep::StatusBar => (2, Seq::empty()),
        RefreshStep::Keybindings => (3, Seq::empty()),
        RefreshStep::EditorMenus(v) => (4, v@.map_values(|x: String| x@)),
        RefreshStep::SidebarPanels(v) => (5, v@.map_values(|x: String| x@)),
    }
}

/// `step` when `present`, else nothing.
pub open spec fn step_if(present: bool, step: (int, Seq<Seq<char>>)) -> Seq<(int, Seq<Seq<char>>)> {
    if present { seq![step] } else { Seq::empty() }
}

/// The steps for the contributions of a script extension: CSS, status bar,
/// keybindings, editor context menu actions, sidebar panels, each when
/// contributed.
/// The step for the editor context menu entries, when there are any.
pub open spec fn menu_steps(c: crate::extensions::ExtensionContributions) -> Seq<(int, Seq<Seq<char>>)> {
    match c.context_menus {
        Some(m) => step_if(
            m.editor@.len() > 0,
            (4, m.editor@.map_values(|e: crate::extensions::EditorContextMenu| "ext-editor-ctx-"@ + label_slug(e.label@))),
        ),
        None => Seq::empty(),
    }
}

pub open spec fn contribution_steps(c: crate::extensions::ExtensionContributions) -> Seq<(int, Seq<Seq<char>>)> {
    step_if(c.css is Some, (1, Seq::empty()))
        + step_if(c.status_bar is Some, (2, Seq::empty()))
        + step_if(c.keybindings@.len() > 0, (3, Seq::empty()))
        + menu_steps(c)
        + step_if(c.sidebar_panels@.len() > 0, (5, c.sidebar_panels@.map_values(|p: SidebarPanelContribution| p.title@)))
}

/// What to refresh after extension `id` was toggled: a built-in one's own
/// state; else the contributions of the first loaded extension with that
/// id; nothing when there is none.
pub open spec fn refresh_plan(native_ids: Seq<Seq<char>>, exts: Seq<Extension>, id: Seq<char>) -> Seq<(int, Seq<Seq<char>>)> {
    if native_ids.contains(id) {
        seq![(0, Seq::empty())]
    } else {
        match first_index_of(ext_ids(exts), id) {
            Some(k) => contribution_steps(exts[k].manifest.contributions),
            None => Seq::empty(),
        }
    }
}

fn push_step(steps: &mut Vec<RefreshStep>, step: RefreshStep)
    ensures
        final(steps)@.map_values(|s: RefreshStep| step_view(s)) == old(steps)@.map_values(|s: RefreshStep| step_view(s)).push(step_view(step)),
{
    let ghost v = step_view(step);
    steps.push(step);
    assert(final(steps)@.map_values(|s: RefreshStep| step_view(s)) =~= old(steps)@.map_values(|s: RefreshStep| step_view(s)).push(v));
}

fn contribution_steps_of(c: &crate::extensions::ExtensionContributions) -> (r: Vec<RefreshStep>)
    ensures
        r@.map_values(|s: RefreshStep| step_view(s)) == contribution_steps(*c),
{
    let mut steps: Vec<RefreshStep> = Vec::new();
    let ghost e = Seq::<(int, Seq<Seq<char>>)>::empty();
    assert(steps@.map_values(|s: RefreshStep| step_view(s)) =~= e);
    let ghost a = step_if(c.css is Some, (1, Seq::empty()));
    if c.css.is_some() {
        push_step(&mut steps, RefreshStep::Css);
    }
    assert(steps@.map_values(|s: RefreshStep| step_view(s)) =~= a);
    let ghost b = a + step_if(c.status_bar is Some, (2, Seq::empty()));
    if c.status_bar.is_some() {
        push_step(&mut steps, RefreshStep::StatusBar);
    }
    assert(steps@.map_values(|s: RefreshStep| step_view(s)) =~= b);
    let ghost d = b + step_if(c.keybindings@.len() > 0, (3, Seq::empty()));
    if c.keybindings.len() > 0 {
        push_step(&mut steps, RefreshStep::Keybindings);
    }
    assert(steps@.map_values(|s: RefreshStep| step_view(s)) =~= d);
    let ghost menus = menu_steps(*c);
    match &c.context_menus {
        Some(m) => {
            if m.editor.len() > 0 {
                let mut names: Vec<String> = Vec::new();
                let mut i: usize = 0;
                while i < m.editor.len()
                    invariant
                        i <= m.editor@.len(),
                        names@.map_values(|x: String| x@) == m.editor@.take(i as int).map_values(
                            |e: crate::extensions::EditorContextMenu| "ext-editor-ctx-"@ + label_slug(e.label@),
                        ),
                    decreases m.editor.len() - i,
                {
                    let n = editor_context_action_name(m.editor[i].label.as_str());
                    let ghost before = names@.map_values(|x: String| x@);
                    let ghost nv = n@;
                    names.push(n);
                    assert(names@.map_values(|x: String| x@) =~= before.push(nv));
                    assert(m.editor@.take(i + 1).map_values(
                        |e: crate::extensions::EditorContextMenu| "ext-editor-ctx-"@ + label_slug(e.label@),
                    ) =~= m.editor@.take(i as int).map_values(
                        |e: crate::extensions::EditorContextMenu| "ext-editor-ctx-"@ + label_slug(e.label@),
                    ).push(nv));
                    assert(names@.map_values(|x: String| x@) =~= m.editor@.take(i + 1).map_values(
                        |e: crate::extensions::EditorContextMenu| "ext-editor-ctx-"@ + label_slug(e.label@),
                    ));
                    i = i + 1;
                }
                assert(m.editor@.take(i as int) =~= m.editor@);
                push_step(&mut steps, RefreshStep::EditorMenus(names));
            }
        },
        None => {},
    }
    assert(steps@.map_values(|s: RefreshStep| step_view(s)) =~= d + menus);
    if c.sidebar_panels.len() > 0 {
        let mut titles: Vec<String> = Vec::new();
        let mut i: usize = 0;
        while i < c.sidebar_panels.len()
            invariant
                i <= c.sidebar_panels@.len(),
                titles@.map_values(|x: String| x@) == c.sidebar_panels@.take(i as int).map_values(|p: SidebarPanelContribution| p.title@),
            decreases c.sidebar_panels.len() - i,
        {
            let t = c.sidebar_panels[i].title.clone();
            let ghost before = titles@.map_values(|x: String| x@);
            let ghost tv = t@;
            assert(tv == c.sidebar_panels@[i as int].title@);
            titles.push(t);
            assert(titles@.map_values(|x: String| x@) =~= before.push(tv));
            assert(c.sidebar_panels@.take(i + 1).map_values(|p: SidebarPanelContribution| p.title@)
                =~= c.sidebar_panels@.take(i as int).map_values(|p: SidebarPanelContribution| p.title@).push(tv));
            assert(titles@.map_values(|x: String| x@) =~= c.sidebar_panels@.take(i + 1).map_values(|p: SidebarPanelContribution| p.title@));
            i = i + 1;
        }
        assert(c.sidebar_panels@.take(i as int) =~= c.sidebar_panels@);
        push_step(&mut steps, RefreshStep::SidebarPanels(titles));
    }
    assert(steps@.map_values(|s: RefreshStep| step_view(s)) =~= contribution_steps(*c));
    steps
}

/// What to refresh after extension `ext_id` was enabled or disabled (see
/// `refresh_plan`).
pub fn refresh_steps<E: NativeExtension>(exts: &[Extension], natives: &NativeRegistry<E>, ext_id: &str) -> (r: Vec<RefreshStep>)
    ensures
        r@.map_values(|s: RefreshStep| step_view(s)) == refresh_plan(natives.ids(), exts@, ext_id@),
{
    if natives.is_native_extension(ext_id) {
        let mut steps: Vec<RefreshStep> = Vec::new();
        steps.push(RefreshStep::Native);
        assert(steps@.map_values(|s: RefreshStep| step_view(s)) =~= seq![(0int, Seq::<Seq<char>>::empty())]);
        return steps;
    }
    let mut i: usize = 0;
    while i < exts.len()
        invariant
            i <= exts@.len(),
            !natives.ids().contains(ext_id@),
            first_index_of(ext_ids(exts@), ext_id@) == first_index_from_seq(ext_ids(exts@), ext_id@, i as int),
        decreases exts.len() - i,
    {
        if str_eq(exts[i].manifest.id.as_str(), ext_id) {
            assert(ext_ids(exts@)[i as int] == ext_id@);
            assert(first_index_from_seq(ext_ids(exts@), ext_id@, i as int) == Some(i as int));
            let r = contribution_steps_of(&exts[i].manifest.contributions);
            return r;
        }
        assert(ext_ids(exts@)[i as int] != ext_id@);
        i = i + 1;
    }
    let steps: Vec<RefreshStep> = Vec::new();
    assert(steps@.map_values(|s: RefreshStep| step_view(s)) =~= Seq::<(int, Seq<Seq<char>>)>::empty());
    steps
}

} // verus!
