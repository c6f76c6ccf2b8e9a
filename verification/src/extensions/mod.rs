//! Extension manifests: what an extension declares about itself and what it
//! contributes to the editor. Paths are held as strings.

pub mod code_completion;
pub mod hooks;
pub mod manager;
pub mod manifest;
pub mod native;
pub mod rust_completion;
pub mod rust_diagnostics;
pub mod sample;
pub mod ui;

use vstd::prelude::*;

verus! {

/// A status bar contribution: a script whose output is shown in the status bar.
#[derive(Debug)]
pub struct StatusBarContribution {
    /// Path to the script, relative to the extension directory.
    pub script: String,
}

/// A CSS contribution: a static CSS file.
#[derive(Debug)]
pub struct CssContribution {
    /// Path to the CSS file, relative to the extension directory.
    pub file: String,
}

/// A keyboard shortcut bound to a script.
#[derive(Debug)]
pub struct KeybindingContribution {
    /// Key combination in GTK notation, such as `Ctrl+Shift+L`.
    pub key: String,
    /// Human-readable title.
    pub title: String,
    /// Script to run.
    pub script: String,
}

/// A command palette entry.
#[derive(Debug)]
pub struct CommandContribution {
    /// Command id, unique within the extension.
    pub id: String,
    /// Title shown in the palette.
    pub title: String,
    /// Script to run.
    pub script: String,
    /// Search keywords.
    pub keywords: Vec<String>,
}

/// Context menu entries of the editor and of the file explorer.
#[derive(Debug)]
pub struct ContextMenuContributions {
    /// Editor right-click entries.
    pub editor: Vec<EditorContextMenu>,
    /// File explorer right-click entries.
    pub file_explorer: Vec<FileExplorerContextMenu>,
}

/// An editor context menu entry.
#[derive(Debug)]
pub struct EditorContextMenu {
    /// Label shown in the menu.
    pub label: String,
    /// Script to run.
    pub script: String,
}

/// A file explorer context menu entry.
#[derive(Debug)]
pub struct FileExplorerContextMenu {
    /// Label shown in the menu.
    pub label: String,
    /// Script to run on the right-clicked file.
    pub script: String,
}

/// A linter script for some languages.
#[derive(Debug)]
pub struct LinterContribution {
    /// File extensions or language names the linter applies to.
    pub languages: Vec<String>,
    /// Script to run; prints a JSON array of diagnostics.
    pub script: String,
}

/// Lifecycle hook scripts.
#[derive(Debug)]
pub struct HooksContribution {
    /// Runs when a file is opened.
    pub on_file_open: Option<String>,
    /// Runs when a file is saved.
    pub on_file_save: Option<String>,
    /// Runs when a file tab is closed.
    pub on_file_close: Option<String>,
    /// Runs when the application starts.
    pub on_app_start: Option<String>,
}

/// A text transform: selection on stdin, replacement on stdout.
#[derive(Debug)]
pub struct TextTransformContribution {
    /// Transform id.
    pub id: String,
    /// Title shown to the user.
    pub title: String,
    /// Script to run.
    pub script: String,
}

/// A custom sidebar panel.
#[derive(Debug)]
pub struct SidebarPanelContribution {
    /// Panel id.
    pub id: String,
    /// Panel title.
    pub title: String,
    /// GTK icon name.
    pub icon: String,
    /// Script whose output fills the panel.
    pub script: String,
}

/// Everything an extension contributes to the editor.
#[derive(Debug)]
pub struct ExtensionContributions {
    pub status_bar: Option<StatusBarContribution>,
    pub css: Option<CssContribution>,
    pub keybindings: Vec<KeybindingContribution>,
    pub commands: Vec<CommandContribution>,
    pub context_menus: Option<ContextMenuContributions>,
    pub linters: Vec<LinterContribution>,
    pub hooks: Option<HooksContribution>,
    pub text_transforms: Vec<TextTransformContribution>,
    pub sidebar_panels: Vec<SidebarPanelContribution>,
}

/// An extension's metadata and contributions.
#[derive(Debug)]
pub struct ExtensionManifest {
    pub id: String,
    pub name: String,
    pub version: String,
    pub description: String,
    pub author: String,
    pub enabled: bool,
    pub icon: Option<String>,
    /// True for an extension built into the editor (no scripts).
    pub is_native: bool,
    pub contributions: ExtensionContributions,
}

/// A loaded extension: its manifest and the directory it was loaded from.
#[derive(Debug)]
pub struct Extension {
    pub manifest: ExtensionManifest,
    pub path: String,
}

/// Sidebar panels that name no icon get this GTK icon.
pub fn default_panel_icon() -> (r: String)
    ensures
        r@ == "application-x-addon-symbolic"@,
{
    "application-x-addon-symbolic".to_owned()
}

impl Extension {
    /// An extension with this manifest, loaded from `path`.
    pub fn new(manifest: ExtensionManifest, path: String) -> (r: Self)
        ensures
            r.manifest == manifest,
            r.path == path,
    {
        Extension { manifest, path }
    }
}

/// A `Vec` whose elements are clones that equal the originals.
pub fn clone_vec<T: Clone>(v: &Vec<T>) -> (r: Vec<T>)
    requires
        forall|a: T, b: T| #[trigger] cloned::<T>(a, b) ==> a == b,
    ensures
        r@ == v@,
{
    let r = v.clone();
    assert(r@ =~= v@);
    r
}

impl Clone for StatusBarContribution {
    fn clone(&self) -> (r: Self)
        ensures
            r == *self,
    {
        StatusBarContribution { script: self.script.clone() }
    }
}

impl Clone for CssContribution {
    fn clone(&self) -> (r: Self)
        ensures
            r == *self,
    {
        CssContribution { file: self.file.clone() }
    }
}

impl Clone for KeybindingContribution {
    fn clone(&self) -> (r: Self)
        ensures
            r == *self,
    {
        KeybindingContribution {
            key: self.key.clone(),
            title: self.title.clone(),
            script: self.script.clone(),
        }
    }
}

impl Clone for EditorContextMenu {
    fn clone(&self) -> (r: Self)
        ensures
            r == *self,
    {
        EditorContextMenu { label: self.label.clone(), script: self.script.clone() }
    }
}

impl Clone for FileExplorerContextMenu {
    fn clone(&self) -> (r: Self)
        ensures
            r == *self,
    {
        FileExplorerContextMenu { label: self.label.clone(), script: self.script.clone() }
    }
}

impl Clone for HooksContribution {
    fn clone(&self) -> (r: Self)
        ensures
            r == *self,
    {
        HooksContribution {
            on_file_open: self.on_file_open.clone(),
            on_file_save: self.on_file_save.clone(),
            on_file_close: self.on_file_close.clone(),
            on_app_start: self.on_app_start.clone(),
        }
    }
}

impl Clone for TextTransformContribution {
    fn clone(&self) -> (r: Self)
        ensures
            r == *self,
    {
        TextTransformContribution {
            id: self.id.clone(),
            title: self.title.clone(),
            script: self.script.clone(),
        }
    }
}

impl Clone for SidebarPanelContribution {
    fn clone(&self) -> (r: Self)
        ensures
            r == *self,
    {
        SidebarPanelContribution {
            id: self.id.clone(),
            title: self.title.clone(),
            icon: self.icon.clone(),
            script: self.script.clone(),
        }
    }
}

/// A clone of a `String` equals the original.
pub proof fn lemma_string_clone_is_copy()
    ensures
        forall|a: String, b: String| #[trigger] cloned::<String>(a, b) ==> a == b,
{
}

/// Clones of the contribution types that hold only strings equal their originals.
pub proof fn lemma_flat_clones_are_copies()
    ensures
        forall|a: KeybindingContribution, b: KeybindingContribution| #[trigger] cloned::<KeybindingContribution>(a, b) ==> a == b,
        forall|a: EditorContextMenu, b: EditorContextMenu| #[trigger] cloned::<EditorContextMenu>(a, b) ==> a == b,
        forall|a: FileExplorerContextMenu, b: FileExplorerContextMenu| #[trigger] cloned::<FileExplorerContextMenu>(a, b) ==> a == b,
        forall|a: TextTransformContribution, b: TextTransformContribution| #[trigger] cloned::<TextTransformContribution>(a, b) ==> a == b,
        forall|a: SidebarPanelContribution, b: SidebarPanelContribution| #[trigger] cloned::<SidebarPanelContribution>(a, b) ==> a == b,
        forall|a: String, b: String| #[trigger] cloned::<String>(a, b) ==> a == b,
{
}

impl CommandContribution {
    /// Same strings field by field, and the same keywords in the same order.
    pub open spec fn same(self, other: Self) -> bool {
        &&& self.id == other.id
        &&& self.title == other.title
        &&& self.script == other.script
        &&& self.keywords@ == other.keywords@
    }
}

impl Clone for CommandContribution {
    fn clone(&self) -> (r: Self)
        ensures
            r.same(*self),
    {
        proof {
            lemma_string_clone_is_copy();
        }
        CommandContribution {
            id: self.id.clone(),
            title: self.title.clone(),
            script: self.script.clone(),
            keywords: clone_vec(&self.keywords),
        }
    }
}

impl LinterContribution {
    /// The same languages in the same order, and the same script.
    pub open spec fn same(self, other: Self) -> bool {
        &&& self.languages@ == other.languages@
        &&& self.script == other.script
    }
}

impl Clone for LinterContribution {
    fn clone(&self) -> (r: Self)
        ensures
            r.same(*self),
    {
        proof {
            lemma_string_clone_is_copy();
        }
        LinterContribution { languages: clone_vec(&self.languages), script: self.script.clone() }
    }
}

impl ContextMenuContributions {
    /// The same entries in the same order.
    pub open spec fn same(self, other: Self) -> bool {
        &&& self.editor@ == other.editor@
        &&& self.file_explorer@ == other.file_explorer@
    }
}

impl Clone for ContextMenuContributions {
    fn clone(&self) -> (r: Self)
        ensures
            r.same(*self),
    {
        proof {
            lemma_flat_clones_are_copies();
        }
        ContextMenuContributions {
            editor: clone_vec(&self.editor),
            file_explorer: clone_vec(&self.file_explorer),
        }
    }
}

/// Two sequences of commands agree element by element.
pub open spec fn commands_same(a: Seq<CommandContribution>, b: Seq<CommandContribution>) -> bool {
    a.len() == b.len() && forall|i: int| 0 <= i < a.len() ==> (#[trigger] a[i]).same(b[i])
}

/// Two sequences of linters agree element by element.
pub open spec fn linters_same(a: Seq<LinterContribution>, b: Seq<LinterContribution>) -> bool {
    a.len() == b.len() && forall|i: int| 0 <= i < a.len() ==> (#[trigger] a[i]).same(b[i])
}

impl ExtensionContributions {
    /// The same contributions, compared through the views of their lists.
    pub open spec fn same(self, other: Self) -> bool {
        &&& self.status_bar == other.status_bar
        &&& self.css == other.css
        &&& self.keybindings@ == other.keybindings@
        &&& commands_same(self.commands@, other.commands@)
        &&& match (self.context_menus, other.context_menus) {
            (Some(a), Some(b)) => a.same(b),
            (None, None) => true,
            _ => false,
        }
        &&& linters_same(self.linters@, other.linters@)
        &&& self.hooks == other.hooks
        &&& self.text_transforms@ == other.text_transforms@
        &&& self.sidebar_panels@ == other.sidebar_panels@
    }

    /// Contributions with nothing in them.
    pub open spec fn is_empty(self) -> bool {
        &&& self.status_bar is None
        &&& self.css is None
        &&& self.keybindings@.len() == 0
        &&& self.commands@.len() == 0
        &&& self.context_menus is None
        &&& self.linters@.len() == 0
        &&& self.hooks is None
        &&& self.text_transforms@.len() == 0
        &&& self.sidebar_panels@.len() == 0
    }
}

impl Default for ExtensionContributions {
    fn default() -> (r: Self)
        ensures
            r.is_empty(),
    {
        ExtensionContributions {
            status_bar: None,
            css: None,
            keybindings: Vec::new(),
            commands: Vec::new(),
            context_menus: None,
            linters: Vec::new(),
            hooks: None,
            text_transforms: Vec::new(),
            sidebar_panels: Vec::new(),
        }
    }
}

fn clone_commands(v: &Vec<CommandContribution>) -> (r: Vec<CommandContribution>)
    ensures
        commands_same(r@, v@),
{
    let mut r: Vec<CommandContribution> = Vec::new();
    for i in 0..v.len()
        invariant
            r@.len() == i,
            forall|k: int| 0 <= k < i ==> (#[trigger] r@[k]).same(v@[k]),
    {
        r.push(v[i].clone());
    }
    r
}

fn clone_linters(v: &Vec<LinterContribution>) -> (r: Vec<LinterContribution>)
    ensures
        linters_same(r@, v@),
{
    let mut r: Vec<LinterContribution> = Vec::new();
    for i in 0..v.len()
        invariant
            r@.len() == i,
            forall|k: int| 0 <= k < i ==> (#[trigger] r@[k]).same(v@[k]),
    {
        r.push(v[i].clone());
    }
    r
}

impl Clone for ExtensionContributions {
    fn clone(&self) -> (r: Self)
        ensures
            r.same(*self),
    {
        proof {
            lemma_flat_clones_are_copies();
        }
        let context_menus = match &self.context_menus {
            Some(c) => Some(c.clone()),
            None => None,
        };
        ExtensionContributions {
            status_bar: self.status_bar.clone(),
            css: self.css.clone(),
            keybindings: clone_vec(&self.keybindings),
            commands: clone_commands(&self.commands),
            context_menus,
            linters: clone_linters(&self.linters),
            hooks: self.hooks.clone(),
            text_transforms: clone_vec(&self.text_transforms),
            sidebar_panels: clone_vec(&self.sidebar_panels),
        }
    }
}

impl ExtensionManifest {
    /// The same metadata and the same contributions.
    pub open spec fn same(self, other: Self) -> bool {
        &&& self.id == other.id
        &&& self.name == other.name
        &&& self.version == other.version
        &&& self.description == other.description
        &&& self.author == other.author
        &&& self.enabled == other.enabled
        &&& self.icon == other.icon
        &&& self.is_native == other.is_native
        &&& self.contributions.same(other.contributions)
    }
}

impl Clone for ExtensionManifest {
    fn clone(&self) -> (r: Self)
        ensures
            r.same(*self),
    {
        ExtensionManifest {
            id: self.id.clone(),
            name: self.name.clone(),
            version: self.version.clone(),
            description: self.description.clone(),
            author: self.author.clone(),
            enabled: self.enabled,
            icon: self.icon.clone(),
            is_native: self.is_native,
            contributions: self.contributions.clone(),
        }
    }
}

impl Extension {
    /// The same manifest and the same directory.
    pub open spec fn same(self, other: Self) -> bool {
        self.manifest.same(other.manifest) && self.path == other.path
    }
}

impl Clone for Extension {
    fn clone(&self) -> (r: Self)
        ensures
            r.same(*self),
    {
        Extension { manifest: self.manifest.clone(), path: self.path.clone() }
    }
}

} // verus!
