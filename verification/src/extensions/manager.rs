//! The list of script extensions installed in the user's extension
//! directory, and what they contribute to the editor.

use vstd::prelude::*;
use crate::extensions::{
    CommandContribution, Extension, ExtensionManifest, FileExplorerContextMenu,
    SidebarPanelContribution, TextTransformContribution,
};
use crate::extensions::native::{first_index_of, NativeExtension, NativeRegistry};
use crate::paths::{home_dir, path_answer, path_join, spec_path_join};
use crate::text::{str_eq, string_of, trim, spec_trim};

verus! {

/// The extensions loaded from the extension directory, in the order they
/// were found.
pub struct ExtensionManager {
    extensions: Vec<Extension>,
    extensions_dir: String,
}

/// The ids of a list of extensions.
pub open spec fn ext_ids(exts: Seq<Extension>) -> Seq<Seq<char>> {
    exts.map_values(|e: Extension| e.manifest.id@)
}

/// The commands of the enabled extensions, each with its extension's
/// directory, in order.
pub open spec fn enabled_commands(exts: Seq<Extension>) -> Seq<(Seq<char>, CommandContribution)>
    decreases exts.len(),
{
    if exts.len() == 0 {
        Seq::empty()
    } else {
        let e = exts.last();
        let prev = enabled_commands(exts.drop_last());
        if e.manifest.enabled {
            prev + e.manifest.contributions.commands@.map_values(
                |c: CommandContribution| (e.path@, c),
            )
        } else {
            prev
        }
    }
}

/// The text transforms of the enabled extensions, each with its extension's
/// directory, in order.
pub open spec fn enabled_transforms(exts: Seq<Extension>) -> Seq<(Seq<char>, TextTransformContribution)>
    decreases exts.len(),
{
    if exts.len() == 0 {
        Seq::empty()
    } else {
        let e = exts.last();
        let prev = enabled_transforms(exts.drop_last());
        if e.manifest.enabled {
            prev + e.manifest.contributions.text_transforms@.map_values(
                |t: TextTransformContribution| (e.path@, t),
            )
        } else {
            prev
        }
    }
}

/// The file explorer context menu entries of the enabled extensions, each
/// with its extension's directory, in order.
pub open spec fn enabled_explorer_entries(exts: Seq<Extension>) -> Seq<(Seq<char>, FileExplorerContextMenu)>
    decreases exts.len(),
{
    if exts.len() == 0 {
        Seq::empty()
    } else {
        let e = exts.last();
        let prev = enabled_explorer_entries(exts.drop_last());
        if e.manifest.enabled && e.manifest.contributions.context_menus is Some {
            prev + e.manifest.contributions.context_menus->0.file_explorer@.map_values(
                |f: FileExplorerContextMenu| (e.path@, f),
            )
        } else {
            prev
        }
    }
}

/// The sidebar panels of all extensions, enabled or not, each with its
/// extension's id and enabled flag, in order.
pub open spec fn all_sidebar_panels(exts: Seq<Extension>) -> Seq<(Seq<char>, SidebarPanelContribution, bool)>
    decreases exts.len(),
{
    if exts.len() == 0 {
        Seq::empty()
    } else {
        let e = exts.last();
        all_sidebar_panels(exts.drop_last()) + e.manifest.contributions.sidebar_panels@.map_values(
            |p: SidebarPanelContribution| (e.manifest.id@, p, e.manifest.enabled),
        )
    }
}

/// The stylesheet paths the enabled extensions name (before checking that
/// the files exist), in order.
pub open spec fn css_candidates(exts: Seq<Extension>) -> Seq<Seq<char>>
    decreases exts.len(),
{
    if exts.len() == 0 {
        Seq::empty()
    } else {
        let e = exts.last();
        let prev = css_candidates(exts.drop_last());
        if e.manifest.enabled && e.manifest.contributions.css is Some {
            prev.push(spec_path_join(e.path@, e.manifest.contributions.css->0.file@))
        } else {
            prev
        }
    }
}

/// The status bar scripts of the enabled extensions, in order.
pub open spec fn status_scripts(exts: Seq<Extension>) -> Seq<Seq<char>>
    decreases exts.len(),
{
    if exts.len() == 0 {
        Seq::empty()
    } else {
        let e = exts.last();
        let prev = status_scripts(exts.drop_last());
        if e.manifest.enabled && e.manifest.contributions.status_bar is Some {
            prev.push(spec_path_join(e.path@, e.manifest.contributions.status_bar->0.script@))
        } else {
            prev
        }
    }
}

/// Two lists of (directory, command) pairs agree element by element.
pub open spec fn command_pairs_same(r: Seq<(String, CommandContribution)>, s: Seq<(Seq<char>, CommandContribution)>) -> bool {
    &&& r.len() == s.len()
    &&& forall|i: int| 0 <= i < r.len() ==> (#[trigger] r[i]).0@ == s[i].0 && r[i].1.same(s[i].1)
}

/// The views of (directory, item) pairs.
pub open spec fn pairs_view<T>(r: Seq<(String, T)>) -> Seq<(Seq<char>, T)> {
    r.map_values(|p: (String, T)| (p.0@, p.1))
}

/// What changed when an extension was enabled or disabled.
#[derive(PartialEq, Eq, Structural)]
pub enum EnableOutcome {
    /// A built-in extension changed; its state file is to be written.
    Native,
    /// The script extension at this index changed; its manifest is to be
    /// written back.
    Script(usize),
    /// No extension has that id.
    NotFound,
}

proof fn lemma_pairs_view_push<T>(r: Seq<(String, T)>, x: (String, T))
    ensures
        pairs_view(r.push(x)) == pairs_view(r).push((x.0@, x.1)),
{
    assert(pairs_view(r.push(x)) =~= pairs_view(r).push((x.0@, x.1)));
}

proof fn lemma_take_step<T>(s: Seq<T>, i: int)
    requires
        0 <= i < s.len(),
    ensures
        s.take(i + 1).drop_last() == s.take(i),
        s.take(i + 1).last() == s[i],
{
    assert(s.take(i + 1).drop_last() =~= s.take(i));
}

/// The paths answered `true`, in order.
pub open spec fn kept_paths(checked: Seq<(Seq<char>, bool)>) -> Seq<Seq<char>>
    decreases checked.len(),
{
    if checked.len() == 0 {
        Seq::empty()
    } else {
        let prev = kept_paths(checked.drop_last());
        if checked.last().1 {
            prev.push(checked.last().0)
        } else {
            prev
        }
    }
}

/// Each path with its answer.
pub open spec fn paired(paths: Seq<Seq<char>>, answers: Seq<bool>) -> Seq<(Seq<char>, bool)> {
    Seq::new(paths.len(), |k: int| (paths[k], answers[k]))
}

/// The view of paths checked on disk.
pub open spec fn checked_paths_view(v: Seq<(String, bool)>) -> Seq<(Seq<char>, bool)> {
    v.map_values(|c: (String, bool)| (c.0@, c.1))
}

/// The stylesheets that exist, given each candidate with what the disk
/// answered for it: those answered `true`, in order.
pub fn existing_css_paths(checked: &Vec<(String, bool)>) -> (r: Vec<String>)
    ensures
        r@.map_values(|s: String| s@) == kept_paths(checked_paths_view(checked@)),
{
    let ghost cv = checked_paths_view(checked@);
    let mut r: Vec<String> = Vec::new();
    for i in 0..checked.len()
        invariant
            cv == checked_paths_view(checked@),
            r@.map_values(|s: String| s@) == kept_paths(cv.take(i as int)),
    {
        proof {
            lemma_take_step(cv, i as int);
        }
        if checked[i].1 {
            let ghost before = r@.map_values(|s: String| s@);
            r.push(string_of(checked[i].0.as_str()));
            assert(r@.map_values(|s: String| s@) =~= before.push(cv[i as int].0));
        }
    }
    assert(cv.take(cv.len() as int) =~= cv);
    r
}

impl ExtensionManager {
    /// The loaded extensions.
    pub closed spec fn extensions(&self) -> Seq<Extension> {
        self.extensions@
    }

    /// The directory extensions are loaded from.
    pub closed spec fn dir(&self) -> Seq<char> {
        self.extensions_dir@
    }

    /// A manager for this directory with nothing loaded yet.
    pub fn new(extensions_dir: String) -> (r: Self)
        ensures
            r.extensions() == Seq::<Extension>::empty(),
            r.dir() == extensions_dir@,
    {
        ExtensionManager { extensions: Vec::new(), extensions_dir }
    }

    /// The directory extensions are loaded from.
    pub fn extensions_dir(&self) -> (r: &str)
        ensures
            r@ == self.dir(),
    {
        self.extensions_dir.as_str()
    }

    /// Replace the loaded extensions with those just read from the directory.
    pub fn load_extensions(&mut self, loaded: Vec<Extension>)
        ensures
            final(self).extensions() == loaded@,
            final(self).dir() == old(self).dir(),
    {
        self.extensions = loaded;
    }

    /// The loaded extensions.
    pub fn get_extensions(&self) -> (r: &[Extension])
        ensures
            r@ == self.extensions(),
    {
        self.extensions.as_slice()
    }

    /// The loaded extensions followed by the built-in ones, which have no
    /// directory.
    pub fn get_all_extensions(&self, native: Vec<ExtensionManifest>) -> (r: Vec<Extension>)
        ensures
            r@.len() == self.extensions().len() + native@.len(),
            forall|i: int| 0 <= i < self.extensions().len() ==> (#[trigger] r@[i]).same(self.extensions()[i]),
            forall|j: int| 0 <= j < native@.len() ==> {
                &&& (#[trigger] r@[self.extensions().len() + j]).manifest == native@[j]
                &&& r@[self.extensions().len() + j].path@.len() == 0
            },
    {
        let n = self.extensions.len();
        let mut all: Vec<Extension> = Vec::new();
        for i in 0..n
            invariant
                n == self.extensions@.len(),
                all@.len() == i,
                forall|k: int| 0 <= k < i ==> (#[trigger] all@[k]).same(self.extensions@[k]),
        {
            all.push(self.extensions[i].clone());
        }
        let mut rest = native;
        let ghost orig = rest@;
        let total = rest.len();
        let mut j: usize = 0;
        while rest.len() > 0
            invariant
                orig.len() == total,
                all@.len() == n + j,
                j + rest@.len() == orig.len(),
                rest@ == orig.skip(j as int),
                forall|k: int| 0 <= k < n ==> (#[trigger] all@[k]).same(self.extensions@[k]),
                forall|k: int| 0 <= k < j ==> {
                    &&& (#[trigger] all@[n + k]).manifest == orig[k]
                    &&& all@[n + k].path@.len() == 0
                },
            decreases rest.len(),
        {
            let m = rest.remove(0);
            assert(m == orig[j as int]);
            let empty = String::new();
            all.push(Extension::new(m, empty));
            assert(rest@ =~= orig.skip(j + 1));
            j = j + 1;
        }
        all
    }

    /// Enable or disable the extension `id`: a built-in one in the
    /// registry, else the first loaded extension with that id.
    pub fn set_enabled<E: NativeExtension>(&mut self, natives: &mut NativeRegistry<E>, id: &str, enabled: bool) -> (r: EnableOutcome)
        ensures
            final(self).dir() == old(self).dir(),
            final(natives).ids() == old(natives).ids(),
            old(natives).ids().contains(id@) ==> {
                &&& r == EnableOutcome::Native
                &&& final(self).extensions() == old(self).extensions()
                &&& final(natives).enabled() == old(natives).enabled().update(
                    first_index_of(old(natives).ids(), id@)->0,
                    enabled,
                )
            },
            !old(natives).ids().contains(id@) ==> {
                &&& final(natives).enabled() == old(natives).enabled()
                &&& match first_index_of(ext_ids(old(self).extensions()), id@) {
                    Some(k) => {
                        &&& r == EnableOutcome::Script(k as usize)
                        &&& final(self).extensions().len() == old(self).extensions().len()
                        &&& forall|i: int| 0 <= i < old(self).extensions().len() && i != k ==>
                            #[trigger] final(self).extensions()[i] == old(self).extensions()[i]
                        &&& final(self).extensions()[k].manifest.enabled == enabled
                        &&& final(self).extensions()[k].path == old(self).extensions()[k].path
                        &&& final(self).extensions()[k].manifest.id == old(self).extensions()[k].manifest.id
                        &&& final(self).extensions()[k].manifest.contributions
                            == old(self).extensions()[k].manifest.contributions
                    },
                    None => {
                        &&& r == EnableOutcome::NotFound
                        &&& final(self).extensions() == old(self).extensions()
                    },
                }
            },
    {
        if natives.is_native_extension(id) {
            proof {
                lemma_first_index_found(old(natives).ids(), id@);
            }
            natives.set_native_enabled(id, enabled);
            return EnableOutcome::Native;
        }
        let ghost ids = ext_ids(self.extensions@);
        let mut i: usize = 0;
        while i < self.extensions.len()
            invariant
                i <= self.extensions@.len(),
                self.extensions@ == old(self).extensions@,
                self.extensions_dir == old(self).extensions_dir,
                *natives == *old(natives),
                !old(natives).ids().contains(id@),
                ids == ext_ids(self.extensions@),
                first_index_of(ids, id@) == crate::extensions::native::first_index_from_seq(ids, id@, i as int),
            decreases self.extensions.len() - i,
        {
            if str_eq(self.extensions[i].manifest.id.as_str(), id) {
                assert(ids[i as int] == id@);
                let mut ext = self.extensions.remove(i);
                ext.manifest.enabled = enabled;
                self.extensions.insert(i, ext);
                return EnableOutcome::Script(i);
            }
            i = i + 1;
        }
        EnableOutcome::NotFound
    }

    /// Take the first extension with this id out of the list (its directory
    /// is then removed by the caller); an error when none has it.
    pub fn remove_extension(&mut self, id: &str) -> (r: Result<Extension, String>)
        ensures
            final(self).dir() == old(self).dir(),
            match first_index_of(ext_ids(old(self).extensions()), id@) {
                Some(k) => r matches Ok(e) && e == old(self).extensions()[k]
                    && final(self).extensions() == old(self).extensions().remove(k),
                None => r matches Err(msg) && msg@ == "Extension not found"@
                    && final(self).extensions() == old(self).extensions(),
            },
    {
        let ghost ids = ext_ids(self.extensions@);
        let mut i: usize = 0;
        while i < self.extensions.len()
            invariant
                i <= self.extensions@.len(),
                self.extensions@ == old(self).extensions@,
                self.extensions_dir == old(self).extensions_dir,
                ids == ext_ids(self.extensions@),
                first_index_of(ids, id@) == crate::extensions::native::first_index_from_seq(ids, id@, i as int),
            decreases self.extensions.len() - i,
        {
            if str_eq(self.extensions[i].manifest.id.as_str(), id) {
                assert(ids[i as int] == id@);
                let ext = self.extensions.remove(i);
                return Ok(ext);
            }
            i = i + 1;
        }
        Err(string_of("Extension not found"))
    }

    /// The status bar scripts of the enabled extensions, in order.
    pub fn status_bar_scripts(&self) -> (r: Vec<String>)
        ensures
            r@.map_values(|s: String| s@) == status_scripts(self.extensions()),
    {
        let mut r: Vec<String> = Vec::new();
        for i in 0..self.extensions.len()
            invariant
                r@.map_values(|s: String| s@) == status_scripts(self.extensions@.take(i as int)),
        {
            proof {
                lemma_take_step(self.extensions@, i as int);
            }
            let e = &self.extensions[i];
            if e.manifest.enabled {
                match &e.manifest.contributions.status_bar {
                    Some(sb) => {
                        let ghost before = r@.map_values(|s: String| s@);
                        r.push(path_join(e.path.as_str(), sb.script.as_str()));
                        assert(r@.map_values(|s: String| s@) =~= before.push(
                            spec_path_join(e.path@, sb.script@),
                        ));
                    },
                    None => {},
                }
            }
        }
        proof {
            assert(self.extensions@.take(self.extensions@.len() as int) =~= self.extensions@);
        }
        r
    }

    /// The stylesheet paths the enabled extensions name, in order (before
    /// checking that the files exist).
    pub fn css_candidates(&self) -> (r: Vec<String>)
        ensures
            r@.map_values(|s: String| s@) == css_candidates(self.extensions()),
    {
        let mut r: Vec<String> = Vec::new();
        for i in 0..self.extensions.len()
            invariant
                r@.map_values(|s: String| s@) == css_candidates(self.extensions@.take(i as int)),
        {
            proof {
                lemma_take_step(self.extensions@, i as int);
            }
            let e = &self.extensions[i];
            if e.manifest.enabled {
                match &e.manifest.contributions.css {
                    Some(css) => {
                        let ghost before = r@.map_values(|s: String| s@);
                        r.push(path_join(e.path.as_str(), css.file.as_str()));
                        assert(r@.map_values(|s: String| s@) =~= before.push(
                            spec_path_join(e.path@, css.file@),
                        ));
                    },
                    None => {},
                }
            }
        }
        proof {
            assert(self.extensions@.take(self.extensions@.len() as int) =~= self.extensions@);
        }
        r
    }

    /// The stylesheets of the enabled extensions that exist on disk, in
    /// order (see `existing_css_paths`): `path_exists` answers for each
    /// candidate whether it exists, and those answered present are kept.
    pub fn get_extension_css_paths<F: Fn(&str) -> bool>(&self, path_exists: F) -> (r: Vec<String>)
        requires
            forall|m: &str| path_exists.requires((m,)),
        ensures
            exists|present: Seq<bool>| {
                &&& present.len() == css_candidates(self.extensions()).len()
                &&& forall|k: int| 0 <= k < present.len() ==> path_answer(path_exists, css_candidates(self.extensions())[k], #[trigger] present[k])
                &&& r@.map_values(|s: String| s@) == kept_paths(#[trigger] paired(css_candidates(self.extensions()), present))
            },
    {
        let candidates = self.css_candidates();
        let ghost cv = candidates@.map_values(|s: String| s@);
        let mut checked: Vec<(String, bool)> = Vec::new();
        for i in 0..candidates.len()
            invariant
                cv == candidates@.map_values(|s: String| s@),
                checked@.len() == i,
                forall|m: &str| path_exists.requires((m,)),
                forall|k: int| 0 <= k < i ==> (#[trigger] checked@[k]).0@ == cv[k],
                forall|k: int| 0 <= k < i ==> path_answer(path_exists, cv[k], (#[trigger] checked@[k]).1),
        {
            let present = path_exists(candidates[i].as_str());
            assert(path_answer(path_exists, cv[i as int], present));
            checked.push((string_of(candidates[i].as_str()), present));
        }
        let r = existing_css_paths(&checked);
        proof {
            let present = checked@.map_values(|c: (String, bool)| c.1);
            assert(paired(cv, present) =~= checked_paths_view(checked@));
            assert forall|k: int| 0 <= k < present.len() implies path_answer(path_exists, cv[k], #[trigger] present[k]) by {
                assert(present[k] == checked@[k].1);
            }
        }
        r
    }

    /// The commands of the enabled extensions, each with its extension's
    /// directory, in order.
    pub fn get_extension_commands(&self) -> (r: Vec<(String, CommandContribution)>)
        ensures
            command_pairs_same(r@, enabled_commands(self.extensions())),
    {
        let mut r: Vec<(String, CommandContribution)> = Vec::new();
        for i in 0..self.extensions.len()
            invariant
                command_pairs_same(r@, enabled_commands(self.extensions@.take(i as int))),
        {
            proof {
                lemma_take_step(self.extensions@, i as int);
            }
            let e = &self.extensions[i];
            if e.manifest.enabled {
                let ghost prev = enabled_commands(self.extensions@.take(i as int));
                let cmds = &e.manifest.contributions.commands;
                let ghost added = cmds@.map_values(|c: CommandContribution| (e.path@, c));
                for j in 0..cmds.len()
                    invariant
                        added == cmds@.map_values(|c: CommandContribution| (e.path@, c)),
                        command_pairs_same(r@, prev + added.take(j as int)),
                {
                    r.push((e.path.clone(), cmds[j].clone()));
                    assert(prev + added.take(j + 1) =~= (prev + added.take(j as int)).push(added[j as int]));
                }
                assert(added.take(cmds@.len() as int) =~= added);
            }
        }
        proof {
            assert(self.extensions@.take(self.extensions@.len() as int) =~= self.extensions@);
        }
        r
    }

    /// The text transforms of the enabled extensions, each with its
    /// extension's directory, in order.
    pub fn get_extension_transforms(&self) -> (r: Vec<(String, TextTransformContribution)>)
        ensures
            pairs_view(r@) == enabled_transforms(self.extensions()),
    {
        let mut r: Vec<(String, TextTransformContribution)> = Vec::new();
        for i in 0..self.extensions.len()
            invariant
                pairs_view(r@) == enabled_transforms(self.extensions@.take(i as int)),
        {
            proof {
                lemma_take_step(self.extensions@, i as int);
            }
            let e = &self.extensions[i];
            if e.manifest.enabled {
                let ghost prev = enabled_transforms(self.extensions@.take(i as int));
                let ts = &e.manifest.contributions.text_transforms;
                let ghost added = ts@.map_values(|t: TextTransformContribution| (e.path@, t));
                for j in 0..ts.len()
                    invariant
                        added == ts@.map_values(|t: TextTransformContribution| (e.path@, t)),
                        pairs_view(r@) == prev + added.take(j as int),
                {
                    let ghost before = r@;
                    r.push((e.path.clone(), ts[j].clone()));
                    proof {
                        lemma_pairs_view_push(before, r@.last());
                        assert((prev + added.take(j as int)).push(added[j as int]) =~= prev + added.take(j + 1));
                    }
                }
                assert(added.take(ts@.len() as int) =~= added);
            }
        }
        proof {
            assert(self.extensions@.take(self.extensions@.len() as int) =~= self.extensions@);
        }
        r
    }

    /// The sidebar panels of all extensions, each with its extension's id
    /// and whether that extension is enabled, in order.
    pub fn get_extension_sidebar_panels(&self) -> (r: Vec<(String, SidebarPanelContribution, bool)>)
        ensures
            r@.map_values(|t: (String, SidebarPanelContribution, bool)| (t.0@, t.1, t.2))
                == all_sidebar_panels(self.extensions()),
    {
        let mut r: Vec<(String, SidebarPanelContribution, bool)> = Vec::new();
        for i in 0..self.extensions.len()
            invariant
                r@.map_values(|t: (String, SidebarPanelContribution, bool)| (t.0@, t.1, t.2))
                    == all_sidebar_panels(self.extensions@.take(i as int)),
        {
            proof {
                lemma_take_step(self.extensions@, i as int);
            }
            let e = &self.extensions[i];
            let ghost prev = all_sidebar_panels(self.extensions@.take(i as int));
            let ps = &e.manifest.contributions.sidebar_panels;
            let ghost added = ps@.map_values(
                |p: SidebarPanelContribution| (e.manifest.id@, p, e.manifest.enabled),
            );
            for j in 0..ps.len()
                invariant
                    added == ps@.map_values(
                        |p: SidebarPanelContribution| (e.manifest.id@, p, e.manifest.enabled),
                    ),
                    r@.map_values(|t: (String, SidebarPanelContribution, bool)| (t.0@, t.1, t.2))
                        == prev + added.take(j as int),
            {
                let ghost before = r@;
                r.push((e.manifest.id.clone(), ps[j].clone(), e.manifest.enabled));
                proof {
                    assert(r@ == before.push(r@.last()));
                    assert(r@.map_values(|t: (String, SidebarPanelContribution, bool)| (t.0@, t.1, t.2))
                        =~= before.map_values(|t: (String, SidebarPanelContribution, bool)| (t.0@, t.1, t.2)).push(
                        (r@.last().0@, r@.last().1, r@.last().2)));
                    assert((prev + added.take(j as int)).push(added[j as int]) =~= prev + added.take(j + 1));
                }
            }
            assert(added.take(ps@.len() as int) =~= added);
        }
        proof {
            assert(self.extensions@.take(self.extensions@.len() as int) =~= self.extensions@);
        }
        r
    }

    /// The file explorer context menu entries of the enabled extensions,
    /// each with its extension's directory, in order.
    pub fn get_file_explorer_context_menu_entries(&self) -> (r: Vec<(String, FileExplorerContextMenu)>)
        ensures
            pairs_view(r@) == enabled_explorer_entries(self.extensions()),
    {
        let mut r: Vec<(String, FileExplorerContextMenu)> = Vec::new();
        for i in 0..self.extensions.len()
            invariant
                pairs_view(r@) == enabled_explorer_entries(self.extensions@.take(i as int)),
        {
            proof {
                lemma_take_step(self.extensions@, i as int);
            }
            let e = &self.extensions[i];
            if e.manifest.enabled {
                match &e.manifest.contributions.context_menus {
                    Some(ctx) => {
                        let ghost prev = enabled_explorer_entries(self.extensions@.take(i as int));
                        let fs = &ctx.file_explorer;
                        let ghost added = fs@.map_values(|f: FileExplorerContextMenu| (e.path@, f));
                        for j in 0..fs.len()
                            invariant
                                added == fs@.map_values(|f: FileExplorerContextMenu| (e.path@, f)),
                                pairs_view(r@) == prev + added.take(j as int),
                        {
                            let ghost before = r@;
                            r.push((e.path.clone(), fs[j].clone()));
                            proof {
                                lemma_pairs_view_push(before, r@.last());
                                assert((prev + added.take(j as int)).push(added[j as int]) =~= prev + added.take(j + 1));
                            }
                        }
                        assert(added.take(fs@.len() as int) =~= added);
                    },
                    None => {},
                }
            }
        }
        proof {
            assert(self.extensions@.take(self.extensions@.len() as int) =~= self.extensions@);
        }
        r
    }
}

proof fn lemma_first_index_found(s: Seq<Seq<char>>, x: Seq<char>)
    requires
        s.contains(x),
    ensures
        first_index_of(s, x) is Some,
        0 <= first_index_of(s, x)->0 < s.len(),
{
    lemma_first_index_from_found(s, x, 0);
}

proof fn lemma_first_index_from_found(s: Seq<Seq<char>>, x: Seq<char>, i: int)
    requires
        0 <= i <= s.len(),
        exists|k: int| i <= k < s.len() && s[k] == x,
    ensures
        crate::extensions::native::first_index_from_seq(s, x, i) is Some,
        i <= crate::extensions::native::first_index_from_seq(s, x, i)->0 < s.len(),
    decreases s.len() - i,
{
    if s[i] != x {
        lemma_first_index_from_found(s, x, i + 1);
    }
}

// ---------------------------------------------------------------------------
// The status bar text and the extension directory
// ---------------------------------------------------------------------------

/// The status bar text built from what the status scripts printed: each
/// non-empty trimmed output, joined with " | ". A script that failed gives
/// `None`.
pub open spec fn status_text(outputs: Seq<Option<Seq<char>>>) -> Seq<char>
    decreases outputs.len(),
{
    if outputs.len() == 0 {
        Seq::empty()
    } else {
        let prev = status_text(outputs.drop_last());
        match outputs.last() {
            Some(o) => if spec_trim(o).len() == 0 {
                prev
            } else if prev.len() == 0 {
                spec_trim(o)
            } else {
                prev + " | "@ + spec_trim(o)
            },
            None => prev,
        }
    }
}

/// The views of script outputs.
pub open spec fn outputs_view(v: Seq<Option<String>>) -> Seq<Option<Seq<char>>> {
    v.map_values(|o: Option<String>| match o {
        Some(s) => Some(s@),
        None => None,
    })
}

/// Join what the status scripts printed (see `status_text`).
pub fn join_status_parts(outputs: &Vec<Option<String>>) -> (r: String)
    ensures
        r@ == status_text(outputs_view(outputs@)),
{
    let mut r = String::new();
    let ghost ov = outputs_view(outputs@);
    for i in 0..outputs.len()
        invariant
            ov == outputs_view(outputs@),
            r@ == status_text(ov.take(i as int)),
    {
        proof {
            lemma_take_step(ov, i as int);
        }
        match &outputs[i] {
            Some(o) => {
                let t = trim(o.as_str());
                if t.unicode_len() > 0 {
                    if r.unicode_len() > 0 {
                        r.append(" | ");
                    }
                    r.append(t);
                }
            },
            None => {},
        }
    }
    proof {
        assert(ov.take(ov.len() as int) =~= ov);
    }
    r
}

/// The status bar text of the extensions, cached between updates.
pub struct StatusBarCache {
    text: String,
}

impl StatusBarCache {
    /// The cached text.
    pub closed spec fn text(&self) -> Seq<char> {
        self.text@
    }

    /// An empty cache.
    pub fn new() -> (r: Self)
        ensures
            r.text() == Seq::<char>::empty(),
    {
        StatusBarCache { text: String::new() }
    }
}

/// Store the text built from what the status scripts printed for the
/// active file.
pub fn update_status_bar_text(cache: &mut StatusBarCache, outputs: &Vec<Option<String>>)
    ensures
        final(cache).text() == status_text(outputs_view(outputs@)),
{
    cache.text = join_status_parts(outputs);
}

/// The cached status bar text.
pub fn get_status_bar_text(cache: &StatusBarCache) -> (r: String)
    ensures
        r@ == cache.text(),
{
    cache.text.clone()
}

/// Where extensions are installed: `~/.config/dvop/extensions`, or the same
/// path relative to the working directory without a home.
pub open spec fn extensions_dir_for(home: Option<Seq<char>>) -> Seq<char> {
    match home {
        Some(h) => spec_path_join(spec_path_join(spec_path_join(h, ".config"@), "dvop"@), "extensions"@),
        None => ".config/dvop/extensions"@,
    }
}

/// The extension directory for this home directory.
pub fn extensions_dir_from(home: Option<&str>) -> (r: String)
    ensures
        r@ == extensions_dir_for(crate::extensions::native::opt_view(home)),
{
    match home {
        Some(h) => {
            let a = path_join(h, ".config");
            let b = path_join(a.as_str(), "dvop");
            path_join(b.as_str(), "extensions")
        },
        None => string_of(".config/dvop/extensions"),
    }
}

/// The extension directory of the current user: the directory for the
/// home directory found, or for none.
pub fn get_extensions_dir() -> (r: String)
    ensures
        exists|home: Option<Seq<char>>| r@ == extensions_dir_for(home),
{
    match home_dir() {
        Some(h) => {
            let r = extensions_dir_from(Some(h.as_str()));
            assert(r@ == extensions_dir_for(Some(h@)));
            r
        },
        None => {
            let r = extensions_dir_from(None);
            assert(r@ == extensions_dir_for(None));
            r
        },
    }
}

} // verus!
