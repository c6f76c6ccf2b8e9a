//! The decisions behind the editor's tabs: which page shows which file and
//! how pages are renumbered when one closes, what a tab's label reads,
//! which empty untitled tabs give way to a new file, and whether clipboard
//! shortcuts act on files or on text.

use vstd::prelude::*;
use crate::paths::{path_file_name, same_path, spec_path_file_name, spec_same_path};
use crate::text::{seq_starts_with, starts_with_char, str_eq, string_of};

verus! {

// ---------------------------------------------------------------------------
// File or text operations
// ---------------------------------------------------------------------------

/// The area of the window the user worked in last.
#[derive(Debug, Clone, Copy, PartialEq, Eq, Structural)]
pub enum LastActiveArea {
    TextEditor,
    FileManager,
}

/// Clipboard shortcuts act on files: when the file manager was used last
/// and a file is selected, or the file list has the focus; not when a text
/// editor has the focus and was used last; yes when a file is selected and
/// no text editor has the focus; not when a text editor has the focus; and
/// yes otherwise.
pub open spec fn file_operations_first(text_focus: bool, list_focus: bool, selected: bool, last: LastActiveArea) -> bool {
    if last == LastActiveArea::FileManager && selected {
        true
    } else if list_focus {
        true
    } else if text_focus && last == LastActiveArea::TextEditor {
        false
    } else if selected && !text_focus {
        true
    } else {
        !text_focus
    }
}

/// Whether clipboard shortcuts act on files rather than on text (see
/// `file_operations_first`).
pub fn should_handle_file_operations(
    text_editor_has_focus: bool,
    file_list_has_focus: bool,
    file_selected: bool,
    last_active: LastActiveArea,
) -> (r: bool)
    ensures
        r == file_operations_first(text_editor_has_focus, file_list_has_focus, file_selected, last_active),
{
    if last_active == LastActiveArea::FileManager && file_selected {
        return true;
    }
    if file_list_has_focus {
        return true;
    }
    if text_editor_has_focus && last_active == LastActiveArea::TextEditor {
        return false;
    }
    if file_selected && !text_editor_has_focus {
        return true;
    }
    !text_editor_has_focus
}

// ---------------------------------------------------------------------------
// The file of each page
// ---------------------------------------------------------------------------

/// The file on page `page`, if the page shows one.
pub open spec fn at(v: Seq<Option<Seq<char>>>, page: int) -> Option<Seq<char>> {
    if 0 <= page < v.len() {
        v[page]
    } else {
        None
    }
}

/// The file shown on each page of the editor's notebook.
pub struct TabPaths {
    pages: Vec<Option<String>>,
}

/// The view of an optional string.
pub open spec fn opt_path(o: Option<String>) -> Option<Seq<char>> {
    match o {
        Some(s) => Some(s@),
        None => None,
    }
}

impl View for TabPaths {
    type V = Seq<Option<Seq<char>>>;

    closed spec fn view(&self) -> Seq<Option<Seq<char>>> {
        self.pages@.map_values(|o: Option<String>| opt_path(o))
    }
}

/// The first page below `n` whose file is the same path as `path`, from
/// page `i` on.
pub open spec fn first_page_from(v: Seq<Option<Seq<char>>>, path: Seq<char>, n: int, i: int) -> Option<int>
    decreases n - i,
{
    if i < 0 || i >= n {
        None
    } else if at(v, i) matches Some(p) && spec_same_path(p, path) {
        Some(i)
    } else {
        first_page_from(v, path, n, i + 1)
    }
}

impl TabPaths {
    /// No page shows a file.
    pub fn new() -> (r: Self)
        ensures
            forall|j: int| at(r@, j) is None,
    {
        let r = TabPaths { pages: Vec::new() };
        assert(r@.len() == 0);
        r
    }

    /// The file on page `page`.
    pub fn get(&self, page: u32) -> (r: Option<&str>)
        ensures
            crate::extensions::native::opt_view(r) == at(self@, page as int),
    {
        if (page as usize) < self.pages.len() {
            match &self.pages[page as usize] {
                Some(p) => Some(p.as_str()),
                None => None,
            }
        } else {
            None
        }
    }

    /// Whether page `page` shows a file.
    pub fn contains_key(&self, page: u32) -> (r: bool)
        ensures
            r == at(self@, page as int) is Some,
    {
        (page as usize) < self.pages.len() && self.pages[page as usize].is_some()
    }

    /// Page `page` shows `path`; the other pages keep theirs.
    pub fn insert(&mut self, page: u32, path: String)
        ensures
            forall|j: int| #[trigger] at(final(self)@, j) == if j == page { Some(path@) } else { at(old(self)@, j) },
    {
        let ghost before = self@;
        let p = page as usize;
        while self.pages.len() < p
            invariant
                p == page,
                forall|j: int| #[trigger] at(self@, j) == at(before, j),
            decreases p - self.pages.len(),
        {
            let ghost prev = self@;
            self.pages.push(None);
            assert forall|j: int| #[trigger] at(self@, j) == at(prev, j) by {
                if 0 <= j < prev.len() {
                    assert(self@[j] == prev[j]);
                }
            }
        }
        let ghost mid = self@;
        if p < self.pages.len() {
            self.pages.set(p, Some(path));
            assert forall|j: int| #[trigger] at(self@, j) == if j == page { Some(path@) } else { at(mid, j) } by {
                if 0 <= j < mid.len() && j != page {
                    assert(self@[j] == mid[j]);
                }
            }
        } else {
            self.pages.push(Some(path));
            assert forall|j: int| #[trigger] at(self@, j) == if j == page { Some(path@) } else { at(mid, j) } by {
                if 0 <= j < mid.len() {
                    assert(self@[j] == mid[j]);
                }
            }
        }
    }

    /// Page `page` no longer shows a file; the other pages keep theirs.
    pub fn remove(&mut self, page: u32)
        ensures
            forall|j: int| #[trigger] at(final(self)@, j) == if j == page { None } else { at(old(self)@, j) },
    {
        let ghost before = self@;
        let p = page as usize;
        if p < self.pages.len() {
            self.pages.set(p, None);
            assert forall|j: int| #[trigger] at(self@, j) == if j == page { None } else { at(before, j) } by {
                if 0 <= j < before.len() && j != page {
                    assert(self@[j] == before[j]);
                }
            }
        }
    }

    /// Page `page` closed: its file is forgotten and every later page moves
    /// down by one, keeping its file.
    pub fn close_page(&mut self, page: u32)
        ensures
            forall|j: int| 0 <= j ==> #[trigger] at(final(self)@, j) == if j < page { at(old(self)@, j) } else { at(old(self)@, j + 1) },
    {
        let ghost before = self@;
        let p = page as usize;
        if p < self.pages.len() {
            self.pages.remove(p);
            assert forall|j: int| 0 <= j implies #[trigger] at(self@, j) == if j < page { at(before, j) } else { at(before, j + 1) } by {
                if j < page {
                    if j < self@.len() {
                        assert(self@[j] == before[j]);
                    }
                } else if j < self@.len() {
                    assert(self@[j] == before[j + 1]);
                }
            }
        }
    }

    /// The first page below `n_pages` that shows `path` (compared as paths).
    pub fn page_of(&self, path: &str, n_pages: u32) -> (r: Option<u32>)
        ensures
            match r {
                Some(i) => first_page_from(self@, path@, n_pages as int, 0) == Some(i as int),
                None => first_page_from(self@, path@, n_pages as int, 0) is None,
            },
    {
        let mut i: u32 = 0;
        while i < n_pages
            invariant
                i <= n_pages,
                first_page_from(self@, path@, n_pages as int, 0) == first_page_from(self@, path@, n_pages as int, i as int),
            decreases n_pages - i,
        {
            match self.get(i) {
                Some(p) => {
                    if same_path(p, path) {
                        return Some(i);
                    }
                },
                None => {},
            }
            i = i + 1;
        }
        None
    }

    /// The name a closing tab is known by: its file's name, or `Untitled`.
    pub fn closed_tab_name(&self, page: u32) -> (r: String)
        ensures
            r@ == match at(self@, page as int) {
                Some(p) => match spec_path_file_name(p) {
                    Some(n) => n,
                    None => "Untitled"@,
                },
                None => "Untitled"@,
            },
    {
        match self.get(page) {
            Some(p) => match path_file_name(p) {
                Some(n) => n,
                None => string_of("Untitled"),
            },
            None => string_of("Untitled"),
        }
    }
}

/// After a tab closed, a new empty tab is opened when no page is left but
/// there was more than one before, and the editor can make one.
pub fn opens_new_tab_after_close(pages_before: u32, pages_after: u32, can_create: bool) -> (r: bool)
    ensures
        r == (pages_after == 0 && pages_before > 1 && can_create),
{
    pages_after == 0 && pages_before > 1 && can_create
}

// ---------------------------------------------------------------------------
// Tab labels
// ---------------------------------------------------------------------------

/// A tab with unsaved changes has a label starting with `*`.
pub fn is_dirty_label(text: &str) -> (r: bool)
    ensures
        r == seq_starts_with(text@, '*'),
{
    starts_with_char(text, '*')
}

/// The label after a save or rename: the new name, or the current label
/// without its `*`; marked with `*` when changes remain unsaved (a label
/// already marked stays as it is).
pub open spec fn label_after_save(current: Seq<char>, new_name: Option<Seq<char>>, dirty: bool) -> Seq<char> {
    let base = match new_name {
        Some(n) => n,
        None => if seq_starts_with(current, '*') { current.drop_first() } else { current },
    };
    if dirty {
        if seq_starts_with(current, '*') { current } else { seq!['*'] + base }
    } else {
        base
    }
}

fn marked(name: &str) -> (r: String)
    ensures
        r@ == seq!['*'] + name@,
{
    let mut r = string_of("*");
    proof {
        reveal_strlit("*");
    }
    r.append(name);
    r
}

fn without_first(s: &str) -> (r: String)
    requires
        s@.len() > 0,
    ensures
        r@ == s@.drop_first(),
{
    let cs = crate::text::chars_of(s);
    let mut out: Vec<char> = Vec::new();
    let mut i: usize = 1;
    while i < cs.len()
        invariant
            cs@ == s@,
            1 <= i <= cs@.len(),
            out@ == s@.subrange(1, i as int),
        decreases cs.len() - i,
    {
        out.push(cs[i]);
        assert(out@ =~= s@.subrange(1, i + 1));
        i = i + 1;
    }
    assert(out@ =~= s@.drop_first());
    crate::text::string_from_chars(&out)
}

/// A tab's label after its file was saved or renamed (see
/// `label_after_save`).
pub fn tab_label_after_save(current_text: &str, new_name: Option<&str>, is_now_dirty: bool) -> (r: String)
    ensures
        r@ == label_after_save(current_text@, crate::extensions::native::opt_view(new_name), is_now_dirty),
{
    let dirty_now = starts_with_char(current_text, '*');
    if is_now_dirty && dirty_now {
        return string_of(current_text);
    }
    let base = match new_name {
        Some(n) => string_of(n),
        None => if dirty_now { without_first(current_text) } else { string_of(current_text) },
    };
    if is_now_dirty {
        marked(base.as_str())
    } else {
        base
    }
}

/// The label once the text of `file_name` is edited: marked with `*`
/// unless it already is.
pub open spec fn label_after_change(current: Seq<char>, file_name: Seq<char>) -> Seq<char> {
    if seq_starts_with(current, '*') { current } else { seq!['*'] + file_name }
}

/// What a save or rename does to a tab's label: with changes still unsaved
/// the label is marked with `*` (an unmarked label gets `*` before the new
/// name, or before itself); with none, the label is exactly the new name
/// when one is given, and otherwise the current label with its mark, if
/// any, removed.
pub proof fn lemma_label_after_save(current: Seq<char>, new_name: Option<Seq<char>>, dirty: bool)
    ensures
        dirty ==> seq_starts_with(label_after_save(current, new_name, dirty), '*'),
        dirty && seq_starts_with(current, '*') ==> label_after_save(current, new_name, dirty) == current,
        dirty && !seq_starts_with(current, '*') ==> label_after_save(current, new_name, dirty) == seq!['*'] + match new_name {
            Some(n) => n,
            None => current,
        },
        !dirty && new_name is Some ==> label_after_save(current, new_name, dirty) == new_name->0,
        !dirty && new_name is None && seq_starts_with(current, '*') ==> seq!['*'] + label_after_save(current, new_name, dirty) == current,
        !dirty && new_name is None && !seq_starts_with(current, '*') ==> label_after_save(current, new_name, dirty) == current,
{
    if !dirty && new_name is None && seq_starts_with(current, '*') {
        assert(seq!['*'] + current.drop_first() =~= current);
    }
}

/// Editing a file whose tab shows its name marks the tab, and saving it
/// gives back the name.
pub proof fn lemma_edit_then_save(name: Seq<char>)
    requires
        !seq_starts_with(name, '*'),
    ensures
        seq_starts_with(label_after_change(name, name), '*'),
        label_after_save(label_after_change(name, name), None, false) == name,
{
    assert((seq!['*'] + name).drop_first() =~= name);
}

/// The label once the text of `file_name` is edited (see
/// `label_after_change`).
pub fn label_after_edit(current_text: &str, file_name: &str) -> (r: String)
    ensures
        r@ == label_after_change(current_text@, file_name@),
{
    if starts_with_char(current_text, '*') {
        string_of(current_text)
    } else {
        marked(file_name)
    }
}

// ---------------------------------------------------------------------------
// Empty untitled tabs
// ---------------------------------------------------------------------------

/// Page `i` is an empty untitled tab: it shows no file, its label reads
/// `Untitled` or `*Untitled`, and its text is empty.
pub open spec fn empty_untitled(paths: Seq<Option<Seq<char>>>, pages: Seq<(Seq<char>, bool)>, i: int) -> bool {
    &&& at(paths, i) is None
    &&& (pages[i].0 == "Untitled"@ || pages[i].0 == "*Untitled"@)
    &&& pages[i].1
}

/// The empty untitled pages below `n`, in increasing order.
pub open spec fn empty_untitled_upto(paths: Seq<Option<Seq<char>>>, pages: Seq<(Seq<char>, bool)>, n: int) -> Seq<u32>
    decreases n,
{
    if n <= 0 {
        Seq::empty()
    } else {
        let prev = empty_untitled_upto(paths, pages, n - 1);
        if empty_untitled(paths, pages, n - 1) {
            prev.push((n - 1) as u32)
        } else {
            prev
        }
    }
}

/// The view of the pages' (label, text is empty) pairs.
pub open spec fn pages_view(v: Seq<(String, bool)>) -> Seq<(Seq<char>, bool)> {
    v.map_values(|p: (String, bool)| (p.0@, p.1))
}

/// The empty untitled tabs to close before a file opens, from the last
/// page down, given each page's label and whether its text is empty.
pub fn close_empty_untitled_tabs(paths: &TabPaths, pages: &Vec<(String, bool)>) -> (r: Vec<u32>)
    requires
        pages@.len() <= u32::MAX,
    ensures
        r@ == empty_untitled_upto(paths@, pages_view(pages@), pages@.len() as int).reverse(),
{
    let ghost pv = pages_view(pages@);
    let mut found: Vec<u32> = Vec::new();
    let mut i: usize = 0;
    while i < pages.len()
        invariant
            i <= pages@.len() <= u32::MAX,
            pv == pages_view(pages@),
            found@ == empty_untitled_upto(paths@, pv, i as int),
        decreases pages.len() - i,
    {
        let page = i as u32;
        let (label, empty) = (&pages[i].0, pages[i].1);
        assert(pv[i as int] == (label@, empty));
        if !paths.contains_key(page) && (str_eq(label.as_str(), "Untitled") || str_eq(label.as_str(), "*Untitled")) && empty {
            found.push(page);
        }
        i = i + 1;
    }
    let mut r: Vec<u32> = Vec::new();
    let mut k: usize = found.len();
    while k > 0
        invariant
            k <= found@.len(),
            r@ == found@.subrange(k as int, found@.len() as int).reverse(),
        decreases k,
    {
        k = k - 1;
        r.push(found[k]);
        assert(r@ =~= found@.subrange(k as int, found@.len() as int).reverse());
    }
    assert(found@.subrange(0, found@.len() as int) =~= found@);
    r
}

} // verus!
