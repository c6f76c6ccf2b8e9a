//! Completion data for one language (keywords, snippets, import hierarchy),
//! the provider that answers questions about it, and the manager that holds
//! one provider per language.

use vstd::prelude::*;
use crate::lexical::{sorted_unique, strictly_sorted, string_views};
use crate::text::{concat, string_of};
use crate::paths::{path_join, spec_path_join};

verus! {

/// A keyword completion item.
#[derive(Debug)]
pub struct KeywordData {
    pub keyword: String,
    /// The kind of item (`type` in the JSON files).
    pub keyword_type: String,
    pub description: String,
    pub example: String,
    pub category: String,
}

/// A snippet completion item.
#[derive(Debug)]
pub struct SnippetData {
    pub trigger: String,
    pub description: String,
    pub content: String,
    pub category: String,
}

/// An importable item of a module.
#[derive(Debug)]
pub struct ImportItem {
    pub name: String,
    pub item_type: String,
    pub description: String,
}

/// A module: its path, its items and the names of its submodules.
#[derive(Debug)]
pub struct ModuleData {
    pub path: String,
    pub items: Vec<ImportItem>,
    pub submodules: Vec<String>,
}

/// The modules of a library, for import suggestions.
#[derive(Debug)]
pub struct ModuleHierarchy {
    pub modules: Vec<ModuleData>,
}

/// All completion data of one language.
#[derive(Debug)]
pub struct LanguageCompletionData {
    pub language: String,
    pub description: String,
    pub keywords: Vec<KeywordData>,
    pub snippets: Vec<SnippetData>,
    pub imports: Option<ModuleHierarchy>,
}

impl Clone for KeywordData {
    fn clone(&self) -> (r: Self)
        ensures
            r == *self,
    {
        KeywordData {
            keyword: self.keyword.clone(),
            keyword_type: self.keyword_type.clone(),
            description: self.description.clone(),
            example: self.example.clone(),
            category: self.category.clone(),
        }
    }
}

impl Clone for SnippetData {
    fn clone(&self) -> (r: Self)
        ensures
            r == *self,
    {
        SnippetData {
            trigger: self.trigger.clone(),
            description: self.description.clone(),
            content: self.content.clone(),
            category: self.category.clone(),
        }
    }
}

/// Index of the last keyword named `name` among the first `n`, or -1.
pub open spec fn last_keyword_index(kws: Seq<KeywordData>, name: Seq<char>, n: int) -> int
    decreases n,
{
    if n <= 0 || n > kws.len() {
        -1
    } else if kws[n - 1].keyword@ == name {
        n - 1
    } else {
        last_keyword_index(kws, name, n - 1)
    }
}

/// Index of the first snippet with this trigger from index `i` on, or -1.
pub open spec fn first_snippet_index(ss: Seq<SnippetData>, trigger: Seq<char>, i: int) -> int
    decreases ss.len() - i,
{
    if i < 0 || i >= ss.len() {
        -1
    } else if ss[i].trigger@ == trigger {
        i
    } else {
        first_snippet_index(ss, trigger, i + 1)
    }
}

/// The documentation text of a keyword: from the last keyword of that name
/// (a later entry replaces an earlier one), or a placeholder.
pub open spec fn keyword_doc(kws: Seq<KeywordData>, keyword: Seq<char>) -> Seq<char> {
    let i = last_keyword_index(kws, keyword, kws.len() as int);
    if i >= 0 {
        let k = kws[i];
        k.keyword@ + " - "@ + k.description@ + "\n\nCategory: "@ + k.category@ + "\nExample: "@ + k.example@
    } else {
        keyword + " - No documentation available"@
    }
}

/// The documentation text of a snippet: from the first snippet with that
/// trigger, or a placeholder.
pub open spec fn snippet_doc(ss: Seq<SnippetData>, trigger: Seq<char>) -> Seq<char> {
    let i = first_snippet_index(ss, trigger, 0);
    if i >= 0 {
        let s = ss[i];
        s.trigger@ + " (snippet) - "@ + s.description@ + "\n\nCategory: "@ + s.category@
    } else {
        trigger + " (snippet) - No documentation available"@
    }
}

/// Answers completion queries about one language's data.
pub struct JsonCompletionProvider {
    language_data: LanguageCompletionData,
}

impl JsonCompletionProvider {
    /// The data this provider answers from.
    pub closed spec fn data(&self) -> LanguageCompletionData {
        self.language_data
    }

    /// A provider for this data.
    pub fn new(language_data: LanguageCompletionData) -> (r: Self)
        ensures
            r.data() == language_data,
    {
        JsonCompletionProvider { language_data }
    }

    /// The data this provider answers from.
    pub fn language_data(&self) -> (r: &LanguageCompletionData)
        ensures
            *r == self.data(),
    {
        &self.language_data
    }

    /// All keywords, in order.
    pub fn keywords(&self) -> (r: Vec<&str>)
        ensures
            r@.len() == self.data().keywords@.len(),
            forall|i: int| 0 <= i < r@.len() ==> (#[trigger] r@[i])@ == self.data().keywords@[i].keyword@,
    {
        let kws = &self.language_data.keywords;
        let mut r: Vec<&str> = Vec::new();
        for i in 0..kws.len()
            invariant
                r@.len() == i,
                forall|k: int| 0 <= k < i ==> (#[trigger] r@[k])@ == kws@[k].keyword@,
        {
            r.push(kws[i].keyword.as_str());
        }
        r
    }

    /// All snippets as (trigger, content) pairs, in order.
    pub fn snippets(&self) -> (r: Vec<(&str, &str)>)
        ensures
            r@.len() == self.data().snippets@.len(),
            forall|i: int| 0 <= i < r@.len() ==> (#[trigger] r@[i]).0@ == self.data().snippets@[i].trigger@
                && r@[i].1@ == self.data().snippets@[i].content@,
    {
        let ss = &self.language_data.snippets;
        let mut r: Vec<(&str, &str)> = Vec::new();
        for i in 0..ss.len()
            invariant
                r@.len() == i,
                forall|k: int| 0 <= k < i ==> (#[trigger] r@[k]).0@ == ss@[k].trigger@ && r@[k].1@ == ss@[k].content@,
        {
            r.push((ss[i].trigger.as_str(), ss[i].content.as_str()));
        }
        r
    }

    /// Documentation of a keyword (see `keyword_doc`).
    pub fn get_keyword_documentation(&self, keyword: &str) -> (r: String)
        ensures
            r@ == keyword_doc(self.data().keywords@, keyword@),
    {
        let kws = &self.language_data.keywords;
        let mut n: usize = kws.len();
        while n > 0
            invariant
                kws == &self.language_data.keywords,
                n <= kws.len(),
                last_keyword_index(kws@, keyword@, kws@.len() as int) == last_keyword_index(kws@, keyword@, n as int),
            decreases n,
        {
            let k = &kws[n - 1];
            if k.keyword.as_str().to_owned() == keyword.to_owned() {
                assert(last_keyword_index(kws@, keyword@, n as int) == n - 1);
                let mut r = string_of(k.keyword.as_str());
                r.append(" - ");
                r.append(k.description.as_str());
                r.append("\n\nCategory: ");
                r.append(k.category.as_str());
                r.append("\nExample: ");
                r.append(k.example.as_str());
                return r;
            }
            n = n - 1;
        }
        let mut r = string_of(keyword);
        r.append(" - No documentation available");
        r
    }

    /// Documentation of a snippet (see `snippet_doc`).
    pub fn get_snippet_documentation(&self, trigger: &str) -> (r: String)
        ensures
            r@ == snippet_doc(self.data().snippets@, trigger@),
    {
        let ss = &self.language_data.snippets;
        let mut i: usize = 0;
        while i < ss.len()
            invariant
                ss == &self.language_data.snippets,
                i <= ss.len(),
                first_snippet_index(ss@, trigger@, 0) == first_snippet_index(ss@, trigger@, i as int),
            decreases ss.len() - i,
        {
            let s = &ss[i];
            if s.trigger.as_str().to_owned() == trigger.to_owned() {
                assert(first_snippet_index(ss@, trigger@, i as int) == i);
                let mut r = string_of(s.trigger.as_str());
                r.append(" (snippet) - ");
                r.append(s.description.as_str());
                r.append("\n\nCategory: ");
                r.append(s.category.as_str());
                return r;
            }
            i = i + 1;
        }
        let mut r = string_of(trigger);
        r.append(" (snippet) - No documentation available");
        r
    }

    /// All keyword data.
    pub fn get_keyword_data(&self) -> (r: &[KeywordData])
        ensures
            r@ == self.data().keywords@,
    {
        self.language_data.keywords.as_slice()
    }

    /// All snippet data.
    pub fn get_snippet_data(&self) -> (r: &[SnippetData])
        ensures
            r@ == self.data().snippets@,
    {
        self.language_data.snippets.as_slice()
    }

    /// The language name.
    pub fn get_language(&self) -> (r: &str)
        ensures
            r@ == self.data().language@,
    {
        self.language_data.language.as_str()
    }

    /// The language description.
    pub fn get_description(&self) -> (r: &str)
        ensures
            r@ == self.data().description@,
    {
        self.language_data.description.as_str()
    }

    /// The keywords of a category, in order.
    pub fn get_keywords_by_category(&self, category: &str) -> (r: Vec<&KeywordData>)
        ensures
            r@.map_values(|k: &KeywordData| *k) == self.data().keywords@.filter(|k: KeywordData| k.category@ == category@),
    {
        let kws = &self.language_data.keywords;
        let ghost pred = |k: KeywordData| k.category@ == category@;
        let mut r: Vec<&KeywordData> = Vec::new();
        for i in 0..kws.len()
            invariant
                pred == (|k: KeywordData| k.category@ == category@),
                r@.map_values(|k: &KeywordData| *k) == kws@.take(i as int).filter(pred),
        {
            let ghost old_r = r@;
            assert(kws@.take(i + 1).drop_last() =~= kws@.take(i as int));
            reveal_with_fuel(Seq::<_>::filter, 1);
            if kws[i].category.as_str().to_owned() == category.to_owned() {
                r.push(&kws[i]);
                assert(r@.map_values(|k: &KeywordData| *k) =~= old_r.map_values(|k: &KeywordData| *k).push(kws@[i as int]));
            }
        }
        assert(kws@.take(kws@.len() as int) =~= kws@);
        r
    }

    /// The snippets of a category, in order.
    pub fn get_snippets_by_category(&self, category: &str) -> (r: Vec<&SnippetData>)
        ensures
            r@.map_values(|s: &SnippetData| *s) == self.data().snippets@.filter(|s: SnippetData| s.category@ == category@),
    {
        let ss = &self.language_data.snippets;
        let ghost pred = |s: SnippetData| s.category@ == category@;
        let mut r: Vec<&SnippetData> = Vec::new();
        for i in 0..ss.len()
            invariant
                pred == (|s: SnippetData| s.category@ == category@),
                r@.map_values(|s: &SnippetData| *s) == ss@.take(i as int).filter(pred),
        {
            let ghost old_r = r@;
            assert(ss@.take(i + 1).drop_last() =~= ss@.take(i as int));
            reveal_with_fuel(Seq::<_>::filter, 1);
            if ss[i].category.as_str().to_owned() == category.to_owned() {
                r.push(&ss[i]);
                assert(r@.map_values(|s: &SnippetData| *s) =~= old_r.map_values(|s: &SnippetData| *s).push(ss@[i as int]));
            }
        }
        assert(ss@.take(ss@.len() as int) =~= ss@);
        r
    }

    /// The distinct keyword categories, in increasing order.
    pub fn get_keyword_categories(&self) -> (r: Vec<String>)
        ensures
            strictly_sorted(string_views(r@)),
            forall|x: Seq<char>| string_views(r@).contains(x)
                <==> exists|i: int| 0 <= i < self.data().keywords@.len() && (#[trigger] self.data().keywords@[i]).category@ == x,
    {
        let kws = &self.language_data.keywords;
        let mut cats: Vec<String> = Vec::new();
        for i in 0..kws.len()
            invariant
                cats@.len() == i,
                forall|k: int| 0 <= k < i ==> (#[trigger] cats@[k]) == kws@[k].category,
        {
            cats.push(kws[i].category.clone());
        }
        let r = sorted_unique(&cats);
        assert forall|x: Seq<char>| string_views(cats@).contains(x)
            <==> exists|i: int| 0 <= i < kws@.len() && (#[trigger] kws@[i]).category@ == x by {
            if string_views(cats@).contains(x) {
                let w = choose|w: int| 0 <= w < string_views(cats@).len() && string_views(cats@)[w] == x;
                assert(kws@[w].category@ == x);
            }
            if exists|i: int| 0 <= i < kws@.len() && (#[trigger] kws@[i]).category@ == x {
                let w = choose|i: int| 0 <= i < kws@.len() && (#[trigger] kws@[i]).category@ == x;
                assert(string_views(cats@)[w] == x);
            }
        }
        r
    }

    /// The distinct snippet categories, in increasing order.
    pub fn get_snippet_categories(&self) -> (r: Vec<String>)
        ensures
            strictly_sorted(string_views(r@)),
            forall|x: Seq<char>| string_views(r@).contains(x)
                <==> exists|i: int| 0 <= i < self.data().snippets@.len() && (#[trigger] self.data().snippets@[i]).category@ == x,
    {
        let ss = &self.language_data.snippets;
        let mut cats: Vec<String> = Vec::new();
        for i in 0..ss.len()
            invariant
                cats@.len() == i,
                forall|k: int| 0 <= k < i ==> (#[trigger] cats@[k]) == ss@[k].category,
        {
            cats.push(ss[i].category.clone());
        }
        let r = sorted_unique(&cats);
        assert forall|x: Seq<char>| string_views(cats@).contains(x)
            <==> exists|i: int| 0 <= i < ss@.len() && (#[trigger] ss@[i]).category@ == x by {
            if string_views(cats@).contains(x) {
                let w = choose|w: int| 0 <= w < string_views(cats@).len() && string_views(cats@)[w] == x;
                assert(ss@[w].category@ == x);
            }
            if exists|i: int| 0 <= i < ss@.len() && (#[trigger] ss@[i]).category@ == x {
                let w = choose|i: int| 0 <= i < ss@.len() && (#[trigger] ss@[i]).category@ == x;
                assert(string_views(cats@)[w] == x);
            }
        }
        r
    }
}

/// Holds one completion provider per language, keyed by language name.
pub struct CompletionDataManager {
    providers: Vec<(String, JsonCompletionProvider)>,
    data_directory: String,
}

/// The language names of a provider list.
pub open spec fn provider_keys(ps: Seq<(String, JsonCompletionProvider)>) -> Seq<Seq<char>> {
    ps.map_values(|p: (String, JsonCompletionProvider)| p.0@)
}

/// A position of `language` in a provider list, when it occurs there.
pub open spec fn key_pos(ps: Seq<(String, JsonCompletionProvider)>, language: Seq<char>) -> int {
    choose|i: int| 0 <= i < ps.len() && (#[trigger] ps[i]).0@ == language
}

/// The provider stored under `language` in a provider list.
pub open spec fn lookup(ps: Seq<(String, JsonCompletionProvider)>, language: Seq<char>) -> Option<JsonCompletionProvider> {
    if exists|i: int| 0 <= i < ps.len() && (#[trigger] ps[i]).0@ == language {
        Some(ps[key_pos(ps, language)].1)
    } else {
        None
    }
}

/// The predicate "differs from `x`".
pub open spec fn differs_from(x: Seq<char>) -> spec_fn(Seq<char>) -> bool {
    |l: Seq<char>| l != x
}

proof fn lemma_lookup_at(ps: Seq<(String, JsonCompletionProvider)>, i: int)
    requires
        provider_keys(ps).no_duplicates(),
        0 <= i < ps.len(),
    ensures
        lookup(ps, ps[i].0@) == Some(ps[i].1),
{
    let l = ps[i].0@;
    assert(ps[i].0@ == l);
    let j = key_pos(ps, l);
    assert(provider_keys(ps)[j] == ps[j].0@);
    assert(provider_keys(ps)[i] == ps[i].0@);
    assert(j == i);
}

proof fn lemma_lookup_none(ps: Seq<(String, JsonCompletionProvider)>, language: Seq<char>)
    requires
        !provider_keys(ps).contains(language),
    ensures
        lookup(ps, language) is None,
{
    if exists|i: int| 0 <= i < ps.len() && (#[trigger] ps[i]).0@ == language {
        let i = choose|i: int| 0 <= i < ps.len() && (#[trigger] ps[i]).0@ == language;
        assert(provider_keys(ps)[i] == language);
    }
}

proof fn lemma_lookup_some(ps: Seq<(String, JsonCompletionProvider)>, language: Seq<char>)
    requires
        provider_keys(ps).no_duplicates(),
        lookup(ps, language) is Some,
    ensures
        exists|i: int| 0 <= i < ps.len() && (#[trigger] ps[i]).0@ == language && lookup(ps, language) == Some(ps[i].1),
{
    let i = choose|i: int| 0 <= i < ps.len() && (#[trigger] ps[i]).0@ == language;
    lemma_lookup_at(ps, i);
}

impl CompletionDataManager {
    /// No language appears twice.
    #[verifier::type_invariant]
    closed spec fn keys_unique(self) -> bool {
        provider_keys(self.providers@).no_duplicates()
    }

    /// The loaded languages, in the order they were first added.
    pub closed spec fn languages(self) -> Seq<Seq<char>> {
        provider_keys(self.providers@)
    }

    /// The provider of a language, if one is loaded.
    pub closed spec fn provider_of(self, language: Seq<char>) -> Option<JsonCompletionProvider> {
        lookup(self.providers@, language)
    }

    /// The directory the language files are read from.
    pub closed spec fn directory(self) -> Seq<char> {
        self.data_directory@
    }

    /// Index of `language` in the provider list.
    fn find(&self, language: &str) -> (r: Option<usize>)
        ensures
            r is None ==> !self.languages().contains(language@) && self.provider_of(language@) is None,
            r matches Some(i) ==> i < self.providers@.len() && self.providers@[i as int].0@ == language@
                && self.provider_of(language@) == Some(self.providers@[i as int].1),
    {
        proof {
            use_type_invariant(self);
        }
        let lang = language.to_owned();
        let mut i: usize = 0;
        while i < self.providers.len()
            invariant
                lang@ == language@,
                i <= self.providers@.len(),
                provider_keys(self.providers@).no_duplicates(),
                forall|k: int| 0 <= k < i ==> (#[trigger] self.providers@[k]).0@ != language@,
            decreases self.providers.len() - i,
        {
            if self.providers[i].0 == lang {
                proof {
                    lemma_lookup_at(self.providers@, i as int);
                }
                return Some(i);
            }
            i = i + 1;
        }
        proof {
            if self.languages().contains(language@) {
                let w = choose|w: int| 0 <= w < self.languages().len() && self.languages()[w] == language@;
                assert(self.providers@[w].0@ == language@);
            }
            lemma_lookup_none(self.providers@, language@);
        }
        None
    }

    /// An empty manager reading language files from `data_directory`.
    pub fn new(data_directory: String) -> (r: Self)
        ensures
            r.languages() == Seq::<Seq<char>>::empty(),
            r.directory() == data_directory@,
            forall|l: Seq<char>| #[trigger] r.provider_of(l) is None,
    {
        let r = CompletionDataManager { providers: Vec::new(), data_directory };
        assert(provider_keys(r.providers@) =~= Seq::<Seq<char>>::empty());
        r
    }

    /// The directory the language files are read from.
    pub fn data_directory(&self) -> (r: &str)
        ensures
            r@ == self.directory(),
    {
        self.data_directory.as_str()
    }

    /// Whether data for `language` is loaded.
    pub fn has_language(&self, language: &str) -> (r: bool)
        ensures
            r == self.provider_of(language@) is Some,
            r == self.languages().contains(language@),
    {
        match self.find(language) {
            Some(i) => {
                proof {
                    assert(self.languages()[i as int] == language@);
                }
                true
            },
            None => false,
        }
    }

    /// The provider of `language`, if loaded.
    pub fn provider(&self, language: &str) -> (r: Option<&JsonCompletionProvider>)
        ensures
            match self.provider_of(language@) {
                Some(p) => r == Some(&p),
                None => r is None,
            },
    {
        match self.find(language) {
            Some(i) => Some(&self.providers[i].1),
            None => None,
        }
    }

    /// The loaded languages, in the order they were first added.
    pub fn get_loaded_languages(&self) -> (r: Vec<&str>)
        ensures
            r@.len() == self.languages().len(),
            forall|i: int| 0 <= i < r@.len() ==> (#[trigger] r@[i])@ == self.languages()[i],
    {
        let mut r: Vec<&str> = Vec::new();
        for i in 0..self.providers.len()
            invariant
                r@.len() == i,
                forall|k: int| 0 <= k < i ==> (#[trigger] r@[k])@ == provider_keys(self.providers@)[k],
        {
            r.push(self.providers[i].0.as_str());
        }
        r
    }

    /// Register `data` as the completion data of `language`, replacing any
    /// data it had; a new language goes at the end of the list.
    pub fn add_language_data(&mut self, language: &str, data: LanguageCompletionData)
        ensures
            final(self).provider_of(language@) matches Some(p) && p.data() == data,
            forall|l: Seq<char>| l != language@ ==> #[trigger] final(self).provider_of(l) == old(self).provider_of(l),
            final(self).languages() == if old(self).languages().contains(language@) {
                old(self).languages()
            } else {
                old(self).languages().push(language@)
            },
            final(self).directory() == old(self).directory(),
    {
        proof {
            use_type_invariant(&*self);
        }
        let provider = JsonCompletionProvider::new(data);
        let found = self.find(language);
        let ghost old_ps = self.providers@;
        let mut providers = Vec::new();
        std::mem::swap(&mut providers, &mut self.providers);
        let ghost j: int;
        match found {
            Some(i) => {
                providers.set(i, (language.to_owned(), provider));
                proof {
                    j = i as int;
                    assert(provider_keys(old_ps)[j] == language@);
                    assert(provider_keys(providers@) =~= provider_keys(old_ps));
                }
            },
            None => {
                providers.push((language.to_owned(), provider));
                proof {
                    j = old_ps.len() as int;
                    assert(provider_keys(providers@) =~= provider_keys(old_ps).push(language@));
                    assert(provider_keys(providers@).no_duplicates());
                }
            },
        }
        proof {
            let ps = providers@;
            lemma_lookup_at(ps, j);
            assert forall|l: Seq<char>| l != language@ implies #[trigger] lookup(ps, l) == lookup(old_ps, l) by {
                if lookup(old_ps, l) is Some {
                    lemma_lookup_some(old_ps, l);
                    let k = choose|k: int| 0 <= k < old_ps.len() && (#[trigger] old_ps[k]).0@ == l && lookup(old_ps, l) == Some(old_ps[k].1);
                    assert(k != j);
                    assert(ps[k] == old_ps[k]);
                    lemma_lookup_at(ps, k);
                }
                if lookup(ps, l) is Some {
                    lemma_lookup_some(ps, l);
                    let k = choose|k: int| 0 <= k < ps.len() && (#[trigger] ps[k]).0@ == l && lookup(ps, l) == Some(ps[k].1);
                    assert(k != j);
                    assert(ps[k] == old_ps[k]);
                    lemma_lookup_at(old_ps, k);
                }
            }
        }
        self.providers = providers;
    }

    /// The file the data of `language` is read from:
    /// `<data directory>/<language>.json`.
    pub fn language_file_path(&self, language: &str) -> (r: String)
        ensures
            r@ == spec_path_join(self.directory(), language@ + ".json"@),
    {
        let name = concat(language, ".json");
        path_join(self.data_directory.as_str(), name.as_str())
    }

    /// Reload `language`: its provider goes, and the data read again from
    /// its file comes in its place; when reading or parsing failed the error
    /// is returned and the language stays unloaded.
    pub fn reload_language(&mut self, language: &str, loaded: Result<LanguageCompletionData, String>) -> (r: Result<(), String>)
        ensures
            match loaded {
                Ok(d) => r is Ok && (final(self).provider_of(language@) matches Some(p) && p.data() == d),
                Err(e) => r == Err::<(), String>(e) && final(self).provider_of(language@) is None,
            },
            forall|l: Seq<char>| l != language@ ==> #[trigger] final(self).provider_of(l) == old(self).provider_of(l),
            final(self).directory() == old(self).directory(),
    {
        self.remove_provider(language);
        match loaded {
            Ok(d) => {
                self.add_language_data(language, d);
                Ok(())
            },
            Err(e) => Err(e),
        }
    }

    /// Add data for `language` parsed from JSON text; when the text could
    /// not be parsed the error is returned and nothing changes.
    pub fn add_language_from_json(&mut self, language: &str, parsed: Result<LanguageCompletionData, String>) -> (r: Result<(), String>)
        ensures
            match parsed {
                Ok(d) => {
                    &&& r is Ok
                    &&& (final(self).provider_of(language@) matches Some(p) && p.data() == d)
                    &&& forall|l: Seq<char>| l != language@ ==> #[trigger] final(self).provider_of(l) == old(self).provider_of(l)
                },
                Err(e) => r == Err::<(), String>(e) && final(self).languages() == old(self).languages()
                    && forall|l: Seq<char>| #[trigger] final(self).provider_of(l) == old(self).provider_of(l),
            },
            final(self).directory() == old(self).directory(),
    {
        match parsed {
            Ok(d) => {
                self.add_language_data(language, d);
                Ok(())
            },
            Err(e) => Err(e),
        }
    }

    /// The provider of `language`, loading it first when it is not loaded:
    /// `read` gives the language's data (read and parsed from its file).
    /// A loaded language is served as it is and `read` is not called; when
    /// `read` fails the manager stays as it was and there is no provider.
    pub fn get_provider<F: FnOnce() -> Result<LanguageCompletionData, String>>(
        &mut self,
        language: &str,
        read: F,
    ) -> (r: Option<&JsonCompletionProvider>)
        requires
            read.requires(()),
        ensures
            load_step(*old(self), *final(self), language@, read),
            match final(self).provider_of(language@) {
                Some(p) => r == Some(&p),
                None => r is None,
            },
    {
        if self.has_language(language) {
            return self.provider(language);
        }
        let res = read();
        match res {
            Ok(d) => {
                self.add_language_data(language, d);
                assert(read.ensures((), res));
                self.provider(language)
            },
            Err(_) => {
                assert(read.ensures((), res));
                None
            },
        }
    }

    /// Record the languages read from the data directory: `stems[i]` was
    /// read with the outcome `loaded[i]`, in order. Each successful read
    /// registers its data (as `add_language_data` does), a failed one is
    /// skipped; the languages that loaded are returned, in order.
    pub fn record_loads(
        &mut self,
        stems: &Vec<String>,
        loaded: Vec<Result<LanguageCompletionData, String>>,
    ) -> (r: Vec<String>)
        requires
            stems@.len() == loaded@.len(),
        ensures
            r@.map_values(|s: String| s@) == loaded_stems(stems@.map_values(|s: String| s@), loaded@),
            forall|l: Seq<char>| match last_loaded(stems@.map_values(|s: String| s@), loaded@, l) {
                Some(d) => #[trigger] final(self).provider_of(l) matches Some(p) && p.data() == d,
                None => final(self).provider_of(l) == old(self).provider_of(l),
            },
            final(self).directory() == old(self).directory(),
    {
        let ghost sv = stems@.map_values(|s: String| s@);
        let ghost lv = loaded@;
        let mut r: Vec<String> = Vec::new();
        let mut rest = loaded;
        let n = stems.len();
        assert(lv.skip(0) =~= lv);
        let mut i: usize = 0;
        while i < n
            invariant
                n == stems@.len(),
                sv == stems@.map_values(|s: String| s@),
                lv.len() == n,
                i <= n,
                rest@ == lv.skip(i as int),
                r@.map_values(|s: String| s@) == loaded_stems(sv.take(i as int), lv.take(i as int)),
                forall|l: Seq<char>| match last_loaded(sv.take(i as int), lv.take(i as int), l) {
                    Some(d) => #[trigger] self.provider_of(l) matches Some(p) && p.data() == d,
                    None => self.provider_of(l) == old(self).provider_of(l),
                },
                self.directory() == old(self).directory(),
            decreases n - i,
        {
            let ghost before = r@;
            proof {
                assert(sv.take(i + 1).drop_last() =~= sv.take(i as int));
                assert(lv.take(i + 1).drop_last() =~= lv.take(i as int));
                assert(sv.take(i + 1).last() == sv[i as int]);
                assert(lv.take(i + 1).last() == lv[i as int]);
            }
            proof {
                assert(lv.skip(i as int)[0] == lv[i as int]);
                assert(lv.skip(i as int).remove(0) =~= lv.skip(i + 1));
            }
            let item = rest.remove(0);
            match item {
                Ok(d) => {
                    let name = stems[i].as_str();
                    self.add_language_data(name, d);
                    r.push(string_of(name));
                    proof {
                        assert(r@.map_values(|s: String| s@) =~= before.map_values(|s: String| s@).push(sv[i as int]));
                    }
                },
                _ => {},
            }
            i = i + 1;
        }
        proof {
            assert(sv.take(n as int) =~= sv);
            assert(lv.take(n as int) =~= lv);
        }
        r
    }

    /// Drop the data of `language`, if loaded; the other languages keep
    /// their order.
    pub fn remove_provider(&mut self, language: &str)
        ensures
            final(self).provider_of(language@) is None,
            forall|l: Seq<char>| l != language@ ==> #[trigger] final(self).provider_of(l) == old(self).provider_of(l),
            final(self).languages() == old(self).languages().filter(differs_from(language@)),
            final(self).directory() == old(self).directory(),
    {
        proof {
            use_type_invariant(&*self);
        }
        let found = self.find(language);
        match found {
            None => {
                proof {
                    assert forall|k: int| 0 <= k < self.languages().len() implies (#[trigger] self.languages()[k]) != language@ by {
                        assert(self.languages().contains(self.languages()[k]));
                    }
                    lemma_filter_keeps_all(self.languages(), language@);
                    assert(self.languages().filter(differs_from(language@)) == self.languages());
                }
            },
            Some(i) => {
                let ghost old_ps = self.providers@;
                let mut providers = Vec::new();
                std::mem::swap(&mut providers, &mut self.providers);
                providers.remove(i);
                proof {
                    let ks = provider_keys(old_ps);
                    let ps = providers@;
                    assert(provider_keys(ps) =~= ks.remove(i as int));
                    lemma_filter_remove_unique(ks, i as int, language@);
                    assert(!provider_keys(ps).contains(language@)) by {
                        if provider_keys(ps).contains(language@) {
                            let w = choose|w: int| 0 <= w < provider_keys(ps).len() && provider_keys(ps)[w] == language@;
                            let ow = if w < i { w } else { w + 1 };
                            assert(ks[ow] == ks[i as int]);
                        }
                    }
                    lemma_lookup_none(ps, language@);
                    assert forall|l: Seq<char>| l != language@ implies #[trigger] lookup(ps, l) == lookup(old_ps, l) by {
                        if lookup(old_ps, l) is Some {
                            lemma_lookup_some(old_ps, l);
                            let k = choose|k: int| 0 <= k < old_ps.len() && (#[trigger] old_ps[k]).0@ == l && lookup(old_ps, l) == Some(old_ps[k].1);
                            let nk = if k < i { k } else { k - 1 };
                            assert(ps[nk] == old_ps[k]);
                            lemma_lookup_at(ps, nk);
                        }
                        if lookup(ps, l) is Some {
                            lemma_lookup_some(ps, l);
                            let k = choose|k: int| 0 <= k < ps.len() && (#[trigger] ps[k]).0@ == l && lookup(ps, l) == Some(ps[k].1);
                            let ok = if k < i { k } else { k + 1 };
                            assert(ps[k] == old_ps[ok]);
                            lemma_lookup_at(old_ps, ok);
                        }
                    }
                }
                self.providers = providers;
                proof {
                    assert(self.languages() == provider_keys(old_ps).remove(i as int));
                    assert(old(self).languages() == provider_keys(old_ps));
                }
            },
        }
    }
}

/// Filtering out a value that does not occur keeps the sequence.
proof fn lemma_filter_keeps_all(s: Seq<Seq<char>>, x: Seq<char>)
    requires
        forall|k: int| 0 <= k < s.len() ==> (#[trigger] s[k]) != x,
    ensures
        s.filter(differs_from(x)) == s,
    decreases s.len(),
{
    reveal_with_fuel(Seq::<_>::filter, 1);
    if s.len() > 0 {
        lemma_filter_keeps_all(s.drop_last(), x);
        assert(s.drop_last().push(s.last()) =~= s);
    } else {
        assert(s.filter(differs_from(x)) =~= s);
    }
}

/// In a sequence without duplicates, filtering out the element at `i` is
/// removing index `i`.
proof fn lemma_filter_remove_unique(s: Seq<Seq<char>>, i: int, x: Seq<char>)
    requires
        s.no_duplicates(),
        0 <= i < s.len(),
        s[i] == x,
    ensures
        s.filter(differs_from(x)) == s.remove(i),
    decreases s.len(),
{
    reveal_with_fuel(Seq::<_>::filter, 1);
    if i == s.len() - 1 {
        assert forall|k: int| 0 <= k < s.drop_last().len() implies (#[trigger] s.drop_last()[k]) != x by {
            assert(s[k] == s.drop_last()[k]);
        }
        lemma_filter_keeps_all(s.drop_last(), x);
        assert(s.remove(i) =~= s.drop_last());
    } else {
        let d = s.drop_last();
        assert(d[i] == x);
        assert(d.no_duplicates());
        lemma_filter_remove_unique(d, i, x);
        assert(s.last() != x);
        assert(s.drop_last() == d);
        assert(s.remove(i) =~= d.remove(i).push(s.last()));
    }
}

/// The keywords of `language` as owned strings, its data loaded first when
/// needed (`read` gives it, see `get_provider`); empty when it has none.
pub fn get_json_keywords<F: FnOnce() -> Result<LanguageCompletionData, String>>(manager: &mut CompletionDataManager, language: &str, read: F) -> (r: Vec<String>)
    requires
        read.requires(()),
    ensures
        load_step(*old(manager), *final(manager), language@, read),
        match final(manager).provider_of(language@) {
            Some(p) => r@.len() == p.data().keywords@.len() && forall|i: int| 0 <= i < r@.len()
                ==> (#[trigger] r@[i])@ == p.data().keywords@[i].keyword@,
            None => r@.len() == 0,
        },
{
    match manager.get_provider(language, read) {
        Some(provider) => {
            let kws = provider.keywords();
            let mut r: Vec<String> = Vec::new();
            for i in 0..kws.len()
                invariant
                    r@.len() == i,
                    forall|k: int| 0 <= k < i ==> (#[trigger] r@[k])@ == kws@[k]@,
            {
                r.push(kws[i].to_owned());
            }
            r
        },
        None => Vec::new(),
    }
}

/// The snippets of `language` as owned (trigger, content) pairs, its data
/// loaded first when needed (see `get_provider`); empty when it has none.
pub fn get_json_snippets<F: FnOnce() -> Result<LanguageCompletionData, String>>(manager: &mut CompletionDataManager, language: &str, read: F) -> (r: Vec<(String, String)>)
    requires
        read.requires(()),
    ensures
        load_step(*old(manager), *final(manager), language@, read),
        match final(manager).provider_of(language@) {
            Some(p) => r@.len() == p.data().snippets@.len() && forall|i: int| 0 <= i < r@.len()
                ==> (#[trigger] r@[i]).0@ == p.data().snippets@[i].trigger@
                    && r@[i].1@ == p.data().snippets@[i].content@,
            None => r@.len() == 0,
        },
{
    match manager.get_provider(language, read) {
        Some(provider) => {
            let ss = provider.snippets();
            let mut r: Vec<(String, String)> = Vec::new();
            for i in 0..ss.len()
                invariant
                    r@.len() == i,
                    forall|k: int| 0 <= k < i ==> (#[trigger] r@[k]).0@ == ss@[k].0@ && r@[k].1@ == ss@[k].1@,
            {
                r.push((ss[i].0.to_owned(), ss[i].1.to_owned()));
            }
            r
        },
        None => Vec::new(),
    }
}

/// Documentation of a keyword of `language`, its data loaded first when
/// needed (see `get_provider`), or a note that the language has no data.
pub fn get_json_keyword_documentation<F: FnOnce() -> Result<LanguageCompletionData, String>>(
    manager: &mut CompletionDataManager,
    language: &str,
    keyword: &str,
    read: F,
) -> (r: String)
    requires
        read.requires(()),
    ensures
        load_step(*old(manager), *final(manager), language@, read),
        r@ == match final(manager).provider_of(language@) {
            Some(p) => keyword_doc(p.data().keywords@, keyword@),
            None => keyword@ + " - No documentation available (language data not loaded)"@,
        },
{
    match manager.get_provider(language, read) {
        Some(provider) => provider.get_keyword_documentation(keyword),
        None => {
            let mut r = string_of(keyword);
            r.append(" - No documentation available (language data not loaded)");
            r
        },
    }
}

/// Documentation of a snippet of `language`, its data loaded first when
/// needed (see `get_provider`), or a note that the language has no data.
pub fn get_json_snippet_documentation<F: FnOnce() -> Result<LanguageCompletionData, String>>(
    manager: &mut CompletionDataManager,
    language: &str,
    trigger: &str,
    read: F,
) -> (r: String)
    requires
        read.requires(()),
    ensures
        load_step(*old(manager), *final(manager), language@, read),
        r@ == match final(manager).provider_of(language@) {
            Some(p) => snippet_doc(p.data().snippets@, trigger@),
            None => trigger@ + " (snippet) - No documentation available (language data not loaded)"@,
        },
{
    match manager.get_provider(language, read) {
        Some(provider) => provider.get_snippet_documentation(trigger),
        None => {
            let mut r = string_of(trigger);
            r.append(" (snippet) - No documentation available (language data not loaded)");
            r
        },
    }
}

/// The languages among `stems` whose read succeeded, in order.
pub open spec fn loaded_stems(stems: Seq<Seq<char>>, loaded: Seq<Result<LanguageCompletionData, String>>) -> Seq<Seq<char>>
    decreases stems.len(),
{
    if stems.len() == 0 || loaded.len() == 0 {
        Seq::empty()
    } else {
        let prev = loaded_stems(stems.drop_last(), loaded.drop_last());
        if loaded.last() is Ok {
            prev.push(stems.last())
        } else {
            prev
        }
    }
}

/// The data last read successfully for language `l`, if any.
pub open spec fn last_loaded(
    stems: Seq<Seq<char>>,
    loaded: Seq<Result<LanguageCompletionData, String>>,
    l: Seq<char>,
) -> Option<LanguageCompletionData>
    decreases stems.len(),
{
    if stems.len() == 0 || loaded.len() == 0 {
        None
    } else if stems.last() == l && loaded.last() is Ok {
        Some(loaded.last()->Ok_0)
    } else {
        last_loaded(stems.drop_last(), loaded.drop_last(), l)
    }
}

/// The language named by a file of the data directory: the stem of a
/// `*.json` file name (`python.json` names `python`); a name whose only dot
/// leads it (`.json`) names none.
pub open spec fn json_stem(name: Seq<char>) -> Option<Seq<char>> {
    if name.len() > 5 && name.subrange(name.len() - 5, name.len() as int) == ".json"@ {
        Some(name.take(name.len() - 5))
    } else {
        None
    }
}

/// The languages named by the file names, in order.
pub open spec fn json_stems_of(names: Seq<Seq<char>>) -> Seq<Seq<char>>
    decreases names.len(),
{
    if names.len() == 0 {
        Seq::empty()
    } else {
        let prev = json_stems_of(names.drop_last());
        match json_stem(names.last()) {
            Some(s) => prev.push(s),
            None => prev,
        }
    }
}

/// The languages that the files of the data directory (given by their
/// names) hold: the stems of the `*.json` names, in order.
pub fn json_stems(file_names: &Vec<String>) -> (r: Vec<String>)
    ensures
        r@.map_values(|s: String| s@) == json_stems_of(file_names@.map_values(|s: String| s@)),
{
    let ghost nv = file_names@.map_values(|s: String| s@);
    let mut r: Vec<String> = Vec::new();
    for i in 0..file_names.len()
        invariant
            nv == file_names@.map_values(|s: String| s@),
            r@.map_values(|s: String| s@) == json_stems_of(nv.take(i as int)),
    {
        let ghost before = r@;
        proof {
            assert(nv.take(i + 1).drop_last() =~= nv.take(i as int));
            assert(nv.take(i + 1).last() == nv[i as int]);
        }
        let cs = crate::text::chars_of(file_names[i].as_str());
        let len = cs.len();
        if len > 5 && cs[len - 5] == '.' && cs[len - 4] == 'j' && cs[len - 3] == 's' && cs[len - 2] == 'o'
            && cs[len - 1] == 'n' {
            let mut stem: Vec<char> = Vec::new();
            for k in 0..len - 5
                invariant
                    len == cs@.len(),
                    len > 5,
                    stem@ == cs@.take(k as int),
            {
                stem.push(cs[k]);
                proof {
                    assert(cs@.take(k + 1) =~= cs@.take(k as int).push(cs@[k as int]));
                }
            }
            proof {
                reveal_strlit(".json");
                assert(cs@.subrange(len - 5, len as int) =~= ".json"@);
            }
            r.push(crate::text::string_from_chars(&stem));
            proof {
                assert(r@.map_values(|s: String| s@) =~= before.map_values(|s: String| s@).push(cs@.take(len - 5)));
            }
        } else {
            proof {
                reveal_strlit(".json");
                if len > 5 && cs@.subrange(len - 5, len as int) == ".json"@ {
                    assert(cs@.subrange(len - 5, len as int)[0] == cs@[len - 5]);
                    assert(cs@.subrange(len - 5, len as int)[1] == cs@[len - 4]);
                    assert(cs@.subrange(len - 5, len as int)[2] == cs@[len - 3]);
                    assert(cs@.subrange(len - 5, len as int)[3] == cs@[len - 2]);
                    assert(cs@.subrange(len - 5, len as int)[4] == cs@[len - 1]);
                }
            }
        }
    }
    proof {
        assert(nv.take(file_names@.len() as int) =~= nv);
    }
    r
}

/// How `get_provider` leaves the manager: a loaded `language` leaves it as it
/// was; otherwise `read` is called once and gives `res`: its data is then
/// registered for `language` (added last, the other languages unchanged),
/// and a failed read leaves the manager as it was.
pub open spec fn load_step<F: FnOnce() -> Result<LanguageCompletionData, String>>(
    before: CompletionDataManager,
    after: CompletionDataManager,
    language: Seq<char>,
    read: F,
) -> bool {
    match before.provider_of(language) {
        Some(_) => after == before,
        None => exists|res: Result<LanguageCompletionData, String>| {
            &&& #[trigger] read.ensures((), res)
            &&& match res {
                Ok(d) => {
                    &&& after.provider_of(language) matches Some(p) && p.data() == d
                    &&& after.languages() == before.languages().push(language)
                    &&& forall|l: Seq<char>| l != language ==> #[trigger] after.provider_of(l) == before.provider_of(l)
                    &&& after.directory() == before.directory()
                },
                Err(_) => after == before,
            }
        },
    }
}

} // verus!
