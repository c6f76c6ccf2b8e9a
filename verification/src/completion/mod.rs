//! Code completion data: keywords, snippets and their documentation, per
//! language, answered from a `CompletionDataManager`.

pub mod json_provider;
pub mod ui;
pub mod imports;

use vstd::prelude::*;
use json_provider::{
    CompletionDataManager, LanguageCompletionData, get_json_keyword_documentation, get_json_keywords,
    get_json_snippet_documentation, get_json_snippets, keyword_doc, load_step, snippet_doc,
};

verus! {

/// The languages offered when no data directory can be read.
pub open spec fn default_languages() -> Seq<Seq<char>> {
    seq!["rust"@, "javascript"@, "python"@, "html"@, "css"@]
}

/// The keywords of `language` as owned strings, its data loaded first when
/// needed (`read` gives it; see `get_json_keywords`).
pub fn get_language_keywords_owned<F: FnOnce() -> Result<LanguageCompletionData, String>>(manager: &mut CompletionDataManager, language: &str, read: F) -> (r: Vec<String>)
    requires
        read.requires(()),
    ensures
        load_step(*old(manager), *final(manager), language@, read),
        match final(manager).provider_of(language@) {
            Some(p) => r@.len() == p.data().keywords@.len() && forall|i: int| 0 <= i < r@.len()
                ==> (#[trigger] r@[i])@ == p.data().keywords@[i].keyword@,
            None => r@.len() == 0,
        },
{
    get_json_keywords(manager, language, read)
}

/// The snippets of `language` as owned (trigger, content) pairs, its data
/// loaded first when needed (see `get_json_snippets`).
pub fn get_language_snippets_owned<F: FnOnce() -> Result<LanguageCompletionData, String>>(manager: &mut CompletionDataManager, language: &str, read: F) -> (r: Vec<(String, String)>)
    requires
        read.requires(()),
    ensures
        load_step(*old(manager), *final(manager), language@, read),
        match final(manager).provider_of(language@) {
            Some(p) => r@.len() == p.data().snippets@.len() && forall|i: int| 0 <= i < r@.len()
                ==> (#[trigger] r@[i]).0@ == p.data().snippets@[i].trigger@
                    && r@[i].1@ == p.data().snippets@[i].content@,
            None => r@.len() == 0,
        },
{
    get_json_snippets(manager, language, read)
}

/// Documentation of a keyword of `language`, its data loaded first when
/// needed (see `get_json_keyword_documentation`).
pub fn get_keyword_documentation<F: FnOnce() -> Result<LanguageCompletionData, String>>(manager: &mut CompletionDataManager, language: &str, keyword: &str, read: F) -> (r: String)
    requires
        read.requires(()),
    ensures
        load_step(*old(manager), *final(manager), language@, read),
        r@ == match final(manager).provider_of(language@) {
            Some(p) => keyword_doc(p.data().keywords@, keyword@),
            None => keyword@ + " - No documentation available (language data not loaded)"@,
        },
{
    get_json_keyword_documentation(manager, language, keyword, read)
}

/// Documentation of a snippet of `language`, its data loaded first when
/// needed (see `get_json_snippet_documentation`).
pub fn get_snippet_documentation<F: FnOnce() -> Result<LanguageCompletionData, String>>(manager: &mut CompletionDataManager, language: &str, trigger: &str, read: F) -> (r: String)
    requires
        read.requires(()),
    ensures
        load_step(*old(manager), *final(manager), language@, read),
        r@ == match final(manager).provider_of(language@) {
            Some(p) => snippet_doc(p.data().snippets@, trigger@),
            None => trigger@ + " (snippet) - No documentation available (language data not loaded)"@,
        },
{
    get_json_snippet_documentation(manager, language, trigger, read)
}

/// The supported languages: those whose data files were loaded
/// (`loaded`), or, when the data directory could not be read (`None`), the
/// default list rust, javascript, python, html, css.
pub fn get_supported_languages(loaded: Option<Vec<String>>) -> (r: Vec<String>)
    ensures
        match loaded {
            Some(v) => r@ == v@,
            None => r@.map_values(|s: String| s@) == default_languages(),
        },
{
    match loaded {
        Some(v) => v,
        None => {
            let r = vec![
                "rust".to_owned(),
                "javascript".to_owned(),
                "python".to_owned(),
                "html".to_owned(),
                "css".to_owned(),
            ];
            assert(r@.map_values(|s: String| s@) =~= default_languages());
            r
        },
    }
}

} // verus!
