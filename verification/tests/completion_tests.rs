use dvop::completion::json_provider::{
    json_stems, CompletionDataManager, JsonCompletionProvider, KeywordData, LanguageCompletionData, SnippetData,
};
use dvop::extensions::rust_completion::load_rust_completions;
use dvop::completion::{
    get_keyword_documentation, get_language_keywords_owned, get_language_snippets_owned,
    get_snippet_documentation, get_supported_languages,
};

fn not_loaded() -> Result<LanguageCompletionData, String> {
    Err("Completion data file not found".to_string())
}

fn keyword(name: &str, kind: &str, description: &str, example: &str, category: &str) -> KeywordData {
    KeywordData {
        keyword: name.to_string(),
        keyword_type: kind.to_string(),
        description: description.to_string(),
        example: example.to_string(),
        category: category.to_string(),
    }
}

fn snippet(trigger: &str, description: &str, content: &str, category: &str) -> SnippetData {
    SnippetData {
        trigger: trigger.to_string(),
        description: description.to_string(),
        content: content.to_string(),
        category: category.to_string(),
    }
}

fn python_data() -> LanguageCompletionData {
    LanguageCompletionData {
        language: "python".to_string(),
        description: "Python".to_string(),
        keywords: vec![
            keyword("def", "keyword", "Defines a function", "def f(): pass", "functions"),
            keyword("class", "keyword", "Defines a class", "class A: pass", "types"),
            keyword("import", "keyword", "Imports a module", "import os", "modules"),
        ],
        snippets: vec![snippet("def", "Function", "def ${1:name}():\n    pass", "functions")],
        imports: None,
    }
}

#[test]
fn test_get_supported_languages() {
    let languages = get_supported_languages(None);
    assert!(!languages.is_empty());
    assert!(languages.iter().any(|l| l == "rust" || l == "python" || l == "javascript"));
}

#[test]
fn test_get_language_keywords_python() {
    let mut manager = CompletionDataManager::new("completion_data".to_string());
    let keywords = get_language_keywords_owned(&mut manager, "python", || Ok(python_data()));
    assert!(manager.has_language("python"));
    assert!(keywords.contains(&"def".to_string()));
    assert!(keywords.contains(&"class".to_string()));
    assert!(keywords.contains(&"import".to_string()));
}

#[test]
fn test_get_snippet_documentation() {
    let mut manager = CompletionDataManager::new("completion_data".to_string());
    let doc = get_snippet_documentation(&mut manager, "rust", "fn", not_loaded);
    assert!(doc.is_empty() || !doc.is_empty());
}

#[test]
fn test_unsupported_language() {
    let mut manager = CompletionDataManager::new("completion_data".to_string());
    let keywords = get_language_keywords_owned(&mut manager, "nonexistent", not_loaded);
    assert!(keywords.is_empty());
}

#[test]
fn test_manager_functionality() {
    let mut manager = CompletionDataManager::new("test_data".to_string());
    let data = LanguageCompletionData {
        language: "test_lang".to_string(),
        description: "Test language for manager".to_string(),
        keywords: vec![keyword(
            "manager_test",
            "keyword",
            "Manager test keyword",
            "manager_test example",
            "test",
        )],
        snippets: vec![],
        imports: None,
    };
    manager.add_language_from_json("test_lang", Ok(data)).unwrap();
    assert!(manager.has_language("test_lang"));
    let provider = manager.provider("test_lang").unwrap();
    assert_eq!(provider.get_language(), "test_lang");
    assert_eq!(provider.keywords().len(), 1);
}

#[test]
fn test_add_language_from_json_error_keeps_manager() {
    let mut manager = CompletionDataManager::new("test_data".to_string());
    let r = manager.add_language_from_json("broken", Err("expected value".to_string()));
    assert_eq!(r, Err("expected value".to_string()));
    assert!(!manager.has_language("broken"));
    assert!(manager.get_loaded_languages().is_empty());
}

#[test]
fn test_reload_language_replaces_or_drops() {
    let mut manager = CompletionDataManager::new("data".to_string());
    manager.add_language_data("python", python_data());
    let r = manager.reload_language("python", Err("Completion data file not found".to_string()));
    assert!(r.is_err());
    assert!(!manager.has_language("python"));
    manager.reload_language("python", Ok(python_data())).unwrap();
    assert!(manager.has_language("python"));
    assert_eq!(manager.provider("python").unwrap().keywords(), vec!["def", "class", "import"]);
}

#[test]
fn test_language_file_path() {
    let manager = CompletionDataManager::new("/data/completion".to_string());
    assert_eq!(manager.language_file_path("rust"), "/data/completion/rust.json");
}

#[test]
fn test_keyword_documentation_formats() {
    let mut manager = CompletionDataManager::new("data".to_string());
    manager.add_language_data("python", python_data());
    assert_eq!(
        get_keyword_documentation(&mut manager, "python", "def", not_loaded),
        "def - Defines a function\n\nCategory: functions\nExample: def f(): pass"
    );
    assert_eq!(
        get_keyword_documentation(&mut manager, "rust", "fn", not_loaded),
        "fn - No documentation available (language data not loaded)"
    );
    assert_eq!(
        get_snippet_documentation(&mut manager, "rust", "fn", not_loaded),
        "fn (snippet) - No documentation available (language data not loaded)"
    );
    let snippets = get_language_snippets_owned(&mut manager, "python", not_loaded);
    assert_eq!(snippets, vec![("def".to_string(), "def ${1:name}():\n    pass".to_string())]);
}

#[test]
fn test_supported_languages_from_loaded() {
    let loaded = vec!["go".to_string(), "rust".to_string()];
    assert_eq!(get_supported_languages(Some(loaded.clone())), loaded);
    assert_eq!(
        get_supported_languages(None),
        vec!["rust", "javascript", "python", "html", "css"]
    );
}

#[test]
fn test_provider_categories_sorted_unique() {
    let mut data = python_data();
    data.keywords.push(keyword("async", "keyword", "Async", "async def f(): pass", "functions"));
    let provider = JsonCompletionProvider::new(data);
    assert_eq!(provider.get_keyword_categories(), vec!["functions", "modules", "types"]);
    assert_eq!(provider.get_keywords_by_category("functions").len(), 2);
    assert_eq!(provider.get_snippet_categories(), vec!["functions"]);
}

/// A manager with the Rust data loaded as the Rust completion extension
/// does when no documentation is installed.
fn rust_manager() -> CompletionDataManager {
    let mut manager = CompletionDataManager::new("completion_data".to_string());
    manager.add_language_data("rust", load_rust_completions(None, None));
    manager
}

#[test]
fn test_get_language_keywords_rust() {
    let mut manager = rust_manager();
    let keywords = get_language_keywords_owned(&mut manager, "rust", not_loaded);
    assert!(keywords.contains(&"fn".to_string()));
    assert!(keywords.contains(&"let".to_string()));
    assert!(keywords.contains(&"mut".to_string()));
    assert!(keywords.contains(&"impl".to_string()));
}

#[test]
fn test_get_language_snippets() {
    let mut manager = rust_manager();
    let snippets = get_language_snippets_owned(&mut manager, "rust", not_loaded);
    assert!(!snippets.is_empty());
    for (trigger, body) in snippets {
        assert!(!trigger.is_empty());
        assert!(!body.is_empty());
    }
}

#[test]
fn test_get_keyword_documentation() {
    let mut manager = rust_manager();
    let doc = get_keyword_documentation(&mut manager, "rust", "fn", not_loaded);
    assert!(!doc.is_empty());
    assert!(doc.to_lowercase().contains("function"));
}

#[test]
fn test_get_provider_loads_once() {
    let mut manager = CompletionDataManager::new("data".to_string());
    let p = manager.get_provider("python", || Ok(python_data()));
    assert!(p.is_some());
    assert_eq!(p.unwrap().keywords(), vec!["def", "class", "import"]);
    assert!(manager.has_language("python"));
    let again = manager.get_provider("python", || panic!("a loaded language is not read again"));
    assert!(again.is_some());
    let missing = manager.get_provider("nonexistent", || Err("Completion data file not found".to_string()));
    assert!(missing.is_none());
    assert!(!manager.has_language("nonexistent"));
    assert_eq!(manager.get_loaded_languages(), vec!["python"]);
}

#[test]
fn test_json_stems_of_directory_names() {
    let names = vec![
        "python.json".to_string(),
        "README.md".to_string(),
        ".json".to_string(),
        "rust.json".to_string(),
        "a.b.json".to_string(),
        "json".to_string(),
    ];
    assert_eq!(json_stems(&names), vec!["python".to_string(), "rust".to_string(), "a.b".to_string()]);
}

#[test]
fn test_record_loads_skips_failures() {
    let mut manager = CompletionDataManager::new("data".to_string());
    let stems = vec!["python".to_string(), "broken".to_string()];
    let loaded = vec![Ok(python_data()), Err("expected value at line 1".to_string())];
    let r = manager.record_loads(&stems, loaded);
    assert_eq!(r, vec!["python".to_string()]);
    assert!(manager.has_language("python"));
    assert!(!manager.has_language("broken"));
}
