use dvop::completion::json_provider::{
    ImportItem, JsonCompletionProvider, KeywordData, LanguageCompletionData, SnippetData,
};
use dvop::completion::imports::{extract_import_path, import_path_checked};
use dvop::completion::ui::{
    clean_buffer_word, completion_suggestions, current_line_of, detect_import_context,
    display_text, expand_snippet_content, get_buffer_language, insertion_text, is_offered,
    item_documentation, longer_than_two_bytes, moved_selection, CompletionItem, MAX_SUGGESTIONS,
};

fn kw(name: &str) -> KeywordData {
    KeywordData {
        keyword: name.to_string(),
        keyword_type: "keyword".to_string(),
        description: String::new(),
        example: String::new(),
        category: "general".to_string(),
    }
}

fn provider(keywords: Vec<&str>, snippets: Vec<(&str, &str)>) -> JsonCompletionProvider {
    JsonCompletionProvider::new(LanguageCompletionData {
        language: "test".to_string(),
        description: "test".to_string(),
        keywords: keywords.into_iter().map(kw).collect(),
        snippets: snippets
            .into_iter()
            .map(|(t, c)| SnippetData {
                trigger: t.to_string(),
                description: String::new(),
                content: c.to_string(),
                category: "general".to_string(),
            })
            .collect(),
        imports: None,
    })
}

fn displays(r: &[(String, CompletionItem)]) -> Vec<String> {
    r.iter().map(|(d, _)| d.clone()).collect()
}

fn langs(v: &[&str]) -> Vec<String> {
    v.iter().map(|s| s.to_string()).collect()
}

#[test]
fn expand_snippet_replaces_placeholders() {
    assert_eq!(
        expand_snippet_content("fn ${1:name}(${2}) {\n    ${0}\n}"),
        "fn name(placeholder) {\n    placeholder\n}"
    );
}

#[test]
fn expand_snippet_keeps_unclosed_and_plain_text() {
    assert_eq!(expand_snippet_content("${1:x"), "${1:x");
    assert_eq!(expand_snippet_content("a$"), "a$");
    assert_eq!(expand_snippet_content("plain text"), "plain text");
    assert_eq!(expand_snippet_content(""), "");
}

#[test]
fn expand_snippet_nested_and_empty_placeholders() {
    assert_eq!(expand_snippet_content("${1:{a}}!"), "{a}!");
    assert_eq!(expand_snippet_content("${}"), "placeholder");
    assert_eq!(expand_snippet_content("${1:a:b}"), "a:b");
}

#[test]
fn import_context_rust_js_python() {
    assert!(detect_import_context("use std::"));
    assert!(!detect_import_context("use std"));
    assert!(detect_import_context("import React from 'react'"));
    assert!(detect_import_context("const fs = require('fs')"));
    assert!(detect_import_context("from os import"));
    assert!(detect_import_context("import os"));
    assert!(!detect_import_context("let x = 1"));
}

#[test]
fn import_context_uses_last_line() {
    assert!(detect_import_context("fn main() {}\nuse std::io::"));
    assert!(!detect_import_context("use std::io;\nfn main() {"));
    assert!(detect_import_context("  \n   import sys   \n  "));
}

#[test]
fn current_line_is_trimmed_last_line() {
    assert_eq!(current_line_of("a\n  b c  "), "b c");
    assert_eq!(current_line_of("  only  "), "only");
    assert_eq!(current_line_of(""), "");
}

#[test]
fn buffer_language_maps_and_falls_back() {
    let supported = langs(&["rust", "javascript", "python"]);
    assert_eq!(get_buffer_language(Some("ts"), &supported), "javascript");
    assert_eq!(get_buffer_language(Some("python3"), &supported), "python");
    assert_eq!(get_buffer_language(Some("haskell"), &supported), "rust");
    assert_eq!(get_buffer_language(Some("java"), &supported), "rust");
    assert_eq!(get_buffer_language(None, &langs(&["python", "rust"])), "python");
    assert_eq!(get_buffer_language(None, &Vec::new()), "rust");
    assert_eq!(get_buffer_language(Some("cpp"), &langs(&["c"])), "c");
}

#[test]
fn display_text_of_each_kind() {
    assert_eq!(display_text(&CompletionItem::Keyword("fn".to_string())), "fn (keyword)");
    assert_eq!(
        display_text(&CompletionItem::Snippet("for".to_string(), "for x in y {}".to_string())),
        "for (snippet)"
    );
    assert_eq!(display_text(&CompletionItem::BufferWord("value".to_string())), "value");
    let item = ImportItem {
        name: "HashMap".to_string(),
        item_type: "struct".to_string(),
        description: String::new(),
    };
    assert_eq!(display_text(&CompletionItem::ImportItem(item)), "HashMap (struct)");
    assert_eq!(
        display_text(&CompletionItem::ImportModule("std::collections".to_string())),
        "collections (module)"
    );
    assert_eq!(display_text(&CompletionItem::ImportModule("std".to_string())), "std (module)");
}

#[test]
fn offered_is_case_insensitive_prefix() {
    assert!(is_offered("Define", "de"));
    assert!(is_offered("define", "DE"));
    assert!(is_offered("anything", ""));
    assert!(!is_offered("xyz", "x1"));
    assert!(!is_offered("d", "de"));
}

#[test]
fn buffer_word_cleaning_and_length() {
    assert_eq!(clean_buffer_word("(foo_bar),"), "foo_bar");
    assert_eq!(clean_buffer_word("..."), "");
    assert_eq!(clean_buffer_word("a.b"), "a.b");
    assert!(!longer_than_two_bytes("ab"));
    assert!(longer_than_two_bytes("abc"));
    assert!(!longer_than_two_bytes("é"));
    assert!(longer_than_two_bytes("éa"));
}

#[test]
fn suggestions_merge_keywords_snippets_and_words() {
    let p = provider(vec!["def", "del", "class"], vec![("def", "def ${1:f}():")]);
    let r = completion_suggestions(Some(&p), "de", "delta define de decimal de_x def delta");
    assert_eq!(
        displays(&r),
        vec![
            "de_x",
            "decimal",
            "def (keyword)",
            "def (snippet)",
            "define",
            "del (keyword)",
            "delta",
        ]
    );
    assert!(matches!(&r[3].1, CompletionItem::Snippet(t, c) if t == "def" && c == "def ${1:f}():"));
    assert!(matches!(&r[0].1, CompletionItem::BufferWord(w) if w == "de_x"));
}

#[test]
fn suggestions_prefix_is_case_insensitive() {
    let p = provider(vec!["def", "del", "class"], vec![]);
    let r = completion_suggestions(Some(&p), "DE", "");
    assert_eq!(displays(&r), vec!["def (keyword)", "del (keyword)"]);
}

#[test]
fn suggestions_empty_prefix_has_no_buffer_words() {
    let p = provider(vec!["while", "if"], vec![("fn", "fn ${1}")]);
    let r = completion_suggestions(Some(&p), "", "something else entirely");
    assert_eq!(displays(&r), vec!["fn (snippet)", "if (keyword)", "while (keyword)"]);
}

#[test]
fn suggestions_without_provider_use_buffer_words_once() {
    let r = completion_suggestions(None, "he", "hello, help (hello) he hex");
    assert_eq!(displays(&r), vec!["hello", "help", "hex"]);
    let r = completion_suggestions(None, "delta", "delta deltas");
    assert_eq!(displays(&r), vec!["deltas"]);
    assert!(completion_suggestions(None, "", "hello world").is_empty());
}

#[test]
fn suggestions_are_capped_and_sorted() {
    let names: Vec<String> = (0..25).rev().map(|i| format!("k{:02}", i)).collect();
    let p = provider(names.iter().map(|s| s.as_str()).collect(), vec![]);
    let r = completion_suggestions(Some(&p), "", "");
    assert_eq!(r.len(), MAX_SUGGESTIONS);
    let shown = displays(&r);
    let mut sorted = shown.clone();
    sorted.sort();
    assert_eq!(shown, sorted);
    assert_eq!(shown[0], "k00 (keyword)");
    assert_eq!(shown[19], "k19 (keyword)");
}

fn path(context: &str) -> Option<String> {
    extract_import_path(context)
}

#[test]
fn import_path_rust_use() {
    assert_eq!(path("use std::collections::"), Some("std::collections".to_string()));
    assert_eq!(path("use std::io"), Some("std".to_string()));
    assert_eq!(path("fn f() {}\nuse std::fmt::"), Some("std::fmt".to_string()));
    assert_eq!(path("use foo"), None);
    assert_eq!(path("use "), None);
}

#[test]
fn import_path_javascript() {
    assert_eq!(path("import React from 'react'"), Some("react".to_string()));
    assert_eq!(path("import x from \"lib/x\";"), Some("lib/x".to_string()));
    assert_eq!(path("import fromage from 'cheese'"), Some("cheese".to_string()));
    assert_eq!(path("const fs = require('fs')"), Some("fs".to_string()));
    assert_eq!(path("const fs = require(fs)"), None);
}

#[test]
fn import_path_python() {
    assert_eq!(path("from os.path import join"), Some("os.path".to_string()));
    assert_eq!(path("import os.path"), Some("os".to_string()));
    assert_eq!(path("import os"), None);
    assert_eq!(path("let x = 1"), None);
}

#[test]
fn import_path_closing_quote_taken_at_byte_offset() {
    // The closing character is looked up at the quote's byte offset, so
    // a multi-byte character before the quote shifts it.
    assert_eq!(path("import x from é'ab'"), Some(String::new()));
}

#[test]
fn import_path_checked_reports_undefined_lookups() {
    assert_eq!(import_path_checked("import x from é'"), None);
    assert_eq!(import_path_checked("x = require(ééé'"), None);
    assert_eq!(import_path_checked("import os.path"), Some(Some("os".to_string())));
    assert_eq!(import_path_checked("import os"), Some(None));
}

#[test]
fn insertion_text_of_each_kind() {
    assert_eq!(insertion_text(&CompletionItem::Keyword("while".to_string())), "while");
    assert_eq!(insertion_text(&CompletionItem::BufferWord("counter".to_string())), "counter");
    assert_eq!(
        insertion_text(&CompletionItem::Snippet("fn".to_string(), "fn ${1:name}() {}".to_string())),
        "fn name() {}"
    );
    let item = ImportItem { name: "Vec".to_string(), item_type: "struct".to_string(), description: "A vector".to_string() };
    assert_eq!(insertion_text(&CompletionItem::ImportItem(item)), "Vec");
    assert_eq!(insertion_text(&CompletionItem::ImportModule("std::io::prelude".to_string())), "prelude");
}

#[test]
fn documentation_beside_items() {
    let kw = CompletionItem::Keyword("fn".to_string());
    assert_eq!(item_documentation(&kw, Some("Defines a function")), "Defines a function");
    assert_eq!(item_documentation(&kw, None), "fn");
    let sn = CompletionItem::Snippet("for".to_string(), "for x in y {}".to_string());
    assert_eq!(item_documentation(&sn, None), "for");
    assert_eq!(
        item_documentation(&CompletionItem::BufferWord("total".to_string()), None),
        "total - Word found in current buffer"
    );
    let item = ImportItem { name: "Vec".to_string(), item_type: "struct".to_string(), description: "A vector".to_string() };
    assert_eq!(item_documentation(&CompletionItem::ImportItem(item), None), "Vec (struct) - A vector");
    assert_eq!(
        item_documentation(&CompletionItem::ImportModule("std::io".to_string()), None),
        "std::io - Module available for import"
    );
}

#[test]
fn keyboard_moves_the_selection() {
    assert_eq!(moved_selection(0, 3, true), Some(1));
    assert_eq!(moved_selection(2, 3, true), None);
    assert_eq!(moved_selection(2, 3, false), Some(1));
    assert_eq!(moved_selection(0, 3, false), None);
}
