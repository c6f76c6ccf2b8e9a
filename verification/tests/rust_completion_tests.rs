use dvop::extensions::rust_completion::{
    cache_file_path, cached_data, category_to_keyword_category, category_to_type, fallback_data,
    items_from_captures, load_rust_completions, parse_all_html, parse_sidebar_items, rust_keywords, rust_snippets,
    sections_from_captures, should_save_cache, sidebar_children, CacheEnvelope, MAX_DEPTH,
};

#[test]
fn test_rust_keywords_count() {
    let kws = rust_keywords();
    assert!(kws.len() >= 38, "Expected at least 38 keywords, got {}", kws.len());
    let names: Vec<&str> = kws.iter().map(|k| k.keyword.as_str()).collect();
    assert!(names.contains(&"fn"));
    assert!(names.contains(&"let"));
    assert!(names.contains(&"match"));
    assert!(names.contains(&"async"));
    assert!(names.contains(&"unsafe"));
}

#[test]
fn test_rust_snippets_count() {
    let snips = rust_snippets();
    assert!(snips.len() >= 25, "Expected at least 25 snippets, got {}", snips.len());
    let triggers: Vec<&str> = snips.iter().map(|s| s.trigger.as_str()).collect();
    assert!(triggers.contains(&"fn"));
    assert!(triggers.contains(&"struct"));
    assert!(triggers.contains(&"impl"));
    assert!(triggers.contains(&"test"));
}

#[test]
fn test_fallback_data_structure() {
    let data = fallback_data();
    assert_eq!(data.language, "rust");
    assert!(!data.keywords.is_empty());
    assert!(!data.snippets.is_empty());
    assert!(data.imports.is_none());
}

#[test]
fn test_category_mappings() {
    assert_eq!(category_to_type("structs"), "type");
    assert_eq!(category_to_type("traits"), "trait");
    assert_eq!(category_to_type("functions"), "function");
    assert_eq!(category_to_type("macros"), "macro");
    assert_eq!(category_to_type("primitives"), "primitive");

    assert_eq!(category_to_keyword_category("structs"), "std_types");
    assert_eq!(category_to_keyword_category("traits"), "traits");
    assert_eq!(category_to_keyword_category("macros"), "macros");
}

#[test]
fn test_load_rust_completions_returns_data() {
    let data = load_rust_completions(None, None);
    assert_eq!(data.language, "rust");
    assert!(!data.keywords.is_empty());
    assert!(!data.snippets.is_empty());
    let kw_names: Vec<&str> = data.keywords.iter().map(|k| k.keyword.as_str()).collect();
    assert!(kw_names.contains(&"fn"));
    assert!(kw_names.contains(&"let"));
}

#[test]
fn test_parse_all_html_sample() {
    let sample = r#"<html>
            <h3 id="structs">Structs</h3><ul class="all-items"><li><a href="collections/struct.HashMap.html">collections::HashMap</a></li><li><a href="collections/struct.HashSet.html">collections::HashSet</a></li></ul>
            <h3 id="traits">Traits</h3><ul class="all-items"><li><a href="clone/trait.Clone.html">clone::Clone</a></li></ul>
        </html>"#;
    let items = parse_all_html(sample);
    let structs = &items.iter().find(|(k, _)| k == "structs").unwrap().1;
    assert_eq!(structs.len(), 2);
    assert_eq!(structs[0].name, "HashMap");
    assert_eq!(structs[0].item_path, "collections::HashMap");
    assert_eq!(structs[1].name, "HashSet");
    let traits = &items.iter().find(|(k, _)| k == "traits").unwrap().1;
    assert_eq!(traits.len(), 1);
    assert_eq!(traits[0].name, "Clone");
}

#[test]
fn test_read_sidebar_items_sample() {
    let content =
        r#"window.SIDEBAR_ITEMS = {"struct":["HashMap","HashSet"],"fn":["new"],"mod":["hash_map"]};"#;
    let data = parse_sidebar_items(content);
    assert!(data.is_some());
    let data = data.unwrap();
    let get = |k: &str| data.iter().find(|(key, _)| key == k).unwrap().1.clone();
    assert_eq!(get("struct"), vec!["HashMap", "HashSet"]);
    assert_eq!(get("fn"), vec!["new"]);
    assert_eq!(get("mod"), vec!["hash_map"]);
    assert!(parse_sidebar_items("no sidebar here").is_none());
}

#[test]
fn test_cache_roundtrip() {
    let toolchain = "test-toolchain-for-unit-test";
    let version = "rustc 99.0.0";
    let envelope = CacheEnvelope {
        toolchain: toolchain.to_string(),
        rust_version: version.to_string(),
        data: fallback_data(),
    };
    let loaded = cached_data(Some(envelope), toolchain, version);
    assert!(loaded.is_some());
    let loaded = loaded.unwrap();
    assert_eq!(loaded.language, "rust");
    assert_eq!(loaded.keywords.len(), fallback_data().keywords.len());
    let envelope = CacheEnvelope {
        toolchain: toolchain.to_string(),
        rust_version: version.to_string(),
        data: fallback_data(),
    };
    assert!(cached_data(Some(envelope), toolchain, "rustc 99.1.0").is_none());
}

#[test]
fn test_cache_needs_known_toolchain() {
    let envelope = CacheEnvelope {
        toolchain: String::new(),
        rust_version: String::new(),
        data: fallback_data(),
    };
    assert!(cached_data(Some(envelope), "", "").is_none());
    assert!(cached_data(None, "stable", "rustc 1.0").is_none());
    assert!(should_save_cache("stable", "rustc 1.80.0"));
    assert!(!should_save_cache("", "rustc 1.80.0"));
    assert!(!should_save_cache("stable", ""));
}

#[test]
fn test_cached_data_wins_over_parsed() {
    let mut cached = fallback_data();
    cached.description = "cached".to_string();
    let mut parsed = fallback_data();
    parsed.description = "parsed".to_string();
    assert_eq!(load_rust_completions(Some(cached), None).description, "cached");
    assert_eq!(load_rust_completions(None, Some(parsed)).description, "parsed");
}

#[test]
fn test_cache_file_path() {
    assert_eq!(
        cache_file_path(Some("/xdg"), Some("/home/u")),
        "/xdg/dvop/rust_completions_cache.json"
    );
    assert_eq!(
        cache_file_path(None, Some("/home/u")),
        "/home/u/.config/dvop/rust_completions_cache.json"
    );
    assert_eq!(cache_file_path(None, None), "/tmp/dvop/rust_completions_cache.json");
}

#[test]
fn test_items_and_sections_from_captures() {
    let item_caps = vec![
        vec![Some("<a href=\"x\">collections::HashMap</a>".to_string()), Some("collections::HashMap".to_string())],
        vec![Some("<a>vec::Vec</a>".to_string()), Some("vec::Vec".to_string())],
    ];
    let items = items_from_captures(&item_caps);
    assert_eq!(items.len(), 2);
    assert_eq!(items[0].name, "HashMap");
    assert_eq!(items[0].item_path, "collections::HashMap");
    assert_eq!(items[1].name, "Vec");
    let section_caps = vec![
        vec![Some("whole".to_string()), Some("structs".to_string()), Some(String::new())],
        vec![Some("whole".to_string()), Some("macros".to_string()), Some(String::new())],
        vec![Some("whole".to_string()), Some("structs".to_string()), Some(String::new())],
    ];
    let sections = sections_from_captures(&section_caps);
    assert_eq!(sections.len(), 2);
    assert_eq!(sections[0].0, "structs");
    assert_eq!(sections[1].0, "macros");
    assert!(sections[0].1.is_empty());
}

#[test]
fn test_sidebar_children_stop_at_max_depth() {
    let subs = vec!["collections".to_string(), "io".to_string()];
    let r = sidebar_children("/doc/std", "std", 0, &subs);
    assert_eq!(
        r,
        vec![
            ("/doc/std/collections".to_string(), "std::collections".to_string(), 1),
            ("/doc/std/io".to_string(), "std::io".to_string(), 1),
        ]
    );
    assert_eq!(sidebar_children("/d", "std::a::b::c", MAX_DEPTH - 1, &subs).len(), 2);
    assert!(sidebar_children("/d", "std::a::b::c::d", MAX_DEPTH, &subs).is_empty());
}
