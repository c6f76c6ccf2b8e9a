//! Rust completion data: the built-in keyword and snippet tables, the
//! mapping of std documentation sections to completion categories, and the
//! assembly of completion data from parsed documentation.

use vstd::prelude::*;
use crate::completion::json_provider::{
    ImportItem, KeywordData, LanguageCompletionData, ModuleData, ModuleHierarchy, SnippetData,
};
use crate::extensions::{ExtensionContributions, ExtensionManifest};
use crate::extensions::native::{
    builtin_manifest, enabled_state, load_enabled_state, opt_view, BuiltinExtension,
    NativeExtension, NativeRegistry,
};
use crate::paths::{path_join, spec_path_join};
use crate::text::{chars_of, str_eq, string_from_chars, string_of};

verus! {

/// The built-in Rust keywords: keyword, description, example, category.
pub const RUST_KEYWORDS: [(&'static str, &'static str, &'static str, &'static str); 40] = [
    ("as", "Performs type casting or renames imports. Converts values between types or creates aliases.", "let x = 65u8 as char;", "keyword"),
    ("async", "Marks a function or block as asynchronous, returning a Future instead of blocking.", "async fn fetch() -> Result<String, Error> { Ok(String::new()) }", "async"),
    ("await", "Suspends execution until a Future completes, yielding its result.", "let data = fetch().await?;", "async"),
    ("become", "Reserved for future use (tail calls).", "// reserved keyword", "keyword"),
    ("break", "Exits the current loop immediately, optionally returning a value.", "for x in data { if x == target { break; } }", "control_flow"),
    ("const", "Declares a compile-time constant value that is inlined wherever used.", "const MAX_SIZE: usize = 1024;", "variable_declaration"),
    ("continue", "Skips the rest of the current loop iteration and starts the next one.", "for x in 0..10 { if x % 2 == 0 { continue; } println!(\"{}\", x); }", "control_flow"),
    ("crate", "Refers to the root of the current crate in module paths.", "use crate::utils::helper;", "module_system"),
    ("dyn", "Creates a trait object for dynamic dispatch at runtime.", "fn draw(shape: &dyn Drawable) { shape.draw(); }", "traits"),
    ("else", "Provides an alternative branch when an if condition is false.", "if ready { go(); } else { wait(); }", "control_flow"),
    ("enum", "Defines a type that can be one of several different variants.", "enum Status { Loading, Success(String), Error }", "type_declaration"),
    ("extern", "Links to external code or specifies a foreign ABI.", "extern \"C\" fn callback() {}", "module_system"),
    ("false", "Boolean literal representing the false value.", "let done = false;", "literal_values"),
    ("fn", "Defines a function.", "fn greet(name: &str) { println!(\"Hello, {}!\", name); }", "function_declaration"),
    ("for", "Iterates over collections, ranges, or anything implementing Iterator.", "for item in &my_list { println!(\"{}\", item); }", "control_flow"),
    ("if", "Executes code conditionally based on a boolean expression.", "if temperature > 30 { println!(\"Hot!\"); }", "control_flow"),
    ("impl", "Adds methods and trait implementations to a type.", "impl Person { fn greet(&self) { println!(\"Hi, I'm {}\", self.name); } }", "implementation"),
    ("in", "Used with for loops to specify the iterator.", "for x in 0..10 { println!(\"{}\", x); }", "control_flow"),
    ("let", "Creates a new variable binding. Variables are immutable by default.", "let name = \"Alice\"; let mut count = 0;", "variable_declaration"),
    ("loop", "Creates an infinite loop that runs until explicitly broken.", "loop { if should_stop() { break; } process(); }", "control_flow"),
    ("match", "Compares a value against patterns and executes the matching arm.", "match result { Ok(v) => use_value(v), Err(e) => handle(e) }", "control_flow"),
    ("mod", "Declares a module, grouping related code together.", "mod utils { pub fn helper() {} }", "module_system"),
    ("move", "Forces a closure to take ownership of captured variables.", "let name = String::from(\"Alice\"); let greet = move || println!(\"{}\", name);", "keyword"),
    ("mut", "Makes a variable binding mutable so its value can be changed.", "let mut score = 0; score += 10;", "variable_declaration"),
    ("pub", "Makes items accessible from outside their module.", "pub fn public_api() {}", "visibility"),
    ("ref", "Binds by reference in pattern matching.", "let ref x = value; // x is &value", "keyword"),
    ("return", "Exits the current function early with a value.", "fn check(x: i32) -> bool { if x > 0 { return true; } false }", "control_flow"),
    ("self", "Refers to the current module or the receiver in methods.", "impl Foo { fn bar(&self) {} }", "module_system"),
    ("Self", "Refers to the implementing type inside impl or trait blocks.", "impl MyType { fn new() -> Self { Self { } } }", "type_declaration"),
    ("static", "Declares a global variable with a fixed memory address for the program's lifetime.", "static COUNTER: AtomicU32 = AtomicU32::new(0);", "variable_declaration"),
    ("struct", "Creates a custom data type by grouping related fields.", "struct Person { name: String, age: u32 }", "type_declaration"),
    ("super", "Refers to the parent module in paths.", "use super::helper;", "module_system"),
    ("trait", "Defines shared behavior that types can implement.", "trait Drawable { fn draw(&self); }", "trait_declaration"),
    ("true", "Boolean literal representing the true value.", "let ready = true;", "literal_values"),
    ("type", "Creates a type alias for an existing type.", "type Result<T> = std::result::Result<T, MyError>;", "type_declaration"),
    ("union", "Defines a union type where all fields share the same memory.", "union IntOrFloat { i: i32, f: f32 }", "type_declaration"),
    ("unsafe", "Marks code that bypasses Rust's safety guarantees.", "unsafe { *raw_ptr = 42; }", "keyword"),
    ("use", "Brings items into scope from other modules or crates.", "use std::collections::HashMap;", "module_system"),
    ("where", "Adds constraints to generic type parameters.", "fn process<T>(item: T) where T: Display + Clone {}", "keyword"),
    ("while", "Repeats code as long as a condition is true.", "while !queue.is_empty() { process(queue.pop()); }", "control_flow"),
];

/// The built-in Rust snippets: trigger, description, content, category.
pub const RUST_SNIPPETS: [(&'static str, &'static str, &'static str, &'static str); 30] = [
    ("fn", "Function definition", "fn ${1:name}(${2:}) -> ${3:ReturnType} {\n\t${4:todo!()}\n}", "function"),
    ("pfn", "Public function definition", "pub fn ${1:name}(${2:}) -> ${3:ReturnType} {\n\t${4:todo!()}\n}", "function"),
    ("afn", "Async function definition", "async fn ${1:name}(${2:}) -> ${3:Result<()>} {\n\t${4:todo!()}\n}", "function"),
    ("struct", "Struct definition with derives", "#[derive(${1:Debug, Clone})]\nstruct ${2:Name} {\n\t${3:field}: ${4:Type},\n}", "type"),
    ("enum", "Enum definition with derives", "#[derive(${1:Debug, Clone})]\nenum ${2:Name} {\n\t${3:Variant},\n}", "type"),
    ("impl", "Implementation block", "impl ${1:Type} {\n\t${2:}\n}", "implementation"),
    ("impl_trait", "Trait implementation", "impl ${1:Trait} for ${2:Type} {\n\t${3:}\n}", "implementation"),
    ("trait", "Trait definition", "trait ${1:Name} {\n\t${2:fn method(&self);}\n}", "trait"),
    ("match", "Match expression", "match ${1:expr} {\n\t${2:pattern} => ${3:value},\n\t_ => ${4:default},\n}", "control_flow"),
    ("if_let", "If-let pattern matching", "if let ${1:Some(value)} = ${2:option} {\n\t${3:}\n}", "control_flow"),
    ("while_let", "While-let loop", "while let ${1:Some(item)} = ${2:iter.next()} {\n\t${3:}\n}", "control_flow"),
    ("for_in", "For-in loop", "for ${1:item} in ${2:collection} {\n\t${3:}\n}", "control_flow"),
    ("loop", "Infinite loop", "loop {\n\t${1:}\n\tbreak;\n}", "control_flow"),
    ("test", "Unit test function", "#[test]\nfn ${1:test_name}() {\n\t${2:assert!(true);}\n}", "testing"),
    ("test_mod", "Test module", "#[cfg(test)]\nmod tests {\n\tuse super::*;\n\n\t#[test]\n\tfn ${1:test_name}() {\n\t\t${2:}\n\t}\n}", "testing"),
    ("derive", "Derive attribute", "#[derive(${1:Debug, Clone, PartialEq})]", "attribute"),
    ("println", "Print line macro", "println!(\"${1:{}}\", ${2:value});", "macro"),
    ("eprintln", "Error print line macro", "eprintln!(\"${1:{}}\", ${2:value});", "macro"),
    ("vec", "Vec macro", "vec![${1:}]", "macro"),
    ("format", "Format string macro", "format!(\"${1:{}}\", ${2:value})", "macro"),
    ("closure", "Closure expression", "|${1:args}| ${2:expr}", "function"),
    ("closure_block", "Closure with block body", "|${1:args}| {\n\t${2:}\n}", "function"),
    ("result_match", "Match on Result", "match ${1:result} {\n\tOk(${2:value}) => ${3:value},\n\tErr(${4:e}) => ${5:return Err(e.into())},\n}", "error_handling"),
    ("option_match", "Match on Option", "match ${1:option} {\n\tSome(${2:value}) => ${3:value},\n\tNone => ${4:todo!()},\n}", "error_handling"),
    ("new", "Constructor new() method", "pub fn new(${1:}) -> Self {\n\tSelf {\n\t\t${2:}\n\t}\n}", "implementation"),
    ("display", "Display trait implementation", "impl std::fmt::Display for ${1:Type} {\n\tfn fmt(&self, f: &mut std::fmt::Formatter<'_>) -> std::fmt::Result {\n\t\twrite!(f, \"${2:{}}\", ${3:self})\n\t}\n}", "trait"),
    ("from", "From trait implementation", "impl From<${1:Source}> for ${2:Target} {\n\tfn from(value: ${1:Source}) -> Self {\n\t\t${3:todo!()}\n\t}\n}", "trait"),
    ("default", "Default trait implementation", "impl Default for ${1:Type} {\n\tfn default() -> Self {\n\t\tSelf {\n\t\t\t${2:}\n\t\t}\n\t}\n}", "trait"),
    ("main", "Main function", "fn main() {\n\t${1:}\n}", "function"),
    ("main_result", "Main function with Result", "fn main() -> Result<(), Box<dyn std::error::Error>> {\n\t${1:}\n\tOk(())\n}", "function"),
];

/// The built-in keyword at row `i` of the table, as completion data.
pub open spec fn table_keyword(i: int) -> (Seq<char>, Seq<char>, Seq<char>, Seq<char>, Seq<char>) {
    let row = RUST_KEYWORDS@[i];
    (row.0@, "keyword"@, row.0@ + " — "@ + row.1@, row.2@, row.3@)
}

/// The fields of a keyword, in order: keyword, type, description, example,
/// category.
pub open spec fn keyword_fields(k: KeywordData) -> (Seq<char>, Seq<char>, Seq<char>, Seq<char>, Seq<char>) {
    (k.keyword@, k.keyword_type@, k.description@, k.example@, k.category@)
}

/// The fields of a snippet, in order: trigger, description, content,
/// category.
pub open spec fn snippet_fields(s: SnippetData) -> (Seq<char>, Seq<char>, Seq<char>, Seq<char>) {
    (s.trigger@, s.description@, s.content@, s.category@)
}

/// The keywords are those of the built-in table, row by row.
pub open spec fn is_keyword_table(ks: Seq<KeywordData>) -> bool {
    ks.len() == RUST_KEYWORDS@.len() && forall|i: int| 0 <= i < ks.len() ==> keyword_fields(#[trigger] ks[i]) == table_keyword(i)
}

/// The snippets are those of the built-in table, row by row.
pub open spec fn is_snippet_table(ss: Seq<SnippetData>) -> bool {
    ss.len() == RUST_SNIPPETS@.len() && forall|i: int| 0 <= i < ss.len() ==> snippet_fields(#[trigger] ss[i]) == (
        RUST_SNIPPETS@[i].0@,
        RUST_SNIPPETS@[i].1@,
        RUST_SNIPPETS@[i].2@,
        RUST_SNIPPETS@[i].3@,
    )
}

/// The built-in Rust keywords, each with type `keyword` and a description
/// that begins with the keyword.
pub fn rust_keywords() -> (r: Vec<KeywordData>)
    ensures
        is_keyword_table(r@),
{
    let mut r: Vec<KeywordData> = Vec::new();
    let n = RUST_KEYWORDS.len();
    for i in 0..n
        invariant
            n == RUST_KEYWORDS@.len(),
            r@.len() == i,
            forall|k: int| 0 <= k < i ==> keyword_fields(#[trigger] r@[k]) == table_keyword(k),
    {
        let row = RUST_KEYWORDS[i];
        let mut description = string_of(row.0);
        description.append(" — ");
        description.append(row.1);
        r.push(KeywordData {
            keyword: string_of(row.0),
            keyword_type: string_of("keyword"),
            description,
            example: string_of(row.2),
            category: string_of(row.3),
        });
    }
    r
}

/// The built-in Rust snippets.
pub fn rust_snippets() -> (r: Vec<SnippetData>)
    ensures
        is_snippet_table(r@),
{
    let mut r: Vec<SnippetData> = Vec::new();
    let n = RUST_SNIPPETS.len();
    for i in 0..n
        invariant
            n == RUST_SNIPPETS@.len(),
            r@.len() == i,
            forall|k: int| 0 <= k < i ==> snippet_fields(#[trigger] r@[k]) == (
                RUST_SNIPPETS@[k].0@,
                RUST_SNIPPETS@[k].1@,
                RUST_SNIPPETS@[k].2@,
                RUST_SNIPPETS@[k].3@,
            ),
    {
        let row = RUST_SNIPPETS[i];
        r.push(SnippetData {
            trigger: string_of(row.0),
            description: string_of(row.1),
            content: string_of(row.2),
            category: string_of(row.3),
        });
    }
    r
}

/// Completion data for when the documentation cannot be read: the built-in
/// tables and no import hierarchy.
pub fn fallback_data() -> (r: LanguageCompletionData)
    ensures
        r.language@ == "rust"@,
        r.description@ == "Rust completion data (fallback — rustup not available)"@,
        is_keyword_table(r.keywords@),
        is_snippet_table(r.snippets@),
        r.imports is None,
{
    LanguageCompletionData {
        language: string_of("rust"),
        description: string_of("Rust completion data (fallback — rustup not available)"),
        keywords: rust_keywords(),
        snippets: rust_snippets(),
        imports: None,
    }
}

/// The completion type of items of a documentation section.
pub open spec fn section_type(section: Seq<char>) -> Seq<char> {
    if section == "structs"@ || section == "enums"@ || section == "types"@ || section == "unions"@ {
        "type"@
    } else if section == "traits"@ {
        "trait"@
    } else if section == "functions"@ {
        "function"@
    } else if section == "macros"@ || section == "attributes"@ || section == "derives"@ {
        "macro"@
    } else if section == "primitives"@ {
        "primitive"@
    } else if section == "constants"@ {
        "constant"@
    } else {
        "keyword"@
    }
}

/// The completion category of items of a documentation section.
pub open spec fn section_category(section: Seq<char>) -> Seq<char> {
    if section == "structs"@ || section == "enums"@ || section == "unions"@ {
        "std_types"@
    } else if section == "traits"@ {
        "traits"@
    } else if section == "functions"@ {
        "std_functions"@
    } else if section == "macros"@ {
        "macros"@
    } else if section == "primitives"@ {
        "primitive_types"@
    } else if section == "constants"@ {
        "constants"@
    } else if section == "types"@ {
        "type_aliases"@
    } else if section == "attributes"@ {
        "attributes"@
    } else if section == "derives"@ {
        "derives"@
    } else {
        "other"@
    }
}

/// The completion type of items of a documentation section.
pub fn category_to_type(section_id: &str) -> (r: &'static str)
    ensures
        r@ == section_type(section_id@),
{
    if str_eq(section_id, "structs") || str_eq(section_id, "enums") || str_eq(section_id, "types")
        || str_eq(section_id, "unions") {
        "type"
    } else if str_eq(section_id, "traits") {
        "trait"
    } else if str_eq(section_id, "functions") {
        "function"
    } else if str_eq(section_id, "macros") || str_eq(section_id, "attributes") || str_eq(section_id, "derives") {
        "macro"
    } else if str_eq(section_id, "primitives") {
        "primitive"
    } else if str_eq(section_id, "constants") {
        "constant"
    } else {
        "keyword"
    }
}

/// The completion category of items of a documentation section.
pub fn category_to_keyword_category(section_id: &str) -> (r: &'static str)
    ensures
        r@ == section_category(section_id@),
{
    if str_eq(section_id, "structs") || str_eq(section_id, "enums") || str_eq(section_id, "unions") {
        "std_types"
    } else if str_eq(section_id, "traits") {
        "traits"
    } else if str_eq(section_id, "functions") {
        "std_functions"
    } else if str_eq(section_id, "macros") {
        "macros"
    } else if str_eq(section_id, "primitives") {
        "primitive_types"
    } else if str_eq(section_id, "constants") {
        "constants"
    } else if str_eq(section_id, "types") {
        "type_aliases"
    } else if str_eq(section_id, "attributes") {
        "attributes"
    } else if str_eq(section_id, "derives") {
        "derives"
    } else {
        "other"
    }
}

// ---------------------------------------------------------------------------
// Parsing `std/all.html`
// ---------------------------------------------------------------------------

/// What `Regex::new(pattern)` followed by `captures_iter(text)` yields: for
/// each match, its groups (group 0 first), `None` for a group that did not
/// take part; `None` overall when the pattern does not compile.
pub uninterp spec fn spec_regex_captures(pattern: Seq<char>, text: Seq<char>) -> Option<Seq<Seq<Option<Seq<char>>>>>;

/// The views of captured groups.
pub open spec fn captures_view(v: Seq<Vec<Option<String>>>) -> Seq<Seq<Option<Seq<char>>>> {
    v.map_values(|c: Vec<Option<String>>| c@.map_values(|g: Option<String>| match g {
        Some(s) => Some(s@),
        None => None,
    }))
}

/// Compiles `pattern` with `regex::Regex::new` and collects
/// `Regex::captures_iter(text)`, each capture as the list of its groups
/// (`Captures::iter`). The result is named by `spec_regex_captures`; the
/// matching rules of the regex crate are not stated.
#[verifier::external_body]
fn regex_captures(pattern: &str, text: &str) -> (r: Option<Vec<Vec<Option<String>>>>)
    ensures
        match r {
            Some(v) => spec_regex_captures(pattern@, text@) == Some(captures_view(v@)),
            None => spec_regex_captures(pattern@, text@) is None,
        },
{
    let re = regex::Regex::new(pattern).ok()?;
    Some(re.captures_iter(text).map(|c| c.iter().map(|m| m.map(|m| m.as_str().to_owned())).collect()).collect())
}

/// A section of `std/all.html`: an id such as `structs`, then a list of links.
pub const SECTION_PATTERN: &'static str = r#"id="(\w+)">[^<]+</h3><ul class="all-items">(.*?)</ul>"#;

/// A link of an item list; its text is the item's path.
pub const ITEM_PATTERN: &'static str = r#"<a href="[^"]+">([^<]+)</a>"#;

/// An item listed in `std/all.html`.
#[derive(Debug)]
pub struct AllHtmlItem {
    /// The last segment of the path, such as `HashMap`.
    pub name: String,
    /// The full path within std, such as `collections::HashMap`.
    pub item_path: String,
}

/// Group `k` of a capture, or the empty string when it is absent.
pub open spec fn group(c: Seq<Option<Seq<char>>>, k: int) -> Seq<char> {
    if 0 <= k < c.len() {
        match c[k] {
            Some(s) => s,
            None => Seq::empty(),
        }
    } else {
        Seq::empty()
    }
}

/// `s[i..i + 2]` is `::`.
pub open spec fn double_colon_at(s: Seq<char>, i: int) -> bool {
    0 <= i && i + 1 < s.len() && s[i] == ':' && s[i + 1] == ':'
}

/// The text after the last `::` of `s`, or `s` when it holds none (the first
/// piece of `str::rsplit("::")`).
pub open spec fn last_segment(s: Seq<char>) -> Seq<char> {
    if exists|i: int| #[trigger] double_colon_at(s, i) {
        let i = choose|i: int| #[trigger] double_colon_at(s, i) && forall|j: int| #[trigger] double_colon_at(s, j) ==> j <= i;
        s.subrange(i + 2, s.len() as int)
    } else {
        s
    }
}

proof fn lemma_last_double_colon_from(s: Seq<char>, k: int)
    requires
        exists|i: int| #[trigger] double_colon_at(s, i),
        forall|j: int| k < j ==> !#[trigger] double_colon_at(s, j),
    ensures
        exists|i: int| #[trigger] double_colon_at(s, i) && forall|j: int| #[trigger] double_colon_at(s, j) ==> j <= i,
    decreases k,
{
    let w = choose|i: int| #[trigger] double_colon_at(s, i);
    if double_colon_at(s, k) {
        assert(forall|j: int| #[trigger] double_colon_at(s, j) ==> j <= k);
    } else {
        assert(w < k);
        lemma_last_double_colon_from(s, k - 1);
    }
}

/// The name of an item is the part of its path after the last `::`: it is
/// a suffix of the path, holds no `::`, and is preceded in the path by `::`
/// when the path has one (otherwise it is the whole path).
pub proof fn lemma_last_segment_is_last_part(s: Seq<char>)
    ensures
        last_segment(s).len() <= s.len(),
        s.skip(s.len() - last_segment(s).len()) == last_segment(s),
        forall|j: int| !#[trigger] double_colon_at(last_segment(s), j),
        (exists|i: int| #[trigger] double_colon_at(s, i)) ==> s.subrange(
            s.len() - last_segment(s).len() - 2,
            s.len() - last_segment(s).len(),
        ) == seq![':', ':'],
        !(exists|i: int| #[trigger] double_colon_at(s, i)) ==> last_segment(s) == s,
{
    let r = last_segment(s);
    if exists|i: int| #[trigger] double_colon_at(s, i) {
        lemma_last_double_colon_from(s, s.len() as int);
        let i = choose|i: int| #[trigger] double_colon_at(s, i) && forall|j: int| #[trigger] double_colon_at(s, j) ==> j <= i;
        assert(r == s.subrange(i + 2, s.len() as int));
        assert(s.skip(s.len() - r.len()) =~= r);
        assert forall|j: int| !#[trigger] double_colon_at(r, j) by {
            if double_colon_at(r, j) {
                assert(r[j] == s[i + 2 + j] && r[j + 1] == s[i + 3 + j]);
                assert(double_colon_at(s, i + 2 + j));
            }
        }
        assert(s.subrange(i, i + 2) =~= seq![':', ':']);
    } else {
        assert(s.skip(0) =~= s);
    }
}

/// The text after the last `::` of `s`, or `s` itself.
pub fn last_path_segment(s: &str) -> (r: String)
    ensures
        r@ == last_segment(s@),
{
    let cs = chars_of(s);
    let n = cs.len();
    if n < 2 {
        assert(!exists|i: int| #[trigger] double_colon_at(s@, i));
        return string_of(s);
    }
    let mut k: usize = n - 2;
    loop
        invariant
            cs@ == s@,
            n == cs.len(),
            k + 2 <= n,
            forall|j: int| k < j && #[trigger] double_colon_at(s@, j) ==> false,
        decreases k,
    {
        if cs[k] == ':' && cs[k + 1] == ':' {
            assert(double_colon_at(s@, k as int));
            assert(forall|j: int| #[trigger] double_colon_at(s@, j) ==> j <= k);
            let ghost w = choose|w: int| #[trigger] double_colon_at(s@, w) && forall|j: int| #[trigger] double_colon_at(s@, j) ==> j <= w;
            assert(w == k) by {
                assert(w <= k);
                assert(k <= w);
            }
            let mut r: Vec<char> = Vec::new();
            let mut m = k + 2;
            while m < n
                invariant
                    cs@ == s@,
                    n == cs.len(),
                    k + 2 <= m <= n,
                    r@ == s@.subrange(k + 2, m as int),
                decreases n - m,
            {
                r.push(cs[m]);
                assert(s@.subrange(k + 2, m + 1) =~= s@.subrange(k + 2, m as int).push(s@[m as int]));
                m = m + 1;
            }
            return string_from_chars(&r);
        }
        if k == 0 {
            assert(!exists|j: int| #[trigger] double_colon_at(s@, j)) by {
                assert forall|j: int| #[trigger] double_colon_at(s@, j) implies false by {
                    if j == 0 {
                        assert(!(cs@[0] == ':' && cs@[1] == ':'));
                    }
                }
            }
            return string_of(s);
        }
        k = k - 1;
    }
}

/// The items matched by the item pattern, as (name, path) pairs: the path
/// is the first group, the name its last `::` segment.
pub open spec fn captured_items(caps: Seq<Seq<Option<Seq<char>>>>) -> Seq<(Seq<char>, Seq<char>)> {
    caps.map_values(|c: Seq<Option<Seq<char>>>| (last_segment(group(c, 1)), group(c, 1)))
}

/// The items of a section's list, as (name, path) pairs.
pub open spec fn section_items(content: Seq<char>) -> Seq<(Seq<char>, Seq<char>)> {
    match spec_regex_captures(ITEM_PATTERN@, content) {
        Some(caps) => captured_items(caps),
        None => Seq::empty(),
    }
}

/// The items of a list, as (name, path) views.
pub open spec fn item_views(v: Seq<AllHtmlItem>) -> Seq<(Seq<char>, Seq<char>)> {
    v.map_values(|it: AllHtmlItem| (it.name@, it.item_path@))
}

/// Index of the first entry of `list` keyed `key` from index `i` on, or -1.
pub open spec fn key_index_from<V>(list: Seq<(Seq<char>, V)>, key: Seq<char>, i: int) -> int
    decreases list.len() - i,
{
    if i < 0 || i >= list.len() {
        -1
    } else if list[i].0 == key {
        i
    } else {
        key_index_from(list, key, i + 1)
    }
}

/// `list` with the entry keyed `key` replaced by `(key, val)`, or with that
/// entry added at the end (a map insert that keeps first-insertion order).
pub open spec fn upsert<V>(list: Seq<(Seq<char>, V)>, key: Seq<char>, val: V) -> Seq<(Seq<char>, V)> {
    let i = key_index_from(list, key, 0);
    if i >= 0 {
        list.update(i, (key, val))
    } else {
        list.push((key, val))
    }
}

/// The sections of the first `n` section matches, later sections of the
/// same id replacing earlier ones.
pub open spec fn sections_upto(caps: Seq<Seq<Option<Seq<char>>>>, n: int) -> Seq<(Seq<char>, Seq<(Seq<char>, Seq<char>)>)>
    decreases n,
{
    if n <= 0 || n > caps.len() {
        Seq::empty()
    } else {
        upsert(sections_upto(caps, n - 1), group(caps[n - 1], 1), section_items(group(caps[n - 1], 2)))
    }
}

/// The sections of `std/all.html`: each id with its items.
pub open spec fn html_sections(html: Seq<char>) -> Seq<(Seq<char>, Seq<(Seq<char>, Seq<char>)>)> {
    match spec_regex_captures(SECTION_PATTERN@, html) {
        Some(caps) => sections_upto(caps, caps.len() as int),
        None => Seq::empty(),
    }
}

/// The views of parsed sections.
pub open spec fn sections_view(v: Seq<(String, Vec<AllHtmlItem>)>) -> Seq<(Seq<char>, Seq<(Seq<char>, Seq<char>)>)> {
    v.map_values(|e: (String, Vec<AllHtmlItem>)| (e.0@, item_views(e.1@)))
}

fn group_text(c: &Vec<Option<String>>, k: usize) -> (r: String)
    ensures
        r@ == group(c@.map_values(|g: Option<String>| match g {
            Some(s) => Some(s@),
            None => None,
        }), k as int),
{
    if k < c.len() {
        match &c[k] {
            Some(s) => s.clone(),
            None => String::new(),
        }
    } else {
        String::new()
    }
}

/// The items of a section given the matches of the item pattern in it
/// (see `captured_items`).
pub fn items_from_captures(caps: &Vec<Vec<Option<String>>>) -> (r: Vec<AllHtmlItem>)
    ensures
        item_views(r@) == captured_items(captures_view(caps@)),
{
    let mut r: Vec<AllHtmlItem> = Vec::new();
    let ghost cv = captures_view(caps@);
    for i in 0..caps.len()
        invariant
            cv == captures_view(caps@),
            item_views(r@) == cv.take(i as int).map_values(
                |c: Seq<Option<Seq<char>>>| (last_segment(group(c, 1)), group(c, 1)),
            ),
    {
        let full = group_text(&caps[i], 1);
        let name = last_path_segment(full.as_str());
        let ghost old_r = r@;
        r.push(AllHtmlItem { name, item_path: full });
        proof {
            assert(cv[i as int] == caps@[i as int]@.map_values(|g: Option<String>| match g {
                Some(s) => Some(s@),
                None => None,
            }));
            assert(item_views(r@) =~= item_views(old_r).push(item_views(r@).last()));
            assert(cv.take(i + 1) =~= cv.take(i as int).push(cv[i as int]));
        }
    }
    proof {
        assert(cv.take(caps@.len() as int) =~= cv);
    }
    r
}

fn parse_items(content: &str) -> (r: Vec<AllHtmlItem>)
    ensures
        item_views(r@) == section_items(content@),
{
    match regex_captures(ITEM_PATTERN, content) {
        Some(caps) => items_from_captures(&caps),
        None => {
            let r: Vec<AllHtmlItem> = Vec::new();
            assert(item_views(r@) =~= Seq::<(Seq<char>, Seq<char>)>::empty());
            r
        },
    }
}

fn upsert_section(list: &mut Vec<(String, Vec<AllHtmlItem>)>, key: String, items: Vec<AllHtmlItem>)
    ensures
        sections_view(final(list)@) == upsert(sections_view(old(list)@), key@, item_views(items@)),
{
    let ghost sv = sections_view(list@);
    let ghost kv = key@;
    let ghost iv = item_views(items@);
    let mut i: usize = 0;
    while i < list.len()
        invariant
            sv == sections_view(list@),
            i <= list.len(),
            key_index_from(sv, kv, 0) == key_index_from(sv, kv, i as int),
            kv == key@,
            iv == item_views(items@),
            sv == sections_view(old(list)@),
        decreases list.len() - i,
    {
        if list[i].0 == key {
            assert(sv[i as int].0 == kv);
            assert(key_index_from(sv, kv, i as int) == i);
            list.set(i, (key, items));
            assert(sections_view(list@) =~= sv.update(i as int, (kv, iv)));
            return;
        }
        assert(sv[i as int].0 != kv);
        i = i + 1;
    }
    assert(key_index_from(sv, kv, i as int) == -1);
    list.push((key, items));
    assert(sections_view(list@) =~= sv.push((kv, iv)));
}

/// The sections of `std/all.html` given the matches of the section pattern
/// in it, in order: each section's id with the items of its list, a later
/// section of the same id replacing an earlier one (see `sections_upto`).
pub fn sections_from_captures(caps: &Vec<Vec<Option<String>>>) -> (r: Vec<(String, Vec<AllHtmlItem>)>)
    ensures
        sections_view(r@) == sections_upto(captures_view(caps@), caps@.len() as int),
{
    let mut r: Vec<(String, Vec<AllHtmlItem>)> = Vec::new();
    assert(sections_view(r@) =~= Seq::<(Seq<char>, Seq<(Seq<char>, Seq<char>)>)>::empty());
    let ghost cv = captures_view(caps@);
    for i in 0..caps.len()
        invariant
            cv == captures_view(caps@),
            sections_view(r@) == sections_upto(cv, i as int),
    {
        proof {
            assert(cv[i as int] == caps@[i as int]@.map_values(|g: Option<String>| match g {
                Some(s) => Some(s@),
                None => None,
            }));
        }
        let id = group_text(&caps[i], 1);
        let content = group_text(&caps[i], 2);
        let items = parse_items(content.as_str());
        upsert_section(&mut r, id, items);
    }
    r
}

/// Parse the text of `std/all.html` into its sections (see `html_sections`).
pub fn parse_all_html(html: &str) -> (r: Vec<(String, Vec<AllHtmlItem>)>)
    ensures
        sections_view(r@) == html_sections(html@),
{
    match regex_captures(SECTION_PATTERN, html) {
        Some(caps) => sections_from_captures(&caps),
        None => {
            let r: Vec<(String, Vec<AllHtmlItem>)> = Vec::new();
            assert(sections_view(r@) =~= Seq::<(Seq<char>, Seq<(Seq<char>, Seq<char>)>)>::empty());
            r
        },
    }
}

// ---------------------------------------------------------------------------
// Completion data from the documentation
// ---------------------------------------------------------------------------

/// The names of the built-in keywords.
pub open spec fn builtin_names() -> Seq<Seq<char>> {
    RUST_KEYWORDS@.map_values(|row: (&'static str, &'static str, &'static str, &'static str)| row.0@)
}

/// The keywords made from the items of one documentation section: items
/// that are not built-in keywords, with the section's type and category.
pub open spec fn section_keywords(section: Seq<char>, items: Seq<(Seq<char>, Seq<char>)>) -> Seq<(Seq<char>, Seq<char>, Seq<char>, Seq<char>, Seq<char>)> {
    items.filter(|it: (Seq<char>, Seq<char>)| !builtin_names().contains(it.0)).map_values(
        |it: (Seq<char>, Seq<char>)| (
            it.0,
            section_type(section),
            it.0 + " — std::"@ + it.1,
            "use std::"@ + it.1 + ";"@,
            section_category(section),
        ),
    )
}

/// The keywords made from all documentation sections, section by section.
pub open spec fn doc_keywords(sections: Seq<(Seq<char>, Seq<(Seq<char>, Seq<char>)>)>) -> Seq<(Seq<char>, Seq<char>, Seq<char>, Seq<char>, Seq<char>)>
    decreases sections.len(),
{
    if sections.len() == 0 {
        Seq::empty()
    } else {
        doc_keywords(sections.drop_last()) + section_keywords(sections.last().0, sections.last().1)
    }
}

/// The built-in keyword table as completion data fields.
pub open spec fn table_keywords() -> Seq<(Seq<char>, Seq<char>, Seq<char>, Seq<char>, Seq<char>)> {
    Seq::new(RUST_KEYWORDS@.len(), |i: int| table_keyword(i))
}

/// The fields of a list of keywords.
pub open spec fn keywords_view(ks: Seq<KeywordData>) -> Seq<(Seq<char>, Seq<char>, Seq<char>, Seq<char>, Seq<char>)> {
    ks.map_values(|k: KeywordData| keyword_fields(k))
}

/// Whether `name` is the name of a built-in keyword.
fn is_builtin_name(names: &Vec<KeywordData>, name: &str) -> (r: bool)
    requires
        is_keyword_table(names@),
    ensures
        r == builtin_names().contains(name@),
{
    let mut i: usize = 0;
    while i < names.len()
        invariant
            is_keyword_table(names@),
            i <= names.len(),
            forall|k: int| 0 <= k < i ==> builtin_names()[k] != name@,
        decreases names.len() - i,
    {
        assert(keyword_fields(names@[i as int]) == table_keyword(i as int));
        if str_eq(names[i].keyword.as_str(), name) {
            assert(builtin_names()[i as int] == name@);
            return true;
        }
        i = i + 1;
    }
    proof {
        if builtin_names().contains(name@) {
            let w = choose|w: int| 0 <= w < builtin_names().len() && builtin_names()[w] == name@;
            assert(false);
        }
    }
    false
}

/// Append the keywords of one section to `out`.
fn push_section_keywords(
    out: &mut Vec<KeywordData>,
    builtin: &Vec<KeywordData>,
    section: &str,
    items: &Vec<AllHtmlItem>,
)
    requires
        is_keyword_table(builtin@),
    ensures
        keywords_view(final(out)@) == keywords_view(old(out)@) + section_keywords(section@, item_views(items@)),
{
    let ghost base = keywords_view(out@);
    let ghost iv = item_views(items@);
    let ghost pred = |it: (Seq<char>, Seq<char>)| !builtin_names().contains(it.0);
    let ty = category_to_type(section);
    let cat = category_to_keyword_category(section);
    for i in 0..items.len()
        invariant
            is_keyword_table(builtin@),
            iv == item_views(items@),
            pred == (|it: (Seq<char>, Seq<char>)| !builtin_names().contains(it.0)),
            ty@ == section_type(section@),
            cat@ == section_category(section@),
            keywords_view(out@) == base + section_keywords(section@, iv.take(i as int)),
    {
        let item = &items[i];
        let ghost prev = keywords_view(out@);
        proof {
            reveal_with_fuel(Seq::<_>::filter, 1);
            assert(iv.take(i + 1).drop_last() =~= iv.take(i as int));
            assert(iv.take(i + 1).last() == (item.name@, item.item_path@));
        }
        if !is_builtin_name(builtin, item.name.as_str()) {
            let mut description = string_of(item.name.as_str());
            description.append(" — std::");
            description.append(item.item_path.as_str());
            let mut example = string_of("use std::");
            example.append(item.item_path.as_str());
            example.append(";");
            out.push(KeywordData {
                keyword: string_of(item.name.as_str()),
                keyword_type: string_of(ty),
                description,
                example,
                category: string_of(cat),
            });
            proof {
                assert(keywords_view(out@) =~= prev.push(keyword_fields(out@.last())));
                assert(iv.take(i + 1).filter(pred) =~= iv.take(i as int).filter(pred).push(iv[i as int]));
                assert(section_keywords(section@, iv.take(i + 1)) =~= section_keywords(section@, iv.take(i as int)).push(keyword_fields(out@.last())));
            }
        } else {
            proof {
                assert(iv.take(i + 1).filter(pred) =~= iv.take(i as int).filter(pred));
            }
        }
    }
    proof {
        assert(iv.take(items@.len() as int) =~= iv);
    }
}

/// Rust completion data from parsed documentation: the keywords of every
/// section (see `doc_keywords`) followed by the built-in keywords, the
/// built-in snippets, and the given import hierarchy.
pub fn parse_docs(all_items: &Vec<(String, Vec<AllHtmlItem>)>, imports: ModuleHierarchy) -> (r: LanguageCompletionData)
    ensures
        r.language@ == "rust"@,
        r.description@ == "Rust completion data (from rustup documentation)"@,
        keywords_view(r.keywords@) == doc_keywords(sections_view(all_items@)) + table_keywords(),
        is_snippet_table(r.snippets@),
        r.imports == Some(imports),
{
    let builtin = rust_keywords();
    let snippets = rust_snippets();
    let mut keywords: Vec<KeywordData> = Vec::new();
    let ghost sv = sections_view(all_items@);
    assert(keywords_view(keywords@) =~= doc_keywords(sv.take(0)));
    for i in 0..all_items.len()
        invariant
            is_keyword_table(builtin@),
            sv == sections_view(all_items@),
            keywords_view(keywords@) == doc_keywords(sv.take(i as int)),
    {
        push_section_keywords(&mut keywords, &builtin, all_items[i].0.as_str(), &all_items[i].1);
        proof {
            assert(sv.take(i + 1).drop_last() =~= sv.take(i as int));
            assert(sv.take(i + 1).last() == sv[i as int]);
        }
    }
    assert(sv.take(all_items@.len() as int) =~= sv);
    let ghost before = keywords_view(keywords@);
    let mut extra = builtin;
    keywords.append(&mut extra);
    proof {
        assert(keywords_view(builtin@) =~= table_keywords());
        assert(keywords_view(keywords@) =~= before + keywords_view(builtin@));
    }
    LanguageCompletionData {
        language: string_of("rust"),
        description: string_of("Rust completion data (from rustup documentation)"),
        keywords,
        snippets,
        imports: Some(imports),
    }
}

// ---------------------------------------------------------------------------
// Module hierarchy from `sidebar-items*.js`
// ---------------------------------------------------------------------------

/// How deep below `std` the module hierarchy is read.
pub const MAX_DEPTH: usize = 4;

/// Index of the first `c` in `s` from index `i` on, or -1.
pub open spec fn first_index_from(s: Seq<char>, c: char, i: int) -> int
    decreases s.len() - i,
{
    if i < 0 || i >= s.len() {
        -1
    } else if s[i] == c {
        i
    } else {
        first_index_from(s, c, i + 1)
    }
}

/// Index of the last `c` among the first `n` characters of `s`, or -1.
pub open spec fn last_index_upto(s: Seq<char>, c: char, n: int) -> int
    decreases n,
{
    if n <= 0 || n > s.len() {
        -1
    } else if s[n - 1] == c {
        n - 1
    } else {
        last_index_upto(s, c, n - 1)
    }
}

/// The JSON object of a sidebar file: from its first `{` to its last `}`.
pub open spec fn sidebar_json(content: Seq<char>) -> Option<Seq<char>> {
    let a = first_index_from(content, '{', 0);
    let b = last_index_upto(content, '}', content.len() as int);
    if a < 0 || b < 0 || b <= a {
        None
    } else {
        Some(content.subrange(a, b + 1))
    }
}

/// The JSON object of a sidebar file, if it has one.
pub fn sidebar_json_slice(content: &str) -> (r: Option<String>)
    ensures
        match sidebar_json(content@) {
            Some(j) => r matches Some(s) && s@ == j,
            None => r is None,
        },
{
    let cs = chars_of(content);
    let n = cs.len();
    let mut a: usize = 0;
    while a < n && cs[a] != '{'
        invariant
            cs@ == content@,
            n == cs.len(),
            a <= n,
            first_index_from(content@, '{', 0) == first_index_from(content@, '{', a as int),
        decreases n - a,
    {
        a = a + 1;
    }
    if a == n {
        return None;
    }
    let mut b: usize = n;
    while b > 0 && cs[b - 1] != '}'
        invariant
            cs@ == content@,
            n == cs.len(),
            b <= n,
            last_index_upto(content@, '}', n as int) == last_index_upto(content@, '}', b as int),
        decreases b,
    {
        b = b - 1;
    }
    if b == 0 || b - 1 <= a {
        return None;
    }
    let mut out: Vec<char> = Vec::new();
    let mut m = a;
    while m < b
        invariant
            cs@ == content@,
            n == cs.len(),
            a <= m <= b,
            b <= n,
            out@ == content@.subrange(a as int, m as int),
        decreases b - m,
    {
        out.push(cs[m]);
        assert(content@.subrange(a as int, m + 1) =~= content@.subrange(a as int, m as int).push(content@[m as int]));
        m = m + 1;
    }
    Some(string_from_chars(&out))
}

/// What `serde_json::from_str` gives for a JSON object whose values are
/// lists of strings, read into a `BTreeMap<String, Vec<String>>`: its entries
/// in key order, or `None` when the text is not such an object.
pub uninterp spec fn spec_json_string_lists(json: Seq<char>) -> Option<Seq<(Seq<char>, Seq<Seq<char>>)>>;

/// The views of name lists.
pub open spec fn string_lists_view(v: Seq<(String, Vec<String>)>) -> Seq<(Seq<char>, Seq<Seq<char>>)> {
    v.map_values(|e: (String, Vec<String>)| (e.0@, e.1@.map_values(|s: String| s@)))
}

/// Calls `serde_json::from_str::<BTreeMap<String, Vec<String>>>` and lists
/// the entries. The result is named by `spec_json_string_lists`; JSON syntax
/// is not restated.
#[verifier::external_body]
fn parse_json_string_lists(json: &str) -> (r: Option<Vec<(String, Vec<String>)>>)
    ensures
        match r {
            Some(v) => spec_json_string_lists(json@) == Some(string_lists_view(v@)),
            None => spec_json_string_lists(json@) is None,
        },
{
    let map: std::collections::BTreeMap<String, Vec<String>> = serde_json::from_str(json).ok()?;
    Some(map.into_iter().collect())
}

/// The item lists of a sidebar file's text: item kind to names.
pub open spec fn sidebar_data(content: Seq<char>) -> Option<Seq<(Seq<char>, Seq<Seq<char>>)>> {
    match sidebar_json(content) {
        Some(j) => spec_json_string_lists(j),
        None => None,
    }
}

/// Read the item lists of a sidebar file's text (see `sidebar_data`).
pub fn parse_sidebar_items(content: &str) -> (r: Option<Vec<(String, Vec<String>)>>)
    ensures
        match r {
            Some(v) => sidebar_data(content@) == Some(string_lists_view(v@)),
            None => sidebar_data(content@) is None,
        },
{
    match sidebar_json_slice(content) {
        Some(j) => parse_json_string_lists(j.as_str()),
        None => None,
    }
}

/// For a sidebar item kind: the import item type, the word that opens its
/// description, and what follows the name (`!` for macros). `None` for
/// kinds that are not listed (modules among them).
pub open spec fn kind_info(kind: Seq<char>) -> Option<(Seq<char>, Seq<char>, Seq<char>)> {
    if kind == "struct"@ {
        Some(("struct"@, "struct"@, Seq::empty()))
    } else if kind == "enum"@ {
        Some(("enum"@, "enum"@, Seq::empty()))
    } else if kind == "trait"@ {
        Some(("trait"@, "trait"@, Seq::empty()))
    } else if kind == "fn"@ {
        Some(("function"@, "fn"@, Seq::empty()))
    } else if kind == "macro"@ {
        Some(("macro"@, "macro"@, "!"@))
    } else if kind == "type"@ {
        Some(("type"@, "type"@, Seq::empty()))
    } else if kind == "constant"@ {
        Some(("const"@, "const"@, Seq::empty()))
    } else {
        None
    }
}

/// The import items of one sidebar entry.
pub open spec fn entry_items(module: Seq<char>, e: (Seq<char>, Seq<Seq<char>>)) -> Seq<(Seq<char>, Seq<char>, Seq<char>)> {
    match kind_info(e.0) {
        Some(info) => e.1.map_values(|n: Seq<char>| (n, info.0, info.1 + " "@ + n + info.2 + " in "@ + module)),
        None => Seq::empty(),
    }
}

/// The import items of all sidebar entries, entry by entry.
pub open spec fn sidebar_items(module: Seq<char>, data: Seq<(Seq<char>, Seq<Seq<char>>)>) -> Seq<(Seq<char>, Seq<char>, Seq<char>)>
    decreases data.len(),
{
    if data.len() == 0 {
        Seq::empty()
    } else {
        sidebar_items(module, data.drop_last()) + entry_items(module, data.last())
    }
}

/// The submodule names of the sidebar entries of kind `mod`.
pub open spec fn sidebar_submodules(data: Seq<(Seq<char>, Seq<Seq<char>>)>) -> Seq<Seq<char>>
    decreases data.len(),
{
    if data.len() == 0 {
        Seq::empty()
    } else {
        sidebar_submodules(data.drop_last()) + if data.last().0 == "mod"@ {
            data.last().1
        } else {
            Seq::empty()
        }
    }
}

/// The fields of import items.
pub open spec fn import_views(v: Seq<ImportItem>) -> Seq<(Seq<char>, Seq<char>, Seq<char>)> {
    v.map_values(|it: ImportItem| (it.name@, it.item_type@, it.description@))
}

fn kind_info_exec(kind: &str) -> (r: Option<(&'static str, &'static str, &'static str)>)
    ensures
        match kind_info(kind@) {
            Some(info) => r matches Some(x) && x.0@ == info.0 && x.1@ == info.1 && x.2@ == info.2,
            None => r is None,
        },
{
    proof {
        reveal_strlit("");
    }
    if str_eq(kind, "struct") {
        Some(("struct", "struct", ""))
    } else if str_eq(kind, "enum") {
        Some(("enum", "enum", ""))
    } else if str_eq(kind, "trait") {
        Some(("trait", "trait", ""))
    } else if str_eq(kind, "fn") {
        Some(("function", "fn", ""))
    } else if str_eq(kind, "macro") {
        Some(("macro", "macro", "!"))
    } else if str_eq(kind, "type") {
        Some(("type", "type", ""))
    } else if str_eq(kind, "constant") {
        Some(("const", "const", ""))
    } else {
        None
    }
}

/// The module data of one sidebar file: its items and its submodules.
pub fn module_from_sidebar(module: &str, data: &Vec<(String, Vec<String>)>) -> (r: ModuleData)
    ensures
        r.path@ == module@,
        import_views(r.items@) == sidebar_items(module@, string_lists_view(data@)),
        r.submodules@.map_values(|s: String| s@) == sidebar_submodules(string_lists_view(data@)),
{
    let ghost dv = string_lists_view(data@);
    let mut items: Vec<ImportItem> = Vec::new();
    let mut subs: Vec<String> = Vec::new();
    assert(import_views(items@) =~= sidebar_items(module@, dv.take(0)));
    assert(subs@.map_values(|s: String| s@) =~= sidebar_submodules(dv.take(0)));
    for i in 0..data.len()
        invariant
            dv == string_lists_view(data@),
            import_views(items@) == sidebar_items(module@, dv.take(i as int)),
            subs@.map_values(|s: String| s@) == sidebar_submodules(dv.take(i as int)),
    {
        let kind = data[i].0.as_str();
        let names = &data[i].1;
        let ghost e = dv[i as int];
        proof {
            assert(dv.take(i + 1).drop_last() =~= dv.take(i as int));
            assert(dv.take(i + 1).last() == e);
            assert(e.1 == names@.map_values(|s: String| s@));
            assert(e.0 == kind@);
        }
        let ghost items0 = import_views(items@);
        let ghost subs0 = subs@.map_values(|s: String| s@);
        if str_eq(kind, "mod") {
            for j in 0..names.len()
                invariant
                    subs@.map_values(|s: String| s@) == subs0 + e.1.take(j as int),
                    e.1 == names@.map_values(|s: String| s@),
            {
                let ghost before = subs@.map_values(|s: String| s@);
                subs.push(names[j].clone());
                proof {
                    assert(subs@.map_values(|s: String| s@) =~= before.push(names@[j as int]@));
                    assert(e.1.take(j + 1) =~= e.1.take(j as int).push(e.1[j as int]));
                }
            }
            proof {
                assert(e.1.take(names@.len() as int) =~= e.1);
                reveal_strlit("mod");
                reveal_strlit("struct");
                reveal_strlit("enum");
                reveal_strlit("trait");
                reveal_strlit("fn");
                reveal_strlit("macro");
                reveal_strlit("type");
                reveal_strlit("constant");
                assert(e.0.len() == 3);
                assert(kind_info(e.0) is None);
                assert(entry_items(module@, e) =~= Seq::<(Seq<char>, Seq<char>, Seq<char>)>::empty());
            }
        } else {
            proof {
                assert(sidebar_submodules(dv.take(i + 1)) =~= subs0);
            }
            match kind_info_exec(kind) {
                Some(info) => {
                    let ghost ki = kind_info(e.0).unwrap();
                    for j in 0..names.len()
                        invariant
                            e.1 == names@.map_values(|s: String| s@),
                            kind_info(e.0) == Some(ki),
                            info.0@ == ki.0 && info.1@ == ki.1 && info.2@ == ki.2,
                            import_views(items@) == items0 + e.1.take(j as int).map_values(
                                |n: Seq<char>| (n, ki.0, ki.1 + " "@ + n + ki.2 + " in "@ + module@),
                            ),
                    {
                        let name = names[j].as_str();
                        let mut description = string_of(info.1);
                        description.append(" ");
                        description.append(name);
                        description.append(info.2);
                        description.append(" in ");
                        description.append(module);
                        let ghost before = import_views(items@);
                        items.push(ImportItem { name: string_of(name), item_type: string_of(info.0), description });
                        proof {
                            assert(import_views(items@) =~= before.push(import_views(items@).last()));
                            assert(e.1.take(j + 1) =~= e.1.take(j as int).push(e.1[j as int]));
                        }
                    }
                    proof {
                        assert(e.1.take(names@.len() as int) =~= e.1);
                    }
                },
                None => {
                    assert(entry_items(module@, e) =~= Seq::<(Seq<char>, Seq<char>, Seq<char>)>::empty());
                },
            }
        }
    }
    proof {
        assert(dv.take(data@.len() as int) =~= dv);
    }
    ModuleData { path: string_of(module), items, submodules: subs }
}

/// The path of a submodule: `module::name`.
pub fn child_module_path(module: &str, name: &str) -> (r: String)
    ensures
        r@ == module@ + "::"@ + name@,
{
    let mut r = string_of(module);
    r.append("::");
    r.append(name);
    r
}

/// The directories the documentation walk visits after the module
/// `module_name` read from `dir` at `depth` (the root being depth 0): for
/// each submodule, in order, its directory, its module path and the next
/// depth; none once the next depth would pass `MAX_DEPTH`.
pub fn sidebar_children(dir: &str, module_name: &str, depth: usize, submodules: &Vec<String>) -> (r: Vec<(String, String, usize)>)
    ensures
        depth >= MAX_DEPTH ==> r@.len() == 0,
        depth < MAX_DEPTH ==> {
            &&& r@.len() == submodules@.len()
            &&& forall|k: int| 0 <= k < r@.len() ==> {
                &&& (#[trigger] r@[k]).0@ == spec_path_join(dir@, submodules@[k]@)
                &&& r@[k].1@ == module_name@ + "::"@ + submodules@[k]@
                &&& r@[k].2 == depth + 1
            }
        },
{
    let mut r: Vec<(String, String, usize)> = Vec::new();
    if depth >= MAX_DEPTH {
        return r;
    }
    for k in 0..submodules.len()
        invariant
            depth < MAX_DEPTH,
            r@.len() == k,
            forall|m: int| 0 <= m < k ==> {
                &&& (#[trigger] r@[m]).0@ == spec_path_join(dir@, submodules@[m]@)
                &&& r@[m].1@ == module_name@ + "::"@ + submodules@[m]@
                &&& r@[m].2 == depth + 1
            },
    {
        let sub = submodules[k].as_str();
        r.push((path_join(dir, sub), child_module_path(module_name, sub), depth + 1));
    }
    r
}

// ---------------------------------------------------------------------------
// The extension
// ---------------------------------------------------------------------------

/// The Rust completion extension and whether it is enabled.
pub struct RustCompletionExtension {
    pub enabled: bool,
}

impl RustCompletionExtension {
    /// The extension, enabled as the state file's text says (enabled when
    /// the file is missing or silent about it).
    pub fn new(config: Option<&str>) -> (r: Self)
        ensures
            r.enabled == enabled_state(opt_view(config), "rust-completion"@),
    {
        RustCompletionExtension { enabled: load_enabled_state(config, "rust-completion") }
    }
}

impl NativeExtension for RustCompletionExtension {
    open spec fn spec_id(&self) -> Seq<char> {
        "rust-completion"@
    }

    open spec fn spec_enabled(&self) -> bool {
        self.enabled
    }

    fn id(&self) -> (r: &str) {
        "rust-completion"
    }

    fn manifest(&self) -> (r: ExtensionManifest)
        ensures
            r.name@ == "Rust Completion"@,
            r.version@ == "1.0.0"@,
            r.author@ == "Built-in"@,
            r.icon is None,
            r.is_native,
            r.contributions.is_empty(),
    {
        builtin_manifest(
            "rust-completion",
            "Rust Completion",
            "Rust code completion powered by rustup documentation. Parses std docs at runtime for comprehensive type, function, trait, and macro suggestions.",
            self.enabled,
            ExtensionContributions::default(),
        )
    }

    fn is_enabled(&self) -> (r: bool) {
        self.enabled
    }

    fn set_enabled(&mut self, enabled: bool) {
        self.enabled = enabled;
    }
}

/// Register the Rust completion extension, enabled as the state file's text
/// says.
pub fn register(registry: &mut NativeRegistry<BuiltinExtension>, config: Option<&str>)
    ensures
        final(registry).ids() == old(registry).ids().push("rust-completion"@),
        final(registry).enabled() == old(registry).enabled().push(
            enabled_state(opt_view(config), "rust-completion"@),
        ),
{
    registry.register(BuiltinExtension::RustCompletion(RustCompletionExtension::new(config)));
}

/// Whether Rust completion is enabled in this registry (enabled when it was
/// never registered).
pub fn is_enabled(registry: &NativeRegistry<BuiltinExtension>) -> (r: bool)
    ensures
        r == registry.enabled_of("rust-completion"@),
{
    registry.is_enabled_by_id("rust-completion")
}

// ---------------------------------------------------------------------------
// Choosing the data, and the disk cache
// ---------------------------------------------------------------------------

/// The Rust completion data: the cached data when the cache matched, else
/// the data parsed from the installed documentation when it could be found,
/// else the built-in fallback.
pub fn load_rust_completions(
    cached: Option<LanguageCompletionData>,
    parsed: Option<LanguageCompletionData>,
) -> (r: LanguageCompletionData)
    ensures
        match cached {
            Some(c) => r == c,
            None => match parsed {
                Some(p) => r == p,
                None => {
                    &&& r.language@ == "rust"@
                    &&& is_keyword_table(r.keywords@)
                    &&& is_snippet_table(r.snippets@)
                    &&& r.imports is None
                },
            },
        },
{
    match cached {
        Some(c) => c,
        None => match parsed {
            Some(p) => p,
            None => fallback_data(),
        },
    }
}

/// What the completion cache file holds: the toolchain and compiler version
/// it was made with, and the data.
pub struct CacheEnvelope {
    pub toolchain: String,
    pub rust_version: String,
    pub data: LanguageCompletionData,
}

/// The cached data, when a cache was read and was made with this toolchain
/// and version; never when either of them is unknown (empty).
pub fn cached_data(envelope: Option<CacheEnvelope>, toolchain: &str, version: &str) -> (r: Option<
    LanguageCompletionData,
>)
    ensures
        r == (match envelope {
            Some(e) => if toolchain@.len() > 0 && version@.len() > 0 && e.toolchain@ == toolchain@
                && e.rust_version@ == version@ {
                Some(e.data)
            } else {
                None
            },
            None => None,
        }),
{
    if toolchain.unicode_len() == 0 || version.unicode_len() == 0 {
        return None;
    }
    match envelope {
        Some(e) => {
            if str_eq(e.toolchain.as_str(), toolchain) && str_eq(e.rust_version.as_str(), version) {
                Some(e.data)
            } else {
                None
            }
        },
        None => None,
    }
}

/// Parsed data is cached only when the toolchain and version are known.
pub fn should_save_cache(toolchain: &str, version: &str) -> (r: bool)
    ensures
        r == (toolchain@.len() > 0 && version@.len() > 0),
{
    toolchain.unicode_len() > 0 && version.unicode_len() > 0
}

/// The configuration directory: `$XDG_CONFIG_HOME`, else `$HOME/.config`,
/// else `/tmp`.
pub open spec fn config_dir_for(xdg: Option<Seq<char>>, home: Option<Seq<char>>) -> Seq<char> {
    match xdg {
        Some(x) => x,
        None => match home {
            Some(h) => spec_path_join(h, ".config"@),
            None => "/tmp"@,
        },
    }
}

/// The path of the completion cache: `<config dir>/dvop/rust_completions_cache.json`.
pub fn cache_file_path(xdg: Option<&str>, home: Option<&str>) -> (r: String)
    ensures
        r@ == spec_path_join(
            spec_path_join(config_dir_for(opt_view(xdg), opt_view(home)), "dvop"@),
            "rust_completions_cache.json"@,
        ),
{
    let dir = match xdg {
        Some(x) => string_of(x),
        None => match home {
            Some(h) => path_join(h, ".config"),
            None => string_of("/tmp"),
        },
    };
    let d = path_join(dir.as_str(), "dvop");
    path_join(d.as_str(), "rust_completions_cache.json")
}

// ---------------------------------------------------------------------------
// What the toolchain commands print
// ---------------------------------------------------------------------------

/// The first two words joined by a space (fewer when there are fewer).
pub open spec fn first_two_words(ws: Seq<Seq<char>>) -> Seq<char> {
    if ws.len() == 0 {
        Seq::empty()
    } else if ws.len() == 1 {
        ws[0]
    } else {
        ws[0] + " "@ + ws[1]
    }
}

/// The compiler version from what `rustc --version` printed: its first two
/// words, such as `rustc 1.91.1`.
pub fn rust_version_from_output(stdout: &str) -> (r: String)
    ensures
        r@ == first_two_words(crate::text::words(crate::text::spec_trim(stdout@))),
{
    let t = crate::text::trim(stdout);
    let ws = crate::text::split_words(t);
    let ghost wv = ws@.map_values(|w: String| w@);
    assert(wv.len() == ws@.len());
    if ws.len() == 0 {
        String::new()
    } else if ws.len() == 1 {
        assert(wv[0] == ws@[0]@);
        string_of(ws[0].as_str())
    } else {
        assert(wv[0] == ws@[0]@ && wv[1] == ws@[1]@);
        let mut r = string_of(ws[0].as_str());
        r.append(" ");
        r.append(ws[1].as_str());
        r
    }
}

/// The active toolchain from what `rustup show active-toolchain` printed.
pub fn toolchain_from_output(stdout: &str) -> (r: String)
    ensures
        r@ == crate::text::spec_trim(stdout@),
{
    string_of(crate::text::trim(stdout))
}

/// The documentation root from what `rustup doc --path` printed: the
/// directory holding the printed index file.
pub fn docs_root_from_output(stdout: &str) -> (r: Option<String>)
    ensures
        match r {
            Some(p) => crate::paths::spec_path_parent(crate::text::spec_trim(stdout@)) == Some(p@),
            None => crate::paths::spec_path_parent(crate::text::spec_trim(stdout@)) is None,
        },
{
    crate::paths::path_parent(crate::text::trim(stdout))
}

} // verus!
