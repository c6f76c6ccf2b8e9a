//! The decisions behind the completion popup: which completion language a
//! buffer uses, whether the cursor is in an import, how snippet
//! placeholders are expanded, and which suggestions are offered in which
//! order.

use vstd::prelude::*;
use crate::completion::json_provider::{ImportItem, JsonCompletionProvider, KeywordData, LanguageCompletionData, SnippetData};
use crate::lexical::{lemma_less_transitive, seq_less, str_less};
use crate::text::{
    chars_of, contains_str, is_alphanumeric, seq_contains_sub, seq_has_prefix, spec_is_alphanumeric,
    spec_lowercase, spec_trim, split_words, str_eq, string_from_chars, string_of, to_lowercase, trim,
    words,
};

verus! {

// ---------------------------------------------------------------------------
// The completion language of a buffer
// ---------------------------------------------------------------------------

/// The completion language for a source language id.
pub open spec fn language_for_id(id: Seq<char>) -> Seq<char> {
    if id == "rust"@ {
        "rust"@
    } else if id == "javascript"@ || id == "js"@ || id == "typescript"@ || id == "ts"@ {
        "javascript"@
    } else if id == "python"@ || id == "python3"@ {
        "python"@
    } else if id == "c"@ {
        "c"@
    } else if id == "cpp"@ || id == "c++"@ {
        "cpp"@
    } else if id == "java"@ {
        "java"@
    } else if id == "html"@ {
        "html"@
    } else if id == "css"@ {
        "css"@
    } else {
        "rust"@
    }
}

/// The completion language of a buffer whose source language has this id
/// (`None`: no language): the matching language when it is supported, else
/// the first supported language, else rust.
pub open spec fn buffer_language(id: Option<Seq<char>>, supported: Seq<Seq<char>>) -> Seq<char> {
    let fallback = if supported.len() > 0 { supported[0] } else { "rust"@ };
    match id {
        Some(i) => if supported.contains(language_for_id(i)) { language_for_id(i) } else { fallback },
        None => fallback,
    }
}

fn language_for(id: &str) -> (r: &'static str)
    ensures
        r@ == language_for_id(id@),
{
    if str_eq(id, "rust") {
        "rust"
    } else if str_eq(id, "javascript") || str_eq(id, "js") || str_eq(id, "typescript") || str_eq(id, "ts") {
        "javascript"
    } else if str_eq(id, "python") || str_eq(id, "python3") {
        "python"
    } else if str_eq(id, "c") {
        "c"
    } else if str_eq(id, "cpp") || str_eq(id, "c++") {
        "cpp"
    } else if str_eq(id, "java") {
        "java"
    } else if str_eq(id, "html") {
        "html"
    } else if str_eq(id, "css") {
        "css"
    } else {
        "rust"
    }
}

/// The completion language of a buffer (see `buffer_language`).
pub fn get_buffer_language(language_id: Option<&str>, supported: &Vec<String>) -> (r: String)
    ensures
        r@ == buffer_language(crate::extensions::native::opt_view(language_id), supported@.map_values(|s: String| s@)),
{
    let ghost sv = supported@.map_values(|s: String| s@);
    let fallback = if supported.len() > 0 {
        assert(sv[0] == supported@[0]@);
        string_of(supported[0].as_str())
    } else {
        string_of("rust")
    };
    match language_id {
        Some(id) => {
            let lang = language_for(id);
            if crate::text::contains_string(supported, lang) {
                proof {
                    let k = choose|k: int| 0 <= k < supported@.len() && (#[trigger] supported@[k])@ == lang@;
                    assert(sv[k] == lang@);
                }
                string_of(lang)
            } else {
                proof {
                    if sv.contains(lang@) {
                        let k = choose|k: int| 0 <= k < sv.len() && sv[k] == lang@;
                        assert(supported@[k]@ == lang@);
                    }
                }
                fallback
            }
        },
        None => fallback,
    }
}

// ---------------------------------------------------------------------------
// Snippet placeholders
// ---------------------------------------------------------------------------

/// Where the placeholder body that starts at `j` with `count` braces open
/// ends: the position just after its closing brace, or `None` when the
/// braces never close.
pub open spec fn closing_after(cs: Seq<char>, j: int, count: int) -> Option<int>
    decreases cs.len() - j,
{
    if count == 0 {
        Some(j)
    } else if j < 0 || j >= cs.len() {
        None
    } else {
        let c = cs[j];
        closing_after(cs, j + 1, if c == '{' { count + 1 } else if c == '}' { count - 1 } else { count })
    }
}

/// What a placeholder `${n:text}` becomes: the text after its first colon,
/// or `placeholder` when it has none.
pub open spec fn placeholder_text(body: Seq<char>) -> Seq<char> {
    if exists|k: int| 0 <= k < body.len() && body[k] == ':' {
        let k = choose|k: int| 0 <= k < body.len() && body[k] == ':' && forall|m: int| 0 <= m < k ==> body[m] != ':';
        body.subrange(k + 1, body.len() as int)
    } else {
        "placeholder"@
    }
}

/// The snippet content from position `i` on with each `${...}`
/// placeholder replaced by its text.
#[verifier::opaque]
pub open spec fn expanded_from(cs: Seq<char>, i: int) -> Seq<char>
    decreases cs.len() - i, 1int,
{
    if i < 0 || i >= cs.len() {
        Seq::empty()
    } else if i + 2 < cs.len() && cs[i] == '$' && cs[i + 1] == '{' && closing_after(cs, i + 2, 1) is Some {
        let j = closing_after(cs, i + 2, 1)->0;
        if i < j <= cs.len() {
            placeholder_text(cs.subrange(i + 2, j - 1)) + expanded_from(cs, j)
        } else {
            Seq::empty()
        }
    } else {
        seq![cs[i]] + expanded_from(cs, i + 1)
    }
}

proof fn lemma_expand_plain_from(cs: Seq<char>, i: int)
    requires
        0 <= i <= cs.len(),
        forall|k: int| 0 <= k && k + 1 < cs.len() ==> !(#[trigger] cs[k] == '$' && cs[k + 1] == '{'),
    ensures
        expanded_from(cs, i) == cs.skip(i),
    decreases cs.len() - i,
{
    reveal(expanded_from);
    if i < cs.len() {
        lemma_expand_plain_from(cs, i + 1);
        assert(cs.skip(i) =~= seq![cs[i]] + cs.skip(i + 1));
    } else {
        assert(cs.skip(i) =~= Seq::<char>::empty());
    }
}

/// Snippet text in which no `${` occurs comes out of expansion unchanged.
pub proof fn lemma_expand_plain(content: Seq<char>)
    requires
        !seq_contains_sub(content, "${"@),
    ensures
        expanded_from(content, 0) == content,
{
    reveal_strlit("${");
    assert forall|k: int| 0 <= k && k + 1 < content.len() implies !(#[trigger] content[k] == '$' && content[k + 1] == '{') by {
        if content[k] == '$' && content[k + 1] == '{' {
            assert(content.subrange(k, k + 2) =~= "${"@);
        }
    }
    lemma_expand_plain_from(content, 0);
    assert(content.skip(0) =~= content);
}

/// A placeholder body `n:t` (no colon in `n`) becomes exactly `t`, the
/// text after its first colon, even when `t` is empty; a body without a
/// colon becomes `placeholder`.
pub proof fn lemma_placeholder_text_after_first_colon(n: Seq<char>, t: Seq<char>)
    requires
        !n.contains(':'),
    ensures
        placeholder_text(n + seq![':'] + t) == t,
        placeholder_text(n) == "placeholder"@,
{
    let body = n + seq![':'] + t;
    assert(body[n.len() as int] == ':');
    let k = choose|k: int| 0 <= k < body.len() && body[k] == ':' && forall|m: int| 0 <= m < k ==> body[m] != ':';
    assert(k == n.len()) by {
        if k < n.len() {
            assert(body[k] == n[k]);
            assert(n.contains(':'));
        }
        if k > n.len() {
            assert(body[n.len() as int] != ':');
        }
    }
    assert(body.subrange(k + 1, body.len() as int) =~= t);
    assert(!exists|k: int| 0 <= k < n.len() && n[k] == ':') by {
        if exists|k: int| 0 <= k < n.len() && n[k] == ':' {
            let w = choose|k: int| 0 <= k < n.len() && n[k] == ':';
            assert(n.contains(':'));
        }
    }
}

proof fn lemma_closing_plain(cs: Seq<char>, j: int, e: int)
    requires
        0 <= j <= e < cs.len(),
        cs[e] == '}',
        forall|m: int| j <= m < e ==> cs[m] != '{' && cs[m] != '}',
    ensures
        closing_after(cs, j, 1) == Some(e + 1),
    decreases e - j,
{
    if j < e {
        lemma_closing_plain(cs, j + 1, e);
    } else {
        assert(closing_after(cs, e + 1, 0) == Some(e + 1));
    }
}

proof fn lemma_expand_braced(body: Seq<char>)
    requires
        !body.contains('{') && !body.contains('}'),
    ensures
        expanded_from(seq!['$', '{'] + body + seq!['}'], 0) == placeholder_text(body),
{
    reveal(expanded_from);
    let cs = seq!['$', '{'] + body + seq!['}'];
    let e = cs.len() - 1;
    assert forall|m: int| 2 <= m < e implies cs[m] != '{' && cs[m] != '}' by {
        assert(cs[m] == body[m - 2]);
        if body[m - 2] == '{' || body[m - 2] == '}' {
            assert(body.contains(body[m - 2]));
        }
    }
    assert(cs[e] == '}');
    lemma_closing_plain(cs, 2, e);
    assert(cs.subrange(2, e) =~= body);
    assert(expanded_from(cs, e + 1) == Seq::<char>::empty());
    assert(placeholder_text(body) + Seq::<char>::empty() =~= placeholder_text(body));
}

/// A snippet `${n:t}` with no braces inside and no colon in `n` expands to
/// exactly `t` (so `${2:}` expands to nothing), and `${n}` with no colon
/// expands to `placeholder`.
pub proof fn lemma_expand_single_placeholder(n: Seq<char>, t: Seq<char>)
    requires
        !n.contains(':'),
        !n.contains('{') && !n.contains('}'),
        !t.contains('{') && !t.contains('}'),
    ensures
        expanded_from(seq!['$', '{'] + n + seq![':'] + t + seq!['}'], 0) == t,
        expanded_from(seq!['$', '{'] + n + seq!['}'], 0) == "placeholder"@,
{
    lemma_placeholder_text_after_first_colon(n, t);
    let body = n + seq![':'] + t;
    assert(!body.contains('{') && !body.contains('}')) by {
        assert forall|m: int| 0 <= m < body.len() implies body[m] != '{' && body[m] != '}' by {
            if m < n.len() {
                assert(body[m] == n[m]);
                if n[m] == '{' || n[m] == '}' { assert(n.contains(n[m])); }
            } else if m > n.len() {
                assert(body[m] == t[m - n.len() - 1]);
                if t[m - n.len() - 1] == '{' || t[m - n.len() - 1] == '}' { assert(t.contains(t[m - n.len() - 1])); }
            }
        }
    }
    lemma_expand_braced(body);
    assert(seq!['$', '{'] + n + seq![':'] + t + seq!['}'] =~= seq!['$', '{'] + body + seq!['}']);
    lemma_expand_braced(n);
}

proof fn lemma_closing_after_bounds(cs: Seq<char>, j: int, count: int)
    requires
        0 <= j,
        count >= 1,
    ensures
        closing_after(cs, j, count) matches Some(e) ==> j < e <= cs.len() && cs[e - 1] == '}',
    decreases cs.len() - j,
{
    if j < cs.len() {
        let c = cs[j];
        let next = if c == '{' { count + 1 } else if c == '}' { count - 1 } else { count };
        if next >= 1 {
            lemma_closing_after_bounds(cs, j + 1, next);
        }
    }
}

fn placeholder_of(body: &Vec<char>) -> (r: Vec<char>)
    ensures
        r@ == placeholder_text(body@),
{
    let mut k: usize = 0;
    while k < body.len()
        invariant
            k <= body@.len(),
            forall|m: int| 0 <= m < k ==> body@[m] != ':',
        decreases body.len() - k,
    {
        if body[k] == ':' {
            let mut r: Vec<char> = Vec::new();
            let mut m = k + 1;
            while m < body.len()
                invariant
                    k + 1 <= m <= body@.len(),
                    r@ == body@.subrange(k + 1, m as int),
                decreases body.len() - m,
            {
                r.push(body[m]);
                assert(r@ =~= body@.subrange(k + 1, m + 1));
                m = m + 1;
            }
            return r;
        }
        k = k + 1;
    }
    chars_of("placeholder")
}

proof fn lemma_expand_step(cs: Seq<char>, i: int)
    requires
        0 <= i < cs.len(),
    ensures
        (i + 2 < cs.len() && cs[i] == '$' && cs[i + 1] == '{' && closing_after(cs, i + 2, 1) is Some) ==> {
            let j = closing_after(cs, i + 2, 1)->0;
            i < j <= cs.len() ==> expanded_from(cs, i) == placeholder_text(cs.subrange(i + 2, j - 1)) + expanded_from(cs, j)
        },
        !(i + 2 < cs.len() && cs[i] == '$' && cs[i + 1] == '{' && closing_after(cs, i + 2, 1) is Some)
            ==> expanded_from(cs, i) == seq![cs[i]] + expanded_from(cs, i + 1),
{
    reveal(expanded_from);
}

proof fn lemma_expand_end(cs: Seq<char>, i: int)
    requires
        i >= cs.len(),
    ensures
        expanded_from(cs, i) == Seq::<char>::empty(),
{
    reveal(expanded_from);
}

fn find_closing(cs: &Vec<char>, start: usize) -> (r: Option<usize>)
    requires
        start <= cs@.len(),
    ensures
        r matches Some(j) ==> closing_after(cs@, start as int, 1) == Some(j as int),
        r is None ==> closing_after(cs@, start as int, 1) is None,
{
    let total = cs.len();
    let mut j = start;
    let mut count: u128 = 1;
    while j < cs.len() && count > 0
        invariant
            start <= j <= cs@.len(),
            cs@.len() <= usize::MAX,
            count <= j + 1,
            closing_after(cs@, start as int, 1) == closing_after(cs@, j as int, count as int),
        decreases cs.len() - j,
    {
        if cs[j] == '{' {
            count = count + 1;
        } else if cs[j] == '}' {
            count = count - 1;
        }
        j = j + 1;
    }
    if count == 0 {
        Some(j)
    } else {
        None
    }
}

pub(crate) fn chars_between(cs: &Vec<char>, a: usize, b: usize) -> (r: Vec<char>)
    requires
        a <= b <= cs@.len(),
    ensures
        r@ == cs@.subrange(a as int, b as int),
{
    let mut r: Vec<char> = Vec::new();
    let mut k = a;
    while k < b
        invariant
            a <= k <= b,
            b <= cs@.len(),
            r@ == cs@.subrange(a as int, k as int),
        decreases b - k,
    {
        r.push(cs[k]);
        assert(r@ =~= cs@.subrange(a as int, k + 1));
        k = k + 1;
    }
    r
}

fn placeholder_at(cs: &Vec<char>, i: usize) -> (r: Option<(Vec<char>, usize)>)
    requires
        i < cs@.len(),
    ensures
        match r {
            Some((t, j)) => i < j <= cs@.len() && expanded_from(cs@, i as int) == t@ + expanded_from(cs@, j as int),
            None => expanded_from(cs@, i as int) == seq![cs@[i as int]] + expanded_from(cs@, i + 1),
        },
{
    proof {
        lemma_expand_step(cs@, i as int);
    }
    if !(cs.len() - i > 2 && cs[i] == '$' && cs[i + 1] == '{') {
        return None;
    }
    match find_closing(cs, i + 2) {
        None => None,
        Some(j) => {
            proof {
                lemma_closing_after_bounds(cs@, i + 2, 1);
            }
            let body = chars_between(cs, i + 2, j - 1);
            Some((placeholder_of(&body), j))
        },
    }
}

/// The snippet content with each `${n:text}` placeholder replaced by its
/// text and each `${n}` by `placeholder`; an unclosed `${` stays as it is.
pub fn expand_snippet_content(content: &str) -> (r: String)
    ensures
        r@ == expanded_from(content@, 0),
{
    let cs = chars_of(content);
    let mut out: Vec<char> = Vec::new();
    let mut i: usize = 0;
    while i < cs.len()
        invariant
            cs@ == content@,
            i <= cs@.len(),
            out@ + expanded_from(cs@, i as int) == expanded_from(cs@, 0),
        decreases cs.len() - i,
    {
        let ghost before = out@;
        match placeholder_at(&cs, i) {
            Some((text, j)) => {
                let mut t = text;
                out.append(&mut t);
                assert(out@ + expanded_from(cs@, j as int) =~= before + expanded_from(cs@, i as int));
                i = j;
            },
            None => {
                out.push(cs[i]);
                assert(out@ + expanded_from(cs@, i + 1) =~= before + expanded_from(cs@, i as int));
                i = i + 1;
            },
        }
    }
    proof {
        lemma_expand_end(cs@, i as int);
    }
    assert(out@ =~= expanded_from(cs@, 0));
    string_from_chars(&out)
}

// ---------------------------------------------------------------------------
// Import context
// ---------------------------------------------------------------------------

/// The last line of `s` as `str::lines` yields it (`\r\n` endings
/// stripped, a final line ending optional), or empty when there is none.
pub open spec fn last_line(s: Seq<char>) -> Seq<char> {
    let pieces = crate::text::split_on(s, '\n');
    if s.len() == 0 {
        Seq::empty()
    } else if s.last() == '\n' {
        let l = pieces[pieces.len() - 2];
        if l.len() > 0 && l.last() == '\r' { l.drop_last() } else { l }
    } else {
        pieces.last()
    }
}

/// The trimmed current line of the text before the cursor.
pub open spec fn current_line(context: Seq<char>) -> Seq<char> {
    spec_trim(last_line(spec_trim(context)))
}

/// Whether the cursor is in an import: Rust `use a::`, JavaScript
/// `import ... from` or `require(`, Python `from a import` or `import a`.
pub open spec fn is_import_line(l: Seq<char>) -> bool {
    ||| seq_has_prefix(l, "use "@) && seq_contains_sub(l, "::"@)
    ||| seq_has_prefix(l, "import "@) && seq_contains_sub(l, "from"@)
    ||| seq_contains_sub(l, "require("@)
    ||| seq_has_prefix(l, "from "@) && seq_contains_sub(l, " import"@)
    ||| seq_has_prefix(l, "import "@) && !seq_contains_sub(l, "from"@)
}

proof fn lemma_split_ends_newline(s: Seq<char>)
    requires
        s.len() > 0,
        s.last() == '\n',
    ensures
        crate::text::split_on(s, '\n').len() >= 2,
{
    crate::text::lemma_split_nonempty(s.drop_last(), '\n');
}

fn last_line_of(s: &str) -> (r: Vec<char>)
    ensures
        r@ == last_line(s@),
{
    let cs = chars_of(s);
    if cs.len() == 0 {
        return Vec::new();
    }
    let pieces = crate::text::split_chars(&cs, '\n');
    proof {
        crate::text::lemma_split_nonempty(s@, '\n');
    }
    if cs[cs.len() - 1] == '\n' {
        proof {
            lemma_split_ends_newline(s@);
        }
        let l = &pieces[pieces.len() - 2];
        if l.len() > 0 && l[l.len() - 1] == '\r' {
            let mut r: Vec<char> = Vec::new();
            let mut k: usize = 0;
            while k < l.len() - 1
                invariant
                    l@.len() > 0,
                    k <= l@.len() - 1,
                    r@ == l@.take(k as int),
                decreases l.len() - 1 - k,
            {
                r.push(l[k]);
                assert(r@ =~= l@.take(k + 1));
                k = k + 1;
            }
            assert(r@ =~= l@.drop_last());
            r
        } else {
            let mut r: Vec<char> = Vec::new();
            let mut k: usize = 0;
            while k < l.len()
                invariant
                    k <= l@.len(),
                    r@ == l@.take(k as int),
                decreases l.len() - k,
            {
                r.push(l[k]);
                assert(r@ =~= l@.take(k + 1));
                k = k + 1;
            }
            assert(r@ =~= l@);
            r
        }
    } else {
        let l = &pieces[pieces.len() - 1];
        let mut r: Vec<char> = Vec::new();
        let mut k: usize = 0;
        while k < l.len()
            invariant
                k <= l@.len(),
                r@ == l@.take(k as int),
            decreases l.len() - k,
        {
            r.push(l[k]);
            assert(r@ =~= l@.take(k + 1));
            k = k + 1;
        }
        assert(r@ =~= l@);
        r
    }
}

pub(crate) fn has_prefix(s: &str, p: &str) -> (r: bool)
    ensures
        r == seq_has_prefix(s@, p@),
{
    let a = chars_of(s);
    let b = chars_of(p);
    if b.len() > a.len() {
        return false;
    }
    let mut k: usize = 0;
    while k < b.len()
        invariant
            a@ == s@,
            b@ == p@,
            b@.len() <= a@.len(),
            k <= b@.len(),
            forall|m: int| 0 <= m < k ==> a@[m] == b@[m],
        decreases b.len() - k,
    {
        if a[k] != b[k] {
            assert(a@.subrange(0, b@.len() as int)[k as int] != b@[k as int]);
            return false;
        }
        k = k + 1;
    }
    assert(a@.subrange(0, b@.len() as int) =~= b@);
    true
}

/// The trimmed current line of the text before the cursor.
pub fn current_line_of(context: &str) -> (r: String)
    ensures
        r@ == current_line(context@),
{
    let t = trim(context);
    let l = last_line_of(t);
    let ls = string_from_chars(&l);
    string_of(trim(ls.as_str()))
}

/// Whether the cursor is in an import statement (see `is_import_line`).
pub fn detect_import_context(context: &str) -> (r: bool)
    ensures
        r == is_import_line(current_line(context@)),
{
    let cl = current_line_of(context);
    let l = cl.as_str();
    (has_prefix(l, "use ") && contains_str(l, "::"))
        || (has_prefix(l, "import ") && contains_str(l, "from"))
        || contains_str(l, "require(")
        || (has_prefix(l, "from ") && contains_str(l, " import"))
        || (has_prefix(l, "import ") && !contains_str(l, "from"))
}

// ---------------------------------------------------------------------------
// Suggestions
// ---------------------------------------------------------------------------

/// The most suggestions shown.
pub const MAX_SUGGESTIONS: usize = 20;

/// A completion suggestion.
#[derive(Debug)]
pub enum CompletionItem {
    Keyword(String),
    /// A snippet: its trigger and its content.
    Snippet(String, String),
    /// A word found in the buffer.
    BufferWord(String),
    ImportItem(ImportItem),
    /// A module path.
    ImportModule(String),
}

/// An item as (kind, text, detail): 0 keyword, 1 snippet (trigger,
/// content), 2 buffer word, 3 import item (name, type), 4 module (path).
pub open spec fn item_view(i: CompletionItem) -> (int, Seq<char>, Seq<char>) {
    match i {
        CompletionItem::Keyword(k) => (0, k@, Seq::empty()),
        CompletionItem::Snippet(t, c) => (1, t@, c@),
        CompletionItem::BufferWord(w) => (2, w@, Seq::empty()),
        CompletionItem::ImportItem(ii) => (3, ii.name@, ii.item_type@),
        CompletionItem::ImportModule(m) => (4, m@, Seq::empty()),
    }
}

/// The piece after the last `::` found scanning from the left (the last
/// piece of `str::split("::")`), from position `i` with the current piece
/// starting at `start`.
pub open spec fn last_piece_from(s: Seq<char>, i: int, start: int) -> Seq<char>
    decreases s.len() - i,
{
    if i < 0 || i >= s.len() || start < 0 || start > s.len() {
        if 0 <= start <= s.len() { s.subrange(start, s.len() as int) } else { Seq::empty() }
    } else if i + 1 < s.len() && s[i] == ':' && s[i + 1] == ':' {
        last_piece_from(s, i + 2, i + 2)
    } else {
        last_piece_from(s, i + 1, start)
    }
}

/// The text shown for an item.
pub open spec fn display_of(v: (int, Seq<char>, Seq<char>)) -> Seq<char> {
    if v.0 == 0 {
        v.1 + " (keyword)"@
    } else if v.0 == 1 {
        v.1 + " (snippet)"@
    } else if v.0 == 2 {
        v.1
    } else if v.0 == 3 {
        v.1 + " ("@ + v.2 + ")"@
    } else {
        last_piece_from(v.1, 0, 0) + " (module)"@
    }
}

fn last_piece(s: &str) -> (r: Vec<char>)
    ensures
        r@ == last_piece_from(s@, 0, 0),
{
    let cs = chars_of(s);
    let mut i: usize = 0;
    let mut start: usize = 0;
    while i < cs.len()
        invariant
            cs@ == s@,
            start <= i,
            i <= cs@.len() + 1,
            start <= cs@.len(),
            last_piece_from(s@, 0, 0) == last_piece_from(s@, i as int, start as int),
        decreases cs.len() + 1 - i,
    {
        if cs.len() - i > 1 && cs[i] == ':' && cs[i + 1] == ':' {
            i = i + 2;
            start = i;
        } else {
            i = i + 1;
        }
    }
    chars_between(&cs, start, cs.len())
}

/// The text shown for an item.
pub fn display_text(item: &CompletionItem) -> (r: String)
    ensures
        r@ == display_of(item_view(*item)),
{
    match item {
        CompletionItem::Keyword(k) => crate::text::concat(k.as_str(), " (keyword)"),
        CompletionItem::Snippet(t, _) => crate::text::concat(t.as_str(), " (snippet)"),
        CompletionItem::BufferWord(w) => string_of(w.as_str()),
        CompletionItem::ImportItem(ii) => {
            let mut r = crate::text::concat(ii.name.as_str(), " (");
            r.append(ii.item_type.as_str());
            r.append(")");
            r
        },
        CompletionItem::ImportModule(m) => {
            let piece = string_from_chars(&last_piece(m.as_str()));
            crate::text::concat(piece.as_str(), " (module)")
        },
    }
}

/// The text a chosen item puts in place of the word being typed: the
/// keyword, word or import name itself, a snippet's content with its
/// placeholders expanded, or a module's last path segment.
pub open spec fn insertion_of(v: (int, Seq<char>, Seq<char>)) -> Seq<char> {
    if v.0 == 1 {
        expanded_from(v.2, 0)
    } else if v.0 == 4 {
        last_piece_from(v.1, 0, 0)
    } else {
        v.1
    }
}

/// The text a chosen item inserts (see `insertion_of`).
pub fn insertion_text(item: &CompletionItem) -> (r: String)
    ensures
        r@ == insertion_of(item_view(*item)),
{
    match item {
        CompletionItem::Keyword(k) => string_of(k.as_str()),
        CompletionItem::BufferWord(w) => string_of(w.as_str()),
        CompletionItem::Snippet(_, content) => expand_snippet_content(content.as_str()),
        CompletionItem::ImportItem(ii) => string_of(ii.name.as_str()),
        CompletionItem::ImportModule(m) => string_from_chars(&last_piece(m.as_str())),
    }
}

/// The documentation shown beside an item: for a keyword or snippet its
/// documentation when there is any, else its name; a note for buffer
/// words and modules; an import item's name, kind and description.
pub open spec fn documentation_of(v: (int, Seq<char>, Seq<char>), description: Seq<char>, doc: Option<Seq<char>>) -> Seq<char> {
    if v.0 == 0 || v.0 == 1 {
        match doc {
            Some(d) => d,
            None => v.1,
        }
    } else if v.0 == 2 {
        v.1 + " - Word found in current buffer"@
    } else if v.0 == 3 {
        v.1 + " ("@ + v.2 + ") - "@ + description
    } else {
        v.1 + " - Module available for import"@
    }
}

/// The documentation shown beside an item, given the documentation found
/// for its keyword or trigger, if any (see `documentation_of`).
pub fn item_documentation(item: &CompletionItem, doc: Option<&str>) -> (r: String)
    ensures
        r@ == documentation_of(
            item_view(*item),
            match *item {
                CompletionItem::ImportItem(ii) => ii.description@,
                _ => Seq::empty(),
            },
            crate::extensions::native::opt_view(doc),
        ),
{
    match item {
        CompletionItem::Keyword(k) => match doc {
            Some(d) => string_of(d),
            None => string_of(k.as_str()),
        },
        CompletionItem::Snippet(t, _) => match doc {
            Some(d) => string_of(d),
            None => string_of(t.as_str()),
        },
        CompletionItem::BufferWord(w) => crate::text::concat(w.as_str(), " - Word found in current buffer"),
        CompletionItem::ImportItem(ii) => {
            let mut r = crate::text::concat(ii.name.as_str(), " (");
            r.append(ii.item_type.as_str());
            r.append(") - ");
            r.append(ii.description.as_str());
            r
        },
        CompletionItem::ImportModule(m) => crate::text::concat(m.as_str(), " - Module available for import"),
    }
}

/// The row selected after Down (`down`) or Up in a list of `rows` rows
/// with row `selected` selected: the next or previous row, `None` past the
/// ends (the selection stays).
pub fn moved_selection(selected: i32, rows: i32, down: bool) -> (r: Option<i32>)
    requires
        0 <= selected < rows,
    ensures
        r == if down {
            if selected + 1 < rows { Some((selected + 1) as i32) } else { None }
        } else {
            if selected >= 1 { Some((selected - 1) as i32) } else { None }
        },
{
    if down {
        if selected + 1 < rows { Some(selected + 1) } else { None }
    } else {
        if selected >= 1 { Some(selected - 1) } else { None }
    }
}

/// `name` is offered for `prefix`: the prefix is empty, or the lowercased
/// name starts with the lowercased prefix.
pub open spec fn offered(name: Seq<char>, prefix: Seq<char>) -> bool {
    prefix.len() == 0 || seq_has_prefix(spec_lowercase(name), spec_lowercase(prefix))
}

/// The keywords offered for `prefix`, in order.
pub open spec fn keyword_items(kws: Seq<KeywordData>, prefix: Seq<char>) -> Seq<(int, Seq<char>, Seq<char>)>
    decreases kws.len(),
{
    if kws.len() == 0 {
        Seq::empty()
    } else {
        let prev = keyword_items(kws.drop_last(), prefix);
        if offered(kws.last().keyword@, prefix) {
            prev.push((0, kws.last().keyword@, Seq::empty()))
        } else {
            prev
        }
    }
}

/// The snippets offered for `prefix`, in order.
pub open spec fn snippet_items(ss: Seq<SnippetData>, prefix: Seq<char>) -> Seq<(int, Seq<char>, Seq<char>)>
    decreases ss.len(),
{
    if ss.len() == 0 {
        Seq::empty()
    } else {
        let prev = snippet_items(ss.drop_last(), prefix);
        if offered(ss.last().trigger@, prefix) {
            prev.push((1, ss.last().trigger@, ss.last().content@))
        } else {
            prev
        }
    }
}

/// A character kept at the ends of a buffer word.
pub open spec fn word_char(c: char) -> bool {
    spec_is_alphanumeric(c) || c == '_'
}

/// `s` without the non-word characters at its start.
pub open spec fn trim_front(s: Seq<char>) -> Seq<char>
    decreases s.len(),
{
    if s.len() > 0 && !word_char(s[0]) { trim_front(s.drop_first()) } else { s }
}

/// `s` without the non-word characters at its end.
pub open spec fn trim_back(s: Seq<char>) -> Seq<char>
    decreases s.len(),
{
    if s.len() > 0 && !word_char(s.last()) { trim_back(s.drop_last()) } else { s }
}

/// A buffer word without the non-word characters at its ends.
pub open spec fn clean_word(w: Seq<char>) -> Seq<char> {
    trim_back(trim_front(w))
}

/// How many bytes a character takes in UTF-8.
pub open spec fn utf8_width(c: char) -> nat {
    if (c as int) < 0x80 {
        1
    } else if (c as int) < 0x800 {
        2
    } else if (c as int) < 0x10000 {
        3
    } else {
        4
    }
}

/// How many bytes `s` takes in UTF-8.
pub open spec fn utf8_len(s: Seq<char>) -> nat
    decreases s.len(),
{
    if s.len() == 0 {
        0
    } else {
        utf8_len(s.drop_last()) + utf8_width(s.last())
    }
}

/// The buffer words offered from word `i` on, while fewer than the maximum
/// suggestions are collected: cleaned words longer than two bytes, not the
/// prefix itself, starting with it (ignoring case), and not offered yet.
pub open spec fn buffer_word_items(ws: Seq<Seq<char>>, i: int, count: int, seen: Set<Seq<char>>, prefix: Seq<char>) -> Seq<(int, Seq<char>, Seq<char>)>
    decreases ws.len() - i,
{
    if i < 0 || i >= ws.len() || count >= 20 {
        Seq::empty()
    } else {
        let c = clean_word(ws[i]);
        if utf8_len(c) > 2 && c != prefix && seq_has_prefix(spec_lowercase(c), spec_lowercase(prefix)) && !seen.contains(c) {
            seq![(2int, c, Seq::<char>::empty())] + buffer_word_items(ws, i + 1, count + 1, seen.insert(c), prefix)
        } else {
            buffer_word_items(ws, i + 1, count, seen, prefix)
        }
    }
}

/// The names of items.
pub open spec fn item_names(items: Seq<(int, Seq<char>, Seq<char>)>) -> Set<Seq<char>> {
    items.map_values(|v: (int, Seq<char>, Seq<char>)| v.1).to_set()
}

/// The candidates for a prefix: the language's keywords and snippets that
/// start with it, then (for a non-empty prefix) words of the buffer.
pub open spec fn candidate_items(data: Option<LanguageCompletionData>, prefix: Seq<char>, buffer: Seq<char>) -> Seq<(int, Seq<char>, Seq<char>)> {
    let base = match data {
        Some(d) => keyword_items(d.keywords@, prefix) + snippet_items(d.snippets@, prefix),
        None => Seq::empty(),
    };
    if prefix.len() > 0 {
        base + buffer_word_items(words(buffer), 0, base.len() as int, item_names(base), prefix)
    } else {
        base
    }
}

/// Index of the first entry of `t`, from `j` on, whose text sorts after `key`.
pub open spec fn first_after(t: Seq<(Seq<char>, (int, Seq<char>, Seq<char>))>, key: Seq<char>, j: int) -> int
    decreases t.len() - j,
{
    if j < 0 || j >= t.len() {
        t.len() as int
    } else if seq_less(key, t[j].0) {
        j
    } else {
        first_after(t, key, j + 1)
    }
}

/// Sort entries by their text, keeping the order of equal texts.
pub open spec fn sort_by_text(s: Seq<(Seq<char>, (int, Seq<char>, Seq<char>))>) -> Seq<(Seq<char>, (int, Seq<char>, Seq<char>))>
    decreases s.len(),
{
    if s.len() == 0 {
        s
    } else {
        let t = sort_by_text(s.drop_last());
        let p = first_after(t, s.last().0, 0);
        t.take(p) + seq![s.last()] + t.skip(p)
    }
}

/// What the popup offers: the candidates with their texts, sorted by text
/// (equal texts in candidate order), at most `MAX_SUGGESTIONS` of them.
pub open spec fn suggestions(data: Option<LanguageCompletionData>, prefix: Seq<char>, buffer: Seq<char>) -> Seq<(Seq<char>, (int, Seq<char>, Seq<char>))> {
    let sorted = sort_by_text(candidate_items(data, prefix, buffer).map_values(
        |v: (int, Seq<char>, Seq<char>)| (display_of(v), v),
    ));
    if sorted.len() > 20 { sorted.take(20) } else { sorted }
}

/// Whether `name` is offered for `prefix` (see `offered`).
pub fn is_offered(name: &str, prefix: &str) -> (r: bool)
    ensures
        r == offered(name@, prefix@),
{
    if prefix.unicode_len() == 0 {
        return true;
    }
    let n = to_lowercase(name);
    let p = to_lowercase(prefix);
    has_prefix(n.as_str(), p.as_str())
}

proof fn lemma_trim_front(s: Seq<char>, k: int)
    requires
        0 <= k <= s.len(),
        forall|m: int| 0 <= m < k ==> !word_char(#[trigger] s[m]),
        k == s.len() || word_char(s[k]),
    ensures
        trim_front(s) == s.subrange(k, s.len() as int),
    decreases k,
{
    if k == 0 {
        assert(s.subrange(0, s.len() as int) =~= s);
    } else {
        let d = s.drop_first();
        assert forall|m: int| 0 <= m < k - 1 implies !word_char(#[trigger] d[m]) by {
            assert(d[m] == s[m + 1]);
        }
        if k - 1 < d.len() {
            assert(d[k - 1] == s[k]);
        }
        lemma_trim_front(d, k - 1);
        assert(d.subrange(k - 1, d.len() as int) =~= s.subrange(k, s.len() as int));
    }
}

proof fn lemma_trim_back(s: Seq<char>, e: int)
    requires
        0 <= e <= s.len(),
        forall|m: int| e <= m < s.len() ==> !word_char(#[trigger] s[m]),
        e == 0 || word_char(s[e - 1]),
    ensures
        trim_back(s) == s.subrange(0, e),
    decreases s.len() - e,
{
    if e == s.len() {
        assert(s.subrange(0, e) =~= s);
    } else {
        let d = s.drop_last();
        assert forall|m: int| e <= m < d.len() implies !word_char(#[trigger] d[m]) by {
            assert(d[m] == s[m]);
        }
        if e > 0 {
            assert(d[e - 1] == s[e - 1]);
        }
        lemma_trim_back(d, e);
        assert(d.subrange(0, e) =~= s.subrange(0, e));
    }
}

fn is_word_char(c: char) -> (r: bool)
    ensures
        r == word_char(c),
{
    c == '_' || is_alphanumeric(c)
}

/// A buffer word without the non-word characters at its ends.
pub fn clean_buffer_word(w: &str) -> (r: String)
    ensures
        r@ == clean_word(w@),
{
    let cs = chars_of(w);
    let mut k: usize = 0;
    while k < cs.len() && !is_word_char(cs[k])
        invariant
            cs@ == w@,
            k <= cs@.len(),
            forall|m: int| 0 <= m < k ==> !word_char(#[trigger] cs@[m]),
        decreases cs.len() - k,
    {
        k = k + 1;
    }
    proof {
        lemma_trim_front(w@, k as int);
    }
    let front = chars_between(&cs, k, cs.len());
    let mut e = front.len();
    while e > 0 && !is_word_char(front[e - 1])
        invariant
            e <= front@.len(),
            forall|m: int| e <= m < front@.len() ==> !word_char(#[trigger] front@[m]),
        decreases e,
    {
        e = e - 1;
    }
    proof {
        lemma_trim_back(front@, e as int);
    }
    let r = chars_between(&front, 0, e);
    string_from_chars(&r)
}

pub(crate) proof fn lemma_utf8_len_take(s: Seq<char>, i: int)
    requires
        0 <= i < s.len(),
    ensures
        utf8_len(s.take(i + 1)) == utf8_len(s.take(i)) + utf8_width(s[i]),
{
    assert(s.take(i + 1).drop_last() =~= s.take(i));
}

pub(crate) proof fn lemma_utf8_len_grows(s: Seq<char>, i: int)
    requires
        0 <= i <= s.len(),
    ensures
        utf8_len(s.take(i)) <= utf8_len(s),
    decreases s.len() - i,
{
    if i < s.len() {
        lemma_utf8_len_take(s, i);
        lemma_utf8_len_grows(s, i + 1);
    } else {
        assert(s.take(i) =~= s);
    }
}

pub(crate) fn width_of(c: char) -> (r: u64)
    ensures
        r == utf8_width(c),
{
    let v = c as u32;
    if v < 0x80 {
        1
    } else if v < 0x800 {
        2
    } else if v < 0x10000 {
        3
    } else {
        4
    }
}

/// Whether `s` takes more than two bytes in UTF-8.
pub fn longer_than_two_bytes(s: &str) -> (r: bool)
    ensures
        r == (utf8_len(s@) > 2),
{
    let cs = chars_of(s);
    let mut total: u64 = 0;
    let mut i: usize = 0;
    while i < cs.len()
        invariant
            cs@ == s@,
            i <= cs@.len(),
            total == utf8_len(s@.take(i as int)),
            total <= 2,
        decreases cs.len() - i,
    {
        proof {
            lemma_utf8_len_take(s@, i as int);
        }
        total = total + width_of(cs[i]);
        i = i + 1;
        if total > 2 {
            proof {
                lemma_utf8_len_grows(s@, i as int);
            }
            return true;
        }
    }
    assert(s@.take(i as int) =~= s@);
    false
}

/// The views of items.
pub open spec fn items_view(v: Seq<CompletionItem>) -> Seq<(int, Seq<char>, Seq<char>)> {
    v.map_values(|i: CompletionItem| item_view(i))
}

/// The names in a list of strings.
pub open spec fn names_in(v: Seq<String>) -> Set<Seq<char>> {
    Set::new(|n: Seq<char>| exists|k: int| 0 <= k < v.len() && v[k]@ == n)
}

/// The (text, item) entries viewed.
pub open spec fn entries_view(v: Seq<(String, CompletionItem)>) -> Seq<(Seq<char>, (int, Seq<char>, Seq<char>))> {
    v.map_values(|e: (String, CompletionItem)| (e.0@, item_view(e.1)))
}

proof fn lemma_step<T>(s: Seq<T>, i: int)
    requires
        0 <= i < s.len(),
    ensures
        s.take(i + 1).drop_last() == s.take(i),
        s.take(i + 1).last() == s[i],
{
    assert(s.take(i + 1).drop_last() =~= s.take(i));
}

fn push_item(items: &mut Vec<CompletionItem>, names: &mut Vec<String>, item: CompletionItem, name: String)
    requires
        old(names)@.len() == old(items)@.len(),
        item_view(item).1 == name@,
    ensures
        final(items)@ == old(items)@.push(item),
        items_view(final(items)@) == items_view(old(items)@).push(item_view(item)),
        final(names)@ == old(names)@.push(name),
        final(names)@.len() == final(items)@.len(),
{
    let ghost before = items_view(items@);
    let ghost iv = item_view(item);
    items.push(item);
    names.push(name);
    assert(items_view(items@) =~= before.push(iv));
}

fn provider_items(provider: Option<&JsonCompletionProvider>, prefix: &str) -> (r: (Vec<CompletionItem>, Vec<String>))
    ensures
        items_view(r.0@) == match provider {
            Some(p) => keyword_items(p.data().keywords@, prefix@) + snippet_items(p.data().snippets@, prefix@),
            None => Seq::empty(),
        },
        r.1@.len() == r.0@.len(),
        forall|k: int| 0 <= k < r.1@.len() ==> (#[trigger] r.1@[k])@ == item_view(r.0@[k]).1,
{
    let mut items: Vec<CompletionItem> = Vec::new();
    let mut names: Vec<String> = Vec::new();
    assert(items_view(items@) =~= Seq::<(int, Seq<char>, Seq<char>)>::empty());
    match provider {
        None => (items, names),
        Some(p) => {
            let kws = p.get_keyword_data();
            for i in 0..kws.len()
                invariant
                    kws@ == p.data().keywords@,
                    items_view(items@) == keyword_items(kws@.take(i as int), prefix@),
                    names@.len() == items@.len(),
                    forall|k: int| 0 <= k < names@.len() ==> (#[trigger] names@[k])@ == item_view(items@[k]).1,
            {
                proof {
                    lemma_step(kws@, i as int);
                }
                if is_offered(kws[i].keyword.as_str(), prefix) {
                    push_item(&mut items, &mut names, CompletionItem::Keyword(string_of(kws[i].keyword.as_str())), string_of(kws[i].keyword.as_str()));
                }
            }
            proof {
                assert(kws@.take(kws@.len() as int) =~= kws@);
            }
            let ghost base = items_view(items@);
            let sns = p.get_snippet_data();
            for i in 0..sns.len()
                invariant
                    sns@ == p.data().snippets@,
                    items_view(items@) == base + snippet_items(sns@.take(i as int), prefix@),
                    names@.len() == items@.len(),
                    forall|k: int| 0 <= k < names@.len() ==> (#[trigger] names@[k])@ == item_view(items@[k]).1,
            {
                proof {
                    lemma_step(sns@, i as int);
                }
                if is_offered(sns[i].trigger.as_str(), prefix) {
                    let ghost before = items_view(items@);
                    push_item(
                        &mut items,
                        &mut names,
                        CompletionItem::Snippet(string_of(sns[i].trigger.as_str()), string_of(sns[i].content.as_str())),
                        string_of(sns[i].trigger.as_str()),
                    );
                    assert(base + snippet_items(sns@.take(i + 1), prefix@) =~= before.push(
                        (1, sns@[i as int].trigger@, sns@[i as int].content@),
                    ));
                } else {
                    assert(base + snippet_items(sns@.take(i + 1), prefix@) =~= base + snippet_items(sns@.take(i as int), prefix@));
                }
            }
            proof {
                assert(sns@.take(sns@.len() as int) =~= sns@);
            }
            (items, names)
        },
    }
}

fn add_buffer_words(items: &mut Vec<CompletionItem>, names: &mut Vec<String>, ws: &Vec<String>, prefix: &str)
    requires
        old(names)@.len() == old(items)@.len(),
    ensures
        items_view(final(items)@) == items_view(old(items)@) + buffer_word_items(
            ws@.map_values(|w: String| w@),
            0,
            old(items)@.len() as int,
            names_in(old(names)@),
            prefix@,
        ),
{
    let ghost wsv = ws@.map_values(|w: String| w@);
    let ghost target = items_view(items@) + buffer_word_items(wsv, 0, items@.len() as int, names_in(names@), prefix@);
    let low_prefix = to_lowercase(prefix);
    let mut i: usize = 0;
    while i < ws.len()
        invariant
            wsv == ws@.map_values(|w: String| w@),
            i <= ws@.len(),
            names@.len() == items@.len(),
            low_prefix@ == spec_lowercase(prefix@),
            target == items_view(old(items)@) + buffer_word_items(wsv, 0, old(items)@.len() as int, names_in(old(names)@), prefix@),
            items_view(items@) + buffer_word_items(wsv, i as int, items@.len() as int, names_in(names@), prefix@) == target,
        decreases ws.len() - i,
    {
        if items.len() >= MAX_SUGGESTIONS {
            assert(buffer_word_items(wsv, i as int, items@.len() as int, names_in(names@), prefix@) =~= Seq::<(int, Seq<char>, Seq<char>)>::empty());
            assert(items_view(items@) =~= target);
            return;
        }
        assert(wsv[i as int] == ws@[i as int]@);
        let c = clean_buffer_word(ws[i].as_str());
        let low = to_lowercase(c.as_str());
        let fresh = !crate::text::contains_string(names, c.as_str());
        proof {
            assert(fresh == !names_in(names@).contains(c@));
        }
        if longer_than_two_bytes(c.as_str()) && !str_eq(c.as_str(), prefix) && has_prefix(low.as_str(), low_prefix.as_str()) && fresh {
            let ghost before_names = names@;
            let ghost before_items = items_view(items@);
            let ghost n0 = items@.len();
            push_item(items, names, CompletionItem::BufferWord(string_of(c.as_str())), string_of(c.as_str()));
            proof {
                assert(names_in(names@) =~= names_in(before_names).insert(c@)) by {
                    assert forall|n: Seq<char>| names_in(names@).contains(n) <==> names_in(before_names).insert(c@).contains(n) by {
                        if names_in(names@).contains(n) {
                            let k = choose|k: int| 0 <= k < names@.len() && names@[k]@ == n;
                            if k < before_names.len() {
                                assert(before_names[k] == names@[k]);
                            }
                        }
                        if names_in(before_names).contains(n) {
                            let k = choose|k: int| 0 <= k < before_names.len() && before_names[k]@ == n;
                            assert(names@[k] == before_names[k]);
                        }
                        if n == c@ {
                            assert(names@[names@.len() - 1]@ == c@);
                        }
                    }
                }
                assert(items_view(items@) + buffer_word_items(wsv, i + 1, items@.len() as int, names_in(names@), prefix@)
                    =~= before_items + buffer_word_items(wsv, i as int, n0 as int, names_in(before_names), prefix@));
            }
        }
        i = i + 1;
    }
    assert(buffer_word_items(wsv, i as int, items@.len() as int, names_in(names@), prefix@) =~= Seq::<(int, Seq<char>, Seq<char>)>::empty());
    assert(items_view(items@) =~= target);
}

proof fn lemma_entries_drop_first(v: Seq<(String, CompletionItem)>)
    requires
        v.len() > 0,
    ensures
        entries_view(v.drop_first()) == entries_view(v).drop_first(),
{
    assert(entries_view(v.drop_first()) =~= entries_view(v).drop_first());
}

proof fn lemma_items_drop_first(v: Seq<CompletionItem>)
    requires
        v.len() > 0,
    ensures
        items_view(v.drop_first()) == items_view(v).drop_first(),
{
    assert(items_view(v.drop_first()) =~= items_view(v).drop_first());
}

fn sort_entries(v: Vec<(String, CompletionItem)>) -> (r: Vec<(String, CompletionItem)>)
    ensures
        entries_view(r@) == sort_by_text(entries_view(v@)),
{
    let ghost orig = entries_view(v@);
    let mut rest = v;
    let mut sorted: Vec<(String, CompletionItem)> = Vec::new();
    let n = rest.len();
    let mut j: usize = 0;
    assert(entries_view(sorted@) =~= sort_by_text(orig.take(0)));
    while rest.len() > 0
        invariant
            orig.len() == n,
            j + rest@.len() == n,
            entries_view(rest@) == orig.skip(j as int),
            entries_view(sorted@) == sort_by_text(orig.take(j as int)),
        decreases rest.len(),
    {
        let ghost old_rest = rest@;
        let x = rest.remove(0);
        let ghost xv = (x.0@, item_view(x.1));
        assert(entries_view(old_rest)[0] == xv);
        assert(orig.skip(j as int)[0] == orig[j as int]);
        assert(xv == orig[j as int]);
        proof {
            lemma_entries_drop_first(old_rest);
            assert(orig.skip(j as int).drop_first() =~= orig.skip(j + 1));
        }
        let ghost t = entries_view(sorted@);
        let mut p: usize = 0;
        while p < sorted.len()
            invariant
                p <= sorted@.len(),
                t == entries_view(sorted@),
                xv.0 == x.0@,
                first_after(t, xv.0, 0) == first_after(t, xv.0, p as int),
            ensures
                p <= sorted@.len(),
                first_after(t, xv.0, 0) == p as int,
            decreases sorted.len() - p,
        {
            assert(t[p as int].0 == sorted@[p as int].0@);
            if str_less(x.0.as_str(), sorted[p].0.as_str()) {
                break;
            }
            assert(first_after(t, xv.0, p as int) == first_after(t, xv.0, p + 1));
            p = p + 1;
        }
        sorted.insert(p, x);
        proof {
            lemma_step(orig, j as int);
            assert(entries_view(sorted@) =~= t.take(p as int) + seq![xv] + t.skip(p as int));
            let s1 = orig.take(j + 1);
            assert(s1.drop_last() == orig.take(j as int));
            assert(s1.last() == xv);
            assert(sort_by_text(s1) == t.take(p as int) + seq![xv] + t.skip(p as int));
        }
        j = j + 1;
    }
    assert(orig.take(n as int) =~= orig);
    sorted
}

/// The suggestions offered for the word being typed (`prefix`), from the
/// language's completion data (`provider`, when loaded) and, for a
/// non-empty prefix, the words of the buffer (see `suggestions`).
pub fn completion_suggestions(provider: Option<&JsonCompletionProvider>, prefix: &str, buffer_text: &str) -> (r: Vec<(String, CompletionItem)>)
    ensures
        entries_view(r@) == suggestions(
            match provider {
                Some(p) => Some(p.data()),
                None => None,
            },
            prefix@,
            buffer_text@,
        ),
{
    let (mut items, mut names) = provider_items(provider, prefix);
    let ghost base = items_view(items@);
    proof {
        assert(names_in(names@) =~= item_names(base)) by {
            assert forall|n: Seq<char>| names_in(names@).contains(n) <==> item_names(base).contains(n) by {
                let bn = base.map_values(|v: (int, Seq<char>, Seq<char>)| v.1);
                if names_in(names@).contains(n) {
                    let k = choose|k: int| 0 <= k < names@.len() && names@[k]@ == n;
                    assert(bn[k] == n);
                    assert(bn.contains(n));
                }
                if item_names(base).contains(n) {
                    assert(bn.contains(n));
                    let k = choose|k: int| 0 <= k < bn.len() && bn[k] == n;
                    assert(names@[k]@ == n);
                }
            }
        }
    }
    if prefix.unicode_len() > 0 {
        let ws = split_words(buffer_text);
        add_buffer_words(&mut items, &mut names, &ws, prefix);
    }
    let mut entries: Vec<(String, CompletionItem)> = Vec::new();
    let ghost all = items_view(items@);
    let mut rest = items;
    let n = rest.len();
    let mut j: usize = 0;
    assert(entries_view(entries@) =~= all.take(0).map_values(|v: (int, Seq<char>, Seq<char>)| (display_of(v), v)));
    while rest.len() > 0
        invariant
            all.len() == n,
            j + rest@.len() == n,
            items_view(rest@) == all.skip(j as int),
            entries_view(entries@) == all.take(j as int).map_values(|v: (int, Seq<char>, Seq<char>)| (display_of(v), v)),
        decreases rest.len(),
    {
        let ghost old_rest = rest@;
        let it = rest.remove(0);
        assert(items_view(old_rest)[0] == item_view(it));
        assert(all.skip(j as int)[0] == all[j as int]);
        assert(item_view(it) == all[j as int]);
        proof {
            lemma_items_drop_first(old_rest);
            assert(all.skip(j as int).drop_first() =~= all.skip(j + 1));
        }
        let d = display_text(&it);
        let ghost before = entries_view(entries@);
        entries.push((d, it));
        proof {
            lemma_step(all, j as int);
            assert(entries_view(entries@) =~= before.push((display_of(all[j as int]), all[j as int])));
            assert(all.take(j + 1).map_values(|v: (int, Seq<char>, Seq<char>)| (display_of(v), v)) =~= all.take(j as int).map_values(
                |v: (int, Seq<char>, Seq<char>)| (display_of(v), v),
            ).push((display_of(all[j as int]), all[j as int])));
        }
        j = j + 1;
    }
    assert(all.take(n as int) =~= all);
    let mut sorted = sort_entries(entries);
    let ghost sv = entries_view(sorted@);
    if sorted.len() > MAX_SUGGESTIONS {
        sorted.truncate(MAX_SUGGESTIONS);
        assert(entries_view(sorted@) =~= sv.take(20));
    }
    sorted
}

/// Entries in order of their texts: no entry's text sorts before an
/// earlier entry's.
pub open spec fn text_sorted(t: Seq<(Seq<char>, (int, Seq<char>, Seq<char>))>) -> bool {
    forall|i: int, j: int| 0 <= i < j < t.len() ==> !seq_less(#[trigger] t[j].0, #[trigger] t[i].0)
}

proof fn lemma_first_after(t: Seq<(Seq<char>, (int, Seq<char>, Seq<char>))>, key: Seq<char>, j: int)
    requires
        0 <= j <= t.len(),
    ensures
        j <= first_after(t, key, j) <= t.len(),
        forall|m: int| j <= m < first_after(t, key, j) ==> !seq_less(key, #[trigger] t[m].0),
        first_after(t, key, j) < t.len() ==> seq_less(key, t[first_after(t, key, j)].0),
    decreases t.len() - j,
{
    if j < t.len() && !seq_less(key, t[j].0) {
        lemma_first_after(t, key, j + 1);
    }
}

/// Sorting by text yields entries in order of their texts, as many as there
/// were.
pub proof fn lemma_sort_by_text_sorted(s: Seq<(Seq<char>, (int, Seq<char>, Seq<char>))>)
    ensures
        text_sorted(sort_by_text(s)),
        sort_by_text(s).len() == s.len(),
    decreases s.len(),
{
    if s.len() > 0 {
        let t = sort_by_text(s.drop_last());
        lemma_sort_by_text_sorted(s.drop_last());
        let x = s.last();
        let p = first_after(t, x.0, 0);
        lemma_first_after(t, x.0, 0);
        let u = t.take(p) + seq![x] + t.skip(p);
        assert(sort_by_text(s) == u);
        assert forall|i: int, j: int| 0 <= i < j < u.len() implies !seq_less(#[trigger] u[j].0, #[trigger] u[i].0) by {
            if j < p {
                assert(u[i] == t[i] && u[j] == t[j]);
            } else if j == p {
                assert(u[i] == t[i]);
                assert(u[j] == x);
            } else if i > p {
                assert(u[i] == t[i - 1] && u[j] == t[j - 1]);
            } else if i == p {
                assert(u[i] == x && u[j] == t[j - 1]);
                assert(p < t.len());
                if seq_less(t[j - 1].0, x.0) {
                    lemma_less_transitive(t[j - 1].0, x.0, t[p].0);
                    if j - 1 > p {
                        assert(!seq_less(t[j - 1].0, t[p].0));
                    } else {
                        crate::lexical::lemma_less_irreflexive(t[p].0);
                    }
                }
            } else {
                assert(u[i] == t[i] && u[j] == t[j - 1]);
            }
        }
    }
}

/// The suggestions come in order of their texts, at most `MAX_SUGGESTIONS`
/// of them.
pub proof fn lemma_suggestions_sorted(data: Option<LanguageCompletionData>, prefix: Seq<char>, buffer: Seq<char>)
    ensures
        text_sorted(suggestions(data, prefix, buffer)),
        suggestions(data, prefix, buffer).len() <= 20,
{
    let all = candidate_items(data, prefix, buffer).map_values(|v: (int, Seq<char>, Seq<char>)| (display_of(v), v));
    lemma_sort_by_text_sorted(all);
    let sorted = sort_by_text(all);
    if sorted.len() > 20 {
        let r = sorted.take(20);
        assert forall|i: int, j: int| 0 <= i < j < r.len() implies !seq_less(#[trigger] r[j].0, #[trigger] r[i].0) by {
            assert(r[i] == sorted[i] && r[j] == sorted[j]);
        }
    }
}

} // verus!
