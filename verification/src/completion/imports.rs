//! The module path named by an import statement on the cursor's line:
//! Rust `use a::b::`, JavaScript `import x from 'm'` and `require('m')`,
//! Python `from a import` and `import a.b`.

use vstd::prelude::*;
use crate::completion::ui::{
    chars_between, current_line, current_line_of, has_prefix, lemma_utf8_len_grows,
    lemma_utf8_len_take, utf8_len, width_of,
};
use crate::text::{
    chars_of, contains_str, is_whitespace, seq_contains_sub, seq_has_prefix, spec_is_whitespace,
    spec_trim, string_from_chars, trim,
};

verus! {

// ---------------------------------------------------------------------------
// Searching
// ---------------------------------------------------------------------------

/// The first position from `k` on where `p` occurs in `s`.
pub open spec fn find_from(s: Seq<char>, p: Seq<char>, k: int) -> Option<int>
    decreases s.len() + 1 - k,
{
    if k < 0 || k + p.len() > s.len() {
        None
    } else if s.subrange(k, k + p.len()) == p {
        Some(k)
    } else {
        find_from(s, p, k + 1)
    }
}

/// The last position at or before `k` where `p` occurs in `s`.
pub open spec fn rfind_from(s: Seq<char>, p: Seq<char>, k: int) -> Option<int>
    decreases k + 1,
{
    if k < 0 {
        None
    } else if k + p.len() <= s.len() && s.subrange(k, k + p.len()) == p {
        Some(k)
    } else {
        rfind_from(s, p, k - 1)
    }
}

/// Where `p` occurs first in `s` (`str::find`).
pub open spec fn find_first(s: Seq<char>, p: Seq<char>) -> Option<int> {
    find_from(s, p, 0)
}

/// Where `p` occurs last in `s` (`str::rfind`).
pub open spec fn find_last(s: Seq<char>, p: Seq<char>) -> Option<int> {
    rfind_from(s, p, s.len() - p.len())
}

/// The first quote character (`'` or `"`) from `k` on.
pub open spec fn quote_from(s: Seq<char>, k: int) -> Option<int>
    decreases s.len() - k,
{
    if k < 0 || k >= s.len() {
        None
    } else if s[k] == '\'' || s[k] == '"' {
        Some(k)
    } else {
        quote_from(s, k + 1)
    }
}

// ---------------------------------------------------------------------------
// The module path
// ---------------------------------------------------------------------------

/// The byte offset of the first quote of `after`, used as a character
/// index, falls inside `after` (there is a character to take as the
/// closing quote).
pub open spec fn quote_char_ok(after: Seq<char>) -> bool {
    match quote_from(after, 0) {
        None => true,
        Some(k) => utf8_len(after.take(k)) < after.len(),
    }
}

/// The text between the first quote of `after` and the next occurrence of
/// the closing character. The closing character is the one at the first
/// quote's byte offset counted in characters, which is that quote itself
/// when everything before it is ASCII.
pub open spec fn quoted_in(after: Seq<char>) -> Option<Seq<char>> {
    match quote_from(after, 0) {
        None => None,
        Some(k) => {
            let closing = after[utf8_len(after.take(k)) as int];
            let rest = after.skip(k + 1);
            match find_first(rest, seq![closing]) {
                Some(e) => Some(rest.take(e)),
                None => None,
            }
        },
    }
}

/// All characters of `s` are whitespace.
pub open spec fn all_whitespace(s: Seq<char>) -> bool {
    forall|i: int| 0 <= i < s.len() ==> #[trigger] spec_is_whitespace(s[i])
}

/// Rust: after `use `, the path before the last `::`; the empty path when
/// nothing follows `use `.
pub open spec fn use_path(l: Seq<char>) -> Option<Seq<char>> {
    if seq_has_prefix(l, "use "@) {
        let a = spec_trim(l.skip(4));
        match find_last(a, "::"@) {
            Some(p) => Some(a.take(p)),
            None => if all_whitespace(a) { Some(Seq::empty()) } else { None },
        }
    } else {
        None
    }
}

/// What follows the last `from` of a JavaScript `import ... from` line.
pub open spec fn from_clause(l: Seq<char>) -> Option<Seq<char>> {
    if seq_has_prefix(l, "import "@) && seq_contains_sub(l, "from"@) {
        match find_last(l, "from"@) {
            Some(f) => Some(spec_trim(l.skip(f + 4))),
            None => None,
        }
    } else {
        None
    }
}

/// JavaScript: the quoted module of `import ... from 'm'`.
pub open spec fn js_from_path(l: Seq<char>) -> Option<Seq<char>> {
    match from_clause(l) {
        Some(a) => quoted_in(a),
        None => None,
    }
}

/// What follows the first `require(`.
pub open spec fn require_clause(l: Seq<char>) -> Option<Seq<char>> {
    match find_first(l, "require("@) {
        Some(q) => Some(l.skip(q + 8)),
        None => None,
    }
}

/// JavaScript: the quoted module of `require('m')`.
pub open spec fn require_path(l: Seq<char>) -> Option<Seq<char>> {
    match require_clause(l) {
        Some(a) => quoted_in(a),
        None => None,
    }
}

/// Python: the module of `from m import`.
pub open spec fn python_from_path(l: Seq<char>) -> Option<Seq<char>> {
    if seq_has_prefix(l, "from "@) {
        match find_first(l.skip(5), " import"@) {
            Some(i) => Some(spec_trim(l.skip(5).take(i))),
            None => None,
        }
    } else {
        None
    }
}

/// Python: after `import `, the part before the last `.`; the empty path
/// when nothing follows `import `.
pub open spec fn python_import_path(l: Seq<char>) -> Option<Seq<char>> {
    if seq_has_prefix(l, "import "@) {
        let m = spec_trim(l.skip(7));
        match find_last(m, "."@) {
            Some(d) => Some(m.take(d)),
            None => if m.len() == 0 { Some(Seq::empty()) } else { None },
        }
    } else {
        None
    }
}

/// The module path named on line `l`: the first of the Rust, JavaScript
/// `from`, `require`, Python `from` and Python `import` forms that gives one.
pub open spec fn import_path(l: Seq<char>) -> Option<Seq<char>> {
    if use_path(l) is Some {
        use_path(l)
    } else if js_from_path(l) is Some {
        js_from_path(l)
    } else if require_path(l) is Some {
        require_path(l)
    } else if python_from_path(l) is Some {
        python_from_path(l)
    } else {
        python_import_path(l)
    }
}

/// Every quote lookup that `import_path` reaches on line `l` finds its
/// closing character.
pub open spec fn import_path_defined(l: Seq<char>) -> bool {
    ||| use_path(l) is Some
    ||| {
        &&& (from_clause(l) matches Some(a) ==> quote_char_ok(a))
        &&& (js_from_path(l) is None ==> (require_clause(l) matches Some(a) ==> quote_char_ok(a)))
    }
}

/// The view of an optional character vector.
pub open spec fn opt_chars(r: Option<Vec<char>>) -> Option<Seq<char>> {
    match r {
        Some(v) => Some(v@),
        None => None,
    }
}

/// The view of an optional string.
pub open spec fn opt_string(r: Option<String>) -> Option<Seq<char>> {
    match r {
        Some(v) => Some(v@),
        None => None,
    }
}

// ---------------------------------------------------------------------------
// Executable search
// ---------------------------------------------------------------------------

fn matches_at(s: &Vec<char>, p: &Vec<char>, k: usize) -> (r: bool)
    requires
        k + p@.len() <= s@.len(),
    ensures
        r == (s@.subrange(k as int, k + p@.len()) == p@),
{
    let n = s.len();
    let mut i: usize = 0;
    while i < p.len()
        invariant
            i <= p@.len(),
            n == s@.len(),
            k + p@.len() <= s@.len(),
            forall|m: int| 0 <= m < i ==> s@[k + m] == p@[m],
        decreases p.len() - i,
    {
        if s[k + i] != p[i] {
            assert(s@.subrange(k as int, k + p@.len())[i as int] != p@[i as int]);
            return false;
        }
        i = i + 1;
    }
    assert(s@.subrange(k as int, k + p@.len()) =~= p@);
    true
}

fn find_in(s: &Vec<char>, p: &Vec<char>) -> (r: Option<usize>)
    ensures
        match r {
            Some(k) => find_first(s@, p@) == Some(k as int) && k + p@.len() <= s@.len(),
            None => find_first(s@, p@) is None,
        },
{
    if p.len() == 0 {
        assert(s@.subrange(0, 0) =~= p@);
        return Some(0);
    }
    let mut k: usize = 0;
    while k <= s.len() && p.len() <= s.len() - k
        invariant
            p@.len() > 0,
            k <= s@.len(),
            find_from(s@, p@, 0) == find_from(s@, p@, k as int),
        decreases s.len() - k,
    {
        if matches_at(s, p, k) {
            return Some(k);
        }
        k = k + 1;
    }
    None
}

fn rfind_in(s: &Vec<char>, p: &Vec<char>) -> (r: Option<usize>)
    ensures
        match r {
            Some(k) => find_last(s@, p@) == Some(k as int) && k + p@.len() <= s@.len(),
            None => find_last(s@, p@) is None,
        },
{
    if p.len() > s.len() {
        return None;
    }
    let mut k: usize = s.len() - p.len();
    loop
        invariant
            k + p@.len() <= s@.len(),
            find_last(s@, p@) == rfind_from(s@, p@, k as int),
        decreases k,
    {
        if matches_at(s, p, k) {
            return Some(k);
        }
        if k == 0 {
            assert(rfind_from(s@, p@, -1) is None);
            return None;
        }
        k = k - 1;
    }
}

fn first_quote(s: &Vec<char>) -> (r: Option<usize>)
    ensures
        match r {
            Some(k) => quote_from(s@, 0) == Some(k as int) && k < s@.len(),
            None => quote_from(s@, 0) is None,
        },
{
    let mut k: usize = 0;
    while k < s.len()
        invariant
            k <= s@.len(),
            quote_from(s@, 0) == quote_from(s@, k as int),
        decreases s.len() - k,
    {
        if s[k] == '\'' || s[k] == '"' {
            return Some(k);
        }
        k = k + 1;
    }
    None
}

/// The UTF-8 byte offset of character `k` of `cs`, when it is below the
/// number of characters.
fn byte_offset_within(cs: &Vec<char>, k: usize) -> (r: Option<usize>)
    requires
        k <= cs@.len(),
    ensures
        match r {
            Some(b) => b == utf8_len(cs@.take(k as int)) && b < cs@.len(),
            None => utf8_len(cs@.take(k as int)) >= cs@.len(),
        },
{
    let n = cs.len();
    assert(cs@.take(0) =~= Seq::<char>::empty());
    if n == 0 {
        assert(cs@.take(k as int) =~= Seq::<char>::empty());
        return None;
    }
    let mut b: usize = 0;
    let mut i: usize = 0;
    while i < k
        invariant
            i <= k <= n,
            n == cs@.len(),
            b == utf8_len(cs@.take(i as int)),
            b < n,
        decreases k - i,
    {
        proof {
            lemma_utf8_len_take(cs@, i as int);
        }
        let w = width_of(cs[i]) as usize;
        if w >= n - b {
            proof {
                lemma_utf8_len_grows(cs@.take(k as int), i + 1);
                assert(cs@.take(k as int).take(i + 1) =~= cs@.take(i + 1));
            }
            return None;
        }
        b = b + w;
        i = i + 1;
    }
    Some(b)
}

fn all_whitespace_in(s: &Vec<char>) -> (r: bool)
    ensures
        r == all_whitespace(s@),
{
    let mut i: usize = 0;
    while i < s.len()
        invariant
            i <= s@.len(),
            forall|m: int| 0 <= m < i ==> #[trigger] spec_is_whitespace(s@[m]),
        decreases s.len() - i,
    {
        if !is_whitespace(s[i]) {
            return false;
        }
        i = i + 1;
    }
    true
}

/// The quoted text of `after` (see `quoted_in`), or `Err` where the
/// closing character would be looked up past the end.
fn quoted_text(after: &Vec<char>) -> (r: Result<Option<Vec<char>>, ()>)
    ensures
        match r {
            Ok(m) => quote_char_ok(after@) && opt_chars(m) == quoted_in(after@),
            Err(_) => !quote_char_ok(after@),
        },
{
    match first_quote(after) {
        None => Ok(None),
        Some(k) => match byte_offset_within(after, k) {
            None => Err(()),
            Some(b) => {
                let closing = after[b];
                let n = after.len();
                let rest = chars_between(after, k + 1, n);
                assert(rest@ =~= after@.skip(k + 1));
                let mut pat: Vec<char> = Vec::new();
                pat.push(closing);
                assert(pat@ =~= seq![closing]);
                match find_in(&rest, &pat) {
                    Some(e) => {
                        let m = chars_between(&rest, 0, e);
                        assert(m@ =~= rest@.take(e as int));
                        Ok(Some(m))
                    },
                    None => Ok(None),
                }
            },
        },
    }
}

// ---------------------------------------------------------------------------
// The module path of a line
// ---------------------------------------------------------------------------

/// The module path of line `l` (see `import_path`), or `Err` where a
/// closing quote character would be looked up past the end of the line.
fn import_path_in(l: &str) -> (r: Result<Option<Vec<char>>, ()>)
    ensures
        match r {
            Ok(m) => import_path_defined(l@) && opt_chars(m) == import_path(l@),
            Err(_) => !import_path_defined(l@),
        },
{
    proof {
        reveal_strlit("use ");
        reveal_strlit("from");
        reveal_strlit("require(");
        reveal_strlit("from ");
        reveal_strlit("import ");
    }
    let cs = chars_of(l);
    let n = cs.len();
    if has_prefix(l, "use ") {
        let tail = string_from_chars(&chars_between(&cs, 4, n));
        assert(tail@ =~= l@.skip(4));
        let a = chars_of(trim(tail.as_str()));
        let sep = chars_of("::");
        match rfind_in(&a, &sep) {
            Some(p) => {
                let m = chars_between(&a, 0, p);
                assert(m@ =~= a@.take(p as int));
                return Ok(Some(m));
            },
            None => {
                if all_whitespace_in(&a) {
                    return Ok(Some(Vec::new()));
                }
            },
        }
    }
    if has_prefix(l, "import ") && contains_str(l, "from") {
        let fr = chars_of("from");
        match rfind_in(&cs, &fr) {
            Some(f) => {
                let tail = string_from_chars(&chars_between(&cs, f + 4, n));
                assert(tail@ =~= l@.skip(f + 4));
                let a = chars_of(trim(tail.as_str()));
                match quoted_text(&a) {
                    Err(_) => {
                        return Err(());
                    },
                    Ok(Some(m)) => {
                        return Ok(Some(m));
                    },
                    Ok(None) => {},
                }
            },
            None => {},
        }
    }
    let rq = chars_of("require(");
    match find_in(&cs, &rq) {
        Some(q) => {
            let a = chars_between(&cs, q + 8, n);
            assert(a@ =~= l@.skip(q + 8));
            match quoted_text(&a) {
                Err(_) => {
                    return Err(());
                },
                Ok(Some(m)) => {
                    return Ok(Some(m));
                },
                Ok(None) => {},
            }
        },
        None => {},
    }
    if has_prefix(l, "from ") {
        let stripped = chars_between(&cs, 5, n);
        assert(stripped@ =~= l@.skip(5));
        let im = chars_of(" import");
        match find_in(&stripped, &im) {
            Some(i) => {
                let part = string_from_chars(&chars_between(&stripped, 0, i));
                assert(part@ =~= l@.skip(5).take(i as int));
                return Ok(Some(chars_of(trim(part.as_str()))));
            },
            None => {},
        }
    }
    if has_prefix(l, "import ") {
        let tail = string_from_chars(&chars_between(&cs, 7, n));
        assert(tail@ =~= l@.skip(7));
        let m = chars_of(trim(tail.as_str()));
        let dot = chars_of(".");
        match rfind_in(&m, &dot) {
            Some(d) => {
                let base = chars_between(&m, 0, d);
                assert(base@ =~= m@.take(d as int));
                return Ok(Some(base));
            },
            None => {
                if m.len() == 0 {
                    return Ok(Some(Vec::new()));
                }
            },
        }
    }
    Ok(None)
}

/// The module path named by the import statement on the current line of
/// `context` (see `import_path`).
pub fn extract_import_path(context: &str) -> (r: Option<String>)
    requires
        import_path_defined(current_line(context@)),
    ensures
        opt_string(r) == import_path(current_line(context@)),
{
    let line = current_line_of(context);
    match import_path_in(line.as_str()) {
        Ok(Some(v)) => Some(string_from_chars(&v)),
        _ => None,
    }
}

/// `Some` of the module path of the current line of `context` where it is
/// defined (see `extract_import_path`); `None` where a closing quote
/// character would be looked up past the end of the line.
pub fn import_path_checked(context: &str) -> (r: Option<Option<String>>)
    ensures
        r is None <==> !import_path_defined(current_line(context@)),
        r matches Some(p) ==> opt_string(p) == import_path(current_line(context@)),
{
    let line = current_line_of(context);
    match import_path_in(line.as_str()) {
        Err(_) => None,
        Ok(_) => Some(extract_import_path(context)),
    }
}


// ---------------------------------------------------------------------------
// Laws
// ---------------------------------------------------------------------------

/// A position found by `find_from` holds `p`, at or after `k`.
pub proof fn lemma_find_from_found(s: Seq<char>, p: Seq<char>, k: int)
    ensures
        find_from(s, p, k) matches Some(j) ==> k <= j && j + p.len() <= s.len() && s.subrange(j, j + p.len()) == p,
    decreases s.len() + 1 - k,
{
    if !(k < 0 || k + p.len() > s.len()) && s.subrange(k, k + p.len()) != p {
        lemma_find_from_found(s, p, k + 1);
    }
}

/// `rfind_from` finds the last occurrence at or before `k`: the position it
/// gives holds `p` and none after it (up to `k`) does; it finds none only
/// when there is none.
pub proof fn lemma_rfind_from_last(s: Seq<char>, p: Seq<char>, k: int)
    ensures
        rfind_from(s, p, k) matches Some(j) ==> {
            &&& 0 <= j <= k
            &&& j + p.len() <= s.len()
            &&& s.subrange(j, j + p.len()) == p
            &&& forall|i: int| j < i <= k && i + p.len() <= s.len() ==> #[trigger] s.subrange(i, i + p.len()) != p
        },
        rfind_from(s, p, k) is None ==> forall|i: int| 0 <= i <= k && i + p.len() <= s.len() ==> #[trigger] s.subrange(i, i + p.len()) != p,
    decreases k + 1,
{
    if k >= 0 && !(k + p.len() <= s.len() && s.subrange(k, k + p.len()) == p) {
        lemma_rfind_from_last(s, p, k - 1);
    }
}

/// No `.` occurs in `s`.
pub open spec fn no_dot(s: Seq<char>) -> bool {
    forall|i: int| 0 <= i < s.len() ==> s[i] != '.'
}

proof fn lemma_no_occurrence(l: Seq<char>, p: Seq<char>)
    requires
        !seq_contains_sub(l, p),
    ensures
        find_first(l, p) is None,
{
    lemma_find_from_found(l, p, 0);
    if let Some(j) = find_first(l, p) {
        assert(l.subrange(j, j + p.len()) == p);
        assert(seq_contains_sub(l, p));
    }
}

/// On a Python line `import a.b.c` (no `from`, no `require(`), the module
/// path is the module text before its LAST `.`: the module is that path, a
/// dot, and a last part without any dot.
pub proof fn lemma_python_import_cuts_at_last_dot(l: Seq<char>)
    requires
        seq_has_prefix(l, "import "@),
        !seq_contains_sub(l, "from"@),
        !seq_contains_sub(l, "require("@),
        !no_dot(spec_trim(l.skip(7))),
    ensures
        import_path(l) is Some,
        exists|rest: Seq<char>|
            no_dot(rest) && #[trigger] (import_path(l)->0 + seq!['.'] + rest) == spec_trim(l.skip(7)),
{
    reveal_strlit("import ");
    reveal_strlit("use ");
    reveal_strlit("from ");
    reveal_strlit(".");
    let m = spec_trim(l.skip(7));
    assert(l.subrange(0, 7) == "import "@);
    assert(l.subrange(0, 7)[0] == l[0]);
    assert(l[0] == 'i');
    assert(!seq_has_prefix(l, "use "@)) by {
        if seq_has_prefix(l, "use "@) {
            assert(l.subrange(0, 4)[0] == l[0]);
        }
    }
    assert(!seq_has_prefix(l, "from "@)) by {
        if seq_has_prefix(l, "from "@) {
            assert(l.subrange(0, 5)[0] == l[0]);
        }
    }
    lemma_no_occurrence(l, "require("@);
    let w = choose|i: int| 0 <= i < m.len() && m[i] == '.';
    let dot = "."@;
    assert(dot.len() == 1);
    lemma_rfind_from_last(m, dot, m.len() - 1);
    assert(m.subrange(w, w + 1) =~= dot);
    let d = rfind_from(m, dot, m.len() - 1)->0;
    assert(m.subrange(d, d + 1)[0] == m[d]);
    let r = m.take(d);
    let rest = m.skip(d + 1);
    assert forall|i: int| 0 <= i < rest.len() implies rest[i] != '.' by {
        assert(rest[i] == m[d + 1 + i]);
        if m[d + 1 + i] == '.' {
            let j = d + 1 + i;
            assert(m.subrange(j, j + dot.len()) =~= dot);
        }
    }
    assert(r + seq!['.'] + rest =~= m);
    assert(no_dot(rest));
    assert(import_path(l) == Some(r));
    assert(import_path(l)->0 + seq!['.'] + rest == spec_trim(l.skip(7)));
}

} // verus!
