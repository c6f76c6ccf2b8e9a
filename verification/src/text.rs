//! Character-level helpers on strings, stated over `Seq<char>`, and the
//! trusted wrappers around the few `str`/`char` functions of std whose
//! Unicode behaviour is not restated here.

use vstd::prelude::*;

verus! {

/// `p` occurs in `s` as a contiguous block of characters.
pub open spec fn seq_contains_sub(s: Seq<char>, p: Seq<char>) -> bool {
    exists|i: int| 0 <= i && i + p.len() <= s.len() && #[trigger] s.subrange(i, i + p.len()) == p
}

/// `s` begins with the character `c`.
pub open spec fn seq_starts_with(s: Seq<char>, c: char) -> bool {
    s.len() > 0 && s[0] == c
}

/// `s` ends with the character `c`.
pub open spec fn seq_ends_with(s: Seq<char>, c: char) -> bool {
    s.len() > 0 && s[s.len() - 1] == c
}

/// `s` begins with `p`.
pub open spec fn seq_has_prefix(s: Seq<char>, p: Seq<char>) -> bool {
    p.len() <= s.len() && s.subrange(0, p.len() as int) == p
}

/// `s` ends with `p`.
pub open spec fn seq_has_suffix(s: Seq<char>, p: Seq<char>) -> bool {
    p.len() <= s.len() && s.subrange(s.len() - p.len(), s.len() as int) == p
}

/// The ASCII decimal digits `'0'..='9'`.
pub open spec fn is_ascii_digit_spec(c: char) -> bool {
    '0' <= c && c <= '9'
}

/// `s` without its leading whitespace (as `char::is_whitespace` decides).
pub open spec fn trim_start_ws(s: Seq<char>) -> Seq<char>
    decreases s.len(),
{
    if s.len() > 0 && spec_is_whitespace(s[0]) {
        trim_start_ws(s.drop_first())
    } else {
        s
    }
}

/// `s` without its trailing whitespace (as `char::is_whitespace` decides).
pub open spec fn trim_end_ws(s: Seq<char>) -> Seq<char>
    decreases s.len(),
{
    if s.len() > 0 && spec_is_whitespace(s.last()) {
        trim_end_ws(s.drop_last())
    } else {
        s
    }
}

/// What `str::trim` returns: the string without its leading and trailing
/// whitespace.
pub open spec fn spec_trim(s: Seq<char>) -> Seq<char> {
    trim_end_ws(trim_start_ws(s))
}

/// A character of the ASCII range (below U+0080).
pub open spec fn is_ascii_char(c: char) -> bool {
    (c as u32) < 128
}

/// Every character of `s` is ASCII.
pub open spec fn all_ascii(s: Seq<char>) -> bool {
    forall|i: int| 0 <= i < s.len() ==> is_ascii_char(#[trigger] s[i])
}

/// The ASCII lowercase of `c`: `'A'..='Z'` become `'a'..='z'`, every other
/// character stays.
pub open spec fn ascii_lower(c: char) -> char {
    if 'A' <= c && c <= 'Z' {
        ((c as u32) + 32) as char
    } else {
        c
    }
}

/// What `str::to_lowercase` returns for a string that holds a character
/// outside ASCII.
pub uninterp spec fn unicode_lowercase(s: Seq<char>) -> Seq<char>;

/// What `str::to_lowercase` returns: on an ASCII string each uppercase
/// letter becomes its lowercase letter and every other character stays;
/// for any other string the result is named by `unicode_lowercase`.
pub open spec fn spec_lowercase(s: Seq<char>) -> Seq<char> {
    if all_ascii(s) {
        s.map_values(|c: char| ascii_lower(c))
    } else {
        unicode_lowercase(s)
    }
}

/// What `char::is_alphanumeric` returns for a character outside ASCII.
pub uninterp spec fn unicode_is_alphanumeric(c: char) -> bool;

/// What `char::is_alphanumeric` returns: an ASCII character is
/// alphanumeric exactly when it is a letter or a decimal digit; beyond ASCII
/// the answer is named by `unicode_is_alphanumeric`.
pub open spec fn spec_is_alphanumeric(c: char) -> bool {
    if is_ascii_char(c) {
        ('a' <= c && c <= 'z') || ('A' <= c && c <= 'Z') || ('0' <= c && c <= '9')
    } else {
        unicode_is_alphanumeric(c)
    }
}

/// Calls `str::trim`, which removes the leading and trailing characters
/// with the Unicode `White_Space` property, the property `char::is_whitespace`
/// tests (see `spec_trim` and `spec_is_whitespace`).
#[verifier::external_body]
pub(crate) fn trim(s: &str) -> (r: &str)
    ensures
        r@ == spec_trim(s@),
{
    s.trim()
}

/// Calls `str::to_lowercase`. On an ASCII string the result is stated (see
/// `spec_lowercase`); for other strings it is named by `unicode_lowercase`
/// and the Unicode case mapping is not stated.
#[verifier::external_body]
pub(crate) fn to_lowercase(s: &str) -> (r: String)
    ensures
        r@ == spec_lowercase(s@),
        !all_ascii(s@) ==> r@ == unicode_lowercase(s@),
{
    s.to_lowercase()
}

/// Calls `char::is_alphanumeric` (Unicode `Alphabetic` or `Numeric`); on
/// ASCII its answer is stated (see `spec_is_alphanumeric`), beyond ASCII it
/// is named by `unicode_is_alphanumeric` and the Unicode tables are not
/// stated.
#[verifier::external_body]
pub(crate) fn is_alphanumeric(c: char) -> (r: bool)
    ensures
        r == spec_is_alphanumeric(c),
        !is_ascii_char(c) ==> r == unicode_is_alphanumeric(c),
{
    c.is_alphanumeric()
}

/// Calls `String::from_iter` on the characters: the string holding them.
#[verifier::external_body]
pub(crate) fn string_from_chars(cs: &Vec<char>) -> (r: String)
    ensures
        r@ == cs@,
{
    cs.iter().collect()
}

/// The characters of `s`, in order.
pub fn chars_of(s: &str) -> (r: Vec<char>)
    ensures
        r@ == s@,
{
    let mut r: Vec<char> = Vec::new();
    for c in it: s.chars()
        invariant
            it.seq() == s@,
            r@ == it.seq().take(it.index() as int),
    {
        r.push(c);
    }
    assert(r@ == s@);
    r
}

/// Whether the character `c` occurs in `s`.
pub fn contains_char(s: &str, c: char) -> (r: bool)
    ensures
        r == s@.contains(c),
{
    let v = chars_of(s);
    let mut i: usize = 0;
    while i < v.len()
        invariant
            v@ == s@,
            i <= v.len(),
            forall|k: int| 0 <= k < i ==> v@[k] != c,
        decreases v.len() - i,
    {
        if v[i] == c {
            assert(s@[i as int] == c);
            return true;
        }
        i = i + 1;
    }
    false
}

/// Whether `s` begins with the character `c`.
pub fn starts_with_char(s: &str, c: char) -> (r: bool)
    ensures
        r == seq_starts_with(s@, c),
{
    let v = chars_of(s);
    v.len() > 0 && v[0] == c
}

/// Whether `s` ends with the character `c`.
pub fn ends_with_char(s: &str, c: char) -> (r: bool)
    ensures
        r == seq_ends_with(s@, c),
{
    let v = chars_of(s);
    v.len() > 0 && v[v.len() - 1] == c
}

/// Whether `v[start..start + p.len()]` equals `p`.
fn block_matches(v: &Vec<char>, start: usize, p: &Vec<char>) -> (r: bool)
    requires
        start + p.len() <= v.len(),
    ensures
        r == (v@.subrange(start as int, start + p.len()) == p@),
{
    let mut k: usize = 0;
    while k < p.len()
        invariant
            start + p.len() <= v.len(),
            k <= p.len(),
            forall|m: int| 0 <= m < k ==> v@[start + m] == p@[m],
        decreases p.len() - k,
    {
        if v[start + k] != p[k] {
            assert(v@.subrange(start as int, start + p.len())[k as int] != p@[k as int]);
            return false;
        }
        k = k + 1;
    }
    assert(v@.subrange(start as int, start + p.len()) =~= p@);
    true
}

/// Whether the characters of `p` occur as a contiguous block in `v`.
pub fn seq_contains_block(v: &Vec<char>, p: &Vec<char>) -> (r: bool)
    ensures
        r == seq_contains_sub(v@, p@),
{
    if p.len() > v.len() {
        return false;
    }
    let last = v.len() - p.len();
    let mut i: usize = 0;
    loop
        invariant
            last + p.len() == v.len(),
            i <= last,
            forall|k: int| 0 <= k < i ==> #[trigger] v@.subrange(k, k + p.len()) != p@,
        decreases last - i,
    {
        if block_matches(v, i, p) {
            return true;
        }
        if i == last {
            assert forall|k: int| 0 <= k && k + p.len() <= v.len() implies #[trigger] v@.subrange(
                k,
                k + p.len(),
            ) != p@ by {
                assert(k <= last);
            }
            return false;
        }
        i = i + 1;
    }
}

/// Whether `pat` occurs in `s` (the `str::contains` of a string pattern).
pub fn contains_str(s: &str, pat: &str) -> (r: bool)
    ensures
        r == seq_contains_sub(s@, pat@),
{
    let v = chars_of(s);
    let p = chars_of(pat);
    seq_contains_block(&v, &p)
}

/// Whether `a` and `b` hold the same characters.
pub fn str_eq(a: &str, b: &str) -> (r: bool)
    ensures
        r == (a@ == b@),
{
    a.to_owned() == b.to_owned()
}

/// A new `String` holding the characters of `s`.
pub fn string_of(s: &str) -> (r: String)
    ensures
        r@ == s@,
{
    s.to_owned()
}

/// The string `a` followed by `b`.
pub fn concat(a: &str, b: &str) -> (r: String)
    ensures
        r@ == a@ + b@,
{
    let mut r = a.to_owned();
    r.append(b);
    r
}

/// Whether `v` holds a string with the same characters as `x`.
pub fn contains_string(v: &Vec<String>, x: &str) -> (r: bool)
    ensures
        r == exists|k: int| 0 <= k < v@.len() && (#[trigger] v@[k])@ == x@,
{
    let xs = x.to_owned();
    let mut i: usize = 0;
    while i < v.len()
        invariant
            xs@ == x@,
            i <= v.len(),
            forall|k: int| 0 <= k < i ==> (#[trigger] v@[k])@ != x@,
        decreases v.len() - i,
    {
        if v[i] == xs {
            return true;
        }
        i = i + 1;
    }
    false
}

/// The pieces of `s` between occurrences of `sep` (like `str::split`).
pub open spec fn split_on(s: Seq<char>, sep: char) -> Seq<Seq<char>>
    decreases s.len(),
{
    if s.len() == 0 {
        seq![Seq::<char>::empty()]
    } else {
        let rest = split_on(s.drop_last(), sep);
        if s.last() == sep {
            rest.push(Seq::<char>::empty())
        } else {
            rest.update(rest.len() - 1, rest.last().push(s.last()))
        }
    }
}

/// `split_on` never yields an empty list.
pub proof fn lemma_split_nonempty(s: Seq<char>, sep: char)
    ensures
        split_on(s, sep).len() >= 1,
    decreases s.len(),
{
    if s.len() > 0 {
        lemma_split_nonempty(s.drop_last(), sep);
    }
}

/// The pieces joined back with `sep` between them.
pub open spec fn join_on(parts: Seq<Seq<char>>, sep: char) -> Seq<char>
    decreases parts.len(),
{
    if parts.len() <= 1 {
        if parts.len() == 1 { parts[0] } else { Seq::empty() }
    } else {
        join_on(parts.drop_last(), sep) + seq![sep] + parts.last()
    }
}

/// Splitting on `sep` and joining back with `sep` gives the text again, and
/// no piece holds `sep`.
pub proof fn lemma_split_join(s: Seq<char>, sep: char)
    ensures
        join_on(split_on(s, sep), sep) == s,
        forall|k: int| 0 <= k < split_on(s, sep).len() ==> !(#[trigger] split_on(s, sep)[k]).contains(sep),
    decreases s.len(),
{
    lemma_split_nonempty(s, sep);
    if s.len() == 0 {
        assert(split_on(s, sep) =~= seq![Seq::<char>::empty()]);
        assert(join_on(seq![Seq::<char>::empty()], sep) =~= s);
    } else {
        let d = s.drop_last();
        let c = s.last();
        lemma_split_join(d, sep);
        lemma_split_nonempty(d, sep);
        let p = split_on(d, sep);
        if c == sep {
            let q = p.push(Seq::<char>::empty());
            assert(q.drop_last() =~= p);
            assert(join_on(q, sep) =~= s);
            assert forall|k: int| 0 <= k < q.len() implies !(#[trigger] q[k]).contains(sep) by {
                if k < p.len() {
                    assert(q[k] == p[k]);
                }
            }
        } else {
            let q = p.update(p.len() - 1, p.last().push(c));
            if p.len() == 1 {
                assert(join_on(q, sep) == q[0]);
                assert(join_on(p, sep) == p[0]);
                assert(q[0] =~= s);
            } else {
                assert(q.drop_last() =~= p.drop_last());
                assert(join_on(q, sep) =~= join_on(p, sep).push(c));
                assert(join_on(p, sep).push(c) =~= s);
            }
            assert forall|k: int| 0 <= k < q.len() implies !(#[trigger] q[k]).contains(sep) by {
                if k < p.len() - 1 {
                    assert(q[k] == p[k]);
                } else {
                    assert(!p[k].contains(sep));
                    if q[k].contains(sep) {
                        let w = choose|w: int| 0 <= w < q[k].len() && q[k][w] == sep;
                        if w < p[k].len() {
                            assert(p[k][w] == sep);
                        }
                    }
                }
            }
        }
    }
}

/// Text without `sep` is a single piece.
pub proof fn lemma_split_single(s: Seq<char>, sep: char)
    requires
        !s.contains(sep),
    ensures
        split_on(s, sep) == seq![s],
    decreases s.len(),
{
    if s.len() == 0 {
        assert(s =~= Seq::<char>::empty());
        assert(split_on(s, sep) =~= seq![s]);
    } else {
        let d = s.drop_last();
        assert(!d.contains(sep)) by {
            if d.contains(sep) {
                let w = choose|w: int| 0 <= w < d.len() && d[w] == sep;
                assert(s[w] == sep);
            }
        }
        lemma_split_single(d, sep);
        assert(s[s.len() - 1] == s.last());
        assert(s.last() != sep);
        assert(d.push(s.last()) =~= s);
        assert(seq![d].update(0, s) =~= seq![s]);
    }
}

/// Splitting `x`, `sep`, `y` gives the pieces of `x` followed by those of
/// `y`.
pub proof fn lemma_split_concat(x: Seq<char>, y: Seq<char>, sep: char)
    ensures
        split_on(x + seq![sep] + y, sep) == split_on(x, sep) + split_on(y, sep),
    decreases y.len(),
{
    let xs = x + seq![sep];
    if y.len() == 0 {
        assert(xs + y =~= xs);
        assert(xs.drop_last() =~= x);
        assert(split_on(y, sep) =~= seq![Seq::<char>::empty()]);
        assert(split_on(x, sep).push(Seq::<char>::empty()) =~= split_on(x, sep) + split_on(y, sep));
    } else {
        let yd = y.drop_last();
        let c = y.last();
        lemma_split_concat(x, yd, sep);
        lemma_split_nonempty(yd, sep);
        assert((xs + y).drop_last() =~= xs + yd);
        assert((xs + y).last() == c);
        let a = split_on(x, sep);
        let b = split_on(yd, sep);
        if c == sep {
            assert((a + b).push(Seq::<char>::empty()) =~= a + b.push(Seq::<char>::empty()));
        } else {
            let ab = a + b;
            assert(ab.last() == b.last());
            assert(ab.update(ab.len() - 1, ab.last().push(c)) =~= a + b.update(b.len() - 1, b.last().push(c)));
        }
    }
}

/// The pieces of `v` between occurrences of `sep`, each as a vector of
/// characters.
pub fn split_chars(v: &Vec<char>, sep: char) -> (r: Vec<Vec<char>>)
    ensures
        r@.len() == split_on(v@, sep).len(),
        forall|k: int| 0 <= k < r@.len() ==> (#[trigger] r@[k])@ == split_on(v@, sep)[k],
{
    let mut done: Vec<Vec<char>> = Vec::new();
    let mut cur: Vec<char> = Vec::new();
    let mut i: usize = 0;
    while i < v.len()
        invariant
            i <= v.len(),
            done@.len() + 1 == split_on(v@.take(i as int), sep).len(),
            forall|k: int| 0 <= k < done@.len() ==> (#[trigger] done@[k])@ == split_on(v@.take(i as int), sep)[k],
            cur@ == split_on(v@.take(i as int), sep).last(),
        decreases v.len() - i,
    {
        let c = v[i];
        let ghost pre = v@.take(i as int);
        proof {
            lemma_split_nonempty(pre, sep);
            assert(v@.take(i + 1).drop_last() =~= pre);
            assert(v@.take(i + 1).last() == c);
        }
        if c == sep {
            done.push(cur);
            cur = Vec::new();
        } else {
            cur.push(c);
        }
        i = i + 1;
    }
    assert(v@.take(v.len() as int) =~= v@);
    done.push(cur);
    done
}

/// The decimal digit `d` (0 to 9) as a character.
pub open spec fn digit_char(d: int) -> char {
    if d == 0 {
        '0'
    } else if d == 1 {
        '1'
    } else if d == 2 {
        '2'
    } else if d == 3 {
        '3'
    } else if d == 4 {
        '4'
    } else if d == 5 {
        '5'
    } else if d == 6 {
        '6'
    } else if d == 7 {
        '7'
    } else if d == 8 {
        '8'
    } else {
        '9'
    }
}

/// The decimal representation of `n`, without leading zeros.
pub open spec fn decimal(n: nat) -> Seq<char>
    decreases n,
{
    if n < 10 {
        seq![digit_char(n as int)]
    } else {
        decimal(n / 10).push(digit_char((n % 10) as int))
    }
}

pub(crate) fn digit(d: u64) -> (r: char)
    requires
        d < 10,
    ensures
        r == digit_char(d as int),
{
    if d == 0 {
        '0'
    } else if d == 1 {
        '1'
    } else if d == 2 {
        '2'
    } else if d == 3 {
        '3'
    } else if d == 4 {
        '4'
    } else if d == 5 {
        '5'
    } else if d == 6 {
        '6'
    } else if d == 7 {
        '7'
    } else if d == 8 {
        '8'
    } else {
        '9'
    }
}

fn decimal_chars(n: u64) -> (r: Vec<char>)
    ensures
        r@ == decimal(n as nat),
    decreases n,
{
    if n < 10 {
        let mut v: Vec<char> = Vec::new();
        v.push(digit(n));
        assert(v@ =~= decimal(n as nat));
        v
    } else {
        let mut v = decimal_chars(n / 10);
        v.push(digit(n % 10));
        v
    }
}

/// `n` written in decimal.
pub fn decimal_string(n: u64) -> (r: String)
    ensures
        r@ == decimal(n as nat),
{
    string_from_chars(&decimal_chars(n))
}

/// What `char::is_whitespace` returns for a character outside ASCII.
pub uninterp spec fn unicode_is_whitespace(c: char) -> bool;

/// What `char::is_whitespace` returns: among the ASCII characters exactly
/// the space and `'\t'`, `'\n'`, `'\x0B'`, `'\x0C'`, `'\r'` have the
/// Unicode `White_Space` property; beyond ASCII the answer is named by
/// `unicode_is_whitespace`.
pub open spec fn spec_is_whitespace(c: char) -> bool {
    if is_ascii_char(c) {
        c == ' ' || ('\t' <= c && c <= '\r')
    } else {
        unicode_is_whitespace(c)
    }
}

/// Calls `char::is_whitespace` (Unicode `White_Space`); on ASCII its
/// answer is stated (see `spec_is_whitespace`), beyond ASCII it is named by
/// `unicode_is_whitespace` and the Unicode table is not stated.
#[verifier::external_body]
pub(crate) fn is_whitespace(c: char) -> (r: bool)
    ensures
        r == spec_is_whitespace(c),
        !is_ascii_char(c) ==> r == unicode_is_whitespace(c),
{
    c.is_whitespace()
}

/// The maximal runs of non-whitespace characters of `s`, in order (like
/// `str::split_whitespace`).
pub open spec fn words(s: Seq<char>) -> Seq<Seq<char>>
    decreases s.len(),
{
    if s.len() == 0 {
        Seq::empty()
    } else {
        let w = words(s.drop_last());
        let c = s.last();
        if spec_is_whitespace(c) {
            w
        } else if s.len() >= 2 && !spec_is_whitespace(s[s.len() - 2]) {
            w.update(w.len() - 1, w.last().push(c))
        } else {
            w.push(seq![c])
        }
    }
}

proof fn lemma_words_nonempty(s: Seq<char>)
    requires
        s.len() > 0,
        !spec_is_whitespace(s.last()),
    ensures
        words(s).len() > 0,
        words(s).last().len() > 0,
    decreases s.len(),
{
    let d = s.drop_last();
    if s.len() >= 2 && !spec_is_whitespace(s[s.len() - 2]) {
        assert(d.last() == s[s.len() - 2]);
        lemma_words_nonempty(d);
    }
}

/// The whitespace-separated words of `s`.
pub fn split_words(s: &str) -> (r: Vec<String>)
    ensures
        r@.map_values(|w: String| w@) == words(s@),
{
    let cs = chars_of(s);
    let mut done: Vec<String> = Vec::new();
    let mut cur: Vec<char> = Vec::new();
    let mut in_word = false;
    let mut i: usize = 0;
    while i < cs.len()
        invariant
            cs@ == s@,
            i <= cs@.len(),
            in_word == (i > 0 && !spec_is_whitespace(cs@[i - 1])),
            !in_word ==> cur@.len() == 0,
            in_word ==> words(cs@.take(i as int)) == done@.map_values(|w: String| w@).push(cur@),
            !in_word ==> words(cs@.take(i as int)) == done@.map_values(|w: String| w@),
        decreases cs.len() - i,
    {
        let c = cs[i];
        let ghost pre = cs@.take(i as int);
        let ghost dv = done@.map_values(|w: String| w@);
        proof {
            assert(cs@.take(i + 1).drop_last() =~= pre);
            assert(cs@.take(i + 1).last() == c);
            if i > 0 {
                assert(cs@.take(i + 1)[i - 1] == cs@[i - 1]);
            }
        }
        if is_whitespace(c) {
            if in_word {
                let w = string_from_chars(&cur);
                done.push(w);
                cur = Vec::new();
                assert(done@.map_values(|w: String| w@) =~= dv.push(words(pre).last()));
            }
            in_word = false;
        } else {
            let ghost old_cur = cur@;
            cur.push(c);
            if in_word {
                proof {
                    assert(words(pre) == dv.push(old_cur));
                    assert(words(cs@.take(i + 1)) == words(pre).update(words(pre).len() - 1, words(pre).last().push(c)));
                    assert(cur@ == old_cur.push(c));
                    assert(words(pre).len() == dv.len() + 1);
                    assert(words(pre).last() == old_cur);
                    assert(dv.push(old_cur).update(dv.len() as int, old_cur.push(c)) =~= dv.push(cur@));
                    assert(words(pre).update(words(pre).len() - 1, words(pre).last().push(c))
                        == dv.push(old_cur).update(dv.len() as int, old_cur.push(c)));
                    assert(words(cs@.take(i + 1)) == dv.push(cur@));
                }
            } else {
                proof {
                    assert(cur@ =~= seq![c]);
                    assert(words(pre) == dv);
                    assert(words(cs@.take(i + 1)) == words(pre).push(seq![c]));
                    assert(words(cs@.take(i + 1)) =~= dv.push(cur@));
                }
            }
            in_word = true;
        }
        i = i + 1;
    }
    proof {
        assert(cs@.take(cs@.len() as int) =~= cs@);
    }
    if in_word {
        let ghost dv = done@.map_values(|w: String| w@);
        let w = string_from_chars(&cur);
        done.push(w);
        assert(done@.map_values(|w: String| w@) =~= dv.push(cur@));
    }
    done
}

/// The value of a run of decimal digits.
pub open spec fn digits_value(ds: Seq<char>) -> nat
    decreases ds.len(),
{
    if ds.len() == 0 {
        0
    } else {
        digits_value(ds.drop_last()) * 10 + ((ds.last() as int - '0' as int) as nat)
    }
}

/// Every character is an ASCII digit.
pub open spec fn all_digits(ds: Seq<char>) -> bool {
    forall|i: int| 0 <= i < ds.len() ==> is_ascii_digit_spec(#[trigger] ds[i])
}

/// What `str::parse::<u32>` gives: an optional `+`, then at least one ASCII
/// digit and nothing else, for a value that fits in a `u32`.
pub open spec fn parsed_u32(s: Seq<char>) -> Option<u32> {
    let ds = if s.len() > 0 && s[0] == '+' { s.subrange(1, s.len() as int) } else { s };
    if ds.len() > 0 && all_digits(ds) && digits_value(ds) <= u32::MAX {
        Some(digits_value(ds) as u32)
    } else {
        None
    }
}

proof fn lemma_digits_value_grows(ds: Seq<char>)
    requires
        all_digits(ds),
    ensures
        forall|k: int| 0 <= k <= ds.len() ==> digits_value(#[trigger] ds.take(k)) <= digits_value(ds),
    decreases ds.len(),
{
    if ds.len() > 0 {
        let d = ds.drop_last();
        assert(all_digits(d)) by {
            assert forall|i: int| 0 <= i < d.len() implies is_ascii_digit_spec(#[trigger] d[i]) by {
                assert(d[i] == ds[i]);
            }
        }
        lemma_digits_value_grows(d);
        assert forall|k: int| 0 <= k <= ds.len() implies digits_value(#[trigger] ds.take(k)) <= digits_value(ds) by {
            if k == ds.len() {
                assert(ds.take(k) =~= ds);
            } else {
                assert(ds.take(k) =~= d.take(k));
            }
        }
    }
}

/// Parse a `u32` the way `str::parse` does (see `parsed_u32`).
pub fn parse_u32(s: &str) -> (r: Option<u32>)
    ensures
        r == parsed_u32(s@),
{
    let cs = chars_of(s);
    let start: usize = if cs.len() > 0 && cs[0] == '+' { 1 } else { 0 };
    let ghost ds = if s@.len() > 0 && s@[0] == '+' { s@.subrange(1, s@.len() as int) } else { s@ };
    if start >= cs.len() {
        assert(ds.len() == 0);
        return None;
    }
    let mut v: u64 = 0;
    let mut i: usize = start;
    while i < cs.len()
        invariant
            cs@ == s@,
            start <= i <= cs@.len(),
            start as int + ds.len() == cs@.len(),
            ds == (if s@.len() > 0 && s@[0] == '+' { s@.subrange(1, s@.len() as int) } else { s@ }),
            forall|k: int| 0 <= k < ds.len() ==> ds[k] == cs@[start + k],
            all_digits(ds.take(i - start)),
            v == digits_value(ds.take(i - start)),
            v <= u32::MAX,
        decreases cs.len() - i,
    {
        let c = cs[i];
        let ghost pre = ds.take(i - start);
        proof {
            assert(ds.take(i - start + 1).drop_last() =~= pre);
            assert(ds.take(i - start + 1).last() == c);
        }
        if !('0' <= c && c <= '9') {
            proof {
                assert(!all_digits(ds)) by {
                    assert(ds[i - start] == c);
                }
            }
            return None;
        }
        let d = (c as u32 - '0' as u32) as u64;
        let nv = v * 10 + d;
        proof {
            assert(all_digits(ds.take(i - start + 1))) by {
                assert forall|k: int| 0 <= k < i - start + 1 implies is_ascii_digit_spec(#[trigger] ds.take(i - start + 1)[k]) by {
                    if k < i - start {
                        assert(ds.take(i - start + 1)[k] == pre[k]);
                    }
                }
            }
        }
        if nv > 4294967295 {
            proof {
                if all_digits(ds) {
                    lemma_digits_value_grows(ds);
                    assert(digits_value(ds.take(i - start + 1)) <= digits_value(ds));
                }
            }
            return None;
        }
        v = nv;
        i = i + 1;
    }
    proof {
        assert(ds.take(i - start) =~= ds);
    }
    Some(v as u32)
}

} // verus!
