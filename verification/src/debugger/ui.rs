//! The debugger panel's decisions: when it is offered, what it shows of
//! the debugger's output, and which breakpoint its form asks for.

use vstd::prelude::*;
use crate::debugger::rust_project::{find_rust_project_root, no_root_above, root_found_at, search_start};
use crate::paths::{path_is_absolute, path_join, spec_path_is_absolute, spec_path_join};
use crate::text::{
    chars_of, parse_u32, parsed_u32, seq_has_prefix, seq_has_suffix, seq_starts_with,
    starts_with_char, string_from_chars, string_of,
};
use crate::completion::ui::{chars_between, has_prefix};

verus! {

/// The debugger is offered inside a Rust project: exactly when
/// `find_rust_project_root` finds a project root above `path`
/// (`path_is_file` and `manifest_exists` are the disk's answers, as there).
pub fn should_show_debugger<F: Fn(&str) -> bool>(path: &str, path_is_file: bool, manifest_exists: F) -> (r: bool)
    requires
        forall|m: &str| manifest_exists.requires((m,)),
    ensures
        match search_start(path@, path_is_file) {
            None => !r,
            Some(st) => {
                &&& r ==> exists|k: nat, d: Seq<char>| #[trigger] root_found_at(manifest_exists, st, k, d)
                &&& !r ==> no_root_above(manifest_exists, st)
            },
        },
{
    match find_rust_project_root(path, path_is_file, manifest_exists) {
        Some(_) => true,
        None => false,
    }
}

// ---------------------------------------------------------------------------
// The debugger's output
// ---------------------------------------------------------------------------

/// `s` with every leading copy of `p` removed (`str::trim_start_matches`).
pub open spec fn trim_start_all(s: Seq<char>, p: Seq<char>) -> Seq<char>
    decreases s.len(),
{
    if p.len() > 0 && seq_has_prefix(s, p) {
        trim_start_all(s.skip(p.len() as int), p)
    } else {
        s
    }
}

/// `s` with every trailing copy of `p` removed (`str::trim_end_matches`).
pub open spec fn trim_end_all(s: Seq<char>, p: Seq<char>) -> Seq<char>
    decreases s.len(),
{
    if p.len() > 0 && seq_has_suffix(s, p) {
        trim_end_all(s.take(s.len() - p.len()), p)
    } else {
        s
    }
}

/// The message of a stream record (`~"..."` or `@"..."`): the line without
/// its leading `open` marks, trailing quotes and trailing `\n` escapes.
pub open spec fn stream_message(line: Seq<char>, open: Seq<char>) -> Seq<char> {
    trim_end_all(trim_end_all(trim_start_all(line, open), "\""@), "\\n"@)
}

/// What the panel shows for a line of the debugger's output, and whether
/// the debugger has exited: console output as it is, target output marked
/// `[target]`, stops and runs, errors marked `[Error]`, the exit; nothing
/// for other lines.
pub open spec fn output_display(line: Seq<char>) -> Option<(Seq<char>, bool)> {
    if seq_starts_with(line, '~') {
        Some((stream_message(line, "~\""@) + "\n"@, false))
    } else if seq_starts_with(line, '@') {
        Some(("[target] "@ + stream_message(line, "@\""@) + "\n"@, false))
    } else if seq_has_prefix(line, "*stopped"@) {
        Some(("[Stopped]\n"@, false))
    } else if seq_has_prefix(line, "*running"@) {
        Some(("[Running]\n"@, false))
    } else if seq_has_prefix(line, "^error"@) {
        Some(("[Error] "@ + line + "\n"@, false))
    } else if seq_has_prefix(line, "^exit"@) {
        Some(("[Debugger exited]\n"@, true))
    } else {
        None
    }
}

fn prefix_at(s: &Vec<char>, start: usize, p: &Vec<char>) -> (r: bool)
    requires
        start <= s@.len(),
    ensures
        r == seq_has_prefix(s@.skip(start as int), p@),
{
    let n = s.len();
    if p.len() > n - start {
        return false;
    }
    let mut k: usize = 0;
    while k < p.len()
        invariant
            n == s@.len(),
            start + p@.len() <= n,
            k <= p@.len(),
            forall|m: int| 0 <= m < k ==> s@[start + m] == p@[m],
        decreases p.len() - k,
    {
        if s[start + k] != p[k] {
            assert(s@.skip(start as int).subrange(0, p@.len() as int)[k as int] != p@[k as int]);
            return false;
        }
        k = k + 1;
    }
    assert(s@.skip(start as int).subrange(0, p@.len() as int) =~= p@);
    true
}

fn suffix_at(s: &Vec<char>, end: usize, p: &Vec<char>) -> (r: bool)
    requires
        end <= s@.len(),
    ensures
        r == seq_has_suffix(s@.take(end as int), p@),
{
    if p.len() > end {
        return false;
    }
    let start = end - p.len();
    let mut k: usize = 0;
    while k < p.len()
        invariant
            end <= s@.len(),
            start + p@.len() == end,
            k <= p@.len(),
            forall|m: int| 0 <= m < k ==> s@[start + m] == p@[m],
        decreases p.len() - k,
    {
        if s[start + k] != p[k] {
            assert(s@.take(end as int).subrange(start as int, end as int)[k as int] != p@[k as int]);
            return false;
        }
        k = k + 1;
    }
    assert(s@.take(end as int).subrange(start as int, end as int) =~= p@);
    true
}

fn trim_start_chars(s: &Vec<char>, p: &Vec<char>) -> (r: Vec<char>)
    requires
        p@.len() > 0,
    ensures
        r@ == trim_start_all(s@, p@),
{
    let n = s.len();
    let mut start: usize = 0;
    assert(s@.skip(0) =~= s@);
    while start < n && prefix_at(s, start, p)
        invariant
            n == s@.len(),
            p@.len() > 0,
            start <= n,
            trim_start_all(s@, p@) == trim_start_all(s@.skip(start as int), p@),
        decreases n - start,
    {
        assert(s@.skip(start as int).skip(p@.len() as int) =~= s@.skip(start + p@.len()));
        start = start + p.len();
    }
    if start >= n {
        assert(s@.skip(start as int) =~= Seq::<char>::empty());
    }
    let r = chars_between(s, start, n);
    assert(r@ =~= s@.skip(start as int));
    r
}

fn trim_end_chars(s: &Vec<char>, p: &Vec<char>) -> (r: Vec<char>)
    requires
        p@.len() > 0,
    ensures
        r@ == trim_end_all(s@, p@),
{
    let mut end: usize = s.len();
    assert(s@.take(end as int) =~= s@);
    while end > 0 && suffix_at(s, end, p)
        invariant
            end <= s@.len(),
            p@.len() > 0,
            trim_end_all(s@, p@) == trim_end_all(s@.take(end as int), p@),
        decreases end,
    {
        assert(s@.take(end as int).take(end - p@.len()) =~= s@.take(end - p@.len()));
        end = end - p.len();
    }
    if end == 0 {
        assert(s@.take(0) =~= Seq::<char>::empty());
    }
    let r = chars_between(s, 0, end);
    assert(r@ =~= s@.take(end as int));
    r
}

fn stream_message_of(line: &Vec<char>, open: &str) -> (r: Vec<char>)
    requires
        open@.len() > 0,
    ensures
        r@ == stream_message(line@, open@),
{
    proof {
        reveal_strlit("\"");
        reveal_strlit("\\n");
    }
    let a = trim_start_chars(line, &chars_of(open));
    let b = trim_end_chars(&a, &chars_of("\""));
    trim_end_chars(&b, &chars_of("\\n"))
}

fn joined(parts: &Vec<&str>) -> (r: String)
    ensures
        r@ == parts@.fold_left(Seq::<char>::empty(), |acc: Seq<char>, p: &str| acc + p@),
{
    let mut r = String::new();
    let mut i: usize = 0;
    while i < parts.len()
        invariant
            i <= parts@.len(),
            r@ == parts@.take(i as int).fold_left(Seq::<char>::empty(), |acc: Seq<char>, p: &str| acc + p@),
        decreases parts.len() - i,
    {
        proof {
            assert(parts@.take(i + 1).drop_last() =~= parts@.take(i as int));
        }
        r.append(parts[i]);
        i = i + 1;
    }
    assert(parts@.take(i as int) =~= parts@);
    r
}

/// What the panel shows for a line of the debugger's output (see
/// `output_display`).
pub fn display_output_line(line: &str) -> (r: Option<(String, bool)>)
    ensures
        match r {
            Some((t, exited)) => output_display(line@) == Some((t@, exited)),
            None => output_display(line@) is None,
        },
{
    proof {
        reveal_strlit("~\"");
        reveal_strlit("@\"");
    }
    let cs = chars_of(line);
    if starts_with_char(line, '~') {
        let msg = string_from_chars(&stream_message_of(&cs, "~\""));
        let parts = vec![msg.as_str(), "\n"];
        let t = joined(&parts);
        proof {
            reveal_with_fuel(Seq::fold_left, 3);
            assert(Seq::<char>::empty() + msg@ =~= msg@);
        }
        return Some((t, false));
    }
    if starts_with_char(line, '@') {
        let msg = string_from_chars(&stream_message_of(&cs, "@\""));
        let parts = vec!["[target] ", msg.as_str(), "\n"];
        let t = joined(&parts);
        proof {
            reveal_with_fuel(Seq::fold_left, 4);
            assert(Seq::<char>::empty() + "[target] "@ =~= "[target] "@);
        }
        return Some((t, false));
    }
    if has_prefix(line, "*stopped") {
        return Some((string_of("[Stopped]\n"), false));
    }
    if has_prefix(line, "*running") {
        return Some((string_of("[Running]\n"), false));
    }
    if has_prefix(line, "^error") {
        let parts = vec!["[Error] ", line, "\n"];
        let t = joined(&parts);
        proof {
            reveal_with_fuel(Seq::fold_left, 4);
            assert(Seq::<char>::empty() + "[Error] "@ =~= "[Error] "@);
        }
        return Some((t, false));
    }
    if has_prefix(line, "^exit") {
        return Some((string_of("[Debugger exited]\n"), true));
    }
    None
}

// ---------------------------------------------------------------------------
// The breakpoint form
// ---------------------------------------------------------------------------

/// The file a breakpoint is set in: relative names are taken from the
/// project root when a project is known.
pub open spec fn breakpoint_file(file: Seq<char>, root: Option<Seq<char>>) -> Seq<char> {
    match root {
        Some(r) => if spec_path_is_absolute(file) { file } else { spec_path_join(r, file) },
        None => file,
    }
}

/// What the breakpoint form asks for: an error when a field is empty or
/// the line is not a positive number, else the file and the line.
pub open spec fn breakpoint_request(file: Seq<char>, line: Seq<char>, root: Option<Seq<char>>) -> Result<(Seq<char>, u32), Seq<char>> {
    if file.len() == 0 || line.len() == 0 {
        Err("Error: Please enter both file and line number\n"@)
    } else {
        match parsed_u32(line) {
            Some(n) => if n > 0 {
                Ok((breakpoint_file(file, root), n))
            } else {
                Err("Error: Line must be a positive number\n"@)
            },
            None => Err("Error: Line must be a positive number\n"@),
        }
    }
}

/// The breakpoint the form asks for, given its file and line fields and
/// the project root, if a project is known (see `breakpoint_request`).
pub fn read_breakpoint_form(file_text: &str, line_text: &str, project_root: Option<&str>) -> (r: Result<(String, u32), String>)
    ensures
        match r {
            Ok((f, n)) => breakpoint_request(file_text@, line_text@, crate::extensions::native::opt_view(project_root)) == Ok::<(Seq<char>, u32), Seq<char>>((f@, n)),
            Err(e) => breakpoint_request(file_text@, line_text@, crate::extensions::native::opt_view(project_root)) == Err::<(Seq<char>, u32), Seq<char>>(e@),
        },
{
    if file_text.unicode_len() == 0 || line_text.unicode_len() == 0 {
        return Err(string_of("Error: Please enter both file and line number\n"));
    }
    let line = match parse_u32(line_text) {
        Some(n) => if n > 0 {
            n
        } else {
            return Err(string_of("Error: Line must be a positive number\n"));
        },
        None => {
            return Err(string_of("Error: Line must be a positive number\n"));
        },
    };
    let file = match project_root {
        Some(root) => if path_is_absolute(file_text) {
            string_of(file_text)
        } else {
            path_join(root, file_text)
        },
        None => string_of(file_text),
    };
    Ok((file, line))
}

} // verus!
