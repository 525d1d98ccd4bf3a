//! Task names. Tasks live in a dot-separated namespace (`frontend.build`);
//! the command line and the display layer use `:` as the separator
//! (`frontend:build`). These functions translate between the two forms and
//! resolve a child reference relative to its parent namespace.
use crate::strutil::{chars_string, str_chars, trimmed, trimmed_range};
use vstd::prelude::*;

verus! {

/// The character a query character is normalized to: `:` becomes `.`.
pub open spec fn norm_char(c: char) -> char {
    if c == ':' {
        '.'
    } else {
        c
    }
}

/// The character a stored name character is displayed as: `.` becomes `:`.
pub open spec fn disp_char(c: char) -> char {
    if c == '.' {
        ':'
    } else {
        c
    }
}

/// The normalized form of a task query: separators mapped to `.`, outer
/// whitespace removed.
pub open spec fn normalized_query(s: Seq<char>) -> Seq<char> {
    trimmed(s.map_values(|c: char| norm_char(c)))
}

/// The display form of a stored task name: `.` mapped to `:`.
pub open spec fn displayed_name(s: Seq<char>) -> Seq<char> {
    s.map_values(|c: char| disp_char(c))
}

/// The resolution of a child reference against a parent namespace: a child
/// that mentions a separator is absolute, otherwise it is nested under the
/// parent.
pub open spec fn resolved_child(p: Seq<char>, c: Seq<char>) -> Seq<char> {
    let cn = normalized_query(c);
    if cn.contains('.') {
        cn
    } else if p.len() == 0 {
        cn
    } else {
        p + seq!['.'] + cn
    }
}

/// Normalize a user-supplied task query to the internal dotted key form:
/// every `:` becomes `.`, and surrounding whitespace is dropped.
pub fn normalize_task_query(s: &str) -> (r: String)
    ensures
        r@ == normalized_query(s@),
{
    let cs = str_chars(s);
    let mut v: Vec<char> = Vec::new();
    let mut i: usize = 0;
    while i < cs.len()
        invariant
            i <= cs@.len(),
            cs@ == s@,
            v@ == cs@.subrange(0, i as int).map_values(|c: char| norm_char(c)),
        decreases cs@.len() - i,
    {
        let c = cs[i];
        if c == ':' {
            v.push('.');
        } else {
            v.push(c);
        }
        i = i + 1;
        proof {
            assert(v@ =~= cs@.subrange(0, i as int).map_values(|c: char| norm_char(c)));
        }
    }
    proof {
        assert(cs@.subrange(0, cs@.len() as int) =~= cs@);
    }
    let bounds = trimmed_range(v.as_slice());
    chars_string(&v.as_slice()[bounds.0..bounds.1])
}

/// Render a stored dotted task name in its user-facing form, with `:`
/// between the namespace components.
pub fn display_task_name(s: &str) -> (r: String)
    ensures
        r@ == displayed_name(s@),
{
    let cs = str_chars(s);
    let mut v: Vec<char> = Vec::new();
    let mut i: usize = 0;
    while i < cs.len()
        invariant
            i <= cs@.len(),
            cs@ == s@,
            v@ == cs@.subrange(0, i as int).map_values(|c: char| disp_char(c)),
        decreases cs@.len() - i,
    {
        let c = cs[i];
        if c == '.' {
            v.push(':');
        } else {
            v.push(c);
        }
        i = i + 1;
        proof {
            assert(v@ =~= cs@.subrange(0, i as int).map_values(|c: char| disp_char(c)));
        }
    }
    proof {
        assert(cs@.subrange(0, cs@.len() as int) =~= cs@);
    }
    chars_string(v.as_slice())
}

fn contains_dot(s: &str) -> (r: bool)
    ensures
        r == s@.contains('.'),
{
    let cs = str_chars(s);
    let mut i: usize = 0;
    while i < cs.len()
        invariant
            i <= cs@.len(),
            cs@ == s@,
            forall|j: int| 0 <= j < i ==> cs@[j] != '.',
        decreases cs@.len() - i,
    {
        if cs[i] == '.' {
            return true;
        }
        i = i + 1;
    }
    false
}

/// Resolve a child task reference relative to a parent namespace.
/// A child that mentions a separator (`.` or `:`) is treated as absolute;
/// otherwise it is appended to the parent's name with a dot.
pub fn resolve_child_name(parent: &str, child: &str) -> (r: String)
    ensures
        r@ == resolved_child(parent@, child@),
{
    let cn = normalize_task_query(child);
    if contains_dot(cn.as_str()) {
        cn
    } else if parent.is_empty() {
        cn
    } else {
        let mut r = parent.to_owned();
        r.append(".");
        r.append(cn.as_str());
        proof {
            reveal_strlit(".");
            assert("."@ =~= seq!['.']);
        }
        r
    }
}

} // verus!
