//! Removal of descriptions, comments and directive usages from SDL text.
//!
//! Four passes run one after the other, each over the output of the one
//! before: block descriptions (`"""..."""`, may span lines), single-line
//! quoted strings (`"..."`, which also blanks string default values), `#`
//! line comments, and `@directive(...)` usages. Each pass replaces every
//! match with one space and copies every other character.
use vstd::prelude::*;
use crate::classes::{ident_start_char, is_ident_start};
use crate::scan::{
    find_char, find_char_exec, lemma_find_char, lemma_run_end, run_end, run_end_exec, Class,
};

verus! {

/// The four passes, in the order they run.
#[derive(Clone, Copy)]
pub enum Pass {
    Blocks,
    Quotes,
    Comments,
    Directives,
}

/// `"""` starts at `i`.
pub open spec fn triple_at(s: Seq<char>, i: int) -> bool {
    0 <= i && i + 3 <= s.len() && s[i] == '"' && s[i + 1] == '"' && s[i + 2] == '"'
}

/// First `"""` that starts at or after `j`.
pub open spec fn next_triple(s: Seq<char>, j: int) -> Option<int>
    decreases s.len() - j,
{
    if 0 <= j && j + 3 <= s.len() {
        if triple_at(s, j) {
            Some(j)
        } else {
            next_triple(s, j + 1)
        }
    } else {
        None
    }
}

/// Index of the `"` that closes a single-line string whose content starts at
/// `j`: the first `"` before any line break.
pub open spec fn quote_close(s: Seq<char>, j: int) -> Option<int>
    decreases s.len() - j,
{
    if 0 <= j < s.len() {
        if s[j] == '"' {
            Some(j)
        } else if s[j] == '\n' {
            None
        } else {
            quote_close(s, j + 1)
        }
    } else {
        None
    }
}

/// End of the line that contains `j`: the next line break, or the end of the text.
pub open spec fn line_end(s: Seq<char>, j: int) -> int {
    match find_char(s, j, '\n') {
        Some(k) => k,
        None => s.len() as int,
    }
}

/// `"""` at `i` up to the first `"""` after it.
pub open spec fn block_match(s: Seq<char>, i: int) -> Option<int> {
    if triple_at(s, i) {
        match next_triple(s, i + 3) {
            Some(k) => Some(k + 3),
            None => None,
        }
    } else {
        None
    }
}

/// `"` at `i` up to the next `"` on the same line.
pub open spec fn quote_match(s: Seq<char>, i: int) -> Option<int> {
    if 0 <= i < s.len() && s[i] == '"' {
        match quote_close(s, i + 1) {
            Some(k) => Some(k + 1),
            None => None,
        }
    } else {
        None
    }
}

/// `#` at `i` up to the end of its line.
pub open spec fn comment_match(s: Seq<char>, i: int) -> Option<int> {
    if 0 <= i < s.len() && s[i] == '#' {
        Some(line_end(s, i + 1))
    } else {
        None
    }
}

/// `@name`, the whitespace after it, and a parenthesised argument list if one follows.
pub open spec fn directive_match(s: Seq<char>, i: int) -> Option<int> {
    if 0 <= i && i + 1 < s.len() && s[i] == '@' && is_ident_start(s[i + 1]) {
        let a = run_end(s, i + 2, Class::Ident);
        let b = run_end(s, a, Class::Space);
        if b < s.len() && s[b] == '(' && find_char(s, b + 1, ')') is Some {
            Some(find_char(s, b + 1, ')')->0 + 1)
        } else {
            Some(b)
        }
    } else {
        None
    }
}

/// Where the match of pass `p` that starts at `i` ends, if one starts there.
pub open spec fn pass_match(s: Seq<char>, i: int, p: Pass) -> Option<int> {
    match p {
        Pass::Blocks => block_match(s, i),
        Pass::Quotes => quote_match(s, i),
        Pass::Comments => comment_match(s, i),
        Pass::Directives => directive_match(s, i),
    }
}

/// The output of pass `p` for the text from `i` on.
pub open spec fn apply_pass(s: Seq<char>, i: int, p: Pass) -> Seq<char>
    decreases s.len() - i,
{
    if 0 <= i < s.len() {
        if pass_match(s, i, p) is Some {
            proof {
                lemma_pass_match(s, i, p);
            }
            seq![' '] + apply_pass(s, pass_match(s, i, p)->0, p)
        } else {
            seq![s[i]] + apply_pass(s, i + 1, p)
        }
    } else {
        seq![]
    }
}

/// The text the structural scan sees: all four passes applied in order.
pub open spec fn clean_spec(s: Seq<char>) -> Seq<char> {
    let a = apply_pass(s, 0, Pass::Blocks);
    let b = apply_pass(a, 0, Pass::Quotes);
    let c = apply_pass(b, 0, Pass::Comments);
    apply_pass(c, 0, Pass::Directives)
}

pub proof fn lemma_next_triple(s: Seq<char>, j: int)
    requires
        0 <= j,
    ensures
        next_triple(s, j) matches Some(k) ==> j <= k && triple_at(s, k),
    decreases s.len() - j,
{
    if j + 3 <= s.len() && !triple_at(s, j) {
        lemma_next_triple(s, j + 1);
    }
}

pub proof fn lemma_quote_close(s: Seq<char>, j: int)
    requires
        0 <= j,
    ensures
        quote_close(s, j) matches Some(k) ==> j <= k < s.len(),
    decreases s.len() - j,
{
    if j < s.len() && s[j] != '"' && s[j] != '\n' {
        lemma_quote_close(s, j + 1);
    }
}

/// A match is never empty and never runs past the end of the text.
pub proof fn lemma_pass_match(s: Seq<char>, i: int, p: Pass)
    requires
        0 <= i < s.len(),
    ensures
        pass_match(s, i, p) matches Some(e) ==> i < e <= s.len(),
{
    match p {
        Pass::Blocks => {
            lemma_next_triple(s, i + 3);
        },
        Pass::Quotes => {
            lemma_quote_close(s, i + 1);
        },
        Pass::Comments => {
            lemma_find_char(s, i + 1, '\n');
        },
        Pass::Directives => {
            if i + 1 < s.len() && s[i] == '@' && is_ident_start(s[i + 1]) {
                lemma_run_end(s, i + 2, Class::Ident);
                let a = run_end(s, i + 2, Class::Ident);
                lemma_run_end(s, a, Class::Space);
                let b = run_end(s, a, Class::Space);
                if b < s.len() {
                    lemma_find_char(s, b + 1, ')');
                }
            }
        },
    }
}

fn next_triple_exec(s: &Vec<char>, j: usize) -> (r: Option<usize>)
    ensures
        r matches Some(k) ==> next_triple(s@, j as int) == Some(k as int),
        r is None ==> next_triple(s@, j as int) is None,
{
    let mut i = j;
    while i < s.len() && s.len() - i >= 3
        invariant
            j <= i,
            next_triple(s@, j as int) == next_triple(s@, i as int),
        decreases s.len() - i,
    {
        if s[i] == '"' && s[i + 1] == '"' && s[i + 2] == '"' {
            return Some(i);
        }
        i += 1;
    }
    None
}

fn quote_close_exec(s: &Vec<char>, j: usize) -> (r: Option<usize>)
    ensures
        r matches Some(k) ==> quote_close(s@, j as int) == Some(k as int),
        r is None ==> quote_close(s@, j as int) is None,
{
    let mut i = j;
    while i < s.len()
        invariant
            j <= i,
            quote_close(s@, j as int) == quote_close(s@, i as int),
        decreases s.len() - i,
    {
        if s[i] == '"' {
            return Some(i);
        } else if s[i] == '\n' {
            return None;
        }
        i += 1;
    }
    None
}

fn pass_match_exec(s: &Vec<char>, i: usize, p: Pass) -> (r: Option<usize>)
    requires
        i < s.len(),
    ensures
        r matches Some(e) ==> pass_match(s@, i as int, p) == Some(e as int),
        r is None ==> pass_match(s@, i as int, p) is None,
{
    match p {
        Pass::Blocks => {
            if s.len() - i >= 3 && s[i] == '"' && s[i + 1] == '"' && s[i + 2] == '"' {
                match next_triple_exec(s, i + 3) {
                    Some(k) => {
                        proof {
                            lemma_next_triple(s@, i + 3);
                        }
                        Some(k + 3)
                    },
                    None => None,
                }
            } else {
                None
            }
        },
        Pass::Quotes => {
            if s[i] == '"' {
                match quote_close_exec(s, i + 1) {
                    Some(k) => {
                        proof {
                            lemma_quote_close(s@, i + 1);
                        }
                        Some(k + 1)
                    },
                    None => None,
                }
            } else {
                None
            }
        },
        Pass::Comments => {
            if s[i] == '#' {
                match find_char_exec(s, i + 1, '\n') {
                    Some(k) => Some(k),
                    None => Some(s.len()),
                }
            } else {
                None
            }
        },
        Pass::Directives => {
            if i + 1 < s.len() && s[i] == '@' && ident_start_char(s[i + 1]) {
                let a = run_end_exec(s, i + 2, Class::Ident);
                let b = run_end_exec(s, a, Class::Space);
                if b < s.len() && s[b] == '(' {
                    match find_char_exec(s, b + 1, ')') {
                        Some(k) => {
                            proof {
                                lemma_find_char(s@, b + 1, ')');
                            }
                            Some(k + 1)
                        },
                        None => Some(b),
                    }
                } else {
                    Some(b)
                }
            } else {
                None
            }
        },
    }
}

/// Runs pass `p` over the whole of `s`.
pub fn run_pass(s: &Vec<char>, p: Pass) -> (out: Vec<char>)
    ensures
        out@ == apply_pass(s@, 0, p),
{
    let mut out: Vec<char> = Vec::new();
    let mut i: usize = 0;
    while i < s.len()
        invariant
            i <= s.len(),
            apply_pass(s@, 0, p) == out@ + apply_pass(s@, i as int, p),
        decreases s.len() - i,
    {
        proof {
            lemma_pass_match(s@, i as int, p);
        }
        match pass_match_exec(s, i, p) {
            Some(e) => {
                assert(out@.push(' ') + apply_pass(s@, e as int, p) == out@ + (seq![' ']
                    + apply_pass(s@, e as int, p)));
                out.push(' ');
                i = e;
            },
            None => {
                assert(out@.push(s@[i as int]) + apply_pass(s@, i + 1, p) == out@ + (seq![
                    s@[i as int],
                ] + apply_pass(s@, i + 1, p)));
                out.push(s[i]);
                i += 1;
            },
        }
    }
    assert(out@ + apply_pass(s@, i as int, p) == out@);
    out
}

/// Strips block descriptions, quoted strings, line comments and directive
/// usages, in that order, replacing each with one space.
pub fn clean(s: &Vec<char>) -> (out: Vec<char>)
    ensures
        out@ == clean_spec(s@),
{
    let a = run_pass(s, Pass::Blocks);
    let b = run_pass(&a, Pass::Quotes);
    let c = run_pass(&b, Pass::Comments);
    run_pass(&c, Pass::Directives)
}

/// No `"`, `#` or `@` anywhere in `s`.
pub open spec fn plain(s: Seq<char>) -> bool {
    forall|i: int| 0 <= i < s.len() ==> #[trigger] s[i] != '"' && s[i] != '#' && s[i] != '@'
}

proof fn lemma_pass_keeps_plain(s: Seq<char>, i: int, p: Pass)
    requires
        plain(s),
        0 <= i <= s.len(),
    ensures
        apply_pass(s, i, p) == s.skip(i),
    decreases s.len() - i,
{
    if i < s.len() {
        assert(s[i] != '"' && s[i] != '#' && s[i] != '@');
        lemma_pass_keeps_plain(s, i + 1, p);
        assert(s.skip(i) == seq![s[i]] + s.skip(i + 1));
    } else {
        assert(s.skip(i) == Seq::<char>::empty());
    }
}

/// Text with no `"`, `#` or `@` holds no description, string, comment or
/// directive: cleaning leaves it exactly as it is.
pub proof fn lemma_clean_keeps_plain_text(s: Seq<char>)
    requires
        plain(s),
    ensures
        clean_spec(s) == s,
{
    assert(s.skip(0) == s);
    lemma_pass_keeps_plain(s, 0, Pass::Blocks);
    lemma_pass_keeps_plain(s, 0, Pass::Quotes);
    lemma_pass_keeps_plain(s, 0, Pass::Comments);
    lemma_pass_keeps_plain(s, 0, Pass::Directives);
}

} // verus!
