//! Character-level scanning of SDL text.
//!
//! Every matcher here is a pair: an `open spec fn` on `Seq<char>` that says
//! where a match starts and ends, and an executable function proved to
//! return exactly that. Matching follows leftmost-first semantics: a scan
//! tries each position in turn and, after a match, resumes at its end.
use vstd::prelude::*;
use crate::classes::{
    ident_char, is_ident_char, is_space, is_word, space_char, word_char,
};

verus! {

/// The character classes a run can be made of.
#[derive(Clone, Copy)]
pub enum Class {
    Space,
    Word,
    Ident,
}

pub open spec fn in_class(c: char, k: Class) -> bool {
    match k {
        Class::Space => is_space(c),
        Class::Word => is_word(c),
        Class::Ident => is_ident_char(c),
    }
}

fn class_test(c: char, k: Class) -> (b: bool)
    ensures
        b == in_class(c, k),
{
    match k {
        Class::Space => space_char(c),
        Class::Word => word_char(c),
        Class::Ident => ident_char(c),
    }
}

/// End of the longest run of class `k` that starts at `j`.
pub open spec fn run_end(s: Seq<char>, j: int, k: Class) -> int
    decreases s.len() - j,
{
    if 0 <= j < s.len() && in_class(s[j], k) {
        run_end(s, j + 1, k)
    } else {
        j
    }
}

/// First index at or after `j` that holds `c`.
pub open spec fn find_char(s: Seq<char>, j: int, c: char) -> Option<int>
    decreases s.len() - j,
{
    if 0 <= j < s.len() {
        if s[j] == c {
            Some(j)
        } else {
            find_char(s, j + 1, c)
        }
    } else {
        None
    }
}

pub proof fn lemma_run_end(s: Seq<char>, j: int, k: Class)
    requires
        0 <= j <= s.len(),
    ensures
        j <= run_end(s, j, k) <= s.len(),
        run_end(s, j, k) < s.len() ==> !in_class(s[run_end(s, j, k)], k),
        forall|m: int| j <= m < run_end(s, j, k) ==> in_class(#[trigger] s[m], k),
    decreases s.len() - j,
{
    if j < s.len() && in_class(s[j], k) {
        lemma_run_end(s, j + 1, k);
    }
}

pub proof fn lemma_find_char(s: Seq<char>, j: int, c: char)
    requires
        0 <= j,
    ensures
        find_char(s, j, c) matches Some(k) ==> j <= k < s.len() && s[k] == c,
        find_char(s, j, c) is None ==> forall|m: int| j <= m < s.len() ==> s[m] != c,
    decreases s.len() - j,
{
    if j < s.len() && s[j] != c {
        lemma_find_char(s, j + 1, c);
    }
}

pub fn run_end_exec(s: &Vec<char>, j: usize, k: Class) -> (r: usize)
    requires
        j <= s.len(),
    ensures
        r == run_end(s@, j as int, k),
        j <= r <= s.len(),
{
    let mut i = j;
    while i < s.len() && class_test(s[i], k)
        invariant
            j <= i <= s.len(),
            run_end(s@, j as int, k) == run_end(s@, i as int, k),
        decreases s.len() - i,
    {
        i += 1;
    }
    i
}

pub fn find_char_exec(s: &Vec<char>, j: usize, c: char) -> (r: Option<usize>)
    requires
        j <= s.len(),
    ensures
        r matches Some(k) ==> find_char(s@, j as int, c) == Some(k as int),
        r is None ==> find_char(s@, j as int, c) is None,
{
    let mut i = j;
    while i < s.len()
        invariant
            j <= i <= s.len(),
            find_char(s@, j as int, c) == find_char(s@, i as int, c),
        decreases s.len() - i,
    {
        if s[i] == c {
            return Some(i);
        }
        i += 1;
    }
    None
}

} // verus!
