//! The structural SDL grammar: declaration headers, brace-delimited bodies,
//! fields, arguments and enum values, over text that `clean` has already
//! stripped of descriptions, comments and directives.
use vstd::prelude::*;
use crate::classes::{
    ident_start_char, is_ident_start, is_sig_char, is_space, is_word, sig_char, space_char, word_char,
};
use crate::scan::{
    find_char, find_char_exec, lemma_find_char, lemma_run_end, run_end, run_end_exec, Class,
};
use crate::schema::{args_view, fields_view, strings_view, Argument, ArgumentView, Field, FieldView};
use crate::text::string_of;

verus! {

/// Why a document could not be read as a schema.
#[derive(Debug, Clone, Copy, PartialEq, Eq)]
pub enum SchemaError {
    /// A declaration's `{` has no matching `}`.
    UnterminatedBlock,
    /// No `type`, `input`, `interface` or `enum` declaration was found.
    NoDeclarations,
}

impl SchemaError {
    /// The text of the error.
    pub open spec fn message_spec(self) -> Seq<char> {
        match self {
            SchemaError::UnterminatedBlock => "unterminated block: missing closing '}'"@,
            SchemaError::NoDeclarations =>
                "no 'type', 'input', 'interface', or 'enum' declarations found — not a GraphQL SDL document?"@,
        }
    }

    /// The text of the error.
    pub fn message(&self) -> (m: String)
        ensures
            m@ == self.message_spec(),
    {
        match self {
            SchemaError::UnterminatedBlock => String::from_str(
                "unterminated block: missing closing '}'",
            ),
            SchemaError::NoDeclarations => String::from_str(
                "no 'type', 'input', 'interface', or 'enum' declarations found — not a GraphQL SDL document?",
            ),
        }
    }
}

/// Which declarations a header scan looks for.
#[derive(Clone, Copy)]
pub enum HeaderKind {
    /// `type`, `input` and `interface`
    Container,
    /// `enum`
    Enum,
}

pub open spec fn kw_type() -> Seq<char> {
    seq!['t', 'y', 'p', 'e']
}

pub open spec fn kw_input() -> Seq<char> {
    seq!['i', 'n', 'p', 'u', 't']
}

pub open spec fn kw_interface() -> Seq<char> {
    seq!['i', 'n', 't', 'e', 'r', 'f', 'a', 'c', 'e']
}

pub open spec fn kw_enum() -> Seq<char> {
    seq!['e', 'n', 'u', 'm']
}

pub open spec fn kw_extend() -> Seq<char> {
    seq!['e', 'x', 't', 'e', 'n', 'd']
}

pub open spec fn kw_implements() -> Seq<char> {
    seq!['i', 'm', 'p', 'l', 'e', 'm', 'e', 'n', 't', 's']
}

/// The word `w` is spelled out at `i`.
pub open spec fn lit_at(s: Seq<char>, i: int, w: Seq<char>) -> bool {
    0 <= i && i + w.len() <= s.len() && s.subrange(i, i + w.len()) == w
}

/// A word boundary at `i`: exactly one of the characters either side of it
/// is a word character (outside the text counts as not one).
pub open spec fn boundary(s: Seq<char>, i: int) -> bool {
    (0 < i <= s.len() && is_word(s[i - 1])) != (0 <= i < s.len() && is_word(s[i]))
}

/// Length of the container keyword at `i` (`type`, `input`, `interface`), or 0.
pub open spec fn keyword_len(s: Seq<char>, i: int) -> int {
    if lit_at(s, i, kw_type()) {
        4
    } else if lit_at(s, i, kw_input()) {
        5
    } else if lit_at(s, i, kw_interface()) {
        9
    } else {
        0
    }
}

/// Start of the run of whitespace that ends at `i`.
pub open spec fn space_run_start(s: Seq<char>, i: int) -> int
    decreases i,
{
    if 0 < i <= s.len() && is_space(s[i - 1]) {
        space_run_start(s, i - 1)
    } else {
        i
    }
}

/// The `type` at `i` belongs to a type extension: it follows the word
/// `extend` and whitespace. Extensions are not declarations and are skipped.
pub open spec fn extension_at(s: Seq<char>, i: int) -> bool {
    let k = space_run_start(s, i);
    &&& lit_at(s, i, kw_type())
    &&& k < i
    &&& lit_at(s, k - 6, kw_extend())
    &&& boundary(s, k - 6)
}

/// `implements`, at least one whitespace character, then anything up to a
/// `{`: the index of that `{`.
pub open spec fn implements_tail(s: Seq<char>, d: int) -> Option<int> {
    if lit_at(s, d, kw_implements()) && d + 10 < s.len() && is_space(s[d + 10]) {
        find_char(s, d + 10, '{')
    } else {
        None
    }
}

/// A container header at `i`: keyword, whitespace, name, optional
/// `implements ...` clause, `{`. The result is (start of name, end of name,
/// index just after the `{`).
///
/// The name is the whole word after the keyword unless that fails and the
/// word itself ends in `implements` followed by whitespace and a `{`; then
/// the name is the word without that ending.
pub open spec fn container_header_at(s: Seq<char>, i: int) -> Option<(int, int, int)> {
    let kl = keyword_len(s, i);
    if boundary(s, i) && kl > 0 && i + kl < s.len() && is_space(s[i + kl]) {
        let b = run_end(s, i + kl, Class::Space);
        let c = run_end(s, b, Class::Word);
        let d = run_end(s, c, Class::Space);
        if c == b {
            None
        } else if implements_tail(s, d) is Some {
            Some((b, c, implements_tail(s, d)->0 + 1))
        } else if d < s.len() && s[d] == '{' {
            Some((b, c, d + 1))
        } else if c - b > 10 && implements_tail(s, c - 10) is Some {
            Some((b, c - 10, implements_tail(s, c - 10)->0 + 1))
        } else {
            None
        }
    } else {
        None
    }
}

/// An enum header at `i`: `enum`, whitespace, name, optional whitespace, `{`.
pub open spec fn enum_header_at(s: Seq<char>, i: int) -> Option<(int, int, int)> {
    if boundary(s, i) && lit_at(s, i, kw_enum()) && i + 4 < s.len() && is_space(s[i + 4]) {
        let b = run_end(s, i + 4, Class::Space);
        let c = run_end(s, b, Class::Word);
        let d = run_end(s, c, Class::Space);
        if c > b && d < s.len() && s[d] == '{' {
            Some((b, c, d + 1))
        } else {
            None
        }
    } else {
        None
    }
}

pub open spec fn header_at(s: Seq<char>, i: int, kind: HeaderKind) -> Option<(int, int, int)> {
    match kind {
        HeaderKind::Container => container_header_at(s, i),
        HeaderKind::Enum => enum_header_at(s, i),
    }
}

/// All headers of `kind` found scanning from `j`, each scan resuming just
/// after the `{` of the header before (bodies are scanned too). Each is
/// (start of keyword, start of name, end of name, index just after the `{`).
pub open spec fn headers_from(s: Seq<char>, j: int, kind: HeaderKind) -> Seq<(int, int, int, int)>
    decreases s.len() - j,
{
    if 0 <= j < s.len() {
        if header_at(s, j, kind) is Some {
            proof {
                lemma_header_at(s, j, kind);
            }
            let h = header_at(s, j, kind)->0;
            seq![(j, h.0, h.1, h.2)] + headers_from(s, h.2, kind)
        } else {
            headers_from(s, j + 1, kind)
        }
    } else {
        seq![]
    }
}

/// Index of the `}` that brings the nesting `depth` back to 0, scanning from `i`.
pub open spec fn matching_brace(s: Seq<char>, i: int, depth: int) -> Option<int>
    decreases s.len() - i,
{
    if 0 <= i < s.len() {
        if s[i] == '{' {
            matching_brace(s, i + 1, depth + 1)
        } else if s[i] == '}' {
            if depth - 1 == 0 {
                Some(i)
            } else {
                matching_brace(s, i + 1, depth - 1)
            }
        } else {
            matching_brace(s, i + 1, depth)
        }
    } else {
        None
    }
}

/// Bracket nesting after the signature character `c`, from nesting `depth`.
pub open spec fn next_depth(depth: int, c: char) -> int {
    if c == '[' {
        depth + 1
    } else if c == ']' && depth > 0 {
        depth - 1
    } else {
        depth
    }
}

/// The `depth` brackets open before `j` all close within the signature
/// characters and whitespace that follow from `j`.
pub open spec fn brackets_close(s: Seq<char>, j: int, depth: int) -> bool
    decreases s.len() - j,
{
    if depth <= 0 {
        true
    } else if 0 <= j < s.len() {
        if is_sig_char(s[j]) {
            brackets_close(s, j + 1, next_depth(depth, s[j]))
        } else if is_space(s[j]) {
            brackets_close(s, j + 1, depth)
        } else {
            false
        }
    } else {
        false
    }
}

/// The signature goes on past whitespace to the signature character at `k`:
/// that character is `!` or `]`, or a `[` is open and its brackets close
/// before anything that is neither a signature character nor whitespace.
pub open spec fn sig_continues(s: Seq<char>, k: int, depth: int) -> bool {
    &&& 0 <= k < s.len()
    &&& is_sig_char(s[k])
    &&& (s[k] == '!' || s[k] == ']' || (depth > 0 && brackets_close(s, k, depth)))
}

/// End of the type signature that continues at `j` with `depth` brackets
/// open. A signature is made of `[`, `]`, `!` and word characters; it goes
/// on across whitespace when the next character after the whitespace is `!`
/// or `]`, or when a `[` is open and closes before anything else (a `:`, a
/// parenthesis, a brace) comes, and ends otherwise. So it stops before the
/// name of a following field, even after a `[` that never closes. Its
/// whitespace is removed afterwards.
pub open spec fn sig_end(s: Seq<char>, j: int, depth: int) -> int
    decreases s.len() - j,
{
    if 0 <= j < s.len() {
        if is_sig_char(s[j]) {
            sig_end(s, j + 1, next_depth(depth, s[j]))
        } else if is_space(s[j]) {
            let k = run_end(s, j, Class::Space);
            if sig_continues(s, k, depth) {
                proof {
                    lemma_run_end(s, j, Class::Space);
                }
                sig_end(s, k, depth)
            } else {
                j
            }
        } else {
            j
        }
    } else {
        j
    }
}

pub proof fn lemma_sig_end(s: Seq<char>, j: int, depth: int)
    requires
        0 <= j <= s.len(),
    ensures
        j <= sig_end(s, j, depth) <= s.len(),
        j < s.len() && is_sig_char(s[j]) ==> sig_end(s, j, depth) > j,
    decreases s.len() - j,
{
    if j < s.len() {
        if is_sig_char(s[j]) {
            lemma_sig_end(s, j + 1, next_depth(depth, s[j]));
        } else if is_space(s[j]) {
            lemma_run_end(s, j, Class::Space);
            let k = run_end(s, j, Class::Space);
            if sig_continues(s, k, depth) {
                lemma_sig_end(s, k, depth);
            }
        }
    }
}

/// A type signature with every whitespace character removed.
pub open spec fn strip_spaces(s: Seq<char>) -> Seq<char>
    decreases s.len(),
{
    if s.len() == 0 {
        seq![]
    } else if is_space(s.last()) {
        strip_spaces(s.drop_last())
    } else {
        strip_spaces(s.drop_last()).push(s.last())
    }
}

/// An argument at `i`: `name : Type` then, if present, whitespace and `=`.
/// The result is (end of name, start of type, end of type, whether `=`
/// follows, end of the match).
pub open spec fn arg_at(s: Seq<char>, i: int) -> Option<(int, int, int, bool, int)> {
    if 0 <= i < s.len() && is_word(s[i]) {
        let p = run_end(s, i, Class::Word);
        let q = run_end(s, p, Class::Space);
        if q < s.len() && s[q] == ':' {
            let t = run_end(s, q + 1, Class::Space);
            let u = sig_end(s, t, 0);
            if u > t {
                let v = run_end(s, u, Class::Space);
                if v < s.len() && s[v] == '=' {
                    Some((p, t, u, true, v + 1))
                } else {
                    Some((p, t, u, false, u))
                }
            } else {
                None
            }
        } else {
            None
        }
    } else {
        None
    }
}

/// The arguments found scanning an argument list from `j`.
pub open spec fn args_from(s: Seq<char>, j: int) -> Seq<ArgumentView>
    decreases s.len() - j,
{
    if 0 <= j < s.len() {
        if arg_at(s, j) is Some {
            let m = arg_at(s, j)->0;
            proof {
                lemma_arg_at(s, j);
            }
            seq![
                ArgumentView {
                    name: s.subrange(j, m.0),
                    type_sig: strip_spaces(s.subrange(m.1, m.2)),
                    has_default: m.3,
                },
            ] + args_from(s, m.4)
        } else {
            args_from(s, j + 1)
        }
    } else {
        seq![]
    }
}

/// A field at `i`: `name`, an optional `( ... )` argument list, `:`, type.
/// The result is (end of name, the span inside the parentheses if any,
/// start of type, end of type); the match ends with the type.
pub open spec fn field_at(s: Seq<char>, i: int) -> Option<(int, Option<(int, int)>, int, int)> {
    if 0 <= i < s.len() && is_word(s[i]) {
        let p = run_end(s, i, Class::Word);
        let q = run_end(s, p, Class::Space);
        if q < s.len() && s[q] == ':' {
            let t = run_end(s, q + 1, Class::Space);
            let u = sig_end(s, t, 0);
            if u > t {
                Some((p, None, t, u))
            } else {
                None
            }
        } else if q < s.len() && s[q] == '(' && find_char(s, q + 1, ')') is Some {
            let k = find_char(s, q + 1, ')')->0;
            let r = run_end(s, k + 1, Class::Space);
            if r < s.len() && s[r] == ':' {
                let t = run_end(s, r + 1, Class::Space);
                let u = sig_end(s, t, 0);
                if u > t {
                    Some((p, Some((q + 1, k)), t, u))
                } else {
                    None
                }
            } else {
                None
            }
        } else {
            None
        }
    } else {
        None
    }
}

/// The field a match at `i` describes.
pub open spec fn field_value(s: Seq<char>, i: int, m: (int, Option<(int, int)>, int, int)) -> FieldView {
    FieldView {
        name: s.subrange(i, m.0),
        type_sig: strip_spaces(s.subrange(m.2, m.3)),
        args: match m.1 {
            Some(span) => args_from(s.subrange(span.0, span.1), 0),
            None => seq![],
        },
    }
}

/// The fields found scanning a body from `j`.
pub open spec fn fields_from(s: Seq<char>, j: int) -> Seq<FieldView>
    decreases s.len() - j,
{
    if 0 <= j < s.len() {
        if field_at(s, j) is Some {
            proof {
                lemma_field_at(s, j);
            }
            let m = field_at(s, j)->0;
            seq![field_value(s, j, m)] + fields_from(s, m.3)
        } else {
            fields_from(s, j + 1)
        }
    } else {
        seq![]
    }
}

/// The enum values found scanning a body from `j`: each `[A-Za-z_][A-Za-z0-9_]*`.
pub open spec fn values_from(s: Seq<char>, j: int) -> Seq<Seq<char>>
    decreases s.len() - j,
{
    if 0 <= j < s.len() {
        if is_ident_start(s[j]) {
            proof {
                lemma_run_end(s, j + 1, Class::Ident);
            }
            seq![s.subrange(j, run_end(s, j + 1, Class::Ident))] + values_from(
                s,
                run_end(s, j + 1, Class::Ident),
            )
        } else {
            values_from(s, j + 1)
        }
    } else {
        seq![]
    }
}

pub proof fn lemma_header_at(s: Seq<char>, i: int, kind: HeaderKind)
    requires
        0 <= i < s.len(),
    ensures
        header_at(s, i, kind) matches Some(h) ==> i < h.0 < h.1 < h.2 <= s.len(),
{
    match kind {
        HeaderKind::Container => {
            let kl = keyword_len(s, i);
            if boundary(s, i) && kl > 0 && i + kl < s.len() && is_space(s[i + kl]) {
                let b = run_end(s, i + kl, Class::Space);
                lemma_run_end(s, i + kl, Class::Space);
                let c = run_end(s, b, Class::Word);
                lemma_run_end(s, b, Class::Word);
                let d = run_end(s, c, Class::Space);
                lemma_run_end(s, c, Class::Space);
                if d + 10 < s.len() {
                    lemma_find_char(s, d + 10, '{');
                }
                if c - 10 >= 0 && c < s.len() {
                    lemma_find_char(s, c, '{');
                }
            }
        },
        HeaderKind::Enum => {
            if boundary(s, i) && lit_at(s, i, kw_enum()) && i + 4 < s.len() && is_space(s[i + 4]) {
                let b = run_end(s, i + 4, Class::Space);
                lemma_run_end(s, i + 4, Class::Space);
                let c = run_end(s, b, Class::Word);
                lemma_run_end(s, b, Class::Word);
                lemma_run_end(s, c, Class::Space);
            }
        },
    }
}

pub proof fn lemma_matching_brace(s: Seq<char>, i: int, depth: int)
    ensures
        matching_brace(s, i, depth) matches Some(k) ==> i <= k < s.len(),
    decreases s.len() - i,
{
    if 0 <= i < s.len() {
        if s[i] == '{' {
            lemma_matching_brace(s, i + 1, depth + 1);
        } else if s[i] == '}' {
            if depth - 1 != 0 {
                lemma_matching_brace(s, i + 1, depth - 1);
            }
        } else {
            lemma_matching_brace(s, i + 1, depth);
        }
    }
}

pub proof fn lemma_arg_at(s: Seq<char>, i: int)
    ensures
        arg_at(s, i) matches Some(m) ==> i < m.0 < m.1 < m.2 <= m.4 <= s.len(),
{
    if 0 <= i < s.len() && is_word(s[i]) {
        lemma_run_end(s, i, Class::Word);
        let p = run_end(s, i, Class::Word);
        lemma_run_end(s, p, Class::Space);
        let q = run_end(s, p, Class::Space);
        if q < s.len() {
            lemma_run_end(s, q + 1, Class::Space);
            let t = run_end(s, q + 1, Class::Space);
            lemma_sig_end(s, t, 0);
            let u = sig_end(s, t, 0);
            lemma_run_end(s, u, Class::Space);
        }
    }
}

pub proof fn lemma_field_at(s: Seq<char>, i: int)
    ensures
        field_at(s, i) matches Some(m) ==> {
            &&& i < m.0 < m.2 < m.3 <= s.len()
            &&& m.1 matches Some(span) ==> m.0 < span.0 <= span.1 < m.2
        },
{
    if 0 <= i < s.len() && is_word(s[i]) {
        lemma_run_end(s, i, Class::Word);
        let p = run_end(s, i, Class::Word);
        lemma_run_end(s, p, Class::Space);
        let q = run_end(s, p, Class::Space);
        if q < s.len() {
            lemma_run_end(s, q + 1, Class::Space);
            let t = run_end(s, q + 1, Class::Space);
            lemma_sig_end(s, t, 0);
            lemma_find_char(s, q + 1, ')');
            if find_char(s, q + 1, ')') is Some {
                let k = find_char(s, q + 1, ')')->0;
                lemma_run_end(s, k + 1, Class::Space);
                let r = run_end(s, k + 1, Class::Space);
                if r < s.len() {
                    lemma_run_end(s, r + 1, Class::Space);
                    let t2 = run_end(s, r + 1, Class::Space);
                    lemma_sig_end(s, t2, 0);
                }
            }
        }
    }
}

} // verus!

verus! {

fn lit_at_exec(s: &Vec<char>, i: usize, w: &Vec<char>) -> (b: bool)
    ensures
        b == lit_at(s@, i as int, w@),
{
    if i > s.len() || s.len() - i < w.len() {
        return false;
    }
    let mut k: usize = 0;
    while k < w.len()
        invariant
            i + w.len() <= s.len(),
            k <= w.len(),
            forall|m: int| 0 <= m < k ==> s@[i + m] == w@[m],
        decreases w.len() - k,
    {
        if s[i + k] != w[k] {
            assert(s@.subrange(i as int, i + w.len())[k as int] != w@[k as int]);
            return false;
        }
        k += 1;
    }
    assert(s@.subrange(i as int, i + w.len()) =~= w@);
    true
}

fn boundary_exec(s: &Vec<char>, i: usize) -> (b: bool)
    requires
        i <= s.len(),
    ensures
        b == boundary(s@, i as int),
{
    let before = i > 0 && word_char(s[i - 1]);
    let after = i < s.len() && word_char(s[i]);
    before != after
}

fn implements_tail_exec(s: &Vec<char>, d: usize) -> (r: Option<usize>)
    requires
        d <= s.len(),
    ensures
        r matches Some(k) ==> implements_tail(s@, d as int) == Some(k as int),
        r is None ==> implements_tail(s@, d as int) is None,
{
    let w = vec!['i', 'm', 'p', 'l', 'e', 'm', 'e', 'n', 't', 's'];
    if lit_at_exec(s, d, &w) && d + 10 < s.len() && space_char(s[d + 10]) {
        find_char_exec(s, d + 10, '{')
    } else {
        None
    }
}

fn keyword_len_exec(s: &Vec<char>, i: usize) -> (n: usize)
    ensures
        n == keyword_len(s@, i as int),
{
    if lit_at_exec(s, i, &vec!['t', 'y', 'p', 'e']) {
        4
    } else if lit_at_exec(s, i, &vec!['i', 'n', 'p', 'u', 't']) {
        5
    } else if lit_at_exec(s, i, &vec!['i', 'n', 't', 'e', 'r', 'f', 'a', 'c', 'e']) {
        9
    } else {
        0
    }
}

pub(crate) fn header_at_exec(s: &Vec<char>, i: usize, kind: HeaderKind) -> (r: Option<(usize, usize, usize)>)
    requires
        i < s.len(),
    ensures
        r matches Some(h) ==> header_at(s@, i as int, kind) == Some((h.0 as int, h.1 as int, h.2 as int)),
        r is None ==> header_at(s@, i as int, kind) is None,
{
    proof {
        lemma_header_at(s@, i as int, kind);
    }
    match kind {
        HeaderKind::Container => {
            let kl = keyword_len_exec(s, i);
            if boundary_exec(s, i) && kl > 0 && kl < s.len() - i && space_char(s[i + kl]) {
                let b = run_end_exec(s, i + kl, Class::Space);
                let c = run_end_exec(s, b, Class::Word);
                let d = run_end_exec(s, c, Class::Space);
                if c == b {
                    None
                } else {
                    match implements_tail_exec(s, d) {
                        Some(k) => Some((b, c, k + 1)),
                        None => {
                            if d < s.len() && s[d] == '{' {
                                Some((b, c, d + 1))
                            } else if c - b > 10 {
                                match implements_tail_exec(s, c - 10) {
                                    Some(k) => Some((b, c - 10, k + 1)),
                                    None => None,
                                }
                            } else {
                                None
                            }
                        },
                    }
                }
            } else {
                None
            }
        },
        HeaderKind::Enum => {
            if boundary_exec(s, i) && lit_at_exec(s, i, &vec!['e', 'n', 'u', 'm']) && 4 < s.len() - i
                && space_char(s[i + 4]) {
                let b = run_end_exec(s, i + 4, Class::Space);
                let c = run_end_exec(s, b, Class::Word);
                let d = run_end_exec(s, c, Class::Space);
                if c > b && d < s.len() && s[d] == '{' {
                    Some((b, c, d + 1))
                } else {
                    None
                }
            } else {
                None
            }
        },
    }
}

pub(crate) fn extension_at_exec(s: &Vec<char>, i: usize) -> (b: bool)
    requires
        i <= s.len(),
    ensures
        b == extension_at(s@, i as int),
{
    let mut k = i;
    while k > 0 && space_char(s[k - 1])
        invariant
            k <= i <= s.len(),
            space_run_start(s@, i as int) == space_run_start(s@, k as int),
        decreases k,
    {
        k -= 1;
    }
    lit_at_exec(s, i, &vec!['t', 'y', 'p', 'e']) && k < i && k >= 6 && lit_at_exec(
        s,
        k - 6,
        &vec!['e', 'x', 't', 'e', 'n', 'd'],
    ) && boundary_exec(s, k - 6)
}

/// Scans forward from just after an opening `{` (at `start`) and returns the
/// index of its matching `}`, tracking brace depth.
pub fn find_matching_brace(s: &Vec<char>, start: usize) -> (r: Result<usize, SchemaError>)
    ensures
        r matches Ok(k) ==> matching_brace(s@, start as int, 1) == Some(k as int),
        r is Err ==> matching_brace(s@, start as int, 1) is None && r == Err::<usize, SchemaError>(
            SchemaError::UnterminatedBlock,
        ),
{
    // `open` counts the braces opened and not yet closed since `start`: the depth less one.
    let mut open: usize = 0;
    let mut i = start;
    while i < s.len()
        invariant
            start <= i,
            open <= i - start,
            matching_brace(s@, start as int, 1) == matching_brace(s@, i as int, open + 1),
        decreases s.len() - i,
    {
        if s[i] == '{' {
            open += 1;
        } else if s[i] == '}' {
            if open == 0 {
                return Ok(i);
            }
            open -= 1;
        }
        i += 1;
    }
    Err(SchemaError::UnterminatedBlock)
}

/// `v[lo..hi]` as a vector of its own.
pub fn sub_vec(v: &Vec<char>, lo: usize, hi: usize) -> (r: Vec<char>)
    requires
        lo <= hi <= v.len(),
    ensures
        r@ == v@.subrange(lo as int, hi as int),
{
    let mut r: Vec<char> = Vec::new();
    let mut i = lo;
    while i < hi
        invariant
            lo <= i <= hi <= v.len(),
            r@ == v@.subrange(lo as int, i as int),
        decreases hi - i,
    {
        r.push(v[i]);
        assert(v@.subrange(lo as int, i + 1) == v@.subrange(lo as int, i as int).push(v@[i as int]));
        i += 1;
    }
    r
}

/// Whether the `depth` open brackets close from `j` on.
fn brackets_close_exec(s: &Vec<char>, j: usize, depth: usize) -> (b: bool)
    requires
        j <= s.len(),
        depth <= j,
    ensures
        b == brackets_close(s@, j as int, depth as int),
{
    let mut i = j;
    let mut d = depth;
    while i < s.len()
        invariant
            j <= i <= s.len(),
            depth <= j,
            d <= depth + (i - j),
            brackets_close(s@, j as int, depth as int) == brackets_close(s@, i as int, d as int),
        decreases s.len() - i,
    {
        if d == 0 {
            return true;
        }
        let c = s[i];
        if sig_char(c) {
            if c == '[' {
                d += 1;
            } else if c == ']' {
                d -= 1;
            }
        } else if !space_char(c) {
            return false;
        }
        i += 1;
    }
    d == 0
}

/// End of the type signature that starts at `t`.
fn sig_end_exec(s: &Vec<char>, t: usize) -> (u: usize)
    requires
        t <= s.len(),
    ensures
        u == sig_end(s@, t as int, 0),
{
    let mut i = t;
    let mut depth: usize = 0;
    while i < s.len()
        invariant
            t <= i <= s.len(),
            depth <= i - t,
            sig_end(s@, t as int, 0) == sig_end(s@, i as int, depth as int),
        decreases s.len() - i,
    {
        let c = s[i];
        if sig_char(c) {
            if c == '[' {
                depth += 1;
            } else if c == ']' && depth > 0 {
                depth -= 1;
            }
            i += 1;
        } else if space_char(c) {
            let k = run_end_exec(s, i, Class::Space);
            proof {
                lemma_run_end(s@, i as int, Class::Space);
            }
            if k < s.len() && sig_char(s[k]) && (s[k] == '!' || s[k] == ']' || (depth > 0
                && brackets_close_exec(s, k, depth))) {
                i = k;
            } else {
                return i;
            }
        } else {
            return i;
        }
    }
    i
}

/// `v[lo..hi]` with its whitespace removed, as a `String`.
fn sig_string(v: &Vec<char>, lo: usize, hi: usize) -> (r: String)
    requires
        lo <= hi <= v.len(),
    ensures
        r@ == strip_spaces(v@.subrange(lo as int, hi as int)),
{
    let mut r = String::new();
    let mut i = lo;
    while i < hi
        invariant
            lo <= i <= hi <= v.len(),
            r@ == strip_spaces(v@.subrange(lo as int, i as int)),
        decreases hi - i,
    {
        assert(v@.subrange(lo as int, i + 1).drop_last() == v@.subrange(lo as int, i as int));
        if !space_char(v[i]) {
            r.push(v[i]);
        }
        i += 1;
    }
    r
}

fn arg_at_exec(s: &Vec<char>, i: usize) -> (r: Option<(usize, usize, usize, bool, usize)>)
    requires
        i < s.len(),
    ensures
        r matches Some(m) ==> arg_at(s@, i as int) == Some(
            (m.0 as int, m.1 as int, m.2 as int, m.3, m.4 as int),
        ),
        r is None ==> arg_at(s@, i as int) is None,
{
    proof {
        lemma_arg_at(s@, i as int);
    }
    if !word_char(s[i]) {
        return None;
    }
    let p = run_end_exec(s, i, Class::Word);
    let q = run_end_exec(s, p, Class::Space);
    if q < s.len() && s[q] == ':' {
        let t = run_end_exec(s, q + 1, Class::Space);
        let u = sig_end_exec(s, t);
        if u > t {
            let v = run_end_exec(s, u, Class::Space);
            if v < s.len() && s[v] == '=' {
                Some((p, t, u, true, v + 1))
            } else {
                Some((p, t, u, false, u))
            }
        } else {
            None
        }
    } else {
        None
    }
}

/// The arguments in an argument list (the text between its parentheses).
pub fn parse_args(s: &Vec<char>) -> (r: Vec<Argument>)
    ensures
        args_view(r@) == args_from(s@, 0),
{
    let mut r: Vec<Argument> = Vec::new();
    let mut j: usize = 0;
    while j < s.len()
        invariant
            j <= s.len(),
            args_from(s@, 0) == args_view(r@) + args_from(s@, j as int),
        decreases s.len() - j,
    {
        match arg_at_exec(s, j) {
            Some(m) => {
                proof {
                    lemma_arg_at(s@, j as int);
                }
                let name = string_of(s, j, m.0);
                let type_sig = sig_string(s, m.1, m.2);
                let a = Argument { name, type_sig, has_default: m.3 };
                let ghost before = args_view(r@);
                r.push(a);
                assert(args_view(r@) == before.push(a@));
                assert(args_from(s@, j as int) == seq![a@] + args_from(s@, m.4 as int));
                assert(before.push(a@) + args_from(s@, m.4 as int) == before + (seq![a@]
                    + args_from(s@, m.4 as int)));
                j = m.4;
            },
            None => {
                j += 1;
            },
        }
    }
    assert(args_view(r@) + args_from(s@, j as int) == args_view(r@));
    r
}

fn field_at_exec(s: &Vec<char>, i: usize) -> (r: Option<(Field, usize)>)
    requires
        i < s.len(),
    ensures
        r matches Some(x) ==> field_at(s@, i as int) is Some && x.0@ == field_value(
            s@,
            i as int,
            field_at(s@, i as int)->0,
        ) && x.1 == (field_at(s@, i as int)->0).3,
        r is None ==> field_at(s@, i as int) is None,
{
    proof {
        lemma_field_at(s@, i as int);
    }
    if !word_char(s[i]) {
        return None;
    }
    let p = run_end_exec(s, i, Class::Word);
    let q = run_end_exec(s, p, Class::Space);
    if q < s.len() && s[q] == ':' {
        let t = run_end_exec(s, q + 1, Class::Space);
        let u = sig_end_exec(s, t);
        if u > t {
            let f = Field { name: string_of(s, i, p), type_sig: sig_string(s, t, u), args: Vec::new() };
            assert(args_view(f.args@) == Seq::<ArgumentView>::empty());
            Some((f, u))
        } else {
            None
        }
    } else if q < s.len() && s[q] == '(' {
        match find_char_exec(s, q + 1, ')') {
            Some(k) => {
                proof {
                    lemma_find_char(s@, q + 1, ')');
                }
                let r = run_end_exec(s, k + 1, Class::Space);
                if r < s.len() && s[r] == ':' {
                    let t = run_end_exec(s, r + 1, Class::Space);
                    let u = sig_end_exec(s, t);
                    if u > t {
                        let inner = sub_vec(s, q + 1, k);
                        let args = parse_args(&inner);
                        let f = Field { name: string_of(s, i, p), type_sig: sig_string(s, t, u), args };
                        Some((f, u))
                    } else {
                        None
                    }
                } else {
                    None
                }
            },
            None => None,
        }
    } else {
        None
    }
}

/// The fields in a container's body.
pub fn parse_fields(s: &Vec<char>) -> (r: Vec<Field>)
    ensures
        fields_view(r@) == fields_from(s@, 0),
{
    let mut r: Vec<Field> = Vec::new();
    let mut j: usize = 0;
    while j < s.len()
        invariant
            j <= s.len(),
            fields_from(s@, 0) == fields_view(r@) + fields_from(s@, j as int),
        decreases s.len() - j,
    {
        match field_at_exec(s, j) {
            Some(x) => {
                proof {
                    lemma_field_at(s@, j as int);
                }
                let (f, e) = x;
                let ghost fv = f@;
                let ghost before = fields_view(r@);
                r.push(f);
                assert(fields_view(r@) == before.push(fv));
                assert(fields_from(s@, j as int) == seq![fv] + fields_from(s@, e as int));
                assert(before.push(fv) + fields_from(s@, e as int) == before + (seq![fv]
                    + fields_from(s@, e as int)));
                j = e;
            },
            None => {
                j += 1;
            },
        }
    }
    assert(fields_view(r@) + fields_from(s@, j as int) == fields_view(r@));
    r
}

/// The values in an enum's body.
pub fn parse_enum_values(s: &Vec<char>) -> (r: Vec<String>)
    ensures
        strings_view(r@) == values_from(s@, 0),
{
    let mut r: Vec<String> = Vec::new();
    let mut j: usize = 0;
    while j < s.len()
        invariant
            j <= s.len(),
            values_from(s@, 0) == strings_view(r@) + values_from(s@, j as int),
        decreases s.len() - j,
    {
        if ident_start_char(s[j]) {
            let e = run_end_exec(s, j + 1, Class::Ident);
            let v = string_of(s, j, e);
            let ghost vv = v@;
            let ghost before = strings_view(r@);
            r.push(v);
            assert(strings_view(r@) == before.push(vv));
            assert(values_from(s@, j as int) == seq![vv] + values_from(s@, e as int));
            assert(before.push(vv) + values_from(s@, e as int) == before + (seq![vv] + values_from(
                s@,
                e as int,
            )));
            j = e;
        } else {
            j += 1;
        }
    }
    assert(strings_view(r@) + values_from(s@, j as int) == strings_view(r@));
    r
}

} // verus!
