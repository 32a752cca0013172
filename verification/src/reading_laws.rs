//! Laws of reading: what an argument's requiredness, an enum value, a type
//! signature and a default mean, stated over the characters themselves.
use vstd::prelude::*;
use crate::classes::{is_space, is_word};
use crate::grammar::{arg_at, args_from, field_at, fields_from, sig_end, strip_spaces, values_from};
use crate::scan::{in_class, lemma_run_end, run_end, Class};
use crate::schema::ArgumentView;

verus! {

/// An argument with a default is never required, whatever its type signature.
pub proof fn lemma_defaulted_argument_is_not_required(a: ArgumentView)
    requires
        a.has_default,
    ensures
        !a.required(),
{
}

/// An argument whose type signature ends in `!` and that has no default is required.
pub proof fn lemma_non_null_argument_without_default_is_required(a: ArgumentView)
    requires
        !a.has_default,
        a.type_sig.len() > 0,
        a.type_sig[a.type_sig.len() - 1] == '!',
    ensures
        a.required(),
{
}

/// A required argument has no default and its type signature ends in `!`.
pub proof fn lemma_required_argument_is_non_null(a: ArgumentView)
    requires
        a.required(),
    ensures
        !a.has_default,
        a.type_sig.len() > 0,
        a.type_sig[a.type_sig.len() - 1] == '!',
{
}

/// A run of class `k` that ends at `e` ends there.
proof fn lemma_run_end_at(s: Seq<char>, j: int, e: int, k: Class)
    requires
        0 <= j <= e <= s.len(),
        forall|m: int| j <= m < e ==> in_class(#[trigger] s[m], k),
        e == s.len() || !in_class(s[e], k),
    ensures
        run_end(s, j, k) == e,
    decreases e - j,
{
    if j < e {
        lemma_run_end_at(s, j + 1, e, k);
    }
}

proof fn lemma_seq_contains_concat<A>(a: Seq<A>, b: Seq<A>, x: A)
    ensures
        (a + b).contains(x) <==> a.contains(x) || b.contains(x),
{
    if (a + b).contains(x) {
        let k = choose|k: int| 0 <= k < (a + b).len() && (a + b)[k] == x;
        if k < a.len() {
            assert(a[k] == x);
        } else {
            assert(b[k - a.len()] == x);
        }
    }
    if a.contains(x) {
        let k = choose|k: int| 0 <= k < a.len() && a[k] == x;
        assert((a + b)[k] == x);
    }
    if b.contains(x) {
        let k = choose|k: int| 0 <= k < b.len() && b[k] == x;
        assert((a + b)[a.len() + k] == x);
    }
}

proof fn lemma_values_reach(s: Seq<char>, j: int, i: int, e: int)
    requires
        0 <= j <= i < e <= s.len(),
        i == 0 || !(('a' <= s[i - 1] && s[i - 1] <= 'z') || ('A' <= s[i - 1] && s[i - 1] <= 'Z') || (
        '0' <= s[i - 1] && s[i - 1] <= '9') || s[i - 1] == '_'),
        ('a' <= s[i] && s[i] <= 'z') || ('A' <= s[i] && s[i] <= 'Z') || s[i] == '_',
        forall|m: int|
            i <= m < e ==> ('a' <= #[trigger] s[m] && s[m] <= 'z') || ('A' <= s[m] && s[m] <= 'Z') || (
            '0' <= s[m] && s[m] <= '9') || s[m] == '_',
        e == s.len() || !(('a' <= s[e] && s[e] <= 'z') || ('A' <= s[e] && s[e] <= 'Z') || ('0' <= s[e]
            && s[e] <= '9') || s[e] == '_'),
    ensures
        values_from(s, j).contains(s.subrange(i, e)),
    decreases i - j,
{
    if j == i {
        lemma_run_end_at(s, i + 1, e, Class::Ident);
        assert(values_from(s, i)[0] == s.subrange(i, e));
    } else if crate::classes::is_ident_start(s[j]) {
        lemma_run_end(s, j + 1, Class::Ident);
        let r = run_end(s, j + 1, Class::Ident);
        if r > i - 1 {
            assert(in_class(s[i - 1], Class::Ident));
        }
        lemma_values_reach(s, r, i, e);
        lemma_seq_contains_concat(seq![s.subrange(j, r)], values_from(s, r), s.subrange(i, e));
    } else {
        lemma_values_reach(s, j + 1, i, e);
    }
}

/// Every whole identifier of an enum body is one of its values: where a
/// character of `[A-Za-z_]` starts a maximal run of `[A-Za-z0-9_]`, that run
/// (digits included) is read as a value.
pub proof fn lemma_enum_value_is_whole_identifier(s: Seq<char>, i: int, e: int)
    requires
        0 <= i < e <= s.len(),
        i == 0 || !(('a' <= s[i - 1] && s[i - 1] <= 'z') || ('A' <= s[i - 1] && s[i - 1] <= 'Z') || (
        '0' <= s[i - 1] && s[i - 1] <= '9') || s[i - 1] == '_'),
        ('a' <= s[i] && s[i] <= 'z') || ('A' <= s[i] && s[i] <= 'Z') || s[i] == '_',
        forall|m: int|
            i <= m < e ==> ('a' <= #[trigger] s[m] && s[m] <= 'z') || ('A' <= s[m] && s[m] <= 'Z') || (
            '0' <= s[m] && s[m] <= '9') || s[m] == '_',
        e == s.len() || !(('a' <= s[e] && s[e] <= 'z') || ('A' <= s[e] && s[e] <= 'Z') || ('0' <= s[e]
            && s[e] <= '9') || s[e] == '_'),
    ensures
        values_from(s, 0).contains(s.subrange(i, e)),
{
    lemma_values_reach(s, 0, i, e);
}

/// Every enum value read is an identifier: it starts with a character of
/// `[A-Za-z_]` and is made of `[A-Za-z0-9_]`, and it is followed by no
/// further such character in the body.
pub proof fn lemma_enum_values_are_identifiers(s: Seq<char>, j: int)
    requires
        0 <= j,
    ensures
        forall|n: int|
            0 <= n < values_from(s, j).len() ==> {
                let v = #[trigger] values_from(s, j)[n];
                &&& v.len() > 0
                &&& ('a' <= v[0] && v[0] <= 'z') || ('A' <= v[0] && v[0] <= 'Z') || v[0] == '_'
                &&& forall|m: int|
                    0 <= m < v.len() ==> ('a' <= #[trigger] v[m] && v[m] <= 'z') || ('A' <= v[m] && v[m]
                        <= 'Z') || ('0' <= v[m] && v[m] <= '9') || v[m] == '_'
            },
    decreases s.len() - j,
{
    if j < s.len() {
        if crate::classes::is_ident_start(s[j]) {
            lemma_run_end(s, j + 1, Class::Ident);
            let r = run_end(s, j + 1, Class::Ident);
            lemma_enum_values_are_identifiers(s, r);
            let head = s.subrange(j, r);
            assert forall|m: int| 0 <= m < head.len() implies ('a' <= #[trigger] head[m] && head[m]
                <= 'z') || ('A' <= head[m] && head[m] <= 'Z') || ('0' <= head[m] && head[m] <= '9')
                || head[m] == '_' by {
                if m > 0 {
                    assert(in_class(s[j + m], Class::Ident));
                }
            }
            assert forall|n: int| 0 <= n < values_from(s, j).len() implies {
                let v = #[trigger] values_from(s, j)[n];
                &&& v.len() > 0
                &&& ('a' <= v[0] && v[0] <= 'z') || ('A' <= v[0] && v[0] <= 'Z') || v[0] == '_'
                &&& forall|m: int|
                    0 <= m < v.len() ==> ('a' <= #[trigger] v[m] && v[m] <= 'z') || ('A' <= v[m] && v[m]
                        <= 'Z') || ('0' <= v[m] && v[m] <= '9') || v[m] == '_'
            } by {
                assert(values_from(s, j) == seq![head] + values_from(s, r));
                if n > 0 {
                    assert(values_from(s, j)[n] == values_from(s, r)[n - 1]);
                } else {
                    assert(values_from(s, j)[0] == head);
                    assert(head[0] == s[j]);
                }
            }
        } else {
            lemma_enum_values_are_identifiers(s, j + 1);
            assert(values_from(s, j) == values_from(s, j + 1));
        }
    } else {
        assert(values_from(s, j).len() == 0);
    }
}

proof fn lemma_sig_end_run(s: Seq<char>, j: int, u: int, depth: int)
    requires
        0 <= j <= u <= s.len(),
        forall|m: int|
            j <= m < u ==> #[trigger] s[m] == '[' || s[m] == ']' || s[m] == '!' || is_word(s[m]),
        u == s.len() || !(s[u] == '[' || s[u] == ']' || s[u] == '!' || is_word(s[u]) || is_space(s[u])),
    ensures
        sig_end(s, j, depth) == u,
    decreases u - j,
{
    if j < u {
        assert(s[j] == '[' || s[j] == ']' || s[j] == '!' || is_word(s[j]));
        lemma_sig_end_run(s, j + 1, u, crate::grammar::next_depth(depth, s[j]));
    }
}

/// A type signature is read whole: from its first character, a run of `[`,
/// `]`, `!` and word characters (Unicode `\w`, digits included) that is
/// followed by neither such a character nor whitespace is exactly the
/// signature, whatever brackets are open.
pub proof fn lemma_signature_is_whole_run(s: Seq<char>, t: int, u: int, depth: int)
    requires
        0 <= t < u <= s.len(),
        forall|m: int|
            t <= m < u ==> #[trigger] s[m] == '[' || s[m] == ']' || s[m] == '!' || is_word(s[m]),
        u == s.len() || !(s[u] == '[' || s[u] == ']' || s[u] == '!' || is_word(s[u]) || is_space(s[u])),
    ensures
        sig_end(s, t, depth) == u,
{
    lemma_sig_end_run(s, t, u, depth);
}

proof fn lemma_strip_no_spaces(x: Seq<char>)
    requires
        forall|m: int| 0 <= m < x.len() ==> !is_space(#[trigger] x[m]),
    ensures
        strip_spaces(x) == x,
    decreases x.len(),
{
    if x.len() > 0 {
        lemma_strip_no_spaces(x.drop_last());
        assert(x.drop_last().push(x.last()) == x);
    }
}

/// A field `name : T` is read with its name and with `T` whole as its type:
/// here `name` is a run of word characters at the start of the body, then
/// come optional whitespace, `:`, optional whitespace, and `T`, a run of `[`,
/// `]`, `!` and word characters (digits included) with no whitespace in it,
/// followed by neither such a character nor whitespace.
pub proof fn lemma_field_type_is_whole_signature(s: Seq<char>, p: int, q: int, t: int, u: int)
    requires
        0 < p <= q < t < u <= s.len(),
        forall|m: int| 0 <= m < p ==> is_word(#[trigger] s[m]),
        !is_word(s[p]),
        forall|m: int| p <= m < q ==> is_space(#[trigger] s[m]),
        s[q] == ':',
        forall|m: int| q < m < t ==> is_space(#[trigger] s[m]),
        forall|m: int|
            t <= m < u ==> (#[trigger] s[m] == '[' || s[m] == ']' || s[m] == '!' || is_word(s[m])) && !is_space(
                s[m],
            ),
        u == s.len() || !(s[u] == '[' || s[u] == ']' || s[u] == '!' || is_word(s[u]) || is_space(s[u])),
    ensures
        fields_from(s, 0).len() > 0,
        fields_from(s, 0)[0].name == s.subrange(0, p),
        fields_from(s, 0)[0].type_sig == s.subrange(t, u),
        fields_from(s, 0)[0].args.len() == 0,
{
    lemma_run_end_at(s, 0, p, Class::Word);
    lemma_run_end_at(s, p, q, Class::Space);
    lemma_run_end_at(s, q + 1, t, Class::Space);
    lemma_sig_end_run(s, t, u, 0);
    assert(field_at(s, 0) == Some((p, None::<(int, int)>, t, u)));
    let x = s.subrange(t, u);
    assert forall|m: int| 0 <= m < x.len() implies !is_space(#[trigger] x[m]) by {
        assert(x[m] == s[t + m]);
    }
    lemma_strip_no_spaces(x);
}

/// An argument has a default exactly when its type signature is followed,
/// after optional whitespace, by `=`, whatever text comes after the `=`.
pub proof fn lemma_default_is_an_equals_sign_after_the_type(s: Seq<char>, j: int)
    requires
        0 <= j,
        arg_at(s, j) is Some,
    ensures
        args_from(s, j).len() > 0,
        args_from(s, j)[0].has_default <==> exists|v: int|
            (arg_at(s, j)->0).2 <= v < s.len() && s[v] == '=' && forall|k: int|
                (arg_at(s, j)->0).2 <= k < v ==> is_space(#[trigger] s[k]),
{
    let m = arg_at(s, j)->0;
    crate::grammar::lemma_arg_at(s, j);
    lemma_run_end(s, m.2, Class::Space);
    let v0 = run_end(s, m.2, Class::Space);
    if exists|v: int| m.2 <= v < s.len() && s[v] == '=' && forall|k: int| m.2 <= k < v ==> is_space(#[trigger] s[k]) {
        let v = choose|v: int| m.2 <= v < s.len() && s[v] == '=' && forall|k: int| m.2 <= k < v ==> is_space(#[trigger] s[k]);
        assert(!is_space(s[v]));
        lemma_run_end_at(s, m.2, v, Class::Space);
    }
    if m.3 {
        assert(s[v0] == '=');
        assert forall|k: int| m.2 <= k < v0 implies is_space(#[trigger] s[k]) by {
            assert(in_class(s[k], Class::Space));
        }
    }
}

} // verus!
