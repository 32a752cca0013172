//! Laws of the diff: what holds of `diff_spec` for all schemas.
use vstd::prelude::*;
use crate::diff::{
    arg_change, arg_changes, diff_spec, enum_change, enum_changes, field_change, field_changes,
    type_change, type_changes, value_changes, ChangeView,
};
use crate::schema::{
    ins, keys_sorted, lemma_parse_wf, lookup, parse_spec, ArgumentView, EnumTypeView, FieldView, Keyed, ObjectTypeView,
    SchemaView,
};
use crate::grammar::SchemaError;
use crate::text::{lemma_seq_lt_irreflexive, lemma_seq_lt_total};

verus! {

/// Index of the first entry of `s` under key `k`.
pub open spec fn first_index<T: Keyed>(s: Seq<T>, k: Seq<char>) -> Option<int>
    decreases s.len(),
{
    if s.len() == 0 {
        None
    } else if s[0].key() == k {
        Some(0)
    } else {
        match first_index(s.drop_first(), k) {
            Some(i) => Some(i + 1),
            None => None,
        }
    }
}

pub proof fn lemma_first_index<T: Keyed>(s: Seq<T>, k: Seq<char>)
    ensures
        first_index(s, k) matches Some(i) ==> {
            &&& 0 <= i < s.len()
            &&& s[i].key() == k
            &&& forall|j: int| 0 <= j < i ==> (#[trigger] s[j]).key() != k
            &&& lookup(s, k) == Some(s[i])
        },
        first_index(s, k) is None ==> lookup(s, k) is None && forall|j: int|
            0 <= j < s.len() ==> (#[trigger] s[j]).key() != k,
    decreases s.len(),
{
    if s.len() > 0 && s[0].key() != k {
        lemma_first_index(s.drop_first(), k);
        let d = s.drop_first();
        assert forall|j: int| 1 <= j < s.len() implies s[j] == #[trigger] d[j - 1] by {}
        if first_index(d, k) is None {
            assert forall|j: int| 0 <= j < s.len() implies (#[trigger] s[j]).key() != k by {
                if j > 0 {
                    assert(s[j] == d[j - 1]);
                }
            }
        } else {
            let i = first_index(d, k)->0;
            assert forall|j: int| 0 <= j < i + 1 implies (#[trigger] s[j]).key() != k by {
                if j > 0 {
                    assert(s[j] == d[j - 1]);
                }
            }
        }
    }
}

/// Replacing an entry by one under the same key changes only what the lookups
/// that found that entry give.
pub proof fn lemma_lookup_update<T: Keyed>(s: Seq<T>, j: int, x: T, k: Seq<char>)
    requires
        0 <= j < s.len(),
        x.key() == s[j].key(),
    ensures
        lookup(s.update(j, x), k) == (if first_index(s, k) == Some(j) {
            Some(x)
        } else {
            lookup(s, k)
        }),
    decreases s.len(),
{
    let u = s.update(j, x);
    let d = s.drop_first();
    assert(u[0].key() == s[0].key());
    if j == 0 {
        assert(u[0] == x);
        assert(u.drop_first() == d);
        if s[0].key() == k {
            assert(first_index(s, k) == Some(0int));
            assert(lookup(u, k) == Some(x));
        } else {
            assert(lookup(u, k) == lookup(d, k));
            assert(lookup(s, k) == lookup(d, k));
            lemma_first_index(d, k);
            assert(first_index(s, k) != Some(0int));
        }
    } else {
        assert(u[0] == s[0]);
        assert(u.drop_first() == d.update(j - 1, x));
        if s[0].key() != k {
            lemma_lookup_update(d, j - 1, x, k);
            assert(first_index(s, k) == Some(j) <==> first_index(d, k) == Some(j - 1));
        }
    }
}

/// An entry put at the end is found only under a key nothing before it has.
pub proof fn lemma_lookup_push<T: Keyed>(s: Seq<T>, x: T, k: Seq<char>)
    ensures
        lookup(s.push(x), k) == (if lookup(s, k) is Some {
            lookup(s, k)
        } else if x.key() == k {
            Some(x)
        } else {
            None
        }),
    decreases s.len(),
{
    if s.len() > 0 {
        assert(s.push(x).drop_first() == s.drop_first().push(x));
        assert(s.push(x)[0] == s[0]);
        if s[0].key() != k {
            lemma_lookup_push(s.drop_first(), x, k);
        }
    } else {
        assert(s.push(x)[0] == x);
        assert(s.push(x).drop_first() == Seq::<T>::empty());
        assert(lookup(Seq::<T>::empty(), k) is None);
    }
}

/// After `ins`, the key of the new entry finds it, and every other key finds
/// what it found before.
pub proof fn lemma_lookup_ins<T: Keyed>(s: Seq<T>, t: T, k: Seq<char>)
    ensures
        lookup(ins(s, t), k) == (if t.key() == k {
            Some(t)
        } else {
            lookup(s, k)
        }),
    decreases s.len(),
{
    if s.len() > 0 {
        lemma_seq_lt_irreflexive(t.key());
        if seq_lt_or_eq_first(s, t) {
            if t.key() == s[0].key() {
                assert(ins(s, t) == seq![t] + s.drop_first());
                assert((seq![t] + s.drop_first()).drop_first() == s.drop_first());
            } else {
                assert(ins(s, t) == seq![t] + s);
                assert((seq![t] + s).drop_first() == s);
            }
        } else {
            assert(ins(s, t) == seq![s[0]] + ins(s.drop_first(), t));
            assert((seq![s[0]] + ins(s.drop_first(), t)).drop_first() == ins(s.drop_first(), t));
            lemma_lookup_ins(s.drop_first(), t, k);
        }
    } else {
        assert(ins(s, t) == seq![t]);
        assert(seq![t].drop_first() == Seq::<T>::empty());
        assert(lookup(Seq::<T>::empty(), k) is None);
    }
}

spec fn seq_lt_or_eq_first<T: Keyed>(s: Seq<T>, t: T) -> bool {
    crate::text::seq_lt(t.key(), s[0].key()) || t.key() == s[0].key()
}

/// In a table that holds each key once, each entry is what its key finds.
pub proof fn lemma_lookup_sorted<T: Keyed>(s: Seq<T>, i: int)
    requires
        keys_sorted(s),
        0 <= i < s.len(),
    ensures
        lookup(s, s[i].key()) == Some(s[i]),
        first_index(s, s[i].key()) == Some(i),
{
    lemma_first_index(s, s[i].key());
    if first_index(s, s[i].key()) is None {
        assert(s[i].key() != s[i].key());
    } else {
        let m = first_index(s, s[i].key())->0;
        if m < i {
            lemma_seq_lt_total(s[m].key(), s[i].key());
        } else if m > i {
            assert(s[i].key() != s[i].key());
        }
    }
}

/// No two entries of `s` share a key.
pub open spec fn keys_distinct<T: Keyed>(s: Seq<T>) -> bool {
    forall|a: int, b: int| 0 <= a < b < s.len() ==> (#[trigger] s[a]).key() != (#[trigger] s[b]).key()
}

/// Within every field container, no two fields share a name, and within
/// every field no two arguments do.
pub open spec fn distinct_members(s: SchemaView) -> bool {
    forall|i: int|
        0 <= i < s.types.len() ==> {
            &&& keys_distinct((#[trigger] s.types[i]).fields)
            &&& forall|j: int|
                0 <= j < s.types[i].fields.len() ==> keys_distinct(
                    (#[trigger] s.types[i].fields[j]).args,
                )
        }
}

/// In a table where no key repeats, each entry is what its key finds.
pub proof fn lemma_lookup_distinct<T: Keyed>(s: Seq<T>, i: int)
    requires
        keys_distinct(s),
        0 <= i < s.len(),
    ensures
        lookup(s, s[i].key()) == Some(s[i]),
        first_index(s, s[i].key()) == Some(i),
{
    lemma_first_index(s, s[i].key());
    if first_index(s, s[i].key()) is None {
        assert(s[i].key() != s[i].key());
    } else {
        let m = first_index(s, s[i].key())->0;
        if m > i {
            assert(s[i].key() != s[i].key());
        }
    }
}

proof fn lemma_arg_changes_self(tn: Seq<char>, f: FieldView, n: nat)
    requires
        keys_distinct(f.args),
        n <= f.args.len(),
    ensures
        arg_changes(tn, f, f, n) == Seq::<ChangeView>::empty(),
    decreases n,
{
    if n > 0 {
        lemma_arg_changes_self(tn, f, (n - 1) as nat);
        lemma_lookup_distinct(f.args, n - 1);
    }
}

proof fn lemma_field_changes_self(t: ObjectTypeView, n: nat)
    requires
        keys_distinct(t.fields),
        forall|j: int| 0 <= j < t.fields.len() ==> keys_distinct((#[trigger] t.fields[j]).args),
        n <= t.fields.len(),
    ensures
        field_changes(t, t, n) == Seq::<ChangeView>::empty(),
    decreases n,
{
    if n > 0 {
        lemma_field_changes_self(t, (n - 1) as nat);
        let f = t.fields[n - 1];
        lemma_lookup_distinct(t.fields, n - 1);
        lemma_arg_changes_self(t.name, f, f.args.len());
    }
}

proof fn lemma_type_changes_self(s: SchemaView, n: nat)
    requires
        s.wf(),
        distinct_members(s),
        n <= s.types.len(),
    ensures
        type_changes(s.types, s.types, n) == Seq::<ChangeView>::empty(),
    decreases n,
{
    if n > 0 {
        lemma_type_changes_self(s, (n - 1) as nat);
        let t = s.types[n - 1];
        lemma_lookup_sorted(s.types, n - 1);
        assert(keys_distinct(t.fields));
        assert forall|j: int| 0 <= j < t.fields.len() implies keys_distinct(
            (#[trigger] t.fields[j]).args,
        ) by {
            assert(keys_distinct(s.types[n - 1].fields[j].args));
        }
        lemma_field_changes_self(t, t.fields.len());
    }
}

proof fn lemma_value_changes_self(e: EnumTypeView, n: nat)
    requires
        n <= e.values.len(),
    ensures
        value_changes(e, e, n) == Seq::<ChangeView>::empty(),
    decreases n,
{
    if n > 0 {
        lemma_value_changes_self(e, (n - 1) as nat);
        assert(e.values.contains(e.values[n - 1]));
    }
}

proof fn lemma_enum_changes_self(s: SchemaView, n: nat)
    requires
        s.wf(),
        n <= s.enums.len(),
    ensures
        enum_changes(s.enums, s.enums, n) == Seq::<ChangeView>::empty(),
    decreases n,
{
    if n > 0 {
        lemma_enum_changes_self(s, (n - 1) as nat);
        lemma_lookup_sorted(s.enums, n - 1);
        lemma_value_changes_self(s.enums[n - 1], s.enums[n - 1].values.len());
    }
}

/// A schema compared with itself has no breaking change, provided no field
/// container repeats a field name and no field repeats an argument name.
pub proof fn lemma_diff_with_itself_is_empty(s: SchemaView)
    requires
        s.wf(),
        distinct_members(s),
    ensures
        diff_spec(s, s) == Seq::<ChangeView>::empty(),
{
    lemma_type_changes_self(s, s.types.len());
    lemma_enum_changes_self(s, s.enums.len());
}

/// `new` with the field container `t` added (or put in place of the one of its name).
pub open spec fn with_type(new: SchemaView, t: ObjectTypeView) -> SchemaView {
    SchemaView { types: ins(new.types, t), enums: new.enums }
}

/// `new` with the enum `e` added (or put in place of the one of its name).
pub open spec fn with_enum(new: SchemaView, e: EnumTypeView) -> SchemaView {
    SchemaView { types: new.types, enums: ins(new.enums, e) }
}

/// `new` with the field `f` appended to its `k`-th field container.
pub open spec fn with_field(new: SchemaView, k: int, f: FieldView) -> SchemaView {
    let t = new.types[k];
    SchemaView {
        types: new.types.update(k, ObjectTypeView { name: t.name, fields: t.fields.push(f) }),
        enums: new.enums,
    }
}

/// `new` with the value `v` appended to its `k`-th enum.
pub open spec fn with_enum_value(new: SchemaView, k: int, v: Seq<char>) -> SchemaView {
    let e = new.enums[k];
    SchemaView {
        types: new.types,
        enums: new.enums.update(k, EnumTypeView { name: e.name, values: e.values.push(v) }),
    }
}

/// `new` with the argument `a` appended to field `j` of its `k`-th field container.
pub open spec fn with_argument(new: SchemaView, k: int, j: int, a: ArgumentView) -> SchemaView {
    let t = new.types[k];
    let f = t.fields[j];
    SchemaView {
        types: new.types.update(
            k,
            ObjectTypeView {
                name: t.name,
                fields: t.fields.update(
                    j,
                    FieldView { name: f.name, type_sig: f.type_sig, args: f.args.push(a) },
                ),
            },
        ),
        enums: new.enums,
    }
}

proof fn lemma_type_changes_same_lookups(
    olds: Seq<ObjectTypeView>,
    news1: Seq<ObjectTypeView>,
    news2: Seq<ObjectTypeView>,
    n: nat,
)
    requires
        n <= olds.len(),
        forall|i: int| 0 <= i < n ==> type_change(#[trigger] olds[i], news1) == type_change(olds[i], news2),
    ensures
        type_changes(olds, news1, n) == type_changes(olds, news2, n),
    decreases n,
{
    if n > 0 {
        lemma_type_changes_same_lookups(olds, news1, news2, (n - 1) as nat);
        assert(type_change(olds[n - 1], news1) == type_change(olds[n - 1], news2));
    }
}

proof fn lemma_enum_changes_same_lookups(
    olds: Seq<EnumTypeView>,
    news1: Seq<EnumTypeView>,
    news2: Seq<EnumTypeView>,
    n: nat,
)
    requires
        n <= olds.len(),
        forall|i: int| 0 <= i < n ==> enum_change(#[trigger] olds[i], news1) == enum_change(olds[i], news2),
    ensures
        enum_changes(olds, news1, n) == enum_changes(olds, news2, n),
    decreases n,
{
    if n > 0 {
        lemma_enum_changes_same_lookups(olds, news1, news2, (n - 1) as nat);
        assert(enum_change(olds[n - 1], news1) == enum_change(olds[n - 1], news2));
    }
}

/// Adding a field container whose name the old schema does not have never
/// changes the diff: a new type is additive.
pub proof fn lemma_new_type_is_additive(old: SchemaView, new: SchemaView, t: ObjectTypeView)
    requires
        lookup(old.types, t.name) is None,
    ensures
        diff_spec(old, with_type(new, t)) == diff_spec(old, new),
{
    lemma_first_index(old.types, t.name);
    assert forall|i: int| 0 <= i < old.types.len() implies type_change(
        #[trigger] old.types[i],
        ins(new.types, t),
    ) == type_change(old.types[i], new.types) by {
        lemma_lookup_ins(new.types, t, old.types[i].name);
    }
    lemma_type_changes_same_lookups(old.types, ins(new.types, t), new.types, old.types.len());
}

/// Adding an enum whose name the old schema does not have never changes the
/// diff: a new enum is additive.
pub proof fn lemma_new_enum_is_additive(old: SchemaView, new: SchemaView, e: EnumTypeView)
    requires
        lookup(old.enums, e.name) is None,
    ensures
        diff_spec(old, with_enum(new, e)) == diff_spec(old, new),
{
    lemma_first_index(old.enums, e.name);
    assert forall|i: int| 0 <= i < old.enums.len() implies enum_change(
        #[trigger] old.enums[i],
        ins(new.enums, e),
    ) == enum_change(old.enums[i], new.enums) by {
        lemma_lookup_ins(new.enums, e, old.enums[i].name);
    }
    lemma_enum_changes_same_lookups(old.enums, ins(new.enums, e), new.enums, old.enums.len());
}

proof fn lemma_field_changes_same(ot: ObjectTypeView, nt1: ObjectTypeView, nt2: ObjectTypeView, n: nat)
    requires
        n <= ot.fields.len(),
        forall|i: int|
            0 <= i < n ==> field_change(ot.name, #[trigger] ot.fields[i], nt1) == field_change(
                ot.name,
                ot.fields[i],
                nt2,
            ),
    ensures
        field_changes(ot, nt1, n) == field_changes(ot, nt2, n),
    decreases n,
{
    if n > 0 {
        lemma_field_changes_same(ot, nt1, nt2, (n - 1) as nat);
        assert(field_change(ot.name, ot.fields[n - 1], nt1) == field_change(
            ot.name,
            ot.fields[n - 1],
            nt2,
        ));
    }
}

/// Adding a field to a field container never changes the diff, as long as
/// the old container of that name has no field of that name: a new field is
/// additive.
pub proof fn lemma_new_field_is_additive(old: SchemaView, new: SchemaView, k: int, f: FieldView)
    requires
        0 <= k < new.types.len(),
        forall|i: int|
            0 <= i < old.types.len() && (#[trigger] old.types[i]).name == new.types[k].name
                ==> lookup(old.types[i].fields, f.name) is None,
    ensures
        diff_spec(old, with_field(new, k, f)) == diff_spec(old, new),
{
    let nt = new.types[k];
    let nt2 = ObjectTypeView { name: nt.name, fields: nt.fields.push(f) };
    let news2 = with_field(new, k, f).types;
    assert forall|i: int| 0 <= i < old.types.len() implies type_change(
        #[trigger] old.types[i],
        news2,
    ) == type_change(old.types[i], new.types) by {
        let ot = old.types[i];
        lemma_lookup_update(new.types, k, nt2, ot.name);
        lemma_first_index(new.types, ot.name);
        if first_index(new.types, ot.name) == Some(k) {
            lemma_first_index(ot.fields, f.name);
            assert forall|m: int| 0 <= m < ot.fields.len() implies field_change(
                ot.name,
                #[trigger] ot.fields[m],
                nt2,
            ) == field_change(ot.name, ot.fields[m], nt) by {
                lemma_lookup_push(nt.fields, f, ot.fields[m].name);
            }
            lemma_field_changes_same(ot, nt2, nt, ot.fields.len());
        }
    }
    lemma_type_changes_same_lookups(old.types, news2, new.types, old.types.len());
}

proof fn lemma_value_changes_push(oe: EnumTypeView, ne: EnumTypeView, v: Seq<char>, n: nat)
    requires
        n <= oe.values.len(),
        !oe.values.contains(v),
    ensures
        value_changes(oe, EnumTypeView { name: ne.name, values: ne.values.push(v) }, n)
            == value_changes(oe, ne, n),
    decreases n,
{
    if n > 0 {
        lemma_value_changes_push(oe, ne, v, (n - 1) as nat);
        let w = oe.values[n - 1];
        assert(w != v);
        if ne.values.push(v).contains(w) {
            let m = choose|m: int| 0 <= m < ne.values.push(v).len() && ne.values.push(v)[m] == w;
            assert(m < ne.values.len());
            assert(ne.values[m] == w);
        }
        if ne.values.contains(w) {
            let m = choose|m: int| 0 <= m < ne.values.len() && ne.values[m] == w;
            assert(ne.values.push(v)[m] == w);
        }
    }
}

/// Adding a value to an enum never changes the diff, as long as the old enum
/// of that name does not have the value: a new enum value is additive.
pub proof fn lemma_new_enum_value_is_additive(old: SchemaView, new: SchemaView, k: int, v: Seq<char>)
    requires
        0 <= k < new.enums.len(),
        forall|i: int|
            0 <= i < old.enums.len() && (#[trigger] old.enums[i]).name == new.enums[k].name
                ==> !old.enums[i].values.contains(v),
    ensures
        diff_spec(old, with_enum_value(new, k, v)) == diff_spec(old, new),
{
    let ne = new.enums[k];
    let ne2 = EnumTypeView { name: ne.name, values: ne.values.push(v) };
    let news2 = with_enum_value(new, k, v).enums;
    assert forall|i: int| 0 <= i < old.enums.len() implies enum_change(
        #[trigger] old.enums[i],
        news2,
    ) == enum_change(old.enums[i], new.enums) by {
        let oe = old.enums[i];
        lemma_lookup_update(new.enums, k, ne2, oe.name);
        lemma_first_index(new.enums, oe.name);
        if first_index(new.enums, oe.name) == Some(k) {
            lemma_value_changes_push(oe, ne, v, oe.values.len());
        }
    }
    lemma_enum_changes_same_lookups(old.enums, news2, new.enums, old.enums.len());
}

proof fn lemma_arg_changes_prefix(tn: Seq<char>, of: FieldView, nf1: FieldView, nf2: FieldView, n: nat)
    requires
        n <= nf1.args.len(),
        n <= nf2.args.len(),
        forall|i: int| 0 <= i < n ==> nf1.args[i] == nf2.args[i],
    ensures
        arg_changes(tn, of, nf1, n) == arg_changes(tn, of, nf2, n),
    decreases n,
{
    if n > 0 {
        lemma_arg_changes_prefix(tn, of, nf1, nf2, (n - 1) as nat);
        assert(nf1.args[n - 1] == nf2.args[n - 1]);
    }
}

/// Adding an argument that is not required (nullable, or with a default) to
/// a field never changes the diff: a new optional argument is additive.
pub proof fn lemma_new_optional_argument_is_additive(
    old: SchemaView,
    new: SchemaView,
    k: int,
    j: int,
    a: ArgumentView,
)
    requires
        0 <= k < new.types.len(),
        0 <= j < new.types[k].fields.len(),
        !a.required(),
    ensures
        diff_spec(old, with_argument(new, k, j, a)) == diff_spec(old, new),
{
    let nt = new.types[k];
    let nf = nt.fields[j];
    let nf2 = FieldView { name: nf.name, type_sig: nf.type_sig, args: nf.args.push(a) };
    let nt2 = ObjectTypeView { name: nt.name, fields: nt.fields.update(j, nf2) };
    let news2 = with_argument(new, k, j, a).types;
    assert forall|i: int| 0 <= i < old.types.len() implies type_change(
        #[trigger] old.types[i],
        news2,
    ) == type_change(old.types[i], new.types) by {
        let ot = old.types[i];
        lemma_lookup_update(new.types, k, nt2, ot.name);
        lemma_first_index(new.types, ot.name);
        if first_index(new.types, ot.name) == Some(k) {
            assert forall|m: int| 0 <= m < ot.fields.len() implies field_change(
                ot.name,
                #[trigger] ot.fields[m],
                nt2,
            ) == field_change(ot.name, ot.fields[m], nt) by {
                let of = ot.fields[m];
                lemma_lookup_update(nt.fields, j, nf2, of.name);
                lemma_first_index(nt.fields, of.name);
                if first_index(nt.fields, of.name) == Some(j) {
                    lemma_arg_changes_prefix(ot.name, of, nf2, nf, nf.args.len());
                    assert(arg_changes(ot.name, of, nf2, nf2.args.len()) == arg_changes(
                        ot.name,
                        of,
                        nf2,
                        nf.args.len(),
                    ) + arg_change(ot.name, of, a));
                    assert(arg_change(ot.name, of, a) == Seq::<ChangeView>::empty());
                }
            }
            lemma_field_changes_same(ot, nt2, nt, ot.fields.len());
        }
    }
    lemma_type_changes_same_lookups(old.types, news2, new.types, old.types.len());
}

/// Field `m` of the old schema's field container `i` is named `field`, and the container `owner`.
pub open spec fn old_field_at(old: SchemaView, i: int, m: int, owner: Seq<char>, field: Seq<char>) -> bool {
    &&& 0 <= i < old.types.len()
    &&& 0 <= m < old.types[i].fields.len()
    &&& old.types[i].name == owner
    &&& old.types[i].fields[m].name == field
}

/// The field `field` of the new schema's container `owner`, if both exist.
pub open spec fn new_field(new: SchemaView, owner: Seq<char>, field: Seq<char>) -> Option<FieldView> {
    match lookup(new.types, owner) {
        Some(nt) => lookup(nt.fields, field),
        None => None,
    }
}

/// Some argument named `arg` in `args` is required.
pub open spec fn has_required_arg(args: Seq<ArgumentView>, arg: Seq<char>) -> bool {
    exists|l: int| 0 <= l < args.len() && (#[trigger] args[l]).name == arg && args[l].required()
}

/// When change `c` breaks a client of `old` that meets `new`: what each
/// kind of report means, stated directly over the two schemas.
pub open spec fn breaking(old: SchemaView, new: SchemaView, c: ChangeView) -> bool {
    match c {
        ChangeView::RemovedType { name } => {
            &&& exists|i: int| 0 <= i < old.types.len() && (#[trigger] old.types[i]).name == name
            &&& lookup(new.types, name) is None
        },
        ChangeView::RemovedEnum { name } => {
            &&& exists|i: int| 0 <= i < old.enums.len() && (#[trigger] old.enums[i]).name == name
            &&& lookup(new.enums, name) is None
        },
        ChangeView::RemovedField { owner, field } => {
            &&& exists|i: int, m: int| old_field_at(old, i, m, owner, field)
            &&& lookup(new.types, owner) is Some
            &&& new_field(new, owner, field) is None
        },
        ChangeView::RemovedEnumValue { enum_name, value } => {
            &&& exists|i: int, m: int|
                0 <= i < old.enums.len() && 0 <= m < old.enums[i].values.len() && old.enums[i].name
                    == enum_name && #[trigger] old.enums[i].values[m] == value
            &&& lookup(new.enums, enum_name) is Some
            &&& !lookup(new.enums, enum_name)->0.values.contains(value)
        },
        ChangeView::FieldTypeChanged { owner, field, old_type, new_type } => {
            &&& exists|i: int, m: int|
                old_field_at(old, i, m, owner, field) && old.types[i].fields[m].type_sig == old_type
            &&& new_field(new, owner, field) is Some
            &&& new_field(new, owner, field)->0.type_sig == new_type
            &&& old_type != new_type
        },
        ChangeView::NewRequiredArgument { owner, field, arg } => {
            &&& exists|i: int, m: int|
                old_field_at(old, i, m, owner, field) && lookup(old.types[i].fields[m].args, arg) is None
            &&& new_field(new, owner, field) is Some
            &&& has_required_arg(new_field(new, owner, field)->0.args, arg)
        },
        ChangeView::ArgumentBecameRequired { owner, field, arg } => {
            &&& exists|i: int, m: int|
                old_field_at(old, i, m, owner, field) && lookup(old.types[i].fields[m].args, arg) is Some
                    && !lookup(old.types[i].fields[m].args, arg)->0.required()
            &&& new_field(new, owner, field) is Some
            &&& has_required_arg(new_field(new, owner, field)->0.args, arg)
        },
    }
}

proof fn lemma_contains_concat(a: Seq<ChangeView>, b: Seq<ChangeView>, c: ChangeView)
    ensures
        (a + b).contains(c) <==> a.contains(c) || b.contains(c),
{
    if (a + b).contains(c) {
        let k = choose|k: int| 0 <= k < (a + b).len() && (a + b)[k] == c;
        if k < a.len() {
            assert(a[k] == c);
        } else {
            assert(b[k - a.len()] == c);
        }
    }
    if a.contains(c) {
        let k = choose|k: int| 0 <= k < a.len() && a[k] == c;
        assert((a + b)[k] == c);
    }
    if b.contains(c) {
        let k = choose|k: int| 0 <= k < b.len() && b[k] == c;
        assert((a + b)[a.len() + k] == c);
    }
}

proof fn lemma_contains_single(x: ChangeView, c: ChangeView)
    ensures
        seq![x].contains(c) <==> x == c,
{
    if x == c {
        assert(seq![x][0] == c);
    }
}

proof fn lemma_arg_changes_contains(tn: Seq<char>, of: FieldView, nf: FieldView, n: nat, c: ChangeView)
    requires
        n <= nf.args.len(),
    ensures
        arg_changes(tn, of, nf, n).contains(c) <==> exists|l: int|
            0 <= l < n && (#[trigger] arg_change(tn, of, nf.args[l])).contains(c),
    decreases n,
{
    if n > 0 {
        lemma_arg_changes_contains(tn, of, nf, (n - 1) as nat, c);
        lemma_contains_concat(
            arg_changes(tn, of, nf, (n - 1) as nat),
            arg_change(tn, of, nf.args[n - 1]),
            c,
        );
    }
}

proof fn lemma_field_changes_contains(ot: ObjectTypeView, nt: ObjectTypeView, n: nat, c: ChangeView)
    requires
        n <= ot.fields.len(),
    ensures
        field_changes(ot, nt, n).contains(c) <==> exists|m: int|
            0 <= m < n && (#[trigger] field_change(ot.name, ot.fields[m], nt)).contains(c),
    decreases n,
{
    if n > 0 {
        lemma_field_changes_contains(ot, nt, (n - 1) as nat, c);
        lemma_contains_concat(
            field_changes(ot, nt, (n - 1) as nat),
            field_change(ot.name, ot.fields[n - 1], nt),
            c,
        );
    }
}

proof fn lemma_type_changes_contains(
    olds: Seq<ObjectTypeView>,
    news: Seq<ObjectTypeView>,
    n: nat,
    c: ChangeView,
)
    requires
        n <= olds.len(),
    ensures
        type_changes(olds, news, n).contains(c) <==> exists|i: int|
            0 <= i < n && (#[trigger] type_change(olds[i], news)).contains(c),
    decreases n,
{
    if n > 0 {
        lemma_type_changes_contains(olds, news, (n - 1) as nat, c);
        lemma_contains_concat(type_changes(olds, news, (n - 1) as nat), type_change(olds[n - 1], news), c);
    }
}

proof fn lemma_value_changes_contains(oe: EnumTypeView, ne: EnumTypeView, n: nat, c: ChangeView)
    requires
        n <= oe.values.len(),
    ensures
        value_changes(oe, ne, n).contains(c) <==> exists|m: int|
            0 <= m < n && !ne.values.contains(#[trigger] oe.values[m]) && c
                == (ChangeView::RemovedEnumValue { enum_name: oe.name, value: oe.values[m] }),
    decreases n,
{
    if n > 0 {
        lemma_value_changes_contains(oe, ne, (n - 1) as nat, c);
        let x = ChangeView::RemovedEnumValue { enum_name: oe.name, value: oe.values[n - 1] };
        let tail = if ne.values.contains(oe.values[n - 1]) {
            Seq::<ChangeView>::empty()
        } else {
            seq![x]
        };
        lemma_contains_concat(value_changes(oe, ne, (n - 1) as nat), tail, c);
        lemma_contains_single(x, c);
    }
}

proof fn lemma_enum_changes_contains(
    olds: Seq<EnumTypeView>,
    news: Seq<EnumTypeView>,
    n: nat,
    c: ChangeView,
)
    requires
        n <= olds.len(),
    ensures
        enum_changes(olds, news, n).contains(c) <==> exists|i: int|
            0 <= i < n && (#[trigger] enum_change(olds[i], news)).contains(c),
    decreases n,
{
    if n > 0 {
        lemma_enum_changes_contains(olds, news, (n - 1) as nat, c);
        lemma_contains_concat(enum_changes(olds, news, (n - 1) as nat), enum_change(olds[n - 1], news), c);
    }
}

proof fn lemma_arg_change_elem(tn: Seq<char>, of: FieldView, na: ArgumentView, c: ChangeView)
    ensures
        arg_change(tn, of, na).contains(c) <==> match c {
            ChangeView::NewRequiredArgument { owner, field, arg } => owner == tn && field == of.name
                && arg == na.name && na.required() && lookup(of.args, na.name) is None,
            ChangeView::ArgumentBecameRequired { owner, field, arg } => owner == tn && field
                == of.name && arg == na.name && na.required() && lookup(of.args, na.name) is Some
                && !lookup(of.args, na.name)->0.required(),
            _ => false,
        },
{
    match lookup(of.args, na.name) {
        None => {
            lemma_contains_single(
                ChangeView::NewRequiredArgument { owner: tn, field: of.name, arg: na.name },
                c,
            );
        },
        Some(oa) => {
            lemma_contains_single(
                ChangeView::ArgumentBecameRequired { owner: tn, field: of.name, arg: na.name },
                c,
            );
        },
    }
}

/// Changes about arguments are the only ones an argument comparison reports.
spec fn is_arg_kind(c: ChangeView) -> bool {
    c is NewRequiredArgument || c is ArgumentBecameRequired
}

proof fn lemma_field_change_elem(tn: Seq<char>, of: FieldView, nt: ObjectTypeView, c: ChangeView)
    ensures
        field_change(tn, of, nt).contains(c) <==> match lookup(nt.fields, of.name) {
            None => c == ChangeView::RemovedField { owner: tn, field: of.name },
            Some(nf) => (of.type_sig != nf.type_sig && c == ChangeView::FieldTypeChanged {
                owner: tn,
                field: of.name,
                old_type: of.type_sig,
                new_type: nf.type_sig,
            }) || exists|l: int|
                0 <= l < nf.args.len() && (#[trigger] arg_change(tn, of, nf.args[l])).contains(c),
        },
{
    match lookup(nt.fields, of.name) {
        None => {
            lemma_contains_single(ChangeView::RemovedField { owner: tn, field: of.name }, c);
        },
        Some(nf) => {
            let x = ChangeView::FieldTypeChanged {
                owner: tn,
                field: of.name,
                old_type: of.type_sig,
                new_type: nf.type_sig,
            };
            let head = if of.type_sig != nf.type_sig {
                seq![x]
            } else {
                Seq::<ChangeView>::empty()
            };
            lemma_contains_single(x, c);
            lemma_contains_concat(head, arg_changes(tn, of, nf, nf.args.len()), c);
            lemma_arg_changes_contains(tn, of, nf, nf.args.len(), c);
        },
    }
}

proof fn lemma_type_change_elem(ot: ObjectTypeView, news: Seq<ObjectTypeView>, c: ChangeView)
    ensures
        type_change(ot, news).contains(c) <==> match lookup(news, ot.name) {
            None => c == ChangeView::RemovedType { name: ot.name },
            Some(nt) => exists|m: int|
                0 <= m < ot.fields.len() && (#[trigger] field_change(ot.name, ot.fields[m], nt)).contains(
                    c,
                ),
        },
{
    match lookup(news, ot.name) {
        None => {
            lemma_contains_single(ChangeView::RemovedType { name: ot.name }, c);
        },
        Some(nt) => {
            lemma_field_changes_contains(ot, nt, ot.fields.len(), c);
        },
    }
}

proof fn lemma_enum_change_elem(oe: EnumTypeView, news: Seq<EnumTypeView>, c: ChangeView)
    ensures
        enum_change(oe, news).contains(c) <==> match lookup(news, oe.name) {
            None => c == ChangeView::RemovedEnum { name: oe.name },
            Some(ne) => exists|m: int|
                0 <= m < oe.values.len() && !ne.values.contains(#[trigger] oe.values[m]) && c
                    == (ChangeView::RemovedEnumValue { enum_name: oe.name, value: oe.values[m] }),
        },
{
    match lookup(news, oe.name) {
        None => {
            lemma_contains_single(ChangeView::RemovedEnum { name: oe.name }, c);
        },
        Some(ne) => {
            lemma_value_changes_contains(oe, ne, oe.values.len(), c);
        },
    }
}

/// What a field comparison can report: removals, type changes and argument changes.
proof fn lemma_field_change_kinds(tn: Seq<char>, of: FieldView, nt: ObjectTypeView, c: ChangeView)
    requires
        field_change(tn, of, nt).contains(c),
    ensures
        c is RemovedField || c is FieldTypeChanged || is_arg_kind(c),
{
    lemma_field_change_elem(tn, of, nt, c);
    if lookup(nt.fields, of.name) is Some {
        let nf = lookup(nt.fields, of.name)->0;
        if !(c is FieldTypeChanged) {
            let l = choose|l: int|
                0 <= l < nf.args.len() && (#[trigger] arg_change(tn, of, nf.args[l])).contains(c);
            lemma_arg_change_elem(tn, of, nf.args[l], c);
        }
    }
}

/// What a field container comparison can report: anything but enum changes.
proof fn lemma_type_change_kinds(ot: ObjectTypeView, news: Seq<ObjectTypeView>, c: ChangeView)
    requires
        type_change(ot, news).contains(c),
    ensures
        !(c is RemovedEnum) && !(c is RemovedEnumValue),
        c is RemovedType ==> (lookup(news, ot.name) is None) && c == (ChangeView::RemovedType {
            name: ot.name,
        }),
        !(c is RemovedType) ==> (lookup(news, ot.name) is Some),
{
    lemma_type_change_elem(ot, news, c);
    if lookup(news, ot.name) is Some {
        let nt = lookup(news, ot.name)->0;
        let m = choose|m: int|
            0 <= m < ot.fields.len() && (#[trigger] field_change(ot.name, ot.fields[m], nt)).contains(c);
        lemma_field_change_kinds(ot.name, ot.fields[m], nt, c);
    }
}

proof fn lemma_enum_change_kinds(oe: EnumTypeView, news: Seq<EnumTypeView>, c: ChangeView)
    requires
        enum_change(oe, news).contains(c),
    ensures
        c is RemovedEnum || c is RemovedEnumValue,
{
    lemma_enum_change_elem(oe, news, c);
}

proof fn lemma_enum_side(old: SchemaView, new: SchemaView, c: ChangeView)
    requires
        c is RemovedEnum || c is RemovedEnumValue,
    ensures
        (exists|i: int| 0 <= i < old.enums.len() && (#[trigger] enum_change(old.enums[i], new.enums)).contains(c))
            <==> breaking(old, new, c),
{
    if exists|i: int| 0 <= i < old.enums.len() && (#[trigger] enum_change(old.enums[i], new.enums)).contains(c) {
        let i = choose|i: int|
            0 <= i < old.enums.len() && (#[trigger] enum_change(old.enums[i], new.enums)).contains(c);
        let oe = old.enums[i];
        lemma_enum_change_elem(oe, new.enums, c);
        if lookup(new.enums, oe.name) is Some {
            let ne = lookup(new.enums, oe.name)->0;
            let m = choose|m: int|
                0 <= m < oe.values.len() && !ne.values.contains(#[trigger] oe.values[m]) && c
                    == (ChangeView::RemovedEnumValue { enum_name: oe.name, value: oe.values[m] });
            assert(old.enums[i].values[m] == oe.values[m]);
        }
    }
    if breaking(old, new, c) {
        match c {
            ChangeView::RemovedEnum { name } => {
                let i = choose|i: int| 0 <= i < old.enums.len() && (#[trigger] old.enums[i]).name == name;
                lemma_enum_change_elem(old.enums[i], new.enums, c);
                assert(enum_change(old.enums[i], new.enums).contains(c));
            },
            ChangeView::RemovedEnumValue { enum_name, value } => {
                let (i, m) = choose|i: int, m: int|
                    0 <= i < old.enums.len() && 0 <= m < old.enums[i].values.len()
                        && old.enums[i].name == enum_name && #[trigger] old.enums[i].values[m] == value;
                let oe = old.enums[i];
                lemma_enum_change_elem(oe, new.enums, c);
                assert(oe.values[m] == value);
                assert(enum_change(old.enums[i], new.enums).contains(c));
            },
            _ => {},
        }
    }
}

proof fn lemma_type_side_forward(old: SchemaView, new: SchemaView, c: ChangeView, i: int)
    requires
        0 <= i < old.types.len(),
        type_change(old.types[i], new.types).contains(c),
    ensures
        breaking(old, new, c),
{
    let ot = old.types[i];
    lemma_type_change_kinds(ot, new.types, c);
    lemma_type_change_elem(ot, new.types, c);
    if c is RemovedType {
        assert(old.types[i].name == ot.name);
    } else {
        let nt = lookup(new.types, ot.name)->0;
        let m = choose|m: int|
            0 <= m < ot.fields.len() && (#[trigger] field_change(ot.name, ot.fields[m], nt)).contains(c);
        let of = ot.fields[m];
        lemma_field_change_elem(ot.name, of, nt, c);
        assert(old_field_at(old, i, m, ot.name, of.name));
        match lookup(nt.fields, of.name) {
            None => {},
            Some(nf) => {
                if !(c is FieldTypeChanged) {
                    let l = choose|l: int|
                        0 <= l < nf.args.len() && (#[trigger] arg_change(ot.name, of, nf.args[l])).contains(c);
                    lemma_arg_change_elem(ot.name, of, nf.args[l], c);
                    assert(has_required_arg(nf.args, nf.args[l].name));
                }
            },
        }
    }
}

proof fn lemma_type_side_backward(old: SchemaView, new: SchemaView, c: ChangeView)
    requires
        breaking(old, new, c),
        !(c is RemovedEnum) && !(c is RemovedEnumValue),
    ensures
        exists|i: int| 0 <= i < old.types.len() && (#[trigger] type_change(old.types[i], new.types)).contains(c),
{
    match c {
        ChangeView::RemovedType { name } => {
            let i = choose|i: int| 0 <= i < old.types.len() && (#[trigger] old.types[i]).name == name;
            lemma_type_change_elem(old.types[i], new.types, c);
            assert(type_change(old.types[i], new.types).contains(c));
        },
        ChangeView::RemovedField { owner, field } => {
            let (i, m) = choose|i: int, m: int| old_field_at(old, i, m, owner, field);
            lemma_field_in_type(old, new, c, i, m);
        },
        ChangeView::FieldTypeChanged { owner, field, old_type, new_type } => {
            let (i, m) = choose|i: int, m: int|
                old_field_at(old, i, m, owner, field) && old.types[i].fields[m].type_sig == old_type;
            lemma_field_in_type(old, new, c, i, m);
        },
        ChangeView::NewRequiredArgument { owner, field, arg } => {
            let (i, m) = choose|i: int, m: int|
                old_field_at(old, i, m, owner, field) && lookup(old.types[i].fields[m].args, arg) is None;
            lemma_field_in_type(old, new, c, i, m);
        },
        ChangeView::ArgumentBecameRequired { owner, field, arg } => {
            let (i, m) = choose|i: int, m: int|
                old_field_at(old, i, m, owner, field) && lookup(old.types[i].fields[m].args, arg) is Some
                    && !lookup(old.types[i].fields[m].args, arg)->0.required();
            lemma_field_in_type(old, new, c, i, m);
        },
        _ => {},
    }
}

/// A field-level breaking change found at old field `m` of old container `i`
/// is reported by the comparison of that container.
proof fn lemma_field_in_type(old: SchemaView, new: SchemaView, c: ChangeView, i: int, m: int)
    requires
        breaking(old, new, c),
        c is RemovedField || c is FieldTypeChanged || is_arg_kind(c),
        0 <= i < old.types.len(),
        0 <= m < old.types[i].fields.len(),
        match c {
            ChangeView::RemovedField { owner, field } => old_field_at(old, i, m, owner, field),
            ChangeView::FieldTypeChanged { owner, field, old_type, new_type } => old_field_at(
                old,
                i,
                m,
                owner,
                field,
            ) && old.types[i].fields[m].type_sig == old_type,
            ChangeView::NewRequiredArgument { owner, field, arg } => old_field_at(
                old,
                i,
                m,
                owner,
                field,
            ) && lookup(old.types[i].fields[m].args, arg) is None,
            ChangeView::ArgumentBecameRequired { owner, field, arg } => old_field_at(
                old,
                i,
                m,
                owner,
                field,
            ) && lookup(old.types[i].fields[m].args, arg) is Some && !lookup(
                old.types[i].fields[m].args,
                arg,
            )->0.required(),
            _ => false,
        },
    ensures
        type_change(old.types[i], new.types).contains(c),
{
    let ot = old.types[i];
    let of = ot.fields[m];
    let nt = lookup(new.types, ot.name)->0;
    lemma_field_change_elem(ot.name, of, nt, c);
    match c {
        ChangeView::NewRequiredArgument { owner, field, arg } => {
            let nf = lookup(nt.fields, of.name)->0;
            let l = choose|l: int| 0 <= l < nf.args.len() && (#[trigger] nf.args[l]).name == arg && nf.args[l].required();
            lemma_arg_change_elem(ot.name, of, nf.args[l], c);
            assert(arg_change(ot.name, of, nf.args[l]).contains(c));
        },
        ChangeView::ArgumentBecameRequired { owner, field, arg } => {
            let nf = lookup(nt.fields, of.name)->0;
            let l = choose|l: int| 0 <= l < nf.args.len() && (#[trigger] nf.args[l]).name == arg && nf.args[l].required();
            lemma_arg_change_elem(ot.name, of, nf.args[l], c);
            assert(arg_change(ot.name, of, nf.args[l]).contains(c));
        },
        _ => {},
    }
    assert(field_change(ot.name, ot.fields[m], nt).contains(c));
    lemma_type_change_elem(ot, new.types, c);
}

/// The diff reports a change exactly when it is breaking: a container or
/// enum of the old schema is gone, a field or enum value is gone, a field's
/// type signature differs, a required argument is new, or an optional
/// argument became required. Nothing else (additions, removed arguments,
/// arguments that became optional) is ever reported.
pub proof fn lemma_diff_reports_exactly_breaking_changes(old: SchemaView, new: SchemaView, c: ChangeView)
    ensures
        diff_spec(old, new).contains(c) <==> breaking(old, new, c),
{
    let tpart = type_changes(old.types, new.types, old.types.len());
    let epart = enum_changes(old.enums, new.enums, old.enums.len());
    lemma_contains_concat(tpart, epart, c);
    lemma_type_changes_contains(old.types, new.types, old.types.len(), c);
    lemma_enum_changes_contains(old.enums, new.enums, old.enums.len(), c);
    if c is RemovedEnum || c is RemovedEnumValue {
        assert forall|i: int| 0 <= i < old.types.len() implies !(#[trigger] type_change(
            old.types[i],
            new.types,
        )).contains(c) by {
            if type_change(old.types[i], new.types).contains(c) {
                lemma_type_change_kinds(old.types[i], new.types, c);
            }
        }
        lemma_enum_side(old, new, c);
    } else {
        assert forall|i: int| 0 <= i < old.enums.len() implies !(#[trigger] enum_change(
            old.enums[i],
            new.enums,
        )).contains(c) by {
            if enum_change(old.enums[i], new.enums).contains(c) {
                lemma_enum_change_kinds(old.enums[i], new.enums, c);
            }
        }
        if tpart.contains(c) {
            let i = choose|i: int| 0 <= i < old.types.len() && (#[trigger] type_change(old.types[i], new.types)).contains(c);
            lemma_type_side_forward(old, new, c, i);
        }
        if breaking(old, new, c) {
            lemma_type_side_backward(old, new, c);
        }
    }
}

/// A document diffed against itself has no breaking change, provided it
/// reads as a schema and no field container repeats a field name and no
/// field repeats an argument name.
pub proof fn lemma_same_document_has_no_changes(input: Seq<char>, s: SchemaView)
    requires
        parse_spec(input) == Ok::<SchemaView, SchemaError>(s),
        distinct_members(s),
    ensures
        diff_spec(s, s) == Seq::<ChangeView>::empty(),
{
    lemma_parse_wf(input);
    lemma_diff_with_itself_is_empty(s);
}

/// An argument with a default is never reported as required, whatever its
/// type signature: when every argument named `arg` of the new field has a
/// default, no change says that `arg` is a new required argument or that it
/// became required.
pub proof fn lemma_defaulted_argument_is_never_reported(
    old: SchemaView,
    new: SchemaView,
    owner: Seq<char>,
    field: Seq<char>,
    arg: Seq<char>,
)
    requires
        new_field(new, owner, field) is Some ==> forall|l: int|
            0 <= l < new_field(new, owner, field)->0.args.len() && (#[trigger] new_field(
                new,
                owner,
                field,
            )->0.args[l]).name == arg ==> new_field(new, owner, field)->0.args[l].has_default,
    ensures
        !diff_spec(old, new).contains(ChangeView::NewRequiredArgument { owner, field, arg }),
        !diff_spec(old, new).contains(ChangeView::ArgumentBecameRequired { owner, field, arg }),
{
    let c1 = ChangeView::NewRequiredArgument { owner, field, arg };
    let c2 = ChangeView::ArgumentBecameRequired { owner, field, arg };
    lemma_diff_reports_exactly_breaking_changes(old, new, c1);
    lemma_diff_reports_exactly_breaking_changes(old, new, c2);
    if new_field(new, owner, field) is Some {
        let nf = new_field(new, owner, field)->0;
        if has_required_arg(nf.args, arg) {
            let l = choose|l: int| 0 <= l < nf.args.len() && (#[trigger] nf.args[l]).name == arg && nf.args[l].required();
            assert(nf.args[l].has_default);
        }
    }
}

} // verus!
