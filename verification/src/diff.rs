//! Breaking-change detection between two schemas.
use vstd::prelude::*;
use crate::schema::{
    args_view, enums_view, fields_view, find_enum, find_type, lookup, strings_view, types_view,
    Argument, ArgumentView, EnumType, EnumTypeView, Field, FieldView, Keyed, ObjectType,
    ObjectTypeView, Schema, SchemaView,
};

verus! {

/// A change that can break a client written against the old schema.
#[derive(Debug, Clone, PartialEq, Eq)]
pub enum Change {
    RemovedType { name: String },
    RemovedEnum { name: String },
    RemovedField { owner: String, field: String },
    RemovedEnumValue { enum_name: String, value: String },
    FieldTypeChanged { owner: String, field: String, old_type: String, new_type: String },
    NewRequiredArgument { owner: String, field: String, arg: String },
    ArgumentBecameRequired { owner: String, field: String, arg: String },
}

pub enum ChangeView {
    RemovedType { name: Seq<char> },
    RemovedEnum { name: Seq<char> },
    RemovedField { owner: Seq<char>, field: Seq<char> },
    RemovedEnumValue { enum_name: Seq<char>, value: Seq<char> },
    FieldTypeChanged {
        owner: Seq<char>,
        field: Seq<char>,
        old_type: Seq<char>,
        new_type: Seq<char>,
    },
    NewRequiredArgument { owner: Seq<char>, field: Seq<char>, arg: Seq<char> },
    ArgumentBecameRequired { owner: Seq<char>, field: Seq<char>, arg: Seq<char> },
}

impl View for Change {
    type V = ChangeView;

    open spec fn view(&self) -> ChangeView {
        match self {
            Change::RemovedType { name } => ChangeView::RemovedType { name: name@ },
            Change::RemovedEnum { name } => ChangeView::RemovedEnum { name: name@ },
            Change::RemovedField { owner, field } => ChangeView::RemovedField {
                owner: owner@,
                field: field@,
            },
            Change::RemovedEnumValue { enum_name, value } => ChangeView::RemovedEnumValue {
                enum_name: enum_name@,
                value: value@,
            },
            Change::FieldTypeChanged { owner, field, old_type, new_type } =>
                ChangeView::FieldTypeChanged {
                owner: owner@,
                field: field@,
                old_type: old_type@,
                new_type: new_type@,
            },
            Change::NewRequiredArgument { owner, field, arg } =>
                ChangeView::NewRequiredArgument { owner: owner@, field: field@, arg: arg@ },
            Change::ArgumentBecameRequired { owner, field, arg } =>
                ChangeView::ArgumentBecameRequired {
                owner: owner@,
                field: field@,
                arg: arg@,
            },
        }
    }
}

pub open spec fn changes_view(v: Seq<Change>) -> Seq<ChangeView> {
    v.map_values(|c: Change| c@)
}

impl Keyed for FieldView {
    open spec fn key(&self) -> Seq<char> {
        self.name
    }
}

impl Keyed for ArgumentView {
    open spec fn key(&self) -> Seq<char> {
        self.name
    }
}

/// What an argument `na` of the new version of field `of` of type `tn` breaks:
/// a required argument the old field did not have, or an optional one made required.
pub open spec fn arg_change(tn: Seq<char>, of: FieldView, na: ArgumentView) -> Seq<ChangeView> {
    match lookup(of.args, na.name) {
        None => if na.required() {
            seq![ChangeView::NewRequiredArgument { owner: tn, field: of.name, arg: na.name }]
        } else {
            seq![]
        },
        Some(oa) => if !oa.required() && na.required() {
            seq![ChangeView::ArgumentBecameRequired { owner: tn, field: of.name, arg: na.name }]
        } else {
            seq![]
        },
    }
}

/// The changes from the first `n` arguments of the new field `nf`.
pub open spec fn arg_changes(tn: Seq<char>, of: FieldView, nf: FieldView, n: nat) -> Seq<ChangeView>
    decreases n,
{
    if n == 0 {
        seq![]
    } else {
        arg_changes(tn, of, nf, (n - 1) as nat) + arg_change(tn, of, nf.args[n - 1])
    }
}

/// What happened to field `of` of type `tn` in the new version `nt` of its type.
pub open spec fn field_change(tn: Seq<char>, of: FieldView, nt: ObjectTypeView) -> Seq<ChangeView> {
    match lookup(nt.fields, of.name) {
        None => seq![ChangeView::RemovedField { owner: tn, field: of.name }],
        Some(nf) => (if of.type_sig != nf.type_sig {
            seq![
                ChangeView::FieldTypeChanged {
                    owner: tn,
                    field: of.name,
                    old_type: of.type_sig,
                    new_type: nf.type_sig,
                },
            ]
        } else {
            seq![]
        }) + arg_changes(tn, of, nf, nf.args.len()),
    }
}

/// The changes from the first `n` fields of the old type `ot`.
pub open spec fn field_changes(ot: ObjectTypeView, nt: ObjectTypeView, n: nat) -> Seq<ChangeView>
    decreases n,
{
    if n == 0 {
        seq![]
    } else {
        field_changes(ot, nt, (n - 1) as nat) + field_change(ot.name, ot.fields[n - 1], nt)
    }
}

/// What happened to the old type `ot` in the new table `news`.
pub open spec fn type_change(ot: ObjectTypeView, news: Seq<ObjectTypeView>) -> Seq<ChangeView> {
    match lookup(news, ot.name) {
        None => seq![ChangeView::RemovedType { name: ot.name }],
        Some(nt) => field_changes(ot, nt, ot.fields.len()),
    }
}

/// The changes from the first `n` old types.
pub open spec fn type_changes(olds: Seq<ObjectTypeView>, news: Seq<ObjectTypeView>, n: nat) -> Seq<
    ChangeView,
>
    decreases n,
{
    if n == 0 {
        seq![]
    } else {
        type_changes(olds, news, (n - 1) as nat) + type_change(olds[n - 1], news)
    }
}

/// The changes from the first `n` values of the old enum `oe`.
pub open spec fn value_changes(oe: EnumTypeView, ne: EnumTypeView, n: nat) -> Seq<ChangeView>
    decreases n,
{
    if n == 0 {
        seq![]
    } else {
        value_changes(oe, ne, (n - 1) as nat) + (if ne.values.contains(oe.values[n - 1]) {
            seq![]
        } else {
            seq![ChangeView::RemovedEnumValue { enum_name: oe.name, value: oe.values[n - 1] }]
        })
    }
}

/// What happened to the old enum `oe` in the new table `news`.
pub open spec fn enum_change(oe: EnumTypeView, news: Seq<EnumTypeView>) -> Seq<ChangeView> {
    match lookup(news, oe.name) {
        None => seq![ChangeView::RemovedEnum { name: oe.name }],
        Some(ne) => value_changes(oe, ne, oe.values.len()),
    }
}

/// The changes from the first `n` old enums.
pub open spec fn enum_changes(olds: Seq<EnumTypeView>, news: Seq<EnumTypeView>, n: nat) -> Seq<
    ChangeView,
>
    decreases n,
{
    if n == 0 {
        seq![]
    } else {
        enum_changes(olds, news, (n - 1) as nat) + enum_change(olds[n - 1], news)
    }
}

/// Every breaking change from `old` to `new`: first those of the field
/// containers, in the old schema's name order, then those of the enums.
pub open spec fn diff_spec(old: SchemaView, new: SchemaView) -> Seq<ChangeView> {
    type_changes(old.types, new.types, old.types.len()) + enum_changes(
        old.enums,
        new.enums,
        old.enums.len(),
    )
}

fn find_field<'a>(fs: &'a Vec<Field>, name: &String) -> (r: Option<&'a Field>)
    ensures
        r matches Some(f) ==> lookup(fields_view(fs@), name@) == Some(f@),
        r is None ==> lookup(fields_view(fs@), name@) is None,
{
    let mut i: usize = 0;
    assert(fields_view(fs@).skip(0) == fields_view(fs@));
    while i < fs.len()
        invariant
            i <= fs.len(),
            lookup(fields_view(fs@), name@) == lookup(fields_view(fs@).skip(i as int), name@),
        decreases fs.len() - i,
    {
        assert(fields_view(fs@).skip(i as int).drop_first() == fields_view(fs@).skip(i + 1));
        if fs[i].name == *name {
            return Some(&fs[i]);
        }
        i += 1;
    }
    None
}

fn find_arg<'a>(args: &'a Vec<Argument>, name: &String) -> (r: Option<&'a Argument>)
    ensures
        r matches Some(a) ==> lookup(args_view(args@), name@) == Some(a@),
        r is None ==> lookup(args_view(args@), name@) is None,
{
    let mut i: usize = 0;
    assert(args_view(args@).skip(0) == args_view(args@));
    while i < args.len()
        invariant
            i <= args.len(),
            lookup(args_view(args@), name@) == lookup(args_view(args@).skip(i as int), name@),
        decreases args.len() - i,
    {
        assert(args_view(args@).skip(i as int).drop_first() == args_view(args@).skip(i + 1));
        if args[i].name == *name {
            return Some(&args[i]);
        }
        i += 1;
    }
    None
}

fn contains_string(v: &Vec<String>, s: &String) -> (b: bool)
    ensures
        b == strings_view(v@).contains(s@),
{
    let mut i: usize = 0;
    while i < v.len()
        invariant
            i <= v.len(),
            forall|m: int| 0 <= m < i ==> strings_view(v@)[m] != s@,
        decreases v.len() - i,
    {
        if v[i] == *s {
            assert(strings_view(v@)[i as int] == s@);
            return true;
        }
        i += 1;
    }
    false
}

/// Appends `c` to `r`.
fn push_change(r: &mut Vec<Change>, c: Change)
    ensures
        changes_view(final(r)@) == changes_view(old(r)@).push(c@),
{
    r.push(c);
    assert(changes_view(r@) == changes_view(old(r)@).push(c@));
}

fn push_arg_changes(r: &mut Vec<Change>, tn: &String, of: &Field, nf: &Field)
    ensures
        changes_view(final(r)@) == changes_view(old(r)@) + arg_changes(
            tn@,
            of@,
            nf@,
            nf@.args.len(),
        ),
{
    let ghost start = changes_view(r@);
    let mut k: usize = 0;
    while k < nf.args.len()
        invariant
            k <= nf.args.len(),
            changes_view(r@) == start + arg_changes(tn@, of@, nf@, k as nat),
        decreases nf.args.len() - k,
    {
        let na = &nf.args[k];
        let ghost before = changes_view(r@);
        assert(nf@.args[k as int] == na@);
        match find_arg(&of.args, &na.name) {
            None => {
                if na.is_required() {
                    push_change(
                        r,
                        Change::NewRequiredArgument {
                            owner: tn.clone(),
                            field: of.name.clone(),
                            arg: na.name.clone(),
                        },
                    );
                }
            },
            Some(oa) => {
                if !oa.is_required() && na.is_required() {
                    push_change(
                        r,
                        Change::ArgumentBecameRequired {
                            owner: tn.clone(),
                            field: of.name.clone(),
                            arg: na.name.clone(),
                        },
                    );
                }
            },
        }
        assert(changes_view(r@) == before + arg_change(tn@, of@, na@));
        k += 1;
    }
}

fn push_field_changes(r: &mut Vec<Change>, ot: &ObjectType, nt: &ObjectType)
    ensures
        changes_view(final(r)@) == changes_view(old(r)@) + field_changes(
            ot@,
            nt@,
            ot@.fields.len(),
        ),
{
    let ghost start = changes_view(r@);
    let mut k: usize = 0;
    while k < ot.fields.len()
        invariant
            k <= ot.fields.len(),
            changes_view(r@) == start + field_changes(ot@, nt@, k as nat),
        decreases ot.fields.len() - k,
    {
        let of = &ot.fields[k];
        let ghost before = changes_view(r@);
        assert(ot@.fields[k as int] == of@);
        match find_field(&nt.fields, &of.name) {
            None => {
                push_change(
                    r,
                    Change::RemovedField { owner: ot.name.clone(), field: of.name.clone() },
                );
            },
            Some(nf) => {
                let ghost mid = changes_view(r@);
                if of.type_sig != nf.type_sig {
                    push_change(
                        r,
                        Change::FieldTypeChanged {
                            owner: ot.name.clone(),
                            field: of.name.clone(),
                            old_type: of.type_sig.clone(),
                            new_type: nf.type_sig.clone(),
                        },
                    );
                }
                let ghost mid2 = changes_view(r@);
                push_arg_changes(r, &ot.name, of, nf);
                assert(mid2 + arg_changes(ot@.name, of@, nf@, nf@.args.len()) == before
                    + field_change(ot@.name, of@, nt@));
            },
        }
        assert(changes_view(r@) == before + field_change(ot@.name, of@, nt@));
        k += 1;
    }
}

fn push_value_changes(r: &mut Vec<Change>, oe: &EnumType, ne: &EnumType)
    ensures
        changes_view(final(r)@) == changes_view(old(r)@) + value_changes(
            oe@,
            ne@,
            oe@.values.len(),
        ),
{
    let ghost start = changes_view(r@);
    let mut k: usize = 0;
    while k < oe.values.len()
        invariant
            k <= oe.values.len(),
            changes_view(r@) == start + value_changes(oe@, ne@, k as nat),
        decreases oe.values.len() - k,
    {
        let v = &oe.values[k];
        assert(oe@.values[k as int] == v@);
        if !contains_string(&ne.values, v) {
            push_change(r, Change::RemovedEnumValue { enum_name: oe.name.clone(), value: v.clone() });
        }
        k += 1;
    }
}

/// Compares `old` against `new`, reporting only changes that can break an
/// existing client generated against the old schema, not every difference.
/// A new type, a new enum, a new optional field, a new value on an enum that
/// is still there and a new optional argument are additive and produce no
/// [`Change`].
pub fn diff_schemas(old: &Schema, new: &Schema) -> (r: Vec<Change>)
    ensures
        changes_view(r@) == diff_spec(old@, new@),
{
    let mut r: Vec<Change> = Vec::new();
    let olds = old.types();
    let news = new.types();
    let mut i: usize = 0;
    while i < olds.len()
        invariant
            i <= olds.len(),
            types_view(olds@) == old@.types,
            types_view(news@) == new@.types,
            changes_view(r@) == type_changes(old@.types, new@.types, i as nat),
        decreases olds.len() - i,
    {
        let ot = &olds[i];
        let ghost before = changes_view(r@);
        assert(old@.types[i as int] == ot@);
        match find_type(news, &ot.name) {
            None => {
                push_change(&mut r, Change::RemovedType { name: ot.name.clone() });
            },
            Some(nt) => {
                push_field_changes(&mut r, ot, nt);
            },
        }
        assert(changes_view(r@) == before + type_change(ot@, new@.types));
        i += 1;
    }
    let ghost type_part = changes_view(r@);
    let olde = old.enums();
    let newe = new.enums();
    let mut i: usize = 0;
    while i < olde.len()
        invariant
            i <= olde.len(),
            enums_view(olde@) == old@.enums,
            enums_view(newe@) == new@.enums,
            type_part == type_changes(old@.types, new@.types, old@.types.len()),
            changes_view(r@) == type_part + enum_changes(old@.enums, new@.enums, i as nat),
        decreases olde.len() - i,
    {
        let oe = &olde[i];
        let ghost before = changes_view(r@);
        assert(old@.enums[i as int] == oe@);
        match find_enum(newe, &oe.name) {
            None => {
                push_change(&mut r, Change::RemovedEnum { name: oe.name.clone() });
            },
            Some(ne) => {
                push_value_changes(&mut r, oe, ne);
            },
        }
        assert(changes_view(r@) == before + enum_change(oe@, new@.enums));
        i += 1;
    }
    r
}

/// The one-line description of a change.
pub open spec fn describe_spec(c: ChangeView) -> Seq<char> {
    match c {
        ChangeView::RemovedType { name } => "type '"@ + name + "' removed"@,
        ChangeView::RemovedEnum { name } => "enum '"@ + name + "' removed"@,
        ChangeView::RemovedField { owner, field } => owner + "."@ + field + " removed"@,
        ChangeView::RemovedEnumValue { enum_name, value } => enum_name + ": enum value '"@ + value
            + "' removed"@,
        ChangeView::FieldTypeChanged { owner, field, old_type, new_type } => owner + "."@ + field
            + ": type changed from "@ + old_type + " to "@ + new_type,
        ChangeView::NewRequiredArgument { owner, field, arg } => owner + "."@ + field
            + ": new required argument '"@ + arg + "' — existing callers don't send it"@,
        ChangeView::ArgumentBecameRequired { owner, field, arg } => owner + "."@ + field
            + ": argument '"@ + arg + "' was optional, is now required"@,
    }
}

impl Change {
    /// A one-line, human-readable description of the change.
    pub fn describe(&self) -> (d: String)
        ensures
            d@ == describe_spec(self@),
    {
        let mut d = String::new();
        match self {
            Change::RemovedType { name } => {
                d.append("type '");
                d.append(name.as_str());
                d.append("' removed");
            },
            Change::RemovedEnum { name } => {
                d.append("enum '");
                d.append(name.as_str());
                d.append("' removed");
            },
            Change::RemovedField { owner, field } => {
                d.append(owner.as_str());
                d.append(".");
                d.append(field.as_str());
                d.append(" removed");
            },
            Change::RemovedEnumValue { enum_name, value } => {
                d.append(enum_name.as_str());
                d.append(": enum value '");
                d.append(value.as_str());
                d.append("' removed");
            },
            Change::FieldTypeChanged { owner, field, old_type, new_type } => {
                d.append(owner.as_str());
                d.append(".");
                d.append(field.as_str());
                d.append(": type changed from ");
                d.append(old_type.as_str());
                d.append(" to ");
                d.append(new_type.as_str());
            },
            Change::NewRequiredArgument { owner, field, arg } => {
                d.append(owner.as_str());
                d.append(".");
                d.append(field.as_str());
                d.append(": new required argument '");
                d.append(arg.as_str());
                d.append("' — existing callers don't send it");
            },
            Change::ArgumentBecameRequired { owner, field, arg } => {
                d.append(owner.as_str());
                d.append(".");
                d.append(field.as_str());
                d.append(": argument '");
                d.append(arg.as_str());
                d.append("' was optional, is now required");
            },
        }
        d
    }
}

} // verus!
