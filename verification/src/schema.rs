//! The schema model: types, their fields and arguments, and enums.
use vstd::prelude::*;
use crate::clean::{clean, clean_spec};
use crate::grammar::{
    extension_at, extension_at_exec, fields_from, find_matching_brace, header_at_exec,
    headers_from, lemma_header_at, matching_brace,
    parse_enum_values, parse_fields, sub_vec, values_from, HeaderKind, SchemaError,
};
use crate::text::{chars_of, lemma_seq_lt_total, lemma_seq_lt_transitive, seq_lt, str_lt, string_of};

verus! {

/// An argument of a field: `name: Type` with an optional `= default`.
#[derive(Debug, PartialEq, Eq)]
pub struct Argument {
    pub name: String,
    /// The type signature with all whitespace removed, e.g. `String`,
    /// `String!`, `[ID!]!`; compared as text.
    pub type_sig: String,
    /// Whether a default value was given; the value itself is not kept.
    pub has_default: bool,
}

pub struct ArgumentView {
    pub name: Seq<char>,
    pub type_sig: Seq<char>,
    pub has_default: bool,
}

impl ArgumentView {
    /// Non-null (the signature ends in `!`) and without a default to fall back to.
    pub open spec fn required(self) -> bool {
        &&& self.type_sig.len() > 0
        &&& self.type_sig.last() == '!'
        &&& !self.has_default
    }
}

impl View for Argument {
    type V = ArgumentView;

    open spec fn view(&self) -> ArgumentView {
        ArgumentView { name: self.name@, type_sig: self.type_sig@, has_default: self.has_default }
    }
}

impl Argument {
    /// An argument is a real requirement on the caller only if it is
    /// non-null (`!`) and has no default value to fall back to.
    pub fn is_required(&self) -> (b: bool)
        ensures
            b == self@.required(),
    {
        let s = self.type_sig.as_str();
        let n = s.unicode_len();
        n > 0 && s.get_char(n - 1) == '!' && !self.has_default
    }
}

/// A field: `name(args): Type`.
#[derive(Debug, PartialEq, Eq)]
pub struct Field {
    pub name: String,
    pub type_sig: String,
    pub args: Vec<Argument>,
}

pub struct FieldView {
    pub name: Seq<char>,
    pub type_sig: Seq<char>,
    pub args: Seq<ArgumentView>,
}

pub open spec fn args_view(v: Seq<Argument>) -> Seq<ArgumentView> {
    v.map_values(|a: Argument| a@)
}

impl View for Field {
    type V = FieldView;

    open spec fn view(&self) -> FieldView {
        FieldView { name: self.name@, type_sig: self.type_sig@, args: args_view(self.args@) }
    }
}

/// A field container: `type`, `input` or `interface`. All three share the
/// same `name: Type` field syntax and are kept as one kind.
#[derive(Debug, PartialEq, Eq)]
pub struct ObjectType {
    pub name: String,
    pub fields: Vec<Field>,
}

pub struct ObjectTypeView {
    pub name: Seq<char>,
    pub fields: Seq<FieldView>,
}

pub open spec fn fields_view(v: Seq<Field>) -> Seq<FieldView> {
    v.map_values(|f: Field| f@)
}

impl View for ObjectType {
    type V = ObjectTypeView;

    open spec fn view(&self) -> ObjectTypeView {
        ObjectTypeView { name: self.name@, fields: fields_view(self.fields@) }
    }
}

/// An enum and its values, in declaration order.
#[derive(Debug, PartialEq, Eq)]
pub struct EnumType {
    pub name: String,
    pub values: Vec<String>,
}

pub struct EnumTypeView {
    pub name: Seq<char>,
    pub values: Seq<Seq<char>>,
}

pub open spec fn strings_view(v: Seq<String>) -> Seq<Seq<char>> {
    v.map_values(|s: String| s@)
}

impl View for EnumType {
    type V = EnumTypeView;

    open spec fn view(&self) -> EnumTypeView {
        EnumTypeView { name: self.name@, values: strings_view(self.values@) }
    }
}

/// Entries of a name-keyed table.
pub trait Keyed {
    spec fn key(&self) -> Seq<char>;
}

impl Keyed for ObjectTypeView {
    open spec fn key(&self) -> Seq<char> {
        self.name
    }
}

impl Keyed for EnumTypeView {
    open spec fn key(&self) -> Seq<char> {
        self.name
    }
}

/// Keys strictly increase along `s`: the table has each key once, in key order.
pub open spec fn keys_sorted<T: Keyed>(s: Seq<T>) -> bool {
    forall|i: int, j: int| 0 <= i < j < s.len() ==> seq_lt(#[trigger] s[i].key(), #[trigger] s[j].key())
}

/// `t` put into the table `s` under its key, replacing the entry with that key if there is one.
pub open spec fn ins<T: Keyed>(s: Seq<T>, t: T) -> Seq<T>
    decreases s.len(),
{
    if s.len() == 0 {
        seq![t]
    } else if seq_lt(t.key(), s[0].key()) {
        seq![t] + s
    } else if t.key() == s[0].key() {
        seq![t] + s.drop_first()
    } else {
        seq![s[0]] + ins(s.drop_first(), t)
    }
}

/// The first entry of `s` under key `k`.
pub open spec fn lookup<T: Keyed>(s: Seq<T>, k: Seq<char>) -> Option<T>
    decreases s.len(),
{
    if s.len() == 0 {
        None
    } else if s[0].key() == k {
        Some(s[0])
    } else {
        lookup(s.drop_first(), k)
    }
}

/// Where `ins` puts `t`: after every smaller key.
pub proof fn lemma_ins_at<T: Keyed>(s: Seq<T>, t: T, k: int)
    requires
        keys_sorted(s),
        0 <= k <= s.len(),
        forall|m: int| 0 <= m < k ==> seq_lt(#[trigger] s[m].key(), t.key()),
        k == s.len() || !seq_lt(s[k].key(), t.key()),
    ensures
        ins(s, t) == (if k < s.len() && s[k].key() == t.key() {
            s.update(k, t)
        } else {
            s.insert(k, t)
        }),
        keys_sorted(ins(s, t)),
    decreases k,
{
    if k == 0 {
        if s.len() == 0 {
            assert(ins(s, t) =~= s.insert(0, t));
        } else if t.key() == s[0].key() {
            assert(ins(s, t) =~= s.update(0, t));
        } else {
            lemma_seq_lt_total(t.key(), s[0].key());
            assert(ins(s, t) =~= s.insert(0, t));
        }
    } else {
        let d = s.drop_first();
        assert forall|i: int, j: int| 0 <= i < j < d.len() implies seq_lt(
            #[trigger] d[i].key(),
            #[trigger] d[j].key(),
        ) by {
            assert(d[i] == s[i + 1] && d[j] == s[j + 1]);
        }
        assert forall|m: int| 0 <= m < k - 1 implies seq_lt(#[trigger] d[m].key(), t.key()) by {
            assert(d[m] == s[m + 1]);
        }
        assert(seq_lt(s[0].key(), t.key()));
        lemma_seq_lt_total(s[0].key(), t.key());
        assert(ins(s, t) == seq![s[0]] + ins(d, t));
        if k < s.len() {
            assert(d[k - 1] == s[k]);
        }
        lemma_ins_at(d, t, k - 1);
        if k < s.len() && s[k].key() == t.key() {
            assert(seq![s[0]] + d.update(k - 1, t) =~= s.update(k, t));
        } else {
            assert(seq![s[0]] + d.insert(k - 1, t) =~= s.insert(k, t));
        }
    }
    lemma_ins_sorted(s, t, k);
}

proof fn lemma_ins_sorted<T: Keyed>(s: Seq<T>, t: T, k: int)
    requires
        keys_sorted(s),
        0 <= k <= s.len(),
        forall|m: int| 0 <= m < k ==> seq_lt(#[trigger] s[m].key(), t.key()),
        k == s.len() || !seq_lt(s[k].key(), t.key()),
    ensures
        keys_sorted(if k < s.len() && s[k].key() == t.key() {
            s.update(k, t)
        } else {
            s.insert(k, t)
        }),
{
    if k < s.len() && s[k].key() == t.key() {
        let r = s.update(k, t);
        assert forall|i: int, j: int| 0 <= i < j < r.len() implies seq_lt(
            #[trigger] r[i].key(),
            #[trigger] r[j].key(),
        ) by {
            assert(r[i].key() == s[i].key());
            assert(r[j].key() == s[j].key());
        }
    } else {
        let r = s.insert(k, t);
        if k < s.len() {
            lemma_seq_lt_total(s[k].key(), t.key());
        }
        assert forall|i: int, j: int| 0 <= i < j < r.len() implies seq_lt(
            #[trigger] r[i].key(),
            #[trigger] r[j].key(),
        ) by {
            if j < k {
                assert(r[i] == s[i] && r[j] == s[j]);
            } else if j == k {
                assert(r[i] == s[i] && r[j] == t);
            } else if i < k {
                assert(r[i] == s[i] && r[j] == s[j - 1]);
                assert(seq_lt(s[k].key(), s[j - 1].key()) || k == j - 1);
                assert(seq_lt(t.key(), s[k].key()));
                lemma_seq_lt_transitive(s[i].key(), t.key(), s[k].key());
                if k < j - 1 {
                    lemma_seq_lt_transitive(s[i].key(), s[k].key(), s[j - 1].key());
                }
            } else if i == k {
                assert(r[i] == t && r[j] == s[j - 1]);
                if k < j - 1 {
                    lemma_seq_lt_transitive(t.key(), s[k].key(), s[j - 1].key());
                }
            } else {
                assert(r[i] == s[i - 1] && r[j] == s[j - 1]);
            }
        }
    }
}

/// A parsed schema: field containers and enums, each table keyed by name
/// and kept in name order.
#[derive(Debug)]
pub struct Schema {
    types: Vec<ObjectType>,
    enums: Vec<EnumType>,
}

pub struct SchemaView {
    pub types: Seq<ObjectTypeView>,
    pub enums: Seq<EnumTypeView>,
}

pub open spec fn types_view(v: Seq<ObjectType>) -> Seq<ObjectTypeView> {
    v.map_values(|t: ObjectType| t@)
}

pub open spec fn enums_view(v: Seq<EnumType>) -> Seq<EnumTypeView> {
    v.map_values(|e: EnumType| e@)
}

impl View for Schema {
    type V = SchemaView;

    closed spec fn view(&self) -> SchemaView {
        SchemaView { types: types_view(self.types@), enums: enums_view(self.enums@) }
    }
}

impl SchemaView {
    /// Both tables hold each name once, in name order.
    pub open spec fn wf(self) -> bool {
        keys_sorted(self.types) && keys_sorted(self.enums)
    }
}

impl Clone for Argument {
    fn clone(&self) -> (r: Self)
        ensures
            r@ == self@,
    {
        Argument {
            name: self.name.clone(),
            type_sig: self.type_sig.clone(),
            has_default: self.has_default,
        }
    }
}

impl Clone for Field {
    fn clone(&self) -> (r: Self)
        ensures
            r@ == self@,
    {
        let mut args: Vec<Argument> = Vec::new();
        let mut i: usize = 0;
        while i < self.args.len()
            invariant
                i <= self.args.len(),
                args_view(args@) == args_view(self.args@).take(i as int),
            decreases self.args.len() - i,
        {
            let a = self.args[i].clone();
            let ghost before = args_view(args@);
            args.push(a);
            assert(args_view(args@) == before.push(self.args@[i as int]@));
            assert(args_view(self.args@).take(i + 1) == args_view(self.args@).take(i as int).push(
                self.args@[i as int]@,
            ));
            i += 1;
        }
        assert(args_view(self.args@).take(self.args.len() as int) == args_view(self.args@));
        Field { name: self.name.clone(), type_sig: self.type_sig.clone(), args }
    }
}

impl Clone for ObjectType {
    fn clone(&self) -> (r: Self)
        ensures
            r@ == self@,
    {
        let mut fields: Vec<Field> = Vec::new();
        let mut i: usize = 0;
        while i < self.fields.len()
            invariant
                i <= self.fields.len(),
                fields_view(fields@) == fields_view(self.fields@).take(i as int),
            decreases self.fields.len() - i,
        {
            let f = self.fields[i].clone();
            let ghost before = fields_view(fields@);
            fields.push(f);
            assert(fields_view(fields@) == before.push(self.fields@[i as int]@));
            assert(fields_view(self.fields@).take(i + 1) == fields_view(self.fields@).take(
                i as int,
            ).push(self.fields@[i as int]@));
            i += 1;
        }
        assert(fields_view(self.fields@).take(self.fields.len() as int) == fields_view(self.fields@));
        ObjectType { name: self.name.clone(), fields }
    }
}

impl Clone for EnumType {
    fn clone(&self) -> (r: Self)
        ensures
            r@ == self@,
    {
        let mut values: Vec<String> = Vec::new();
        let mut i: usize = 0;
        while i < self.values.len()
            invariant
                i <= self.values.len(),
                strings_view(values@) == strings_view(self.values@).take(i as int),
            decreases self.values.len() - i,
        {
            let v = self.values[i].clone();
            let ghost before = strings_view(values@);
            values.push(v);
            assert(strings_view(values@) == before.push(self.values@[i as int]@));
            assert(strings_view(self.values@).take(i + 1) == strings_view(self.values@).take(
                i as int,
            ).push(self.values@[i as int]@));
            i += 1;
        }
        assert(strings_view(self.values@).take(self.values.len() as int) == strings_view(self.values@));
        EnumType { name: self.name.clone(), values }
    }
}

impl Clone for Schema {
    fn clone(&self) -> (r: Self)
        ensures
            r@ == self@,
    {
        proof {
            use_type_invariant(self);
        }
        let mut types: Vec<ObjectType> = Vec::new();
        let mut i: usize = 0;
        while i < self.types.len()
            invariant
                i <= self.types.len(),
                types_view(types@) == types_view(self.types@).take(i as int),
            decreases self.types.len() - i,
        {
            let t = self.types[i].clone();
            let ghost before = types_view(types@);
            types.push(t);
            assert(types_view(types@) == before.push(self.types@[i as int]@));
            assert(types_view(self.types@).take(i + 1) == types_view(self.types@).take(i as int).push(
                self.types@[i as int]@,
            ));
            i += 1;
        }
        assert(types_view(self.types@).take(self.types.len() as int) == types_view(self.types@));
        let mut enums: Vec<EnumType> = Vec::new();
        let mut i: usize = 0;
        while i < self.enums.len()
            invariant
                i <= self.enums.len(),
                enums_view(enums@) == enums_view(self.enums@).take(i as int),
            decreases self.enums.len() - i,
        {
            let e = self.enums[i].clone();
            let ghost before = enums_view(enums@);
            enums.push(e);
            assert(enums_view(enums@) == before.push(self.enums@[i as int]@));
            assert(enums_view(self.enums@).take(i + 1) == enums_view(self.enums@).take(i as int).push(
                self.enums@[i as int]@,
            ));
            i += 1;
        }
        assert(enums_view(self.enums@).take(self.enums.len() as int) == enums_view(self.enums@));
        Schema { types, enums }
    }
}

impl Default for Schema {
    fn default() -> (s: Schema)
        ensures
            s@.types.len() == 0,
            s@.enums.len() == 0,
    {
        Schema::new()
    }
}

impl Schema {
    #[verifier::type_invariant]
    spec fn inv(self) -> bool {
        self@.wf()
    }

    /// An empty schema.
    pub fn new() -> (s: Schema)
        ensures
            s@.types.len() == 0,
            s@.enums.len() == 0,
            s@.wf(),
    {
        let s = Schema { types: Vec::new(), enums: Vec::new() };
        assert(s@.types.len() == 0);
        s
    }

    /// The field containers, in name order.
    pub fn types(&self) -> (r: &Vec<ObjectType>)
        ensures
            types_view(r@) == self@.types,
            self@.wf(),
    {
        proof {
            use_type_invariant(self);
        }
        &self.types
    }

    /// The enums, in name order.
    pub fn enums(&self) -> (r: &Vec<EnumType>)
        ensures
            enums_view(r@) == self@.enums,
            self@.wf(),
    {
        proof {
            use_type_invariant(self);
        }
        &self.enums
    }

    /// Puts `t` into the table of field containers under its name, replacing
    /// the one of that name if there is one.
    pub fn insert_type(&mut self, t: ObjectType)
        ensures
            final(self)@.types == ins(old(self)@.types, t@),
            final(self)@.enums == old(self)@.enums,
            final(self)@.wf(),
    {
        proof {
            use_type_invariant(&*self);
        }
        let mut v: Vec<ObjectType> = Vec::new();
        std::mem::swap(&mut v, &mut self.types);
        let ghost s = types_view(v@);
        let mut k: usize = 0;
        while k < v.len() && str_lt(&v[k].name, &t.name)
            invariant
                k <= v.len(),
                s == types_view(v@),
                keys_sorted(s),
                forall|m: int| 0 <= m < k ==> seq_lt(#[trigger] s[m].key(), t@.key()),
            decreases v.len() - k,
        {
            k += 1;
        }
        proof {
            lemma_ins_at(s, t@, k as int);
        }
        if k < v.len() && v[k].name == t.name {
            v.set(k, t);
            assert(types_view(v@) == s.update(k as int, t@));
        } else {
            v.insert(k, t);
            assert(types_view(v@) == s.insert(k as int, t@));
        }
        self.types = v;
    }

    /// Puts `e` into the table of enums under its name, replacing the one of
    /// that name if there is one.
    pub fn insert_enum(&mut self, e: EnumType)
        ensures
            final(self)@.enums == ins(old(self)@.enums, e@),
            final(self)@.types == old(self)@.types,
            final(self)@.wf(),
    {
        proof {
            use_type_invariant(&*self);
        }
        let mut v: Vec<EnumType> = Vec::new();
        std::mem::swap(&mut v, &mut self.enums);
        let ghost s = enums_view(v@);
        let mut k: usize = 0;
        while k < v.len() && str_lt(&v[k].name, &e.name)
            invariant
                k <= v.len(),
                s == enums_view(v@),
                keys_sorted(s),
                forall|m: int| 0 <= m < k ==> seq_lt(#[trigger] s[m].key(), e@.key()),
            decreases v.len() - k,
        {
            k += 1;
        }
        proof {
            lemma_ins_at(s, e@, k as int);
        }
        if k < v.len() && v[k].name == e.name {
            v.set(k, e);
            assert(enums_view(v@) == s.update(k as int, e@));
        } else {
            v.insert(k, e);
            assert(enums_view(v@) == s.insert(k as int, e@));
        }
        self.enums = v;
    }
}

pub(crate) fn find_type<'a>(ts: &'a Vec<ObjectType>, name: &String) -> (r: Option<&'a ObjectType>)
    ensures
        r matches Some(t) ==> lookup(types_view(ts@), name@) == Some(t@),
        r is None ==> lookup(types_view(ts@), name@) is None,
{
    let mut i: usize = 0;
    assert(types_view(ts@).skip(0) == types_view(ts@));
    while i < ts.len()
        invariant
            i <= ts.len(),
            lookup(types_view(ts@), name@) == lookup(types_view(ts@).skip(i as int), name@),
        decreases ts.len() - i,
    {
        assert(types_view(ts@).skip(i as int).drop_first() == types_view(ts@).skip(i + 1));
        if ts[i].name == *name {
            return Some(&ts[i]);
        }
        i += 1;
    }
    None
}

pub(crate) fn find_enum<'a>(es: &'a Vec<EnumType>, name: &String) -> (r: Option<&'a EnumType>)
    ensures
        r matches Some(e) ==> lookup(enums_view(es@), name@) == Some(e@),
        r is None ==> lookup(enums_view(es@), name@) is None,
{
    let mut i: usize = 0;
    assert(enums_view(es@).skip(0) == enums_view(es@));
    while i < es.len()
        invariant
            i <= es.len(),
            lookup(enums_view(es@), name@) == lookup(enums_view(es@).skip(i as int), name@),
        decreases es.len() - i,
    {
        assert(enums_view(es@).skip(i as int).drop_first() == enums_view(es@).skip(i + 1));
        if es[i].name == *name {
            return Some(&es[i]);
        }
        i += 1;
    }
    None
}

impl Schema {
    /// The field container named `name`, if there is one.
    pub fn get_type(&self, name: &str) -> (r: Option<&ObjectType>)
        ensures
            r matches Some(t) ==> lookup(self@.types, name@) == Some(t@),
            r is None ==> lookup(self@.types, name@) is None,
    {
        let key = String::from_str(name);
        find_type(&self.types, &key)
    }

    /// The enum named `name`, if there is one.
    pub fn get_enum(&self, name: &str) -> (r: Option<&EnumType>)
        ensures
            r matches Some(e) ==> lookup(self@.enums, name@) == Some(e@),
            r is None ==> lookup(self@.enums, name@) is None,
    {
        let key = String::from_str(name);
        find_enum(&self.enums, &key)
    }

    /// Whether a field container named `name` is declared.
    pub fn contains_type(&self, name: &str) -> (b: bool)
        ensures
            b == lookup(self@.types, name@) is Some,
    {
        self.get_type(name).is_some()
    }

    /// Whether an enum named `name` is declared.
    pub fn contains_enum(&self, name: &str) -> (b: bool)
        ensures
            b == lookup(self@.enums, name@) is Some,
    {
        self.get_enum(name).is_some()
    }
}

/// The field container declared by header `h` of the cleaned text `c`.
pub open spec fn container_of(c: Seq<char>, h: (int, int, int, int)) -> ObjectTypeView {
    ObjectTypeView {
        name: c.subrange(h.1, h.2),
        fields: fields_from(c.subrange(h.3, matching_brace(c, h.3, 1)->0), 0),
    }
}

/// The enum declared by header `h` of the cleaned text `c`.
pub open spec fn enum_of(c: Seq<char>, h: (int, int, int, int)) -> EnumTypeView {
    EnumTypeView {
        name: c.subrange(h.1, h.2),
        values: values_from(c.subrange(h.3, matching_brace(c, h.3, 1)->0), 0),
    }
}

/// The table built from the first `n` container headers, in order: each
/// declaration is inserted under its name; type extensions are skipped.
pub open spec fn containers_upto(c: Seq<char>, hs: Seq<(int, int, int, int)>, n: nat) -> Seq<
    ObjectTypeView,
>
    decreases n,
{
    if n == 0 {
        seq![]
    } else if extension_at(c, hs[n - 1].0) {
        containers_upto(c, hs, (n - 1) as nat)
    } else {
        ins(containers_upto(c, hs, (n - 1) as nat), container_of(c, hs[n - 1]))
    }
}

/// The table built by inserting the enums of the first `n` headers, in order.
pub open spec fn enums_upto(c: Seq<char>, hs: Seq<(int, int, int, int)>, n: nat) -> Seq<EnumTypeView>
    decreases n,
{
    if n == 0 {
        seq![]
    } else {
        ins(enums_upto(c, hs, (n - 1) as nat), enum_of(c, hs[n - 1]))
    }
}

/// Every container declaration's `{` (extensions aside) has a matching `}`.
pub open spec fn containers_closed(c: Seq<char>, hs: Seq<(int, int, int, int)>) -> bool {
    forall|i: int|
        0 <= i < hs.len() && !extension_at(c, hs[i].0) ==> (#[trigger] matching_brace(c, hs[i].3, 1)) is Some
}

/// Every enum declaration's `{` has a matching `}`.
pub open spec fn enums_closed(c: Seq<char>, hs: Seq<(int, int, int, int)>) -> bool {
    forall|i: int| 0 <= i < hs.len() ==> (#[trigger] matching_brace(c, hs[i].3, 1)) is Some
}

/// What reading the document `input` gives.
pub open spec fn parse_spec(input: Seq<char>) -> Result<SchemaView, SchemaError> {
    let c = clean_spec(input);
    let th = headers_from(c, 0, HeaderKind::Container);
    let eh = headers_from(c, 0, HeaderKind::Enum);
    let types = containers_upto(c, th, th.len());
    let enums = enums_upto(c, eh, eh.len());
    if !containers_closed(c, th) || !enums_closed(c, eh) {
        Err(SchemaError::UnterminatedBlock)
    } else if types.len() == 0 && enums.len() == 0 {
        Err(SchemaError::NoDeclarations)
    } else {
        Ok(SchemaView { types, enums })
    }
}

/// Parses a GraphQL SDL document into a [`Schema`]. Not a full
/// spec-compliant parser: enough to diff `type`/`input`/`interface`/`enum`
/// declarations for breaking changes, not to validate arbitrary SDL.
pub fn parse_schema(input: &str) -> (r: Result<Schema, SchemaError>)
    ensures
        r matches Ok(s) ==> parse_spec(input@) == Ok::<SchemaView, SchemaError>(s@) && s@.wf(),
        r matches Err(e) ==> parse_spec(input@) == Err::<SchemaView, SchemaError>(e),
{
    let raw = chars_of(input);
    let c = clean(&raw);
    let mut schema = Schema::new();
    let ghost th = headers_from(c@, 0, HeaderKind::Container);
    let ghost eh = headers_from(c@, 0, HeaderKind::Enum);
    let ghost mut found: Seq<(int, int, int, int)> = seq![];
    let mut j: usize = 0;
    while j < c.len()
        invariant
            j <= c.len(),
            c@ == clean_spec(input@),
            th == headers_from(c@, 0, HeaderKind::Container),
            th == found + headers_from(c@, j as int, HeaderKind::Container),
            containers_closed(c@, found),
            schema@.types == containers_upto(c@, found, found.len()),
            schema@.enums.len() == 0,
        decreases c.len() - j,
    {
        proof {
            lemma_header_at(c@, j as int, HeaderKind::Container);
        }
        match header_at_exec(&c, j, HeaderKind::Container) {
            Some(h) => {
                let ghost hh = (j as int, h.0 as int, h.1 as int, h.2 as int);
                assert(headers_from(c@, j as int, HeaderKind::Container) == seq![hh] + headers_from(
                    c@,
                    h.2 as int,
                    HeaderKind::Container,
                ));
                assert(th[found.len() as int] == hh);
                if extension_at_exec(&c, j) {
                    let ghost prev = found;
                    proof {
                        found = found.push(hh);
                        assert(found.take(prev.len() as int) == prev);
                        lemma_containers_upto_take(c@, found, prev.len());
                        assert(containers_upto(c@, found, found.len()) == containers_upto(
                            c@,
                            prev,
                            prev.len(),
                        ));
                        assert(th == found + headers_from(c@, h.2 as int, HeaderKind::Container));
                        assert forall|i: int|
                            0 <= i < found.len() && !extension_at(c@, found[i].0) implies (
                        #[trigger] matching_brace(c@, found[i].3, 1)) is Some by {
                            assert(found[i] == prev[i]);
                        }
                    }
                    j = h.2;
                    continue;
                }
                let close = match find_matching_brace(&c, h.2) {
                    Ok(k) => k,
                    Err(e) => {
                        assert(!extension_at(c@, th[found.len() as int].0));
                        assert(matching_brace(c@, th[found.len() as int].3, 1) is None);
                        assert(!containers_closed(c@, th));
                        assert(c@ == clean_spec(input@));
                        assert(e == SchemaError::UnterminatedBlock);
                        assert(parse_spec(input@) == Err::<SchemaView, SchemaError>(
                            SchemaError::UnterminatedBlock,
                        ));
                        return Err(e);
                    },
                };
                proof {
                    crate::grammar::lemma_matching_brace(c@, h.2 as int, 1);
                }
                let body = sub_vec(&c, h.2, close);
                let fields = parse_fields(&body);
                let name = string_of(&c, h.0, h.1);
                let t = ObjectType { name, fields };
                assert(t@ == container_of(c@, hh));
                let ghost prev = found;
                proof {
                    found = found.push(hh);
                    assert(found.take(prev.len() as int) == prev);
                    assert(containers_upto(c@, found, found.len()) == ins(
                        containers_upto(c@, prev, prev.len()),
                        container_of(c@, hh),
                    )) by {
                        lemma_containers_upto_prefix(c@, found, prev.len());
                    }
                    assert(th == found + headers_from(c@, h.2 as int, HeaderKind::Container));
                    assert forall|i: int|
                        0 <= i < found.len() && !extension_at(c@, found[i].0) implies (
                    #[trigger] matching_brace(c@, found[i].3, 1)) is Some by {
                        if i < prev.len() {
                            assert(found[i] == prev[i]);
                        }
                    }
                }
                schema.insert_type(t);
                j = h.2;
            },
            None => {
                j += 1;
            },
        }
    }
    assert(found == th);
    let ghost tfound = found;
    proof {
        found = seq![];
    }
    let mut j: usize = 0;
    while j < c.len()
        invariant
            j <= c.len(),
            c@ == clean_spec(input@),
            eh == headers_from(c@, 0, HeaderKind::Enum),
            eh == found + headers_from(c@, j as int, HeaderKind::Enum),
            enums_closed(c@, found),
            schema@.enums == enums_upto(c@, found, found.len()),
            schema@.types == containers_upto(c@, th, th.len()),
            containers_closed(c@, th),
        decreases c.len() - j,
    {
        proof {
            lemma_header_at(c@, j as int, HeaderKind::Enum);
        }
        match header_at_exec(&c, j, HeaderKind::Enum) {
            Some(h) => {
                let ghost hh = (j as int, h.0 as int, h.1 as int, h.2 as int);
                assert(headers_from(c@, j as int, HeaderKind::Enum) == seq![hh] + headers_from(
                    c@,
                    h.2 as int,
                    HeaderKind::Enum,
                ));
                assert(eh[found.len() as int] == hh);
                let close = match find_matching_brace(&c, h.2) {
                    Ok(k) => k,
                    Err(e) => {
                        assert(matching_brace(c@, eh[found.len() as int].3, 1) is None);
                        assert(!enums_closed(c@, eh));
                        assert(c@ == clean_spec(input@));
                        assert(e == SchemaError::UnterminatedBlock);
                        assert(parse_spec(input@) == Err::<SchemaView, SchemaError>(
                            SchemaError::UnterminatedBlock,
                        ));
                        return Err(e);
                    },
                };
                proof {
                    crate::grammar::lemma_matching_brace(c@, h.2 as int, 1);
                }
                let body = sub_vec(&c, h.2, close);
                let values = parse_enum_values(&body);
                let name = string_of(&c, h.0, h.1);
                let e = EnumType { name, values };
                assert(e@ == enum_of(c@, hh));
                let ghost prev = found;
                proof {
                    found = found.push(hh);
                    assert(found.take(prev.len() as int) == prev);
                    assert(enums_upto(c@, found, found.len()) == ins(
                        enums_upto(c@, prev, prev.len()),
                        enum_of(c@, hh),
                    )) by {
                        lemma_enums_upto_prefix(c@, found, prev.len());
                    }
                    assert(eh == found + headers_from(c@, h.2 as int, HeaderKind::Enum));
                }
                schema.insert_enum(e);
                j = h.2;
            },
            None => {
                j += 1;
            },
        }
    }
    assert(found == eh);
    if schema.types().len() == 0 && schema.enums().len() == 0 {
        return Err(SchemaError::NoDeclarations);
    }
    Ok(schema)
}

/// The tables built from a sequence of headers depend only on the first `n`.
proof fn lemma_containers_upto_prefix(c: Seq<char>, hs: Seq<(int, int, int, int)>, n: nat)
    requires
        n < hs.len(),
        !extension_at(c, hs[n as int].0),
    ensures
        containers_upto(c, hs, (n + 1) as nat) == ins(
            containers_upto(c, hs.take(n as int), n),
            container_of(c, hs[n as int]),
        ),
{
    lemma_containers_upto_take(c, hs, n);
}

proof fn lemma_containers_upto_take(c: Seq<char>, hs: Seq<(int, int, int, int)>, n: nat)
    requires
        n <= hs.len(),
    ensures
        containers_upto(c, hs, n) == containers_upto(c, hs.take(n as int), n),
    decreases n,
{
    if n > 0 {
        lemma_containers_upto_take(c, hs, (n - 1) as nat);
        lemma_containers_upto_take(c, hs.take(n as int), (n - 1) as nat);
        assert(hs.take(n as int).take((n - 1) as int) == hs.take((n - 1) as int));
    }
}

proof fn lemma_enums_upto_prefix(c: Seq<char>, hs: Seq<(int, int, int, int)>, n: nat)
    requires
        n < hs.len(),
    ensures
        enums_upto(c, hs, (n + 1) as nat) == ins(
            enums_upto(c, hs.take(n as int), n),
            enum_of(c, hs[n as int]),
        ),
{
    lemma_enums_upto_take(c, hs, n);
}

proof fn lemma_enums_upto_take(c: Seq<char>, hs: Seq<(int, int, int, int)>, n: nat)
    requires
        n <= hs.len(),
    ensures
        enums_upto(c, hs, n) == enums_upto(c, hs.take(n as int), n),
    decreases n,
{
    if n > 0 {
        lemma_enums_upto_take(c, hs, (n - 1) as nat);
        lemma_enums_upto_take(c, hs.take(n as int), (n - 1) as nat);
        assert(hs.take(n as int).take((n - 1) as int) == hs.take((n - 1) as int));
    }
}

/// How many leading entries of `s` have keys below `t`'s.
spec fn below<T: Keyed>(s: Seq<T>, t: T) -> int
    decreases s.len(),
{
    if s.len() == 0 {
        0
    } else if seq_lt(s[0].key(), t.key()) {
        1 + below(s.drop_first(), t)
    } else {
        0
    }
}

proof fn lemma_below<T: Keyed>(s: Seq<T>, t: T)
    ensures
        0 <= below(s, t) <= s.len(),
        forall|m: int| 0 <= m < below(s, t) ==> seq_lt(#[trigger] s[m].key(), t.key()),
        below(s, t) == s.len() || !seq_lt(s[below(s, t)].key(), t.key()),
    decreases s.len(),
{
    if s.len() > 0 && seq_lt(s[0].key(), t.key()) {
        let d = s.drop_first();
        lemma_below(d, t);
        assert forall|m: int| 0 <= m < below(s, t) implies seq_lt(#[trigger] s[m].key(), t.key()) by {
            if m > 0 {
                assert(s[m] == d[m - 1]);
            }
        }
        if below(s, t) < s.len() {
            assert(s[below(s, t)] == d[below(d, t)]);
        }
    }
}

/// Inserting into a table in key order keeps it in key order.
pub proof fn lemma_ins_sorted_any<T: Keyed>(s: Seq<T>, t: T)
    requires
        keys_sorted(s),
    ensures
        keys_sorted(ins(s, t)),
{
    lemma_below(s, t);
    lemma_ins_at(s, t, below(s, t));
}

proof fn lemma_containers_upto_sorted(c: Seq<char>, hs: Seq<(int, int, int, int)>, n: nat)
    requires
        n <= hs.len(),
    ensures
        keys_sorted(containers_upto(c, hs, n)),
    decreases n,
{
    if n > 0 {
        lemma_containers_upto_sorted(c, hs, (n - 1) as nat);
        lemma_ins_sorted_any(containers_upto(c, hs, (n - 1) as nat), container_of(c, hs[n - 1]));
    }
}

proof fn lemma_enums_upto_sorted(c: Seq<char>, hs: Seq<(int, int, int, int)>, n: nat)
    requires
        n <= hs.len(),
    ensures
        keys_sorted(enums_upto(c, hs, n)),
    decreases n,
{
    if n > 0 {
        lemma_enums_upto_sorted(c, hs, (n - 1) as nat);
        lemma_ins_sorted_any(enums_upto(c, hs, (n - 1) as nat), enum_of(c, hs[n - 1]));
    }
}

/// A document that reads as a schema gives tables that hold each name once,
/// in name order.
pub proof fn lemma_parse_wf(input: Seq<char>)
    ensures
        parse_spec(input) matches Ok(s) ==> s.wf(),
{
    let c = clean_spec(input);
    let th = headers_from(c, 0, HeaderKind::Container);
    let eh = headers_from(c, 0, HeaderKind::Enum);
    lemma_containers_upto_sorted(c, th, th.len());
    lemma_enums_upto_sorted(c, eh, eh.len());
}

} // verus!
