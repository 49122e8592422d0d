//! Record definitions inferred from one sample object per resource.
use vstd::prelude::*;
use vstd::string::*;

use crate::codegen::{invalid_name, names_valid};

verus! {

broadcast use {
    vstd::seq::axiom_seq_index_decreases,
    vstd::seq::axiom_seq_subrange_decreases,
    vstd::std_specs::vec::axiom_vec_index_decreases,
    vstd::std_specs::vec::axiom_vec_decreases_to_view,
};

/// The shape of a sample JSON value: what inference reads of it.
pub enum SampleValue {
    Null,
    Boolean,
    Integer,
    Float,
    Text,
    Array(Vec<SampleValue>),
    Object(Vec<SampleField>),
}

/// One member of a sample object, under the provider's key.
pub struct SampleField {
    pub key: String,
    pub value: SampleValue,
}

/// The inferred type of a field.
pub enum TypeRef {
    Text,
    Integer,
    Float,
    Boolean,
    Record(String),
    ListOf(String),
    RawJson,
}

/// A field of a record: the provider's key, the normalized name, the type.
/// Every field is optional.
pub struct FieldSpec {
    pub original_name: String,
    pub name: String,
    pub ty: TypeRef,
}

/// A named record with its fields in the order of the sample.
pub struct RecordSpec {
    pub name: String,
    pub fields: Vec<FieldSpec>,
}

/// What a `TypeRef` stands for.
pub enum TypeModel {
    Text,
    Integer,
    Float,
    Boolean,
    Record(Seq<char>),
    ListOf(Seq<char>),
    RawJson,
}

/// What a `FieldSpec` stands for.
pub struct FieldModel {
    pub original_name: Seq<char>,
    pub name: Seq<char>,
    pub ty: TypeModel,
}

/// What a `RecordSpec` stands for.
pub struct RecordModel {
    pub name: Seq<char>,
    pub fields: Seq<FieldModel>,
}

impl View for TypeRef {
    type V = TypeModel;

    open spec fn view(&self) -> TypeModel {
        match self {
            TypeRef::Text => TypeModel::Text,
            TypeRef::Integer => TypeModel::Integer,
            TypeRef::Float => TypeModel::Float,
            TypeRef::Boolean => TypeModel::Boolean,
            TypeRef::Record(n) => TypeModel::Record(n@),
            TypeRef::ListOf(n) => TypeModel::ListOf(n@),
            TypeRef::RawJson => TypeModel::RawJson,
        }
    }
}

impl View for FieldSpec {
    type V = FieldModel;

    open spec fn view(&self) -> FieldModel {
        FieldModel { original_name: self.original_name@, name: self.name@, ty: self.ty@ }
    }
}

impl View for RecordSpec {
    type V = RecordModel;

    open spec fn view(&self) -> RecordModel {
        RecordModel { name: self.name@, fields: self.fields@.map_values(|f: FieldSpec| f@) }
    }
}

/// The snake_case spelling of a key.
pub uninterp spec fn snake_case_of(s: Seq<char>) -> Seq<char>;

/// The PascalCase spelling of a name.
pub uninterp spec fn pascal_case_of(s: Seq<char>) -> Seq<char>;

/// The singular of an English noun.
pub uninterp spec fn singular_of(s: Seq<char>) -> Seq<char>;

/// Relies on inflector's to_snake_case, a function of its argument alone.
#[verifier::external_body]
fn to_snake_case(s: &str) -> (r: String)
    ensures
        r@ == snake_case_of(s@),
{
    inflector::cases::snakecase::to_snake_case(s)
}

/// Relies on inflector's to_pascal_case, a function of its argument alone.
#[verifier::external_body]
fn to_pascal_case(s: &str) -> (r: String)
    ensures
        r@ == pascal_case_of(s@),
{
    inflector::cases::pascalcase::to_pascal_case(s)
}

/// Relies on inflector's to_singular, a function of its argument alone.
#[verifier::external_body]
fn to_singular(s: &str) -> (r: String)
    ensures
        r@ == singular_of(s@),
{
    inflector::string::singularize::to_singular(s)
}

/// The name that a field gets from its key after case conversion: the
/// synonyms of the two timestamps are replaced.
pub open spec fn renamed(snake: Seq<char>) -> Seq<char> {
    if snake == "created_on"@ {
        "created_at"@
    } else if snake == "last_changed_on"@ {
        "updated_at"@
    } else {
        snake
    }
}

/// The normalized name of a provider key.
pub open spec fn normalized_name(key: Seq<char>) -> Seq<char> {
    renamed(snake_case_of(key))
}

/// Applies the synonym table to a snake_case name.
pub fn rename_synonym(snake: String) -> (r: String)
    ensures
        r@ == renamed(snake@),
{
    let created_on = String::from_str("created_on");
    let last_changed_on = String::from_str("last_changed_on");
    if snake == created_on {
        String::from_str("created_at")
    } else if snake == last_changed_on {
        String::from_str("updated_at")
    } else {
        snake
    }
}

/// The normalized name of a provider key.
pub fn normalize_field_name(key: &str) -> (r: String)
    ensures
        r@ == normalized_name(key@),
{
    rename_synonym(to_snake_case(key))
}

/// A record of this name is in the set.
pub open spec fn has_record(st: Seq<RecordModel>, name: Seq<char>) -> bool {
    exists|i: int| 0 <= i < st.len() && (#[trigger] st[i]).name == name
}

/// Adds a record, in place of the one of the same name where there is one.
pub open spec fn put_record(st: Seq<RecordModel>, r: RecordModel) -> Seq<RecordModel> {
    if has_record(st, r.name) {
        let i = choose|i: int| 0 <= i < st.len() && (#[trigger] st[i]).name == r.name;
        st.update(i, r)
    } else {
        st.push(r)
    }
}

/// Infers the type of the value of `key`, with the records that it needs.
/// A record that already exists under the derived name is reused as it is.
pub open spec fn synth_type(st: Seq<RecordModel>, key: Seq<char>, v: SampleValue) -> (Seq<RecordModel>, TypeModel)
    decreases v,
{
    match v {
        SampleValue::Text => (st, TypeModel::Text),
        SampleValue::Integer => (st, TypeModel::Integer),
        SampleValue::Float => (st, TypeModel::Float),
        SampleValue::Boolean => (st, TypeModel::Boolean),
        SampleValue::Null => (st, TypeModel::RawJson),
        SampleValue::Object(fs) => {
            let n = pascal_case_of(key);
            if has_record(st, n) {
                (st, TypeModel::Record(n))
            } else {
                let (st2, fields) = synth_fields(st, fs@);
                (put_record(st2, RecordModel { name: n, fields }), TypeModel::Record(n))
            }
        },
        SampleValue::Array(items) => {
            if items@.len() > 0 && items@[0] is Object {
                let n = pascal_case_of(singular_of(key));
                if has_record(st, n) {
                    (st, TypeModel::ListOf(n))
                } else {
                    let (st2, fields) = synth_fields(st, items@[0]->Object_0@);
                    (put_record(st2, RecordModel { name: n, fields }), TypeModel::ListOf(n))
                }
            } else {
                (st, TypeModel::RawJson)
            }
        },
    }
}

/// The fields of a record, in order, with the records that their types need.
pub open spec fn synth_fields(st: Seq<RecordModel>, fields: Seq<SampleField>) -> (Seq<RecordModel>, Seq<FieldModel>)
    decreases fields,
{
    if fields.len() == 0 {
        (st, Seq::empty())
    } else {
        let f = fields[0];
        let (st1, ty) = synth_type(st, f.key@, f.value);
        let (st2, rest) = synth_fields(st1, fields.drop_first());
        (st2, seq![FieldModel { original_name: f.key@, name: normalized_name(f.key@), ty }] + rest)
    }
}

/// The records after one named sample object is added.
pub open spec fn synth_record(st: Seq<RecordModel>, name: Seq<char>, fields: Seq<SampleField>) -> Seq<RecordModel> {
    let (st2, fs) = synth_fields(st, fields);
    put_record(st2, RecordModel { name, fields: fs })
}

/// No two records share a name.
pub open spec fn names_unique(st: Seq<RecordModel>) -> bool {
    forall|i: int, j: int|
        0 <= i < st.len() && 0 <= j < st.len() && (#[trigger] st[i]).name == (#[trigger] st[j]).name ==> i == j
}

pub open spec fn fields_view(fs: Seq<FieldSpec>) -> Seq<FieldModel> {
    fs.map_values(|f: FieldSpec| f@)
}

/// The records of one generation run, built one sample at a time.
pub struct SchemaBuilder {
    pub records: Vec<RecordSpec>,
}

impl View for SchemaBuilder {
    type V = Seq<RecordModel>;

    open spec fn view(&self) -> Seq<RecordModel> {
        self.records@.map_values(|r: RecordSpec| r@)
    }
}

impl SchemaBuilder {
    pub open spec fn wf(&self) -> bool {
        names_unique(self@)
    }

    /// A builder with no records.
    pub fn new() -> (r: SchemaBuilder)
        ensures
            r@ == Seq::<RecordModel>::empty(),
            r.wf(),
    {
        let r = SchemaBuilder { records: Vec::new() };
        assert(r@ =~= Seq::<RecordModel>::empty());
        r
    }

    /// Where the record of a name stands, if there is one.
    pub fn find(&self, name: &String) -> (r: Option<usize>)
        ensures
            r is Some <==> has_record(self@, name@),
            r matches Some(i) ==> i < self@.len() && self@[i as int].name == name@,
    {
        let mut i: usize = 0;
        while i < self.records.len()
            invariant
                0 <= i <= self.records.len(),
                forall|j: int| 0 <= j < i ==> (#[trigger] self@[j]).name != name@,
            decreases self.records.len() - i,
        {
            if self.records[i].name == *name {
                assert(self@[i as int] == self.records@[i as int]@);
                return Some(i);
            }
            i = i + 1;
        }
        None
    }

    fn put(&mut self, r: RecordSpec)
        requires
            old(self).wf(),
        ensures
            final(self)@ == put_record(old(self)@, r@),
            final(self).wf(),
    {
        let ghost name = r@.name;
        match self.find(&r.name) {
            Some(i) => {
                proof {
                    let k = choose|k: int| 0 <= k < self@.len() && (#[trigger] self@[k]).name == name;
                    assert(self@[k].name == self@[i as int].name);
                }
                self.records.set(i, r);
                proof {
                    let k = choose|k: int| 0 <= k < old(self)@.len() && (#[trigger] old(self)@[k]).name == name;
                    assert(old(self)@[k].name == old(self)@[i as int].name);
                    assert(self@ =~= put_record(old(self)@, r@));
                }
            },
            None => {
                self.records.push(r);
                assert(self@ =~= put_record(old(self)@, r@));
            },
        }
    }

    fn infer_type(&mut self, key: &String, v: &SampleValue) -> (r: TypeRef)
        requires
            old(self).wf(),
        ensures
            (final(self)@, r@) == synth_type(old(self)@, key@, *v),
            final(self).wf(),
        decreases *v,
    {
        match v {
            SampleValue::Text => TypeRef::Text,
            SampleValue::Integer => TypeRef::Integer,
            SampleValue::Float => TypeRef::Float,
            SampleValue::Boolean => TypeRef::Boolean,
            SampleValue::Null => TypeRef::RawJson,
            SampleValue::Object(fs) => {
                let n = to_pascal_case(key.as_str());
                if self.find(&n).is_none() {
                    let fields = self.add_fields(fs);
                    self.put(RecordSpec { name: n.clone(), fields });
                }
                TypeRef::Record(n)
            },
            SampleValue::Array(items) => {
                if items.len() > 0 {
                    match &items[0] {
                        SampleValue::Object(fs) => {
                            let singular = to_singular(key.as_str());
                            let n = to_pascal_case(singular.as_str());
                            if self.find(&n).is_none() {
                                let fields = self.add_fields(fs);
                                self.put(RecordSpec { name: n.clone(), fields });
                            }
                            TypeRef::ListOf(n)
                        },
                        _ => TypeRef::RawJson,
                    }
                } else {
                    TypeRef::RawJson
                }
            },
        }
    }

    fn add_fields(&mut self, fields: &Vec<SampleField>) -> (r: Vec<FieldSpec>)
        requires
            old(self).wf(),
        ensures
            (final(self)@, fields_view(r@)) == synth_fields(old(self)@, fields@),
            final(self).wf(),
        decreases fields@,
    {
        let ghost all = synth_fields(self@, fields@);
        let mut out: Vec<FieldSpec> = Vec::new();
        let mut i: usize = 0;
        assert(fields@.subrange(0, fields@.len() as int) =~= fields@);
        while i < fields.len()
            invariant
                0 <= i <= fields.len(),
                self.wf(),
                all.0 == synth_fields(self@, fields@.subrange(i as int, fields@.len() as int)).0,
                all.1 == fields_view(out@) + synth_fields(self@, fields@.subrange(i as int, fields@.len() as int)).1,
            decreases fields.len() - i,
        {
            let ghost rest = fields@.subrange(i as int, fields@.len() as int);
            let ghost before = self@;
            assert(rest[0] == fields@[i as int]);
            assert(rest.drop_first() =~= fields@.subrange(i + 1, fields@.len() as int));
            let key = &fields[i].key;
            let ty = self.infer_type(key, &fields[i].value);
            let name = normalize_field_name(key.as_str());
            let f = FieldSpec { original_name: key.clone(), name, ty };
            let ghost out_before = out@;
            out.push(f);
            assert(fields_view(out@) =~= fields_view(out_before) + seq![f@]);
            i = i + 1;
        }
        assert(fields@.subrange(i as int, fields@.len() as int).len() == 0);
        assert(all.1 =~= fields_view(out@));
        out
    }

    /// Adds the record `name` made from a sample object, and the records that
    /// its fields need. A record already present under `name` is replaced.
    pub fn add_record(&mut self, name: String, fields: &Vec<SampleField>)
        requires
            old(self).wf(),
        ensures
            final(self)@ == synth_record(old(self)@, name@, fields@),
            final(self).wf(),
    {
        let fs = self.add_fields(fields);
        self.put(RecordSpec { name, fields: fs });
    }
}

/// One resource's sample object under the resource's name.
pub struct Sample {
    pub name: String,
    pub fields: Vec<SampleField>,
}

/// The records after each sample is added in turn, under the PascalCase
/// spelling of its resource's name.
pub open spec fn synth_all(st: Seq<RecordModel>, samples: Seq<Sample>) -> Seq<RecordModel>
    decreases samples.len(),
{
    if samples.len() == 0 {
        st
    } else {
        let s = samples[0];
        synth_all(synth_record(st, pascal_case_of(s.name@), s.fields@), samples.drop_first())
    }
}

pub open spec fn records_view(rs: Seq<RecordSpec>) -> Seq<RecordModel> {
    rs.map_values(|r: RecordSpec| r@)
}

impl SchemaBuilder {
    /// Adds the record of a resource, named in PascalCase.
    pub fn add_resource(&mut self, name: &str, fields: &Vec<SampleField>)
        requires
            old(self).wf(),
        ensures
            final(self)@ == synth_record(old(self)@, pascal_case_of(name@), fields@),
            final(self).wf(),
    {
        let n = to_pascal_case(name);
        self.add_record(n, fields);
    }
}

/// Why a set of samples gives no record definitions.
pub enum SchemaError {
    /// A record or field name, derived from a resource name or a key, that
    /// cannot be written in Rust source.
    InvalidName(String),
}

/// The record definitions of a set of samples, one resource each, in the
/// order in which they were first made. Fails where a derived record or
/// field name cannot be written in Rust source.
pub fn generate_schema(samples: &Vec<Sample>) -> (r: Result<Vec<RecordSpec>, SchemaError>)
    ensures
        r is Ok <==> names_valid(synth_all(Seq::empty(), samples@)),
        r matches Ok(rs) ==> records_view(rs@) == synth_all(Seq::empty(), samples@),
        r matches Ok(rs) ==> names_unique(records_view(rs@)),
{
    let mut b = SchemaBuilder::new();
    let mut i: usize = 0;
    assert(samples@.subrange(0, samples@.len() as int) =~= samples@);
    while i < samples.len()
        invariant
            0 <= i <= samples.len(),
            b.wf(),
            synth_all(Seq::empty(), samples@) == synth_all(b@, samples@.subrange(i as int, samples@.len() as int)),
        decreases samples.len() - i,
    {
        let ghost rest = samples@.subrange(i as int, samples@.len() as int);
        assert(rest[0] == samples@[i as int]);
        assert(rest.drop_first() =~= samples@.subrange(i + 1, samples@.len() as int));
        b.add_resource(samples[i].name.as_str(), &samples[i].fields);
        i = i + 1;
    }
    assert(samples@.subrange(i as int, samples@.len() as int).len() == 0);
    match invalid_name(&b.records) {
        Some(name) => Err(SchemaError::InvalidName(name)),
        None => Ok(b.records),
    }
}

pub open spec fn fields_normalized(fs: Seq<FieldModel>) -> bool {
    forall|j: int| 0 <= j < fs.len() ==> (#[trigger] fs[j]).name == normalized_name(fs[j].original_name)
}

pub open spec fn records_normalized(st: Seq<RecordModel>) -> bool {
    forall|i: int| 0 <= i < st.len() ==> fields_normalized((#[trigger] st[i]).fields)
}

proof fn lemma_put_record(st: Seq<RecordModel>, r: RecordModel)
    ensures
        has_record(put_record(st, r), r.name),
        records_normalized(st) && fields_normalized(r.fields) ==> records_normalized(put_record(st, r)),
{
    let st2 = put_record(st, r);
    if has_record(st, r.name) {
        let i = choose|i: int| 0 <= i < st.len() && (#[trigger] st[i]).name == r.name;
        assert(st2[i].name == r.name);
    } else {
        assert(st2[st.len() as int].name == r.name);
    }
    if records_normalized(st) && fields_normalized(r.fields) {
        assert forall|i: int| 0 <= i < st2.len() implies fields_normalized((#[trigger] st2[i]).fields) by {
            if st2[i] != r {
                assert(st2[i] == st[i]);
            }
        }
    }
}

proof fn lemma_type_normalized(st: Seq<RecordModel>, key: Seq<char>, v: SampleValue)
    requires
        records_normalized(st),
    ensures
        records_normalized(synth_type(st, key, v).0),
    decreases v,
{
    match v {
        SampleValue::Object(fs) => {
            if !has_record(st, pascal_case_of(key)) {
                lemma_fields_normalized(st, fs@);
                let (st2, fields) = synth_fields(st, fs@);
                lemma_put_record(st2, RecordModel { name: pascal_case_of(key), fields });
            }
        },
        SampleValue::Array(items) => {
            if items@.len() > 0 && items@[0] is Object {
                let n = pascal_case_of(singular_of(key));
                if !has_record(st, n) {
                    let fs = items@[0]->Object_0@;
                    lemma_fields_normalized(st, fs);
                    let (st2, fields) = synth_fields(st, fs);
                    lemma_put_record(st2, RecordModel { name: n, fields });
                }
            }
        },
        _ => {},
    }
}

proof fn lemma_fields_normalized(st: Seq<RecordModel>, fields: Seq<SampleField>)
    requires
        records_normalized(st),
    ensures
        records_normalized(synth_fields(st, fields).0),
        fields_normalized(synth_fields(st, fields).1),
        synth_fields(st, fields).1.len() == fields.len(),
        forall|j: int| 0 <= j < fields.len()
            ==> (#[trigger] synth_fields(st, fields).1[j]).original_name == fields[j].key@,
    decreases fields,
{
    if fields.len() > 0 {
        let f = fields[0];
        lemma_type_normalized(st, f.key@, f.value);
        let st1 = synth_type(st, f.key@, f.value).0;
        let tail = fields.drop_first();
        lemma_fields_normalized(st1, tail);
        let out = synth_fields(st, fields).1;
        assert forall|j: int| 0 <= j < fields.len() implies (#[trigger] out[j]).original_name == fields[j].key@ by {
            if j > 0 {
                assert(out[j] == synth_fields(st1, tail).1[j - 1]);
                assert(tail[j - 1] == fields[j]);
            }
        }
    }
}

proof fn lemma_all_normalized(st: Seq<RecordModel>, samples: Seq<Sample>)
    requires
        records_normalized(st),
    ensures
        records_normalized(synth_all(st, samples)),
    decreases samples.len(),
{
    if samples.len() > 0 {
        let s = samples[0];
        lemma_fields_normalized(st, s.fields@);
        let (st2, fs) = synth_fields(st, s.fields@);
        lemma_put_record(st2, RecordModel { name: pascal_case_of(s.name@), fields: fs });
        lemma_all_normalized(synth_record(st, pascal_case_of(s.name@), s.fields@), samples.drop_first());
    }
}

/// Every field of every record that synthesis makes, nested ones included,
/// is named from its own key alone: its snake_case spelling, except that
/// `created_on` always becomes `created_at` and `last_changed_on` always
/// becomes `updated_at`, whatever the rest of the samples hold.
pub proof fn lemma_synonyms(samples: Seq<Sample>)
    ensures
        forall|i: int, j: int|
            0 <= i < synth_all(Seq::empty(), samples).len()
                && 0 <= j < synth_all(Seq::empty(), samples)[i].fields.len() ==> {
                let f = #[trigger] synth_all(Seq::empty(), samples)[i].fields[j];
                &&& f.name == normalized_name(f.original_name)
                &&& snake_case_of(f.original_name) == "created_on"@ ==> f.name == "created_at"@
                &&& snake_case_of(f.original_name) == "last_changed_on"@ ==> f.name == "updated_at"@
            },
{
    lemma_all_normalized(Seq::empty(), samples);
    let st = synth_all(Seq::empty(), samples);
    assert forall|i: int, j: int| 0 <= i < st.len() && 0 <= j < st[i].fields.len() implies {
        let f = #[trigger] st[i].fields[j];
        &&& f.name == normalized_name(f.original_name)
        &&& snake_case_of(f.original_name) == "created_on"@ ==> f.name == "created_at"@
        &&& snake_case_of(f.original_name) == "last_changed_on"@ ==> f.name == "updated_at"@
    } by {
        assert(fields_normalized(st[i].fields));
        reveal_strlit("created_on");
        reveal_strlit("last_changed_on");
        assert("last_changed_on"@.len() != "created_on"@.len());
        let f = st[i].fields[j];
        assert(f.name == normalized_name(f.original_name));
        assert(snake_case_of(f.original_name) == "created_on"@ ==> f.name == "created_at"@);
        assert(snake_case_of(f.original_name) == "last_changed_on"@ ==> f.name == "updated_at"@);
    }
}

/// `a` and `b` are the same sample value: the same shape, with keys that
/// read the same.
pub open spec fn alike(a: SampleValue, b: SampleValue) -> bool
    decreases a,
{
    match a {
        SampleValue::Array(xs) => match b {
            SampleValue::Array(ys) => xs@.len() == ys@.len() && forall|i: int|
                0 <= i < xs@.len() ==> alike(#[trigger] xs@[i], ys@[i]),
            _ => false,
        },
        SampleValue::Object(fs) => match b {
            SampleValue::Object(gs) => fields_alike(fs@, gs@),
            _ => false,
        },
        SampleValue::Null => b is Null,
        SampleValue::Boolean => b is Boolean,
        SampleValue::Integer => b is Integer,
        SampleValue::Float => b is Float,
        SampleValue::Text => b is Text,
    }
}

pub open spec fn fields_alike(fs: Seq<SampleField>, gs: Seq<SampleField>) -> bool
    decreases fs,
{
    fs.len() == gs.len() && forall|i: int|
        0 <= i < fs.len() ==> (#[trigger] fs[i]).key@ == gs[i].key@ && alike(fs[i].value, gs[i].value)
}

pub open spec fn samples_alike(a: Seq<Sample>, b: Seq<Sample>) -> bool {
    a.len() == b.len() && forall|i: int|
        0 <= i < a.len() ==> (#[trigger] a[i]).name@ == b[i].name@ && fields_alike(a[i].fields@, b[i].fields@)
}

proof fn lemma_type_alike(st: Seq<RecordModel>, key: Seq<char>, a: SampleValue, b: SampleValue)
    requires
        alike(a, b),
    ensures
        synth_type(st, key, a) == synth_type(st, key, b),
    decreases a,
{
    match a {
        SampleValue::Object(fs) => {
            let gs = b->Object_0;
            lemma_fields_alike(st, fs@, gs@);
        },
        SampleValue::Array(xs) => {
            let ys = b->Array_0;
            if xs@.len() > 0 {
                assert(alike(xs@[0], ys@[0]));
                if xs@[0] is Object {
                    lemma_fields_alike(st, xs@[0]->Object_0@, ys@[0]->Object_0@);
                }
            }
        },
        _ => {},
    }
}

proof fn lemma_fields_alike(st: Seq<RecordModel>, fs: Seq<SampleField>, gs: Seq<SampleField>)
    requires
        fields_alike(fs, gs),
    ensures
        synth_fields(st, fs) == synth_fields(st, gs),
    decreases fs,
{
    if fs.len() > 0 {
        assert(fs[0].key@ == gs[0].key@ && alike(fs[0].value, gs[0].value));
        lemma_type_alike(st, fs[0].key@, fs[0].value, gs[0].value);
        let st1 = synth_type(st, fs[0].key@, fs[0].value).0;
        assert(fields_alike(fs.drop_first(), gs.drop_first())) by {
            assert forall|i: int| 0 <= i < fs.drop_first().len() implies
                (#[trigger] fs.drop_first()[i]).key@ == gs.drop_first()[i].key@
                    && alike(fs.drop_first()[i].value, gs.drop_first()[i].value) by {
                assert(fs.drop_first()[i] == fs[i + 1]);
                assert(gs.drop_first()[i] == gs[i + 1]);
            }
        }
        lemma_fields_alike(st1, fs.drop_first(), gs.drop_first());
    }
}

proof fn lemma_all_alike(st: Seq<RecordModel>, a: Seq<Sample>, b: Seq<Sample>)
    requires
        samples_alike(a, b),
    ensures
        synth_all(st, a) == synth_all(st, b),
    decreases a.len(),
{
    if a.len() > 0 {
        assert(a[0].name@ == b[0].name@ && fields_alike(a[0].fields@, b[0].fields@));
        lemma_fields_alike(st, a[0].fields@, b[0].fields@);
        let st1 = synth_record(st, pascal_case_of(a[0].name@), a[0].fields@);
        assert(samples_alike(a.drop_first(), b.drop_first())) by {
            assert forall|i: int| 0 <= i < a.drop_first().len() implies
                (#[trigger] a.drop_first()[i]).name@ == b.drop_first()[i].name@
                    && fields_alike(a.drop_first()[i].fields@, b.drop_first()[i].fields@) by {
                assert(a.drop_first()[i] == a[i + 1]);
                assert(b.drop_first()[i] == b[i + 1]);
            }
        }
        lemma_all_alike(st1, a.drop_first(), b.drop_first());
    }
}

/// Synthesis is deterministic: samples that read the same (the same
/// resource names, keys and value shapes, in the same order) give the same
/// records, field names and types; and each record that a sample object
/// makes lists one field per key, in the order of the keys.
pub proof fn lemma_deterministic(a: Seq<Sample>, b: Seq<Sample>, st: Seq<RecordModel>, fields: Seq<SampleField>)
    requires
        samples_alike(a, b),
    ensures
        synth_all(Seq::empty(), a) == synth_all(Seq::empty(), b),
        synth_fields(st, fields).1.len() == fields.len(),
        forall|j: int| 0 <= j < fields.len()
            ==> (#[trigger] synth_fields(st, fields).1[j]).original_name == fields[j].key@
                && synth_fields(st, fields).1[j].name == normalized_name(fields[j].key@),
{
    lemma_all_alike(Seq::empty(), a, b);
    lemma_fields_order(st, fields);
}

proof fn lemma_fields_order(st: Seq<RecordModel>, fields: Seq<SampleField>)
    ensures
        synth_fields(st, fields).1.len() == fields.len(),
        forall|j: int| 0 <= j < fields.len()
            ==> (#[trigger] synth_fields(st, fields).1[j]).original_name == fields[j].key@
                && synth_fields(st, fields).1[j].name == normalized_name(fields[j].key@),
    decreases fields,
{
    if fields.len() > 0 {
        let f = fields[0];
        let st1 = synth_type(st, f.key@, f.value).0;
        let tail = fields.drop_first();
        lemma_fields_order(st1, tail);
        let out = synth_fields(st, fields).1;
        assert forall|j: int| 0 <= j < fields.len() implies (#[trigger] out[j]).original_name == fields[j].key@
            && out[j].name == normalized_name(fields[j].key@) by {
            if j > 0 {
                assert(out[j] == synth_fields(st1, tail).1[j - 1]);
                assert(tail[j - 1] == fields[j]);
            }
        }
    }
}

/// The type table: text, integral and fractional numbers and booleans keep
/// their kind; an object is a record named after the key in PascalCase; a
/// non-empty array whose first element is an object is a list of records
/// named after the singular of the key; an empty array, an array of anything
/// else, and null are raw JSON. The named record exists afterwards.
pub proof fn lemma_type_table(st: Seq<RecordModel>, key: Seq<char>, v: SampleValue)
    ensures
        v is Text ==> synth_type(st, key, v) == (st, TypeModel::Text),
        v is Integer ==> synth_type(st, key, v) == (st, TypeModel::Integer),
        v is Float ==> synth_type(st, key, v) == (st, TypeModel::Float),
        v is Boolean ==> synth_type(st, key, v) == (st, TypeModel::Boolean),
        v is Null ==> synth_type(st, key, v) == (st, TypeModel::RawJson),
        v is Object ==> synth_type(st, key, v).1 == TypeModel::Record(pascal_case_of(key))
            && has_record(synth_type(st, key, v).0, pascal_case_of(key)),
        v matches SampleValue::Array(items) ==> (items@.len() > 0 && items@[0] is Object ==> (
            synth_type(st, key, v).1 == TypeModel::ListOf(pascal_case_of(singular_of(key)))
            && has_record(synth_type(st, key, v).0, pascal_case_of(singular_of(key))))),
        v matches SampleValue::Array(items) ==> (!(items@.len() > 0 && items@[0] is Object) ==>
            synth_type(st, key, v) == (st, TypeModel::RawJson)),
        has_record(st, pascal_case_of(key)) && v is Object ==> synth_type(st, key, v).0 == st,
{
    match v {
        SampleValue::Object(fs) => {
            if !has_record(st, pascal_case_of(key)) {
                let (st2, fields) = synth_fields(st, fs@);
                lemma_put_record(st2, RecordModel { name: pascal_case_of(key), fields });
            }
        },
        SampleValue::Array(items) => {
            if items@.len() > 0 && items@[0] is Object {
                let n = pascal_case_of(singular_of(key));
                if !has_record(st, n) {
                    let (st2, fields) = synth_fields(st, items@[0]->Object_0@);
                    lemma_put_record(st2, RecordModel { name: n, fields });
                }
            }
        },
        _ => {},
    }
}

/// The record that a type refers to, if any.
pub open spec fn referenced(ty: TypeModel) -> Option<Seq<char>> {
    match ty {
        TypeModel::Record(n) => Some(n),
        TypeModel::ListOf(n) => Some(n),
        _ => None,
    }
}

pub open spec fn fields_resolve(st: Seq<RecordModel>, fs: Seq<FieldModel>) -> bool {
    forall|j: int| 0 <= j < fs.len() ==> (referenced((#[trigger] fs[j]).ty) matches Some(n) ==> has_record(st, n))
}

/// Every record that a field refers to is in the set.
pub open spec fn closed(st: Seq<RecordModel>) -> bool {
    forall|i: int| 0 <= i < st.len() ==> fields_resolve(st, (#[trigger] st[i]).fields)
}

/// `b` holds a record of every name that `a` does.
pub open spec fn keeps_names(a: Seq<RecordModel>, b: Seq<RecordModel>) -> bool {
    forall|n: Seq<char>| has_record(a, n) ==> #[trigger] has_record(b, n)
}

proof fn lemma_put_keeps(st: Seq<RecordModel>, r: RecordModel)
    ensures
        keeps_names(st, put_record(st, r)),
        forall|n: Seq<char>| has_record(put_record(st, r), n) ==> n == r.name || #[trigger] has_record(st, n),
{
    let st2 = put_record(st, r);
    assert forall|n: Seq<char>| has_record(st, n) implies #[trigger] has_record(st2, n) by {
        let i = choose|i: int| 0 <= i < st.len() && (#[trigger] st[i]).name == n;
        if st2[i].name != n {
            assert(st2[i] == r);
            assert(r.name == n) by {
                let k = choose|k: int| 0 <= k < st.len() && (#[trigger] st[k]).name == r.name;
                assert(st[k].name == r.name);
            }
        }
    }
    assert forall|n: Seq<char>| has_record(st2, n) implies n == r.name || #[trigger] has_record(st, n) by {
        let i = choose|i: int| 0 <= i < st2.len() && (#[trigger] st2[i]).name == n;
        if st2[i] != r {
            assert(st[i] == st2[i]);
        }
    }
}

proof fn lemma_resolve_grows(a: Seq<RecordModel>, b: Seq<RecordModel>, fs: Seq<FieldModel>)
    requires
        fields_resolve(a, fs),
        keeps_names(a, b),
    ensures
        fields_resolve(b, fs),
{
    assert forall|j: int| 0 <= j < fs.len() implies (referenced((#[trigger] fs[j]).ty) matches Some(n)
        ==> has_record(b, n)) by {
        if let Some(n) = referenced(fs[j].ty) {
            assert(has_record(a, n));
        }
    }
}

proof fn lemma_put_closed(st: Seq<RecordModel>, r: RecordModel)
    requires
        closed(st),
        fields_resolve(st, r.fields),
    ensures
        closed(put_record(st, r)),
        keeps_names(st, put_record(st, r)),
        has_record(put_record(st, r), r.name),
{
    lemma_put_keeps(st, r);
    lemma_put_record(st, r);
    let st2 = put_record(st, r);
    assert forall|i: int| 0 <= i < st2.len() implies fields_resolve(st2, (#[trigger] st2[i]).fields) by {
        if st2[i] == r {
            lemma_resolve_grows(st, st2, r.fields);
        } else {
            assert(st2[i] == st[i]);
            lemma_resolve_grows(st, st2, st[i].fields);
        }
    }
}

proof fn lemma_type_closed(st: Seq<RecordModel>, key: Seq<char>, v: SampleValue)
    requires
        closed(st),
    ensures
        closed(synth_type(st, key, v).0),
        keeps_names(st, synth_type(st, key, v).0),
        referenced(synth_type(st, key, v).1) matches Some(n) ==> has_record(synth_type(st, key, v).0, n),
    decreases v,
{
    match v {
        SampleValue::Object(fs) => {
            let n = pascal_case_of(key);
            if !has_record(st, n) {
                lemma_fields_closed(st, fs@);
                let (st2, fields) = synth_fields(st, fs@);
                lemma_put_closed(st2, RecordModel { name: n, fields });
            }
        },
        SampleValue::Array(items) => {
            if items@.len() > 0 && items@[0] is Object {
                let n = pascal_case_of(singular_of(key));
                if !has_record(st, n) {
                    let fs = items@[0]->Object_0@;
                    lemma_fields_closed(st, fs);
                    let (st2, fields) = synth_fields(st, fs);
                    lemma_put_closed(st2, RecordModel { name: n, fields });
                }
            }
        },
        _ => {},
    }
}

proof fn lemma_fields_closed(st: Seq<RecordModel>, fields: Seq<SampleField>)
    requires
        closed(st),
    ensures
        closed(synth_fields(st, fields).0),
        keeps_names(st, synth_fields(st, fields).0),
        fields_resolve(synth_fields(st, fields).0, synth_fields(st, fields).1),
    decreases fields,
{
    if fields.len() > 0 {
        let f = fields[0];
        lemma_type_closed(st, f.key@, f.value);
        let (st1, ty) = synth_type(st, f.key@, f.value);
        let tail = fields.drop_first();
        lemma_fields_closed(st1, tail);
        let (st2, rest) = synth_fields(st1, tail);
        let out = synth_fields(st, fields).1;
        assert forall|j: int| 0 <= j < out.len() implies (referenced((#[trigger] out[j]).ty) matches Some(n)
            ==> has_record(st2, n)) by {
            if j == 0 {
                if let Some(n) = referenced(ty) {
                    assert(has_record(st1, n));
                }
            } else {
                assert(out[j] == rest[j - 1]);
            }
        }
    }
}

proof fn lemma_all_closed(st: Seq<RecordModel>, samples: Seq<Sample>)
    requires
        closed(st),
    ensures
        closed(synth_all(st, samples)),
    decreases samples.len(),
{
    if samples.len() > 0 {
        let s = samples[0];
        lemma_fields_closed(st, s.fields@);
        let (st2, fs) = synth_fields(st, s.fields@);
        lemma_put_closed(st2, RecordModel { name: pascal_case_of(s.name@), fields: fs });
        lemma_all_closed(synth_record(st, pascal_case_of(s.name@), s.fields@), samples.drop_first());
    }
}

/// The records that synthesis makes are closed: every record that a field
/// refers to, alone or as a list, is among them.
pub proof fn lemma_synthesis_closed(samples: Seq<Sample>)
    ensures
        closed(synth_all(Seq::empty(), samples)),
{
    lemma_all_closed(Seq::empty(), samples);
}

} // verus!
