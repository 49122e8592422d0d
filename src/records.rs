//! Decoding upstream items into the synthesized records: each field is read
//! under the provider's key and given under its normalized name.
use vstd::prelude::*;
use vstd::string::*;

use crate::errors::{json_string, json_string_of, ProxyError};
use crate::schema::{RecordModel, RecordSpec, TypeModel, TypeRef, records_view};

verus! {

broadcast use {
    vstd::seq::axiom_seq_index_decreases,
    vstd::seq::axiom_seq_subrange_decreases,
    vstd::std_specs::vec::axiom_vec_index_decreases,
    vstd::std_specs::vec::axiom_vec_decreases_to_view,
};

/// A JSON value. A number keeps its text, and whether it is an integer that
/// fits an `i64`.
pub enum JsonValue {
    Null,
    Bool(bool),
    Number { text: String, integral: bool },
    Str(String),
    Array(Vec<JsonValue>),
    Object(Vec<JsonMember>),
}

/// A member of a JSON object.
pub struct JsonMember {
    pub key: String,
    pub value: JsonValue,
}

/// The first index of a member under `key`, or -1.
pub open spec fn member_index(ms: Seq<JsonMember>, key: Seq<char>) -> int
    decreases ms.len(),
{
    if ms.len() == 0 {
        -1
    } else {
        let k = member_index(ms.drop_last(), key);
        if k >= 0 {
            k
        } else if ms.last().key@ == key {
            ms.len() - 1
        } else {
            -1
        }
    }
}

/// The first index of a record named `name`, or -1.
pub open spec fn record_index(rs: Seq<RecordModel>, name: Seq<char>) -> int
    decreases rs.len(),
{
    if rs.len() == 0 {
        -1
    } else {
        let k = record_index(rs.drop_last(), name);
        if k >= 0 {
            k
        } else if rs.last().name == name {
            rs.len() - 1
        } else {
            -1
        }
    }
}

/// `a` and `b` are the same JSON value, member for member.
pub open spec fn same_json(a: JsonValue, b: JsonValue) -> bool
    decreases a,
{
    match a {
        JsonValue::Null => b is Null,
        JsonValue::Bool(x) => b matches JsonValue::Bool(y) && x == y,
        JsonValue::Number { text, integral } => match b {
            JsonValue::Number { text: t, integral: i } => text@ == t@ && integral == i,
            _ => false,
        },
        JsonValue::Str(x) => match b {
            JsonValue::Str(y) => x@ == y@,
            _ => false,
        },
        JsonValue::Array(xs) => match b {
            JsonValue::Array(ys) => xs@.len() == ys@.len() && forall|i: int|
                0 <= i < xs@.len() ==> same_json(#[trigger] xs@[i], ys@[i]),
            _ => false,
        },
        JsonValue::Object(ms) => match b {
            JsonValue::Object(ns) => ms@.len() == ns@.len() && forall|i: int|
                0 <= i < ms@.len() ==> (#[trigger] ms@[i]).key@ == ns@[i].key@
                    && same_json(ms@[i].value, ns@[i].value),
            _ => false,
        },
    }
}

/// `out` is what `v` decodes to as a field of type `ty`: raw JSON is kept as
/// it is; else null stays null, an empty string is null, a value of the
/// field's kind is kept (an integer must fit an `i64`, a fractional type
/// takes any number), an object is decoded as its record, and a list as a
/// list of its records. Any other value does not decode.
pub open spec fn decodes(rs: Seq<RecordModel>, ty: TypeModel, v: JsonValue, out: JsonValue) -> bool
    decreases v,
{
    if ty is RawJson {
        same_json(v, out)
    } else {
        match v {
            JsonValue::Null => out is Null,
            JsonValue::Str(s) => ty is Text && if s@.len() == 0 {
                out is Null
            } else {
                out matches JsonValue::Str(t) && t@ == s@
            },
            JsonValue::Number { text, integral } => ((ty is Integer && integral) || ty is Float) && same_json(v, out),
            JsonValue::Bool(b) => ty is Boolean && same_json(v, out),
            JsonValue::Object(ms) => match ty {
                TypeModel::Record(n) => object_decodes(rs, n, ms@, out),
                _ => false,
            },
            JsonValue::Array(items) => match ty {
                TypeModel::ListOf(n) => match out {
                    JsonValue::Array(os) => os@.len() == items@.len() && forall|i: int|
                        0 <= i < items@.len() ==> (#[trigger] items@[i]) is Object
                            && object_decodes(rs, n, items@[i]->Object_0@, os@[i]),
                    _ => false,
                },
                _ => false,
            },
        }
    }
}

/// `out` is the object `ms` decoded as the record `name`: one member per
/// field, in the record's order, under the normalized name; a field whose key
/// is absent is null.
pub open spec fn object_decodes(rs: Seq<RecordModel>, name: Seq<char>, ms: Seq<JsonMember>, out: JsonValue) -> bool
    decreases ms,
{
    let r = record_index(rs, name);
    r >= 0 && match out {
        JsonValue::Object(os) => os@.len() == rs[r].fields.len() && forall|j: int|
            0 <= j < os@.len() ==> {
                let f = #[trigger] rs[r].fields[j];
                let k = member_index(ms, f.original_name);
                &&& os@[j].key@ == f.name
                &&& if 0 <= k < ms.len() {
                    decodes(rs, f.ty, ms[k].value, os@[j].value)
                } else {
                    os@[j].value is Null
                }
            },
        _ => false,
    }
}

impl JsonValue {
    /// A copy of this value, member for member.
    pub fn deep_copy(&self) -> (r: JsonValue)
        ensures
            same_json(*self, r),
        decreases *self,
    {
        match self {
            JsonValue::Null => JsonValue::Null,
            JsonValue::Bool(b) => JsonValue::Bool(*b),
            JsonValue::Number { text, integral } => JsonValue::Number { text: text.clone(), integral: *integral },
            JsonValue::Str(t) => JsonValue::Str(t.clone()),
            JsonValue::Array(xs) => {
                let mut ys: Vec<JsonValue> = Vec::new();
                let mut i: usize = 0;
                while i < xs.len()
                    invariant
                        0 <= i <= xs.len(),
                        *self is Array,
                        (*self)->Array_0 == *xs,
                        ys@.len() == i,
                        forall|j: int| 0 <= j < i ==> same_json(#[trigger] xs@[j], ys@[j]),
                    decreases xs.len() - i,
                {
                    proof {
                        assert(decreases_to!(xs => xs[i as int]));
                        assert(decreases_to!(*self => (*self)->Array_0));
                    }
                    let y = xs[i].deep_copy();
                    ys.push(y);
                    i = i + 1;
                }
                JsonValue::Array(ys)
            },
            JsonValue::Object(ms) => {
                let mut ns: Vec<JsonMember> = Vec::new();
                let mut i: usize = 0;
                while i < ms.len()
                    invariant
                        0 <= i <= ms.len(),
                        *self is Object,
                        (*self)->Object_0 == *ms,
                        ns@.len() == i,
                        forall|j: int| 0 <= j < i ==> (#[trigger] ms@[j]).key@ == ns@[j].key@
                            && same_json(ms@[j].value, ns@[j].value),
                    decreases ms.len() - i,
                {
                    proof {
                        assert(decreases_to!(ms => ms[i as int]));
                        assert(decreases_to!(*self => (*self)->Object_0));
                    }
                    let v = ms[i].value.deep_copy();
                    ns.push(JsonMember { key: ms[i].key.clone(), value: v });
                    i = i + 1;
                }
                JsonValue::Object(ns)
            },
        }
    }
}

proof fn lemma_member_index_prefix(ms: Seq<JsonMember>, key: Seq<char>, m: int)
    requires
        0 <= m <= ms.len(),
        member_index(ms.take(m), key) >= 0,
    ensures
        member_index(ms, key) == member_index(ms.take(m), key),
    decreases ms.len(),
{
    if m == ms.len() {
        assert(ms.take(m) =~= ms);
    } else {
        assert(ms.drop_last().take(m) =~= ms.take(m));
        lemma_member_index_prefix(ms.drop_last(), key, m);
    }
}

proof fn lemma_record_index_prefix(rs: Seq<RecordModel>, name: Seq<char>, m: int)
    requires
        0 <= m <= rs.len(),
        record_index(rs.take(m), name) >= 0,
    ensures
        record_index(rs, name) == record_index(rs.take(m), name),
    decreases rs.len(),
{
    if m == rs.len() {
        assert(rs.take(m) =~= rs);
    } else {
        assert(rs.drop_last().take(m) =~= rs.take(m));
        lemma_record_index_prefix(rs.drop_last(), name, m);
    }
}

/// Where the first member under `key` stands.
pub fn find_member(ms: &Vec<JsonMember>, key: &String) -> (r: Option<usize>)
    ensures
        r matches Some(k) ==> k == member_index(ms@, key@) && k < ms@.len(),
        r is None ==> member_index(ms@, key@) == -1,
{
    let mut i: usize = 0;
    while i < ms.len()
        invariant
            0 <= i <= ms.len(),
            member_index(ms@.take(i as int), key@) == -1,
        decreases ms.len() - i,
    {
        assert(ms@.take(i + 1).drop_last() =~= ms@.take(i as int));
        if ms[i].key == *key {
            proof {
                lemma_member_index_prefix(ms@, key@, i + 1);
            }
            return Some(i);
        }
        i = i + 1;
    }
    assert(ms@.take(i as int) =~= ms@);
    None
}

/// Where the first record named `name` stands.
pub fn find_record(rs: &Vec<RecordSpec>, name: &String) -> (r: Option<usize>)
    ensures
        r matches Some(k) ==> k == record_index(records_view(rs@), name@) && k < rs@.len(),
        r is None ==> record_index(records_view(rs@), name@) == -1,
{
    let ghost rv = records_view(rs@);
    let mut i: usize = 0;
    while i < rs.len()
        invariant
            0 <= i <= rs.len(),
            rv == records_view(rs@),
            record_index(rv.take(i as int), name@) == -1,
        decreases rs.len() - i,
    {
        assert(rv.take(i + 1).drop_last() =~= rv.take(i as int));
        assert(rv[i as int] == rs@[i as int]@);
        if rs[i].name == *name {
            proof {
                lemma_record_index_prefix(rv, name@, i + 1);
            }
            return Some(i);
        }
        i = i + 1;
    }
    assert(rv.take(i as int) =~= rv);
    None
}

/// Decodes a value as a field of type `ty`.
pub fn decode_value(rs: &Vec<RecordSpec>, ty: &TypeRef, v: &JsonValue) -> (r: Result<JsonValue, ProxyError>)
    ensures
        r matches Ok(o) ==> decodes(records_view(rs@), ty@, *v, o),
        r is Err ==> r matches Err(ProxyError::Decode),
        r is Err ==> forall|o: JsonValue| !decodes(records_view(rs@), ty@, *v, o),
    decreases *v,
{
    let ghost rv = records_view(rs@);
    if let TypeRef::RawJson = ty {
        return Ok(v.deep_copy());
    }
    match v {
        JsonValue::Null => Ok(JsonValue::Null),
        JsonValue::Str(t) => {
            if let TypeRef::Text = ty {
                if t.as_str().unicode_len() == 0 {
                    Ok(JsonValue::Null)
                } else {
                    Ok(JsonValue::Str(t.clone()))
                }
            } else {
                Err(ProxyError::Decode)
            }
        },
        JsonValue::Number { text, integral } => {
            let fits = match ty {
                TypeRef::Integer => *integral,
                TypeRef::Float => true,
                _ => false,
            };
            if fits {
                Ok(v.deep_copy())
            } else {
                Err(ProxyError::Decode)
            }
        },
        JsonValue::Bool(b) => {
            if let TypeRef::Boolean = ty {
                Ok(JsonValue::Bool(*b))
            } else {
                Err(ProxyError::Decode)
            }
        },
        JsonValue::Object(ms) => {
            match ty {
                TypeRef::Record(n) => {
                    let r = decode_object(rs, n, ms);
                    proof {
                        if r is Err {
                            assert forall|o: JsonValue| !decodes(rv, ty@, *v, o) by {
                                assert(decodes(rv, ty@, *v, o) == object_decodes(rv, n@, ms@, o));
                            }
                        }
                    }
                    r
                },
                _ => Err(ProxyError::Decode),
            }
        },
        JsonValue::Array(items) => {
            match ty {
                TypeRef::ListOf(n) => {
                    let mut os: Vec<JsonValue> = Vec::new();
                    let mut i: usize = 0;
                    while i < items.len()
                        invariant
                            0 <= i <= items.len(),
                            rv == records_view(rs@),
                            *v is Array,
                            (*v)->Array_0 == *items,
                            ty@ == TypeModel::ListOf(n@),
                            os@.len() == i,
                            forall|j: int| 0 <= j < i ==> (#[trigger] items@[j]) is Object
                                && object_decodes(rv, n@, items@[j]->Object_0@, os@[j]),
                        decreases items.len() - i,
                    {
                        match &items[i] {
                            JsonValue::Object(ms) => {
                                proof {
                                    assert(decreases_to!(*v => (*v)->Array_0));
                                    assert(decreases_to!(*items => items[i as int]));
                                    assert(decreases_to!(items[i as int] => *ms));
                                    assert(decreases_to!(ms => ms@));
                                }
                                match decode_object(rs, n, ms) {
                                    Ok(o) => os.push(o),
                                    Err(e) => {
                                        assert(ty@ == TypeModel::ListOf(n@));
                                        assert forall|o: JsonValue| !decodes(rv, ty@, *v, o) by {
                                            if decodes(rv, ty@, *v, o) {
                                                match o {
                                                    JsonValue::Array(os2) => {
                                                        assert(items@[i as int] is Object);
                                                        assert(object_decodes(rv, n@, items@[i as int]->Object_0@, os2@[i as int]));
                                                    },
                                                    _ => {},
                                                }
                                            }
                                        }
                                        return Err(e);
                                    },
                                }
                            },
                            _ => {
                                assert(ty@ == TypeModel::ListOf(n@));
                                assert forall|o: JsonValue| !decodes(rv, ty@, *v, o) by {
                                    if decodes(rv, ty@, *v, o) {
                                        match o {
                                            JsonValue::Array(os2) => {
                                                assert(items@[i as int] is Object);
                                            },
                                            _ => {},
                                        }
                                    }
                                }
                                return Err(ProxyError::Decode);
                            },
                        }
                        i = i + 1;
                    }
                    Ok(JsonValue::Array(os))
                },
                _ => Err(ProxyError::Decode),
            }
        },
    }
}

/// Decodes an object as the record `name`.
pub fn decode_object(rs: &Vec<RecordSpec>, name: &String, ms: &Vec<JsonMember>) -> (r: Result<JsonValue, ProxyError>)
    ensures
        r matches Ok(o) ==> object_decodes(records_view(rs@), name@, ms@, o),
        r is Err ==> r matches Err(ProxyError::Decode),
        r is Err ==> forall|o: JsonValue| !object_decodes(records_view(rs@), name@, ms@, o),
    decreases ms@,
{
    let ghost rv = records_view(rs@);
    let ri = find_record(rs, name);
    if ri.is_none() {
        return Err(ProxyError::Decode);
    }
    let ri = ri.unwrap();
    let rec = &rs[ri];
    assert(rv[ri as int] == rec@);
    let ghost fv = rec@.fields;
    let mut out: Vec<JsonMember> = Vec::new();
    let mut j: usize = 0;
    while j < rec.fields.len()
        invariant
            0 <= j <= rec.fields.len(),
            rv == records_view(rs@),
            ri as int == record_index(rv, name@),
            rv[ri as int] == rec@,
            fv == rec@.fields,
            fv.len() == rec.fields@.len(),
            out@.len() == j,
            forall|jj: int| 0 <= jj < j ==> {
                let f = #[trigger] fv[jj];
                let k = member_index(ms@, f.original_name);
                &&& out@[jj].key@ == f.name
                &&& if 0 <= k < ms@.len() {
                    decodes(rv, f.ty, ms@[k].value, out@[jj].value)
                } else {
                    out@[jj].value is Null
                }
            },
        decreases rec.fields.len() - j,
    {
        let f = &rec.fields[j];
        assert(fv[j as int] == f@);
        let k = find_member(ms, &f.original_name);
        let value = match k {
            None => JsonValue::Null,
            Some(k) => match decode_value(rs, &f.ty, &ms[k].value) {
                Ok(o) => o,
                Err(e) => {
                    assert forall|o: JsonValue| !object_decodes(rv, name@, ms@, o) by {
                        if object_decodes(rv, name@, ms@, o) {
                            let os = o->Object_0;
                            assert(fv[j as int] == rv[ri as int].fields[j as int]);
                            assert(decodes(rv, f@.ty, ms@[k as int].value, os@[j as int].value));
                        }
                    }
                    return Err(e);
                },
            },
        };
        out.push(JsonMember { key: f.name.clone(), value });
        j = j + 1;
    }
    let r = JsonValue::Object(out);
    assert(object_decodes(rv, name@, ms@, r));
    Ok(r)
}

/// `out` is the list that the upstream's body holds under `key`, each item
/// decoded as the record `record`.
pub open spec fn envelope_decodes(
    rs: Seq<RecordModel>,
    record: Seq<char>,
    body: JsonValue,
    key: Seq<char>,
    out: Seq<JsonValue>,
) -> bool {
    match body {
        JsonValue::Object(ms) => {
            let k = member_index(ms@, key);
            0 <= k < ms@.len() && match ms@[k].value {
                JsonValue::Array(items) => out.len() == items@.len() && forall|i: int|
                    0 <= i < out.len() ==> decodes(rs, TypeModel::Record(record), #[trigger] items@[i], out[i]),
                _ => false,
            }
        },
        _ => false,
    }
}

/// Reads the items of an upstream list response: the array under the
/// resource's envelope key, each item decoded as the resource's record.
pub fn decode_items(rs: &Vec<RecordSpec>, record: &str, body: &JsonValue, key: &str) -> (r: Result<Vec<JsonValue>, ProxyError>)
    ensures
        r matches Ok(out) ==> envelope_decodes(records_view(rs@), record@, *body, key@, out@),
        r is Err ==> r matches Err(ProxyError::Decode),
        r is Err ==> forall|out: Seq<JsonValue>| !envelope_decodes(records_view(rs@), record@, *body, key@, out),
{
    let ghost rv = records_view(rs@);
    let ms = match body {
        JsonValue::Object(ms) => ms,
        _ => return Err(ProxyError::Decode),
    };
    let key_text = String::from_str(key);
    let k = match find_member(ms, &key_text) {
        Some(k) => k,
        None => return Err(ProxyError::Decode),
    };
    let items = match &ms[k].value {
        JsonValue::Array(items) => items,
        _ => return Err(ProxyError::Decode),
    };
    let ty = TypeRef::Record(String::from_str(record));
    assert(ty@ == TypeModel::Record(record@));
    let mut out: Vec<JsonValue> = Vec::new();
    let mut i: usize = 0;
    while i < items.len()
        invariant
            0 <= i <= items.len(),
            rv == records_view(rs@),
            ty@ == TypeModel::Record(record@),
            *body is Object,
            (*body)->Object_0 == *ms,
            k == member_index(ms@, key@),
            k < ms@.len(),
            ms@[k as int].value is Array,
            ms@[k as int].value->Array_0 == *items,
            out@.len() == i,
            forall|j: int| 0 <= j < i ==> decodes(rv, TypeModel::Record(record@), #[trigger] items@[j], out@[j]),
        decreases items.len() - i,
    {
        match decode_value(rs, &ty, &items[i]) {
            Ok(o) => out.push(o),
            Err(e) => {
                assert forall|o: Seq<JsonValue>| !envelope_decodes(rv, record@, *body, key@, o) by {
                    if envelope_decodes(rv, record@, *body, key@, o) {
                        assert(decodes(rv, TypeModel::Record(record@), items@[i as int], o[i as int]));
                    }
                }
                return Err(e);
            },
        }
        i = i + 1;
    }
    Ok(out)
}

/// The compact JSON text of a value: members and items in order, strings
/// quoted and escaped, numbers as their text.
pub open spec fn json_text(v: JsonValue) -> Seq<char>
    decreases v,
{
    match v {
        JsonValue::Null => "null"@,
        JsonValue::Bool(b) => if b {
            "true"@
        } else {
            "false"@
        },
        JsonValue::Number { text, integral } => text@,
        JsonValue::Str(t) => json_string_of(t@),
        JsonValue::Array(xs) => seq!['['] + items_text(xs@) + seq![']'],
        JsonValue::Object(ms) => seq!['{'] + members_text(ms@) + seq!['}'],
    }
}

/// The items of an array, separated by commas.
pub open spec fn items_text(xs: Seq<JsonValue>) -> Seq<char>
    decreases xs,
{
    if xs.len() == 0 {
        Seq::empty()
    } else if xs.len() == 1 {
        json_text(xs[0])
    } else {
        items_text(xs.drop_last()) + seq![','] + json_text(xs[xs.len() - 1])
    }
}

/// The members of an object as `"key":value`, separated by commas.
pub open spec fn members_text(ms: Seq<JsonMember>) -> Seq<char>
    decreases ms,
{
    if ms.len() == 0 {
        Seq::empty()
    } else if ms.len() == 1 {
        json_string_of(ms[0].key@) + seq![':'] + json_text(ms[0].value)
    } else {
        members_text(ms.drop_last()) + seq![','] + json_string_of(ms[ms.len() - 1].key@) + seq![':']
            + json_text(ms[ms.len() - 1].value)
    }
}

/// Appends the JSON text of `v`.
pub fn append_json(s: &mut String, v: &JsonValue)
    ensures
        final(s)@ == old(s)@ + json_text(*v),
    decreases *v,
{
    match v {
        JsonValue::Null => s.append("null"),
        JsonValue::Bool(b) => {
            if *b {
                s.append("true")
            } else {
                s.append("false")
            }
        },
        JsonValue::Number { text, integral } => s.append(text.as_str()),
        JsonValue::Str(t) => {
            let q = json_string(t.as_str());
            s.append(q.as_str());
        },
        JsonValue::Array(xs) => {
            let ghost start = s@;
            crate::text::push_char(s, '[');
            let mut i: usize = 0;
            while i < xs.len()
                invariant
                    0 <= i <= xs.len(),
                    *v is Array,
                    (*v)->Array_0 == *xs,
                    s@ == start + seq!['['] + items_text(xs@.take(i as int)),
                decreases xs.len() - i,
            {
                proof {
                    assert(decreases_to!(*v => (*v)->Array_0));
                    assert(decreases_to!(xs => xs[i as int]));
                }
                let ghost t = xs@.take(i + 1);
                assert(t.drop_last() =~= xs@.take(i as int));
                assert(t[t.len() - 1] == xs@[i as int]);
                if i > 0 {
                    crate::text::push_char(s, ',');
                } else {
                    assert(t[0] == xs@[0]);
                }
                append_json(s, &xs[i]);
                assert(s@ =~= start + seq!['['] + items_text(t));
                i = i + 1;
            }
            assert(xs@.take(i as int) =~= xs@);
            crate::text::push_char(s, ']');
            assert(s@ =~= start + json_text(*v));
        },
        JsonValue::Object(ms) => {
            let ghost start = s@;
            crate::text::push_char(s, '{');
            let mut i: usize = 0;
            while i < ms.len()
                invariant
                    0 <= i <= ms.len(),
                    *v is Object,
                    (*v)->Object_0 == *ms,
                    s@ == start + seq!['{'] + members_text(ms@.take(i as int)),
                decreases ms.len() - i,
            {
                proof {
                    assert(decreases_to!(*v => (*v)->Object_0));
                    assert(decreases_to!(ms => ms[i as int]));
                }
                let ghost t = ms@.take(i + 1);
                assert(t.drop_last() =~= ms@.take(i as int));
                assert(t[t.len() - 1] == ms@[i as int]);
                if i > 0 {
                    crate::text::push_char(s, ',');
                } else {
                    assert(t[0] == ms@[0]);
                }
                let k = json_string(ms[i].key.as_str());
                s.append(k.as_str());
                crate::text::push_char(s, ':');
                append_json(s, &ms[i].value);
                assert(s@ =~= start + seq!['{'] + members_text(t));
                i = i + 1;
            }
            assert(ms@.take(i as int) =~= ms@);
            crate::text::push_char(s, '}');
            assert(s@ =~= start + json_text(*v));
        },
    }
}

} // verus!
