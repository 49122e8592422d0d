//! Rust source text for the records that synthesis made: one struct per
//! record, every field optional and renamed from the provider's key.
use vstd::prelude::*;
use vstd::string::*;

use crate::schema::{FieldModel, FieldSpec, RecordModel, RecordSpec, TypeModel, TypeRef, fields_view, records_view};
use crate::text::push_char;

verus! {

/// A text as a Rust string literal: quoted, with escapes.
pub uninterp spec fn rust_literal_of(s: Seq<char>) -> Seq<char>;

/// Relies on the Debug format of str: the text as a quoted and escaped Rust
/// string literal.
#[verifier::external_body]
fn rust_literal(s: &str) -> (r: String)
    ensures
        r@ == rust_literal_of(s@),
{
    format!("{:?}", s)
}

/// The Rust type of a field, before it is made optional.
pub open spec fn type_source(ty: TypeModel) -> Seq<char> {
    match ty {
        TypeModel::Text => "String"@,
        TypeModel::Integer => "i64"@,
        TypeModel::Float => "f64"@,
        TypeModel::Boolean => "bool"@,
        TypeModel::Record(n) => n,
        TypeModel::ListOf(n) => "Vec<"@ + n + ">"@,
        TypeModel::RawJson => "serde_json::Value"@,
    }
}

/// The serde options of a field: it is read under the provider's key, and a
/// text field reads an empty string as absent.
pub open spec fn serde_options(f: FieldModel) -> Seq<char> {
    "rename(deserialize = "@ + rust_literal_of(f.original_name) + ")"@ + match f.ty {
        TypeModel::Text => ", default, deserialize_with = \"serde_with::rust::string_empty_as_none::deserialize\""@,
        _ => Seq::empty(),
    }
}

/// The declaration of one field, named as a raw identifier so that a name
/// that spells a keyword stays a field name.
pub open spec fn field_source(f: FieldModel) -> Seq<char> {
    "    #[serde("@ + serde_options(f) + ")]\n    pub r#"@ + f.name + ": Option<"@ + type_source(f.ty) + ">,\n"@
}

pub open spec fn fields_source(fs: Seq<FieldModel>) -> Seq<char>
    decreases fs.len(),
{
    if fs.len() == 0 {
        Seq::empty()
    } else {
        fields_source(fs.drop_last()) + field_source(fs.last())
    }
}

/// The declaration of one record.
pub open spec fn record_source(r: RecordModel) -> Seq<char> {
    "#[derive(Debug, Serialize, Deserialize)]\npub struct "@ + r.name + " {\n"@ + fields_source(r.fields) + "}\n"@
}

/// The declarations of all records, in order.
pub open spec fn records_source(rs: Seq<RecordModel>) -> Seq<char>
    decreases rs.len(),
{
    if rs.len() == 0 {
        Seq::empty()
    } else {
        records_source(rs.drop_last()) + record_source(rs.last())
    }
}

fn append_type(s: &mut String, ty: &TypeRef)
    ensures
        final(s)@ == old(s)@ + type_source(ty@),
{
    match ty {
        TypeRef::Text => s.append("String"),
        TypeRef::Integer => s.append("i64"),
        TypeRef::Float => s.append("f64"),
        TypeRef::Boolean => s.append("bool"),
        TypeRef::Record(n) => s.append(n.as_str()),
        TypeRef::ListOf(n) => {
            s.append("Vec<");
            s.append(n.as_str());
            s.append(">");
        },
        TypeRef::RawJson => s.append("serde_json::Value"),
    }
}

fn append_field(s: &mut String, f: &FieldSpec)
    ensures
        final(s)@ == old(s)@ + field_source(f@),
{
    s.append("    #[serde(");
    s.append("rename(deserialize = ");
    let lit = rust_literal(f.original_name.as_str());
    s.append(lit.as_str());
    s.append(")");
    match f.ty {
        TypeRef::Text => s.append(", default, deserialize_with = \"serde_with::rust::string_empty_as_none::deserialize\""),
        _ => {},
    }
    s.append(")]\n    pub r#");
    s.append(f.name.as_str());
    s.append(": Option<");
    append_type(s, &f.ty);
    s.append(">,\n");
    assert(s@ =~= old(s)@ + field_source(f@));
}

impl RecordSpec {
    /// The Rust declaration of this record.
    pub fn source(&self) -> (r: String)
        ensures
            r@ == record_source(self@),
    {
        let mut s = String::from_str("#[derive(Debug, Serialize, Deserialize)]\npub struct ");
        s.append(self.name.as_str());
        s.append(" {\n");
        let ghost head = s@;
        let mut i: usize = 0;
        while i < self.fields.len()
            invariant
                0 <= i <= self.fields.len(),
                s@ == head + fields_source(fields_view(self.fields@).take(i as int)),
            decreases self.fields.len() - i,
        {
            let ghost fv = fields_view(self.fields@);
            assert(fv.take(i + 1).drop_last() =~= fv.take(i as int));
            append_field(&mut s, &self.fields[i]);
            i = i + 1;
        }
        assert(fields_view(self.fields@).take(i as int) =~= self@.fields);
        s.append("}\n");
        s
    }
}

/// The Rust declarations of a set of records, in order.
pub fn render_records(records: &Vec<RecordSpec>) -> (r: String)
    ensures
        r@ == records_source(records_view(records@)),
{
    let mut s = String::new();
    let mut i: usize = 0;
    while i < records.len()
        invariant
            0 <= i <= records.len(),
            s@ == records_source(records_view(records@).take(i as int)),
        decreases records.len() - i,
    {
        let ghost rv = records_view(records@);
        assert(rv.take(i + 1).drop_last() =~= rv.take(i as int));
        let src = records[i].source();
        s.append(src.as_str());
        i = i + 1;
    }
    assert(records_view(records@).take(i as int) =~= records_view(records@));
    s
}

pub open spec fn is_ascii_letter(c: char) -> bool {
    ('a' <= c && c <= 'z') || ('A' <= c && c <= 'Z')
}

pub open spec fn is_ident_char(c: char) -> bool {
    is_ascii_letter(c) || ('0' <= c && c <= '9') || c == '_'
}

/// An ASCII Rust identifier: a letter or `_`, then letters, digits and `_`,
/// and not `_` alone.
pub open spec fn is_identifier(s: Seq<char>) -> bool {
    &&& s.len() > 0
    &&& (is_ascii_letter(s[0]) || s[0] == '_')
    &&& forall|i: int| 0 <= i < s.len() ==> is_ident_char(#[trigger] s[i])
    &&& s != "_"@
}

/// A field name that can follow `r#`: the keywords that cannot be raw
/// identifiers are left out.
pub open spec fn valid_field_name(s: Seq<char>) -> bool {
    is_identifier(s) && s != "self"@ && s != "Self"@ && s != "super"@ && s != "crate"@
}

/// A record name: an identifier that starts with a capital letter, which no
/// keyword but `Self` does.
pub open spec fn valid_record_name(s: Seq<char>) -> bool {
    is_identifier(s) && 'A' <= s[0] && s[0] <= 'Z' && s != "Self"@
}

/// Every record and field name can be written in Rust source.
pub open spec fn names_valid(rs: Seq<RecordModel>) -> bool {
    forall|i: int| 0 <= i < rs.len() ==> valid_record_name((#[trigger] rs[i]).name)
        && forall|j: int| 0 <= j < rs[i].fields.len() ==> valid_field_name(#[trigger] rs[i].fields[j].name)
}

fn identifier_check(s: &String) -> (r: bool)
    ensures
        r == is_identifier(s@),
{
    let n = s.as_str().unicode_len();
    if n == 0 {
        return false;
    }
    let c0 = s.as_str().get_char(0);
    if !(('a' <= c0 && c0 <= 'z') || ('A' <= c0 && c0 <= 'Z') || c0 == '_') {
        return false;
    }
    let mut i: usize = 0;
    while i < n
        invariant
            0 <= i <= n,
            n == s@.len(),
            forall|j: int| 0 <= j < i ==> is_ident_char(#[trigger] s@[j]),
        decreases n - i,
    {
        let c = s.as_str().get_char(i);
        if !(('a' <= c && c <= 'z') || ('A' <= c && c <= 'Z') || ('0' <= c && c <= '9') || c == '_') {
            assert(!is_ident_char(s@[i as int]));
            return false;
        }
        i = i + 1;
    }
    let underscore = String::from_str("_");
    if *s == underscore {
        return false;
    }
    true
}

fn equals(s: &String, t: &str) -> (r: bool)
    ensures
        r == (s@ == t@),
{
    let u = String::from_str(t);
    *s == u
}

fn field_name_check(s: &String) -> (r: bool)
    ensures
        r == valid_field_name(s@),
{
    identifier_check(s) && !equals(s, "self") && !equals(s, "Self") && !equals(s, "super") && !equals(s, "crate")
}

fn record_name_check(s: &String) -> (r: bool)
    ensures
        r == valid_record_name(s@),
{
    if !identifier_check(s) {
        return false;
    }
    let c = s.as_str().get_char(0);
    'A' <= c && c <= 'Z' && !equals(s, "Self")
}

/// The first name, if any, that cannot be written in Rust source.
pub fn invalid_name(records: &Vec<RecordSpec>) -> (r: Option<String>)
    ensures
        r is None <==> names_valid(records_view(records@)),
{
    let ghost rv = records_view(records@);
    let mut i: usize = 0;
    while i < records.len()
        invariant
            0 <= i <= records.len(),
            rv == records_view(records@),
            forall|k: int| 0 <= k < i ==> valid_record_name((#[trigger] rv[k]).name)
                && forall|j: int| 0 <= j < rv[k].fields.len() ==> valid_field_name(#[trigger] rv[k].fields[j].name),
        decreases records.len() - i,
    {
        let rec = &records[i];
        assert(rv[i as int] == rec@);
        if !record_name_check(&rec.name) {
            return Some(rec.name.clone());
        }
        let mut j: usize = 0;
        while j < rec.fields.len()
            invariant
                0 <= j <= rec.fields.len(),
                i < records.len(),
                rv == records_view(records@),
                rv[i as int] == rec@,
                forall|jj: int| 0 <= jj < j ==> valid_field_name(#[trigger] rv[i as int].fields[jj].name),
            decreases rec.fields.len() - j,
        {
            assert(rv[i as int].fields[j as int] == rec.fields@[j as int]@);
            if !field_name_check(&rec.fields[j].name) {
                assert(!valid_field_name(rv[i as int].fields[j as int].name));
                return Some(rec.fields[j].name.clone());
            }
            j = j + 1;
        }
        i = i + 1;
    }
    None
}

} // verus!
