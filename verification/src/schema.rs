//! Schemas: ordered lists of typed fields.

use crate::error::{ErrorKind, MeltError};
use crate::utils::text::same_text;
use vstd::prelude::*;

verus! {

/// The logical type of a column.
#[derive(Clone, Copy, Debug, PartialEq, Eq, Hash, Structural)]
pub enum DataType {
    Boolean,
    Int64,
    Float64,
    Utf8,
}

/// A field as mathematics sees it.
pub struct FieldView {
    pub name: Seq<char>,
    pub data_type: DataType,
    pub nullable: bool,
}

/// One typed, named column of a schema.
#[derive(Clone, Debug, PartialEq, Eq)]
pub struct Field {
    pub name: String,
    pub data_type: DataType,
    pub nullable: bool,
}

impl View for Field {
    type V = FieldView;

    open spec fn view(&self) -> FieldView {
        FieldView { name: self.name@, data_type: self.data_type, nullable: self.nullable }
    }
}

impl Field {
    pub fn new(name: &str, data_type: DataType, nullable: bool) -> (f: Field)
        ensures
            f@ == (FieldView { name: name@, data_type, nullable }),
    {
        Field { name: name.to_owned(), data_type, nullable }
    }

    pub fn name(&self) -> (n: &String)
        ensures
            n@ == self@.name,
    {
        &self.name
    }

    pub fn data_type(&self) -> (d: &DataType)
        ensures
            *d == self@.data_type,
    {
        &self.data_type
    }

    pub fn is_nullable(&self) -> (b: bool)
        ensures
            b == self@.nullable,
    {
        self.nullable
    }
}

/// An ordered list of fields.
#[derive(Clone, Debug, PartialEq, Eq)]
pub struct MeltSchema {
    pub fields: Vec<Field>,
}

impl View for MeltSchema {
    type V = Seq<FieldView>;

    open spec fn view(&self) -> Seq<FieldView> {
        Seq::new(self.fields@.len(), |i: int| self.fields@[i]@)
    }
}

/// No two fields have the same name.
pub open spec fn has_distinct_names(fields: Seq<FieldView>) -> bool {
    forall|i: int, j: int| 0 <= i < j < fields.len() ==> fields[i].name != fields[j].name
}

/// Every field may be null.
pub open spec fn all_nullable(fields: Seq<FieldView>) -> bool {
    forall|i: int| 0 <= i < fields.len() ==> (#[trigger] fields[i]).nullable
}

/// The place of the first field called `name`, or the length where there is none.
pub open spec fn index_of_field(fields: Seq<FieldView>, name: Seq<char>) -> int
    decreases fields.len(),
{
    if fields.len() == 0 {
        0
    } else if fields[0].name == name {
        0
    } else {
        1 + index_of_field(fields.drop_first(), name)
    }
}

impl MeltSchema {
    pub fn new(fields: Vec<Field>) -> (s: MeltSchema)
        ensures
            s.fields == fields,
    {
        MeltSchema { fields }
    }

    pub fn fields(&self) -> (f: &Vec<Field>)
        ensures
            *f == self.fields,
    {
        &self.fields
    }

    /// The first field called `name`.
    pub fn field_with_name(&self, name: &str) -> (f: Option<&Field>)
        ensures
            0 <= index_of_field(self@, name@) <= self@.len(),
            match f {
                Some(field) => index_of_field(self@, name@) < self@.len() && field@
                    == self@[index_of_field(self@, name@)],
                None => index_of_field(self@, name@) == self@.len(),
            },
    {
        let mut i: usize = 0;
        proof {
            assert(self@.skip(0) =~= self@);
        }
        while i < self.fields.len()
            invariant
                i <= self.fields.len(),
                index_of_field(self@, name@) == i + index_of_field(self@.skip(i as int), name@),
            decreases self.fields.len() - i,
        {
            proof {
                assert(self@.skip(i as int).drop_first() =~= self@.skip(i as int + 1));
            }
            if same_text(self.fields[i].name.as_str(), name) {
                return Some(&self.fields[i]);
            }
            i = i + 1;
        }
        None
    }
}

/// The JSON text that serde_json writes for the Arrow schema that holds the fields `fields` and
/// nothing else; `None` where it reports an error.
pub uninterp spec fn schema_json(fields: Seq<FieldView>) -> Option<Seq<u8>>;

/// `serde_json::to_vec` of an Arrow schema. Claimed of a schema without metadata, whose text
/// is a matter of its fields alone.
#[verifier::external_body]
fn arrow_schema_json(schema: &arrow_schema::Schema) -> (r: Result<Vec<u8>, serde_json::Error>)
    requires
        crate::fusion::recordbatch::plain_fields(*schema) is Some,
    ensures
        match r {
            Ok(bytes) => schema_json(crate::fusion::recordbatch::plain_fields(*schema)->0) == Some(
                bytes@,
            ),
            Err(_) => schema_json(crate::fusion::recordbatch::plain_fields(*schema)->0) is None,
        },
{
    serde_json::to_vec(schema)
}

impl MeltSchema {
    /// The schema as the JSON text that is stored beside a segment.
    pub fn serialize(&self) -> (r: Result<Vec<u8>, MeltError>)
        ensures
            match schema_json(self@) {
                Some(bytes) => r matches Ok(datas) && datas@ == bytes,
                None => r matches Err(e) && e.kind == ErrorKind::Internal,
            },
    {
        let arrow_schema = crate::fusion::recordbatch::to_arrow_schema(self);
        match arrow_schema_json(&arrow_schema) {
            Ok(datas) => Ok(datas),
            Err(e) => Err(MeltError::internal(e.to_string().as_str())),
        }
    }
}

/// Infers the schema of a batch of records.
pub fn infer_schema(vals: &[crate::utils::json::Json]) -> (r: Result<MeltSchema, MeltError>)
    ensures
        crate::fusion::schema::all_records(crate::utils::json::json_views(vals@)) ==> r is Ok,
        r matches Ok(schema) ==> crate::fusion::schema::all_records(
            crate::utils::json::json_views(vals@),
        ) && schema@ == crate::fusion::schema::schema_of(
            crate::fusion::schema::observations(crate::utils::json::json_views(vals@)),
        ),
        r matches Ok(schema) ==> has_distinct_names(schema@) && all_nullable(schema@),
        r matches Err(e) ==> e.kind == ErrorKind::BadInput,
{
    crate::fusion::schema::infer_schema(vals)
}

} // verus!
