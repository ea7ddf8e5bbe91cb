//! Schema inference: the unification of the types seen under each name.

use crate::error::{ErrorKind, MeltError};
use crate::utils::json::{json_views, lemma_view_of_object, members_view, Json, JsonView};
use crate::schema::{
    all_nullable, has_distinct_names, DataType, Field, FieldView, MeltSchema,
};
use vstd::prelude::*;

verus! {

/// One sighting of a field: its name and the type of the value seen, `None` for a null.
pub type Observation = (Seq<char>, Option<DataType>);

/// The type that holds values of both types.
pub open spec fn unify_types(a: DataType, b: DataType) -> DataType {
    if a == b {
        a
    } else if (a == DataType::Int64 && b == DataType::Float64) || (a == DataType::Float64 && b
        == DataType::Int64) {
        DataType::Float64
    } else {
        DataType::Utf8
    }
}

/// Unification of two sightings; a null changes nothing.
pub open spec fn unify(a: Option<DataType>, b: Option<DataType>) -> Option<DataType> {
    match (a, b) {
        (None, _) => b,
        (_, None) => a,
        (Some(x), Some(y)) => Some(unify_types(x, y)),
    }
}

/// The type of a field of which nothing but nulls was seen is text.
pub open spec fn settled(k: Option<DataType>) -> DataType {
    match k {
        Some(d) => d,
        None => DataType::Utf8,
    }
}

/// A value that is neither an array nor an object.
pub open spec fn is_scalar(v: JsonView) -> bool {
    !(v is Array) && !(v is Object)
}

/// The type of a scalar value, `None` for null.
pub open spec fn scalar_type(v: JsonView) -> Option<DataType> {
    match v {
        JsonView::Bool(_) => Some(DataType::Boolean),
        JsonView::Int(i) => if i64::MIN <= i <= i64::MAX {
            Some(DataType::Int64)
        } else {
            Some(DataType::Float64)
        },
        JsonView::Float(_) => Some(DataType::Float64),
        JsonView::Text(_) => Some(DataType::Utf8),
        _ => None,
    }
}

/// An object whose members are all scalars.
pub open spec fn is_record(v: JsonView) -> bool {
    v matches JsonView::Object(m) && forall|i: int|
        0 <= i < m.len() ==> is_scalar((#[trigger] m[i]).1)
}

pub open spec fn all_records(records: Seq<JsonView>) -> bool {
    forall|i: int| 0 <= i < records.len() ==> is_record(#[trigger] records[i])
}

/// The sightings in one record, in the order of its members.
pub open spec fn record_observations(v: JsonView) -> Seq<Observation> {
    match v {
        JsonView::Object(m) => Seq::new(m.len(), |i: int| (m[i].0, scalar_type(m[i].1))),
        _ => Seq::empty(),
    }
}

/// The sightings in a batch of records, record after record.
pub open spec fn observations(records: Seq<JsonView>) -> Seq<Observation>
    decreases records.len(),
{
    if records.len() == 0 {
        Seq::empty()
    } else {
        observations(records.drop_last()) + record_observations(records.last())
    }
}

/// The sightings that a schema stands for: each field once, with its type.
pub open spec fn schema_observations(fields: Seq<FieldView>) -> Seq<Observation> {
    Seq::new(fields.len(), |i: int| (fields[i].name, Some(fields[i].data_type)))
}

/// The sightings of several schemas, schema after schema.
pub open spec fn schemas_observations(schemas: Seq<Seq<FieldView>>) -> Seq<Observation>
    decreases schemas.len(),
{
    if schemas.len() == 0 {
        Seq::empty()
    } else {
        schemas_observations(schemas.drop_last()) + schema_observations(schemas.last())
    }
}

/// The names sighted, each once, in the order in which they first occur.
pub open spec fn field_names(obs: Seq<Observation>) -> Seq<Seq<char>>
    decreases obs.len(),
{
    if obs.len() == 0 {
        Seq::empty()
    } else {
        let before = field_names(obs.drop_last());
        if before.contains(obs.last().0) {
            before
        } else {
            before.push(obs.last().0)
        }
    }
}

/// The unification of all sightings of `name`.
pub open spec fn observed(obs: Seq<Observation>, name: Seq<char>) -> Option<DataType>
    decreases obs.len(),
{
    if obs.len() == 0 {
        None
    } else {
        let before = observed(obs.drop_last(), name);
        if obs.last().0 == name {
            unify(before, obs.last().1)
        } else {
            before
        }
    }
}

/// The schema that a sequence of sightings gives: one nullable field for each name, in the order
/// of first occurrence, its type the unification of what was seen under that name.
pub open spec fn schema_of(obs: Seq<Observation>) -> Seq<FieldView> {
    Seq::new(
        field_names(obs).len(),
        |i: int|
            FieldView {
                name: field_names(obs)[i],
                data_type: settled(observed(obs, field_names(obs)[i])),
                nullable: true,
            },
    )
}

/// The schema of sightings has no name twice, and all its fields may be null.
pub proof fn lemma_schema_is_well_formed(obs: Seq<Observation>)
    ensures
        has_distinct_names(schema_of(obs)),
        all_nullable(schema_of(obs)),
{
    lemma_field_names_distinct(obs);
}

/// No name occurs twice among the names sighted.
pub proof fn lemma_field_names_distinct(obs: Seq<Observation>)
    ensures
        forall|i: int, j: int|
            0 <= i < j < field_names(obs).len() ==> field_names(obs)[i] != field_names(obs)[j],
    decreases obs.len(),
{
    if obs.len() > 0 {
        lemma_field_names_distinct(obs.drop_last());
        let before = field_names(obs.drop_last());
        if !before.contains(obs.last().0) {
            assert forall|i: int, j: int| 0 <= i < j < field_names(obs).len() implies field_names(
                obs,
            )[i] != field_names(obs)[j] by {
                if j == before.len() {
                    assert(before[i] != obs.last().0);
                }
            }
        }
    }
}

/// Of a name that was never sighted nothing was observed.
pub proof fn lemma_unsighted_is_none(obs: Seq<Observation>, name: Seq<char>)
    requires
        !field_names(obs).contains(name),
    ensures
        observed(obs, name) is None,
    decreases obs.len(),
{
    if obs.len() > 0 {
        let before = field_names(obs.drop_last());
        if before.contains(obs.last().0) {
            lemma_unsighted_is_none(obs.drop_last(), name);
        } else {
            assert(before.push(obs.last().0).last() == obs.last().0);
            assert(obs.last().0 != name);
            assert forall|i: int| 0 <= i < before.len() implies before[i] != name by {
                assert(before.push(obs.last().0)[i] == before[i]);
            }
            lemma_unsighted_is_none(obs.drop_last(), name);
        }
    }
}

/// `unify_types`, computed.
pub fn coerce_pair(a: DataType, b: DataType) -> (r: DataType)
    ensures
        r == unify_types(a, b),
{
    match (a, b) {
        (DataType::Boolean, DataType::Boolean) => DataType::Boolean,
        (DataType::Int64, DataType::Int64) => DataType::Int64,
        (DataType::Float64, DataType::Float64)
        | (DataType::Float64, DataType::Int64)
        | (DataType::Int64, DataType::Float64) => DataType::Float64,
        _ => DataType::Utf8,
    }
}

/// The unification of the types in `types`, text where there are none.
pub open spec fn coerced(types: Seq<DataType>) -> Option<DataType>
    decreases types.len(),
{
    if types.len() == 0 {
        None
    } else {
        unify(coerced(types.drop_last()), Some(types.last()))
    }
}

/// Folds a list of types into the one type that holds them all.
pub fn coerce_data_type(types: &Vec<DataType>) -> (r: DataType)
    ensures
        r == settled(coerced(types@)),
{
    let mut acc: Option<DataType> = None;
    let mut i: usize = 0;
    while i < types.len()
        invariant
            i <= types.len(),
            acc == coerced(types@.take(i as int)),
        decreases types.len() - i,
    {
        proof {
            assert(types@.take(i as int + 1).drop_last() =~= types@.take(i as int));
        }
        acc = unify_sightings(acc, Some(types[i]));
        i = i + 1;
    }
    proof {
        assert(types@.take(i as int) =~= types@);
    }
    match acc {
        Some(d) => d,
        None => DataType::Utf8,
    }
}

fn unify_sightings(a: Option<DataType>, b: Option<DataType>) -> (r: Option<DataType>)
    ensures
        r == unify(a, b),
{
    match (a, b) {
        (None, _) => b,
        (_, None) => a,
        (Some(x), Some(y)) => Some(coerce_pair(x, y)),
    }
}

/// The type of a scalar value: `Ok(None)` for null, `Err` for an array or an object.
fn value_type(v: &Json) -> (r: Result<Option<DataType>, ()>)
    ensures
        r is Ok <==> is_scalar(v@),
        r matches Ok(k) ==> k == scalar_type(v@),
{
    match v {
        Json::Null => Ok(None),
        Json::Bool(_) => Ok(Some(DataType::Boolean)),
        Json::Int(_) => Ok(Some(DataType::Int64)),
        Json::UInt(u) => if *u <= 0x7fff_ffff_ffff_ffff {
            Ok(Some(DataType::Int64))
        } else {
            Ok(Some(DataType::Float64))
        },
        Json::Float(_) => Ok(Some(DataType::Float64)),
        Json::String(_) => Ok(Some(DataType::Utf8)),
        Json::Array(_) => Err(()),
        Json::Object(_) => Err(()),
    }
}

/// The running table of an inference: `names[i]` was sighted with the types that unify to
/// `types[i]`.
struct Sightings {
    names: Vec<String>,
    types: Vec<Option<DataType>>,
}

impl Sightings {
    spec fn stands_for(&self, obs: Seq<Observation>) -> bool {
        &&& self.names@.len() == field_names(obs).len()
        &&& self.types@.len() == field_names(obs).len()
        &&& forall|i: int|
            0 <= i < field_names(obs).len() ==> (#[trigger] self.names@[i])@ == field_names(obs)[i]
        &&& forall|i: int|
            0 <= i < field_names(obs).len() ==> #[trigger] self.types@[i] == observed(
                obs,
                field_names(obs)[i],
            )
    }

    fn new() -> (s: Sightings)
        ensures
            s.stands_for(Seq::empty()),
    {
        Sightings { names: Vec::new(), types: Vec::new() }
    }

    /// Adds one sighting.
    fn observe(
        &mut self,
        name: &String,
        kind: Option<DataType>,
        Ghost(obs): Ghost<Seq<Observation>>,
    )
        requires
            old(self).stands_for(obs),
        ensures
            final(self).stands_for(obs.push((name@, kind))),
    {
        let ghost next = obs.push((name@, kind));
        proof {
            assert(next.drop_last() =~= obs);
            assert(next.last() == (name@, kind));
            lemma_field_names_distinct(obs);
        }
        let mut i: usize = 0;
        while i < self.names.len()
            invariant
                i <= self.names.len(),
                self.stands_for(obs),
                next == obs.push((name@, kind)),
                forall|j: int| 0 <= j < i ==> field_names(obs)[j] != name@,
            decreases self.names.len() - i,
        {
            if self.names[i] == *name {
                let merged = unify_sightings(self.types[i], kind);
                self.types.set(i, merged);
                proof {
                    assert(next.drop_last() =~= obs);
                    lemma_field_names_distinct(obs);
                    assert(field_names(obs)[i as int] == name@);
                    assert(field_names(obs).contains(name@));
                    assert(field_names(next) == field_names(obs));
                    let names = field_names(next);
                    assert forall|k: int| 0 <= k < names.len() implies #[trigger] self.types@[k]
                        == observed(next, names[k]) by {
                        if k != i {
                            assert(field_names(obs)[k] != field_names(obs)[i as int]);
                        }
                    }
                }
                return ;
            }
            i = i + 1;
        }
        proof {
            assert(!field_names(obs).contains(name@));
            lemma_unsighted_is_none(obs, name@);
            assert(field_names(next) == field_names(obs).push(name@));
        }
        self.names.push(name.clone());
        self.types.push(kind);
        proof {
            assert forall|k: int| 0 <= k < field_names(next).len() implies #[trigger] self.types@[k]
                == observed(next, field_names(next)[k]) by {
                if k < field_names(obs).len() {
                    assert(field_names(obs)[k] != name@);
                }
            }
        }
    }

    /// The schema of what was sighted.
    fn into_schema(self, Ghost(obs): Ghost<Seq<Observation>>) -> (s: MeltSchema)
        requires
            self.stands_for(obs),
        ensures
            s@ == schema_of(obs),
            has_distinct_names(s@),
            all_nullable(s@),
    {
        let mut fields: Vec<Field> = Vec::new();
        let mut i: usize = 0;
        while i < self.names.len()
            invariant
                i <= self.names.len(),
                self.stands_for(obs),
                fields@.len() == i,
                forall|k: int| 0 <= k < i ==> (#[trigger] fields@[k])@ == schema_of(obs)[k],
            decreases self.names.len() - i,
        {
            let data_type = match self.types[i] {
                Some(d) => d,
                None => DataType::Utf8,
            };
            fields.push(Field { name: self.names[i].clone(), data_type, nullable: true });
            i = i + 1;
        }
        let s = MeltSchema { fields };
        proof {
            assert(s@ =~= schema_of(obs));
            lemma_schema_is_well_formed(obs);
        }
        s
    }
}

/// Infers the schema of a batch of records: one nullable field for each name that occurs, in
/// the order of first occurrence, typed by unifying the scalar types seen under that name.
/// Fails where a record is no object or a member is an array or an object.
pub fn infer_schema(vals: &[Json]) -> (r: Result<MeltSchema, MeltError>)
    ensures
        all_records(json_views(vals@)) ==> r is Ok,
        r matches Ok(schema) ==> all_records(json_views(vals@)) && schema@ == schema_of(
            observations(json_views(vals@)),
        ),
        r matches Ok(schema) ==> has_distinct_names(schema@) && all_nullable(schema@),
        r matches Err(e) ==> e.kind == ErrorKind::BadInput,
{
    let ghost records = json_views(vals@);
    let mut table = Sightings::new();
    let mut i: usize = 0;
    while i < vals.len()
        invariant
            i <= vals.len(),
            records == json_views(vals@),
            table.stands_for(observations(records.take(i as int))),
            all_records(records.take(i as int)),
        decreases vals.len() - i,
    {
        let ghost done = observations(records.take(i as int));
        proof {
            assert(records.take(i as int + 1).drop_last() =~= records.take(i as int));
            assert(records.take(i as int + 1).last() == records[i as int]);
            assert(records[i as int] == vals@[i as int]@);
        }
        match &vals[i] {
            Json::Object(members) => {
                let ghost row = record_observations(records[i as int]);
                proof {
                    lemma_view_of_object(*members);
                }
                let mut j: usize = 0;
                while j < members.len()
                    invariant
                        j <= members.len(),
                        i < vals.len(),
                        records == json_views(vals@),
                        records[i as int] == JsonView::Object(members_view(members@)),
                        row == record_observations(records[i as int]),
                        row.len() == members.len(),
                        done == observations(records.take(i as int)),
                        table.stands_for(done + row.take(j as int)),
                        forall|k: int|
                            0 <= k < j ==> is_scalar(
                                (#[trigger] records[i as int]->Object_0[k]).1,
                            ),
                    decreases members.len() - j,
                {
                    let kind = match value_type(&members[j].1) {
                        Ok(k) => k,
                        Err(_) => {
                            proof {
                                assert(!is_scalar(records[i as int]->Object_0[j as int].1));
                                assert(!is_record(records[i as int]));
                            }
                            return Err(MeltError::bad_input("not support array or object"));
                        },
                    };
                    proof {
                        assert(row[j as int] == (members@[j as int].0@, kind));
                        assert((done + row.take(j as int)).push(row[j as int]) =~= done + row.take(
                            j as int + 1,
                        ));
                    }
                    table.observe(&members[j].0, kind, Ghost(done + row.take(j as int)));
                    j = j + 1;
                }
                proof {
                    assert(row.take(j as int) =~= row);
                    assert(is_record(records[i as int]));
                }
            },
            _ => {
                proof {
                    assert(!is_record(records[i as int]));
                }
                return Err(MeltError::bad_input("only support object"));
            },
        }
        proof {
            assert forall|k: int| 0 <= k < i + 1 implies is_record(
                #[trigger] records.take(i as int + 1)[k],
            ) by {
                if k < i {
                    assert(records.take(i as int)[k] == records[k]);
                }
            }
        }
        i = i + 1;
    }
    proof {
        assert(records.take(i as int) =~= records);
    }
    Ok(table.into_schema(Ghost(observations(records))))
}

/// Merges schemas: one nullable field for each name that occurs in any of them, in the order of
/// first occurrence, typed by unifying the types that it has in them.
pub fn merge_schema(schemas: &[&MeltSchema]) -> (r: Result<MeltSchema, MeltError>)
    ensures
        r matches Ok(schema) && schema@ == schema_of(
            schemas_observations(Seq::new(schemas@.len(), |i: int| schemas@[i]@)),
        ) && has_distinct_names(schema@) && all_nullable(schema@),
{
    let ghost views = Seq::new(schemas@.len(), |i: int| schemas@[i]@);
    let mut table = Sightings::new();
    let mut i: usize = 0;
    while i < schemas.len()
        invariant
            i <= schemas.len(),
            views == Seq::new(schemas@.len(), |i: int| schemas@[i]@),
            table.stands_for(schemas_observations(views.take(i as int))),
        decreases schemas.len() - i,
    {
        let ghost done = schemas_observations(views.take(i as int));
        let schema = schemas[i];
        let ghost row = schema_observations(schema@);
        proof {
            assert(views.take(i as int + 1).drop_last() =~= views.take(i as int));
            assert(views.take(i as int + 1).last() == schema@);
        }
        let mut j: usize = 0;
        while j < schema.fields.len()
            invariant
                j <= schema.fields.len(),
                row == schema_observations(schema@),
                table.stands_for(done + row.take(j as int)),
            decreases schema.fields.len() - j,
        {
            proof {
                assert(row[j as int] == (
                    schema.fields@[j as int].name@,
                    Some(schema.fields@[j as int].data_type),
                ));
                assert((done + row.take(j as int)).push(row[j as int]) =~= done + row.take(
                    j as int + 1,
                ));
            }
            table.observe(
                &schema.fields[j].name,
                Some(schema.fields[j].data_type),
                Ghost(done + row.take(j as int)),
            );
            j = j + 1;
        }
        proof {
            assert(row.take(j as int) =~= row);
        }
        i = i + 1;
    }
    proof {
        assert(views.take(i as int) =~= views);
    }
    Ok(table.into_schema(Ghost(schemas_observations(views))))
}

/// Unification is commutative.
pub proof fn lemma_unify_commutative(a: Option<DataType>, b: Option<DataType>)
    ensures
        unify(a, b) == unify(b, a),
{
}

/// Unification is associative.
pub proof fn lemma_unify_associative(a: Option<DataType>, b: Option<DataType>, c: Option<DataType>)
    ensures
        unify(unify(a, b), c) == unify(a, unify(b, c)),
{
}

/// Unifying a type with itself changes nothing.
pub proof fn lemma_unify_idempotent(a: Option<DataType>)
    ensures
        unify(a, a) == a,
{
}

/// The names of a sequence of sightings.
pub open spec fn sighted_names(obs: Seq<Observation>) -> Seq<Seq<char>> {
    Seq::new(obs.len(), |i: int| obs[i].0)
}

/// `start`, and behind it the names of `names` that are new, each once.
pub open spec fn with_new_names(start: Seq<Seq<char>>, names: Seq<Seq<char>>) -> Seq<Seq<char>>
    decreases names.len(),
{
    if names.len() == 0 {
        start
    } else {
        let before = with_new_names(start, names.drop_last());
        if before.contains(names.last()) {
            before
        } else {
            before.push(names.last())
        }
    }
}

/// Of a field, nothing but nulls was seen.
pub open spec fn only_nulls(obs: Seq<Observation>, name: Seq<char>) -> bool {
    field_names(obs).contains(name) && observed(obs, name) is None
}

/// Of a field, a type other than text was seen.
pub open spec fn typed_but_not_text(obs: Seq<Observation>, name: Seq<char>) -> bool {
    observed(obs, name) matches Some(t) && t != DataType::Utf8
}

/// Two batches disagree on a field where one has nothing but nulls in it, which its schema
/// calls text, and the other has a type that is not text.
pub open spec fn null_against_type(
    x: Seq<Observation>,
    y: Seq<Observation>,
    name: Seq<char>,
) -> bool {
    (only_nulls(x, name) && typed_but_not_text(y, name)) || (only_nulls(y, name)
        && typed_but_not_text(x, name))
}

proof fn lemma_observations_of_concat(a: Seq<JsonView>, b: Seq<JsonView>)
    ensures
        observations(a + b) == observations(a) + observations(b),
    decreases b.len(),
{
    if b.len() == 0 {
        assert(a + b =~= a);
        assert(observations(a) + observations(b) =~= observations(a));
    } else {
        assert((a + b).drop_last() =~= a + b.drop_last());
        assert((a + b).last() == b.last());
        lemma_observations_of_concat(a, b.drop_last());
        assert((observations(a) + observations(b.drop_last())) + record_observations(b.last())
            =~= observations(a) + (observations(b.drop_last()) + record_observations(b.last())));
    }
}

proof fn lemma_new_names_contain(start: Seq<Seq<char>>, names: Seq<Seq<char>>)
    ensures
        forall|i: int|
            0 <= i < start.len() ==> with_new_names(start, names).contains(#[trigger] start[i]),
        forall|i: int|
            0 <= i < names.len() ==> with_new_names(start, names).contains(#[trigger] names[i]),
    decreases names.len(),
{
    let all = with_new_names(start, names);
    if names.len() == 0 {
        assert forall|i: int| 0 <= i < start.len() implies all.contains(#[trigger] start[i]) by {
            assert(all[i] == start[i]);
        }
    } else {
        let head = names.drop_last();
        let before = with_new_names(start, head);
        lemma_new_names_contain(start, head);
        assert forall|k: int| 0 <= k < before.len() implies all.contains(#[trigger] before[k]) by {
            assert(all[k] == before[k]);
        }
        assert forall|i: int| 0 <= i < start.len() implies all.contains(#[trigger] start[i]) by {
            assert(before.contains(start[i]));
            let k = choose|k: int| 0 <= k < before.len() && before[k] == start[i];
            assert(all.contains(before[k]));
        }
        assert forall|i: int| 0 <= i < names.len() implies all.contains(#[trigger] names[i]) by {
            if i < head.len() {
                assert(head[i] == names[i]);
                assert(before.contains(head[i]));
                let k = choose|k: int| 0 <= k < before.len() && before[k] == names[i];
                assert(all.contains(before[k]));
            } else if before.contains(names.last()) {
            } else {
                assert(all[before.len() as int] == names.last());
            }
        }
    }
}

proof fn lemma_field_names_of_concat(x: Seq<Observation>, y: Seq<Observation>)
    ensures
        field_names(x + y) == with_new_names(field_names(x), sighted_names(y)),
    decreases y.len(),
{
    if y.len() == 0 {
        assert(x + y =~= x);
    } else {
        assert((x + y).drop_last() =~= x + y.drop_last());
        assert((x + y).last() == y.last());
        assert(sighted_names(y).drop_last() =~= sighted_names(y.drop_last()));
        assert(sighted_names(y).last() == y.last().0);
        lemma_field_names_of_concat(x, y.drop_last());
    }
}

/// Names that come twice add nothing: the names of sightings may stand in for the sightings.
proof fn lemma_new_names_of_field_names(start: Seq<Seq<char>>, y: Seq<Observation>)
    ensures
        with_new_names(start, field_names(y)) == with_new_names(start, sighted_names(y)),
    decreases y.len(),
{
    if y.len() > 0 {
        let head = y.drop_last();
        let name = y.last().0;
        assert(sighted_names(y).drop_last() =~= sighted_names(head));
        assert(sighted_names(y).last() == name);
        lemma_new_names_of_field_names(start, head);
        let before = with_new_names(start, field_names(head));
        if field_names(head).contains(name) {
            lemma_new_names_contain(start, field_names(head));
            let k = choose|k: int| 0 <= k < field_names(head).len() && field_names(head)[k] == name;
            assert(before.contains(field_names(head)[k]));
        } else {
            assert(field_names(y).drop_last() =~= field_names(head));
            assert(field_names(y).last() == name);
        }
    }
}

/// Whether no name comes twice among the sightings.
spec fn distinct_names(z: Seq<Observation>) -> bool {
    forall|i: int, j: int| 0 <= i < j < z.len() ==> z[i].0 != z[j].0
}

proof fn lemma_field_names_of_distinct(z: Seq<Observation>)
    requires
        distinct_names(z),
    ensures
        field_names(z) == sighted_names(z),
    decreases z.len(),
{
    if z.len() > 0 {
        let head = z.drop_last();
        assert(distinct_names(head)) by {
            assert forall|i: int, j: int| 0 <= i < j < head.len() implies head[i].0
                != head[j].0 by {
                assert(head[i] == z[i] && head[j] == z[j]);
            }
        }
        lemma_field_names_of_distinct(head);
        assert(!field_names(head).contains(z.last().0)) by {
            if field_names(head).contains(z.last().0) {
                let k = choose|k: int| 0 <= k < head.len() && sighted_names(head)[k] == z.last().0;
                assert(z[k].0 == z[z.len() - 1].0);
            }
        }
        assert(field_names(z) =~= sighted_names(z));
    }
}

proof fn lemma_observed_of_distinct(z: Seq<Observation>, name: Seq<char>)
    requires
        distinct_names(z),
    ensures
        forall|i: int|
            0 <= i < z.len() && z[i].0 == name ==> observed(z, name) == unify(None, z[i].1),
        (forall|i: int| 0 <= i < z.len() ==> z[i].0 != name) ==> observed(z, name) is None,
    decreases z.len(),
{
    if z.len() > 0 {
        let head = z.drop_last();
        assert(distinct_names(head)) by {
            assert forall|i: int, j: int| 0 <= i < j < head.len() implies head[i].0
                != head[j].0 by {
                assert(head[i] == z[i] && head[j] == z[j]);
            }
        }
        lemma_observed_of_distinct(head, name);
        assert forall|i: int| 0 <= i < head.len() implies head[i] == z[i] by {}
        if z.last().0 == name {
            assert forall|i: int| 0 <= i < head.len() implies head[i].0 != name by {
                assert(z[i].0 != z[z.len() - 1].0);
            }
        }
    }
}

proof fn lemma_observed_of_concat(x: Seq<Observation>, y: Seq<Observation>, name: Seq<char>)
    ensures
        observed(x + y, name) == unify(observed(x, name), observed(y, name)),
    decreases y.len(),
{
    if y.len() == 0 {
        assert(x + y =~= x);
    } else {
        assert((x + y).drop_last() =~= x + y.drop_last());
        assert((x + y).last() == y.last());
        lemma_observed_of_concat(x, y.drop_last(), name);
    }
}

/// What a schema says of a name: the settled type of what was seen, nothing where the name was
/// never seen.
proof fn lemma_observed_of_schema(x: Seq<Observation>, name: Seq<char>)
    ensures
        distinct_names(schema_observations(schema_of(x))),
        sighted_names(schema_observations(schema_of(x))) == field_names(x),
        observed(schema_observations(schema_of(x)), name) == (if field_names(x).contains(name) {
            Some(settled(observed(x, name)))
        } else {
            None
        }),
{
    let z = schema_observations(schema_of(x));
    lemma_field_names_distinct(x);
    assert(sighted_names(z) =~= field_names(x));
    assert forall|i: int, j: int| 0 <= i < j < z.len() implies z[i].0 != z[j].0 by {
        assert(z[i].0 == field_names(x)[i] && z[j].0 == field_names(x)[j]);
    }
    lemma_observed_of_distinct(z, name);
    if field_names(x).contains(name) {
        let k = choose|k: int| 0 <= k < field_names(x).len() && field_names(x)[k] == name;
        assert(z[k].0 == name);
        assert(z[k].1 == Some(settled(observed(x, name))));
    } else {
        assert forall|i: int| 0 <= i < z.len() implies z[i].0 != name by {
            assert(z[i].0 == field_names(x)[i]);
        }
    }
}

/// The schema of sightings in a row is the schema of what their two schemas stand for, where
/// the two do not set nulls against a type.
pub proof fn lemma_schema_of_concat_is_merge(x: Seq<Observation>, y: Seq<Observation>)
    requires
        forall|name: Seq<char>| !null_against_type(x, y, name),
    ensures
        schema_of(x + y) == schema_of(
            schema_observations(schema_of(x)) + schema_observations(schema_of(y)),
        ),
{
    let sx = schema_observations(schema_of(x));
    let sy = schema_observations(schema_of(y));
    lemma_observed_of_schema(x, Seq::empty());
    lemma_observed_of_schema(y, Seq::empty());
    lemma_field_names_of_distinct(sx);
    lemma_field_names_of_distinct(sy);
    lemma_field_names_of_concat(x, y);
    lemma_field_names_of_concat(sx, sy);
    lemma_new_names_of_field_names(field_names(x), y);
    lemma_new_names_of_field_names(field_names(sx), sy);
    assert(field_names(x + y) == field_names(sx + sy));
    let names = field_names(x + y);
    assert forall|i: int| 0 <= i < names.len() implies settled(observed(x + y, names[i]))
        == settled(observed(sx + sy, names[i])) by {
        let name = names[i];
        lemma_observed_of_concat(x, y, name);
        lemma_observed_of_concat(sx, sy, name);
        lemma_observed_of_schema(x, name);
        lemma_observed_of_schema(y, name);
        if !field_names(x).contains(name) {
            lemma_unsighted_is_none(x, name);
        }
        if !field_names(y).contains(name) {
            lemma_unsighted_is_none(y, name);
        }
        assert(!null_against_type(x, y, name));
    }
    assert(schema_of(x + y) =~= schema_of(sx + sy));
}

/// Inference of two batches in a row is the merge of the schemas of the two: with `a` and `b`
/// batches of records, the schema of `a` followed by `b` is what merging the schema of `a` and
/// the schema of `b` gives. This holds where no field has nothing but nulls in one batch and a
/// type other than text in the other.
pub proof fn lemma_infer_concat_is_merge(a: Seq<JsonView>, b: Seq<JsonView>)
    requires
        forall|name: Seq<char>| !null_against_type(observations(a), observations(b), name),
    ensures
        schema_of(observations(a + b)) == schema_of(
            schemas_observations(seq![schema_of(observations(a)), schema_of(observations(b))]),
        ),
{
    let sa = schema_of(observations(a));
    let sb = schema_of(observations(b));
    let both = seq![sa, sb];
    lemma_observations_of_concat(a, b);
    lemma_schema_of_concat_is_merge(observations(a), observations(b));
    lemma_observations_of_two_schemas(sa, sb);
}

proof fn lemma_observations_of_two_schemas(p: Seq<FieldView>, q: Seq<FieldView>)
    ensures
        schemas_observations(seq![p, q]) == schema_observations(p) + schema_observations(q),
{
    let none = Seq::<Seq<FieldView>>::empty();
    assert(schemas_observations(none) =~= Seq::<Observation>::empty());
    assert(seq![p].drop_last() =~= none);
    assert(seq![p].last() == p);
    assert(schemas_observations(seq![p]) =~= schema_observations(p));
    assert(seq![p, q].drop_last() =~= seq![p]);
    assert(seq![p, q].last() == q);
}

/// Merging a schema with itself gives the schema back, made nullable, where no name comes
/// twice in it.
pub proof fn lemma_merge_is_idempotent(s: Seq<FieldView>)
    requires
        has_distinct_names(s),
    ensures
        schema_of(schemas_observations(seq![s, s])) == Seq::new(
            s.len(),
            |i: int| FieldView { nullable: true, ..s[i] },
        ),
{
    let z = schema_observations(s);
    lemma_observations_of_two_schemas(s, s);
    assert(distinct_names(z));
    lemma_field_names_of_distinct(z);
    lemma_field_names_of_concat(z, z);
    lemma_new_names_of_field_names(field_names(z), z);
    assert(with_new_names(field_names(z), field_names(z)) == field_names(z)) by {
        lemma_new_names_absorb(field_names(z), field_names(z), field_names(z).len() as int);
        assert(field_names(z).take(field_names(z).len() as int) =~= field_names(z));
    }
    assert forall|i: int| 0 <= i < s.len() implies settled(observed(z + z, s[i].name))
        == s[i].data_type by {
        lemma_observed_of_concat(z, z, s[i].name);
        lemma_observed_of_distinct(z, s[i].name);
        assert(z[i].0 == s[i].name);
    }
    assert(schema_of(z + z) =~= Seq::new(s.len(), |i: int| FieldView { nullable: true, ..s[i] }));
}

/// Inference is idempotent: records seen twice give the schema of the records seen once.
pub proof fn lemma_infer_is_idempotent(a: Seq<JsonView>)
    ensures
        schema_of(observations(a + a)) == schema_of(observations(a)),
{
    let obs = observations(a);
    let s = schema_of(obs);
    assert forall|name: Seq<char>| !null_against_type(obs, obs, name) by {}
    lemma_infer_concat_is_merge(a, a);
    lemma_schema_is_well_formed(obs);
    lemma_merge_is_idempotent(s);
    assert(Seq::new(s.len(), |i: int| FieldView { nullable: true, ..s[i] }) =~= s);
}

/// Names that are there already add nothing.
proof fn lemma_new_names_absorb(start: Seq<Seq<char>>, names: Seq<Seq<char>>, n: int)
    requires
        0 <= n <= names.len(),
        forall|i: int| 0 <= i < names.len() ==> start.contains(#[trigger] names[i]),
    ensures
        with_new_names(start, names.take(n)) == start,
    decreases n,
{
    if n > 0 {
        assert(names.take(n).drop_last() =~= names.take(n - 1));
        assert(names.take(n).last() == names[n - 1]);
        lemma_new_names_absorb(start, names, n - 1);
    }
}

} // verus!
