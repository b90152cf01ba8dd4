//! Object schemas and the schema registry.
//!
//! One structure's fields, each a name with a parsed [`Type`], are
//! assembled into an `{"type": "object", "properties": {...}}` document,
//! and the documents of many structures are collected in a
//! [`SchemaRegistry`] keyed by structure name.  A second registration
//! under a name, like a second field under a name, overwrites the
//! earlier entry in place.

use vstd::prelude::*;

use crate::json::JsonModel;
use crate::json::JsonValue;
use crate::json::distinct_keys;
use crate::json::lemma_obj_insert_distinct;
use crate::json::lemma_obj_insert_lookup;
use crate::json::lemma_obj_insert_overwrite;
use crate::json::lemma_pairs_model_index;
use crate::json::obj_insert_pairs;
use crate::json::pairs_model;
use crate::json::spec_obj_insert;
use crate::json::spec_obj_lookup;
use crate::types::Type;
use crate::types::TypeModel;
use crate::types::render_model;
use crate::types::type_model;

verus! {

/// Meta information of a single field of a structure: its name and its
/// parsed type.
#[derive(Debug)]
pub struct Field {
    pub name: String,
    pub json_ty: Type,
}

/// The model of a field list: each field's name with its type model.
pub open spec fn fields_model(fields: Seq<Field>) -> Seq<(Seq<char>, TypeModel)> {
    Seq::new(fields.len(), |i: int| (fields[i].name@, type_model(fields[i].json_ty)))
}

/// Supplies the meta information a structure registers itself with:
/// its display name and its ordered field list.
pub trait SchemaMeta {
    /// The name and parsed type of every field, in declaration order.
    fn get_fields() -> Vec<Field>;

    /// The display name of the structure.
    fn get_name() -> String;
}

/// JSON representations of a structure's schema, available to every
/// structure that supplies its meta information.
pub trait Schema: SchemaMeta {
    /// The object schema document of the structure's fields.
    fn get_fields_openapi() -> (r: JsonValue)
        ensures
            exists|fields: Vec<Field>|
                call_ensures(Self::get_fields, (), fields) && r@ == spec_build_object_schema(
                    fields_model(fields@),
                ),
    {
        let fields = Self::get_fields();
        build_object_schema(&fields)
    }

    /// Registers the structure in the given registry under its name.
    fn append_to_schema(registry: &mut SchemaRegistry)
        ensures
            exists|fields: Vec<Field>, name: String|
                call_ensures(Self::get_fields, (), fields) && call_ensures(
                    Self::get_name,
                    (),
                    name,
                ) && final(registry)@ == spec_obj_insert(
                    old(registry)@,
                    name@,
                    spec_build_object_schema(fields_model(fields@)),
                ),
    {
        let fields = Self::get_fields();
        let name = Self::get_name();
        registry.register(name.as_str(), &fields);
    }
}

/// The `"properties"` members of an object schema: every field is
/// rendered and inserted under its name in order, a repeated name
/// overwriting the earlier member.
pub open spec fn spec_properties(fields: Seq<(Seq<char>, TypeModel)>) -> Seq<
    (Seq<char>, JsonModel),
>
    decreases fields.len(),
{
    if fields.len() == 0 {
        Seq::empty()
    } else {
        spec_obj_insert(
            spec_properties(fields.drop_last()),
            fields.last().0,
            render_model(fields.last().1),
        )
    }
}

/// The object schema of a field list:
/// `{"type": "object", "properties": {...}}`.
pub open spec fn spec_build_object_schema(fields: Seq<(Seq<char>, TypeModel)>) -> JsonModel {
    JsonModel::Object(
        seq![
            ("type"@, JsonModel::Text("object"@)),
            ("properties"@, JsonModel::Object(spec_properties(fields))),
        ],
    )
}

/// Builds the object schema document of one structure's field list.
pub fn build_object_schema(fields: &Vec<Field>) -> (r: JsonValue)
    ensures
        r@ == spec_build_object_schema(fields_model(fields@)),
{
    let mut props: Vec<(String, JsonValue)> = Vec::new();
    let n = fields.len();
    let mut i: usize = 0;
    proof {
        assert(fields_model(fields@).subrange(0, 0) =~= Seq::<(Seq<char>, TypeModel)>::empty());
    }
    while i < n
        invariant
            n == fields@.len(),
            i <= n,
            pairs_model(props@) == spec_properties(
                fields_model(fields@).subrange(0, i as int),
            ),
        decreases n - i,
    {
        let field = &fields[i];
        let rendered = field.json_ty.to_json();
        props = obj_insert_pairs(props, field.name.clone(), rendered);
        proof {
            let fm = fields_model(fields@);
            assert(fm.subrange(0, i + 1).drop_last() =~= fm.subrange(0, i as int));
            assert(fm.subrange(0, i + 1).last() == fm[i as int]);
        }
        i += 1;
    }
    proof {
        assert(fields_model(fields@).subrange(0, n as int) =~= fields_model(fields@));
    }
    let ghost props_view = pairs_model(props@);
    let mut members: Vec<(String, JsonValue)> = Vec::new();
    members.push((String::from_str("type"), JsonValue::Text(String::from_str("object"))));
    members.push((String::from_str("properties"), JsonValue::Object(props)));
    proof {
        lemma_pairs_model_index(members@);
        assert(pairs_model(members@) =~= seq![
            ("type"@, JsonModel::Text("object"@)),
            ("properties"@, JsonModel::Object(props_view)),
        ]);
    }
    JsonValue::Object(members)
}

/// The registry of object schemas, keyed by structure name.  Its model
/// is the sequence of (name, document) entries in registration order;
/// names are unique.
pub struct SchemaRegistry {
    entries: Vec<(String, JsonValue)>,
}

impl View for SchemaRegistry {
    type V = Seq<(Seq<char>, JsonModel)>;

    closed spec fn view(&self) -> Seq<(Seq<char>, JsonModel)> {
        pairs_model(self.entries@)
    }
}

impl SchemaRegistry {
    /// Whether the registry is well formed: no two entries share a name.
    pub open spec fn wf(&self) -> bool {
        distinct_keys(self@)
    }

    /// An empty registry.
    pub fn new() -> (r: SchemaRegistry)
        ensures
            r@ == Seq::<(Seq<char>, JsonModel)>::empty(),
            r.wf(),
    {
        SchemaRegistry { entries: Vec::new() }
    }

    /// Builds the object schema of the field list and stores it under
    /// the given name, overwriting in place what the name held before.
    pub fn register(&mut self, name: &str, fields: &Vec<Field>)
        ensures
            final(self)@ == spec_obj_insert(
                old(self)@,
                name@,
                spec_build_object_schema(fields_model(fields@)),
            ),
            old(self).wf() ==> final(self).wf(),
    {
        let schema = build_object_schema(fields);
        let mut taken: Vec<(String, JsonValue)> = Vec::new();
        core::mem::swap(&mut taken, &mut self.entries);
        self.entries = obj_insert_pairs(taken, String::from_str(name), schema);
        proof {
            if old(self).wf() {
                lemma_obj_insert_distinct(
                    old(self)@,
                    name@,
                    spec_build_object_schema(fields_model(fields@)),
                );
            }
        }
    }

    /// The number of structures registered.
    pub fn len(&self) -> (n: usize)
        ensures
            n == self@.len(),
    {
        proof {
            lemma_pairs_model_index(self.entries@);
        }
        self.entries.len()
    }

    /// Exports the whole registry as one flat JSON object mapping each
    /// structure name to its object schema document.
    pub fn export(&self) -> (r: JsonValue)
        ensures
            r@ == JsonModel::Object(self@),
    {
        JsonValue::Object(crate::json::deep_clone_pairs(&self.entries))
    }
}

/// Idempotence: registering a name with a schema twice leaves the
/// registry exactly as registering it once does, so the exports agree.
pub proof fn lemma_register_idempotent(
    registry: Seq<(Seq<char>, JsonModel)>,
    name: Seq<char>,
    schema: JsonModel,
)
    ensures
        spec_obj_insert(spec_obj_insert(registry, name, schema), name, schema) == spec_obj_insert(
            registry,
            name,
            schema,
        ),
{
    lemma_obj_insert_overwrite(registry, name, schema, schema);
}

/// Overwrite: after registering a name with one schema and then with
/// another, the registry is as if only the second registration had
/// happened, and the name looks up to the second schema.
pub proof fn lemma_register_overwrite(
    registry: Seq<(Seq<char>, JsonModel)>,
    name: Seq<char>,
    first: JsonModel,
    second: JsonModel,
)
    ensures
        spec_obj_insert(spec_obj_insert(registry, name, first), name, second) == spec_obj_insert(
            registry,
            name,
            second,
        ),
        spec_obj_lookup(
            spec_obj_insert(spec_obj_insert(registry, name, first), name, second),
            name,
        ) == Some(second),
{
    lemma_obj_insert_overwrite(registry, name, first, second);
    lemma_obj_insert_lookup(registry, name, second, name);
}

} // verus!
