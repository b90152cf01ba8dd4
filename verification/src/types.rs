//! The schema type tree and its JSON rendering.
//!
//! A parsed signature is a [`Type`]: a chain of `Array` / `Nullable`
//! wrappers, each owning exactly one child, around a `Simple` or
//! `Reference` leaf.  Its ghost mirror [`TypeModel`] records the chain as a
//! sequence of wrapper kinds and one leaf, which makes the nesting depth of
//! the tree a plain sequence length.

use vstd::prelude::*;

use crate::json::JsonModel;
use crate::json::JsonValue;
use crate::json::lemma_pairs_model_index;
use crate::json::pairs_model;
use crate::json::spec_obj_insert;

verus! {

/// A parsed type signature: a schema type tree.
#[derive(Debug, PartialEq)]
pub enum Type {
    /// A primitive scalar; the payload is its canonical kind,
    /// `"number"` or `"string"`.
    Simple(String),
    /// An opaque type name, rendered as a schema reference.
    Reference(String),
    /// A list-like wrapper around exactly one element type.
    Array(Box<Type>),
    /// An optional-like wrapper around exactly one element type.
    Nullable(Box<Type>),
}

/// One wrapper level of a type tree.
pub enum WrapKind {
    ArrayWrap,
    NullableWrap,
}

/// The leaf of a type tree.
pub enum LeafModel {
    Simple(Seq<char>),
    Reference(Seq<char>),
}

/// The mathematical model of a [`Type`]: every wrapper owns exactly one
/// child, so a tree is the sequence of its wrapper levels, outermost
/// first, around one leaf.
pub struct TypeModel {
    pub wrappers: Seq<WrapKind>,
    pub leaf: LeafModel,
}

/// The model of a type tree.
pub open spec fn type_model(t: Type) -> TypeModel
    decreases t,
{
    match t {
        Type::Simple(kind) => TypeModel { wrappers: Seq::empty(), leaf: LeafModel::Simple(kind@) },
        Type::Reference(name) => TypeModel {
            wrappers: Seq::empty(),
            leaf: LeafModel::Reference(name@),
        },
        Type::Array(inner) => {
            let m = type_model(*inner);
            TypeModel { wrappers: seq![WrapKind::ArrayWrap] + m.wrappers, leaf: m.leaf }
        },
        Type::Nullable(inner) => {
            let m = type_model(*inner);
            TypeModel { wrappers: seq![WrapKind::NullableWrap] + m.wrappers, leaf: m.leaf }
        },
    }
}

impl View for Type {
    type V = TypeModel;

    open spec fn view(&self) -> TypeModel {
        type_model(*self)
    }
}

/// The nesting depth of a type tree: the number of its wrapper levels.
pub open spec fn spec_depth(t: Type) -> nat {
    type_model(t).wrappers.len()
}

/// A type tree is well formed when every `Simple` leaf carries one of
/// the two canonical scalar kinds.
pub open spec fn wf_model(m: TypeModel) -> bool {
    match m.leaf {
        LeafModel::Simple(kind) => kind == "number"@ || kind == "string"@,
        LeafModel::Reference(_) => true,
    }
}

/// The JSON rendering of a leaf: `{"type": kind}` for a scalar,
/// `{"$ref": "#/components/schemas/" + name}` for a reference.
pub open spec fn render_leaf(leaf: LeafModel) -> JsonModel {
    match leaf {
        LeafModel::Simple(kind) => JsonModel::Object(seq![("type"@, JsonModel::Text(kind))]),
        LeafModel::Reference(name) => JsonModel::Object(
            seq![("$ref"@, JsonModel::Text("#/components/schemas/"@ + name))],
        ),
    }
}

/// The JSON rendering of a type tree: an `Array` level renders as
/// `{"type": "array", "items": <inner>}`, and a `Nullable` level renders
/// as the inner rendering with the key `"nullable"` set to `true`.
pub open spec fn render_model(m: TypeModel) -> JsonModel
    decreases m.wrappers.len(),
{
    if m.wrappers.len() == 0 {
        render_leaf(m.leaf)
    } else {
        let rest = render_model(TypeModel { wrappers: m.wrappers.drop_first(), leaf: m.leaf });
        match m.wrappers[0] {
            WrapKind::ArrayWrap => JsonModel::Object(
                seq![("type"@, JsonModel::Text("array"@)), ("items"@, rest)],
            ),
            WrapKind::NullableWrap => match rest {
                JsonModel::Object(members) => JsonModel::Object(
                    spec_obj_insert(members, "nullable"@, JsonModel::Bool(true)),
                ),
                _ => rest,
            },
        }
    }
}

/// The member keys a rendered type fragment may use.
pub open spec fn fragment_key(k: Seq<char>) -> bool {
    k == "type"@ || k == "items"@ || k == "$ref"@ || k == "nullable"@
}

/// Whether a JSON value uses only the rendered-fragment keys, at every
/// nesting level.
pub open spec fn fragment_keys_only(j: JsonModel) -> bool
    decreases j,
{
    match j {
        JsonModel::Object(members) => fragment_keys_only_list(members),
        _ => true,
    }
}

/// Whether every member of an object uses a rendered-fragment key and a
/// value that does so too.
pub open spec fn fragment_keys_only_list(members: Seq<(Seq<char>, JsonModel)>) -> bool
    decreases members,
{
    members.len() == 0 || (fragment_key(members[0].0) && fragment_keys_only(members[0].1)
        && fragment_keys_only_list(members.drop_first()))
}

/// Inserting under a fragment key keeps an object within the fragment
/// keys.
proof fn lemma_insert_fragment_keys(
    members: Seq<(Seq<char>, JsonModel)>,
    key: Seq<char>,
    value: JsonModel,
)
    requires
        fragment_keys_only_list(members),
        fragment_key(key),
        fragment_keys_only(value),
    ensures
        fragment_keys_only_list(spec_obj_insert(members, key, value)),
    decreases members.len(),
{
    reveal_with_fuel(fragment_keys_only_list, 3);
    reveal_with_fuel(fragment_keys_only, 2);
    if members.len() == 0 {
        let ins = spec_obj_insert(members, key, value);
        assert(ins == seq![(key, value)]);
        assert(ins.drop_first() =~= Seq::<(Seq<char>, JsonModel)>::empty());
    } else if members[0].0 == key {
        let ins = seq![(key, value)] + members.drop_first();
        assert(ins.drop_first() =~= members.drop_first());
    } else {
        lemma_insert_fragment_keys(members.drop_first(), key, value);
        let ins = seq![members[0]] + spec_obj_insert(members.drop_first(), key, value);
        assert(ins.drop_first() =~= spec_obj_insert(members.drop_first(), key, value));
    }
}

/// Restriction of the output shapes: every rendered type fragment is a
/// JSON object, and at every nesting level it uses no member keys but
/// `"type"`, `"items"`, `"$ref"` and `"nullable"`.
pub proof fn lemma_render_fragment_keys(m: TypeModel)
    ensures
        render_model(m) is Object,
        fragment_keys_only(render_model(m)),
    decreases m.wrappers.len(),
{
    reveal_with_fuel(fragment_keys_only_list, 4);
    reveal_with_fuel(fragment_keys_only, 3);
    if m.wrappers.len() == 0 {
        match m.leaf {
            LeafModel::Simple(kind) => {
                let members = seq![("type"@, JsonModel::Text(kind))];
                assert(members.drop_first() =~= Seq::<(Seq<char>, JsonModel)>::empty());
            },
            LeafModel::Reference(name) => {
                let members = seq![("$ref"@, JsonModel::Text("#/components/schemas/"@ + name))];
                assert(members.drop_first() =~= Seq::<(Seq<char>, JsonModel)>::empty());
            },
        }
    } else {
        let rest_model = TypeModel { wrappers: m.wrappers.drop_first(), leaf: m.leaf };
        lemma_render_fragment_keys(rest_model);
        let rest = render_model(rest_model);
        match m.wrappers[0] {
            WrapKind::ArrayWrap => {
                let members = seq![("type"@, JsonModel::Text("array"@)), ("items"@, rest)];
                assert(members.drop_first() =~= seq![("items"@, rest)]);
                assert(seq![("items"@, rest)].drop_first() =~= Seq::<
                    (Seq<char>, JsonModel),
                >::empty());
            },
            WrapKind::NullableWrap => {
                let inner_members = rest->Object_0;
                lemma_insert_fragment_keys(inner_members, "nullable"@, JsonModel::Bool(true));
            },
        }
    }
}

impl Type {
    /// Renders the type tree into its JSON schema fragment.
    pub fn to_json(&self) -> (r: JsonValue)
        ensures
            r@ == render_model(self@),
        decreases *self,
    {
        match self {
            Type::Simple(kind) => {
                let mut members: Vec<(String, JsonValue)> = Vec::new();
                members.push((String::from_str("type"), JsonValue::Text(kind.clone())));
                proof {
                    lemma_pairs_model_index(members@);
                    assert(pairs_model(members@) =~= seq![("type"@, JsonModel::Text(kind@))]);
                }
                JsonValue::Object(members)
            },
            Type::Reference(name) => {
                let target = String::from_str("#/components/schemas/").concat(name.as_str());
                let mut members: Vec<(String, JsonValue)> = Vec::new();
                members.push((String::from_str("$ref"), JsonValue::Text(target)));
                proof {
                    lemma_pairs_model_index(members@);
                    assert(pairs_model(members@) =~= seq![
                        ("$ref"@, JsonModel::Text("#/components/schemas/"@ + name@)),
                    ]);
                }
                JsonValue::Object(members)
            },
            Type::Array(inner) => {
                let items = inner.to_json();
                let ghost items_model = items@;
                let mut members: Vec<(String, JsonValue)> = Vec::new();
                members.push((String::from_str("type"), JsonValue::Text(String::from_str("array"))));
                members.push((String::from_str("items"), items));
                proof {
                    lemma_pairs_model_index(members@);
                    assert(pairs_model(members@) =~= seq![
                        ("type"@, JsonModel::Text("array"@)),
                        ("items"@, items_model),
                    ]);
                    assert(type_model(*self).wrappers.drop_first() =~= type_model(
                        **inner,
                    ).wrappers);
                    assert(TypeModel {
                        wrappers: type_model(*self).wrappers.drop_first(),
                        leaf: type_model(*self).leaf,
                    } == type_model(**inner));
                }
                JsonValue::Object(members)
            },
            Type::Nullable(inner) => {
                let rendered = inner.to_json();
                proof {
                    assert(type_model(*self).wrappers.drop_first() =~= type_model(
                        **inner,
                    ).wrappers);
                    assert(TypeModel {
                        wrappers: type_model(*self).wrappers.drop_first(),
                        leaf: type_model(*self).leaf,
                    } == type_model(**inner));
                }
                match rendered {
                    JsonValue::Object(pairs) => {
                        let out = crate::json::obj_insert_pairs(
                            pairs,
                            String::from_str("nullable"),
                            JsonValue::Bool(true),
                        );
                        JsonValue::Object(out)
                    },
                    other => other,
                }
            },
        }
    }
}

} // verus!
