use vstd::prelude::*;

use crate::json::{
    content_eq, deep_copy, deep_eq, json_eq, lemma_view_fields, lemma_view_fields_push,
    lemma_view_items, lemma_view_items_push, lemma_view_tag, obj_find, obj_get, string_eq_str,
    view_fields, view_items, view_json, Json, JsonV,
};
use crate::order::{lex_le, sort_keys, sort_upto, sorted, str_views, vec_insert_sorted};

verus! {

/// The failure of materializing a value as a schema: only a value that
/// is an object (or a bare boolean) can stand as a schema document.
#[derive(Debug, PartialEq, Eq)]
pub enum SchemaError {
    InvalidSchemaValue,
}

/// A schema document: a value that is an object or a bare boolean.
#[derive(Debug, PartialEq, Eq)]
pub struct Schema {
    value: Json,
}

impl View for Schema {
    type V = JsonV;

    closed spec fn view(&self) -> JsonV {
        view_json(self.value)
    }
}

/// A value can stand as a schema when it is an object or a boolean.
pub open spec fn schema_shaped(v: JsonV) -> bool {
    v is Obj || v is Bool
}

impl Schema {
    /// Materialize a value as a schema, rejecting any value that is not
    /// an object or a boolean.
    pub fn try_from_value(value: Json) -> (r: Result<Schema, SchemaError>)
        ensures
            r is Ok <==> schema_shaped(value@),
            r is Ok ==> r->Ok_0@ == value@,
            r is Err ==> r->Err_0 == SchemaError::InvalidSchemaValue,
    {
        proof {
            lemma_view_tag(value);
        }
        match &value {
            Json::Obj(_) => Ok(Schema { value }),
            Json::Bool(_) => Ok(Schema { value }),
            _ => Err(SchemaError::InvalidSchemaValue),
        }
    }

    /// The underlying value of this schema.
    pub fn as_value(&self) -> (r: &Json)
        ensures
            r@ == self@,
    {
        &self.value
    }

    /// Give up this schema for its underlying value.
    pub fn to_value(self) -> (r: Json)
        ensures
            r@ == self@,
    {
        self.value
    }
}

/// A read-only lookup from a key to a pre-built result, supplied by the
/// caller; the engine consults it before inferring a schema structurally.
pub trait TryGet<K: View, V: View> {
    /// What this registry answers for a given key, stated over models.
    spec fn spec_try_get(&self, key: K::V) -> Option<V::V>;

    fn try_get(&self, key: &K) -> (r: Option<V>)
        ensures
            match r {
                Some(v) => self.spec_try_get(key@) == Some(v@),
                None => self.spec_try_get(key@) is None,
            },
    ;
}

/// A registry that knows no types at all.
pub struct EmptyRegistry;

impl TryGet<Json, Schema> for EmptyRegistry {
    open spec fn spec_try_get(&self, key: JsonV) -> Option<JsonV> {
        None
    }

    fn try_get(&self, key: &Json) -> (r: Option<Schema>) {
        None
    }
}

/// A registry backed by a list of instance/schema pairs, answering the
/// first pair whose instance has the same content as the key, whatever
/// order object fields stand in.
pub struct ListRegistry {
    pub entries: Vec<(Json, Schema)>,
}

impl ListRegistry {
    pub open spec fn spec_lookup_at(entries: Seq<(Json, Schema)>, key: JsonV, i: int) -> Option<
        JsonV,
    >
        decreases entries.len() - i,
    {
        if i < 0 || i >= entries.len() {
            None
        } else if json_eq(entries[i].0@, key) {
            Some(entries[i].1@)
        } else {
            Self::spec_lookup_at(entries, key, i + 1)
        }
    }
}

impl TryGet<Json, Schema> for ListRegistry {
    open spec fn spec_try_get(&self, key: JsonV) -> Option<JsonV> {
        Self::spec_lookup_at(self.entries@, key, 0)
    }

    fn try_get(&self, key: &Json) -> (r: Option<Schema>) {
        let mut i: usize = 0;
        while i < self.entries.len()
            invariant
                i <= self.entries@.len(),
                Self::spec_lookup_at(self.entries@, key@, 0) == Self::spec_lookup_at(
                    self.entries@,
                    key@,
                    i as int,
                ),
            decreases self.entries@.len() - i,
        {
            if content_eq(&self.entries[i].0, key) {
                let found = deep_copy(self.entries[i].1.as_value());
                return Some(Schema { value: found });
            }
            i = i + 1;
        }
        None
    }
}

/// The dialect marker value carried only by a top-level object schema.
pub open spec fn spec_dialect() -> Seq<char> {
    "http://json-schema.org/draft-07/schema#"@
}

/// The schema of a primitive of the given kind name.
pub open spec fn spec_prim(kind: Seq<char>) -> JsonV {
    JsonV::Obj(seq![("type"@, JsonV::Str(kind))])
}

/// The tagged union of two alternative schemas, left before right.
pub open spec fn spec_union2(a: JsonV, b: JsonV) -> JsonV {
    JsonV::Obj(seq![("oneOf"@, JsonV::Arr(seq![a, b]))])
}

/// The declared type tag of a schema object, if any.
pub open spec fn spec_type_tag(v: JsonV) -> Option<JsonV> {
    if v is Obj {
        obj_get(v->Obj_0, "type"@)
    } else {
        None
    }
}

/// The property mapping of a schema object, if it has one.
pub open spec fn spec_obj_props(v: JsonV) -> Option<Seq<(Seq<char>, JsonV)>> {
    if v is Obj {
        match obj_get(v->Obj_0, "properties"@) {
            Some(p) => if p is Obj {
                Some(p->Obj_0)
            } else {
                None
            },
            None => None,
        }
    } else {
        None
    }
}

/// Two schemas are merged structurally when both are objects declaring
/// the same type tag and both carry a non-empty property mapping.
pub open spec fn spec_can_struct_merge(a: JsonV, b: JsonV) -> bool {
    &&& a is Obj
    &&& b is Obj
    &&& spec_type_tag(a) is Some
    &&& spec_type_tag(a) == spec_type_tag(b)
    &&& spec_obj_props(a) is Some
    &&& spec_obj_props(b) is Some
    &&& spec_obj_props(a)->Some_0.len() > 0
    &&& spec_obj_props(b)->Some_0.len() > 0
}

/// A field of the left mapping, overridden by the right mapping's value
/// when the right mapping also declares its name.
pub open spec fn union_override(
    pb: Seq<(Seq<char>, JsonV)>,
    p: (Seq<char>, JsonV),
) -> (Seq<char>, JsonV) {
    match obj_get(pb, p.0) {
        Some(v) => (p.0, v),
        None => p,
    }
}

/// The first `n` fields of the right mapping whose names the left
/// mapping does not declare, in order.
pub open spec fn spec_union_new_upto(
    pa: Seq<(Seq<char>, JsonV)>,
    pb: Seq<(Seq<char>, JsonV)>,
    n: int,
) -> Seq<(Seq<char>, JsonV)>
    decreases n,
{
    if n <= 0 || n > pb.len() {
        Seq::empty()
    } else {
        let prev = spec_union_new_upto(pa, pb, n - 1);
        if obj_get(pa, pb[n - 1].0) is Some {
            prev
        } else {
            prev.push(pb[n - 1])
        }
    }
}

/// The union of two property mappings keyed by name: the left mapping's
/// fields in order, the right-hand value winning on a shared name, then
/// the right mapping's remaining fields in order.
pub open spec fn spec_props_union(
    pa: Seq<(Seq<char>, JsonV)>,
    pb: Seq<(Seq<char>, JsonV)>,
) -> Seq<(Seq<char>, JsonV)> {
    pa.map_values(|p: (Seq<char>, JsonV)| union_override(pb, p)) + spec_union_new_upto(
        pa,
        pb,
        pb.len() as int,
    )
}

/// The merge of two schemas: an equal-content short-circuit keeping the
/// left one, then a structural property union for compatible objects,
/// else a tagged union of the two.
pub open spec fn spec_merge_schemas(a: JsonV, b: JsonV) -> JsonV {
    if json_eq(a, b) {
        a
    } else if spec_can_struct_merge(a, b) {
        JsonV::Obj(
            seq![
                ("type"@, spec_type_tag(a)->Some_0),
                (
                    "properties"@,
                    JsonV::Obj(spec_props_union(spec_obj_props(a)->Some_0, spec_obj_props(b)->Some_0)),
                ),
            ],
        )
    } else {
        spec_union2(a, b)
    }
}

/// The left-to-right pairwise fold of the first `n` schemas.
pub open spec fn spec_fold_upto(s: Seq<JsonV>, n: int) -> JsonV
    decreases n,
{
    if n <= 1 {
        if s.len() >= 1 {
            s[0]
        } else {
            JsonV::Obj(Seq::empty())
        }
    } else {
        spec_merge_schemas(spec_fold_upto(s, n - 1), s[n - 1])
    }
}

/// The representative schema of a non-empty sequence of schemas: the
/// pairwise merge folded left to right from the first one.
pub open spec fn spec_fold(s: Seq<JsonV>) -> JsonV {
    spec_fold_upto(s, s.len() as int)
}

/// A field list with every field of the given name removed.
pub open spec fn spec_remove_key_upto(
    fs: Seq<(Seq<char>, JsonV)>,
    key: Seq<char>,
    n: int,
) -> Seq<(Seq<char>, JsonV)>
    decreases n,
{
    if n <= 0 || n > fs.len() {
        Seq::empty()
    } else {
        let prev = spec_remove_key_upto(fs, key, n - 1);
        if fs[n - 1].0 == key {
            prev
        } else {
            prev.push(fs[n - 1])
        }
    }
}

/// A schema with the dialect marker stripped from its top level; a
/// schema that is not an object is left as it is.
pub open spec fn spec_strip_dialect(v: JsonV) -> JsonV {
    if v is Obj {
        JsonV::Obj(spec_remove_key_upto(v->Obj_0, "$schema"@, v->Obj_0.len() as int))
    } else {
        v
    }
}

/// The names of the first `n` fields, in order, leaving the reference
/// field out.
pub open spec fn spec_nonref_keys_upto(fs: Seq<(Seq<char>, JsonV)>, n: int) -> Seq<Seq<char>>
    decreases n,
{
    if n <= 0 || n > fs.len() {
        Seq::empty()
    } else {
        let prev = spec_nonref_keys_upto(fs, n - 1);
        if fs[n - 1].0 == "$ref"@ {
            prev
        } else {
            prev.push(fs[n - 1].0)
        }
    }
}

/// The value of the last reference field among the first `n`, if any.
pub open spec fn spec_ref_upto(fs: Seq<(Seq<char>, JsonV)>, n: int) -> Option<JsonV>
    decreases n,
{
    if n <= 0 || n > fs.len() {
        None
    } else if fs[n - 1].0 == "$ref"@ {
        Some(fs[n - 1].1)
    } else {
        spec_ref_upto(fs, n - 1)
    }
}

/// The sorted list of required property names of an object instance.
pub open spec fn spec_required(fs: Seq<(Seq<char>, JsonV)>) -> Seq<Seq<char>> {
    sort_keys(spec_nonref_keys_upto(fs, fs.len() as int))
}

/// The schemas inferred for the first `n` elements of an array instance.
pub open spec fn spec_elem_schemas_upto<R: TryGet<Json, Schema>>(
    reg: &R,
    elems: Seq<JsonV>,
    n: int,
) -> Seq<JsonV>
    decreases elems, n,
{
    if n <= 0 || n > elems.len() {
        Seq::empty()
    } else {
        proof {
            assert(decreases_to!(elems => elems[n - 1]));
        }
        spec_elem_schemas_upto(reg, elems, n - 1).push(spec_schema_of(reg, elems[n - 1], false))
    }
}

/// The property schemas inferred for the first `n` fields of an object
/// instance: one stripped schema per field, the reference field left
/// out.
pub open spec fn spec_props_upto<R: TryGet<Json, Schema>>(
    reg: &R,
    fs: Seq<(Seq<char>, JsonV)>,
    n: int,
) -> Seq<(Seq<char>, JsonV)>
    decreases fs, n,
{
    if n <= 0 || n > fs.len() {
        Seq::empty()
    } else {
        proof {
            assert(decreases_to!(fs => fs[n - 1]));
            assert(decreases_to!(fs[n - 1] => fs[n - 1].1));
        }
        let prev = spec_props_upto(reg, fs, n - 1);
        if fs[n - 1].0 == "$ref"@ {
            prev
        } else {
            prev.push(
                (fs[n - 1].0, spec_strip_dialect(spec_schema_of(reg, fs[n - 1].1, false))),
            )
        }
    }
}

/// The schema built structurally for an object instance that the
/// registry does not know: its type tag, the property schemas, the
/// sorted required names, the pass-through reference if present, and
/// the dialect marker only at the top level.
pub open spec fn spec_object_build<R: TryGet<Json, Schema>>(
    reg: &R,
    fs: Seq<(Seq<char>, JsonV)>,
    top: bool,
) -> JsonV
    decreases fs, fs.len() as int + 1,
{
    let props = spec_props_upto(reg, fs, fs.len() as int);
    let req = spec_required(fs).map_values(|k: Seq<char>| JsonV::Str(k));
    let base = seq![
        ("type"@, JsonV::Str("object"@)),
        ("properties"@, JsonV::Obj(props)),
        ("required"@, JsonV::Arr(req)),
    ];
    let with_ref = match spec_ref_upto(fs, fs.len() as int) {
        Some(rv) => base.push(("$ref"@, rv)),
        None => base,
    };
    if top {
        JsonV::Obj(with_ref.push(("$schema"@, JsonV::Str(spec_dialect()))))
    } else {
        JsonV::Obj(with_ref)
    }
}

/// The schema inferred for one instance value: primitives by kind, an
/// array by folding its element schemas, an object by registry lookup
/// and then structural inference.
pub open spec fn spec_schema_of<R: TryGet<Json, Schema>>(reg: &R, v: JsonV, top: bool) -> JsonV
    decreases v, 0int,
{
    match v {
        JsonV::Null => spec_prim("null"@),
        JsonV::Bool(_) => spec_prim("boolean"@),
        JsonV::Int(_) => spec_prim("integer"@),
        JsonV::Real(_) => spec_prim("number"@),
        JsonV::Str(_) => spec_prim("string"@),
        JsonV::Arr(elems) => {
            if elems.len() == 0 {
                JsonV::Obj(
                    seq![
                        ("type"@, JsonV::Str("array"@)),
                        ("items"@, JsonV::Obj(Seq::empty())),
                    ],
                )
            } else {
                proof {
                    assert(decreases_to!(v => elems));
                }
                let schemas = spec_elem_schemas_upto(reg, elems, elems.len() as int);
                JsonV::Obj(
                    seq![("type"@, JsonV::Str("array"@)), ("items"@, spec_fold(schemas))],
                )
            }
        },
        JsonV::Obj(fs) => {
            match reg.spec_try_get(v) {
                Some(s) => s,
                None => {
                    proof {
                        assert(decreases_to!(v => fs));
                    }
                    spec_object_build(reg, fs, top)
                },
            }
        },
    }
}

/// Builds a primitive schema object `{"type": <kind>}`.
fn prim_schema(kind: &str) -> (r: Schema)
    ensures
        r@ == spec_prim(kind@),
{
    let mut fields: Vec<(String, Json)> = Vec::new();
    fields.push(("type".to_owned(), Json::Str(kind.to_owned())));
    proof {
        lemma_view_fields(fields@);
        assert(view_fields(fields@) =~= seq![("type"@, JsonV::Str(kind@))]);
    }
    Schema { value: Json::Obj(fields) }
}

/// The schema-inference engine: maps one instance value to one schema,
/// consulting the given registry of known types for object instances.
pub struct SchemaGenerator<'s, R: TryGet<Json, Schema>> {
    pub known_types: &'s R,
}

impl<'s, R: TryGet<Json, Schema>> SchemaGenerator<'s, R> {
    /// Infer the schema of one instance value. The result is always
    /// `Ok` and is exactly the modeled inference over the instance.
    pub fn generate_schema(&self, instance: &Json) -> (r: Result<Schema, SchemaError>)
        ensures
            r is Ok,
            r->Ok_0@ == spec_schema_of(self.known_types, instance@, true),
    {
        self.infer(instance, true)
    }

    /// Infer the schema of one value, marking it as top level or not.
    fn infer(&self, instance: &Json, top: bool) -> (r: Result<Schema, SchemaError>)
        ensures
            r is Ok,
            r->Ok_0@ == spec_schema_of(self.known_types, instance@, top),
        decreases instance, 1int,
    {
        match instance {
            Json::Obj(_) => self.generate_object_schema(instance, top),
            Json::Arr(items) => {
                proof {
                    assert(decreases_to!(*instance => instance->Arr_0));
                }
                self.generate_array_schema(items)
            },
            Json::Str(_) => Ok(prim_schema("string")),
            Json::Int(_) => Ok(prim_schema("integer")),
            Json::Real(_) => Ok(prim_schema("number")),
            Json::Bool(_) => Ok(prim_schema("boolean")),
            Json::Null => Ok(prim_schema("null")),
        }
    }

    /// Build the schema of an object instance: a schema the registry
    /// already knows is returned unchanged; otherwise the fields are
    /// inferred recursively, the reference field is passed through, the
    /// required names are sorted, and the dialect marker is attached
    /// only at the top level.
    pub fn generate_object_schema(&self, instance: &Json, top: bool) -> (r: Result<
        Schema,
        SchemaError,
    >)
        requires
            instance is Obj,
        ensures
            r is Ok,
            r->Ok_0@ == spec_schema_of(self.known_types, instance@, top),
        decreases instance, 0int,
    {
        match self.known_types.try_get(instance) {
            Some(known) => {
                return Ok(known);
            },
            None => {},
        }
        let fields = match instance {
            Json::Obj(fields) => fields,
            _ => {
                proof {
                    assert(false);
                }
                return Err(SchemaError::InvalidSchemaValue);
            },
        };
        let ghost vfs = view_fields(fields@);
        proof {
            lemma_view_fields(fields@);
            assert(instance@ == JsonV::Obj(vfs));
        }
        let mut props: Vec<(String, Json)> = Vec::new();
        let mut keys: Vec<String> = Vec::new();
        let mut ref_value: Option<Json> = None;
        let mut i: usize = 0;
        while i < fields.len()
            invariant
                i <= fields.len(),
                instance == Json::Obj(*fields),
                vfs == view_fields(fields@),
                vfs.len() == fields@.len(),
                forall|k: int|
                    0 <= k < fields@.len() ==> vfs[k] == (fields@[k].0@, view_json(fields@[k].1)),
                view_fields(props@) =~= spec_props_upto(self.known_types, vfs, i as int),
                str_views(keys@) =~= spec_nonref_keys_upto(vfs, i as int),
                match ref_value {
                    Some(rv) => spec_ref_upto(vfs, i as int) == Some(rv@),
                    None => spec_ref_upto(vfs, i as int) is None,
                },
            decreases fields.len() - i,
        {
            proof {
                assert(decreases_to!(*instance => instance->Obj_0));
                assert(decreases_to!(*fields => fields@));
                assert(decreases_to!(fields@ => fields@[i as int]));
                assert(decreases_to!(fields@[i as int] => fields@[i as int].1));
            }
            let ghost props0 = view_fields(props@);
            let ghost keys0 = str_views(keys@);
            if string_eq_str(&fields[i].0, "$ref") {
                ref_value = Some(deep_copy(&fields[i].1));
            } else {
                let sub = match self.infer(&fields[i].1, false) {
                    Ok(sub) => sub,
                    Err(e) => {
                        return Err(e);
                    },
                };
                let stripped = strip_dialect_value(sub.to_value());
                let key = fields[i].0.clone();
                proof {
                    lemma_view_fields_push(props@, (key, stripped));
                }
                props.push((key, stripped));
                keys.push(fields[i].0.clone());
                proof {
                    assert(str_views(keys@) =~= keys0.push(fields@[i as int].0@));
                }
            }
            i = i + 1;
        }
        // sort the required names
        let mut req: Vec<String> = Vec::new();
        let mut j: usize = 0;
        while j < keys.len()
            invariant
                j <= keys.len(),
                str_views(req@) =~= sort_upto(str_views(keys@), j as int),
            decreases keys.len() - j,
        {
            let ghost ks = str_views(keys@);
            let x = keys[j].clone();
            proof {
                assert(x@ == ks[j as int]);
            }
            vec_insert_sorted(&mut req, x);
            j = j + 1;
        }
        let mut req_items: Vec<Json> = Vec::new();
        let mut m: usize = 0;
        while m < req.len()
            invariant
                m <= req.len(),
                view_items(req_items@) =~= str_views(req@).map_values(
                    |k: Seq<char>| JsonV::Str(k),
                ).take(m as int),
            decreases req.len() - m,
        {
            proof {
                lemma_view_items_push(req_items@, Json::Str(req@[m as int]));
            }
            req_items.push(Json::Str(req[m].clone()));
            proof {
                assert(view_items(req_items@) =~= str_views(req@).map_values(
                    |k: Seq<char>| JsonV::Str(k),
                ).take(m as int + 1));
            }
            m = m + 1;
        }
        // assemble the schema object
        proof {
            assert(str_views(keys@) == spec_nonref_keys_upto(vfs, vfs.len() as int));
            assert(str_views(req@) =~= spec_required(vfs));
            assert(view_items(req_items@) =~= spec_required(vfs).map_values(
                |k: Seq<char>| JsonV::Str(k),
            ));
        }
        let mut out: Vec<(String, Json)> = Vec::new();
        out.push(("type".to_owned(), Json::Str("object".to_owned())));
        let props_json = Json::Obj(props);
        out.push(("properties".to_owned(), props_json));
        let req_json = Json::Arr(req_items);
        out.push(("required".to_owned(), req_json));
        match ref_value {
            Some(rv) => {
                out.push(("$ref".to_owned(), rv));
            },
            None => {},
        }
        if top {
            let marker = Json::Str("http://json-schema.org/draft-07/schema#".to_owned());
            out.push(("$schema".to_owned(), marker));
        }
        proof {
            lemma_view_fields(out@);
            assert(view_fields(out@) =~= spec_object_build_fields(
                self.known_types,
                vfs,
                top,
            ));
            assert(JsonV::Obj(view_fields(out@)) == spec_object_build(self.known_types, vfs, top));
        }
        Ok(Schema { value: Json::Obj(out) })
    }

    /// Build the schema of an array instance: an unconstrained items
    /// schema for an empty array, else the fold of its element schemas.
    pub fn generate_array_schema(&self, arr: &Vec<Json>) -> (r: Result<Schema, SchemaError>)
        ensures
            r is Ok,
            r->Ok_0@ == spec_schema_of(
                self.known_types,
                JsonV::Arr(view_items(arr@)),
                false,
            ),
        decreases arr, 0int,
    {
        proof {
            lemma_view_items(arr@);
        }
        if arr.len() == 0 {
            let mut out: Vec<(String, Json)> = Vec::new();
            out.push(("type".to_owned(), Json::Str("array".to_owned())));
            out.push(("items".to_owned(), Json::Obj(Vec::new())));
            proof {
                lemma_view_fields(out@);
                assert(view_fields(out@) =~= seq![
                    ("type"@, JsonV::Str("array"@)),
                    ("items"@, JsonV::Obj(Seq::empty())),
                ]);
                assert(view_items(arr@) =~= Seq::<JsonV>::empty());
            }
            return Ok(Schema { value: Json::Obj(out) });
        }
        let ghost elems = view_items(arr@);
        let mut item_schemas: Vec<Schema> = Vec::new();
        let mut i: usize = 0;
        while i < arr.len()
            invariant
                i <= arr.len(),
                elems == view_items(arr@),
                elems.len() == arr@.len(),
                forall|k: int| 0 <= k < arr@.len() ==> elems[k] == view_json(arr@[k]),
                item_schemas@.len() == i,
                forall|k: int|
                    0 <= k < i ==> item_schemas@[k]@ == spec_elem_schemas_upto(
                        self.known_types,
                        elems,
                        elems.len() as int,
                    )[k],
            decreases arr.len() - i,
        {
            proof {
                assert(decreases_to!(*arr => arr@));
                assert(decreases_to!(arr@ => arr@[i as int]));
                lemma_elem_schemas_upto(self.known_types, elems, elems.len() as int);
            }
            let s = match self.infer(&arr[i], false) {
                Ok(s) => s,
                Err(e) => {
                    return Err(e);
                },
            };
            item_schemas.push(s);
            i = i + 1;
        }
        let common = match self.find_common_schema(&item_schemas) {
            Ok(c) => c,
            Err(e) => {
                return Err(e);
            },
        };
        let mut out: Vec<(String, Json)> = Vec::new();
        out.push(("type".to_owned(), Json::Str("array".to_owned())));
        out.push(("items".to_owned(), common.to_value()));
        proof {
            lemma_view_fields(out@);
            lemma_elem_schemas_upto(self.known_types, elems, elems.len() as int);
            assert(schema_views(item_schemas@) =~= spec_elem_schemas_upto(
                self.known_types,
                elems,
                elems.len() as int,
            ));
            assert(view_fields(out@) =~= seq![
                ("type"@, JsonV::Str("array"@)),
                ("items"@, spec_fold(spec_elem_schemas_upto(self.known_types, elems, elems.len() as int))),
            ]);
        }
        Ok(Schema { value: Json::Obj(out) })
    }

    /// Fold a sequence of schemas into one representative schema, left
    /// to right; an empty sequence folds to the unconstrained schema.
    pub fn find_common_schema(&self, schemas: &Vec<Schema>) -> (r: Result<Schema, SchemaError>)
        ensures
            r is Ok,
            schemas@.len() == 0 ==> r->Ok_0@ == JsonV::Obj(Seq::empty()),
            schemas@.len() > 0 ==> r->Ok_0@ == spec_fold(schema_views(schemas@)),
    {
        if schemas.len() == 0 {
            let empty: Vec<(String, Json)> = Vec::new();
            proof {
                lemma_view_fields(empty@);
                assert(view_fields(empty@) =~= Seq::<(Seq<char>, JsonV)>::empty());
            }
            return Ok(Schema { value: Json::Obj(empty) });
        }
        let ghost views = schema_views(schemas@);
        let mut common = Schema { value: deep_copy(&schemas[0].value) };
        let mut i: usize = 1;
        while i < schemas.len()
            invariant
                1 <= i <= schemas@.len(),
                views == schema_views(schemas@),
                views.len() == schemas@.len(),
                forall|k: int| 0 <= k < schemas@.len() ==> views[k] == schemas@[k]@,
                common@ == spec_fold_upto(views, i as int),
            decreases schemas.len() - i,
        {
            let merged = match self.merge_schemas(&common, &schemas[i]) {
                Ok(m) => m,
                Err(e) => {
                    return Err(e);
                },
            };
            common = merged;
            i = i + 1;
        }
        Ok(common)
    }

    /// Merge two schemas: schemas with equal content short-circuit to
    /// the left one; object schemas declaring the same type tag and both
    /// carrying a non-empty property mapping merge those mappings, the
    /// right-hand value winning on a shared name; anything else becomes
    /// a tagged union, left before right.
    pub fn merge_schemas(&self, schema1: &Schema, schema2: &Schema) -> (r: Result<
        Schema,
        SchemaError,
    >)
        ensures
            r is Ok,
            r->Ok_0@ == spec_merge_schemas(schema1@, schema2@),
    {
        if content_eq(&schema1.value, &schema2.value) {
            return Ok(Schema { value: deep_copy(&schema1.value) });
        }
        proof {
            lemma_view_tag(schema1.value);
            lemma_view_tag(schema2.value);
        }
        match (&schema1.value, &schema2.value) {
            (Json::Obj(f1), Json::Obj(f2)) => {
                proof {
                    lemma_view_fields(f1@);
                    lemma_view_fields(f2@);
                }
                let ghost v1 = view_fields(f1@);
                let ghost v2 = view_fields(f2@);
                let t1 = obj_find(f1, "type");
                let t2 = obj_find(f2, "type");
                let (ti1, ti2) = match (t1, t2) {
                    (Some(ti1), Some(ti2)) => (ti1, ti2),
                    _ => {
                        return Ok(self.union_of(schema1, schema2));
                    },
                };
                if !deep_eq(&f1[ti1].1, &f2[ti2].1) {
                    return Ok(self.union_of(schema1, schema2));
                }
                let p1 = obj_find(f1, "properties");
                let p2 = obj_find(f2, "properties");
                let (i1, i2) = match (p1, p2) {
                    (Some(i1), Some(i2)) => (i1, i2),
                    _ => {
                        return Ok(self.union_of(schema1, schema2));
                    },
                };
                let pa = match &f1[i1].1 {
                    Json::Obj(pa) => pa,
                    _ => {
                        proof {
                            lemma_view_tag(f1@[i1 as int].1);
                        }
                        return Ok(self.union_of(schema1, schema2));
                    },
                };
                let pb = match &f2[i2].1 {
                    Json::Obj(pb) => pb,
                    _ => {
                        proof {
                            lemma_view_tag(f2@[i2 as int].1);
                        }
                        return Ok(self.union_of(schema1, schema2));
                    },
                };
                proof {
                    lemma_view_fields(pa@);
                    lemma_view_fields(pb@);
                }
                let ghost pav = view_fields(pa@);
                let ghost pbv = view_fields(pb@);
                if pa.len() == 0 || pb.len() == 0 {
                    return Ok(self.union_of(schema1, schema2));
                }
                let type_json: Json = deep_copy(&f1[ti1].1);
                let mut props: Vec<(String, Json)> = Vec::new();
                let mut i: usize = 0;
                while i < pa.len()
                    invariant
                        i <= pa@.len(),
                        pav == view_fields(pa@),
                        pbv == view_fields(pb@),
                        pav.len() == pa@.len(),
                        pbv.len() == pb@.len(),
                        forall|k: int|
                            0 <= k < pa@.len() ==> pav[k] == (pa@[k].0@, view_json(pa@[k].1)),
                        forall|k: int|
                            0 <= k < pb@.len() ==> pbv[k] == (pb@[k].0@, view_json(pb@[k].1)),
                        view_fields(props@).len() == i,
                        forall|k: int|
                            0 <= k < i ==> view_fields(props@)[k] == union_override(pbv, pav[k]),
                    decreases pa.len() - i,
                {
                    let key = pa[i].0.clone();
                    let value: Json = match obj_find(pb, pa[i].0.as_str()) {
                        Some(jdx) => deep_copy(&pb[jdx].1),
                        None => deep_copy(&pa[i].1),
                    };
                    proof {
                        lemma_view_fields_push(props@, (key, value));
                    }
                    props.push((key, value));
                    i = i + 1;
                }
                let mut jdx: usize = 0;
                while jdx < pb.len()
                    invariant
                        jdx <= pb@.len(),
                        pav == view_fields(pa@),
                        pbv == view_fields(pb@),
                        pav.len() == pa@.len(),
                        pbv.len() == pb@.len(),
                        forall|k: int|
                            0 <= k < pb@.len() ==> pbv[k] == (pb@[k].0@, view_json(pb@[k].1)),
                        view_fields(props@) =~= pav.map_values(
                            |p: (Seq<char>, JsonV)| union_override(pbv, p),
                        ) + spec_union_new_upto(pav, pbv, jdx as int),
                    decreases pb.len() - jdx,
                {
                    let found = obj_find(pa, pb[jdx].0.as_str());
                    match found {
                        Some(_) => {},
                        None => {
                            let key = pb[jdx].0.clone();
                            let value = deep_copy(&pb[jdx].1);
                            proof {
                                lemma_view_fields_push(props@, (key, value));
                            }
                            props.push((key, value));
                        },
                    }
                    jdx = jdx + 1;
                }
                let mut out: Vec<(String, Json)> = Vec::new();
                out.push(("type".to_owned(), type_json));
                out.push(("properties".to_owned(), Json::Obj(props)));
                proof {
                    lemma_view_fields(out@);
                    assert(spec_can_struct_merge(schema1@, schema2@));
                    assert(view_fields(out@) =~= spec_merge_schemas(schema1@, schema2@)->Obj_0);
                }
                Ok(Schema { value: Json::Obj(out) })
            },
            _ => Ok(self.union_of(schema1, schema2)),
        }
    }

    /// Wrap two schemas as the alternatives of a tagged union.
    fn union_of(&self, schema1: &Schema, schema2: &Schema) -> (r: Schema)
        ensures
            r@ == spec_union2(schema1@, schema2@),
    {
        let mut alts: Vec<Json> = Vec::new();
        alts.push(deep_copy(&schema1.value));
        alts.push(deep_copy(&schema2.value));
        proof {
            lemma_view_items(alts@);
            assert(view_items(alts@) =~= seq![schema1@, schema2@]);
        }
        let mut out: Vec<(String, Json)> = Vec::new();
        out.push(("oneOf".to_owned(), Json::Arr(alts)));
        proof {
            lemma_view_fields(out@);
            assert(view_fields(out@) =~= seq![("oneOf"@, JsonV::Arr(seq![schema1@, schema2@]))]);
        }
        Schema { value: Json::Obj(out) }
    }
}

/// The models of a sequence of schemas.
pub open spec fn schema_views(s: Seq<Schema>) -> Seq<JsonV> {
    s.map_values(|x: Schema| x@)
}

/// The field list that `spec_object_build` wraps as an object.
pub open spec fn spec_object_build_fields<R: TryGet<Json, Schema>>(
    reg: &R,
    fs: Seq<(Seq<char>, JsonV)>,
    top: bool,
) -> Seq<(Seq<char>, JsonV)> {
    let props = spec_props_upto(reg, fs, fs.len() as int);
    let req = spec_required(fs).map_values(|k: Seq<char>| JsonV::Str(k));
    let base = seq![
        ("type"@, JsonV::Str("object"@)),
        ("properties"@, JsonV::Obj(props)),
        ("required"@, JsonV::Arr(req)),
    ];
    let with_ref = match spec_ref_upto(fs, fs.len() as int) {
        Some(rv) => base.push(("$ref"@, rv)),
        None => base,
    };
    if top {
        with_ref.push(("$schema"@, JsonV::Str(spec_dialect())))
    } else {
        with_ref
    }
}

pub proof fn lemma_elem_schemas_upto<R: TryGet<Json, Schema>>(reg: &R, elems: Seq<JsonV>, n: int)
    requires
        0 <= n <= elems.len(),
    ensures
        spec_elem_schemas_upto(reg, elems, n).len() == n,
        forall|i: int|
            0 <= i < n ==> spec_elem_schemas_upto(reg, elems, n)[i] == spec_schema_of(
                reg,
                elems[i],
                false,
            ),
    decreases n,
{
    if n > 0 {
        lemma_elem_schemas_upto(reg, elems, n - 1);
    }
}

/// Strip the dialect marker from the top level of a schema value; a
/// value that is not an object is left unchanged.
pub fn strip_dialect_value(v: Json) -> (r: Json)
    ensures
        r@ == spec_strip_dialect(v@),
{
    proof {
        lemma_view_tag(v);
    }
    match v {
        Json::Obj(fields) => {
            proof {
                lemma_view_fields(fields@);
            }
            let ghost vfs = view_fields(fields@);
            let mut out: Vec<(String, Json)> = Vec::new();
            let mut i: usize = 0;
            while i < fields.len()
                invariant
                    i <= fields.len(),
                    vfs == view_fields(fields@),
                    vfs.len() == fields@.len(),
                    forall|k: int|
                        0 <= k < fields@.len() ==> vfs[k] == (fields@[k].0@, view_json(
                            fields@[k].1,
                        )),
                    view_fields(out@) =~= spec_remove_key_upto(vfs, "$schema"@, i as int),
                decreases fields.len() - i,
            {
                if !string_eq_str(&fields[i].0, "$schema") {
                    let key = fields[i].0.clone();
                    let value = deep_copy(&fields[i].1);
                    proof {
                        lemma_view_fields_push(out@, (key, value));
                    }
                    out.push((key, value));
                }
                i = i + 1;
            }
            Json::Obj(out)
        },
        other => other,
    }
}

} // verus!
