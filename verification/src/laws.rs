use vstd::prelude::*;

use crate::generator::{
    spec_can_struct_merge, spec_dialect, spec_elem_schemas_upto, spec_fold, spec_fold_upto,
    spec_merge_schemas, spec_nonref_keys_upto, spec_obj_props, spec_prim, spec_props_union,
    spec_props_upto, spec_ref_upto, spec_remove_key_upto, spec_required, spec_schema_of,
    spec_strip_dialect, spec_union2, spec_union_new_upto, union_override, Schema, TryGet,
};
use crate::json::{
    first_key_at, has_key, json_eq, lemma_first_key_at, lemma_json_eq_refl, obj_get, Json, JsonV,
};
use crate::order::{sort_upto, sorted};

verus! {

/// An object whose field names are pairwise distinct, as every object
/// in the JSON data model is.
pub open spec fn keys_unique(fs: Seq<(Seq<char>, JsonV)>) -> bool {
    forall|i: int, j: int| 0 <= i < j < fs.len() ==> fs[i].0 != fs[j].0
}

/// Merging a schema with itself yields that same schema unchanged.
pub proof fn lemma_merge_idempotent(s: JsonV)
    ensures
        spec_merge_schemas(s, s) == s,
{
    lemma_json_eq_refl(s);
}

/// An integral numeric instance is classified as an integer, and any
/// other numeric instance as a number, whatever the registry holds.
pub proof fn lemma_primitive_classification<R: TryGet<Json, Schema>>(
    reg: &R,
    v: JsonV,
    top: bool,
)
    ensures
        v is Int ==> spec_schema_of(reg, v, top) == spec_prim("integer"@),
        v is Real ==> spec_schema_of(reg, v, top) == spec_prim("number"@),
{
}

/// A schema the registry returns for an object instance is the result,
/// unchanged: no field is recursed into and no marker is attached.
pub proof fn lemma_known_type_short_circuit<R: TryGet<Json, Schema>>(
    reg: &R,
    v: JsonV,
    s: JsonV,
    top: bool,
)
    requires
        v is Obj,
        reg.spec_try_get(v) == Some(s),
    ensures
        spec_schema_of(reg, v, top) == s,
{
}

/// The names of the non-reference fields carry over faithfully: each
/// one differs from the reference key and comes from a field.
proof fn lemma_nonref_keys(fs: Seq<(Seq<char>, JsonV)>, n: int)
    requires
        0 <= n <= fs.len(),
    ensures
        forall|x: Seq<char>|
            spec_nonref_keys_upto(fs, n).contains(x) ==> (x != "$ref"@ && exists|i: int|
                0 <= i < n && fs[i].0 == x),
        keys_unique(fs) ==> spec_nonref_keys_upto(fs, n).no_duplicates(),
    decreases n,
{
    if n > 0 {
        lemma_nonref_keys(fs, n - 1);
        let prev = spec_nonref_keys_upto(fs, n - 1);
        let cur = spec_nonref_keys_upto(fs, n);
        if fs[n - 1].0 == "$ref"@ {
        } else {
            assert forall|x: Seq<char>| cur.contains(x) implies (x != "$ref"@ && exists|i: int|
                0 <= i < n && fs[i].0 == x) by {
                let j = choose|j: int| 0 <= j < cur.len() && cur[j] == x;
                if j < prev.len() {
                    assert(prev.contains(x));
                } else {
                    assert(fs[n - 1].0 == x);
                }
            }
            if keys_unique(fs) {
                if prev.contains(fs[n - 1].0) {
                    let i = choose|i: int| 0 <= i < n - 1 && #[trigger] fs[i].0 == fs[n - 1].0;
                    assert(false);
                }
            }
        }
    }
}

/// The required list of an inferred object schema is the lexicographically
/// sorted, duplicate-free list of the instance's field names, the
/// reference field left out.
pub proof fn lemma_required_properties(fs: Seq<(Seq<char>, JsonV)>)
    ensures
        sorted(spec_required(fs)),
        spec_required(fs).to_multiset() == spec_nonref_keys_upto(
            fs,
            fs.len() as int,
        ).to_multiset(),
        keys_unique(fs) ==> spec_required(fs).no_duplicates(),
        forall|x: Seq<char>|
            spec_required(fs).contains(x) ==> (x != "$ref"@ && exists|i: int|
                0 <= i < fs.len() && fs[i].0 == x),
{
    broadcast use vstd::seq_lib::group_to_multiset_ensures;

    let ks = spec_nonref_keys_upto(fs, fs.len() as int);
    crate::order::lemma_sort_upto(ks, ks.len() as int);
    assert(ks.take(ks.len() as int) =~= ks);
    lemma_nonref_keys(fs, fs.len() as int);
    let req = spec_required(fs);
    assert(req == sort_upto(ks, ks.len() as int));
    if keys_unique(fs) {
        ks.lemma_multiset_has_no_duplicates();
        req.lemma_multiset_has_no_duplicates_conv();
    }
    assert forall|x: Seq<char>| req.contains(x) implies (x != "$ref"@ && exists|i: int|
        0 <= i < fs.len() && fs[i].0 == x) by {
        assert(req.to_multiset().contains(x));
        assert(ks.to_multiset().contains(x));
        assert(ks.contains(x));
    }
}

/// The inferred object schema carries exactly the sorted required list
/// under its required entry.
pub proof fn lemma_required_in_output<R: TryGet<Json, Schema>>(reg: &R, v: JsonV, top: bool)
    requires
        v is Obj,
        reg.spec_try_get(v) is None,
    ensures
        ({
            let fs = v->Obj_0;
            let out = spec_schema_of(reg, v, top);
            obj_get(out->Obj_0, "required"@) == Some(
                JsonV::Arr(spec_required(fs).map_values(|k: Seq<char>| JsonV::Str(k))),
            )
        }),
{
    reveal_strlit("type");
    reveal_strlit("properties");
    reveal_strlit("required");
    let fs = v->Obj_0;
    let out = spec_schema_of(reg, v, top);
    let ofs = out->Obj_0;
    assert("type"@ != "required"@) by {
        assert("type"@.len() == 4);
        assert("required"@.len() == 8);
    }
    assert("properties"@ != "required"@) by {
        assert("properties"@.len() == 10);
        assert("required"@.len() == 8);
    }
    assert(ofs[0].0 == "type"@);
    assert(ofs[1].0 == "properties"@);
    assert(ofs[2] == (
        "required"@,
        JsonV::Arr(spec_required(fs).map_values(|k: Seq<char>| JsonV::Str(k))),
    ));
    lemma_first_key_from(ofs, "required"@, 0, 2);
}

/// `first_key_at` searched from `i` lands exactly on `idx` when the
/// names before `idx` all differ from the key and `idx` is a match or
/// the end.
pub proof fn lemma_first_key_from(
    fs: Seq<(Seq<char>, JsonV)>,
    key: Seq<char>,
    i: int,
    idx: int,
)
    requires
        0 <= i <= idx <= fs.len(),
        forall|j: int| i <= j < idx ==> fs[j].0 != key,
        idx < fs.len() ==> fs[idx].0 == key,
    ensures
        first_key_at(fs, key, i) == if idx < fs.len() {
            idx
        } else {
            fs.len() as int
        },
    decreases idx - i,
{
    if i < idx {
        lemma_first_key_from(fs, key, i + 1, idx);
    }
}

/// A lookup in `s.push(p)`: the existing fields shadow the new one.
pub proof fn lemma_obj_get_push(s: Seq<(Seq<char>, JsonV)>, p: (Seq<char>, JsonV), key: Seq<char>)
    ensures
        obj_get(s.push(p), key) == if has_key(s, key) {
            obj_get(s, key)
        } else if p.0 == key {
            Some(p.1)
        } else {
            None::<JsonV>
        },
        has_key(s.push(p), key) <==> (has_key(s, key) || p.0 == key),
{
    let t = s.push(p);
    lemma_first_key_at(s, key, 0);
    let i = first_key_at(s, key, 0);
    if i < s.len() {
        lemma_first_key_from(t, key, 0, i);
    } else if p.0 == key {
        lemma_first_key_from(t, key, 0, s.len() as int);
    } else {
        lemma_first_key_from(t, key, 0, t.len() as int);
    }
}

/// A lookup in a concatenation: the left fields shadow the right ones.
pub proof fn lemma_obj_get_concat(
    s1: Seq<(Seq<char>, JsonV)>,
    s2: Seq<(Seq<char>, JsonV)>,
    key: Seq<char>,
)
    ensures
        obj_get(s1 + s2, key) == if has_key(s1, key) {
            obj_get(s1, key)
        } else {
            obj_get(s2, key)
        },
        has_key(s1 + s2, key) <==> (has_key(s1, key) || has_key(s2, key)),
{
    let t = s1 + s2;
    lemma_first_key_at(s1, key, 0);
    lemma_first_key_at(s2, key, 0);
    let i1 = first_key_at(s1, key, 0);
    let i2 = first_key_at(s2, key, 0);
    if i1 < s1.len() {
        lemma_first_key_from(t, key, 0, i1);
    } else if i2 < s2.len() {
        lemma_first_key_from(t, key, 0, s1.len() + i2);
    } else {
        lemma_first_key_from(t, key, 0, t.len() as int);
    }
}

/// A lookup in the overridden left part of a property union: the names
/// are the left mapping's names, and a shared name carries the right
/// mapping's value.
proof fn lemma_obj_get_mapped(
    pa: Seq<(Seq<char>, JsonV)>,
    pb: Seq<(Seq<char>, JsonV)>,
    key: Seq<char>,
)
    ensures
        ({
            let mapped = pa.map_values(|p: (Seq<char>, JsonV)| union_override(pb, p));
            &&& (has_key(mapped, key) <==> has_key(pa, key))
            &&& has_key(pa, key) ==> obj_get(mapped, key) == if has_key(pb, key) {
                obj_get(pb, key)
            } else {
                obj_get(pa, key)
            }
        }),
{
    let mapped = pa.map_values(|p: (Seq<char>, JsonV)| union_override(pb, p));
    assert(mapped.len() == pa.len());
    assert(forall|i: int| 0 <= i < pa.len() ==> #[trigger] mapped[i].0 == pa[i].0);
    lemma_first_key_at(pa, key, 0);
    let i = first_key_at(pa, key, 0);
    if i < pa.len() {
        lemma_first_key_from(mapped, key, 0, i);
    } else {
        lemma_first_key_from(mapped, key, 0, pa.len() as int);
    }
}

/// A lookup among the right mapping's fields that survive into the tail
/// of a property union: when the left mapping lacks the name, the tail
/// answers as the right mapping itself does.
proof fn lemma_union_tail_get(
    pa: Seq<(Seq<char>, JsonV)>,
    pb: Seq<(Seq<char>, JsonV)>,
    n: int,
    key: Seq<char>,
)
    requires
        0 <= n <= pb.len(),
    ensures
        has_key(pa, key) ==> !has_key(spec_union_new_upto(pa, pb, n), key),
        !has_key(pa, key) ==> {
            &&& obj_get(spec_union_new_upto(pa, pb, n), key) == obj_get(pb.take(n), key)
            &&& (has_key(spec_union_new_upto(pa, pb, n), key) <==> has_key(pb.take(n), key))
        },
    decreases n,
{
    lemma_first_key_at(pa, key, 0);
    if n <= 0 {
        assert(pb.take(0) =~= Seq::empty());
        lemma_first_key_at(spec_union_new_upto(pa, pb, 0), key, 0);
        lemma_first_key_at(pb.take(0), key, 0);
    } else {
        lemma_union_tail_get(pa, pb, n - 1, key);
        let prev = spec_union_new_upto(pa, pb, n - 1);
        let cur = spec_union_new_upto(pa, pb, n);
        assert(pb.take(n) =~= pb.take(n - 1).push(pb[n - 1]));
        lemma_obj_get_push(pb.take(n - 1), pb[n - 1], key);
        if obj_get(pa, pb[n - 1].0) is Some {
            // the entry is dropped from the tail; if its name is the key,
            // the key is declared by the left mapping
            if has_key(pa, key) {
            } else {
                assert(pb[n - 1].0 != key);
            }
        } else {
            lemma_obj_get_push(prev, pb[n - 1], key);
            if has_key(pa, key) {
                assert(pb[n - 1].0 != key);
            }
        }
    }
}

/// When two object schemas merge structurally, the right-hand property
/// wins on a shared name, a name only one side declares keeps that
/// side's value, and no other name appears.
pub proof fn lemma_merge_right_override(a: JsonV, b: JsonV, key: Seq<char>)
    requires
        !json_eq(a, b),
        spec_can_struct_merge(a, b),
    ensures
        ({
            let pa = spec_obj_props(a)->Some_0;
            let pb = spec_obj_props(b)->Some_0;
            let u = spec_props_union(pa, pb);
            &&& spec_merge_schemas(a, b) == JsonV::Obj(
                seq![
                    ("type"@, obj_get(a->Obj_0, "type"@)->Some_0),
                    ("properties"@, JsonV::Obj(u)),
                ],
            )
            &&& has_key(pb, key) ==> obj_get(u, key) == obj_get(pb, key)
            &&& (!has_key(pb, key) && has_key(pa, key)) ==> obj_get(u, key) == obj_get(pa, key)
            &&& (has_key(u, key) <==> (has_key(pa, key) || has_key(pb, key)))
        }),
{
    let pa = spec_obj_props(a)->Some_0;
    let pb = spec_obj_props(b)->Some_0;
    let mapped = pa.map_values(|p: (Seq<char>, JsonV)| union_override(pb, p));
    let tail = spec_union_new_upto(pa, pb, pb.len() as int);
    lemma_obj_get_mapped(pa, pb, key);
    lemma_union_tail_get(pa, pb, pb.len() as int, key);
    lemma_obj_get_concat(mapped, tail, key);
    assert(pb.take(pb.len() as int) =~= pb);
}

/// A reference field is passed through verbatim onto the inferred
/// object schema, and contributes neither a property nor a required
/// name.
pub proof fn lemma_reference_passthrough<R: TryGet<Json, Schema>>(reg: &R, v: JsonV, top: bool)
    requires
        v is Obj,
        reg.spec_try_get(v) is None,
    ensures
        ({
            let fs = v->Obj_0;
            let out = spec_schema_of(reg, v, top);
            &&& out is Obj
            &&& obj_get(out->Obj_0, "$ref"@) == spec_ref_upto(fs, fs.len() as int)
            &&& !spec_required(fs).contains("$ref"@)
            &&& !has_key(spec_props_upto(reg, fs, fs.len() as int), "$ref"@)
        }),
{
    reveal_strlit("type");
    reveal_strlit("properties");
    reveal_strlit("required");
    reveal_strlit("$ref");
    reveal_strlit("$schema");
    let fs = v->Obj_0;
    let out = spec_schema_of(reg, v, top);
    let ofs = out->Obj_0;
    lemma_required_properties(fs);
    lemma_props_keys(reg, fs, fs.len() as int);
    let props = spec_props_upto(reg, fs, fs.len() as int);
    lemma_first_key_at(props, "$ref"@, 0);
    assert("type"@ != "$ref"@) by {
        assert("type"@[0] == 't');
        assert("$ref"@[0] == '$');
    }
    assert("properties"@ != "$ref"@) by {
        assert("properties"@.len() == 10);
        assert("$ref"@.len() == 4);
    }
    assert("required"@ != "$ref"@) by {
        assert("required"@.len() == 8);
        assert("$ref"@.len() == 4);
    }
    assert("$schema"@ != "$ref"@) by {
        assert("$schema"@.len() == 7);
        assert("$ref"@.len() == 4);
    }
    assert(ofs[0].0 == "type"@);
    assert(ofs[1].0 == "properties"@);
    assert(ofs[2].0 == "required"@);
    match spec_ref_upto(fs, fs.len() as int) {
        Some(rv) => {
            assert(ofs[3] == ("$ref"@, rv));
            if top {
                assert(ofs.len() == 5);
                assert(ofs[4].0 == "$schema"@);
            } else {
                assert(ofs.len() == 4);
            }
            lemma_first_key_from(ofs, "$ref"@, 0, 3);
        },
        None => {
            if top {
                assert(ofs.len() == 4);
                assert(ofs[3].0 == "$schema"@);
            } else {
                assert(ofs.len() == 3);
            }
            lemma_first_key_from(ofs, "$ref"@, 0, ofs.len() as int);
        },
    }
}

/// No field anywhere in the instance is named with the dialect marker
/// key; the first `n` fields of an object, checked one by one.
pub open spec fn no_marker_fields(fs: Seq<(Seq<char>, JsonV)>, n: int) -> bool
    decreases fs, n,
{
    if n <= 0 || n > fs.len() {
        true
    } else {
        proof {
            assert(decreases_to!(fs => fs[n - 1]));
            assert(decreases_to!(fs[n - 1] => fs[n - 1].1));
        }
        no_marker_fields(fs, n - 1) && fs[n - 1].0 != "$schema"@ && no_marker_key(fs[n - 1].1)
    }
}

pub open spec fn no_marker_items(es: Seq<JsonV>, n: int) -> bool
    decreases es, n,
{
    if n <= 0 || n > es.len() {
        true
    } else {
        proof {
            assert(decreases_to!(es => es[n - 1]));
        }
        no_marker_items(es, n - 1) && no_marker_key(es[n - 1])
    }
}

/// No object anywhere in the value carries a field named with the
/// dialect marker key.
pub open spec fn no_marker_key(v: JsonV) -> bool
    decreases v, 0int,
{
    match v {
        JsonV::Obj(fs) => {
            proof {
                assert(decreases_to!(v => fs));
            }
            no_marker_fields(fs, fs.len() as int)
        },
        JsonV::Arr(es) => {
            proof {
                assert(decreases_to!(v => es));
            }
            no_marker_items(es, es.len() as int)
        },
        _ => true,
    }
}

proof fn lemma_no_marker_fields_iff(fs: Seq<(Seq<char>, JsonV)>, n: int)
    requires
        0 <= n <= fs.len(),
    ensures
        no_marker_fields(fs, n) <==> (forall|j: int|
            0 <= j < n ==> ((#[trigger] fs[j]).0 != "$schema"@ && no_marker_key(fs[j].1))),
    decreases n,
{
    if n > 0 {
        lemma_no_marker_fields_iff(fs, n - 1);
    }
}

proof fn lemma_no_marker_items_iff(es: Seq<JsonV>, n: int)
    requires
        0 <= n <= es.len(),
    ensures
        no_marker_items(es, n) <==> (forall|j: int| 0 <= j < n ==> no_marker_key(#[trigger] es[j])),
    decreases n,
{
    if n > 0 {
        lemma_no_marker_items_iff(es, n - 1);
    }
}

/// A value that carries no field named with the marker key anywhere has
/// no marker at its own top level either.
proof fn lemma_no_marker_absent(fs: Seq<(Seq<char>, JsonV)>)
    requires
        no_marker_fields(fs, fs.len() as int),
    ensures
        !has_key(fs, "$schema"@),
{
    lemma_no_marker_fields_iff(fs, fs.len() as int);
    lemma_first_key_at(fs, "$schema"@, 0);
}

/// The merge of two marker-free schemas is marker-free.
proof fn lemma_merge_no_marker(a: JsonV, b: JsonV)
    requires
        no_marker_key(a),
        no_marker_key(b),
    ensures
        no_marker_key(spec_merge_schemas(a, b)),
{
    reveal_strlit("oneOf");
    reveal_strlit("type");
    reveal_strlit("properties");
    reveal_strlit("$schema");
    assert("oneOf"@ != "$schema"@) by {
        assert("oneOf"@.len() == 5);
        assert("$schema"@.len() == 7);
    }
    assert("type"@ != "$schema"@) by {
        assert("type"@.len() == 4);
        assert("$schema"@.len() == 7);
    }
    assert("properties"@ != "$schema"@) by {
        assert("properties"@.len() == 10);
        assert("$schema"@.len() == 7);
    }
    if json_eq(a, b) {
    } else if spec_can_struct_merge(a, b) {
        let pa = spec_obj_props(a)->Some_0;
        let pb = spec_obj_props(b)->Some_0;
        let u = spec_props_union(pa, pb);
        let m = spec_merge_schemas(a, b);
        let mfs = m->Obj_0;
        let afs = a->Obj_0;
        let bfs = b->Obj_0;
        lemma_no_marker_fields_iff(afs, afs.len() as int);
        lemma_no_marker_fields_iff(bfs, bfs.len() as int);
        // the type tag and the two property mappings are parts of the
        // marker-free inputs
        lemma_first_key_at(afs, "type"@, 0);
        lemma_first_key_at(afs, "properties"@, 0);
        lemma_first_key_at(bfs, "properties"@, 0);
        let tval = obj_get(afs, "type"@)->Some_0;
        assert(no_marker_key(tval));
        assert(no_marker_key(JsonV::Obj(pa)));
        assert(no_marker_key(JsonV::Obj(pb)));
        lemma_no_marker_fields_iff(pa, pa.len() as int);
        lemma_no_marker_fields_iff(pb, pb.len() as int);
        lemma_no_marker_fields_iff(u, u.len() as int);
        assert forall|j: int| 0 <= j < u.len() implies ((#[trigger] u[j]).0 != "$schema"@
            && no_marker_key(u[j].1)) by {
            let mapped = pa.map_values(|p: (Seq<char>, JsonV)| union_override(pb, p));
            if j < pa.len() {
                assert(u[j] == union_override(pb, pa[j]));
                match obj_get(pb, pa[j].0) {
                    Some(v) => {
                        lemma_first_key_at(pb, pa[j].0, 0);
                    },
                    None => {},
                }
            } else {
                lemma_union_tail_elems(pa, pb, pb.len() as int);
                assert(u[j] == spec_union_new_upto(pa, pb, pb.len() as int)[j - mapped.len()]);
            }
        }
        assert(no_marker_fields(u, u.len() as int));
        lemma_no_marker_fields_iff(mfs, mfs.len() as int);
        assert(mfs[0] == ("type"@, tval));
        assert(mfs[1] == ("properties"@, JsonV::Obj(u)));
        assert(no_marker_fields(mfs, 2));
    } else {
        let m = spec_union2(a, b);
        let mfs = m->Obj_0;
        lemma_no_marker_items_iff(seq![a, b], 2);
        assert(no_marker_key(JsonV::Arr(seq![a, b])));
        lemma_no_marker_fields_iff(mfs, 1);
        assert(mfs[0] == ("oneOf"@, JsonV::Arr(seq![a, b])));
    }
}

/// Every field the union keeps comes from one of the two mappings.
proof fn lemma_union_tail_elems(
    pa: Seq<(Seq<char>, JsonV)>,
    pb: Seq<(Seq<char>, JsonV)>,
    n: int,
)
    requires
        0 <= n <= pb.len(),
    ensures
        forall|i: int|
            0 <= i < spec_union_new_upto(pa, pb, n).len() ==> exists|j: int|
                0 <= j < n && #[trigger] spec_union_new_upto(pa, pb, n)[i] == pb[j],
    decreases n,
{
    if n > 0 {
        lemma_union_tail_elems(pa, pb, n - 1);
        let prev = spec_union_new_upto(pa, pb, n - 1);
        let cur = spec_union_new_upto(pa, pb, n);
        assert forall|i: int| 0 <= i < cur.len() implies exists|j: int|
            0 <= j < n && #[trigger] cur[i] == pb[j] by {
            if i < prev.len() {
                assert(cur[i] == prev[i]);
                let j = choose|j: int| 0 <= j < n - 1 && #[trigger] prev[i] == pb[j];
                assert(cur[i] == pb[j]);
            } else {
                assert(cur[i] == pb[n - 1]);
            }
        }
    }
}

/// A left-to-right fold of marker-free schemas is marker-free.
proof fn lemma_fold_no_marker(s: Seq<JsonV>, n: int)
    requires
        0 <= n <= s.len(),
        forall|i: int| 0 <= i < s.len() ==> no_marker_key(#[trigger] s[i]),
    ensures
        n >= 1 ==> no_marker_key(spec_fold_upto(s, n)),
    decreases n,
{
    if n > 1 {
        lemma_fold_no_marker(s, n - 1);
        lemma_merge_no_marker(spec_fold_upto(s, n - 1), s[n - 1]);
    }
}

/// Removing a key keeps a field list marker-free.
proof fn lemma_remove_key_no_marker(fs: Seq<(Seq<char>, JsonV)>, key: Seq<char>, n: int)
    requires
        0 <= n <= fs.len(),
        no_marker_fields(fs, fs.len() as int),
    ensures
        no_marker_fields(
            spec_remove_key_upto(fs, key, n),
            spec_remove_key_upto(fs, key, n).len() as int,
        ),
    decreases n,
{
    lemma_no_marker_fields_iff(fs, fs.len() as int);
    if n > 0 {
        lemma_remove_key_no_marker(fs, key, n - 1);
        let prev = spec_remove_key_upto(fs, key, n - 1);
        let cur = spec_remove_key_upto(fs, key, n);
        lemma_no_marker_fields_iff(prev, prev.len() as int);
        lemma_no_marker_fields_iff(cur, cur.len() as int);
        assert forall|j: int| 0 <= j < cur.len() implies ((#[trigger] cur[j]).0 != "$schema"@
            && no_marker_key(cur[j].1)) by {
            if j < prev.len() {
                assert(cur[j] == prev[j]);
            } else {
                assert(cur[j] == fs[n - 1]);
            }
        }
    }
}

/// The reference slot carries one of the instance's own field values.
proof fn lemma_ref_upto_is_field_value(fs: Seq<(Seq<char>, JsonV)>, n: int)
    requires
        0 <= n <= fs.len(),
    ensures
        spec_ref_upto(fs, n) is Some ==> exists|i: int|
            0 <= i < n && spec_ref_upto(fs, n) == Some(#[trigger] fs[i].1),
    decreases n,
{
    if n > 0 {
        lemma_ref_upto_is_field_value(fs, n - 1);
    }
}

/// A primitive schema object carries no dialect marker.
proof fn lemma_prim_no_marker(kind: Seq<char>)
    requires
        "type"@ != "$schema"@,
    ensures
        no_marker_key(spec_prim(kind)),
{
    let fs = spec_prim(kind)->Obj_0;
    lemma_no_marker_fields_iff(fs, 1);
    assert(fs[0] == ("type"@, JsonV::Str(kind)));
    assert(no_marker_key(JsonV::Str(kind)));
}

/// The schema inferred for a marker-free instance below the top level is
/// marker-free, when the registry answers nothing.
proof fn lemma_schema_of_no_marker<R: TryGet<Json, Schema>>(reg: &R, v: JsonV)
    requires
        forall|k: JsonV| reg.spec_try_get(k) is None,
        no_marker_key(v),
    ensures
        no_marker_key(spec_schema_of(reg, v, false)),
    decreases v, 3int,
{
    reveal_strlit("type");
    reveal_strlit("properties");
    reveal_strlit("required");
    reveal_strlit("$ref");
    reveal_strlit("$schema");
    assert("type"@ != "$schema"@) by {
        assert("type"@.len() == 4);
        assert("$schema"@.len() == 7);
    }
    assert("properties"@ != "$schema"@) by {
        assert("properties"@.len() == 10);
        assert("$schema"@.len() == 7);
    }
    assert("required"@ != "$schema"@) by {
        assert("required"@.len() == 8);
        assert("$schema"@.len() == 7);
    }
    assert("$ref"@ != "$schema"@) by {
        assert("$ref"@.len() == 4);
        assert("$schema"@.len() == 7);
    }
    reveal_strlit("items");
    assert("items"@ != "$schema"@) by {
        assert("items"@.len() == 5);
        assert("$schema"@.len() == 7);
    }
    match v {
        JsonV::Null => {
            lemma_prim_no_marker("null"@);
        },
        JsonV::Bool(_) => {
            lemma_prim_no_marker("boolean"@);
        },
        JsonV::Int(_) => {
            lemma_prim_no_marker("integer"@);
        },
        JsonV::Real(_) => {
            lemma_prim_no_marker("number"@);
        },
        JsonV::Str(_) => {
            lemma_prim_no_marker("string"@);
        },
        JsonV::Arr(es) => {
            assert(decreases_to!(v => es));
            let out = spec_schema_of(reg, v, false);
            let ofs = out->Obj_0;
            if es.len() == 0 {
                let items = JsonV::Obj(Seq::<(Seq<char>, JsonV)>::empty());
                lemma_no_marker_fields_iff(items->Obj_0, 0);
                assert(no_marker_key(items));
                lemma_no_marker_fields_iff(ofs, ofs.len() as int);
                assert(ofs.len() == 2);
                assert(ofs[0] == ("type"@, JsonV::Str("array"@)));
                assert(ofs[1] == ("items"@, items));
                assert(no_marker_fields(ofs, 2));
            } else {
                lemma_elems_no_marker(reg, es, es.len() as int);
                let schemas = spec_elem_schemas_upto(reg, es, es.len() as int);
                crate::generator::lemma_elem_schemas_upto(reg, es, es.len() as int);
                lemma_fold_no_marker(schemas, schemas.len() as int);
                assert(no_marker_key(spec_fold(schemas)));
                lemma_no_marker_fields_iff(ofs, ofs.len() as int);
                assert(ofs.len() == 2);
                assert(ofs[0] == ("type"@, JsonV::Str("array"@)));
                assert(ofs[1] == ("items"@, spec_fold(schemas)));
                assert(no_marker_fields(ofs, 2));
            }
        },
        JsonV::Obj(fs) => {
            assert(decreases_to!(v => fs));
            let out = spec_schema_of(reg, v, false);
            let ofs = out->Obj_0;
            lemma_props_no_marker(reg, fs, fs.len() as int);
            let props = spec_props_upto(reg, fs, fs.len() as int);
            let req = spec_required(fs).map_values(|k: Seq<char>| JsonV::Str(k));
            lemma_no_marker_fields_iff(props, props.len() as int);
            lemma_no_marker_items_iff(req, req.len() as int);
            assert forall|i: int| 0 <= i < req.len() implies no_marker_key(
                #[trigger] req[i],
            ) by {
                assert(req[i] == JsonV::Str(spec_required(fs)[i]));
            }
            assert(no_marker_key(JsonV::Str("object"@)));
            assert(no_marker_key(JsonV::Obj(props)));
            assert(no_marker_key(JsonV::Arr(req)));
            lemma_no_marker_fields_iff(ofs, ofs.len() as int);
            assert(ofs[0] == ("type"@, JsonV::Str("object"@)));
            assert(ofs[1] == ("properties"@, JsonV::Obj(props)));
            assert(ofs[2] == ("required"@, JsonV::Arr(req)));
            match spec_ref_upto(fs, fs.len() as int) {
                Some(rv) => {
                    lemma_ref_upto_is_field_value(fs, fs.len() as int);
                    lemma_no_marker_fields_iff(fs, fs.len() as int);
                    let i = choose|i: int|
                        0 <= i < fs.len() && spec_ref_upto(fs, fs.len() as int) == Some(
                            #[trigger] fs[i].1,
                        );
                    assert(no_marker_key(fs[i].1));
                    assert(no_marker_key(rv));
                    assert(ofs.len() == 4);
                    assert(ofs[3] == ("$ref"@, rv));
                    assert(no_marker_fields(ofs, 4));
                },
                None => {
                    assert(ofs.len() == 3);
                    assert(no_marker_fields(ofs, 3));
                },
            }
        },
    }
}

/// The inferred property schemas of a marker-free object are marker-free
/// and none is stored under the marker key.
proof fn lemma_props_no_marker<R: TryGet<Json, Schema>>(
    reg: &R,
    fs: Seq<(Seq<char>, JsonV)>,
    n: int,
)
    requires
        forall|k: JsonV| reg.spec_try_get(k) is None,
        0 <= n <= fs.len(),
        no_marker_fields(fs, fs.len() as int),
    ensures
        no_marker_fields(spec_props_upto(reg, fs, n), spec_props_upto(reg, fs, n).len() as int),
    decreases fs, n,
{
    lemma_no_marker_fields_iff(fs, fs.len() as int);
    if n > 0 {
        assert(decreases_to!(fs => fs[n - 1]));
            assert(decreases_to!(fs[n - 1] => fs[n - 1].1));
        lemma_props_no_marker(reg, fs, n - 1);
        let prev = spec_props_upto(reg, fs, n - 1);
        let cur = spec_props_upto(reg, fs, n);
        lemma_no_marker_fields_iff(prev, prev.len() as int);
        lemma_no_marker_fields_iff(cur, cur.len() as int);
        if fs[n - 1].0 == "$ref"@ {
        } else {
            lemma_schema_of_no_marker(reg, fs[n - 1].1);
            let sub = spec_schema_of(reg, fs[n - 1].1, false);
            lemma_strip_no_marker(sub);
            assert forall|j: int| 0 <= j < cur.len() implies ((#[trigger] cur[j]).0 != "$schema"@
                && no_marker_key(cur[j].1)) by {
                if j < prev.len() {
                    assert(cur[j] == prev[j]);
                } else {
                    assert(cur[j] == (fs[n - 1].0, spec_strip_dialect(
                        spec_schema_of(reg, fs[n - 1].1, false),
                    )));
                }
            }
        }
    }
}

/// Stripping the top-level marker keeps a schema marker-free.
proof fn lemma_strip_no_marker(s: JsonV)
    requires
        no_marker_key(s),
    ensures
        no_marker_key(spec_strip_dialect(s)),
{
    if s is Obj {
        let fs = s->Obj_0;
        lemma_remove_key_no_marker(fs, "$schema"@, fs.len() as int);
    }
}

/// The inferred element schemas of a marker-free array are marker-free.
proof fn lemma_elems_no_marker<R: TryGet<Json, Schema>>(reg: &R, es: Seq<JsonV>, n: int)
    requires
        forall|k: JsonV| reg.spec_try_get(k) is None,
        0 <= n <= es.len(),
        no_marker_items(es, es.len() as int),
    ensures
        forall|i: int|
            0 <= i < n ==> no_marker_key(#[trigger] spec_elem_schemas_upto(reg, es, n)[i]),
    decreases es, n,
{
    lemma_no_marker_items_iff(es, es.len() as int);
    if n > 0 {
        assert(decreases_to!(es => es[n - 1]));
        lemma_elems_no_marker(reg, es, n - 1);
        lemma_schema_of_no_marker(reg, es[n - 1]);
        crate::generator::lemma_elem_schemas_upto(reg, es, n - 1);
        crate::generator::lemma_elem_schemas_upto(reg, es, n);
        let prev = spec_elem_schemas_upto(reg, es, n - 1);
        let cur = spec_elem_schemas_upto(reg, es, n);
        assert forall|i: int| 0 <= i < n implies no_marker_key(#[trigger] cur[i]) by {
            if i < prev.len() {
                assert(cur[i] == prev[i]);
            }
        }
    }
}

/// The dialect marker appears exactly once in the output, at the top
/// level: a top-level object schema is the marker-free inferred schema
/// with the marker appended, and every nested schema is marker-free.
pub proof fn lemma_dialect_marker_top_only<R: TryGet<Json, Schema>>(reg: &R, v: JsonV)
    requires
        forall|k: JsonV| reg.spec_try_get(k) is None,
        no_marker_key(v),
        v is Obj,
    ensures
        ({
            let out = spec_schema_of(reg, v, true);
            let inner = spec_schema_of(reg, v, false);
            &&& out is Obj
            &&& inner is Obj
            &&& out->Obj_0 == inner->Obj_0.push(("$schema"@, JsonV::Str(spec_dialect())))
            &&& no_marker_key(inner)
            &&& obj_get(out->Obj_0, "$schema"@) == Some(JsonV::Str(spec_dialect()))
        }),
{
    lemma_schema_of_no_marker(reg, v);
    let out = spec_schema_of(reg, v, true);
    let inner = spec_schema_of(reg, v, false);
    let ifs = inner->Obj_0;
    lemma_no_marker_absent(ifs);
    lemma_first_key_at(ifs, "$schema"@, 0);
    lemma_first_key_from(out->Obj_0, "$schema"@, 0, ifs.len() as int);
}

/// No inferred property schema is stored under the reference key.
proof fn lemma_props_keys<R: TryGet<Json, Schema>>(reg: &R, fs: Seq<(Seq<char>, JsonV)>, n: int)
    requires
        0 <= n <= fs.len(),
    ensures
        forall|i: int|
            0 <= i < spec_props_upto(reg, fs, n).len() ==> #[trigger] spec_props_upto(
                reg,
                fs,
                n,
            )[i].0 != "$ref"@,
    decreases n,
{
    if n > 0 {
        lemma_props_keys(reg, fs, n - 1);
        let prev = spec_props_upto(reg, fs, n - 1);
        let cur = spec_props_upto(reg, fs, n);
        assert forall|i: int| 0 <= i < cur.len() implies cur[i].0 != "$ref"@ by {
            if i < prev.len() {
                assert(cur[i] == prev[i]);
                assert(prev[i].0 != "$ref"@);
            }
        }
    }
}

} // verus!
