use vstd::prelude::*;

verus! {

/// The value tree that both instances and schemas are expressed in:
/// objects, arrays, strings, numbers, booleans and null.
///
/// A number that is exactly representable as a 64-bit signed integer is
/// held as `Int`; any other number is held as `Real`, carrying the bit
/// pattern of its 64-bit floating-point representation. The engine never
/// interprets those bits; they only keep distinct numbers distinguishable.
///
/// An object is a list of fields in insertion order. Lookups find the
/// first field with a matching name.
#[derive(Debug, PartialEq, Eq)]
pub enum Json {
    Null,
    Bool(bool),
    Int(i64),
    Real(u64),
    Str(String),
    Arr(Vec<Json>),
    Obj(Vec<(String, Json)>),
}

/// The mathematical model of a `Json` value: the same tree, with strings
/// as `Seq<char>` and lists as `Seq`.
#[verifier::ext_equal]
pub enum JsonV {
    Null,
    Bool(bool),
    Int(i64),
    Real(u64),
    Str(Seq<char>),
    Arr(Seq<JsonV>),
    Obj(Seq<(Seq<char>, JsonV)>),
}

pub open spec fn view_items_upto(items: Seq<Json>, n: int) -> Seq<JsonV>
    decreases items, n,
{
    if n <= 0 || n > items.len() {
        Seq::empty()
    } else {
        proof {
            assert(decreases_to!(items => items[n - 1]));
        }
        view_items_upto(items, n - 1).push(view_json(items[n - 1]))
    }
}

pub open spec fn view_fields_upto(fields: Seq<(String, Json)>, n: int) -> Seq<(Seq<char>, JsonV)>
    decreases fields, n,
{
    if n <= 0 || n > fields.len() {
        Seq::empty()
    } else {
        proof {
            assert(decreases_to!(fields => fields[n - 1]));
            assert(decreases_to!(fields[n - 1] => fields[n - 1].1));
        }
        view_fields_upto(fields, n - 1).push((fields[n - 1].0@, view_json(fields[n - 1].1)))
    }
}

pub open spec fn view_json(j: Json) -> JsonV
    decreases j, 0int,
{
    match j {
        Json::Null => JsonV::Null,
        Json::Bool(b) => JsonV::Bool(b),
        Json::Int(i) => JsonV::Int(i),
        Json::Real(bits) => JsonV::Real(bits),
        Json::Str(s) => JsonV::Str(s@),
        Json::Arr(items) => {
            proof {
                assert(decreases_to!(j => items));
                assert(decreases_to!(items => items@));
            }
            JsonV::Arr(view_items_upto(items@, items@.len() as int))
        },
        Json::Obj(fields) => {
            proof {
                assert(decreases_to!(j => fields));
                assert(decreases_to!(fields => fields@));
            }
            JsonV::Obj(view_fields_upto(fields@, fields@.len() as int))
        },
    }
}

pub open spec fn view_items(items: Seq<Json>) -> Seq<JsonV> {
    view_items_upto(items, items.len() as int)
}

pub open spec fn view_fields(fields: Seq<(String, Json)>) -> Seq<(Seq<char>, JsonV)> {
    view_fields_upto(fields, fields.len() as int)
}

impl View for Json {
    type V = JsonV;

    open spec fn view(&self) -> JsonV {
        view_json(*self)
    }
}

pub proof fn lemma_view_items_upto(items: Seq<Json>, n: int)
    requires
        0 <= n <= items.len(),
    ensures
        view_items_upto(items, n).len() == n,
        forall|i: int| 0 <= i < n ==> view_items_upto(items, n)[i] == view_json(items[i]),
    decreases n,
{
    if n > 0 {
        lemma_view_items_upto(items, n - 1);
    }
}

pub proof fn lemma_view_fields_upto(fields: Seq<(String, Json)>, n: int)
    requires
        0 <= n <= fields.len(),
    ensures
        view_fields_upto(fields, n).len() == n,
        forall|i: int|
            0 <= i < n ==> view_fields_upto(fields, n)[i] == (fields[i].0@, view_json(
                fields[i].1,
            )),
    decreases n,
{
    if n > 0 {
        lemma_view_fields_upto(fields, n - 1);
    }
}

pub proof fn lemma_view_items(items: Seq<Json>)
    ensures
        view_items(items).len() == items.len(),
        forall|i: int| 0 <= i < items.len() ==> view_items(items)[i] == view_json(items[i]),
{
    lemma_view_items_upto(items, items.len() as int);
}

pub proof fn lemma_view_fields(fields: Seq<(String, Json)>)
    ensures
        view_fields(fields).len() == fields.len(),
        forall|i: int|
            0 <= i < fields.len() ==> view_fields(fields)[i] == (fields[i].0@, view_json(
                fields[i].1,
            )),
{
    lemma_view_fields_upto(fields, fields.len() as int);
}

pub proof fn lemma_view_items_push(items: Seq<Json>, j: Json)
    ensures
        view_items(items.push(j)) =~= view_items(items).push(view_json(j)),
{
    lemma_view_items(items);
    lemma_view_items(items.push(j));
}

pub proof fn lemma_view_fields_push(fields: Seq<(String, Json)>, f: (String, Json))
    ensures
        view_fields(fields.push(f)) =~= view_fields(fields).push((f.0@, view_json(f.1))),
{
    lemma_view_fields(fields);
    lemma_view_fields(fields.push(f));
}

/// A numeric tag for the shape of a value, used to relate the shape of an
/// executable value to the shape of its model.
pub open spec fn json_tag(j: Json) -> int {
    match j {
        Json::Null => 0,
        Json::Bool(_) => 1,
        Json::Int(_) => 2,
        Json::Real(_) => 3,
        Json::Str(_) => 4,
        Json::Arr(_) => 5,
        Json::Obj(_) => 6,
    }
}

pub open spec fn jsonv_tag(v: JsonV) -> int {
    match v {
        JsonV::Null => 0,
        JsonV::Bool(_) => 1,
        JsonV::Int(_) => 2,
        JsonV::Real(_) => 3,
        JsonV::Str(_) => 4,
        JsonV::Arr(_) => 5,
        JsonV::Obj(_) => 6,
    }
}

pub proof fn lemma_view_tag(j: Json)
    ensures
        jsonv_tag(view_json(j)) == json_tag(j),
{
    match j {
        Json::Null => {},
        Json::Bool(_) => {},
        Json::Int(_) => {},
        Json::Real(_) => {},
        Json::Str(_) => {},
        Json::Arr(_) => {},
        Json::Obj(_) => {},
    }
}

pub fn tag_of(j: &Json) -> (t: u8)
    ensures
        t as int == json_tag(*j),
{
    match j {
        Json::Null => 0,
        Json::Bool(_) => 1,
        Json::Int(_) => 2,
        Json::Real(_) => 3,
        Json::Str(_) => 4,
        Json::Arr(_) => 5,
        Json::Obj(_) => 6,
    }
}

pub fn is_null(j: &Json) -> (r: bool)
    ensures
        r == (j@ is Null),
{
    proof {
        lemma_view_tag(*j);
    }
    match j {
        Json::Null => true,
        _ => false,
    }
}

/// Equality of `String` values, stated over their character sequences.
pub fn string_eq(a: &String, b: &String) -> (r: bool)
    ensures
        r == (a@ == b@),
{
    a.eq(b)
}

/// Equality of a `String` against a string slice, stated over their
/// character sequences.
pub fn string_eq_str(a: &String, b: &str) -> (r: bool)
    ensures
        r == (a@ == b@),
{
    a.eq(&b.to_owned())
}

/// Structural equality of two values: their models are the same tree.
pub fn deep_eq(a: &Json, b: &Json) -> (r: bool)
    ensures
        r == (a@ == b@),
    decreases a,
{
    proof {
        lemma_view_tag(*a);
        lemma_view_tag(*b);
    }
    if tag_of(a) != tag_of(b) {
        return false;
    }
    match (a, b) {
        (Json::Null, Json::Null) => true,
        (Json::Bool(x), Json::Bool(y)) => *x == *y,
        (Json::Int(x), Json::Int(y)) => *x == *y,
        (Json::Real(x), Json::Real(y)) => *x == *y,
        (Json::Str(x), Json::Str(y)) => string_eq(x, y),
        (Json::Arr(xs), Json::Arr(ys)) => {
            proof {
                lemma_view_items(xs@);
                lemma_view_items(ys@);
            }
            if xs.len() != ys.len() {
                return false;
            }
            let mut i: usize = 0;
            while i < xs.len()
                invariant
                    i <= xs.len(),
                    xs@.len() == ys@.len(),
                    a == Json::Arr(*xs),
                    b == Json::Arr(*ys),
                    forall|k: int| 0 <= k < i ==> view_json(xs@[k]) == view_json(ys@[k]),
                decreases xs.len() - i,
            {
                proof {
                    assert(decreases_to!(*a => a->Arr_0));
                    assert(decreases_to!(*xs => xs@));
                    assert(decreases_to!(xs@ => xs@[i as int]));
                }
                if !deep_eq(&xs[i], &ys[i]) {
                    proof {
                        lemma_view_items(xs@);
                        lemma_view_items(ys@);
                        assert(view_items(xs@)[i as int] != view_items(ys@)[i as int]);
                    }
                    return false;
                }
                i = i + 1;
            }
            proof {
                lemma_view_items(xs@);
                lemma_view_items(ys@);
                assert(view_items(xs@) =~= view_items(ys@));
            }
            true
        },
        (Json::Obj(xs), Json::Obj(ys)) => {
            proof {
                lemma_view_fields(xs@);
                lemma_view_fields(ys@);
            }
            if xs.len() != ys.len() {
                return false;
            }
            let mut i: usize = 0;
            while i < xs.len()
                invariant
                    i <= xs.len(),
                    xs@.len() == ys@.len(),
                    a == Json::Obj(*xs),
                    b == Json::Obj(*ys),
                    forall|k: int|
                        0 <= k < i ==> (xs@[k].0@ == ys@[k].0@ && view_json(xs@[k].1) == view_json(
                            ys@[k].1,
                        )),
                decreases xs.len() - i,
            {
                proof {
                    assert(decreases_to!(*a => a->Obj_0));
                    assert(decreases_to!(*xs => xs@));
                    assert(decreases_to!(xs@ => xs@[i as int]));
                    assert(decreases_to!(xs@[i as int] => xs@[i as int].1));
                }
                if !string_eq(&xs[i].0, &ys[i].0) {
                    proof {
                        lemma_view_fields(xs@);
                        lemma_view_fields(ys@);
                        assert(view_fields(xs@)[i as int].0 != view_fields(ys@)[i as int].0);
                    }
                    return false;
                }
                if !deep_eq(&xs[i].1, &ys[i].1) {
                    proof {
                        lemma_view_fields(xs@);
                        lemma_view_fields(ys@);
                        assert(view_fields(xs@)[i as int].1 != view_fields(ys@)[i as int].1);
                    }
                    return false;
                }
                i = i + 1;
            }
            proof {
                lemma_view_fields(xs@);
                lemma_view_fields(ys@);
                assert(view_fields(xs@) =~= view_fields(ys@));
            }
            true
        },
        _ => {
            proof {
                assert(false);
            }
            false
        },
    }
}

/// A structural copy of a value: the copy has the same model.
pub fn deep_copy(j: &Json) -> (r: Json)
    ensures
        r@ == j@,
    decreases j,
{
    match j {
        Json::Null => Json::Null,
        Json::Bool(b) => Json::Bool(*b),
        Json::Int(i) => Json::Int(*i),
        Json::Real(bits) => Json::Real(*bits),
        Json::Str(s) => Json::Str(s.clone()),
        Json::Arr(items) => {
            let mut out: Vec<Json> = Vec::new();
            let mut i: usize = 0;
            while i < items.len()
                invariant
                    i <= items.len(),
                    j == Json::Arr(*items),
                    out@.len() == i,
                    forall|k: int| 0 <= k < i ==> view_json(out@[k]) == view_json(items@[k]),
                decreases items.len() - i,
            {
                proof {
                    assert(decreases_to!(*j => j->Arr_0));
                    assert(decreases_to!(*items => items@));
                    assert(decreases_to!(items@ => items@[i as int]));
                }
                let c = deep_copy(&items[i]);
                out.push(c);
                i = i + 1;
            }
            proof {
                lemma_view_items(out@);
                lemma_view_items(items@);
                assert(view_items(out@) =~= view_items(items@));
            }
            Json::Arr(out)
        },
        Json::Obj(fields) => {
            let mut out: Vec<(String, Json)> = Vec::new();
            let mut i: usize = 0;
            while i < fields.len()
                invariant
                    i <= fields.len(),
                    j == Json::Obj(*fields),
                    out@.len() == i,
                    forall|k: int|
                        0 <= k < i ==> (out@[k].0@ == fields@[k].0@ && view_json(out@[k].1)
                            == view_json(fields@[k].1)),
                decreases fields.len() - i,
            {
                proof {
                    assert(decreases_to!(*j => j->Obj_0));
                    assert(decreases_to!(*fields => fields@));
                    assert(decreases_to!(fields@ => fields@[i as int]));
                    assert(decreases_to!(fields@[i as int] => fields@[i as int].1));
                }
                let k = fields[i].0.clone();
                let v = deep_copy(&fields[i].1);
                out.push((k, v));
                i = i + 1;
            }
            proof {
                lemma_view_fields(out@);
                lemma_view_fields(fields@);
                assert(view_fields(out@) =~= view_fields(fields@));
            }
            Json::Obj(out)
        },
    }
}

/// The first position at or after `i` whose field name is `key`, or the
/// length of the field list if there is none.
pub open spec fn first_key_at(fs: Seq<(Seq<char>, JsonV)>, key: Seq<char>, i: int) -> int
    decreases fs.len() - i,
{
    if i < 0 || i >= fs.len() {
        fs.len() as int
    } else if fs[i].0 == key {
        i
    } else {
        first_key_at(fs, key, i + 1)
    }
}

pub open spec fn has_key(fs: Seq<(Seq<char>, JsonV)>, key: Seq<char>) -> bool {
    first_key_at(fs, key, 0) < fs.len()
}

/// The value of the first field named `key`, if any.
pub open spec fn obj_get(fs: Seq<(Seq<char>, JsonV)>, key: Seq<char>) -> Option<JsonV> {
    let i = first_key_at(fs, key, 0);
    if i < fs.len() {
        Some(fs[i].1)
    } else {
        None
    }
}

pub proof fn lemma_first_key_at(fs: Seq<(Seq<char>, JsonV)>, key: Seq<char>, i: int)
    requires
        0 <= i <= fs.len(),
    ensures
        i <= first_key_at(fs, key, i) <= fs.len(),
        first_key_at(fs, key, i) < fs.len() ==> fs[first_key_at(fs, key, i)].0 == key,
        forall|k: int| i <= k < first_key_at(fs, key, i) ==> fs[k].0 != key,
    decreases fs.len() - i,
{
    if i < fs.len() && fs[i].0 != key {
        lemma_first_key_at(fs, key, i + 1);
    }
}

/// Every name among the first `n` fields of `af` is declared by `bf`,
/// and the values at the two first occurrences have equal content.
pub open spec fn content_sub(
    af: Seq<(Seq<char>, JsonV)>,
    bf: Seq<(Seq<char>, JsonV)>,
    n: int,
) -> bool
    decreases af, n,
{
    if n <= 0 || n > af.len() {
        true
    } else {
        let prev = content_sub(af, bf, n - 1);
        let k = af[n - 1].0;
        if !has_key(bf, k) {
            false
        } else {
            let i = first_key_at(af, k, 0);
            let j = first_key_at(bf, k, 0);
            proof {
                lemma_first_key_at(af, k, 0);
                assert(i < af.len());
                assert(decreases_to!(af => af[i]));
                assert(decreases_to!(af[i] => af[i].1));
            }
            prev && json_eq(af[i].1, bf[j].1)
        }
    }
}

/// Every name among the first `n` fields of `af` is declared by `bf`.
pub open spec fn keys_sub(
    af: Seq<(Seq<char>, JsonV)>,
    bf: Seq<(Seq<char>, JsonV)>,
    n: int,
) -> bool
    decreases n,
{
    if n <= 0 || n > af.len() {
        true
    } else {
        keys_sub(af, bf, n - 1) && has_key(bf, af[n - 1].0)
    }
}

/// The first `n` elements of the two sequences have equal content,
/// position by position.
pub open spec fn items_eq(ae: Seq<JsonV>, be: Seq<JsonV>, n: int) -> bool
    decreases ae, n,
{
    if n <= 0 || n > ae.len() {
        true
    } else {
        proof {
            assert(decreases_to!(ae => ae[n - 1]));
        }
        items_eq(ae, be, n - 1) && json_eq(ae[n - 1], be[n - 1])
    }
}

/// JSON content equality: two objects are equal when the same names map
/// to equal values, whatever order the fields stand in; two arrays are
/// equal element by element; anything else compares exactly.
pub open spec fn json_eq(a: JsonV, b: JsonV) -> bool
    decreases a, 1int,
{
    match (a, b) {
        (JsonV::Obj(af), JsonV::Obj(bf)) => {
            proof {
                assert(decreases_to!(a => af));
            }
            content_sub(af, bf, af.len() as int) && keys_sub(bf, af, bf.len() as int)
        },
        (JsonV::Arr(ae), JsonV::Arr(be)) => {
            proof {
                assert(decreases_to!(a => ae));
            }
            ae.len() == be.len() && items_eq(ae, be, ae.len() as int)
        },
        _ => a == b,
    }
}

pub proof fn lemma_content_sub_iff(
    af: Seq<(Seq<char>, JsonV)>,
    bf: Seq<(Seq<char>, JsonV)>,
    n: int,
)
    requires
        0 <= n <= af.len(),
    ensures
        content_sub(af, bf, n) <==> (forall|i: int|
            0 <= i < n ==> (has_key(bf, (#[trigger] af[i]).0) && json_eq(
                af[first_key_at(af, af[i].0, 0)].1,
                bf[first_key_at(bf, af[i].0, 0)].1,
            ))),
    decreases n,
{
    if n > 0 {
        lemma_content_sub_iff(af, bf, n - 1);
    }
}

pub proof fn lemma_keys_sub_iff(af: Seq<(Seq<char>, JsonV)>, bf: Seq<(Seq<char>, JsonV)>, n: int)
    requires
        0 <= n <= af.len(),
    ensures
        keys_sub(af, bf, n) <==> (forall|i: int|
            0 <= i < n ==> has_key(bf, (#[trigger] af[i]).0)),
    decreases n,
{
    if n > 0 {
        lemma_keys_sub_iff(af, bf, n - 1);
    }
}

pub proof fn lemma_items_eq_iff(ae: Seq<JsonV>, be: Seq<JsonV>, n: int)
    requires
        0 <= n <= ae.len(),
    ensures
        items_eq(ae, be, n) <==> (forall|i: int| 0 <= i < n ==> json_eq(#[trigger] ae[i], be[i])),
    decreases n,
{
    if n > 0 {
        lemma_items_eq_iff(ae, be, n - 1);
    }
}

/// Content equality is reflexive.
pub proof fn lemma_json_eq_refl(a: JsonV)
    ensures
        json_eq(a, a),
    decreases a,
{
    match a {
        JsonV::Obj(af) => {
            assert(decreases_to!(a => af));
            lemma_content_sub_iff(af, af, af.len() as int);
            lemma_keys_sub_iff(af, af, af.len() as int);
            assert forall|i: int| 0 <= i < af.len() implies (has_key(af, (#[trigger] af[i]).0)
                && json_eq(
                af[first_key_at(af, af[i].0, 0)].1,
                af[first_key_at(af, af[i].0, 0)].1,
            )) by {
                lemma_first_key_at(af, af[i].0, 0);
                let fi = first_key_at(af, af[i].0, 0);
                assert(fi < af.len());
                assert(decreases_to!(af => af[fi]));
                assert(decreases_to!(af[fi] => af[fi].1));
                lemma_json_eq_refl(af[fi].1);
            }
        },
        JsonV::Arr(ae) => {
            assert(decreases_to!(a => ae));
            lemma_items_eq_iff(ae, ae, ae.len() as int);
            assert forall|i: int| 0 <= i < ae.len() implies json_eq(
                #[trigger] ae[i],
                ae[i],
            ) by {
                assert(decreases_to!(ae => ae[i]));
                lemma_json_eq_refl(ae[i]);
            }
        },
        _ => {},
    }
}

/// The first matching position in a field list, by name.
pub fn obj_find(fields: &Vec<(String, Json)>, key: &str) -> (r: Option<usize>)
    ensures
        ({
            let idx = first_key_at(view_fields(fields@), key@, 0);
            match r {
                Some(u) => u as int == idx && idx < fields@.len(),
                None => idx == fields@.len(),
            }
        }),
{
    proof {
        lemma_view_fields(fields@);
    }
    let ghost vfs = view_fields(fields@);
    let mut i: usize = 0;
    while i < fields.len()
        invariant
            i <= fields.len(),
            vfs == view_fields(fields@),
            vfs.len() == fields@.len(),
            forall|k: int|
                0 <= k < fields@.len() ==> vfs[k] == (fields@[k].0@, view_json(fields@[k].1)),
            first_key_at(vfs, key@, 0) == first_key_at(vfs, key@, i as int),
        decreases fields.len() - i,
    {
        if string_eq_str(&fields[i].0, key) {
            return Some(i);
        }
        i = i + 1;
    }
    None
}

/// Content equality of two values: object fields compare by name, in
/// whatever order they stand; arrays element by element.
pub fn content_eq(a: &Json, b: &Json) -> (r: bool)
    ensures
        r == json_eq(a@, b@),
    decreases a,
{
    proof {
        lemma_view_tag(*a);
        lemma_view_tag(*b);
    }
    if tag_of(a) != tag_of(b) {
        return false;
    }
    match (a, b) {
        (Json::Null, Json::Null) => true,
        (Json::Bool(x), Json::Bool(y)) => *x == *y,
        (Json::Int(x), Json::Int(y)) => *x == *y,
        (Json::Real(x), Json::Real(y)) => *x == *y,
        (Json::Str(x), Json::Str(y)) => string_eq(x, y),
        (Json::Arr(xs), Json::Arr(ys)) => {
            proof {
                lemma_view_items(xs@);
                lemma_view_items(ys@);
            }
            let ghost aev = view_items(xs@);
            let ghost bev = view_items(ys@);
            if xs.len() != ys.len() {
                return false;
            }
            let mut i: usize = 0;
            while i < xs.len()
                invariant
                    i <= xs.len(),
                    a == Json::Arr(*xs),
                    b == Json::Arr(*ys),
                    aev == view_items(xs@),
                    bev == view_items(ys@),
                    aev.len() == xs@.len(),
                    bev.len() == ys@.len(),
                    xs@.len() == ys@.len(),
                    forall|k: int| 0 <= k < xs@.len() ==> aev[k] == view_json(xs@[k]),
                    forall|k: int| 0 <= k < ys@.len() ==> bev[k] == view_json(ys@[k]),
                    items_eq(aev, bev, i as int),
                decreases xs.len() - i,
            {
                proof {
                    assert(decreases_to!(*a => a->Arr_0));
                    assert(decreases_to!(*xs => xs@));
                    assert(decreases_to!(xs@ => xs@[i as int]));
                }
                if !content_eq(&xs[i], &ys[i]) {
                    proof {
                        lemma_items_eq_iff(aev, bev, aev.len() as int);
                        assert(aev[i as int] == view_json(xs@[i as int]));
                        assert(bev[i as int] == view_json(ys@[i as int]));
                        assert(!json_eq(aev[i as int], bev[i as int]));
                    }
                    return false;
                }
                i = i + 1;
            }
            true
        },
        (Json::Obj(xs), Json::Obj(ys)) => {
            proof {
                lemma_view_fields(xs@);
                lemma_view_fields(ys@);
            }
            let ghost afv = view_fields(xs@);
            let ghost bfv = view_fields(ys@);
            let mut i: usize = 0;
            while i < xs.len()
                invariant
                    i <= xs.len(),
                    a == Json::Obj(*xs),
                    b == Json::Obj(*ys),
                    afv == view_fields(xs@),
                    bfv == view_fields(ys@),
                    afv.len() == xs@.len(),
                    bfv.len() == ys@.len(),
                    forall|k: int|
                        0 <= k < xs@.len() ==> afv[k] == (xs@[k].0@, view_json(xs@[k].1)),
                    forall|k: int|
                        0 <= k < ys@.len() ==> bfv[k] == (ys@[k].0@, view_json(ys@[k].1)),
                    content_sub(afv, bfv, i as int),
                decreases xs.len() - i,
            {
                let jb = match obj_find(ys, xs[i].0.as_str()) {
                    Some(jb) => jb,
                    None => {
                        proof {
                            lemma_content_sub_iff(afv, bfv, afv.len() as int);
                            assert(afv[i as int].0 == xs@[i as int].0@);
                            assert(!has_key(bfv, afv[i as int].0));
                        }
                        return false;
                    },
                };
                let ja = match obj_find(xs, xs[i].0.as_str()) {
                    Some(ja) => ja,
                    None => {
                        proof {
                            lemma_first_key_at(afv, afv[i as int].0, 0);
                            assert(false);
                        }
                        return false;
                    },
                };
                proof {
                    assert(decreases_to!(*a => a->Obj_0));
                    assert(decreases_to!(*xs => xs@));
                    assert(decreases_to!(xs@ => xs@[ja as int]));
                    assert(decreases_to!(xs@[ja as int] => xs@[ja as int].1));
                }
                if !content_eq(&xs[ja].1, &ys[jb].1) {
                    proof {
                        lemma_content_sub_iff(afv, bfv, afv.len() as int);
                        assert(afv[i as int].0 == xs@[i as int].0@);
                        assert(first_key_at(afv, afv[i as int].0, 0) == ja as int);
                        assert(first_key_at(bfv, afv[i as int].0, 0) == jb as int);
                        assert(afv[ja as int].1 == view_json(xs@[ja as int].1));
                        assert(bfv[jb as int].1 == view_json(ys@[jb as int].1));
                        assert(!json_eq(afv[ja as int].1, bfv[jb as int].1));
                    }
                    return false;
                }
                i = i + 1;
            }
            let mut j: usize = 0;
            while j < ys.len()
                invariant
                    j <= ys.len(),
                    a == Json::Obj(*xs),
                    b == Json::Obj(*ys),
                    afv == view_fields(xs@),
                    bfv == view_fields(ys@),
                    afv.len() == xs@.len(),
                    bfv.len() == ys@.len(),
                    forall|k: int|
                        0 <= k < ys@.len() ==> bfv[k] == (ys@[k].0@, view_json(ys@[k].1)),
                    content_sub(afv, bfv, afv.len() as int),
                    keys_sub(bfv, afv, j as int),
                decreases ys.len() - j,
            {
                match obj_find(xs, ys[j].0.as_str()) {
                    Some(_) => {},
                    None => {
                        proof {
                            lemma_keys_sub_iff(bfv, afv, bfv.len() as int);
                            assert(bfv[j as int].0 == ys@[j as int].0@);
                            assert(!has_key(afv, bfv[j as int].0));
                        }
                        return false;
                    },
                }
                j = j + 1;
            }
            true
        },
        _ => {
            proof {
                assert(false);
            }
            false
        },
    }
}

} // verus!
