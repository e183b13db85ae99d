use vstd::prelude::*;

use crate::json::{
    deep_copy, is_null, lemma_view_fields, lemma_view_fields_push, lemma_view_tag, obj_find,
    view_fields, view_json, Json, JsonV,
};

verus! {

/// The model of merging `b` into `a`: two objects are merged field by
/// field, null fields of `b` are skipped, and anything else is replaced
/// by `b` outright.
pub open spec fn spec_json_merge(a: JsonV, b: JsonV) -> JsonV
    decreases b, 0int,
{
    if a is Obj && b is Obj {
        proof {
            assert(decreases_to!(b => b->Obj_0));
        }
        JsonV::Obj(spec_merge_fields(a->Obj_0, b->Obj_0, b->Obj_0.len() as int))
    } else {
        b
    }
}

/// The fields of `a` after the first `n` fields of `b` have been merged
/// in, one at a time.
pub open spec fn spec_merge_fields(
    af: Seq<(Seq<char>, JsonV)>,
    bf: Seq<(Seq<char>, JsonV)>,
    n: int,
) -> Seq<(Seq<char>, JsonV)>
    decreases bf, n,
{
    if n <= 0 || n > bf.len() {
        af
    } else {
        proof {
            assert(decreases_to!(bf => bf[n - 1]));
            assert(decreases_to!(bf[n - 1] => bf[n - 1].1));
        }
        let prev = spec_merge_fields(af, bf, n - 1);
        let k = bf[n - 1].0;
        let v = bf[n - 1].1;
        if v is Null {
            prev
        } else {
            let i = crate::json::first_key_at(prev, k, 0);
            if i < prev.len() {
                prev.update(i, (prev[i].0, spec_json_merge(prev[i].1, v)))
            } else {
                prev.push((k, spec_json_merge(JsonV::Null, v)))
            }
        }
    }
}

/// Merge `b` into `a` in place: object fields of `b` are merged into
/// `a`'s fields one by one, a null field of `b` is skipped so that it
/// cannot erase data, and any other shape of `b` replaces `a` outright.
pub fn merge(a: &mut Json, b: &Json)
    ensures
        final(a)@ == spec_json_merge(old(a)@, b@),
{
    let merged = merge_value(a, b);
    *a = merged;
}

/// The merge of two values as a fresh value.
fn merge_value(a: &Json, b: &Json) -> (r: Json)
    ensures
        r@ == spec_json_merge(a@, b@),
    decreases b,
{
    proof {
        lemma_view_tag(*a);
        lemma_view_tag(*b);
    }
    match (a, b) {
        (Json::Obj(af), Json::Obj(bf)) => {
            proof {
                lemma_view_fields(af@);
                lemma_view_fields(bf@);
            }
            let ghost afv = view_fields(af@);
            let ghost bfv = view_fields(bf@);
            let copied = deep_copy(a);
            proof {
                lemma_view_tag(copied);
            }
            let mut out: Vec<(String, Json)> = match copied {
                Json::Obj(v) => v,
                _ => {
                    proof {
                        assert(false);
                    }
                    Vec::new()
                },
            };
            proof {
                assert(view_fields(out@) == afv);
            }
            let mut j: usize = 0;
            while j < bf.len()
                invariant
                    j <= bf.len(),
                    b == Json::Obj(*bf),
                    bfv == view_fields(bf@),
                    bfv.len() == bf@.len(),
                    forall|k: int|
                        0 <= k < bf@.len() ==> bfv[k] == (bf@[k].0@, view_json(bf@[k].1)),
                    view_fields(out@) =~= spec_merge_fields(afv, bfv, j as int),
                decreases bf.len() - j,
            {
                proof {
                    assert(decreases_to!(*b => b->Obj_0));
                    assert(decreases_to!(*bf => bf@));
                    assert(decreases_to!(bf@ => bf@[j as int]));
                    assert(decreases_to!(bf@[j as int] => bf@[j as int].1));
                }
                let ghost prev = view_fields(out@);
                let ghost jj = j as int;
                if !is_null(&bf[j].1) {
                    match obj_find(&out, bf[j].0.as_str()) {
                        Some(idx) => {
                            let ghost out_before = out@;
                            let entry = out.remove(idx);
                            let ghost k0 = entry.0;
                            let merged = merge_value(&entry.1, &bf[j].1);
                            let ghost m0 = merged;
                            out.insert(idx, (entry.0, merged));
                            proof {
                                vstd::seq_lib::lemma_update_is_remove_insert(
                                    out_before,
                                    idx as int,
                                    (k0, m0),
                                );
                                assert(out@ =~= out_before.update(idx as int, (k0, m0)));
                                lemma_view_fields(out_before);
                                lemma_view_fields(out@);
                                assert(view_fields(out@) =~= prev.update(
                                    idx as int,
                                    (prev[idx as int].0, spec_json_merge(
                                        prev[idx as int].1,
                                        bfv[j as int].1,
                                    )),
                                ));
                                assert(crate::json::first_key_at(prev, bfv[jj].0, 0)
                                    == idx as int);
                                assert(spec_merge_fields(afv, bfv, jj + 1) == prev.update(
                                    idx as int,
                                    (prev[idx as int].0, spec_json_merge(
                                        prev[idx as int].1,
                                        bfv[jj].1,
                                    )),
                                )) by {
                                    reveal_with_fuel(spec_merge_fields, 2);
                                }
                                assert(view_fields(out@) == spec_merge_fields(
                                    afv,
                                    bfv,
                                    jj + 1,
                                ));
                            }
                        },
                        None => {
                            let key = bf[j].0.clone();
                            let hole = Json::Null;
                            let value = merge_value(&hole, &bf[j].1);
                            proof {
                                lemma_view_fields(out@);
                                lemma_view_fields_push(out@, (key, value));
                            }
                            out.push((key, value));
                            proof {
                                assert(view_fields(out@) =~= spec_merge_fields(
                                    afv,
                                    bfv,
                                    jj + 1,
                                ));
                            }
                        },
                    }
                } else {
                    proof {
                        assert(view_fields(out@) =~= spec_merge_fields(afv, bfv, jj + 1));
                    }
                }
                j = j + 1;
            }
            Json::Obj(out)
        },
        _ => deep_copy(b),
    }
}

} // verus!
