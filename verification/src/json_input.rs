//! Ingest of the two JSON dialects.
//!
//! The compact dialect is a root object `{ "nodes": [ { "node": id,
//! "qset": { "t": threshold, "v": [ id | nested, ... ] } }, ... ] }`. The
//! stellarbeats dialect is a root array of `{ "publicKey": id,
//! "quorumSet": { "threshold", "validators", "innerQuorumSets" } }`. The
//! text is parsed by the json crate through one trusted wrapper; walking
//! the parsed tree into a [`QuorumSetMap`] is the library's own verified
//! logic. The walkers accept one nesting level more than the graph
//! builder does, so any deeper declaration still surfaces as
//! [`FbasError::MaxDepthExceeded`].

use crate::fbas::{FbasError, QUORUM_SET_MAX_DEPTH};
use crate::quorum_set_map::{InternalScpQuorumSet, QuorumSetMap};
use vstd::prelude::*;

verus! {

/// A JSON value, reduced to what the dialects read: strings, numbers
/// that fit `u32` (others keep `None`), arrays and objects; everything
/// else collapses to `Other`.
pub enum JsonVal {
    Str(String),
    Num(Option<u32>),
    Arr(Vec<JsonVal>),
    Obj(Vec<(String, JsonVal)>),
    Other,
}

/// The mathematical shape of a JSON value.
pub ghost enum JsonView {
    Str(Seq<char>),
    Num(Option<u32>),
    Arr(Seq<JsonView>),
    Obj(Seq<(Seq<char>, JsonView)>),
    Other,
}

pub open spec fn json_view(v: JsonVal) -> JsonView
    decreases v,
{
    match v {
        JsonVal::Str(s) => JsonView::Str(s@),
        JsonVal::Num(n) => JsonView::Num(n),
        JsonVal::Arr(a) => JsonView::Arr(json_views(a@)),
        JsonVal::Obj(o) => JsonView::Obj(obj_views(o@)),
        JsonVal::Other => JsonView::Other,
    }
}

pub open spec fn json_views(vs: Seq<JsonVal>) -> Seq<JsonView>
    decreases vs,
{
    if vs.len() == 0 {
        Seq::empty()
    } else {
        seq![json_view(vs[0])] + json_views(vs.drop_first())
    }
}

pub open spec fn obj_views(es: Seq<(String, JsonVal)>) -> Seq<(Seq<char>, JsonView)>
    decreases es,
{
    if es.len() == 0 {
        Seq::empty()
    } else {
        seq![(es[0].0@, json_view(es[0].1))] + obj_views(es.drop_first())
    }
}

pub proof fn lemma_json_views_index(vs: Seq<JsonVal>, i: int)
    requires
        0 <= i < vs.len(),
    ensures
        json_views(vs).len() == vs.len(),
        json_views(vs)[i] == json_view(vs[i]),
    decreases vs.len(),
{
    lemma_json_views_len(vs);
    if i > 0 {
        lemma_json_views_index(vs.drop_first(), i - 1);
    }
}

pub proof fn lemma_json_views_len(vs: Seq<JsonVal>)
    ensures
        json_views(vs).len() == vs.len(),
    decreases vs.len(),
{
    if vs.len() > 0 {
        lemma_json_views_len(vs.drop_first());
    }
}

pub proof fn lemma_obj_views_index(es: Seq<(String, JsonVal)>, i: int)
    requires
        0 <= i < es.len(),
    ensures
        obj_views(es).len() == es.len(),
        obj_views(es)[i] == (es[i].0@, json_view(es[i].1)),
    decreases es.len(),
{
    lemma_obj_views_len(es);
    if i > 0 {
        lemma_obj_views_index(es.drop_first(), i - 1);
    }
}

pub proof fn lemma_obj_views_len(es: Seq<(String, JsonVal)>)
    ensures
        obj_views(es).len() == es.len(),
    decreases es.len(),
{
    if es.len() > 0 {
        lemma_obj_views_len(es.drop_first());
    }
}

#[verifier::external_type_specification]
#[verifier::external_body]
pub struct ExJsonValue(json::JsonValue);

/// What parsing a JSON text yields — the shape of its value, or nothing
/// when the text is not valid JSON. A function of the text alone.
pub uninterp spec fn parsed_json(s: Seq<char>) -> Option<JsonView>;

/// Relies on `json::parse`, converted by [`convert_json`].
#[verifier::external_body]
fn parse_json(s: &str) -> (r: Option<JsonVal>)
    ensures
        match r {
            Some(v) => parsed_json(s@) == Some(json_view(v)),
            None => parsed_json(s@) is None,
        },
{
    match json::parse(s) {
        Ok(v) => Some(convert_json(v)),
        Err(_) => None,
    }
}

/// Converts the json crate's tree into the library's; pure conversion,
/// promising nothing on its own — [`parse_json`] carries the contract.
#[verifier::external_body]
fn convert_json(v: json::JsonValue) -> JsonVal {
    match v {
        json::JsonValue::Short(s) => JsonVal::Str(s.as_str().to_owned()),
        json::JsonValue::String(s) => JsonVal::Str(s),
        json::JsonValue::Number(n) => JsonVal::Num(u32::try_from(n).ok()),
        json::JsonValue::Array(a) => JsonVal::Arr(a.into_iter().map(convert_json).collect()),
        json::JsonValue::Object(o) => JsonVal::Obj(
            o.iter().map(|(k, x)| (k.to_owned(), convert_json(x.clone()))).collect(),
        ),
        _ => JsonVal::Other,
    }
}

/// First entry of the object with the given key, if any.
pub open spec fn spec_obj_get(es: Seq<(Seq<char>, JsonView)>, key: Seq<char>) -> Option<JsonView>
    decreases es,
{
    if es.len() == 0 {
        None
    } else if es[0].0 == key {
        Some(es[0].1)
    } else {
        spec_obj_get(es.drop_first(), key)
    }
}

/// The value of the first entry named `key`.
fn obj_get<'a>(es: &'a Vec<(String, JsonVal)>, key: &String) -> (r: Option<&'a JsonVal>)
    ensures
        match r {
            Some(x) => spec_obj_get(obj_views(es@), key@) == Some(json_view(*x)),
            None => spec_obj_get(obj_views(es@), key@) is None,
        },
{
    proof {
        lemma_obj_views_len(es@);
        assert(obj_views(es@).skip(0) =~= obj_views(es@));
    }
    let n = es.len();
    let mut j: usize = 0;
    while j < n
        invariant
            j <= n,
            n == es@.len(),
            obj_views(es@).len() == n,
            spec_obj_get(obj_views(es@), key@) == spec_obj_get(
                obj_views(es@).skip(j as int),
                key@,
            ),
        decreases n - j,
    {
        proof {
            lemma_obj_views_index(es@, j as int);
            assert(obj_views(es@).skip(j as int)[0] == obj_views(es@)[j as int]);
            assert(obj_views(es@).skip(j as int).drop_first() =~= obj_views(es@).skip(
                j as int + 1,
            ));
        }
        if es[j].0 == *key {
            return Some(&es[j].1);
        }
        j += 1;
    }
    proof {
        assert(obj_views(es@).skip(n as int) =~= Seq::<(Seq<char>, JsonView)>::empty());
    }
    None
}

/// The string entries of an array, in order.
pub open spec fn str_items(items: Seq<JsonView>) -> Seq<Seq<char>>
    decreases items,
{
    if items.len() == 0 {
        Seq::empty()
    } else {
        let rest = str_items(items.drop_last());
        match items.last() {
            JsonView::Str(s) => rest.push(s),
            _ => rest,
        }
    }
}

/// A well-shaped compact-dialect quorum set: a `t` number that fits
/// `u32` and a `v` array whose entries are id strings or nested
/// well-shaped sets, within `fuel` nesting levels.
pub open spec fn regular_qset_ok(v: JsonView, fuel: nat) -> bool
    decreases fuel, 1int,
{
    fuel > 0 && match v {
        JsonView::Obj(es) => {
            &&& match spec_obj_get(es, "t"@) {
                Some(JsonView::Num(n)) => n is Some,
                _ => false,
            }
            &&& match spec_obj_get(es, "v"@) {
                Some(JsonView::Arr(items)) => forall|i: int|
                    0 <= i < items.len() ==> regular_member_ok(#[trigger] items[i], fuel),
                _ => false,
            }
        },
        _ => false,
    }
}

/// From a well-shaped compact-dialect quorum set, every entry of its
/// `v` array is a well-shaped member.
pub proof fn lemma_regular_item_from_ok(v: JsonView, items: Seq<JsonView>, fuel: nat, i: int)
    requires
        regular_qset_ok(v, fuel),
        v is Obj,
        spec_obj_get(v->Obj_0, "v"@) == Some(JsonView::Arr(items)),
        0 <= i < items.len(),
    ensures
        regular_member_ok(items[i], fuel),
{
    let got = spec_obj_get(v->Obj_0, "v"@);
    assert(v == JsonView::Obj(v->Obj_0));
    assert(regular_qset_ok(JsonView::Obj(v->Obj_0), fuel));
    assert(got->0->Arr_0 == items);
}

/// From a well-shaped stellarbeats quorum set, every entry of its
/// `validators` array is a string.
pub proof fn lemma_sb_validator_from_ok(v: JsonView, items: Seq<JsonView>, fuel: nat, i: int)
    requires
        stellarbeats_qset_ok(v, fuel),
        v is Obj,
        spec_obj_get(v->Obj_0, "validators"@) == Some(JsonView::Arr(items)),
        0 <= i < items.len(),
    ensures
        items[i] is Str,
{
    let got = spec_obj_get(v->Obj_0, "validators"@);
    assert(v == JsonView::Obj(v->Obj_0));
    assert(stellarbeats_qset_ok(JsonView::Obj(v->Obj_0), fuel));
    assert(got->0->Arr_0 == items);
}

/// From a well-shaped stellarbeats quorum set, every entry of its
/// `innerQuorumSets` array is itself well-shaped one level deeper.
pub proof fn lemma_sb_inner_from_ok(v: JsonView, items: Seq<JsonView>, fuel: nat, i: int)
    requires
        stellarbeats_qset_ok(v, fuel),
        v is Obj,
        spec_obj_get(v->Obj_0, "innerQuorumSets"@) == Some(JsonView::Arr(items)),
        0 <= i < items.len(),
    ensures
        stellarbeats_qset_ok(items[i], (fuel - 1) as nat),
{
    let got = spec_obj_get(v->Obj_0, "innerQuorumSets"@);
    assert(v == JsonView::Obj(v->Obj_0));
    assert(stellarbeats_qset_ok(JsonView::Obj(v->Obj_0), fuel));
    assert(got->0->Arr_0 == items);
}

/// A well-shaped entry of a compact-dialect `v` array: an id string, or
/// a nested quorum set (an object carrying `t`).
pub open spec fn regular_member_ok(item: JsonView, fuel: nat) -> bool
    decreases fuel, 0int,
{
    match item {
        JsonView::Str(_) => true,
        JsonView::Obj(fs) => fuel > 0 && spec_obj_get(fs, "t"@) is Some && regular_qset_ok(
            item,
            (fuel - 1) as nat,
        ),
        _ => false,
    }
}

/// A well-shaped stellarbeats-dialect quorum set: a `threshold` number
/// that fits `u32`, a `validators` array of strings, and an
/// `innerQuorumSets` array of nested well-shaped sets, within `fuel`
/// nesting levels.
pub open spec fn stellarbeats_qset_ok(v: JsonView, fuel: nat) -> bool
    decreases fuel,
{
    fuel > 0 && match v {
        JsonView::Obj(es) => {
            &&& match spec_obj_get(es, "threshold"@) {
                Some(JsonView::Num(n)) => n is Some,
                _ => false,
            }
            &&& match spec_obj_get(es, "validators"@) {
                Some(JsonView::Arr(items)) => forall|i: int|
                    0 <= i < items.len() ==> (#[trigger] items[i]) is Str,
                _ => false,
            }
            &&& match spec_obj_get(es, "innerQuorumSets"@) {
                Some(JsonView::Arr(items)) => forall|i: int|
                    0 <= i < items.len() ==> stellarbeats_qset_ok(
                        #[trigger] items[i],
                        (fuel - 1) as nat,
                    ),
                _ => false,
            }
        },
        _ => false,
    }
}

/// One level of the compact dialect's quorum set shape: `q`'s threshold
/// is the object's `t` number, its member ids are exactly the string
/// entries of the `v` array in order, and together with the nested sets
/// they account for the whole array.
pub open spec fn regular_qset_shape(v: JsonView, q: InternalScpQuorumSet) -> bool {
    match v {
        JsonView::Obj(es) => {
            &&& spec_obj_get(es, "t"@) == Some(JsonView::Num(Some(q.threshold)))
            &&& match spec_obj_get(es, "v"@) {
                Some(JsonView::Arr(items)) => {
                    &&& q.validators@.map_values(|s: String| s@) == str_items(items)
                    &&& q.validators@.len() + q.inner_sets@.len() == items.len()
                },
                _ => false,
            }
        },
        _ => false,
    }
}

/// One level of the stellarbeats dialect's quorum set shape.
pub open spec fn stellarbeats_qset_shape(v: JsonView, q: InternalScpQuorumSet) -> bool {
    match v {
        JsonView::Obj(es) => {
            &&& spec_obj_get(es, "threshold"@) == Some(JsonView::Num(Some(q.threshold)))
            &&& match spec_obj_get(es, "validators"@) {
                Some(JsonView::Arr(items)) => {
                    &&& q.validators@.map_values(|s: String| s@) == str_items(items)
                    &&& q.validators@.len() == items.len()
                },
                _ => false,
            }
            &&& match spec_obj_get(es, "innerQuorumSets"@) {
                Some(JsonView::Arr(items)) => q.inner_sets@.len() == items.len(),
                _ => false,
            }
        },
        _ => false,
    }
}

/// Parses one compact-dialect quorum set: `{ "t": threshold, "v":
/// [ id-string | nested-object, ... ] }`.
fn parse_internal_quorum_set(v: &JsonVal, budget: u32) -> (r: Result<
    InternalScpQuorumSet,
    FbasError,
>)
    ensures
        r matches Ok(q) ==> regular_qset_shape(json_view(*v), q),
        r matches Err(e) ==> (e is ParseError || e is MaxDepthExceeded),
        (r is Ok) <==> regular_qset_ok(json_view(*v), budget as nat),
    decreases budget,
{
    if budget == 0 {
        return Err(FbasError::MaxDepthExceeded);
    }
    let es = match v {
        JsonVal::Obj(es) => es,
        _ => {
            return Err(FbasError::ParseError("threshold field missing or not a number"));
        },
    };
    let t_key = String::from_str("t");
    let threshold = match obj_get(es, &t_key) {
        Some(JsonVal::Num(Some(t))) => *t,
        _ => {
            return Err(FbasError::ParseError("threshold field missing or not a number"));
        },
    };
    let v_key = String::from_str("v");
    let items = match obj_get(es, &v_key) {
        Some(JsonVal::Arr(items)) => items,
        _ => {
            return Err(FbasError::ParseError("v field missing or not an array"));
        },
    };
    let ghost items_v = json_views(items@);
    proof {
        lemma_json_views_len(items@);
    }
    let mut validators: Vec<String> = Vec::new();
    let mut inner_sets: Vec<InternalScpQuorumSet> = Vec::new();
    let count = items.len();
    let mut i: usize = 0;
    while i < count
        invariant
            i <= count,
            count == items@.len(),
            items_v == json_views(items@),
            items_v.len() == count,
            validators@.map_values(|s: String| s@) == str_items(items_v.take(i as int)),
            validators@.len() + inner_sets@.len() == i,
            budget >= 1,
            t_key@ == "t"@,
            json_view(*v) is Obj,
            spec_obj_get(json_view(*v)->Obj_0, "v"@) == Some(JsonView::Arr(items_v)),
            forall|t: int| 0 <= t < i ==> regular_member_ok(#[trigger] items_v[t], budget as nat),
        decreases count - i,
    {
        proof {
            lemma_json_views_index(items@, i as int);
            assert(items_v.take(i as int + 1).drop_last() =~= items_v.take(i as int));
            assert(items_v.take(i as int + 1).last() == items_v[i as int]);
        }
        match &items[i] {
            JsonVal::Str(s) => {
                validators.push(s.clone());
                proof {
                    assert(validators@.map_values(|s2: String| s2@) =~= str_items(
                        items_v.take(i as int + 1),
                    ));
                    assert(regular_member_ok(items_v[i as int], budget as nat));
                }
            },
            JsonVal::Obj(fields) => {
                proof {
                    assert(items_v[i as int] == json_view(items@[i as int]));
                    assert(items_v[i as int] == JsonView::Obj(obj_views(fields@)));
                }
                let t_entry = obj_get(fields, &t_key);
                if t_entry.is_some() {
                    proof {
                        assert(spec_obj_get(obj_views(fields@), "t"@) is Some);
                    }
                    match parse_internal_quorum_set(&items[i], budget - 1) {
                        Ok(q) => {
                            inner_sets.push(q);
                            proof {
                                assert(regular_qset_ok(
                                    JsonView::Obj(obj_views(fields@)),
                                    (budget - 1) as nat,
                                ));
                                assert(regular_member_ok(
                                    JsonView::Obj(obj_views(fields@)),
                                    budget as nat,
                                ));
                                assert(regular_member_ok(items_v[i as int], budget as nat));
                            }
                        },
                        Err(e) => {
                            proof {
                                assert(!regular_qset_ok(
                                    JsonView::Obj(obj_views(fields@)),
                                    (budget - 1) as nat,
                                ));
                                assert(!regular_member_ok(
                                    JsonView::Obj(obj_views(fields@)),
                                    budget as nat,
                                ));
                                if regular_qset_ok(json_view(*v), budget as nat) {
                                    lemma_regular_item_from_ok(
                                        json_view(*v),
                                        items_v,
                                        budget as nat,
                                        i as int,
                                    );
                                    assert(false);
                                }
                            }
                            return Err(e);
                        },
                    }
                } else {
                    proof {
                        assert(spec_obj_get(obj_views(fields@), "t"@) is None);
                        assert(!regular_member_ok(
                            JsonView::Obj(obj_views(fields@)),
                            budget as nat,
                        ));
                        if regular_qset_ok(json_view(*v), budget as nat) {
                            lemma_regular_item_from_ok(
                                json_view(*v),
                                items_v,
                                budget as nat,
                                i as int,
                            );
                            assert(false);
                        }
                    }
                    return Err(
                        FbasError::ParseError(
                            "validator entry must be either a string (PublicKey) or an object (QuorumSet)",
                        ),
                    );
                }
                proof {
                    assert(validators@.map_values(|s2: String| s2@) =~= str_items(
                        items_v.take(i as int + 1),
                    ));
                }
            },
            _ => {
                proof {
                    assert(items_v[i as int] == json_view(items@[i as int]));
                    assert(!regular_member_ok(items_v[i as int], budget as nat)) by {
                        if items@[i as int] is Num {
                            assert(items_v[i as int] == JsonView::Num(
                                items@[i as int]->Num_0,
                            ));
                        } else if items@[i as int] is Arr {
                            assert(items_v[i as int] == JsonView::Arr(
                                json_views(items@[i as int]->Arr_0@),
                            ));
                        } else {
                            assert(items@[i as int] is Other);
                            assert(items_v[i as int] == JsonView::Other);
                        }
                    }
                    if regular_qset_ok(json_view(*v), budget as nat) {
                        lemma_regular_item_from_ok(
                            json_view(*v),
                            items_v,
                            budget as nat,
                            i as int,
                        );
                        assert(false);
                    }
                }
                return Err(
                    FbasError::ParseError(
                        "validator entry must be either a string (PublicKey) or an object (QuorumSet)",
                    ),
                );
            },
        }
        i += 1;
    }
    proof {
        assert(items_v.take(count as int) =~= items_v);
        assert(regular_qset_ok(json_view(*v), budget as nat));
    }
    Ok(InternalScpQuorumSet { threshold, validators, inner_sets })
}

/// Parses one stellarbeats-dialect quorum set: `{ "threshold": n,
/// "validators": [ id, ... ], "innerQuorumSets": [ nested, ... ] }`.
fn parse_stellarbeats_quorum_set(v: &JsonVal, budget: u32) -> (r: Result<
    InternalScpQuorumSet,
    FbasError,
>)
    ensures
        r matches Ok(q) ==> stellarbeats_qset_shape(json_view(*v), q),
        r matches Err(e) ==> (e is ParseError || e is MaxDepthExceeded),
        (r is Ok) <==> stellarbeats_qset_ok(json_view(*v), budget as nat),
    decreases budget,
{
    if budget == 0 {
        return Err(FbasError::MaxDepthExceeded);
    }
    let es = match v {
        JsonVal::Obj(es) => es,
        _ => {
            return Err(FbasError::ParseError("threshold field missing or not a number"));
        },
    };
    let t_key = String::from_str("threshold");
    let threshold = match obj_get(es, &t_key) {
        Some(JsonVal::Num(Some(t))) => *t,
        _ => {
            return Err(FbasError::ParseError("threshold field missing or not a number"));
        },
    };
    let v_key = String::from_str("validators");
    let vitems = match obj_get(es, &v_key) {
        Some(JsonVal::Arr(items)) => items,
        _ => {
            return Err(FbasError::ParseError("validators field missing or not an array"));
        },
    };
    let ghost vitems_v = json_views(vitems@);
    proof {
        lemma_json_views_len(vitems@);
    }
    let mut validators: Vec<String> = Vec::new();
    let vcount = vitems.len();
    let mut i: usize = 0;
    while i < vcount
        invariant
            i <= vcount,
            vcount == vitems@.len(),
            vitems_v == json_views(vitems@),
            vitems_v.len() == vcount,
            validators@.map_values(|s: String| s@) == str_items(vitems_v.take(i as int)),
            validators@.len() == i,
            budget >= 1,
            json_view(*v) is Obj,
            spec_obj_get(json_view(*v)->Obj_0, "validators"@) == Some(JsonView::Arr(vitems_v)),
            forall|t: int| 0 <= t < i ==> (#[trigger] vitems_v[t]) is Str,
        decreases vcount - i,
    {
        proof {
            lemma_json_views_index(vitems@, i as int);
            assert(vitems_v.take(i as int + 1).drop_last() =~= vitems_v.take(i as int));
            assert(vitems_v.take(i as int + 1).last() == vitems_v[i as int]);
        }
        match &vitems[i] {
            JsonVal::Str(s) => {
                validators.push(s.clone());
                proof {
                    assert(validators@.map_values(|s2: String| s2@) =~= str_items(
                        vitems_v.take(i as int + 1),
                    ));
                }
            },
            _ => {
                proof {
                    assert(!(vitems_v[i as int] is Str)) by {
                        if vitems@[i as int] is Num {
                        } else if vitems@[i as int] is Arr {
                        } else if vitems@[i as int] is Obj {
                        } else {
                            assert(vitems@[i as int] is Other);
                        }
                    }
                    if stellarbeats_qset_ok(json_view(*v), budget as nat) {
                        lemma_sb_validator_from_ok(
                            json_view(*v),
                            vitems_v,
                            budget as nat,
                            i as int,
                        );
                        assert(false);
                    }
                }
                return Err(FbasError::ParseError("validator entry must be a string"));
            },
        }
        i += 1;
    }
    proof {
        assert(vitems_v.take(vcount as int) =~= vitems_v);
    }
    let i_key = String::from_str("innerQuorumSets");
    let iitems = match obj_get(es, &i_key) {
        Some(JsonVal::Arr(items)) => items,
        _ => {
            return Err(FbasError::ParseError("innerQuorumSets field missing or not an array"));
        },
    };
    let ghost iitems_v = json_views(iitems@);
    proof {
        lemma_json_views_len(iitems@);
    }
    let mut inner_sets: Vec<InternalScpQuorumSet> = Vec::new();
    let icount = iitems.len();
    let mut i: usize = 0;
    while i < icount
        invariant
            i <= icount,
            icount == iitems@.len(),
            iitems_v == json_views(iitems@),
            iitems_v.len() == icount,
            inner_sets@.len() == i,
            budget >= 1,
            json_view(*v) is Obj,
            spec_obj_get(json_view(*v)->Obj_0, "innerQuorumSets"@) == Some(
                JsonView::Arr(iitems_v),
            ),
            forall|t: int|
                0 <= t < i ==> stellarbeats_qset_ok(
                    #[trigger] iitems_v[t],
                    (budget - 1) as nat,
                ),
        decreases icount - i,
    {
        proof {
            lemma_json_views_index(iitems@, i as int);
        }
        match parse_stellarbeats_quorum_set(&iitems[i], budget - 1) {
            Ok(q) => {
                inner_sets.push(q);
            },
            Err(e) => {
                proof {
                    assert(!stellarbeats_qset_ok(iitems_v[i as int], (budget - 1) as nat));
                    if stellarbeats_qset_ok(json_view(*v), budget as nat) {
                        lemma_sb_inner_from_ok(
                            json_view(*v),
                            iitems_v,
                            budget as nat,
                            i as int,
                        );
                        assert(false);
                    }
                }
                return Err(e);
            },
        }
        i += 1;
    }
    proof {
        assert(stellarbeats_qset_ok(json_view(*v), budget as nat));
    }
    Ok(InternalScpQuorumSet { threshold, validators, inner_sets })
}

/// A well-shaped node of the chosen dialect (`regular` picks the
/// compact dialect's field names): the id field holds a string and the
/// declaration field a well-shaped quorum set within the walker's
/// nesting budget.
pub open spec fn node_ok(v: JsonView, regular: bool) -> bool {
    match v {
        JsonView::Obj(es) => {
            &&& match spec_obj_get(es, if regular {
                "node"@
            } else {
                "publicKey"@
            }) {
                Some(JsonView::Str(_)) => true,
                _ => false,
            }
            &&& match spec_obj_get(es, if regular {
                "qset"@
            } else {
                "quorumSet"@
            }) {
                Some(qv) => if regular {
                    regular_qset_ok(qv, (QUORUM_SET_MAX_DEPTH + 1) as nat)
                } else {
                    stellarbeats_qset_ok(qv, (QUORUM_SET_MAX_DEPTH + 1) as nat)
                },
                None => false,
            }
        },
        _ => false,
    }
}

/// A well-shaped root in either dialect: a `nodes` object whose array
/// holds well-shaped compact-dialect nodes, or an array of well-shaped
/// stellarbeats nodes.
pub open spec fn json_root_ok(root: JsonView) -> bool {
    match root {
        JsonView::Obj(es) => match spec_obj_get(es, "nodes"@) {
            Some(JsonView::Arr(ns)) => forall|t: int|
                0 <= t < ns.len() ==> node_ok(#[trigger] ns[t], true),
            _ => false,
        },
        JsonView::Arr(ns) => forall|t: int| 0 <= t < ns.len() ==> node_ok(#[trigger] ns[t], false),
        _ => false,
    }
}

/// The id under which a node object declares itself, under the given
/// field name.
pub open spec fn node_key(v: JsonView, field: Seq<char>) -> Option<Seq<char>> {
    match v {
        JsonView::Obj(es) => match spec_obj_get(es, field) {
            Some(JsonView::Str(s)) => Some(s),
            _ => None,
        },
        _ => None,
    }
}

/// The declaration a node object carries, under the given field name.
pub open spec fn node_decl(v: JsonView, field: Seq<char>) -> Option<JsonView> {
    match v {
        JsonView::Obj(es) => spec_obj_get(es, field),
        _ => None,
    }
}

/// Entry `t` of the node array declares the id `id` with a quorum set
/// whose root level `q` matches, in the given dialect (`regular` picks
/// the compact dialect's field names and shape).
pub open spec fn node_declares(
    nodes: Seq<JsonView>,
    t: int,
    id: Seq<char>,
    q: InternalScpQuorumSet,
    regular: bool,
) -> bool {
    &&& 0 <= t < nodes.len()
    &&& node_key(nodes[t], if regular { "node"@ } else { "publicKey"@ }) == Some(id)
    &&& match node_decl(nodes[t], if regular { "qset"@ } else { "quorumSet"@ }) {
        Some(qv) => if regular {
            regular_qset_shape(qv, q)
        } else {
            stellarbeats_qset_shape(qv, q)
        },
        None => false,
    }
}

/// Walks the compact dialect's node array into a quorum set map.
fn parse_regular_nodes(nodes: &Vec<JsonVal>) -> (r: Result<QuorumSetMap, FbasError>)
    ensures
        r matches Ok(m) ==> (m.wf() && (forall|id: Seq<char>|
            #[trigger] m.spec_contains(id) <==> exists|t: int|
                0 <= t < nodes@.len() && node_key(#[trigger] json_views(nodes@)[t], "node"@)
                    == Some(id)) && (forall|id: Seq<char>|
            #[trigger] m.spec_contains(id) ==> (m.spec_at(id) is Some && exists|t: int|
                node_declares(json_views(nodes@), t, id, m.spec_at(id)->0, true)))),
        r matches Err(e) ==> (e is ParseError || e is MaxDepthExceeded),
        (forall|t: int|
            0 <= t < json_views(nodes@).len() ==> node_ok(#[trigger] json_views(nodes@)[t], true))
            ==> r is Ok,
{
    let mut map = QuorumSetMap::new();
    let n_key = String::from_str("node");
    let q_key = String::from_str("qset");
    let count = nodes.len();
    let ghost nodes_v = json_views(nodes@);
    proof {
        lemma_json_views_len(nodes@);
    }
    let mut i: usize = 0;
    while i < count
        invariant
            i <= count,
            count == nodes@.len(),
            nodes_v == json_views(nodes@),
            nodes_v.len() == count,
            n_key@ == "node"@,
            q_key@ == "qset"@,
            map.wf(),
            forall|id: Seq<char>|
                #[trigger] map.spec_contains(id) <==> exists|t: int|
                    0 <= t < i && node_key(#[trigger] nodes_v[t], "node"@) == Some(id),
            forall|id: Seq<char>|
                #[trigger] map.spec_contains(id) ==> (map.spec_at(id) is Some && exists|t: int|
                    node_declares(nodes_v, t, id, map.spec_at(id)->0, true)),
        decreases count - i,
    {
        proof {
            lemma_json_views_index(nodes@, i as int);
        }
        let es = match &nodes[i] {
            JsonVal::Obj(es) => es,
            _ => {
                proof {
                    assert(!node_ok(nodes_v[i as int], true)) by {
                        if nodes@[i as int] is Str {
                        } else if nodes@[i as int] is Num {
                        } else if nodes@[i as int] is Arr {
                        } else {
                            assert(nodes@[i as int] is Other);
                        }
                    }
                }
                return Err(FbasError::ParseError("node is not an object"));
            },
        };
        let public_key = match obj_get(es, &n_key) {
            Some(JsonVal::Str(s)) => s.clone(),
            _ => {
                proof {
                    assert(!node_ok(JsonView::Obj(obj_views(es@)), true));
                    assert(!node_ok(nodes_v[i as int], true));
                }
                return Err(FbasError::ParseError("node field missing or not a string"));
            },
        };
        let qset = match obj_get(es, &q_key) {
            Some(qv) => {
                match parse_internal_quorum_set(qv, QUORUM_SET_MAX_DEPTH + 1) {
                    Ok(q) => q,
                    Err(e) => {
                        proof {
                            assert(!regular_qset_ok(
                                json_view(*qv),
                                (QUORUM_SET_MAX_DEPTH + 1) as nat,
                            ));
                            assert(!node_ok(JsonView::Obj(obj_views(es@)), true));
                            assert(!node_ok(nodes_v[i as int], true));
                        }
                        return Err(e);
                    },
                }
            },
            None => {
                proof {
                    assert(!node_ok(JsonView::Obj(obj_views(es@)), true));
                    assert(!node_ok(nodes_v[i as int], true));
                }
                return Err(FbasError::ParseError("threshold field missing or not a number"));
            },
        };
        let ghost pre_map = map;
        let ghost g_qset = qset;
        let ghost gid = public_key@;
        proof {
            assert(node_key(nodes_v[i as int], "node"@) == Some(gid));
            assert(node_declares(nodes_v, i as int, gid, g_qset, true));
        }
        map.insert(public_key, Some(qset));
        i += 1;
        proof {
            assert forall|id: Seq<char>| #[trigger]
                map.spec_contains(id) implies (map.spec_at(id) is Some && exists|t: int|
                node_declares(nodes_v, t, id, map.spec_at(id)->0, true)) by {
                if id == gid {
                    assert(map.spec_at(id) == Some(g_qset));
                    assert(map.spec_at(id)->0 == g_qset);
                    assert(node_declares(nodes_v, i - 1, id, map.spec_at(id)->0, true));
                } else {
                    assert(pre_map.spec_contains(id));
                    assert(map.spec_at(id) == pre_map.spec_at(id));
                    let q = pre_map.spec_at(id)->0;
                    let t = choose|t: int| node_declares(nodes_v, t, id, q, true);
                    assert(map.spec_at(id)->0 == q);
                    assert(node_declares(nodes_v, t, id, map.spec_at(id)->0, true));
                }
            }
        }
    }
    Ok(map)
}

/// Walks the stellarbeats dialect's node array into a quorum set map.
fn parse_stellarbeats_nodes(nodes: &Vec<JsonVal>) -> (r: Result<QuorumSetMap, FbasError>)
    ensures
        r matches Ok(m) ==> (m.wf() && (forall|id: Seq<char>|
            #[trigger] m.spec_contains(id) <==> exists|t: int|
                0 <= t < nodes@.len() && node_key(#[trigger] json_views(nodes@)[t], "publicKey"@)
                    == Some(id)) && (forall|id: Seq<char>|
            #[trigger] m.spec_contains(id) ==> (m.spec_at(id) is Some && exists|t: int|
                node_declares(json_views(nodes@), t, id, m.spec_at(id)->0, false)))),
        r matches Err(e) ==> (e is ParseError || e is MaxDepthExceeded),
        (forall|t: int|
            0 <= t < json_views(nodes@).len() ==> node_ok(#[trigger] json_views(nodes@)[t], false))
            ==> r is Ok,
{
    let mut map = QuorumSetMap::new();
    let n_key = String::from_str("publicKey");
    let q_key = String::from_str("quorumSet");
    let count = nodes.len();
    let ghost nodes_v = json_views(nodes@);
    proof {
        lemma_json_views_len(nodes@);
    }
    let mut i: usize = 0;
    while i < count
        invariant
            i <= count,
            count == nodes@.len(),
            nodes_v == json_views(nodes@),
            nodes_v.len() == count,
            n_key@ == "publicKey"@,
            q_key@ == "quorumSet"@,
            map.wf(),
            forall|id: Seq<char>|
                #[trigger] map.spec_contains(id) <==> exists|t: int|
                    0 <= t < i && node_key(#[trigger] nodes_v[t], "publicKey"@) == Some(id),
            forall|id: Seq<char>|
                #[trigger] map.spec_contains(id) ==> (map.spec_at(id) is Some && exists|t: int|
                    node_declares(nodes_v, t, id, map.spec_at(id)->0, false)),
        decreases count - i,
    {
        proof {
            lemma_json_views_index(nodes@, i as int);
        }
        let es = match &nodes[i] {
            JsonVal::Obj(es) => es,
            _ => {
                proof {
                    assert(!node_ok(nodes_v[i as int], false)) by {
                        if nodes@[i as int] is Str {
                        } else if nodes@[i as int] is Num {
                        } else if nodes@[i as int] is Arr {
                        } else {
                            assert(nodes@[i as int] is Other);
                        }
                    }
                }
                return Err(FbasError::ParseError("node is not an object"));
            },
        };
        let public_key = match obj_get(es, &n_key) {
            Some(JsonVal::Str(s)) => s.clone(),
            _ => {
                proof {
                    assert(!node_ok(JsonView::Obj(obj_views(es@)), false));
                    assert(!node_ok(nodes_v[i as int], false));
                }
                return Err(FbasError::ParseError("publicKey field missing or not a string"));
            },
        };
        let qset = match obj_get(es, &q_key) {
            Some(qv) => {
                match parse_stellarbeats_quorum_set(qv, QUORUM_SET_MAX_DEPTH + 1) {
                    Ok(q) => q,
                    Err(e) => {
                        proof {
                            assert(!stellarbeats_qset_ok(
                                json_view(*qv),
                                (QUORUM_SET_MAX_DEPTH + 1) as nat,
                            ));
                            assert(!node_ok(JsonView::Obj(obj_views(es@)), false));
                            assert(!node_ok(nodes_v[i as int], false));
                        }
                        return Err(e);
                    },
                }
            },
            None => {
                proof {
                    assert(!node_ok(JsonView::Obj(obj_views(es@)), false));
                    assert(!node_ok(nodes_v[i as int], false));
                }
                return Err(FbasError::ParseError("threshold field missing or not a number"));
            },
        };
        let ghost pre_map = map;
        let ghost g_qset = qset;
        let ghost gid = public_key@;
        proof {
            assert(node_key(nodes_v[i as int], "publicKey"@) == Some(gid));
            assert(node_declares(nodes_v, i as int, gid, g_qset, false));
        }
        map.insert(public_key, Some(qset));
        i += 1;
        proof {
            assert forall|id: Seq<char>| #[trigger]
                map.spec_contains(id) implies (map.spec_at(id) is Some && exists|t: int|
                node_declares(nodes_v, t, id, map.spec_at(id)->0, false)) by {
                if id == gid {
                    assert(map.spec_at(id) == Some(g_qset));
                    assert(map.spec_at(id)->0 == g_qset);
                    assert(node_declares(nodes_v, i - 1, id, map.spec_at(id)->0, false));
                } else {
                    assert(pre_map.spec_contains(id));
                    assert(map.spec_at(id) == pre_map.spec_at(id));
                    let q = pre_map.spec_at(id)->0;
                    let t = choose|t: int| node_declares(nodes_v, t, id, q, false);
                    assert(map.spec_at(id)->0 == q);
                    assert(node_declares(nodes_v, t, id, map.spec_at(id)->0, false));
                }
            }
        }
    }
    Ok(map)
}

/// Parses a JSON text in either dialect — detected by the shape of the
/// root — into a quorum set map.
pub fn quorum_set_map_from_json_str(data: &str) -> (r: Result<QuorumSetMap, FbasError>)
    ensures
        parsed_json(data@) is None ==> r == Err::<QuorumSetMap, FbasError>(
            FbasError::ParseError("fail to parse to json"),
        ),
        r matches Ok(m) ==> (m.wf() && match parsed_json(data@) {
            Some(JsonView::Obj(es)) => match spec_obj_get(es, "nodes"@) {
                Some(JsonView::Arr(ns)) => (forall|id: Seq<char>|
                    #[trigger] m.spec_contains(id) <==> exists|t: int|
                        0 <= t < ns.len() && node_key(#[trigger] ns[t], "node"@) == Some(id))
                    && (forall|id: Seq<char>|
                    #[trigger] m.spec_contains(id) ==> (m.spec_at(id) is Some && exists|t: int|
                        node_declares(ns, t, id, m.spec_at(id)->0, true))),
                _ => false,
            },
            Some(JsonView::Arr(ns)) => (forall|id: Seq<char>|
                #[trigger] m.spec_contains(id) <==> exists|t: int|
                    0 <= t < ns.len() && node_key(#[trigger] ns[t], "publicKey"@) == Some(id))
                && (forall|id: Seq<char>|
                #[trigger] m.spec_contains(id) ==> (m.spec_at(id) is Some && exists|t: int|
                    node_declares(ns, t, id, m.spec_at(id)->0, false))),
            _ => false,
        }),
        r matches Err(e) ==> (e is ParseError || e is MaxDepthExceeded),
        (parsed_json(data@) matches Some(root) && json_root_ok(root)) ==> r is Ok,
{
    let root = match parse_json(data) {
        Some(v) => v,
        None => {
            return Err(FbasError::ParseError("fail to parse to json"));
        },
    };
    match &root {
        JsonVal::Obj(es) => {
            let nodes_key = String::from_str("nodes");
            match obj_get(es, &nodes_key) {
                Some(JsonVal::Arr(nodes)) => {
                    proof {
                        lemma_json_views_len(nodes@);
                        assert(parsed_json(data@) == Some(JsonView::Obj(obj_views(es@))));
                        if json_root_ok(JsonView::Obj(obj_views(es@))) {
                            assert forall|t: int|
                                0 <= t < json_views(nodes@).len() implies node_ok(
                                #[trigger] json_views(nodes@)[t],
                                true,
                            ) by {
                                let got = spec_obj_get(obj_views(es@), "nodes"@);
                                assert(got->0->Arr_0 == json_views(nodes@));
                            }
                        }
                    }
                    parse_regular_nodes(nodes)
                },
                _ => {
                    proof {
                        assert(parsed_json(data@) == Some(JsonView::Obj(obj_views(es@))));
                        assert(!json_root_ok(JsonView::Obj(obj_views(es@))));
                    }
                    Err(FbasError::ParseError("nodes field missing or not an array"))
                },
            }
        },
        JsonVal::Arr(nodes) => {
            proof {
                lemma_json_views_len(nodes@);
                assert(parsed_json(data@) == Some(JsonView::Arr(json_views(nodes@))));
            }
            parse_stellarbeats_nodes(nodes)
        },
        _ => {
            proof {
                assert(parsed_json(data@) matches Some(root) ==> !json_root_ok(root)) by {
                    if root is Num {
                        assert(parsed_json(data@) == Some(JsonView::Num(root->Num_0)));
                    } else if root is Str {
                        assert(parsed_json(data@) == Some(JsonView::Str(root->Str_0@)));
                    } else {
                        assert(root is Other);
                        assert(parsed_json(data@) == Some(JsonView::Other));
                    }
                }
            }
            Err(FbasError::ParseError("root is neither an object nor an array"))
        },
    }
}

} // verus!
