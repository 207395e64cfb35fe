//! Assembly of a feature record from the raw extraction result, once the
//! surrounding program has answered, for every double-attribute text and
//! every position-list token, whether it parses as a floating-point number
//! and to which bit pattern.  Every decision — which properties exist,
//! how numeric tokens are filtered and paired, which projected pairs are
//! kept — is made here and verified for every possible answer.

use vstd::prelude::*;
use crate::numbers::{spec_parse_i64, parse_i64};
use crate::feature::{
    PropV, PropertyValue, Feature, prop_views, props_insert, props_lookup, props_insert_exec,
    props_wf, lemma_props_insert_same, lemma_props_insert_other, lemma_props_insert_wf,
};
use crate::extractor::{AttrKind, AttrEvent, AttrEventV, event_views, clone_chars};

verus! {

/// How one attribute event changes the property mapping.  A text attribute
/// always lands; an integer attribute lands only where its text parses; a
/// double attribute lands only where the parse answer holds a value.  A
/// failed parse leaves the mapping entirely unchanged.
pub open spec fn resolve_one(
    props: Seq<(Seq<char>, PropV)>,
    e: AttrEventV,
    dval: Option<u64>,
) -> Seq<(Seq<char>, PropV)> {
    match e.kind {
        AttrKind::Text => props_insert(props, e.key, PropV::Text(e.text)),
        AttrKind::Int => match spec_parse_i64(e.text) {
            Some(n) => props_insert(props, e.key, PropV::Int(n)),
            None => props,
        },
        AttrKind::Double => match dval {
            Some(b) => props_insert(props, e.key, PropV::Double(b)),
            None => props,
        },
    }
}

/// Fold the events over the mapping, consuming one parse answer per double
/// attribute, in order; missing answers count as failed parses.
pub open spec fn resolve_from(
    props: Seq<(Seq<char>, PropV)>,
    evs: Seq<AttrEventV>,
    dvals: Seq<Option<u64>>,
) -> Seq<(Seq<char>, PropV)>
    decreases evs.len(),
{
    if evs.len() == 0 {
        props
    } else if evs.first().kind == AttrKind::Double {
        let d: Option<u64> = if dvals.len() > 0 {
            dvals.first()
        } else {
            None
        };
        let rest = if dvals.len() > 0 {
            dvals.drop_first()
        } else {
            dvals
        };
        resolve_from(resolve_one(props, evs.first(), d), evs.drop_first(), rest)
    } else {
        resolve_from(resolve_one(props, evs.first(), None), evs.drop_first(), dvals)
    }
}

/// The property mapping of a feature, given the events and the answers.
pub open spec fn resolved_props(evs: Seq<AttrEventV>, dvals: Seq<Option<u64>>) -> Seq<
    (Seq<char>, PropV),
> {
    resolve_from(Seq::empty(), evs, dvals)
}

/// Build the property list from the attribute events and the per-double
/// parse answers.
pub fn build_props(events: &Vec<AttrEvent>, dvals: &Vec<Option<u64>>) -> (props: Vec<
    (Vec<char>, PropertyValue),
>)
    ensures
        prop_views(props@) == resolved_props(event_views(events@), dvals@),
        props_wf(prop_views(props@)),
{
    proof {
        lemma_resolved_props_wf(Seq::empty(), event_views(events@), dvals@);
    }
    let ghost evs = event_views(events@);
    let mut props: Vec<(Vec<char>, PropertyValue)> = Vec::new();
    let mut di: usize = 0;
    proof {
        assert(evs.skip(0) =~= evs);
        assert(dvals@.skip(0) =~= dvals@);
        assert(prop_views(props@) =~= Seq::<(Seq<char>, PropV)>::empty());
    }
    let mut i: usize = 0;
    while i < events.len()
        invariant
            0 <= i <= events@.len(),
            0 <= di <= dvals@.len(),
            evs == event_views(events@),
            evs.len() == events@.len(),
            resolved_props(evs, dvals@) == resolve_from(
                prop_views(props@),
                evs.skip(i as int),
                dvals@.skip(di as int),
            ),
        decreases events@.len() - i,
    {
        let ghost p_old = prop_views(props@);
        let ghost drest = dvals@.skip(di as int);
        proof {
            assert(evs.skip(i as int).first() == evs[i as int]);
            assert(evs.skip(i as int).drop_first() =~= evs.skip(i + 1));
            assert(evs[i as int] == events@[i as int]@);
        }
        let e = &events[i];
        match e.kind {
            AttrKind::Text => {
                let key = clone_chars(&e.key);
                let text = clone_chars(&e.text);
                props_insert_exec(&mut props, key, PropertyValue::Text(text));
            },
            AttrKind::Int => {
                match parse_i64(&e.text) {
                    Some(n) => {
                        let key = clone_chars(&e.key);
                        props_insert_exec(&mut props, key, PropertyValue::Int(n));
                    },
                    None => {},
                }
            },
            AttrKind::Double => {
                let d: Option<u64> = if di < dvals.len() {
                    dvals[di]
                } else {
                    None
                };
                proof {
                    if di < dvals@.len() {
                        assert(drest.first() == dvals@[di as int]);
                        assert(drest.drop_first() =~= dvals@.skip(di + 1));
                    }
                }
                match d {
                    Some(b) => {
                        let key = clone_chars(&e.key);
                        props_insert_exec(&mut props, key, PropertyValue::Double(b));
                    },
                    None => {},
                }
                if di < dvals.len() {
                    di += 1;
                }
            },
        }
        proof {
            let e_v = evs[i as int];
            if e_v.kind == AttrKind::Double {
                let d2: Option<u64> = if drest.len() > 0 {
                    drest.first()
                } else {
                    None
                };
                let rest = if drest.len() > 0 {
                    drest.drop_first()
                } else {
                    drest
                };
                assert(prop_views(props@) == resolve_one(p_old, e_v, d2));
                assert(dvals@.skip(di as int) =~= rest);
            } else {
                assert(prop_views(props@) == resolve_one(p_old, e_v, None));
            }
        }
        i += 1;
    }
    proof {
        assert(evs.skip(evs.len() as int).len() == 0);
    }
    props
}

/// The values of the answers that hold one, in order.
pub open spec fn keep_some(ps: Seq<Option<u64>>) -> Seq<u64>
    decreases ps.len(),
{
    if ps.len() == 0 {
        Seq::empty()
    } else {
        match ps.last() {
            Some(b) => keep_some(ps.drop_last()).push(b),
            None => keep_some(ps.drop_last()),
        }
    }
}

/// Consecutive pairing of a flat value list; a trailing odd value is
/// dropped.  Filtering happens before pairing, so a non-numeric token
/// shifts the alignment of everything after it.
pub open spec fn pair_up(vs: Seq<u64>) -> Seq<(u64, u64)>
    decreases vs.len(),
{
    if vs.len() < 2 {
        Seq::empty()
    } else {
        seq![(vs[0], vs[1])] + pair_up(vs.skip(2))
    }
}

/// The projected pairs that survived, in order.
pub open spec fn keep_pairs(ps: Seq<Option<(u64, u64)>>) -> Seq<(u64, u64)>
    decreases ps.len(),
{
    if ps.len() == 0 {
        Seq::empty()
    } else {
        match ps.last() {
            Some(p) => keep_pairs(ps.drop_last()).push(p),
            None => keep_pairs(ps.drop_last()),
        }
    }
}

/// Filter one position list's parse answers down to the numeric values and
/// pair them up as consecutive easting/northing pairs.
pub fn pair_numeric(parsed: &Vec<Option<u64>>) -> (pairs: Vec<(u64, u64)>)
    ensures
        pairs@ == pair_up(keep_some(parsed@)),
{
    let mut vals: Vec<u64> = Vec::new();
    let mut i: usize = 0;
    while i < parsed.len()
        invariant
            0 <= i <= parsed@.len(),
            vals@ == keep_some(parsed@.take(i as int)),
        decreases parsed@.len() - i,
    {
        proof {
            assert(parsed@.take(i + 1).drop_last() =~= parsed@.take(i as int));
            assert(parsed@.take(i + 1).last() == parsed@[i as int]);
        }
        match parsed[i] {
            Some(b) => {
                vals.push(b);
            },
            None => {},
        }
        i += 1;
    }
    proof {
        assert(parsed@.take(parsed@.len() as int) =~= parsed@);
    }
    let ghost vv = vals@;
    let mut pairs: Vec<(u64, u64)> = Vec::new();
    let mut j: usize = 0;
    proof {
        assert(vv.skip(0) =~= vv);
    }
    while vals.len() - j >= 2
        invariant
            0 <= j <= vals@.len(),
            vv == vals@,
            pair_up(vv) == pairs@ + pair_up(vv.skip(j as int)),
        decreases vals@.len() - j,
    {
        proof {
            assert(vv.skip(j as int)[0] == vv[j as int]);
            assert(vv.skip(j as int)[1] == vv[j + 1]);
            assert(vv.skip(j as int).skip(2) =~= vv.skip(j + 2));
            assert(pairs@.push((vv[j as int], vv[j + 1])) + pair_up(vv.skip(j + 2))
                =~= pairs@ + (seq![(vv[j as int], vv[j + 1])] + pair_up(vv.skip(j + 2))));
        }
        pairs.push((vals[j], vals[j + 1]));
        j += 2;
    }
    proof {
        assert(vv.skip(j as int).len() < 2);
        assert(pairs@ =~= pair_up(vv));
    }
    pairs
}

/// Keep, in order, the projected pairs that the projection answered.
pub fn keep_projected(proj: &Vec<Option<(u64, u64)>>) -> (coords: Vec<(u64, u64)>)
    ensures
        coords@ == keep_pairs(proj@),
{
    let mut out: Vec<(u64, u64)> = Vec::new();
    let mut i: usize = 0;
    while i < proj.len()
        invariant
            0 <= i <= proj@.len(),
            out@ == keep_pairs(proj@.take(i as int)),
        decreases proj@.len() - i,
    {
        proof {
            assert(proj@.take(i + 1).drop_last() =~= proj@.take(i as int));
            assert(proj@.take(i + 1).last() == proj@[i as int]);
        }
        match proj[i] {
            Some(p) => {
                out.push(p);
            },
            None => {},
        }
        i += 1;
    }
    proof {
        assert(proj@.take(proj@.len() as int) =~= proj@);
    }
    out
}

/// Assemble the final feature from the attribute events, the per-double
/// parse answers, and the surviving projected coordinates.
pub fn build_feature(
    events: &Vec<AttrEvent>,
    dvals: &Vec<Option<u64>>,
    coordinates: Vec<(u64, u64)>,
) -> (f: Feature)
    ensures
        f@.props == resolved_props(event_views(events@), dvals@),
        props_wf(f@.props),
        f@.coords == coordinates@,
{
    let properties = build_props(events, dvals);
    Feature { properties, coordinates }
}

/// Law: a string attribute always lands in the mapping, under its key,
/// with its accumulated text.
pub proof fn lemma_string_attribute_present(
    props: Seq<(Seq<char>, PropV)>,
    e: AttrEventV,
    dval: Option<u64>,
)
    requires
        e.kind == AttrKind::Text,
    ensures
        props_lookup(resolve_one(props, e, dval), e.key) == Some(PropV::Text(e.text)),
{
    lemma_props_insert_same(props, e.key, PropV::Text(e.text));
}

/// Law: an integer attribute whose key is not yet present lands in the
/// mapping exactly when its text parses as a base-10 integer; on failure
/// the key stays entirely absent.
pub proof fn lemma_int_attribute_iff(
    props: Seq<(Seq<char>, PropV)>,
    e: AttrEventV,
    dval: Option<u64>,
)
    requires
        e.kind == AttrKind::Int,
        props_lookup(props, e.key) is None,
    ensures
        props_lookup(resolve_one(props, e, dval), e.key) is Some <==> spec_parse_i64(e.text) is Some,
        spec_parse_i64(e.text) matches Some(n) ==> props_lookup(resolve_one(props, e, dval), e.key)
            == Some(PropV::Int(n)),
{
    match spec_parse_i64(e.text) {
        Some(n) => {
            lemma_props_insert_same(props, e.key, PropV::Int(n));
        },
        None => {},
    }
}

/// Law: a double attribute whose key is not yet present lands in the
/// mapping exactly when its text parses as a floating-point number (the
/// answer holds a value); on failure the key stays entirely absent.
pub proof fn lemma_double_attribute_iff(
    props: Seq<(Seq<char>, PropV)>,
    e: AttrEventV,
    dval: Option<u64>,
)
    requires
        e.kind == AttrKind::Double,
        props_lookup(props, e.key) is None,
    ensures
        props_lookup(resolve_one(props, e, dval), e.key) is Some <==> dval is Some,
        dval matches Some(b) ==> props_lookup(resolve_one(props, e, dval), e.key) == Some(
            PropV::Double(b),
        ),
{
    match dval {
        Some(b) => {
            lemma_props_insert_same(props, e.key, PropV::Double(b));
        },
        None => {},
    }
}

/// Law: an attribute event never disturbs any other key.
pub proof fn lemma_attribute_other_keys(
    props: Seq<(Seq<char>, PropV)>,
    e: AttrEventV,
    dval: Option<u64>,
    k: Seq<char>,
)
    requires
        k != e.key,
    ensures
        props_lookup(resolve_one(props, e, dval), k) == props_lookup(props, k),
{
    match e.kind {
        AttrKind::Text => {
            lemma_props_insert_other(props, e.key, PropV::Text(e.text), k);
        },
        AttrKind::Int => {
            match spec_parse_i64(e.text) {
                Some(n) => {
                    lemma_props_insert_other(props, e.key, PropV::Int(n), k);
                },
                None => {},
            }
        },
        AttrKind::Double => {
            match dval {
                Some(b) => {
                    lemma_props_insert_other(props, e.key, PropV::Double(b), k);
                },
                None => {},
            }
        },
    }
}

proof fn lemma_keep_some_all(ps: Seq<Option<u64>>)
    requires
        forall|i: int| 0 <= i < ps.len() ==> (#[trigger] ps[i]) is Some,
    ensures
        keep_some(ps).len() == ps.len(),
    decreases ps.len(),
{
    if ps.len() > 0 {
        assert(ps.last() == ps[ps.len() - 1]);
        assert(forall|i: int| 0 <= i < ps.drop_last().len() ==> (#[trigger] ps.drop_last()[i]) is Some);
        lemma_keep_some_all(ps.drop_last());
    }
}

proof fn lemma_pair_up_len(vs: Seq<u64>)
    ensures
        pair_up(vs).len() == vs.len() / 2,
    decreases vs.len(),
{
    if vs.len() >= 2 {
        lemma_pair_up_len(vs.skip(2));
    }
}

/// Law: a position list whose tokens all parse, with an even token count,
/// yields exactly half as many coordinate pairs before projection; with an
/// odd count the trailing value is dropped.
pub proof fn lemma_poslist_pairing(parsed: Seq<Option<u64>>)
    requires
        forall|i: int| 0 <= i < parsed.len() ==> (#[trigger] parsed[i]) is Some,
    ensures
        pair_up(keep_some(parsed)).len() == parsed.len() / 2,
{
    lemma_keep_some_all(parsed);
    lemma_pair_up_len(keep_some(parsed));
}

/// One resolution step keeps the keys unique.
proof fn lemma_resolve_one_wf(props: Seq<(Seq<char>, PropV)>, e: AttrEventV, dval: Option<u64>)
    requires
        props_wf(props),
    ensures
        props_wf(resolve_one(props, e, dval)),
{
    match e.kind {
        AttrKind::Text => {
            lemma_props_insert_wf(props, e.key, PropV::Text(e.text));
        },
        AttrKind::Int => {
            match spec_parse_i64(e.text) {
                Some(n) => {
                    lemma_props_insert_wf(props, e.key, PropV::Int(n));
                },
                None => {},
            }
        },
        AttrKind::Double => {
            match dval {
                Some(b) => {
                    lemma_props_insert_wf(props, e.key, PropV::Double(b));
                },
                None => {},
            }
        },
    }
}

/// Law: a feature's property mapping never holds two entries with the same
/// key, whatever the events and answers were.
pub proof fn lemma_resolved_props_wf(
    props: Seq<(Seq<char>, PropV)>,
    evs: Seq<AttrEventV>,
    dvals: Seq<Option<u64>>,
)
    requires
        props_wf(props),
    ensures
        props_wf(resolve_from(props, evs, dvals)),
    decreases evs.len(),
{
    if evs.len() > 0 {
        let e = evs.first();
        if e.kind == AttrKind::Double {
            let d: Option<u64> = if dvals.len() > 0 {
                dvals.first()
            } else {
                None
            };
            let rest = if dvals.len() > 0 {
                dvals.drop_first()
            } else {
                dvals
            };
            lemma_resolve_one_wf(props, e, d);
            lemma_resolved_props_wf(resolve_one(props, e, d), evs.drop_first(), rest);
        } else {
            lemma_resolve_one_wf(props, e, None);
            lemma_resolved_props_wf(resolve_one(props, e, None), evs.drop_first(), dvals);
        }
    }
}

/// Law: a key that no attribute event mentions stays exactly as present as
/// it was — in particular, a feature's mapping holds only keys that some
/// event produced, so a fragment without the identifier field yields a
/// feature that the emitter drops.
pub proof fn lemma_unmentioned_key_unchanged(
    props: Seq<(Seq<char>, PropV)>,
    evs: Seq<AttrEventV>,
    dvals: Seq<Option<u64>>,
    k: Seq<char>,
)
    requires
        forall|i: int| 0 <= i < evs.len() ==> (#[trigger] evs[i]).key != k,
    ensures
        props_lookup(resolve_from(props, evs, dvals), k) == props_lookup(props, k),
    decreases evs.len(),
{
    if evs.len() > 0 {
        let e = evs.first();
        assert(evs[0] == e);
        assert(forall|i: int|
            0 <= i < evs.drop_first().len() ==> (#[trigger] evs.drop_first()[i]) == evs[i + 1]);
        if e.kind == AttrKind::Double {
            let d: Option<u64> = if dvals.len() > 0 {
                dvals.first()
            } else {
                None
            };
            let rest = if dvals.len() > 0 {
                dvals.drop_first()
            } else {
                dvals
            };
            lemma_attribute_other_keys(props, e, d, k);
            lemma_unmentioned_key_unchanged(resolve_one(props, e, d), evs.drop_first(), rest, k);
        } else {
            lemma_attribute_other_keys(props, e, None, k);
            lemma_unmentioned_key_unchanged(resolve_one(props, e, None), evs.drop_first(), dvals, k);
        }
    }
}

} // verus!
