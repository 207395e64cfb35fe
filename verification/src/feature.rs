//! The output data model: typed property values and the feature record,
//! with an association-list property mapping whose insert keeps document
//! order and replaces on an equal key.

use vstd::prelude::*;

verus! {

/// The view of one property value.
pub enum PropV {
    Text(Seq<char>),
    Int(i64),
    Double(u64),
    Null,
}

/// One typed property value.  A floating-point value is carried as its
/// IEEE 754 bit pattern; only the surrounding program ever interprets it.
/// `Null` is representable for forward compatibility but never produced by
/// extraction.
pub enum PropertyValue {
    Text(Vec<char>),
    Int(i64),
    Double(u64),
    Null,
}

impl View for PropertyValue {
    type V = PropV;

    open spec fn view(&self) -> PropV {
        match self {
            PropertyValue::Text(s) => PropV::Text(s@),
            PropertyValue::Int(n) => PropV::Int(*n),
            PropertyValue::Double(b) => PropV::Double(*b),
            PropertyValue::Null => PropV::Null,
        }
    }
}

pub open spec fn prop_views(ps: Seq<(Vec<char>, PropertyValue)>) -> Seq<(Seq<char>, PropV)> {
    ps.map_values(|p: (Vec<char>, PropertyValue)| (p.0@, p.1@))
}

/// The first value stored under `k`, if any.
pub open spec fn props_lookup(ps: Seq<(Seq<char>, PropV)>, k: Seq<char>) -> Option<PropV>
    decreases ps.len(),
{
    if ps.len() == 0 {
        None
    } else if ps.first().0 == k {
        Some(ps.first().1)
    } else {
        props_lookup(ps.drop_first(), k)
    }
}

/// Store `v` under `k`: replace the first entry with that key, or append a
/// new entry, keeping the order of all other entries.
pub open spec fn props_insert(
    ps: Seq<(Seq<char>, PropV)>,
    k: Seq<char>,
    v: PropV,
) -> Seq<(Seq<char>, PropV)>
    decreases ps.len(),
{
    if ps.len() == 0 {
        seq![(k, v)]
    } else if ps.first().0 == k {
        seq![(k, v)] + ps.drop_first()
    } else {
        seq![ps.first()] + props_insert(ps.drop_first(), k, v)
    }
}

/// After an insert, the inserted key holds the inserted value.
pub proof fn lemma_props_insert_same(ps: Seq<(Seq<char>, PropV)>, k: Seq<char>, v: PropV)
    ensures
        props_lookup(props_insert(ps, k, v), k) == Some(v),
    decreases ps.len(),
{
    if ps.len() == 0 {
        assert(props_insert(ps, k, v).first() == (k, v));
    } else if ps.first().0 == k {
        assert(props_insert(ps, k, v).first() == (k, v));
    } else {
        lemma_props_insert_same(ps.drop_first(), k, v);
        assert(props_insert(ps, k, v).first() == ps.first());
        assert(props_insert(ps, k, v).drop_first() =~= props_insert(ps.drop_first(), k, v));
    }
}

/// An insert leaves every other key's value unchanged.
pub proof fn lemma_props_insert_other(
    ps: Seq<(Seq<char>, PropV)>,
    k: Seq<char>,
    v: PropV,
    k2: Seq<char>,
)
    requires
        k2 != k,
    ensures
        props_lookup(props_insert(ps, k, v), k2) == props_lookup(ps, k2),
    decreases ps.len(),
{
    let q = props_insert(ps, k, v);
    if ps.len() == 0 {
        assert(q.first() == (k, v));
        assert(props_lookup(q, k2) == props_lookup(q.drop_first(), k2));
        assert(q.drop_first() =~= Seq::<(Seq<char>, PropV)>::empty());
    } else if ps.first().0 == k {
        assert(q.first() == (k, v));
        assert(props_lookup(q, k2) == props_lookup(q.drop_first(), k2));
        assert(q.drop_first() =~= ps.drop_first());
        assert(props_lookup(ps, k2) == props_lookup(ps.drop_first(), k2));
    } else {
        lemma_props_insert_other(ps.drop_first(), k, v, k2);
        assert(q.first() == ps.first());
        assert(q.drop_first() =~= props_insert(ps.drop_first(), k, v));
        if ps.first().0 == k2 {
            assert(props_lookup(q, k2) == Some(q.first().1));
        } else {
            assert(props_lookup(q, k2) == props_lookup(q.drop_first(), k2));
            assert(props_lookup(ps, k2) == props_lookup(ps.drop_first(), k2));
        }
    }
}

proof fn lemma_props_insert_skip(ps: Seq<(Seq<char>, PropV)>, k: Seq<char>, v: PropV, j: int)
    requires
        0 <= j <= ps.len(),
        forall|i: int| 0 <= i < j ==> (#[trigger] ps[i]).0 != k,
    ensures
        props_insert(ps, k, v) == ps.take(j) + props_insert(ps.skip(j), k, v),
    decreases j,
{
    if j == 0 {
        assert(ps.skip(0) =~= ps);
        assert(ps.take(0) + props_insert(ps, k, v) =~= props_insert(ps, k, v));
    } else {
        assert(ps[0] == ps.first());
        lemma_props_insert_skip(ps.drop_first(), k, v, j - 1);
        assert(ps.drop_first().take(j - 1) =~= ps.take(j).drop_first());
        assert(ps.drop_first().skip(j - 1) =~= ps.skip(j));
        assert(props_insert(ps, k, v) == seq![ps.first()] + props_insert(ps.drop_first(), k, v));
        assert(seq![ps.first()] + (ps.drop_first().take(j - 1) + props_insert(ps.skip(j), k, v))
            =~= ps.take(j) + props_insert(ps.skip(j), k, v));
    }
}

proof fn lemma_props_lookup_skip(ps: Seq<(Seq<char>, PropV)>, k: Seq<char>, j: int)
    requires
        0 <= j <= ps.len(),
        forall|i: int| 0 <= i < j ==> (#[trigger] ps[i]).0 != k,
    ensures
        props_lookup(ps, k) == props_lookup(ps.skip(j), k),
    decreases j,
{
    if j > 0 {
        assert(ps[0] == ps.first());
        lemma_props_lookup_skip(ps.drop_first(), k, j - 1);
        assert(ps.drop_first().skip(j - 1) =~= ps.skip(j));
    } else {
        assert(ps.skip(0) =~= ps);
    }
}

/// Equality of two character vectors.
pub fn chars_eq(a: &Vec<char>, b: &Vec<char>) -> (r: bool)
    ensures
        r == (a@ == b@),
{
    if a.len() != b.len() {
        return false;
    }
    let mut i: usize = 0;
    while i < a.len()
        invariant
            0 <= i <= a@.len(),
            a@.len() == b@.len(),
            forall|j: int| 0 <= j < i ==> a@[j] == b@[j],
        decreases a@.len() - i,
    {
        if a[i] != b[i] {
            return false;
        }
        i += 1;
    }
    proof {
        assert(a@ =~= b@);
    }
    true
}

/// Store `v` under `k` in a property list.
pub fn props_insert_exec(ps: &mut Vec<(Vec<char>, PropertyValue)>, k: Vec<char>, v: PropertyValue)
    ensures
        prop_views(final(ps)@) == props_insert(prop_views(old(ps)@), k@, v@),
{
    let ghost pv = prop_views(old(ps)@);
    let mut j: usize = 0;
    while j < ps.len()
        invariant
            0 <= j <= ps@.len(),
            pv == prop_views(ps@),
            pv == prop_views(old(ps)@),
            pv.len() == ps@.len(),
            forall|i: int| 0 <= i < j ==> (#[trigger] pv[i]).0 != k@,
        decreases ps@.len() - j,
    {
        proof {
            assert(pv[j as int] == (ps@[j as int].0@, ps@[j as int].1@));
        }
        if chars_eq(&ps[j].0, &k) {
            let ghost old_ps = ps@;
            ps[j] = (k, v);
            proof {
                lemma_props_insert_skip(pv, k@, v@, j as int);
                assert(pv.skip(j as int).first() == pv[j as int]);
                assert(props_insert(pv.skip(j as int), k@, v@) == seq![(k@, v@)] + pv.skip(j as int).drop_first());
                let target = pv.take(j as int) + (seq![(k@, v@)] + pv.skip(j as int).drop_first());
                assert(ps@ == old_ps.update(j as int, (k, v)));
                assert forall|i: int| 0 <= i < ps@.len() implies #[trigger] prop_views(ps@)[i] == target[i] by {
                    assert(prop_views(ps@)[i] == (ps@[i].0@, ps@[i].1@));
                    if i != j {
                        assert(ps@[i] == old_ps[i]);
                        assert(pv[i] == (old_ps[i].0@, old_ps[i].1@));
                    }
                }
                assert(prop_views(ps@) =~= target);
                assert(props_insert(pv, k@, v@) == target);
            }
            return;
        }
        j += 1;
    }
    let ghost old_ps = ps@;
    ps.push((k, v));
    proof {
        lemma_props_insert_skip(pv, k@, v@, pv.len() as int);
        assert(pv.skip(pv.len() as int).len() == 0);
        assert(props_insert(pv.skip(pv.len() as int), k@, v@) =~= seq![(k@, v@)]);
        assert(prop_views(ps@) =~= pv.take(pv.len() as int) + seq![(k@, v@)]);
        assert(pv.take(pv.len() as int) =~= pv);
    }
}

/// Look up `k` in a property list.
pub fn props_lookup_exec<'a>(
    ps: &'a Vec<(Vec<char>, PropertyValue)>,
    k: &Vec<char>,
) -> (r: Option<&'a PropertyValue>)
    ensures
        match r {
            Some(v) => props_lookup(prop_views(ps@), k@) == Some(v@),
            None => props_lookup(prop_views(ps@), k@) is None,
        },
{
    let ghost pv = prop_views(ps@);
    let mut j: usize = 0;
    while j < ps.len()
        invariant
            0 <= j <= ps@.len(),
            pv == prop_views(ps@),
            pv.len() == ps@.len(),
            forall|i: int| 0 <= i < j ==> (#[trigger] pv[i]).0 != k@,
        decreases ps@.len() - j,
    {
        proof {
            assert(pv[j as int] == (ps@[j as int].0@, ps@[j as int].1@));
        }
        if chars_eq(&ps[j].0, k) {
            proof {
                lemma_props_lookup_skip(pv, k@, j as int);
                assert(pv.skip(j as int).first() == pv[j as int]);
            }
            return Some(&ps[j].1);
        }
        j += 1;
    }
    proof {
        lemma_props_lookup_skip(pv, k@, pv.len() as int);
        assert(pv.skip(pv.len() as int).len() == 0);
    }
    None
}

/// The view of a feature record.
pub struct FeatureV {
    pub props: Seq<(Seq<char>, PropV)>,
    pub coords: Seq<(u64, u64)>,
}

/// One output feature: its property mapping in document order, and its
/// line-string coordinates as (longitude, latitude) bit-pattern pairs.
pub struct Feature {
    pub properties: Vec<(Vec<char>, PropertyValue)>,
    pub coordinates: Vec<(u64, u64)>,
}

impl View for Feature {
    type V = FeatureV;

    open spec fn view(&self) -> FeatureV {
        FeatureV { props: prop_views(self.properties@), coords: self.coordinates@ }
    }
}

/// The property mapping's invariant: no two entries share a key.
pub open spec fn props_wf(ps: Seq<(Seq<char>, PropV)>) -> bool {
    forall|i: int, j: int| 0 <= i < j < ps.len() ==> (#[trigger] ps[i]).0 != (#[trigger] ps[j]).0
}

/// Every key of an insert's result is the inserted key or one of the old keys.
proof fn lemma_props_insert_keys(ps: Seq<(Seq<char>, PropV)>, k: Seq<char>, v: PropV, m: int)
    requires
        0 <= m < props_insert(ps, k, v).len(),
    ensures
        props_insert(ps, k, v)[m].0 == k || exists|j: int|
            0 <= j < ps.len() && (#[trigger] ps[j]).0 == props_insert(ps, k, v)[m].0,
    decreases ps.len(),
{
    let q = props_insert(ps, k, v);
    if ps.len() == 0 {
        assert(q[m] == (k, v));
    } else if ps.first().0 == k {
        if m > 0 {
            assert(q[m] == ps.drop_first()[m - 1]);
            assert(ps[m] == ps.drop_first()[m - 1]);
        }
    } else {
        if m == 0 {
            assert(q[0] == ps.first());
            assert(ps[0] == ps.first());
        } else {
            assert(q[m] == props_insert(ps.drop_first(), k, v)[m - 1]);
            lemma_props_insert_keys(ps.drop_first(), k, v, m - 1);
            if q[m].0 != k {
                let j = choose|j: int|
                    0 <= j < ps.drop_first().len() && (#[trigger] ps.drop_first()[j]).0 == q[m].0;
                assert(ps[j + 1] == ps.drop_first()[j]);
            }
        }
    }
}

/// Law: an insert keeps the keys unique, so a mapping grown by inserts
/// alone never holds two entries with the same key.
pub proof fn lemma_props_insert_wf(ps: Seq<(Seq<char>, PropV)>, k: Seq<char>, v: PropV)
    requires
        props_wf(ps),
    ensures
        props_wf(props_insert(ps, k, v)),
    decreases ps.len(),
{
    let q = props_insert(ps, k, v);
    if ps.len() == 0 {
        assert(q.len() == 1);
    } else if ps.first().0 == k {
        assert forall|i: int, j: int| 0 <= i < j < q.len() implies (#[trigger] q[i]).0 != (
        #[trigger] q[j]).0 by {
            assert(q[j] == ps.drop_first()[j - 1]);
            assert(ps[j] == ps.drop_first()[j - 1]);
            if i == 0 {
                assert(q[0].0 == k);
                assert(ps[0].0 == k);
            } else {
                assert(q[i] == ps.drop_first()[i - 1]);
                assert(ps[i] == ps.drop_first()[i - 1]);
            }
        }
    } else {
        assert forall|i: int, j: int| 0 <= i < j < ps.drop_first().len() implies (
        #[trigger] ps.drop_first()[i]).0 != (#[trigger] ps.drop_first()[j]).0 by {
            assert(ps.drop_first()[i] == ps[i + 1]);
            assert(ps.drop_first()[j] == ps[j + 1]);
        }
        lemma_props_insert_wf(ps.drop_first(), k, v);
        let q2 = props_insert(ps.drop_first(), k, v);
        assert forall|i: int, j: int| 0 <= i < j < q.len() implies (#[trigger] q[i]).0 != (
        #[trigger] q[j]).0 by {
            assert(q[j] == q2[j - 1]);
            if i == 0 {
                assert(q[0] == ps.first());
                lemma_props_insert_keys(ps.drop_first(), k, v, j - 1);
                if q2[j - 1].0 == k {
                } else {
                    let m = choose|m: int|
                        0 <= m < ps.drop_first().len() && (#[trigger] ps.drop_first()[m]).0 == q2[j
                            - 1].0;
                    assert(ps[m + 1] == ps.drop_first()[m]);
                    assert(ps[0] == ps.first());
                }
            } else {
                assert(q[i] == q2[i - 1]);
            }
        }
    }
}

} // verus!
