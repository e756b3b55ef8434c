//! Sorting the population. Both orders of the store are stable insertion
//! sorts over an ascending integer key, so runs of equal keys keep their
//! original order.

use crate::entity::{Entity, Kind};
use vstd::multiset::Multiset;
use vstd::prelude::*;

verus! {

/// The two orders the store can be sorted in: by level, highest first, or by
/// the alphabetical order of the kinds' text forms.
#[derive(Clone, Copy, PartialEq, Eq, Structural, Debug)]
pub enum SortOrder {
    LevelDesc,
    KindName,
}

/// The alphabetical rank of a kind's text form:
/// "Eau" < "Electrik" < "Feu" < "Plante" < "Tenebre".
pub open spec fn kind_rank(k: Kind) -> int {
    match k {
        Kind::Eau => 0,
        Kind::Electrik => 1,
        Kind::Feu => 2,
        Kind::Plante => 3,
        Kind::Tenebre => 4,
    }
}

/// The ascending sort key of an entity under an order. A descending sort by
/// level is an ascending sort by the level's distance below `u32::MAX`.
pub open spec fn sort_key(e: Entity, o: SortOrder) -> int {
    match o {
        SortOrder::LevelDesc => u32::MAX - e.level,
        SortOrder::KindName => kind_rank(e.kind),
    }
}

pub open spec fn sorted_by(s: Seq<Entity>, o: SortOrder) -> bool {
    forall|i: int, j: int|
        0 <= i < j < s.len() ==> sort_key(#[trigger] s[i], o) <= sort_key(#[trigger] s[j], o)
}

/// Stable insertion: `e` goes after every element whose key is less than or
/// equal to its own, so elements with equal keys keep their original order.
pub open spec fn insert_sorted(s: Seq<Entity>, e: Entity, o: SortOrder) -> Seq<Entity>
    decreases s.len(),
{
    if s.len() == 0 {
        seq![e]
    } else if sort_key(s[0], o) <= sort_key(e, o) {
        seq![s[0]] + insert_sorted(s.skip(1), e, o)
    } else {
        seq![e] + s
    }
}

/// Stable insertion sort: each element in turn is inserted after its equals.
pub open spec fn sort_spec(s: Seq<Entity>, o: SortOrder) -> Seq<Entity>
    decreases s.len(),
{
    if s.len() == 0 {
        s
    } else {
        insert_sorted(sort_spec(s.drop_last(), o), s.last(), o)
    }
}

proof fn lemma_insert_sorted_props(s: Seq<Entity>, e: Entity, o: SortOrder)
    requires
        sorted_by(s, o),
    ensures
        insert_sorted(s, e, o).len() == s.len() + 1,
        sorted_by(insert_sorted(s, e, o), o),
        insert_sorted(s, e, o)[0] == if s.len() > 0 && sort_key(s[0], o) <= sort_key(e, o) {
            s[0]
        } else {
            e
        },
    decreases s.len(),
{
    let r = insert_sorted(s, e, o);
    if s.len() == 0 {
    } else if sort_key(s[0], o) <= sort_key(e, o) {
        lemma_insert_sorted_props(s.skip(1), e, o);
        let q = insert_sorted(s.skip(1), e, o);
        assert(sort_key(q[0], o) >= sort_key(s[0], o));
        assert forall|i: int, j: int| 0 <= i < j < r.len() implies sort_key(#[trigger] r[i], o)
            <= sort_key(#[trigger] r[j], o) by {
            assert(r[j] == q[j - 1]);
            if i > 0 {
                assert(r[i] == q[i - 1]);
            } else {
                if j - 1 > 0 {
                    assert(sort_key(q[0], o) <= sort_key(q[j - 1], o));
                }
            }
        }
    } else {
        assert forall|i: int, j: int| 0 <= i < j < r.len() implies sort_key(#[trigger] r[i], o)
            <= sort_key(#[trigger] r[j], o) by {
            assert(r[j] == s[j - 1]);
            if i > 0 {
                assert(r[i] == s[i - 1]);
            }
        }
    }
}

/// The sorted sequence is indeed sorted under its order's key.
pub proof fn lemma_sort_spec_sorted(s: Seq<Entity>, o: SortOrder)
    ensures
        sort_spec(s, o).len() == s.len(),
        sorted_by(sort_spec(s, o), o),
    decreases s.len(),
{
    if s.len() > 0 {
        lemma_sort_spec_sorted(s.drop_last(), o);
        lemma_insert_sorted_props(sort_spec(s.drop_last(), o), s.last(), o);
    }
}

proof fn lemma_cons_multiset(x: Entity, t: Seq<Entity>)
    ensures
        (seq![x] + t).to_multiset() == t.to_multiset().insert(x),
{
    broadcast use vstd::seq_lib::group_to_multiset_ensures;

    let c = seq![x] + t;
    assert(c.remove(0) =~= t);
    assert(c.to_multiset().remove(x) =~= t.to_multiset());
    assert(c.contains(x));
    assert(c.to_multiset().count(x) > 0);
    assert(c.to_multiset() =~= t.to_multiset().insert(x));
}

proof fn lemma_insert_sorted_multiset(s: Seq<Entity>, e: Entity, o: SortOrder)
    ensures
        insert_sorted(s, e, o).to_multiset() == s.to_multiset().insert(e),
    decreases s.len(),
{
    broadcast use vstd::seq_lib::group_to_multiset_ensures;

    let r = insert_sorted(s, e, o);
    if s.len() == 0 {
        assert(seq![e] =~= Seq::<Entity>::empty().push(e));
        assert(Seq::<Entity>::empty().to_multiset() =~= Multiset::<Entity>::empty());
        assert(r.to_multiset() =~= s.to_multiset().insert(e));
    } else if sort_key(s[0], o) <= sort_key(e, o) {
        lemma_insert_sorted_multiset(s.skip(1), e, o);
        let q = insert_sorted(s.skip(1), e, o);
        lemma_cons_multiset(s[0], q);
        lemma_cons_multiset(s[0], s.skip(1));
        assert(s =~= seq![s[0]] + s.skip(1));
        assert(r.to_multiset() =~= s.to_multiset().insert(e));
    } else {
        lemma_cons_multiset(e, s);
    }
}

/// Sorting only rearranges: the sorted sequence holds exactly the elements
/// of the original, with multiplicity.
pub proof fn lemma_sort_spec_permutes(s: Seq<Entity>, o: SortOrder)
    ensures
        sort_spec(s, o).to_multiset() == s.to_multiset(),
    decreases s.len(),
{
    broadcast use vstd::seq_lib::group_to_multiset_ensures;

    if s.len() > 0 {
        lemma_sort_spec_permutes(s.drop_last(), o);
        lemma_insert_sorted_multiset(sort_spec(s.drop_last(), o), s.last(), o);
        assert(s =~= s.drop_last().push(s.last()));
        assert(sort_spec(s, o).to_multiset() =~= s.to_multiset());
    }
}

/// Lexicographic order on text.
pub open spec fn lex_lt(a: Seq<char>, b: Seq<char>) -> bool
    decreases a.len(),
{
    if b.len() == 0 {
        false
    } else if a.len() == 0 {
        true
    } else if (a[0] as u32) < (b[0] as u32) {
        true
    } else if a[0] == b[0] {
        lex_lt(a.skip(1), b.skip(1))
    } else {
        false
    }
}

proof fn lemma_lex_lt_irreflexive(a: Seq<char>)
    ensures
        !lex_lt(a, a),
    decreases a.len(),
{
    if a.len() > 0 {
        lemma_lex_lt_irreflexive(a.skip(1));
    }
}

proof fn lemma_lex_lt_asymmetric(a: Seq<char>, b: Seq<char>)
    requires
        lex_lt(a, b),
    ensures
        !lex_lt(b, a),
    decreases a.len(),
{
    if a.len() > 0 && b.len() > 0 && a[0] == b[0] {
        lemma_lex_lt_asymmetric(a.skip(1), b.skip(1));
    }
}

proof fn lemma_kind_text_ordered(k1: Kind, k2: Kind)
    requires
        kind_rank(k1) < kind_rank(k2),
    ensures
        lex_lt(crate::entity::kind_text(k1), crate::entity::kind_text(k2)),
{
    let a = crate::entity::kind_text(k1);
    let b = crate::entity::kind_text(k2);
    if k1 == Kind::Eau && k2 == Kind::Electrik {
        assert(a[0] == b[0]);
        assert(a.skip(1) =~= seq!['a', 'u']);
        assert(b.skip(1) =~= seq!['l', 'e', 'c', 't', 'r', 'i', 'k']);
        assert(lex_lt(a.skip(1), b.skip(1)));
    } else {
        assert((a[0] as u32) < (b[0] as u32));
    }
}

/// The kinds' ranks order them exactly as the lexicographic order of their
/// text forms: the sort by kind is alphabetical.
pub proof fn lemma_kind_rank_alphabetical(k1: Kind, k2: Kind)
    ensures
        kind_rank(k1) < kind_rank(k2) <==> lex_lt(
            crate::entity::kind_text(k1),
            crate::entity::kind_text(k2),
        ),
{
    if kind_rank(k1) < kind_rank(k2) {
        lemma_kind_text_ordered(k1, k2);
    } else if kind_rank(k2) < kind_rank(k1) {
        lemma_kind_text_ordered(k2, k1);
        lemma_lex_lt_asymmetric(crate::entity::kind_text(k2), crate::entity::kind_text(k1));
    } else {
        assert(k1 == k2);
        lemma_lex_lt_irreflexive(crate::entity::kind_text(k1));
    }
}

/// The subsequence of elements carrying the key `k`, in order.
pub open spec fn key_run(s: Seq<Entity>, o: SortOrder, k: int) -> Seq<Entity>
    decreases s.len(),
{
    if s.len() == 0 {
        s
    } else {
        let rest = key_run(s.skip(1), o, k);
        if sort_key(s[0], o) == k {
            seq![s[0]] + rest
        } else {
            rest
        }
    }
}

proof fn lemma_key_run_push(s: Seq<Entity>, o: SortOrder, k: int, x: Entity)
    ensures
        key_run(s.push(x), o, k) == if sort_key(x, o) == k {
            key_run(s, o, k).push(x)
        } else {
            key_run(s, o, k)
        },
    decreases s.len(),
{
    let p = s.push(x);
    if s.len() == 0 {
        assert(p.skip(1) =~= Seq::<Entity>::empty());
        assert(key_run(Seq::<Entity>::empty(), o, k) == Seq::<Entity>::empty());
        assert(p[0] == x);
        if sort_key(x, o) == k {
            assert(key_run(p, o, k) =~= key_run(s, o, k).push(x));
        }
    } else {
        assert(p[0] == s[0]);
        assert(p.skip(1) =~= s.skip(1).push(x));
        lemma_key_run_push(s.skip(1), o, k, x);
        if sort_key(x, o) == k {
            if sort_key(s[0], o) == k {
                assert(seq![s[0]] + key_run(s.skip(1), o, k).push(x) =~= (seq![s[0]] + key_run(
                    s.skip(1),
                    o,
                    k,
                )).push(x));
            }
            assert(key_run(p, o, k) =~= key_run(s, o, k).push(x));
        } else {
            assert(key_run(p, o, k) =~= key_run(s, o, k));
        }
    }
}

proof fn lemma_key_run_absent(s: Seq<Entity>, o: SortOrder, k: int)
    requires
        forall|i: int| 0 <= i < s.len() ==> sort_key(#[trigger] s[i], o) != k,
    ensures
        key_run(s, o, k) == Seq::<Entity>::empty(),
    decreases s.len(),
{
    if s.len() > 0 {
        lemma_key_run_absent(s.skip(1), o, k);
    }
}

proof fn lemma_insert_key_run(s: Seq<Entity>, e: Entity, o: SortOrder, k: int)
    requires
        sorted_by(s, o),
    ensures
        key_run(insert_sorted(s, e, o), o, k) == if sort_key(e, o) == k {
            key_run(s, o, k).push(e)
        } else {
            key_run(s, o, k)
        },
    decreases s.len(),
{
    let r = insert_sorted(s, e, o);
    if s.len() == 0 {
        assert(seq![e].skip(1) =~= Seq::<Entity>::empty());
        assert(key_run(Seq::<Entity>::empty(), o, k) == Seq::<Entity>::empty());
        assert(r == seq![e]);
        assert(r[0] == e);
        if sort_key(e, o) == k {
            assert(key_run(r, o, k) =~= key_run(s, o, k).push(e));
        }
    } else if sort_key(s[0], o) <= sort_key(e, o) {
        let q = insert_sorted(s.skip(1), e, o);
        lemma_insert_key_run(s.skip(1), e, o, k);
        assert(r[0] == s[0]);
        assert(r.skip(1) =~= q);
        if sort_key(e, o) == k && sort_key(s[0], o) == k {
            assert(seq![s[0]] + key_run(s.skip(1), o, k).push(e) =~= (seq![s[0]] + key_run(
                s.skip(1),
                o,
                k,
            )).push(e));
        }
        if sort_key(e, o) == k {
            assert(key_run(r, o, k) =~= key_run(s, o, k).push(e));
        } else {
            assert(key_run(r, o, k) =~= key_run(s, o, k));
        }
    } else {
        assert(r == seq![e] + s);
        assert(r[0] == e);
        assert(r.skip(1) =~= s);
        if sort_key(e, o) == k {
            assert(forall|i: int|
                0 <= i < s.len() ==> sort_key(#[trigger] s[i], o) >= sort_key(s[0], o));
            lemma_key_run_absent(s, o, k);
            assert(key_run(r, o, k) =~= key_run(s, o, k).push(e));
        }
    }
}

/// Stability: for every key, the elements carrying it come out of the sort
/// exactly as they went in — same entities, same relative order.
pub proof fn lemma_sort_spec_stable(s: Seq<Entity>, o: SortOrder, k: int)
    ensures
        key_run(sort_spec(s, o), o, k) == key_run(s, o, k),
    decreases s.len(),
{
    if s.len() > 0 {
        let head = s.drop_last();
        lemma_sort_spec_stable(head, o, k);
        lemma_sort_spec_sorted(head, o);
        lemma_insert_key_run(sort_spec(head, o), s.last(), o, k);
        lemma_key_run_push(head, o, k, s.last());
        assert(head.push(s.last()) =~= s);
    }
}

/// Where stable insertion puts `e` in a sorted sequence: right after the
/// last element whose key does not exceed `e`'s.
proof fn lemma_insert_sorted_at(p: Seq<Entity>, e: Entity, o: SortOrder, j: int)
    requires
        sorted_by(p, o),
        0 <= j <= p.len(),
        forall|m: int| j <= m < p.len() ==> sort_key(#[trigger] p[m], o) > sort_key(e, o),
        j > 0 ==> sort_key(p[j - 1], o) <= sort_key(e, o),
    ensures
        insert_sorted(p, e, o) == p.take(j) + seq![e] + p.skip(j),
    decreases p.len(),
{
    if p.len() == 0 {
        assert(insert_sorted(p, e, o) =~= p.take(j) + seq![e] + p.skip(j));
    } else if j == 0 {
        assert(sort_key(p[0], o) > sort_key(e, o));
        assert(insert_sorted(p, e, o) =~= p.take(0) + seq![e] + p.skip(0));
    } else {
        assert(sort_key(p[0], o) <= sort_key(p[j - 1], o));
        let t = p.skip(1);
        assert forall|m: int| j - 1 <= m < t.len() implies sort_key(#[trigger] t[m], o)
            > sort_key(e, o) by {
            assert(t[m] == p[m + 1]);
        }
        assert(j - 1 > 0 ==> sort_key(t[j - 2], o) <= sort_key(e, o));
        lemma_insert_sorted_at(t, e, o, j - 1);
        assert(seq![p[0]] + (t.take(j - 1) + seq![e] + t.skip(j - 1)) =~= p.take(j) + seq![e]
            + p.skip(j));
    }
}

/// The exec key of an entity under an order.
fn key_of(e: &Entity, o: SortOrder) -> (k: u64)
    ensures
        k as int == sort_key(*e, o),
{
    match o {
        SortOrder::LevelDesc => (u32::MAX - e.level) as u64,
        SortOrder::KindName => match e.kind {
            Kind::Eau => 0,
            Kind::Electrik => 1,
            Kind::Feu => 2,
            Kind::Plante => 3,
            Kind::Tenebre => 4,
        },
    }
}

/// Sorts `v` in place: stable insertion sort under the order's key.
pub fn sort_entities(v: &mut Vec<Entity>, o: SortOrder)
    ensures
        final(v)@ == sort_spec(old(v)@, o),
{
    let ghost orig = old(v)@;
    let mut i: usize = 1;
    if v.len() <= 1 {
        proof {
            if orig.len() == 1 {
                assert(orig.drop_last() =~= Seq::<Entity>::empty());
                assert(sort_spec(Seq::<Entity>::empty(), o) == Seq::<Entity>::empty());
                assert(insert_sorted(Seq::<Entity>::empty(), orig.last(), o) == seq![orig.last()]);
                assert(sort_spec(orig, o) =~= orig);
            }
        }
        return;
    }
    proof {
        assert(orig.take(1).drop_last() =~= Seq::<Entity>::empty());
        assert(sort_spec(Seq::<Entity>::empty(), o) == Seq::<Entity>::empty());
        assert(insert_sorted(Seq::<Entity>::empty(), orig.take(1).last(), o) == seq![
            orig.take(1).last(),
        ]);
        assert(sort_spec(orig.take(1), o) =~= orig.take(1));
        assert(v@ =~= sort_spec(orig.take(1), o) + orig.skip(1));
    }
    while i < v.len()
        invariant
            1 <= i <= orig.len(),
            v@.len() == orig.len(),
            v@ == sort_spec(orig.take(i as int), o) + orig.skip(i as int),
        decreases orig.len() - i,
    {
        let ghost prefix = sort_spec(orig.take(i as int), o);
        proof {
            lemma_sort_spec_sorted(orig.take(i as int), o);
            assert(v@[i as int] == orig.skip(i as int)[0]);
            assert(v@[i as int] == orig[i as int]);
        }
        let ki = key_of(&v[i], o);
        let mut j: usize = i;
        while j > 0 && key_of(&v[j - 1], o) > ki
            invariant
                0 <= j <= i < v@.len(),
                v@ == prefix + orig.skip(i as int),
                prefix.len() == i as int,
                ki as int == sort_key(orig[i as int], o),
                v@[i as int] == orig[i as int],
                forall|m: int|
                    j <= m < i as int ==> sort_key(#[trigger] prefix[m], o) > sort_key(
                        orig[i as int],
                        o,
                    ),
            decreases j,
        {
            j = j - 1;
            proof {
                assert(v@[j as int] == prefix[j as int]);
            }
        }
        proof {
            assert(j > 0 ==> sort_key(prefix[j as int - 1], o) <= sort_key(orig[i as int], o));
            lemma_insert_sorted_at(prefix, orig[i as int], o, j as int);
        }
        let e = v.remove(i);
        v.insert(j, e);
        proof {
            let nxt = orig.take(i as int + 1);
            assert(nxt.drop_last() =~= orig.take(i as int));
            assert(nxt.last() == orig[i as int]);
            assert(sort_spec(nxt, o) == insert_sorted(prefix, orig[i as int], o));
            assert(v@ =~= (prefix.take(j as int) + seq![orig[i as int]] + prefix.skip(j as int))
                + orig.skip(i as int + 1));
            assert(v@ =~= sort_spec(nxt, o) + orig.skip(i as int + 1));
        }
        i = i + 1;
    }
    proof {
        assert(orig.take(orig.len() as int) =~= orig);
        assert(v@ =~= sort_spec(orig, o));
    }
}

} // verus!
