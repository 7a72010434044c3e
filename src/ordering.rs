//! Ordering entities by identifier.

use vstd::prelude::*;

verus! {

broadcast use vstd::seq_lib::group_to_multiset_ensures, vstd::multiset::group_multiset_axioms;

/// An entity that carries an integer identifier.
pub trait Identified {
    spec fn spec_id(&self) -> i32;

    fn id_of(&self) -> (r: i32)
        ensures
            r == self.spec_id(),
    ;
}

/// Identifiers never decrease along the sequence.
pub open spec fn sorted_by_id<T: Identified>(s: Seq<T>) -> bool {
    forall|i: int, j: int| 0 <= i < j < s.len() ==> #[trigger] s[i].spec_id() <= #[trigger] s[j].spec_id()
}

/// `i` is the first position whose identifier is `id`.
pub open spec fn is_first_with_id<T: Identified>(s: Seq<T>, id: i32, i: int) -> bool {
    &&& 0 <= i < s.len()
    &&& s[i].spec_id() == id
    &&& forall|j: int| 0 <= j < i ==> #[trigger] s[j].spec_id() != id
}

/// No element carries identifier `id`.
pub open spec fn lacks_id<T: Identified>(s: Seq<T>, id: i32) -> bool {
    forall|i: int| 0 <= i < s.len() ==> #[trigger] s[i].spec_id() != id
}

/// The position of the first element with identifier `id`.
pub fn find_by_id<T: Identified>(items: &Vec<T>, id: i32) -> (r: Option<usize>)
    ensures
        r matches Some(i) ==> is_first_with_id(items@, id, i as int),
        r is None <==> lacks_id(items@, id),
{
    let mut i: usize = 0;
    while i < items.len()
        invariant
            i <= items.len(),
            forall|j: int| 0 <= j < i ==> #[trigger] items@[j].spec_id() != id,
        decreases items.len() - i,
    {
        if items[i].id_of() == id {
            return Some(i);
        }
        i = i + 1;
    }
    None
}

/// Inserting one element adds it once to the multiset.
pub proof fn lemma_insert_to_multiset<T>(s: Seq<T>, i: int, a: T)
    requires
        0 <= i <= s.len(),
    ensures
        s.insert(i, a).to_multiset() =~= s.to_multiset().insert(a),
{
    let t = s.insert(i, a);
    s.insert_ensures(i, a);
    assert(t.remove(i) =~= s);
    assert(t.remove(i).to_multiset() =~= t.to_multiset().remove(t[i]));
    assert(t.contains(a));
    assert(t.to_multiset().count(a) > 0);
}

/// Rearranging a sequence rearranges its image under `f` alike.
pub proof fn lemma_map_to_multiset<A, B>(s1: Seq<A>, s2: Seq<A>, f: spec_fn(A) -> B)
    requires
        s1.to_multiset() == s2.to_multiset(),
    ensures
        s1.map_values(f).to_multiset() == s2.map_values(f).to_multiset(),
    decreases s1.len(),
{
    if s1.len() == 0 {
        assert(s2.len() == s2.to_multiset().len());
        assert(s1.map_values(f) =~= s2.map_values(f));
    } else {
        let x = s1.last();
        let s1p = s1.drop_last();
        assert(s1 =~= s1p.push(x));
        assert(s1.to_multiset() =~= s1p.to_multiset().insert(x));
        assert(s2.to_multiset().count(x) > 0);
        assert(s2.contains(x));
        let i = choose|i: int| 0 <= i < s2.len() && s2[i] == x;
        let s2p = s2.remove(i);
        assert(s2p.to_multiset() =~= s2.to_multiset().remove(x));
        assert(s2p.to_multiset() =~= s1p.to_multiset());
        lemma_map_to_multiset(s1p, s2p, f);
        let m2 = s2.map_values(f);
        assert(s1.map_values(f) =~= s1p.map_values(f).push(f(x)));
        assert(m2.remove(i) =~= s2p.map_values(f));
        assert(m2.remove(i).to_multiset() =~= m2.to_multiset().remove(f(x)));
        assert(m2.contains(f(x))) by {
            assert(m2[i] == f(x));
        }
        assert(m2.to_multiset().count(f(x)) > 0);
        assert(m2.to_multiset() =~= s2p.map_values(f).to_multiset().insert(f(x)));
    }
}

/// Equal multisets hold the same elements.
pub proof fn lemma_multiset_contains<A>(s1: Seq<A>, s2: Seq<A>, i: int)
    requires
        s1.to_multiset() == s2.to_multiset(),
        0 <= i < s1.len(),
    ensures
        s2.contains(s1[i]),
{
    assert(s1.contains(s1[i]));
    assert(s1.to_multiset().count(s1[i]) > 0);
}

/// Sorts by identifier; elements with equal identifiers keep their order.
pub fn sort_by_id<T: Identified>(items: Vec<T>) -> (r: Vec<T>)
    ensures
        r@.to_multiset() == items@.to_multiset(),
        sorted_by_id(r@),
{
    let mut rest = items;
    let mut out: Vec<T> = Vec::new();
    let ghost whole = rest@.to_multiset();
    while rest.len() > 0
        invariant
            out@.to_multiset().add(rest@.to_multiset()) == whole,
            sorted_by_id(out@),
        decreases rest.len(),
    {
        let ghost before = rest@;
        let x = rest.remove(0);
        proof {
            assert(before.remove(0) =~= rest@);
        }
        let key = x.id_of();
        let mut pos: usize = 0;
        while pos < out.len() && out[pos].id_of() <= key
            invariant
                pos <= out.len(),
                forall|k: int| 0 <= k < pos ==> #[trigger] out@[k].spec_id() <= key,
            decreases out.len() - pos,
        {
            pos = pos + 1;
        }
        let ghost old_out = out@;
        out.insert(pos, x);
        proof {
            lemma_insert_to_multiset(old_out, pos as int, x);
            old_out.insert_ensures(pos as int, x);
            assert forall|i: int, j: int| 0 <= i < j < out@.len() implies #[trigger] out@[i].spec_id()
                <= #[trigger] out@[j].spec_id() by {
                if j < pos {
                } else if j == pos {
                } else if i < pos {
                    assert(out@[j] == old_out[j - 1]);
                } else if i == pos {
                    assert(out@[j] == old_out[j - 1]);
                } else {
                    assert(out@[j] == old_out[j - 1]);
                    assert(out@[i] == old_out[i - 1]);
                }
            }
        }
    }
    assert(rest@ =~= Seq::<T>::empty());
    out
}

} // verus!
