//! Ordering of discovered plugin manifests.
use vstd::prelude::*;
use crate::advanced::PluginManifest;
use crate::text::{text_less, text_before, lemma_text_less_transitive, lemma_text_less_total,
    lemma_text_less_irreflexive};

verus! {

/// Where a plugin with id `id` goes in a list sorted by id: before the first
/// plugin with a greater id, after all the others.
pub open spec fn insertion_point(s: Seq<PluginManifest>, id: Seq<char>, k: int) -> int
    decreases s.len() - k,
{
    if k < 0 || k >= s.len() {
        s.len() as int
    } else if text_less(id, s[k].id@) {
        k
    } else {
        insertion_point(s, id, k + 1)
    }
}

/// `v` sorted by id, keeping plugins with equal ids in their given order.
pub open spec fn sorted_by_id(v: Seq<PluginManifest>) -> Seq<PluginManifest>
    decreases v.len(),
{
    if v.len() == 0 {
        Seq::empty()
    } else {
        let s = sorted_by_id(v.drop_last());
        s.insert(insertion_point(s, v.last().id@, 0), v.last())
    }
}

/// No plugin comes after one with a greater id.
pub open spec fn ids_ordered(s: Seq<PluginManifest>) -> bool {
    forall|i: int, j: int| 0 <= i < j < s.len() ==> !text_less(#[trigger] s[j].id@, #[trigger] s[i].id@)
}

proof fn lemma_insertion_point(s: Seq<PluginManifest>, id: Seq<char>, k: int)
    requires
        0 <= k <= s.len(),
    ensures
        k <= insertion_point(s, id, k) <= s.len(),
        forall|j: int| k <= j < insertion_point(s, id, k) ==> !text_less(id, #[trigger] s[j].id@),
        insertion_point(s, id, k) < s.len() ==> text_less(id, s[insertion_point(s, id, k)].id@),
    decreases s.len() - k,
{
    if k < s.len() && !text_less(id, s[k].id@) {
        lemma_insertion_point(s, id, k + 1);
    }
}

/// The stable sort by id yields plugins ordered by id, as many as it was given.
pub proof fn lemma_sorted_by_id(v: Seq<PluginManifest>)
    ensures
        ids_ordered(sorted_by_id(v)),
        sorted_by_id(v).len() == v.len(),
        sorted_by_id(v).to_multiset() == v.to_multiset(),
    decreases v.len(),
{
    if v.len() > 0 {
        let s = sorted_by_id(v.drop_last());
        lemma_sorted_by_id(v.drop_last());
        let x = v.last();
        let p = insertion_point(s, x.id@, 0);
        lemma_insertion_point(s, x.id@, 0);
        let r = s.insert(p, x);
        assert forall|i: int, j: int| 0 <= i < j < r.len() implies !text_less(
            #[trigger] r[j].id@,
            #[trigger] r[i].id@,
        ) by {
            if j < p {
                assert(r[i] == s[i] && r[j] == s[j]);
            } else if j == p {
                assert(r[i] == s[i]);
                assert(!text_less(x.id@, s[i].id@));
                if text_less(x.id@, s[i].id@) {
                }
                if text_less(r[j].id@, r[i].id@) {
                    lemma_text_less_irreflexive(x.id@);
                    if x.id@ != s[i].id@ {
                        lemma_text_less_total(x.id@, s[i].id@);
                    }
                }
            } else if i == p {
                assert(r[j] == s[j - 1]);
                if p < s.len() {
                    assert(text_less(x.id@, s[p].id@));
                    if text_less(s[j - 1].id@, x.id@) {
                        if j - 1 > p {
                            assert(!text_less(s[j - 1].id@, s[p].id@));
                            lemma_text_less_transitive(s[j - 1].id@, x.id@, s[p].id@);
                        } else {
                            lemma_text_less_transitive(x.id@, s[p].id@, x.id@);
                            lemma_text_less_irreflexive(x.id@);
                        }
                    }
                }
            } else if i < p {
                assert(r[i] == s[i] && r[j] == s[j - 1]);
            } else {
                assert(r[i] == s[i - 1] && r[j] == s[j - 1]);
            }
        }
        vstd::seq_lib::to_multiset_insert(s, p, x);
        vstd::seq_lib::to_multiset_build(v.drop_last(), x);
        assert(v =~= v.drop_last().push(x));
        assert(sorted_by_id(v) == r);
    } else {
        assert(v =~= Seq::<PluginManifest>::empty());
        assert(sorted_by_id(v) =~= Seq::<PluginManifest>::empty());
        assert(v.to_multiset() =~= vstd::multiset::Multiset::empty()) by {
            broadcast use vstd::seq_lib::group_to_multiset_ensures;
        }
    }
}

/// Sorts discovered plugins by id, keeping plugins with equal ids in the
/// order they were found.
pub fn sort_by_id(plugins: Vec<PluginManifest>) -> (r: Vec<PluginManifest>)
    ensures
        r@ == sorted_by_id(plugins@),
        ids_ordered(r@),
        r@.to_multiset() == plugins@.to_multiset(),
{
    let ghost all = plugins@;
    let mut rest = plugins;
    let mut out: Vec<PluginManifest> = Vec::new();
    let n = rest.len();
    let mut i: usize = 0;
    while i < n
        invariant
            n == all.len(),
            i <= n,
            rest@ == all.subrange(i as int, n as int),
            out@ == sorted_by_id(all.subrange(0, i as int)),
        decreases n - i,
    {
        let x = rest.remove(0);
        let m = out.len();
        let mut k: usize = 0;
        while k < m && !text_before(x.id.as_str(), out[k].id.as_str())
            invariant
                m == out@.len(),
                k <= m,
                insertion_point(out@, x.id@, k as int) == insertion_point(out@, x.id@, 0),
            decreases m - k,
        {
            k = k + 1;
        }
        proof {
            let s = all.subrange(0, i + 1);
            assert(s.drop_last() =~= all.subrange(0, i as int));
            assert(s.last() == x);
        }
        out.insert(k, x);
        i = i + 1;
        proof {
            assert(rest@ =~= all.subrange(i as int, n as int));
        }
    }
    assert(all.subrange(0, n as int) =~= all);
    proof {
        lemma_sorted_by_id(all);
    }
    out
}

} // verus!
