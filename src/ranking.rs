use vstd::prelude::*;

use crate::model::RankedPackage;
use crate::names::{
    lemma_name_lt_asymmetric, lemma_name_lt_total, lemma_name_lt_transitive, name_less, name_lt,
};

verus! {

/// How many packages of the ranking the selection starts from.
pub const RANKING_LIMIT: usize = 100;

/// `a` comes no later than `b`: more popular (lower rank) first, equal ranks
/// by name.
pub open spec fn ranks_before(a: RankedPackage, b: RankedPackage) -> bool {
    a.rank < b.rank || (a.rank == b.rank && !name_lt(b.name@, a.name@))
}

/// `p` placed after every leading package that ranks no later than it.
pub open spec fn ranked_insert(s: Seq<RankedPackage>, p: RankedPackage) -> Seq<RankedPackage>
    decreases s.len(),
{
    if s.len() == 0 {
        seq![p]
    } else if ranks_before(s[0], p) {
        seq![s[0]] + ranked_insert(s.skip(1), p)
    } else {
        seq![p] + s
    }
}

/// The packages in ranking order; packages that rank alike keep their order.
pub open spec fn ranking_order(s: Seq<RankedPackage>) -> Seq<RankedPackage>
    decreases s.len(),
{
    if s.len() == 0 {
        s
    } else {
        ranked_insert(ranking_order(s.drop_last()), s.last())
    }
}

pub open spec fn in_ranking_order(s: Seq<RankedPackage>) -> bool {
    forall|i: int, j: int| 0 <= i < j < s.len() ==> ranks_before(s[i], s[j])
}

proof fn lemma_ranks_before_total(a: RankedPackage, b: RankedPackage)
    ensures
        ranks_before(a, b) || ranks_before(b, a),
{
    if a.name@ != b.name@ {
        lemma_name_lt_total(a.name@, b.name@);
    }
    if name_lt(a.name@, b.name@) {
        lemma_name_lt_asymmetric(a.name@, b.name@);
    }
}

proof fn lemma_ranks_before_transitive(a: RankedPackage, b: RankedPackage, c: RankedPackage)
    requires
        ranks_before(a, b),
        ranks_before(b, c),
    ensures
        ranks_before(a, c),
{
    if a.rank == c.rank && name_lt(c.name@, a.name@) {
        if name_lt(c.name@, b.name@) {
            lemma_name_lt_asymmetric(c.name@, b.name@);
        } else if name_lt(b.name@, a.name@) {
            lemma_name_lt_asymmetric(b.name@, a.name@);
        } else {
            if b.name@ != a.name@ {
                lemma_name_lt_total(a.name@, b.name@);
                lemma_name_lt_transitive(c.name@, a.name@, b.name@);
            }
        }
    }
}

proof fn lemma_insert_at(s: Seq<RankedPackage>, p: RankedPackage, k: int)
    requires
        0 <= k <= s.len(),
        forall|i: int| 0 <= i < k ==> ranks_before(s[i], p),
        k < s.len() ==> !ranks_before(s[k], p),
    ensures
        ranked_insert(s, p) == s.insert(k, p),
    decreases s.len(),
{
    if s.len() == 0 {
        assert(s.insert(k, p) =~= seq![p]);
    } else if k == 0 {
        assert(s.insert(0, p) =~= seq![p] + s);
    } else {
        lemma_insert_at(s.skip(1), p, k - 1);
        assert(s.insert(k, p) =~= seq![s[0]] + s.skip(1).insert(k - 1, p));
    }
}

proof fn lemma_insert_keeps_order(s: Seq<RankedPackage>, p: RankedPackage)
    requires
        in_ranking_order(s),
    ensures
        in_ranking_order(ranked_insert(s, p)),
        ranked_insert(s, p).len() == s.len() + 1,
    decreases s.len(),
{
    if s.len() > 0 && ranks_before(s[0], p) {
        let t = s.skip(1);
        lemma_insert_keeps_order(t, p);
        let r = ranked_insert(s, p);
        let rt = ranked_insert(t, p);
        assert(r =~= seq![s[0]] + rt);
        assert forall|i: int, j: int| 0 <= i < j < r.len() implies ranks_before(r[i], r[j]) by {
            if i == 0 {
                lemma_insert_members(t, p, j - 1);
                if rt[j - 1] != p {
                    let k = choose|k: int| 0 <= k < t.len() && t[k] == rt[j - 1];
                    assert(t[k] == s[k + 1]);
                }
            }
        }
    } else if s.len() > 0 {
        let r = ranked_insert(s, p);
        assert(r =~= seq![p] + s);
        lemma_ranks_before_total(s[0], p);
        assert forall|i: int, j: int| 0 <= i < j < r.len() implies ranks_before(r[i], r[j]) by {
            if i == 0 && j > 1 {
                lemma_ranks_before_transitive(p, s[0], s[j - 1]);
            }
        }
    }
}

proof fn lemma_insert_members(s: Seq<RankedPackage>, p: RankedPackage, j: int)
    requires
        0 <= j < ranked_insert(s, p).len(),
    ensures
        ranked_insert(s, p)[j] == p || exists|k: int| 0 <= k < s.len() && s[k] == ranked_insert(s, p)[j],
    decreases s.len(),
{
    if s.len() > 0 && ranks_before(s[0], p) {
        let r = ranked_insert(s, p);
        assert(r =~= seq![s[0]] + ranked_insert(s.skip(1), p));
        if j > 0 {
            lemma_insert_members(s.skip(1), p, j - 1);
            if r[j] != p {
                let k = choose|k: int| 0 <= k < s.len() - 1 && s.skip(1)[k] == r[j];
                assert(s[k + 1] == r[j]);
            }
        } else {
            assert(s[0] == r[0]);
        }
    } else if s.len() > 0 {
        let r = ranked_insert(s, p);
        assert(r =~= seq![p] + s);
        if j > 0 {
            assert(s[j - 1] == r[j]);
        }
    }
}

/// Any sequence put in ranking order is in ranking order, and keeps its length.
pub proof fn lemma_ranking_order_sorted(s: Seq<RankedPackage>)
    ensures
        in_ranking_order(ranking_order(s)),
        ranking_order(s).len() == s.len(),
    decreases s.len(),
{
    if s.len() > 0 {
        lemma_ranking_order_sorted(s.drop_last());
        lemma_insert_keeps_order(ranking_order(s.drop_last()), s.last());
    }
}

fn ranks_no_later(a: &RankedPackage, b: &RankedPackage) -> (r: bool)
    ensures
        r == ranks_before(*a, *b),
{
    a.rank < b.rank || (a.rank == b.rank && !name_less(b.name.as_str(), a.name.as_str()))
}

/// Puts a ranking snapshot in order, most popular first and equal ranks by
/// name, and keeps at most `limit` packages.
pub fn order_ranking(packages: Vec<RankedPackage>, limit: usize) -> (r: Vec<RankedPackage>)
    ensures
        r@ == ranking_order(packages@).take(
            if limit < packages.len() {
                limit as int
            } else {
                packages.len() as int
            },
        ),
        in_ranking_order(r@),
{
    let ghost input = packages@;
    let mut sorted: Vec<RankedPackage> = Vec::new();
    let mut rest = packages;
    let n = rest.len();
    let mut i: usize = 0;
    assert(input.take(0) =~= Seq::<RankedPackage>::empty());
    assert(input.skip(0) =~= input);
    while i < n
        invariant
            n == input.len(),
            i <= n,
            rest@ == input.skip(i as int),
            sorted@ == ranking_order(input.take(i as int)),
        decreases n - i,
    {
        // Take the packages out in input order and insert each at its place.
        let p = rest.remove(0);
        assert(p == input[i as int]);
        assert(rest@ =~= input.skip(i + 1));
        let ghost s = sorted@;
        let mut k: usize = 0;
        while k < sorted.len() && ranks_no_later(&sorted[k], &p)
            invariant
                k <= sorted.len(),
                sorted@ == s,
                forall|j: int| 0 <= j < k ==> ranks_before(s[j], p),
            decreases sorted.len() - k,
        {
            k = k + 1;
        }
        proof {
            lemma_insert_at(s, p, k as int);
            assert(input.take(i + 1).drop_last() =~= input.take(i as int));
        }
        sorted.insert(k, p);
        i = i + 1;
    }
    assert(input.take(n as int) =~= input);
    proof {
        lemma_ranking_order_sorted(input);
    }
    let ghost full = sorted@;
    if limit < n {
        sorted.truncate(limit);
    }
    assert(sorted@ =~= full.take(if limit < n { limit as int } else { n as int }));
    assert forall|a: int, b: int| 0 <= a < b < sorted.len() implies ranks_before(
        sorted@[a],
        sorted@[b],
    ) by {
        assert(sorted@[a] == full[a] && sorted@[b] == full[b]);
    }
    sorted
}

} // verus!
