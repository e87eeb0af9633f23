//! Repositories by the number of their stars.

use crate::index::IndexedRepo;
use crate::index::RepoIndex;
use crate::index;
use crate::repo::Repo;
use vstd::prelude::*;

verus! {

/// Whether the repository at position `a` is listed before that at `b`: it has
/// more stars, or as many and the earlier position.
pub open spec fn listed_before(stars: Seq<u64>, a: int, b: int) -> bool {
    stars[a] > stars[b] || (stars[a] == stars[b] && a < b)
}

/// Whether `order` holds positions of repositories in the order in which they
/// are listed.
pub open spec fn in_order(stars: Seq<u64>, order: Seq<usize>) -> bool {
    forall|i: int, j: int|
        0 <= i < j < order.len() ==> listed_before(stars, #[trigger] order[i] as int, #[trigger] order[j] as int)
}

/// Whether `order` lists the position of every repository once.
pub open spec fn star_order(stars: Seq<u64>, order: Seq<usize>) -> bool {
    &&& order.len() == stars.len()
    &&& forall|i: int| 0 <= i < order.len() ==> #[trigger] order[i] < stars.len()
    &&& in_order(stars, order)
}

/// The numbers of stars.
pub open spec fn stars_of(records: Seq<IndexedRepo>) -> Seq<u64> {
    records.map_values(|ir: IndexedRepo| ir.repo.stargazers_count)
}

/// Whether `shown` are the first `limit` repositories by the number of stars;
/// of those with the same number the one that was indexed first comes first.
pub open spec fn top_starred(shown: Seq<&Repo>, records: Seq<IndexedRepo>, limit: nat) -> bool {
    exists|order: Seq<usize>| #[trigger] star_order(stars_of(records), order) && shown == index::first(
        order.map_values(|at: usize| &records[at as int].repo),
        limit,
    )
}

/// Merge two lists that are each in order.
fn merge(stars: &Vec<u64>, a: &Vec<usize>, b: &Vec<usize>) -> (out: Vec<usize>)
    requires
        a@.len() + b@.len() <= usize::MAX,
        in_order(stars@, a@),
        in_order(stars@, b@),
        forall|i: int| 0 <= i < a@.len() ==> #[trigger] a@[i] < stars@.len(),
        forall|i: int| 0 <= i < b@.len() ==> #[trigger] b@[i] < stars@.len(),
        forall|i: int, j: int| 0 <= i < a@.len() && 0 <= j < b@.len() ==> #[trigger] a@[i] != #[trigger] b@[j],
    ensures
        in_order(stars@, out@),
        out@.len() == a@.len() + b@.len(),
        forall|i: int| 0 <= i < out@.len() ==> a@.contains(#[trigger] out@[i]) || b@.contains(out@[i]),
{
    let mut out: Vec<usize> = Vec::new();
    let mut i: usize = 0;
    let mut j: usize = 0;
    while i < a.len() || j < b.len()
        invariant
            i <= a@.len(),
            j <= b@.len(),
            a@.len() + b@.len() <= usize::MAX,
            out@.len() == i + j,
            in_order(stars@, a@),
            in_order(stars@, b@),
            in_order(stars@, out@),
            forall|x: int| 0 <= x < a@.len() ==> #[trigger] a@[x] < stars@.len(),
            forall|x: int| 0 <= x < b@.len() ==> #[trigger] b@[x] < stars@.len(),
            forall|x: int, y: int| 0 <= x < a@.len() && 0 <= y < b@.len() ==> #[trigger] a@[x] != #[trigger] b@[y],
            forall|x: int, y: int|
                0 <= x < out@.len() && i <= y < a@.len() ==> listed_before(stars@, #[trigger] out@[x] as int, #[trigger] a@[y] as int),
            forall|x: int, y: int|
                0 <= x < out@.len() && j <= y < b@.len() ==> listed_before(stars@, #[trigger] out@[x] as int, #[trigger] b@[y] as int),
            forall|x: int| 0 <= x < out@.len() ==> a@.contains(#[trigger] out@[x]) || b@.contains(out@[x]),
        decreases a@.len() + b@.len() - i - j,
    {
        let take_a = if i == a.len() {
            false
        } else if j == b.len() {
            true
        } else {
            let (x, y): (usize, usize) = (a[i], b[j]);
            stars[x] > stars[y] || (stars[x] == stars[y] && x < y)
        };
        if take_a {
            assert(a@.contains(a@[i as int]));
            out.push(a[i]);
            i += 1;
        } else {
            assert(b@.contains(b@[j as int]));
            out.push(b[j]);
            j += 1;
        }
    }
    out
}

/// The positions from `from` up to `to` in the order in which the repositories
/// are listed.
fn sort(stars: &Vec<u64>, from: usize, to: usize) -> (out: Vec<usize>)
    requires
        from <= to <= stars@.len(),
    ensures
        in_order(stars@, out@),
        out@.len() == to - from,
        forall|i: int| 0 <= i < out@.len() ==> from <= #[trigger] out@[i] < to,
    decreases to - from,
{
    if to - from == 0 {
        return Vec::new();
    }
    if to - from == 1 {
        let mut one: Vec<usize> = Vec::new();
        one.push(from);
        return one;
    }
    let middle: usize = from + (to - from) / 2;
    let a = sort(stars, from, middle);
    let b = sort(stars, middle, to);
    let out = merge(stars, &a, &b);
    assert forall|i: int| 0 <= i < out@.len() implies from <= #[trigger] out@[i] < to by {
        if a@.contains(out@[i]) {
            let k = choose|k: int| 0 <= k < a@.len() && a@[k] == out@[i];
            assert(a@[k] == out@[i]);
        } else {
            let k = choose|k: int| 0 <= k < b@.len() && b@[k] == out@[i];
            assert(b@[k] == out@[i]);
        }
    }
    out
}

impl RepoIndex {
    /// The first `limit` repositories by the number of stars, descending.
    /// Repositories with as many stars stay in the order of the index.
    pub fn by_stars(&self, limit: usize) -> (shown: Vec<&Repo>)
        ensures
            top_starred(shown@, self@, limit as nat),
    {
        let repos = self.iter();
        let ghost records = self@;
        let mut stars: Vec<u64> = Vec::new();
        let mut i: usize = 0;
        while i < repos.len()
            invariant
                i <= repos@.len(),
                repos@.len() == records.len(),
                forall|k: int| 0 <= k < repos@.len() ==> *(#[trigger] repos@[k]) == records[k].repo,
                stars@.len() == i,
                forall|k: int| 0 <= k < i ==> #[trigger] stars@[k] == records[k].repo.stargazers_count,
            decreases repos@.len() - i,
        {
            stars.push(repos[i].stargazers_count);
            i += 1;
        }
        assert(stars@ =~= stars_of(records));
        let order = sort(&stars, 0, stars.len());
        assert(star_order(stars_of(records), order@));
        let ghost all = order@.map_values(|at: usize| &records[at as int].repo);
        let mut shown: Vec<&Repo> = Vec::new();
        let mut n: usize = 0;
        while n < order.len() && n < limit
            invariant
                n <= order@.len() == records.len(),
                n <= limit,
                repos@.len() == records.len(),
                forall|k: int| 0 <= k < repos@.len() ==> *(#[trigger] repos@[k]) == records[k].repo,
                forall|k: int| 0 <= k < order@.len() ==> #[trigger] order@[k] < records.len(),
                shown@.len() == n,
                forall|k: int| 0 <= k < n ==> *(#[trigger] shown@[k]) == records[order@[k] as int].repo,
            decreases order@.len() - n,
        {
            shown.push(repos[order[n]]);
            n += 1;
        }
        assert(shown@ =~= index::first(all, limit as nat));
        shown
    }
}

/// There is one listing of a given length.
pub proof fn listings_agree(shown: Seq<&Repo>, limit: nat, shown2: Seq<&Repo>, limit2: nat, records: Seq<IndexedRepo>)
    requires
        limit <= limit2,
        top_starred(shown, records, limit),
        top_starred(shown2, records, limit2),
    ensures
        shown == index::first(shown2, limit),
{
    let stars = stars_of(records);
    let order = choose|order: Seq<usize>| #[trigger] star_order(stars, order) && shown == index::first(
        order.map_values(|at: usize| &records[at as int].repo),
        limit,
    );
    let order2 = choose|order: Seq<usize>| #[trigger] star_order(stars, order) && shown2 == index::first(
        order.map_values(|at: usize| &records[at as int].repo),
        limit2,
    );
    lemma_every_position_is_listed(stars, order);
    lemma_every_position_is_listed(stars, order2);
    lemma_orders_agree(stars, order, order2, 0);
    assert(order =~= order2);
    assert(shown =~= index::first(shown2, limit));
}

/// A listing shows every repository once, but for those beyond `limit`.
pub proof fn listing_is_complete(shown: Seq<&Repo>, limit: nat, records: Seq<IndexedRepo>)
    requires
        records.len() <= usize::MAX,
        top_starred(shown, records, limit),
    ensures
        shown.len() == if limit < records.len() {
            limit
        } else {
            records.len()
        },
        forall|i: int, j: int|
            0 <= i < j < shown.len() ==> (#[trigger] shown[i]).stargazers_count >= (#[trigger] shown[j]).stargazers_count,
        limit >= records.len() ==> forall|at: int| 0 <= at < records.len() ==> shown.contains(&(#[trigger] records[at]).repo),
{
    let stars = stars_of(records);
    let order = choose|order: Seq<usize>| #[trigger] star_order(stars, order) && shown == index::first(
        order.map_values(|at: usize| &records[at as int].repo),
        limit,
    );
    assert forall|i: int, j: int| 0 <= i < j < shown.len() implies (#[trigger] shown[i]).stargazers_count >= (
    #[trigger] shown[j]).stargazers_count by {
        assert(shown[i] == &records[order[i] as int].repo);
        assert(shown[j] == &records[order[j] as int].repo);
        assert(listed_before(stars, order[i] as int, order[j] as int));
    }
    lemma_every_position_is_listed(stars, order);
    if limit >= records.len() {
        assert forall|at: int| 0 <= at < records.len() implies shown.contains(&(#[trigger] records[at]).repo) by {
            assert(order.contains(at as usize));
            let i = choose|i: int| 0 <= i < order.len() && order[i] == at as usize;
            assert(shown[i] == &records[at].repo);
        }
    }
}

/// A listing shows the repositories with the most stars: one that has more stars than
/// one that is shown is shown too, and before it; of two with as many, the one that
/// was indexed first is shown before the other.
pub proof fn listing_shows_the_most_starred(shown: Seq<&Repo>, limit: nat, records: Seq<IndexedRepo>) -> (at: Seq<int>)
    requires
        records.len() <= usize::MAX,
        top_starred(shown, records, limit),
    ensures
        at.len() == shown.len(),
        forall|i: int| 0 <= i < at.len() ==> 0 <= #[trigger] at[i] < records.len() && *shown[i] == records[at[i]].repo,
        forall|i: int, j: int| 0 <= i < j < at.len() ==> #[trigger] at[i] != #[trigger] at[j],
        forall|b: int, j: int|
            0 <= b < records.len() && 0 <= j < at.len() && ((#[trigger] records[b]).repo.stargazers_count
                > records[at[j]].repo.stargazers_count || (records[b].repo.stargazers_count
                == records[at[j]].repo.stargazers_count && b < #[trigger] at[j])) ==> exists|i: int|
                0 <= i < j && #[trigger] at[i] == b,
{
    let stars = stars_of(records);
    let order = choose|order: Seq<usize>| #[trigger] star_order(stars, order) && shown == index::first(
        order.map_values(|at: usize| &records[at as int].repo),
        limit,
    );
    lemma_every_position_is_listed(stars, order);
    let at = index::first(order, limit).map_values(|x: usize| x as int);
    assert forall|i: int| 0 <= i < at.len() implies 0 <= #[trigger] at[i] < records.len() && *shown[i] == records[at[i]].repo by {
        assert(at[i] == order[i] as int);
    }
    assert forall|i: int, j: int| 0 <= i < j < at.len() implies #[trigger] at[i] != #[trigger] at[j] by {
        assert(at[i] == order[i] as int && at[j] == order[j] as int);
        assert(listed_before(stars, order[i] as int, order[j] as int));
    }
    assert forall|b: int, j: int|
        0 <= b < records.len() && 0 <= j < at.len() && ((#[trigger] records[b]).repo.stargazers_count
            > records[at[j]].repo.stargazers_count || (records[b].repo.stargazers_count
            == records[at[j]].repo.stargazers_count && b < #[trigger] at[j])) implies exists|i: int|
        0 <= i < j && #[trigger] at[i] == b by {
        assert(order.contains(b as usize));
        let i = choose|i: int| 0 <= i < order.len() && order[i] == b as usize;
        assert(at[j] == order[j] as int);
        assert(stars[b] == records[b].repo.stargazers_count);
        assert(stars[at[j]] == records[at[j]].repo.stargazers_count);
        if i > j {
            assert(listed_before(stars, order[j] as int, order[i] as int));
        }
        assert(i < j);
        assert(at[i] == b);
    }
    at
}

/// An order that holds as many positions as there are holds every one.
proof fn lemma_every_position_is_listed(stars: Seq<u64>, order: Seq<usize>)
    requires
        star_order(stars, order),
    ensures
        order.no_duplicates(),
        forall|at: usize| at < stars.len() ==> order.contains(at),
{
    assert(order.no_duplicates());
    order.unique_seq_to_set();
    let ints = order.map_values(|x: usize| x as int);
    assert(ints.no_duplicates());
    ints.unique_seq_to_set();
    let all = vstd::set_lib::set_int_range(0, stars.len() as int);
    vstd::set_lib::lemma_int_range(0, stars.len() as int);
    assert(ints.to_set().subset_of(all)) by {
        assert forall|x: int| ints.to_set().contains(x) implies all.contains(x) by {
            let i = choose|i: int| 0 <= i < ints.len() && ints[i] == x;
            assert(ints[i] == order[i] as int);
        }
    }
    vstd::set_lib::lemma_subset_equality(ints.to_set(), all);
    assert forall|at: usize| at < stars.len() implies order.contains(at) by {
        assert(all.contains(at as int));
        assert(ints.contains(at as int));
        let i = choose|i: int| 0 <= i < ints.len() && ints[i] == at as int;
        assert(order[i] == at);
    }
}

/// Two orders of the same positions agree from `n` on where they agree before.
proof fn lemma_orders_agree(stars: Seq<u64>, x: Seq<usize>, y: Seq<usize>, n: int)
    requires
        star_order(stars, x),
        star_order(stars, y),
        forall|at: usize| at < stars.len() ==> x.contains(at),
        forall|at: usize| at < stars.len() ==> y.contains(at),
        0 <= n <= x.len(),
        forall|i: int| 0 <= i < n ==> #[trigger] x[i] == y[i],
    ensures
        forall|i: int| 0 <= i < x.len() ==> #[trigger] x[i] == y[i],
    decreases x.len() - n,
{
    if n < x.len() {
        assert(y.contains(x[n]));
        assert(x.contains(y[n]));
        let j = choose|j: int| 0 <= j < y.len() && y[j] == x[n];
        let i = choose|i: int| 0 <= i < x.len() && x[i] == y[n];
        if j < n {
            assert(x[j] == y[j]);
            assert(listed_before(stars, x[j] as int, x[n] as int));
        }
        if i < n {
            assert(x[i] == y[i]);
            assert(listed_before(stars, y[i] as int, y[n] as int));
        }
        assert(x[n] == y[n]) by {
            if j > n && i > n {
                assert(listed_before(stars, y[n] as int, y[j] as int));
                assert(listed_before(stars, x[n] as int, x[i] as int));
            }
        }
        lemma_orders_agree(stars, x, y, n + 1);
    }
}

} // verus!
