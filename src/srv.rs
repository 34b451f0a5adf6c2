//! Ordering of DNS SRV records: ascending priority, and within one priority a
//! weighted random order.
use vstd::prelude::*;
use rand::Rng;
use vstd::multiset::Multiset;
use vstd::seq_lib::lemma_multiset_commutative;

verus! {

broadcast use vstd::seq_lib::group_to_multiset_ensures;

/// The fields of an SRV record that decide its place in the order; `target`
/// is the position of the record's target name in the caller's list.
#[derive(Debug, PartialEq, Eq, Structural, Clone, Copy)]
pub struct SrvRecord {
    pub priority: u16,
    pub weight: u16,
    pub port: u16,
    pub target: usize,
}

/// The sum of the weights of the first `k` records.
pub open spec fn weight_prefix(s: Seq<SrvRecord>, k: int) -> int
    decreases k,
{
    if k <= 0 || s.len() == 0 {
        0
    } else {
        weight_prefix(s, k - 1) + s[k - 1].weight
    }
}

pub open spec fn total_weight(s: Seq<SrvRecord>) -> int {
    weight_prefix(s, s.len() as int)
}

/// No record comes before one of lower priority.
pub open spec fn priorities_ascending(s: Seq<SrvRecord>) -> bool {
    forall|i: int, j: int| 0 <= i < j < s.len() ==> s[i].priority <= s[j].priority
}

/// `a` sorts no later than `b`: by priority, then by weight.
pub open spec fn key_le(a: SrvRecord, b: SrvRecord) -> bool {
    a.priority < b.priority || (a.priority == b.priority && a.weight <= b.weight)
}

/// Sorted by priority, and by weight within one priority.
pub open spec fn keys_ascending(s: Seq<SrvRecord>) -> bool {
    forall|i: int, j: int| 0 <= i < j < s.len() ==> key_le(s[i], s[j])
}

/// Record `k` is the first whose running weight sum reaches `target`.
pub open spec fn is_weighted_pick(s: Seq<SrvRecord>, target: int, k: int) -> bool {
    0 <= k < s.len() && weight_prefix(s, k + 1) >= target && forall|j: int|
        1 <= j <= k ==> #[trigger] weight_prefix(s, j) < target
}

proof fn lemma_weight_prefix_monotone(s: Seq<SrvRecord>, j: int, k: int)
    requires
        0 <= j <= k <= s.len(),
    ensures
        weight_prefix(s, j) <= weight_prefix(s, k),
    decreases k - j,
{
    if j < k {
        lemma_weight_prefix_monotone(s, j, k - 1);
    }
}

proof fn lemma_weight_prefix_bound(s: Seq<SrvRecord>, k: int)
    requires
        0 <= k <= s.len(),
    ensures
        0 <= weight_prefix(s, k) <= k * 65535,
    decreases k,
{
    if k > 0 {
        lemma_weight_prefix_bound(s, k - 1);
    }
}

/// Relies on `rand::Rng::gen_range` on `rand::thread_rng()`: a value in
/// `[0, max]`; the draw is random, so nothing more is promised.
#[verifier::external_body]
fn random_up_to(max: u64) -> (r: u64)
    requires
        max < u64::MAX,
    ensures
        r <= max,
{
    rand::thread_rng().gen_range(0, max + 1)
}

/// The sum of all weights of a group of records.
pub fn group_weight(group: &Vec<SrvRecord>) -> (r: u64)
    requires
        group@.len() <= u32::MAX,
    ensures
        r == total_weight(group@),
{
    let mut sum: u64 = 0;
    let mut i: usize = 0;
    while i < group.len()
        invariant
            group@.len() <= u32::MAX,
            i <= group@.len(),
            sum == weight_prefix(group@, i as int),
        decreases group@.len() - i,
    {
        proof {
            lemma_weight_prefix_bound(group@, i as int);
        }
        assert(i * 65535 <= u32::MAX * 65535) by (nonlinear_arith)
            requires
                i <= u32::MAX,
        ;
        sum = sum + group[i].weight as u64;
        i = i + 1;
    }
    sum
}

/// The record that a draw of `target` selects: the first whose running
/// weight sum reaches it.
pub fn pick_weighted(group: &Vec<SrvRecord>, target: u64) -> (r: usize)
    requires
        0 < group@.len() <= u32::MAX,
        target <= total_weight(group@),
    ensures
        is_weighted_pick(group@, target as int, r as int),
{
    let mut sum: u64 = 0;
    let mut i: usize = 0;
    while i < group.len()
        invariant
            group@.len() <= u32::MAX,
            target <= total_weight(group@),
            i <= group@.len(),
            sum == weight_prefix(group@, i as int),
            forall|j: int| 1 <= j <= i ==> #[trigger] weight_prefix(group@, j) < target,
        decreases group@.len() - i,
    {
        proof {
            lemma_weight_prefix_bound(group@, i as int);
        }
        assert(i * 65535 <= u32::MAX * 65535) by (nonlinear_arith)
            requires
                i <= u32::MAX,
        ;
        sum = sum + group[i].weight as u64;
        if target <= sum {
            return i;
        }
        i = i + 1;
    }
    // With every record passed, the running sum is the total, which reaches the target.
    assert(weight_prefix(group@, group@.len() as int) < target);
    0
}

/// The records in ascending order of priority, and of weight within one priority.
fn sort_by_priority(records: &Vec<SrvRecord>) -> (r: Vec<SrvRecord>)
    ensures
        r@.to_multiset() == records@.to_multiset(),
        keys_ascending(r@),
        priorities_ascending(r@),
{
    let mut rem = records.clone();
    let mut out: Vec<SrvRecord> = Vec::new();
    assert(rem@ =~= records@);
    while rem.len() > 0
        invariant
            out@.to_multiset().add(rem@.to_multiset()) == records@.to_multiset(),
            keys_ascending(out@),
            forall|i: int, j: int|
                0 <= i < out@.len() && 0 <= j < rem@.len() ==> key_le(out@[i], rem@[j]),
        decreases rem@.len(),
    {
        let mut m: usize = 0;
        let mut j: usize = 1;
        while j < rem.len()
            invariant
                0 < rem@.len(),
                m < rem@.len(),
                1 <= j <= rem@.len(),
                forall|k: int| 0 <= k < j ==> key_le(rem@[m as int], #[trigger] rem@[k]),
            decreases rem@.len() - j,
        {
            if rem[j].priority < rem[m].priority || (rem[j].priority == rem[m].priority
                && rem[j].weight < rem[m].weight) {
                m = j;
            }
            j = j + 1;
        }
        let ghost old_rem = rem@;
        let x = rem.remove(m);
        proof {
            old_rem.remove_ensures(m as int);
        }
        out.push(x);
        assert(out@.to_multiset().add(rem@.to_multiset()) =~= records@.to_multiset());
    }
    assert(rem@.to_multiset() =~= Multiset::empty());
    assert(out@.to_multiset() =~= records@.to_multiset());
    assert forall|i: int, j: int| 0 <= i < j < out@.len() implies out@[i].priority
        <= out@[j].priority by {
        assert(key_le(out@[i], out@[j]));
    }
    out
}

/// The record that a draw of `r` selects from `group`.
pub open spec fn pick_of(group: Seq<SrvRecord>, r: int) -> int {
    choose|k: int| is_weighted_pick(group, r, k)
}

/// The order in which records leave `group` for the given draws: each draw
/// selects among the records left (RFC 2782).
pub open spec fn weighted_order_by(group: Seq<SrvRecord>, draws: Seq<int>) -> Seq<SrvRecord>
    decreases group.len(),
{
    if group.len() == 0 || draws.len() == 0 {
        Seq::empty()
    } else {
        let k = pick_of(group, draws[0]);
        if 0 <= k < group.len() {
            seq![group[k]] + weighted_order_by(group.remove(k), draws.drop_first())
        } else {
            Seq::empty()
        }
    }
}

/// One draw per record, each no greater than the total weight of the records
/// left at that point.
pub open spec fn draws_valid(group: Seq<SrvRecord>, draws: Seq<int>) -> bool
    decreases group.len(),
{
    draws.len() == group.len() && (group.len() == 0 || (0 <= draws[0] <= total_weight(group) && {
        let k = pick_of(group, draws[0]);
        0 <= k < group.len() && draws_valid(group.remove(k), draws.drop_first())
    }))
}

/// The end of the run of records that share the priority of the first one,
/// searching from `k`.
pub open spec fn run_from(s: Seq<SrvRecord>, k: int) -> int
    decreases s.len() - k,
{
    if 0 < k < s.len() && s[k].priority == s[0].priority {
        run_from(s, k + 1)
    } else {
        k
    }
}

/// Each run of equal priority, in turn, in the order its draws select.
pub open spec fn grouped_order_by(s: Seq<SrvRecord>, draws: Seq<int>) -> Seq<SrvRecord>
    decreases s.len(),
{
    if s.len() == 0 {
        Seq::empty()
    } else {
        let n = run_from(s, 1);
        if 1 <= n <= s.len() {
            weighted_order_by(s.take(n), draws.take(n)) + grouped_order_by(s.skip(n), draws.skip(n))
        } else {
            Seq::empty()
        }
    }
}

/// The draws are valid for every run of equal priority.
pub open spec fn grouped_draws_valid(s: Seq<SrvRecord>, draws: Seq<int>) -> bool
    decreases s.len(),
{
    draws.len() == s.len() && (s.len() == 0 || {
        let n = run_from(s, 1);
        1 <= n <= s.len() && draws_valid(s.take(n), draws.take(n)) && grouped_draws_valid(
            s.skip(n),
            draws.skip(n),
        )
    })
}

proof fn lemma_pick_unique(group: Seq<SrvRecord>, r: int, k: int)
    requires
        is_weighted_pick(group, r, k),
    ensures
        pick_of(group, r) == k,
{
    let c = pick_of(group, r);
    assert(is_weighted_pick(group, r, c));
    if c < k {
        assert(weight_prefix(group, c + 1) < r);
    } else if k < c {
        assert(weight_prefix(group, k + 1) < r);
    }
}

proof fn lemma_run_from_bounds(s: Seq<SrvRecord>, k: int)
    requires
        1 <= k <= s.len(),
    ensures
        k <= run_from(s, k) <= s.len(),
    decreases s.len() - k,
{
    if k < s.len() && s[k].priority == s[0].priority {
        lemma_run_from_bounds(s, k + 1);
    }
}

/// Takes the records of `group` one at a time, each selected by a random draw
/// weighted over the records left.
fn weighted_drain(group: Vec<SrvRecord>) -> (r: Vec<SrvRecord>)
    requires
        group@.len() <= u32::MAX,
    ensures
        r@.to_multiset() == group@.to_multiset(),
        exists|draws: Seq<int>| draws_valid(group@, draws) && r@ == weighted_order_by(group@, draws),
    decreases group@.len(),
{
    let mut group = group;
    let ghost g = group@;
    if group.len() == 0 {
        let r: Vec<SrvRecord> = Vec::new();
        assert(draws_valid(g, Seq::<int>::empty()));
        assert(r@ =~= weighted_order_by(g, Seq::<int>::empty()));
        return r;
    }
    let total = group_weight(&group);
    proof {
        lemma_weight_prefix_bound(g, g.len() as int);
    }
    assert(g.len() * 65535 <= u32::MAX * 65535) by (nonlinear_arith)
        requires
            g.len() <= u32::MAX,
    ;
    let target = random_up_to(total);
    let k = pick_weighted(&group, target);
    let x = group.remove(k);
    let mut rest = weighted_drain(group);
    let ghost rest_view = rest@;
    let ghost d = choose|d: Seq<int>|
        draws_valid(g.remove(k as int), d) && rest_view == weighted_order_by(g.remove(k as int), d);
    let mut out: Vec<SrvRecord> = vec![x];
    out.append(&mut rest);
    proof {
        lemma_pick_unique(g, target as int, k as int);
        let draws = seq![target as int] + d;
        assert(draws[0] == target as int);
        assert(draws.drop_first() =~= d);
        assert(draws_valid(g, draws));
        assert(out@ =~= weighted_order_by(g, draws));
        g.to_multiset_ensures();
        lemma_multiset_commutative(seq![x], rest_view);
        assert(seq![x].to_multiset() =~= Multiset::empty().insert(x)) by {
            Seq::<SrvRecord>::empty().to_multiset_ensures();
            assert(seq![x] =~= Seq::<SrvRecord>::empty().push(x));
        }
        assert(out@.to_multiset() =~= g.to_multiset());
    }
    out
}

/// The records of `sorted` from position `i` on, run by run of equal priority.
fn order_runs(sorted: &Vec<SrvRecord>, i: usize) -> (r: Vec<SrvRecord>)
    requires
        i <= sorted@.len() <= u32::MAX,
        priorities_ascending(sorted@),
    ensures
        r@.to_multiset() == sorted@.skip(i as int).to_multiset(),
        priorities_ascending(r@),
        forall|a: int| 0 <= a < r@.len() && i < sorted@.len() ==> sorted@[i as int].priority <= #[trigger] r@[a].priority,
        exists|draws: Seq<int>|
            grouped_draws_valid(sorted@.skip(i as int), draws) && r@ == grouped_order_by(
                sorted@.skip(i as int),
                draws,
            ),
    decreases sorted@.len() - i,
{
    let n = sorted.len();
    let ghost s = sorted@.skip(i as int);
    if i == n {
        let r: Vec<SrvRecord> = Vec::new();
        assert(grouped_draws_valid(s, Seq::<int>::empty()));
        assert(r@ =~= grouped_order_by(s, Seq::<int>::empty()));
        assert(s.to_multiset() =~= Multiset::empty()) by {
            s.to_multiset_ensures();
        }
        return r;
    }
    let p = sorted[i].priority;
    let mut group: Vec<SrvRecord> = vec![sorted[i]];
    let mut j: usize = i + 1;
    assert(group@ =~= sorted@.subrange(i as int, j as int));
    while j < n && sorted[j].priority == p
        invariant
            n == sorted@.len(),
            i < j <= n,
            s == sorted@.skip(i as int),
            s[0].priority == p,
            group@ == sorted@.subrange(i as int, j as int),
            run_from(s, (j - i) as int) == run_from(s, 1),
            forall|k: int| 0 <= k < group@.len() ==> #[trigger] group@[k].priority == p,
        decreases n - j,
    {
        group.push(sorted[j]);
        j = j + 1;
        assert(group@ =~= sorted@.subrange(i as int, j as int));
    }
    let ghost m = (j - i) as int;
    assert(run_from(s, m) == m);
    assert(s.take(m) =~= group@);
    assert(s.skip(m) =~= sorted@.skip(j as int));
    let ghost group_view = group@;
    let mut run_out = weighted_drain(group);
    let ghost run_view = run_out@;
    let ghost d1 = choose|d: Seq<int>| draws_valid(group_view, d) && run_view == weighted_order_by(group_view, d);
    let mut rest = order_runs(sorted, j);
    let ghost rest_view = rest@;
    let ghost d2 = choose|d: Seq<int>|
        grouped_draws_valid(sorted@.skip(j as int), d) && rest_view == grouped_order_by(sorted@.skip(j as int), d);
    run_out.append(&mut rest);
    proof {
        let draws = d1 + d2;
        assert(d1.len() == group_view.len());
        assert(draws.take(m) =~= d1);
        assert(draws.skip(m) =~= d2);
        assert(grouped_draws_valid(s, draws));
        assert(run_out@ =~= grouped_order_by(s, draws));
        lemma_multiset_commutative(run_view, rest_view);
        lemma_multiset_commutative(group_view, sorted@.skip(j as int));
        assert(s =~= group_view + sorted@.skip(j as int));
        assert forall|a: int| 0 <= a < run_view.len() implies #[trigger] run_view[a].priority == p by {
            run_view.to_multiset_ensures();
            group_view.to_multiset_ensures();
            assert(run_view.to_multiset().count(run_view[a]) > 0);
            assert(group_view.contains(run_view[a]));
        }
        assert forall|a: int| 0 <= a < run_out@.len() implies p <= #[trigger] run_out@[a].priority by {
            if a >= run_view.len() {
                assert(run_out@[a] == rest_view[a - run_view.len()]);
                if j < n {
                    assert(sorted@[i as int].priority <= sorted@[j as int].priority);
                }
            } else {
                assert(run_out@[a] == run_view[a]);
            }
        }
        assert forall|a: int, b: int| 0 <= a < b < run_out@.len() implies run_out@[a].priority
            <= run_out@[b].priority by {
            if b >= run_view.len() {
                assert(run_out@[b] == rest_view[b - run_view.len()]);
                if a < run_view.len() {
                    assert(run_out@[a] == run_view[a]);
                    if j < n {
                        assert(sorted@[i as int].priority <= sorted@[j as int].priority);
                    }
                } else {
                    assert(run_out@[a] == rest_view[a - run_view.len()]);
                }
            } else {
                assert(run_out@[a] == run_view[a]);
                assert(run_out@[b] == run_view[b]);
            }
        }
    }
    run_out
}

/// The records in the order in which they are to be tried: groups of equal
/// priority from the lowest priority up, each group in a weighted random order
/// (RFC 2782) over its records sorted by weight. The output holds exactly the
/// input records.
pub fn order_srv_records(records: &Vec<SrvRecord>) -> (r: Vec<SrvRecord>)
    requires
        records@.len() <= u32::MAX,
    ensures
        r@.to_multiset() == records@.to_multiset(),
        priorities_ascending(r@),
        exists|sorted: Seq<SrvRecord>, draws: Seq<int>|
            sorted.to_multiset() == records@.to_multiset() && keys_ascending(sorted)
                && grouped_draws_valid(sorted, draws) && r@ == grouped_order_by(sorted, draws),
{
    let sorted = sort_by_priority(records);
    proof {
        records@.to_multiset_ensures();
        sorted@.to_multiset_ensures();
    }
    let r = order_runs(&sorted, 0);
    assert(sorted@.skip(0) =~= sorted@);
    r
}

} // verus!
