//! The per-item worker pick of one dispatched batch.
//!
//! With no load signal the pick is a rotation over the workers that have a free
//! slot. With one, workers fill least-loaded first up to their capacity.

use vstd::prelude::*;

verus! {

/// Some worker exposes a load.
pub open spec fn any_known(loads: Seq<Option<u32>>) -> bool {
    exists|w: int| 0 <= w < loads.len() && (#[trigger] loads[w]) is Some
}

/// The sum of all capacities.
pub open spec fn total(caps: Seq<usize>) -> nat
    decreases caps.len(),
{
    if caps.len() == 0 {
        0
    } else {
        total(caps.drop_last()) + caps.last() as nat
    }
}

/// How many of the picks in `s` go to worker `w`.
pub open spec fn share(s: Seq<usize>, w: usize) -> nat
    decreases s.len(),
{
    if s.len() == 0 {
        0
    } else {
        share(s.drop_last(), w) + if s.last() == w {
            1nat
        } else {
            0nat
        }
    }
}

/// The flat rotation: item `i` goes to worker `(base + i) % n`.
pub open spec fn flat_rotation(base: int, n: int, k: nat) -> Seq<usize> {
    Seq::new(k, |i: int| ((base + i) % n) as usize)
}

/// The first worker with a free slot, from `at` on in rotation, looking at no more
/// than `steps` workers.
pub open spec fn next_free(free: Seq<usize>, at: int, steps: nat) -> int
    decreases steps,
{
    if steps == 0 || free[at % free.len() as int] > 0 {
        at % free.len() as int
    } else {
        next_free(free, at + 1, (steps - 1) as nat)
    }
}

/// The rotation over free slots: each pick is the next worker with a free slot,
/// which loses that slot.
pub open spec fn slot_rotation(free: Seq<usize>, at: int, k: nat) -> Seq<usize>
    decreases k,
{
    if k == 0 {
        seq![]
    } else {
        let w = next_free(free, at, free.len());
        seq![w as usize] + slot_rotation(
            free.update(w, (free[w] - 1) as usize),
            w + 1,
            (k - 1) as nat,
        )
    }
}

/// The load by which worker `w` is ordered; an unknown load counts as the greatest.
pub open spec fn load_rank(loads: Seq<Option<u32>>, w: int) -> int {
    match loads[w] {
        Some(l) => l as int,
        None => u32::MAX as int,
    }
}

/// The distance of worker `w` from the rotation's start.
pub open spec fn rotated(n: int, base: int, w: int) -> int {
    (w + n - base % n) % n
}

/// Worker `a` is filled before worker `b`: it has the lesser load, or the same load
/// and comes first in rotation.
pub open spec fn before(loads: Seq<Option<u32>>, base: int, a: int, b: int) -> bool {
    ||| load_rank(loads, a) < load_rank(loads, b)
    ||| (load_rank(loads, a) == load_rank(loads, b) && rotated(loads.len() as int, base, a)
        < rotated(loads.len() as int, base, b))
}

/// `order` lists every worker once, in the order in which they are filled.
pub open spec fn is_fill_order(order: Seq<usize>, loads: Seq<Option<u32>>, base: int) -> bool {
    &&& order.len() == loads.len()
    &&& forall|i: int| 0 <= i < order.len() ==> (#[trigger] order[i]) < loads.len()
    &&& forall|i: int, j: int|
        0 <= i < j < order.len() ==> before(loads, base, #[trigger] order[i] as int, #[trigger] order[j] as int)
}

/// The picks made by filling the workers in `order` up to their capacity.
pub open spec fn fill(order: Seq<usize>, caps: Seq<usize>, k: nat) -> Seq<usize>
    decreases order.len(),
{
    if order.len() == 0 {
        seq![]
    } else {
        let w = order[0];
        let take = if (caps[w as int] as nat) < k {
            caps[w as int] as nat
        } else {
            k
        };
        Seq::new(take, |i: int| w) + fill(order.skip(1), caps, (k - take) as nat)
    }
}

/// The picks of a batch that is larger than the capacity: what `fill` leaves over
/// goes round `order`.
pub open spec fn fill_all(order: Seq<usize>, caps: Seq<usize>, k: nat) -> Seq<usize> {
    let filled = fill(order, caps, k);
    Seq::new(
        k,
        |i: int|
            if i < filled.len() {
                filled[i]
            } else {
                order[i % order.len() as int]
            },
    )
}

/// The picks for a batch of `k` items.
pub open spec fn is_assignment(
    assign: Seq<usize>,
    loads: Seq<Option<u32>>,
    caps: Seq<usize>,
    base: int,
    k: nat,
    load_aware: bool,
) -> bool {
    if load_aware && any_known(loads) {
        exists|order: Seq<usize>| #[trigger]
            is_fill_order(order, loads, base) && assign == fill_all(order, caps, k)
    } else if k > total(caps) {
        assign == flat_rotation(base, loads.len() as int, k)
    } else {
        assign == slot_rotation(caps, base, k)
    }
}

fn knows_load(loads: &[Option<u32>]) -> (r: bool)
    ensures
        r == any_known(loads@),
{
    let mut i: usize = 0;
    while i < loads.len()
        invariant
            i <= loads@.len(),
            forall|w: int| 0 <= w < i ==> (#[trigger] loads@[w]) is None,
        decreases loads@.len() - i,
    {
        if loads[i].is_some() {
            return true;
        }
        i = i + 1;
    }
    false
}

/// The sum of all capacities, or the greatest `usize` where that is less.
fn capacity(caps: &[usize]) -> (r: usize)
    ensures
        r == total(caps@) || (r == usize::MAX && total(caps@) > usize::MAX),
{
    let mut sum: usize = 0;
    let mut over: bool = false;
    let mut i: usize = 0;
    while i < caps.len()
        invariant
            i <= caps@.len(),
            !over ==> sum == total(caps@.take(i as int)),
            over ==> sum == usize::MAX && total(caps@.take(i as int)) > usize::MAX,
        decreases caps@.len() - i,
    {
        assert(caps@.take(i + 1).drop_last() == caps@.take(i as int));
        if !over {
            match sum.checked_add(caps[i]) {
                Some(s) => {
                    sum = s;
                },
                None => {
                    over = true;
                    sum = usize::MAX;
                },
            }
        }
        i = i + 1;
    }
    assert(caps@.take(caps@.len() as int) == caps@);
    sum
}

proof fn lemma_total_update(caps: Seq<usize>, w: int)
    requires
        0 <= w < caps.len(),
        caps[w] > 0,
    ensures
        total(caps.update(w, (caps[w] - 1) as usize)) == total(caps) - 1,
    decreases caps.len(),
{
    let upd = caps.update(w, (caps[w] - 1) as usize);
    if w == caps.len() - 1 {
        assert(upd.drop_last() == caps.drop_last());
    } else {
        assert(upd.drop_last() == caps.drop_last().update(w, (caps.drop_last()[w] - 1) as usize));
        lemma_total_update(caps.drop_last(), w);
    }
}

proof fn lemma_some_free(free: Seq<usize>)
    requires
        total(free) > 0,
    ensures
        exists|w: int| 0 <= w < free.len() && free[w] > 0,
    decreases free.len(),
{
    if free.last() == 0 {
        lemma_some_free(free.drop_last());
        let w = choose|w: int| 0 <= w < free.drop_last().len() && free.drop_last()[w] > 0;
        assert(free[w] > 0);
    } else {
        assert(free[free.len() - 1] > 0);
    }
}

/// Looking at every worker once finds one with a free slot, if there is one.
proof fn lemma_next_free_finds(free: Seq<usize>, at: int, steps: nat, target: int)
    requires
        0 <= at,
        0 < free.len(),
        at <= target < at + steps,
        free[target % free.len() as int] > 0,
    ensures
        0 <= next_free(free, at, steps) < free.len(),
        free[next_free(free, at, steps)] > 0,
    decreases steps,
{
    vstd::arithmetic::div_mod::lemma_mod_bound(at, free.len() as int);
    if free[at % free.len() as int] > 0 {
    } else {
        lemma_next_free_finds(free, at + 1, (steps - 1) as nat, target);
    }
}

/// Of `n` consecutive integers one is congruent to any given residue.
proof fn lemma_residue_in_window(n: int, at: int, w: int) -> (t: int)
    requires
        0 <= w < n,
        0 <= at,
    ensures
        at <= t < at + n,
        t % n == w,
{
    let r = at % n;
    vstd::arithmetic::div_mod::lemma_fundamental_div_mod(at, n);
    vstd::arithmetic::div_mod::lemma_mod_bound(at, n);
    let t = if w >= r {
        at + (w - r)
    } else {
        at + (w - r + n)
    };
    let q = at / n;
    if w >= r {
        assert(t == q * n + w) by (nonlinear_arith)
            requires
                t == at + (w - r),
                at == n * q + r,
        ;
        vstd::arithmetic::div_mod::lemma_fundamental_div_mod_converse(t, n, q, w);
    } else {
        assert(t == (q + 1) * n + w) by (nonlinear_arith)
            requires
                t == at + (w - r + n),
                at == n * q + r,
        ;
        vstd::arithmetic::div_mod::lemma_fundamental_div_mod_converse(t, n, q + 1, w);
    }
    t
}

/// While slots are left, the next worker in rotation has one.
proof fn lemma_next_free(free: Seq<usize>, at: int)
    requires
        0 <= at,
        total(free) > 0,
    ensures
        0 <= next_free(free, at, free.len()) < free.len(),
        free[next_free(free, at, free.len())] > 0,
{
    lemma_some_free(free);
    let w = choose|w: int| 0 <= w < free.len() && free[w] > 0;
    let t = lemma_residue_in_window(free.len() as int, at, w);
    lemma_next_free_finds(free, at, free.len(), t);
}

/// The pick looks at a start only up to its residue.
proof fn lemma_next_free_mod(free: Seq<usize>, at: int, steps: nat)
    requires
        0 < free.len(),
    ensures
        next_free(free, at, steps) == next_free(free, at % free.len() as int, steps),
    decreases steps,
{
    let n = free.len() as int;
    vstd::arithmetic::div_mod::lemma_mod_twice(at, n);
    if steps > 0 {
        lemma_next_free_mod(free, at + 1, (steps - 1) as nat);
        lemma_next_free_mod(free, at % n + 1, (steps - 1) as nat);
        vstd::arithmetic::div_mod::lemma_add_mod_noop(at, 1, n);
        vstd::arithmetic::div_mod::lemma_add_mod_noop(at % n, 1, n);
    }
}

proof fn lemma_slot_rotation_mod(free: Seq<usize>, at: int, k: nat)
    requires
        0 < free.len(),
    ensures
        slot_rotation(free, at, k) == slot_rotation(free, at % free.len() as int, k),
{
    lemma_next_free_mod(free, at, free.len());
}

fn pick_free(free: &Vec<usize>, at: usize) -> (w: usize)
    requires
        at < free@.len(),
        total(free@) > 0,
    ensures
        w == next_free(free@, at as int, free@.len()),
        w < free@.len(),
        free@[w as int] > 0,
{
    proof {
        lemma_next_free(free@, at as int);
    }
    let n: usize = free.len();
    let mut w: usize = at;
    let mut seen: usize = 0;
    assert((at as int) % (n as int) == at) by {
        vstd::arithmetic::div_mod::lemma_small_mod(at as nat, n as nat);
    }
    while seen < n && free[w] == 0
        invariant
            n == free@.len(),
            w < n,
            seen <= n,
            w == (at + seen) % n as int,
            next_free(free@, at as int, n as nat) == next_free(free@, at + seen, (n - seen) as nat),
        decreases n - seen,
    {
        proof {
            vstd::arithmetic::div_mod::lemma_add_mod_noop(at + seen, 1, n as int);
            vstd::arithmetic::div_mod::lemma_mod_twice(at + seen, n as int);
            vstd::arithmetic::div_mod::lemma_add_mod_noop(w as int, 1, n as int);
            if w + 1 < n {
                vstd::arithmetic::div_mod::lemma_small_mod((w + 1) as nat, n as nat);
            } else {
                vstd::arithmetic::div_mod::lemma_mod_self_0(n as int);
            }
        }
        w = if w + 1 == n {
            0
        } else {
            w + 1
        };
        seen = seen + 1;
    }
    w
}

fn rotate_slots(caps: &[usize], base: usize, n_items: usize) -> (assign: Vec<usize>)
    requires
        caps@.len() >= 1,
        n_items <= total(caps@),
    ensures
        assign@ == slot_rotation(caps@, base as int, n_items as nat),
{
    let n: usize = caps.len();
    let mut free: Vec<usize> = Vec::new();
    let mut j: usize = 0;
    while j < n
        invariant
            j <= n == caps@.len(),
            free@ == caps@.take(j as int),
        decreases n - j,
    {
        free.push(caps[j]);
        j = j + 1;
        assert(caps@.take(j as int) == caps@.take(j - 1).push(caps@[j - 1]));
    }
    assert(caps@.take(n as int) == caps@);
    let mut assign: Vec<usize> = Vec::new();
    let mut cursor: usize = base % n;
    proof {
        vstd::arithmetic::div_mod::lemma_mod_bound(base as int, n as int);
        lemma_slot_rotation_mod(caps@, base as int, n_items as nat);
    }
    assert(assign@ + slot_rotation(free@, cursor as int, n_items as nat) == slot_rotation(
        caps@,
        base as int,
        n_items as nat,
    ));
    while assign.len() < n_items
        invariant
            n == free@.len() >= 1,
            cursor < n,
            assign@.len() <= n_items,
            n_items - assign@.len() <= total(free@),
            assign@ + slot_rotation(free@, cursor as int, (n_items - assign@.len()) as nat)
                == slot_rotation(caps@, base as int, n_items as nat),
        decreases n_items - assign@.len(),
    {
        let ghost rest = (n_items - assign@.len()) as nat;
        let ghost before = assign@;
        let ghost slots = free@;
        let w: usize = pick_free(&free, cursor);
        proof {
            lemma_total_update(free@, w as int);
        }
        let left: usize = free[w] - 1;
        free.set(w, left);
        assign.push(w);
        proof {
            lemma_slot_rotation_mod(free@, w + 1, (rest - 1) as nat);
            if w + 1 < n {
                vstd::arithmetic::div_mod::lemma_small_mod((w + 1) as nat, n as nat);
            } else {
                vstd::arithmetic::div_mod::lemma_mod_self_0(n as int);
            }
            assert(slot_rotation(slots, cursor as int, rest) == seq![w] + slot_rotation(
                free@,
                w + 1,
                (rest - 1) as nat,
            ));
            assert(assign@ + slot_rotation(free@, w + 1, (rest - 1) as nat) == before + (seq![w]
                + slot_rotation(free@, w + 1, (rest - 1) as nat)));
        }
        cursor = if w + 1 == n {
            0
        } else {
            w + 1
        };
    }
    assert(slot_rotation(free@, cursor as int, 0) == Seq::<usize>::empty());
    assert(assign@ + Seq::<usize>::empty() == assign@);
    assign
}

fn rotate_flat(n: usize, base: usize, n_items: usize) -> (assign: Vec<usize>)
    requires
        n >= 1,
    ensures
        assign@ == flat_rotation(base as int, n as int, n_items as nat),
{
    let mut assign: Vec<usize> = Vec::new();
    let mut w: usize = base % n;
    while assign.len() < n_items
        invariant
            n >= 1,
            assign@.len() <= n_items,
            w < n,
            w == (base + assign@.len()) % n as int,
            assign@ == flat_rotation(base as int, n as int, assign@.len()),
        decreases n_items - assign@.len(),
    {
        proof {
            let at = base + assign@.len();
            vstd::arithmetic::div_mod::lemma_add_mod_noop(at, 1, n as int);
            vstd::arithmetic::div_mod::lemma_mod_twice(at, n as int);
            vstd::arithmetic::div_mod::lemma_add_mod_noop(w as int, 1, n as int);
            if w + 1 < n {
                vstd::arithmetic::div_mod::lemma_small_mod((w + 1) as nat, n as nat);
            } else {
                vstd::arithmetic::div_mod::lemma_mod_self_0(n as int);
            }
        }
        assign.push(w);
        w = if w + 1 == n {
            0
        } else {
            w + 1
        };
    }
    assign
}

fn rank_of(load: Option<u32>) -> (r: u32)
    ensures
        r == match load {
            Some(l) => l,
            None => u32::MAX,
        },
{
    match load {
        Some(l) => l,
        None => 4_294_967_295,
    }
}

fn rotated_from(n: usize, base: usize, w: usize) -> (r: usize)
    requires
        w < n,
    ensures
        r == rotated(n as int, base as int, w as int),
        r < n,
{
    let rot: usize = base % n;
    proof {
        vstd::arithmetic::div_mod::lemma_mod_bound(base as int, n as int);
    }
    if w >= rot {
        proof {
            vstd::arithmetic::div_mod::lemma_mod_add_multiples_vanish(w - rot, n as int);
            vstd::arithmetic::div_mod::lemma_small_mod((w - rot) as nat, n as nat);
        }
        w - rot
    } else {
        proof {
            vstd::arithmetic::div_mod::lemma_small_mod((w + n - rot) as nat, n as nat);
        }
        n - (rot - w)
    }
}

fn comes_before(loads: &[Option<u32>], base: usize, a: usize, b: usize) -> (r: bool)
    requires
        a < loads@.len(),
        b < loads@.len(),
    ensures
        r == before(loads@, base as int, a as int, b as int),
{
    let la: u32 = rank_of(loads[a]);
    let lb: u32 = rank_of(loads[b]);
    la < lb || (la == lb && rotated_from(loads.len(), base, a) < rotated_from(loads.len(), base, b))
}

/// Distinct workers stand at distinct distances from the rotation's start.
proof fn lemma_rotated_distinct(n: int, base: int, a: int, b: int)
    requires
        0 <= a < n,
        0 <= b < n,
        a != b,
    ensures
        rotated(n, base, a) != rotated(n, base, b),
{
    let rot = base % n;
    vstd::arithmetic::div_mod::lemma_mod_bound(base, n);
    lemma_rotated_value(n, base, a);
    lemma_rotated_value(n, base, b);
}

proof fn lemma_rotated_value(n: int, base: int, w: int)
    requires
        0 <= w < n,
    ensures
        rotated(n, base, w) == if w >= base % n {
            w - base % n
        } else {
            w + n - base % n
        },
{
    let rot = base % n;
    vstd::arithmetic::div_mod::lemma_mod_bound(base, n);
    if w >= rot {
        vstd::arithmetic::div_mod::lemma_mod_add_multiples_vanish(w - rot, n);
        vstd::arithmetic::div_mod::lemma_small_mod((w - rot) as nat, n as nat);
    } else {
        vstd::arithmetic::div_mod::lemma_small_mod((w + n - rot) as nat, n as nat);
    }
}

/// `order` is sorted, holds workers below `limit`, and each of them once.
spec fn sorted_below(order: Seq<usize>, loads: Seq<Option<u32>>, base: int, limit: int) -> bool {
    &&& order.len() == limit
    &&& forall|i: int| 0 <= i < order.len() ==> (#[trigger] order[i]) < limit
    &&& forall|i: int, j: int|
        0 <= i < j < order.len() ==> before(loads, base, #[trigger] order[i] as int, #[trigger] order[j] as int)
}

/// The place of worker `w` among the first `at` of a sorted order.
proof fn lemma_place(order: Seq<usize>, loads: Seq<Option<u32>>, base: int, w: int, at: int) -> (r: int)
    requires
        sorted_below(order, loads, base, w),
        0 <= w < loads.len() <= usize::MAX,
        0 <= base,
        0 <= at <= order.len(),
        forall|j: int|
            at <= j < order.len() ==> before(loads, base, w, #[trigger] order[j] as int),
    ensures
        0 <= r <= at,
        forall|j: int| r <= j < order.len() ==> before(loads, base, w, #[trigger] order[j] as int),
        forall|j: int| 0 <= j < r ==> before(loads, base, #[trigger] order[j] as int, w),
    decreases at,
{
    if at == 0 {
        0
    } else if before(loads, base, w, order[at - 1] as int) {
        lemma_place(order, loads, base, w, at - 1)
    } else {
        lemma_rotated_distinct(loads.len() as int, base, w, order[at - 1] as int);
        assert(before(loads, base, order[at - 1] as int, w));
        assert forall|j: int| 0 <= j < at implies before(loads, base, #[trigger] order[j] as int, w) by {
            if j < at - 1 {
                assert(before(loads, base, order[j] as int, order[at - 1] as int));
            }
        }
        at
    }
}

/// The first `n` workers can be sorted.
proof fn lemma_order_exists(loads: Seq<Option<u32>>, base: int, n: int) -> (order: Seq<usize>)
    requires
        0 <= n <= loads.len() <= usize::MAX,
        0 <= base,
    ensures
        sorted_below(order, loads, base, n),
    decreases n,
{
    if n == 0 {
        Seq::empty()
    } else {
        let w = n - 1;
        let prev = lemma_order_exists(loads, base, w);
        let at = lemma_place(prev, loads, base, w, prev.len() as int);
        let order = prev.insert(at, w as usize);
        assert forall|i: int, j: int| 0 <= i < j < order.len() implies before(
            loads,
            base,
            #[trigger] order[i] as int,
            #[trigger] order[j] as int,
        ) by {
            if i != at {
                assert(order[i] == prev[if i < at { i } else { i - 1 }]);
            }
            if j != at {
                assert(order[j] == prev[if j < at { j } else { j - 1 }]);
            }
        }
        assert forall|i: int| 0 <= i < order.len() implies (#[trigger] order[i]) < n by {
            if i != at {
                assert(order[i] == prev[if i < at { i } else { i - 1 }]);
            }
        }
        order
    }
}

/// Every batch has an assignment.
pub proof fn law_assignment_exists(
    loads: Seq<Option<u32>>,
    caps: Seq<usize>,
    base: int,
    k: nat,
    load_aware: bool,
)
    requires
        loads.len() <= usize::MAX,
        0 <= base,
    ensures
        exists|a: Seq<usize>| is_assignment(a, loads, caps, base, k, load_aware),
{
    if load_aware && any_known(loads) {
        let order = lemma_order_exists(loads, base, loads.len() as int);
        assert(is_fill_order(order, loads, base));
        assert(is_assignment(fill_all(order, caps, k), loads, caps, base, k, load_aware));
    } else if k > total(caps) {
        assert(is_assignment(
            flat_rotation(base, loads.len() as int, k),
            loads,
            caps,
            base,
            k,
            load_aware,
        ));
    } else {
        assert(is_assignment(slot_rotation(caps, base, k), loads, caps, base, k, load_aware));
    }
}

fn fill_order(loads: &[Option<u32>], base: usize) -> (order: Vec<usize>)
    ensures
        is_fill_order(order@, loads@, base as int),
{
    let n: usize = loads.len();
    let mut order: Vec<usize> = Vec::new();
    let mut w: usize = 0;
    while w < n
        invariant
            w <= n == loads@.len(),
            sorted_below(order@, loads@, base as int, w as int),
        decreases n - w,
    {
        let mut at: usize = order.len();
        while at > 0 && comes_before(loads, base, w, order[at - 1])
            invariant
                w < n == loads@.len(),
                at <= order@.len(),
                sorted_below(order@, loads@, base as int, w as int),
                forall|j: int|
                    at <= j < order@.len() ==> before(
                        loads@,
                        base as int,
                        w as int,
                        #[trigger] order@[j] as int,
                    ),
            decreases at,
        {
            at = at - 1;
        }
        let ghost prev = order@;
        proof {
            if at > 0 {
                lemma_rotated_distinct(n as int, base as int, w as int, prev[at - 1] as int);
            }
            assert forall|j: int| 0 <= j < at implies before(
                loads@,
                base as int,
                #[trigger] prev[j] as int,
                w as int,
            ) by {
                assert(before(loads@, base as int, prev[at - 1] as int, w as int));
                if j < at - 1 {
                    assert(before(loads@, base as int, prev[j] as int, prev[at - 1] as int));
                }
            }
        }
        order.insert(at, w);
        proof {
            assert(order@ == prev.insert(at as int, w));
            assert forall|i: int, j: int| 0 <= i < j < order@.len() implies before(
                loads@,
                base as int,
                #[trigger] order@[i] as int,
                #[trigger] order@[j] as int,
            ) by {
                let pi = if i < at { i } else { i - 1 };
                let pj = if j < at { j } else { j - 1 };
                if i != at {
                    assert(order@[i] == prev[pi]);
                }
                if j != at {
                    assert(order@[j] == prev[pj]);
                }
            }
            assert forall|i: int| 0 <= i < order@.len() implies (#[trigger] order@[i]) < w + 1 by {
                if i < at {
                    assert(order@[i] == prev[i]);
                } else if i > at {
                    assert(order@[i] == prev[i - 1]);
                }
            }
        }
        w = w + 1;
    }
    order
}

proof fn lemma_fill_len(order: Seq<usize>, caps: Seq<usize>, k: nat)
    ensures
        fill(order, caps, k).len() <= k,
    decreases order.len(),
{
    if order.len() > 0 {
        let w = order[0];
        let take = if (caps[w as int] as nat) < k {
            caps[w as int] as nat
        } else {
            k
        };
        lemma_fill_len(order.skip(1), caps, (k - take) as nat);
    }
}

fn fill_by_load(loads: &[Option<u32>], caps: &[usize], base: usize, n_items: usize) -> (assign: Vec<
    usize,
>)
    requires
        loads@.len() >= 1,
        caps@.len() == loads@.len(),
    ensures
        exists|order: Seq<usize>| #[trigger]
            is_fill_order(order, loads@, base as int) && assign@ == fill_all(
                order,
                caps@,
                n_items as nat,
            ),
{
    let order: Vec<usize> = fill_order(loads, base);
    let mut assign: Vec<usize> = Vec::new();
    let mut i: usize = 0;
    let ghost filled = fill(order@, caps@, n_items as nat);
    assert(order@.skip(0) == order@);
    assert(assign@ + filled == filled);
    while i < order.len()
        invariant
            i <= order@.len(),
            is_fill_order(order@, loads@, base as int),
            caps@.len() == loads@.len(),
            assign@.len() <= n_items,
            assign@ + fill(order@.skip(i as int), caps@, (n_items - assign@.len()) as nat)
                == filled,
        decreases order@.len() - i,
    {
        let w: usize = order[i];
        let need: usize = n_items - assign.len();
        let take: usize = if caps[w] < need {
            caps[w]
        } else {
            need
        };
        let ghost start = assign@;
        let mut t: usize = 0;
        while t < take
            invariant
                t <= take,
                start.len() + take <= n_items,
                assign@ == start + Seq::new(t as nat, |x: int| w),
            decreases take - t,
        {
            assign.push(w);
            t = t + 1;
            assert(start + Seq::new(t as nat, |x: int| w) == (start + Seq::new(
                (t - 1) as nat,
                |x: int| w,
            )).push(w));
        }
        proof {
            let rest = order@.skip(i as int);
            assert(rest[0] == w);
            assert(rest.skip(1) == order@.skip(i + 1));
            let tail = fill(rest.skip(1), caps@, (need - take) as nat);
            assert(fill(rest, caps@, need as nat) == Seq::new(take as nat, |x: int| w) + tail);
            assert(assign@ + tail == start + (Seq::new(take as nat, |x: int| w) + tail));
        }
        i = i + 1;
    }
    assert(fill(order@.skip(i as int), caps@, (n_items - assign@.len()) as nat) == Seq::<
        usize,
    >::empty());
    assert(assign@ == filled);
    assert(assign@ == fill_all(order@, caps@, n_items as nat).take(assign@.len() as int));
    while assign.len() < n_items
        invariant
            order@.len() == loads@.len() >= 1,
            filled == fill(order@, caps@, n_items as nat),
            filled.len() <= assign@.len() <= n_items,
            assign@ == fill_all(order@, caps@, n_items as nat).take(assign@.len() as int),
        decreases n_items - assign@.len(),
    {
        let ghost start = assign@;
        let at: usize = assign.len() % order.len();
        assign.push(order[at]);
        assert(assign@ == fill_all(order@, caps@, n_items as nat).take(assign@.len() as int));
    }
    assert(assign@ == fill_all(order@, caps@, n_items as nat));
    assign
}

/// The worker index of each item of one dispatched batch.
///
/// `loads[w]` and `caps[w]` are the cached load (lower is less loaded, `None` is
/// unknown) and the free slots of ready worker `w`; `base` rotates across rounds.
///
/// Where `load_aware` is off or no load is known, this is a rotation over the free
/// slots, and the flat rotation for a batch larger than the capacity. Otherwise
/// workers fill least-loaded first up to their capacity; equally loaded ones
/// rotate with `base`, and those of unknown load come last.
pub fn dispatch_assignment(
    loads: &[Option<u32>],
    caps: &[usize],
    base: usize,
    n_items: usize,
    load_aware: bool,
) -> (assign: Vec<usize>)
    requires
        loads@.len() >= 1,
        caps@.len() == loads@.len(),
    ensures
        is_assignment(assign@, loads@, caps@, base as int, n_items as nat, load_aware),
        assign@.len() == n_items,
        forall|i: int| 0 <= i < assign@.len() ==> (#[trigger] assign@[i]) < loads@.len(),
{
    let n: usize = loads.len();
    let assign: Vec<usize> = if load_aware && knows_load(loads) {
        fill_by_load(loads, caps, base, n_items)
    } else if n_items > capacity(caps) {
        rotate_flat(n, base, n_items)
    } else {
        rotate_slots(caps, base, n_items)
    };
    proof {
        law_assignment_is_total(
            assign@,
            loads@,
            caps@,
            base as int,
            n_items as nat,
            load_aware,
        );
    }
    assign
}

/// Every item of a batch is assigned to a worker of the fleet.
pub proof fn law_assignment_is_total(
    assign: Seq<usize>,
    loads: Seq<Option<u32>>,
    caps: Seq<usize>,
    base: int,
    k: nat,
    load_aware: bool,
)
    requires
        1 <= loads.len() <= usize::MAX,
        caps.len() == loads.len(),
        0 <= base,
        is_assignment(assign, loads, caps, base, k, load_aware),
    ensures
        assign.len() == k,
        forall|i: int| 0 <= i < assign.len() ==> (#[trigger] assign[i]) < loads.len(),
{
    if load_aware && any_known(loads) {
        let order = choose|order: Seq<usize>| #[trigger]
            is_fill_order(order, loads, base) && assign == fill_all(order, caps, k);
        lemma_fill_in_order(order, caps, k);
        let filled = fill(order, caps, k);
        assert forall|i: int| 0 <= i < assign.len() implies (#[trigger] assign[i]) < loads.len() by {
            if i < filled.len() {
                assert(order.contains(filled[i]));
            } else {
                vstd::arithmetic::div_mod::lemma_mod_bound(i, order.len() as int);
            }
        }
    } else if k > total(caps) {
        assert forall|i: int| 0 <= i < assign.len() implies (#[trigger] assign[i]) < loads.len() by {
            vstd::arithmetic::div_mod::lemma_mod_bound(base + i, loads.len() as int);
        }
    } else {
        lemma_slot_rotation_bounds(caps, base, k);
    }
}

proof fn lemma_fill_in_order(order: Seq<usize>, caps: Seq<usize>, k: nat)
    ensures
        forall|i: int|
            0 <= i < fill(order, caps, k).len() ==> order.contains(#[trigger] fill(order, caps, k)[i]),
    decreases order.len(),
{
    if order.len() > 0 {
        let w = order[0];
        let take = if (caps[w as int] as nat) < k {
            caps[w as int] as nat
        } else {
            k
        };
        let tail = fill(order.skip(1), caps, (k - take) as nat);
        lemma_fill_in_order(order.skip(1), caps, (k - take) as nat);
        assert forall|i: int| 0 <= i < fill(order, caps, k).len() implies order.contains(
            #[trigger] fill(order, caps, k)[i],
        ) by {
            if i < take {
                assert(order[0] == fill(order, caps, k)[i]);
            } else {
                assert(fill(order, caps, k)[i] == tail[i - take]);
                assert(order.skip(1).contains(tail[i - take]));
                let j = choose|j: int|
                    0 <= j < order.skip(1).len() && order.skip(1)[j] == tail[i - take];
                assert(order[j + 1] == tail[i - take]);
            }
        }
    }
}

proof fn lemma_slot_rotation_bounds(free: Seq<usize>, at: int, k: nat)
    requires
        0 <= at,
        free.len() <= usize::MAX,
        k <= total(free),
    ensures
        slot_rotation(free, at, k).len() == k,
        forall|i: int|
            0 <= i < k ==> (#[trigger] slot_rotation(free, at, k)[i]) < free.len(),
    decreases k,
{
    if k > 0 {
        lemma_next_free(free, at);
        let w = next_free(free, at, free.len());
        let left = free.update(w, (free[w] - 1) as usize);
        lemma_total_update(free, w);
        lemma_slot_rotation_bounds(left, w + 1, (k - 1) as nat);
        let tail = slot_rotation(left, w + 1, (k - 1) as nat);
        assert forall|i: int| 0 <= i < k implies (#[trigger] slot_rotation(free, at, k)[i])
            < free.len() by {
            if i > 0 {
                assert(slot_rotation(free, at, k)[i] == tail[i - 1]);
            }
        }
    }
}

proof fn lemma_share_concat(a: Seq<usize>, b: Seq<usize>, w: usize)
    ensures
        share(a + b, w) == share(a, w) + share(b, w),
    decreases b.len(),
{
    if b.len() == 0 {
        assert(a + b == a);
    } else {
        assert((a + b).drop_last() == a + b.drop_last());
        lemma_share_concat(a, b.drop_last(), w);
    }
}

proof fn lemma_share_constant(k: nat, v: usize, w: usize)
    ensures
        share(Seq::new(k, |i: int| v), w) == if v == w {
            k
        } else {
            0
        },
    decreases k,
{
    if k > 0 {
        assert(Seq::new(k, |i: int| v).drop_last() == Seq::new((k - 1) as nat, |i: int| v));
        lemma_share_constant((k - 1) as nat, v, w);
    } else {
        assert(Seq::new(k, |i: int| v) == Seq::<usize>::empty());
    }
}

proof fn lemma_slot_rotation_share(free: Seq<usize>, at: int, k: nat, w: int)
    requires
        0 <= at,
        free.len() <= usize::MAX,
        k <= total(free),
        0 <= w < free.len(),
    ensures
        share(slot_rotation(free, at, k), w as usize) <= free[w],
    decreases k,
{
    if k > 0 {
        lemma_next_free(free, at);
        let p = next_free(free, at, free.len());
        let left = free.update(p, (free[p] - 1) as usize);
        lemma_total_update(free, p);
        lemma_slot_rotation_share(left, p + 1, (k - 1) as nat, w);
        let tail = slot_rotation(left, p + 1, (k - 1) as nat);
        lemma_share_concat(seq![p as usize], tail, w as usize);
        reveal_with_fuel(share, 2);
        assert(seq![p as usize].drop_last() == Seq::<usize>::empty());
        assert(share(seq![p as usize], w as usize) == if p == w {
            1nat
        } else {
            0nat
        });
    }
}

/// What a fill order hands to worker `w` stays within its capacity.
proof fn lemma_fill_share(order: Seq<usize>, caps: Seq<usize>, k: nat, w: usize)
    requires
        forall|i: int, j: int| 0 <= i < j < order.len() ==> order[i] != order[j],
    ensures
        share(fill(order, caps, k), w) <= caps[w as int],
        !order.contains(w) ==> share(fill(order, caps, k), w) == 0,
    decreases order.len(),
{
    if order.len() > 0 {
        let p = order[0];
        let take = if (caps[p as int] as nat) < k {
            caps[p as int] as nat
        } else {
            k
        };
        let rest = order.skip(1);
        lemma_fill_share(rest, caps, (k - take) as nat, w);
        lemma_share_concat(
            Seq::new(take, |i: int| p),
            fill(rest, caps, (k - take) as nat),
            w,
        );
        lemma_share_constant(take, p, w);
        if rest.contains(w) {
            let j = choose|j: int| 0 <= j < rest.len() && rest[j] == w;
            assert(order[j + 1] == w);
            assert(p != w);
        }
    }
}

/// The capacities of the workers that `order` lists.
spec fn listed_total(order: Seq<usize>, caps: Seq<usize>) -> nat
    decreases order.len(),
{
    if order.len() == 0 {
        0
    } else {
        caps[order[0] as int] as nat + listed_total(order.skip(1), caps)
    }
}

proof fn lemma_fill_complete(order: Seq<usize>, caps: Seq<usize>, k: nat)
    requires
        k <= listed_total(order, caps),
    ensures
        fill(order, caps, k).len() == k,
    decreases order.len(),
{
    if order.len() > 0 {
        let p = order[0];
        let take = if (caps[p as int] as nat) < k {
            caps[p as int] as nat
        } else {
            k
        };
        lemma_fill_complete(order.skip(1), caps, (k - take) as nat);
    }
}

/// `caps` with the capacity of worker `w` set to zero.
proof fn lemma_listed_without(order: Seq<usize>, caps: Seq<usize>, w: int)
    requires
        0 <= w < caps.len(),
        forall|i: int|
            0 <= i < order.len() ==> (#[trigger] order[i]) != w && order[i] < caps.len(),
    ensures
        listed_total(order, caps) == listed_total(order, caps.update(w, 0)),
    decreases order.len(),
{
    if order.len() > 0 {
        assert(order[0] != w);
        assert forall|i: int| 0 <= i < order.skip(1).len() implies (#[trigger] order.skip(1)[i])
            != w && order.skip(1)[i] < caps.len() by {
            assert(order.skip(1)[i] == order[i + 1]);
        }
        lemma_listed_without(order.skip(1), caps, w);
    }
}

proof fn lemma_total_zeroed(caps: Seq<usize>, w: int)
    requires
        0 <= w < caps.len(),
    ensures
        total(caps.update(w, 0)) == total(caps) - caps[w],
    decreases caps.len(),
{
    let upd = caps.update(w, 0);
    if w == caps.len() - 1 {
        assert(upd.drop_last() == caps.drop_last());
    } else {
        assert(upd.drop_last() == caps.drop_last().update(w, 0));
        lemma_total_zeroed(caps.drop_last(), w);
    }
}

proof fn lemma_total_zero(caps: Seq<usize>)
    requires
        forall|i: int| 0 <= i < caps.len() ==> (#[trigger] caps[i]) == 0,
    ensures
        total(caps) == 0,
    decreases caps.len(),
{
    if caps.len() > 0 {
        lemma_total_zero(caps.drop_last());
    }
}

/// An order that lists every worker of positive capacity once adds up to the total.
proof fn lemma_listed_is_total(order: Seq<usize>, caps: Seq<usize>)
    requires
        forall|i: int| 0 <= i < order.len() ==> (#[trigger] order[i]) < caps.len(),
        forall|i: int, j: int| 0 <= i < j < order.len() ==> order[i] != order[j],
        forall|w: int|
            0 <= w < caps.len() && (#[trigger] caps[w]) > 0 ==> order.contains(w as usize),
        caps.len() <= usize::MAX,
    ensures
        listed_total(order, caps) == total(caps),
    decreases order.len(),
{
    if order.len() == 0 {
        assert forall|i: int| 0 <= i < caps.len() implies (#[trigger] caps[i]) == 0 by {
            if caps[i] > 0 {
                assert(order.contains(i as usize));
            }
        }
        lemma_total_zero(caps);
    } else {
        let p = order[0] as int;
        let rest = order.skip(1);
        let zeroed = caps.update(p, 0);
        assert forall|i: int| 0 <= i < rest.len() implies (#[trigger] rest[i]) != p && rest[i]
            < zeroed.len() by {
            assert(rest[i] == order[i + 1]);
        }
        lemma_listed_without(rest, caps, p);
        assert forall|w: int| 0 <= w < zeroed.len() && (#[trigger] zeroed[w]) > 0 implies rest.contains(
            w as usize,
        ) by {
            assert(caps[w] > 0);
            let j = choose|j: int| 0 <= j < order.len() && order[j] == w as usize;
            assert(order.contains(w as usize));
            assert(j != 0);
            assert(rest[j - 1] == w as usize);
        }
        lemma_listed_is_total(rest, zeroed);
        lemma_total_zeroed(caps, p);
    }
}

/// A list of `n` distinct numbers below `n` holds every one of them.
proof fn lemma_pigeonhole(order: Seq<usize>, n: nat, w: usize)
    requires
        order.len() == n,
        w < n <= usize::MAX,
        forall|i: int| 0 <= i < order.len() ==> (#[trigger] order[i]) < n,
        forall|i: int, j: int| 0 <= i < j < order.len() ==> order[i] != order[j],
    ensures
        order.contains(w),
{
    let have = order.to_set();
    let all = Set::new(|x: usize| x < n);
    let nums = Seq::new(n, |i: int| i as usize);
    assert(order.no_duplicates());
    order.unique_seq_to_set();
    assert(nums.no_duplicates());
    nums.unique_seq_to_set();
    assert(nums.to_set() =~= all) by {
        assert forall|x: usize| all.contains(x) implies nums.to_set().contains(x) by {
            assert(nums[x as int] == x);
        }
    }
    assert(have.subset_of(all)) by {
        assert forall|x: usize| have.contains(x) implies all.contains(x) by {
            let j = choose|j: int| 0 <= j < order.len() && order[j] == x;
            assert(order[j] < n);
        }
    }
    vstd::set_lib::lemma_subset_equality(have, all);
    assert(all.contains(w));
    assert(have.contains(w));
}

proof fn lemma_order_distinct(order: Seq<usize>, loads: Seq<Option<u32>>, base: int)
    requires
        is_fill_order(order, loads, base),
    ensures
        forall|i: int, j: int| 0 <= i < j < order.len() ==> order[i] != order[j],
{
    assert forall|i: int, j: int| 0 <= i < j < order.len() implies order[i] != order[j] by {
        assert(before(loads, base, order[i] as int, order[j] as int));
    }
}

/// A batch no larger than the fleet's free slots never gives a worker more items
/// than it has slots.
pub proof fn law_never_oversubscribed(
    assign: Seq<usize>,
    loads: Seq<Option<u32>>,
    caps: Seq<usize>,
    base: int,
    k: nat,
    load_aware: bool,
    w: int,
)
    requires
        1 <= loads.len() <= usize::MAX,
        caps.len() == loads.len(),
        0 <= base,
        k <= total(caps),
        0 <= w < loads.len(),
        is_assignment(assign, loads, caps, base, k, load_aware),
    ensures
        share(assign, w as usize) <= caps[w],
{
    if load_aware && any_known(loads) {
        let order = choose|order: Seq<usize>| #[trigger]
            is_fill_order(order, loads, base) && assign == fill_all(order, caps, k);
        lemma_order_distinct(order, loads, base);
        lemma_fill_share(order, caps, k, w as usize);
        assert forall|v: int| 0 <= v < caps.len() && (#[trigger] caps[v]) > 0 implies order.contains(
            v as usize,
        ) by {
            lemma_pigeonhole(order, loads.len(), v as usize);
        }
        lemma_listed_is_total(order, caps);
        lemma_fill_complete(order, caps, k);
        assert(fill_all(order, caps, k) == fill(order, caps, k));
    } else {
        lemma_slot_rotation_share(caps, base, k, w);
    }
}

/// There is one fill order only, so the load-aware pick is determined by its inputs.
pub proof fn law_fill_order_is_unique(
    a: Seq<usize>,
    b: Seq<usize>,
    loads: Seq<Option<u32>>,
    base: int,
)
    requires
        loads.len() <= usize::MAX,
        is_fill_order(a, loads, base),
        is_fill_order(b, loads, base),
    ensures
        a == b,
{
    lemma_order_distinct(a, loads, base);
    lemma_order_distinct(b, loads, base);
    lemma_orders_agree(a, b, loads, base, a.len());
    assert(a == b);
}

proof fn lemma_orders_agree(
    a: Seq<usize>,
    b: Seq<usize>,
    loads: Seq<Option<u32>>,
    base: int,
    upto: nat,
)
    requires
        upto <= loads.len() <= usize::MAX,
        is_fill_order(a, loads, base),
        is_fill_order(b, loads, base),
        forall|i: int, j: int| 0 <= i < j < a.len() ==> a[i] != a[j],
        forall|i: int, j: int| 0 <= i < j < b.len() ==> b[i] != b[j],
    ensures
        forall|i: int| 0 <= i < upto ==> a[i] == b[i],
    decreases upto,
{
    if upto > 0 {
        lemma_orders_agree(a, b, loads, base, (upto - 1) as nat);
        let i = upto - 1;
        if a[i] != b[i] {
            lemma_pigeonhole(b, loads.len(), a[i]);
            let j = choose|j: int| 0 <= j < b.len() && b[j] == a[i];
            if j < i {
                assert(a[j] == b[j]);
                assert(false);
            }
            assert(before(loads, base, b[i] as int, b[j] as int));
            lemma_pigeonhole(a, loads.len(), b[i]);
            let m = choose|m: int| 0 <= m < a.len() && a[m] == b[i];
            if m < i {
                assert(a[m] == b[m]);
                assert(false);
            }
            assert(before(loads, base, a[i] as int, a[m] as int));
        }
    }
}

/// With a load signal, a batch that fits on the idlest worker lands there whole.
pub proof fn law_small_batch_lands_on_the_idlest(
    assign: Seq<usize>,
    loads: Seq<Option<u32>>,
    caps: Seq<usize>,
    base: int,
    k: nat,
    idlest: usize,
)
    requires
        1 <= loads.len() <= usize::MAX,
        caps.len() == loads.len(),
        0 <= base,
        any_known(loads),
        is_assignment(assign, loads, caps, base, k, true),
        idlest < loads.len(),
        forall|w: int|
            0 <= w < loads.len() && w != idlest ==> #[trigger] before(loads, base, idlest as int, w),
        k <= caps[idlest as int],
    ensures
        assign == Seq::new(k, |i: int| idlest),
{
    let order = choose|order: Seq<usize>| #[trigger]
        is_fill_order(order, loads, base) && assign == fill_all(order, caps, k);
    lemma_order_distinct(order, loads, base);
    lemma_pigeonhole(order, loads.len(), idlest);
    let j = choose|j: int| 0 <= j < order.len() && order[j] == idlest;
    if j != 0 {
        assert(before(loads, base, order[0] as int, order[j] as int));
        assert(order[0] != idlest);
        assert(before(loads, base, idlest as int, order[0] as int));
    }
    assert(order[0] == idlest);
    lemma_fill_len(order.skip(1), caps, 0);
    assert(fill(order.skip(1), caps, 0) == Seq::<usize>::empty());
    assert(fill(order, caps, k) == Seq::new(k, |i: int| idlest));
}

/// How many steps of the rotation pass before worker `w` is reached from `at`.
spec fn steps_to(n: int, at: int, w: int) -> int {
    (w - at) % n
}

proof fn lemma_steps_to(n: int, at: int, w: int)
    requires
        0 <= w < n,
    ensures
        0 <= steps_to(n, at, w) < n,
        steps_to(n, at, w) == 0 <==> w == at % n,
        steps_to(n, at + 1, w) == if w == at % n {
            n - 1
        } else {
            steps_to(n, at, w) - 1
        },
{
    vstd::arithmetic::div_mod::lemma_fundamental_div_mod(at, n);
    vstd::arithmetic::div_mod::lemma_mod_bound(at, n);
    let q = at / n;
    let a = at % n;
    if w >= a {
        assert(w - at == (-q) * n + (w - a)) by (nonlinear_arith)
            requires
                at == n * q + a,
        ;
        vstd::arithmetic::div_mod::lemma_fundamental_div_mod_converse(w - at, n, -q, w - a);
    } else {
        assert(w - at == (-q - 1) * n + (w - a + n)) by (nonlinear_arith)
            requires
                at == n * q + a,
        ;
        vstd::arithmetic::div_mod::lemma_fundamental_div_mod_converse(
            w - at,
            n,
            -q - 1,
            w - a + n,
        );
    }
    if w > a {
        assert(w - (at + 1) == (-q) * n + (w - a - 1)) by (nonlinear_arith)
            requires
                at == n * q + a,
        ;
        vstd::arithmetic::div_mod::lemma_fundamental_div_mod_converse(
            w - (at + 1),
            n,
            -q,
            w - a - 1,
        );
    } else {
        assert(w - (at + 1) == (-q - 1) * n + (w - a - 1 + n)) by (nonlinear_arith)
            requires
                at == n * q + a,
        ;
        vstd::arithmetic::div_mod::lemma_fundamental_div_mod_converse(
            w - (at + 1),
            n,
            -q - 1,
            w - a - 1 + n,
        );
    }
}

/// Every visit that the next `k` steps of the flat rotation pay to a worker finds a
/// free slot there.
spec fn roomy(free: Seq<usize>, at: int, k: int) -> bool {
    forall|w: int|
        0 <= w < free.len() ==> steps_to(free.len() as int, at, w) + (#[trigger] free[w])
            * free.len() >= k
}

proof fn lemma_roomy_is_flat(free: Seq<usize>, at: int, k: nat)
    requires
        0 <= at,
        1 <= free.len() <= usize::MAX,
        roomy(free, at, k as int),
    ensures
        slot_rotation(free, at, k) == flat_rotation(at, free.len() as int, k),
    decreases k,
{
    let n = free.len() as int;
    if k > 0 {
        let w0 = at % n;
        vstd::arithmetic::div_mod::lemma_mod_bound(at, n);
        lemma_steps_to(n, at, w0);
        assert(steps_to(n, at, w0) + free[w0] * n >= k);
        assert(free[w0] > 0) by {
            if free[w0] == 0 {
                assert(free[w0] * n == 0) by (nonlinear_arith)
                    requires
                        free[w0] == 0,
                ;
            }
        }
        assert(next_free(free, at, free.len()) == w0);
        let left = free.update(w0, (free[w0] - 1) as usize);
        assert forall|w: int| 0 <= w < left.len() implies steps_to(n, at + 1, w) + (
        #[trigger] left[w]) * n >= k - 1 by {
            lemma_steps_to(n, at, w);
            assert(steps_to(n, at, w) + free[w] * n >= k);
            if w == w0 {
                assert((free[w0] - 1) * n == free[w0] * n - n) by (nonlinear_arith);
            }
        }
        lemma_roomy_is_flat(left, at + 1, (k - 1) as nat);
        lemma_slot_rotation_mod(left, at + 1, (k - 1) as nat);
        lemma_slot_rotation_mod(left, w0 + 1, (k - 1) as nat);
        vstd::arithmetic::div_mod::lemma_add_mod_noop(at, 1, n);
        vstd::arithmetic::div_mod::lemma_add_mod_noop(w0, 1, n);
        vstd::arithmetic::div_mod::lemma_mod_twice(at, n);
        let tail = slot_rotation(left, w0 + 1, (k - 1) as nat);
        assert(slot_rotation(free, at, k) == seq![w0 as usize] + tail);
        assert(flat_rotation(at, n, k) == seq![w0 as usize] + flat_rotation(
            at + 1,
            n,
            (k - 1) as nat,
        ));
    } else {
        assert(slot_rotation(free, at, k) == flat_rotation(at, n, k));
    }
}

/// On a fleet that exposes no load, or with the bias off, a batch that every
/// worker has room for an equal part of is dispatched by the exact flat rotation.
pub proof fn law_no_signal_is_flat_rotation(
    assign: Seq<usize>,
    loads: Seq<Option<u32>>,
    caps: Seq<usize>,
    base: int,
    k: nat,
    load_aware: bool,
)
    requires
        1 <= loads.len() <= usize::MAX,
        caps.len() == loads.len(),
        0 <= base,
        !load_aware || !any_known(loads),
        forall|w: int| 0 <= w < caps.len() ==> (#[trigger] caps[w]) * caps.len() >= k,
        is_assignment(assign, loads, caps, base, k, load_aware),
    ensures
        assign == flat_rotation(base, loads.len() as int, k),
{
    if k <= total(caps) {
        let n = caps.len() as int;
        assert forall|w: int| 0 <= w < caps.len() implies steps_to(n, base, w) + (#[trigger] caps[w])
            * n >= k by {
            lemma_steps_to(n, base, w);
        }
        lemma_roomy_is_flat(caps, base, k);
    }
}

/// The picks for a batch are determined by its inputs.
pub proof fn law_assignment_is_unique(
    a: Seq<usize>,
    b: Seq<usize>,
    loads: Seq<Option<u32>>,
    caps: Seq<usize>,
    base: int,
    k: nat,
    load_aware: bool,
)
    requires
        loads.len() <= usize::MAX,
        is_assignment(a, loads, caps, base, k, load_aware),
        is_assignment(b, loads, caps, base, k, load_aware),
    ensures
        a == b,
{
    if load_aware && any_known(loads) {
        let x = choose|order: Seq<usize>| #[trigger]
            is_fill_order(order, loads, base) && a == fill_all(order, caps, k);
        let y = choose|order: Seq<usize>| #[trigger]
            is_fill_order(order, loads, base) && b == fill_all(order, caps, k);
        law_fill_order_is_unique(x, y, loads, base);
    }
}

proof fn lemma_fill_nothing(order: Seq<usize>, caps: Seq<usize>)
    ensures
        fill(order, caps, 0).len() == 0,
{
    lemma_fill_len(order, caps, 0);
}

/// A worker is given an item only once those before it in the order are full.
proof fn lemma_fill_front(order: Seq<usize>, caps: Seq<usize>, k: nat, i: int, j: int)
    requires
        0 <= i < j < order.len(),
        forall|x: int, y: int| 0 <= x < y < order.len() ==> order[x] != order[y],
        share(fill(order, caps, k), order[j]) > 0,
    ensures
        share(fill(order, caps, k), order[i]) == caps[order[i] as int],
    decreases order.len(),
{
    let w = order[0];
    let take = if (caps[w as int] as nat) < k {
        caps[w as int] as nat
    } else {
        k
    };
    let rest = order.skip(1);
    let head = Seq::new(take, |n: int| w);
    let tail = fill(rest, caps, (k - take) as nat);
    assert forall|x: int, y: int| 0 <= x < y < rest.len() implies rest[x] != rest[y] by {
        assert(order[x + 1] != order[y + 1]);
    }
    lemma_share_concat(head, tail, order[j]);
    lemma_share_concat(head, tail, order[i]);
    lemma_share_constant(take, w, order[j]);
    lemma_share_constant(take, w, order[i]);
    assert(order[0] != order[j]);
    assert(rest[j - 1] == order[j]);
    if i == 0 {
        if take == k {
            lemma_fill_nothing(rest, caps);
            assert(tail =~= Seq::<usize>::empty());
        }
        assert(!rest.contains(w)) by {
            if rest.contains(w) {
                let x = choose|x: int| 0 <= x < rest.len() && rest[x] == w;
                assert(order[0] != order[x + 1]);
            }
        }
        lemma_fill_share(rest, caps, (k - take) as nat, w);
    } else {
        assert(order[0] != order[i]);
        assert(rest[i - 1] == order[i]);
        lemma_fill_front(rest, caps, (k - take) as nat, i - 1, j - 1);
    }
}

/// With a load signal, the less loaded worker comes first: a worker is given an item only
/// once every worker of a lesser known load has all of its slots taken, and a worker of
/// unknown load only after those of known load.
pub proof fn law_less_loaded_workers_fill_first(
    loads: &[Option<u32>],
    caps: &[usize],
    base: usize,
    n_items: usize,
    assign: Vec<usize>,
    a: int,
    b: int,
)
    requires
        loads@.len() >= 1,
        caps@.len() == loads@.len() <= usize::MAX,
        call_ensures(dispatch_assignment, (loads, caps, base, n_items, true), assign),
        n_items <= total(caps@),
        0 <= a < loads@.len(),
        0 <= b < loads@.len(),
        loads@[a] is Some,
        loads@[a]->0 < u32::MAX,
        loads@[b] matches Some(l) ==> loads@[a]->0 < l,
    ensures
        share(assign@, b as usize) > 0 ==> share(assign@, a as usize) == caps@[a],
{
    assert(any_known(loads@));
    let order = choose|order: Seq<usize>| #[trigger]
        is_fill_order(order, loads@, base as int) && assign@ == fill_all(
            order,
            caps@,
            n_items as nat,
        );
    lemma_order_distinct(order, loads@, base as int);
    assert forall|v: int| 0 <= v < caps@.len() && (#[trigger] caps@[v]) > 0 implies order.contains(
        v as usize,
    ) by {
        lemma_pigeonhole(order, loads@.len(), v as usize);
    }
    lemma_listed_is_total(order, caps@);
    lemma_fill_complete(order, caps@, n_items as nat);
    assert(fill_all(order, caps@, n_items as nat) =~= fill(order, caps@, n_items as nat));
    lemma_pigeonhole(order, loads@.len(), a as usize);
    lemma_pigeonhole(order, loads@.len(), b as usize);
    let i = choose|i: int| 0 <= i < order.len() && order[i] == a as usize;
    let j = choose|j: int| 0 <= j < order.len() && order[j] == b as usize;
    if share(assign@, b as usize) > 0 {
        if j < i {
            assert(before(loads@, base as int, order[j] as int, order[i] as int));
        }
        assert(i != j);
        lemma_fill_front(order, caps@, n_items as nat, i, j);
    }
}

/// Without a load signal, a batch that every worker has room for an equal part of goes
/// round the workers, one item after another from the base on.
pub proof fn law_without_loads_items_go_round(
    loads: &[Option<u32>],
    caps: &[usize],
    base: usize,
    n_items: usize,
    load_aware: bool,
    assign: Vec<usize>,
    i: int,
)
    requires
        loads@.len() >= 1,
        caps@.len() == loads@.len() <= usize::MAX,
        call_ensures(dispatch_assignment, (loads, caps, base, n_items, load_aware), assign),
        load_aware ==> forall|w: int| 0 <= w < loads@.len() ==> (#[trigger] loads@[w]) is None,
        forall|w: int| 0 <= w < caps@.len() ==> (#[trigger] caps@[w]) * caps@.len() >= n_items,
        0 <= i < n_items,
    ensures
        assign@.len() == n_items,
        assign@[i] == (base + i) % loads@.len() as int,
{
    law_no_signal_is_flat_rotation(
        assign@,
        loads@,
        caps@,
        base as int,
        n_items as nat,
        load_aware,
    );
    assert(0 <= (base + i) % loads@.len() as int) by {
        vstd::arithmetic::div_mod::lemma_mod_bound(base + i, loads@.len() as int);
    }
}

/// Whatever is known of loads, a batch that fits in the free slots gives no worker more
/// than its slots, and places every item.
pub proof fn law_batches_fit_in_the_free_slots(
    loads: &[Option<u32>],
    caps: &[usize],
    base: usize,
    n_items: usize,
    load_aware: bool,
    assign: Vec<usize>,
    w: int,
)
    requires
        loads@.len() >= 1,
        caps@.len() == loads@.len() <= usize::MAX,
        call_ensures(dispatch_assignment, (loads, caps, base, n_items, load_aware), assign),
        n_items <= total(caps@),
        0 <= w < loads@.len(),
    ensures
        assign@.len() == n_items,
        share(assign@, w as usize) <= caps@[w],
{
    law_never_oversubscribed(
        assign@,
        loads@,
        caps@,
        base as int,
        n_items as nat,
        load_aware,
        w,
    );
}

} // verus!
