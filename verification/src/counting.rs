//! How many slots the index turns away.
//!
//! The three moduli are pairwise coprime, so over one full period of
//! `971 * 311 * 601` slot numbers every triple of residues occurs exactly
//! once. The slots that the index lets through are those whose three
//! residues are all unmarked, which makes their number the product of the
//! three lanes' unmarked counts.

use crate::laws::{lemma_rejected_iff_collision, recorded_all, residues_of};
use crate::residue::{bit_at, marks, MODULUS_0, MODULUS_1, MODULUS_2};
use crate::state::{lemma_member_persists, State};
use vstd::arithmetic::div_mod::{
    lemma_fundamental_div_mod, lemma_mod_bound, lemma_mod_mod, lemma_mod_multiples_vanish,
    lemma_small_mod,
};
use vstd::prelude::*;
use vstd::relations::injective_on;
use vstd::set_lib::{lemma_int_range, lemma_len_subset, lemma_map_size, set_int_range};

verus! {

/// The length of one period of the index: the product of the moduli.
pub const PERIOD: u64 = 181_490_581;

/// Whether `a` and `b` are positive and `b * kb - a * ka == 1`, which makes
/// them coprime.
pub open spec fn coprime_by(a: int, b: int, ka: int, kb: int) -> bool {
    a > 0 && b > 0 && b * kb - a * ka == 1
}

/// The numbers below `a * b` whose residue under `a` lies in `xs` and whose
/// residue under `b` lies in `ys`.
pub open spec fn with_residues_in(a: int, b: int, xs: Set<int>, ys: Set<int>) -> Set<int> {
    Set::new(|j: int| 0 <= j < a * b && xs.contains(j % a) && ys.contains(j % b))
}

/// The number below `a * b` that leaves `x` under `a` and `y` under `b`,
/// for `a` and `b` coprime by `kb`.
pub open spec fn number_with(a: int, b: int, kb: int, x: int, y: int) -> int {
    (x * (b * kb) + y * (1 - b * kb)) % (a * b)
}

/// Whether every element of `xs` is a residue under `m`.
pub open spec fn residues_under(xs: Set<int>, m: int) -> bool {
    forall|x: int| xs.contains(x) ==> 0 <= x < m
}

/// The residues under `m` that are unmarked in `lane`.
pub open spec fn free_residues(lane: Seq<u8>, m: int) -> Set<int> {
    Set::new(|r: int| 0 <= r < m && !bit_at(lane, r))
}

/// The residues under `m` that are marked in `lane`.
pub open spec fn marked_residues(lane: Seq<u8>, m: int) -> Set<int> {
    Set::new(|r: int| 0 <= r < m && bit_at(lane, r))
}

/// The slot numbers of one period that the index does not take for
/// redeemed.
pub open spec fn accepted_slots(s: State) -> Set<int> {
    Set::new(|j: int| 0 <= j < PERIOD && !s.member(j as u64))
}

/// A set of residues under `m` is finite and has at most `m` elements.
pub proof fn lemma_residues_finite(xs: Set<int>, m: int)
    requires
        m >= 0,
        residues_under(xs, m),
    ensures
        xs.finite(),
        xs.len() <= m,
{
    lemma_int_range(0, m);
    assert(xs.subset_of(set_int_range(0, m)));
    lemma_len_subset(xs, set_int_range(0, m));
}

/// Two numbers below `a * b` that agree under `a` and under `b` are equal.
pub proof fn lemma_residues_fix_number(a: int, b: int, ka: int, kb: int, j: int, k: int)
    requires
        coprime_by(a, b, ka, kb),
        0 <= j < a * b,
        0 <= k < a * b,
        j % a == k % a,
        j % b == k % b,
    ensures
        j == k,
{
    lemma_fundamental_div_mod(j, a);
    lemma_fundamental_div_mod(k, a);
    lemma_fundamental_div_mod(j, b);
    lemma_fundamental_div_mod(k, b);
    let d = j - k;
    let t = j / a - k / a;
    let t2 = j / b - k / b;
    assert(d == a * t) by (nonlinear_arith)
        requires
            j == a * (j / a) + j % a,
            k == a * (k / a) + k % a,
            j % a == k % a,
            t == j / a - k / a,
            d == j - k,
    ;
    assert(d == b * t2) by (nonlinear_arith)
        requires
            j == b * (j / b) + j % b,
            k == b * (k / b) + k % b,
            j % b == k % b,
            t2 == j / b - k / b,
            d == j - k,
    ;
    let w = t * kb - t2 * ka;
    assert(d == (a * b) * w) by (nonlinear_arith)
        requires
            d == a * t,
            d == b * t2,
            b * kb - a * ka == 1,
            w == t * kb - t2 * ka,
    ;
    assert(w == 0) by (nonlinear_arith)
        requires
            d == (a * b) * w,
            -(a * b) < d < a * b,
    ;
    assert(d == 0) by (nonlinear_arith)
        requires
            d == (a * b) * w,
            w == 0,
    ;
}

/// `number_with` lies below `a * b` and leaves the residues it was made
/// for.
pub proof fn lemma_number_with(a: int, b: int, ka: int, kb: int, x: int, y: int)
    requires
        coprime_by(a, b, ka, kb),
        0 <= x < a,
        0 <= y < b,
    ensures
        0 <= number_with(a, b, kb, x, y) < a * b,
        number_with(a, b, kb, x, y) % a == x,
        number_with(a, b, kb, x, y) % b == y,
{
    let whole = x * (b * kb) + y * (1 - b * kb);
    assert(a * b > 0 && a * b == b * a) by (nonlinear_arith)
        requires
            a > 0,
            b > 0,
    ;
    lemma_mod_bound(whole, a * b);
    lemma_mod_mod(whole, a, b);
    lemma_mod_mod(whole, b, a);
    let ca = ka * (x - y);
    assert(whole == a * ca + x) by (nonlinear_arith)
        requires
            whole == x * (b * kb) + y * (1 - b * kb),
            b * kb - a * ka == 1,
            ca == ka * (x - y),
    ;
    lemma_mod_multiples_vanish(ca, x, a);
    lemma_small_mod(x as nat, a as nat);
    let cb = kb * (x - y);
    assert(whole == b * cb + y) by (nonlinear_arith)
        requires
            whole == x * (b * kb) + y * (1 - b * kb),
            cb == kb * (x - y),
    ;
    lemma_mod_multiples_vanish(cb, y, b);
    lemma_small_mod(y as nat, b as nat);
}

/// For each residue `y` under `b`, as many numbers below `a * b` leave `y`
/// under `b` and a residue of `xs` under `a` as `xs` has elements.
pub proof fn lemma_count_one_residue(a: int, b: int, ka: int, kb: int, xs: Set<int>, y: int)
    requires
        coprime_by(a, b, ka, kb),
        residues_under(xs, a),
        0 <= y < b,
    ensures
        with_residues_in(a, b, xs, set![y]).finite(),
        with_residues_in(a, b, xs, set![y]).len() == xs.len(),
{
    lemma_residues_finite(xs, a);
    let fibre = with_residues_in(a, b, xs, set![y]);
    let place = |x: int| number_with(a, b, kb, x, y);
    assert forall|x1: int, x2: int|
        xs.contains(x1) && xs.contains(x2) && #[trigger] place(x1) == #[trigger] place(
            x2,
        ) implies x1 == x2 by {
        lemma_number_with(a, b, ka, kb, x1, y);
        lemma_number_with(a, b, ka, kb, x2, y);
    }
    assert(injective_on(place, xs));
    assert forall|j: int| xs.map(place).contains(j) == fibre.contains(j) by {
        if xs.map(place).contains(j) {
            let x = choose|x: int| xs.contains(x) && j == place(x);
            lemma_number_with(a, b, ka, kb, x, y);
        }
        if fibre.contains(j) {
            let x = j % a;
            lemma_number_with(a, b, ka, kb, x, y);
            lemma_residues_fix_number(a, b, ka, kb, j, place(x));
            assert(xs.contains(x) && j == place(x));
        }
    }
    assert(xs.map(place) =~= fibre);
    lemma_map_size(xs, fibre, place);
}

/// As many numbers below `a * b` leave a residue of `xs` under `a` and a
/// residue of `ys` under `b` as there are pairs of one from each.
pub proof fn lemma_count_with_residues(
    a: int,
    b: int,
    ka: int,
    kb: int,
    xs: Set<int>,
    ys: Set<int>,
)
    requires
        coprime_by(a, b, ka, kb),
        residues_under(xs, a),
        residues_under(ys, b),
    ensures
        with_residues_in(a, b, xs, ys).finite(),
        with_residues_in(a, b, xs, ys).len() == xs.len() * ys.len(),
    decreases ys.len(),
{
    lemma_residues_finite(xs, a);
    lemma_residues_finite(ys, b);
    let all = with_residues_in(a, b, xs, ys);
    if ys.len() == 0 {
        assert(ys =~= Set::<int>::empty());
        assert(all =~= Set::<int>::empty());
        assert(xs.len() * ys.len() == 0) by (nonlinear_arith)
            requires
                ys.len() == 0,
        ;
    } else {
        let y = ys.choose();
        let rest = ys.remove(y);
        let fibre = with_residues_in(a, b, xs, set![y]);
        let others = with_residues_in(a, b, xs, rest);
        lemma_count_one_residue(a, b, ka, kb, xs, y);
        lemma_count_with_residues(a, b, ka, kb, xs, rest);
        assert(others.disjoint(fibre));
        assert(others + fibre =~= all);
        vstd::set_lib::lemma_set_disjoint_lens(others, fibre);
        assert(xs.len() * rest.len() + xs.len() == xs.len() * ys.len()) by (nonlinear_arith)
            requires
                rest.len() + 1 == ys.len(),
        ;
    }
}

/// A lane's residues under `m` are either marked or unmarked.
pub proof fn lemma_free_and_marked(lane: Seq<u8>, m: int)
    requires
        m >= 0,
    ensures
        free_residues(lane, m).finite(),
        marked_residues(lane, m).finite(),
        free_residues(lane, m).len() + marked_residues(lane, m).len() == m,
{
    let free = free_residues(lane, m);
    let marked = marked_residues(lane, m);
    lemma_residues_finite(free, m);
    lemma_residues_finite(marked, m);
    lemma_int_range(0, m);
    assert(free.disjoint(marked));
    assert(free + marked =~= set_int_range(0, m));
    vstd::set_lib::lemma_set_disjoint_lens(free, marked);
}

/// Over one period of slot numbers, the slots that the index lets through
/// number as many as there are triples of unmarked residues, one from each
/// lane. With `r0`, `r1`, `r2` residues marked in the lanes, that is
/// `(971 - r0) * (311 - r1) * (601 - r2)` of the `971 * 311 * 601` slots of
/// the period, so the share turned away is
/// `1 - (1 - r0/971) * (1 - r1/311) * (1 - r2/601)`.
pub proof fn lemma_accepted_count(s: State)
    ensures
        PERIOD == MODULUS_0 * MODULUS_1 * MODULUS_2,
        accepted_slots(s).finite(),
        accepted_slots(s).len() == (MODULUS_0 - marked_residues(
            s.claim_residues0@,
            MODULUS_0 as int,
        ).len()) * (MODULUS_1 - marked_residues(s.claim_residues1@, MODULUS_1 as int).len()) * (
        MODULUS_2 - marked_residues(s.claim_residues2@, MODULUS_2 as int).len()),
{
    let free0 = free_residues(s.claim_residues0@, 971);
    let free1 = free_residues(s.claim_residues1@, 311);
    let free2 = free_residues(s.claim_residues2@, 601);
    lemma_free_and_marked(s.claim_residues0@, 971);
    lemma_free_and_marked(s.claim_residues1@, 311);
    lemma_free_and_marked(s.claim_residues2@, 601);
    let pairs = with_residues_in(971, 311, free0, free1);
    assert(coprime_by(971, 311, 90, 281));
    lemma_count_with_residues(971, 311, 90, 281, free0, free1);
    assert(residues_under(pairs, 301_981));
    let triples = with_residues_in(301_981, 601, pairs, free2);
    assert(coprime_by(301_981, 601, 28, 14_069));
    lemma_count_with_residues(301_981, 601, 28, 14_069, pairs, free2);
    assert forall|j: int| triples.contains(j) == accepted_slots(s).contains(j) by {
        if 0 <= j < PERIOD {
            lemma_mod_mod(j, 971, 311);
            lemma_mod_mod(j, 311, 971);
            lemma_mod_bound(j, 301_981);
            let index = j as u64;
            assert(index % MODULUS_0 == j % 971);
            assert(index % MODULUS_1 == j % 311);
            assert(index % MODULUS_2 == j % 601);
        }
    }
    assert(triples =~= accepted_slots(s));
}

/// After recording `slots` on a ledger with no mark, the slots of one
/// period that the index lets through number
/// `(971 - r0) * (311 - r1) * (601 - r2)`, where `r0`, `r1`, `r2` count the
/// distinct residues that the recorded slots leave under each modulus.
pub proof fn lemma_accepted_count_after_recording(start: State, slots: Seq<u64>, later: State)
    requires
        start.unmarked(),
        recorded_all(start, slots, later),
    ensures
        accepted_slots(later).finite(),
        accepted_slots(later).len() == (MODULUS_0 - residues_of(slots, MODULUS_0).len()) * (
        MODULUS_1 - residues_of(slots, MODULUS_1).len()) * (MODULUS_2 - residues_of(
            slots,
            MODULUS_2,
        ).len()),
{
    lemma_rejected_iff_collision(start, slots, later, 0);
    lemma_accepted_count(later);
    assert(marked_residues(later.claim_residues0@, 971) =~= marks(later.claim_residues0@));
    assert(marked_residues(later.claim_residues1@, 311) =~= marks(later.claim_residues1@));
    assert(marked_residues(later.claim_residues2@, 601) =~= marks(later.claim_residues2@));
}

/// Marking more never lets more through: the slots that a later state
/// accepts are among those that an earlier state accepted, so the number
/// turned away only grows.
pub proof fn lemma_rejections_grow(earlier: State, later: State)
    requires
        earlier.marks_kept_by(later),
    ensures
        accepted_slots(later).subset_of(accepted_slots(earlier)),
        accepted_slots(later).len() <= accepted_slots(earlier).len(),
{
    assert forall|j: int| accepted_slots(later).contains(j) implies accepted_slots(
        earlier,
    ).contains(j) by {
        if earlier.member(j as u64) {
            lemma_member_persists(earlier, later, j as u64);
        }
    }
    lemma_accepted_count(earlier);
    lemma_len_subset(accepted_slots(later), accepted_slots(earlier));
}

/// Once every residue of the smallest modulus is marked, the index turns
/// every slot away.
pub proof fn lemma_full_lane_rejects_all(s: State, index: u64)
    requires
        marked_residues(s.claim_residues1@, MODULUS_1 as int).len() == MODULUS_1,
    ensures
        s.member(index),
{
    let marked = marked_residues(s.claim_residues1@, 311);
    lemma_int_range(0, 311);
    assert(marked.subset_of(set_int_range(0, 311)));
    lemma_residues_finite(marked, 311);
    vstd::set_lib::lemma_subset_equality(marked, set_int_range(0, 311));
    let r = (index % MODULUS_1) as int;
    assert(set_int_range(0, 311).contains(r));
    assert(marked.contains(r));
}

} // verus!
