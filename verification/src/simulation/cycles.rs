use vstd::prelude::*;

use vstd::arithmetic::div_mod::{
    lemma_add_mod_noop, lemma_add_mod_noop_right, lemma_fundamental_div_mod, lemma_mod_mod,
    lemma_mod_multiples_vanish, lemma_mod_pos_bound, lemma_small_mod,
};

use crate::simulation::level_state::{cell_matches, equivalent_cycles_spec, rotation_matches};

verus! {

/// The cycle `short` gone round `reps` times, entered at position `k` of
/// `short`.
pub open spec fn repeated_rotation(short: Seq<Seq<bool>>, reps: int, k: int) -> Seq<Seq<bool>> {
    Seq::new((reps * short.len()) as nat, |m: int| short[(m + k) % (short.len() as int)])
}

/// Where the cycle entered at `k` has to be read from to give the expected
/// cycle from its start.
pub open spec fn entry_offset(n: int, k: int) -> int {
    if k == 0 {
        0
    } else {
        n - k
    }
}

proof fn lemma_rotation_cell(n: int, r: int, k: int, i: int, j: int)
    requires
        n > 0,
        r >= 1,
        0 <= k < n,
        0 <= i < r,
        0 <= j < n,
    ensures
        0 < r * n,
        0 <= (i * n + entry_offset(n, k) + j) % (r * n) < r * n,
        ((i * n + entry_offset(n, k) + j) % (r * n) + k) % n == j,
{
    let o = entry_offset(n, k);
    let a = i * n + o + j;
    assert(0 < r * n) by (nonlinear_arith)
        requires
            n > 0,
            r >= 1,
    ;
    assert(0 <= i * n) by (nonlinear_arith)
        requires
            n > 0,
            i >= 0,
    ;
    assert(r * n == n * r) by (nonlinear_arith);
    assert(i * n == n * i) by (nonlinear_arith);
    lemma_mod_pos_bound(a, r * n);
    let idx = a % (r * n);
    lemma_mod_mod(a, n, r);
    assert(idx % n == a % n);
    lemma_small_mod(k as nat, n as nat);
    lemma_add_mod_noop(idx, k, n);
    assert((idx + k) % n == (a % n + k) % n);
    lemma_mod_multiples_vanish(i, o + j, n);
    assert(a % n == (o + j) % n);
    lemma_add_mod_noop(o + j, k, n);
    lemma_mod_pos_bound(o + j, n);
    lemma_small_mod(((o + j) % n) as nat, n as nat);
    assert((a % n + k) % n == (o + j + k) % n);
    if k == 0 {
        lemma_small_mod(j as nat, n as nat);
    } else {
        assert(o + j + k == n * 1 + j);
        lemma_mod_multiples_vanish(1, j, n);
        lemma_small_mod(j as nat, n as nat);
    }
}

/// The checker accepts an observed cycle that is the expected cycle gone
/// round any whole number of times, whatever position of the expected cycle
/// it was entered at.
pub proof fn law_rotated_repetition_accepted(short: Seq<Seq<bool>>, reps: int, k: int)
    requires
        short.len() > 0,
        reps >= 1,
        0 <= k < short.len(),
    ensures
        equivalent_cycles_spec(repeated_rotation(short, reps, k), short),
{
    let n = short.len() as int;
    let long = repeated_rotation(short, reps, k);
    assert(0 < reps * n) by (nonlinear_arith)
        requires
            n > 0,
            reps >= 1,
    ;
    assert(long.len() == reps * n);
    assert(n <= reps * n) by (nonlinear_arith)
        requires
            n > 0,
            reps >= 1,
    ;
    assert(long.len() / short.len() == reps && long.len() % short.len() == 0) by {
        assert(reps * n == n * reps) by (nonlinear_arith);
        lemma_mod_multiples_vanish(reps, 0, n);
        lemma_small_mod(0, n as nat);
        vstd::arithmetic::div_mod::lemma_div_multiples_vanish(reps, n);
    }
    let o = entry_offset(n, k);
    assert forall|i: int, j: int| 0 <= i < long.len() / short.len() && 0 <= j < n implies #[trigger] cell_matches(
        long,
        short,
        o,
        i,
        j,
    ) by {
        lemma_rotation_cell(n, reps, k, i, j);
    }
    assert(rotation_matches(long, short, o));
}

/// The checker accepts an observed cycle that is exactly the expected one.
pub proof fn law_same_cycle_accepted(short: Seq<Seq<bool>>)
    requires
        short.len() > 0,
    ensures
        equivalent_cycles_spec(short, short),
{
    law_rotated_repetition_accepted(short, 1, 0);
    let n = short.len() as int;
    assert(repeated_rotation(short, 1, 0) =~= short) by {
        assert forall|m: int| 0 <= m < n implies repeated_rotation(short, 1, 0)[m] == short[m] by {
            lemma_small_mod(m as nat, n as nat);
        }
    }
}

proof fn lemma_accepted_cell(n: int, r: int, o: int, m: int)
    requires
        n > 0,
        r >= 1,
        0 <= o < n,
        0 <= m < r * n,
    ensures
        ({
            let l = r * n;
            let t = (m + l - o) % l;
            &&& 0 <= t / n < r
            &&& 0 <= t % n < n
            &&& ((t / n) * n + o + t % n) % l == m
            &&& t % n == (m + entry_offset(n, o)) % n
        }),
{
    let l = r * n;
    assert(0 < l && n <= l) by (nonlinear_arith)
        requires
            l == r * n,
            n > 0,
            r >= 1,
    ;
    let x = m + l - o;
    lemma_mod_pos_bound(x, l);
    let t = x % l;
    lemma_fundamental_div_mod(t, n);
    lemma_mod_pos_bound(t, n);
    let i = t / n;
    let j = t % n;
    assert(0 <= i < r) by (nonlinear_arith)
        requires
            t == n * i + j,
            0 <= j < n,
            0 <= t < r * n,
            n > 0,
    ;
    assert(i * n == n * i) by (nonlinear_arith);
    assert(i * n + o + j == t + o);
    lemma_small_mod(o as nat, l as nat);
    lemma_add_mod_noop(x, o, l);
    assert((t + o) % l == (x + o) % l);
    assert(x + o == l * 1 + m);
    lemma_mod_multiples_vanish(1, m, l);
    lemma_small_mod(m as nat, l as nat);
    assert(l == n * r) by (nonlinear_arith)
        requires
            l == r * n,
    ;
    lemma_mod_mod(x, n, r);
    assert(j == x % n);
    assert(n * r - n == n * (r - 1)) by (nonlinear_arith);
    assert(x == n * (r - 1) + (m + n - o));
    lemma_mod_multiples_vanish(r - 1, m + n - o, n);
    if o == 0 {
        assert(m + n - o == n * 1 + m);
        lemma_mod_multiples_vanish(1, m, n);
    }
}

/// The checker accepts nothing else: an observed cycle it accepts is the
/// expected cycle gone round a whole number of times, entered at some
/// position of the expected cycle.
pub proof fn law_accepted_cycles_are_rotations(long: Seq<Seq<bool>>, short: Seq<Seq<bool>>)
    requires
        equivalent_cycles_spec(long, short),
    ensures
        exists|k: int|
            0 <= k < short.len() && long == #[trigger] repeated_rotation(
                short,
                (long.len() / short.len()) as int,
                k,
            ),
{
    let n = short.len() as int;
    let l = long.len() as int;
    let r = l / n;
    lemma_fundamental_div_mod(l, n);
    assert(l == r * n) by (nonlinear_arith)
        requires
            l == n * r + l % n,
            l % n == 0,
    ;
    assert(r >= 1) by (nonlinear_arith)
        requires
            l == r * n,
            n > 0,
            l >= n,
    ;
    let o = choose|o: int| 0 <= o < short.len() && #[trigger] rotation_matches(long, short, o);
    let k = entry_offset(n, o);
    let rot = repeated_rotation(short, r, k);
    assert(long =~= rot) by {
        assert forall|m: int| 0 <= m < l implies long[m] == rot[m] by {
            lemma_accepted_cell(n, r, o, m);
            let t = (m + l - o) % l;
            assert(cell_matches(long, short, o, t / n, t % n));
        }
    }
    assert(0 <= k < short.len() && long == repeated_rotation(short, r, k));
}

/// The cycle `v` read from position `k` on, round to where it started.
pub open spec fn rotated(v: Seq<Seq<bool>>, k: int) -> Seq<Seq<bool>> {
    v.subrange(k, v.len() as int) + v.subrange(0, k)
}

proof fn lemma_rotated_index(v: Seq<Seq<bool>>, k: int, i: int)
    requires
        0 <= k < v.len(),
        0 <= i < v.len(),
    ensures
        rotated(v, k).len() == v.len(),
        rotated(v, k)[i] == v[(i + k) % (v.len() as int)],
{
    let l = v.len() as int;
    if i < l - k {
        lemma_small_mod((i + k) as nat, l as nat);
    } else {
        assert(i + k == l * 1 + (i + k - l));
        lemma_mod_multiples_vanish(1, i + k - l, l);
        lemma_small_mod((i + k - l) as nat, l as nat);
    }
}

/// Whether `long` is `short` gone round some whole number of times from
/// some entry point.
spec fn is_rotation_of(long: Seq<Seq<bool>>, short: Seq<Seq<bool>>) -> bool {
    exists|k: int|
        0 <= k < short.len() && long == #[trigger] repeated_rotation(
            short,
            (long.len() / short.len()) as int,
            k,
        )
}

proof fn lemma_accepted_iff(long: Seq<Seq<bool>>, short: Seq<Seq<bool>>)
    requires
        0 < short.len() <= long.len(),
        long.len() % short.len() == 0,
    ensures
        equivalent_cycles_spec(long, short) == is_rotation_of(long, short),
{
    if equivalent_cycles_spec(long, short) {
        law_accepted_cycles_are_rotations(long, short);
    }
    if is_rotation_of(long, short) {
        let n = short.len() as int;
        let l = long.len() as int;
        let r = l / n;
        lemma_fundamental_div_mod(l, n);
        assert(l == r * n) by (nonlinear_arith)
            requires
                l == n * r + l % n,
                l % n == 0,
        ;
        assert(r >= 1) by (nonlinear_arith)
            requires
                l == r * n,
                n > 0,
                l >= n,
        ;
        let k = choose|k: int| 0 <= k < short.len() && long == #[trigger] repeated_rotation(short, r, k);
        law_rotated_repetition_accepted(short, r, k);
    }
}

proof fn lemma_rotate_long(long: Seq<Seq<bool>>, short: Seq<Seq<bool>>, j: int)
    requires
        equivalent_cycles_spec(long, short),
        0 <= j < long.len(),
    ensures
        equivalent_cycles_spec(rotated(long, j), short),
{
    let n = short.len() as int;
    let l = long.len() as int;
    let r = l / n;
    lemma_fundamental_div_mod(l, n);
    assert(l == n * r) by (nonlinear_arith)
        requires
            l == n * r + l % n,
            l % n == 0,
    ;
    assert(r > 0) by (nonlinear_arith)
        requires
            l == n * r,
            n > 0,
            l > 0,
    ;
    lemma_accepted_iff(long, short);
    let k = choose|k: int| 0 <= k < short.len() && long == #[trigger] repeated_rotation(short, r, k);
    lemma_mod_pos_bound(k + j, n);
    let k2 = (k + j) % n;
    let rl = rotated(long, j);
    assert(rl =~= repeated_rotation(short, r, k2)) by {
        assert forall|i: int| 0 <= i < l implies rl[i] == repeated_rotation(short, r, k2)[i] by {
            lemma_rotated_index(long, j, i);
            let t = (i + j) % l;
            lemma_mod_pos_bound(i + j, l);
            lemma_mod_mod(i + j, n, r);
            lemma_add_mod_noop(t, k, n);
            lemma_add_mod_noop(i + j, k, n);
            lemma_small_mod(k as nat, n as nat);
            lemma_add_mod_noop_right(i, k + j, n);
            assert((t + k) % n == (i + j + k) % n);
        }
    }
    assert(rl.len() == l);
    assert(is_rotation_of(rl, short));
    lemma_accepted_iff(rl, short);
}

proof fn lemma_rotated_back(v: Seq<Seq<bool>>, j: int)
    requires
        0 <= j < v.len(),
    ensures
        0 <= (v.len() - j) % (v.len() as int) < v.len(),
        rotated(rotated(v, j), (v.len() - j) % (v.len() as int)) == v,
{
    let l = v.len() as int;
    lemma_mod_pos_bound(l - j, l);
    let j2 = (l - j) % l;
    let rv = rotated(v, j);
    assert(rotated(rv, j2) =~= v) by {
        assert forall|i: int| 0 <= i < l implies rotated(rv, j2)[i] == v[i] by {
            lemma_rotated_index(v, j, i);
            lemma_rotated_index(rv, j2, i);
            let t = (i + j2) % l;
            lemma_mod_pos_bound(i + j2, l);
            lemma_rotated_index(v, j, t);
            lemma_add_mod_noop(i + j2, j, l);
            lemma_small_mod(j as nat, l as nat);
            lemma_add_mod_noop_right(i + j, l - j, l);
            assert(i + j + (l - j) == l * 1 + i);
            lemma_mod_multiples_vanish(1, i, l);
            lemma_small_mod(i as nat, l as nat);
            assert((t + j) % l == (i + j2 + j) % l);
        }
    }
}

proof fn lemma_rotate_short(long: Seq<Seq<bool>>, short: Seq<Seq<bool>>, m: int)
    requires
        equivalent_cycles_spec(long, short),
        0 <= m < short.len(),
    ensures
        equivalent_cycles_spec(long, rotated(short, m)),
{
    let n = short.len() as int;
    let l = long.len() as int;
    let r = l / n;
    lemma_accepted_iff(long, short);
    let k = choose|k: int| 0 <= k < short.len() && long == #[trigger] repeated_rotation(short, r, k);
    let rs = rotated(short, m);
    assert(rs.len() == n);
    lemma_mod_pos_bound(k - m + n, n);
    let k2 = (k - m + n) % n;
    assert(long =~= repeated_rotation(rs, r, k2)) by {
        assert forall|i: int| 0 <= i < l implies long[i] == repeated_rotation(rs, r, k2)[i] by {
            assert(0 <= i);
            lemma_mod_pos_bound(i + k2, n);
            let t = (i + k2) % n;
            lemma_rotated_index(short, m, t);
            lemma_add_mod_noop(i + k2, m, n);
            lemma_small_mod(m as nat, n as nat);
            lemma_add_mod_noop_right(i + m, k - m + n, n);
            assert(i + m + (k - m + n) == n * 1 + (i + k));
            lemma_mod_multiples_vanish(1, i + k, n);
            assert((t + m) % n == (i + k2 + m) % n);
        }
    }
    assert(is_rotation_of(long, rs));
    lemma_accepted_iff(long, rs);
}

/// Where the observed cycle or the expected cycle starts does not matter:
/// rotating either of them does not change whether the checker accepts the
/// observed one.
pub proof fn law_rotation_does_not_matter(
    long: Seq<Seq<bool>>,
    short: Seq<Seq<bool>>,
    k: int,
    m: int,
)
    requires
        0 <= k < long.len(),
        0 <= m < short.len(),
    ensures
        equivalent_cycles_spec(rotated(long, k), short) == equivalent_cycles_spec(long, short),
        equivalent_cycles_spec(long, rotated(short, m)) == equivalent_cycles_spec(long, short),
{
    lemma_rotated_back(long, k);
    lemma_rotated_back(short, m);
    lemma_rotated_index(long, k, 0);
    lemma_rotated_index(short, m, 0);
    if equivalent_cycles_spec(long, short) {
        lemma_rotate_long(long, short, k);
        lemma_rotate_short(long, short, m);
    }
    if equivalent_cycles_spec(rotated(long, k), short) {
        lemma_rotate_long(rotated(long, k), short, (long.len() - k) % (long.len() as int));
    }
    if equivalent_cycles_spec(long, rotated(short, m)) {
        lemma_rotate_short(long, rotated(short, m), (short.len() - m) % (short.len() as int));
    }
}

} // verus!
