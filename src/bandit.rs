use vstd::prelude::*;
use crate::action::Action;

verus! {

/// Number of arms, ordered ALLOW, WARN, BLOCK.
pub const ARMS: usize = 3;

/// 1.0 in the units of the statistics: contexts and rewards are held in
/// millionths, so `A` and `b` are held in millionths squared.
pub const UNIT_SQ: i128 = 1_000_000_000_000;

/// The reward bound, in millionths.
pub const REWARD_ONE: i64 = 1_000_000;

/// `a + b`, clamped to the range of `i128`.
pub open spec fn sat_add(a: int, b: int) -> i128 {
    if a + b > i128::MAX {
        i128::MAX
    } else if a + b < i128::MIN {
        i128::MIN
    } else {
        (a + b) as i128
    }
}

fn sat_add_exec(a: i128, b: i128) -> (r: i128)
    ensures
        r == sat_add(a as int, b as int),
{
    if b > 0 && a > i128::MAX - b {
        i128::MAX
    } else if b < 0 && a < i128::MIN - b {
        i128::MIN
    } else {
        a + b
    }
}

fn mul_wide(x: i64, y: i64) -> (r: i128)
    ensures
        r == x as int * y as int,
{
    proof {
        let xi = x as int;
        let yi = y as int;
        assert(-0x8000_0000_0000_0000 <= xi <= 0x7fff_ffff_ffff_ffff);
        assert(-0x8000_0000_0000_0000 <= yi <= 0x7fff_ffff_ffff_ffff);
        assert(xi * yi <= 0x4000_0000_0000_0000_0000_0000_0000_0000) by (nonlinear_arith)
            requires
                -0x8000_0000_0000_0000 <= xi <= 0x7fff_ffff_ffff_ffff,
                -0x8000_0000_0000_0000 <= yi <= 0x7fff_ffff_ffff_ffff,
        ;
        assert(xi * yi >= -0x4000_0000_0000_0000_0000_0000_0000_0000) by (nonlinear_arith)
            requires
                -0x8000_0000_0000_0000 <= xi <= 0x7fff_ffff_ffff_ffff,
                -0x8000_0000_0000_0000 <= yi <= 0x7fff_ffff_ffff_ffff,
        ;
    }
    (x as i128) * (y as i128)
}

/// Sufficient statistics of one arm: the `d × d` matrix `A` (rows) and the
/// vector `b`.
pub struct ArmState {
    pub a: Vec<Vec<i128>>,
    pub b: Vec<i128>,
}

/// A square `d × d` matrix.
pub open spec fn is_square(m: Seq<Seq<i128>>, d: nat) -> bool {
    m.len() == d && forall|i: int| 0 <= i < d ==> (#[trigger] m[i]).len() == d
}

/// `m` equals its transpose.
pub open spec fn is_symmetric(m: Seq<Seq<i128>>) -> bool {
    forall|i: int, j: int| 0 <= i < m.len() && 0 <= j < m.len() ==> #[trigger] m[i][j] == #[trigger] m[j][i]
}

pub open spec fn arm_wf(s: ArmState, d: nat) -> bool {
    &&& is_square(s.a.deep_view(), d)
    &&& is_symmetric(s.a.deep_view())
    &&& s.b@.len() == d
}

/// Entry `(i, j)` of `A + x xᵀ`, saturating.
pub open spec fn rank_one(m: Seq<Seq<i128>>, x: Seq<i64>, i: int, j: int) -> i128 {
    sat_add(m[i][j] as int, x[i] as int * x[j] as int)
}

/// LinUCB statistics for the three arms, in fixed point. `A` starts as the
/// identity and `b` as zero; a reward applies `A += x xᵀ`, `b += r x` to the
/// chosen arm.
pub struct BanditState {
    pub dim: usize,
    pub arms: Vec<ArmState>,
    /// Rewards applied to each arm (saturating).
    pub arm_counts: Vec<u64>,
    /// Rewards applied in all (saturating).
    pub total_count: u64,
    /// Sum of the applied rewards, in millionths (saturating).
    pub total_reward: i64,
}

/// Reward counts of the bandit.
pub struct BanditStats {
    pub total_count: u64,
    /// Sum of the applied rewards, in millionths.
    pub total_reward: i64,
    pub arm_counts: Vec<u64>,
}

/// `a + b`, clamped to the range of `i64`.
pub open spec fn sat_add64(a: int, b: int) -> i64 {
    if a + b > i64::MAX {
        i64::MAX
    } else if a + b < i64::MIN {
        i64::MIN
    } else {
        (a + b) as i64
    }
}

fn sat_add64_exec(a: i64, b: i64) -> (r: i64)
    ensures
        r == sat_add64(a as int, b as int),
{
    if b > 0 && a > i64::MAX - b {
        i64::MAX
    } else if b < 0 && a < i64::MIN - b {
        i64::MIN
    } else {
        a + b
    }
}

/// Sum of the first `n` diagonal entries of `m`: its trace when `n` is its size.
pub open spec fn diag_sum(m: Seq<Seq<i128>>, n: nat) -> int
    decreases n,
{
    if n == 0 {
        0
    } else {
        diag_sum(m, (n - 1) as nat) + m[n - 1][n - 1]
    }
}

/// `x[0]² + … + x[n-1]²`.
pub open spec fn sum_sq(x: Seq<i64>, n: nat) -> int
    decreases n,
{
    if n == 0 {
        0
    } else {
        sum_sq(x, (n - 1) as nat) + x[n - 1] as int * x[n - 1] as int
    }
}

proof fn lemma_trace_rank_one(old_m: Seq<Seq<i128>>, new_m: Seq<Seq<i128>>, x: Seq<i64>, n: nat)
    requires
        forall|i: int| 0 <= i < n ==> #[trigger] new_m[i][i] == rank_one(old_m, x, i, i),
        forall|i: int| 0 <= i < n ==> #[trigger] old_m[i][i] + x[i] as int * x[i] as int <= i128::MAX,
    ensures
        diag_sum(new_m, n) == diag_sum(old_m, n) + sum_sq(x, n),
    decreases n,
{
    if n > 0 {
        let i = n - 1;
        lemma_trace_rank_one(old_m, new_m, x, (n - 1) as nat);
        assert(x[i] as int * x[i] as int >= 0) by (nonlinear_arith);
        assert(new_m[i][i] == rank_one(old_m, x, i, i));
        assert(old_m[i][i] + x[i] as int * x[i] as int <= i128::MAX);
    }
}

/// A context with a non-zero entry has a positive squared norm, so a
/// reward on it strictly raises the chosen arm's trace (where nothing
/// saturates).
pub proof fn lemma_sum_sq_positive(x: Seq<i64>, n: nat, j: int)
    requires
        0 <= j < n,
        x[j] != 0,
    ensures
        sum_sq(x, n) > 0,
    decreases n,
{
    lemma_sum_sq_nonneg(x, (n - 1) as nat);
    let i = n - 1;
    if j == i {
        assert(x[i] as int * x[i] as int > 0) by (nonlinear_arith)
            requires
                x[i] != 0,
        ;
    } else {
        lemma_sum_sq_positive(x, (n - 1) as nat, j);
        assert(x[i] as int * x[i] as int >= 0) by (nonlinear_arith);
    }
}

proof fn lemma_sum_sq_nonneg(x: Seq<i64>, n: nat)
    ensures
        sum_sq(x, n) >= 0,
    decreases n,
{
    if n > 0 {
        lemma_sum_sq_nonneg(x, (n - 1) as nat);
        assert(x[n - 1] as int * x[n - 1] as int >= 0) by (nonlinear_arith);
    }
}

/// What applying `reward` for context `x` to `arm` does: `A += x xᵀ` and
/// `b += r x` on that arm (saturating); where nothing saturates, `A` stays
/// positive definite and its trace grows by `|x|²`; every `A` stays
/// symmetric; the other arms are unchanged; the counts and the reward sum
/// grow.
pub open spec fn reward_effect(old: BanditState, new: BanditState, arm: Action, x: Seq<i64>, reward: i64) -> bool {
    &&& new.wf()
    &&& new.dim == old.dim
    &&& forall|k: int| 0 <= k < ARMS ==> is_symmetric(#[trigger] new.arms@[k].a.deep_view())
    &&& forall|k: int| 0 <= k < ARMS && k != crate::action::rank(arm) ==> #[trigger] new.arms@[k] == old.arms@[k]
    &&& ({
        let k = crate::action::rank(arm) as int;
        let m = old.arms@[k].a.deep_view();
        &&& forall|i: int, j: int| 0 <= i < old.dim && 0 <= j < old.dim
            ==> #[trigger] new.arms@[k].a.deep_view()[i][j] == rank_one(m, x, i, j)
        &&& forall|i: int| 0 <= i < old.dim ==> #[trigger] new.arms@[k].b@[i]
            == sat_add(old.arms@[k].b@[i] as int, reward as int * x[i] as int)
        &&& (forall|i: int| #![auto] 0 <= i < old.dim ==> m[i][i] + x[i] as int * x[i] as int <= i128::MAX)
            ==> diag_sum(new.arms@[k].a.deep_view(), old.dim as nat)
                == diag_sum(m, old.dim as nat) + sum_sq(x, old.dim as nat)
    })
    &&& forall|k: int| 0 <= k < ARMS ==> #[trigger] new.arm_counts@[k] == if k == crate::action::rank(arm) {
        crate::telemetry::sat_inc(old.arm_counts@[k])
    } else {
        old.arm_counts@[k]
    }
    &&& new.total_count == crate::telemetry::sat_inc(old.total_count)
    &&& new.total_reward == sat_add64(old.total_reward as int, reward as int)
}

/// `Σ_{j<n} m[i][j]·y[j]`.
pub open spec fn row_dot(m: Seq<Seq<i128>>, y: Seq<int>, i: int, n: nat) -> int
    decreases n,
{
    if n == 0 {
        0
    } else {
        row_dot(m, y, i, (n - 1) as nat) + m[i][n - 1] * y[n - 1]
    }
}

/// `Σ_{i<n} y[i]·(m y)[i]` over a `d × d` matrix: the quadratic form `yᵀ m y` when `n == d`.
pub open spec fn quad(m: Seq<Seq<i128>>, y: Seq<int>, d: nat, n: nat) -> int
    decreases n,
{
    if n == 0 {
        0
    } else {
        quad(m, y, d, (n - 1) as nat) + y[n - 1] * row_dot(m, y, n - 1, d)
    }
}

/// `Σ_{i<n} x[i]·y[i]`.
pub open spec fn dot(x: Seq<i64>, y: Seq<int>, n: nat) -> int
    decreases n,
{
    if n == 0 {
        0
    } else {
        dot(x, y, (n - 1) as nat) + x[n - 1] * y[n - 1]
    }
}

/// `Σ_{i<n} y[i]²`.
pub open spec fn norm_sq(y: Seq<int>, n: nat) -> int
    decreases n,
{
    if n == 0 {
        0
    } else {
        norm_sq(y, (n - 1) as nat) + y[n - 1] * y[n - 1]
    }
}

/// `yᵀ m y > 0` for every non-zero `y` of length `d`.
pub open spec fn is_pos_def(m: Seq<Seq<i128>>, d: nat) -> bool {
    forall|y: Seq<int>|
        #![trigger quad(m, y, d, d)]
        y.len() == d && (exists|i: int| 0 <= i < d && y[i] != 0) ==> quad(m, y, d, d) > 0
}

/// No entry of `m + x xᵀ` leaves the range of `i128`.
pub open spec fn no_saturation(m: Seq<Seq<i128>>, x: Seq<i64>, d: nat) -> bool {
    forall|i: int, j: int|
        #![trigger m[i][j]]
        0 <= i < d && 0 <= j < d ==> i128::MIN <= m[i][j] + x[i] as int * x[j] as int <= i128::MAX
}

proof fn lemma_row_rank_one(m: Seq<Seq<i128>>, new_m: Seq<Seq<i128>>, x: Seq<i64>, y: Seq<int>, i: int, n: nat)
    requires
        forall|j: int| 0 <= j < n ==> #[trigger] new_m[i][j] == m[i][j] + x[i] as int * x[j] as int,
    ensures
        row_dot(new_m, y, i, n) == row_dot(m, y, i, n) + x[i] * dot(x, y, n),
    decreases n,
{
    if n > 0 {
        let k = (n - 1) as int;
        lemma_row_rank_one(m, new_m, x, y, i, (n - 1) as nat);
        let a = row_dot(m, y, i, (n - 1) as nat);
        let p = dot(x, y, (n - 1) as nat);
        let xi = x[i] as int;
        let xk = x[k] as int;
        let yk = y[k];
        let mk = m[i][k] as int;
        assert(new_m[i][k] == mk + xi * xk);
        assert((mk + xi * xk) * yk == mk * yk + xi * (xk * yk)) by (nonlinear_arith);
        assert(xi * p + xi * (xk * yk) == xi * (p + xk * yk)) by (nonlinear_arith);
    }
}

proof fn lemma_quad_rank_one(m: Seq<Seq<i128>>, new_m: Seq<Seq<i128>>, x: Seq<i64>, y: Seq<int>, d: nat, n: nat)
    requires
        n <= d,
        forall|i: int, j: int| 0 <= i < d && 0 <= j < d ==> #[trigger] new_m[i][j] == m[i][j] + x[i] as int * x[j] as int,
    ensures
        quad(new_m, y, d, n) == quad(m, y, d, n) + dot(x, y, d) * dot(x, y, n),
    decreases n,
{
    if n > 0 {
        let k = (n - 1) as int;
        lemma_quad_rank_one(m, new_m, x, y, d, (n - 1) as nat);
        lemma_row_rank_one(m, new_m, x, y, k, d);
        let dd = dot(x, y, d);
        let p = dot(x, y, (n - 1) as nat);
        let r = row_dot(m, y, k, d);
        let yk = y[k];
        let xk = x[k] as int;
        assert(yk * (r + xk * dd) == yk * r + dd * (xk * yk)) by (nonlinear_arith);
        assert(dd * p + dd * (xk * yk) == dd * (p + xk * yk)) by (nonlinear_arith);
    }
}

proof fn lemma_row_identity(m: Seq<Seq<i128>>, y: Seq<int>, i: int, d: nat, n: nat)
    requires
        0 <= i < d,
        n <= d,
        forall|p: int, q: int| 0 <= p < d && 0 <= q < d ==> #[trigger] m[p][q] == if p == q { UNIT_SQ } else { 0 },
    ensures
        row_dot(m, y, i, n) == if i < n { UNIT_SQ * y[i] } else { 0 },
    decreases n,
{
    if n > 0 {
        lemma_row_identity(m, y, i, d, (n - 1) as nat);
    }
}

proof fn lemma_quad_identity(m: Seq<Seq<i128>>, y: Seq<int>, d: nat, n: nat)
    requires
        n <= d,
        forall|p: int, q: int| 0 <= p < d && 0 <= q < d ==> #[trigger] m[p][q] == if p == q { UNIT_SQ } else { 0 },
    ensures
        quad(m, y, d, n) == UNIT_SQ * norm_sq(y, n),
    decreases n,
{
    if n > 0 {
        let k = (n - 1) as int;
        lemma_quad_identity(m, y, d, (n - 1) as nat);
        lemma_row_identity(m, y, k, d, d);
        let s = norm_sq(y, (n - 1) as nat);
        assert(UNIT_SQ * s + y[k] * (UNIT_SQ * y[k]) == UNIT_SQ * (s + y[k] * y[k])) by (nonlinear_arith);
    }
}

proof fn lemma_norm_sq_positive(y: Seq<int>, n: nat, j: int)
    requires
        0 <= j < n,
        y[j] != 0,
    ensures
        norm_sq(y, n) > 0,
    decreases n,
{
    lemma_norm_sq_nonneg(y, (n - 1) as nat);
    let k = n - 1;
    if j == k {
        assert(y[k] * y[k] > 0) by (nonlinear_arith)
            requires
                y[k] != 0,
        ;
    } else {
        lemma_norm_sq_positive(y, (n - 1) as nat, j);
        assert(y[k] * y[k] >= 0) by (nonlinear_arith);
    }
}

proof fn lemma_norm_sq_nonneg(y: Seq<int>, n: nat)
    ensures
        norm_sq(y, n) >= 0,
    decreases n,
{
    if n > 0 {
        lemma_norm_sq_nonneg(y, (n - 1) as nat);
        assert(y[n - 1] * y[n - 1] >= 0) by (nonlinear_arith);
    }
}

/// The initial `A` (the identity) is positive definite.
pub proof fn lemma_initial_pos_def(s: BanditState)
    requires
        s.is_initial(),
    ensures
        forall|k: int| 0 <= k < ARMS ==> is_pos_def(#[trigger] s.arms@[k].a.deep_view(), s.dim as nat),
{
    assert forall|k: int| 0 <= k < ARMS implies is_pos_def(#[trigger] s.arms@[k].a.deep_view(), s.dim as nat) by {
        let m = s.arms@[k].a.deep_view();
        let d = s.dim as nat;
        assert forall|y: Seq<int>| y.len() == d && (exists|i: int| 0 <= i < d && y[i] != 0) implies #[trigger] quad(m, y, d, d) > 0 by {
            let j = choose|i: int| 0 <= i < d && y[i] != 0;
            lemma_quad_identity(m, y, d, d);
            lemma_norm_sq_positive(y, d, j);
            assert(UNIT_SQ * norm_sq(y, d) > 0) by (nonlinear_arith)
                requires
                    norm_sq(y, d) > 0,
            ;
        }
    }
}

/// A rank-one update that saturates nowhere keeps `A` positive definite:
/// `yᵀ(A + x xᵀ)y = yᵀAy + (x·y)²`.
pub proof fn lemma_rank_one_pos_def(m: Seq<Seq<i128>>, new_m: Seq<Seq<i128>>, x: Seq<i64>, d: nat)
    requires
        is_pos_def(m, d),
        no_saturation(m, x, d),
        forall|i: int, j: int| 0 <= i < d && 0 <= j < d ==> #[trigger] new_m[i][j] == rank_one(m, x, i, j),
    ensures
        is_pos_def(new_m, d),
{
    assert forall|i: int, j: int| 0 <= i < d && 0 <= j < d implies #[trigger] new_m[i][j] == m[i][j] + x[i] as int * x[j] as int by {
        assert(new_m[i][j] == rank_one(m, x, i, j));
        assert(i128::MIN <= m[i][j] + x[i] as int * x[j] as int <= i128::MAX);
    }
    assert forall|y: Seq<int>| y.len() == d && (exists|i: int| 0 <= i < d && y[i] != 0) implies #[trigger] quad(new_m, y, d, d) > 0 by {
        lemma_quad_rank_one(m, new_m, x, y, d, d);
        assert(quad(m, y, d, d) > 0);
        let t = dot(x, y, d);
        assert(t * t >= 0) by (nonlinear_arith);
    }
}

/// A positive reward on a context with a non-zero entry strictly raises the
/// chosen arm's trace, where no diagonal entry saturates.
pub proof fn lemma_reward_raises_trace(old: BanditState, new: BanditState, arm: Action, x: Seq<i64>, reward: i64, j: int)
    requires
        reward_effect(old, new, arm, x, reward),
        0 <= j < old.dim,
        x[j] != 0,
        forall|i: int| #![auto] 0 <= i < old.dim ==> old.arms@[crate::action::rank(arm) as int].a.deep_view()[i][i]
            + x[i] as int * x[i] as int <= i128::MAX,
    ensures
        diag_sum(new.arms@[crate::action::rank(arm) as int].a.deep_view(), old.dim as nat)
            > diag_sum(old.arms@[crate::action::rank(arm) as int].a.deep_view(), old.dim as nat),
{
    lemma_sum_sq_positive(x, old.dim as nat, j);
}

impl BanditState {
    pub open spec fn wf(&self) -> bool {
        &&& self.arms@.len() == ARMS
        &&& self.arm_counts@.len() == ARMS
        &&& forall|k: int| 0 <= k < ARMS ==> arm_wf(#[trigger] self.arms@[k], self.dim as nat)
    }

    /// The initial statistics: `A = I`, `b = 0` for every arm.
    pub open spec fn is_initial(&self) -> bool {
        &&& self.wf()
        &&& forall|k: int, i: int, j: int|
            0 <= k < ARMS && 0 <= i < self.dim && 0 <= j < self.dim ==> #[trigger] self.arms@[k].a.deep_view()[i][j]
                == if i == j { UNIT_SQ } else { 0 }
        &&& forall|k: int, i: int| 0 <= k < ARMS && 0 <= i < self.dim ==> #[trigger] self.arms@[k].b@[i] == 0
        &&& forall|k: int| 0 <= k < ARMS ==> #[trigger] self.arm_counts@[k] == 0
        &&& self.total_count == 0
        &&& self.total_reward == 0
    }

    fn identity_arm(dim: usize) -> (r: ArmState)
        ensures
            arm_wf(r, dim as nat),
            forall|i: int, j: int| 0 <= i < dim && 0 <= j < dim ==> #[trigger] r.a.deep_view()[i][j] == if i == j { UNIT_SQ } else { 0 },
            forall|i: int| 0 <= i < dim ==> #[trigger] r.b@[i] == 0,
    {
        let mut a: Vec<Vec<i128>> = Vec::new();
        let mut i: usize = 0;
        while i < dim
            invariant
                i <= dim,
                a@.len() == i,
                forall|p: int| 0 <= p < i ==> (#[trigger] a@[p])@.len() == dim,
                forall|p: int, q: int| 0 <= p < i && 0 <= q < dim ==> #[trigger] a@[p]@[q] == if p == q { UNIT_SQ } else { 0 },
            decreases dim - i,
        {
            let mut row: Vec<i128> = Vec::new();
            let mut j: usize = 0;
            while j < dim
                invariant
                    j <= dim,
                    i < dim,
                    row@.len() == j,
                    forall|q: int| 0 <= q < j ==> #[trigger] row@[q] == if i == q { UNIT_SQ } else { 0 },
                decreases dim - j,
            {
                row.push(if i == j { UNIT_SQ } else { 0 });
                j = j + 1;
            }
            a.push(row);
            i = i + 1;
        }
        let mut b: Vec<i128> = Vec::new();
        let mut j: usize = 0;
        while j < dim
            invariant
                j <= dim,
                b@.len() == j,
                forall|q: int| 0 <= q < j ==> #[trigger] b@[q] == 0,
            decreases dim - j,
        {
            b.push(0);
            j = j + 1;
        }
        proof {
            assert forall|p: int| 0 <= p < a@.len() implies #[trigger] a.deep_view()[p] == a@[p]@ by {}
        }
        ArmState { a, b }
    }

    pub fn new(dim: usize) -> (r: BanditState)
        ensures
            r.dim == dim,
            r.is_initial(),
    {
        let mut arms: Vec<ArmState> = Vec::new();
        let mut k: usize = 0;
        while k < ARMS
            invariant
                k <= ARMS,
                arms@.len() == k,
                forall|p: int| 0 <= p < k ==> arm_wf(#[trigger] arms@[p], dim as nat),
                forall|p: int, i: int, j: int|
                    0 <= p < k && 0 <= i < dim && 0 <= j < dim ==> #[trigger] arms@[p].a.deep_view()[i][j]
                        == if i == j { UNIT_SQ } else { 0 },
                forall|p: int, i: int| 0 <= p < k && 0 <= i < dim ==> #[trigger] arms@[p].b@[i] == 0,
            decreases ARMS - k,
        {
            arms.push(BanditState::identity_arm(dim));
            k = k + 1;
        }
        let arm_counts: Vec<u64> = vec![0, 0, 0];
        BanditState { dim, arms, arm_counts, total_count: 0, total_reward: 0 }
    }

    /// Counts of applied rewards and their sum (millionths).
    pub fn get_statistics(&self) -> (r: BanditStats)
        requires
            self.wf(),
        ensures
            r.total_count == self.total_count,
            r.total_reward == self.total_reward,
            r.arm_counts@ == self.arm_counts@,
    {
        let mut counts: Vec<u64> = Vec::new();
        counts.push(self.arm_counts[0]);
        counts.push(self.arm_counts[1]);
        counts.push(self.arm_counts[2]);
        assert(counts@ =~= self.arm_counts@);
        BanditStats { total_count: self.total_count, total_reward: self.total_reward, arm_counts: counts }
    }

    /// Applies a reward to `arm` for context `x`; see `reward_effect`.
    pub fn update(&mut self, arm: Action, x: &Vec<i64>, reward: i64)
        requires
            old(self).wf(),
            x@.len() == old(self).dim,
            -REWARD_ONE <= reward <= REWARD_ONE,
        ensures
            reward_effect(*old(self), *final(self), arm, x@, reward),
    {
        let k = arm.as_arm_index();
        let d = self.dim;
        let ghost m = self.arms@[k as int].a.deep_view();
        let mut a: Vec<Vec<i128>> = Vec::new();
        let mut i: usize = 0;
        while i < d
            invariant
                i <= d,
                d == self.dim,
                k < ARMS,
                x@.len() == d,
                self.wf(),
                m == self.arms@[k as int].a.deep_view(),
                a@.len() == i,
                forall|p: int| 0 <= p < i ==> (#[trigger] a@[p])@.len() == d,
                forall|p: int, q: int| 0 <= p < i && 0 <= q < d ==> #[trigger] a@[p]@[q] == rank_one(m, x@, p, q),
            decreases d - i,
        {
            let mut row: Vec<i128> = Vec::new();
            let mut j: usize = 0;
            while j < d
                invariant
                    j <= d,
                    i < d,
                    d == self.dim,
                    k < ARMS,
                    x@.len() == d,
                    self.wf(),
                    m == self.arms@[k as int].a.deep_view(),
                    row@.len() == j,
                    forall|q: int| 0 <= q < j ==> #[trigger] row@[q] == rank_one(m, x@, i as int, q),
                decreases d - j,
            {
                proof {
                    assert(arm_wf(self.arms@[k as int], d as nat));
                    assert(m[i as int].len() == d);
                    assert(self.arms@[k as int].a@[i as int]@ == m[i as int]);
                }
                let v = sat_add_exec(self.arms[k].a[i][j], mul_wide(x[i], x[j]));
                row.push(v);
                j = j + 1;
            }
            a.push(row);
            i = i + 1;
        }
        let mut b: Vec<i128> = Vec::new();
        let mut j: usize = 0;
        while j < d
            invariant
                j <= d,
                d == self.dim,
                k < ARMS,
                x@.len() == d,
                self.wf(),
                b@.len() == j,
                forall|q: int| 0 <= q < j ==> #[trigger] b@[q] == sat_add(self.arms@[k as int].b@[q] as int, reward as int * x@[q] as int),
            decreases d - j,
        {
            proof {
                assert(arm_wf(self.arms@[k as int], d as nat));
            }
            let v = sat_add_exec(self.arms[k].b[j], mul_wide(reward, x[j]));
            b.push(v);
            j = j + 1;
        }
        proof {
            let na = a.deep_view();
            assert forall|p: int| 0 <= p < d implies #[trigger] na[p] == a@[p]@ by {}
            assert forall|p: int, q: int| 0 <= p < d && 0 <= q < d implies #[trigger] na[p][q] == #[trigger] na[q][p] by {
                assert(m[p][q] == m[q][p]);
                assert(x@[p] as int * x@[q] as int == x@[q] as int * x@[p] as int) by (nonlinear_arith);
            }
        }
        self.arms.set(k, ArmState { a, b });
        proof {
            let k = k as int;
            let nm = self.arms@[k].a.deep_view();
            if forall|i: int| #![auto] 0 <= i < d ==> m[i][i] + x@[i] as int * x@[i] as int <= i128::MAX {
                lemma_trace_rank_one(m, nm, x@, d as nat);
            }
            if is_pos_def(m, d as nat) && no_saturation(m, x@, d as nat) {
                lemma_rank_one_pos_def(m, nm, x@, d as nat);
            }
        }
        let c = self.arm_counts[k];
        self.arm_counts.set(k, c.saturating_add(1));
        self.total_count = self.total_count.saturating_add(1);
        self.total_reward = sat_add64_exec(self.total_reward, reward);
    }
}


/// Rows of a matrix, concatenated.
pub open spec fn rows_enc(m: Seq<Seq<i128>>) -> Seq<i128>
    decreases m.len(),
{
    if m.len() == 0 {
        seq![]
    } else {
        rows_enc(m.drop_last()) + m.last()
    }
}

pub open spec fn arm_enc(a: ArmState) -> Seq<i128> {
    rows_enc(a.a.deep_view()) + a.b@
}

/// The persisted form: arm count, dimension, then for each arm the rows of
/// `A` followed by `b`.
pub open spec fn state_enc(s: BanditState) -> Seq<i128> {
    seq![ARMS as i128, s.dim as i128] + arm_enc(s.arms@[0]) + arm_enc(s.arms@[1]) + arm_enc(s.arms@[2])
}

/// Two states with the same statistics.
pub open spec fn same_stats(s: BanditState, t: BanditState) -> bool {
    &&& s.dim == t.dim
    &&& s.arms@.len() == t.arms@.len()
    &&& forall|k: int| 0 <= k < s.arms@.len() ==> (#[trigger] s.arms@[k]).a.deep_view() == t.arms@[k].a.deep_view()
        && s.arms@[k].b@ == t.arms@[k].b@
}

proof fn lemma_rows_enc_len(m: Seq<Seq<i128>>, d: nat)
    requires
        forall|i: int| 0 <= i < m.len() ==> (#[trigger] m[i]).len() == d,
    ensures
        rows_enc(m).len() == m.len() * d,
    decreases m.len(),
{
    if m.len() > 0 {
        lemma_rows_enc_len(m.drop_last(), d);
        assert(m.len() * d == (m.len() - 1) * d + d) by (nonlinear_arith);
    }
}

proof fn lemma_split<T>(x1: Seq<T>, y1: Seq<T>, x2: Seq<T>, y2: Seq<T>)
    requires
        x1 + y1 == x2 + y2,
        y1.len() == y2.len(),
    ensures
        x1 == x2,
        y1 == y2,
{
    let z = x1 + y1;
    assert(x1 =~= z.subrange(0, x1.len() as int));
    assert(x2 =~= z.subrange(0, x2.len() as int));
    assert(y1 =~= z.subrange(x1.len() as int, z.len() as int));
    assert(y2 =~= z.subrange(x2.len() as int, z.len() as int));
}

proof fn lemma_rows_enc_injective(m1: Seq<Seq<i128>>, m2: Seq<Seq<i128>>, d: nat)
    requires
        m1.len() == m2.len(),
        forall|i: int| 0 <= i < m1.len() ==> (#[trigger] m1[i]).len() == d,
        forall|i: int| 0 <= i < m2.len() ==> (#[trigger] m2[i]).len() == d,
        rows_enc(m1) == rows_enc(m2),
    ensures
        m1 == m2,
    decreases m1.len(),
{
    if m1.len() > 0 {
        lemma_split(rows_enc(m1.drop_last()), m1.last(), rows_enc(m2.drop_last()), m2.last());
        lemma_rows_enc_injective(m1.drop_last(), m2.drop_last(), d);
        assert(m1 =~= m1.drop_last().push(m1.last()));
        assert(m2 =~= m2.drop_last().push(m2.last()));
    } else {
        assert(m1 =~= m2);
    }
}

proof fn lemma_arm_enc_len(a: ArmState, d: nat)
    requires
        is_square(a.a.deep_view(), d),
        a.b@.len() == d,
    ensures
        arm_enc(a).len() == d * d + d,
{
    lemma_rows_enc_len(a.a.deep_view(), d);
}

/// The encoding determines the statistics: two square states of one
/// dimension with equal encodings have equal statistics.
pub proof fn lemma_state_enc_injective(s: BanditState, t: BanditState)
    requires
        s.arms@.len() == ARMS && t.arms@.len() == ARMS,
        s.dim == t.dim,
        forall|k: int| 0 <= k < ARMS ==> is_square((#[trigger] s.arms@[k]).a.deep_view(), s.dim as nat) && s.arms@[k].b@.len() == s.dim,
        forall|k: int| 0 <= k < ARMS ==> is_square((#[trigger] t.arms@[k]).a.deep_view(), t.dim as nat) && t.arms@[k].b@.len() == t.dim,
        state_enc(s) == state_enc(t),
    ensures
        same_stats(s, t),
{
    let d = s.dim as nat;
    let h = seq![ARMS as i128, s.dim as i128];
    lemma_arm_enc_len(s.arms@[0], d);
    lemma_arm_enc_len(s.arms@[1], d);
    lemma_arm_enc_len(s.arms@[2], d);
    lemma_arm_enc_len(t.arms@[0], d);
    lemma_arm_enc_len(t.arms@[1], d);
    lemma_arm_enc_len(t.arms@[2], d);
    lemma_split(h + arm_enc(s.arms@[0]) + arm_enc(s.arms@[1]), arm_enc(s.arms@[2]), h + arm_enc(t.arms@[0]) + arm_enc(t.arms@[1]), arm_enc(t.arms@[2]));
    lemma_split(h + arm_enc(s.arms@[0]), arm_enc(s.arms@[1]), h + arm_enc(t.arms@[0]), arm_enc(t.arms@[1]));
    lemma_split(h, arm_enc(s.arms@[0]), h, arm_enc(t.arms@[0]));
    assert forall|k: int| 0 <= k < ARMS implies (#[trigger] s.arms@[k]).a.deep_view() == t.arms@[k].a.deep_view()
        && s.arms@[k].b@ == t.arms@[k].b@ by {
        let a = s.arms@[k];
        let b = t.arms@[k];
        lemma_split(rows_enc(a.a.deep_view()), a.b@, rows_enc(b.a.deep_view()), b.b@);
        lemma_rows_enc_injective(a.a.deep_view(), b.a.deep_view(), d);
    }
}

/// Loading what was saved gives back the same statistics (and so the same
/// arm selection for every context).
pub proof fn lemma_round_trip(s: BanditState, loaded: BanditState)
    requires
        s.wf(),
        loaded.wf(),
        loaded.dim == s.dim,
        state_enc(loaded) == state_enc(s),
    ensures
        same_stats(loaded, s),
{
    lemma_state_enc_injective(loaded, s);
}

fn push_all(v: &mut Vec<i128>, xs: &Vec<i128>)
    ensures
        final(v)@ == old(v)@ + xs@,
{
    let mut i: usize = 0;
    let ghost start = v@;
    while i < xs.len()
        invariant
            i <= xs.len(),
            v@ == start + xs@.take(i as int),
        decreases xs.len() - i,
    {
        v.push(xs[i]);
        i = i + 1;
        assert(start + xs@.take(i as int) =~= (start + xs@.take(i - 1)).push(xs@[i - 1]));
    }
    assert(xs@.take(i as int) =~= xs@);
}

fn push_arm(v: &mut Vec<i128>, a: &ArmState)
    ensures
        final(v)@ == old(v)@ + arm_enc(*a),
{
    let ghost start = v@;
    let ghost m = a.a.deep_view();
    let mut i: usize = 0;
    while i < a.a.len()
        invariant
            i <= a.a.len(),
            m == a.a.deep_view(),
            v@ == start + rows_enc(m.take(i as int)),
        decreases a.a.len() - i,
    {
        assert(m.take(i + 1).drop_last() =~= m.take(i as int));
        assert(m.take(i + 1).last() == a.a@[i as int]@);
        push_all(v, &a.a[i]);
        i = i + 1;
        assert(start + rows_enc(m.take(i as int)) =~= start + rows_enc(m.take(i - 1)) + a.a@[i - 1]@);
    }
    assert(m.take(i as int) =~= m);
    push_all(v, &a.b);
    assert(start + arm_enc(*a) =~= start + rows_enc(m) + a.b@);
}

/// Reads `d` rows of `d` values from `v` at `p`: the rows, and
/// where reading stopped.
fn read_rows(v: &Vec<i128>, p: usize, d: usize) -> (r: (Vec<Vec<i128>>, usize))
    requires
        p + d * d <= v@.len(),
    ensures
        r.1 == p + d * d,
        r.0@.len() == d,
        forall|i: int| 0 <= i < d ==> (#[trigger] r.0@[i])@.len() == d,
        rows_enc(r.0.deep_view()) == v@.subrange(p as int, p + d * d),
{
    let n = v.len();
    let mut rows: Vec<Vec<i128>> = Vec::new();
    let mut q: usize = p;
    let mut i: usize = 0;
    while i < d
        invariant
            i <= d,
            n == v@.len(),
            p + d * d <= v@.len(),
            q == p + i * d,
            rows@.len() == i,
            forall|k: int| 0 <= k < i ==> (#[trigger] rows@[k])@.len() == d,
            rows_enc(rows.deep_view()) == v@.subrange(p as int, q as int),
        decreases d - i,
    {
        assert(q + d <= p + d * d) by (nonlinear_arith)
            requires
                q == p + i * d,
                i < d,
        ;
        let mut row: Vec<i128> = Vec::new();
        let mut j: usize = 0;
        while j < d
            invariant
                j <= d,
                n == v@.len(),
                q + d <= v@.len(),
                row@ == v@.subrange(q as int, q + j),
            decreases d - j,
        {
            row.push(v[q + j]);
            j = j + 1;
            assert(row@ =~= v@.subrange(q as int, q + j));
        }
        let ghost before = rows.deep_view();
        rows.push(row);
        proof {
            assert(rows.deep_view().drop_last() =~= before);
            assert(rows.deep_view().last() == row@);
            assert(v@.subrange(p as int, q + d) =~= v@.subrange(p as int, q as int) + v@.subrange(q as int, q + d));
        }
        q = q + d;
        i = i + 1;
        assert(q == p + i * d) by (nonlinear_arith)
            requires
                q == p + (i - 1) * d + d,
        ;
    }
    (rows, q)
}

fn is_symmetric_exec(m: &Vec<Vec<i128>>, d: usize) -> (r: bool)
    requires
        is_square(m.deep_view(), d as nat),
    ensures
        r == is_symmetric(m.deep_view()),
{
    let ghost mv = m.deep_view();
    let mut i: usize = 0;
    while i < d
        invariant
            i <= d,
            mv == m.deep_view(),
            is_square(mv, d as nat),
            forall|p: int, q: int| 0 <= p < i && 0 <= q < d ==> mv[p][q] == mv[q][p],
        decreases d - i,
    {
        let mut j: usize = 0;
        while j < d
            invariant
                j <= d,
                i < d,
                mv == m.deep_view(),
                is_square(mv, d as nat),
                forall|p: int, q: int| 0 <= p < i && 0 <= q < d ==> mv[p][q] == mv[q][p],
                forall|q: int| 0 <= q < j ==> mv[i as int][q] == mv[q][i as int],
            decreases d - j,
        {
            assert(mv[i as int] == m@[i as int]@);
            assert(mv[j as int] == m@[j as int]@);
            if m[i][j] != m[j][i] {
                return false;
            }
            j = j + 1;
        }
        i = i + 1;
    }
    assert forall|p: int, q: int| 0 <= p < mv.len() && 0 <= q < mv.len() implies #[trigger] mv[p][q] == #[trigger] mv[q][p] by {
        if p < q {
            assert(mv[q][p] == mv[p][q]);
        }
    }
    true
}

impl BanditState {
    /// The persisted form of the statistics.
    pub fn encode(&self) -> (r: Vec<i128>)
        requires
            self.wf(),
        ensures
            r@ == state_enc(*self),
    {
        let mut v: Vec<i128> = Vec::new();
        v.push(ARMS as i128);
        v.push(self.dim as i128);
        assert(v@ =~= seq![ARMS as i128, self.dim as i128]);
        push_arm(&mut v, &self.arms[0]);
        push_arm(&mut v, &self.arms[1]);
        push_arm(&mut v, &self.arms[2]);
        v
    }

    /// Reads a persisted form for dimension `dim`: `None` unless the arm
    /// count and dimension match, the length is right and every `A` is
    /// symmetric. What it returns encodes back to `v`.
    pub fn decode(v: &Vec<i128>, dim: usize) -> (r: Option<BanditState>)
        ensures
            r is Some ==> r->0.wf() && r->0.dim == dim && state_enc(r->0) == v@,
            forall|s: BanditState| #[trigger] s.wf() && s.dim == dim && state_enc(s) == v@ ==> r is Some,
    {
        let n = v.len();
        let dd = match dim.checked_mul(dim) {
            Some(x) => x,
            None => {
                proof {
                    assert forall|s: BanditState| #[trigger] s.wf() && s.dim == dim && state_enc(s) == v@ implies false by {
                        lemma_arm_enc_len(s.arms@[0], dim as nat);
                        lemma_arm_enc_len(s.arms@[1], dim as nat);
                        lemma_arm_enc_len(s.arms@[2], dim as nat);
                    }
                }
                return None;
            },
        };
        let per_arm = match dd.checked_add(dim) {
            Some(x) => x,
            None => {
                proof {
                    assert forall|s: BanditState| #[trigger] s.wf() && s.dim == dim && state_enc(s) == v@ implies false by {
                        lemma_arm_enc_len(s.arms@[0], dim as nat);
                        lemma_arm_enc_len(s.arms@[1], dim as nat);
                        lemma_arm_enc_len(s.arms@[2], dim as nat);
                    }
                }
                return None;
            },
        };
        if v.len() < 2 || (v.len() - 2) / 3 != per_arm || (v.len() - 2) % 3 != 0 || v[0] != ARMS as i128 || v[1] != dim as i128 {
            proof {
                assert forall|s: BanditState| #[trigger] s.wf() && s.dim == dim && state_enc(s) == v@ implies false by {
                    lemma_arm_enc_len(s.arms@[0], dim as nat);
                    lemma_arm_enc_len(s.arms@[1], dim as nat);
                    lemma_arm_enc_len(s.arms@[2], dim as nat);
                    assert(state_enc(s)[0] == ARMS as i128);
                    assert(state_enc(s)[1] == dim as i128);
                }
            }
            return None;
        }
        let mut arms: Vec<ArmState> = Vec::new();
        let mut p: usize = 2;
        let mut k: usize = 0;
        while k < ARMS
            invariant
                k <= ARMS,
                n == v@.len(),
                dd == dim * dim,
                per_arm == dd + dim,
                v@.len() == 2 + 3 * per_arm,
                p == 2 + k * per_arm,
                arms@.len() == k,
                forall|t: int| 0 <= t < k ==> is_square((#[trigger] arms@[t]).a.deep_view(), dim as nat) && arms@[t].b@.len() == dim,
                forall|t: int| 0 <= t < k ==> v@.subrange(2 + t * per_arm, 2 + (t + 1) * per_arm) == arm_enc(#[trigger] arms@[t]),
            decreases ARMS - k,
        {
            assert(p + per_arm <= v@.len()) by (nonlinear_arith)
                requires
                    p == 2 + k * per_arm,
                    k < 3,
                    v@.len() == 2 + 3 * per_arm,
            ;
            let (rows, q) = read_rows(v, p, dim);
            let mut b: Vec<i128> = Vec::new();
            let mut j: usize = 0;
            while j < dim
                invariant
                    j <= dim,
                    n == v@.len(),
                    q == p + dd,
                    q + dim <= v@.len(),
                    b@ == v@.subrange(q as int, q + j),
                decreases dim - j,
            {
                b.push(v[q + j]);
                j = j + 1;
                assert(b@ =~= v@.subrange(q as int, q + j));
            }
            let arm = ArmState { a: rows, b };
            proof {
                assert forall|i: int| 0 <= i < dim implies (#[trigger] arm.a.deep_view()[i]).len() == dim by {
                    assert(arm.a.deep_view()[i] == arm.a@[i]@);
                }
                assert(v@.subrange(p as int, p + per_arm) =~= v@.subrange(p as int, q as int) + v@.subrange(q as int, q + dim));
                assert(p + per_arm == 2 + (k + 1) * per_arm) by (nonlinear_arith)
                    requires
                        p == 2 + k * per_arm,
                ;
            }
            arms.push(arm);
            p = p + per_arm;
            k = k + 1;
            assert(p == 2 + k * per_arm) by (nonlinear_arith)
                requires
                    p == 2 + (k - 1) * per_arm + per_arm,
            ;
        }
        let arm_counts: Vec<u64> = vec![0, 0, 0];
        let s = BanditState { dim, arms, arm_counts, total_count: 0, total_reward: 0 };
        proof {
            let e0 = v@.subrange(2, 2 + per_arm);
            let e1 = v@.subrange(2 + per_arm, 2 + 2 * per_arm);
            let e2 = v@.subrange(2 + 2 * per_arm, 2 + 3 * per_arm);
            assert(e0 == arm_enc(s.arms@[0]));
            assert(1 * per_arm == per_arm);
            assert(e1 == arm_enc(s.arms@[1]));
            assert(e2 == arm_enc(s.arms@[2]));
            assert(v@ =~= seq![ARMS as i128, dim as i128] + e0 + e1 + e2);
        }
        if !is_symmetric_exec(&s.arms[0].a, dim) || !is_symmetric_exec(&s.arms[1].a, dim) || !is_symmetric_exec(&s.arms[2].a, dim) {
            proof {
                assert forall|t: BanditState| #[trigger] t.wf() && t.dim == dim && state_enc(t) == v@ implies false by {
                    lemma_state_enc_injective(s, t);
                    assert(s.arms@[0].a.deep_view() == t.arms@[0].a.deep_view());
                    assert(s.arms@[1].a.deep_view() == t.arms@[1].a.deep_view());
                    assert(s.arms@[2].a.deep_view() == t.arms@[2].a.deep_view());
                }
            }
            return None;
        }
        Some(s)
    }

    /// Reads a persisted form, or starts afresh when it does not fit.
    pub fn load(v: &Vec<i128>, dim: usize) -> (r: BanditState)
        ensures
            r.wf(),
            r.dim == dim,
            forall|s: BanditState| #[trigger] s.wf() && s.dim == dim && state_enc(s) == v@ ==> same_stats(r, s),
            (forall|s: BanditState| #[trigger] s.wf() && s.dim == dim ==> state_enc(s) != v@) ==> r.is_initial(),
    {
        match BanditState::decode(v, dim) {
            Some(s) => {
                proof {
                    assert forall|t: BanditState| #[trigger] t.wf() && t.dim == dim && state_enc(t) == v@ implies same_stats(s, t) by {
                        lemma_round_trip(t, s);
                        lemma_state_enc_injective(s, t);
                    }
                }
                s
            },
            None => BanditState::new(dim),
        }
    }
}

} // verus!
