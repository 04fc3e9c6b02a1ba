//! The constant-product pool engine: one pool owns the reserves of a
//! canonically sorted token set, issues a share token, and executes
//! deposit, withdraw and swap with integer arithmetic that never rounds
//! in favor of the caller. Every operation is all-or-nothing: on an error
//! the pool is left exactly as it was.

use vstd::prelude::*;
use vstd::multiset::Multiset;
use vstd::relations::{sorted_by, total_ordering};
use vstd::seq_lib::lemma_sorted_unique;

use crate::errors::PoolError;
use crate::rewards;
use crate::rewards::RewardState;
use crate::table::Table;

verus! {

/// Denominator of the swap fee: `fee_fraction / FEE_DENOMINATOR` of every
/// swap input is kept by the pool.
pub const FEE_DENOMINATOR: u32 = 10000;

/// The canonical order of a token-identifier list: sorted ascending.
pub open spec fn canonical_order(s: Seq<u64>) -> Seq<u64> {
    s.sort_by(|a: u64, b: u64| a <= b)
}

/// One liquidity pool.
pub struct Pool {
    /// Asset identifiers, strictly ascending, fixed at creation.
    pub tokens: Vec<u64>,
    /// One non-negative reserve per token, index-aligned with `tokens`.
    pub reserves: Vec<i128>,
    /// Outstanding supply of the pool's share token.
    pub total_shares: i128,
    /// Swap fee numerator over `FEE_DENOMINATOR`, fixed at creation.
    pub fee_fraction: u32,
    /// Share-token balance per holder.
    pub share_balances: Table<i128>,
    /// The reward engine attached to this pool.
    pub rewards: RewardState,
}

impl Pool {
    /// Internal invariant: canonical tokens, aligned non-negative reserves,
    /// an empty pool holds no outstanding claims and a non-empty pool has
    /// every reserve positive.
    pub open spec fn wf(self) -> bool {
        &&& 2 <= self.tokens@.len()
        &&& self.reserves@.len() == self.tokens@.len()
        &&& forall|i: int, j: int|
            0 <= i < j < self.tokens@.len() ==> self.tokens@[i] < self.tokens@[j]
        &&& forall|i: int| 0 <= i < self.reserves@.len() ==> 0 <= #[trigger] self.reserves@[i]
        &&& 0 <= self.total_shares
        &&& (self.total_shares == 0 ==> forall|i: int|
            0 <= i < self.reserves@.len() ==> #[trigger] self.reserves@[i] == 0)
        &&& (self.total_shares > 0 ==> forall|i: int|
            0 <= i < self.reserves@.len() ==> #[trigger] self.reserves@[i] > 0)
        &&& self.fee_fraction < FEE_DENOMINATOR
        &&& self.share_balances.wf()
        &&& forall|a: u64| (#[trigger] self.share_balances.spec_get(a)) matches Some(b) ==> 0 <= b
        &&& balances_sum(self.share_balances.entries@) == self.total_shares
        &&& self.rewards.wf()
    }

    /// The share balance of `a`, zero for an account never seen.
    pub open spec fn balance_of(self, a: u64) -> int {
        match self.share_balances.spec_get(a) {
            Some(b) => b as int,
            None => 0,
        }
    }

    /// Valid swap arguments: two distinct in-range indices, positive amount.
    pub open spec fn swap_args_ok(self, in_idx: u32, out_idx: u32, amount: i128) -> bool {
        &&& in_idx != out_idx
        &&& (in_idx as int) < self.tokens@.len()
        &&& (out_idx as int) < self.tokens@.len()
        &&& 0 < amount
    }
}

/// The share supply a balance table records: the sum of its balances.
/// The pool keeps it equal to `total_shares`, the ShareToken supply.
pub open spec fn balances_sum(s: Seq<(u64, i128)>) -> int
    decreases s.len(),
{
    if s.len() == 0 {
        0
    } else {
        balances_sum(s.drop_last()) + s.last().1
    }
}

proof fn lemma_balances_sum_update(s: Seq<(u64, i128)>, i: int, e: (u64, i128))
    requires
        0 <= i < s.len(),
    ensures
        balances_sum(s.update(i, e)) == balances_sum(s) - s[i].1 + e.1,
    decreases s.len(),
{
    let s2 = s.update(i, e);
    if i == s.len() - 1 {
        assert(s2.drop_last() =~= s.drop_last());
        assert(s2.last() == e);
    } else {
        assert(s2.drop_last() =~= s.drop_last().update(i, e));
        assert(s2.last() == s.last());
        lemma_balances_sum_update(s.drop_last(), i, e);
    }
}

proof fn lemma_balances_sum_push(s: Seq<(u64, i128)>, e: (u64, i128))
    ensures
        balances_sum(s.push(e)) == balances_sum(s) + e.1,
{
    assert(s.push(e).drop_last() =~= s);
    assert(s.push(e).last() == e);
}

/// Constant-product output for an exact input: the input is charged the
/// fee, then the product of the two reserves is preserved, rounding the
/// output down.
pub open spec fn cp_out_amount(r_in: int, r_out: int, in_amount: int, fee: int) -> int {
    in_amount * (FEE_DENOMINATOR - fee) * r_out / (r_in * FEE_DENOMINATOR + in_amount * (
    FEE_DENOMINATOR - fee))
}

/// Constant-product input for an exact output, rounding the input up in
/// favor of the pool.
pub open spec fn cp_in_amount(r_in: int, r_out: int, out_amount: int, fee: int) -> int {
    r_in * out_amount * FEE_DENOMINATOR / ((r_out - out_amount) * (FEE_DENOMINATOR - fee)) + 1
}

/// Whether the exact-input estimate stays within the `i128` range.
pub open spec fn estimate_out_fits(r_in: int, r_out: int, in_amount: int, fee: int) -> bool {
    let eff = in_amount * (FEE_DENOMINATOR - fee);
    &&& eff <= i128::MAX
    &&& r_in * FEE_DENOMINATOR <= i128::MAX
    &&& r_in * FEE_DENOMINATOR + eff <= i128::MAX
    &&& eff * r_out <= i128::MAX
}

/// Whether the exact-output estimate stays within the `i128` range.
pub open spec fn estimate_in_fits(r_in: int, r_out: int, out_amount: int, fee: int) -> bool {
    &&& r_in * out_amount <= i128::MAX
    &&& r_in * out_amount * FEE_DENOMINATOR <= i128::MAX
    &&& (r_out - out_amount) * (FEE_DENOMINATOR - fee) <= i128::MAX
    &&& cp_in_amount(r_in, r_out, out_amount, fee) <= i128::MAX
}

/// Copies a vector of amounts.
pub fn vec_copy(v: &Vec<i128>) -> (r: Vec<i128>)
    ensures
        r@ == v@,
{
    let mut r: Vec<i128> = Vec::new();
    let n = v.len();
    let mut i: usize = 0;
    while i < n
        invariant
            n == v@.len(),
            i <= n,
            r@ == v@.take(i as int),
        decreases n - i,
    {
        r.push(v[i]);
        proof {
            assert(v@.take(i + 1 as int) =~= v@.take(i as int).push(v@[i as int]));
        }
        i += 1;
    }
    proof {
        assert(v@.take(n as int) =~= v@);
    }
    r
}

/// Copies a vector of token identifiers.
pub fn vec_copy_ids(v: &Vec<u64>) -> (r: Vec<u64>)
    ensures
        r@ == v@,
{
    let mut r: Vec<u64> = Vec::new();
    let n = v.len();
    let mut i: usize = 0;
    while i < n
        invariant
            n == v@.len(),
            i <= n,
            r@ == v@.take(i as int),
        decreases n - i,
    {
        r.push(v[i]);
        proof {
            assert(v@.take(i + 1 as int) =~= v@.take(i as int).push(v@[i as int]));
        }
        i += 1;
    }
    proof {
        assert(v@.take(n as int) =~= v@);
    }
    r
}

proof fn lemma_insert_multiset(s: Seq<u64>, p: int, x: u64)
    requires
        0 <= p <= s.len(),
    ensures
        s.insert(p, x).to_multiset() =~= s.to_multiset().insert(x),
{
    broadcast use vstd::seq_lib::group_to_multiset_ensures;
    broadcast use vstd::multiset::group_multiset_axioms;

    let a = s.subrange(0, p);
    let b = s.subrange(p, s.len() as int);
    assert(s =~= a + b);
    assert(s.insert(p, x) =~= a + (seq![x] + b));
    vstd::seq_lib::lemma_multiset_commutative(a, b);
    vstd::seq_lib::lemma_multiset_commutative(a, seq![x] + b);
    vstd::seq_lib::lemma_multiset_commutative(seq![x], b);
    assert(seq![x].to_multiset() =~= Multiset::<u64>::empty().insert(x));
}

/// Sorts token identifiers into the canonical ascending order.
pub fn sort_ids(v: &Vec<u64>) -> (r: Vec<u64>)
    ensures
        r@ == canonical_order(v@),
        r@.to_multiset() == v@.to_multiset(),
        r@.len() == v@.len(),
        sorted_by(r@, |a: u64, b: u64| a <= b),
{
    let ghost leq = |a: u64, b: u64| a <= b;
    proof {
        assert(total_ordering(leq));
    }
    let mut out: Vec<u64> = Vec::new();
    let n = v.len();
    let mut i: usize = 0;
    proof {
        assert(v@.take(0) =~= out@);
    }
    while i < n
        invariant
            n == v@.len(),
            i <= n,
            leq == (|a: u64, b: u64| a <= b),
            sorted_by(out@, leq),
            out@.to_multiset() == v@.take(i as int).to_multiset(),
            out@.len() == i,
        decreases n - i,
    {
        let x = v[i];
        // find the first position whose element exceeds x
        let m = out.len();
        let mut p: usize = 0;
        while p < m && out[p] <= x
            invariant
                m == out@.len(),
                p <= m,
                forall|q: int| 0 <= q < p ==> #[trigger] out@[q] <= x,
            decreases m - p,
        {
            p += 1;
        }
        let ghost out0 = out@;
        out.insert(p, x);
        proof {
            assert(out@ =~= out0.insert(p as int, x));
            out0.insert_ensures(p as int, x);
            assert forall|q1: int, q2: int| 0 <= q1 < q2 < out@.len() implies leq(
                out@[q1],
                out@[q2],
            ) by {
                if q1 < p && q2 < p {
                    assert(out@[q1] == out0[q1] && out@[q2] == out0[q2]);
                } else if q1 < p && q2 == p {
                    assert(out@[q1] == out0[q1] && out@[q2] == x);
                } else if q1 < p && q2 > p {
                    assert(out@[q1] == out0[q1] && out@[q2] == out0[q2 - 1]);
                } else if q1 == p {
                    assert(out@[q1] == x && out@[q2] == out0[q2 - 1]);
                    if p < out0.len() {
                        assert(out0[p as int] > x);
                        assert(leq(out0[p as int], out0[q2 - 1]) || p as int == q2 - 1);
                    }
                } else {
                    assert(out@[q1] == out0[q1 - 1] && out@[q2] == out0[q2 - 1]);
                }
            }
            lemma_insert_multiset(out0, p as int, x);
            broadcast use vstd::seq_lib::group_to_multiset_ensures;

            assert(v@.take(i + 1 as int) =~= v@.take(i as int).push(x));
            assert(out@.to_multiset() =~= v@.take(i + 1 as int).to_multiset());
        }
        i += 1;
    }
    proof {
        assert(v@.take(n as int) =~= v@);
        v@.lemma_sort_by_ensures(leq);
        lemma_sorted_unique(out@, v@.sort_by(leq), leq);
    }
    out
}

impl Pool {
    /// Creates a pool over `tokens` (any order) with the given swap fee and
    /// reward admin; all reserves and the share supply start at zero.
    /// Rejected: fewer than two tokens, a duplicate token, a fee outside
    /// `[0, FEE_DENOMINATOR)`.
    pub fn initialize(admin: u64, tokens: Vec<u64>, fee_fraction: u32) -> (r: Result<
        Pool,
        PoolError,
    >)
        ensures
            r is Ok <==> tokens@.len() >= 2 && tokens@.no_duplicates() && fee_fraction
                < FEE_DENOMINATOR,
            r is Err ==> r == Err::<Pool, PoolError>(PoolError::InvalidArgument),
            r matches Ok(p) ==> {
                &&& p.wf()
                &&& p.tokens@ == canonical_order(tokens@)
                &&& p.reserves@.len() == tokens@.len()
                &&& forall|i: int| 0 <= i < p.reserves@.len() ==> #[trigger] p.reserves@[i] == 0
                &&& p.total_shares == 0
                &&& p.fee_fraction == fee_fraction
                &&& forall|a: u64| p.share_balances.spec_get(a) == None::<i128>
                &&& p.rewards.admin == admin
                &&& p.rewards.accumulator == 0
                &&& p.rewards.rate == 0
                &&& p.rewards.last_update_time == 0
                &&& p.rewards.expires_at == 0
                &&& forall|a: u64| p.rewards.users.spec_get(a) == None::<(i128, i128)>
            },
    {
        broadcast use vstd::seq_lib::group_to_multiset_ensures;

        if tokens.len() < 2 {
            return Err(PoolError::InvalidArgument);
        }
        if fee_fraction >= FEE_DENOMINATOR {
            return Err(PoolError::InvalidArgument);
        }
        let sorted = sort_ids(&tokens);
        // a duplicate in a sorted list is adjacent
        let n = sorted.len();
        let mut i: usize = 0;
        while i + 1 < n
            invariant
                n == sorted@.len(),
                i < n,
                sorted@.to_multiset() == tokens@.to_multiset(),
                forall|q: int| 0 <= q < i ==> #[trigger] sorted@[q] != sorted@[q + 1],
            decreases n - i,
        {
            if sorted[i] == sorted[i + 1] {
                proof {
                    if tokens@.no_duplicates() {
                        tokens@.lemma_multiset_has_no_duplicates();
                        sorted@.lemma_multiset_has_no_duplicates_conv();
                        assert(sorted@[i as int] != sorted@[i + 1]);
                    }
                }
                return Err(PoolError::InvalidArgument);
            }
            i += 1;
        }
        proof {
            // adjacent-distinct plus sorted makes the list strictly ascending
            let leq = |a: u64, b: u64| a <= b;
            assert forall|q1: int, q2: int| 0 <= q1 < q2 < sorted@.len() implies sorted@[q1]
                < sorted@[q2] by {
                assert(leq(sorted@[q1], sorted@[q1 + 1]));
                assert(leq(sorted@[q1 + 1], sorted@[q2]) || q1 + 1 == q2);
                assert(sorted@[q1] != sorted@[q1 + 1]);
            }
            assert(sorted@.no_duplicates());
            sorted@.lemma_multiset_has_no_duplicates();
            tokens@.lemma_multiset_has_no_duplicates_conv();
        }
        let len = sorted.len();
        let mut reserves: Vec<i128> = Vec::new();
        let mut k: usize = 0;
        while k < len
            invariant
                k <= len,
                reserves@.len() == k,
                forall|q: int| 0 <= q < k ==> #[trigger] reserves@[q] == 0,
            decreases len - k,
        {
            reserves.push(0);
            k += 1;
        }
        Ok(
            Pool {
                tokens: sorted,
                reserves,
                total_shares: 0,
                fee_fraction,
                share_balances: Table::new(),
                rewards: RewardState::new(admin),
            },
        )
    }

    /// The pool's token list, in canonical order.
    pub fn get_tokens(&self) -> (r: Vec<u64>)
        ensures
            r@ == self.tokens@,
    {
        vec_copy_ids(&self.tokens)
    }

    /// The pool's reserves, index-aligned with its tokens.
    pub fn get_reserves(&self) -> (r: Vec<i128>)
        ensures
            r@ == self.reserves@,
    {
        vec_copy(&self.reserves)
    }

    /// The pool's swap-fee numerator over `FEE_DENOMINATOR`.
    pub fn get_fee_fraction(&self) -> (r: u32)
        ensures
            r == self.fee_fraction,
    {
        self.fee_fraction
    }

    /// The outstanding share supply.
    pub fn get_total_shares(&self) -> (r: i128)
        ensures
            r == self.total_shares,
    {
        self.total_shares
    }

    /// The share balance of `a`.
    pub fn get_share_balance(&self, a: u64) -> (r: i128)
        requires
            self.wf(),
        ensures
            r == self.balance_of(a),
    {
        match self.share_balances.get(a) {
            Some(b) => b,
            None => 0,
        }
    }

    /// Read-only constant-product quote for an exact input.
    pub fn estimate_swap(&self, in_idx: u32, out_idx: u32, in_amount: i128) -> (r: Result<
        i128,
        PoolError,
    >)
        requires
            self.wf(),
        ensures
            !self.swap_args_ok(in_idx, out_idx, in_amount) ==> r == Err::<i128, PoolError>(
                PoolError::InvalidArgument,
            ),
            self.swap_args_ok(in_idx, out_idx, in_amount) && self.total_shares == 0 ==> r == Err::<
                i128,
                PoolError,
            >(PoolError::InsufficientLiquidity),
            self.swap_args_ok(in_idx, out_idx, in_amount) && self.total_shares > 0
                && !estimate_out_fits(
                self.reserves@[in_idx as int] as int,
                self.reserves@[out_idx as int] as int,
                in_amount as int,
                self.fee_fraction as int,
            ) ==> r == Err::<i128, PoolError>(PoolError::ArithmeticOverflow),
            self.swap_args_ok(in_idx, out_idx, in_amount) && self.total_shares > 0
                && estimate_out_fits(
                self.reserves@[in_idx as int] as int,
                self.reserves@[out_idx as int] as int,
                in_amount as int,
                self.fee_fraction as int,
            ) ==> r == Ok::<i128, PoolError>(
                cp_out_amount(
                    self.reserves@[in_idx as int] as int,
                    self.reserves@[out_idx as int] as int,
                    in_amount as int,
                    self.fee_fraction as int,
                ) as i128,
            ),
            r matches Ok(v) ==> 0 <= v < self.reserves@[out_idx as int],
            r is Ok ==> 0 <= cp_out_amount(
                self.reserves@[in_idx as int] as int,
                self.reserves@[out_idx as int] as int,
                in_amount as int,
                self.fee_fraction as int,
            ) < self.reserves@[out_idx as int],
    {
        if in_idx == out_idx || in_amount <= 0 {
            return Err(PoolError::InvalidArgument);
        }
        let len = self.tokens.len();
        if (in_idx as usize) >= len || (out_idx as usize) >= len {
            return Err(PoolError::InvalidArgument);
        }
        if self.total_shares == 0 {
            return Err(PoolError::InsufficientLiquidity);
        }
        let r_in = self.reserves[in_idx as usize];
        let r_out = self.reserves[out_idx as usize];
        let fee_mult: i128 = (FEE_DENOMINATOR - self.fee_fraction) as i128;
        let eff = match in_amount.checked_mul(fee_mult) {
            Some(p) => p,
            None => {
                return Err(PoolError::ArithmeticOverflow);
            },
        };
        let den1 = match r_in.checked_mul(FEE_DENOMINATOR as i128) {
            Some(p) => p,
            None => {
                return Err(PoolError::ArithmeticOverflow);
            },
        };
        let den = match den1.checked_add(eff) {
            Some(p) => p,
            None => {
                return Err(PoolError::ArithmeticOverflow);
            },
        };
        let num = match eff.checked_mul(r_out) {
            Some(p) => p,
            None => {
                return Err(PoolError::ArithmeticOverflow);
            },
        };
        proof {
            assert(den1 > 0 && eff >= 0 && num >= 0 && den > eff) by (nonlinear_arith)
                requires
                    r_in >= 1,
                    r_out >= 1,
                    in_amount >= 1,
                    fee_mult >= 1,
                    eff == in_amount * fee_mult,
                    den1 == r_in * (FEE_DENOMINATOR as i128),
                    den == den1 + eff,
                    num == eff * r_out,
            ;
            assert(num < den * r_out) by (nonlinear_arith)
                requires
                    num == eff * r_out,
                    0 <= eff,
                    eff < den,
                    r_out >= 1,
            ;
            vstd::arithmetic::div_mod::lemma_multiply_divide_lt(num as int, den as int, r_out as int);
            assert((num as int) / (den as int) >= 0) by (nonlinear_arith)
                requires
                    num >= 0,
                    den > 0,
            ;
        }
        Ok(num / den)
    }

    /// Read-only constant-product quote for an exact output: the input that
    /// buys exactly `out_amount`, rounded up in favor of the pool.
    pub fn estimate_swap_out(&self, in_idx: u32, out_idx: u32, out_amount: i128) -> (r: Result<
        i128,
        PoolError,
    >)
        requires
            self.wf(),
        ensures
            !self.swap_args_ok(in_idx, out_idx, out_amount) ==> r == Err::<i128, PoolError>(
                PoolError::InvalidArgument,
            ),
            self.swap_args_ok(in_idx, out_idx, out_amount) && self.total_shares == 0 ==> r == Err::<
                i128,
                PoolError,
            >(PoolError::InsufficientLiquidity),
            self.swap_args_ok(in_idx, out_idx, out_amount) && self.total_shares > 0 && out_amount
                >= self.reserves@[out_idx as int] ==> r == Err::<i128, PoolError>(
                PoolError::InsufficientLiquidity,
            ),
            self.swap_args_ok(in_idx, out_idx, out_amount) && self.total_shares > 0 && out_amount
                < self.reserves@[out_idx as int] && !estimate_in_fits(
                self.reserves@[in_idx as int] as int,
                self.reserves@[out_idx as int] as int,
                out_amount as int,
                self.fee_fraction as int,
            ) ==> r == Err::<i128, PoolError>(PoolError::ArithmeticOverflow),
            self.swap_args_ok(in_idx, out_idx, out_amount) && self.total_shares > 0 && out_amount
                < self.reserves@[out_idx as int] && estimate_in_fits(
                self.reserves@[in_idx as int] as int,
                self.reserves@[out_idx as int] as int,
                out_amount as int,
                self.fee_fraction as int,
            ) ==> r == Ok::<i128, PoolError>(
                cp_in_amount(
                    self.reserves@[in_idx as int] as int,
                    self.reserves@[out_idx as int] as int,
                    out_amount as int,
                    self.fee_fraction as int,
                ) as i128,
            ),
            r matches Ok(v) ==> 1 <= v,
            r is Ok ==> 1 <= cp_in_amount(
                self.reserves@[in_idx as int] as int,
                self.reserves@[out_idx as int] as int,
                out_amount as int,
                self.fee_fraction as int,
            ) <= i128::MAX,
    {
        if in_idx == out_idx || out_amount <= 0 {
            return Err(PoolError::InvalidArgument);
        }
        let len = self.tokens.len();
        if (in_idx as usize) >= len || (out_idx as usize) >= len {
            return Err(PoolError::InvalidArgument);
        }
        if self.total_shares == 0 {
            return Err(PoolError::InsufficientLiquidity);
        }
        let r_in = self.reserves[in_idx as usize];
        let r_out = self.reserves[out_idx as usize];
        if out_amount >= r_out {
            return Err(PoolError::InsufficientLiquidity);
        }
        let fee_mult: i128 = (FEE_DENOMINATOR - self.fee_fraction) as i128;
        let num1 = match r_in.checked_mul(out_amount) {
            Some(p) => p,
            None => {
                return Err(PoolError::ArithmeticOverflow);
            },
        };
        let num = match num1.checked_mul(FEE_DENOMINATOR as i128) {
            Some(p) => p,
            None => {
                return Err(PoolError::ArithmeticOverflow);
            },
        };
        let den = match (r_out - out_amount).checked_mul(fee_mult) {
            Some(p) => p,
            None => {
                return Err(PoolError::ArithmeticOverflow);
            },
        };
        proof {
            assert(den > 0 && num >= 0) by (nonlinear_arith)
                requires
                    r_out - out_amount >= 1,
                    fee_mult >= 1,
                    r_in >= 1,
                    out_amount >= 1,
                    den == (r_out - out_amount) * fee_mult,
                    num == r_in * out_amount * (FEE_DENOMINATOR as i128),
            ;
            assert((num as int) / (den as int) >= 0) by (nonlinear_arith)
                requires
                    num >= 0,
                    den > 0,
            ;
        }
        let q = num / den;
        match q.checked_add(1) {
            Some(v) => Ok(v),
            None => Err(PoolError::ArithmeticOverflow),
        }
    }
}

/// Cross-multiplied comparison of deposit ratios: `d[j]/r[j] <= d[i]/r[i]`.
pub open spec fn ratio_le(d: Seq<i128>, r: Seq<i128>, j: int, i: int) -> bool {
    d[j] * r[i] <= d[i] * r[j]
}

/// `j` is the first index at which `d[i]/r[i]` attains its minimum.
pub open spec fn is_first_min_ratio(d: Seq<i128>, r: Seq<i128>, j: int) -> bool {
    &&& 0 <= j < d.len()
    &&& forall|i: int| 0 <= i < d.len() ==> ratio_le(d, r, j, i)
    &&& forall|k: int| 0 <= k < j ==> !ratio_le(d, r, k, j)
}

/// The smallest amount in `s` (zero for an empty sequence).
pub open spec fn seq_min_amt(s: Seq<i128>) -> int
    decreases s.len(),
{
    if s.len() == 0 {
        0
    } else if s.len() == 1 {
        s[0] as int
    } else {
        let m = seq_min_amt(s.drop_last());
        if s.last() <= m {
            s.last() as int
        } else {
            m
        }
    }
}

/// The largest amount in `s` (zero for an empty sequence).
pub open spec fn seq_max_amt(s: Seq<i128>) -> int
    decreases s.len(),
{
    if s.len() == 0 {
        0
    } else {
        let m = seq_max_amt(s.drop_last());
        if s.last() >= m {
            s.last() as int
        } else {
            m
        }
    }
}

/// The smallest element of a non-empty vector of amounts.
fn vec_min_amt(v: &Vec<i128>) -> (r: i128)
    requires
        v@.len() >= 1,
    ensures
        r == seq_min_amt(v@),
        forall|i: int| 0 <= i < v@.len() ==> r <= #[trigger] v@[i],
        exists|i: int| 0 <= i < v@.len() && r == v@[i],
{
    let n = v.len();
    let mut m = v[0];
    let mut i: usize = 1;
    while i < n
        invariant
            n == v@.len(),
            1 <= i <= n,
            m == seq_min_amt(v@.take(i as int)),
            forall|q: int| 0 <= q < i ==> m <= #[trigger] v@[q],
            exists|q: int| 0 <= q < i && m == v@[q],
        decreases n - i,
    {
        proof {
            assert(v@.take(i + 1 as int).drop_last() =~= v@.take(i as int));
        }
        if v[i] < m {
            m = v[i];
        }
        i += 1;
    }
    proof {
        assert(v@.take(n as int) =~= v@);
    }
    m
}

/// The largest element of a vector of non-negative amounts.
fn vec_max_amt(v: &Vec<i128>) -> (r: i128)
    requires
        forall|i: int| 0 <= i < v@.len() ==> 0 <= #[trigger] v@[i],
    ensures
        r == seq_max_amt(v@),
        forall|i: int| 0 <= i < v@.len() ==> #[trigger] v@[i] <= r,
        0 <= r,
{
    let n = v.len();
    let mut m: i128 = 0;
    let mut i: usize = 0;
    proof {
        assert(v@.take(0) =~= Seq::<i128>::empty());
    }
    while i < n
        invariant
            n == v@.len(),
            i <= n,
            0 <= m,
            m == seq_max_amt(v@.take(i as int)),
            forall|q: int| 0 <= q < i ==> #[trigger] v@[q] <= m,
        decreases n - i,
    {
        proof {
            assert(v@.take(i + 1 as int).drop_last() =~= v@.take(i as int));
        }
        if v[i] > m {
            m = v[i];
        }
        i += 1;
    }
    proof {
        assert(v@.take(n as int) =~= v@);
    }
    m
}

proof fn lemma_ratio_lt_trans(di: int, dj: int, dk: int, ri: int, rj: int, rk: int)
    requires
        di * rj < dj * ri,
        dj * rk <= dk * rj,
        0 < ri,
        0 < rj,
        0 < rk,
    ensures
        di * rk < dk * ri,
{
    assert((di * rj) * rk < (dj * ri) * rk) by (nonlinear_arith)
        requires
            di * rj < dj * ri,
            rk > 0,
    ;
    assert((dj * rk) * ri <= (dk * rj) * ri) by (nonlinear_arith)
        requires
            dj * rk <= dk * rj,
            ri > 0,
    ;
    assert((dj * ri) * rk == (dj * rk) * ri) by (nonlinear_arith);
    assert((di * rj) * rk == (di * rk) * rj) by (nonlinear_arith);
    assert((dk * rj) * ri == (dk * ri) * rj) by (nonlinear_arith);
    assert((di * rk) * rj < (dk * ri) * rj);
    assert(di * rk < dk * ri) by (nonlinear_arith)
        requires
            (di * rk) * rj < (dk * ri) * rj,
            rj > 0,
    ;
}

/// Two first-minimum indices coincide.
pub proof fn lemma_first_min_unique(d: Seq<i128>, r: Seq<i128>, j1: int, j2: int)
    requires
        is_first_min_ratio(d, r, j1),
        is_first_min_ratio(d, r, j2),
    ensures
        j1 == j2,
{
    if j1 < j2 {
        assert(ratio_le(d, r, j1, j2));
        assert(!ratio_le(d, r, j1, j2));
    } else if j2 < j1 {
        assert(ratio_le(d, r, j2, j1));
        assert(!ratio_le(d, r, j2, j1));
    }
}

/// The amount withdrawing `s` shares pays from a reserve of `r_i` when
/// `t` shares are outstanding: the pro-rata share, rounded down.
pub open spec fn withdraw_amount(s: int, r_i: int, t: int) -> int {
    s * r_i / t
}

/// Whether every product `s * reserves[i]` stays within the `i128` range.
pub open spec fn withdraw_fits(s: int, r: Seq<i128>) -> bool {
    forall|i: int| 0 <= i < r.len() ==> s * (#[trigger] r[i]) <= i128::MAX
}

/// Whether some payout falls below the caller's minimum.
pub open spec fn withdraw_slips(s: int, r: Seq<i128>, t: int, mins: Seq<i128>) -> bool {
    exists|i: int| 0 <= i < r.len() && withdraw_amount(s, r[i] as int, t) < mins[i]
}

impl Pool {
    /// Swaps an exact input of `in_amount` of token `in_idx` for token
    /// `out_idx`, failing if the output falls below `out_min`.
    /// Shares do not change, so no reward checkpoint is taken.
    pub fn swap(
        &mut self,
        _user: u64,
        in_idx: u32,
        out_idx: u32,
        in_amount: i128,
        out_min: i128,
    ) -> (r: Result<i128, PoolError>)
        requires
            old(self).wf(),
        ensures
            final(self).wf(),
            r is Err ==> *final(self) == *old(self),
            !old(self).swap_args_ok(in_idx, out_idx, in_amount) ==> r == Err::<i128, PoolError>(
                PoolError::InvalidArgument,
            ),
            old(self).swap_args_ok(in_idx, out_idx, in_amount) && old(self).total_shares == 0
                ==> r == Err::<i128, PoolError>(PoolError::InsufficientLiquidity),
            old(self).swap_args_ok(in_idx, out_idx, in_amount) && old(self).total_shares > 0
                && !estimate_out_fits(
                old(self).reserves@[in_idx as int] as int,
                old(self).reserves@[out_idx as int] as int,
                in_amount as int,
                old(self).fee_fraction as int,
            ) ==> r == Err::<i128, PoolError>(PoolError::ArithmeticOverflow),
            ({
                let r_in = old(self).reserves@[in_idx as int] as int;
                let r_out = old(self).reserves@[out_idx as int] as int;
                let fee = old(self).fee_fraction as int;
                old(self).swap_args_ok(in_idx, out_idx, in_amount) && old(self).total_shares > 0
                    && estimate_out_fits(r_in, r_out, in_amount as int, fee) ==> {
                    let out = cp_out_amount(r_in, r_out, in_amount as int, fee);
                    &&& (out < out_min ==> r == Err::<i128, PoolError>(PoolError::SlippageExceeded))
                    &&& (out >= out_min && r_in + in_amount > i128::MAX ==> r == Err::<
                        i128,
                        PoolError,
                    >(PoolError::ArithmeticOverflow))
                    &&& (out >= out_min && r_in + in_amount <= i128::MAX ==> {
                        &&& r == Ok::<i128, PoolError>(out as i128)
                        &&& final(self).reserves@ == old(self).reserves@.update(
                            in_idx as int,
                            (r_in + in_amount) as i128,
                        ).update(out_idx as int, (r_out - out) as i128)
                        &&& final(self).tokens@ == old(self).tokens@
                        &&& final(self).total_shares == old(self).total_shares
                        &&& final(self).fee_fraction == old(self).fee_fraction
                        &&& final(self).share_balances == old(self).share_balances
                        &&& final(self).rewards == old(self).rewards
                    })
                }
            }),
    {
        let out = match self.estimate_swap(in_idx, out_idx, in_amount) {
            Ok(v) => v,
            Err(e) => {
                return Err(e);
            },
        };
        if out < out_min {
            return Err(PoolError::SlippageExceeded);
        }
        let r_in = self.reserves[in_idx as usize];
        let r_out = self.reserves[out_idx as usize];
        let new_in = match r_in.checked_add(in_amount) {
            Some(v) => v,
            None => {
                return Err(PoolError::ArithmeticOverflow);
            },
        };
        self.reserves[in_idx as usize] = new_in;
        self.reserves[out_idx as usize] = r_out - out;
        proof {
            assert(self.reserves@ == old(self).reserves@.update(
                in_idx as int,
                new_in,
            ).update(out_idx as int, (r_out - out) as i128));
            assert(forall|q: int|
                0 <= q < self.reserves@.len() ==> #[trigger] self.reserves@[q] > 0);
        }
        Ok(out)
    }

    /// Swaps for an exact output of `out_amount` of token `out_idx`,
    /// failing if the input needed exceeds `in_max`. Returns the input
    /// charged. Shares do not change, so no reward checkpoint is taken.
    pub fn swap_out(
        &mut self,
        _user: u64,
        in_idx: u32,
        out_idx: u32,
        out_amount: i128,
        in_max: i128,
    ) -> (r: Result<i128, PoolError>)
        requires
            old(self).wf(),
        ensures
            final(self).wf(),
            r is Err ==> *final(self) == *old(self),
            !old(self).swap_args_ok(in_idx, out_idx, out_amount) ==> r == Err::<i128, PoolError>(
                PoolError::InvalidArgument,
            ),
            old(self).swap_args_ok(in_idx, out_idx, out_amount) && old(self).total_shares == 0
                ==> r == Err::<i128, PoolError>(PoolError::InsufficientLiquidity),
            old(self).swap_args_ok(in_idx, out_idx, out_amount) && old(self).total_shares > 0
                && out_amount >= old(self).reserves@[out_idx as int] ==> r == Err::<i128, PoolError>(
                PoolError::InsufficientLiquidity,
            ),
            old(self).swap_args_ok(in_idx, out_idx, out_amount) && old(self).total_shares > 0
                && out_amount < old(self).reserves@[out_idx as int] && !estimate_in_fits(
                old(self).reserves@[in_idx as int] as int,
                old(self).reserves@[out_idx as int] as int,
                out_amount as int,
                old(self).fee_fraction as int,
            ) ==> r == Err::<i128, PoolError>(PoolError::ArithmeticOverflow),
            ({
                let r_in = old(self).reserves@[in_idx as int] as int;
                let r_out = old(self).reserves@[out_idx as int] as int;
                let fee = old(self).fee_fraction as int;
                old(self).swap_args_ok(in_idx, out_idx, out_amount) && old(self).total_shares > 0
                    && out_amount < r_out && estimate_in_fits(r_in, r_out, out_amount as int, fee)
                    ==> {
                    let in_amt = cp_in_amount(r_in, r_out, out_amount as int, fee);
                    &&& (in_amt > in_max ==> r == Err::<i128, PoolError>(
                        PoolError::SlippageExceeded,
                    ))
                    &&& (in_amt <= in_max && r_in + in_amt > i128::MAX ==> r == Err::<
                        i128,
                        PoolError,
                    >(PoolError::ArithmeticOverflow))
                    &&& (in_amt <= in_max && r_in + in_amt <= i128::MAX ==> {
                        &&& r == Ok::<i128, PoolError>(in_amt as i128)
                        &&& final(self).reserves@ == old(self).reserves@.update(
                            in_idx as int,
                            (r_in + in_amt) as i128,
                        ).update(out_idx as int, (r_out - out_amount) as i128)
                        &&& final(self).tokens@ == old(self).tokens@
                        &&& final(self).total_shares == old(self).total_shares
                        &&& final(self).fee_fraction == old(self).fee_fraction
                        &&& final(self).share_balances == old(self).share_balances
                        &&& final(self).rewards == old(self).rewards
                    })
                }
            }),
    {
        let in_amt = match self.estimate_swap_out(in_idx, out_idx, out_amount) {
            Ok(v) => v,
            Err(e) => {
                return Err(e);
            },
        };
        if in_amt > in_max {
            return Err(PoolError::SlippageExceeded);
        }
        let r_in = self.reserves[in_idx as usize];
        let r_out = self.reserves[out_idx as usize];
        let new_in = match r_in.checked_add(in_amt) {
            Some(v) => v,
            None => {
                return Err(PoolError::ArithmeticOverflow);
            },
        };
        self.reserves[in_idx as usize] = new_in;
        self.reserves[out_idx as usize] = r_out - out_amount;
        proof {
            assert(self.reserves@ == old(self).reserves@.update(
                in_idx as int,
                new_in,
            ).update(out_idx as int, (r_out - out_amount) as i128));
            assert(forall|q: int|
                0 <= q < self.reserves@.len() ==> #[trigger] self.reserves@[q] > 0);
        }
        Ok(in_amt)
    }

    /// Burns `share_amount` of the caller's shares and pays out the
    /// pro-rata part of every reserve, rounded down; fails on slippage if
    /// any payout falls below the caller's minimum. The caller's reward
    /// checkpoint is refreshed with the pre-withdrawal share balance.
    #[verifier::loop_isolation(false)]
    pub fn withdraw(
        &mut self,
        user: u64,
        share_amount: i128,
        min_amounts: Vec<i128>,
        now: u64,
    ) -> (r: Result<Vec<i128>, PoolError>)
        requires
            old(self).wf(),
        ensures
            final(self).wf(),
            r is Err ==> *final(self) == *old(self),
            min_amounts@.len() != old(self).tokens@.len() ==> r == Err::<Vec<i128>, PoolError>(
                PoolError::InvalidArgument,
            ),
            min_amounts@.len() == old(self).tokens@.len() && !(0 < share_amount <= old(
                self,
            ).balance_of(user) && share_amount <= old(self).total_shares) ==> r == Err::<
                Vec<i128>,
                PoolError,
            >(PoolError::InvalidArgument),
            ({
                let s = share_amount as int;
                let t = old(self).total_shares as int;
                let r0 = old(self).reserves@;
                let bal = old(self).balance_of(user);
                min_amounts@.len() == old(self).tokens@.len() && 0 < share_amount <= bal
                    && share_amount <= old(self).total_shares ==> {
                    &&& (!withdraw_fits(s, r0) ==> r == Err::<Vec<i128>, PoolError>(
                        PoolError::ArithmeticOverflow,
                    ))
                    &&& (withdraw_fits(s, r0) && withdraw_slips(s, r0, t, min_amounts@) ==> r
                        == Err::<Vec<i128>, PoolError>(PoolError::SlippageExceeded))
                    &&& (withdraw_fits(s, r0) && !withdraw_slips(s, r0, t, min_amounts@)
                        && !rewards::checkpoint_ok(
                        old(self).rewards,
                        user,
                        bal as i128,
                        old(self).total_shares,
                        now,
                    ) ==> r == Err::<Vec<i128>, PoolError>(PoolError::ArithmeticOverflow))
                    &&& (withdraw_fits(s, r0) && !withdraw_slips(s, r0, t, min_amounts@)
                        && rewards::checkpoint_ok(
                        old(self).rewards,
                        user,
                        bal as i128,
                        old(self).total_shares,
                        now,
                    ) ==> {
                        &&& r is Ok
                        &&& r matches Ok(v) ==> {
                            &&& v@.len() == r0.len()
                            &&& forall|i: int|
                                0 <= i < r0.len() ==> #[trigger] v@[i] == withdraw_amount(
                                    s,
                                    r0[i] as int,
                                    t,
                                )
                            &&& final(self).reserves@.len() == r0.len()
                            &&& forall|i: int|
                                0 <= i < r0.len() ==> #[trigger] final(self).reserves@[i] == r0[i]
                                    - v@[i]
                            &&& final(self).total_shares == t - s
                            &&& final(self).share_balances.spec_get(user) == Some(
                                (bal - s) as i128,
                            )
                            &&& forall|a2: u64|
                                a2 != user ==> final(self).share_balances.spec_get(a2) == old(
                                    self,
                                ).share_balances.spec_get(a2)
                            &&& rewards::checkpoint_applied(
                                old(self).rewards,
                                final(self).rewards,
                                user,
                                bal as i128,
                                old(self).total_shares,
                                now,
                            )
                            &&& final(self).tokens@ == old(self).tokens@
                            &&& final(self).fee_fraction == old(self).fee_fraction
                        }
                    })
                }
            }),
    {
        broadcast use vstd::arithmetic::div_mod::lemma_div_is_ordered;
        broadcast use vstd::arithmetic::div_mod::lemma_div_by_multiple;
        broadcast use vstd::arithmetic::div_mod::lemma_multiply_divide_lt;
        broadcast use vstd::arithmetic::mul::lemma_mul_inequality;

        let n = self.tokens.len();
        if min_amounts.len() != n {
            return Err(PoolError::InvalidArgument);
        }
        if share_amount <= 0 {
            return Err(PoolError::InvalidArgument);
        }
        let bal = self.get_share_balance(user);
        if share_amount > bal || share_amount > self.total_shares {
            return Err(PoolError::InvalidArgument);
        }
        let t = self.total_shares;
        let ghost r0 = self.reserves@;
        let mut amounts: Vec<i128> = Vec::new();
        let mut i: usize = 0;
        while i < n
            invariant
                self == old(self),
                old(self).wf(),
                n == r0.len(),
                r0 == self.reserves@,
                t == self.total_shares,
                0 < share_amount <= t,
                i <= n,
                amounts@.len() == i,
                forall|q: int| 0 <= q < i ==> share_amount * (#[trigger] r0[q]) <= i128::MAX,
                forall|q: int|
                    0 <= q < i ==> #[trigger] amounts@[q] == withdraw_amount(
                        share_amount as int,
                        r0[q] as int,
                        t as int,
                    ),
                forall|q: int| 0 <= q < i ==> 0 <= #[trigger] amounts@[q] <= r0[q],
            decreases n - i,
        {
            let w = match share_amount.checked_mul(self.reserves[i]) {
                Some(p) => p / t,
                None => {
                    return Err(PoolError::ArithmeticOverflow);
                },
            };
            proof {
                let ri = r0[i as int] as int;
                let s = share_amount as int;
                assert(s * ri <= t * ri) by (nonlinear_arith)
                    requires
                        0 < s <= t,
                        0 <= ri,
                ;
                assert((t * ri) / (t as int) == ri) by {
                    vstd::arithmetic::div_mod::lemma_div_by_multiple(ri, t as int);
                    vstd::arithmetic::mul::lemma_mul_is_commutative(ri, t as int);
                }
                assert((s * ri) / (t as int) >= 0) by (nonlinear_arith)
                    requires
                        s >= 0,
                        ri >= 0,
                        t > 0,
                ;
            }
            amounts.push(w);
            i += 1;
        }
        // slippage check against the caller's minima
        let mut k: usize = 0;
        while k < n
            invariant
                self == old(self),
                old(self).wf(),
                n == r0.len(),
                r0 == self.reserves@,
                t == self.total_shares,
                0 < share_amount <= t,
                k <= n,
                n == min_amounts@.len(),
                amounts@.len() == n,
                forall|q: int|
                    0 <= q < n ==> #[trigger] amounts@[q] == withdraw_amount(
                        share_amount as int,
                        r0[q] as int,
                        t as int,
                    ),
                forall|q: int| 0 <= q < n ==> 0 <= #[trigger] amounts@[q] <= r0[q],
                forall|q: int| 0 <= q < k ==> #[trigger] amounts@[q] >= min_amounts@[q],
            decreases n - k,
        {
            if amounts[k] < min_amounts[k] {
                return Err(PoolError::SlippageExceeded);
            }
            k += 1;
        }
        proof {
            assert forall|q: int| 0 <= q < r0.len() implies !(withdraw_amount(
                share_amount as int,
                r0[q] as int,
                t as int,
            ) < min_amounts@[q]) by {
                assert(amounts@[q] == withdraw_amount(share_amount as int, r0[q] as int, t as int));
                assert(amounts@[q] >= min_amounts@[q]);
            }
            assert(!withdraw_slips(share_amount as int, r0, t as int, min_amounts@));
        }
        let new_bal = bal - share_amount;
        let new_t = t - share_amount;
        match self.rewards.checkpoint(user, bal, t, now) {
            Ok(_) => {},
            Err(e) => {
                return Err(e);
            },
        }
        let ghost rw1 = self.rewards;
        let ghost sb1 = self.share_balances;
        let mut u: usize = 0;
        while u < n
            invariant
                n == r0.len(),
                self.reserves@.len() == n,
                amounts@.len() == n,
                u <= n,
                self.tokens@ == old(self).tokens@,
                self.total_shares == old(self).total_shares,
                self.fee_fraction == old(self).fee_fraction,
                self.share_balances == sb1,
                self.rewards == rw1,
                forall|q: int| 0 <= q < n ==> 0 <= #[trigger] amounts@[q] <= r0[q],
                forall|q: int| u <= q < n ==> #[trigger] self.reserves@[q] == r0[q],
                forall|q: int|
                    0 <= q < u ==> #[trigger] self.reserves@[q] == r0[q] - amounts@[q],
            decreases n - u,
        {
            let nr = self.reserves[u] - amounts[u];
            self.reserves[u] = nr;
            u += 1;
        }
        self.total_shares = new_t;
        let ghost sb0 = self.share_balances;
        self.share_balances.set(user, new_bal);
        proof {{
            let s0 = sb0.entries@;
            if exists|i: int|
                0 <= i < s0.len() && (#[trigger] s0[i]).0 == user && self.share_balances.entries@
                    == s0.update(i, (user, new_bal)) {{
                let i = choose|i: int|
                    0 <= i < s0.len() && (#[trigger] s0[i]).0 == user
                        && self.share_balances.entries@ == s0.update(i, (user, new_bal));
                crate::table::lemma_seq_get_unique_key(s0, user, i);
                lemma_balances_sum_update(s0, i, (user, new_bal));
            }} else {{
                lemma_balances_sum_push(s0, (user, new_bal));
            }}
        }}
        proof {
            let s = share_amount as int;
            if new_t == 0 {
                assert forall|q: int| 0 <= q < n implies #[trigger] self.reserves@[q] == 0 by {
                    let ri = r0[q] as int;
                    vstd::arithmetic::div_mod::lemma_div_by_multiple(ri, t as int);
                    vstd::arithmetic::mul::lemma_mul_is_commutative(ri, t as int);
                    assert(amounts@[q] == (t * ri) / (t as int));
                }
            } else {
                assert forall|q: int| 0 <= q < n implies #[trigger] self.reserves@[q] > 0 by {
                    let ri = r0[q] as int;
                    assert(s * ri < t * ri) by (nonlinear_arith)
                        requires
                            0 < s < t,
                            0 < ri,
                    ;
                    vstd::arithmetic::div_mod::lemma_multiply_divide_lt(s * ri, t as int, ri);
                }
            }
        }
        Ok(amounts)
    }

    /// Deposits into the pool at the current reserve ratio: the caller
    /// offers `desired_amounts` and the pool takes, per token, the largest
    /// amounts of the same ratio as its reserves that do not exceed any
    /// offer, minting shares pro rata (for the first deposit, the offered
    /// amounts themselves, minting their minimum). Returns the amounts
    /// taken and the shares minted. The caller's reward checkpoint is
    /// refreshed with the pre-deposit share balance.
    #[verifier::loop_isolation(false)]
    pub fn deposit(&mut self, user: u64, desired_amounts: Vec<i128>, now: u64) -> (r: Result<
        (Vec<i128>, i128),
        PoolError,
    >)
        requires
            old(self).wf(),
        ensures
            final(self).wf(),
            r is Err ==> *final(self) == *old(self),
            desired_amounts@.len() != old(self).tokens@.len() ==> r == Err::<
                (Vec<i128>, i128),
                PoolError,
            >(PoolError::InvalidArgument),
            ({
                let d = desired_amounts@;
                let bal = old(self).balance_of(user);
                d.len() == old(self).tokens@.len() && old(self).total_shares == 0 ==> {
                    &&& ((exists|i: int| 0 <= i < d.len() && #[trigger] d[i] <= 0) ==> r == Err::<
                        (Vec<i128>, i128),
                        PoolError,
                    >(PoolError::InvalidArgument))
                    &&& ((forall|i: int| 0 <= i < d.len() ==> #[trigger] d[i] > 0) ==> {
                        let sh = seq_min_amt(d);
                        &&& (bal + sh > i128::MAX ==> r == Err::<(Vec<i128>, i128), PoolError>(
                            PoolError::ArithmeticOverflow,
                        ))
                        &&& (bal + sh <= i128::MAX && !rewards::checkpoint_ok(
                            old(self).rewards,
                            user,
                            bal as i128,
                            0,
                            now,
                        ) ==> r == Err::<(Vec<i128>, i128), PoolError>(
                            PoolError::ArithmeticOverflow,
                        ))
                        &&& (bal + sh <= i128::MAX && rewards::checkpoint_ok(
                            old(self).rewards,
                            user,
                            bal as i128,
                            0,
                            now,
                        ) ==> {
                            &&& r is Ok
                            &&& r matches Ok(v) ==> {
                                &&& v.0@ == d
                                &&& v.1 == sh
                                &&& final(self).reserves@ == d
                                &&& final(self).total_shares == sh
                                &&& final(self).share_balances.spec_get(user) == Some(
                                    (bal + sh) as i128,
                                )
                                &&& forall|a2: u64|
                                    a2 != user ==> final(self).share_balances.spec_get(a2) == old(
                                        self,
                                    ).share_balances.spec_get(a2)
                                &&& rewards::checkpoint_applied(
                                    old(self).rewards,
                                    final(self).rewards,
                                    user,
                                    bal as i128,
                                    0,
                                    now,
                                )
                                &&& final(self).tokens@ == old(self).tokens@
                                &&& final(self).fee_fraction == old(self).fee_fraction
                            }
                        })
                    })
                }
            }),
            ({
                let d = desired_amounts@;
                let r0 = old(self).reserves@;
                let t = old(self).total_shares as int;
                let bal = old(self).balance_of(user);
                d.len() == old(self).tokens@.len() && old(self).total_shares > 0 ==> {
                    &&& ((exists|i: int| 0 <= i < d.len() && #[trigger] d[i] < 0) ==> r == Err::<
                        (Vec<i128>, i128),
                        PoolError,
                    >(PoolError::InvalidArgument))
                    &&& ((forall|i: int| 0 <= i < d.len() ==> #[trigger] d[i] >= 0) ==> {
                        &&& (seq_max_amt(d) * seq_max_amt(r0) > i128::MAX ==> r == Err::<
                            (Vec<i128>, i128),
                            PoolError,
                        >(PoolError::ArithmeticOverflow))
                        &&& (seq_max_amt(d) * seq_max_amt(r0) <= i128::MAX ==> {
                            &&& exists|j: int| #[trigger] is_first_min_ratio(d, r0, j)
                            &&& forall|j: int|
                                #[trigger] is_first_min_ratio(d, r0, j) ==> {
                                    let rj = r0[j] as int;
                                    let sh = d[j] * t / rj;
                                    &&& (d[j] * t > i128::MAX ==> r == Err::<
                                        (Vec<i128>, i128),
                                        PoolError,
                                    >(PoolError::ArithmeticOverflow))
                                    &&& (d[j] * t <= i128::MAX && sh == 0 ==> r == Err::<
                                        (Vec<i128>, i128),
                                        PoolError,
                                    >(PoolError::InvalidArgument))
                                    &&& (d[j] * t <= i128::MAX && sh > 0 ==> {
                                        &&& ((exists|i: int|
                                            0 <= i < d.len() && d[j] * (#[trigger] r0[i]) / rj == 0
                                                && d[i] > 0) ==> r == Err::<
                                            (Vec<i128>, i128),
                                            PoolError,
                                        >(PoolError::InvalidArgument))
                                        &&& ((forall|i: int|
                                            0 <= i < d.len() ==> !(d[j] * (#[trigger] r0[i]) / rj
                                                == 0 && d[i] > 0)) ==> {
                                            &&& ((exists|i: int|
                                                0 <= i < d.len() && (#[trigger] r0[i]) + d[j]
                                                    * r0[i] / rj > i128::MAX) ==> r == Err::<
                                                (Vec<i128>, i128),
                                                PoolError,
                                            >(PoolError::ArithmeticOverflow))
                                            &&& ((forall|i: int|
                                                0 <= i < d.len() ==> (#[trigger] r0[i]) + d[j]
                                                    * r0[i] / rj <= i128::MAX) ==> {
                                                &&& (t + sh > i128::MAX || bal + sh > i128::MAX
                                                    ==> r == Err::<(Vec<i128>, i128), PoolError>(
                                                    PoolError::ArithmeticOverflow,
                                                ))
                                                &&& (t + sh <= i128::MAX && bal + sh <= i128::MAX
                                                    && !rewards::checkpoint_ok(
                                                    old(self).rewards,
                                                    user,
                                                    bal as i128,
                                                    old(self).total_shares,
                                                    now,
                                                ) ==> r == Err::<(Vec<i128>, i128), PoolError>(
                                                    PoolError::ArithmeticOverflow,
                                                ))
                                                &&& (t + sh <= i128::MAX && bal + sh <= i128::MAX
                                                    && rewards::checkpoint_ok(
                                                    old(self).rewards,
                                                    user,
                                                    bal as i128,
                                                    old(self).total_shares,
                                                    now,
                                                ) ==> {
                                                    &&& r is Ok
                                                    &&& r matches Ok(v) ==> {
                                                        &&& v.0@.len() == d.len()
                                                        &&& forall|i: int|
                                                            0 <= i < d.len()
                                                                ==> #[trigger] v.0@[i] == d[j] * (
                                                            r0[i] as int) / rj
                                                        &&& v.1 == sh
                                                        &&& final(self).reserves@.len() == d.len()
                                                        &&& forall|i: int|
                                                            0 <= i < d.len()
                                                                ==> #[trigger] final(self).reserves@[i]
                                                                == r0[i] + v.0@[i]
                                                        &&& final(self).total_shares == t + sh
                                                        &&& final(self).share_balances.spec_get(
                                                            user,
                                                        ) == Some((bal + sh) as i128)
                                                        &&& forall|a2: u64|
                                                            a2 != user ==> final(self).share_balances.spec_get(a2) == old(
                                                                self,
                                                            ).share_balances.spec_get(a2)
                                                        &&& rewards::checkpoint_applied(
                                                            old(self).rewards,
                                                            final(self).rewards,
                                                            user,
                                                            bal as i128,
                                                            old(self).total_shares,
                                                            now,
                                                        )
                                                        &&& final(self).tokens@ == old(
                                                            self,
                                                        ).tokens@
                                                        &&& final(self).fee_fraction == old(
                                                            self,
                                                        ).fee_fraction
                                                    }
                                                })
                                            })
                                        })
                                    })
                                }
                        })
                    })
                }
            }),
    {
        broadcast use vstd::arithmetic::mul::lemma_mul_nonnegative;
        broadcast use vstd::arithmetic::mul::lemma_mul_upper_bound;

        let n = self.tokens.len();
        if desired_amounts.len() != n {
            return Err(PoolError::InvalidArgument);
        }
        let bal = self.get_share_balance(user);
        let t = self.total_shares;
        let ghost d = desired_amounts@;
        let ghost r0 = self.reserves@;
        if t == 0 {
            let mut i: usize = 0;
            while i < n
                invariant
                    i <= n,
                    forall|q: int| 0 <= q < i ==> #[trigger] d[q] > 0,
                decreases n - i,
            {
                if desired_amounts[i] <= 0 {
                    return Err(PoolError::InvalidArgument);
                }
                i += 1;
            }
            let sh = vec_min_amt(&desired_amounts);
            let new_bal = match bal.checked_add(sh) {
                Some(v) => v,
                None => {
                    return Err(PoolError::ArithmeticOverflow);
                },
            };
            match self.rewards.checkpoint(user, bal, t, now) {
                Ok(_) => {},
                Err(e) => {
                    return Err(e);
                },
            }
            let actual = vec_copy(&desired_amounts);
            self.reserves = vec_copy(&desired_amounts);
            self.total_shares = sh;
            let ghost sb0 = self.share_balances;
            self.share_balances.set(user, new_bal);
            proof {{
            let s0 = sb0.entries@;
            if exists|i: int|
                0 <= i < s0.len() && (#[trigger] s0[i]).0 == user && self.share_balances.entries@
                    == s0.update(i, (user, new_bal)) {{
                let i = choose|i: int|
                    0 <= i < s0.len() && (#[trigger] s0[i]).0 == user
                        && self.share_balances.entries@ == s0.update(i, (user, new_bal));
                crate::table::lemma_seq_get_unique_key(s0, user, i);
                lemma_balances_sum_update(s0, i, (user, new_bal));
            }} else {{
                lemma_balances_sum_push(s0, (user, new_bal));
            }}
        }}
            return Ok((actual, sh));
        }
        let mut i: usize = 0;
        while i < n
            invariant
                i <= n,
                forall|q: int| 0 <= q < i ==> #[trigger] d[q] >= 0,
            decreases n - i,
        {
            if desired_amounts[i] < 0 {
                return Err(PoolError::InvalidArgument);
            }
            i += 1;
        }
        let md = vec_max_amt(&desired_amounts);
        let mr = vec_max_amt(&self.reserves);
        match md.checked_mul(mr) {
            Some(_) => {},
            None => {
                return Err(PoolError::ArithmeticOverflow);
            },
        }
        // first index attaining the minimum deposit/reserve ratio
        let mut j: usize = 0;
        let mut k: usize = 1;
        while k < n
            invariant
                1 <= k <= n,
                (j as int) < k,
                forall|q: int| 0 <= q < k ==> ratio_le(d, r0, j as int, q),
                forall|q: int| 0 <= q < j ==> !ratio_le(d, r0, q, j as int),
            decreases n - k,
        {
            proof {
                vstd::arithmetic::mul::lemma_mul_upper_bound(
                    d[k as int] as int,
                    md as int,
                    r0[j as int] as int,
                    mr as int,
                );
                vstd::arithmetic::mul::lemma_mul_upper_bound(
                    d[j as int] as int,
                    md as int,
                    r0[k as int] as int,
                    mr as int,
                );
                vstd::arithmetic::mul::lemma_mul_nonnegative(
                    d[k as int] as int,
                    r0[j as int] as int,
                );
                vstd::arithmetic::mul::lemma_mul_nonnegative(
                    d[j as int] as int,
                    r0[k as int] as int,
                );
            }
            let lhs = desired_amounts[k] * self.reserves[j];
            let rhs = desired_amounts[j] * self.reserves[k];
            if lhs < rhs {
                proof {
                    let ghost jo = j as int;
                    assert forall|q: int| 0 <= q < k + 1 implies ratio_le(d, r0, k as int, q) by {
                        if q < k {
                            assert(r0[q] > 0 && r0[k as int] > 0 && r0[jo] > 0);
                            assert(ratio_le(d, r0, jo, q));
                            lemma_ratio_lt_trans(
                                d[k as int] as int,
                                d[jo] as int,
                                d[q] as int,
                                r0[k as int] as int,
                                r0[jo] as int,
                                r0[q] as int,
                            );
                        }
                    }
                    assert forall|q: int| 0 <= q < k implies !ratio_le(d, r0, q, k as int) by {
                        assert(r0[q] > 0 && r0[k as int] > 0 && r0[jo] > 0);
                        assert(ratio_le(d, r0, jo, q));
                        lemma_ratio_lt_trans(
                            d[k as int] as int,
                            d[jo] as int,
                            d[q] as int,
                            r0[k as int] as int,
                            r0[jo] as int,
                            r0[q] as int,
                        );
                    }
                }
                j = k;
            }
            k += 1;
        }
        proof {
            assert(is_first_min_ratio(d, r0, j as int));
            assert forall|j2: int| #[trigger] is_first_min_ratio(d, r0, j2) implies j2
                == j as int by {
                lemma_first_min_unique(d, r0, j2, j as int);
            }
        }
        let dj = desired_amounts[j];
        let rj = self.reserves[j];
        let sh_full = match dj.checked_mul(t) {
            Some(p) => p,
            None => {
                return Err(PoolError::ArithmeticOverflow);
            },
        };
        let sh = sh_full / rj;
        proof {
            assert(sh >= 0) by (nonlinear_arith)
                requires
                    sh == sh_full / rj,
                    sh_full >= 0,
                    rj > 0,
            ;
        }
        if sh == 0 {
            return Err(PoolError::InvalidArgument);
        }
        let mut actual: Vec<i128> = Vec::new();
        let mut p: usize = 0;
        while p < n
            invariant
                p <= n,
                actual@.len() == p,
                forall|q: int|
                    0 <= q < p ==> #[trigger] actual@[q] == d[j as int] * (r0[q] as int) / (
                    r0[j as int] as int),
                forall|q: int| 0 <= q < p ==> 0 <= #[trigger] actual@[q],
                forall|q: int| 0 <= q < p ==> !(#[trigger] actual@[q] == 0 && d[q] > 0),
            decreases n - p,
        {
            proof {
                vstd::arithmetic::mul::lemma_mul_upper_bound(
                    d[j as int] as int,
                    md as int,
                    r0[p as int] as int,
                    mr as int,
                );
                vstd::arithmetic::mul::lemma_mul_nonnegative(
                    d[j as int] as int,
                    r0[p as int] as int,
                );
            }
            let num = dj * self.reserves[p];
            let a = num / rj;
            proof {
                assert(a >= 0) by (nonlinear_arith)
                    requires
                        a == num / rj,
                        num >= 0,
                        rj > 0,
                ;
            }
            if a == 0 && desired_amounts[p] > 0 {
                return Err(PoolError::InvalidArgument);
            }
            actual.push(a);
            p += 1;
        }
        proof {
            assert forall|w: int| 0 <= w < n implies !(d[j as int] * (r0[w] as int) / (
            r0[j as int] as int) == 0 && d[w] > 0) by {
                assert(actual@[w] == d[j as int] * (r0[w] as int) / (r0[j as int] as int));
                assert(!(actual@[w] == 0 && d[w] > 0));
            }
        }
        let mut new_reserves: Vec<i128> = Vec::new();
        let mut q: usize = 0;
        while q < n
            invariant
                q <= n,
                new_reserves@.len() == q,
                actual@.len() == n,
                forall|w: int|
                    0 <= w < n ==> #[trigger] actual@[w] == d[j as int] * (r0[w] as int) / (
                    r0[j as int] as int),
                forall|w: int| 0 <= w < n ==> 0 <= #[trigger] actual@[w],
                forall|w: int|
                    0 <= w < q ==> #[trigger] new_reserves@[w] == r0[w] + actual@[w],
            decreases n - q,
        {
            match self.reserves[q].checked_add(actual[q]) {
                Some(v) => {
                    new_reserves.push(v);
                },
                None => {
                    return Err(PoolError::ArithmeticOverflow);
                },
            }
            q += 1;
        }
        proof {
            assert forall|w: int| 0 <= w < n implies (r0[w] as int) + d[j as int] * (
            r0[w] as int) / (r0[j as int] as int) <= i128::MAX by {
                assert(new_reserves@[w] == r0[w] + actual@[w]);
                assert(actual@[w] == d[j as int] * (r0[w] as int) / (r0[j as int] as int));
            }
        }
        let new_t = match t.checked_add(sh) {
            Some(v) => v,
            None => {
                return Err(PoolError::ArithmeticOverflow);
            },
        };
        let new_bal = match bal.checked_add(sh) {
            Some(v) => v,
            None => {
                return Err(PoolError::ArithmeticOverflow);
            },
        };
        match self.rewards.checkpoint(user, bal, t, now) {
            Ok(_) => {},
            Err(e) => {
                return Err(e);
            },
        }
        self.reserves = new_reserves;
        self.total_shares = new_t;
        let ghost sb0 = self.share_balances;
        self.share_balances.set(user, new_bal);
        proof {{
            let s0 = sb0.entries@;
            if exists|i: int|
                0 <= i < s0.len() && (#[trigger] s0[i]).0 == user && self.share_balances.entries@
                    == s0.update(i, (user, new_bal)) {{
                let i = choose|i: int|
                    0 <= i < s0.len() && (#[trigger] s0[i]).0 == user
                        && self.share_balances.entries@ == s0.update(i, (user, new_bal));
                crate::table::lemma_seq_get_unique_key(s0, user, i);
                lemma_balances_sum_update(s0, i, (user, new_bal));
            }} else {{
                lemma_balances_sum_push(s0, (user, new_bal));
            }}
        }}
        Ok((actual, sh))
    }

    /// Pays out everything owed to `user` by the reward engine; returns
    /// the amount paid, zero being a valid result.
    pub fn claim(&mut self, user: u64, now: u64) -> (r: Result<i128, PoolError>)
        requires
            old(self).wf(),
        ensures
            final(self).wf(),
            r is Err ==> *final(self) == *old(self) && r == Err::<i128, PoolError>(
                PoolError::ArithmeticOverflow,
            ),
            r is Ok <==> rewards::checkpoint_ok(
                old(self).rewards,
                user,
                old(self).balance_of(user) as i128,
                old(self).total_shares,
                now,
            ),
            r matches Ok(v) ==> {
                &&& v == rewards::claim_amount(
                    old(self).rewards,
                    user,
                    old(self).balance_of(user) as i128,
                    old(self).total_shares,
                    now,
                )
                &&& 0 <= v
                &&& final(self).rewards.accumulator == rewards::acc_after(
                    old(self).rewards,
                    old(self).total_shares,
                    now,
                )
                &&& final(self).rewards.last_update_time == rewards::accrual_upto(
                    old(self).rewards,
                    now,
                )
                &&& final(self).rewards.users.spec_get(user) == Some(
                    (final(self).rewards.accumulator, 0i128),
                )
                &&& forall|a2: u64|
                    a2 != user ==> final(self).rewards.users.spec_get(a2) == old(
                        self,
                    ).rewards.users.spec_get(a2)
                &&& final(self).rewards.rate == old(self).rewards.rate
                &&& final(self).rewards.expires_at == old(self).rewards.expires_at
                &&& final(self).rewards.admin == old(self).rewards.admin
                &&& final(self).tokens@ == old(self).tokens@
                &&& final(self).reserves@ == old(self).reserves@
                &&& final(self).total_shares == old(self).total_shares
                &&& final(self).fee_fraction == old(self).fee_fraction
                &&& final(self).share_balances == old(self).share_balances
            },
    {
        let bal = self.get_share_balance(user);
        let t = self.total_shares;
        match self.rewards.claim(user, bal, t, now) {
            Ok(v) => Ok(v),
            Err(e) => Err(e),
        }
    }

    /// What a claim by `user` at `now` would pay, without mutating.
    pub fn get_user_reward(&self, user: u64, now: u64) -> (r: Result<i128, PoolError>)
        requires
            self.wf(),
        ensures
            r is Ok <==> rewards::checkpoint_ok(
                self.rewards,
                user,
                self.balance_of(user) as i128,
                self.total_shares,
                now,
            ),
            r matches Ok(v) ==> v == rewards::claim_amount(
                self.rewards,
                user,
                self.balance_of(user) as i128,
                self.total_shares,
                now,
            ) && 0 <= v,
            r is Err ==> r == Err::<i128, PoolError>(PoolError::ArithmeticOverflow),
    {
        let bal = self.get_share_balance(user);
        self.rewards.get_user_reward(user, bal, self.total_shares, now)
    }

    /// Hands the reward administration to `admin`; only the current
    /// admin may do so. The reward asset and its custody accounts live
    /// with the ledger, outside the pool.
    pub fn initialize_rewards_config(&mut self, caller: u64, admin: u64) -> (r: Result<
        bool,
        PoolError,
    >)
        requires
            old(self).wf(),
        ensures
            final(self).wf(),
            caller != old(self).rewards.admin ==> r == Err::<bool, PoolError>(
                PoolError::Unauthorized,
            ) && *final(self) == *old(self),
            caller == old(self).rewards.admin ==> {
                &&& r == Ok::<bool, PoolError>(true)
                &&& final(self).rewards.admin == admin
                &&& final(self).rewards.accumulator == old(self).rewards.accumulator
                &&& final(self).rewards.last_update_time == old(self).rewards.last_update_time
                &&& final(self).rewards.rate == old(self).rewards.rate
                &&& final(self).rewards.expires_at == old(self).rewards.expires_at
                &&& final(self).rewards.users == old(self).rewards.users
                &&& final(self).tokens@ == old(self).tokens@
                &&& final(self).reserves@ == old(self).reserves@
                &&& final(self).total_shares == old(self).total_shares
                &&& final(self).fee_fraction == old(self).fee_fraction
                &&& final(self).share_balances == old(self).share_balances
            },
    {
        if caller != self.rewards.admin {
            return Err(PoolError::Unauthorized);
        }
        self.rewards.admin = admin;
        Ok(true)
    }

    /// A snapshot of the reward configuration and the caller's accrued
    /// amount: the scaled emission rate, the schedule's expiry, the
    /// accumulator, and what a claim at `now` would pay.
    pub fn get_rewards_info(&self, user: u64, now: u64) -> (r: Result<
        (i128, u64, i128, i128),
        PoolError,
    >)
        requires
            self.wf(),
        ensures
            r is Ok <==> rewards::checkpoint_ok(
                self.rewards,
                user,
                self.balance_of(user) as i128,
                self.total_shares,
                now,
            ),
            r matches Ok(v) ==> {
                &&& v.0 == self.rewards.rate
                &&& v.1 == self.rewards.expires_at
                &&& v.2 == self.rewards.accumulator
                &&& v.3 == rewards::claim_amount(
                    self.rewards,
                    user,
                    self.balance_of(user) as i128,
                    self.total_shares,
                    now,
                )
            },
            r is Err ==> r == Err::<(i128, u64, i128, i128), PoolError>(
                PoolError::ArithmeticOverflow,
            ),
    {
        let owed = match self.get_user_reward(user, now) {
            Ok(v) => v,
            Err(e) => {
                return Err(e);
            },
        };
        Ok((self.rewards.rate, self.rewards.expires_at, self.rewards.accumulator, owed))
    }

    /// Starts a new reward schedule over the pool; admin only.
    pub fn set_rewards_config(
        &mut self,
        caller: u64,
        now: u64,
        expires_at: u64,
        amount: i128,
    ) -> (r: Result<bool, PoolError>)
        requires
            old(self).wf(),
        ensures
            final(self).wf(),
            r is Err ==> *final(self) == *old(self),
            caller != old(self).rewards.admin ==> r == Err::<bool, PoolError>(
                PoolError::Unauthorized,
            ),
            caller == old(self).rewards.admin && (expires_at <= now || amount <= 0) ==> r == Err::<
                bool,
                PoolError,
            >(PoolError::InvalidArgument),
            caller == old(self).rewards.admin && expires_at > now && amount > 0 && (amount
                * rewards::REWARD_SCALE > i128::MAX || !rewards::refresh_fits(
                old(self).rewards,
                old(self).total_shares,
                now,
            )) ==> r == Err::<bool, PoolError>(PoolError::ArithmeticOverflow),
            caller == old(self).rewards.admin && expires_at > now && amount > 0 && amount
                * rewards::REWARD_SCALE <= i128::MAX && rewards::refresh_fits(
                old(self).rewards,
                old(self).total_shares,
                now,
            ) ==> {
                &&& r == Ok::<bool, PoolError>(true)
                &&& final(self).rewards.accumulator == rewards::acc_after(
                    old(self).rewards,
                    old(self).total_shares,
                    now,
                )
                &&& final(self).rewards.last_update_time == now
                &&& final(self).rewards.rate == amount * rewards::REWARD_SCALE / (expires_at
                    - now)
                &&& final(self).rewards.expires_at == expires_at
                &&& final(self).rewards.users == old(self).rewards.users
                &&& final(self).rewards.admin == old(self).rewards.admin
                &&& final(self).tokens@ == old(self).tokens@
                &&& final(self).reserves@ == old(self).reserves@
                &&& final(self).total_shares == old(self).total_shares
                &&& final(self).fee_fraction == old(self).fee_fraction
                &&& final(self).share_balances == old(self).share_balances
            },
    {
        let t = self.total_shares;
        self.rewards.set_schedule(caller, now, expires_at, amount, t)
    }
}

} // verus!
