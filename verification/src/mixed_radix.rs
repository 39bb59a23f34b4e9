//! Counting in a mixed radix: the order in which the combinations of several
//! axes are enumerated, the last axis cycling fastest.

use vstd::prelude::*;
use vstd::arithmetic::div_mod::{lemma_fundamental_div_mod, lemma_fundamental_div_mod_converse};
use vstd::arithmetic::mul::lemma_mul_is_commutative;

verus! {

/// The number of combinations: the product of the radices.
pub open spec fn product(r: Seq<nat>) -> nat
    decreases r.len(),
{
    if r.len() == 0 {
        1
    } else {
        product(r.drop_last()) * r.last()
    }
}

/// Every radix is at least one.
pub open spec fn positive(r: Seq<nat>) -> bool {
    forall|i: int| 0 <= i < r.len() ==> #[trigger] r[i] > 0
}

/// `d` has one digit for each radix, each below its radix.
pub open spec fn valid_digits(d: Seq<nat>, r: Seq<nat>) -> bool {
    d.len() == r.len() && forall|i: int| 0 <= i < d.len() ==> #[trigger] d[i] < r[i]
}

/// The digits of the `k`-th combination; the last digit changes with every
/// step, the one before it each time the last has gone through its radix.
pub open spec fn digits_of(k: nat, r: Seq<nat>) -> Seq<nat>
    recommends
        positive(r),
    decreases r.len(),
{
    if r.len() == 0 {
        Seq::empty()
    } else {
        digits_of(k / r.last(), r.drop_last()).push(k % r.last())
    }
}

/// The place of the combination with digits `d` in the enumeration.
pub open spec fn rank(d: Seq<nat>, r: Seq<nat>) -> nat
    decreases r.len(),
{
    if r.len() == 0 || d.len() != r.len() {
        0
    } else {
        rank(d.drop_last(), r.drop_last()) * r.last() + d.last()
    }
}

/// The digits that follow `d`: the last digit that can still grow grows by
/// one and those behind it start again at zero. There are none after the
/// combination whose digits are all at their highest.
pub open spec fn successor(d: Seq<nat>, r: Seq<nat>) -> Option<Seq<nat>>
    decreases r.len(),
{
    if r.len() == 0 || d.len() != r.len() {
        None
    } else if d.last() + 1 < r.last() {
        Some(d.drop_last().push(d.last() + 1))
    } else {
        match successor(d.drop_last(), r.drop_last()) {
            Some(p) => Some(p.push(0)),
            None => None,
        }
    }
}

/// There are no combinations unless every axis has a value.
pub proof fn lemma_product_positive(r: Seq<nat>)
    requires
        positive(r),
    ensures
        product(r) > 0,
    decreases r.len(),
{
    if r.len() > 0 {
        lemma_product_positive(r.drop_last());
        assert(r.last() > 0);
        assert(product(r.drop_last()) * r.last() > 0) by (nonlinear_arith)
            requires
                product(r.drop_last()) > 0,
                r.last() > 0,
        ;
    }
}

/// The rank of valid digits is below the number of combinations.
pub proof fn lemma_rank_bound(d: Seq<nat>, r: Seq<nat>)
    requires
        valid_digits(d, r),
    ensures
        rank(d, r) < product(r),
    decreases r.len(),
{
    if r.len() > 0 {
        let dp = d.drop_last();
        let rp = r.drop_last();
        assert(valid_digits(dp, rp)) by {
            assert forall|i: int| 0 <= i < dp.len() implies #[trigger] dp[i] < rp[i] by {
                assert(d[i] < r[i]);
            }
        }
        lemma_rank_bound(dp, rp);
        let a = rank(dp, rp);
        let p = product(rp);
        let b = r.last();
        assert(d.last() < b) by {
            assert(d[d.len() - 1] < r[d.len() - 1]);
        }
        assert(a * b + d.last() < p * b) by (nonlinear_arith)
            requires
                a < p,
                d.last() < b,
        ;
    }
}

/// The successor of valid digits is valid and has the next rank; only the
/// last combination has none.
pub proof fn lemma_successor(d: Seq<nat>, r: Seq<nat>)
    requires
        valid_digits(d, r),
    ensures
        match successor(d, r) {
            Some(e) => valid_digits(e, r) && rank(e, r) == rank(d, r) + 1,
            None => rank(d, r) + 1 == product(r),
        },
    decreases r.len(),
{
    if r.len() > 0 {
        let dp = d.drop_last();
        let rp = r.drop_last();
        let b = r.last();
        assert(d.last() < b) by {
            assert(d[d.len() - 1] < r[d.len() - 1]);
        }
        assert(valid_digits(dp, rp)) by {
            assert forall|i: int| 0 <= i < dp.len() implies #[trigger] dp[i] < rp[i] by {
                assert(d[i] < r[i]);
            }
        }
        if d.last() + 1 < b {
            let e = dp.push(d.last() + 1);
            assert(e.drop_last() =~= dp);
            assert(valid_digits(e, r)) by {
                assert forall|i: int| 0 <= i < e.len() implies #[trigger] e[i] < r[i] by {
                    if i < dp.len() {
                        assert(d[i] < r[i]);
                    }
                }
            }
        } else {
            lemma_successor(dp, rp);
            let a = rank(dp, rp);
            match successor(dp, rp) {
                Some(p) => {
                    let e = p.push(0);
                    assert(e.drop_last() =~= p);
                    assert(valid_digits(e, r)) by {
                        assert forall|i: int| 0 <= i < e.len() implies #[trigger] e[i] < r[i] by {
                            if i < p.len() {
                                assert(p[i] < rp[i]);
                            }
                        }
                    }
                    assert((a + 1) * b + 0 == a * b + d.last() + 1) by (nonlinear_arith)
                        requires
                            d.last() + 1 == b,
                    ;
                },
                None => {
                    assert(a * b + d.last() + 1 == product(rp) * b) by (nonlinear_arith)
                        requires
                            a + 1 == product(rp),
                            d.last() + 1 == b,
                    ;
                },
            }
        }
    }
}

/// The digits of the `k`-th combination are valid and have rank `k`.
pub proof fn lemma_digits_rank(k: nat, r: Seq<nat>)
    requires
        positive(r),
        k < product(r),
    ensures
        valid_digits(digits_of(k, r), r),
        rank(digits_of(k, r), r) == k,
    decreases r.len(),
{
    if r.len() > 0 {
        let rp = r.drop_last();
        let b = r.last();
        assert(b > 0) by {
            assert(r[r.len() - 1] > 0);
        }
        assert(positive(rp)) by {
            assert forall|i: int| 0 <= i < rp.len() implies #[trigger] rp[i] > 0 by {
                assert(r[i] > 0);
            }
        }
        lemma_fundamental_div_mod(k as int, b as int);
        lemma_mul_is_commutative(b as int, (k / b) as int);
        assert(k / b < product(rp)) by (nonlinear_arith)
            requires
                k < product(rp) * b,
                b > 0,
                k == (k / b) * b + k % b,
                0 <= k % b < b,
        ;
        lemma_digits_rank(k / b, rp);
        let dp = digits_of(k / b, rp);
        let d = digits_of(k, r);
        assert(d.drop_last() =~= dp);
        assert(valid_digits(d, r)) by {
            assert forall|i: int| 0 <= i < d.len() implies #[trigger] d[i] < r[i] by {
                if i < dp.len() {
                    assert(dp[i] < rp[i]);
                }
            }
        }
    }
}

/// Valid digits are the digits of their rank.
pub proof fn lemma_rank_digits(d: Seq<nat>, r: Seq<nat>)
    requires
        valid_digits(d, r),
    ensures
        digits_of(rank(d, r), r) == d,
    decreases r.len(),
{
    if r.len() > 0 {
        let dp = d.drop_last();
        let rp = r.drop_last();
        let b = r.last();
        assert(d.last() < b) by {
            assert(d[d.len() - 1] < r[d.len() - 1]);
        }
        assert(valid_digits(dp, rp)) by {
            assert forall|i: int| 0 <= i < dp.len() implies #[trigger] dp[i] < rp[i] by {
                assert(d[i] < r[i]);
            }
        }
        lemma_rank_digits(dp, rp);
        let a = rank(dp, rp);
        let k = rank(d, r);
        lemma_mul_is_commutative(a as int, b as int);
        lemma_fundamental_div_mod_converse(k as int, b as int, a as int, d.last() as int);
        assert(digits_of(k, r) =~= d);
    } else {
        assert(d =~= Seq::empty());
    }
}

/// The combinations are counted without repetition: different places in the
/// enumeration have different digits.
pub proof fn lemma_digits_differ(k1: nat, k2: nat, r: Seq<nat>)
    requires
        positive(r),
        k1 < product(r),
        k2 < product(r),
        k1 != k2,
    ensures
        digits_of(k1, r) != digits_of(k2, r),
{
    lemma_digits_rank(k1, r);
    lemma_digits_rank(k2, r);
}

/// The first combination has all digits at zero.
pub proof fn lemma_digits_of_zero(r: Seq<nat>)
    requires
        positive(r),
    ensures
        digits_of(0, r) == Seq::new(r.len(), |i: int| 0nat),
    decreases r.len(),
{
    if r.len() > 0 {
        let rp = r.drop_last();
        assert(r[r.len() - 1] > 0);
        assert(positive(rp)) by {
            assert forall|i: int| 0 <= i < rp.len() implies #[trigger] rp[i] > 0 by {
                assert(r[i] > 0);
            }
        }
        lemma_digits_of_zero(rp);
        assert(0nat / r.last() == 0) by (nonlinear_arith)
            requires
                r.last() > 0,
        ;
        assert(0nat % r.last() == 0) by (nonlinear_arith)
            requires
                r.last() > 0,
        ;
        assert(digits_of(0, r) =~= Seq::new(r.len(), |i: int| 0nat));
    } else {
        assert(digits_of(0, r) =~= Seq::new(r.len(), |i: int| 0nat));
    }
}

} // verus!
