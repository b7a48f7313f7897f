//! Positional numerals.

use vstd::prelude::*;

verus! {

/// The number that digits in a base stand for, the leading digit first.
pub open spec fn numeral_value(digits: Seq<nat>, base: nat) -> nat
    decreases digits.len(),
{
    if digits.len() == 0 {
        0
    } else {
        numeral_value(digits.drop_last(), base) * base + digits.last()
    }
}

/// The last `n` digits of `value` in a base, the leading digit first.
pub open spec fn numeral(value: nat, base: nat, n: nat) -> Seq<nat>
    decreases n,
{
    if n == 0 {
        Seq::empty()
    } else {
        numeral(value / base, base, (n - 1) as nat).push(value % base)
    }
}

/// `base` to the power `n`.
pub open spec fn power(base: nat, n: nat) -> nat
    decreases n,
{
    if n == 0 {
        1
    } else {
        base * power(base, (n - 1) as nat)
    }
}

pub proof fn lemma_numeral_roundtrip(value: nat, base: nat, n: nat)
    requires
        base > 0,
        value < power(base, n),
    ensures
        numeral(value, base, n).len() == n,
        forall|i: int| 0 <= i < n ==> #[trigger] numeral(value, base, n)[i] < base,
        numeral_value(numeral(value, base, n), base) == value,
    decreases n,
{
    if n > 0 {
        let rest = power(base, (n - 1) as nat);
        assert(value / base < rest) by (nonlinear_arith)
            requires
                value < base * rest,
                base > 0,
        ;
        lemma_numeral_roundtrip(value / base, base, (n - 1) as nat);
        let whole = numeral(value, base, n);
        assert(whole.drop_last() =~= numeral(value / base, base, (n - 1) as nat));
        assert((value / base) * base + value % base == value) by (nonlinear_arith)
            requires
                base > 0,
        ;
        assert(value % base < base) by (nonlinear_arith)
            requires
                base > 0,
        ;
    }
}

pub proof fn lemma_numeral_of_value(digits: Seq<nat>, base: nat)
    requires
        base > 0,
        forall|i: int| 0 <= i < digits.len() ==> #[trigger] digits[i] < base,
    ensures
        numeral_value(digits, base) < power(base, digits.len()),
        numeral(numeral_value(digits, base), base, digits.len()) == digits,
    decreases digits.len(),
{
    if digits.len() > 0 {
        let front = digits.drop_last();
        lemma_numeral_of_value(front, base);
        let v = numeral_value(front, base);
        let d = digits.last();
        assert(d < base);
        assert((v * base + d) / base == v && (v * base + d) % base == d) by (nonlinear_arith)
            requires
                base > 0,
                d < base,
        ;
        let rest = power(base, front.len());
        assert(v * base + d < base * rest) by (nonlinear_arith)
            requires
                v < rest,
                d < base,
        ;
        assert(digits =~= front.push(d));
    }
}

pub proof fn lemma_numeral_len(value: nat, base: nat, n: nat)
    requires
        base > 0,
    ensures
        numeral(value, base, n).len() == n,
    decreases n,
{
    if n > 0 {
        lemma_numeral_len(value / base, base, (n - 1) as nat);
    }
}

pub proof fn lemma_power_monotone(base: nat, i: nat, j: nat)
    requires
        base >= 1,
        i <= j,
    ensures
        power(base, i) <= power(base, j),
    decreases j - i,
{
    if i < j {
        lemma_power_monotone(base, i, (j - 1) as nat);
        let p = power(base, (j - 1) as nat);
        assert(p <= base * p) by (nonlinear_arith)
            requires
                base >= 1,
        ;
    }
}

/// Two sequences of numbers first differ at a place, and there the first one is below.
pub open spec fn drops_below_at(a: Seq<nat>, b: Seq<nat>, k: int) -> bool {
    &&& 0 <= k < a.len()
    &&& k < b.len()
    &&& a[k] < b[k]
    &&& forall|m: int| 0 <= m < k ==> #[trigger] a[m] == b[m]
}

/// A sequence of numbers comes before another of the same length in dictionary order.
pub open spec fn comes_before(a: Seq<nat>, b: Seq<nat>) -> bool {
    exists|k: int| #[trigger] drops_below_at(a, b, k)
}

/// Numerals of one length stand in dictionary order as their values do.
pub proof fn lemma_numeral_order(a: Seq<nat>, b: Seq<nat>, base: nat)
    requires
        base > 0,
        a.len() == b.len(),
        forall|i: int| 0 <= i < a.len() ==> #[trigger] a[i] < base,
        forall|i: int| 0 <= i < b.len() ==> #[trigger] b[i] < base,
    ensures
        comes_before(a, b) <==> numeral_value(a, base) < numeral_value(b, base),
    decreases a.len(),
{
    if a.len() > 0 {
        let fa = a.drop_last();
        let fb = b.drop_last();
        let n = a.len() - 1;
        let va = numeral_value(fa, base);
        let vb = numeral_value(fb, base);
        let x = a.last();
        let y = b.last();
        assert(x < base && y < base);
        lemma_numeral_order(fa, fb, base);
        lemma_numeral_order(fb, fa, base);
        if va < vb {
            let k = choose|k: int| #[trigger] drops_below_at(fa, fb, k);
            assert(drops_below_at(a, b, k)) by {
                assert forall|m: int| 0 <= m < k implies #[trigger] a[m] == b[m] by {
                    assert(fa[m] == fb[m]);
                }
            }
            assert(va * base + x < vb * base + y) by (nonlinear_arith)
                requires
                    va + 1 <= vb,
                    x < base,
            ;
        } else if va > vb {
            let k = choose|k: int| #[trigger] drops_below_at(fb, fa, k);
            assert(!comes_before(a, b)) by {
                if comes_before(a, b) {
                    let m = choose|m: int| #[trigger] drops_below_at(a, b, m);
                    assert(fb[k] < fa[k]);
                    if k < m {
                        assert(a[k] == b[k]);
                    } else if m < k {
                        assert(fb[m] == fa[m]);
                    }
                }
            }
            assert(vb * base + y < va * base + x) by (nonlinear_arith)
                requires
                    vb + 1 <= va,
                    y < base,
            ;
        } else {
            lemma_numeral_of_value(fa, base);
            lemma_numeral_of_value(fb, base);
            assert(fa == fb);
            assert forall|m: int| 0 <= m < n implies #[trigger] a[m] == b[m] by {
                assert(fa[m] == fb[m]);
            }
            if x < y {
                assert(drops_below_at(a, b, n));
            } else if comes_before(a, b) {
                let m = choose|m: int| #[trigger] drops_below_at(a, b, m);
                assert(m == n);
            }
        }
    }
}

/// The leading digit is a lower bound of what a numeral stands for.
pub proof fn lemma_leading_digit(digits: Seq<nat>, base: nat)
    requires
        base > 0,
        digits.len() > 0,
    ensures
        digits[0] * power(base, (digits.len() - 1) as nat) <= numeral_value(digits, base),
    decreases digits.len(),
{
    let front = digits.drop_last();
    if front.len() > 0 {
        lemma_leading_digit(front, base);
        let p = power(base, (front.len() - 1) as nat);
        let d = digits[0];
        let v = numeral_value(front, base);
        assert(front[0] == d);
        assert(power(base, (digits.len() - 1) as nat) == base * p);
        assert(d * (base * p) <= v * base) by (nonlinear_arith)
            requires
                d * p <= v,
        ;
    } else {
        let d = digits[0];
        assert(numeral_value(front, base) == 0);
        assert(power(base, 0) == 1);
        assert(digits.last() == d);
        assert(0 * base + d == d * 1) by (nonlinear_arith);
    }
}

} // verus!
