//! Summing the distinct positive multiples of a set of factors that lie
//! strictly below a limit. Duplicate removal keeps first occurrences, as
//! itertools' `unique` does.

use itertools::Itertools;
use vstd::prelude::*;

verus! {

use vstd::arithmetic::div_mod::{
    lemma_div_is_ordered,
    lemma_div_multiples_vanish,
    lemma_fundamental_div_mod,
};
use vstd::arithmetic::mul::lemma_mul_inequality;

/// How many positive multiples of `multiple` lie strictly below `limit`.
pub open spec fn mult_count(limit: int, multiple: int) -> int {
    if multiple <= 0 || limit <= 0 {
        0
    } else {
        (limit - 1) / multiple
    }
}

/// The positive multiples of `multiple` strictly below `limit`, ascending.
pub open spec fn multiples_below(limit: int, multiple: int) -> Seq<u32> {
    Seq::new(mult_count(limit, multiple) as nat, |i: int| ((i + 1) * multiple) as u32)
}

pub fn get_multiples(limit: u32, multiple: u32) -> (r: Vec<u32>)
    requires
        multiple > 0,
    ensures
        r@ == multiples_below(limit as int, multiple as int),
{
    let ghost l: int = limit as int;
    let ghost m: int = multiple as int;
    let ghost cnt: int = mult_count(l, m);
    proof {
        if l > 0 {
            lemma_div_is_ordered(0, l - 1, m);
            lemma_div_multiples_vanish(0, m);
            lemma_div_is_ordered(l - 1, l - 1, m);
        }
        assert(0 <= cnt < 0x1_0000_0000) by {
            if l > 0 {
                assert(cnt == (l - 1) / m);
                lemma_fundamental_div_mod(l - 1, m);
                if cnt >= l {
                    lemma_mul_inequality(l, cnt, m);
                    assert(l * m >= l) by (nonlinear_arith)
                        requires
                            m >= 1,
                            l > 0,
                    ;
                    assert(cnt * m <= l - 1) by (nonlinear_arith)
                        requires
                            l - 1 == m * cnt + (l - 1) % m,
                            m > 0,
                            0 <= (l - 1) % m,
                    ;
                    assert(false);
                }
            }
        }
    }
    let mut r: Vec<u32> = Vec::new();
    let mut cur: u64 = multiple as u64;
    let ghost k: int = 1;
    while cur < limit as u64
        invariant
            m == multiple as int,
            l == limit as int,
            m > 0,
            cnt == mult_count(l, m),
            0 <= cnt < 0x1_0000_0000,
            cur as int == k * m,
            1 <= k <= cnt + 1,
            r@.len() == k - 1,
            forall|i: int|
                0 <= i < r@.len() ==> r@[i] == ((i + 1) * m) as u32 && 0 < (i + 1) * m < l,
        decreases cnt + 1 - k,
    {
        proof {
            assert(k * m <= l - 1);
            lemma_div_is_ordered(k * m, l - 1, m);
            lemma_div_multiples_vanish(k, m);
            assert(m * k == k * m) by (nonlinear_arith);
            assert(k <= cnt);
            assert((k + 1) * m == k * m + m) by (nonlinear_arith);
        }
        r.push(cur as u32);
        cur = cur + multiple as u64;
        proof {
            k = k + 1;
        }
    }
    proof {
        if k <= cnt {
            lemma_mul_inequality(k, cnt, m);
            lemma_fundamental_div_mod(l - 1, m);
            assert(cnt * m <= l - 1) by (nonlinear_arith)
                requires
                    l - 1 == m * cnt + (l - 1) % m,
                    m > 0,
                    0 <= (l - 1) % m,
            ;
            assert(false);
        }
        assert(r@ =~= multiples_below(l, m));
    }
    r
}

/// The elements of `s` with later duplicates removed: each value keeps its
/// first occurrence, in order.
pub open spec fn dedup_first(s: Seq<u32>) -> Seq<u32>
    decreases s.len(),
{
    if s.len() == 0 {
        s
    } else if s.drop_last().contains(s.last()) {
        dedup_first(s.drop_last())
    } else {
        dedup_first(s.drop_last()).push(s.last())
    }
}

/// The sum of the elements of `s`, as an unbounded integer.
pub open spec fn seq_sum(s: Seq<u32>) -> int
    decreases s.len(),
{
    if s.len() == 0 {
        0
    } else {
        seq_sum(s.drop_last()) + s.last()
    }
}

proof fn lemma_seq_sum_nonneg(s: Seq<u32>)
    ensures
        seq_sum(s) >= 0,
    decreases s.len(),
{
    if s.len() > 0 {
        lemma_seq_sum_nonneg(s.drop_last());
    }
}

proof fn lemma_seq_sum_prefix(s: Seq<u32>, i: int)
    requires
        0 <= i <= s.len(),
    ensures
        seq_sum(s.subrange(0, i)) <= seq_sum(s),
    decreases s.len() - i,
{
    if i == s.len() {
        assert(s.subrange(0, i) =~= s);
    } else {
        lemma_seq_sum_prefix(s, i + 1);
        assert(s.subrange(0, i + 1).drop_last() =~= s.subrange(0, i));
        assert(seq_sum(s.subrange(0, i + 1)) == seq_sum(s.subrange(0, i)) + s[i]);
    }
}

/// Relies on itertools' concat: chains the inner vectors into one, in order.
#[verifier::external_body]
fn concat_u32(vs: Vec<Vec<u32>>) -> (r: Vec<u32>)
    ensures
        r@ == vs.deep_view().flatten(),
{
    vs.into_iter().concat()
}

/// Relies on itertools' unique: keeps each distinct value's first
/// occurrence, in the order the values occur.
#[verifier::external_body]
fn unique_u32(v: Vec<u32>) -> (r: Vec<u32>)
    ensures
        r@ == dedup_first(v@),
{
    v.into_iter().unique().collect()
}

/// One list of multiples per non-zero factor, in factor order.
pub open spec fn spec_factor_multiples(limit: int, factors: Seq<u32>) -> Seq<Seq<u32>>
    decreases factors.len(),
{
    if factors.len() == 0 {
        Seq::empty()
    } else {
        let prev = spec_factor_multiples(limit, factors.drop_last());
        if factors.last() == 0 {
            prev
        } else {
            prev.push(multiples_below(limit, factors.last() as int))
        }
    }
}

/// The sum of the distinct positive multiples, below `limit`, of the
/// non-zero factors.
pub open spec fn spec_sum_of_multiples(limit: int, factors: Seq<u32>) -> int {
    seq_sum(dedup_first(spec_factor_multiples(limit, factors).flatten()))
}

pub fn sum_of_multiples(limit: u32, factors: &[u32]) -> (r: u32)
    requires
        spec_sum_of_multiples(limit as int, factors@) <= u32::MAX,
    ensures
        r as int == spec_sum_of_multiples(limit as int, factors@),
{
    let n = factors.len();
    let mut vs: Vec<Vec<u32>> = Vec::new();
    let mut i: usize = 0;
    while i < n
        invariant
            n == factors@.len(),
            i <= n,
            vs.deep_view() == spec_factor_multiples(limit as int, factors@.subrange(0, i as int)),
        decreases n - i,
    {
        proof {
            assert(factors@.subrange(0, i + 1).drop_last() =~= factors@.subrange(0, i as int));
            assert(factors@.subrange(0, i + 1).last() == factors@[i as int]);
        }
        let factor = factors[i];
        if factor != 0 {
            let ms = get_multiples(limit, factor);
            let ghost old_vs = vs.deep_view();
            vs.push(ms);
            proof {
                assert(vs.deep_view() =~~= old_vs.push(
                    multiples_below(limit as int, factor as int),
                ));
            }
        }
        i += 1;
    }
    proof {
        assert(factors@.subrange(0, n as int) =~= factors@);
    }
    let all = concat_u32(vs);
    let uniq = unique_u32(all);
    let ghost total: int = spec_sum_of_multiples(limit as int, factors@);
    let un = uniq.len();
    let mut acc: u32 = 0;
    let mut j: usize = 0;
    while j < un
        invariant
            un == uniq@.len(),
            j <= un,
            seq_sum(uniq@) == total,
            total <= u32::MAX,
            acc as int == seq_sum(uniq@.subrange(0, j as int)),
        decreases un - j,
    {
        proof {
            assert(uniq@.subrange(0, j + 1).drop_last() =~= uniq@.subrange(0, j as int));
            assert(uniq@.subrange(0, j + 1).last() == uniq@[j as int]);
            lemma_seq_sum_prefix(uniq@, j + 1);
            lemma_seq_sum_nonneg(uniq@.subrange(0, j + 1));
        }
        acc = acc + uniq[j];
        j += 1;
    }
    proof {
        assert(uniq@.subrange(0, un as int) =~= uniq@);
    }
    acc
}

} // verus!
