//! Amounts, their sums, their denominations and their conversion between units.

use vstd::arithmetic::power2::{
    lemma2_to64, lemma2_to64_rest, lemma_pow2_pos, lemma_pow2_strictly_increases, lemma_pow2_unfold,
    pow2,
};
use vstd::prelude::*;

use crate::error::Error;
use crate::units::CurrencyUnit;

verus! {

/// How many millisatoshi make one satoshi.
pub const MSAT_IN_SAT: u64 = 1000;

/// A non-negative amount in some unit.
#[derive(Clone, Copy, Debug, PartialEq, Eq, Structural, Hash)]
pub struct Amount(pub u64);

/// The sum of a sequence of amounts, as a mathematical integer.
pub open spec fn sum_amounts(s: Seq<Amount>) -> int
    decreases s.len(),
{
    if s.len() == 0 {
        0
    } else {
        sum_amounts(s.drop_last()) + s.last().0
    }
}

/// Whether `v` is one of the 64 amounts a key can stand for: a power of two.
pub open spec fn is_denomination(v: int) -> bool {
    exists|e: nat| e < 64 && v == #[trigger] pow2(e)
}

/// Whether `parts` is the binary decomposition of `total`, largest part
/// first: powers of two, strictly falling, that add up to `total`. There is
/// one such sequence and no other ([`lemma_split_unique`]).
pub open spec fn is_split_of(parts: Seq<Amount>, total: int) -> bool {
    &&& sum_amounts(parts) == total
    &&& forall|i: int| 0 <= i < parts.len() ==> is_denomination(#[trigger] parts[i].0 as int)
    &&& forall|i: int, j: int| 0 <= i < j < parts.len() ==> parts[i].0 > parts[j].0
}

/// The amount `amount` of unit `from` counted in unit `to`.
pub open spec fn to_unit_spec(amount: Amount, from: CurrencyUnit, to: CurrencyUnit) -> Result<
    Amount,
    Error,
> {
    if from == to {
        Ok(amount)
    } else if from == CurrencyUnit::Sat && to == CurrencyUnit::Msat {
        if amount.0 * 1000 <= u64::MAX {
            Ok(Amount((amount.0 * 1000) as u64))
        } else {
            Err(Error::AmountOverflow)
        }
    } else if from == CurrencyUnit::Msat && to == CurrencyUnit::Sat {
        Ok(Amount(amount.0 / 1000))
    } else {
        Err(Error::CannotConvertUnits)
    }
}

/// The fee owed for inputs whose per-thousand fees add up to `sum_ppk`:
/// a thousandth of the sum, rounded up.
pub open spec fn fee_for_ppk(sum_ppk: int) -> int {
    (sum_ppk + 999) / 1000
}

/// The sum of a sequence grows with every amount appended to it.
pub proof fn lemma_sum_push(s: Seq<Amount>, a: Amount)
    ensures
        sum_amounts(s.push(a)) == sum_amounts(s) + a.0,
{
    assert(s.push(a).drop_last() =~= s);
}

/// No sum is negative, and a prefix sums to no more than the whole.
pub proof fn lemma_sum_prefix(s: Seq<Amount>, n: int)
    requires
        0 <= n <= s.len(),
    ensures
        0 <= sum_amounts(s.take(n)) <= sum_amounts(s),
    decreases s.len() - n,
{
    if n == s.len() {
        assert(s.take(n) =~= s);
        lemma_sum_nonnegative(s);
    } else {
        lemma_sum_prefix(s, n + 1);
        assert(s.take(n + 1).drop_last() =~= s.take(n));
        lemma_sum_nonnegative(s.take(n));
    }
}

/// No sum is negative.
pub proof fn lemma_sum_nonnegative(s: Seq<Amount>)
    ensures
        0 <= sum_amounts(s),
    decreases s.len(),
{
    if s.len() > 0 {
        lemma_sum_nonnegative(s.drop_last());
    }
}

/// The sum of a sequence is its first amount and the sum of the rest.
pub proof fn lemma_sum_first(s: Seq<Amount>)
    requires
        s.len() > 0,
    ensures
        sum_amounts(s) == s[0].0 + sum_amounts(s.drop_first()),
    decreases s.len(),
{
    if s.len() == 1 {
        assert(s.drop_last() =~= Seq::<Amount>::empty());
        assert(s.drop_first() =~= Seq::<Amount>::empty());
    } else {
        lemma_sum_first(s.drop_last());
        assert(s.drop_last().drop_first() =~= s.drop_first().drop_last());
    }
}

/// Of two powers of two, the larger is at least twice the smaller.
pub proof fn lemma_denominations_double(a: int, b: int)
    requires
        is_denomination(a),
        is_denomination(b),
        a > b,
    ensures
        a >= 2 * b,
        b > 0,
{
    let ea = choose|e: nat| e < 64 && a == #[trigger] pow2(e);
    let eb = choose|e: nat| e < 64 && b == #[trigger] pow2(e);
    lemma_pow2_pos(eb);
    if ea <= eb {
        if ea < eb {
            lemma_pow2_strictly_increases(ea, eb);
        }
    } else {
        lemma_pow2_unfold(eb + 1);
        if eb + 1 < ea {
            lemma_pow2_strictly_increases(eb + 1, ea);
        }
    }
}

/// Powers of two that fall strictly add up to less than twice the first.
pub proof fn lemma_split_bound(parts: Seq<Amount>)
    requires
        parts.len() > 0,
        is_split_of(parts, sum_amounts(parts)),
    ensures
        parts[0].0 <= sum_amounts(parts) < 2 * parts[0].0,
    decreases parts.len(),
{
    let rest = parts.drop_first();
    lemma_sum_first(parts);
    lemma_sum_nonnegative(rest);
    assert(is_denomination(parts[0].0 as int));
    let e = choose|e: nat| e < 64 && parts[0].0 as int == #[trigger] pow2(e);
    lemma_pow2_pos(e);
    if rest.len() == 0 {
        assert(rest =~= Seq::<Amount>::empty());
    } else {
        assert(is_split_of(rest, sum_amounts(rest))) by {
            assert forall|i: int| 0 <= i < rest.len() implies is_denomination(
                #[trigger] rest[i].0 as int,
            ) by {
                assert(rest[i] == parts[i + 1]);
            }
            assert forall|i: int, j: int| 0 <= i < j < rest.len() implies rest[i].0
                > rest[j].0 by {
                assert(parts[i + 1].0 > parts[j + 1].0);
            }
        }
        lemma_split_bound(rest);
        assert(rest[0] == parts[1]);
        assert(parts[0].0 > parts[1].0);
        assert(is_denomination(parts[1].0 as int));
        lemma_denominations_double(parts[0].0 as int, parts[1].0 as int);
    }
}

/// An amount splits into powers of two in one way only: two sequences of
/// powers of two that fall strictly and add up to the same are the same.
pub proof fn lemma_split_unique(first: Seq<Amount>, second: Seq<Amount>, total: int)
    requires
        is_split_of(first, total),
        is_split_of(second, total),
    ensures
        first == second,
    decreases first.len(),
{
    if first.len() == 0 {
        if second.len() > 0 {
            lemma_split_bound(second);
            assert(is_denomination(second[0].0 as int));
            let e = choose|e: nat| e < 64 && second[0].0 as int == #[trigger] pow2(e);
            lemma_pow2_pos(e);
        }
        assert(first =~= second);
    } else {
        lemma_split_bound(first);
        let a = first[0].0 as int;
        assert(is_denomination(a));
        let ea = choose|e: nat| e < 64 && a == #[trigger] pow2(e);
        lemma_pow2_pos(ea);
        assert(second.len() > 0);
        lemma_split_bound(second);
        let b = second[0].0 as int;
        assert(is_denomination(b));
        if a > b {
            lemma_denominations_double(a, b);
        }
        if b > a {
            lemma_denominations_double(b, a);
        }
        let rest1 = first.drop_first();
        let rest2 = second.drop_first();
        lemma_sum_first(first);
        lemma_sum_first(second);
        assert(is_split_of(rest1, total - a)) by {
            assert forall|i: int| 0 <= i < rest1.len() implies is_denomination(
                #[trigger] rest1[i].0 as int,
            ) by {
                assert(rest1[i] == first[i + 1]);
            }
            assert forall|i: int, j: int| 0 <= i < j < rest1.len() implies rest1[i].0
                > rest1[j].0 by {
                assert(first[i + 1].0 > first[j + 1].0);
            }
        }
        assert(is_split_of(rest2, total - a)) by {
            assert forall|i: int| 0 <= i < rest2.len() implies is_denomination(
                #[trigger] rest2[i].0 as int,
            ) by {
                assert(rest2[i] == second[i + 1]);
            }
            assert forall|i: int, j: int| 0 <= i < j < rest2.len() implies rest2[i].0
                > rest2[j].0 by {
                assert(second[i + 1].0 > second[j + 1].0);
            }
        }
        lemma_split_unique(rest1, rest2, total - a);
        assert(first =~= seq![first[0]] + rest1);
        assert(second =~= seq![second[0]] + rest2);
    }
}

impl Amount {
    /// The amount zero.
    pub fn zero() -> (r: Amount)
        ensures
            r == Amount(0),
    {
        Amount(0)
    }

    /// The amount as a plain number.
    pub fn to_u64(&self) -> (v: u64)
        ensures
            v == self.0,
    {
        self.0
    }

    /// The sum of two amounts, where it fits in 64 bits.
    pub fn checked_add(self, other: Amount) -> (r: Option<Amount>)
        ensures
            r == if self.0 + other.0 <= u64::MAX {
                Some(Amount((self.0 + other.0) as u64))
            } else {
                None
            },
    {
        if other.0 <= u64::MAX - self.0 {
            Some(Amount(self.0 + other.0))
        } else {
            None
        }
    }

    /// The difference of two amounts, where it is not negative.
    pub fn checked_sub(self, other: Amount) -> (r: Option<Amount>)
        ensures
            r == if other.0 <= self.0 {
                Some(Amount((self.0 - other.0) as u64))
            } else {
                None
            },
    {
        if other.0 <= self.0 {
            Some(Amount(self.0 - other.0))
        } else {
            None
        }
    }

    /// The sum of `amounts`, or `AmountOverflow` where it does not fit in
    /// 64 bits.
    pub fn try_sum(amounts: &Vec<Amount>) -> (r: Result<Amount, Error>)
        ensures
            r == if sum_amounts(amounts@) <= u64::MAX {
                Ok::<Amount, Error>(Amount(sum_amounts(amounts@) as u64))
            } else {
                Err(Error::AmountOverflow)
            },
            r matches Ok(total) ==> total.0 == sum_amounts(amounts@),
    {
        let mut total: u64 = 0;
        let mut i: usize = 0;
        while i < amounts.len()
            invariant
                0 <= i <= amounts.len(),
                total == sum_amounts(amounts@.take(i as int)),
            decreases amounts.len() - i,
        {
            let next: u64 = amounts[i].0;
            proof {
                assert(amounts@.take(i + 1).drop_last() =~= amounts@.take(i as int));
                lemma_sum_prefix(amounts@, i + 1);
            }
            if next > u64::MAX - total {
                return Err(Error::AmountOverflow);
            }
            total = total + next;
            i = i + 1;
        }
        proof {
            assert(amounts@.take(i as int) =~= amounts@);
        }
        Ok(Amount(total))
    }

    /// The binary decomposition of the amount, largest part first.
    pub fn split(&self) -> (parts: Vec<Amount>)
        ensures
            is_split_of(parts@, self.0 as int),
    {
        let mut parts: Vec<Amount> = Vec::new();
        let mut rest: u64 = self.0;
        let mut part: u64 = 0x8000_0000_0000_0000;
        let mut k: u32 = 64;
        let ghost mut exps: Seq<nat> = Seq::empty();
        proof {
            lemma2_to64();
            lemma2_to64_rest();
            lemma_pow2_unfold(64);
        }
        while k > 0
            invariant
                0 <= k <= 64,
                k > 0 ==> part == pow2((k - 1) as nat),
                rest < pow2(k as nat),
                sum_amounts(parts@) + rest == self.0,
                exps.len() == parts.len(),
                forall|i: int| 0 <= i < parts.len() ==> k <= #[trigger] exps[i] < 64,
                forall|i: int| 0 <= i < parts.len() ==> (#[trigger] parts[i]).0 == pow2(exps[i]),
                forall|i: int, j: int| 0 <= i < j < parts.len() ==> parts[i].0 > parts[j].0,
            decreases k,
        {
            proof {
                lemma_pow2_unfold(k as nat);
                if k > 1 {
                    lemma_pow2_unfold((k - 1) as nat);
                }
            }
            if rest >= part {
                proof {
                    assert forall|i: int| 0 <= i < parts.len() implies parts[i].0 > part by {
                        lemma_pow2_strictly_increases((k - 1) as nat, exps[i]);
                    }
                    lemma_sum_push(parts@, Amount(part));
                    exps = exps.push((k - 1) as nat);
                }
                parts.push(Amount(part));
                rest = rest - part;
            }
            part = part / 2;
            k = k - 1;
        }
        proof {
            lemma2_to64();
            assert forall|i: int| 0 <= i < parts.len() implies is_denomination(
                #[trigger] parts[i].0 as int,
            ) by {
                assert(parts[i].0 == pow2(exps[i]));
            }
        }
        parts
    }
}

/// Counts `amount` of unit `from` in unit `to`. Satoshi and millisatoshi
/// convert at a thousand to one; any other pair of distinct units is
/// refused.
pub fn to_unit(amount: Amount, from: &CurrencyUnit, to: &CurrencyUnit) -> (r: Result<Amount, Error>)
    ensures
        r == to_unit_spec(amount, *from, *to),
{
    if *from == *to {
        Ok(amount)
    } else {
        match (from, to) {
            (CurrencyUnit::Sat, CurrencyUnit::Msat) => {
                if amount.0 <= u64::MAX / MSAT_IN_SAT {
                    Ok(Amount(amount.0 * MSAT_IN_SAT))
                } else {
                    Err(Error::AmountOverflow)
                }
            },
            (CurrencyUnit::Msat, CurrencyUnit::Sat) => Ok(Amount(amount.0 / MSAT_IN_SAT)),
            _ => Err(Error::CannotConvertUnits),
        }
    }
}

} // verus!
