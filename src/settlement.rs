//! Settlement of a match: the pool of all stakes goes to the winning bets in
//! proportion to their stakes, each share rounded down.
use vstd::prelude::*;
use vstd::arithmetic::div_mod::lemma_fundamental_div_mod;
use sp_arithmetic::helpers_128bit::multiply_by_rational_with_rounding;
use sp_arithmetic::per_things::Rounding;
use crate::types::{AccountId, Balance, Bet, MatchResult};

verus! {

/// The sum of the amounts of `bets`.
pub open spec fn total_staked(bets: Seq<Bet>) -> nat
    decreases bets.len(),
{
    if bets.len() == 0 {
        0
    } else {
        total_staked(bets.drop_last()) + bets.last().amount as nat
    }
}

/// The sum of the amounts of the bets of `bets` that predicted `result`.
pub open spec fn total_winning(bets: Seq<Bet>, result: MatchResult) -> nat
    decreases bets.len(),
{
    if bets.len() == 0 {
        0
    } else {
        total_winning(bets.drop_last(), result) + if bets.last().result == result {
            bets.last().amount as nat
        } else {
            0
        }
    }
}

/// What a winning stake of `amount` receives: `amount / total_winners` of
/// `total_bet`, rounded down.
pub open spec fn payout_of(amount: nat, total_winners: nat, total_bet: nat) -> nat {
    amount * total_bet / total_winners
}

/// The part of the exact share that rounding down leaves out, scaled by
/// `total_winners`.
pub open spec fn truncation_of(amount: nat, total_winners: nat, total_bet: nat) -> nat {
    (amount * total_bet) % (total_winners as int) as nat
}

/// The transfers owed to the winning bets of `bets`, in their order: the
/// bettor and the payout.
pub open spec fn payouts(
    bets: Seq<Bet>,
    result: MatchResult,
    total_winners: nat,
    total_bet: nat,
) -> Seq<(AccountId, Balance)>
    decreases bets.len(),
{
    if bets.len() == 0 {
        Seq::empty()
    } else {
        let rest = payouts(bets.drop_last(), result, total_winners, total_bet);
        let b = bets.last();
        if b.result == result {
            rest.push((b.bettor, payout_of(b.amount as nat, total_winners, total_bet) as Balance))
        } else {
            rest
        }
    }
}

/// The sum of the truncations of the winning bets of `bets`.
pub open spec fn total_truncation(
    bets: Seq<Bet>,
    result: MatchResult,
    total_winners: nat,
    total_bet: nat,
) -> nat
    decreases bets.len(),
{
    if bets.len() == 0 {
        0
    } else {
        total_truncation(bets.drop_last(), result, total_winners, total_bet) + if bets.last().result
            == result {
            truncation_of(bets.last().amount as nat, total_winners, total_bet)
        } else {
            0
        }
    }
}

/// The transfers that settle a match with these bets and this result.
pub open spec fn settlement(bets: Seq<Bet>, result: MatchResult) -> Seq<(AccountId, Balance)> {
    payouts(bets, result, total_winning(bets, result), total_staked(bets))
}

/// The sum of the amounts of a list of transfers.
pub open spec fn total_paid(p: Seq<(AccountId, Balance)>) -> nat
    decreases p.len(),
{
    if p.len() == 0 {
        0
    } else {
        total_paid(p.drop_last()) + p.last().1 as nat
    }
}

/// Totals over a prefix never exceed the totals over the whole.
pub proof fn lemma_prefix_totals(bets: Seq<Bet>, result: MatchResult, j: int)
    requires
        0 <= j <= bets.len(),
    ensures
        total_staked(bets.take(j)) <= total_staked(bets),
        total_winning(bets.take(j), result) <= total_winning(bets, result),
        total_winning(bets, result) <= total_staked(bets),
    decreases bets.len() - j,
{
    if j == bets.len() {
        assert(bets.take(j) =~= bets);
        lemma_winning_within_staked(bets, result);
    } else {
        lemma_prefix_totals(bets, result, j + 1);
        assert(bets.take(j + 1).drop_last() =~= bets.take(j));
    }
}

/// Inserting a bet adds its amount to the total staked.
pub proof fn lemma_total_staked_insert(bets: Seq<Bet>, i: int, b: Bet)
    requires
        0 <= i <= bets.len(),
    ensures
        total_staked(bets.insert(i, b)) == total_staked(bets) + b.amount,
    decreases bets.len(),
{
    if i < bets.len() {
        lemma_total_staked_insert(bets.drop_last(), i, b);
        assert(bets.insert(i, b).drop_last() =~= bets.drop_last().insert(i, b));
    } else {
        assert(bets.insert(i, b).drop_last() =~= bets);
    }
}

/// The winning stakes are part of all the stakes.
pub proof fn lemma_winning_within_staked(bets: Seq<Bet>, result: MatchResult)
    ensures
        total_winning(bets, result) <= total_staked(bets),
    decreases bets.len(),
{
    if bets.len() > 0 {
        lemma_winning_within_staked(bets.drop_last(), result);
    }
}

/// Over winning stakes that sum to at most `total_winners`, what is paid and
/// what is truncated make up the exact shares.
proof fn lemma_paid_plus_truncation(
    bets: Seq<Bet>,
    result: MatchResult,
    total_winners: nat,
    total_bet: nat,
)
    requires
        total_winners > 0,
        total_bet <= u128::MAX,
        total_winning(bets, result) <= total_winners,
    ensures
        total_paid(payouts(bets, result, total_winners, total_bet)) * total_winners + total_truncation(
            bets,
            result,
            total_winners,
            total_bet,
        ) == total_winning(bets, result) * total_bet,
    decreases bets.len(),
{
    if bets.len() > 0 {
        let rest = bets.drop_last();
        let b = bets.last();
        lemma_paid_plus_truncation(rest, result, total_winners, total_bet);
        if b.result == result {
            let a = b.amount as nat;
            let x = a * total_bet;
            lemma_fundamental_div_mod(x as int, total_winners as int);
            assert(a <= total_winners);
            assert(x <= total_winners * total_bet) by (nonlinear_arith)
                requires
                    a <= total_winners,
                    x == a * total_bet,
            ;
            let p = payout_of(a, total_winners, total_bet);
            assert(p <= total_bet) by (nonlinear_arith)
                requires
                    x <= total_winners * total_bet,
                    p == x / total_winners,
                    total_winners > 0,
            ;
            let pr = payouts(rest, result, total_winners, total_bet);
            assert(payouts(bets, result, total_winners, total_bet).drop_last() == pr);
            let tw_rest = total_winning(rest, result);
            assert((tw_rest + a) * total_bet == tw_rest * total_bet + a * total_bet)
                by (nonlinear_arith);
            assert((total_paid(pr) + p) * total_winners == total_paid(pr) * total_winners + p
                * total_winners) by (nonlinear_arith);
            assert(p * total_winners == total_winners * p) by (nonlinear_arith);
            assert(total_paid(payouts(bets, result, total_winners, total_bet)) == total_paid(pr) + p);
            assert(total_truncation(bets, result, total_winners, total_bet) == total_truncation(
                rest,
                result,
                total_winners,
                total_bet,
            ) + (x as int) % (total_winners as int));
        } else {
            assert(payouts(bets, result, total_winners, total_bet) == payouts(
                rest,
                result,
                total_winners,
                total_bet,
            ));
            assert(total_truncation(bets, result, total_winners, total_bet) == total_truncation(
                rest,
                result,
                total_winners,
                total_bet,
            ));
            assert(total_winning(bets, result) == total_winning(rest, result));
        }
    } else {
        assert(total_paid(payouts(bets, result, total_winners, total_bet)) == 0);
        assert(total_winning(bets, result) == 0);
    }
}

/// Settlement pays out at most the pool, and what stays in the pool is exactly
/// the sum of what rounding down takes from each winner: multiplied by the
/// winning total, the residue equals the sum of the remainders of
/// `amount * total_bet` divided by the winning total.
pub proof fn lemma_settlement_conserves(bets: Seq<Bet>, result: MatchResult)
    requires
        total_winning(bets, result) > 0,
        total_staked(bets) <= u128::MAX,
    ensures
        total_paid(settlement(bets, result)) <= total_staked(bets),
        total_winning(bets, result) * (total_staked(bets) - total_paid(settlement(bets, result)))
            == total_truncation(bets, result, total_winning(bets, result), total_staked(bets)),
{
    let tw = total_winning(bets, result);
    let tb = total_staked(bets);
    lemma_paid_plus_truncation(bets, result, tw, tb);
    let paid = total_paid(settlement(bets, result));
    let rem = total_truncation(bets, result, tw, tb);
    assert(paid * tw <= tw * tb) by (nonlinear_arith)
        requires
            paid * tw + rem == tw * tb,
    ;
    assert(paid <= tb) by (nonlinear_arith)
        requires
            paid * tw <= tw * tb,
            tw > 0,
    ;
    assert(tw * (tb - paid) == tw * tb - paid * tw) by (nonlinear_arith);
}

/// Relies on sp_arithmetic::helpers_128bit::multiply_by_rational_with_rounding,
/// rounding down: `a * b / c` rounded toward zero, with the product taken
/// exactly; `None` where `c` is zero or the quotient does not fit in `u128`.
#[verifier::external_body]
fn multiply_by_rational_down(a: u128, b: u128, c: u128) -> (r: Option<u128>)
    ensures
        r == (if c == 0 || (a as int) * (b as int) / (c as int) > u128::MAX {
            None
        } else {
            Some(((a as int) * (b as int) / (c as int)) as u128)
        }),
{
    multiply_by_rational_with_rounding(a, b, c, Rounding::Down)
}

/// The sum of the amounts of `bets`, or `None` where it does not fit in a
/// balance.
pub fn sum_bets(bets: &Vec<Bet>) -> (r: Option<Balance>)
    ensures
        r == (if total_staked(bets@) <= u128::MAX {
            Some(total_staked(bets@) as Balance)
        } else {
            None
        }),
{
    let mut total: Balance = 0;
    let mut i: usize = 0;
    while i < bets.len()
        invariant
            i <= bets@.len(),
            total == total_staked(bets@.take(i as int)),
        decreases bets@.len() - i,
    {
        assert(bets@.take(i + 1).drop_last() =~= bets@.take(i as int));
        match total.checked_add(bets[i].amount) {
            Some(t) => total = t,
            None => {
                proof {
                    lemma_prefix_totals(bets@, MatchResult::Draw, i + 1);
                }
                return None;
            },
        }
        i = i + 1;
    }
    assert(bets@.take(i as int) =~= bets@);
    Some(total)
}

/// Computes the transfers that settle a match: each winning bet, in order,
/// receives its share of the whole pool, rounded down. Fails with `NoWinners`
/// where no bet predicted `result`.
pub fn settle(bets: &Vec<Bet>, result: MatchResult) -> (r: Result<
    Vec<(AccountId, Balance)>,
    crate::types::Error,
>)
    requires
        total_staked(bets@) <= u128::MAX,
    ensures
        total_winning(bets@, result) == 0 ==> r == Err::<Vec<(AccountId, Balance)>, _>(
            crate::types::Error::NoWinners,
        ),
        total_winning(bets@, result) > 0 ==> r is Ok && r->Ok_0@ == settlement(bets@, result),
{
    let mut total_bet: Balance = 0;
    let mut total_winners: Balance = 0;
    let mut i: usize = 0;
    while i < bets.len()
        invariant
            i <= bets@.len(),
            total_staked(bets@) <= u128::MAX,
            total_bet == total_staked(bets@.take(i as int)),
            total_winners == total_winning(bets@.take(i as int), result),
        decreases bets@.len() - i,
    {
        proof {
            lemma_prefix_totals(bets@, result, i + 1);
            lemma_winning_within_staked(bets@.take(i + 1), result);
            assert(bets@.take(i + 1).drop_last() =~= bets@.take(i as int));
        }
        total_bet = total_bet + bets[i].amount;
        if bets[i].result == result {
            total_winners = total_winners + bets[i].amount;
        }
        i = i + 1;
    }
    assert(bets@.take(i as int) =~= bets@);
    if total_winners == 0 {
        return Err(crate::types::Error::NoWinners);
    }
    let mut out: Vec<(AccountId, Balance)> = Vec::new();
    let mut k: usize = 0;
    while k < bets.len()
        invariant
            k <= bets@.len(),
            total_winners == total_winning(bets@, result),
            total_winners > 0,
            total_bet == total_staked(bets@),
            total_bet <= u128::MAX,
            out@ == payouts(bets@.take(k as int), result, total_winners as nat, total_bet as nat),
        decreases bets@.len() - k,
    {
        proof {
            lemma_prefix_totals(bets@, result, k + 1);
            assert(bets@.take(k + 1).drop_last() =~= bets@.take(k as int));
        }
        let b = bets[k];
        if b.result == result {
            let a = b.amount;
            assert(a <= total_winners);
            assert((a as int) * (total_bet as int) / (total_winners as int) <= total_bet)
                by (nonlinear_arith)
                requires
                    a <= total_winners,
                    total_winners > 0,
            ;
            match multiply_by_rational_down(a, total_bet, total_winners) {
                Some(p) => out.push((b.bettor, p)),
                None => {
                    assert(false);
                },
            }
        }
        k = k + 1;
    }
    assert(bets@.take(k as int) =~= bets@);
    Ok(out)
}

} // verus!
