//! The bets of a match: a collection ordered by the key `(bettor, amount)`,
//! without two bets of one key, and bounded in size.
use vstd::prelude::*;
use crate::types::{Bet, Error};

verus! {

/// `a` comes before `b`: by bettor, then by amount. The predicted result is no
/// part of the key.
pub open spec fn key_lt(a: Bet, b: Bet) -> bool {
    a.bettor < b.bettor || (a.bettor == b.bettor && a.amount < b.amount)
}

/// `a` and `b` have the same key.
pub open spec fn same_key(a: Bet, b: Bet) -> bool {
    a.bettor == b.bettor && a.amount == b.amount
}

/// The bets stand in strictly increasing order of key.
pub open spec fn sorted_by_key(s: Seq<Bet>) -> bool {
    forall|i: int, j: int| 0 <= i < j < s.len() ==> key_lt(#[trigger] s[i], #[trigger] s[j])
}

/// Some bet of `s` has the key of `b`.
pub open spec fn has_key(s: Seq<Bet>, b: Bet) -> bool {
    exists|i: int| 0 <= i < s.len() && same_key(#[trigger] s[i], b)
}

/// The number of bets of `s` whose key comes before that of `b`: where `b`
/// goes in a sorted `s`.
pub open spec fn insert_pos(s: Seq<Bet>, b: Bet) -> int
    decreases s.len(),
{
    if s.len() == 0 {
        0
    } else {
        insert_pos(s.drop_last(), b) + if key_lt(s.last(), b) {
            1int
        } else {
            0int
        }
    }
}

/// The insertion position lies within the sequence.
pub proof fn lemma_insert_pos_bounds(s: Seq<Bet>, b: Bet)
    ensures
        0 <= insert_pos(s, b) <= s.len(),
    decreases s.len(),
{
    if s.len() > 0 {
        lemma_insert_pos_bounds(s.drop_last(), b);
    }
}

/// A position with smaller keys before it and greater keys from it on is the
/// insertion position.
proof fn lemma_insert_pos(s: Seq<Bet>, b: Bet, p: int)
    requires
        0 <= p <= s.len(),
        forall|i: int| 0 <= i < p ==> key_lt(#[trigger] s[i], b),
        forall|i: int| p <= i < s.len() ==> key_lt(b, #[trigger] s[i]),
    ensures
        insert_pos(s, b) == p,
    decreases s.len(),
{
    if s.len() > 0 {
        let rest = s.drop_last();
        if p == s.len() {
            assert(key_lt(s[s.len() - 1], b));
            lemma_insert_pos(rest, b, p - 1);
        } else {
            assert(key_lt(b, s[s.len() - 1]));
            assert forall|i: int| 0 <= i < p implies key_lt(#[trigger] rest[i], b) by {
                assert(rest[i] == s[i]);
            }
            assert forall|i: int| p <= i < rest.len() implies key_lt(b, #[trigger] rest[i]) by {
                assert(rest[i] == s[i]);
            }
            lemma_insert_pos(rest, b, p);
        }
    }
}

/// Searches `bets` for the key of `bet`: `Ok` with the index of the bet that has
/// it, or `Err` with the position where a bet of that key would keep the order.
pub fn search_bet(bets: &Vec<Bet>, bet: &Bet) -> (r: Result<usize, usize>)
    requires
        sorted_by_key(bets@),
    ensures
        match r {
            Ok(i) => i < bets@.len() && same_key(bets@[i as int], *bet),
            Err(p) => {
                &&& p <= bets@.len()
                &&& !has_key(bets@, *bet)
                &&& forall|i: int| 0 <= i < p ==> key_lt(#[trigger] bets@[i], *bet)
                &&& forall|i: int| p <= i < bets@.len() ==> key_lt(*bet, #[trigger] bets@[i])
                &&& p == insert_pos(bets@, *bet)
            },
        },
{
    let mut lo: usize = 0;
    let mut hi: usize = bets.len();
    while lo < hi
        invariant
            sorted_by_key(bets@),
            0 <= lo <= hi <= bets@.len(),
            forall|i: int| 0 <= i < lo ==> key_lt(#[trigger] bets@[i], *bet),
            forall|i: int| hi <= i < bets@.len() ==> key_lt(*bet, #[trigger] bets@[i]),
        decreases hi - lo,
    {
        let mid: usize = lo + (hi - lo) / 2;
        let m = &bets[mid];
        if m.bettor < bet.bettor || (m.bettor == bet.bettor && m.amount < bet.amount) {
            lo = mid + 1;
        } else if m.bettor == bet.bettor && m.amount == bet.amount {
            return Ok(mid);
        } else {
            hi = mid;
        }
    }
    proof {
        lemma_insert_pos(bets@, *bet, lo as int);
        assert forall|i: int| 0 <= i < bets@.len() implies !same_key(#[trigger] bets@[i], *bet) by {
            if i < lo {
                assert(key_lt(bets@[i], *bet));
            } else {
                assert(key_lt(*bet, bets@[i]));
            }
        }
    }
    Err(lo)
}

/// Adds `bet` to `bets` at its place in the order. Fails with `AlreadyBet` where
/// a bet of the same key is there, whatever its predicted result, and else with
/// `MaxBets` where `bets` already holds `max` bets; a failure changes nothing.
pub fn insert_bet(bets: &mut Vec<Bet>, bet: Bet, max: u32) -> (r: Result<usize, Error>)
    requires
        sorted_by_key(old(bets)@),
    ensures
        has_key(old(bets)@, bet) ==> r == Err::<usize, Error>(Error::AlreadyBet),
        !has_key(old(bets)@, bet) && old(bets)@.len() >= max ==> r == Err::<usize, Error>(
            Error::MaxBets,
        ),
        !has_key(old(bets)@, bet) && old(bets)@.len() < max ==> r is Ok,
        r is Err ==> final(bets)@ == old(bets)@,
        r is Ok ==> {
            &&& r->Ok_0 == insert_pos(old(bets)@, bet)
            &&& r->Ok_0 <= old(bets)@.len()
            &&& final(bets)@ == old(bets)@.insert(r->Ok_0 as int, bet)
        },
        sorted_by_key(final(bets)@),
{
    match search_bet(bets, &bet) {
        Ok(_) => Err(Error::AlreadyBet),
        Err(pos) => {
            if bets.len() >= max as usize {
                Err(Error::MaxBets)
            } else {
                bets.insert(pos, bet);
                proof {
                    let s = bets@;
                    assert forall|i: int, j: int| 0 <= i < j < s.len() implies key_lt(
                        #[trigger] s[i],
                        #[trigger] s[j],
                    ) by {
                        let o = old(bets)@;
                        if j < pos {
                        } else if i < pos && j == pos {
                        } else if i < pos {
                            assert(key_lt(o[i], bet) && key_lt(bet, o[j - 1]));
                        } else if i == pos {
                            assert(key_lt(bet, o[j - 1]));
                        } else {
                            assert(key_lt(o[i - 1], o[j - 1]));
                        }
                    }
                }
                Ok(pos)
            }
        },
    }
}

} // verus!
