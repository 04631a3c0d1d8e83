//! Properties of the ledger that relate several operations.
use vstd::prelude::*;
use crate::types::{AccountId, Balance, Bet, BlockNumber, Error, MatchResult};
use crate::bets::{has_key, insert_pos, lemma_insert_pos_bounds, same_key};
use crate::hashing::match_hash_of;
use crate::pallet::{
    bet_error, bet_placed, create_error, created, registered, result_set, set_result_failure,
    settled, DispatchError, Origin, PalletModel,
};

verus! {

/// A newly created match holds no bets.
pub proof fn lemma_new_match_empty(
    s: PalletModel,
    who: AccountId,
    team1: Seq<u8>,
    team2: Seq<u8>,
    start: BlockNumber,
    length: BlockNumber,
)
    ensures
        created(s, who, team1, team2, start, length).matches[who].bets.len() == 0,
{
}

/// Once an account has created a match, any other account without a match of
/// its own that tries to create a match with the same teams, start and length,
/// while it is not yet over, fails with `MatchAlreadyExists`.
pub proof fn lemma_match_unique(
    s: PalletModel,
    creator: AccountId,
    other: AccountId,
    team1: Seq<u8>,
    team2: Seq<u8>,
    start: BlockNumber,
    length: BlockNumber,
    now: BlockNumber,
    later: BlockNumber,
)
    requires
        create_error(s, creator, team1, team2, start, length, now) is None,
        other != creator,
        !s.matches.contains_key(other),
        later < start + length,
    ensures
        create_error(created(s, creator, team1, team2, start, length), other, team1, team2, start, length, later)
            == Some(Error::MatchAlreadyExists),
{
    let s2 = created(s, creator, team1, team2, start, length);
    let h = match_hash_of(team1, team2, start, length);
    assert(s2.hashes[s.hashes.len() as int].0 == h);
    assert(registered(s2.hashes, h));
}

/// An account that has a stored match cannot create another: the attempt
/// fails with `OriginHasAlreadyOpenMatch`. Bets and results keep the match
/// stored; once it is settled, that error no longer applies.
pub proof fn lemma_single_open_match(
    s: PalletModel,
    who: AccountId,
    team1: Seq<u8>,
    team2: Seq<u8>,
    start: BlockNumber,
    length: BlockNumber,
    now: BlockNumber,
    bettor: AccountId,
    amount: Balance,
    result: MatchResult,
)
    requires
        s.matches.contains_key(who),
    ensures
        create_error(s, who, team1, team2, start, length, now) == Some(
            Error::OriginHasAlreadyOpenMatch,
        ),
        bet_placed(s, bettor, who, amount, result).matches.contains_key(who),
        result_set(s, who, result).matches.contains_key(who),
        create_error(settled(s, who), who, team1, team2, start, length, now) != Some(
            Error::OriginHasAlreadyOpenMatch,
        ),
{
}

/// After a bet is accepted, the same bettor betting the same amount on the
/// same match fails with `AlreadyBet`, whatever result it predicts.
pub proof fn lemma_no_double_bet(
    s: PalletModel,
    who: AccountId,
    match_id: AccountId,
    amount: Balance,
    first: MatchResult,
    second: MatchResult,
    now: BlockNumber,
)
    requires
        bet_error(s, who, match_id, amount, first, now) is None,
    ensures
        bet_error(bet_placed(s, who, match_id, amount, first), who, match_id, amount, second, now)
            == Some(Error::AlreadyBet),
{
    let bets = s.matches[match_id].bets;
    let b = Bet { bettor: who, amount, result: first };
    let p = insert_pos(bets, b);
    lemma_insert_pos_bounds(bets, b);
    let after = bet_placed(s, who, match_id, amount, first).matches[match_id].bets;
    assert(after[p] == b);
    assert(same_key(after[p], Bet { bettor: who, amount, result: second }));
    assert(has_key(after, Bet { bettor: who, amount, result: second }));
}

/// A bet with a new key on a match that already holds its capacity of bets,
/// before the match starts, fails with `MaxBets`.
pub proof fn lemma_capacity(
    s: PalletModel,
    who: AccountId,
    match_id: AccountId,
    amount: Balance,
    result: MatchResult,
    now: BlockNumber,
)
    requires
        s.matches.contains_key(match_id),
        now < s.matches[match_id].start,
        s.matches[match_id].bets.len() == s.config.max_bets_per_match,
        !has_key(s.matches[match_id].bets, Bet { bettor: who, amount, result }),
    ensures
        bet_error(s, who, match_id, amount, result, now) == Some(Error::MaxBets),
{
}

/// An accepted bet adds exactly one bet to its match.
pub proof fn lemma_bet_count(
    s: PalletModel,
    who: AccountId,
    match_id: AccountId,
    amount: Balance,
    result: MatchResult,
    now: BlockNumber,
)
    requires
        bet_error(s, who, match_id, amount, result, now) is None,
    ensures
        bet_placed(s, who, match_id, amount, result).matches[match_id].bets.len() == s.matches[match_id].bets.len()
            + 1,
{
    lemma_insert_pos_bounds(s.matches[match_id].bets, Bet { bettor: who, amount, result });
}

/// The ledger after the bets `bs` (bettor, amount, predicted result) were
/// placed on the match of `match_id`, in order.
pub open spec fn bets_placed(
    s: PalletModel,
    match_id: AccountId,
    bs: Seq<(AccountId, Balance, MatchResult)>,
) -> PalletModel
    decreases bs.len(),
{
    if bs.len() == 0 {
        s
    } else {
        let b = bs.last();
        bet_placed(bets_placed(s, match_id, bs.drop_last()), b.0, match_id, b.1, b.2)
    }
}

/// Each bet of `bs`, placed in order on the match of `match_id`, was accepted.
pub open spec fn all_accepted(
    s: PalletModel,
    match_id: AccountId,
    bs: Seq<(AccountId, Balance, MatchResult)>,
    now: BlockNumber,
) -> bool
    decreases bs.len(),
{
    if bs.len() == 0 {
        true
    } else {
        let b = bs.last();
        &&& all_accepted(s, match_id, bs.drop_last(), now)
        &&& bet_error(bets_placed(s, match_id, bs.drop_last()), b.0, match_id, b.1, b.2, now) is None
    }
}

/// A match that accepted the bets `bs` holds exactly `bs.len()` more bets, and
/// never more than its capacity; a new match holds none, so after `n`
/// accepted bets it holds `n`.
pub proof fn lemma_bets_counted(
    s: PalletModel,
    match_id: AccountId,
    bs: Seq<(AccountId, Balance, MatchResult)>,
    now: BlockNumber,
)
    requires
        s.matches.contains_key(match_id),
        all_accepted(s, match_id, bs, now),
    ensures
        bets_placed(s, match_id, bs).matches.contains_key(match_id),
        bets_placed(s, match_id, bs).config == s.config,
        bets_placed(s, match_id, bs).matches[match_id].bets.len() == s.matches[match_id].bets.len()
            + bs.len(),
        bs.len() > 0 ==> bets_placed(s, match_id, bs).matches[match_id].bets.len()
            <= s.config.max_bets_per_match,
    decreases bs.len(),
{
    if bs.len() > 0 {
        let prev = bets_placed(s, match_id, bs.drop_last());
        let b = bs.last();
        lemma_bets_counted(s, match_id, bs.drop_last(), now);
        lemma_bet_count(prev, b.0, match_id, b.1, b.2, now);
    }
}

/// Bets close when the match starts: from its start block on, a bet fails with
/// `MatchHasStarted`. A result can be set only after the match's end: up to
/// and including `start + length` the call fails with `TimeMatchNotOver`, and
/// after it the timing no longer stands in the way.
pub proof fn lemma_timing_gates(
    s: PalletModel,
    who: AccountId,
    match_id: AccountId,
    amount: Balance,
    result: MatchResult,
    now: BlockNumber,
)
    requires
        s.matches.contains_key(match_id),
    ensures
        now >= s.matches[match_id].start ==> bet_error(s, who, match_id, amount, result, now)
            == Some(Error::MatchHasStarted),
        now <= s.matches[match_id].start + s.matches[match_id].length ==> set_result_failure(
            s,
            Origin::Root,
            match_id,
            now,
        ) == Some(DispatchError::Module(Error::TimeMatchNotOver)),
        now > s.matches[match_id].start + s.matches[match_id].length ==> set_result_failure(
            s,
            Origin::Root,
            match_id,
            now,
        ) is None,
{
}

} // verus!
