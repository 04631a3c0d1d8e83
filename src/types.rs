use vstd::prelude::*;

verus! {

/// Identifier of an account; a match is keyed by the account that created it.
pub type AccountId = u64;

/// An amount of currency, in indivisible units.
pub type Balance = u128;

/// The logical clock used for all timing decisions.
pub type BlockNumber = u64;

/// The outcome of a match.
#[derive(Clone, Copy, Debug, PartialEq, Eq, Structural)]
pub enum MatchResult {
    Team1Victory,
    Team2Victory,
    Draw,
}

/// A bet placed by `bettor`, staking `amount` on `result`.
#[derive(Clone, Copy, Debug, PartialEq, Eq, Structural)]
pub struct Bet {
    /// Account of the bettor.
    pub bettor: AccountId,
    /// Amount staked.
    pub amount: Balance,
    /// Result predicted.
    pub result: MatchResult,
}

/// A match open for betting.
#[derive(Clone, Debug)]
pub struct Match {
    /// Block at which the match starts; bets are accepted strictly before it.
    pub start: BlockNumber,
    /// Duration of the match; its end is `start + length`.
    pub length: BlockNumber,
    /// Name of the first team.
    pub team1: Vec<u8>,
    /// Name of the second team.
    pub team2: Vec<u8>,
    /// The recorded outcome, once set.
    pub result: Option<MatchResult>,
    /// The bets, ordered by bettor and then by amount.
    pub bets: Vec<Bet>,
}

/// The mathematical value of a `Match`.
pub struct MatchModel {
    pub start: BlockNumber,
    pub length: BlockNumber,
    pub team1: Seq<u8>,
    pub team2: Seq<u8>,
    pub result: Option<MatchResult>,
    pub bets: Seq<Bet>,
}

impl View for Match {
    type V = MatchModel;

    open spec fn view(&self) -> MatchModel {
        MatchModel {
            start: self.start,
            length: self.length,
            team1: self.team1@,
            team2: self.team2@,
            result: self.result,
            bets: self.bets@,
        }
    }
}

/// The errors of the betting operations.
#[derive(Clone, Copy, Debug, PartialEq, Eq, Structural)]
pub enum Error {
    /// A match with the same teams and times already exists.
    MatchAlreadyExists,
    /// Each account can have only one match open.
    OriginHasAlreadyOpenMatch,
    /// The match would already be over.
    TimeMatchOver,
    /// No match is stored under the given account.
    MatchDoesNotExist,
    /// Bets are not accepted once the match has started.
    MatchHasStarted,
    /// The match has reached its limit of bets.
    MaxBets,
    /// A bet with the same bettor and amount was already placed on the match.
    AlreadyBet,
    /// The result cannot be set before the match is over.
    TimeMatchNotOver,
    /// The match has no result yet.
    MatchNotResult,
    /// A team name is longer than allowed.
    TeamNameTooLong,
    /// No bet predicted the recorded result, so the pool has nobody to go to.
    NoWinners,
    /// The stakes on the match would sum to more than the largest balance.
    Overflow,
}

} // verus!
