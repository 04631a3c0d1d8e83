//! The betting state machine: matches keyed by their creator, a digest index
//! that keeps matches unique, and the four operations that move a match from
//! creation to settlement.
use vstd::prelude::*;
use std::collections::HashMap;
use crate::types::{AccountId, Balance, Bet, BlockNumber, Error, Match, MatchModel, MatchResult};
use crate::bets::{has_key, insert_bet, insert_pos, sorted_by_key};
use crate::hashing::match_hash_of;
use crate::settlement::{settle, settlement, sum_bets, total_staked, total_winning};
use crate::currency::{Currency, CurrencyError, transfer_delta};

verus! {

broadcast use vstd::std_specs::hash::group_hash_axioms;

/// Who makes a call: a signed account, or the privileged root.
#[derive(Clone, Copy, Debug, PartialEq, Eq, Structural)]
pub enum Origin {
    Root,
    Signed(AccountId),
}

/// Why an operation failed.
#[derive(Clone, Copy, Debug, PartialEq, Eq, Structural)]
pub enum DispatchError {
    /// The caller lacks the authority the operation needs.
    BadOrigin,
    /// A rule of the betting ledger refused the operation.
    Module(Error),
    /// The currency refused a transfer.
    Currency(CurrencyError),
}

/// The notification of a successful operation.
#[derive(Clone, Debug)]
pub enum Event {
    /// A match was created: creator, first team, second team, start, length.
    MatchCreated(AccountId, Vec<u8>, Vec<u8>, BlockNumber, BlockNumber),
    /// A bet was placed: match, bettor, amount, predicted result.
    BetPlaced(AccountId, AccountId, Balance, MatchResult),
    /// The result of a match was set: match, result.
    MatchResult(AccountId, MatchResult),
}

/// The limits of the ledger and the account that holds the pool.
#[derive(Clone, Copy, Debug, PartialEq, Eq, Structural)]
pub struct Config {
    /// Longest team name allowed, in bytes.
    pub max_team_name_length: u32,
    /// Most bets a match can hold.
    pub max_bets_per_match: u32,
    /// The account that holds the stakes until settlement.
    pub pallet_account: AccountId,
}

impl Config {
    /// The account of the betting pool.
    pub fn account_id(&self) -> (r: AccountId)
        ensures
            r == self.pallet_account,
    {
        self.pallet_account
    }
}

/// An entry of the digest index: the digest of a match and its creator.
struct HashEntry {
    hash: Vec<u8>,
    owner: AccountId,
}

/// The mathematical value of the ledger.
pub struct PalletModel {
    pub config: Config,
    /// The stored matches, by creator.
    pub matches: Map<AccountId, MatchModel>,
    /// The digest index: digest and creator, in order of creation.
    pub hashes: Seq<(Seq<u8>, AccountId)>,
}

/// A stored match respects the limits and keeps its bets in order.
pub open spec fn match_wf(m: MatchModel, config: Config) -> bool {
    &&& m.team1.len() <= config.max_team_name_length
    &&& m.team2.len() <= config.max_team_name_length
    &&& sorted_by_key(m.bets)
    &&& m.bets.len() <= config.max_bets_per_match
    &&& total_staked(m.bets) <= u128::MAX
}

/// No digest appears twice in the index.
pub open spec fn distinct_hashes(hashes: Seq<(Seq<u8>, AccountId)>) -> bool {
    forall|i: int, j: int|
        0 <= i < j < hashes.len() ==> #[trigger] hashes[i].0 != #[trigger] hashes[j].0
}

/// The digest of a match.
pub open spec fn match_hash(m: MatchModel) -> Seq<u8> {
    match_hash_of(m.team1, m.team2, m.start, m.length)
}

impl PalletModel {
    /// Every stored match is well formed, no digest is indexed twice, every
    /// entry of the index names a stored match of that digest, and every stored
    /// match has its entry.
    pub open spec fn wf(self) -> bool {
        &&& forall|id: AccountId| #[trigger]
            self.matches.contains_key(id) ==> match_wf(self.matches[id], self.config)
        &&& distinct_hashes(self.hashes)
        &&& forall|i: int|
            0 <= i < self.hashes.len() ==> {
                &&& self.matches.contains_key(#[trigger] self.hashes[i].1)
                &&& match_hash(self.matches[self.hashes[i].1]) == self.hashes[i].0
            }
        &&& forall|id: AccountId| #[trigger]
            self.matches.contains_key(id) ==> exists|i: int|
                0 <= i < self.hashes.len() && #[trigger] self.hashes[i] == (
                    match_hash(self.matches[id]),
                    id,
                )
    }
}

/// Some entry of the index holds digest `h`.
pub open spec fn registered(hashes: Seq<(Seq<u8>, AccountId)>, h: Seq<u8>) -> bool {
    exists|i: int| 0 <= i < hashes.len() && #[trigger] hashes[i].0 == h
}

/// The index without the entry of digest `h`.
pub open spec fn without_hash(hashes: Seq<(Seq<u8>, AccountId)>, h: Seq<u8>) -> Seq<
    (Seq<u8>, AccountId),
> {
    if registered(hashes, h) {
        hashes.remove(choose|i: int| 0 <= i < hashes.len() && #[trigger] hashes[i].0 == h)
    } else {
        hashes
    }
}

/// The signing account of a call, if it is signed.
pub open spec fn signer(origin: Origin) -> Option<AccountId> {
    match origin {
        Origin::Signed(who) => Some(who),
        Origin::Root => None,
    }
}

/// Why `who` cannot create this match now, checked in this order.
pub open spec fn create_error(
    s: PalletModel,
    who: AccountId,
    team1: Seq<u8>,
    team2: Seq<u8>,
    start: BlockNumber,
    length: BlockNumber,
    now: BlockNumber,
) -> Option<Error> {
    if s.matches.contains_key(who) {
        Some(Error::OriginHasAlreadyOpenMatch)
    } else if now >= start + length {
        Some(Error::TimeMatchOver)
    } else if team1.len() > s.config.max_team_name_length || team2.len()
        > s.config.max_team_name_length {
        Some(Error::TeamNameTooLong)
    } else if registered(s.hashes, match_hash_of(team1, team2, start, length)) {
        Some(Error::MatchAlreadyExists)
    } else {
        None
    }
}

/// Why a creation call fails, if it does.
pub open spec fn create_failure(
    s: PalletModel,
    origin: Origin,
    team1: Seq<u8>,
    team2: Seq<u8>,
    start: BlockNumber,
    length: BlockNumber,
    now: BlockNumber,
) -> Option<DispatchError> {
    match origin {
        Origin::Root => Some(DispatchError::BadOrigin),
        Origin::Signed(who) => match create_error(s, who, team1, team2, start, length, now) {
            Some(e) => Some(DispatchError::Module(e)),
            None => None,
        },
    }
}

/// A match with these teams and times, no result and no bets.
pub open spec fn new_match(
    team1: Seq<u8>,
    team2: Seq<u8>,
    start: BlockNumber,
    length: BlockNumber,
) -> MatchModel {
    MatchModel { start, length, team1, team2, result: None, bets: Seq::empty() }
}

/// The ledger after `who` created this match.
pub open spec fn created(
    s: PalletModel,
    who: AccountId,
    team1: Seq<u8>,
    team2: Seq<u8>,
    start: BlockNumber,
    length: BlockNumber,
) -> PalletModel {
    PalletModel {
        config: s.config,
        matches: s.matches.insert(who, new_match(team1, team2, start, length)),
        hashes: s.hashes.push((match_hash_of(team1, team2, start, length), who)),
    }
}

/// `e` announces the creation of this match by `who`.
pub open spec fn created_event(
    e: Event,
    who: AccountId,
    team1: Seq<u8>,
    team2: Seq<u8>,
    start: BlockNumber,
    length: BlockNumber,
) -> bool {
    match e {
        Event::MatchCreated(w, t1, t2, s, l) => w == who && t1@ == team1 && t2@ == team2 && s
            == start && l == length,
        _ => false,
    }
}

/// Why `who` cannot place this bet on the match of `match_id` now, checked in
/// this order.
pub open spec fn bet_error(
    s: PalletModel,
    who: AccountId,
    match_id: AccountId,
    amount: Balance,
    result: MatchResult,
    now: BlockNumber,
) -> Option<Error> {
    if !s.matches.contains_key(match_id) {
        Some(Error::MatchDoesNotExist)
    } else if now >= s.matches[match_id].start {
        Some(Error::MatchHasStarted)
    } else if has_key(s.matches[match_id].bets, Bet { bettor: who, amount, result }) {
        Some(Error::AlreadyBet)
    } else if s.matches[match_id].bets.len() >= s.config.max_bets_per_match {
        Some(Error::MaxBets)
    } else if total_staked(s.matches[match_id].bets) + amount > u128::MAX {
        Some(Error::Overflow)
    } else {
        None
    }
}

/// Why a bet call fails before any funds move, if it does.
pub open spec fn bet_failure(
    s: PalletModel,
    origin: Origin,
    match_id: AccountId,
    amount: Balance,
    result: MatchResult,
    now: BlockNumber,
) -> Option<DispatchError> {
    match origin {
        Origin::Root => Some(DispatchError::BadOrigin),
        Origin::Signed(who) => match bet_error(s, who, match_id, amount, result, now) {
            Some(e) => Some(DispatchError::Module(e)),
            None => None,
        },
    }
}

/// The ledger after `who` bet `amount` on `result` in the match of `match_id`:
/// the bet stands at its place in the order of keys.
pub open spec fn bet_placed(
    s: PalletModel,
    who: AccountId,
    match_id: AccountId,
    amount: Balance,
    result: MatchResult,
) -> PalletModel {
    let m = s.matches[match_id];
    let b = Bet { bettor: who, amount, result };
    PalletModel {
        matches: s.matches.insert(match_id, MatchModel { bets: m.bets.insert(insert_pos(m.bets, b), b), ..m }),
        ..s
    }
}

/// Why a call to set the result of the match of `match_id` fails now, if it
/// does.
pub open spec fn set_result_failure(
    s: PalletModel,
    origin: Origin,
    match_id: AccountId,
    now: BlockNumber,
) -> Option<DispatchError> {
    match origin {
        Origin::Signed(_) => Some(DispatchError::BadOrigin),
        Origin::Root => if !s.matches.contains_key(match_id) {
            Some(DispatchError::Module(Error::MatchDoesNotExist))
        } else if now <= s.matches[match_id].start + s.matches[match_id].length {
            Some(DispatchError::Module(Error::TimeMatchNotOver))
        } else {
            None
        },
    }
}

/// The ledger after the result of the match of `match_id` was set.
pub open spec fn result_set(s: PalletModel, match_id: AccountId, result: MatchResult) -> PalletModel {
    PalletModel {
        matches: s.matches.insert(match_id, MatchModel { result: Some(result), ..s.matches[match_id] }),
        ..s
    }
}

/// Why `who` cannot settle its match, checked in this order.
pub open spec fn distribute_error(s: PalletModel, who: AccountId) -> Option<Error> {
    if !s.matches.contains_key(who) {
        Some(Error::MatchDoesNotExist)
    } else if s.matches[who].result is None {
        Some(Error::MatchNotResult)
    } else if total_winning(s.matches[who].bets, s.matches[who].result->Some_0) == 0 {
        Some(Error::NoWinners)
    } else {
        None
    }
}

/// Why a settlement call fails before the match is taken away, if it does.
pub open spec fn distribute_failure(s: PalletModel, origin: Origin) -> Option<DispatchError> {
    match origin {
        Origin::Root => Some(DispatchError::BadOrigin),
        Origin::Signed(who) => match distribute_error(s, who) {
            Some(e) => Some(DispatchError::Module(e)),
            None => None,
        },
    }
}

/// The ledger after the match of `who` was settled: the match and its entry
/// in the digest index are gone.
pub open spec fn settled(s: PalletModel, who: AccountId) -> PalletModel {
    let m = s.matches[who];
    PalletModel {
        config: s.config,
        matches: s.matches.remove(who),
        hashes: without_hash(s.hashes, match_hash(m)),
    }
}

/// The transfers that settle the match of `who`.
pub open spec fn settlement_of(s: PalletModel, who: AccountId) -> Seq<(AccountId, Balance)> {
    settlement(s.matches[who].bets, s.matches[who].result->Some_0)
}

/// How the transfers `p` out of `pot` change the balance of `who`.
pub open spec fn paid_to(pot: AccountId, p: Seq<(AccountId, Balance)>, who: AccountId) -> int
    decreases p.len(),
{
    if p.len() == 0 {
        0
    } else {
        paid_to(pot, p.drop_last(), who) + transfer_delta(pot, p.last().0, p.last().1 as nat, who)
    }
}

/// From `before` to `after`, every balance changed by what the transfers `p`
/// out of `pot` move.
pub open spec fn transfers_applied<C: Currency>(
    before: C,
    after: C,
    pot: AccountId,
    p: Seq<(AccountId, Balance)>,
) -> bool {
    forall|a: AccountId|
        #![trigger after.balance_of(a)]
        after.balance_of(a) == before.balance_of(a) + paid_to(pot, p, a)
}

/// The betting ledger.
pub struct Pallet {
    config: Config,
    matches: HashMap<AccountId, Match>,
    match_hashes: Vec<HashEntry>,
}

impl View for Pallet {
    type V = PalletModel;

    closed spec fn view(&self) -> PalletModel {
        PalletModel {
            config: self.config,
            matches: self.matches@.map_values(|m: Match| m@),
            hashes: self.match_hashes@.map_values(|e: HashEntry| (e.hash@, e.owner)),
        }
    }
}

/// Two byte strings are equal.
fn bytes_eq(a: &Vec<u8>, b: &Vec<u8>) -> (r: bool)
    ensures
        r == (a@ == b@),
{
    if a.len() != b.len() {
        return false;
    }
    let mut i: usize = 0;
    while i < a.len()
        invariant
            a@.len() == b@.len(),
            i <= a@.len(),
            forall|j: int| 0 <= j < i ==> a@[j] == b@[j],
        decreases a@.len() - i,
    {
        if a[i] != b[i] {
            return false;
        }
        i = i + 1;
    }
    assert(a@ =~= b@);
    true
}

/// A copy of `m`.
fn copy_match(m: &Match) -> (r: Match)
    ensures
        r@ == m@,
{
    let team1 = m.team1.clone();
    let team2 = m.team2.clone();
    let bets = m.bets.clone();
    assert(team1@ =~= m.team1@);
    assert(team2@ =~= m.team2@);
    assert(bets@ =~= m.bets@);
    Match { start: m.start, length: m.length, team1, team2, result: m.result, bets }
}

impl Pallet {
    /// The ledger is well formed.
    pub open spec fn wf(&self) -> bool {
        self@.wf()
    }

    /// An empty ledger.
    pub fn new(config: Config) -> (r: Pallet)
        ensures
            r@.config == config,
            r@.matches == Map::<AccountId, MatchModel>::empty(),
            r@.hashes == Seq::<(Seq<u8>, AccountId)>::empty(),
            r.wf(),
    {
        let r = Pallet { config, matches: HashMap::new(), match_hashes: Vec::new() };
        assert(r@.matches =~= Map::<AccountId, MatchModel>::empty());
        assert(r@.hashes =~= Seq::<(Seq<u8>, AccountId)>::empty());
        r
    }

    /// The limits of the ledger.
    pub fn config(&self) -> (r: Config)
        ensures
            r == self@.config,
    {
        self.config
    }

    /// The match created by `match_id`, if it is stored.
    pub fn get_matches(&self, match_id: AccountId) -> (r: Option<Match>)
        ensures
            match r {
                Some(m) => self@.matches.contains_key(match_id) && m@ == self@.matches[match_id],
                None => !self@.matches.contains_key(match_id),
            },
    {
        match self.matches.get(&match_id) {
            Some(m) => Some(copy_match(m)),
            None => None,
        }
    }

    /// The index of the entry of digest `hash`, if there is one.
    fn find_hash(&self, hash: &Vec<u8>) -> (r: Option<usize>)
        ensures
            match r {
                Some(i) => i < self@.hashes.len() && self@.hashes[i as int].0 == hash@,
                None => !registered(self@.hashes, hash@),
            },
    {
        let mut i: usize = 0;
        while i < self.match_hashes.len()
            invariant
                i <= self@.hashes.len(),
                self@.hashes.len() == self.match_hashes@.len(),
                forall|j: int| 0 <= j < i ==> #[trigger] self@.hashes[j].0 != hash@,
            decreases self.match_hashes@.len() - i,
        {
            if bytes_eq(&self.match_hashes[i].hash, hash) {
                return Some(i);
            }
            i = i + 1;
        }
        None
    }

    /// The creator of the match of digest `hash`, if one is indexed.
    pub fn get_match_hashes(&self, hash: &Vec<u8>) -> (r: Option<AccountId>)
        ensures
            match r {
                Some(owner) => exists|i: int|
                    0 <= i < self@.hashes.len() && #[trigger] self@.hashes[i] == (hash@, owner),
                None => !registered(self@.hashes, hash@),
            },
    {
        match self.find_hash(hash) {
            Some(i) => {
                assert(self@.hashes[i as int] == (hash@, self.match_hashes@[i as int].owner));
                Some(self.match_hashes[i].owner)
            },
            None => None,
        }
    }

    /// Creates a match to bet on, owned by the signer. Fails with `BadOrigin`
    /// where the call is not signed, and then with the first of
    /// `OriginHasAlreadyOpenMatch`, `TimeMatchOver`, `TeamNameTooLong` and
    /// `MatchAlreadyExists` that applies; a failure changes nothing.
    pub fn create_match_to_bet(
        &mut self,
        origin: Origin,
        team1: Vec<u8>,
        team2: Vec<u8>,
        start: BlockNumber,
        length: BlockNumber,
        now: BlockNumber,
    ) -> (r: Result<Event, DispatchError>)
        requires
            old(self).wf(),
        ensures
            final(self).wf(),
            match create_failure(old(self)@, origin, team1@, team2@, start, length, now) {
                Some(e) => r == Err::<Event, DispatchError>(e) && final(self)@ == old(self)@,
                None => {
                    &&& r is Ok
                    &&& created_event(r->Ok_0, origin->Signed_0, team1@, team2@, start, length)
                    &&& final(self)@ == created(
                        old(self)@,
                        origin->Signed_0,
                        team1@,
                        team2@,
                        start,
                        length,
                    )
                },
            },
    {
        let who = match origin {
            Origin::Signed(w) => w,
            Origin::Root => {
                return Err(DispatchError::BadOrigin);
            },
        };
        if self.matches.contains_key(&who) {
            return Err(DispatchError::Module(Error::OriginHasAlreadyOpenMatch));
        }
        if now as u128 >= start as u128 + length as u128 {
            return Err(DispatchError::Module(Error::TimeMatchOver));
        }
        let max = self.config.max_team_name_length;
        if team1.len() > max as usize || team2.len() > max as usize {
            return Err(DispatchError::Module(Error::TeamNameTooLong));
        }
        let event_team1 = team1.clone();
        let event_team2 = team2.clone();
        assert(event_team1@ =~= team1@);
        assert(event_team2@ =~= team2@);
        let betting_match = Match { start, length, team1, team2, result: None, bets: Vec::new() };
        let hash = Pallet::get_match_hash(&betting_match);
        if self.find_hash(&hash).is_some() {
            return Err(DispatchError::Module(Error::MatchAlreadyExists));
        }
        proof {
            assert(betting_match@ =~= new_match(event_team1@, event_team2@, start, length));
        }
        let ghost old_model = self@;
        self.match_hashes.push(HashEntry { hash, owner: who });
        self.matches.insert(who, betting_match);
        proof {
            assert(self@.matches =~= old_model.matches.insert(who, betting_match@));
            assert(self@.hashes =~= old_model.hashes.push((hash@, who)));
            assert forall|i: int, j: int|
                0 <= i < j < self@.hashes.len() implies #[trigger] self@.hashes[i].0
                != #[trigger] self@.hashes[j].0 by {
                if j == self@.hashes.len() - 1 {
                    assert(old_model.hashes[i].0 != hash@);
                } else {
                    assert(old_model.hashes[i].0 != old_model.hashes[j].0);
                }
            }
            assert forall|id: AccountId| #[trigger] self@.matches.contains_key(id) implies match_wf(
                self@.matches[id],
                self@.config,
            ) by {
                if id != who {
                    assert(old_model.matches.contains_key(id));
                }
            }
            assert forall|i: int| 0 <= i < self@.hashes.len() implies {
                &&& self@.matches.contains_key(#[trigger] self@.hashes[i].1)
                &&& match_hash(self@.matches[self@.hashes[i].1]) == self@.hashes[i].0
            } by {
                if i < old_model.hashes.len() {
                    assert(self@.hashes[i] == old_model.hashes[i]);
                    assert(old_model.matches.contains_key(old_model.hashes[i].1));
                }
            }
            assert forall|id: AccountId| #[trigger] self@.matches.contains_key(id) implies exists|
                i: int,
            |
                0 <= i < self@.hashes.len() && #[trigger] self@.hashes[i] == (
                    match_hash(self@.matches[id]),
                    id,
                ) by {
                if id == who {
                    assert(self@.hashes[old_model.hashes.len() as int] == (
                        match_hash(self@.matches[id]),
                        id,
                    ));
                } else {
                    assert(old_model.matches.contains_key(id));
                    let k = choose|k: int|
                        0 <= k < old_model.hashes.len() && #[trigger] old_model.hashes[k] == (
                            match_hash(old_model.matches[id]),
                            id,
                        );
                    assert(self@.hashes[k] == old_model.hashes[k]);
                }
            }
        }
        Ok(Event::MatchCreated(who, event_team1, event_team2, start, length))
    }

    /// Places a bet of the signer on the match of `match_id`. Fails with
    /// `BadOrigin` where the call is not signed, and then with the first of
    /// `MatchDoesNotExist`, `MatchHasStarted`, `AlreadyBet`, `MaxBets` and
    /// `Overflow` that applies, changing nothing. Otherwise the stake moves
    /// from the bettor to the pool; where the currency refuses, nothing is
    /// stored, and else the bet is.
    pub fn bet<C: Currency>(
        &mut self,
        currency: &mut C,
        origin: Origin,
        match_id: AccountId,
        amount: Balance,
        result: MatchResult,
        now: BlockNumber,
    ) -> (r: Result<Event, DispatchError>)
        requires
            old(self).wf(),
        ensures
            final(self).wf(),
            r is Err ==> final(self)@ == old(self)@,
            forall|a: AccountId|
                #![trigger final(currency).balance_of(a)]
                final(currency).balance_of(a) == old(currency).balance_of(a) + if r is Ok {
                    transfer_delta(origin->Signed_0, old(self)@.config.pallet_account, amount as nat, a)
                } else {
                    0
                },
            match bet_failure(old(self)@, origin, match_id, amount, result, now) {
                Some(e) => r == Err::<Event, DispatchError>(e),
                None => r is Err ==> r->Err_0 is Currency,
            },
            r is Ok ==> {
                &&& final(self)@ == bet_placed(old(self)@, origin->Signed_0, match_id, amount, result)
                &&& r->Ok_0 == Event::BetPlaced(match_id, origin->Signed_0, amount, result)
            },
    {
        let who = match origin {
            Origin::Signed(w) => w,
            Origin::Root => {
                return Err(DispatchError::BadOrigin);
            },
        };
        let m = match self.matches.get(&match_id) {
            Some(m) => m,
            None => {
                return Err(DispatchError::Module(Error::MatchDoesNotExist));
            },
        };
        assert(m@ == self@.matches[match_id]);
        if now >= m.start {
            return Err(DispatchError::Module(Error::MatchHasStarted));
        }
        let b = Bet { bettor: who, amount, result };
        let mut bets = m.bets.clone();
        assert(bets@ =~= m.bets@);
        if let Err(e) = insert_bet(&mut bets, b, self.config.max_bets_per_match) {
            return Err(DispatchError::Module(e));
        }
        proof {
            crate::settlement::lemma_total_staked_insert(m.bets@, insert_pos(m.bets@, b), b);
        }
        if sum_bets(&bets).is_none() {
            return Err(DispatchError::Module(Error::Overflow));
        }
        let pot = self.config.pallet_account;
        if let Err(e) = currency.transfer(who, pot, amount) {
            return Err(DispatchError::Currency(e));
        }
        let ghost old_model = self@;
        let stored = self.matches.remove(&match_id);
        match stored {
            Some(mut stored) => {
                let ghost sm = stored@;
                stored.bets = bets;
                proof {
                    assert(stored@ =~= MatchModel { bets: bets@, ..sm });
                }
                self.matches.insert(match_id, stored);
            },
            None => {
                assert(false);
            },
        }
        proof {
            assert(self@.matches =~= bet_placed(old_model, who, match_id, amount, result).matches);
            assert(self@.hashes == old_model.hashes);
            assert forall|id: AccountId| #[trigger] self@.matches.contains_key(id) implies match_wf(
                self@.matches[id],
                self@.config,
            ) by {
                assert(old_model.matches.contains_key(id));
            }
        }
        Ok(Event::BetPlaced(match_id, who, amount, result))
    }

    /// Records the result of the match of `match_id`. Fails with `BadOrigin`
    /// unless the call comes from root, and then with `MatchDoesNotExist` or
    /// `TimeMatchNotOver`; a failure changes nothing.
    pub fn set_result(
        &mut self,
        origin: Origin,
        match_id: AccountId,
        match_result: MatchResult,
        now: BlockNumber,
    ) -> (r: Result<Event, DispatchError>)
        requires
            old(self).wf(),
        ensures
            final(self).wf(),
            match set_result_failure(old(self)@, origin, match_id, now) {
                Some(e) => r == Err::<Event, DispatchError>(e) && final(self)@ == old(self)@,
                None => {
                    &&& r == Ok::<Event, DispatchError>(Event::MatchResult(match_id, match_result))
                    &&& final(self)@ == result_set(old(self)@, match_id, match_result)
                },
            },
    {
        if origin != Origin::Root {
            return Err(DispatchError::BadOrigin);
        }
        let end = match self.matches.get(&match_id) {
            Some(m) => m.start as u128 + m.length as u128,
            None => {
                return Err(DispatchError::Module(Error::MatchDoesNotExist));
            },
        };
        if now as u128 <= end {
            return Err(DispatchError::Module(Error::TimeMatchNotOver));
        }
        let ghost old_model = self@;
        let stored = self.matches.remove(&match_id);
        match stored {
            Some(mut stored) => {
                let ghost sm = stored@;
                stored.result = Some(match_result);
                proof {
                    assert(stored@ =~= MatchModel { result: Some(match_result), ..sm });
                }
                self.matches.insert(match_id, stored);
            },
            None => {
                assert(false);
            },
        }
        proof {
            assert(self@.matches =~= result_set(old_model, match_id, match_result).matches);
            assert(self@.hashes == old_model.hashes);
            assert forall|id: AccountId| #[trigger] self@.matches.contains_key(id) implies match_wf(
                self@.matches[id],
                self@.config,
            ) by {
                assert(old_model.matches.contains_key(id));
            }
        }
        Ok(Event::MatchResult(match_id, match_result))
    }

    /// Takes the entry of digest `hash` out of the index.
    fn remove_hash(&mut self, hash: &Vec<u8>)
        requires
            distinct_hashes(old(self)@.hashes),
        ensures
            final(self)@ == (PalletModel { hashes: without_hash(old(self)@.hashes, hash@), ..old(self)@ }),
    {
        let ghost old_model = self@;
        match self.find_hash(hash) {
            Some(i) => {
                proof {
                    let c = choose|k: int| 0 <= k < old_model.hashes.len() && #[trigger] old_model.hashes[k].0 == hash@;
                    assert(0 <= c < old_model.hashes.len() && old_model.hashes[c].0 == hash@);
                    if c < i {
                        assert(old_model.hashes[c].0 != old_model.hashes[i as int].0);
                    } else if c > i {
                        assert(old_model.hashes[i as int].0 != old_model.hashes[c].0);
                    }
                }
                self.match_hashes.remove(i);
                proof {
                    assert(self@.hashes =~= old_model.hashes.remove(i as int));
                }
            },
            None => {},
        }
    }

    /// Settles the match of the signer: the match and its digest are taken
    /// away and each winning bet, in order, receives its share of the pool,
    /// rounded down. Fails with `BadOrigin` where the call is not signed, and
    /// then with the first of `MatchDoesNotExist`, `MatchNotResult` and
    /// `NoWinners` that applies, changing nothing. Where the currency refuses
    /// a payout, the match stays settled, the payouts before it stand and the
    /// currency's error is returned.
    pub fn distribute_winnings<C: Currency>(&mut self, currency: &mut C, origin: Origin) -> (r:
        Result<(), DispatchError>)
        requires
            old(self).wf(),
        ensures
            final(self).wf(),
            match distribute_failure(old(self)@, origin) {
                Some(e) => {
                    &&& r == Err::<(), DispatchError>(e)
                    &&& final(self)@ == old(self)@
                    &&& forall|a: AccountId|
                        #![trigger final(currency).balance_of(a)]
                        final(currency).balance_of(a) == old(currency).balance_of(a)
                },
                None => {
                    let who = origin->Signed_0;
                    let pot = old(self)@.config.pallet_account;
                    let p = settlement_of(old(self)@, who);
                    &&& final(self)@ == settled(old(self)@, who)
                    &&& r is Ok ==> transfers_applied(*old(currency), *final(currency), pot, p)
                    &&& r is Err ==> {
                        &&& r->Err_0 is Currency
                        &&& exists|k: int|
                            0 <= k < p.len() && #[trigger] transfers_applied(
                                *old(currency),
                                *final(currency),
                                pot,
                                p.take(k),
                            )
                    }
                },
            },
    {
        let who = match origin {
            Origin::Signed(w) => w,
            Origin::Root => {
                return Err(DispatchError::BadOrigin);
            },
        };
        let m = match self.matches.get(&who) {
            Some(m) => m,
            None => {
                return Err(DispatchError::Module(Error::MatchDoesNotExist));
            },
        };
        assert(m@ == self@.matches[who]);
        let match_result = match m.result {
            Some(x) => x,
            None => {
                return Err(DispatchError::Module(Error::MatchNotResult));
            },
        };
        let payouts = match settle(&m.bets, match_result) {
            Ok(p) => p,
            Err(e) => {
                return Err(DispatchError::Module(e));
            },
        };
        let hash = Pallet::get_match_hash(m);
        let ghost old_model = self@;
        self.matches.remove(&who);
        proof {
            assert(self@.matches =~= old_model.matches.remove(who));
            assert(self@.hashes == old_model.hashes);
            assert forall|id: AccountId| #[trigger] self@.matches.contains_key(id) implies match_wf(
                self@.matches[id],
                self@.config,
            ) by {
                assert(old_model.matches.contains_key(id));
            }
        }
        self.remove_hash(&hash);
        proof {
            let h = hash@;
            let hs = old_model.hashes;
            let w = choose|k: int|
                0 <= k < hs.len() && #[trigger] hs[k] == (match_hash(old_model.matches[who]), who);
            assert(hs[w].0 == h);
            assert(registered(hs, h));
            let c = choose|k: int| 0 <= k < hs.len() && #[trigger] hs[k].0 == h;
            if c < w {
                assert(hs[c].0 != hs[w].0);
            } else if w < c {
                assert(hs[w].0 != hs[c].0);
            }
            assert(self@.hashes == hs.remove(c));
            assert forall|i: int, j: int|
                0 <= i < j < self@.hashes.len() implies #[trigger] self@.hashes[i].0
                != #[trigger] self@.hashes[j].0 by {
                let i0 = if i < c { i } else { i + 1 };
                let j0 = if j < c { j } else { j + 1 };
                assert(hs[i0].0 != hs[j0].0);
            }
            assert forall|i: int| 0 <= i < self@.hashes.len() implies {
                &&& self@.matches.contains_key(#[trigger] self@.hashes[i].1)
                &&& match_hash(self@.matches[self@.hashes[i].1]) == self@.hashes[i].0
            } by {
                let i0 = if i < c { i } else { i + 1 };
                assert(self@.hashes[i] == hs[i0]);
                assert(old_model.matches.contains_key(hs[i0].1));
                if hs[i0].1 == who {
                    if i0 < c {
                        assert(hs[i0].0 != hs[c].0);
                    } else {
                        assert(hs[c].0 != hs[i0].0);
                    }
                }
            }
            assert forall|id: AccountId| #[trigger] self@.matches.contains_key(id) implies exists|
                i: int,
            |
                0 <= i < self@.hashes.len() && #[trigger] self@.hashes[i] == (
                    match_hash(self@.matches[id]),
                    id,
                ) by {
                assert(old_model.matches.contains_key(id));
                let k = choose|k: int|
                    0 <= k < hs.len() && #[trigger] hs[k] == (match_hash(old_model.matches[id]), id);
                assert(k != c);
                let k2 = if k < c { k } else { k - 1 };
                assert(self@.hashes[k2] == hs[k]);
            }
        }
        let pot = self.config.pallet_account;
        let ghost before = *currency;
        let ghost after_removal = self@;
        assert(after_removal == settled(old_model, who));
        let mut i: usize = 0;
        while i < payouts.len()
            invariant
                self@ == after_removal,
                self.wf(),
                distribute_failure(old(self)@, origin) is None,
                after_removal == settled(old(self)@, who),
                origin == Origin::Signed(who),
                pot == old(self)@.config.pallet_account,
                payouts@ == settlement_of(old(self)@, who),
                before == *old(currency),
                i <= payouts@.len(),
                transfers_applied(before, *currency, pot, payouts@.take(i as int)),
            decreases payouts@.len() - i,
        {
            let (dest, amount) = payouts[i];
            match currency.transfer(pot, dest, amount) {
                Ok(()) => {},
                Err(e) => {
                    proof {
                        let p = settlement_of(old(self)@, who);
                        assert(transfers_applied(before, *currency, pot, p.take(i as int)));
                    }
                    return Err(DispatchError::Currency(e));
                },
            }
            proof {
                assert(payouts@.take(i + 1).drop_last() =~= payouts@.take(i as int));
            }
            i = i + 1;
        }
        assert(payouts@.take(i as int) =~= payouts@);
        Ok(())
    }
}

} // verus!
