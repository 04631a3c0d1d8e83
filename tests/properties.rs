use std::sync::Arc;

use pallet_betting::settlement::{settle, sum_bets};
use pallet_betting::bets::{insert_bet, search_bet};
use pallet_betting::{
    betting_rpc_error, Balances, Bet, BettingPallet, Config, Currency,
    CurrencyError, DispatchError, Error, Event, Match, MatchResult, Origin, Pallet, RpcError,
};

const INIT_BALANCE: u128 = 1_000_000_000_000_000;
const POT: u64 = 1000;

fn setup(max_bets: u32) -> (Pallet, Balances) {
    let config = Config { max_team_name_length: 64, max_bets_per_match: max_bets, pallet_account: POT };
    let mut balances = Balances::new(1);
    for who in 0..10u64 {
        balances.make_free_balance_be(who, INIT_BALANCE);
    }
    (Pallet::new(config), balances)
}

fn create(p: &mut Pallet, who: u64, t1: &str, t2: &str, start: u64, length: u64, now: u64) -> Result<Event, DispatchError> {
    p.create_match_to_bet(Origin::Signed(who), t1.as_bytes().to_vec(), t2.as_bytes().to_vec(), start, length, now)
}

fn from_hex(s: &str) -> Vec<u8> {
    (0..s.len()).step_by(2).map(|i| u8::from_str_radix(&s[i..i + 2], 16).unwrap()).collect()
}

fn bet_of(bettor: u64, amount: u128, result: MatchResult) -> Bet {
    Bet { bettor, amount, result }
}

#[test]
fn full_lifecycle_scenario() {
    let (mut p, mut b) = setup(3);
    let ev = create(&mut p, 0, "team1", "team2", 10, 10, 1).unwrap();
    assert!(matches!(ev, Event::MatchCreated(0, ref t1, ref t2, 10, 10) if t1 == b"team1" && t2 == b"team2"));
    assert!(p.bet(&mut b, Origin::Signed(1), 0, 10, MatchResult::Team1Victory, 1).is_ok());
    assert!(p.bet(&mut b, Origin::Signed(2), 0, 10, MatchResult::Team2Victory, 1).is_ok());
    assert!(p.bet(&mut b, Origin::Signed(3), 0, 30, MatchResult::Team1Victory, 1).is_ok());
    assert_eq!(b.free_balance(POT), 50);
    assert!(matches!(
        p.set_result(Origin::Root, 0, MatchResult::Team1Victory, 22),
        Ok(Event::MatchResult(0, MatchResult::Team1Victory))
    ));
    assert_eq!(p.distribute_winnings(&mut b, Origin::Signed(0)), Ok(()));
    assert_eq!(b.free_balance(1), INIT_BALANCE + 2);
    assert_eq!(b.free_balance(2), INIT_BALANCE - 10);
    assert_eq!(b.free_balance(3), INIT_BALANCE + 7);
    assert_eq!(b.free_balance(POT), 1);
    assert!(p.get_matches(0).is_none());
    assert_eq!(p.get_match(0).err(), Some(RpcError::MatchDoesNotExist));
}

#[test]
fn same_match_is_refused_for_any_caller() {
    let (mut p, _) = setup(3);
    assert!(create(&mut p, 0, "a", "b", 10, 5, 1).is_ok());
    for who in 1..4u64 {
        assert_eq!(create(&mut p, who, "a", "b", 10, 5, 3).err(), Some(DispatchError::Module(Error::MatchAlreadyExists)));
    }
    assert!(create(&mut p, 1, "a", "b", 10, 6, 3).is_ok());
}

#[test]
fn settled_match_frees_owner_and_digest() {
    let (mut p, mut b) = setup(3);
    assert!(create(&mut p, 0, "a", "b", 10, 5, 1).is_ok());
    assert_eq!(create(&mut p, 0, "c", "d", 30, 5, 1).err(), Some(DispatchError::Module(Error::OriginHasAlreadyOpenMatch)));
    assert!(p.bet(&mut b, Origin::Signed(1), 0, 10, MatchResult::Draw, 1).is_ok());
    assert!(p.set_result(Origin::Root, 0, MatchResult::Draw, 16).is_ok());
    // the sole winner takes the whole pool, which must stay alive
    b.make_free_balance_be(POT, 11);
    let hash = Pallet::get_match_hash(&p.get_matches(0).unwrap());
    assert_eq!(p.get_match_hashes(&hash), Some(0));
    assert_eq!(p.distribute_winnings(&mut b, Origin::Signed(0)), Ok(()));
    assert_eq!(p.get_match_hashes(&hash), None);
    assert_eq!(b.free_balance(POT), 1);
    assert_eq!(b.free_balance(1), INIT_BALANCE);
    assert!(create(&mut p, 0, "c", "d", 30, 5, 16).is_ok());
    assert!(create(&mut p, 1, "a", "b", 10, 15, 16).is_ok());
}

#[test]
fn double_bet_with_other_result_is_refused() {
    let (mut p, mut b) = setup(3);
    assert!(create(&mut p, 0, "a", "b", 10, 5, 1).is_ok());
    assert!(p.bet(&mut b, Origin::Signed(1), 0, 10, MatchResult::Team1Victory, 1).is_ok());
    assert_eq!(
        p.bet(&mut b, Origin::Signed(1), 0, 10, MatchResult::Team2Victory, 2).err(),
        Some(DispatchError::Module(Error::AlreadyBet))
    );
    assert!(p.bet(&mut b, Origin::Signed(1), 0, 11, MatchResult::Team1Victory, 2).is_ok());
    assert_eq!(p.get_matches(0).unwrap().bets.len(), 2);
    assert_eq!(b.free_balance(1), INIT_BALANCE - 21);
}

#[test]
fn capacity_is_exact() {
    let (mut p, mut b) = setup(4);
    assert!(create(&mut p, 0, "a", "b", 10, 5, 1).is_ok());
    for who in 1..5u64 {
        assert!(p.bet(&mut b, Origin::Signed(who), 0, 5, MatchResult::Draw, 1).is_ok());
        assert_eq!(p.get_matches(0).unwrap().bets.len(), who as usize);
    }
    assert_eq!(
        p.bet(&mut b, Origin::Signed(5), 0, 5, MatchResult::Draw, 1).err(),
        Some(DispatchError::Module(Error::MaxBets))
    );
    assert_eq!(p.get_matches(0).unwrap().bets.len(), 4);
    assert_eq!(b.free_balance(5), INIT_BALANCE);
}

#[test]
fn bets_are_kept_in_key_order() {
    let (mut p, mut b) = setup(5);
    assert!(create(&mut p, 0, "a", "b", 10, 5, 1).is_ok());
    for (who, amount) in [(3u64, 7u128), (1, 9), (3, 2), (2, 1), (1, 4)] {
        assert!(p.bet(&mut b, Origin::Signed(who), 0, amount, MatchResult::Draw, 1).is_ok());
    }
    let keys: Vec<(u64, u128)> = p.get_matches(0).unwrap().bets.iter().map(|x| (x.bettor, x.amount)).collect();
    assert_eq!(keys, vec![(1, 4), (1, 9), (2, 1), (3, 2), (3, 7)]);
}

#[test]
fn insert_and_search_on_raw_collection() {
    let mut bets = Vec::new();
    assert_eq!(insert_bet(&mut bets, bet_of(2, 5, MatchResult::Draw), 2), Ok(0));
    assert_eq!(insert_bet(&mut bets, bet_of(1, 5, MatchResult::Draw), 2), Ok(0));
    assert_eq!(insert_bet(&mut bets, bet_of(1, 5, MatchResult::Team1Victory), 2), Err(Error::AlreadyBet));
    assert_eq!(insert_bet(&mut bets, bet_of(3, 5, MatchResult::Draw), 2), Err(Error::MaxBets));
    assert_eq!(search_bet(&bets, &bet_of(2, 5, MatchResult::Team2Victory)), Ok(1));
    assert_eq!(search_bet(&bets, &bet_of(1, 6, MatchResult::Draw)), Err(1));
    assert_eq!(bets.len(), 2);
}

#[test]
fn settlement_truncates_and_leaves_residue() {
    let bets = vec![
        bet_of(2, 10, MatchResult::Team1Victory),
        bet_of(3, 10, MatchResult::Team2Victory),
        bet_of(4, 30, MatchResult::Team1Victory),
    ];
    assert_eq!(sum_bets(&bets), Some(50));
    let payouts = settle(&bets, MatchResult::Team1Victory).unwrap();
    assert_eq!(payouts, vec![(2, 12), (4, 37)]);
    let paid: u128 = payouts.iter().map(|x| x.1).sum();
    assert_eq!(50 - paid, 1);
    // remainders of 10*50 and 30*50 divided by 40: 20 and 20; 40 * 1 == 20 + 20
    assert_eq!(40 * (50 - paid), (10 * 50) % 40 + (30 * 50) % 40);
}

#[test]
fn settlement_of_large_stakes_is_exact() {
    let big = u128::MAX / 3;
    let bets = vec![bet_of(1, big, MatchResult::Draw), bet_of(2, big, MatchResult::Team1Victory)];
    let payouts = settle(&bets, MatchResult::Draw).unwrap();
    assert_eq!(payouts, vec![(1, 2 * big)]);
    let overflowing = vec![bet_of(1, u128::MAX, MatchResult::Draw), bet_of(2, 1, MatchResult::Draw)];
    assert_eq!(sum_bets(&overflowing), None);
}

#[test]
fn settlement_without_winners_is_refused() {
    let bets = vec![bet_of(2, 10, MatchResult::Team1Victory)];
    assert_eq!(settle(&bets, MatchResult::Draw), Err(Error::NoWinners));
    let (mut p, mut b) = setup(3);
    assert!(create(&mut p, 0, "a", "b", 10, 5, 1).is_ok());
    assert!(p.bet(&mut b, Origin::Signed(1), 0, 10, MatchResult::Team1Victory, 1).is_ok());
    assert!(p.set_result(Origin::Root, 0, MatchResult::Draw, 16).is_ok());
    assert_eq!(p.distribute_winnings(&mut b, Origin::Signed(0)), Err(DispatchError::Module(Error::NoWinners)));
    assert!(p.get_matches(0).is_some());
    assert_eq!(b.free_balance(POT), 10);
}

#[test]
fn timing_gates() {
    let (mut p, mut b) = setup(3);
    assert!(create(&mut p, 0, "a", "b", 10, 10, 1).is_ok());
    assert!(p.bet(&mut b, Origin::Signed(1), 0, 10, MatchResult::Draw, 9).is_ok());
    assert_eq!(
        p.bet(&mut b, Origin::Signed(2), 0, 10, MatchResult::Draw, 10).err(),
        Some(DispatchError::Module(Error::MatchHasStarted))
    );
    for now in [9u64, 10, 15, 20] {
        assert_eq!(
            p.set_result(Origin::Root, 0, MatchResult::Draw, now).err(),
            Some(DispatchError::Module(Error::TimeMatchNotOver))
        );
    }
    assert!(p.set_result(Origin::Root, 0, MatchResult::Draw, 21).is_ok());
    assert_eq!(create(&mut p, 1, "x", "y", 10, 10, 20).err(), Some(DispatchError::Module(Error::TimeMatchOver)));
    assert!(create(&mut p, 1, "x", "y", 10, 10, 19).is_ok());
}

#[test]
fn origins_are_checked() {
    let (mut p, mut b) = setup(3);
    let r = p.create_match_to_bet(Origin::Root, b"a".to_vec(), b"b".to_vec(), 10, 5, 1);
    assert_eq!(r.err(), Some(DispatchError::BadOrigin));
    assert!(create(&mut p, 0, "a", "b", 10, 5, 1).is_ok());
    assert_eq!(p.bet(&mut b, Origin::Root, 0, 10, MatchResult::Draw, 1).err(), Some(DispatchError::BadOrigin));
    assert_eq!(p.distribute_winnings(&mut b, Origin::Root), Err(DispatchError::BadOrigin));
}

#[test]
fn team_name_too_long() {
    let (mut p, _) = setup(3);
    let long = "x".repeat(65);
    assert_eq!(create(&mut p, 0, &long, "b", 10, 5, 1).err(), Some(DispatchError::Module(Error::TeamNameTooLong)));
    assert_eq!(create(&mut p, 0, "b", &long, 10, 5, 1).err(), Some(DispatchError::Module(Error::TeamNameTooLong)));
    assert!(create(&mut p, 0, &"x".repeat(64), "b", 10, 5, 1).is_ok());
}

#[test]
fn stake_overflow_is_refused() {
    let (mut p, mut b) = setup(3);
    b.make_free_balance_be(1, u128::MAX);
    assert!(create(&mut p, 0, "a", "b", 10, 5, 1).is_ok());
    assert!(p.bet(&mut b, Origin::Signed(1), 0, u128::MAX - 5, MatchResult::Draw, 1).is_ok());
    assert_eq!(
        p.bet(&mut b, Origin::Signed(2), 0, 10, MatchResult::Draw, 1).err(),
        Some(DispatchError::Module(Error::Overflow))
    );
    assert_eq!(b.free_balance(2), INIT_BALANCE);
}

#[test]
fn match_digest_is_blake2_of_scale_encoding() {
    let m = Match {
        start: 10,
        length: 10,
        team1: b"team1".to_vec(),
        team2: b"team2".to_vec(),
        result: None,
        bets: Vec::new(),
    };
    let expected = from_hex("b836dc2e25df586e7dd86a11a69c24e3319d4ed0fdf09dc50d375911ca2850ec");
    assert_eq!(Pallet::get_match_hash(&m), expected);
    let mut with_result = m.clone();
    with_result.result = Some(MatchResult::Draw);
    with_result.bets.push(bet_of(1, 1, MatchResult::Draw));
    assert_eq!(Pallet::get_match_hash(&with_result), expected);
    let mut other = m.clone();
    other.length = 11;
    assert_ne!(Pallet::get_match_hash(&other), expected);
}

#[test]
fn rpc_errors() {
    assert_eq!(RpcError::from(Error::MatchDoesNotExist), RpcError::MatchDoesNotExist);
    assert_eq!(RpcError::from(Error::MaxBets), RpcError::Unexpected(b"MaxBets".to_vec()));
    let o = betting_rpc_error(RpcError::MatchDoesNotExist);
    assert_eq!((o.code, o.message, o.data), (2, "Match not found", None));
    let o = betting_rpc_error(RpcError::Unexpected(b"AlreadyBet".to_vec()));
    assert_eq!((o.code, o.message, o.data), (1, "Runtime error", Some(b"AlreadyBet".to_vec())));
    let (mut p, _) = setup(3);
    assert!(create(&mut p, 7, "a", "b", 10, 5, 1).is_ok());
    assert_eq!(p.get_match(7).unwrap().team1, b"a".to_vec());
    let server: BettingPallet<u32, ()> = BettingPallet::new(Arc::new(5));
    assert_eq!(**server.client(), 5);
}

#[test]
fn ledger_transfers() {
    let mut b = Balances::new(2);
    b.make_free_balance_be(1, 100);
    assert_eq!(b.minimum_balance(), 2);
    assert_eq!(b.transfer(1, 2, 0), Ok(()));
    assert_eq!(b.transfer(1, 1, 500), Ok(()));
    assert_eq!(b.transfer(1, 2, 101), Err(CurrencyError::InsufficientBalance));
    assert_eq!(b.transfer(1, 2, 99), Err(CurrencyError::KeepAlive));
    assert_eq!(b.transfer(1, 2, 1), Err(CurrencyError::ExistentialDeposit));
    b.make_free_balance_be(3, u128::MAX);
    assert_eq!(b.transfer(1, 3, 5), Err(CurrencyError::Overflow));
    assert_eq!(b.transfer(1, 2, 98), Ok(()));
    assert_eq!((b.free_balance(1), b.free_balance(2)), (2, 98));
}
