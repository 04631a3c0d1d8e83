//! A peer-to-peer wagering ledger: accounts open matches between two teams,
//! other accounts bet on the outcome, a privileged caller records the result
//! and the match owner settles the pool among the winners.

pub mod types;
pub mod bets;
pub mod hashing;
pub mod settlement;
pub mod currency;
pub mod pallet;
pub mod rpc;
pub mod laws;

pub use types::{AccountId, Balance, BlockNumber, Bet, Error, Match, MatchResult};
pub use currency::{Balances, Currency, CurrencyError};
pub use pallet::{Config, DispatchError, Event, Origin, Pallet};
pub use rpc::{betting_rpc_error, BettingPallet, RpcError, RpcErrorObject, RpcResult};
