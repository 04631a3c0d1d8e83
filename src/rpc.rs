//! Read-only queries for remote callers, with errors of a stable shape.
use vstd::prelude::*;
use vstd::slice::slice_to_vec;
use vstd::string::StringSliceAdditionalSpecFns;
use std::marker::PhantomData;
use std::sync::Arc;
use crate::pallet::Pallet;
use crate::types::{AccountId, Error, Match};

verus! {

/// The error a remote query receives.
#[derive(Clone, Debug, PartialEq, Eq)]
pub enum RpcError {
    /// No match is stored under the given account.
    MatchDoesNotExist,
    /// Any other failure, with the name of the error.
    Unexpected(Vec<u8>),
}

/// The result of a remote query.
pub type RpcResult<T> = Result<T, RpcError>;

/// Code of a remote error that is not a missing match.
pub const RUNTIME_ERROR: i32 = 1;

/// Code of the remote error for a missing match.
pub const MATCH_NOT_FOUND: i32 = 2;

impl Error {
    /// The name of the error.
    pub open spec fn name_spec(self) -> &'static str {
        match self {
            Error::MatchAlreadyExists => "MatchAlreadyExists",
            Error::OriginHasAlreadyOpenMatch => "OriginHasAlreadyOpenMatch",
            Error::TimeMatchOver => "TimeMatchOver",
            Error::MatchDoesNotExist => "MatchDoesNotExist",
            Error::MatchHasStarted => "MatchHasStarted",
            Error::MaxBets => "MaxBets",
            Error::AlreadyBet => "AlreadyBet",
            Error::TimeMatchNotOver => "TimeMatchNotOver",
            Error::MatchNotResult => "MatchNotResult",
            Error::TeamNameTooLong => "TeamNameTooLong",
            Error::NoWinners => "NoWinners",
            Error::Overflow => "Overflow",
        }
    }

    /// The name of the error.
    pub fn name(&self) -> (r: &'static str)
        ensures
            r == self.name_spec(),
    {
        match self {
            Error::MatchAlreadyExists => "MatchAlreadyExists",
            Error::OriginHasAlreadyOpenMatch => "OriginHasAlreadyOpenMatch",
            Error::TimeMatchOver => "TimeMatchOver",
            Error::MatchDoesNotExist => "MatchDoesNotExist",
            Error::MatchHasStarted => "MatchHasStarted",
            Error::MaxBets => "MaxBets",
            Error::AlreadyBet => "AlreadyBet",
            Error::TimeMatchNotOver => "TimeMatchNotOver",
            Error::MatchNotResult => "MatchNotResult",
            Error::TeamNameTooLong => "TeamNameTooLong",
            Error::NoWinners => "NoWinners",
            Error::Overflow => "Overflow",
        }
    }
}

impl RpcError {
    /// The remote form of a ledger error: a missing match keeps its own
    /// variant, any other error travels as the bytes of its name.
    pub fn from(err: Error) -> (r: RpcError)
        ensures
            err == Error::MatchDoesNotExist ==> r == RpcError::MatchDoesNotExist,
            err != Error::MatchDoesNotExist ==> r is Unexpected && r->Unexpected_0@
                == err.name_spec().spec_bytes(),
    {
        match err {
            Error::MatchDoesNotExist => RpcError::MatchDoesNotExist,
            _ => RpcError::Unexpected(slice_to_vec(err.name().as_bytes())),
        }
    }
}

/// The parts of a remote error object: code, message and optional data.
#[derive(Clone, Debug, PartialEq, Eq)]
pub struct RpcErrorObject {
    pub code: i32,
    pub message: &'static str,
    pub data: Option<Vec<u8>>,
}

/// Turns a query error into the error object sent to a remote caller.
pub fn betting_rpc_error(err: RpcError) -> (r: RpcErrorObject)
    ensures
        match err {
            RpcError::MatchDoesNotExist => r.code == MATCH_NOT_FOUND && r.message == "Match not found"
                && r.data is None,
            RpcError::Unexpected(msg) => r.code == RUNTIME_ERROR && r.message == "Runtime error"
                && r.data == Some(msg),
        },
{
    match err {
        RpcError::MatchDoesNotExist => RpcErrorObject {
            code: MATCH_NOT_FOUND,
            message: "Match not found",
            data: None,
        },
        RpcError::Unexpected(msg) => RpcErrorObject {
            code: RUNTIME_ERROR,
            message: "Runtime error",
            data: Some(msg),
        },
    }
}

impl Pallet {
    /// The match created by `match_id`, or `MatchDoesNotExist`.
    pub fn get_match(&self, match_id: AccountId) -> (r: RpcResult<Match>)
        ensures
            match r {
                Ok(m) => self@.matches.contains_key(match_id) && m@ == self@.matches[match_id],
                Err(e) => !self@.matches.contains_key(match_id) && e == RpcError::MatchDoesNotExist,
            },
    {
        match self.get_matches(match_id) {
            Some(m) => Ok(m),
            None => Err(RpcError::MatchDoesNotExist),
        }
    }
}

/// Serves queries over a client of the ledger.
pub struct BettingPallet<C, Block> {
    client: Arc<C>,
    _marker: PhantomData<Block>,
}

impl<C, Block> BettingPallet<C, Block> {
    /// The client the queries go to.
    pub closed spec fn client_spec(&self) -> Arc<C> {
        self.client
    }

    /// Serves queries over `client`.
    pub fn new(client: Arc<C>) -> (r: Self)
        ensures
            r.client_spec() == client,
    {
        BettingPallet { client, _marker: PhantomData }
    }

    /// The client the queries go to.
    pub fn client(&self) -> (r: &Arc<C>)
        ensures
            *r == self.client_spec(),
    {
        &self.client
    }
}

} // verus!
