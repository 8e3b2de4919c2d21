//! The upstream credential: one shared token, refreshed by one caller at a time.
//!
//! The manager decides; the caller performs the refresh and reports how it ended.

use vstd::prelude::*;
use vstd::string::StringSliceAdditionalSpecFns;
use vstd::utf8::encode_utf8;
use crate::headers::{text_value, valid_value};

verus! {

/// An access token and the time at which it expires.
#[derive(Debug, PartialEq, Eq)]
pub struct Token {
    value: String,
    expires_at: u64,
}

/// The mathematical model of a [`Token`].
pub struct TokenModel {
    pub value: Seq<char>,
    pub expires_at: u64,
}

impl View for Token {
    type V = TokenModel;

    closed spec fn view(&self) -> TokenModel {
        TokenModel { value: self.value@, expires_at: self.expires_at }
    }
}

impl Token {
    /// The value of every token can be sent in a header.
    #[verifier::type_invariant]
    pub open spec fn valid(&self) -> bool {
        valid_value(encode_utf8(self@.value))
    }

    /// A token, if its value can be sent in a header.
    pub fn new(value: &str, expires_at: u64) -> (r: Option<Token>)
        ensures
            match r {
                Some(token) => valid_value(value.spec_bytes()) && token@ == (TokenModel {
                    value: value@,
                    expires_at,
                }),
                None => !valid_value(value.spec_bytes()),
            },
    {
        match text_value(value) {
            Some(_) => Some(Token { value: value.to_owned(), expires_at }),
            None => None,
        }
    }

    /// The value of the token.
    pub fn value(&self) -> (value: &String)
        ensures
            value@ == self@.value,
            valid_value(encode_utf8(value@)),
    {
        proof {
            use_type_invariant(self);
        }
        &self.value
    }

    /// The time at which the token expires.
    pub fn expires_at(&self) -> (t: u64)
        ensures
            t == self@.expires_at,
    {
        self.expires_at
    }
}

/// The mathematical model of a [`CredentialManager`].
pub struct ManagerModel {
    /// How long before its expiry a token is no longer handed out.
    pub margin: u64,
    /// The token that is held.
    pub token: Option<TokenModel>,
    /// Whether a refresh is in flight.
    pub refreshing: bool,
}

/// The states of the manager.
#[derive(Clone, Copy, Debug, PartialEq, Eq, Structural)]
pub enum State {
    /// No token is held.
    Empty,
    /// A token is held.
    Valid,
    /// A refresh is in flight.
    Refreshing,
}

impl Clone for Token {
    fn clone(&self) -> (copy: Token)
        ensures
            copy@ == self@,
    {
        proof {
            use_type_invariant(self);
        }
        Token { value: self.value.clone(), expires_at: self.expires_at }
    }
}

/// What the manager tells a caller that asks for the token.
#[derive(Clone, Debug, PartialEq, Eq)]
pub enum Decision {
    /// The token that is held, to be used now.
    Ready(Token),
    /// The caller performs the refresh, and reports its outcome.
    Refresh,
    /// A refresh is in flight: the caller waits for its outcome.
    Wait,
}

/// The mathematical model of a [`Decision`].
pub enum DecisionModel {
    Ready(TokenModel),
    Refresh,
    Wait,
}

impl View for Decision {
    type V = DecisionModel;

    open spec fn view(&self) -> DecisionModel {
        match self {
            Decision::Ready(token) => DecisionModel::Ready(token@),
            Decision::Refresh => DecisionModel::Refresh,
            Decision::Wait => DecisionModel::Wait,
        }
    }
}

/// The refresh of a round failed.
#[derive(Clone, Copy, Debug, PartialEq, Eq, Structural)]
pub struct RefreshFailed;

/// The state that a model is in.
pub open spec fn state_of(m: ManagerModel) -> State {
    if m.refreshing {
        State::Refreshing
    } else if m.token is Some {
        State::Valid
    } else {
        State::Empty
    }
}

/// Whether a token may be handed out at `now`: it expires later than the margin from now.
pub open spec fn usable(token: TokenModel, now: u64, margin: u64) -> bool {
    now + margin < token.expires_at
}

/// What a caller that asks at `now` is told.
pub open spec fn decide(m: ManagerModel, now: u64) -> DecisionModel {
    if m.refreshing {
        DecisionModel::Wait
    } else {
        match m.token {
            Some(token) => if usable(token, now, m.margin) {
                DecisionModel::Ready(token)
            } else {
                DecisionModel::Refresh
            },
            None => DecisionModel::Refresh,
        }
    }
}

/// The manager after a caller asked at `now`.
pub open spec fn after_request(m: ManagerModel, now: u64) -> ManagerModel {
    if decide(m, now) is Refresh {
        ManagerModel { margin: m.margin, token: m.token, refreshing: true }
    } else {
        m
    }
}

/// The manager after a refresh ended: with the new token, or with none after a failure.
pub open spec fn after_refresh(m: ManagerModel, outcome: Option<TokenModel>) -> ManagerModel {
    ManagerModel { margin: m.margin, token: outcome, refreshing: false }
}

/// What every caller of the round receives when the refresh ended.
pub open spec fn round_result(outcome: Option<TokenModel>) -> Result<TokenModel, RefreshFailed> {
    match outcome {
        Some(token) => Ok(token),
        None => Err(RefreshFailed),
    }
}

/// The manager and the decisions after callers asked at `times`, one after the other,
/// with no refresh ending in between.
pub open spec fn run(m: ManagerModel, times: Seq<u64>) -> (ManagerModel, Seq<DecisionModel>)
    decreases times.len(),
{
    if times.len() == 0 {
        (m, Seq::empty())
    } else {
        let (before, decisions) = run(m, times.drop_last());
        (after_request(before, times.last()), decisions.push(decide(before, times.last())))
    }
}

/// How many of the decisions ask the caller to refresh.
pub open spec fn refreshes(decisions: Seq<DecisionModel>) -> nat
    decreases decisions.len(),
{
    if decisions.len() == 0 {
        0
    } else if decisions.last() is Refresh {
        refreshes(decisions.drop_last()) + 1
    } else {
        refreshes(decisions.drop_last())
    }
}

/// What a caller ends up with: the token it was handed, or the result of the round.
pub open spec fn received(decision: DecisionModel, outcome: Option<TokenModel>) -> Result<
    TokenModel,
    RefreshFailed,
> {
    match decision {
        DecisionModel::Ready(token) => Ok(token),
        _ => round_result(outcome),
    }
}

/// Single flight: however many callers ask, and whenever, at most one of them is asked
/// to refresh until the refresh ends; none is while a refresh is in flight.
pub proof fn single_flight(m: ManagerModel, times: Seq<u64>)
    ensures
        run(m, times).1.len() == times.len(),
        refreshes(run(m, times).1) <= 1,
        m.refreshing ==> refreshes(run(m, times).1) == 0,
        run(m, times).0.refreshing == (m.refreshing || refreshes(run(m, times).1) == 1),
        run(m, times).0.token == m.token,
        run(m, times).0.margin == m.margin,
    decreases times.len(),
{
    if times.len() > 0 {
        single_flight(m, times.drop_last());
        let (before, decisions) = run(m, times.drop_last());
        let last = decide(before, times.last());
        assert(decisions.push(last).drop_last() == decisions);
    }
}

/// With no usable token and no refresh in flight, a burst of callers leads to exactly
/// one refresh: the first caller is asked to refresh, every other waits, and when the
/// refresh ends all of them receive the same token, or the same failure.
pub proof fn expired_burst_refreshes_once(m: ManagerModel, times: Seq<u64>, outcome: Option<TokenModel>)
    requires
        !m.refreshing,
        times.len() >= 1,
        forall|i: int|
            0 <= i < times.len() ==> (m.token matches Some(token) ==> !usable(
                token,
                #[trigger] times[i],
                m.margin,
            )),
    ensures
        run(m, times).1.len() == times.len(),
        run(m, times).1[0] is Refresh,
        forall|i: int| 1 <= i < times.len() ==> (#[trigger] run(m, times).1[i]) is Wait,
        refreshes(run(m, times).1) == 1,
        run(m, times).0.refreshing,
        forall|i: int|
            0 <= i < times.len() ==> received(#[trigger] run(m, times).1[i], outcome)
                == round_result(outcome),
    decreases times.len(),
{
    single_flight(m, times);
    let before_times = times.drop_last();
    let (before, decisions) = run(m, before_times);
    let all = run(m, times).1;
    assert(all.drop_last() == decisions);
    if times.len() == 1 {
        assert(before == m);
        assert(all[0] == decide(m, times[0]));
    } else {
        assert forall|i: int| 0 <= i < before_times.len() implies (m.token matches Some(
            token,
        ) ==> !usable(token, #[trigger] before_times[i], m.margin)) by {
            assert(before_times[i] == times[i]);
        }
        expired_burst_refreshes_once(m, before_times, outcome);
        assert forall|i: int| 0 <= i < times.len() implies (i >= 1 ==> (#[trigger] all[i]) is Wait)
            && (i == 0 ==> all[i] is Refresh) by {
            if i < times.len() - 1 {
                assert(all[i] == decisions[i]);
            }
        }
    }
}

/// A token is only handed out before it expires.
pub proof fn ready_token_is_unexpired(m: ManagerModel, now: u64)
    requires
        decide(m, now) is Ready,
    ensures
        m.token matches Some(token) && decide(m, now) == DecisionModel::Ready(token) && now
            < token.expires_at,
{
}

/// A failed refresh does not poison the manager: the next caller is asked to refresh.
pub proof fn failed_refresh_is_retried(m: ManagerModel, now: u64)
    ensures
        decide(after_refresh(m, None), now) is Refresh,
        state_of(after_refresh(m, None)) == State::Empty,
{
}

/// The manager of the upstream credential.
#[derive(Debug)]
pub struct CredentialManager {
    margin: u64,
    token: Option<Token>,
    refreshing: bool,
}

impl View for CredentialManager {
    type V = ManagerModel;

    closed spec fn view(&self) -> ManagerModel {
        ManagerModel {
            margin: self.margin,
            token: match self.token {
                Some(token) => Some(token@),
                None => None,
            },
            refreshing: self.refreshing,
        }
    }
}

impl CredentialManager {
    /// A manager that holds no token. A token is refreshed once it expires within
    /// `margin` time units.
    pub fn new(margin: u64) -> (manager: CredentialManager)
        ensures
            manager@ == (ManagerModel { margin, token: None, refreshing: false }),
    {
        CredentialManager { margin, token: None, refreshing: false }
    }

    /// The state of the manager.
    pub fn state(&self) -> (state: State)
        ensures
            state == state_of(self@),
    {
        if self.refreshing {
            State::Refreshing
        } else if self.token.is_some() {
            State::Valid
        } else {
            State::Empty
        }
    }

    /// Asks for the token at the time `now`.
    ///
    /// While a refresh is in flight the caller is told to wait. Otherwise the token is
    /// handed out if it expires later than the margin from now; if there is none, or
    /// it expires sooner, the caller is told to refresh, and a refresh is in flight
    /// from then on.
    pub fn get_token(&mut self, now: u64) -> (decision: Decision)
        ensures
            decision@ == decide(old(self)@, now),
            final(self)@ == after_request(old(self)@, now),
    {
        if self.refreshing {
            return Decision::Wait;
        }
        match &self.token {
            Some(token) => {
                if token.expires_at > now && token.expires_at - now > self.margin {
                    return Decision::Ready(token.clone());
                }
            },
            None => {},
        }
        self.refreshing = true;
        Decision::Refresh
    }

    /// Reports how the refresh ended: with a new token, or with none if it failed.
    ///
    /// The token is replaced, and no refresh is in flight any more. What is returned
    /// is what every caller of the round receives.
    pub fn complete_refresh(&mut self, outcome: Option<Token>) -> (r: Result<
        Token,
        RefreshFailed,
    >)
        ensures
            final(self)@ == after_refresh(
                old(self)@,
                match outcome {
                    Some(token) => Some(token@),
                    None => None,
                },
            ),
            match r {
                Ok(delivered) => outcome matches Some(token) && delivered@ == token@,
                Err(_) => outcome is None,
            },
    {
        let result = match &outcome {
            Some(token) => Ok(token.clone()),
            None => Err(RefreshFailed),
        };
        self.token = outcome;
        self.refreshing = false;
        result
    }
}

} // verus!
