//! The registry of raffles: creation in two phases around an ownership check,
//! entries, closing, and the identifier counter.

use vstd::prelude::*;
use std::collections::HashMap;
use crate::draw::DrawPolicy;
use crate::error::RaffleError;
use crate::escrow::{STORAGE_COST, ADD_PART_CALL_COST};
use crate::prize::{JsonToken, Winner};
use crate::raffle::{
    Entry, EndTimePolicy, Raffle, RaffleState, RaffleView, enter_spec, close_spec, close_refusal,
    closed_with, draws_fit,
};

verus! {

broadcast use vstd::std_specs::hash::group_hash_axioms;

/// The account that receives ticket proceeds unless another one is configured.
pub const DEFAULT_BENEFICIARY: &'static str = "v1.faucet.nonofficial.testnet";

/// The greeting a fresh registry holds.
pub const DEFAULT_MESSAGE: &'static str = "Hello";

/// The settings a registry keeps for its whole life.
#[derive(Clone, Copy, Debug, PartialEq, Eq)]
pub struct Config {
    /// Overhead kept back from every accepted ticket; no raffle is priced below it.
    pub storage_cost: u128,
    /// Kept from the refund of a repeated entry.
    pub entry_allowance: u128,
    /// How winners are drawn in the raffles created from now on.
    pub draw_policy: DrawPolicy,
    /// Whether closing waits for the end time.
    pub end_time_policy: EndTimePolicy,
}

/// The standard settings.
pub open spec fn standard_config() -> Config {
    Config {
        storage_cost: STORAGE_COST,
        entry_allowance: ADD_PART_CALL_COST,
        draw_policy: DrawPolicy::WithReplacement,
        end_time_policy: EndTimePolicy::Advisory,
    }
}

impl Default for Config {
    /// The standard settings: the default storage cost and allowance, winners drawn
    /// with replacement, and an end time that is only advisory.
    fn default() -> (c: Config)
        ensures
            c == standard_config(),
    {
        Config {
            storage_cost: STORAGE_COST,
            entry_allowance: ADD_PART_CALL_COST,
            draw_policy: DrawPolicy::WithReplacement,
            end_time_policy: EndTimePolicy::Advisory,
        }
    }
}

/// The last raffle id handed out; 0 before the first.
#[derive(Debug, PartialEq, Eq, Hash)]
pub struct Counter {
    value: u128,
}

impl View for Counter {
    type V = u128;

    closed spec fn view(&self) -> u128 {
        self.value
    }
}

impl Counter {
    pub fn value(&self) -> (r: u128)
        ensures
            r == self@,
    {
        self.value
    }
}

/// What a raffle is created from.
#[derive(Clone, Debug)]
pub struct NewRaffleArgs {
    pub end_time: u64,
    pub ticket_price: u128,
    pub prizes: Vec<JsonToken>,
}

/// A creation waiting for the reply to its ownership query.
struct PendingRaffle {
    ticket: u64,
    creator: String,
    args: NewRaffleArgs,
}

/// The abstract state of a pending creation.
pub struct PendingView {
    pub ticket: u64,
    pub creator: String,
    pub end_time: u64,
    pub ticket_price: u128,
    pub prizes: Seq<JsonToken>,
}

impl PendingRaffle {
    spec fn view(&self) -> PendingView {
        PendingView {
            ticket: self.ticket,
            creator: self.creator,
            end_time: self.args.end_time,
            ticket_price: self.args.ticket_price,
            prizes: self.args.prizes@,
        }
    }
}

/// The ownership query to send for a pending creation: ask `nft_contract` who owns
/// `token_id`, and hand the reply back under `ticket`.
#[derive(Clone, Debug, PartialEq, Eq)]
pub struct OwnershipQuery {
    pub ticket: u64,
    pub nft_contract: String,
    pub token_id: String,
}

/// The registry of raffles.
pub struct RafflesMap {
    raffles: HashMap<u128, Raffle>,
    counter: Counter,
    beneficiary: String,
    greeting: String,
    config: Config,
    pending: Vec<PendingRaffle>,
    next_ticket: u64,
}

/// The abstract state of the registry.
pub struct RegistryView {
    pub raffles: Map<u128, RaffleView>,
    pub counter: u128,
    pub beneficiary: String,
    pub greeting: String,
    pub config: Config,
    pub pending: Seq<PendingView>,
    pub next_ticket: u64,
}

pub open spec fn raffle_views(m: Map<u128, Raffle>) -> Map<u128, RaffleView> {
    m.map_values(|r: Raffle| r@)
}

spec fn pending_views(s: Seq<PendingRaffle>) -> Seq<PendingView> {
    s.map_values(|p: PendingRaffle| p.view())
}

impl View for RafflesMap {
    type V = RegistryView;

    closed spec fn view(&self) -> RegistryView {
        RegistryView {
            raffles: raffle_views(self.raffles@),
            counter: self.counter.value,
            beneficiary: self.beneficiary,
            greeting: self.greeting,
            config: self.config,
            pending: pending_views(self.pending@),
            next_ticket: self.next_ticket,
        }
    }
}

impl RegistryView {
    /// The invariant of the registry: every raffle sits under its own id, which the
    /// counter has passed, and is well formed and priced at or above the storage
    /// cost; pending creations have distinct tickets below the next one and
    /// arguments that a raffle can be made of.
    pub open spec fn wf(self) -> bool {
        &&& forall|k: u128|
            #[trigger] self.raffles.contains_key(k) ==> {
                &&& 1 <= k <= self.counter
                &&& self.raffles[k].id == k
                &&& self.raffles[k].wf()
                &&& self.config.storage_cost <= self.raffles[k].ticket_price
            }
        &&& forall|i: int|
            0 <= i < self.pending.len() ==> {
                &&& (#[trigger] self.pending[i]).ticket < self.next_ticket
                &&& self.pending[i].prizes.len() > 0
                &&& self.config.storage_cost <= self.pending[i].ticket_price
            }
        &&& forall|i: int, j: int|
            0 <= i < self.pending.len() && 0 <= j < self.pending.len() && i != j ==> (
            #[trigger] self.pending[i]).ticket != (#[trigger] self.pending[j]).ticket
    }
}

/// Where the creation with `ticket` waits, if it does.
pub open spec fn pending_position(pending: Seq<PendingView>, ticket: u64) -> Option<int> {
    if exists|i: int| 0 <= i < pending.len() && (#[trigger] pending[i]).ticket == ticket {
        Some(choose|i: int| 0 <= i < pending.len() && (#[trigger] pending[i]).ticket == ticket)
    } else {
        None
    }
}

/// The raffle that a confirmed creation becomes.
pub open spec fn fresh_raffle(id: u128, p: PendingView, draw_policy: DrawPolicy) -> RaffleView {
    RaffleView {
        id,
        end_time: p.end_time,
        prizes: p.prizes,
        ticket_price: p.ticket_price,
        creator: p.creator,
        state: RaffleState::Open,
        winners: Seq::empty(),
        participants: Seq::empty(),
        draw_policy,
    }
}

/// The first phase of a creation by `creator`: the arguments are checked, the
/// creation waits under a fresh ticket, and the ownership query of the first
/// prize is returned. No raffle exists yet.
pub open spec fn request_spec(
    v: RegistryView,
    creator: String,
    end_time: u64,
    ticket_price: u128,
    prizes: Seq<JsonToken>,
) -> (RegistryView, Result<OwnershipQuery, RaffleError>) {
    if prizes.len() == 0 {
        (v, Err(RaffleError::NoPrizes))
    } else if ticket_price < v.config.storage_cost {
        (v, Err(RaffleError::PriceBelowStorageCost))
    } else {
        let p = PendingView { ticket: v.next_ticket, creator, end_time, ticket_price, prizes };
        (
            RegistryView {
                pending: v.pending.push(p),
                next_ticket: (v.next_ticket + 1) as u64,
                ..v
            },
            Ok(
                OwnershipQuery {
                    ticket: v.next_ticket,
                    nft_contract: prizes[0].owner_id,
                    token_id: prizes[0].token_id,
                },
            ),
        )
    }
}

/// The second phase: the reply `reply` to the ownership query of `ticket` (`None`
/// when the query failed) settles the creation. Only an owner equal to
/// `this_account` commits a raffle, under the next id.
pub open spec fn finalize_spec(
    v: RegistryView,
    ticket: u64,
    reply: Option<String>,
    this_account: String,
) -> (RegistryView, Result<u128, RaffleError>) {
    match pending_position(v.pending, ticket) {
        None => (v, Err(RaffleError::UnknownCreation)),
        Some(i) => {
            let settled = RegistryView { pending: v.pending.remove(i), ..v };
            match reply {
                None => (settled, Err(RaffleError::OwnershipCheckFailed)),
                Some(owner) => if owner@ != this_account@ {
                    (settled, Err(RaffleError::OwnershipMismatch))
                } else {
                    let id = (v.counter + 1) as u128;
                    (
                        RegistryView {
                            raffles: v.raffles.insert(
                                id,
                                fresh_raffle(id, v.pending[i], v.config.draw_policy),
                            ),
                            counter: id,
                            ..settled
                        },
                        Ok(id),
                    )
                },
            }
        },
    }
}

/// An entry into the raffle `key`.
pub open spec fn enter_raffle_spec(
    v: RegistryView,
    key: u128,
    sender: String,
    pays: u128,
) -> (RegistryView, Result<Entry, RaffleError>) {
    if !v.raffles.contains_key(key) {
        (v, Err(RaffleError::UnknownRaffle))
    } else {
        let (r, res) = enter_spec(
            v.raffles[key],
            sender,
            pays,
            v.config.storage_cost,
            v.config.entry_allowance,
        );
        (RegistryView { raffles: v.raffles.insert(key, r), ..v }, res)
    }
}

/// Closing the raffle `key` with the random indices `draws`.
pub open spec fn close_raffle_spec(
    v: RegistryView,
    key: u128,
    caller: String,
    now: u64,
    draws: Seq<u64>,
) -> (RegistryView, Result<(), RaffleError>) {
    if !v.raffles.contains_key(key) {
        (v, Err(RaffleError::UnknownRaffle))
    } else {
        let (r, res) = close_spec(v.raffles[key], caller, now, v.config.end_time_policy, draws);
        (RegistryView { raffles: v.raffles.insert(key, r), ..v }, res)
    }
}

/// A registry with no raffle and nothing pending.
pub open spec fn is_fresh(v: RegistryView, beneficiary: String, config: Config) -> bool {
    &&& v.raffles == Map::<u128, RaffleView>::empty()
    &&& v.counter == 0
    &&& v.beneficiary == beneficiary
    &&& v.greeting@ == DEFAULT_MESSAGE@
    &&& v.config == config
    &&& v.pending == Seq::<PendingView>::empty()
    &&& v.next_ticket == 0
}

/// In a well-formed registry a ticket names one pending creation at most: the one
/// filed under it is the one that its reply settles.
pub proof fn lemma_position_unique(v: RegistryView, i: int, ticket: u64)
    requires
        v.wf(),
        0 <= i < v.pending.len(),
        v.pending[i].ticket == ticket,
    ensures
        pending_position(v.pending, ticket) == Some(i),
{
    assert(0 <= i < v.pending.len() && v.pending[i].ticket == ticket);
}

proof fn lemma_replace_keeps_wf(v: RegistryView, key: u128, r: RaffleView)
    requires
        v.wf(),
        v.raffles.contains_key(key),
        r.id == key,
        r.wf(),
        v.config.storage_cost <= r.ticket_price,
    ensures
        (RegistryView { raffles: v.raffles.insert(key, r), ..v }).wf(),
{
}

proof fn lemma_views_insert(m: Map<u128, Raffle>, k: u128, r: Raffle)
    ensures
        raffle_views(m.insert(k, r)) == raffle_views(m).insert(k, r@),
{
    assert(raffle_views(m.insert(k, r)) =~= raffle_views(m).insert(k, r@));
}

proof fn lemma_views_remove(m: Map<u128, Raffle>, k: u128)
    ensures
        raffle_views(m.remove(k)) == raffle_views(m).remove(k),
{
    assert(raffle_views(m.remove(k)) =~= raffle_views(m).remove(k));
}

proof fn lemma_pending_views_push(s: Seq<PendingRaffle>, p: PendingRaffle)
    ensures
        pending_views(s.push(p)) == pending_views(s).push(p.view()),
{
    assert(pending_views(s.push(p)) =~= pending_views(s).push(p.view()));
}

proof fn lemma_pending_views_remove(s: Seq<PendingRaffle>, i: int)
    requires
        0 <= i < s.len(),
    ensures
        pending_views(s.remove(i)) == pending_views(s).remove(i),
{
    assert(pending_views(s.remove(i)) =~= pending_views(s).remove(i));
}

/// A creation whose ownership query fails, or reports another owner, changes
/// neither the raffles nor the counter: the id that would have come next stays
/// free.
pub proof fn lemma_failed_creation(
    v: RegistryView,
    creator: String,
    end_time: u64,
    ticket_price: u128,
    prizes: Seq<JsonToken>,
    reply: Option<String>,
    this_account: String,
)
    requires
        v.wf(),
        v.counter < u128::MAX,
        request_spec(v, creator, end_time, ticket_price, prizes).1 is Ok,
        reply matches Some(owner) ==> owner@ != this_account@,
    ensures
        ({
            let (requested, query) = request_spec(v, creator, end_time, ticket_price, prizes);
            let settled = finalize_spec(requested, query->Ok_0.ticket, reply, this_account);
            &&& settled.1 is Err
            &&& settled.0.counter == v.counter
            &&& settled.0.raffles == v.raffles
            &&& !settled.0.raffles.contains_key((v.counter + 1) as u128)
        }),
{
    let requested = request_spec(v, creator, end_time, ticket_price, prizes).0;
    let last = requested.pending.len() - 1;
    assert(requested.pending[last].ticket == v.next_ticket);
    let next = (v.counter + 1) as u128;
    if v.raffles.contains_key(next) {
        assert(next <= v.counter);
    }
}

impl RafflesMap {
    /// A registry whose proceeds go to `beneficiary`, with the settings `config`.
    pub fn with_config(beneficiary: String, config: Config) -> (r: RafflesMap)
        ensures
            is_fresh(r@, beneficiary, config),
            r@.wf(),
    {
        let r = RafflesMap {
            raffles: HashMap::new(),
            counter: Counter { value: 0 },
            beneficiary,
            greeting: String::from_str(DEFAULT_MESSAGE),
            config,
            pending: Vec::new(),
            next_ticket: 0,
        };
        assert(pending_views(r.pending@) =~= Seq::<PendingView>::empty());
        assert(raffle_views(r.raffles@) =~= Map::<u128, RaffleView>::empty());
        r
    }

    /// A registry whose proceeds go to `beneficiary`, with the standard settings.
    pub fn init(beneficiary: String) -> (r: RafflesMap)
        ensures
            is_fresh(r@, beneficiary, standard_config()),
            r@.wf(),
    {
        RafflesMap::with_config(beneficiary, Config::default())
    }

    pub fn get_greeting(&self) -> (r: String)
        ensures
            r == self@.greeting,
    {
        self.greeting.clone()
    }

    /// The last id handed out.
    pub fn get_counter(&self) -> (r: &u128)
        ensures
            *r == self@.counter,
    {
        &self.counter.value
    }

    /// The last id handed out, by value.
    pub fn get_counter1(&self) -> (r: u128)
        ensures
            r == self@.counter,
    {
        self.counter.value
    }

    /// The ticket the next pending creation will be filed under.
    pub fn next_ticket(&self) -> (r: u64)
        ensures
            r == self@.next_ticket,
    {
        self.next_ticket
    }

    pub fn beneficiary(&self) -> (r: &String)
        ensures
            *r == self@.beneficiary,
    {
        &self.beneficiary
    }

    pub fn config(&self) -> (r: Config)
        ensures
            r == self@.config,
    {
        self.config
    }

    /// Skips one id: the counter moves on, and the id it passes is never used.
    pub fn increment_counter(&mut self)
        requires
            old(self)@.wf(),
            old(self)@.counter < u128::MAX,
        ensures
            final(self)@ == (RegistryView { counter: (old(self)@.counter + 1) as u128, ..old(self)@ }),
            final(self)@.wf(),
    {
        self.counter.value = self.counter.value + 1;
    }

    /// Moves the counter forward to `counter`; it never moves back.
    pub fn set_counter(&mut self, counter: u128)
        requires
            old(self)@.wf(),
            old(self)@.counter <= counter,
        ensures
            final(self)@ == (RegistryView { counter, ..old(self)@ }),
            final(self)@.wf(),
    {
        self.counter.value = counter;
    }

    /// The raffle with id `key`, if there is one.
    pub fn get_raffle(&self, key: u128) -> (r: Option<&Raffle>)
        ensures
            match r {
                Some(x) => self@.raffles.contains_key(key) && x@ == self@.raffles[key],
                None => !self@.raffles.contains_key(key),
            },
    {
        self.raffles.get(&key)
    }

    /// The participants of the raffle `key`, in the order they entered.
    pub fn get_participants(&self, key: u128) -> (r: Option<&Vec<String>>)
        ensures
            match r {
                Some(x) => self@.raffles.contains_key(key) && x@ == self@.raffles[key].participants,
                None => !self@.raffles.contains_key(key),
            },
    {
        match self.raffles.get(&key) {
            Some(raffle) => Some(raffle.get_participants()),
            None => None,
        }
    }

    /// The winners of the raffle `key`, prize by prize.
    pub fn get_winners(&self, key: u128) -> (r: Option<&Vec<Winner>>)
        ensures
            match r {
                Some(x) => self@.raffles.contains_key(key) && x@ == self@.raffles[key].winners,
                None => !self@.raffles.contains_key(key),
            },
    {
        match self.raffles.get(&key) {
            Some(raffle) => Some(raffle.get_winners()),
            None => None,
        }
    }

    fn find_pending(&self, ticket: u64) -> (r: Option<usize>)
        ensures
            match r {
                Some(i) => i < self.pending@.len() && self.pending@[i as int].ticket == ticket,
                None => forall|i: int|
                    0 <= i < self.pending@.len() ==> (#[trigger] self.pending@[i]).ticket != ticket,
            },
    {
        let mut i: usize = 0;
        while i < self.pending.len()
            invariant
                i <= self.pending@.len(),
                forall|j: int| 0 <= j < i ==> (#[trigger] self.pending@[j]).ticket != ticket,
            decreases self.pending.len() - i,
        {
            if self.pending[i].ticket == ticket {
                return Some(i);
            }
            i = i + 1;
        }
        None
    }

    /// Starts the creation of a raffle by `creator`: checks the arguments, files the
    /// creation as pending, and returns the ownership query to send for the first
    /// prize. The raffle is created once the reply comes back.
    pub fn add_new_raffle(
        &mut self,
        creator: &String,
        end_time: u64,
        ticket_price: u128,
        prizes: Vec<JsonToken>,
    ) -> (r: Result<OwnershipQuery, RaffleError>)
        requires
            old(self)@.wf(),
            old(self)@.next_ticket < u64::MAX,
        ensures
            (final(self)@, r) == request_spec(old(self)@, *creator, end_time, ticket_price, prizes@),
            final(self)@.wf(),
    {
        if prizes.len() == 0 {
            return Err(RaffleError::NoPrizes);
        }
        if ticket_price < self.config.storage_cost {
            return Err(RaffleError::PriceBelowStorageCost);
        }
        let ticket = self.next_ticket;
        let query = OwnershipQuery {
            ticket,
            nft_contract: prizes[0].owner_id.clone(),
            token_id: prizes[0].token_id.clone(),
        };
        let p = PendingRaffle {
            ticket,
            creator: creator.clone(),
            args: NewRaffleArgs { end_time, ticket_price, prizes },
        };
        proof {
            lemma_pending_views_push(self.pending@, p);
        }
        self.pending.push(p);
        self.next_ticket = ticket + 1;
        Ok(query)
    }

    /// Settles the pending creation `ticket` with the reply to its ownership query:
    /// `None` when the query failed, else the owner it reported. The raffle is
    /// committed under the next id only when that owner is `this_account`;
    /// otherwise the creation is dropped and nothing else changes.
    pub fn check_token_ownership_and_finalize(
        &mut self,
        ticket: u64,
        reply: Option<String>,
        this_account: &String,
    ) -> (r: Result<u128, RaffleError>)
        requires
            old(self)@.wf(),
            old(self)@.counter < u128::MAX,
        ensures
            (final(self)@, r) == finalize_spec(old(self)@, ticket, reply, *this_account),
            final(self)@.wf(),
    {
        match self.find_pending(ticket) {
            None => Err(RaffleError::UnknownCreation),
            Some(i) => {
                proof {
                    lemma_position_unique(self@, i as int, ticket);
                    lemma_pending_views_remove(self.pending@, i as int);
                }
                let ghost old_pending = self@.pending;
                let p = self.pending.remove(i);
                proof {
                    assert forall|a: int, b: int|
                        0 <= a < self@.pending.len() && 0 <= b < self@.pending.len() && a != b
                        implies (#[trigger] self@.pending[a]).ticket != (#[trigger] self@.pending[b]).ticket by {
                        let a0 = if a < i { a } else { a + 1 };
                        let b0 = if b < i { b } else { b + 1 };
                        assert(self@.pending[a] == old_pending[a0]);
                        assert(self@.pending[b] == old_pending[b0]);
                    }
                    assert forall|a: int| 0 <= a < self@.pending.len() implies {
                        &&& (#[trigger] self@.pending[a]).ticket < self@.next_ticket
                        &&& self@.pending[a].prizes.len() > 0
                        &&& self@.config.storage_cost <= self@.pending[a].ticket_price
                    } by {
                        let a0 = if a < i { a } else { a + 1 };
                        assert(self@.pending[a] == old_pending[a0]);
                    }
                }
                match reply {
                    None => Err(RaffleError::OwnershipCheckFailed),
                    Some(owner) => {
                        if !(owner == *this_account) {
                            Err(RaffleError::OwnershipMismatch)
                        } else {
                            let id = self.counter.value + 1;
                            self.counter.value = id;
                            let raffle = Raffle::new(
                                id,
                                p.creator,
                                p.args.end_time,
                                p.args.ticket_price,
                                p.args.prizes,
                                self.config.draw_policy,
                            );
                            proof {
                                lemma_views_insert(self.raffles@, id, raffle);
                            }
                            self.raffles.insert(id, raffle);
                            Ok(id)
                        }
                    },
                }
            },
        }
    }

    /// An entry by `sender` with the payment `pays` into the raffle `key`. The result
    /// says whether the sender joined and which transfers to make.
    pub fn add_participant(&mut self, key: u128, sender: &String, pays: u128) -> (r: Result<
        Entry,
        RaffleError,
    >)
        requires
            old(self)@.wf(),
        ensures
            (final(self)@, r) == enter_raffle_spec(old(self)@, key, *sender, pays),
            final(self)@.wf(),
    {
        proof {
            lemma_views_remove(self.raffles@, key);
        }
        match self.raffles.remove(&key) {
            None => {
                assert(self.raffles@ =~= old(self).raffles@);
                Err(RaffleError::UnknownRaffle)
            },
            Some(mut raffle) => {
                proof {
                    assert(old(self)@.raffles.contains_key(key));
                    assert(raffle@ == old(self)@.raffles[key]);
                }
                let r = raffle.enter(sender, pays, self.config.storage_cost, self.config.entry_allowance);
                proof {
                    lemma_views_insert(self.raffles@, key, raffle);
                    lemma_replace_keeps_wf(old(self)@, key, raffle@);
                    assert(raffle_views(self.raffles@).insert(key, raffle@) =~= raffle_views(old(self).raffles@).insert(key, raffle@));
                }
                self.raffles.insert(key, raffle);
                r
            },
        }
    }

    /// Closes the raffle `key` for `caller` at time `now`, with the given random
    /// indices, one per drawn prize.
    pub fn cancel_raffle_with_draws(
        &mut self,
        key: u128,
        caller: &String,
        now: u64,
        draws: &Vec<u64>,
    ) -> (r: Result<(), RaffleError>)
        requires
            old(self)@.wf(),
            old(self)@.raffles.contains_key(key) ==> draws_fit(old(self)@.raffles[key], draws@),
        ensures
            (final(self)@, r) == close_raffle_spec(old(self)@, key, *caller, now, draws@),
            final(self)@.wf(),
    {
        proof {
            lemma_views_remove(self.raffles@, key);
        }
        match self.raffles.remove(&key) {
            None => {
                assert(self.raffles@ =~= old(self).raffles@);
                Err(RaffleError::UnknownRaffle)
            },
            Some(mut raffle) => {
                proof {
                    assert(old(self)@.raffles.contains_key(key));
                    assert(raffle@ == old(self)@.raffles[key]);
                }
                let r = raffle.close_with_draws(caller, now, self.config.end_time_policy, draws);
                proof {
                    assert(raffle@.id == key);
                    assert(raffle@.ticket_price == old(self)@.raffles[key].ticket_price);
                    lemma_views_insert(self.raffles@, key, raffle);
                    lemma_replace_keeps_wf(old(self)@, key, raffle@);
                    assert(raffle_views(self.raffles@).insert(key, raffle@) =~= raffle_views(old(self).raffles@).insert(key, raffle@));
                }
                self.raffles.insert(key, raffle);
                r
            },
        }
    }

    /// Closes the raffle `key` for `caller` at time `now`, drawing the winners from a
    /// generator seeded with `seed`. Whatever the draw, each prize in order goes to a
    /// participant, as the raffle's draw policy allows.
    pub fn cancel_raffle(&mut self, key: u128, caller: &String, now: u64, seed: &Vec<u8>) -> (r:
        Result<(), RaffleError>)
        requires
            old(self)@.wf(),
            seed@.len() >= 8,
        ensures
            final(self)@.wf(),
            !old(self)@.raffles.contains_key(key) ==> r == Err::<(), RaffleError>(RaffleError::UnknownRaffle)
                && final(self)@ == old(self)@,
            old(self)@.raffles.contains_key(key) ==> match close_refusal(
                old(self)@.raffles[key],
                *caller,
                now,
                old(self)@.config.end_time_policy,
            ) {
                Some(e) => r == Err::<(), RaffleError>(e) && final(self)@ == old(self)@,
                None => r is Ok && exists|draws: Seq<u64>|
                    draws_fit(old(self)@.raffles[key], draws) && final(self)@ == close_raffle_spec(
                        old(self)@,
                        key,
                        *caller,
                        now,
                        draws,
                    ).0,
            },
    {
        proof {
            lemma_views_remove(self.raffles@, key);
        }
        match self.raffles.remove(&key) {
            None => {
                assert(self.raffles@ =~= old(self).raffles@);
                Err(RaffleError::UnknownRaffle)
            },
            Some(mut raffle) => {
                proof {
                    assert(old(self)@.raffles.contains_key(key));
                    assert(raffle@ == old(self)@.raffles[key]);
                }
                let r = raffle.close_seeded(caller, now, self.config.end_time_policy, seed);
                proof {
                    let before = old(self)@.raffles[key];
                    if r is Ok {
                        let d = choose|d: Seq<u64>| draws_fit(before, d) && raffle@ == closed_with(before, d);
                        assert(raffle@ == closed_with(before, d));
                    }
                    assert(raffle@.id == key);
                    assert(raffle@.ticket_price == before.ticket_price);
                    lemma_views_insert(self.raffles@, key, raffle);
                    lemma_replace_keeps_wf(old(self)@, key, raffle@);
                    assert(raffle_views(self.raffles@).insert(key, raffle@) =~= raffle_views(old(self).raffles@).insert(key, raffle@));
                    if r is Err {
                        assert(raffle_views(old(self).raffles@).insert(key, raffle@) =~= raffle_views(old(self).raffles@));
                    }
                }
                self.raffles.insert(key, raffle);
                r
            },
        }
    }
}

impl Default for RafflesMap {
    /// A registry paying the default beneficiary, with the standard settings.
    fn default() -> (r: RafflesMap)
        ensures
            is_fresh(r@, r@.beneficiary, standard_config()),
            r@.beneficiary@ == DEFAULT_BENEFICIARY@,
            r@.wf(),
    {
        RafflesMap::init(String::from_str(DEFAULT_BENEFICIARY))
    }
}

} // verus!
