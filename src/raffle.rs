//! One raffle: its participants, prizes and winners, and the state machine that
//! takes entries and closes it.

use vstd::prelude::*;
use crate::draw::{DrawPolicy, distinct_accounts, draw_count, draws_valid, drawn, draw_indices, pair_winners, lemma_drawn_len, lemma_drawn_from_pool};
use crate::error::RaffleError;
use crate::escrow::{escrow_split, repeat_refund, split, refund_repeat};
use crate::prize::{JsonToken, Winner};

verus! {

/// The lifecycle of a raffle: it opens once and closes once, for good.
#[derive(Clone, Copy, Debug, PartialEq, Eq)]
pub enum RaffleState {
    Open,
    Closed,
}

/// Whether a raffle may be closed before its end time. Entries are taken until
/// the raffle is closed either way.
#[derive(Clone, Copy, Debug, PartialEq, Eq)]
pub enum EndTimePolicy {
    /// The end time is informative: the creator may close at any time.
    Advisory,
    /// Closing is refused until the end time has been reached.
    Strict,
}

/// The outcome of an entry attempt and the transfers it calls for: `to_beneficiary`
/// goes to the ledger's beneficiary, `to_payer` back to the payer. What is left of
/// the payment stays with the ledger.
#[derive(Clone, Copy, Debug, PartialEq, Eq)]
pub struct Entry {
    pub entered: bool,
    pub to_beneficiary: u128,
    pub to_payer: u128,
}

/// A raffle. It is created by the registry once the ownership of its prize has
/// been confirmed.
pub struct Raffle {
    id: u128,
    end_time: u64,
    prizes: Vec<JsonToken>,
    ticket_price: u128,
    creator_wallet_account_id: String,
    state: RaffleState,
    winners: Vec<Winner>,
    participants: Vec<String>,
    draw_policy: DrawPolicy,
}

/// The abstract state of a raffle.
pub struct RaffleView {
    pub id: u128,
    pub end_time: u64,
    pub prizes: Seq<JsonToken>,
    pub ticket_price: u128,
    pub creator: String,
    pub state: RaffleState,
    pub winners: Seq<Winner>,
    pub participants: Seq<String>,
    pub draw_policy: DrawPolicy,
}

impl View for Raffle {
    type V = RaffleView;

    closed spec fn view(&self) -> RaffleView {
        RaffleView {
            id: self.id,
            end_time: self.end_time,
            prizes: self.prizes@,
            ticket_price: self.ticket_price,
            creator: self.creator_wallet_account_id,
            state: self.state,
            winners: self.winners@,
            participants: self.participants@,
            draw_policy: self.draw_policy,
        }
    }
}

/// Whether the account `a` is among `accounts`.
pub open spec fn contains_account(accounts: Seq<String>, a: Seq<char>) -> bool {
    exists|i: int| 0 <= i < accounts.len() && (#[trigger] accounts[i])@ == a
}

impl RaffleView {
    /// The invariant of a raffle.
    pub open spec fn wf(self) -> bool {
        &&& distinct_accounts(self.participants)
        &&& self.winners.len() <= self.prizes.len()
        &&& forall|j: int|
            0 <= j < self.winners.len() ==> {
                &&& self.participants.contains(#[trigger] self.winners[j].winner_wallet_account_id)
                &&& self.winners[j].prize == self.prizes[j]
            }
        &&& self.state == RaffleState::Open ==> self.winners.len() == 0
        &&& self.state == RaffleState::Closed ==> self.winners.len() == draw_count(
            self.participants.len() as int,
            self.prizes.len() as int,
            self.draw_policy,
        )
    }
}

/// An entry attempt by `sender` paying `pays`: the raffle afterwards and the outcome.
pub open spec fn enter_spec(
    v: RaffleView,
    sender: String,
    pays: u128,
    storage_cost: u128,
    allowance: u128,
) -> (RaffleView, Result<Entry, RaffleError>) {
    if v.state != RaffleState::Open {
        (v, Err(RaffleError::RaffleClosed))
    } else {
        match escrow_split(pays, v.ticket_price, storage_cost) {
            None => (v, Err(RaffleError::InsufficientPayment)),
            Some((forward, refund)) => if contains_account(v.participants, sender@) {
                (
                    v,
                    Ok(Entry { entered: false, to_beneficiary: 0, to_payer: repeat_refund(pays, allowance) }),
                )
            } else {
                (
                    RaffleView { participants: v.participants.push(sender), ..v },
                    Ok(Entry { entered: true, to_beneficiary: forward, to_payer: refund }),
                )
            },
        }
    }
}

/// Why `caller` may not close the raffle at time `now`, if it may not.
pub open spec fn close_refusal(
    v: RaffleView,
    caller: String,
    now: u64,
    end_policy: EndTimePolicy,
) -> Option<RaffleError> {
    if v.state == RaffleState::Closed {
        Some(RaffleError::AlreadyClosed)
    } else if caller@ != v.creator@ {
        Some(RaffleError::Unauthorized)
    } else if end_policy == EndTimePolicy::Strict && now < v.end_time {
        Some(RaffleError::NotEnded)
    } else {
        None
    }
}

/// The raffle closed with the winners that `draws` give.
pub open spec fn closed_with(v: RaffleView, draws: Seq<u64>) -> RaffleView {
    RaffleView {
        state: RaffleState::Closed,
        winners: drawn(v.participants, v.prizes, draws, v.draw_policy),
        ..v
    }
}

/// A close attempt with the random indices `draws`: the raffle afterwards and the outcome.
pub open spec fn close_spec(
    v: RaffleView,
    caller: String,
    now: u64,
    end_policy: EndTimePolicy,
    draws: Seq<u64>,
) -> (RaffleView, Result<(), RaffleError>) {
    match close_refusal(v, caller, now, end_policy) {
        Some(e) => (v, Err(e)),
        None => (closed_with(v, draws), Ok(())),
    }
}

/// The indices `draws` fit the pool and the prizes of `v`.
pub open spec fn draws_fit(v: RaffleView, draws: Seq<u64>) -> bool {
    draws_valid(v.participants.len() as int, v.prizes.len() as int, draws, v.draw_policy)
}

impl Raffle {
    pub(crate) fn new(
        id: u128,
        creator: String,
        end_time: u64,
        ticket_price: u128,
        prizes: Vec<JsonToken>,
        draw_policy: DrawPolicy,
    ) -> (r: Raffle)
        ensures
            r@ == (RaffleView {
                id,
                end_time,
                prizes: prizes@,
                ticket_price,
                creator,
                state: RaffleState::Open,
                winners: Seq::empty(),
                participants: Seq::empty(),
                draw_policy,
            }),
            r@.wf(),
    {
        Raffle {
            id,
            end_time,
            prizes,
            ticket_price,
            creator_wallet_account_id: creator,
            state: RaffleState::Open,
            winners: Vec::new(),
            participants: Vec::new(),
            draw_policy,
        }
    }

    pub fn id(&self) -> (r: u128)
        ensures
            r == self@.id,
    {
        self.id
    }

    pub fn get_ticket_price(&self) -> (r: u128)
        ensures
            r == self@.ticket_price,
    {
        self.ticket_price
    }

    pub fn get_creator(&self) -> (r: &String)
        ensures
            *r == self@.creator,
    {
        &self.creator_wallet_account_id
    }

    pub fn get_participants(&self) -> (r: &Vec<String>)
        ensures
            r@ == self@.participants,
    {
        &self.participants
    }

    pub fn get_winners(&self) -> (r: &Vec<Winner>)
        ensures
            r@ == self@.winners,
    {
        &self.winners
    }

    pub fn get_prizes(&self) -> (r: &Vec<JsonToken>)
        ensures
            r@ == self@.prizes,
    {
        &self.prizes
    }

    pub fn get_end_time(&self) -> (r: u64)
        ensures
            r == self@.end_time,
    {
        self.end_time
    }

    pub fn state(&self) -> (r: RaffleState)
        ensures
            r == self@.state,
    {
        self.state
    }

    /// Whether the raffle still takes entries.
    pub fn game_continues(&self) -> (r: bool)
        ensures
            r == (self@.state == RaffleState::Open),
    {
        match self.state {
            RaffleState::Open => true,
            RaffleState::Closed => false,
        }
    }

    pub fn draw_policy(&self) -> (r: DrawPolicy)
        ensures
            r == self@.draw_policy,
    {
        self.draw_policy
    }

    /// Whether `account` has entered the raffle.
    pub fn is_participant(&self, account: &String) -> (r: bool)
        ensures
            r == contains_account(self@.participants, account@),
    {
        let mut i: usize = 0;
        while i < self.participants.len()
            invariant
                i <= self.participants@.len(),
                forall|j: int| 0 <= j < i ==> (#[trigger] self.participants@[j])@ != account@,
            decreases self.participants.len() - i,
        {
            if self.participants[i] == *account {
                assert(self.participants@[i as int]@ == account@);
                return true;
            }
            i = i + 1;
        }
        false
    }

    /// An entry attempt by `sender` with the payment `pays`: refused while the raffle
    /// is closed or when the payment is short; a repeated entry is not registered
    /// and refunds the payment less `allowance`; otherwise the sender joins and the
    /// payment is split by the escrow.
    pub(crate) fn enter(&mut self, sender: &String, pays: u128, storage_cost: u128, allowance: u128) -> (r: Result<Entry, RaffleError>)
        requires
            old(self)@.wf(),
            storage_cost <= old(self)@.ticket_price,
        ensures
            (final(self)@, r) == enter_spec(old(self)@, *sender, pays, storage_cost, allowance),
            final(self)@.wf(),
    {
        match self.state {
            RaffleState::Closed => {
                return Err(RaffleError::RaffleClosed);
            },
            RaffleState::Open => {},
        }
        match split(pays, self.ticket_price, storage_cost) {
            None => Err(RaffleError::InsufficientPayment),
            Some((forward, refund)) => {
                if self.is_participant(sender) {
                    Ok(Entry { entered: false, to_beneficiary: 0, to_payer: refund_repeat(pays, allowance) })
                } else {
                    let ghost before = self.participants@;
                    self.participants.push(sender.clone());
                    proof {
                        assert forall|i: int, j: int|
                            0 <= i < self.participants@.len() && 0 <= j < self.participants@.len() && i != j
                            implies (#[trigger] self.participants@[i])@ != (#[trigger] self.participants@[j])@ by {
                            if i < before.len() && j < before.len() {
                                assert(before[i] == self.participants@[i]);
                                assert(before[j] == self.participants@[j]);
                            } else if i < before.len() {
                                assert(before[i] == self.participants@[i]);
                            } else {
                                assert(before[j] == self.participants@[j]);
                            }
                        }
                    }
                    Ok(Entry { entered: true, to_beneficiary: forward, to_payer: refund })
                }
            },
        }
    }

    /// Closes the raffle with the given random indices, one per drawn prize.
    pub(crate) fn close_with_draws(
        &mut self,
        caller: &String,
        now: u64,
        end_policy: EndTimePolicy,
        draws: &Vec<u64>,
    ) -> (r: Result<(), RaffleError>)
        requires
            old(self)@.wf(),
            draws_fit(old(self)@, draws@),
        ensures
            (final(self)@, r) == close_spec(old(self)@, *caller, now, end_policy, draws@),
            final(self)@.wf(),
    {
        if let Some(e) = self.refusal(caller, now, end_policy) {
            return Err(e);
        }
        let winners = pair_winners(&self.participants, &self.prizes, draws, self.draw_policy);
        proof {
            lemma_drawn_len(self.participants@, self.prizes@, draws@, self.draw_policy);
            lemma_drawn_from_pool(self.participants@, self.prizes@, draws@, self.draw_policy);
        }
        self.winners = winners;
        self.state = RaffleState::Closed;
        Ok(())
    }

    /// Closes the raffle, drawing the winners from a generator seeded with `seed`.
    pub(crate) fn close_seeded(
        &mut self,
        caller: &String,
        now: u64,
        end_policy: EndTimePolicy,
        seed: &Vec<u8>,
    ) -> (r: Result<(), RaffleError>)
        requires
            old(self)@.wf(),
            seed@.len() >= 8,
        ensures
            final(self)@.wf(),
            match close_refusal(old(self)@, *caller, now, end_policy) {
                Some(e) => r == Err::<(), RaffleError>(e) && final(self)@ == old(self)@,
                None => r is Ok && exists|draws: Seq<u64>|
                    draws_fit(old(self)@, draws) && final(self)@ == closed_with(old(self)@, draws),
            },
    {
        if let Some(e) = self.refusal(caller, now, end_policy) {
            return Err(e);
        }
        let draws = draw_indices(seed, self.participants.len(), self.prizes.len(), self.draw_policy);
        self.close_with_draws(caller, now, end_policy, &draws)
    }

    fn refusal(&self, caller: &String, now: u64, end_policy: EndTimePolicy) -> (r: Option<RaffleError>)
        ensures
            r == close_refusal(self@, *caller, now, end_policy),
    {
        match self.state {
            RaffleState::Closed => {
                return Some(RaffleError::AlreadyClosed);
            },
            RaffleState::Open => {},
        }
        if !(*caller == self.creator_wallet_account_id) {
            return Some(RaffleError::Unauthorized);
        }
        match end_policy {
            EndTimePolicy::Strict => if now < self.end_time {
                return Some(RaffleError::NotEnded);
            },
            EndTimePolicy::Advisory => {},
        }
        None
    }
}

/// The raffle after the entry attempts `entries`, each an account and its payment,
/// made one after the other.
pub open spec fn enter_all(
    v: RaffleView,
    entries: Seq<(String, u128)>,
    storage_cost: u128,
    allowance: u128,
) -> RaffleView
    decreases entries.len(),
{
    if entries.len() == 0 {
        v
    } else {
        let after = enter_spec(v, entries[0].0, entries[0].1, storage_cost, allowance).0;
        enter_all(after, entries.drop_first(), storage_cost, allowance)
    }
}

/// The accounts of `entries`, in order.
pub open spec fn entrants(entries: Seq<(String, u128)>) -> Seq<String> {
    entries.map_values(|e: (String, u128)| e.0)
}

proof fn lemma_enter_all_appends(
    v: RaffleView,
    entries: Seq<(String, u128)>,
    storage_cost: u128,
    allowance: u128,
)
    requires
        v.state == RaffleState::Open,
        distinct_accounts(v.participants + entrants(entries)),
        forall|i: int| 0 <= i < entries.len() ==> (#[trigger] entries[i]).1 >= v.ticket_price,
    ensures
        enter_all(v, entries, storage_cost, allowance).participants == v.participants + entrants(
            entries,
        ),
        enter_all(v, entries, storage_cost, allowance).state == RaffleState::Open,
    decreases entries.len(),
{
    let all = v.participants + entrants(entries);
    if entries.len() == 0 {
        assert(v.participants + entrants(entries) =~= v.participants);
    } else {
        let e = entries[0];
        assert(e.1 >= v.ticket_price);
        assert(all[v.participants.len() as int] == e.0);
        if contains_account(v.participants, e.0@) {
            let i = choose|i: int| 0 <= i < v.participants.len() && (#[trigger] v.participants[i])@ == e.0@;
            assert(all[i] == v.participants[i]);
        }
        let after = enter_spec(v, e.0, e.1, storage_cost, allowance).0;
        assert(after.participants == v.participants.push(e.0));
        let rest = entries.drop_first();
        assert forall|i: int| 0 <= i < rest.len() implies (#[trigger] rest[i]).1 >= after.ticket_price by {
            assert(rest[i] == entries[i + 1]);
        }
        assert(after.participants + entrants(rest) =~= all);
        lemma_enter_all_appends(after, rest, storage_cost, allowance);
    }
}

/// Entries from distinct accounts that each pay at least the ticket price all
/// register, in whatever order they come: a fresh raffle ends up with exactly one
/// participant per account.
pub proof fn lemma_distinct_entries_register(
    v: RaffleView,
    entries: Seq<(String, u128)>,
    storage_cost: u128,
    allowance: u128,
)
    requires
        v.state == RaffleState::Open,
        v.participants.len() == 0,
        distinct_accounts(entrants(entries)),
        forall|i: int| 0 <= i < entries.len() ==> (#[trigger] entries[i]).1 >= v.ticket_price,
    ensures
        enter_all(v, entries, storage_cost, allowance).participants.len() == entries.len(),
        forall|a: Seq<char>|
            contains_account(enter_all(v, entries, storage_cost, allowance).participants, a)
                <==> contains_account(entrants(entries), a),
{
    assert(v.participants + entrants(entries) =~= entrants(entries));
    lemma_enter_all_appends(v, entries, storage_cost, allowance);
}

/// A repeated entry never adds a participant and never forwards anything to the
/// beneficiary.
pub proof fn lemma_repeated_entry(
    v: RaffleView,
    sender: String,
    pays: u128,
    storage_cost: u128,
    allowance: u128,
)
    requires
        contains_account(v.participants, sender@),
    ensures
        enter_spec(v, sender, pays, storage_cost, allowance).0 == v,
        enter_spec(v, sender, pays, storage_cost, allowance).1 matches Ok(e) ==> !e.entered
            && e.to_beneficiary == 0,
{
}

/// An entry never pays out more than was attached: an accepted entry pays out all
/// of it but the storage cost, a refused repeat all of it but the allowance.
pub proof fn lemma_entry_pays_out_at_most_paid(
    v: RaffleView,
    sender: String,
    pays: u128,
    storage_cost: u128,
    allowance: u128,
)
    requires
        storage_cost <= v.ticket_price,
    ensures
        enter_spec(v, sender, pays, storage_cost, allowance).1 matches Ok(e) ==> {
            &&& e.to_beneficiary + e.to_payer <= pays
            &&& e.entered ==> e.to_beneficiary + e.to_payer + storage_cost == pays
            &&& !e.entered ==> e.to_payer == repeat_refund(pays, allowance)
        },
{
}

/// Closing a raffle that has at least one participant pairs a winner with every
/// prize, when winners stay in the pool or there are no more prizes than
/// participants.
pub proof fn lemma_close_pairs_every_prize(
    v: RaffleView,
    caller: String,
    now: u64,
    end_policy: EndTimePolicy,
    draws: Seq<u64>,
)
    requires
        v.participants.len() >= 1,
        draws_fit(v, draws),
        close_spec(v, caller, now, end_policy, draws).1 is Ok,
        v.draw_policy == DrawPolicy::WithReplacement || v.prizes.len() <= v.participants.len(),
    ensures
        close_spec(v, caller, now, end_policy, draws).0.winners.len() == v.prizes.len(),
{
    lemma_drawn_len(v.participants, v.prizes, draws, v.draw_policy);
}

/// A second close is refused with `AlreadyClosed` and changes nothing, whoever
/// makes it and whatever it draws.
pub proof fn lemma_close_twice(
    v: RaffleView,
    caller: String,
    now: u64,
    second_caller: String,
    second_now: u64,
    end_policy: EndTimePolicy,
    draws: Seq<u64>,
    second_draws: Seq<u64>,
)
    requires
        close_spec(v, caller, now, end_policy, draws).1 is Ok,
    ensures
        ({
            let closed = close_spec(v, caller, now, end_policy, draws).0;
            close_spec(closed, second_caller, second_now, end_policy, second_draws) == (
                closed,
                Err::<(), RaffleError>(RaffleError::AlreadyClosed),
            )
        }),
{
}

} // verus!
