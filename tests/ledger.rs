use raffland::escrow::{refund_repeat, split};
use raffland::registry::DEFAULT_BENEFICIARY;
use raffland::{
    Config, DrawPolicy, EndTimePolicy, Entry, JsonToken, RaffleError, RaffleState, RafflesMap,
    ADD_PART_CALL_COST, STORAGE_COST,
};

const CREATOR: &str = "creator.near";
const LEDGER: &str = "raffles.near";

fn config(storage_cost: u128, entry_allowance: u128, draw_policy: DrawPolicy, end_time_policy: EndTimePolicy) -> Config {
    Config { storage_cost, entry_allowance, draw_policy, end_time_policy }
}

fn prizes(n: usize) -> Vec<JsonToken> {
    (0..n).map(|i| JsonToken { token_id: format!("token-{}", i), owner_id: "nft.near".to_string() }).collect()
}

fn registry(draw_policy: DrawPolicy) -> RafflesMap {
    RafflesMap::with_config("beneficiary.near".to_string(), config(10, 5, draw_policy, EndTimePolicy::Advisory))
}

fn create(m: &mut RafflesMap, ticket_price: u128, n_prizes: usize) -> u128 {
    let q = m.add_new_raffle(&CREATOR.to_string(), 100, ticket_price, prizes(n_prizes)).unwrap();
    m.check_token_ownership_and_finalize(q.ticket, Some(LEDGER.to_string()), &LEDGER.to_string()).unwrap()
}

fn enter_all(m: &mut RafflesMap, id: u128, names: &[&str], pays: u128) {
    for n in names {
        assert!(m.add_participant(id, &n.to_string(), pays).unwrap().entered);
    }
}

fn seed(b: u8) -> Vec<u8> {
    (0..32).map(|i| b.wrapping_mul(31).wrapping_add(i)).collect()
}

#[test]
fn split_forwards_price_less_storage_and_refunds_excess() {
    assert_eq!(split(150, 100, 10), Some((90, 50)));
    assert_eq!(split(100, 100, 100), Some((0, 0)));
    assert_eq!(split(99, 100, 10), None);
    let (forward, refund) = split(1234, 1000, 7).unwrap();
    assert_eq!(forward + refund + 7, 1234);
}

#[test]
fn repeat_refund_keeps_the_allowance() {
    assert_eq!(refund_repeat(150, 5), 145);
    assert_eq!(refund_repeat(5, 5), 0);
    assert_eq!(refund_repeat(3, 5), 0);
}

#[test]
fn scenario_entry_then_repeated_entry() {
    let mut m = registry(DrawPolicy::WithReplacement);
    let id = create(&mut m, 100, 1);
    let a = "a.near".to_string();
    assert_eq!(m.add_participant(id, &a, 150), Ok(Entry { entered: true, to_beneficiary: 90, to_payer: 50 }));
    assert!(m.get_raffle(id).unwrap().is_participant(&a));
    assert_eq!(m.add_participant(id, &a, 150), Ok(Entry { entered: false, to_beneficiary: 0, to_payer: 145 }));
    assert_eq!(m.get_participants(id).unwrap().len(), 1);
}

#[test]
fn scenario_two_prizes_three_participants() {
    let mut m = registry(DrawPolicy::WithReplacement);
    let id = create(&mut m, 100, 2);
    let pool = ["a.near", "b.near", "c.near"];
    enter_all(&mut m, id, &pool, 100);
    assert_eq!(m.cancel_raffle(id, &CREATOR.to_string(), 0, &seed(1)), Ok(()));
    let winners = m.get_winners(id).unwrap();
    assert_eq!(winners.len(), 2);
    let raffle_prizes = prizes(2);
    for (j, w) in winners.iter().enumerate() {
        assert!(pool.contains(&w.winner_wallet_account_id.as_str()));
        assert_eq!(w.prize, raffle_prizes[j]);
    }
}

#[test]
fn scenario_close_without_participants() {
    let mut m = registry(DrawPolicy::WithReplacement);
    let id = create(&mut m, 100, 3);
    assert_eq!(m.cancel_raffle(id, &CREATOR.to_string(), 0, &seed(2)), Ok(()));
    let raffle = m.get_raffle(id).unwrap();
    assert_eq!(raffle.state(), RaffleState::Closed);
    assert!(!raffle.game_continues());
    assert!(raffle.get_winners().is_empty());
}

#[test]
fn distinct_entries_all_register_in_any_order() {
    let names = ["a.near", "b.near", "c.near", "d.near", "e.near"];
    let mut reversed = names;
    reversed.reverse();
    let mut m1 = registry(DrawPolicy::WithReplacement);
    let mut m2 = registry(DrawPolicy::WithReplacement);
    let id1 = create(&mut m1, 100, 1);
    let id2 = create(&mut m2, 100, 1);
    enter_all(&mut m1, id1, &names, 100);
    enter_all(&mut m2, id2, &reversed, 250);
    let mut p1 = m1.get_participants(id1).unwrap().clone();
    let mut p2 = m2.get_participants(id2).unwrap().clone();
    assert_eq!(p1.len(), 5);
    assert_eq!(p2.len(), 5);
    p1.sort();
    p2.sort();
    assert_eq!(p1, p2);
}

#[test]
fn repeated_entry_adds_and_forwards_nothing() {
    let mut m = registry(DrawPolicy::WithReplacement);
    let id = create(&mut m, 100, 1);
    let a = "a.near".to_string();
    m.add_participant(id, &a, 100).unwrap();
    for pays in [100u128, 500, 3] {
        let before = m.get_participants(id).unwrap().len();
        match m.add_participant(id, &a, pays) {
            Ok(e) => {
                assert!(!e.entered);
                assert_eq!(e.to_beneficiary, 0);
            },
            Err(e) => assert_eq!(e, RaffleError::InsufficientPayment),
        }
        assert_eq!(m.get_participants(id).unwrap().len(), before);
    }
}

#[test]
fn every_prize_gets_a_winner() {
    let mut m = registry(DrawPolicy::WithReplacement);
    let id = create(&mut m, 100, 4);
    enter_all(&mut m, id, &["solo.near"], 100);
    m.cancel_raffle(id, &CREATOR.to_string(), 0, &seed(3)).unwrap();
    let winners = m.get_winners(id).unwrap();
    assert_eq!(winners.len(), 4);
    assert!(winners.iter().all(|w| w.winner_wallet_account_id == "solo.near"));
}

#[test]
fn seeded_draw_stays_inside_the_pool() {
    let mut m = registry(DrawPolicy::WithReplacement);
    let id = create(&mut m, 100, 6);
    let pool = ["a.near", "b.near", "c.near"];
    enter_all(&mut m, id, &pool, 100);
    m.cancel_raffle(id, &CREATOR.to_string(), 0, &seed(4)).unwrap();
    let winners = m.get_winners(id).unwrap();
    assert_eq!(winners.len(), 6);
    assert!(winners.iter().all(|w| pool.contains(&w.winner_wallet_account_id.as_str())));
}

#[test]
fn close_twice_is_refused() {
    let mut m = registry(DrawPolicy::WithReplacement);
    let id = create(&mut m, 100, 2);
    enter_all(&mut m, id, &["a.near", "b.near"], 100);
    m.cancel_raffle(id, &CREATOR.to_string(), 0, &seed(5)).unwrap();
    let first = m.get_winners(id).unwrap().clone();
    assert_eq!(m.cancel_raffle(id, &CREATOR.to_string(), 0, &seed(6)), Err(RaffleError::AlreadyClosed));
    assert_eq!(m.get_winners(id).unwrap(), &first);
}

#[test]
fn failed_ownership_check_creates_nothing() {
    let mut m = registry(DrawPolicy::WithReplacement);
    let q = m.add_new_raffle(&CREATOR.to_string(), 100, 100, prizes(1)).unwrap();
    assert_eq!(q.nft_contract, "nft.near");
    assert_eq!(q.token_id, "token-0");
    assert_eq!(
        m.check_token_ownership_and_finalize(q.ticket, None, &LEDGER.to_string()),
        Err(RaffleError::OwnershipCheckFailed)
    );
    assert_eq!(m.get_counter1(), 0);
    assert!(m.get_raffle(1).is_none());
    assert_eq!(
        m.check_token_ownership_and_finalize(q.ticket, Some(LEDGER.to_string()), &LEDGER.to_string()),
        Err(RaffleError::UnknownCreation)
    );
}

#[test]
fn ownership_by_another_account_creates_nothing() {
    let mut m = registry(DrawPolicy::WithReplacement);
    let q = m.add_new_raffle(&CREATOR.to_string(), 100, 100, prizes(1)).unwrap();
    assert_eq!(
        m.check_token_ownership_and_finalize(q.ticket, Some("thief.near".to_string()), &LEDGER.to_string()),
        Err(RaffleError::OwnershipMismatch)
    );
    assert_eq!(*m.get_counter(), 0);
    assert!(m.get_raffle(1).is_none());
}

#[test]
fn creations_settle_by_ticket_in_any_order() {
    let mut m = registry(DrawPolicy::WithReplacement);
    let q1 = m.add_new_raffle(&"first.near".to_string(), 100, 100, prizes(1)).unwrap();
    let q2 = m.add_new_raffle(&"second.near".to_string(), 200, 300, prizes(2)).unwrap();
    assert_ne!(q1.ticket, q2.ticket);
    let me = LEDGER.to_string();
    assert_eq!(m.check_token_ownership_and_finalize(q2.ticket, Some(me.clone()), &me), Ok(1));
    assert_eq!(m.check_token_ownership_and_finalize(q1.ticket, Some(me.clone()), &me), Ok(2));
    let r1 = m.get_raffle(1).unwrap();
    assert_eq!(r1.id(), 1);
    assert_eq!(r1.get_creator(), "second.near");
    assert_eq!(r1.get_ticket_price(), 300);
    assert_eq!(r1.get_prizes().len(), 2);
    assert_eq!(m.get_raffle(2).unwrap().get_creator(), "first.near");
}

#[test]
fn creation_refuses_bad_arguments() {
    let mut m = registry(DrawPolicy::WithReplacement);
    assert_eq!(m.add_new_raffle(&CREATOR.to_string(), 100, 100, Vec::new()), Err(RaffleError::NoPrizes));
    assert_eq!(m.add_new_raffle(&CREATOR.to_string(), 100, 9, prizes(1)), Err(RaffleError::PriceBelowStorageCost));
    assert_eq!(
        m.check_token_ownership_and_finalize(0, Some(LEDGER.to_string()), &LEDGER.to_string()),
        Err(RaffleError::UnknownCreation)
    );
}

#[test]
fn entry_errors() {
    let mut m = registry(DrawPolicy::WithReplacement);
    let id = create(&mut m, 100, 1);
    let a = "a.near".to_string();
    assert_eq!(m.add_participant(id + 1, &a, 100), Err(RaffleError::UnknownRaffle));
    assert_eq!(m.add_participant(id, &a, 99), Err(RaffleError::InsufficientPayment));
    assert!(m.get_participants(id).unwrap().is_empty());
    m.cancel_raffle(id, &CREATOR.to_string(), 0, &seed(7)).unwrap();
    assert_eq!(m.add_participant(id, &a, 100), Err(RaffleError::RaffleClosed));
}

#[test]
fn close_errors() {
    let mut m = RafflesMap::with_config(
        "beneficiary.near".to_string(),
        config(10, 5, DrawPolicy::WithReplacement, EndTimePolicy::Strict),
    );
    let id = create(&mut m, 100, 1);
    enter_all(&mut m, id, &["a.near"], 100);
    assert_eq!(m.cancel_raffle(id + 1, &CREATOR.to_string(), 100, &seed(8)), Err(RaffleError::UnknownRaffle));
    assert_eq!(m.cancel_raffle(id, &"a.near".to_string(), 100, &seed(8)), Err(RaffleError::Unauthorized));
    assert_eq!(m.cancel_raffle(id, &CREATOR.to_string(), 99, &seed(8)), Err(RaffleError::NotEnded));
    assert!(m.get_raffle(id).unwrap().game_continues());
    assert_eq!(m.cancel_raffle(id, &CREATOR.to_string(), 100, &seed(8)), Ok(()));
}

#[test]
fn advisory_end_time_allows_early_close() {
    let mut m = registry(DrawPolicy::WithReplacement);
    let id = create(&mut m, 100, 1);
    assert_eq!(m.cancel_raffle(id, &CREATOR.to_string(), 0, &seed(9)), Ok(()));
}

#[test]
fn given_draws_pick_exact_winners() {
    let mut m = registry(DrawPolicy::WithReplacement);
    let id = create(&mut m, 100, 3);
    enter_all(&mut m, id, &["a.near", "b.near", "c.near"], 100);
    assert_eq!(m.cancel_raffle_with_draws(id, &CREATOR.to_string(), 0, &vec![2, 0, 2]), Ok(()));
    let names: Vec<String> = m.get_winners(id).unwrap().iter().map(|w| w.winner_wallet_account_id.clone()).collect();
    assert_eq!(names, vec!["c.near", "a.near", "c.near"]);
}

#[test]
fn draws_without_replacement_shrink_the_pool() {
    let mut m = registry(DrawPolicy::WithoutReplacement);
    let id = create(&mut m, 100, 3);
    enter_all(&mut m, id, &["a.near", "b.near", "c.near"], 100);
    assert_eq!(m.cancel_raffle_with_draws(id, &CREATOR.to_string(), 0, &vec![1, 1, 0]), Ok(()));
    let names: Vec<String> = m.get_winners(id).unwrap().iter().map(|w| w.winner_wallet_account_id.clone()).collect();
    assert_eq!(names, vec!["b.near", "c.near", "a.near"]);
}

#[test]
fn surplus_prizes_stay_unpaired_without_replacement() {
    let mut m = registry(DrawPolicy::WithoutReplacement);
    let id = create(&mut m, 100, 4);
    enter_all(&mut m, id, &["a.near", "b.near"], 100);
    m.cancel_raffle(id, &CREATOR.to_string(), 0, &seed(10)).unwrap();
    let winners = m.get_winners(id).unwrap();
    assert_eq!(winners.len(), 2);
    assert_ne!(winners[0].winner_wallet_account_id, winners[1].winner_wallet_account_id);
    assert_eq!(winners[0].prize, prizes(4)[0]);
    assert_eq!(winners[1].prize, prizes(4)[1]);
}

#[test]
fn same_seed_same_winners() {
    let mut m1 = registry(DrawPolicy::WithReplacement);
    let mut m2 = registry(DrawPolicy::WithReplacement);
    let pool = ["a.near", "b.near", "c.near", "d.near", "e.near", "f.near", "g.near"];
    for m in [&mut m1, &mut m2] {
        let id = create(m, 100, 5);
        enter_all(m, id, &pool, 100);
        m.cancel_raffle(id, &CREATOR.to_string(), 0, &seed(11)).unwrap();
    }
    assert_eq!(m1.get_winners(1).unwrap(), m2.get_winners(1).unwrap());
}

#[test]
fn skipped_ids_are_never_used() {
    let mut m = registry(DrawPolicy::WithReplacement);
    m.increment_counter();
    assert_eq!(m.get_counter1(), 1);
    let id = create(&mut m, 100, 1);
    assert_eq!(id, 2);
    assert!(m.get_raffle(1).is_none());
    assert!(m.get_raffle(2).is_some());
}

#[test]
fn default_registry_settings() {
    let m = RafflesMap::default();
    assert_eq!(m.beneficiary(), DEFAULT_BENEFICIARY);
    assert_eq!(m.get_greeting(), "Hello");
    assert_eq!(m.get_counter1(), 0);
    let c = m.config();
    assert_eq!(c.storage_cost, STORAGE_COST);
    assert_eq!(c.entry_allowance, ADD_PART_CALL_COST);
    assert_eq!(c.draw_policy, DrawPolicy::WithReplacement);
    assert_eq!(c.end_time_policy, EndTimePolicy::Advisory);
    assert_eq!(Config::default(), c);
}

#[test]
fn default_storage_cost_refuses_cheap_tickets() {
    let mut m = RafflesMap::init("beneficiary.near".to_string());
    assert_eq!(m.add_new_raffle(&CREATOR.to_string(), 1, 1, prizes(1)), Err(RaffleError::PriceBelowStorageCost));
    assert!(m.add_new_raffle(&CREATOR.to_string(), 1, STORAGE_COST, prizes(1)).is_ok());
}
