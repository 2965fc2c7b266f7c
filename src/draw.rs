//! The draw: how winners are paired with prizes from a pool of participants,
//! given random indices, and how those indices are drawn from a seed.

use vstd::prelude::*;
use crate::prize::{JsonToken, Winner};
use near_rng::Rng;

verus! {

/// Whether a participant who has won stays in the pool for the next prize.
#[derive(Clone, Copy, Debug, PartialEq, Eq)]
pub enum DrawPolicy {
    /// Every prize is drawn from the whole pool: one participant may win several prizes.
    WithReplacement,
    /// A winner leaves the pool: prizes beyond the number of participants stay unpaired.
    WithoutReplacement,
}

/// How many prizes are drawn from a pool of `n` participants for `k` prizes.
pub open spec fn draw_count(n: int, k: int, policy: DrawPolicy) -> int {
    if n <= 0 {
        0
    } else {
        match policy {
            DrawPolicy::WithReplacement => k,
            DrawPolicy::WithoutReplacement => if k <= n { k } else { n },
        }
    }
}

/// The size of the pool when the draw for prize `i` is made.
pub open spec fn draw_bound(n: int, i: int, policy: DrawPolicy) -> int {
    match policy {
        DrawPolicy::WithReplacement => n,
        DrawPolicy::WithoutReplacement => n - i,
    }
}

/// `draws` holds one index per drawn prize, each inside the pool it is drawn from.
pub open spec fn draws_valid(n: int, k: int, draws: Seq<u64>, policy: DrawPolicy) -> bool {
    &&& draws.len() == draw_count(n, k, policy)
    &&& forall|i: int| 0 <= i < draws.len() ==> #[trigger] draws[i] < draw_bound(n, i, policy)
}

/// The pool left for the next prize once index `i` has won.
pub open spec fn pool_after(pool: Seq<String>, i: int, policy: DrawPolicy) -> Seq<String> {
    match policy {
        DrawPolicy::WithReplacement => pool,
        DrawPolicy::WithoutReplacement => pool.remove(i),
    }
}

/// The winners that the indices `draws` give: prize by prize, in order, the
/// participant at the drawn index of the current pool.
pub open spec fn drawn(
    pool: Seq<String>,
    prizes: Seq<JsonToken>,
    draws: Seq<u64>,
    policy: DrawPolicy,
) -> Seq<Winner>
    decreases prizes.len(),
{
    if prizes.len() == 0 || pool.len() == 0 || draws.len() == 0 {
        Seq::empty()
    } else {
        let i = draws[0] as int;
        let w = Winner { winner_wallet_account_id: pool[i], prize: prizes[0] };
        seq![w] + drawn(pool_after(pool, i, policy), prizes.drop_first(), draws.drop_first(), policy)
    }
}

/// Valid draws stay valid for the rest of the prizes once the first has been drawn.
proof fn lemma_draws_valid_tail(n: int, k: int, draws: Seq<u64>, policy: DrawPolicy)
    requires
        draws_valid(n, k, draws, policy),
        draws.len() > 0,
    ensures
        n > 0,
        k > 0,
        draws[0] < n,
        draws_valid(
            match policy {
                DrawPolicy::WithReplacement => n,
                DrawPolicy::WithoutReplacement => n - 1,
            },
            k - 1,
            draws.drop_first(),
            policy,
        ),
{
    assert(draws[0] < draw_bound(n, 0, policy));
    let tail = draws.drop_first();
    let n2 = match policy {
        DrawPolicy::WithReplacement => n,
        DrawPolicy::WithoutReplacement => n - 1,
    };
    assert forall|i: int| 0 <= i < tail.len() implies #[trigger] tail[i] < draw_bound(n2, i, policy) by {
        assert(tail[i] == draws[i + 1]);
        assert(draws[i + 1] < draw_bound(n, i + 1, policy));
    }
}

/// Valid draws pair exactly one winner with each drawn prize.
pub proof fn lemma_drawn_len(
    pool: Seq<String>,
    prizes: Seq<JsonToken>,
    draws: Seq<u64>,
    policy: DrawPolicy,
)
    requires
        draws_valid(pool.len() as int, prizes.len() as int, draws, policy),
    ensures
        drawn(pool, prizes, draws, policy).len() == draws.len(),
        drawn(pool, prizes, draws, policy).len() == draw_count(
            pool.len() as int,
            prizes.len() as int,
            policy,
        ),
    decreases prizes.len(),
{
    if draws.len() > 0 {
        lemma_draws_valid_tail(pool.len() as int, prizes.len() as int, draws, policy);
        let i = draws[0] as int;
        lemma_drawn_len(pool_after(pool, i, policy), prizes.drop_first(), draws.drop_first(), policy);
    }
}

/// Every drawn winner comes from the pool, and the `j`-th winner receives the
/// `j`-th prize.
pub proof fn lemma_drawn_from_pool(
    pool: Seq<String>,
    prizes: Seq<JsonToken>,
    draws: Seq<u64>,
    policy: DrawPolicy,
)
    requires
        draws_valid(pool.len() as int, prizes.len() as int, draws, policy),
    ensures
        forall|j: int|
            0 <= j < drawn(pool, prizes, draws, policy).len() ==> {
                &&& pool.contains(#[trigger] drawn(pool, prizes, draws, policy)[j].winner_wallet_account_id)
                &&& drawn(pool, prizes, draws, policy)[j].prize == prizes[j]
            },
    decreases prizes.len(),
{
    if draws.len() > 0 {
        lemma_draws_valid_tail(pool.len() as int, prizes.len() as int, draws, policy);
        let i = draws[0] as int;
        let rest = pool_after(pool, i, policy);
        lemma_drawn_from_pool(rest, prizes.drop_first(), draws.drop_first(), policy);
        lemma_drawn_len(pool, prizes, draws, policy);
        let all = drawn(pool, prizes, draws, policy);
        let tail = drawn(rest, prizes.drop_first(), draws.drop_first(), policy);
        assert forall|j: int| 0 <= j < all.len() implies {
            &&& pool.contains(#[trigger] all[j].winner_wallet_account_id)
            &&& all[j].prize == prizes[j]
        } by {
            if j == 0 {
                assert(all[0].winner_wallet_account_id == pool[i]);
            } else {
                assert(all[j] == tail[j - 1]);
                assert(prizes.drop_first()[j - 1] == prizes[j]);
                let a = tail[j - 1].winner_wallet_account_id;
                assert(rest.contains(a));
                let m = choose|m: int| 0 <= m < rest.len() && rest[m] == a;
                match policy {
                    DrawPolicy::WithReplacement => {
                        assert(pool[m] == a);
                    },
                    DrawPolicy::WithoutReplacement => {
                        if m < i {
                            assert(pool[m] == a);
                        } else {
                            assert(pool[m + 1] == a);
                        }
                    },
                }
            }
        }
    }
}

/// The accounts of `winners`, prize by prize.
pub open spec fn winner_accounts(winners: Seq<Winner>) -> Seq<String> {
    winners.map_values(|w: Winner| w.winner_wallet_account_id)
}

/// No account occurs twice in `accounts`.
pub open spec fn distinct_accounts(accounts: Seq<String>) -> bool {
    forall|i: int, j: int|
        0 <= i < accounts.len() && 0 <= j < accounts.len() && i != j ==> (#[trigger] accounts[i])@
            != (#[trigger] accounts[j])@
}

/// When winners leave the pool, nobody wins twice: a pool of distinct accounts
/// gives distinct winners.
pub proof fn lemma_drawn_distinct_without_replacement(
    pool: Seq<String>,
    prizes: Seq<JsonToken>,
    draws: Seq<u64>,
)
    requires
        distinct_accounts(pool),
        draws_valid(pool.len() as int, prizes.len() as int, draws, DrawPolicy::WithoutReplacement),
    ensures
        distinct_accounts(winner_accounts(drawn(pool, prizes, draws, DrawPolicy::WithoutReplacement))),
    decreases prizes.len(),
{
    let policy = DrawPolicy::WithoutReplacement;
    let all = drawn(pool, prizes, draws, policy);
    if draws.len() > 0 {
        lemma_draws_valid_tail(pool.len() as int, prizes.len() as int, draws, policy);
        let i = draws[0] as int;
        let rest = pool.remove(i);
        assert forall|a: int, b: int|
            0 <= a < rest.len() && 0 <= b < rest.len() && a != b implies (#[trigger] rest[a])@
                != (#[trigger] rest[b])@ by {
            let a0 = if a < i { a } else { a + 1 };
            let b0 = if b < i { b } else { b + 1 };
            assert(rest[a] == pool[a0] && rest[b] == pool[b0]);
        }
        let tail = drawn(rest, prizes.drop_first(), draws.drop_first(), policy);
        lemma_drawn_distinct_without_replacement(rest, prizes.drop_first(), draws.drop_first());
        lemma_drawn_from_pool(rest, prizes.drop_first(), draws.drop_first(), policy);
        lemma_drawn_len(pool, prizes, draws, policy);
        let accs = winner_accounts(all);
        let tail_accs = winner_accounts(tail);
        assert forall|a: int, b: int|
            0 <= a < accs.len() && 0 <= b < accs.len() && a != b implies (#[trigger] accs[a])@
                != (#[trigger] accs[b])@ by {
            assert(all == seq![Winner { winner_wallet_account_id: pool[i], prize: prizes[0] }] + tail);
            if a > 0 && b > 0 {
                assert(accs[a] == tail_accs[a - 1] && accs[b] == tail_accs[b - 1]);
            } else {
                let t = if a == 0 { b } else { a };
                assert(accs[t] == tail[t - 1].winner_wallet_account_id);
                assert(rest.contains(tail[t - 1].winner_wallet_account_id));
                let m = choose|m: int| 0 <= m < rest.len() && rest[m] == tail[t - 1].winner_wallet_account_id;
                let m0 = if m < i { m } else { m + 1 };
                assert(rest[m] == pool[m0]);
                assert(accs[0] == pool[i]);
            }
        }
    }
}

/// Relies on near_rng's `Rng::new`, which reads the first eight bytes of the seed
/// and panics on a shorter one.
pub assume_specification[ Rng::new ](random_vec_seed: &Vec<u8>) -> Rng
    requires
        random_vec_seed@.len() >= 8,
;

/// Relies on near_rng's `Rng::rand_range_u64`, which returns `a` plus a value
/// drawn below `b - a`, and panics when `b <= a`.
pub assume_specification[ Rng::rand_range_u64 ](rng: &mut Rng, a: u64, b: u64) -> (r: u64)
    requires
        a < b,
    ensures
        a <= r < b,
;

/// near_rng's generator, opaque: only what its draws return is stated.
#[verifier::external_type_specification]
#[verifier::external_body]
pub struct ExRng(Rng);

/// Draws the indices for `k` prizes from a pool of `n` participants, all from one
/// generator seeded with `seed`.
pub fn draw_indices(seed: &Vec<u8>, n: usize, k: usize, policy: DrawPolicy) -> (d: Vec<u64>)
    requires
        seed@.len() >= 8,
    ensures
        draws_valid(n as int, k as int, d@, policy),
{
    let count: usize = if n == 0 {
        0
    } else {
        match policy {
            DrawPolicy::WithReplacement => k,
            DrawPolicy::WithoutReplacement => if k <= n { k } else { n },
        }
    };
    let mut rng = Rng::new(seed);
    let mut d: Vec<u64> = Vec::new();
    let mut i: usize = 0;
    while i < count
        invariant
            count == draw_count(n as int, k as int, policy),
            i <= count,
            d@.len() == i,
            forall|j: int| 0 <= j < i ==> #[trigger] d@[j] < draw_bound(n as int, j, policy),
        decreases count - i,
    {
        let bound: usize = match policy {
            DrawPolicy::WithReplacement => n,
            DrawPolicy::WithoutReplacement => n - i,
        };
        let r = rng.rand_range_u64(0, bound as u64);
        d.push(r);
        i = i + 1;
    }
    d
}

/// Pairs winners with prizes for the given indices: the exact result of the draw
/// once the random indices are known.
pub fn pair_winners(
    pool: &Vec<String>,
    prizes: &Vec<JsonToken>,
    draws: &Vec<u64>,
    policy: DrawPolicy,
) -> (w: Vec<Winner>)
    requires
        draws_valid(pool@.len() as int, prizes@.len() as int, draws@, policy),
    ensures
        w@ == drawn(pool@, prizes@, draws@, policy),
{
    let mut left: Vec<String> = Vec::new();
    let mut c: usize = 0;
    while c < pool.len()
        invariant
            c <= pool@.len(),
            left@ == pool@.subrange(0, c as int),
        decreases pool.len() - c,
    {
        left.push(pool[c].clone());
        c = c + 1;
    }
    assert(left@ =~= pool@);
    let ghost n = pool@.len() as int;
    let mut winners: Vec<Winner> = Vec::new();
    let mut i: usize = 0;
    assert(prizes@.subrange(0, prizes@.len() as int) =~= prizes@);
    assert(draws@.subrange(0, draws@.len() as int) =~= draws@);
    assert(winners@ + drawn(pool@, prizes@, draws@, policy) =~= drawn(pool@, prizes@, draws@, policy));
    while i < draws.len()
        invariant
            draws_valid(n, prizes@.len() as int, draws@, policy),
            n == pool@.len(),
            i <= draws@.len(),
            left@.len() == draw_bound(n, i as int, policy),
            winners@ + drawn(
                left@,
                prizes@.subrange(i as int, prizes@.len() as int),
                draws@.subrange(i as int, draws@.len() as int),
                policy,
            ) == drawn(pool@, prizes@, draws@, policy),
        decreases draws.len() - i,
    {
        let ghost rest_prizes = prizes@.subrange(i as int, prizes@.len() as int);
        let ghost rest_draws = draws@.subrange(i as int, draws@.len() as int);
        assert(draws@[i as int] < draw_bound(n, i as int, policy));
        assert(i < prizes@.len()) by {
            assert(draws@.len() == draw_count(n, prizes@.len() as int, policy));
        }
        let pick = draws[i];
        assert(pick < left.len());
        let idx = pick as usize;
        let w = Winner { winner_wallet_account_id: left[idx].clone(), prize: prizes[i].duplicate() };
        proof {
            assert(rest_prizes.drop_first() =~= prizes@.subrange(i + 1, prizes@.len() as int));
            assert(rest_draws.drop_first() =~= draws@.subrange(i + 1, draws@.len() as int));
            assert(rest_draws[0] == draws@[i as int]);
            assert(rest_prizes[0] == prizes@[i as int]);
        }
        let ghost before = winners@;
        let ghost left_before = left@;
        winners.push(w);
        match policy {
            DrawPolicy::WithReplacement => {},
            DrawPolicy::WithoutReplacement => {
                left.remove(idx);
            },
        }
        proof {
            assert(left@ == pool_after(left_before, idx as int, policy));
            assert(winners@ == before + seq![w]);
            let later = drawn(left@, rest_prizes.drop_first(), rest_draws.drop_first(), policy);
            let d0 = rest_draws[0] as int;
            assert(d0 == idx as int);
            assert(w == Winner { winner_wallet_account_id: left_before[d0], prize: rest_prizes[0] });
            assert(rest_prizes.len() > 0 && left_before.len() > 0 && rest_draws.len() > 0);
            assert(left@ == pool_after(left_before, d0, policy));
            assert(drawn(left_before, rest_prizes, rest_draws, policy) == seq![w] + later);
            assert(before + seq![w] + later =~= before + (seq![w] + later));
        }
        i = i + 1;
    }
    assert(winners@ + drawn(
        left@,
        prizes@.subrange(i as int, prizes@.len() as int),
        draws@.subrange(i as int, draws@.len() as int),
        policy,
    ) =~= winners@);
    winners
}

} // verus!
