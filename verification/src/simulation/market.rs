//! A store's market: its customers, and what they do on a simulated day.

use vstd::prelude::*;
use rand::rngs::StdRng;
use crate::calendar::minute_stamp;
use crate::ids::is_uuid_v4_text;
use crate::models::customer::{
    buy_permille, order_items_shape, order_minute, persona_weight_list, persona_weights, random_name,
    tweet_permille, weekend, summer, Customer, PersonaType,
};
use crate::models::item::{
    all_menu_beverages, all_menu_jaffles, is_beverage_at, is_jaffle_at, is_menu_beverage, is_menu_jaffle, Item,
};
use crate::models::order::{
    clock_minute, items_cents, prices_nonnegative, tax_cents, Order, MAX_ORDER_CENTS,
};
use crate::models::store::Store;
use crate::models::tweet::{item_names, tweet_text, Tweet};
use crate::random::{fisher_yates_shuffle, random_in_range};
use crate::seqs::{lemma_forall_same_multiset, lemma_map_values_same_multiset};
use crate::simulation::time::Day;

verus! {

broadcast use {vstd::seq_lib::group_to_multiset_ensures, vstd::multiset::group_multiset_axioms};

/// The share of a market, in percent, that has each persona.
pub open spec fn persona_percent(p: PersonaType) -> int {
    match p {
        PersonaType::Commuter => 25,
        PersonaType::RemoteWorker => 25,
        PersonaType::BrunchCrowd => 10,
        PersonaType::Student => 20,
        PersonaType::Casuals => 10,
        PersonaType::HealthNut => 10,
    }
}

/// `percent` of `n` customers, rounded to the nearest whole customer,
/// halves up; none of a market that is not positive.
pub open spec fn persona_count(percent: int, n: int) -> int {
    if n <= 0 {
        0
    } else {
        (percent * n + 50) / 100
    }
}

/// The number of customers of a market of `n`: the sum of its persona counts.
pub open spec fn market_size(n: int) -> int {
    persona_count(25, n) + persona_count(25, n) + persona_count(10, n) + persona_count(20, n)
        + persona_count(10, n) + persona_count(10, n)
}

/// The personas of the customers, in order.
pub open spec fn personas(s: Seq<Customer>) -> Seq<PersonaType> {
    s.map_values(|c: Customer| c.persona)
}

/// How many of the customers have the persona.
pub open spec fn persona_tally(s: Seq<Customer>, p: PersonaType) -> nat {
    personas(s).to_multiset().count(p)
}

/// The sum of the counts of the weights, among the first `k`, that are
/// for the persona.
pub open spec fn weighted_count(w: Seq<(PersonaType, u32)>, k: int, p: PersonaType, n: int) -> int
    decreases k,
{
    if k <= 0 {
        0
    } else {
        weighted_count(w, k - 1, p, n) + if w[k - 1].0 == p {
            persona_count(w[k - 1].1 as int, n)
        } else {
            0
        }
    }
}

/// The customer's name is one of `names`.
pub open spec fn named_from(c: Customer, names: Seq<String>) -> bool {
    exists|j: int| 0 <= j < names.len() && c.name@ == #[trigger] names[j]@
}

/// A customer as a market makes them.
pub open spec fn customer_ok(c: Customer, store_id: Seq<char>) -> bool {
    &&& is_uuid_v4_text(c.id@)
    &&& 1 <= c.favorite_number <= 100
    &&& 1 <= c.fan_level <= 5
    &&& c.store_id@ == store_id
}

/// The number of customers with each persona in a market of `num_customers`.
pub fn persona_count_of(percent: u32, num_customers: i64) -> (r: u64)
    requires
        percent <= 100,
    ensures
        r == persona_count(percent as int, num_customers as int),
{
    if num_customers <= 0 {
        0
    } else {
        proof {
            assert(0 <= percent * num_customers <= 100 * num_customers) by (nonlinear_arith)
                requires
                    0 <= percent <= 100,
                    num_customers > 0,
            ;
        }
        ((percent as i128 * num_customers as i128 + 50) / 100) as u64
    }
}

/// The number of customers a market of `num_customers` has.
pub fn customer_count(num_customers: i64) -> (r: u64)
    ensures
        r == market_size(num_customers as int),
{
    let a = persona_count_of(25, num_customers);
    let b = persona_count_of(10, num_customers);
    let c = persona_count_of(20, num_customers);
    proof {
        assert(a <= num_customers || num_customers <= 0) by (nonlinear_arith)
            requires
                a == persona_count(25, num_customers as int),
        ;
    }
    a + a + b + c + b + b
}

pub struct Market {
    pub store: Store,
    pub customers: Vec<Customer>,
    pub days_to_penetration: i64,
}

/// What a market's day gives for one customer who ordered: the order, the
/// tweet if they posted one, the customer and their place in the market.
#[derive(Debug)]
pub struct DayResult {
    pub order: Option<Order>,
    pub tweet: Option<Tweet>,
    pub customer: Customer,
    pub customer_index: usize,
}

/// What the market needs to know of a day beyond the calendar: the store's
/// pull that day in millionths, how many of the customers are active, and
/// for each active customer a standard normal draw, scaled by a million,
/// for the time of their order.
pub struct MarketDay {
    pub pull_ppm: u32,
    pub active_count: usize,
    pub order_normals: Vec<i64>,
}

proof fn lemma_weighted_counts(n: int)
    ensures
        forall|p: PersonaType|
            #[trigger] weighted_count(
                persona_weight_list(),
                6,
                p,
                n,
            ) == persona_count(persona_percent(p), n),
{
    reveal_with_fuel(weighted_count, 7);
}

proof fn lemma_shape_nonempty(persona: PersonaType, favorite: int, s: Seq<Item>)
    requires
        order_items_shape(persona, favorite, s),
        persona != PersonaType::Casuals,
        favorite >= 0,
    ensures
        s.len() > 0,
{
    if persona == PersonaType::RemoteWorker {
        let b = choose|b: int|
            1 <= b <= 2 && b <= s.len() <= b + 1 && all_menu_beverages(#[trigger] s.take(b))
                && all_menu_jaffles(s.skip(b));
    }
}

impl Market {
    /// Every customer is one the market made for its store.
    pub open spec fn wf(&self) -> bool {
        forall|i: int|
            0 <= i < self.customers@.len() ==> #[trigger] customer_ok(
                self.customers@[i],
                self.store.id@,
            )
    }

    /// A market for `store` with `num_customers` customers split among the
    /// personas by their weights, named from `names`, in random order.
    pub fn new(store: Store, num_customers: i64, names: &Vec<String>, rng: &mut StdRng) -> (r: Market)
        requires
            names.len() > 0,
            market_size(num_customers as int) <= usize::MAX,
        ensures
            r.store == store,
            r.days_to_penetration == 365,
            r.wf(),
            r.customers@.len() == market_size(num_customers as int),
            forall|p: PersonaType|
                #[trigger] persona_tally(r.customers@, p) == persona_count(
                    persona_percent(p),
                    num_customers as int,
                ),
            forall|i: int| 0 <= i < r.customers@.len() ==> #[trigger] named_from(r.customers@[i], names@),
    {
        let weights = persona_weights();
        let ghost w = weights@;
        let ghost n = num_customers as int;
        let mut customers: Vec<Customer> = Vec::new();
        for k in 0..weights.len()
            invariant
                weights@ == w,
                w == persona_weight_list(),
                names.len() > 0,
                market_size(n) <= usize::MAX,
                n == num_customers,
                forall|p: PersonaType|
                    #[trigger] persona_tally(customers@, p) == weighted_count(w, k as int, p, n),
                customers@.len() == weighted_total(w, k as int, n),
                forall|i: int|
                    0 <= i < customers@.len() ==> #[trigger] customer_ok(customers@[i], store.id@),
                forall|i: int| 0 <= i < customers@.len() ==> #[trigger] named_from(customers@[i], names@),
        {
            let (persona, weight) = weights[k];
            proof {
                lemma_weighted_total_bound(w, k as int + 1, n);
            }
            let count = persona_count_of(weight, num_customers) as usize;
            let ghost before = customers@;
            add_customers(&mut customers, persona, count, &store.id, names, rng);
            proof {
                assert forall|i: int| 0 <= i < customers@.len() implies #[trigger] named_from(
                    customers@[i],
                    names@,
                ) by {
                    if i < before.len() {
                        assert(customers@[i] == before[i]);
                        assert(named_from(before[i], names@));
                    }
                }
                assert forall|i: int| 0 <= i < customers@.len() implies #[trigger] customer_ok(
                    customers@[i],
                    store.id@,
                ) by {
                    if i < before.len() {
                        assert(customers@[i] == before[i]);
                        assert(customer_ok(before[i], store.id@));
                    }
                }
            }
        }
        proof {
            lemma_weighted_counts(n);
            reveal_with_fuel(weighted_total, 7);
        }
        let ghost unshuffled = customers@;
        fisher_yates_shuffle(&mut customers, rng);
        proof {
            lemma_map_values_same_multiset(customers@, unshuffled, |c: Customer| c.persona);
            assert(personas(customers@) =~= customers@.map_values(|c: Customer| c.persona));
            assert(personas(unshuffled) =~= unshuffled.map_values(|c: Customer| c.persona));
            assert(personas(customers@).to_multiset() == personas(unshuffled).to_multiset());
            assert forall|p: PersonaType| #[trigger]
                persona_tally(customers@, p) == persona_count(persona_percent(p), n) by {
                assert(persona_tally(unshuffled, p) == weighted_count(w, 6, p, n));
            }
            lemma_forall_same_multiset(
                customers@,
                unshuffled,
                |c: Customer| customer_ok(c, store.id@),
            );
            lemma_forall_same_multiset(customers@, unshuffled, |c: Customer| named_from(c, names@));
            assert forall|i: int| 0 <= i < customers@.len() implies #[trigger] customer_ok(
                customers@[i],
                store.id@,
            ) by {
                assert((|c: Customer| customer_ok(c, store.id@))(customers@[i]));
            }
            assert forall|i: int| 0 <= i < customers@.len() implies #[trigger] named_from(
                customers@[i],
                names@,
            ) by {
                assert((|c: Customer| named_from(c, names@))(customers@[i]));
            }
        }
        Market { store, customers, days_to_penetration: 365 }
    }
}

/// Appends `count` new customers of a persona at a store.
fn add_customers(
    customers: &mut Vec<Customer>,
    persona: PersonaType,
    count: usize,
    store_id: &String,
    names: &Vec<String>,
    rng: &mut StdRng,
)
    requires
        names.len() > 0,
        old(customers)@.len() + count <= usize::MAX,
    ensures
        final(customers)@.len() == old(customers)@.len() + count,
        forall|p: PersonaType|
            #[trigger] persona_tally(final(customers)@, p) == persona_tally(old(customers)@, p) + if p
                == persona {
                count as int
            } else {
                0
            },
        forall|i: int|
            0 <= i < old(customers)@.len() ==> #[trigger] final(customers)@[i] == old(customers)@[i],
        forall|i: int|
            old(customers)@.len() <= i < final(customers)@.len() ==> #[trigger] customer_ok(
                final(customers)@[i],
                store_id@,
            ),
        forall|i: int|
            old(customers)@.len() <= i < final(customers)@.len() ==> #[trigger] named_from(
                final(customers)@[i],
                names@,
            ),
{
    let ghost start = customers@;
    for j in 0..count
        invariant
            names.len() > 0,
            customers@.len() == start.len() + j,
            start.len() + count <= usize::MAX,
            forall|i: int| 0 <= i < start.len() ==> #[trigger] customers@[i] == start[i],
            forall|p: PersonaType|
                #[trigger] persona_tally(customers@, p) == persona_tally(start, p) + if p == persona {
                    j as int
                } else {
                    0
                },
            forall|i: int|
                start.len() <= i < customers@.len() ==> #[trigger] customer_ok(customers@[i], store_id@),
            forall|i: int|
                start.len() <= i < customers@.len() ==> #[trigger] named_from(customers@[i], names@),
    {
        let name = random_name(names, rng);
        let customer = Customer::new(persona, store_id.as_str(), name, rng);
        let ghost before = customers@;
        customers.push(customer);
        proof {
            assert(personas(customers@) =~= personas(before).push(persona));
            assert(personas(customers@).to_multiset() == personas(before).to_multiset().insert(persona));
            assert forall|p: PersonaType| #[trigger]
                persona_tally(customers@, p) == persona_tally(start, p) + if p == persona {
                    j as int + 1
                } else {
                    0
                } by {
                assert(persona_tally(before, p) == persona_tally(start, p) + if p == persona {
                    j as int
                } else {
                    0
                });
                assert(personas(before).to_multiset().insert(persona).count(p) == personas(
                    before,
                ).to_multiset().count(p) + if p == persona {
                    1int
                } else {
                    0
                });
            }
            let jj = choose|jj: int| 0 <= jj < names@.len() && name@ == #[trigger] names@[jj]@;
            assert(named_from(customer, names@));
            assert(customers@[customers@.len() - 1] == customer);
        }
    }
}

/// An order placed by customer `c` at `store` on `day`, at the time the
/// normal draw gives.
pub open spec fn order_placed(o: Order, c: Customer, store: Store, day: Day, normal: int) -> bool {
    &&& is_uuid_v4_text(o.id@)
    &&& o.customer_id@ == c.id@
    &&& o.store_id@ == store.id@
    &&& o.ordered_at == minute_stamp(
        day.spec_date(),
        clock_minute(order_minute(c.persona, c.favorite_number as int, weekend(day), normal)),
    )
    &&& o.items@.len() > 0
    &&& order_items_shape(c.persona, c.favorite_number as int, o.items@)
    &&& o.subtotal_cents == items_cents(o.items@)
    &&& o.tax_paid_cents == tax_cents(store.tax_rate_ppm as int, o.subtotal_cents as int)
    &&& o.order_total_cents == o.subtotal_cents + o.tax_paid_cents
}

/// A tweet by customer `c` about order `o`.
pub open spec fn tweet_about(t: Tweet, c: Customer, o: Order) -> bool {
    &&& is_uuid_v4_text(t.id@)
    &&& t.user_id@ == c.id@
    &&& o.ordered_at <= t.tweeted_at <= o.ordered_at + 20
    &&& t.content@ == tweet_text(item_names(o.items@), c.fan_level as int)
}

impl Market {
    /// A result of a day of this market: an active customer who could buy
    /// that day, their order, and maybe a tweet about it.
    pub open spec fn day_result_ok(&self, day: Day, input: MarketDay, res: DayResult) -> bool {
        let i = res.customer_index as int;
        let c = self.customers@[i];
        &&& i < input.active_count
        &&& i < self.customers@.len()
        &&& res.customer == c
        &&& 0 < input.pull_ppm * buy_permille(
            c.persona,
            c.favorite_number as int,
            weekend(day),
            summer(day),
        )
        &&& res.order matches Some(o) && order_placed(
            o,
            c,
            self.store,
            day,
            input.order_normals@[i] as int,
        )
        &&& res.tweet matches Some(t) ==> tweet_about(t, c, res.order->0)
    }

    /// Customer `i` of the market is active on a day the store is open, their
    /// persona always orders something, and their chance to buy, the store's
    /// pull times their persona's, is whole: they are sure to buy.
    pub open spec fn surely_buys(&self, day: Day, input: MarketDay, i: int) -> bool {
        let c = self.customers@[i];
        &&& 0 <= i < input.active_count
        &&& i < self.customers@.len()
        &&& day.spec_date_index() >= self.store.opened_day
        &&& c.persona != PersonaType::Casuals
        &&& input.pull_ppm * buy_permille(c.persona, c.favorite_number as int, weekend(day), summer(day))
            * 1000 >= 1_000_000_000_000
    }

    /// How many of the customers are active on a day with `input`: the
    /// active count, but no more than there are customers.
    pub open spec fn active(&self, input: MarketDay) -> int {
        if input.active_count < self.customers@.len() {
            input.active_count as int
        } else {
            self.customers@.len() as int
        }
    }

    /// With a uniform draw of `draw` out of a million, customer `i` buys:
    /// their chance to buy, the square root of the store's pull (in
    /// millionths) times their persona's chance (in thousandths), is above
    /// the draw.
    pub open spec fn buys_with(&self, day: Day, input: MarketDay, i: int, draw: int) -> bool {
        let c = self.customers@[i];
        input.pull_ppm * buy_permille(c.persona, c.favorite_number as int, weekend(day), summer(day)) * 1000
            > draw * draw
    }

    /// The results `r` of a day on which the store is open, for the buy
    /// draws `buy` (out of a million) and the tweet draws `tweet` (out of a
    /// thousand) of the active customers: each result is a customer whose
    /// chance to buy beats their buy draw, with their order, and a tweet
    /// exactly when the persona's chance to tweet beats their tweet draw;
    /// the results go by customer; and every active customer whose chance
    /// beats the draw has a result, but a casual customer, whose items may
    /// come to nothing.
    pub open spec fn day_outcome(
        &self,
        day: Day,
        input: MarketDay,
        buy: Seq<u32>,
        tweet: Seq<u32>,
        r: Seq<DayResult>,
    ) -> bool {
        &&& forall|k: int| 0 <= k < r.len() ==> #[trigger] self.day_result_ok(day, input, r[k])
        &&& forall|k: int|
            #![trigger r[k]]
            0 <= k < r.len() ==> {
                let i = r[k].customer_index as int;
                &&& self.buys_with(day, input, i, buy[i] as int)
                &&& (r[k].tweet is Some <==> tweet[i] < tweet_permille(r[k].customer.persona))
            }
        &&& forall|k1: int, k2: int|
            0 <= k1 < k2 < r.len() ==> r[k1].customer_index < r[k2].customer_index
        &&& forall|i: int|
            0 <= i < self.active(input) && #[trigger] self.buys_with(day, input, i, buy[i] as int)
                && self.customers@[i].persona != PersonaType::Casuals ==> exists|k: int|
                0 <= k < r.len() && r[k].customer_index == i
    }

    /// The results `r` are the outcome of a day for some buy draws below a
    /// million and tweet draws below a thousand, one of each for every
    /// active customer.
    pub open spec fn drawn_outcome(&self, day: Day, input: MarketDay, r: Seq<DayResult>) -> bool {
        exists|buy: Seq<u32>, tweet: Seq<u32>|
            #![trigger self.day_outcome(day, input, buy, tweet, r)]
            buy.len() == self.active(input) && tweet.len() == self.active(input) && (forall|i: int|
                0 <= i < buy.len() ==> #[trigger] buy[i] < 1_000_000 && tweet[i] < 1000)
                && self.day_outcome(day, input, buy, tweet, r)
    }

    /// One day of the market: each active customer, in order, buys with the
    /// chance that the store's pull and their persona give; a buyer orders
    /// items their persona takes at a time their persona keeps, and may
    /// tweet about it. A store that has not opened has no results. The
    /// draws are uniform, below a million for buying and below a thousand
    /// for tweeting, one of each for every active customer; what is done
    /// with them is `sim_day_with_draws`.
    pub fn sim_day(&self, day: &Day, input: &MarketDay, rng: &mut StdRng) -> (r: Vec<DayResult>)
        requires
            self.wf(),
            input.order_normals.len() >= input.active_count,
        ensures
            day.spec_date_index() < self.store.opened_day ==> r@.len() == 0 && *final(rng) == *old(rng),
            forall|k: int| 0 <= k < r@.len() ==> #[trigger] self.day_result_ok(*day, *input, r@[k]),
            forall|k1: int, k2: int|
                0 <= k1 < k2 < r@.len() ==> r@[k1].customer_index < r@[k2].customer_index,
            forall|i: int|
                #[trigger] self.surely_buys(*day, *input, i) ==> exists|k: int|
                    0 <= k < r@.len() && r@[k].customer_index == i,
            day.spec_date_index() >= self.store.opened_day ==> self.drawn_outcome(*day, *input, r@),
    {
        if !self.store.is_open(day) {
            return Vec::new();
        }
        let n = if input.active_count < self.customers.len() {
            input.active_count
        } else {
            self.customers.len()
        };
        let mut buy: Vec<u32> = Vec::new();
        let mut tweet: Vec<u32> = Vec::new();
        for i in 0..n
            invariant
                buy@.len() == i,
                tweet@.len() == i,
                forall|j: int| 0 <= j < i ==> #[trigger] buy@[j] < 1_000_000 && tweet@[j] < 1000,
        {
            buy.push(random_in_range(rng, 0, 1_000_000) as u32);
            tweet.push(random_in_range(rng, 0, 1000) as u32);
        }
        let r = self.sim_day_with_draws(day, input, &buy, &tweet, rng);
        proof {
            assert forall|i: int| #[trigger] self.surely_buys(*day, *input, i) implies exists|k: int|
                0 <= k < r@.len() && r@[k].customer_index == i by {
                let d = buy@[i] as int;
                assert(d * d < 1_000_000_000_000) by (nonlinear_arith)
                    requires
                        0 <= d < 1_000_000,
                ;
                assert(self.buys_with(*day, *input, i, buy@[i] as int));
            }
            assert(buy@.len() == self.active(*input) && tweet@.len() == self.active(*input));
            assert(self.day_outcome(*day, *input, buy@, tweet@, r@));
            assert(self.drawn_outcome(*day, *input, r@));
            assert(forall|i: int| 0 <= i < buy@.len() ==> #[trigger] buy@[i] < 1_000_000 && tweet@[i] < 1000);
        }
        r
    }

    /// One day of the market with the draws given: customer `i`, in order
    /// among the active ones, buys when their chance to buy beats `buy[i]`
    /// out of a million; a buyer orders items their persona takes at a time
    /// their persona keeps, and tweets about it when their persona's chance
    /// to tweet beats `tweet[i]` out of a thousand. The items, the ids and
    /// the tweet's delay are drawn from `rng`.
    pub fn sim_day_with_draws(
        &self,
        day: &Day,
        input: &MarketDay,
        buy: &Vec<u32>,
        tweet: &Vec<u32>,
        rng: &mut StdRng,
    ) -> (r: Vec<DayResult>)
        requires
            self.wf(),
            input.order_normals.len() >= input.active_count,
            buy.len() >= self.active(*input),
            tweet.len() >= self.active(*input),
        ensures
            day.spec_date_index() < self.store.opened_day ==> r@.len() == 0 && *final(rng) == *old(rng),
            day.spec_date_index() >= self.store.opened_day ==> self.day_outcome(*day, *input, buy@, tweet@, r@),
            forall|k: int| 0 <= k < r@.len() ==> #[trigger] self.day_result_ok(*day, *input, r@[k]),
            forall|k1: int, k2: int|
                0 <= k1 < k2 < r@.len() ==> r@[k1].customer_index < r@[k2].customer_index,
    {
        let mut results: Vec<DayResult> = Vec::new();
        if !self.store.is_open(day) {
            return results;
        }
        let n = if input.active_count < self.customers.len() {
            input.active_count
        } else {
            self.customers.len()
        };
        for i in 0..n
            invariant
                self.wf(),
                n == self.active(*input),
                n <= input.active_count,
                n <= self.customers@.len(),
                buy@.len() >= n,
                tweet@.len() >= n,
                input.order_normals.len() >= input.active_count,
                forall|k: int| 0 <= k < results@.len() ==> #[trigger] self.day_result_ok(*day, *input, results@[k]),
                forall|k: int|
                    #![trigger results@[k]]
                    0 <= k < results@.len() ==> {
                        let c = results@[k].customer_index as int;
                        &&& c < i
                        &&& self.buys_with(*day, *input, c, buy@[c] as int)
                        &&& (results@[k].tweet is Some <==> tweet@[c] < tweet_permille(results@[k].customer.persona))
                    },
                forall|k1: int, k2: int|
                    0 <= k1 < k2 < results@.len() ==> results@[k1].customer_index
                        < results@[k2].customer_index,
                day.spec_date_index() >= self.store.opened_day,
                forall|j: int|
                    0 <= j < i && #[trigger] self.buys_with(*day, *input, j, buy@[j] as int)
                        && self.customers@[j].persona != PersonaType::Casuals ==> exists|k: int|
                        0 <= k < results@.len() && results@[k].customer_index == j,
        {
            let customer = &self.customers[i];
            assert(customer_ok(self.customers@[i as int], self.store.id@));
            let p_persona = customer.p_buy_persona(day);
            let draw = buy[i];
            proof {
                assert(0 <= p_persona <= 900);
                assert(0 <= input.pull_ppm * p_persona <= 4_294_967_295 * 900) by (nonlinear_arith)
                    requires
                        0 <= p_persona <= 900,
                        0 <= input.pull_ppm <= 4_294_967_295,
                ;
                assert(0 <= draw * draw <= 4_294_967_295 * 4_294_967_295) by (nonlinear_arith)
                    requires
                        0 <= draw <= 4_294_967_295,
                ;
            }
            let ghost results_before = results@;
            if (input.pull_ppm as i128) * (p_persona as i128) * 1000 > (draw as i128) * (draw as i128) {
                proof {
                    assert(0 < input.pull_ppm * p_persona) by (nonlinear_arith)
                        requires
                            input.pull_ppm * p_persona * 1000 > draw * draw,
                    ;
                    assert(self.buys_with(*day, *input, i as int, buy@[i as int] as int));
                }
                let items = customer.get_order_items(day, rng);
                proof {
                    if customer.persona != PersonaType::Casuals {
                        lemma_shape_nonempty(customer.persona, customer.favorite_number as int, items@);
                    }
                }
                if items.len() > 0 {
                    proof {
                        lemma_shape_prices(customer.persona, customer.favorite_number as int, items@);
                        crate::models::order::lemma_nonnegative_sums_fit(items@);
                    }
                    let minute = customer.get_order_minute(day, input.order_normals[i]);
                    let order = Order::new(
                        customer.id.as_str(),
                        self.store.id.as_str(),
                        day.date(),
                        minute,
                        items,
                        self.store.tax_rate_ppm,
                    );
                    let p_tweet = customer.p_tweet_persona();
                    let tweet_made = if tweet[i] < p_tweet {
                        Some(
                            Tweet::new(
                                customer.id.as_str(),
                                order.ordered_at,
                                &order.items,
                                customer.fan_level,
                                rng,
                            ),
                        )
                    } else {
                        None
                    };
                    let result = DayResult {
                        order: Some(order),
                        tweet: tweet_made,
                        customer: customer.clone(),
                        customer_index: i,
                    };
                    assert(self.day_result_ok(*day, *input, result));
                    results.push(result);
                    assert(results@[results@.len() - 1].customer_index == i);
                }
            }
            proof {
                assert forall|j: int|
                    0 <= j < i + 1 && #[trigger] self.buys_with(*day, *input, j, buy@[j] as int)
                        && self.customers@[j].persona != PersonaType::Casuals implies exists|k: int|
                        0 <= k < results@.len() && results@[k].customer_index == j by {
                    if j < i {
                        let k = choose|k: int|
                            0 <= k < results_before.len() && results_before[k].customer_index == j;
                        assert(results@[k] == results_before[k]);
                    } else {
                        assert(results@.len() > results_before.len());
                        assert(results@[results@.len() - 1].customer_index == j);
                    }
                }
            }
        }
        results
    }
}

/// Every item is on the menu, so costs from 0 to 1400 cents.
pub open spec fn prices_in_menu_range(s: Seq<Item>) -> bool {
    forall|k: int| 0 <= k < s.len() ==> 0 <= #[trigger] s[k].price_cents <= 1400
}

proof fn lemma_menu_item_price(x: Item)
    requires
        is_menu_beverage(x) || is_menu_jaffle(x),
    ensures
        0 <= x.price_cents <= 1400,
{
    if is_menu_beverage(x) {
        let i = choose|i: int| 0 <= i < 5 && #[trigger] is_beverage_at(i, x);
    } else {
        let i = choose|i: int| 0 <= i < 5 && #[trigger] is_jaffle_at(i, x);
    }
}

proof fn lemma_split_prices(s: Seq<Item>, b: int, beverages_first: bool)
    requires
        0 <= b <= s.len(),
        beverages_first ==> crate::models::item::all_menu_beverages(s.take(b))
            && crate::models::item::all_menu_jaffles(s.skip(b)),
        !beverages_first ==> crate::models::item::all_menu_jaffles(s.take(b))
            && crate::models::item::all_menu_beverages(s.skip(b)),
    ensures
        prices_in_menu_range(s),
{
    assert forall|k: int| 0 <= k < s.len() implies 0 <= #[trigger] s[k].price_cents <= 1400 by {
        if k < b {
            assert(s.take(b)[k] == s[k]);
            lemma_menu_item_price(s.take(b)[k]);
        } else {
            assert(s.skip(b)[k - b] == s[k]);
            lemma_menu_item_price(s.skip(b)[k - b]);
        }
    }
}

proof fn lemma_items_cents_bound(s: Seq<Item>)
    requires
        prices_in_menu_range(s),
    ensures
        0 <= items_cents(s) <= 1400 * s.len(),
    decreases s.len(),
{
    if s.len() > 0 {
        lemma_items_cents_bound(s.drop_last());
    }
}

/// The items a persona orders cost what an order takes.
proof fn lemma_shape_prices(persona: PersonaType, favorite: int, s: Seq<Item>)
    requires
        order_items_shape(persona, favorite, s),
        0 <= favorite <= 100,
    ensures
        prices_nonnegative(s),
        items_cents(s) <= MAX_ORDER_CENTS,
{
    match persona {
        PersonaType::Commuter | PersonaType::HealthNut => {
            assert(s.take(1) =~= s);
            assert(s.skip(1).len() == 0);
            lemma_split_prices(s, 1, true);
        },
        PersonaType::RemoteWorker => {
            let b = choose|b: int|
                1 <= b <= 2 && b <= s.len() <= b + 1 && crate::models::item::all_menu_beverages(
                    #[trigger] s.take(b),
                ) && crate::models::item::all_menu_jaffles(s.skip(b));
            lemma_split_prices(s, b, true);
        },
        PersonaType::BrunchCrowd => {
            lemma_split_prices(s, 1 + favorite / 20, false);
        },
        PersonaType::Student => {
            lemma_split_prices(s, 1, true);
        },
        PersonaType::Casuals => {
            let b = choose|b: int|
                0 <= b <= 3 && b <= s.len() <= b + 3 && crate::models::item::all_menu_beverages(
                    #[trigger] s.take(b),
                ) && crate::models::item::all_menu_jaffles(s.skip(b));
            lemma_split_prices(s, b, true);
        },
    }
    lemma_items_cents_bound(s);
    assert(s.len() <= 12);
}

/// The sum of the counts of the first `k` weights.
pub open spec fn weighted_total(w: Seq<(PersonaType, u32)>, k: int, n: int) -> int
    decreases k,
{
    if k <= 0 {
        0
    } else {
        weighted_total(w, k - 1, n) + persona_count(w[k - 1].1 as int, n)
    }
}

proof fn lemma_weighted_total_bound(w: Seq<(PersonaType, u32)>, k: int, n: int)
    requires
        0 <= k <= 6,
        w == persona_weight_list(),
    ensures
        0 <= weighted_total(w, k, n) <= market_size(n),
        k >= 1 ==> weighted_total(w, k - 1, n) + persona_count(w[k - 1].1 as int, n)
            == weighted_total(w, k, n),
{
    reveal_with_fuel(weighted_total, 7);
    assert(persona_count(25, n) >= 0 && persona_count(10, n) >= 0 && persona_count(20, n) >= 0);
}

} // verus!
