//! The whole simulation: every market on every day, then the orders, tweets
//! and customers cut down to a plausible dataset.

use vstd::prelude::*;
use rand::rngs::StdRng;
use crate::calendar::{calendar_of, day_in_range, day_number_from_ymd, stamp_day, valid_ymd, FIRST_DAY, LAST_DAY};
use crate::calendar::weekday_of;
use crate::ids::is_uuid_v4_text;
use crate::models::customer::order_minute;
use crate::models::customer::{buy_permille, opening_hours, order_items_shape, Customer, PersonaType};
use crate::models::item::{all_menu_beverages, all_menu_jaffles, is_menu_beverage, is_menu_jaffle, Item};
use crate::models::order::{tax_cents, Order};
use crate::models::store::{default_stores, is_default_store_list, Store};
use crate::models::tweet::Tweet;
use crate::simulation::market::{
    customer_count, customer_ok, market_size, persona_count, persona_percent, persona_tally, DayResult,
    Market, MarketDay,
};
use crate::simulation::time::{season_of, Day, Season};
use crate::random::{fisher_yates_shuffle, random_in_range};

verus! {

broadcast use {vstd::seq_lib::group_to_multiset_ensures, vstd::multiset::group_multiset_axioms};

pub struct SimConfig {
    /// The first simulated day, as a day number.
    pub start_date: i32,
    /// The day after the last simulated day, as a day number.
    pub end_date: i32,
    pub num_orders: Option<u64>,
    pub stores: Vec<Store>,
    pub prefix: String,
}

impl Default for SimConfig {
    /// A year from September 1, 2023, with the six default stores, no cap
    /// on the orders and the prefix "raw".
    fn default() -> (r: Self)
        ensures
            calendar_of(r.start_date as int) == (2023int, 9int, 1int, calendar_of(
                r.start_date as int,
            ).3),
            calendar_of(r.end_date as int) == (2024int, 9int, 1int, calendar_of(
                r.end_date as int,
            ).3),
            day_in_range(r.start_date as int),
            day_in_range(r.end_date as int),
            r.num_orders is None,
            is_default_store_list(r.stores@),
            r.prefix@ == "raw"@,
    {
        assert(valid_ymd(2023, 9, 1));
        assert(valid_ymd(2024, 9, 1));
        let start_date = day_number_from_ymd(2023, 9, 1).unwrap();
        let end_date = day_number_from_ymd(2024, 9, 1).unwrap();
        SimConfig {
            start_date,
            end_date,
            num_orders: None,
            stores: default_stores(),
            prefix: String::from_str("raw"),
        }
    }
}

pub struct SimResult {
    pub orders: Vec<Order>,
    pub tweets: Vec<Tweet>,
    pub customers: Vec<Customer>,
    pub stores: Vec<Store>,
    pub total_days: i64,
}

/// The sum of the market sizes of the first `k` stores.
pub open spec fn total_market_size(stores: Seq<Store>, k: int) -> int
    decreases k,
{
    if k <= 0 {
        0
    } else {
        total_market_size(stores, k - 1) + market_size(stores[k - 1].tam as int)
    }
}

/// The number of simulated days.
pub open spec fn sim_days(config: SimConfig) -> int {
    config.end_date - config.start_date
}

/// The inputs hold, for each simulated day and each store, what its market
/// needs to know of the day.
pub open spec fn inputs_fit(config: SimConfig, inputs: Seq<Vec<MarketDay>>) -> bool {
    &&& inputs.len() >= sim_days(config)
    &&& forall|d: int|
        0 <= d < sim_days(config) ==> (#[trigger] inputs[d])@.len() == config.stores@.len()
    &&& forall|d: int, m: int|
        0 <= d < sim_days(config) && 0 <= m < config.stores@.len() ==> (#[trigger] inputs[d]@[m]).order_normals@.len()
            >= inputs[d]@[m].active_count
}

/// What a simulation can be run on.
pub open spec fn config_ok(config: SimConfig, inputs: Seq<Vec<MarketDay>>, names: Seq<String>) -> bool {
    &&& day_in_range(config.start_date as int)
    &&& day_in_range(config.end_date as int)
    &&& names.len() > 0
    &&& total_market_size(config.stores@, config.stores@.len() as int) <= usize::MAX
    &&& inputs_fit(config, inputs)
}

/// Each order, with the place of its customer among `customers`, is that
/// customer's.
pub open spec fn orders_keyed(orders: Seq<(usize, Order)>, customers: Seq<Customer>) -> bool {
    forall|i: int|
        0 <= i < orders.len() ==> (#[trigger] orders[i]).0 < customers.len()
            && orders[i].1.customer_id@ == customers[orders[i].0 as int].id@
}

/// Each tweet, with the place of its author among `customers`, is that
/// customer's.
pub open spec fn tweets_keyed(tweets: Seq<(usize, Tweet)>, customers: Seq<Customer>) -> bool {
    forall|i: int|
        0 <= i < tweets.len() ==> (#[trigger] tweets[i]).0 < customers.len()
            && tweets[i].1.user_id@ == customers[tweets[i].0 as int].id@
}

/// Every item is a jaffle or a beverage of the menu.
pub open spec fn menu_items(items: Seq<Item>) -> bool {
    forall|j: int| 0 <= j < items.len() ==> is_menu_jaffle(#[trigger] items[j]) || is_menu_beverage(items[j])
}

/// The minute of its day at which something stamped `stamp` happened.
pub open spec fn minute_of_day(stamp: int) -> int {
    stamp - stamp_day(stamp) * 1440
}

/// An order placed within the simulated days, at one of the stores on a
/// day it was open and within its opening hours that day, of at least one
/// item of the menu, whose subtotal is the sum of its prices, whose tax is
/// the store's rate of it and whose total is the subtotal plus the tax.
pub open spec fn order_in_window(config: SimConfig, o: Order) -> bool {
    let day = stamp_day(o.ordered_at as int);
    &&& config.start_date <= day < config.end_date
    &&& opening_hours(weekday_of(day) >= 5).0 <= minute_of_day(o.ordered_at as int)
        <= opening_hours(weekday_of(day) >= 5).1
    &&& o.items@.len() > 0
    &&& menu_items(o.items@)
    &&& o.subtotal_cents == crate::models::order::items_cents(o.items@)
    &&& o.order_total_cents == o.subtotal_cents + o.tax_paid_cents
    &&& exists|s: int|
        0 <= s < config.stores@.len() && o.store_id@ == (#[trigger] config.stores@[s]).id@
            && day - config.start_date >= config.stores@[s].opened_day
            && o.tax_paid_cents == tax_cents(config.stores@[s].tax_rate_ppm as int, o.subtotal_cents as int)
}

proof fn lemma_shape_menu_items(persona: PersonaType, favorite: int, s: Seq<Item>)
    requires
        order_items_shape(persona, favorite, s),
    ensures
        menu_items(s),
{
    let b: int = match persona {
        PersonaType::Commuter => s.len() as int,
        PersonaType::HealthNut => s.len() as int,
        PersonaType::RemoteWorker => choose|b: int|
            1 <= b <= 2 && b <= s.len() <= b + 1 && all_menu_beverages(#[trigger] s.take(b))
                && all_menu_jaffles(s.skip(b)),
        PersonaType::Student => 1,
        PersonaType::Casuals => choose|b: int|
            0 <= b <= 3 && b <= s.len() <= b + 3 && all_menu_beverages(#[trigger] s.take(b))
                && all_menu_jaffles(s.skip(b)),
        PersonaType::BrunchCrowd => 0,
    };
    assert forall|j: int| 0 <= j < s.len() implies is_menu_jaffle(#[trigger] s[j]) || is_menu_beverage(s[j]) by {
        match persona {
            PersonaType::BrunchCrowd => {
                let n = 1 + favorite / 20;
                if j < n {
                    assert(s.take(n)[j] == s[j]);
                } else {
                    assert(s.skip(n)[j - n] == s[j]);
                }
            },
            PersonaType::Commuter => {},
            PersonaType::HealthNut => {},
            PersonaType::Student => {
                if s.len() >= 1 && j < 1 {
                    assert(s.take(1)[j] == s[j]);
                } else {
                    assert(s.skip(1)[j - 1] == s[j]);
                }
            },
            _ => {
                if j < b {
                    assert(s.take(b)[j] == s[j]);
                } else {
                    assert(s.skip(b)[j - b] == s[j]);
                }
            },
        }
    }
}

/// A tweet posted within the simulated days.
pub open spec fn tweet_in_window(config: SimConfig, t: Tweet) -> bool {
    config.start_date <= stamp_day(t.tweeted_at as int) < config.end_date
}

/// The orders, tweets and customers of every market on every day, before
/// any are cut: each order and tweet with the place of its customer among
/// `customers`, and for each customer whether they ordered.
pub struct RawRun {
    pub orders: Vec<(usize, Order)>,
    pub tweets: Vec<(usize, Tweet)>,
    pub customers: Vec<Customer>,
    pub ordered: Vec<bool>,
}

impl RawRun {
    pub open spec fn wf(&self, config: SimConfig) -> bool {
        &&& orders_keyed(self.orders@, self.customers@)
        &&& tweets_keyed(self.tweets@, self.customers@)
        &&& self.ordered@.len() == self.customers@.len()
        &&& forall|k: int|
            0 <= k < self.customers@.len() ==> (#[trigger] self.ordered@[k] <==> exists|i: int|
                0 <= i < self.orders@.len() && (#[trigger] self.orders@[i]).0 == k)
        &&& forall|i: int|
            0 <= i < self.orders@.len() ==> #[trigger] order_in_window(config, self.orders@[i].1)
        &&& forall|i: int|
            0 <= i < self.tweets@.len() ==> #[trigger] tweet_in_window(config, self.tweets@[i].1)
        &&& forall|i: int|
            0 <= i < self.tweets@.len() ==> self.ordered@[(#[trigger] self.tweets@[i]).0 as int]
    }
}

proof fn lemma_stamp_day(d: int, m: int)
    requires
        0 <= m < 1440,
    ensures
        stamp_day(crate::calendar::minute_stamp(d, m)) == d,
{
    assert((d * 1440 + m) / 1440 == d) by (nonlinear_arith)
        requires
            0 <= m < 1440,
    ;
}

proof fn lemma_total_market_size(stores: Seq<Store>, k: int)
    requires
        0 <= k <= stores.len(),
    ensures
        0 <= total_market_size(stores, k) <= total_market_size(stores, stores.len() as int),
    decreases stores.len() - k,
{
    if k < stores.len() {
        lemma_total_market_size(stores, k + 1);
        lemma_market_size_nonnegative(stores[k].tam as int);
        lemma_total_market_size_nonnegative(stores, k);
    } else {
        lemma_total_market_size_nonnegative(stores, k);
    }
}

proof fn lemma_total_market_size_nonnegative(stores: Seq<Store>, k: int)
    ensures
        0 <= total_market_size(stores, k),
    decreases k,
{
    if k > 0 {
        lemma_total_market_size_nonnegative(stores, k - 1);
        lemma_market_size_nonnegative(stores[k - 1].tam as int);
    }
}

proof fn lemma_market_size_nonnegative(n: int)
    ensures
        0 <= market_size(n),
{
}

/// The minute of the day at which a customer orders lies within the
/// opening hours, so the clock keeps it.
proof fn lemma_order_minute_in_day(x: int)
    requires
        420 <= x <= 1200,
    ensures
        crate::models::order::clock_minute(x) == x,
{
    assert(x / 60 <= 23 && x % 60 <= 59 && (x / 60) * 60 + x % 60 == x) by (nonlinear_arith)
        requires
            420 <= x <= 1200,
    ;
}

proof fn lemma_order_minute_range(
    persona: crate::models::customer::PersonaType,
    favorite: int,
    weekend: bool,
    normal: int,
)
    ensures
        420 <= crate::models::customer::order_minute(persona, favorite, weekend, normal) <= 1200,
{
}

/// The markets of the stores, in order, and all their customers one after
/// another, with the place where each market's customers start.
pub fn create_markets(config: &SimConfig, names: &Vec<String>, rng: &mut StdRng) -> (r: (
    Vec<Market>,
    Vec<usize>,
    Vec<Customer>,
))
    requires
        names.len() > 0,
        total_market_size(config.stores@, config.stores@.len() as int) <= usize::MAX,
    ensures
        r.0@.len() == config.stores@.len(),
        r.1@.len() == config.stores@.len(),
        r.2@.len() == total_market_size(config.stores@, config.stores@.len() as int),
        forall|m: int|
            0 <= m < r.0@.len() ==> {
                &&& (#[trigger] r.0@[m]).store == config.stores@[m]
                &&& r.0@[m].wf()
                &&& r.1@[m] + r.0@[m].customers@.len() <= r.2@.len()
                &&& forall|j: int|
                    0 <= j < r.0@[m].customers@.len() ==> r.2@[r.1@[m] + j]
                        == #[trigger] r.0@[m].customers@[j]
                &&& r.1@[m] == total_market_size(config.stores@, m)
                &&& r.0@[m].customers@.len() == market_size(config.stores@[m].tam as int)
                &&& forall|p: PersonaType|
                    #[trigger] persona_tally(r.0@[m].customers@, p) == persona_count(
                        persona_percent(p),
                        config.stores@[m].tam as int,
                    )
            },
{
    let mut markets: Vec<Market> = Vec::new();
    let mut offsets: Vec<usize> = Vec::new();
    let mut customers: Vec<Customer> = Vec::new();
    let n = config.stores.len();
    for m in 0..n
        invariant
            n == config.stores@.len(),
            names.len() > 0,
            total_market_size(config.stores@, n as int) <= usize::MAX,
            markets@.len() == m,
            offsets@.len() == m,
            customers@.len() == total_market_size(config.stores@, m as int),
            forall|q: int|
                0 <= q < m ==> {
                    &&& (#[trigger] markets@[q]).store == config.stores@[q]
                    &&& markets@[q].wf()
                    &&& offsets@[q] + markets@[q].customers@.len() <= customers@.len()
                    &&& forall|j: int|
                        0 <= j < markets@[q].customers@.len() ==> customers@[offsets@[q] + j]
                            == #[trigger] markets@[q].customers@[j]
                    &&& offsets@[q] == total_market_size(config.stores@, q)
                    &&& markets@[q].customers@.len() == market_size(config.stores@[q].tam as int)
                    &&& forall|p: PersonaType|
                        #[trigger] persona_tally(markets@[q].customers@, p) == persona_count(
                            persona_percent(p),
                            config.stores@[q].tam as int,
                        )
                },
    {
        proof {
            lemma_total_market_size(config.stores@, m as int + 1);
        }
        let store = config.stores[m].clone();
        let tam = store.tam;
        let market = Market::new(store, tam, names, rng);
        let ghost before = customers@;
        offsets.push(customers.len());
        for j in 0..market.customers.len()
            invariant
                customers@.len() == before.len() + j,
                before.len() + market.customers@.len() <= usize::MAX,
                forall|i: int| 0 <= i < before.len() ==> #[trigger] customers@[i] == before[i],
                forall|i: int| 0 <= i < j ==> #[trigger] customers@[before.len() + i] == market.customers@[i],
        {
            customers.push(market.customers[j].clone());
        }
        markets.push(market);
        proof {
            assert forall|q: int| 0 <= q < m + 1 implies {
                &&& (#[trigger] markets@[q]).store == config.stores@[q]
                &&& markets@[q].wf()
                &&& offsets@[q] + markets@[q].customers@.len() <= customers@.len()
                &&& forall|j: int|
                    0 <= j < markets@[q].customers@.len() ==> customers@[offsets@[q] + j]
                        == #[trigger] markets@[q].customers@[j]
                &&& offsets@[q] == total_market_size(config.stores@, q)
                &&& markets@[q].customers@.len() == market_size(config.stores@[q].tam as int)
                &&& forall|p: PersonaType|
                    #[trigger] persona_tally(markets@[q].customers@, p) == persona_count(
                        persona_percent(p),
                        config.stores@[q].tam as int,
                    )
            } by {
                if q < m {
                    assert forall|j: int| 0 <= j < markets@[q].customers@.len() implies customers@[offsets@[q] + j]
                        == #[trigger] markets@[q].customers@[j] by {
                        assert(customers@[offsets@[q] + j] == before[offsets@[q] + j]);
                    }
                }
            }
        }
    }
    (markets, offsets, customers)
}

/// Adds a market's results for a day to the run: each order and tweet with
/// the place of its customer among all customers, who is marked as having
/// ordered.
#[verifier::rlimit(40)]
fn absorb_results(
    raw: &mut RawRun,
    results: Vec<DayResult>,
    offset: usize,
    market: &Market,
    day: &Day,
    input: &MarketDay,
    config: &SimConfig,
    store_index: Ghost<int>,
    inputs: Ghost<Seq<Vec<MarketDay>>>,
)
    requires
        old(raw).wf(*config),
        0 <= store_index@ < config.stores@.len(),
        market.store == config.stores@[store_index@],
        offset + market.customers@.len() <= old(raw).customers@.len(),
        forall|j: int|
            0 <= j < market.customers@.len() ==> old(raw).customers@[offset + j]
                == #[trigger] market.customers@[j],
        forall|k: int| 0 <= k < results@.len() ==> #[trigger] market.day_result_ok(*day, *input, results@[k]),
        results@.len() > 0 ==> day.spec_date_index() >= market.store.opened_day,
        day.spec_date_index() == day.spec_date() - config.start_date,
        config.start_date <= day.spec_date() < config.end_date,
        *input == inputs@[day.spec_date_index()]@[store_index@],
        offset == total_market_size(config.stores@, store_index@),
        market.customers@.len() == market_size(config.stores@[store_index@].tam as int),
        forall|k1: int, k2: int|
            0 <= k1 < k2 < results@.len() ==> results@[k1].customer_index < results@[k2].customer_index,
        in_run_order(old(raw).orders@),
        before_place(old(raw).orders@, day.spec_date(), offset as int),
        forall|i: int|
            0 <= i < old(raw).orders@.len() ==> #[trigger] from_market(
                *config,
                inputs@,
                old(raw).customers@,
                old(raw).orders@[i],
            ),
    ensures
        final(raw).wf(*config),
        final(raw).customers@ == old(raw).customers@,
        forall|k: int| 0 <= k < old(raw).ordered@.len() && old(raw).ordered@[k] ==> #[trigger] final(raw).ordered@[k],
        forall|q: int| 0 <= q < results@.len() ==> final(raw).ordered@[offset + (#[trigger] results@[q]).customer_index],
        in_run_order(final(raw).orders@),
        before_place(final(raw).orders@, day.spec_date(), offset + market.customers@.len()),
        forall|i: int|
            0 <= i < final(raw).orders@.len() ==> #[trigger] from_market(
                *config,
                inputs@,
                final(raw).customers@,
                final(raw).orders@[i],
            ),
{
    let ghost res = results@;
    let ghost customers = raw.customers@;
    let ghost start_marks = raw.ordered@;
    assert(customers.len() == raw.customers.len());
    for result in it: results
        invariant
            customers.len() <= usize::MAX,
            raw.wf(*config),
            raw.customers@ == customers,
            offset + market.customers@.len() <= customers.len(),
            forall|j: int|
                0 <= j < market.customers@.len() ==> customers[offset + j]
                    == #[trigger] market.customers@[j],
            forall|k: int| 0 <= k < it.seq().len() ==> #[trigger] market.day_result_ok(*day, *input, it.seq()[k]),
            it.seq().len() > 0 ==> day.spec_date_index() >= market.store.opened_day,
            it.seq() == res,
            day.spec_date_index() == day.spec_date() - config.start_date,
            config.start_date <= day.spec_date() < config.end_date,
            0 <= store_index@ < config.stores@.len(),
            market.store == config.stores@[store_index@],
            start_marks.len() == raw.ordered@.len(),
            forall|k: int| 0 <= k < start_marks.len() && start_marks[k] ==> #[trigger] raw.ordered@[k],
            forall|q: int| 0 <= q < it.index() ==> raw.ordered@[offset + (#[trigger] it.seq()[q]).customer_index],
            *input == inputs@[day.spec_date_index()]@[store_index@],
            offset == total_market_size(config.stores@, store_index@),
            market.customers@.len() == market_size(config.stores@[store_index@].tam as int),
            forall|k1: int, k2: int|
                0 <= k1 < k2 < it.seq().len() ==> it.seq()[k1].customer_index < it.seq()[k2].customer_index,
            in_run_order(raw.orders@),
            before_place(
                raw.orders@,
                day.spec_date(),
                offset + if it.index() == 0 {
                    0int
                } else {
                    it.seq()[it.index() - 1].customer_index + 1
                },
            ),
            forall|i: int|
                0 <= i < raw.orders@.len() ==> #[trigger] from_market(*config, inputs@, customers, raw.orders@[i]),
    {
        assert(market.day_result_ok(*day, *input, result));
        assert(result.customer_index < market.customers@.len());
        let ghost idx = it.index();
        let ghost marks_before = raw.ordered@;
        assert(it.seq()[idx as int] == result);
        let DayResult { order, tweet, customer, customer_index } = result;
        let key = offset + customer_index;
        assert(customers[key as int] == market.customers@[customer_index as int]);
        match order {
            Some(o) => {
                proof {
                    let c = market.customers@[customer_index as int];
                    let m = crate::models::customer::order_minute(
                        c.persona,
                        c.favorite_number as int,
                        crate::models::customer::weekend(*day),
                        input.order_normals@[customer_index as int] as int,
                    );
                    lemma_order_minute_range(
                        c.persona,
                        c.favorite_number as int,
                        crate::models::customer::weekend(*day),
                        input.order_normals@[customer_index as int] as int,
                    );
                    lemma_order_minute_in_day(m);
                    lemma_stamp_day(day.spec_date(), m);
                    lemma_shape_menu_items(c.persona, c.favorite_number as int, o.items@);
                    assert(minute_of_day(o.ordered_at as int) == m);
                    assert(config.stores@[store_index@].id@ == o.store_id@);
                    assert(order_in_window(*config, o));
                    if tweet is Some {
                        let t = tweet->0;
                        let off = t.tweeted_at - o.ordered_at;
                        assert(t.tweeted_at == crate::calendar::minute_stamp(
                            day.spec_date(),
                            m + off,
                        ));
                        lemma_stamp_day(day.spec_date(), m + off);
                    }
                }
                let ghost before = raw.orders@;
                proof {
                    let c = market.customers@[customer_index as int];
                    let mm = crate::models::customer::order_minute(
                        c.persona,
                        c.favorite_number as int,
                        crate::models::customer::weekend(*day),
                        input.order_normals@[customer_index as int] as int,
                    );
                    lemma_order_minute_range(
                        c.persona,
                        c.favorite_number as int,
                        crate::models::customer::weekend(*day),
                        input.order_normals@[customer_index as int] as int,
                    );
                    lemma_order_minute_in_day(mm);
                    lemma_stamp_day(day.spec_date(), mm);
                    assert(stamp_day(o.ordered_at as int) == day.spec_date());
                    assert(minute_of_day(o.ordered_at as int) == mm);
                    assert(market_order(*config, inputs@, customers, store_index@, customer_index as int, o));
                    assert(customer_place(config.stores@, store_index@, customer_index as int) == key);
                    assert(from_market(*config, inputs@, customers, (key, o)));
                    if idx > 0 {
                        assert(it.seq()[idx - 1].customer_index < it.seq()[idx as int].customer_index);
                    }
                }
                raw.orders.push((key, o));
                proof {
                    lemma_push_in_order(before, key, o, day.spec_date(), offset + if idx == 0 {
                        0int
                    } else {
                        it.seq()[idx - 1].customer_index + 1
                    });
                    assert forall|q: int| 0 <= q < raw.orders@.len() implies #[trigger] from_market(
                        *config,
                        inputs@,
                        customers,
                        raw.orders@[q],
                    ) by {
                        if q < before.len() {
                            assert(raw.orders@[q] == before[q]);
                        }
                    }
                }
                raw.ordered.set(key, true);
                proof {
                    assert(raw.ordered@ == marks_before.update(key as int, true));
                    assert forall|k: int|
                        0 <= k < raw.customers@.len() implies (#[trigger] raw.ordered@[k] <==> exists|i: int|
                        0 <= i < raw.orders@.len() && (#[trigger] raw.orders@[i]).0 == k) by {
                        if k == key {
                            assert(raw.orders@[before.len() as int].0 == k);
                        } else {
                            if raw.ordered@[k] {
                                let i = choose|i: int| 0 <= i < before.len() && (#[trigger] before[i]).0 == k;
                                assert(raw.orders@[i] == before[i]);
                            }
                            if exists|i: int| 0 <= i < raw.orders@.len() && (#[trigger] raw.orders@[i]).0 == k {
                                let i = choose|i: int| 0 <= i < raw.orders@.len() && (#[trigger] raw.orders@[i]).0 == k;
                                assert(before[i] == raw.orders@[i]);
                            }
                        }
                    }
                }
            },
            None => {
                assert(false);
            },
        }
        proof {
            assert forall|q: int| 0 <= q < idx + 1 implies raw.ordered@[offset + (#[trigger] it.seq()[q]).customer_index] by {
                if q < idx {
                    assert(market.day_result_ok(*day, *input, it.seq()[q]));
                    assert(marks_before[offset + it.seq()[q].customer_index]);
                } else {
                    assert(it.seq()[q].customer_index == customer_index);
                }
            }
            assert forall|k: int| 0 <= k < start_marks.len() && start_marks[k] implies #[trigger] raw.ordered@[k] by {
                assert(marks_before[k]);
            }
        }
        match tweet {
            Some(t) => {
                raw.tweets.push((key, t));
            },
            None => {},
        }
    }
    proof {
        if res.len() > 0 {
            assert(market.day_result_ok(*day, *input, res[res.len() - 1]));
            lemma_before_place_wider(
                raw.orders@,
                day.spec_date(),
                offset + res[res.len() - 1].customer_index + 1,
                offset + market.customers@.len(),
            );
        } else {
            lemma_before_place_wider(raw.orders@, day.spec_date(), offset as int, offset + market.customers@.len());
        }
    }
}

proof fn lemma_push_in_order(before: Seq<(usize, Order)>, key: usize, o: Order, date: int, bound: int)
    requires
        in_run_order(before),
        before_place(before, date, bound),
        bound <= key,
        stamp_day(o.ordered_at as int) == date,
    ensures
        in_run_order(before.push((key, o))),
        before_place(before.push((key, o)), date, key + 1),
{
    let after = before.push((key, o));
    assert forall|i: int, j: int|
        #![trigger after[i], after[j]]
        0 <= i < j < after.len() implies stamp_day(after[i].1.ordered_at as int) < stamp_day(
            after[j].1.ordered_at as int,
        ) || (stamp_day(after[i].1.ordered_at as int) == stamp_day(after[j].1.ordered_at as int)
            && after[i].0 < after[j].0) by {
        assert(after[i] == before[i]);
        if j < before.len() {
            assert(after[j] == before[j]);
        }
    }
    assert forall|i: int| 0 <= i < after.len() implies stamp_day((#[trigger] after[i]).1.ordered_at as int) < date || (
        stamp_day(after[i].1.ordered_at as int) == date && after[i].0 < key + 1) by {
        if i < before.len() {
            assert(after[i] == before[i]);
        }
    }
}

/// Pushing nothing keeps a bound that was met; a smaller bound is met by a larger one.
proof fn lemma_before_place_wider(orders: Seq<(usize, Order)>, date: int, bound: int, wider: int)
    requires
        before_place(orders, date, bound),
        bound <= wider,
    ensures
        before_place(orders, date, wider),
{
}

/// The raw orders come day by day, and within a day by their customers'
/// places, so by store and then by customer: no customer twice in a day.
pub open spec fn in_run_order(orders: Seq<(usize, Order)>) -> bool {
    forall|i: int, j: int|
        #![trigger orders[i], orders[j]]
        0 <= i < j < orders.len() ==> stamp_day(orders[i].1.ordered_at as int) < stamp_day(
            orders[j].1.ordered_at as int,
        ) || (stamp_day(orders[i].1.ordered_at as int) == stamp_day(orders[j].1.ordered_at as int)
            && orders[i].0 < orders[j].0)
}

/// Every order comes before day `date`, or on it before place `bound`.
pub open spec fn before_place(orders: Seq<(usize, Order)>, date: int, bound: int) -> bool {
    forall|i: int|
        0 <= i < orders.len() ==> stamp_day((#[trigger] orders[i]).1.ordered_at as int) < date || (
        stamp_day(orders[i].1.ordered_at as int) == date && orders[i].0 < bound)
}

/// An order as the market of store `m` places it for its customer `j`, who
/// is among `customers` at their place, on the order's day: the customer is
/// active and has a chance to buy; the time is the persona's, from the
/// day's normal draw for them; the items are the persona's; the tax is the
/// store's.
pub open spec fn market_order(
    config: SimConfig,
    inputs: Seq<Vec<MarketDay>>,
    customers: Seq<Customer>,
    m: int,
    j: int,
    o: Order,
) -> bool {
    let date = stamp_day(o.ordered_at as int);
    let d = date - config.start_date;
    let input = inputs[d]@[m];
    let c = customers[customer_place(config.stores@, m, j)];
    let w = weekday_of(date) >= 5;
    let su = season_of(calendar_of(date).1, calendar_of(date).2) == Season::Summer;
    &&& 0 <= m < config.stores@.len()
    &&& 0 <= j < market_size(config.stores@[m].tam as int)
    &&& 0 <= d < sim_days(config)
    &&& j < input.active_count
    &&& d >= config.stores@[m].opened_day
    &&& is_uuid_v4_text(o.id@)
    &&& o.customer_id@ == c.id@
    &&& o.store_id@ == config.stores@[m].id@
    &&& 0 < input.pull_ppm * buy_permille(c.persona, c.favorite_number as int, w, su)
    &&& minute_of_day(o.ordered_at as int) == order_minute(
        c.persona,
        c.favorite_number as int,
        w,
        input.order_normals@[j] as int,
    )
    &&& o.items@.len() > 0
    &&& order_items_shape(c.persona, c.favorite_number as int, o.items@)
    &&& o.subtotal_cents == crate::models::order::items_cents(o.items@)
    &&& o.tax_paid_cents == tax_cents(config.stores@[m].tax_rate_ppm as int, o.subtotal_cents as int)
    &&& o.order_total_cents == o.subtotal_cents + o.tax_paid_cents
}

/// The order, with its customer's place, is one that a market placed.
pub open spec fn from_market(
    config: SimConfig,
    inputs: Seq<Vec<MarketDay>>,
    customers: Seq<Customer>,
    p: (usize, Order),
) -> bool {
    exists|m: int, j: int|
        #![trigger customer_place(config.stores@, m, j)]
        p.0 == customer_place(config.stores@, m, j) && market_order(config, inputs, customers, m, j, p.1)
}

/// The place among all customers of customer `j` of the market of store
/// `m`: the markets' customers come one after another, in store order.
pub open spec fn customer_place(stores: Seq<Store>, m: int, j: int) -> int {
    total_market_size(stores, m) + j
}

/// On simulated day `d`, customer `j` of the market of store `m`, the one
/// at their place among `customers`, is sure to buy: active, at a store
/// that has opened, of a persona that always orders something, and with a
/// chance to buy, the store's pull times the persona's, that is whole.
pub open spec fn sure_buyer(
    config: SimConfig,
    inputs: Seq<Vec<MarketDay>>,
    customers: Seq<Customer>,
    d: int,
    m: int,
    j: int,
) -> bool {
    let input = inputs[d]@[m];
    let date = config.start_date + d;
    let c = customers[customer_place(config.stores@, m, j)];
    &&& 0 <= d < sim_days(config)
    &&& 0 <= m < config.stores@.len()
    &&& 0 <= j < input.active_count
    &&& j < market_size(config.stores@[m].tam as int)
    &&& d >= config.stores@[m].opened_day
    &&& c.persona != PersonaType::Casuals
    &&& input.pull_ppm * buy_permille(
        c.persona,
        c.favorite_number as int,
        weekday_of(date) >= 5,
        season_of(calendar_of(date).1, calendar_of(date).2) == Season::Summer,
    ) * 1000 >= 1_000_000_000_000
}

proof fn lemma_sure_buyers_marked(
    config: SimConfig,
    inputs: Seq<Vec<MarketDay>>,
    all: Seq<Customer>,
    market: Market,
    m: int,
    d: int,
    day: Day,
    input: MarketDay,
    res: Seq<DayResult>,
    marks_before: Seq<bool>,
    marks_after: Seq<bool>,
)
    requires
        0 <= m < config.stores@.len(),
        market.store == config.stores@[m],
        market.customers@.len() == market_size(config.stores@[m].tam as int),
        total_market_size(config.stores@, m) + market.customers@.len() <= all.len(),
        forall|j: int|
            0 <= j < market.customers@.len() ==> all[total_market_size(config.stores@, m) + j]
                == #[trigger] market.customers@[j],
        input == inputs[d]@[m],
        day.spec_date_index() == d,
        day.spec_date() == config.start_date + d,
        all.len() == total_market_size(config.stores@, config.stores@.len() as int),
        marks_before.len() == all.len(),
        marks_after.len() == all.len(),
        forall|i: int|
            #[trigger] market.surely_buys(day, input, i) ==> exists|k: int|
                0 <= k < res.len() && res[k].customer_index == i,
        forall|k: int| 0 <= k < marks_before.len() && marks_before[k] ==> #[trigger] marks_after[k],
        forall|q: int|
            0 <= q < res.len() ==> marks_after[total_market_size(config.stores@, m) + (#[trigger] res[q]).customer_index],
        forall|d2: int, m2: int, j: int|
            (d2 < d || (d2 == d && m2 < m)) && #[trigger] sure_buyer(config, inputs, all, d2, m2, j)
                ==> marks_before[customer_place(config.stores@, m2, j)],
    ensures
        forall|d2: int, m2: int, j: int|
            (d2 < d || (d2 == d && m2 < m + 1)) && #[trigger] sure_buyer(config, inputs, all, d2, m2, j)
                ==> marks_after[customer_place(config.stores@, m2, j)],
{
    assert forall|d2: int, m2: int, j: int|
        (d2 < d || (d2 == d && m2 < m + 1)) && #[trigger] sure_buyer(config, inputs, all, d2, m2, j)
            implies marks_after[customer_place(config.stores@, m2, j)] by {
        lemma_total_market_size(config.stores@, m2 + 1);
        if d2 == d && m2 == m {
            assert(all[total_market_size(config.stores@, m) + j] == market.customers@[j]);
            assert(market.surely_buys(day, input, j));
            let k = choose|k: int| 0 <= k < res.len() && res[k].customer_index == j;
            assert(marks_after[total_market_size(config.stores@, m) + res[k].customer_index]);
        } else {
            lemma_total_market_size(config.stores@, m2);
            assert(marks_before[customer_place(config.stores@, m2, j)]);
        }
    }
}

/// On simulated day `d` the store `m` has opened and its whole market is
/// active; the market has customers of persona `p`, who always order
/// something, and even the least favorite number gives that persona a
/// chance to buy, the store's pull times the persona's, that is whole. A
/// sale is then sure.
pub open spec fn sure_sale(config: SimConfig, inputs: Seq<Vec<MarketDay>>, d: int, m: int, p: PersonaType) -> bool {
    let input = inputs[d]@[m];
    let date = config.start_date + d;
    let tam = config.stores@[m].tam as int;
    &&& 0 <= d < sim_days(config)
    &&& 0 <= m < config.stores@.len()
    &&& d >= config.stores@[m].opened_day
    &&& input.active_count >= market_size(tam)
    &&& persona_count(persona_percent(p), tam) >= 1
    &&& p != PersonaType::Casuals
    &&& input.pull_ppm * buy_permille(
        p,
        1,
        weekday_of(date) >= 5,
        season_of(calendar_of(date).1, calendar_of(date).2) == Season::Summer,
    ) * 1000 >= 1_000_000_000_000
}

/// A sure sale finds a sure buyer among the market's customers.
proof fn lemma_sure_sale_buyer(
    config: SimConfig,
    inputs: Seq<Vec<MarketDay>>,
    all: Seq<Customer>,
    market: Market,
    d: int,
    m: int,
    p: PersonaType,
) -> (j: int)
    requires
        sure_sale(config, inputs, d, m, p),
        market.wf(),
        market.customers@.len() == market_size(config.stores@[m].tam as int),
        persona_tally(market.customers@, p) == persona_count(persona_percent(p), config.stores@[m].tam as int),
        total_market_size(config.stores@, m) + market.customers@.len() <= all.len(),
        forall|i: int|
            0 <= i < market.customers@.len() ==> all[total_market_size(config.stores@, m) + i]
                == #[trigger] market.customers@[i],
    ensures
        sure_buyer(config, inputs, all, d, m, j),
{
    let ps = crate::simulation::market::personas(market.customers@);
    assert(ps.to_multiset().count(p) > 0);
    assert(ps.contains(p));
    let j = choose|j: int| 0 <= j < ps.len() && ps[j] == p;
    let c = market.customers@[j];
    assert(c.persona == p);
    assert(customer_ok(c, market.store.id@));
    assert(all[customer_place(config.stores@, m, j)] == c);
    let date = config.start_date + d;
    let w = weekday_of(date) >= 5;
    let su = season_of(calendar_of(date).1, calendar_of(date).2) == Season::Summer;
    let lo = buy_permille(p, 1, w, su);
    let hi = buy_permille(p, c.favorite_number as int, w, su);
    assert(0 <= lo <= hi);
    let pull = inputs[d]@[m].pull_ppm as int;
    assert(pull * hi * 1000 >= pull * lo * 1000) by (nonlinear_arith)
        requires
            0 <= lo <= hi,
            0 <= pull,
    ;
    j
}

/// Every market on every simulated day, in order: the raw orders, tweets
/// and customers, before any are cut.
pub fn simulate_all_days(
    config: &SimConfig,
    inputs: &Vec<Vec<MarketDay>>,
    names: &Vec<String>,
    rng: &mut StdRng,
) -> (r: RawRun)
    requires
        config_ok(*config, inputs@, names@),
    ensures
        r.wf(*config),
        r.customers@.len() == total_market_size(config.stores@, config.stores@.len() as int),
        forall|d: int, m: int, j: int|
            #[trigger] sure_buyer(*config, inputs@, r.customers@, d, m, j) ==> r.ordered@[customer_place(
                config.stores@,
                m,
                j,
            )],
        forall|d: int, m: int, p: PersonaType| #[trigger] sure_sale(*config, inputs@, d, m, p) ==> r.orders@.len() > 0,
        sim_days(*config) <= 0 ==> r.orders@.len() == 0,
        in_run_order(r.orders@),
        forall|i: int|
            0 <= i < r.orders@.len() ==> #[trigger] from_market(*config, inputs@, r.customers@, r.orders@[i]),
{
    let (markets, offsets, customers) = create_markets(config, names, rng);
    let mut ordered: Vec<bool> = Vec::new();
    for k in 0..customers.len()
        invariant
            ordered@.len() == k,
            forall|j: int| 0 <= j < k ==> !(#[trigger] ordered@[j]),
    {
        ordered.push(false);
    }
    let mut raw = RawRun { orders: Vec::new(), tweets: Vec::new(), customers, ordered };
    let ghost all = raw.customers@;
    let total_days: i64 = config.end_date as i64 - config.start_date as i64;
    let mut d: i64 = 0;
    while d < total_days
        invariant
            config_ok(*config, inputs@, names@),
            total_days == sim_days(*config),
            0 <= d,
            raw.wf(*config),
            raw.customers@ == all,
            all.len() == total_market_size(config.stores@, config.stores@.len() as int),
            total_days <= 0 ==> raw.orders@.len() == 0,
            in_run_order(raw.orders@),
            before_place(raw.orders@, config.start_date + d, 0),
            forall|i: int|
                0 <= i < raw.orders@.len() ==> #[trigger] from_market(*config, inputs@, all, raw.orders@[i]),
            markets@.len() == config.stores@.len(),
            offsets@.len() == config.stores@.len(),
            forall|m: int|
                0 <= m < markets@.len() ==> {
                    &&& (#[trigger] markets@[m]).store == config.stores@[m]
                    &&& markets@[m].wf()
                    &&& offsets@[m] + markets@[m].customers@.len() <= all.len()
                    &&& forall|j: int|
                        0 <= j < markets@[m].customers@.len() ==> all[offsets@[m] + j]
                            == #[trigger] markets@[m].customers@[j]
                    &&& offsets@[m] == total_market_size(config.stores@, m)
                    &&& markets@[m].customers@.len() == market_size(config.stores@[m].tam as int)
                },
            forall|d2: int, m2: int, j: int|
                d2 < d && #[trigger] sure_buyer(*config, inputs@, all, d2, m2, j) ==> raw.ordered@[customer_place(
                    config.stores@,
                    m2,
                    j,
                )],
        decreases total_days - d,
    {
        let day = Day::new(d, 0, config.start_date);
        let inputs_today = &inputs[d as usize];
        assert(inputs_today@.len() == config.stores@.len());
        for m in 0..markets.len()
            invariant
                config_ok(*config, inputs@, names@),
                0 <= d < total_days,
                total_days == sim_days(*config),
                inputs_today == inputs@[d as int],
                inputs_today@.len() == config.stores@.len(),
                day.spec_date_index() == d,
                day.spec_date() == config.start_date + d,
                raw.wf(*config),
                raw.customers@ == all,
                all.len() == total_market_size(config.stores@, config.stores@.len() as int),
                in_run_order(raw.orders@),
                before_place(raw.orders@, config.start_date + d, total_market_size(config.stores@, m as int)),
                forall|i: int|
                    0 <= i < raw.orders@.len() ==> #[trigger] from_market(*config, inputs@, all, raw.orders@[i]),
                markets@.len() == config.stores@.len(),
                offsets@.len() == config.stores@.len(),
                forall|q: int|
                    0 <= q < markets@.len() ==> {
                        &&& (#[trigger] markets@[q]).store == config.stores@[q]
                        &&& markets@[q].wf()
                        &&& offsets@[q] + markets@[q].customers@.len() <= all.len()
                        &&& forall|j: int|
                            0 <= j < markets@[q].customers@.len() ==> all[offsets@[q] + j]
                                == #[trigger] markets@[q].customers@[j]
                        &&& offsets@[q] == total_market_size(config.stores@, q)
                        &&& markets@[q].customers@.len() == market_size(config.stores@[q].tam as int)
                    },
                forall|d2: int, m2: int, j: int|
                    (d2 < d || (d2 == d && m2 < m)) && #[trigger] sure_buyer(*config, inputs@, all, d2, m2, j)
                        ==> raw.ordered@[customer_place(config.stores@, m2, j)],
        {
            let market = &markets[m];
            let input = &inputs_today[m];
            assert(input == inputs@[d as int]@[m as int]);
            let results = market.sim_day(&day, input, rng);
            let ghost res = results@;
            let ghost marks_before = raw.ordered@;
            absorb_results(
                &mut raw,
                results,
                offsets[m],
                market,
                &day,
                input,
                config,
                Ghost(m as int),
                Ghost(inputs@),
            );
            proof {
                lemma_sure_buyers_marked(
                    *config,
                    inputs@,
                    all,
                    *market,
                    m as int,
                    d as int,
                    day,
                    *input,
                    res,
                    marks_before,
                    raw.ordered@,
                );
            }
        }
        proof {
            assert forall|i: int| 0 <= i < raw.orders@.len() implies stamp_day(
                (#[trigger] raw.orders@[i]).1.ordered_at as int,
            ) < config.start_date + d + 1 || (stamp_day(raw.orders@[i].1.ordered_at as int) == config.start_date
                + d + 1 && raw.orders@[i].0 < 0) by {
            }
        }
        d = d + 1;
    }
    proof {
        assert forall|d2: int, m2: int, p: PersonaType| #[trigger] sure_sale(*config, inputs@, d2, m2, p)
            implies raw.orders@.len() > 0 by {
            let j = lemma_sure_sale_buyer(*config, inputs@, all, markets@[m2], d2, m2, p);
            lemma_total_market_size(config.stores@, m2 + 1);
            let k = customer_place(config.stores@, m2, j);
            assert(raw.ordered@[k]);
            let i = choose|i: int| 0 <= i < raw.orders@.len() && (#[trigger] raw.orders@[i]).0 == k;
        }
    }
    raw
}

/// The tweets, in order, posted no later than `limit`.
pub open spec fn tweets_until(tweets: Seq<(usize, Tweet)>, limit: int) -> Seq<(usize, Tweet)>
    decreases tweets.len(),
{
    if tweets.len() == 0 {
        tweets
    } else {
        let rest = tweets_until(tweets.drop_last(), limit);
        if tweets.last().1.tweeted_at <= limit {
            rest.push(tweets.last())
        } else {
            rest
        }
    }
}

/// Keeps the tweets posted no later than `limit`, in order.
pub fn keep_tweets_until(tweets: Vec<(usize, Tweet)>, limit: i64) -> (r: Vec<(usize, Tweet)>)
    ensures
        r@ == tweets_until(tweets@, limit as int),
{
    let ghost all = tweets@;
    let mut kept: Vec<(usize, Tweet)> = Vec::new();
    for t in it: tweets
        invariant
            it.seq() == all,
            kept@ == tweets_until(all.take(it.index() as int), limit as int),
    {
        let ghost i = it.index();
        assert(all.take(i + 1).drop_last() =~= all.take(i as int));
        assert(all.take(i + 1).last() == t);
        if t.1.tweeted_at <= limit {
            kept.push(t);
        }
    }
    assert(all.take(all.len() as int) =~= all);
    kept
}

/// With a cap on the orders: when there are more, keeps the first `target`
/// of them, and then only the tweets posted no later than the last order
/// kept.
pub fn cap_orders(orders: &mut Vec<(usize, Order)>, tweets: &mut Vec<(usize, Tweet)>, target: u64)
    ensures
        old(orders)@.len() > target ==> {
            &&& final(orders)@ == old(orders)@.take(target as int)
            &&& target > 0 ==> final(tweets)@ == tweets_until(
                old(tweets)@,
                final(orders)@.last().1.ordered_at as int,
            )
            &&& target == 0 ==> final(tweets)@ == old(tweets)@
        },
        old(orders)@.len() <= target ==> final(orders)@ == old(orders)@ && final(tweets)@
            == old(tweets)@,
{
    if (orders.len() as u64) > target {
        orders.truncate(target as usize);
        if orders.len() > 0 {
            let limit = orders[orders.len() - 1].1.ordered_at;
            let mut all: Vec<(usize, Tweet)> = Vec::new();
            std::mem::swap(&mut all, tweets);
            *tweets = keep_tweets_until(all, limit);
        }
    }
}

/// The days that the first `k` stores are open within `total_days`, summed.
pub open spec fn open_days(stores: Seq<Store>, total_days: int, k: int) -> int
    decreases k,
{
    if k <= 0 {
        0
    } else {
        open_days(stores, total_days, k - 1) + if total_days - stores[k - 1].opened_day > 0 {
            total_days - stores[k - 1].opened_day
        } else {
            0
        }
    }
}

/// `x`, held at `usize::MAX` at most, as a float cast to `usize` holds it.
pub open spec fn saturate(x: int) -> int {
    if x > usize::MAX {
        usize::MAX as int
    } else {
        x
    }
}

/// The number of orders to aim for: `per_year` per store-year, where a year
/// is 365.25 days and `open` the days the stores are open, rounded to the
/// nearest order; at least `per_year`.
pub open spec fn order_target(per_year: int, open: int) -> int {
    saturate(
        if 4 * open >= 1461 {
            (8 * per_year * open + 1461) / 2922
        } else {
            per_year
        },
    )
}

/// The stores count as at least one.
pub open spec fn store_divisor(stores: int) -> int {
    if stores > 1 {
        stores
    } else {
        1
    }
}

/// The average store is open longer than a year.
pub open spec fn long_lived(open: int, stores: int) -> bool {
    4 * open > 1461 * store_divisor(stores)
}

/// How many customers to keep: enough that each orders about three times a
/// year of the average store's life (a year at least), rounded up.
pub open spec fn ideal_customers(target: int, open: int, stores: int) -> int {
    saturate(
        if long_lived(open, stores) {
            (target * 1461 * store_divisor(stores) + 12 * open - 1) / (12 * open)
        } else {
            (target + 2) / 3
        },
    )
}

/// The most orders one customer keeps: five a year of the average store's
/// life (a year at least), rounded up.
pub open spec fn per_customer_cap(open: int, stores: int) -> int {
    saturate(
        if long_lived(open, stores) {
            (20 * open + 1461 * store_divisor(stores) - 1) / (1461 * store_divisor(stores))
        } else {
            5
        },
    )
}

/// The days the stores are open within the simulation, summed, computed
/// exactly.
pub fn count_open_days(stores: &Vec<Store>, total_days: i64) -> (r: i128)
    requires
        stores@.len() <= u32::MAX,
        forall|i: int|
            0 <= i < stores@.len() ==> i64::MIN <= total_days - (#[trigger] stores@[i]).opened_day
                <= i64::MAX,
    ensures
        r == open_days(stores@, total_days as int, stores@.len() as int),
        0 <= r <= stores@.len() * i64::MAX,
{
    let mut sum: i128 = 0;
    for i in 0..stores.len()
        invariant
            stores@.len() <= u32::MAX,
            sum == open_days(stores@, total_days as int, i as int),
            0 <= sum <= i * i64::MAX,
            forall|j: int|
                0 <= j < stores@.len() ==> i64::MIN <= total_days - (#[trigger] stores@[j]).opened_day
                    <= i64::MAX,
    {
        let days = total_days as i128 - stores[i].opened_day as i128;
        if days > 0 {
            sum = sum + days;
        }
    }
    sum
}

fn saturate_to_usize(x: i128) -> (r: usize)
    requires
        x >= 0,
    ensures
        r == saturate(x as int),
{
    if x > usize::MAX as i128 {
        usize::MAX
    } else {
        x as usize
    }
}

/// The number of orders to aim for, for `per_year` orders per store-year.
pub fn compute_order_target(per_year: usize, open: i128) -> (r: usize)
    requires
        per_year <= 15_000,
        0 <= open <= u32::MAX * i64::MAX,
    ensures
        r == order_target(per_year as int, open as int),
{
    if 4 * open >= 1461 {
        proof {
            assert(0 <= 8 * per_year * open <= 8 * 15_000 * (u32::MAX * i64::MAX)) by (nonlinear_arith)
                requires
                    0 <= per_year <= 15_000,
                    0 <= open <= u32::MAX * i64::MAX,
            ;
        }
        saturate_to_usize((8 * per_year as i128 * open + 1461) / 2922)
    } else {
        per_year
    }
}

/// How many customers to keep.
pub fn compute_ideal_customers(target: usize, open: i128, stores: usize) -> (r: usize)
    requires
        0 <= open <= u32::MAX * i64::MAX,
        stores <= u32::MAX,
    ensures
        r == ideal_customers(target as int, open as int, stores as int),
{
    let divisor: i128 = if stores > 1 {
        stores as i128
    } else {
        1
    };
    if 4 * open > 1461 * divisor {
        proof {
            assert(0 <= target * 1461 * divisor <= usize::MAX * 1461 * u32::MAX) by (nonlinear_arith)
                requires
                    0 <= target <= usize::MAX,
                    1 <= divisor <= u32::MAX,
            ;
        }
        saturate_to_usize((target as i128 * 1461 * divisor + 12 * open - 1) / (12 * open))
    } else {
        saturate_to_usize((target as i128 + 2) / 3)
    }
}

/// The most orders one customer keeps.
pub fn compute_per_customer_cap(open: i128, stores: usize) -> (r: usize)
    requires
        0 <= open <= u32::MAX * i64::MAX,
        stores <= u32::MAX,
    ensures
        r == per_customer_cap(open as int, stores as int),
        r >= 1,
{
    let divisor: i128 = if stores > 1 {
        stores as i128
    } else {
        1
    };
    if 4 * open > 1461 * divisor {
        proof {
            assert((20 * open + 1461 * divisor - 1) / (1461 * divisor) >= 1) by (nonlinear_arith)
                requires
                    4 * open > 1461 * divisor,
                    divisor >= 1,
            ;
        }
        saturate_to_usize((20 * open + 1461 * divisor - 1) / (1461 * divisor))
    } else {
        5
    }
}

/// The orders, in order, whose customer has place `k`.
pub open spec fn keyed_part(s: Seq<(usize, Order)>, k: int) -> Seq<Order>
    decreases s.len(),
{
    if s.len() == 0 {
        Seq::empty()
    } else {
        let rest = keyed_part(s.drop_last(), k);
        if s.last().0 == k {
            rest.push(s.last().1)
        } else {
            rest
        }
    }
}

proof fn lemma_keyed_part_nonempty(s: Seq<(usize, Order)>, i: int)
    requires
        0 <= i < s.len(),
    ensures
        keyed_part(s, s[i].0 as int).len() > 0,
    decreases s.len(),
{
    if i < s.len() - 1 {
        lemma_keyed_part_nonempty(s.drop_last(), i);
        assert(s.drop_last()[i] == s[i]);
    }
}

proof fn lemma_order_target_positive(per_year: int, open: int)
    requires
        per_year >= 1,
        open >= 0,
    ensures
        order_target(per_year, open) >= 1,
{
    if 4 * open >= 1461 {
        assert(8 * per_year * open >= 1461) by (nonlinear_arith)
            requires
                per_year >= 1,
                4 * open >= 1461,
        ;
    }
}

proof fn lemma_keyed_part_member(s: Seq<(usize, Order)>, k: int, j: int)
    requires
        0 <= j < keyed_part(s, k).len(),
    ensures
        s.contains((k as usize, keyed_part(s, k)[j])),
    decreases s.len(),
{
    if s.len() > 0 {
        let rest = keyed_part(s.drop_last(), k);
        if s.last().0 == k && j == rest.len() {
            assert(s[s.len() - 1] == (k as usize, keyed_part(s, k)[j]));
        } else {
            lemma_keyed_part_member(s.drop_last(), k, j);
            let i = choose|i: int| 0 <= i < s.drop_last().len() && s.drop_last()[i] == (k as usize, rest[j]);
            assert(s[i] == s.drop_last()[i]);
        }
    }
}

/// The orders split by the place of their customer, each group in order.
pub fn group_orders(orders: Vec<(usize, Order)>, n: usize) -> (r: Vec<Vec<Order>>)
    requires
        forall|i: int| 0 <= i < orders@.len() ==> (#[trigger] orders@[i]).0 < n,
    ensures
        r@.len() == n,
        forall|k: int| 0 <= k < n ==> (#[trigger] r@[k])@ == keyed_part(orders@, k),
{
    let ghost all = orders@;
    let mut groups: Vec<Vec<Order>> = Vec::new();
    for k in 0..n
        invariant
            groups@.len() == k,
            forall|j: int| 0 <= j < k ==> (#[trigger] groups@[j])@ == Seq::<Order>::empty(),
    {
        groups.push(Vec::new());
    }
    for pair in it: orders
        invariant
            it.seq() == all,
            forall|i: int| 0 <= i < all.len() ==> (#[trigger] all[i]).0 < n,
            groups@.len() == n,
            forall|k: int|
                0 <= k < n ==> (#[trigger] groups@[k])@ == keyed_part(all.take(it.index() as int), k),
    {
        let ghost i = it.index();
        assert(all.take(i + 1).drop_last() =~= all.take(i as int));
        assert(all.take(i + 1).last() == pair);
        assert(pair.0 < n);
        let (key, order) = pair;
        let mut group: Vec<Order> = Vec::new();
        groups.set_and_swap(key, &mut group);
        group.push(order);
        groups.set_and_swap(key, &mut group);
    }
    assert(all.take(all.len() as int) =~= all);
    groups
}

/// The places, in increasing order, whose group is not empty.
pub fn keys_with_orders(groups: &Vec<Vec<Order>>) -> (r: Vec<usize>)
    ensures
        forall|i: int| 0 <= i < r@.len() ==> (#[trigger] r@[i]) < groups@.len() && groups@[r@[i] as int]@.len() > 0,
        forall|i: int, j: int| 0 <= i < j < r@.len() ==> r@[i] < r@[j],
        forall|k: int| 0 <= k < groups@.len() && (#[trigger] groups@[k])@.len() > 0 ==> r@.contains(k as usize),
{
    let mut keys: Vec<usize> = Vec::new();
    for k in 0..groups.len()
        invariant
            forall|i: int| 0 <= i < keys@.len() ==> (#[trigger] keys@[i]) < k && groups@[keys@[i] as int]@.len() > 0,
            forall|i: int, j: int| 0 <= i < j < keys@.len() ==> keys@[i] < keys@[j],
            forall|q: int| 0 <= q < k && (#[trigger] groups@[q])@.len() > 0 ==> keys@.contains(q as usize),
    {
        if groups[k].len() > 0 {
            let ghost before = keys@;
            keys.push(k);
            proof {
                assert forall|q: int| 0 <= q < k + 1 && (#[trigger] groups@[q])@.len() > 0 implies keys@.contains(q as usize) by {
                    if q < k {
                        let i = choose|i: int| 0 <= i < before.len() && before[i] == q as usize;
                        assert(keys@[i] == q as usize);
                    } else {
                        assert(keys@[keys@.len() - 1] == q as usize);
                    }
                }
            }
        }
    }
    keys
}

/// Every element of `s` is an element of `t`.
pub open spec fn drawn_from<T>(s: Seq<T>, t: Seq<T>) -> bool {
    forall|i: int| 0 <= i < s.len() ==> t.contains(#[trigger] s[i])
}

proof fn lemma_drawn_from_same_multiset<T>(s: Seq<T>, u: Seq<T>, t: Seq<T>)
    requires
        s.to_multiset() == u.to_multiset(),
        drawn_from(u, t),
    ensures
        drawn_from(s, t),
{
    crate::seqs::lemma_forall_same_multiset(s, u, |x: T| t.contains(x));
    assert forall|i: int| 0 <= i < s.len() implies t.contains(#[trigger] s[i]) by {
        assert((|x: T| t.contains(x))(s[i]));
    }
}

/// The fewest orders kept of a customer who has `n`, for an average of
/// `avg`: half the average, one at least, but no more than they have.
pub open spec fn fewest_kept(avg: int, n: int) -> int {
    let lower = if avg / 2 > 1 {
        avg / 2
    } else {
        1
    };
    if lower < n {
        lower
    } else {
        n
    }
}

/// The most orders kept of a customer who has `n`, for an average of
/// `avg`: twice the average, but no more than they have.
pub open spec fn most_kept(avg: int, n: int) -> int {
    if 2 * avg < n {
        2 * avg
    } else {
        n
    }
}

proof fn lemma_push_contains<T>(s: Seq<T>, a: T, x: T)
    requires
        x != a,
    ensures
        s.push(a).contains(x) == s.contains(x),
{
    if s.contains(x) {
        let w = choose|w: int| 0 <= w < s.len() && s[w] == x;
        assert(s.push(a)[w] == x);
    }
    if s.push(a).contains(x) {
        let w = choose|w: int| 0 <= w < s.push(a).len() && s.push(a)[w] == x;
        assert(s[w] == x);
    }
}

proof fn lemma_keyed_count(s: Seq<(usize, Order)>, k: usize, o: Order)
    ensures
        s.to_multiset().count((k, o)) == keyed_part(s, k as int).to_multiset().count(o),
    decreases s.len(),
{
    if s.len() > 0 {
        let rest = s.drop_last();
        lemma_keyed_count(rest, k, o);
        assert(rest.push(s.last()) =~= s);
        assert(s.to_multiset() == rest.to_multiset().insert(s.last()));
        if s.last().0 == k {
            assert(keyed_part(s, k as int) == keyed_part(rest, k as int).push(s.last().1));
            assert(keyed_part(s, k as int).to_multiset() == keyed_part(rest, k as int).to_multiset().insert(
                s.last().1,
            ));
        } else {
            assert(keyed_part(s, k as int) == keyed_part(rest, k as int));
        }
    }
}

/// Pairs whose orders of each place are among another's orders of that
/// place are among the other's pairs.
proof fn lemma_sub_multiset_by_keys(s: Seq<(usize, Order)>, t: Seq<(usize, Order)>)
    requires
        forall|k: usize| #[trigger] keyed_part(s, k as int).to_multiset().subset_of(
            keyed_part(t, k as int).to_multiset(),
        ),
    ensures
        s.to_multiset().subset_of(t.to_multiset()),
{
    assert forall|p: (usize, Order)| #[trigger] s.to_multiset().count(p) <= t.to_multiset().count(p) by {
        lemma_keyed_count(s, p.0, p.1);
        lemma_keyed_count(t, p.0, p.1);
        assert(keyed_part(s, p.0 as int).to_multiset().subset_of(keyed_part(t, p.0 as int).to_multiset()));
    }
}

proof fn lemma_take_sub_multiset<T>(s: Seq<T>, k: int)
    requires
        0 <= k <= s.len(),
    ensures
        s.take(k).to_multiset().subset_of(s.to_multiset()),
{
    vstd::seq_lib::lemma_multiset_commutative(s.take(k), s.skip(k));
    assert(s.take(k) + s.skip(k) =~= s);
}

/// For each customer in `ids`, keeps a random share of their orders: a
/// number drawn from half the average to twice it (one at least, and no
/// more than they have unless half the average is more), chosen at random.
/// Each order kept comes with its customer's place; a customer named twice
/// is served once.
pub fn keep_orders_of(
    groups: &mut Vec<Vec<Order>>,
    ids: &Vec<usize>,
    avg_per_customer: usize,
    rng: &mut StdRng,
) -> (r: Vec<(usize, Order)>)
    requires
        forall|i: int| 0 <= i < ids@.len() ==> (#[trigger] ids@[i]) < old(groups)@.len(),
        avg_per_customer >= 1,
    ensures
        forall|i: int|
            0 <= i < r@.len() ==> (#[trigger] r@[i]).0 < old(groups)@.len() && old(
                groups,
            )@[r@[i].0 as int]@.contains(r@[i].1) && ids@.contains(r@[i].0),
        forall|i: int|
            #![trigger ids@[i]]
            0 <= i < ids@.len() ==> {
                let k = ids@[i] as int;
                &&& fewest_kept(avg_per_customer as int, old(groups)@[k]@.len() as int)
                    <= keyed_part(r@, k).len()
                    <= most_kept(avg_per_customer as int, old(groups)@[k]@.len() as int)
                &&& keyed_part(r@, k).to_multiset().subset_of(old(groups)@[k]@.to_multiset())
            },
{
    let ghost orig = groups@;
    let group_count = groups.len();
    let mut kept: Vec<(usize, Order)> = Vec::new();
    for idx in 0..ids.len()
        invariant
            orig == old(groups)@,
            orig.len() == group_count,
            groups@.len() == orig.len(),
            forall|i: int| 0 <= i < ids@.len() ==> (#[trigger] ids@[i]) < orig.len(),
            avg_per_customer >= 1,
            forall|k: int|
                0 <= k < orig.len() ==> if ids@.take(idx as int).contains(k as usize) {
                    (#[trigger] groups@[k])@.len() == 0
                } else {
                    groups@[k] == orig[k]
                },
            forall|i: int|
                0 <= i < kept@.len() ==> (#[trigger] kept@[i]).0 < orig.len() && orig[kept@[i].0 as int]@.contains(
                    kept@[i].1,
                ) && ids@.take(idx as int).contains(kept@[i].0),
            forall|i: int|
                #![trigger ids@[i]]
                0 <= i < idx ==> {
                    let k = ids@[i] as int;
                    &&& fewest_kept(avg_per_customer as int, orig[k]@.len() as int)
                        <= keyed_part(kept@, k).len()
                        <= most_kept(avg_per_customer as int, orig[k]@.len() as int)
                    &&& keyed_part(kept@, k).to_multiset().subset_of(orig[k]@.to_multiset())
                },
    {
        let cid = ids[idx];
        let ghost seen = ids@.take(idx as int);
        let ghost fresh = !seen.contains(cid);
        assert(ids@.take(idx + 1) =~= seen.push(cid));
        let mut orders: Vec<Order> = Vec::new();
        let ghost before = groups@;
        groups.set_and_swap(cid, &mut orders);
        let lower = if avg_per_customer / 2 > 1 {
            avg_per_customer / 2
        } else {
            1
        };
        let capped = if avg_per_customer <= orders.len() / 2 {
            2 * avg_per_customer
        } else {
            orders.len()
        };
        let upper = if capped > lower {
            capped
        } else {
            lower
        };
        let keep = random_in_range(rng, lower - 1, upper) + 1;
        let ghost taken = orders@;
        fisher_yates_shuffle(&mut orders, rng);
        let ghost shuffled = orders@;
        orders.truncate(keep);
        let ghost chosen = orders@;
        proof {
            assert(fresh ==> taken == orig[cid as int]@);
            assert(!fresh ==> taken.len() == 0);
            if keep < shuffled.len() {
                assert(chosen == shuffled.take(keep as int));
                lemma_take_sub_multiset(shuffled, keep as int);
            } else {
                assert(chosen == shuffled);
            }
            assert(chosen.to_multiset().subset_of(taken.to_multiset()));
            assert(chosen.len() == if keep < taken.len() { keep as int } else { taken.len() as int });
            assert forall|q: int| 0 <= q < chosen.len() implies taken.contains(#[trigger] chosen[q]) by {
                assert(chosen.to_multiset().count(chosen[q]) > 0);
            }
            if fresh {
                lemma_keyed_part_absent(kept@, cid as int);
            }
            assert(lower <= keep <= upper);
            assert(fewest_kept(avg_per_customer as int, taken.len() as int) <= chosen.len()
                <= most_kept(avg_per_customer as int, taken.len() as int));
            assert(ids@.take(idx + 1)[idx as int] == cid);
        }
        let ghost kept_before = kept@;
        for o in it: orders
            invariant
                it.seq() == chosen,
                cid < orig.len(),
                ids@.take(idx + 1).contains(cid),
                forall|q: int| 0 <= q < chosen.len() ==> taken.contains(#[trigger] chosen[q]),
                fresh ==> taken == orig[cid as int]@,
                !fresh ==> chosen.len() == 0,
                forall|i: int|
                    0 <= i < kept@.len() ==> (#[trigger] kept@[i]).0 < orig.len() && orig[kept@[i].0 as int]@.contains(
                        kept@[i].1,
                    ) && ids@.take(idx + 1).contains(kept@[i].0),
                fresh ==> keyed_part(kept@, cid as int) == chosen.take(it.index() as int),
                forall|k: int| k != cid ==> #[trigger] keyed_part(kept@, k) == keyed_part(kept_before, k),
                kept@.len() == kept_before.len() + it.index(),
                it.index() == 0 ==> kept@ == kept_before,
        {
            let ghost j = it.index();
            assert(chosen[j as int] == o);
            let ghost prev = kept@;
            kept.push((cid, o));
            proof {
                assert forall|k: int| k != cid implies #[trigger] keyed_part(kept@, k) == keyed_part(kept_before, k) by {
                    lemma_keyed_part_push(prev, (cid, o), k);
                }
                lemma_keyed_part_push(prev, (cid, o), cid as int);
                assert(chosen.take(j + 1) =~= chosen.take(j as int).push(o));
                assert(kept@[kept@.len() - 1] == (cid, o));
            }
        }
        proof {
            assert(kept@.len() == kept_before.len() + chosen.len());
            if fresh {
                assert(chosen.take(chosen.len() as int) =~= chosen);
            }
            assert forall|k: int| 0 <= k < orig.len() implies if ids@.take(idx + 1).contains(k as usize) {
                (#[trigger] groups@[k])@.len() == 0
            } else {
                groups@[k] == orig[k]
            } by {
                if k != cid {
                    assert(groups@[k] == before[k]);
                    lemma_push_contains(seen, cid, k as usize);
                }
            }
            assert forall|i: int|
                #![trigger ids@[i]]
                0 <= i < idx + 1 implies {
                    let k = ids@[i] as int;
                    &&& fewest_kept(avg_per_customer as int, orig[k]@.len() as int)
                        <= keyed_part(kept@, k).len()
                        <= most_kept(avg_per_customer as int, orig[k]@.len() as int)
                    &&& keyed_part(kept@, k).to_multiset().subset_of(orig[k]@.to_multiset())
                } by {
                let k = ids@[i] as int;
                if k != cid {
                } else if fresh {
                    if i < idx {
                        assert(seen[i] == ids@[i]);
                    }
                    assert(i == idx || seen.contains(ids@[i]));
                    assert(keyed_part(kept@, k) == chosen);
                } else {
                    assert(chosen.len() == 0);
                    if i == idx {
                        let w = choose|w: int| 0 <= w < seen.len() && seen[w] == cid;
                        assert(ids@[w] == cid);
                    }
                }
            }
        }
    }
    assert(ids@.take(ids@.len() as int) =~= ids@);
    kept
}

/// Something that happened at a minute.
pub trait Timed {
    spec fn spec_time(&self) -> int;

    fn time(&self) -> (r: i64)
        ensures
            r as int == self.spec_time(),
    ;
}

impl Timed for (usize, Order) {
    open spec fn spec_time(&self) -> int {
        self.1.ordered_at as int
    }

    fn time(&self) -> (r: i64) {
        self.1.ordered_at
    }
}

impl Timed for (usize, Tweet) {
    open spec fn spec_time(&self) -> int {
        self.1.tweeted_at as int
    }

    fn time(&self) -> (r: i64) {
        self.1.tweeted_at
    }
}

/// In order of time.
pub open spec fn sorted_by_time<T: Timed>(s: Seq<T>) -> bool {
    forall|i: int, j: int| 0 <= i < j < s.len() ==> s[i].spec_time() <= s[j].spec_time()
}

/// `r` is `s` with its elements moved by `perm`: each place of `r` takes
/// the element at a place of `s`, no place twice, and elements of equal
/// time keep the order they had.
pub open spec fn moved_stably<T: Timed>(r: Seq<T>, s: Seq<T>, perm: Seq<int>) -> bool {
    &&& perm.len() == s.len()
    &&& r.len() == s.len()
    &&& forall|i: int| 0 <= i < perm.len() ==> 0 <= #[trigger] perm[i] < s.len() && r[i] == s[perm[i]]
    &&& forall|i: int, j: int| 0 <= i < j < perm.len() ==> #[trigger] perm[i] != #[trigger] perm[j]
    &&& forall|i: int, j: int|
        0 <= i < j < r.len() && r[i].spec_time() == r[j].spec_time() ==> perm[i] < perm[j]
}

/// `slice::sort_by_key` with `Timed::time` as the key. std documents a
/// stable sort: the result is in order of time, holds the same elements,
/// and elements of equal time keep the order they had.
#[verifier::external_body]
pub(crate) fn sort_by_time<T: Timed>(v: &mut Vec<T>)
    ensures
        final(v)@.len() == old(v)@.len(),
        final(v)@.to_multiset() == old(v)@.to_multiset(),
        sorted_by_time(final(v)@),
        exists|perm: Seq<int>| #[trigger] moved_stably(final(v)@, old(v)@, perm),
{
    v.sort_by_key(|x| x.time())
}

/// The two orders are one order, but for whose it is.
pub open spec fn same_but_customer(a: Order, b: Order) -> bool {
    &&& a.id == b.id
    &&& a.store_id == b.store_id
    &&& a.ordered_at == b.ordered_at
    &&& a.items == b.items
    &&& a.subtotal_cents == b.subtotal_cents
    &&& a.tax_paid_cents == b.tax_paid_cents
    &&& a.order_total_cents == b.order_total_cents
}

/// The two customers have the same persona at the same store.
pub open spec fn same_kind(a: Customer, b: Customer) -> bool {
    a.persona == b.persona && a.store_id@ == b.store_id@
}

/// A customer split off from one of the first `n` customers: a new customer
/// of the same persona at the same store.
pub open spec fn split_from(c: Customer, customers: Seq<Customer>, n: int) -> bool {
    exists|k: int|
        0 <= k < n && c.persona == (#[trigger] customers[k]).persona && c.store_id@ == customers[k].store_id@
}

proof fn lemma_keyed_part_push(s: Seq<(usize, Order)>, p: (usize, Order), k: int)
    ensures
        keyed_part(s.push(p), k) == if p.0 == k {
            keyed_part(s, k).push(p.1)
        } else {
            keyed_part(s, k)
        },
{
    assert(s.push(p).drop_last() =~= s);
}

proof fn lemma_keyed_part_absent(s: Seq<(usize, Order)>, k: int)
    requires
        forall|i: int| 0 <= i < s.len() ==> (#[trigger] s[i]).0 != k,
    ensures
        keyed_part(s, k).len() == 0,
    decreases s.len(),
{
    if s.len() > 0 {
        lemma_keyed_part_absent(s.drop_last(), k);
    }
}

/// Splits each customer with more than `cap` orders into several: in order
/// of time, each run of `cap` of their orders after the first goes to a new
/// customer of the same persona at the same store. The orders keep their
/// order and all but whose they are.
#[verifier::spinoff_prover]
pub fn split_heavy_customers(
    orders: Vec<(usize, Order)>,
    customers: &mut Vec<Customer>,
    cap: usize,
    names: &Vec<String>,
    rng: &mut StdRng,
) -> (r: Vec<(usize, Order)>)
    requires
        orders_keyed(orders@, old(customers)@),
        cap >= 1,
        names.len() > 0,
    ensures
        r@.len() == orders@.len(),
        forall|i: int| 0 <= i < r@.len() ==> same_but_customer((#[trigger] r@[i]).1, orders@[i].1),
        orders_keyed(r@, final(customers)@),
        final(customers)@.len() >= old(customers)@.len(),
        forall|i: int| 0 <= i < old(customers)@.len() ==> #[trigger] final(customers)@[i] == old(customers)@[i],
        forall|k: int|
            old(customers)@.len() <= k < final(customers)@.len() ==> split_from(
                #[trigger] final(customers)@[k],
                old(customers)@,
                old(customers)@.len() as int,
            ),
        forall|k: int| 0 <= k < final(customers)@.len() ==> #[trigger] keyed_part(r@, k).len() <= cap,
        forall|k: int|
            old(customers)@.len() <= k < final(customers)@.len() ==> #[trigger] keyed_part(r@, k).len() >= 1,
        forall|i: int|
            0 <= i < r@.len() ==> same_kind(
                final(customers)@[(#[trigger] r@[i]).0 as int],
                old(customers)@[orders@[i].0 as int],
            ),
        forall|k: int|
            0 <= k < old(customers)@.len() ==> #[trigger] keyed_part(r@, k).len() == if keyed_part(
                orders@,
                k,
            ).len() <= cap {
                keyed_part(orders@, k).len() as int
            } else {
                cap as int
            },
{
    let ghost all = orders@;
    let ghost start = customers@;
    let n0 = customers.len();
    let mut current: Vec<usize> = Vec::new();
    let mut used: Vec<usize> = Vec::new();
    for k in 0..n0
        invariant
            current@.len() == k,
            used@.len() == k,
            forall|j: int| 0 <= j < k ==> #[trigger] current@[j] == j,
            forall|j: int| 0 <= j < k ==> #[trigger] used@[j] == 0,
    {
        current.push(k);
        used.push(0);
    }
    let mut out: Vec<(usize, Order)> = Vec::new();
    proof {
        assert forall|k: int| 0 <= k < n0 implies #[trigger] keyed_part(out@, current@[k] as int).len() == used@[k] by {
            lemma_keyed_part_absent(out@, current@[k] as int);
        }
        assert forall|k: int| 0 <= k < customers@.len() implies #[trigger] keyed_part(out@, k).len() <= cap by {
            lemma_keyed_part_absent(out@, k);
        }
    }
    for pair in it: orders
        invariant
            it.seq() == all,
            orders_keyed(all, start),
            cap >= 1,
            names.len() > 0,
            n0 == start.len(),
            customers@.len() >= n0,
            forall|i: int| 0 <= i < n0 ==> #[trigger] customers@[i] == start[i],
            forall|k: int| n0 <= k < customers@.len() ==> split_from(#[trigger] customers@[k], start, n0 as int),
            current@.len() == n0,
            used@.len() == n0,
            forall|k: int|
                0 <= k < n0 ==> (#[trigger] current@[k]) < customers@.len() && used@[k] <= cap
                    && keyed_part(out@, current@[k] as int).len() == used@[k],
            forall|k1: int, k2: int|
                0 <= k1 < n0 && 0 <= k2 < n0 && k1 != k2 ==> #[trigger] current@[k1] != #[trigger] current@[k2],
            out@.len() == it.index(),
            forall|i: int| 0 <= i < out@.len() ==> same_but_customer((#[trigger] out@[i]).1, all[i].1),
            orders_keyed(out@, customers@),
            forall|k: int| 0 <= k < customers@.len() ==> #[trigger] keyed_part(out@, k).len() <= cap,
            forall|k: int| 0 <= k < n0 ==> (#[trigger] current@[k]) == k || current@[k] >= n0,
            forall|q: int| n0 <= q < customers@.len() ==> #[trigger] keyed_part(out@, q).len() >= 1,
            forall|k: int| 0 <= k < n0 ==> same_kind(customers@[(#[trigger] current@[k]) as int], start[k]),
            forall|q: int|
                0 <= q < out@.len() ==> same_kind(customers@[(#[trigger] out@[q]).0 as int], start[all[q].0 as int]),
            forall|k: int|
                0 <= k < n0 ==> ((#[trigger] current@[k]) == k <==> keyed_part(all.take(it.index() as int), k).len()
                    <= cap),
            forall|k: int|
                0 <= k < n0 ==> #[trigger] keyed_part(out@, k).len() == if keyed_part(
                    all.take(it.index() as int),
                    k,
                ).len() <= cap {
                    keyed_part(all.take(it.index() as int), k).len() as int
                } else {
                    cap as int
                },
    {
        let ghost i = it.index();
        assert(pair == all[i as int]);
        let (k, mut order) = pair;
        assert(k < n0);
        let ghost current_before = current@;
        let ghost out_before = out@;
        proof {
            assert(all.take(i + 1) =~= all.take(i as int).push(all[i as int]));
            assert forall|q: int| #![trigger keyed_part(all.take(i + 1), q)]
                true implies keyed_part(all.take(i + 1), q) == if q == k {
                    keyed_part(all.take(i as int), q).push(all[i as int].1)
                } else {
                    keyed_part(all.take(i as int), q)
                } by {
                lemma_keyed_part_push(all.take(i as int), all[i as int], q);
            }
            if current@[k as int] == k {
                assert(keyed_part(out@, k as int).len() == used@[k as int]);
            }
        }
        if used[k] == cap {
            let persona = customers[k].persona;
            let name = crate::models::customer::random_name(names, rng);
            let fresh = Customer::new(persona, customers[k].store_id.as_str(), name, rng);
            let ghost before = customers@;
            customers.push(fresh);
            let new_key = customers.len() - 1;
            proof {
                assert forall|q: int| 0 <= q < out@.len() implies same_kind(
                    customers@[(#[trigger] out@[q]).0 as int],
                    start[all[q].0 as int],
                ) by {
                    assert(customers@[out@[q].0 as int] == before[out@[q].0 as int]);
                }
                assert(customers@[new_key as int] == fresh);
                assert(fresh.persona == start[k as int].persona);
                assert(fresh.store_id@ == start[k as int].store_id@);
                assert(split_from(fresh, start, n0 as int));
                assert forall|q: int| 0 <= q < out@.len() implies (#[trigger] out@[q]).0 != new_key by {
                }
                lemma_keyed_part_absent(out@, new_key as int);
                assert forall|q: int| n0 <= q < customers@.len() implies split_from(#[trigger] customers@[q], start, n0 as int) by {
                    if q < new_key {
                        assert(customers@[q] == before[q]);
                    }
                }
            }
            current.set(k, new_key);
            used.set(k, 0);
        }
        let key = current[k];
        order.customer_id = customers[key].id.clone();
        let ghost before_out = out@;
        out.push((key, order));
        proof {
            assert forall|q: int| 0 <= q < customers@.len() implies #[trigger] keyed_part(out@, q).len() <= cap by {
                lemma_keyed_part_push(before_out, (key, order), q);
            }
            assert forall|q: int| 0 <= q < n0 implies keyed_part(out@, (#[trigger] current@[q]) as int).len() == used@[q] + if q == k {
                1int
            } else {
                0
            } by {
                lemma_keyed_part_push(before_out, (key, order), current@[q] as int);
            }
        }
        let ghost used_before = used@;
        used.set(k, used[k] + 1);
        proof {
            assert forall|q: int| 0 <= q < out@.len() implies same_kind(
                customers@[(#[trigger] out@[q]).0 as int],
                start[all[q].0 as int],
            ) by {
                if q < out_before.len() {
                    assert(out@[q] == out_before[q]);
                } else {
                    assert(out@[q] == (key, order));
                }
            }
            assert forall|q: int| 0 <= q < n0 implies same_kind(customers@[(#[trigger] current@[q]) as int], start[q]) by {
                if q != k {
                    assert(current@[q] == current_before[q]);
                }
            }
            assert forall|q: int| n0 <= q < customers@.len() implies #[trigger] keyed_part(out@, q).len() >= 1 by {
                lemma_keyed_part_push(out_before, (key, order), q);
            }
            assert forall|q: int| 0 <= q < n0 implies (#[trigger] current@[q]) == q || current@[q] >= n0 by {
                if q != k {
                    assert(current@[q] == current_before[q]);
                }
            }
            assert forall|q: int| 0 <= q < n0 implies ((#[trigger] current@[q]) == q <==> keyed_part(
                all.take(i + 1),
                q,
            ).len() <= cap) by {
                assert(keyed_part(all.take(i + 1), q) == if q == k {
                    keyed_part(all.take(i as int), q).push(all[i as int].1)
                } else {
                    keyed_part(all.take(i as int), q)
                });
                if q != k {
                    assert(current@[q] == current_before[q]);
                }
            }
            assert forall|q: int| 0 <= q < n0 implies #[trigger] keyed_part(out@, q).len() == if keyed_part(
                all.take(i + 1),
                q,
            ).len() <= cap {
                keyed_part(all.take(i + 1), q).len() as int
            } else {
                cap as int
            } by {
                lemma_keyed_part_push(out_before, (key, order), q);
                assert(keyed_part(all.take(i + 1), q) == if q == k {
                    keyed_part(all.take(i as int), q).push(all[i as int].1)
                } else {
                    keyed_part(all.take(i as int), q)
                });
            }
            assert forall|q: int| 0 <= q < n0 implies (#[trigger] current@[q]) < customers@.len()
                && used@[q] <= cap && keyed_part(out@, current@[q] as int).len() == used@[q] by {
                assert(keyed_part(out@, current@[q] as int).len() == used_before[q] + if q == k {
                    1int
                } else {
                    0
                });
                if q == k {
                    assert(used@[q] == used_before[q] + 1);
                } else {
                    assert(used@[q] == used_before[q]);
                }
            }
        }
    }
    assert(all.take(all.len() as int) =~= all);
    out
}

/// For each of `n` places, whether some order's customer has it.
pub fn mark_ordering(orders: &Vec<(usize, Order)>, n: usize) -> (r: Vec<bool>)
    requires
        forall|i: int| 0 <= i < orders@.len() ==> (#[trigger] orders@[i]).0 < n,
    ensures
        r@.len() == n,
        forall|k: int|
            0 <= k < n ==> (#[trigger] r@[k] <==> exists|i: int|
                0 <= i < orders@.len() && (#[trigger] orders@[i]).0 == k),
{
    let mut marks: Vec<bool> = Vec::new();
    for k in 0..n
        invariant
            marks@.len() == k,
            forall|j: int| 0 <= j < k ==> !(#[trigger] marks@[j]),
    {
        marks.push(false);
    }
    for i in 0..orders.len()
        invariant
            marks@.len() == n,
            forall|q: int| 0 <= q < orders@.len() ==> (#[trigger] orders@[q]).0 < n,
            forall|k: int|
                0 <= k < n ==> (#[trigger] marks@[k] <==> exists|q: int|
                    0 <= q < i && (#[trigger] orders@[q]).0 == k),
    {
        let key = orders[i].0;
        marks.set(key, true);
        proof {
            assert forall|k: int|
                0 <= k < n implies (#[trigger] marks@[k] <==> exists|q: int|
                0 <= q < i + 1 && (#[trigger] orders@[q]).0 == k) by {
                if k == key {
                    assert(orders@[i as int].0 == k);
                }
            }
        }
    }
    marks
}

/// One of the customers whose mark is set.
pub open spec fn among_marked(c: Customer, customers: Seq<Customer>, marks: Seq<bool>) -> bool {
    exists|q: int| 0 <= q < customers.len() && marks[q] && c == #[trigger] customers[q]
}

/// The first `k` customers whose mark is set, in order.
pub open spec fn marked_of(customers: Seq<Customer>, marks: Seq<bool>, k: int) -> Seq<Customer>
    decreases k,
{
    if k <= 0 {
        Seq::empty()
    } else if marks[k - 1] {
        marked_of(customers, marks, k - 1).push(customers[k - 1])
    } else {
        marked_of(customers, marks, k - 1)
    }
}

proof fn lemma_marked_of_none(customers: Seq<Customer>, marks: Seq<bool>, k: int)
    requires
        0 <= k <= marks.len(),
        forall|q: int| 0 <= q < k ==> !(#[trigger] marks[q]),
    ensures
        marked_of(customers, marks, k).len() == 0,
    decreases k,
{
    if k > 0 {
        lemma_marked_of_none(customers, marks, k - 1);
    }
}

/// No two of the customers share an id.
pub open spec fn distinct_ids(customers: Seq<Customer>) -> bool {
    forall|a: int, b: int|
        0 <= a < b < customers.len() ==> (#[trigger] customers[a]).id@ != (#[trigger] customers[b]).id@
}

/// How many of the orders are the customer's with this id.
pub open spec fn orders_of(orders: Seq<Order>, id: Seq<char>) -> nat
    decreases orders.len(),
{
    if orders.len() == 0 {
        0
    } else {
        orders_of(orders.drop_last(), id) + if orders.last().customer_id@ == id {
            1nat
        } else {
            0nat
        }
    }
}

proof fn lemma_orders_of_keyed(split: Seq<(usize, Order)>, customers: Seq<Customer>, q: int)
    requires
        orders_keyed(split, customers),
        0 <= q < customers.len(),
        forall|i: int|
            0 <= i < split.len() && customers[(#[trigger] split[i]).0 as int].id@ == customers[q].id@
                ==> split[i].0 == q,
    ensures
        orders_of(split.map_values(|p: (usize, Order)| p.1), customers[q].id@) == keyed_part(split, q).len(),
    decreases split.len(),
{
    if split.len() > 0 {
        let rest = split.drop_last();
        assert forall|i: int| 0 <= i < rest.len() implies (#[trigger] rest[i]).0 < customers.len()
            && rest[i].1.customer_id@ == customers[rest[i].0 as int].id@ by {
            assert(rest[i] == split[i]);
        }
        assert forall|i: int|
            0 <= i < rest.len() && customers[(#[trigger] rest[i]).0 as int].id@ == customers[q].id@
                implies rest[i].0 == q by {
            assert(rest[i] == split[i]);
        }
        lemma_orders_of_keyed(rest, customers, q);
        let m = split.map_values(|p: (usize, Order)| p.1);
        assert(m.drop_last() =~= rest.map_values(|p: (usize, Order)| p.1));
        let last = split[split.len() - 1];
        assert(last.1.customer_id@ == customers[last.0 as int].id@);
    }
}

proof fn lemma_marked_of_contains(customers: Seq<Customer>, marks: Seq<bool>, n: int, a: int)
    requires
        0 <= a < n <= marks.len(),
        marks[a],
    ensures
        exists|p: int|
            0 <= p < marked_of(customers, marks, n).len() && marked_of(customers, marks, n)[p] == customers[a],
    decreases n,
{
    if a == n - 1 {
        let m = marked_of(customers, marks, n);
        assert(m[m.len() - 1] == customers[a]);
    } else {
        lemma_marked_of_contains(customers, marks, n - 1, a);
        let prev = marked_of(customers, marks, n - 1);
        let p = choose|p: int| 0 <= p < prev.len() && prev[p] == customers[a];
        assert(marked_of(customers, marks, n)[p] == customers[a]);
    }
}

proof fn lemma_marked_of_two(customers: Seq<Customer>, marks: Seq<bool>, n: int, a: int, b: int)
    requires
        0 <= a < b < n <= marks.len(),
        marks[a],
        marks[b],
    ensures
        exists|p1: int, p2: int|
            0 <= p1 < p2 < marked_of(customers, marks, n).len() && marked_of(customers, marks, n)[p1]
                == customers[a] && marked_of(customers, marks, n)[p2] == customers[b],
    decreases n,
{
    let m = marked_of(customers, marks, n);
    if b == n - 1 {
        lemma_marked_of_contains(customers, marks, n - 1, a);
        let prev = marked_of(customers, marks, n - 1);
        let p1 = choose|p: int| 0 <= p < prev.len() && prev[p] == customers[a];
        assert(m[p1] == customers[a]);
        assert(m[m.len() - 1] == customers[b]);
    } else {
        lemma_marked_of_two(customers, marks, n - 1, a, b);
        let prev = marked_of(customers, marks, n - 1);
        let (p1, p2) = choose|p1: int, p2: int|
            0 <= p1 < p2 < prev.len() && prev[p1] == customers[a] && prev[p2] == customers[b];
        assert(m[p1] == customers[a]);
        assert(m[p2] == customers[b]);
    }
}

/// The customers whose mark is set, in order.
pub fn marked_customers(customers: &Vec<Customer>, marks: &Vec<bool>) -> (r: Vec<Customer>)
    requires
        marks@.len() == customers@.len(),
    ensures
        r@ == marked_of(customers@, marks@, customers@.len() as int),
        forall|k: int| 0 <= k < customers@.len() && #[trigger] marks@[k] ==> r@.contains(customers@[k]),
        forall|j: int| 0 <= j < r@.len() ==> #[trigger] among_marked(r@[j], customers@, marks@),
{
    let mut kept: Vec<Customer> = Vec::new();
    for k in 0..customers.len()
        invariant
            marks@.len() == customers@.len(),
            kept@ == marked_of(customers@, marks@, k as int),
            forall|q: int| 0 <= q < k && #[trigger] marks@[q] ==> kept@.contains(customers@[q]),
            forall|j: int| 0 <= j < kept@.len() ==> #[trigger] among_marked(kept@[j], customers@, marks@),
    {
        if marks[k] {
            let ghost before = kept@;
            kept.push(customers[k].clone());
            proof {
                assert(kept@[kept@.len() - 1] == customers@[k as int]);
                assert forall|q: int| 0 <= q < k + 1 && #[trigger] marks@[q] implies kept@.contains(customers@[q]) by {
                    if q < k {
                        let j = choose|j: int| 0 <= j < before.len() && before[j] == customers@[q];
                        assert(kept@[j] == before[j]);
                    }
                }
                assert forall|j: int| 0 <= j < kept@.len() implies #[trigger] among_marked(
                    kept@[j],
                    customers@,
                    marks@,
                ) by {
                    if j < before.len() {
                        assert(kept@[j] == before[j]);
                        assert(among_marked(before[j], customers@, marks@));
                    } else {
                        assert(kept@[j] == customers@[k as int]);
                    }
                }
            }
        }
    }
    kept
}

/// The tweets, in order, whose author's mark is set.
pub open spec fn tweets_of_marked(tweets: Seq<(usize, Tweet)>, marks: Seq<bool>) -> Seq<(usize, Tweet)>
    decreases tweets.len(),
{
    if tweets.len() == 0 {
        tweets
    } else {
        let rest = tweets_of_marked(tweets.drop_last(), marks);
        if marks[tweets.last().0 as int] {
            rest.push(tweets.last())
        } else {
            rest
        }
    }
}

proof fn lemma_tweets_of_marked(tweets: Seq<(usize, Tweet)>, marks: Seq<bool>)
    requires
        forall|i: int| 0 <= i < tweets.len() ==> (#[trigger] tweets[i]).0 < marks.len(),
    ensures
        drawn_from(tweets_of_marked(tweets, marks), tweets),
        forall|i: int|
            0 <= i < tweets_of_marked(tweets, marks).len() ==> marks[(#[trigger] tweets_of_marked(
                tweets,
                marks,
            )[i]).0 as int],
    decreases tweets.len(),
{
    if tweets.len() > 0 {
        let rest = tweets_of_marked(tweets.drop_last(), marks);
        lemma_tweets_of_marked(tweets.drop_last(), marks);
        let r = tweets_of_marked(tweets, marks);
        assert forall|i: int| 0 <= i < r.len() implies tweets.contains(#[trigger] r[i]) by {
            if i < rest.len() {
                assert(r[i] == rest[i]);
                assert(tweets.drop_last().contains(rest[i]));
                let q = choose|q: int| 0 <= q < tweets.drop_last().len() && tweets.drop_last()[q] == rest[i];
                assert(tweets[q] == tweets.drop_last()[q]);
            } else {
                assert(r[i] == tweets[tweets.len() - 1]);
            }
        }
        assert forall|i: int| 0 <= i < r.len() implies marks[(#[trigger] r[i]).0 as int] by {
            if i < rest.len() {
                assert(r[i] == rest[i]);
            }
        }
    }
}

/// Keeps the tweets whose author's mark is set, in order.
pub fn keep_tweets_of_marked(tweets: Vec<(usize, Tweet)>, marks: &Vec<bool>) -> (r: Vec<(usize, Tweet)>)
    requires
        forall|i: int| 0 <= i < tweets@.len() ==> (#[trigger] tweets@[i]).0 < marks@.len(),
    ensures
        r@ == tweets_of_marked(tweets@, marks@),
{
    let ghost all = tweets@;
    let mut kept: Vec<(usize, Tweet)> = Vec::new();
    for t in it: tweets
        invariant
            it.seq() == all,
            forall|i: int| 0 <= i < all.len() ==> (#[trigger] all[i]).0 < marks@.len(),
            kept@ == tweets_of_marked(all.take(it.index() as int), marks@),
    {
        let ghost i = it.index();
        assert(all.take(i + 1).drop_last() =~= all.take(i as int));
        assert(all.take(i + 1).last() == t);
        assert(t.0 < marks@.len());
        if marks[t.0] {
            kept.push(t);
        }
    }
    assert(all.take(all.len() as int) =~= all);
    kept
}

/// The second elements, in order.
pub fn strip_keys<T>(v: Vec<(usize, T)>) -> (r: Vec<T>)
    ensures
        r@ == v@.map_values(|p: (usize, T)| p.1),
{
    let ghost all = v@;
    let mut out: Vec<T> = Vec::new();
    for p in it: v
        invariant
            it.seq() == all,
            out@ == all.take(it.index() as int).map_values(|p: (usize, T)| p.1),
    {
        let ghost i = it.index();
        assert(all.take(i + 1).drop_last() =~= all.take(i as int));
        out.push(p.1);
        assert(out@ =~= all.take(i + 1).map_values(|p: (usize, T)| p.1));
    }
    assert(all.take(all.len() as int) =~= all);
    out
}

/// The customer id is that of one of the customers.
pub open spec fn listed(id: Seq<char>, customers: Seq<Customer>) -> bool {
    exists|j: int| 0 <= j < customers.len() && id == (#[trigger] customers[j]).id@
}

/// Some order is the customer's.
pub open spec fn has_order(id: Seq<char>, orders: Seq<Order>) -> bool {
    exists|i: int| 0 <= i < orders.len() && id == (#[trigger] orders[i]).customer_id@
}

/// The orders, tweets and customers of a simulation: every order placed
/// within the simulated days at a store that was open, by a listed
/// customer; every tweet posted within the simulated days by a listed
/// customer.
pub open spec fn consistent(config: SimConfig, orders: Seq<Order>, tweets: Seq<Tweet>, customers: Seq<
    Customer,
>) -> bool {
    &&& forall|i: int| 0 <= i < orders.len() ==> #[trigger] order_in_window(config, orders[i])
    &&& forall|i: int| 0 <= i < orders.len() ==> listed((#[trigger] orders[i]).customer_id@, customers)
    &&& forall|i: int| 0 <= i < tweets.len() ==> #[trigger] tweet_in_window(config, tweets[i])
    &&& forall|i: int| 0 <= i < tweets.len() ==> listed((#[trigger] tweets[i]).user_id@, customers)
}

/// Without a cap: the orders in order of time, no more than the target for
/// some yearly rate from 10,000 to 15,000 per store; every listed customer
/// has an order; at most one tweet for each ten orders, rounded.
pub open spec fn balanced(config: SimConfig, orders: Seq<Order>, tweets: Seq<Tweet>, customers: Seq<
    Customer,
>) -> bool {
    &&& forall|i: int, j: int|
        0 <= i < j < orders.len() ==> orders[i].ordered_at <= orders[j].ordered_at
    &&& exists|per_year: int|
        10_000 <= per_year <= 15_000 && orders.len() <= order_target(
            per_year,
            open_days(config.stores@, sim_days(config), config.stores@.len() as int),
        )
    &&& forall|j: int| 0 <= j < customers.len() ==> has_order((#[trigger] customers[j]).id@, orders)
    &&& tweets.len() <= (orders.len() + 5) / 10
}

proof fn lemma_keyed_view<T>(v: Seq<(usize, T)>, i: int)
    requires
        0 <= i < v.len(),
    ensures
        v.map_values(|p: (usize, T)| p.1)[i] == v[i].1,
{
}

/// For each of `n` places, whether one of the pairs has it.
pub open spec fn marks_of<T>(pairs: Seq<(usize, T)>, n: int) -> Seq<bool> {
    Seq::new(n as nat, |k: int| exists|i: int| 0 <= i < pairs.len() && (#[trigger] pairs[i]).0 == k)
}

/// The average number of orders each of `selected` customers keeps to
/// reach `target`: the target divided among them, rounded up, one at least.
pub open spec fn average_kept(target: int, selected: int) -> int {
    let up = target / selected + if target % selected != 0 {
        1int
    } else {
        0
    };
    if up > 1 {
        up
    } else {
        1
    }
}

/// The steps by which a raw run is cut down to `r` without a cap, each with
/// what it gives:
/// - a yearly rate from 10,000 to 15,000, and the order target it makes
///   for the store-years of the run;
/// - the places of the customers who ordered, in increasing order (`all`);
/// - the customers chosen among them, none twice: as many as the ideal
///   number for the target, one at least, but no more than there are;
/// - for each chosen customer, from half the average to twice it of their
///   own orders (`pre`), the average being the target shared among them;
/// - of those, the target at most, in order of time (`kept`);
/// - the same orders with heavy customers split off, each customer holding
///   the per-customer cap at most (`split`, among `customers`);
/// - the customers who keep an order, in order;
/// - the tweets of those customers, or, when there are more than one for
///   each ten orders (rounded), that many of them, in order of time.
pub open spec fn trim_steps(
    config: SimConfig,
    raw: RawRun,
    r: (Seq<Order>, Seq<Tweet>, Seq<Customer>),
    per_year: int,
    all: Seq<usize>,
    ids: Seq<usize>,
    pre: Seq<(usize, Order)>,
    kept: Seq<(usize, Order)>,
    split: Seq<(usize, Order)>,
    customers: Seq<Customer>,
    picked: Seq<(usize, Tweet)>,
) -> bool {
    let n_stores = config.stores@.len() as int;
    let open = open_days(config.stores@, sim_days(config), n_stores);
    let target = order_target(per_year, open);
    let fewest_chosen = if ideal_customers(target, open, n_stores) < all.len() {
        ideal_customers(target, open, n_stores)
    } else {
        all.len() as int
    };
    let sel = if fewest_chosen > 1 {
        fewest_chosen
    } else {
        1
    };
    let avg = average_kept(target, sel);
    let n = raw.customers@.len() as int;
    let candidates = tweets_of_marked(raw.tweets@, marks_of(split, customers.len() as int));
    let limit = (r.0.len() + 5) / 10;
    &&& 10_000 <= per_year <= 15_000
    &&& forall|i: int, j: int| 0 <= i < j < all.len() ==> all[i] < all[j]
    &&& forall|i: int| 0 <= i < all.len() ==> (#[trigger] all[i]) < n && raw.ordered@[all[i] as int]
    &&& forall|k: int| 0 <= k < n && #[trigger] raw.ordered@[k] ==> all.contains(k as usize)
    &&& ids.no_duplicates()
    &&& ids.len() == if sel < all.len() {
        sel
    } else {
        all.len() as int
    }
    &&& forall|i: int| 0 <= i < ids.len() ==> all.contains(#[trigger] ids[i])
    &&& forall|i: int|
        #![trigger ids[i]]
        0 <= i < ids.len() ==> {
            let k = ids[i] as int;
            &&& fewest_kept(avg, keyed_part(raw.orders@, k).len() as int) <= keyed_part(pre, k).len()
                <= most_kept(avg, keyed_part(raw.orders@, k).len() as int)
            &&& keyed_part(pre, k).to_multiset().subset_of(keyed_part(raw.orders@, k).to_multiset())
        }
    &&& forall|i: int| 0 <= i < pre.len() ==> ids.contains((#[trigger] pre[i]).0)
    &&& kept.to_multiset().subset_of(pre.to_multiset())
    &&& kept.len() == if target < pre.len() {
        target
    } else {
        pre.len() as int
    }
    &&& sorted_by_time(kept)
    &&& split.len() == kept.len()
    &&& forall|i: int|
        0 <= i < split.len() ==> same_but_customer((#[trigger] split[i]).1, kept[i].1) && same_kind(
            customers[split[i].0 as int],
            raw.customers@[kept[i].0 as int],
        )
    &&& orders_keyed(split, customers)
    &&& customers.len() >= n
    &&& forall|k: int| 0 <= k < n ==> #[trigger] customers[k] == raw.customers@[k]
    &&& forall|k: int|
        0 <= k < customers.len() ==> #[trigger] keyed_part(split, k).len() <= per_customer_cap(open, n_stores)
    &&& r.0 == split.map_values(|p: (usize, Order)| p.1)
    &&& r.2 == marked_of(customers, marks_of(split, customers.len() as int), customers.len() as int)
    &&& candidates.len() <= limit ==> r.1 == candidates.map_values(|p: (usize, Tweet)| p.1)
    &&& candidates.len() > limit ==> {
        &&& picked.len() == limit
        &&& picked.to_multiset().subset_of(candidates.to_multiset())
        &&& sorted_by_time(picked)
        &&& r.1 == picked.map_values(|p: (usize, Tweet)| p.1)
    }
}

/// A raw run cut down to `r` by the steps of `trim_steps`, for some choice
/// of what is drawn at random.
pub open spec fn trimmed(config: SimConfig, raw: RawRun, r: (Seq<Order>, Seq<Tweet>, Seq<Customer>)) -> bool {
    exists|
        per_year: int,
        all: Seq<usize>,
        ids: Seq<usize>,
        pre: Seq<(usize, Order)>,
        kept: Seq<(usize, Order)>,
        split: Seq<(usize, Order)>,
        customers: Seq<Customer>,
        picked: Seq<(usize, Tweet)>,
    |
        #![trigger trim_steps(config, raw, r, per_year, all, ids, pre, kept, split, customers, picked)]
        trim_steps(config, raw, r, per_year, all, ids, pre, kept, split, customers, picked)
}

/// Without a cap on the orders, cuts the raw run down to a plausible
/// dataset: picks a yearly rate of 10,000 to 15,000 orders per store-year
/// and aims for that many; keeps about three orders a year per customer,
/// from enough randomly chosen customers; trims at random to the target;
/// puts the orders in order of time; splits off new customers from those
/// with more than five orders a year; keeps only customers with orders,
/// and tweets by them, at most one for each ten orders.
#[verifier::spinoff_prover]
#[verifier::rlimit(30)]
pub fn rebalance(raw: RawRun, config: &SimConfig, names: &Vec<String>, rng: &mut StdRng) -> (r: (
    Vec<Order>,
    Vec<Tweet>,
    Vec<Customer>,
))
    requires
        raw.wf(*config),
        names.len() > 0,
        config.stores@.len() <= u32::MAX,
        forall|i: int|
            0 <= i < config.stores@.len() ==> i64::MIN <= sim_days(*config) - (
            #[trigger] config.stores@[i]).opened_day <= i64::MAX,
        i64::MIN <= sim_days(*config) <= i64::MAX,
    ensures
        consistent(*config, r.0@, r.1@, r.2@),
        balanced(*config, r.0@, r.1@, r.2@),
        raw.orders@.len() > 0 ==> r.0@.len() > 0,
        raw.orders@.len() == 0 ==> r.0@.len() == 0 && r.1@.len() == 0 && r.2@.len() == 0,
        trimmed(*config, raw, (r.0@, r.1@, r.2@)),
        exists|src: Seq<(usize, Order)>|
            #![trigger src.to_multiset()]
            src.len() == r.0@.len() && src.to_multiset().subset_of(raw.orders@.to_multiset()) && forall|i: int|
                0 <= i < src.len() ==> same_but_customer(#[trigger] r.0@[i], src[i].1),
        distinct_ids(r.2@) ==> forall|j: int|
            0 <= j < r.2@.len() ==> #[trigger] orders_of(r.0@, r.2@[j].id@) <= per_customer_cap(
                open_days(config.stores@, sim_days(*config), config.stores@.len() as int),
                config.stores@.len() as int,
            ),
        forall|i: int|
            0 <= i < r.0@.len() ==> exists|q: int|
                0 <= q < raw.orders@.len() && same_but_customer(#[trigger] r.0@[i], raw.orders@[q].1)
                    && exists|j: int|
                    0 <= j < r.2@.len() && r.2@[j].id@ == r.0@[i].customer_id@ && same_kind(
                        r.2@[j],
                        raw.customers@[raw.orders@[q].0 as int],
                    ),
        forall|i: int|
            0 <= i < r.1@.len() ==> exists|q: int| 0 <= q < raw.tweets@.len() && #[trigger] r.1@[i] == raw.tweets@[q].1,
        forall|j: int|
            0 <= j < r.2@.len() ==> raw.customers@.contains(#[trigger] r.2@[j]) || split_from(
                r.2@[j],
                raw.customers@,
                raw.customers@.len() as int,
            ),
{
    let ghost raw0 = raw;
    let RawRun { orders, tweets, customers, ordered } = raw;
    let mut customers = customers;
    let ghost raw_orders = orders@;
    let ghost raw_customers = customers@;
    let ghost raw_tweets = tweets@;
    let total_days: i64 = config.end_date as i64 - config.start_date as i64;
    let per_year = random_in_range(rng, 10_000, 15_001);
    let open = count_open_days(&config.stores, total_days);
    let target = compute_order_target(per_year, open);
    let n = customers.len();
    let groups0 = group_orders(orders, n);
    let ghost orig_groups = groups0@;
    let mut groups = groups0;
    let mut ids = keys_with_orders(&groups);
    let available = ids.len();
    let ideal = compute_ideal_customers(target, open, config.stores.len());
    let at_most = if ideal < available {
        ideal
    } else {
        available
    };
    let selected = if at_most > 1 {
        at_most
    } else {
        1
    };
    proof {
        assert(target % selected != 0 ==> target / selected < usize::MAX) by (nonlinear_arith)
            requires
                selected >= 1,
                target <= usize::MAX,
        ;
    }
    let rounded_up = target / selected + if target % selected != 0 {
        1
    } else {
        0
    };
    let avg_per_customer = if rounded_up > 1 {
        rounded_up
    } else {
        1
    };
    let ghost all_ids = ids@;
    fisher_yates_shuffle(&mut ids, rng);
    let ghost shuffled_ids = ids@;
    proof {
        lemma_drawn_from_same_multiset(ids@, all_ids, all_ids);
        assert forall|i: int| 0 <= i < ids@.len() implies (#[trigger] ids@[i]) < groups@.len() by {
            assert(all_ids.contains(ids@[i]));
            let q = choose|q: int| 0 <= q < all_ids.len() && all_ids[q] == ids@[i];
        }
    }
    proof {
        if raw_orders.len() > 0 {
            lemma_keyed_part_nonempty(raw_orders, 0);
            let k0 = raw_orders[0].0 as int;
            assert(orig_groups[k0]@.len() > 0);
            assert(all_ids.contains(k0 as usize));
            assert(all_ids.len() > 0);
            assert(ids@.len() == all_ids.len());
        }
    }
    ids.truncate(selected);
    let ghost chosen_ids = ids@;
    let ghost groups_before = groups@;
    let mut kept = keep_orders_of(&mut groups, &ids, avg_per_customer, rng);
    proof {
        if raw_orders.len() > 0 {
            assert(chosen_ids.len() > 0);
            let k = chosen_ids[0] as int;
            assert(all_ids.contains(chosen_ids[0]));
            let q = choose|q: int| 0 <= q < all_ids.len() && all_ids[q] == chosen_ids[0];
            assert(groups_before[k]@.len() > 0);
            assert(fewest_kept(avg_per_customer as int, groups_before[k]@.len() as int) >= 1);
            assert(keyed_part(kept@, k).len() >= 1);
            assert(kept@.len() > 0);
        }
        lemma_order_target_positive(per_year as int, open as int);
    }
    proof {
        assert forall|k: usize| #[trigger] keyed_part(kept@, k as int).to_multiset().subset_of(
            keyed_part(raw_orders, k as int).to_multiset(),
        ) by {
            if chosen_ids.contains(k) {
                let w = choose|w: int| 0 <= w < chosen_ids.len() && chosen_ids[w] == k;
                assert(chosen_ids[w] < groups_before.len());
                assert(groups_before[k as int]@ == keyed_part(raw_orders, k as int));
            } else {
                assert forall|i: int| 0 <= i < kept@.len() implies (#[trigger] kept@[i]).0 != k as int by {
                    assert(chosen_ids.contains(kept@[i].0));
                }
                lemma_keyed_part_absent(kept@, k as int);
                assert(keyed_part(kept@, k as int).to_multiset() =~= vstd::multiset::Multiset::empty());
            }
        }
        lemma_sub_multiset_by_keys(kept@, raw_orders);
    }
    let ghost kept_first = kept@;
    proof {
        assert forall|i: int| 0 <= i < kept@.len() implies raw_orders.contains(#[trigger] kept@[i]) by {
            let k = kept@[i].0 as int;
            let o = kept@[i].1;
            let j = choose|j: int| 0 <= j < orig_groups[k]@.len() && orig_groups[k]@[j] == o;
            lemma_keyed_part_member(raw_orders, k, j);
        }
    }
    if kept.len() > target {
        let ghost before = kept@;
        fisher_yates_shuffle(&mut kept, rng);
        proof {
            lemma_drawn_from_same_multiset(kept@, before, raw_orders);
        }
        let ghost shuffled = kept@;
        kept.truncate(target);
        proof {
            lemma_take_sub_multiset(shuffled, target as int);
            assert(kept@ == shuffled.take(target as int));
        }
    }
    assert(kept@.to_multiset().subset_of(kept_first.to_multiset()));
    assert(kept@.len() <= target);
    let ghost unsorted = kept@;
    sort_by_time(&mut kept);
    proof {
        lemma_drawn_from_same_multiset(kept@, unsorted, raw_orders);
        assert forall|i: int| 0 <= i < kept@.len() implies (#[trigger] kept@[i]).0 < customers@.len()
            && kept@[i].1.customer_id@ == customers@[kept@[i].0 as int].id@
            && order_in_window(*config, kept@[i].1) by {
            assert(raw_orders.contains(kept@[i]));
            let q = choose|q: int| 0 <= q < raw_orders.len() && raw_orders[q] == kept@[i];
            assert(orders_keyed(raw_orders, raw_customers));
            assert(raw_orders[q].0 < raw_customers.len());
            assert(order_in_window(*config, raw_orders[q].1));
        }
    }
    assert(kept@.len() <= target);
    let cap = compute_per_customer_cap(open, config.stores.len());
    assert(kept@.to_multiset().subset_of(raw_orders.to_multiset()));
    let ghost kept_sorted = kept@;
    let ghost customers_before_split = customers@;
    let split = split_heavy_customers(kept, &mut customers, cap, names, rng);
    let marks = mark_ordering(&split, customers.len());
    let kept_customers = marked_customers(&customers, &marks);
    proof {
        assert forall|i: int| 0 <= i < raw_tweets.len() implies (#[trigger] raw_tweets[i]).0 < marks@.len() by {
        }
        lemma_tweets_of_marked(raw_tweets, marks@);
    }
    let mut tweets = keep_tweets_of_marked(tweets, &marks);
    let ghost candidates = tweets@;
    let tweet_target = split.len() / 10 + if split.len() % 10 >= 5 {
        1
    } else {
        0
    };
    assert(tweet_target == (split.len() + 5) / 10);
    if tweets.len() > tweet_target {
        let ghost before = tweets@;
        fisher_yates_shuffle(&mut tweets, rng);
        proof {
            lemma_drawn_from_same_multiset(tweets@, before, raw_tweets);
            lemma_forall_marked(tweets@, before, marks@);
        }
        let ghost shuffled_tweets = tweets@;
        tweets.truncate(tweet_target);
        proof {
            lemma_take_sub_multiset(shuffled_tweets, tweet_target as int);
            assert(tweets@ == shuffled_tweets.take(tweet_target as int));
        }
        assert(tweets@.len() == tweet_target);
        let ghost unsorted_tweets = tweets@;
        sort_by_time(&mut tweets);
        proof {
            lemma_drawn_from_same_multiset(tweets@, unsorted_tweets, raw_tweets);
            lemma_forall_marked(tweets@, unsorted_tweets, marks@);
        }
    }
    assert(tweets@.len() <= tweet_target);
    let ghost final_tweets = tweets@;
    let ghost final_orders = split@;
    let out_orders = strip_keys(split);
    let out_tweets = strip_keys(tweets);
    proof {
        assert(drawn_from(final_tweets, raw_tweets));
        assert(forall|i: int| 0 <= i < final_tweets.len() ==> marks@[(#[trigger] final_tweets[i]).0 as int]);
        assert(final_tweets.len() <= (final_orders.len() + 5) / 10);
        assert forall|i: int| #![trigger out_orders@[i]] 0 <= i < out_orders@.len() implies order_in_window(*config, out_orders@[i])
            && listed(out_orders@[i].customer_id@, kept_customers@) by {
            lemma_keyed_view(final_orders, i);
            assert(same_but_customer(final_orders[i].1, kept@[i].1));
            assert(order_in_window(*config, kept@[i].1));
            let k = final_orders[i].0 as int;
            assert(marks@[k]);
            assert(kept_customers@.contains(customers@[k]));
            let j = choose|j: int| 0 <= j < kept_customers@.len() && kept_customers@[j] == customers@[k];
            assert(out_orders@[i].customer_id@ == kept_customers@[j].id@);
        }
        assert forall|i: int| #![trigger out_tweets@[i]] 0 <= i < out_tweets@.len() implies tweet_in_window(*config, out_tweets@[i])
            && listed(out_tweets@[i].user_id@, kept_customers@) by {
            lemma_keyed_view(final_tweets, i);
            assert(raw_tweets.contains(final_tweets[i]));
            let q = choose|q: int| 0 <= q < raw_tweets.len() && raw_tweets[q] == final_tweets[i];
            assert(tweets_keyed(raw_tweets, raw_customers));
            assert(raw_tweets[q].0 < raw_customers.len());
            assert(tweet_in_window(*config, raw_tweets[q].1));
            let k = final_tweets[i].0 as int;
            assert(customers@[k] == raw_customers[k]);
            assert(marks@[k]);
            assert(kept_customers@.contains(customers@[k]));
            let j = choose|j: int| 0 <= j < kept_customers@.len() && kept_customers@[j] == customers@[k];
            assert(out_tweets@[i].user_id@ == kept_customers@[j].id@);
        }
        assert forall|i: int, j: int| 0 <= i < j < out_orders@.len() implies out_orders@[i].ordered_at
            <= out_orders@[j].ordered_at by {
            lemma_keyed_view(final_orders, i);
            lemma_keyed_view(final_orders, j);
            assert(same_but_customer(final_orders[i].1, kept@[i].1));
            assert(same_but_customer(final_orders[j].1, kept@[j].1));
            assert(kept@[i].spec_time() <= kept@[j].spec_time());
        }
        assert(out_orders@.len() <= order_target(
            per_year as int,
            open_days(config.stores@, sim_days(*config), config.stores@.len() as int),
        ));
        assert(forall|i: int| 0 <= i < out_orders@.len() ==> #[trigger] order_in_window(*config, out_orders@[i]));
        assert(forall|i: int| 0 <= i < out_orders@.len() ==> listed((#[trigger] out_orders@[i]).customer_id@, kept_customers@));
        assert(forall|i: int| 0 <= i < out_tweets@.len() ==> #[trigger] tweet_in_window(*config, out_tweets@[i]));
        assert(forall|i: int| 0 <= i < out_tweets@.len() ==> listed((#[trigger] out_tweets@[i]).user_id@, kept_customers@));
        assert forall|j: int| 0 <= j < kept_customers@.len() implies has_order(
            (#[trigger] kept_customers@[j]).id@,
            out_orders@,
        ) by {
            assert(among_marked(kept_customers@[j], customers@, marks@));
            let q = choose|q: int|
                0 <= q < customers@.len() && marks@[q] && kept_customers@[j] == #[trigger] customers@[q];
            let i = choose|i: int| 0 <= i < final_orders.len() && (#[trigger] final_orders[i]).0 == q;
            lemma_keyed_view(final_orders, i);
            assert(out_orders@[i].customer_id@ == customers@[q].id@);
        }
    }
    proof {
        assert forall|i: int| 0 <= i < kept_sorted.len() implies same_but_customer(
            #[trigger] out_orders@[i],
            kept_sorted[i].1,
        ) by {
            lemma_keyed_view(final_orders, i);
        }
        assert(kept_sorted.len() == out_orders@.len());
    }
    proof {
        if distinct_ids(kept_customers@) {
            assert forall|j: int| 0 <= j < kept_customers@.len() implies #[trigger] orders_of(
                out_orders@,
                kept_customers@[j].id@,
            ) <= cap by {
                assert(among_marked(kept_customers@[j], customers@, marks@));
                let q = choose|q: int|
                    0 <= q < customers@.len() && marks@[q] && kept_customers@[j] == #[trigger] customers@[q];
                assert forall|i: int|
                    0 <= i < final_orders.len() && customers@[(#[trigger] final_orders[i]).0 as int].id@
                        == customers@[q].id@ implies final_orders[i].0 == q by {
                    let k2 = final_orders[i].0 as int;
                    assert(marks@[k2]);
                    if k2 != q {
                        let a = if k2 < q { k2 } else { q };
                        let b = if k2 < q { q } else { k2 };
                        lemma_marked_of_two(customers@, marks@, customers@.len() as int, a, b);
                        let m = marked_of(customers@, marks@, customers@.len() as int);
                        let (p1, p2) = choose|p1: int, p2: int|
                            0 <= p1 < p2 < m.len() && m[p1] == customers@[a] && m[p2] == customers@[b];
                        assert(kept_customers@[p1] == customers@[a]);
                        assert(kept_customers@[p2] == customers@[b]);
                        assert(false);
                    }
                }
                lemma_orders_of_keyed(final_orders, customers@, q);
                assert(out_orders@ == final_orders.map_values(|p: (usize, Order)| p.1));
                assert(keyed_part(final_orders, q).len() <= cap);
            }
        }
        if raw_orders.len() == 0 {
            if final_orders.len() > 0 {
                assert(raw_orders.contains(kept@[0]));
            }
            assert forall|q: int| 0 <= q < marks@.len() implies !(#[trigger] marks@[q]) by {
                if marks@[q] {
                    let i = choose|i: int| 0 <= i < final_orders.len() && (#[trigger] final_orders[i]).0 == q;
                }
            }
            lemma_marked_of_none(customers@, marks@, customers@.len() as int);
            if final_tweets.len() > 0 {
                assert(marks@[final_tweets[0].0 as int]);
            }
        }
        assert forall|i: int| 0 <= i < out_orders@.len() implies exists|q: int|
            0 <= q < raw_orders.len() && same_but_customer(#[trigger] out_orders@[i], raw_orders[q].1)
                && exists|j: int|
                0 <= j < kept_customers@.len() && kept_customers@[j].id@ == out_orders@[i].customer_id@
                    && same_kind(kept_customers@[j], raw_customers[raw_orders[q].0 as int]) by {
            lemma_keyed_view(final_orders, i);
            assert(same_but_customer(final_orders[i].1, kept@[i].1));
            assert(raw_orders.contains(kept@[i]));
            let q = choose|q: int| 0 <= q < raw_orders.len() && raw_orders[q] == kept@[i];
            assert(same_but_customer(out_orders@[i], raw_orders[q].1));
            let k = final_orders[i].0 as int;
            assert(same_kind(customers@[k], customers_before_split[kept@[i].0 as int]));
            assert(marks@[k]);
            assert(kept_customers@.contains(customers@[k]));
            let j = choose|j: int| 0 <= j < kept_customers@.len() && kept_customers@[j] == customers@[k];
            assert(kept_customers@[j].id@ == out_orders@[i].customer_id@);
        }
        assert forall|i: int| 0 <= i < out_tweets@.len() implies exists|q: int|
            0 <= q < raw_tweets.len() && #[trigger] out_tweets@[i] == raw_tweets[q].1 by {
            lemma_keyed_view(final_tweets, i);
            assert(raw_tweets.contains(final_tweets[i]));
            let q = choose|q: int| 0 <= q < raw_tweets.len() && raw_tweets[q] == final_tweets[i];
            assert(out_tweets@[i] == raw_tweets[q].1);
        }
        assert forall|j: int| 0 <= j < kept_customers@.len() implies raw_customers.contains(
            #[trigger] kept_customers@[j],
        ) || split_from(kept_customers@[j], raw_customers, raw_customers.len() as int) by {
            assert(among_marked(kept_customers@[j], customers@, marks@));
            let q = choose|q: int|
                0 <= q < customers@.len() && marks@[q] && kept_customers@[j] == #[trigger] customers@[q];
            if q < raw_customers.len() {
                assert(customers@[q] == raw_customers[q]);
            } else {
                assert(split_from(customers@[q], raw_customers, raw_customers.len() as int));
            }
        }
    }
    proof {
        let n_stores = config.stores@.len() as int;
        let n0 = raw_customers.len() as int;
        assert forall|i: int| 0 <= i < all_ids.len() implies (#[trigger] all_ids[i]) < n0
            && raw0.ordered@[all_ids[i] as int] by {
            let k = all_ids[i] as int;
            assert(orig_groups[k]@.len() > 0);
            lemma_keyed_part_member(raw_orders, k, 0);
            let q = choose|q: int| 0 <= q < raw_orders.len() && raw_orders[q] == (k as usize, keyed_part(raw_orders, k)[0]);
            assert(raw_orders[q].0 == k);
        }
        assert forall|k: int| 0 <= k < n0 && #[trigger] raw0.ordered@[k] implies all_ids.contains(k as usize) by {
            let q = choose|q: int| 0 <= q < raw_orders.len() && (#[trigger] raw_orders[q]).0 == k;
            lemma_keyed_part_nonempty(raw_orders, q);
            assert(orig_groups[k]@.len() > 0);
        }
        assert forall|a: int, b: int| 0 <= a < all_ids.len() && 0 <= b < all_ids.len() && a != b
            implies all_ids[a] != all_ids[b] by {
        }
        assert(all_ids.no_duplicates());
        all_ids.lemma_multiset_has_no_duplicates();
        assert forall|x: usize| shuffled_ids.to_multiset().contains(x) implies shuffled_ids.to_multiset().count(x) == 1 by {
        }
        shuffled_ids.lemma_multiset_has_no_duplicates_conv();
        assert(chosen_ids.no_duplicates());
        assert(marks@ =~= marks_of(final_orders, customers@.len() as int));
        assert(kept_sorted.len() == if target < kept_first.len() {
            target as int
        } else {
            kept_first.len() as int
        });
        assert forall|q: int|
            #![trigger chosen_ids[q]]
            0 <= q < chosen_ids.len() implies {
                let k = chosen_ids[q] as int;
                &&& fewest_kept(avg_per_customer as int, keyed_part(raw_orders, k).len() as int)
                    <= keyed_part(kept_first, k).len()
                    <= most_kept(avg_per_customer as int, keyed_part(raw_orders, k).len() as int)
                &&& keyed_part(kept_first, k).to_multiset().subset_of(keyed_part(raw_orders, k).to_multiset())
            } by {
            let k = chosen_ids[q] as int;
            assert(all_ids.contains(chosen_ids[q]));
            assert(groups_before[k]@ == keyed_part(raw_orders, k));
        }
        assert(trim_steps(
            *config,
            raw0,
            (out_orders@, out_tweets@, kept_customers@),
            per_year as int,
            all_ids,
            chosen_ids,
            kept_first,
            kept_sorted,
            final_orders,
            customers@,
            final_tweets,
        ));
    }
    (out_orders, out_tweets, kept_customers)
}

proof fn lemma_forall_marked(s: Seq<(usize, Tweet)>, t: Seq<(usize, Tweet)>, marks: Seq<bool>)
    requires
        s.to_multiset() == t.to_multiset(),
        forall|i: int| 0 <= i < t.len() ==> marks[(#[trigger] t[i]).0 as int],
    ensures
        forall|i: int| 0 <= i < s.len() ==> marks[(#[trigger] s[i]).0 as int],
{
    crate::seqs::lemma_forall_same_multiset(s, t, |p: (usize, Tweet)| marks[p.0 as int]);
    assert forall|i: int| 0 <= i < s.len() implies marks[(#[trigger] s[i]).0 as int] by {
        assert((|p: (usize, Tweet)| marks[p.0 as int])(s[i]));
    }
}

proof fn lemma_tweets_until(tweets: Seq<(usize, Tweet)>, limit: int)
    ensures
        drawn_from(tweets_until(tweets, limit), tweets),
        forall|i: int|
            0 <= i < tweets_until(tweets, limit).len() ==> (#[trigger] tweets_until(tweets, limit)[i]).1.tweeted_at
                <= limit,
    decreases tweets.len(),
{
    if tweets.len() > 0 {
        let rest = tweets_until(tweets.drop_last(), limit);
        lemma_tweets_until(tweets.drop_last(), limit);
        let r = tweets_until(tweets, limit);
        assert forall|i: int| 0 <= i < r.len() implies tweets.contains(#[trigger] r[i]) by {
            if i < rest.len() {
                assert(r[i] == rest[i]);
                assert(tweets.drop_last().contains(rest[i]));
                let q = choose|q: int| 0 <= q < tweets.drop_last().len() && tweets.drop_last()[q] == rest[i];
                assert(tweets[q] == tweets.drop_last()[q]);
            } else {
                assert(r[i] == tweets[tweets.len() - 1]);
            }
        }
        assert forall|i: int| 0 <= i < r.len() implies (#[trigger] r[i]).1.tweeted_at <= limit by {
            if i < rest.len() {
                assert(r[i] == rest[i]);
            }
        }
    }
}

fn clone_stores(stores: &Vec<Store>) -> (r: Vec<Store>)
    ensures
        r@ == stores@,
{
    let mut out: Vec<Store> = Vec::new();
    for i in 0..stores.len()
        invariant
            out@ == stores@.take(i as int),
    {
        out.push(stores[i].clone());
        assert(out@ =~= stores@.take(i + 1));
    }
    assert(stores@.take(stores@.len() as int) =~= stores@);
    out
}

/// The orders that a cap keeps: the first `t`, when there are more.
pub open spec fn capped_orders(orders: Seq<(usize, Order)>, t: int) -> Seq<(usize, Order)> {
    if orders.len() > t {
        orders.take(t)
    } else {
        orders
    }
}

/// The tweets that a cap keeps: when it cuts the orders, and keeps some,
/// those posted no later than the last order kept.
pub open spec fn capped_tweets(orders: Seq<(usize, Order)>, tweets: Seq<(usize, Tweet)>, t: int) -> Seq<
    (usize, Tweet),
> {
    if orders.len() > t && t > 0 {
        tweets_until(tweets, orders[t - 1].1.ordered_at as int)
    } else {
        tweets
    }
}

/// What a run keeps of its raw orders, tweets and customers: with a cap on
/// the orders, the first orders up to it, the tweets up to the last of them,
/// and exactly the customers who ordered; without a cap, what `rebalance`
/// keeps.
#[verifier::spinoff_prover]
#[verifier::rlimit(30)]
pub fn finish_run(raw: RawRun, config: &SimConfig, names: &Vec<String>, rng: &mut StdRng) -> (r: SimResult)
    requires
        raw.wf(*config),
        names.len() > 0,
        config.stores@.len() <= u32::MAX,
        forall|i: int|
            0 <= i < config.stores@.len() ==> i64::MIN <= sim_days(*config) - (
            #[trigger] config.stores@[i]).opened_day <= i64::MAX,
    ensures
        r.total_days == sim_days(*config),
        r.stores@ == config.stores@,
        consistent(*config, r.orders@, r.tweets@, r.customers@),
        config.num_orders matches Some(t) ==> {
            &&& r.orders@ == capped_orders(raw.orders@, t as int).map_values(|p: (usize, Order)| p.1)
            &&& r.tweets@ == capped_tweets(raw.orders@, raw.tweets@, t as int).map_values(
                |p: (usize, Tweet)| p.1,
            )
            &&& r.customers@ == marked_of(raw.customers@, raw.ordered@, raw.customers@.len() as int)
        },
        config.num_orders matches Some(t) ==> r.orders@.len() <= t,
        config.num_orders is None ==> balanced(*config, r.orders@, r.tweets@, r.customers@),
        config.num_orders is None ==> trimmed(*config, raw, (r.orders@, r.tweets@, r.customers@)),
        raw.orders@.len() > 0 && config.num_orders != Some(0u64) ==> r.orders@.len() > 0,
        raw.orders@.len() == 0 ==> r.orders@.len() == 0 && r.tweets@.len() == 0 && r.customers@.len() == 0,
        config.num_orders is None && distinct_ids(r.customers@) ==> forall|j: int|
            0 <= j < r.customers@.len() ==> #[trigger] orders_of(r.orders@, r.customers@[j].id@)
                <= per_customer_cap(
                open_days(config.stores@, sim_days(*config), config.stores@.len() as int),
                config.stores@.len() as int,
            ),
        config.num_orders is None ==> forall|i: int|
            0 <= i < r.orders@.len() ==> exists|q: int|
                0 <= q < raw.orders@.len() && same_but_customer(#[trigger] r.orders@[i], raw.orders@[q].1)
                    && exists|j: int|
                    0 <= j < r.customers@.len() && r.customers@[j].id@ == r.orders@[i].customer_id@
                        && same_kind(r.customers@[j], raw.customers@[raw.orders@[q].0 as int]),
        config.num_orders is None ==> exists|src: Seq<(usize, Order)>|
            #![trigger src.to_multiset()]
            src.len() == r.orders@.len() && src.to_multiset().subset_of(raw.orders@.to_multiset())
                && forall|i: int| 0 <= i < src.len() ==> same_but_customer(#[trigger] r.orders@[i], src[i].1),
{
    let total_days: i64 = config.end_date as i64 - config.start_date as i64;
    let stores = clone_stores(&config.stores);
    match config.num_orders {
        Some(target) => {
            let RawRun { orders, tweets, customers, ordered } = raw;
            let mut orders = orders;
            let mut tweets = tweets;
            let ghost raw_orders = orders@;
            let ghost raw_tweets = tweets@;
            cap_orders(&mut orders, &mut tweets, target);
            let kept_customers = marked_customers(&customers, &ordered);
            proof {
                if raw_orders.len() == 0 {
                    assert forall|q: int| 0 <= q < ordered@.len() implies !(#[trigger] ordered@[q]) by {
                        if ordered@[q] {
                            let i = choose|i: int| 0 <= i < raw_orders.len() && (#[trigger] raw_orders[i]).0 == q;
                        }
                    }
                    lemma_marked_of_none(customers@, ordered@, customers@.len() as int);
                    if raw_tweets.len() > 0 {
                        assert(ordered@[raw_tweets[0].0 as int]);
                    }
                }
            }
            let ghost final_orders = orders@;
            let ghost final_tweets = tweets@;
            proof {
                if raw_orders.len() > target && target > 0 {
                    lemma_tweets_until(raw_tweets, final_orders.last().1.ordered_at as int);
                }
                assert(drawn_from(final_tweets, raw_tweets));
            }
            let out_orders = strip_keys(orders);
            let out_tweets = strip_keys(tweets);
            proof {
                assert forall|i: int| #![trigger out_orders@[i]] 0 <= i < out_orders@.len() implies order_in_window(*config, out_orders@[i])
                    && listed(out_orders@[i].customer_id@, kept_customers@) by {
                    lemma_keyed_view(final_orders, i);
                    assert(final_orders[i] == raw_orders[i]);
                    let k = raw_orders[i].0 as int;
                    assert(ordered@[k]);
                    assert(kept_customers@.contains(customers@[k]));
                    let j = choose|j: int| 0 <= j < kept_customers@.len() && kept_customers@[j] == customers@[k];
                    assert(out_orders@[i].customer_id@ == kept_customers@[j].id@);
                }
                assert forall|i: int| #![trigger out_tweets@[i]] 0 <= i < out_tweets@.len() implies tweet_in_window(*config, out_tweets@[i])
                    && listed(out_tweets@[i].user_id@, kept_customers@) by {
                    lemma_keyed_view(final_tweets, i);
                    assert(raw_tweets.contains(final_tweets[i]));
                    let q = choose|q: int| 0 <= q < raw_tweets.len() && raw_tweets[q] == final_tweets[i];
                    let k = raw_tweets[q].0 as int;
                    assert(ordered@[k]);
                    assert(kept_customers@.contains(customers@[k]));
                    let j = choose|j: int| 0 <= j < kept_customers@.len() && kept_customers@[j] == customers@[k];
                    assert(out_tweets@[i].user_id@ == kept_customers@[j].id@);
                }
                assert(forall|i: int| 0 <= i < out_orders@.len() ==> #[trigger] order_in_window(*config, out_orders@[i]));
                assert(forall|i: int| 0 <= i < out_orders@.len() ==> listed((#[trigger] out_orders@[i]).customer_id@, kept_customers@));
                assert(forall|i: int| 0 <= i < out_tweets@.len() ==> #[trigger] tweet_in_window(*config, out_tweets@[i]));
                assert(forall|i: int| 0 <= i < out_tweets@.len() ==> listed((#[trigger] out_tweets@[i]).user_id@, kept_customers@));
            }
            SimResult {
                orders: out_orders,
                tweets: out_tweets,
                customers: kept_customers,
                stores,
                total_days,
            }
        },
        None => {
            let (orders, tweets, customers) = rebalance(raw, config, names, rng);
            SimResult { orders, tweets, customers, stores, total_days }
        },
    }
}

/// Runs the simulation: every store's market on every simulated day, then,
/// with a cap on the orders, the first orders up to it and the tweets up to
/// the last of them, and every customer who ordered; without a cap, the
/// orders, tweets and customers cut down by `rebalance`. Where a sale is
/// sure, the run has orders, unless the cap is zero.
///
/// What the floating-point demand model gives for each day and store (the
/// store's pull, how many customers are active, and a standard normal draw
/// for each active customer's order time) comes in `inputs`.
pub fn run_simulation(
    config: &SimConfig,
    inputs: &Vec<Vec<MarketDay>>,
    names: &Vec<String>,
    rng: &mut StdRng,
) -> (r: SimResult)
    requires
        config_ok(*config, inputs@, names@),
        config.stores@.len() <= u32::MAX,
        forall|i: int|
            0 <= i < config.stores@.len() ==> i64::MIN <= sim_days(*config) - (
            #[trigger] config.stores@[i]).opened_day <= i64::MAX,
    ensures
        r.total_days == sim_days(*config),
        r.stores@ == config.stores@,
        consistent(*config, r.orders@, r.tweets@, r.customers@),
        config.num_orders matches Some(t) ==> r.orders@.len() <= t,
        config.num_orders is None ==> balanced(*config, r.orders@, r.tweets@, r.customers@),
        forall|d: int, m: int, p: PersonaType|
            #[trigger] sure_sale(*config, inputs@, d, m, p) && config.num_orders != Some(0u64)
                ==> r.orders@.len() > 0,
        sim_days(*config) <= 0 ==> r.orders@.len() == 0 && r.tweets@.len() == 0 && r.customers@.len() == 0,
        config.num_orders is None && distinct_ids(r.customers@) ==> forall|j: int|
            0 <= j < r.customers@.len() ==> #[trigger] orders_of(r.orders@, r.customers@[j].id@)
                <= per_customer_cap(
                open_days(config.stores@, sim_days(*config), config.stores@.len() as int),
                config.stores@.len() as int,
            ),
        exists|raw: RawRun|
            #![trigger simulated(*config, inputs@, raw)]
            simulated(*config, inputs@, raw) && finished(*config, raw, r),
{
    let raw = simulate_all_days(config, inputs, names, rng);
    let ghost raw_run = raw;
    let r = finish_run(raw, config, names, rng);
    assert(simulated(*config, inputs@, raw_run) && finished(*config, raw_run, r));
    r
}

/// What `simulate_all_days` gives: a well-formed raw run with every
/// market's customers, in which every sure buyer has ordered and a sure
/// sale has made an order; no orders when no day is simulated; the orders
/// day by day and, within a day, by their customers' places, each one that
/// a market placed.
pub open spec fn simulated(config: SimConfig, inputs: Seq<Vec<MarketDay>>, raw: RawRun) -> bool {
    &&& raw.wf(config)
    &&& raw.customers@.len() == total_market_size(config.stores@, config.stores@.len() as int)
    &&& forall|d: int, m: int, j: int|
        #[trigger] sure_buyer(config, inputs, raw.customers@, d, m, j) ==> raw.ordered@[customer_place(
            config.stores@,
            m,
            j,
        )]
    &&& forall|d: int, m: int, p: PersonaType| #[trigger] sure_sale(config, inputs, d, m, p) ==> raw.orders@.len() > 0
    &&& sim_days(config) <= 0 ==> raw.orders@.len() == 0
    &&& in_run_order(raw.orders@)
    &&& forall|i: int|
        0 <= i < raw.orders@.len() ==> #[trigger] from_market(config, inputs, raw.customers@, raw.orders@[i])
}

/// What `finish_run` keeps of the raw run: with a cap on the orders, the
/// first orders up to it, the tweets up to the last of them and exactly the
/// customers who ordered; without a cap, the run cut down as `trimmed` says.
pub open spec fn finished(config: SimConfig, raw: RawRun, r: SimResult) -> bool {
    &&& r.total_days == sim_days(config)
    &&& r.stores@ == config.stores@
    &&& config.num_orders matches Some(t) ==> {
        &&& r.orders@ == capped_orders(raw.orders@, t as int).map_values(|p: (usize, Order)| p.1)
        &&& r.tweets@ == capped_tweets(raw.orders@, raw.tweets@, t as int).map_values(|p: (usize, Tweet)| p.1)
        &&& r.customers@ == marked_of(raw.customers@, raw.ordered@, raw.customers@.len() as int)
    }
    &&& config.num_orders is None ==> trimmed(config, raw, (r.orders@, r.tweets@, r.customers@))
}

/// What `run_simulation` can be run on: the configuration fits and every
/// store opens a number of days from the end that an `i64` holds.
pub open spec fn can_run(config: SimConfig, inputs: Seq<Vec<MarketDay>>, names: Seq<String>) -> bool {
    &&& config_ok(config, inputs, names)
    &&& config.stores@.len() <= u32::MAX
    &&& forall|i: int|
        0 <= i < config.stores@.len() ==> i64::MIN <= sim_days(config) - (
        #[trigger] config.stores@[i]).opened_day <= i64::MAX
}

proof fn lemma_total_market_size_step(stores: Seq<Store>, k: int)
    requires
        0 <= k,
    ensures
        total_market_size(stores, k + 1) == total_market_size(stores, k) + market_size(stores[k].tam as int),
{
}

/// Whether `run_simulation` can be run on this configuration, inputs and
/// names.
pub fn can_simulate(config: &SimConfig, inputs: &Vec<Vec<MarketDay>>, names: &Vec<String>) -> (r: bool)
    ensures
        r == can_run(*config, inputs@, names@),
{
    if config.start_date < FIRST_DAY || config.start_date > LAST_DAY || config.end_date < FIRST_DAY
        || config.end_date > LAST_DAY {
        return false;
    }
    if names.len() == 0 {
        return false;
    }
    if config.stores.len() > 4_294_967_295 {
        return false;
    }
    let n = config.stores.len();
    let mut total: u128 = 0;
    for i in 0..n
        invariant
            n == config.stores@.len(),
            n <= 4_294_967_295,
            total == total_market_size(config.stores@, i as int),
            total <= i * 18_446_744_073_709_551_615,
    {
        proof {
            lemma_total_market_size_step(config.stores@, i as int);
        }
        total = total + customer_count(config.stores[i].tam) as u128;
    }
    if total > usize::MAX as u128 {
        return false;
    }
    let days: i64 = config.end_date as i64 - config.start_date as i64;
    for i in 0..n
        invariant
            n == config.stores@.len(),
            days == sim_days(*config),
            forall|j: int|
                0 <= j < i ==> i64::MIN <= days - (#[trigger] config.stores@[j]).opened_day <= i64::MAX,
    {
        let open_for = days as i128 - config.stores[i].opened_day as i128;
        if open_for < i64::MIN as i128 || open_for > i64::MAX as i128 {
            return false;
        }
    }
    if days > 0 && (inputs.len() as i128) < days as i128 {
        return false;
    }
    let mut d: i64 = 0;
    while d < days
        invariant
            0 <= d,
            days == sim_days(*config),
            days > 0 ==> inputs@.len() >= days,
            n == config.stores@.len(),
            forall|e: int| 0 <= e < d ==> (#[trigger] inputs@[e])@.len() == n,
            forall|e: int, m: int|
                0 <= e < d && 0 <= m < n ==> (#[trigger] inputs@[e]@[m]).order_normals@.len()
                    >= inputs@[e]@[m].active_count,
        decreases days - d,
    {
        let today = &inputs[d as usize];
        if today.len() != n {
            return false;
        }
        for m in 0..n
            invariant
                0 <= d < days,
                d < inputs@.len(),
                days == sim_days(*config),
                n == config.stores@.len(),
                today == inputs@[d as int],
                today@.len() == n,
                forall|q: int| 0 <= q < m ==> (#[trigger] today@[q]).order_normals@.len() >= today@[q].active_count,
        {
            if today[m].order_normals.len() < today[m].active_count {
                assert(inputs@[d as int]@[m as int] == today@[m as int]);
                return false;
            }
        }
        d = d + 1;
    }
    true
}

} // verus!
