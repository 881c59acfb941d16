use jafgen::models::customer::{Customer, PersonaType};
use jafgen::models::item::all_jaffles;
use jafgen::models::order::Order;
use jafgen::models::store::{default_stores, Store};
use jafgen::models::tweet::Tweet;
use jafgen::random::fisher_yates_shuffle;
use jafgen::simulation::market::{customer_count, persona_count_of, Market, MarketDay};
use jafgen::simulation::sim::{
    can_simulate, cap_orders, compute_ideal_customers, finish_run, simulate_all_days, compute_order_target, compute_per_customer_cap,
    count_open_days, group_orders, keep_orders_of, keep_tweets_of_marked, keep_tweets_until, keys_with_orders,
    mark_ordering, marked_customers, run_simulation, split_heavy_customers,
    strip_keys, SimConfig, SimResult,
};
use jafgen::simulation::tables::{can_export, result_tables};
use jafgen::calendar::{day_of_stamp, LAST_DAY};
use jafgen::simulation::time::{epoch, Day};
use rand::rngs::StdRng;
use rand::SeedableRng;

fn names() -> Vec<String> {
    vec!["Ann".to_string(), "Bo".to_string(), "Cy".to_string(), "Di".to_string()]
}

fn one_store(tam: i64, opened_day: i64) -> Store {
    Store::new("Test", "Testville", "US", 900_000, opened_day, 60_000, tam)
}

fn market_day(pull_ppm: u32, active: usize) -> MarketDay {
    MarketDay { pull_ppm, active_count: active, order_normals: vec![0; active] }
}

fn order_at(customer: &str, minute_stamp: i64) -> Order {
    let mut o = Order::new(customer, "store", epoch(), 0, all_jaffles(), 0);
    o.ordered_at = minute_stamp;
    o
}

fn tweet_at(user: &str, stamp: i64) -> Tweet {
    Tweet { id: format!("t{stamp}"), user_id: user.to_string(), tweeted_at: stamp, content: String::new() }
}

fn config(days: i32, num_orders: Option<u64>, stores: Vec<Store>) -> SimConfig {
    SimConfig {
        start_date: epoch(),
        end_date: epoch() + days,
        num_orders,
        stores,
        prefix: "raw".to_string(),
    }
}

fn inputs(days: usize, stores: usize, pull_ppm: u32, active: usize) -> Vec<Vec<MarketDay>> {
    (0..days).map(|_| (0..stores).map(|_| market_day(pull_ppm, active)).collect()).collect()
}

#[test]
fn markets_round_each_persona_share() {
    assert_eq!(customer_count(900), 900);
    assert_eq!(customer_count(7), 8);
    assert_eq!(customer_count(20), 20);
    assert_eq!(customer_count(0), 0);
    assert_eq!(customer_count(-5), 0);
    assert_eq!(persona_count_of(25, 7), 2);
    assert_eq!(persona_count_of(10, 7), 1);
    assert_eq!(persona_count_of(20, 7), 1);
    assert_eq!(persona_count_of(10, 5), 1);
    assert_eq!(persona_count_of(10, 4), 0);
    for n in 1..3000i64 {
        let size = customer_count(n) as i64;
        assert!(n - 3 <= size && size <= n + 3);
    }
}

#[test]
fn a_market_holds_its_personas() {
    let mut rng = StdRng::seed_from_u64(1);
    let store = one_store(20, 0);
    let store_id = store.id.clone();
    let market = Market::new(store, 20, &names(), &mut rng);
    assert_eq!(market.customers.len(), 20);
    assert_eq!(market.days_to_penetration, 365);
    let count = |p: PersonaType| market.customers.iter().filter(|c| c.persona == p).count();
    assert_eq!(count(PersonaType::Commuter), 5);
    assert_eq!(count(PersonaType::RemoteWorker), 5);
    assert_eq!(count(PersonaType::BrunchCrowd), 2);
    assert_eq!(count(PersonaType::Student), 4);
    assert_eq!(count(PersonaType::Casuals), 2);
    assert_eq!(count(PersonaType::HealthNut), 2);
    for c in &market.customers {
        assert_eq!(c.store_id, store_id);
        assert!(names().contains(&c.name));
    }
}

#[test]
fn a_store_that_has_not_opened_sells_nothing() {
    let mut rng = StdRng::seed_from_u64(2);
    let market = Market::new(one_store(20, 5), 20, &names(), &mut rng);
    let day = Day::new(0, 0, epoch());
    assert!(market.sim_day(&day, &market_day(1_000_000, 20), &mut rng).is_empty());
    let no_pull = Market::new(one_store(20, 0), 20, &names(), &mut rng);
    assert!(no_pull.sim_day(&day, &market_day(0, 20), &mut rng).is_empty());
    assert!(no_pull.sim_day(&day, &market_day(1_000_000, 0), &mut rng).is_empty());
}

#[test]
fn buyers_order_from_the_menu_at_their_hour() {
    let mut rng = StdRng::seed_from_u64(3);
    let market = Market::new(one_store(200, 0), 200, &names(), &mut rng);
    let friday = Day::new(0, 0, epoch());
    let results = market.sim_day(&friday, &market_day(1_000_000, 200), &mut rng);
    assert!(!results.is_empty());
    let mut last = None;
    for r in &results {
        if let Some(prev) = last {
            assert!(prev < r.customer_index);
        }
        last = Some(r.customer_index);
        assert_ne!(r.customer.persona, PersonaType::BrunchCrowd);
        assert_ne!(r.customer.persona, PersonaType::Student);
        let order = r.order.as_ref().unwrap();
        assert!(!order.items.is_empty());
        assert_eq!(order.customer_id, r.customer.id);
        assert_eq!(order.order_total_cents, order.subtotal_cents + order.tax_paid_cents);
        let minute = order.ordered_at - epoch() as i64 * 1440;
        assert!((420..=1200).contains(&minute));
        if let Some(t) = &r.tweet {
            assert!(order.ordered_at <= t.tweeted_at && t.tweeted_at <= order.ordered_at + 20);
            assert_eq!(t.user_id, r.customer.id);
        }
    }
}

#[test]
fn open_days_add_up_over_stores() {
    let stores = vec![one_store(10, 0), one_store(10, 100), one_store(10, 400)];
    assert_eq!(count_open_days(&stores, 365), 365 + 265);
    assert_eq!(count_open_days(&Vec::new(), 365), 0);
}

#[test]
fn order_targets_scale_with_store_years() {
    assert_eq!(compute_order_target(10_000, 365), 10_000);
    assert_eq!(compute_order_target(10_000, 366), 10_021);
    assert_eq!(compute_order_target(12_000, 2922), 96_000);
    assert_eq!(compute_ideal_customers(12_000, 2922, 1), 500);
    assert_eq!(compute_ideal_customers(10, 100, 1), 4);
    assert_eq!(compute_per_customer_cap(2922, 1), 40);
    assert_eq!(compute_per_customer_cap(100, 1), 5);
    assert_eq!(compute_per_customer_cap(2922, 2), 20);
}

#[test]
fn capping_orders_keeps_the_first_and_their_tweets() {
    let mut orders = vec![(0usize, order_at("a", 100)), (1, order_at("b", 200)), (0, order_at("a", 300))];
    let mut tweets = vec![(0usize, tweet_at("a", 110)), (1, tweet_at("b", 210)), (0, tweet_at("a", 310))];
    cap_orders(&mut orders, &mut tweets, 2);
    assert_eq!(orders.len(), 2);
    assert_eq!(orders[1].1.ordered_at, 200);
    assert_eq!(tweets.len(), 1);
    assert_eq!(tweets[0].1.tweeted_at, 110);
    let mut few = vec![(0usize, order_at("a", 100))];
    let mut few_tweets = vec![(0usize, tweet_at("a", 999))];
    cap_orders(&mut few, &mut few_tweets, 5);
    assert_eq!(few.len(), 1);
    assert_eq!(few_tweets.len(), 1);
    let kept = keep_tweets_until(vec![(0usize, tweet_at("a", 5)), (0, tweet_at("a", 50))], 10);
    assert_eq!(kept.len(), 1);
}

#[test]
fn orders_group_by_customer() {
    let orders = vec![(2usize, order_at("c", 1)), (0, order_at("a", 2)), (2, order_at("c", 3))];
    let marks = mark_ordering(&orders, 4);
    assert_eq!(marks, vec![true, false, true, false]);
    let groups = group_orders(orders, 4);
    assert_eq!(groups.len(), 4);
    assert_eq!(groups[2].len(), 2);
    assert_eq!(groups[2][1].ordered_at, 3);
    assert_eq!(keys_with_orders(&groups), vec![0, 2]);
}

#[test]
fn marks_pick_customers_and_their_tweets() {
    let mut rng = StdRng::seed_from_u64(4);
    let customers: Vec<Customer> = (0..3)
        .map(|i| Customer::new(PersonaType::Casuals, "s", format!("n{i}"), &mut rng))
        .collect();
    let marks = vec![false, true, true];
    let kept = marked_customers(&customers, &marks);
    assert_eq!(kept.len(), 2);
    assert_eq!(kept[0].id, customers[1].id);
    let tweets = vec![(0usize, tweet_at("x", 1)), (1, tweet_at("y", 2)), (2, tweet_at("z", 3))];
    let kept_tweets = keep_tweets_of_marked(tweets, &marks);
    assert_eq!(kept_tweets.len(), 2);
    assert_eq!(kept_tweets[0].1.user_id, "y");
    let plain = strip_keys(kept_tweets);
    assert_eq!(plain[1].user_id, "z");
}

#[test]
fn heavy_customers_are_split() {
    let mut rng = StdRng::seed_from_u64(5);
    let mut customers = vec![Customer::new(PersonaType::Commuter, "s", "Ann".to_string(), &mut rng)];
    let id = customers[0].id.clone();
    let orders: Vec<(usize, Order)> = (0..5).map(|k| (0usize, order_at(&id, k * 10))).collect();
    let split = split_heavy_customers(orders, &mut customers, 2, &names(), &mut rng);
    assert_eq!(split.len(), 5);
    assert_eq!(customers.len(), 3);
    for c in &customers[1..] {
        assert_eq!(c.persona, PersonaType::Commuter);
        assert_eq!(c.store_id, "s");
    }
    for (k, o) in &split {
        assert_eq!(o.customer_id, customers[*k].id);
    }
    let owners: Vec<usize> = split.iter().map(|p| p.0).collect();
    assert_eq!(owners.iter().filter(|&&k| k == 0).count(), 2);
}

#[test]
fn shuffling_keeps_every_element() {
    let mut rng = StdRng::seed_from_u64(6);
    let mut v: Vec<u32> = (0..50).collect();
    fisher_yates_shuffle(&mut v, &mut rng);
    let mut sorted = v.clone();
    sorted.sort();
    assert_eq!(sorted, (0..50).collect::<Vec<u32>>());
}

#[test]
fn a_capped_run_keeps_at_most_the_cap() {
    let mut rng = StdRng::seed_from_u64(7);
    let cfg = config(20, Some(10), vec![one_store(20, 0)]);
    let result = run_simulation(&cfg, &inputs(20, 1, 1_000_000, 20), &names(), &mut rng);
    assert_eq!(result.total_days, 20);
    assert!(result.orders.len() <= 10);
    assert_eq!(result.stores.len(), 1);
    for o in &result.orders {
        assert!(result.customers.iter().any(|c| c.id == o.customer_id));
        let day = o.ordered_at.div_euclid(1440);
        assert!(epoch() as i64 <= day && day < epoch() as i64 + 20);
    }
}

#[test]
fn an_uncapped_run_is_balanced() {
    let mut rng = StdRng::seed_from_u64(8);
    let cfg = config(30, None, vec![one_store(20, 0), one_store(20, 10)]);
    let result = run_simulation(&cfg, &inputs(30, 2, 1_000_000, 20), &names(), &mut rng);
    assert_eq!(result.total_days, 30);
    assert!(!result.orders.is_empty());
    for w in result.orders.windows(2) {
        assert!(w[0].ordered_at <= w[1].ordered_at);
    }
    for c in &result.customers {
        assert!(result.orders.iter().any(|o| o.customer_id == c.id));
    }
    for t in &result.tweets {
        assert!(result.customers.iter().any(|c| c.id == t.user_id));
    }
    assert!(result.tweets.len() <= (result.orders.len() + 5) / 10);
    let late_store = &cfg.stores[1].id;
    for o in result.orders.iter().filter(|o| &o.store_id == late_store) {
        assert!(o.ordered_at.div_euclid(1440) >= epoch() as i64 + 10);
    }
}

#[test]
fn no_pull_means_no_orders() {
    let mut rng = StdRng::seed_from_u64(9);
    let cfg = config(10, Some(100), vec![one_store(20, 0)]);
    let result = run_simulation(&cfg, &inputs(10, 1, 0, 20), &names(), &mut rng);
    assert!(result.orders.is_empty());
    assert!(result.customers.is_empty());
    assert!(result.tweets.is_empty());
}

#[test]
fn results_become_named_tables() {
    let mut rng = StdRng::seed_from_u64(10);
    let cfg = config(10, Some(20), vec![one_store(20, 0)]);
    let result = run_simulation(&cfg, &inputs(10, 1, 1_000_000, 20), &names(), &mut rng);
    let tables = result_tables(&cfg, &result);
    let file_names: Vec<&str> = tables.iter().map(|t| t.file_name.as_str()).collect();
    assert_eq!(
        file_names,
        vec![
            "raw_customers.csv",
            "raw_orders.csv",
            "raw_items.csv",
            "raw_stores.csv",
            "raw_products.csv",
            "raw_supplies.csv",
            "raw_tweets.csv"
        ]
    );
    assert_eq!(tables[0].headers, vec!["id", "name"]);
    assert_eq!(tables[0].rows.len(), result.customers.len());
    assert_eq!(tables[1].headers[2], "ordered_at");
    assert_eq!(tables[1].rows.len(), result.orders.len());
    let item_count: usize = result.orders.iter().map(|o| o.items.len()).sum();
    assert_eq!(tables[2].rows.len(), item_count);
    assert_eq!(tables[3].rows.len(), 1);
    assert_eq!(tables[3].rows[0][3], "0.06");
    assert_eq!(tables[4].rows.len(), 10);
    assert_eq!(tables[4].headers, vec!["sku", "name", "type", "price", "description"]);
    assert_eq!(tables[6].rows.len(), result.tweets.len());
}

#[test]
fn international_stores_get_a_file_per_country() {
    let stores = vec![
        Store::new("A", "A", "US", 900_000, 0, 60_000, 10),
        Store::new("B", "B", "gb", 900_000, 0, 200_000, 10),
        Store::new("C", "C", "US", 900_000, 3, 70_000, 10),
    ];
    let cfg = config(10, Some(0), stores);
    let result = SimResult {
        orders: Vec::new(),
        tweets: Vec::new(),
        customers: Vec::new(),
        stores: cfg.stores.iter().cloned().collect(),
        total_days: 10,
    };
    let tables = result_tables(&cfg, &result);
    assert_eq!(tables.len(), 8);
    assert_eq!(tables[3].file_name, "raw_stores_US.csv");
    assert_eq!(tables[3].rows.len(), 2);
    assert_eq!(tables[3].rows[1][2], "2023-09-04");
    assert_eq!(tables[4].file_name, "raw_stores_GB.csv");
    assert_eq!(tables[4].rows[0][3], "0.2");
    assert_eq!(tables[5].file_name, "raw_products.csv");
}

#[test]
fn the_default_configuration_spans_a_year() {
    let cfg = SimConfig::default();
    assert_eq!(cfg.start_date, epoch());
    assert_eq!(cfg.end_date - cfg.start_date, 366);
    assert!(cfg.num_orders.is_none());
    assert_eq!(cfg.prefix, "raw");
    assert_eq!(cfg.stores.len(), default_stores().len());
}

#[test]
fn each_kept_customer_keeps_half_to_twice_the_average() {
    let mut rng = StdRng::seed_from_u64(12);
    for _ in 0..20 {
        let mut groups: Vec<Vec<Order>> = vec![
            (0..10).map(|k| order_at("a", k)).collect(),
            (0..3).map(|k| order_at("b", k)).collect(),
            (0..8).map(|k| order_at("c", k)).collect(),
        ];
        let kept = keep_orders_of(&mut groups, &vec![0, 1, 1], 2, &mut rng);
        let of = |k: usize| kept.iter().filter(|p| p.0 == k).count();
        assert!(1 <= of(0) && of(0) <= 4);
        assert!(1 <= of(1) && of(1) <= 3);
        assert_eq!(of(2), 0);
        let mut stamps: Vec<i64> = kept.iter().filter(|p| p.0 == 0).map(|p| p.1.ordered_at).collect();
        stamps.sort();
        stamps.dedup();
        assert_eq!(stamps.len(), of(0));
    }
}

#[test]
fn days_of_stamps_round_down() {
    assert_eq!(day_of_stamp(0), 0);
    assert_eq!(day_of_stamp(1439), 0);
    assert_eq!(day_of_stamp(1440), 1);
    assert_eq!(day_of_stamp(-1), -1);
    assert_eq!(day_of_stamp(-1440), -1);
    assert_eq!(day_of_stamp(-1441), -2);
    assert_eq!(day_of_stamp(i64::MIN), i64::MIN.div_euclid(1440));
}

#[test]
fn orders_fall_within_opening_hours_and_carry_the_stores_tax() {
    let mut rng = StdRng::seed_from_u64(13);
    let mut store = one_store(50, 0);
    store.tax_rate_ppm = 62_500;
    let cfg = config(14, Some(1000), vec![store]);
    let result = run_simulation(&cfg, &inputs(14, 1, 1_000_000, 50), &names(), &mut rng);
    assert!(!result.orders.is_empty());
    for o in &result.orders {
        let day = o.ordered_at.div_euclid(1440);
        let minute = o.ordered_at - day * 1440;
        if Day::new(day - epoch() as i64, 0, epoch()).is_weekend() {
            assert!((480..=900).contains(&minute));
        } else {
            assert!((420..=1200).contains(&minute));
        }
        assert_eq!(o.tax_paid_cents, (62_500 * o.subtotal_cents + 500_000) / 1_000_000);
        assert_eq!(o.subtotal_cents, o.items.iter().map(|i| i.price_cents).sum::<i64>());
    }
}

#[test]
fn runs_are_checked_before_they_start() {
    let cfg = config(5, None, vec![one_store(20, 0)]);
    assert!(can_simulate(&cfg, &inputs(5, 1, 1_000_000, 20), &names()));
    assert!(!can_simulate(&cfg, &inputs(4, 1, 1_000_000, 20), &names()));
    assert!(!can_simulate(&cfg, &inputs(5, 2, 1_000_000, 20), &names()));
    assert!(!can_simulate(&cfg, &inputs(5, 1, 1_000_000, 20), &Vec::new()));
    let mut short = inputs(5, 1, 1_000_000, 20);
    short[2][0].order_normals.pop();
    assert!(!can_simulate(&cfg, &short, &names()));
    let far = config(5, None, vec![one_store(20, i64::MIN)]);
    assert!(!can_simulate(&far, &inputs(5, 1, 0, 0), &names()));
    let mut late = config(5, None, vec![one_store(20, 0)]);
    late.end_date = LAST_DAY + 1;
    assert!(!can_simulate(&late, &Vec::new(), &names()));
}

#[test]
fn results_are_checked_before_they_are_saved() {
    let mut rng = StdRng::seed_from_u64(14);
    let cfg = config(5, Some(10), vec![one_store(20, 0)]);
    let result = run_simulation(&cfg, &inputs(5, 1, 1_000_000, 20), &names(), &mut rng);
    assert!(can_export(&cfg, &result));
    let far = SimResult {
        orders: Vec::new(),
        tweets: Vec::new(),
        customers: Vec::new(),
        stores: vec![one_store(20, 200_000_000)],
        total_days: 5,
    };
    assert!(!can_export(&cfg, &far));
    let late_tweet = SimResult {
        orders: Vec::new(),
        tweets: vec![tweet_at("x", (LAST_DAY as i64 + 1) * 1440)],
        customers: Vec::new(),
        stores: Vec::new(),
        total_days: 5,
    };
    assert!(!can_export(&cfg, &late_tweet));
}

#[test]
fn sure_buyers_always_order() {
    let mut rng = StdRng::seed_from_u64(15);
    let market = Market::new(one_store(100, 0), 100, &names(), &mut rng);
    let friday = Day::new(0, 0, epoch());
    for _ in 0..5 {
        let results = market.sim_day(&friday, &market_day(4_000_000_000, 100), &mut rng);
        for (i, c) in market.customers.iter().enumerate() {
            let sure = matches!(
                c.persona,
                PersonaType::Commuter | PersonaType::RemoteWorker | PersonaType::HealthNut
            );
            if sure {
                assert!(results.iter().any(|r| r.customer_index == i));
            }
        }
    }
}

#[test]
fn a_sure_sale_gives_a_run_with_orders() {
    let mut rng = StdRng::seed_from_u64(16);
    for cap in [None, Some(1), Some(3)] {
        let cfg = config(3, cap, vec![one_store(20, 0)]);
        let result = run_simulation(&cfg, &inputs(3, 1, 4_000_000_000, 20), &names(), &mut rng);
        assert!(!result.orders.is_empty());
    }
    let zero = config(3, Some(0), vec![one_store(20, 0)]);
    let result = run_simulation(&zero, &inputs(3, 1, 4_000_000_000, 20), &names(), &mut rng);
    assert!(result.orders.is_empty());
}

#[test]
fn stores_of_one_foreign_country_share_one_file() {
    let stores = vec![
        Store::new("A", "A", "GB", 900_000, 0, 200_000, 10),
        Store::new("B", "B", "GB", 900_000, 2, 200_000, 10),
    ];
    let cfg = config(10, Some(0), stores);
    let result = SimResult {
        orders: Vec::new(),
        tweets: Vec::new(),
        customers: Vec::new(),
        stores: cfg.stores.iter().cloned().collect(),
        total_days: 10,
    };
    let tables = result_tables(&cfg, &result);
    assert_eq!(tables.len(), 7);
    assert_eq!(tables[3].file_name, "raw_stores.csv");
    assert_eq!(tables[3].rows.len(), 2);
}

#[test]
fn a_run_without_days_has_nothing() {
    let mut rng = StdRng::seed_from_u64(17);
    for cap in [None, Some(5)] {
        let mut cfg = config(0, cap, vec![one_store(20, 0)]);
        cfg.end_date = cfg.start_date;
        let result = run_simulation(&cfg, &Vec::new(), &names(), &mut rng);
        assert!(result.orders.is_empty());
        assert!(result.tweets.is_empty());
        assert!(result.customers.is_empty());
        assert_eq!(result.total_days, 0);
    }
}

#[test]
fn no_customer_keeps_more_than_the_cap() {
    let mut rng = StdRng::seed_from_u64(18);
    let cfg = config(60, None, vec![one_store(20, 0)]);
    let result = run_simulation(&cfg, &inputs(60, 1, 4_000_000_000, 20), &names(), &mut rng);
    assert!(!result.orders.is_empty());
    for c in &result.customers {
        let n = result.orders.iter().filter(|o| o.customer_id == c.id).count();
        assert!(1 <= n && n <= 5);
    }
    let mut ids: Vec<&String> = result.orders.iter().map(|o| &o.id).collect();
    ids.sort();
    ids.dedup();
    assert_eq!(ids.len(), result.orders.len());
}

#[test]
fn a_closed_store_leaves_the_generator_alone() {
    let mut rng = StdRng::seed_from_u64(19);
    let market = Market::new(one_store(20, 5), 20, &names(), &mut rng);
    let before = rng.clone();
    let results = market.sim_day(&Day::new(0, 0, epoch()), &market_day(1_000_000, 20), &mut rng);
    assert!(results.is_empty());
    assert!(rng == before);
}

#[test]
fn a_capped_run_keeps_the_first_orders_and_everyone_who_ordered() {
    let mut rng = StdRng::seed_from_u64(20);
    let cfg = config(10, Some(7), vec![one_store(30, 0)]);
    let raw = simulate_all_days(&cfg, &inputs(10, 1, 4_000_000_000, 30), &names(), &mut rng);
    assert!(raw.orders.len() > 7);
    let first_ids: Vec<String> = raw.orders.iter().take(7).map(|p| p.1.id.clone()).collect();
    let last_time = raw.orders[6].1.ordered_at;
    let kept_tweets = raw.tweets.iter().filter(|t| t.1.tweeted_at <= last_time).count();
    let buyers: Vec<String> = raw
        .customers
        .iter()
        .zip(raw.ordered.iter())
        .filter(|(_, o)| **o)
        .map(|(c, _)| c.id.clone())
        .collect();
    let result = finish_run(raw, &cfg, &names(), &mut rng);
    let ids: Vec<String> = result.orders.iter().map(|o| o.id.clone()).collect();
    assert_eq!(ids, first_ids);
    assert_eq!(result.tweets.len(), kept_tweets);
    let customer_ids: Vec<String> = result.customers.iter().map(|c| c.id.clone()).collect();
    assert_eq!(customer_ids, buyers);
}

#[test]
fn raw_orders_come_day_by_day_and_by_place() {
    let mut rng = StdRng::seed_from_u64(21);
    let cfg = config(6, None, vec![one_store(20, 0), one_store(30, 2)]);
    let raw = simulate_all_days(&cfg, &inputs(6, 2, 4_000_000_000, 30), &names(), &mut rng);
    assert!(raw.orders.len() > 1);
    for w in raw.orders.windows(2) {
        let a = (day_of_stamp(w[0].1.ordered_at), w[0].0);
        let b = (day_of_stamp(w[1].1.ordered_at), w[1].0);
        assert!(a < b);
    }
    let first_place_of_second_store = customer_count(20) as usize;
    for (k, o) in &raw.orders {
        if *k >= first_place_of_second_store {
            assert_eq!(o.store_id, cfg.stores[1].id);
            assert!(day_of_stamp(o.ordered_at) >= epoch() as i64 + 2);
        } else {
            assert_eq!(o.store_id, cfg.stores[0].id);
        }
        assert_eq!(o.customer_id, raw.customers[*k].id);
    }
}

#[test]
fn uncapped_tweets_are_all_or_a_tenth_of_the_orders() {
    let mut rng = StdRng::seed_from_u64(22);
    let cfg = config(60, None, vec![one_store(20, 0)]);
    let raw = simulate_all_days(&cfg, &inputs(60, 1, 4_000_000_000, 20), &names(), &mut rng);
    let raw_tweets: Vec<(String, String, i64)> =
        raw.tweets.iter().map(|(_, t)| (t.id.clone(), t.user_id.clone(), t.tweeted_at)).collect();
    assert!(!raw_tweets.is_empty());
    let result = finish_run(raw, &cfg, &names(), &mut rng);
    let candidates = raw_tweets
        .iter()
        .filter(|t| result.customers.iter().any(|c| c.id == t.1))
        .count();
    let limit = (result.orders.len() + 5) / 10;
    assert_eq!(result.tweets.len(), candidates.min(limit));
    for t in &result.tweets {
        assert!(raw_tweets.iter().any(|r| r.0 == t.id && r.1 == t.user_id && r.2 == t.tweeted_at));
    }
    if candidates > limit {
        for w in result.tweets.windows(2) {
            assert!(w[0].tweeted_at <= w[1].tweeted_at);
        }
    }
}

#[test]
fn a_day_with_given_draws_buys_and_tweets_by_them() {
    let mut rng = StdRng::seed_from_u64(23);
    let market = Market::new(one_store(100, 0), 100, &names(), &mut rng);
    let friday = Day::new(0, 0, epoch());
    let n = market.customers.len();
    let input = market_day(1_000_000, n);
    let buy: Vec<u32> = (0..n).map(|i| [0u32, 400_000, 500_000, 999_999][i % 4]).collect();
    let tweet: Vec<u32> = (0..n).map(|i| [0u32, 999, 150, 700][i % 4]).collect();
    let results = market.sim_day_with_draws(&friday, &input, &buy, &tweet, &mut rng);
    for (i, c) in market.customers.iter().enumerate() {
        let p = c.p_buy_persona(&friday) as i128;
        let buys = 1_000_000i128 * p * 1000 > (buy[i] as i128) * (buy[i] as i128);
        let found = results.iter().find(|r| r.customer_index == i);
        match found {
            Some(r) => {
                assert!(buys);
                let tweets = (tweet[i] as u32) < c.p_tweet_persona();
                assert_eq!(r.tweet.is_some(), tweets);
            },
            None => assert!(!buys || c.persona == PersonaType::Casuals),
        }
    }
    let quarter = market
        .customers
        .iter()
        .enumerate()
        .find(|(i, c)| i % 4 == 1 && c.p_buy_persona(&friday) == 250);
    if let Some((i, _)) = quarter {
        assert!(results.iter().any(|r| r.customer_index == i));
    }
    let closed = Market::new(one_store(20, 5), 20, &names(), &mut rng);
    let before = rng.clone();
    assert!(closed.sim_day_with_draws(&friday, &market_day(1_000_000, 20), &vec![0; 20], &vec![0; 20], &mut rng).is_empty());
    assert!(rng == before);
}
