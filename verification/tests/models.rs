use jafgen::models::customer::{
    order_items_from_draws, persona_weights, random_name, Customer, ItemDraws, PersonaType,
};
use jafgen::models::item::{all_beverages, all_items, all_jaffles, Item, ItemType};
use jafgen::models::order::{sum_item_cents, Order};
use jafgen::models::store::{default_stores, Store};
use jafgen::models::supply::all_supplies;
use jafgen::models::tweet::{construct_tweet, Tweet};
use jafgen::simulation::time::{epoch, Day};
use rand::rngs::StdRng;
use rand::SeedableRng;

fn item(name: &str, sku: &str, cents: i64) -> Item {
    Item {
        sku: sku.to_string(),
        name: name.to_string(),
        description: String::new(),
        item_type: ItemType::Jaffle,
        price_cents: cents,
    }
}

fn customer(persona: PersonaType, favorite: i32, fan: i32) -> Customer {
    Customer {
        id: "c-1".to_string(),
        name: "Ann".to_string(),
        favorite_number: favorite,
        fan_level: fan,
        persona,
        store_id: "s-1".to_string(),
    }
}

fn is_uuid_v4(s: &str) -> bool {
    let b = s.as_bytes();
    b.len() == 36 && b[8] == b'-' && b[13] == b'-' && b[18] == b'-' && b[23] == b'-' && b[14] == b'4'
}

#[test]
fn the_menu_has_five_jaffles_and_five_beverages() {
    let jaffles = all_jaffles();
    let beverages = all_beverages();
    assert_eq!(jaffles.len(), 5);
    assert_eq!(beverages.len(), 5);
    assert_eq!(jaffles[0].sku, "JAF-001");
    assert_eq!(jaffles[0].name, "nutellaphone who dis?");
    assert_eq!(jaffles[3].price_cents(), 1400);
    assert_eq!(beverages[4].sku, "BEV-005");
    assert_eq!(beverages[4].price_cents(), 400);
    let all = all_items();
    assert_eq!(all.len(), 10);
    assert_eq!(all[5].sku, "BEV-001");
}

#[test]
fn product_rows_carry_type_and_cents() {
    let jaffles = all_jaffles();
    assert_eq!(
        jaffles[0].to_csv_row(),
        vec!["JAF-001", "nutellaphone who dis?", "jaffle", "1100", "nutella & banana"]
    );
    let beverages = all_beverages();
    assert_eq!(beverages[1].to_csv_row()[2], "beverage");
    assert_eq!(ItemType::Jaffle.to_string(), "jaffle");
}

#[test]
fn supplies_list_one_row_per_product() {
    let supplies = all_supplies();
    assert_eq!(supplies.len(), 29);
    assert_eq!(supplies[0].id, "SUP-001");
    assert_eq!(supplies[0].cost_cents(), 7);
    let rows = supplies[0].to_csv_rows();
    assert_eq!(rows.len(), 5);
    assert_eq!(rows[0], vec!["SUP-001", "compostable cutlery knife", "7", "False", "JAF-001"]);
    assert_eq!(rows[4][4], "JAF-005");
    let total_rows: usize = supplies.iter().map(|s| s.to_csv_rows().len()).sum();
    assert!(total_rows > 29);
}

#[test]
fn orders_add_tax_rounded_to_the_cent() {
    let items = vec![item("a", "JAF-001", 1100), item("b", "BEV-001", 600)];
    assert_eq!(sum_item_cents(&items), 1700);
    let order = Order::new("cust", "store", epoch(), 450, items, 60_000);
    assert_eq!(order.subtotal_cents(), 1700);
    assert_eq!(order.tax_paid_cents(), 102);
    assert_eq!(order.order_total_cents(), 1802);
    assert!(is_uuid_v4(&order.id));
    assert_eq!(order.customer_id, "cust");
    assert_eq!(order.ordered_at, epoch() as i64 * 1440 + 450);
}

#[test]
fn half_cents_of_tax_round_up() {
    let order = Order::new("c", "s", epoch(), 0, vec![item("a", "JAF-001", 1000)], 62_500);
    assert_eq!(order.tax_paid_cents(), 63);
    assert_eq!(order.order_total_cents(), 1063);
    let empty = Order::new("c", "s", epoch(), 0, Vec::new(), 62_500);
    assert_eq!(empty.subtotal_cents(), 0);
    assert_eq!(empty.tax_paid_cents(), 0);
}

#[test]
fn late_minutes_stop_at_the_last_minute_of_the_day() {
    let order = Order::new("c", "s", epoch(), 1500, Vec::new(), 0);
    assert_eq!(order.ordered_at, epoch() as i64 * 1440 + 23 * 60 + 0);
    let row = order.to_csv_row();
    assert_eq!(row[2], "2023-09-01T23:00:00");
}

#[test]
fn order_rows_print_cents_and_items() {
    let items = vec![item("a", "JAF-001", 1100), item("b", "BEV-001", 600)];
    let order = Order::new("cust", "store", epoch(), 425, items, 60_000);
    let row = order.to_csv_row();
    assert_eq!(row.len(), 7);
    assert_eq!(row[1], "cust");
    assert_eq!(row[2], "2023-09-01T07:05:00");
    assert_eq!(row[3], "store");
    assert_eq!(&row[4..], &["1700", "102", "1802"]);
    let item_rows = order.items_csv_rows();
    assert_eq!(item_rows.len(), 2);
    assert_eq!(item_rows[1], vec![order.id.clone(), "BEV-001".to_string()]);
}

#[test]
fn stores_print_their_opening_date_and_tax_rate() {
    let stores = default_stores();
    assert_eq!(stores.len(), 6);
    assert_eq!(stores[2].name, "Chicago");
    assert_eq!(stores[2].tax_rate_ppm, 62_500);
    let row = stores[0].to_csv_row(epoch());
    assert_eq!(row[1], "Philadelphia");
    assert_eq!(row[2], "2023-09-01");
    assert_eq!(row[3], "0.06");
    let chicago = stores[2].to_csv_row(epoch());
    assert_eq!(chicago[3], "0.0625");
    assert_eq!(stores[1].opened_at_date(epoch()), epoch() + 192);
    assert_eq!(stores[0].country_code(), "US");
}

#[test]
fn a_store_is_open_from_its_opening_day() {
    let store = Store::new("X", "X", "GB", 900_000, 10, 50_000, 100);
    assert!(!store.is_open(&Day::new(9, 0, epoch())));
    assert!(store.is_open(&Day::new(10, 0, epoch())));
    assert!(store.is_open(&Day::new(400, 0, epoch())));
    assert!(is_uuid_v4(&store.id));
}

#[test]
fn personas_want_to_buy_on_their_days() {
    let friday = Day::new(0, 0, epoch());
    let saturday = Day::new(1, 0, epoch());
    let winter = Day::new(120, 0, epoch());
    assert_eq!(customer(PersonaType::Commuter, 10, 3).p_buy_persona(&friday), 530);
    assert_eq!(customer(PersonaType::Commuter, 10, 3).p_buy_persona(&saturday), 1);
    assert_eq!(customer(PersonaType::RemoteWorker, 10, 3).p_buy_persona(&friday), 40);
    assert_eq!(customer(PersonaType::BrunchCrowd, 10, 3).p_buy_persona(&friday), 0);
    assert_eq!(customer(PersonaType::BrunchCrowd, 10, 3).p_buy_persona(&saturday), 220);
    assert_eq!(customer(PersonaType::Student, 10, 3).p_buy_persona(&friday), 0);
    assert_eq!(customer(PersonaType::Student, 10, 3).p_buy_persona(&winter), 140);
    assert_eq!(customer(PersonaType::Casuals, 10, 3).p_buy_persona(&winter), 100);
    assert_eq!(customer(PersonaType::HealthNut, 10, 3).p_buy_persona(&friday), 140);
    assert_eq!(customer(PersonaType::HealthNut, 10, 3).p_buy_persona(&winter), 200);
}

#[test]
fn personas_tweet_at_their_rates() {
    assert_eq!(customer(PersonaType::Commuter, 1, 1).p_tweet_persona(), 200);
    assert_eq!(customer(PersonaType::RemoteWorker, 1, 1).p_tweet_persona(), 10);
    assert_eq!(customer(PersonaType::BrunchCrowd, 1, 1).p_tweet_persona(), 800);
    assert_eq!(customer(PersonaType::Student, 1, 1).p_tweet_persona(), 800);
    assert_eq!(customer(PersonaType::Casuals, 1, 1).p_tweet_persona(), 100);
    assert_eq!(customer(PersonaType::HealthNut, 1, 1).p_tweet_persona(), 600);
}

#[test]
fn order_minutes_stay_within_opening_hours() {
    let friday = Day::new(0, 0, epoch());
    let saturday = Day::new(1, 0, epoch());
    let commuter = customer(PersonaType::Commuter, 10, 3);
    assert_eq!(commuter.get_order_minute(&friday, 0), 420);
    let remote = customer(PersonaType::RemoteWorker, 10, 3);
    assert_eq!(remote.get_order_minute(&friday, 0), 420);
    assert_eq!(remote.get_order_minute(&friday, 1_000_000), 600);
    assert_eq!(remote.get_order_minute(&friday, 10_000_000), 1200);
    let student = customer(PersonaType::Student, 10, 3);
    assert_eq!(student.get_order_minute(&friday, 0), 540);
    assert_eq!(student.get_order_minute(&saturday, 0), 540);
    assert_eq!(student.get_order_minute(&saturday, 4_000_000), 900);
    let brunch = customer(PersonaType::BrunchCrowd, 200, 3);
    assert_eq!(brunch.get_order_minute(&saturday, 0), 500);
    assert_eq!(remote.get_order_minute(&friday, 1_002_778), 601);
    assert_eq!(remote.get_order_minute(&friday, 1_002_777), 600);
    assert_eq!(remote.get_order_minute(&friday, 1_005_000), 601);
}

#[test]
fn order_items_follow_the_persona() {
    let mut rng = StdRng::seed_from_u64(7);
    let day = Day::new(0, 0, epoch());
    for _ in 0..50 {
        let c = customer(PersonaType::Commuter, 10, 3).get_order_items(&day, &mut rng);
        assert_eq!(c.len(), 1);
        assert_eq!(c[0].item_type, ItemType::Beverage);
        let b = customer(PersonaType::BrunchCrowd, 45, 3).get_order_items(&day, &mut rng);
        assert_eq!(b.len(), 6);
        assert!(b[..3].iter().all(|i| i.item_type == ItemType::Jaffle));
        assert!(b[3..].iter().all(|i| i.item_type == ItemType::Beverage));
        let s = customer(PersonaType::Student, 10, 3).get_order_items(&day, &mut rng);
        assert!(s.len() == 1 || s.len() == 2);
        assert_eq!(s[0].item_type, ItemType::Beverage);
        let r = customer(PersonaType::RemoteWorker, 10, 3).get_order_items(&day, &mut rng);
        assert!(1 <= r.len() && r.len() <= 3);
        let k = customer(PersonaType::Casuals, 10, 3).get_order_items(&day, &mut rng);
        assert!(k.len() <= 6);
        let nb = k.iter().take_while(|i| i.item_type == ItemType::Beverage).count();
        assert!(k[nb..].iter().all(|i| i.item_type == ItemType::Jaffle));
    }
}

#[test]
fn new_customers_draw_their_numbers() {
    let mut rng = StdRng::seed_from_u64(3);
    for _ in 0..100 {
        let c = Customer::new(PersonaType::Student, "store-9", "Bo".to_string(), &mut rng);
        assert!(is_uuid_v4(&c.id));
        assert!((1..=100).contains(&c.favorite_number));
        assert!((1..=5).contains(&c.fan_level));
        assert_eq!(c.store_id, "store-9");
        assert_eq!(c.persona, PersonaType::Student);
        assert_eq!(c.to_csv_row(), vec![c.id.clone(), "Bo".to_string()]);
    }
    let pool = vec!["Ann".to_string(), "Bo".to_string(), "Cy".to_string()];
    for _ in 0..20 {
        assert!(pool.contains(&random_name(&pool, &mut rng)));
    }
}

#[test]
fn persona_weights_make_one_hundred_percent() {
    let w = persona_weights();
    assert_eq!(w.len(), 6);
    assert_eq!(w.iter().map(|p| p.1).sum::<u32>(), 100);
    assert_eq!(w[0], (PersonaType::Commuter, 25));
    assert_eq!(w[3], (PersonaType::Student, 20));
}

#[test]
fn tweets_name_what_was_ordered() {
    let one = vec![item("doctor stew", "JAF-002", 1100)];
    let two = vec![item("doctor stew", "JAF-002", 1100), item("tangaroo", "BEV-001", 600)];
    let three = vec![
        item("doctor stew", "JAF-002", 1100),
        item("tangaroo", "BEV-001", 600),
        item("mel-bun", "JAF-005", 1200),
    ];
    assert_eq!(construct_tweet(&Vec::new(), 5), "");
    assert_eq!(
        construct_tweet(&one, 5),
        "Jaffles from the Jaffle Shop are my favorite! Ordered a doctor stew"
    );
    assert_eq!(
        construct_tweet(&two, 1),
        "Jaffle Shop again. Ordered a doctor stew and a tangaroo. This place is the worst."
    );
    assert_eq!(
        construct_tweet(&three, 3),
        "Jaffle shop is average. Ordered a doctor stew, a tangaroo, and a mel-bun."
    );
    assert_eq!(
        construct_tweet(&one, -1),
        "Jaffle Shop again. Ordered a doctor stew. This place is the worst."
    );
    assert_eq!(
        construct_tweet(&one, 4),
        "Jaffles from the Jaffle Shop are sooo gooood! Ordered a doctor stew"
    );
}

#[test]
fn tweets_follow_their_order_within_twenty_minutes() {
    let mut rng = StdRng::seed_from_u64(11);
    let items = vec![item("doctor stew", "JAF-002", 1100)];
    let at = epoch() as i64 * 1440 + 600;
    for _ in 0..50 {
        let t = Tweet::new("user", at, &items, 2, &mut rng);
        assert!(at <= t.tweeted_at && t.tweeted_at <= at + 20);
        assert_eq!(t.user_id, "user");
        assert!(is_uuid_v4(&t.id));
        let row = t.to_csv_row();
        assert_eq!(row[3], "Jaffle Shop again. Ordered a doctor stew. This place is awful.");
        assert!(row[2].starts_with("2023-09-01T10:"));
    }
}

#[test]
fn refunds_carry_negative_tax_rounded_away_from_zero() {
    let items = vec![item("refund", "JAF-001", -1000)];
    let order = Order::new("c", "s", epoch(), 0, items, 62_500);
    assert_eq!(order.subtotal_cents(), -1000);
    assert_eq!(order.tax_paid_cents(), -63);
    assert_eq!(order.order_total_cents(), -1063);
    let mixed = vec![item("a", "JAF-001", 1100), item("refund", "JAF-002", -1500)];
    let o = Order::new("c", "s", epoch(), 0, mixed, 60_000);
    assert_eq!(o.subtotal_cents(), -400);
    assert_eq!(o.tax_paid_cents(), -24);
}

fn draws(bc: usize, jc: usize, chance: u32, bevs: Vec<usize>, jafs: Vec<usize>) -> ItemDraws {
    ItemDraws { beverage_count: bc, jaffle_count: jc, jaffle_chance: chance, beverages: bevs, jaffles: jafs }
}

fn skus(items: &[Item]) -> Vec<String> {
    items.iter().map(|i| i.sku.clone()).collect()
}

#[test]
fn drawn_items_follow_the_draws() {
    let r = order_items_from_draws(PersonaType::RemoteWorker, 7, &draws(2, 0, 299, vec![0, 4], vec![3]));
    assert_eq!(skus(&r), vec!["BEV-001", "BEV-005", "JAF-004"]);
    let r = order_items_from_draws(PersonaType::RemoteWorker, 7, &draws(1, 0, 300, vec![2], vec![3]));
    assert_eq!(skus(&r), vec!["BEV-003"]);
    let r = order_items_from_draws(PersonaType::BrunchCrowd, 20, &draws(0, 0, 0, vec![0, 0], vec![1, 2]));
    assert_eq!(skus(&r), vec!["JAF-002", "JAF-003", "BEV-001", "BEV-001"]);
    let r = order_items_from_draws(PersonaType::Student, 50, &draws(0, 0, 499, vec![1], vec![0]));
    assert_eq!(skus(&r), vec!["BEV-002", "JAF-001"]);
    let r = order_items_from_draws(PersonaType::Student, 50, &draws(0, 0, 500, vec![1], vec![0]));
    assert_eq!(skus(&r), vec!["BEV-002"]);
    let r = order_items_from_draws(PersonaType::Casuals, 50, &draws(0, 0, 0, vec![], vec![]));
    assert!(r.is_empty());
    let r = order_items_from_draws(PersonaType::Casuals, 50, &draws(1, 2, 0, vec![3], vec![4, 4]));
    assert_eq!(skus(&r), vec!["BEV-004", "JAF-005", "JAF-005"]);
    let r = order_items_from_draws(PersonaType::Commuter, 50, &draws(0, 0, 0, vec![4], vec![]));
    assert_eq!(skus(&r), vec!["BEV-005"]);
    assert_eq!(r[0].price_cents, 400);
}

#[test]
fn order_items_do_not_depend_on_the_day() {
    let friday = Day::new(0, 0, epoch());
    let sunday = Day::new(2, 0, epoch());
    let mut rng = StdRng::seed_from_u64(40);
    for persona in [
        PersonaType::Commuter,
        PersonaType::RemoteWorker,
        PersonaType::BrunchCrowd,
        PersonaType::Student,
        PersonaType::Casuals,
        PersonaType::HealthNut,
    ] {
        let customer = Customer::new(persona, "store", "Ann".to_string(), &mut rng);
        let mut a = StdRng::seed_from_u64(41);
        let mut b = StdRng::seed_from_u64(41);
        let on_friday = customer.get_order_items(&friday, &mut a);
        let on_sunday = customer.get_order_items(&sunday, &mut b);
        assert_eq!(skus(&on_friday), skus(&on_sunday));
        assert!(a == b);
    }
}
