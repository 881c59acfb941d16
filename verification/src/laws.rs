//! Properties of the library that span its functions.

use vstd::prelude::*;
use crate::calendar::weekday_of;
use crate::models::customer::{
    buy_permille, opening_hours, order_minute, persona_weight_list, summer, weekend, PersonaType,
};
use crate::models::item::{is_beverage_at, is_beverage_menu, is_jaffle_at, is_jaffle_menu, Item};
use crate::models::order::clock_minute;
use crate::models::supply::{beverage_skus, is_supply_catalog, jaffle_skus, texts, Supply};
use crate::text::padded_digits;
use crate::simulation::market::{market_size, DayResult, Market, MarketDay};
use crate::simulation::time::{Season, season_of};
use crate::simulation::time::Day;
use crate::ids::is_uuid_v4_text;
use crate::models::store::Store;
use crate::models::tweet::{
    adjective_index, listed_with_articles, negative_adjective, neutral_adjective, ordered_sentence,
    positive_adjective, tweet_text,
};
use crate::web::handlers::{input_of_store, store_from_input, StoreInput};

verus! {

/// The weekday of a date repeats every seven days.
pub proof fn law_weekday_repeats_weekly(days: int)
    ensures
        weekday_of(days + 7) == weekday_of(days),
        0 <= weekday_of(days) < 7,
{
}

/// Of any seven consecutive days, exactly two fall on the weekend.
pub proof fn law_two_weekend_days_in_every_week(days: int)
    ensures
        (if weekday_of(days) >= 5 { 1int } else { 0 }) + (if weekday_of(days + 1) >= 5 { 1int } else { 0 })
            + (if weekday_of(days + 2) >= 5 { 1int } else { 0 }) + (if weekday_of(days + 3) >= 5 {
            1int
        } else {
            0
        }) + (if weekday_of(days + 4) >= 5 { 1int } else { 0 }) + (if weekday_of(days + 5) >= 5 {
            1int
        } else {
            0
        }) + (if weekday_of(days + 6) >= 5 { 1int } else { 0 }) == 2,
{
    let w = weekday_of(days);
    assert(weekday_of(days + 1) == (w + 1) % 7);
    assert(weekday_of(days + 2) == (w + 2) % 7);
    assert(weekday_of(days + 3) == (w + 3) % 7);
    assert(weekday_of(days + 4) == (w + 4) % 7);
    assert(weekday_of(days + 5) == (w + 5) % 7);
    assert(weekday_of(days + 6) == (w + 6) % 7);
}

/// Within a month, the season changes from one day to the next only from
/// the 20th to the 21st of March, June, September and December.
pub proof fn law_season_changes_only_on_the_21st(month: int, day: int)
    requires
        1 <= month <= 12,
        1 <= day < 31,
        season_of(month, day + 1) != season_of(month, day),
    ensures
        month == 3 || month == 6 || month == 9 || month == 12,
        day == 20,
{
}

/// The seasons follow each other in order through the year: on the 21st of
/// March, June, September and December the season is the one after that
/// of the 20th.
pub proof fn law_seasons_cycle()
    ensures
        season_of(3, 20) == Season::Winter && season_of(3, 21) == Season::Spring,
        season_of(6, 20) == Season::Spring && season_of(6, 21) == Season::Summer,
        season_of(9, 20) == Season::Summer && season_of(9, 21) == Season::Fall,
        season_of(12, 20) == Season::Fall && season_of(12, 21) == Season::Winter,
{
}

/// A customer orders at a time within the opening hours of the day: 8:00 to
/// 15:00 on weekends, 7:00 to 20:00 on weekdays.
pub proof fn law_orders_within_opening_hours(
    persona: PersonaType,
    favorite: int,
    weekend: bool,
    normal_micro: int,
)
    ensures
        opening_hours(weekend).0 <= order_minute(persona, favorite, weekend, normal_micro)
            <= opening_hours(weekend).1,
        clock_minute(order_minute(persona, favorite, weekend, normal_micro)) == order_minute(
            persona,
            favorite,
            weekend,
            normal_micro,
        ),
{
    let x = order_minute(persona, favorite, weekend, normal_micro);
    assert(x / 60 <= 23 && x % 60 <= 59 && (x / 60) * 60 + x % 60 == x) by (nonlinear_arith)
        requires
            420 <= x <= 1200,
    ;
}

/// An order is always stamped within its day, however late the minute.
pub proof fn law_orders_stamped_within_the_day(minutes: int)
    requires
        minutes >= 0,
    ensures
        0 <= clock_minute(minutes) < 1440,
{
}

/// The brunch crowd orders only on weekends.
pub proof fn law_brunch_crowd_orders_only_on_weekends(
    market: Market,
    day: Day,
    input: MarketDay,
    result: DayResult,
)
    requires
        market.day_result_ok(day, input, result),
        result.customer.persona == PersonaType::BrunchCrowd,
    ensures
        weekend(day),
{
    let c = result.customer;
    assert(buy_permille(c.persona, c.favorite_number as int, weekend(day), summer(day)) != 0);
}

/// Students do not order in summer.
pub proof fn law_students_do_not_order_in_summer(
    market: Market,
    day: Day,
    input: MarketDay,
    result: DayResult,
)
    requires
        market.day_result_ok(day, input, result),
        result.customer.persona == PersonaType::Student,
    ensures
        !summer(day),
{
    let c = result.customer;
    assert(buy_permille(c.persona, c.favorite_number as int, weekend(day), summer(day)) != 0);
}

/// The persona weights share out the whole market.
pub proof fn law_persona_weights_sum_to_all()
    ensures
        persona_weight_list()[0].1 + persona_weight_list()[1].1 + persona_weight_list()[2].1
            + persona_weight_list()[3].1 + persona_weight_list()[4].1 + persona_weight_list()[5].1
            == 100,
{
}

/// A market made for `n` customers has `n` of them, give or take the
/// rounding of each of its six personas.
pub proof fn law_market_size_near_target(n: int)
    requires
        n > 0,
    ensures
        n - 3 <= market_size(n) <= n + 3,
{
    assert((25 * n + 50) / 100 * 100 <= 25 * n + 50 && (25 * n + 50) / 100 * 100 > 25 * n - 50)
        by (nonlinear_arith)
        requires
            n > 0,
    ;
    assert((10 * n + 50) / 100 * 100 <= 10 * n + 50 && (10 * n + 50) / 100 * 100 > 10 * n - 50)
        by (nonlinear_arith)
        requires
            n > 0,
    ;
    assert((20 * n + 50) / 100 * 100 <= 20 * n + 50 && (20 * n + 50) / 100 * 100 > 20 * n - 50)
        by (nonlinear_arith)
        requires
            n > 0,
    ;
}

/// The skus of the jaffles and beverages, written out.
pub proof fn law_sku_texts()
    ensures
        jaffle_skus() == seq!["JAF-001"@, "JAF-002"@, "JAF-003"@, "JAF-004"@, "JAF-005"@],
        beverage_skus() == seq!["BEV-001"@, "BEV-002"@, "BEV-003"@, "BEV-004"@, "BEV-005"@],
{
    reveal_strlit("JAF-");
    reveal_strlit("BEV-");
    reveal_strlit("JAF-001");
    reveal_strlit("JAF-002");
    reveal_strlit("JAF-003");
    reveal_strlit("JAF-004");
    reveal_strlit("JAF-005");
    reveal_strlit("BEV-001");
    reveal_strlit("BEV-002");
    reveal_strlit("BEV-003");
    reveal_strlit("BEV-004");
    reveal_strlit("BEV-005");
    reveal_with_fuel(padded_digits, 4);
    assert(padded_digits(1, 3) =~= seq!['0', '0', '1']);
    assert(padded_digits(2, 3) =~= seq!['0', '0', '2']);
    assert(padded_digits(3, 3) =~= seq!['0', '0', '3']);
    assert(padded_digits(4, 3) =~= seq!['0', '0', '4']);
    assert(padded_digits(5, 3) =~= seq!['0', '0', '5']);
    assert(jaffle_skus()[0] =~= "JAF-001"@);
    assert(jaffle_skus()[1] =~= "JAF-002"@);
    assert(jaffle_skus()[2] =~= "JAF-003"@);
    assert(jaffle_skus()[3] =~= "JAF-004"@);
    assert(jaffle_skus()[4] =~= "JAF-005"@);
    assert(beverage_skus()[0] =~= "BEV-001"@);
    assert(beverage_skus()[1] =~= "BEV-002"@);
    assert(beverage_skus()[2] =~= "BEV-003"@);
    assert(beverage_skus()[3] =~= "BEV-004"@);
    assert(beverage_skus()[4] =~= "BEV-005"@);
    assert(jaffle_skus() =~= seq!["JAF-001"@, "JAF-002"@, "JAF-003"@, "JAF-004"@, "JAF-005"@]);
    assert(beverage_skus() =~= seq!["BEV-001"@, "BEV-002"@, "BEV-003"@, "BEV-004"@, "BEV-005"@]);
}

/// The product with the sku is on the menu.
pub open spec fn sku_on_menu(sku: Seq<char>, items: Seq<Item>) -> bool {
    exists|k: int| 0 <= k < items.len() && (#[trigger] items[k]).sku@ == sku
}

/// The sku is that of one of the ten products.
pub open spec fn menu_sku(sku: Seq<char>) -> bool {
    jaffle_skus().contains(sku) || beverage_skus().contains(sku)
}

/// A list of skus as the catalog's supplies have them: all jaffles, all
/// beverages, the jaffles with cheese, the coffees, or a single product.
spec fn catalog_list(l: Seq<Seq<char>>) -> bool {
    ||| l == jaffle_skus()
    ||| l == beverage_skus()
    ||| l == seq!["JAF-002"@, "JAF-003"@, "JAF-004"@, "JAF-005"@]
    ||| l == seq!["BEV-003"@, "BEV-004"@]
    ||| (l.len() == 1 && menu_sku(l[0]))
}

/// The first `n` supplies have catalog lists of skus.
spec fn lists_upto(s: Seq<Supply>, n: int) -> bool
    decreases n,
{
    if n <= 0 {
        true
    } else {
        lists_upto(s, n - 1) && catalog_list(texts(s[n - 1].skus@))
    }
}

proof fn lemma_lists_upto(s: Seq<Supply>, n: int, i: int)
    requires
        lists_upto(s, n),
        0 <= i < n,
    ensures
        catalog_list(texts(s[i].skus@)),
    decreases n,
{
    if i < n - 1 {
        lemma_lists_upto(s, n - 1, i);
    }
}

/// Each supply of the catalog has a catalog list of skus.
proof fn lemma_catalog_lists(supplies: Seq<Supply>)
    requires
        is_supply_catalog(supplies),
    ensures
        forall|i: int| 0 <= i < supplies.len() ==> catalog_list(#[trigger] texts(supplies[i].skus@)),
{
    law_sku_texts();
    assert(jaffle_skus()[0] == "JAF-001"@ && beverage_skus()[0] == "BEV-001"@);
    assert(jaffle_skus()[1] == "JAF-002"@ && beverage_skus()[1] == "BEV-002"@);
    assert(jaffle_skus()[2] == "JAF-003"@ && beverage_skus()[2] == "BEV-003"@);
    assert(jaffle_skus()[3] == "JAF-004"@ && beverage_skus()[3] == "BEV-004"@);
    assert(jaffle_skus()[4] == "JAF-005"@ && beverage_skus()[4] == "BEV-005"@);
    reveal_with_fuel(lists_upto, 30);
    assert(lists_upto(supplies, 29));
    assert forall|i: int| 0 <= i < supplies.len() implies catalog_list(#[trigger] texts(supplies[i].skus@)) by {
        lemma_lists_upto(supplies, 29, i);
    }
}

/// The skus of a catalog list are skus of the menu.
proof fn lemma_catalog_list_on_menu(l: Seq<Seq<char>>)
    requires
        catalog_list(l),
    ensures
        forall|j: int| 0 <= j < l.len() ==> menu_sku(#[trigger] l[j]),
{
    law_sku_texts();
    assert forall|j: int| 0 <= j < l.len() implies menu_sku(#[trigger] l[j]) by {
        if l == jaffle_skus() {
            assert(jaffle_skus()[j] == l[j]);
        } else if l == beverage_skus() {
            assert(beverage_skus()[j] == l[j]);
        } else if l == seq!["JAF-002"@, "JAF-003"@, "JAF-004"@, "JAF-005"@] {
            assert(jaffle_skus()[j + 1] == l[j]);
        } else if l == seq!["BEV-003"@, "BEV-004"@] {
            assert(beverage_skus()[j + 2] == l[j]);
        }
    }
}

/// Every product that a supply is used for is on the menu.
pub proof fn law_supplies_are_for_products(supplies: Seq<Supply>, items: Seq<Item>)
    requires
        is_supply_catalog(supplies),
        items.len() == 10,
        is_jaffle_menu(items.take(5)),
        is_beverage_menu(items.skip(5)),
    ensures
        forall|i: int, j: int|
            0 <= i < supplies.len() && 0 <= j < supplies[i].skus@.len() ==> #[trigger] sku_on_menu(
                supplies[i].skus@[j]@,
                items,
            ),
{
    lemma_catalog_lists(supplies);
    law_sku_texts();
    let jaffles = items.take(5);
    let beverages = items.skip(5);
    assert forall|k: int| 0 <= k < 5 implies #[trigger] sku_on_menu(jaffle_skus()[k], items) by {
        assert(is_jaffle_at(k, jaffles[k]));
        assert(items[k] == jaffles[k]);
    }
    assert forall|k: int| 0 <= k < 5 implies #[trigger] sku_on_menu(beverage_skus()[k], items) by {
        assert(is_beverage_at(k, beverages[k]));
        assert(items[k + 5] == beverages[k]);
    }
    assert forall|sku: Seq<char>| menu_sku(sku) implies #[trigger] sku_on_menu(sku, items) by {
        if jaffle_skus().contains(sku) {
            let k = choose|k: int| 0 <= k < jaffle_skus().len() && jaffle_skus()[k] == sku;
            assert(sku_on_menu(jaffle_skus()[k], items));
        } else {
            let k = choose|k: int| 0 <= k < beverage_skus().len() && beverage_skus()[k] == sku;
            assert(sku_on_menu(beverage_skus()[k], items));
        }
    }
    assert forall|i: int, j: int|
        0 <= i < supplies.len() && 0 <= j < supplies[i].skus@.len() implies #[trigger] sku_on_menu(
        supplies[i].skus@[j]@,
        items,
    ) by {
        let l = texts(supplies[i].skus@);
        lemma_catalog_list_on_menu(l);
        assert(l[j] == supplies[i].skus@[j]@);
    }
}

/// The skus of the products are all different.
proof fn lemma_menu_skus_distinct()
    ensures
        forall|a: int, b: int| 0 <= a < b < 5 ==> jaffle_skus()[a] != jaffle_skus()[b],
        forall|a: int, b: int| 0 <= a < b < 5 ==> beverage_skus()[a] != beverage_skus()[b],
{
    law_sku_texts();
    reveal_strlit("JAF-001");
    reveal_strlit("JAF-002");
    reveal_strlit("JAF-003");
    reveal_strlit("JAF-004");
    reveal_strlit("JAF-005");
    reveal_strlit("BEV-001");
    reveal_strlit("BEV-002");
    reveal_strlit("BEV-003");
    reveal_strlit("BEV-004");
    reveal_strlit("BEV-005");
    assert forall|a: int, b: int| 0 <= a < b < 5 implies jaffle_skus()[a] != jaffle_skus()[b] by {
        assert(jaffle_skus()[a][6] != jaffle_skus()[b][6]);
    }
    assert forall|a: int, b: int| 0 <= a < b < 5 implies beverage_skus()[a] != beverage_skus()[b] by {
        assert(beverage_skus()[a][6] != beverage_skus()[b][6]);
    }
}

/// Every supply of the catalog is for at least one product, and for none
/// twice.
pub proof fn law_supply_skus_distinct(supplies: Seq<Supply>)
    requires
        is_supply_catalog(supplies),
    ensures
        forall|i: int|
            0 <= i < supplies.len() ==> {
                let l = #[trigger] texts(supplies[i].skus@);
                &&& l.len() >= 1
                &&& forall|a: int, b: int| 0 <= a < b < l.len() ==> l[a] != l[b]
            },
{
    lemma_catalog_lists(supplies);
    lemma_menu_skus_distinct();
    law_sku_texts();
    assert forall|i: int| 0 <= i < supplies.len() implies {
        let l = #[trigger] texts(supplies[i].skus@);
        &&& l.len() >= 1
        &&& forall|a: int, b: int| 0 <= a < b < l.len() ==> l[a] != l[b]
    } by {
        let l = texts(supplies[i].skus@);
        assert(catalog_list(l));
        if l == seq!["JAF-002"@, "JAF-003"@, "JAF-004"@, "JAF-005"@] {
            assert forall|a: int, b: int| 0 <= a < b < l.len() implies l[a] != l[b] by {
                assert(l[a] == jaffle_skus()[a + 1] && l[b] == jaffle_skus()[b + 1]);
            }
        } else if l == seq!["BEV-003"@, "BEV-004"@] {
            assert(l[0] == beverage_skus()[2] && l[1] == beverage_skus()[3]);
        }
    }
}

/// Every product has a supply that is not perishable and one that is.
pub proof fn law_each_product_has_reusable_and_perishable_supplies(supplies: Seq<Supply>)
    requires
        is_supply_catalog(supplies),
    ensures
        forall|k: int|
            #![trigger jaffle_skus()[k]]
            0 <= k < 5 ==> {
                &&& exists|i: int|
                    0 <= i < supplies.len() && !supplies[i].perishable && #[trigger] texts(
                        supplies[i].skus@,
                    ).contains(jaffle_skus()[k])
                &&& exists|i: int|
                    0 <= i < supplies.len() && supplies[i].perishable && #[trigger] texts(
                        supplies[i].skus@,
                    ).contains(jaffle_skus()[k])
                &&& exists|i: int|
                    0 <= i < supplies.len() && !supplies[i].perishable && #[trigger] texts(
                        supplies[i].skus@,
                    ).contains(beverage_skus()[k])
                &&& exists|i: int|
                    0 <= i < supplies.len() && supplies[i].perishable && #[trigger] texts(
                        supplies[i].skus@,
                    ).contains(beverage_skus()[k])
            },
{
    law_sku_texts();
    assert forall|k: int| #![trigger jaffle_skus()[k]] 0 <= k < 5 implies {
        &&& exists|i: int|
            0 <= i < supplies.len() && !supplies[i].perishable && #[trigger] texts(
                supplies[i].skus@,
            ).contains(jaffle_skus()[k])
        &&& exists|i: int|
            0 <= i < supplies.len() && supplies[i].perishable && #[trigger] texts(
                supplies[i].skus@,
            ).contains(jaffle_skus()[k])
        &&& exists|i: int|
            0 <= i < supplies.len() && !supplies[i].perishable && #[trigger] texts(
                supplies[i].skus@,
            ).contains(beverage_skus()[k])
        &&& exists|i: int|
            0 <= i < supplies.len() && supplies[i].perishable && #[trigger] texts(
                supplies[i].skus@,
            ).contains(beverage_skus()[k])
    } by {
        assert(texts(supplies[0].skus@)[k] == jaffle_skus()[k]);
        assert(texts(supplies[0].skus@).contains(jaffle_skus()[k]));
        assert(texts(supplies[8].skus@)[k] == jaffle_skus()[k]);
        assert(texts(supplies[8].skus@).contains(jaffle_skus()[k]));
        assert(texts(supplies[4].skus@)[k] == beverage_skus()[k]);
        assert(texts(supplies[4].skus@).contains(beverage_skus()[k]));
        if k == 0 {
            assert(texts(supplies[21].skus@)[0] == beverage_skus()[0]);
            assert(texts(supplies[21].skus@).contains(beverage_skus()[k]));
        } else if k == 1 {
            assert(texts(supplies[7].skus@)[0] == beverage_skus()[1]);
            assert(texts(supplies[7].skus@).contains(beverage_skus()[k]));
        } else if k == 2 {
            assert(texts(supplies[25].skus@)[0] == beverage_skus()[2]);
            assert(texts(supplies[25].skus@).contains(beverage_skus()[k]));
        } else if k == 3 {
            assert(texts(supplies[25].skus@)[1] == beverage_skus()[3]);
            assert(texts(supplies[25].skus@).contains(beverage_skus()[k]));
        } else {
            assert(texts(supplies[27].skus@)[0] == beverage_skus()[4]);
            assert(texts(supplies[27].skus@).contains(beverage_skus()[k]));
        }
    }
}

/// A store described as a store input, and the store made again from that
/// input, agree in every field but the id, which is a fresh one: so the
/// default configuration that the interface offers, sent back, gives the
/// default stores again.
pub proof fn law_store_input_round_trip(s: Store, i: StoreInput, t: Store)
    requires
        input_of_store(i, s),
        store_from_input(t, i),
    ensures
        t.name@ == s.name@,
        t.city@ == s.city@,
        t.country@ == s.country@,
        t.base_popularity_ppm == s.base_popularity_ppm,
        t.opened_day == s.opened_day,
        t.tax_rate_ppm == s.tax_rate_ppm,
        t.tam == s.tam,
        is_uuid_v4_text(t.id@),
{
}

/// `v` millionths of a minute, rounded to the nearest minute, halves away
/// from zero.
pub open spec fn nearest_minute(v: int) -> int {
    if v >= 0 {
        (v + 500_000) / 1_000_000
    } else {
        -((-v + 500_000) / 1_000_000)
    }
}

/// Minute `m` held within the opening hours: 8:00 to 15:00 at weekends,
/// 7:00 to 20:00 on weekdays.
pub open spec fn within_hours(weekend: bool, m: int) -> int {
    let (open, close) = if weekend {
        (480int, 900int)
    } else {
        (420int, 1200int)
    };
    if m < open {
        open
    } else if m > close {
        close
    } else {
        m
    }
}

/// When each persona orders, for a standard normal draw `z` in millionths:
/// the persona's mean minute plus its spread times the draw, rounded to the
/// minute and held within the opening hours. Commuters order around 1:00
/// give or take 30 minutes (so at opening), remote workers around 7:00 give
/// or take 3 hours, the brunch crowd around 5:00 plus their favorite number
/// of minutes give or take 2 hours, students around 9:00, casual customers
/// and health nuts around 5:00, each give or take 2 hours.
pub proof fn law_order_time_by_persona(persona: PersonaType, favorite: int, weekend: bool, z: int)
    ensures
        persona == PersonaType::Commuter ==> order_minute(persona, favorite, weekend, z) == within_hours(
            weekend,
            nearest_minute(60 * 1_000_000 + 30 * z),
        ),
        persona == PersonaType::RemoteWorker ==> order_minute(persona, favorite, weekend, z) == within_hours(
            weekend,
            nearest_minute(420 * 1_000_000 + 180 * z),
        ),
        persona == PersonaType::BrunchCrowd ==> order_minute(persona, favorite, weekend, z) == within_hours(
            weekend,
            nearest_minute((300 + favorite) * 1_000_000 + 120 * z),
        ),
        persona == PersonaType::Student ==> order_minute(persona, favorite, weekend, z) == within_hours(
            weekend,
            nearest_minute(540 * 1_000_000 + 120 * z),
        ),
        persona == PersonaType::Casuals ==> order_minute(persona, favorite, weekend, z) == within_hours(
            weekend,
            nearest_minute(300 * 1_000_000 + 120 * z),
        ),
        persona == PersonaType::HealthNut ==> order_minute(persona, favorite, weekend, z) == within_hours(
            weekend,
            nearest_minute(300 * 1_000_000 + 120 * z),
        ),
{
}

/// A higher normal draw never makes a customer order earlier.
pub proof fn law_order_time_grows_with_the_draw(
    persona: PersonaType,
    favorite: int,
    weekend: bool,
    z1: int,
    z2: int,
)
    requires
        z1 <= z2,
    ensures
        order_minute(persona, favorite, weekend, z1) <= order_minute(persona, favorite, weekend, z2),
{
    law_order_time_by_persona(persona, favorite, weekend, z1);
    law_order_time_by_persona(persona, favorite, weekend, z2);
    let spread: int = match persona {
        PersonaType::Commuter => 30,
        PersonaType::RemoteWorker => 180,
        _ => 120,
    };
    let mean: int = match persona {
        PersonaType::Commuter => 60,
        PersonaType::RemoteWorker => 420,
        PersonaType::BrunchCrowd => 300 + favorite,
        PersonaType::Student => 540,
        _ => 300,
    };
    let v1 = mean * 1_000_000 + spread * z1;
    let v2 = mean * 1_000_000 + spread * z2;
    assert(v1 <= v2) by (nonlinear_arith)
        requires
            v1 == mean * 1_000_000 + spread * z1,
            v2 == mean * 1_000_000 + spread * z2,
            z1 <= z2,
            spread >= 0,
    ;
    lemma_nearest_minute_grows(v1, v2);
}

proof fn lemma_nearest_minute_grows(v1: int, v2: int)
    requires
        v1 <= v2,
    ensures
        nearest_minute(v1) <= nearest_minute(v2),
{
    if v1 >= 0 {
        vstd::arithmetic::div_mod::lemma_div_is_ordered(v1 + 500_000, v2 + 500_000, 1_000_000);
    } else if v2 < 0 {
        vstd::arithmetic::div_mod::lemma_div_is_ordered(-v2 + 500_000, -v1 + 500_000, 1_000_000);
    } else {
        assert((-v1 + 500_000) / 1_000_000 >= 0);
        assert((v2 + 500_000) / 1_000_000 >= 0);
    }
}

/// `word` stands in `text` from place `p` on.
pub open spec fn occurs_at(text: Seq<char>, word: Seq<char>, p: int) -> bool {
    &&& 0 <= p
    &&& p + word.len() <= text.len()
    &&& text.subrange(p, p + word.len()) == word
}

/// The names stand in `text` at the places `ps`, in their order, each
/// ending before the next begins.
pub open spec fn names_in_order(text: Seq<char>, names: Seq<Seq<char>>, ps: Seq<int>) -> bool {
    &&& ps.len() == names.len()
    &&& forall|k: int| 0 <= k < names.len() ==> occurs_at(text, names[k], #[trigger] ps[k])
    &&& forall|k: int, j: int|
        0 <= k < j < names.len() ==> #[trigger] ps[k] + names[k].len() <= #[trigger] ps[j]
}

proof fn lemma_names_shift(a: Seq<char>, t: Seq<char>, b: Seq<char>, names: Seq<Seq<char>>, ps: Seq<int>) -> (qs: Seq<int>)
    requires
        names_in_order(t, names, ps),
    ensures
        names_in_order(a + t + b, names, qs),
{
    let qs = ps.map_values(|p: int| p + a.len() as int);
    let text = a + t + b;
    assert forall|k: int| 0 <= k < names.len() implies occurs_at(text, names[k], #[trigger] qs[k]) by {
        let p = ps[k];
        assert(occurs_at(t, names[k], p));
        assert(text.subrange(qs[k], qs[k] + names[k].len()) =~= t.subrange(p, p + names[k].len()));
    }
    assert forall|k: int, j: int| 0 <= k < j < names.len() implies #[trigger] qs[k] + names[k].len()
        <= #[trigger] qs[j] by {
        assert(ps[k] + names[k].len() <= ps[j]);
    }
    qs
}

proof fn lemma_names_append(t: Seq<char>, names: Seq<Seq<char>>, ps: Seq<int>, sep: Seq<char>, w: Seq<char>) -> (qs: Seq<int>)
    requires
        names_in_order(t, names, ps),
    ensures
        names_in_order(t + sep + w, names.push(w), qs),
{
    let qs = ps.push((t.len() + sep.len()) as int);
    let text = t + sep + w;
    let all = names.push(w);
    assert forall|k: int| 0 <= k < all.len() implies occurs_at(text, all[k], #[trigger] qs[k]) by {
        if k < names.len() {
            assert(occurs_at(t, names[k], ps[k]));
            assert(text.subrange(qs[k], qs[k] + all[k].len()) =~= t.subrange(ps[k], ps[k] + names[k].len()));
        } else {
            assert(text.subrange(qs[k], qs[k] + all[k].len()) =~= w);
        }
    }
    assert forall|k: int, j: int| 0 <= k < j < all.len() implies #[trigger] qs[k] + all[k].len()
        <= #[trigger] qs[j] by {
        if j < names.len() {
            assert(ps[k] + names[k].len() <= ps[j]);
        } else {
            assert(occurs_at(t, names[k], ps[k]));
        }
    }
    qs
}

proof fn lemma_listed_names(names: Seq<Seq<char>>) -> (ps: Seq<int>)
    ensures
        names_in_order(listed_with_articles(names), names, ps),
    decreases names.len(),
{
    if names.len() == 0 {
        Seq::empty()
    } else if names.len() == 1 {
        let qs = lemma_names_append(Seq::empty(), Seq::empty(), Seq::empty(), "a "@, names[0]);
        assert(Seq::<Seq<char>>::empty().push(names[0]) =~= names);
        assert(Seq::<char>::empty() + "a "@ + names[0] =~= listed_with_articles(names));
        qs
    } else {
        let first = lemma_listed_names(names.drop_last());
        let qs = lemma_names_append(listed_with_articles(names.drop_last()), names.drop_last(), first, ", a "@, names.last());
        assert(names.drop_last().push(names.last()) =~= names);
        qs
    }
}

proof fn lemma_sentence_names(names: Seq<Seq<char>>) -> (ps: Seq<int>)
    requires
        names.len() > 0,
    ensures
        names_in_order(ordered_sentence(names), names, ps),
{
    let none = Seq::<Seq<char>>::empty();
    if names.len() == 1 {
        let qs = lemma_names_append(Seq::empty(), none, Seq::empty(), "Ordered a "@, names[0]);
        assert(none.push(names[0]) =~= names);
        assert(Seq::<char>::empty() + "Ordered a "@ + names[0] =~= ordered_sentence(names));
        qs
    } else if names.len() == 2 {
        let q1 = lemma_names_append(Seq::empty(), none, Seq::empty(), "Ordered a "@, names[0]);
        assert(Seq::<char>::empty() + "Ordered a "@ + names[0] =~= "Ordered a "@ + names[0]);
        let q2 = lemma_names_append("Ordered a "@ + names[0], none.push(names[0]), q1, " and a "@, names[1]);
        assert(none.push(names[0]).push(names[1]) =~= names);
        q2
    } else {
        let l = lemma_listed_names(names.drop_last());
        let q1 = lemma_names_shift("Ordered "@, listed_with_articles(names.drop_last()), Seq::empty(), names.drop_last(), l);
        assert("Ordered "@ + listed_with_articles(names.drop_last()) + Seq::empty() =~= "Ordered "@
            + listed_with_articles(names.drop_last()));
        let q2 = lemma_names_append(
            "Ordered "@ + listed_with_articles(names.drop_last()),
            names.drop_last(),
            q1,
            ", and a "@,
            names.last(),
        );
        assert(names.drop_last().push(names.last()) =~= names);
        q2
    }
}

/// A tweet about an order names every item ordered, in the order they
/// were ordered, each ending before the next begins.
pub proof fn law_tweet_names_every_item(names: Seq<Seq<char>>, fan_level: int)
    requires
        names.len() > 0,
    ensures
        exists|ps: Seq<int>| #[trigger] names_in_order(tweet_text(names, fan_level), names, ps),
{
    let sentence = ordered_sentence(names);
    let ps = lemma_sentence_names(names);
    let text = tweet_text(names, fan_level);
    let qs = if fan_level > 3 {
        let a = "Jaffles from the Jaffle Shop are "@ + positive_adjective(adjective_index(fan_level, 7)) + "! "@;
        let qs = lemma_names_shift(a, sentence, Seq::empty(), names, ps);
        assert(a + sentence + Seq::empty() =~= text);
        qs
    } else if fan_level < 3 {
        let a = "Jaffle Shop again. "@;
        let b = ". This place is "@ + negative_adjective(adjective_index(fan_level, 7)) + "."@;
        let qs = lemma_names_shift(a, sentence, b, names, ps);
        assert(a + sentence + b =~= text);
        qs
    } else {
        let a = "Jaffle shop is "@ + neutral_adjective(adjective_index(fan_level, 8)) + ". "@;
        let qs = lemma_names_shift(a, sentence, "."@, names, ps);
        assert(a + sentence + "."@ =~= text);
        qs
    };
    assert(names_in_order(text, names, qs));
}

} // verus!
