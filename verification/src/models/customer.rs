//! Customers and the personas that decide when and what they buy.

use vstd::prelude::*;
use rand::rngs::StdRng;
use crate::ids::{is_uuid_v4_text, new_id};
use crate::models::item::{
    all_beverages, all_jaffles, all_menu_beverages, all_menu_jaffles, is_beverage_at, is_jaffle_at,
    is_menu_beverage, is_menu_jaffle, Item,
};
use crate::random::random_in_range;
use crate::rows::row_view;
use crate::simulation::time::{Day, Season, season_of};
use crate::calendar::{calendar_of, weekday_of};

verus! {

#[derive(Debug, Clone, Copy, PartialEq, Eq, Structural)]
pub enum PersonaType {
    Commuter,
    RemoteWorker,
    BrunchCrowd,
    Student,
    Casuals,
    HealthNut,
}

#[derive(Debug)]
pub struct Customer {
    pub id: String,
    pub name: String,
    pub favorite_number: i32,
    pub fan_level: i32,
    pub persona: PersonaType,
    pub store_id: String,
}

impl Clone for Customer {
    fn clone(&self) -> (r: Self)
        ensures
            r == *self,
    {
        Customer {
            id: self.id.clone(),
            name: self.name.clone(),
            favorite_number: self.favorite_number,
            fan_level: self.fan_level,
            persona: self.persona,
            store_id: self.store_id.clone(),
        }
    }
}

/// A day falls on the weekend.
pub open spec fn weekend(day: Day) -> bool {
    weekday_of(day.spec_date()) >= 5
}

/// A day falls in summer.
pub open spec fn summer(day: Day) -> bool {
    season_of(calendar_of(day.spec_date()).1, calendar_of(day.spec_date()).2) == Season::Summer
}

/// How likely, in thousandths, a persona is to want to buy on a day, before
/// the store's own pull is taken into account.
pub open spec fn buy_permille(persona: PersonaType, favorite: int, weekend: bool, summer: bool) -> int {
    match persona {
        PersonaType::Commuter => if weekend {
            1
        } else {
            500 + 3 * favorite
        },
        PersonaType::RemoteWorker => if weekend {
            1
        } else {
            4 * favorite
        },
        PersonaType::BrunchCrowd => if weekend {
            200 + 2 * favorite
        } else {
            0
        },
        PersonaType::Student => if summer {
            0
        } else {
            100 + 4 * favorite
        },
        PersonaType::Casuals => 100,
        PersonaType::HealthNut => if summer {
            100 + 4 * favorite
        } else {
            200
        },
    }
}

/// How likely, in thousandths, a persona is to tweet after an order.
pub open spec fn tweet_permille(persona: PersonaType) -> int {
    match persona {
        PersonaType::Commuter => 200,
        PersonaType::RemoteWorker => 10,
        PersonaType::BrunchCrowd => 800,
        PersonaType::Student => 800,
        PersonaType::Casuals => 100,
        PersonaType::HealthNut => 600,
    }
}

/// The mean and spread, in minutes after midnight, of when a persona orders.
pub open spec fn order_time_profile(persona: PersonaType, favorite: int) -> (int, int) {
    match persona {
        PersonaType::Commuter => (60, 30),
        PersonaType::RemoteWorker => (420, 180),
        PersonaType::BrunchCrowd => (300 + favorite, 120),
        PersonaType::Student => (540, 120),
        PersonaType::Casuals => (300, 120),
        PersonaType::HealthNut => (300, 120),
    }
}

/// `num / den` rounded to the nearest integer, halves away from zero.
pub open spec fn round_div(num: int, den: int) -> int
    recommends
        den > 0,
{
    if num >= 0 {
        (num + den / 2) / den
    } else {
        -((-num + den / 2) / den)
    }
}

/// The opening hours, in minutes after midnight: 8 to 15 on weekends, 7 to
/// 20 on weekdays.
pub open spec fn opening_hours(weekend: bool) -> (int, int) {
    if weekend {
        (480, 900)
    } else {
        (420, 1200)
    }
}

/// `x` held within `[lo, hi]`.
pub open spec fn clamp(x: int, lo: int, hi: int) -> int {
    if x < lo {
        lo
    } else if x > hi {
        hi
    } else {
        x
    }
}

/// The minute at which a customer orders, given a standard normal draw
/// scaled by a million: the persona's mean plus its spread times the draw,
/// rounded, then held within the opening hours.
pub open spec fn order_minute(persona: PersonaType, favorite: int, weekend: bool, normal_micro: int) -> int {
    let (mean, spread) = order_time_profile(persona, favorite);
    let minute = round_div(mean * 1_000_000 + spread * normal_micro, 1_000_000);
    clamp(minute, opening_hours(weekend).0, opening_hours(weekend).1)
}

/// The items a persona orders, in the numbers that the persona takes: for
/// the brunch crowd jaffles of the menu followed by as many beverages; for
/// every other persona beverages of the menu followed by jaffles. Nothing
/// in it depends on the day.
pub open spec fn order_items_shape(persona: PersonaType, favorite: int, s: Seq<Item>) -> bool {
    match persona {
        PersonaType::Commuter => s.len() == 1 && all_menu_beverages(s),
        PersonaType::HealthNut => s.len() == 1 && all_menu_beverages(s),
        PersonaType::RemoteWorker => exists|b: int|
            1 <= b <= 2 && b <= s.len() <= b + 1 && all_menu_beverages(#[trigger] s.take(b))
                && all_menu_jaffles(s.skip(b)),
        PersonaType::BrunchCrowd => {
            let n = 1 + favorite / 20;
            &&& s.len() == 2 * n
            &&& all_menu_jaffles(s.take(n))
            &&& all_menu_beverages(s.skip(n))
        },
        PersonaType::Student => 1 <= s.len() <= 2 && all_menu_beverages(s.take(1))
            && all_menu_jaffles(s.skip(1)),
        PersonaType::Casuals => exists|b: int|
            0 <= b <= 3 && b <= s.len() <= b + 3 && all_menu_beverages(#[trigger] s.take(b))
                && all_menu_jaffles(s.skip(b)),
    }
}

/// A name drawn from `pool`.
pub fn random_name(pool: &Vec<String>, rng: &mut StdRng) -> (r: String)
    requires
        pool.len() > 0,
    ensures
        exists|i: int| 0 <= i < pool.len() && r@ == #[trigger] pool@[i]@,
{
    let i = random_in_range(rng, 0, pool.len());
    let name = pool[i].clone();
    assert(name@ == pool@[i as int]@);
    name
}

/// The draws behind the items of an order: how many beverages and how many
/// jaffles, for the personas whose numbers are drawn; a draw out of a
/// thousand held against a persona's chance of an added jaffle; and, for
/// each beverage and each jaffle in turn, its place on the menu.
pub struct ItemDraws {
    pub beverage_count: usize,
    pub jaffle_count: usize,
    pub jaffle_chance: u32,
    pub beverages: Vec<usize>,
    pub jaffles: Vec<usize>,
}

/// How many beverages the persona takes with the draws `d`.
pub open spec fn drawn_beverages(persona: PersonaType, favorite: int, d: ItemDraws) -> int {
    match persona {
        PersonaType::RemoteWorker | PersonaType::Casuals => d.beverage_count as int,
        PersonaType::BrunchCrowd => 1 + favorite / 20,
        _ => 1,
    }
}

/// How many jaffles the persona takes with the draws `d`: a remote worker
/// one with a chance of 300 in a thousand, a student one with a chance of
/// 500 in a thousand.
pub open spec fn drawn_jaffles(persona: PersonaType, favorite: int, d: ItemDraws) -> int {
    match persona {
        PersonaType::Commuter | PersonaType::HealthNut => 0,
        PersonaType::RemoteWorker => if d.jaffle_chance < 300 {
            1
        } else {
            0
        },
        PersonaType::BrunchCrowd => 1 + favorite / 20,
        PersonaType::Student => if d.jaffle_chance < 500 {
            1
        } else {
            0
        },
        PersonaType::Casuals => d.jaffle_count as int,
    }
}

/// The draws fit the persona: a remote worker takes one or two beverages,
/// a casual customer up to three of each; there is a place on the menu for
/// every item taken.
pub open spec fn draws_fit(persona: PersonaType, favorite: int, d: ItemDraws) -> bool {
    &&& persona == PersonaType::RemoteWorker ==> 1 <= d.beverage_count <= 2
    &&& persona == PersonaType::Casuals ==> d.beverage_count <= 3 && d.jaffle_count <= 3
    &&& d.beverages@.len() >= drawn_beverages(persona, favorite, d)
    &&& d.jaffles@.len() >= drawn_jaffles(persona, favorite, d)
    &&& forall|k: int| 0 <= k < d.beverages@.len() ==> #[trigger] d.beverages@[k] < 5
    &&& forall|k: int| 0 <= k < d.jaffles@.len() ==> #[trigger] d.jaffles@[k] < 5
}

/// The items that the draws give: the beverages and jaffles the persona
/// takes, each the one at its drawn place on the menu; jaffles first for
/// the brunch crowd, beverages first for every other persona.
pub open spec fn items_from_draws(persona: PersonaType, favorite: int, d: ItemDraws, s: Seq<Item>) -> bool {
    let nb = drawn_beverages(persona, favorite, d);
    let nj = drawn_jaffles(persona, favorite, d);
    let first_jaffle = if persona == PersonaType::BrunchCrowd {
        0
    } else {
        nb
    };
    let first_beverage = if persona == PersonaType::BrunchCrowd {
        nj
    } else {
        0
    };
    &&& s.len() == nb + nj
    &&& forall|k: int| 0 <= k < nb ==> is_beverage_at(#[trigger] d.beverages@[k] as int, s[first_beverage + k])
    &&& forall|k: int| 0 <= k < nj ==> is_jaffle_at(#[trigger] d.jaffles@[k] as int, s[first_jaffle + k])
}

/// The items are what some draws that fit the persona, with a chance draw
/// below a thousand, give.
pub open spec fn drawn_items(persona: PersonaType, favorite: int, s: Seq<Item>) -> bool {
    exists|d: ItemDraws|
        #![trigger items_from_draws(persona, favorite, d, s)]
        draws_fit(persona, favorite, d) && d.jaffle_chance < 1000 && items_from_draws(persona, favorite, d, s)
}

/// Appends the beverages at the first `count` of `places` on the menu.
fn push_beverages(items: &mut Vec<Item>, beverages: &Vec<Item>, places: &Vec<usize>, count: usize)
    requires
        crate::models::item::is_beverage_menu(beverages@),
        count <= places@.len(),
        forall|k: int| 0 <= k < places@.len() ==> #[trigger] places@[k] < 5,
    ensures
        final(items)@.len() == old(items)@.len() + count,
        final(items)@.take(old(items)@.len() as int) == old(items)@,
        forall|k: int|
            0 <= k < count ==> is_beverage_at(#[trigger] places@[k] as int, final(items)@[old(items)@.len() + k]),
{
    let ghost start = items@;
    for k in 0..count
        invariant
            crate::models::item::is_beverage_menu(beverages@),
            count <= places@.len(),
            forall|j: int| 0 <= j < places@.len() ==> #[trigger] places@[j] < 5,
            items@.len() == start.len() + k,
            items@.take(start.len() as int) == start,
            forall|j: int| 0 <= j < k ==> is_beverage_at(#[trigger] places@[j] as int, items@[start.len() + j]),
    {
        let item = beverages[places[k]].clone();
        assert(is_beverage_at(places@[k as int] as int, item));
        let ghost before = items@;
        items.push(item);
        assert(items@.take(start.len() as int) =~= before.take(start.len() as int));
        assert forall|j: int| 0 <= j < k + 1 implies is_beverage_at(#[trigger] places@[j] as int, items@[start.len() + j]) by {
            if j < k {
                assert(items@[start.len() + j] == before[start.len() + j]);
            }
        }
    }
}

/// Appends the jaffles at the first `count` of `places` on the menu.
fn push_jaffles(items: &mut Vec<Item>, jaffles: &Vec<Item>, places: &Vec<usize>, count: usize)
    requires
        crate::models::item::is_jaffle_menu(jaffles@),
        count <= places@.len(),
        forall|k: int| 0 <= k < places@.len() ==> #[trigger] places@[k] < 5,
    ensures
        final(items)@.len() == old(items)@.len() + count,
        final(items)@.take(old(items)@.len() as int) == old(items)@,
        forall|k: int|
            0 <= k < count ==> is_jaffle_at(#[trigger] places@[k] as int, final(items)@[old(items)@.len() + k]),
{
    let ghost start = items@;
    for k in 0..count
        invariant
            crate::models::item::is_jaffle_menu(jaffles@),
            count <= places@.len(),
            forall|j: int| 0 <= j < places@.len() ==> #[trigger] places@[j] < 5,
            items@.len() == start.len() + k,
            items@.take(start.len() as int) == start,
            forall|j: int| 0 <= j < k ==> is_jaffle_at(#[trigger] places@[j] as int, items@[start.len() + j]),
    {
        let item = jaffles[places[k]].clone();
        assert(is_jaffle_at(places@[k as int] as int, item));
        let ghost before = items@;
        items.push(item);
        assert(items@.take(start.len() as int) =~= before.take(start.len() as int));
        assert forall|j: int| 0 <= j < k + 1 implies is_jaffle_at(#[trigger] places@[j] as int, items@[start.len() + j]) by {
            if j < k {
                assert(items@[start.len() + j] == before[start.len() + j]);
            }
        }
    }
}

/// Draws `count` more places on the menu.
fn draw_places(places: &mut Vec<usize>, count: usize, rng: &mut StdRng)
    requires
        forall|k: int| 0 <= k < old(places)@.len() ==> #[trigger] old(places)@[k] < 5,
        old(places)@.len() + count <= usize::MAX,
    ensures
        final(places)@.len() == old(places)@.len() + count,
        forall|k: int| 0 <= k < final(places)@.len() ==> #[trigger] final(places)@[k] < 5,
{
    let ghost start = places@.len();
    for k in 0..count
        invariant
            places@.len() == start + k,
            forall|j: int| 0 <= j < places@.len() ==> #[trigger] places@[j] < 5,
    {
        places.push(random_in_range(rng, 0, 5));
    }
}

/// The items of an order given its draws: the beverages and jaffles the
/// persona takes, each the one at its drawn place on the menu, jaffles
/// first for the brunch crowd and beverages first for every other persona.
pub fn order_items_from_draws(persona: PersonaType, favorite: i32, d: &ItemDraws) -> (r: Vec<Item>)
    requires
        persona == PersonaType::BrunchCrowd ==> favorite >= 0,
        draws_fit(persona, favorite as int, *d),
    ensures
        items_from_draws(persona, favorite as int, *d, r@),
        order_items_shape(persona, favorite as int, r@),
{
    let jaffles = all_jaffles();
    let beverages = all_beverages();
    let nb: usize = match persona {
        PersonaType::RemoteWorker | PersonaType::Casuals => d.beverage_count,
        PersonaType::BrunchCrowd => 1 + favorite as usize / 20,
        _ => 1,
    };
    let nj: usize = match persona {
        PersonaType::Commuter | PersonaType::HealthNut => 0,
        PersonaType::RemoteWorker => if d.jaffle_chance < 300 {
            1
        } else {
            0
        },
        PersonaType::BrunchCrowd => 1 + favorite as usize / 20,
        PersonaType::Student => if d.jaffle_chance < 500 {
            1
        } else {
            0
        },
        PersonaType::Casuals => d.jaffle_count,
    };
    assert(nb == drawn_beverages(persona, favorite as int, *d));
    assert(nj == drawn_jaffles(persona, favorite as int, *d));
    let mut items: Vec<Item> = Vec::new();
    if persona == PersonaType::BrunchCrowd {
        push_jaffles(&mut items, &jaffles, &d.jaffles, nj);
        let ghost first = items@;
        push_beverages(&mut items, &beverages, &d.beverages, nb);
        proof {
            assert forall|k: int| 0 <= k < nj implies is_jaffle_at(#[trigger] d.jaffles@[k] as int, items@[k]) by {
                assert(items@[k] == items@.take(nj as int)[k]);
                assert(first[k] == items@[k]);
            }
            lemma_drawn_shape(persona, favorite as int, *d, items@);
        }
    } else {
        push_beverages(&mut items, &beverages, &d.beverages, nb);
        let ghost first = items@;
        push_jaffles(&mut items, &jaffles, &d.jaffles, nj);
        proof {
            assert forall|k: int| 0 <= k < nb implies is_beverage_at(#[trigger] d.beverages@[k] as int, items@[k]) by {
                assert(items@[k] == items@.take(nb as int)[k]);
                assert(first[k] == items@[k]);
            }
            lemma_drawn_shape(persona, favorite as int, *d, items@);
        }
    }
    items
}

/// Items drawn for a persona have the persona's shape.
proof fn lemma_drawn_shape(persona: PersonaType, favorite: int, d: ItemDraws, s: Seq<Item>)
    requires
        persona == PersonaType::BrunchCrowd ==> favorite >= 0,
        draws_fit(persona, favorite, d),
        items_from_draws(persona, favorite, d, s),
    ensures
        order_items_shape(persona, favorite, s),
{
    let nb = drawn_beverages(persona, favorite, d);
    let nj = drawn_jaffles(persona, favorite, d);
    if persona == PersonaType::BrunchCrowd {
        assert forall|k: int| 0 <= k < s.take(nj).len() implies #[trigger] is_menu_jaffle(s.take(nj)[k]) by {
            assert(d.jaffles@[k] < 5);
            assert(is_jaffle_at(d.jaffles@[k] as int, s[k]));
        }
        assert forall|k: int| 0 <= k < s.skip(nj).len() implies #[trigger] is_menu_beverage(s.skip(nj)[k]) by {
            assert(d.beverages@[k] < 5);
            assert(is_beverage_at(d.beverages@[k] as int, s[nj + k]));
        }
    } else {
        assert forall|k: int| 0 <= k < s.take(nb).len() implies #[trigger] is_menu_beverage(s.take(nb)[k]) by {
            assert(d.beverages@[k] < 5);
            assert(is_beverage_at(d.beverages@[k] as int, s[k]));
        }
        assert forall|k: int| 0 <= k < s.skip(nb).len() implies #[trigger] is_menu_jaffle(s.skip(nb)[k]) by {
            assert(d.jaffles@[k] < 5);
            assert(is_jaffle_at(d.jaffles@[k] as int, s[nb + k]));
        }
        if persona == PersonaType::Commuter || persona == PersonaType::HealthNut {
            assert(s.take(1) =~= s);
        }
    }
}

impl Customer {
    /// A new customer of a persona at a store: a fresh id, the given name, a
    /// favorite number from 1 to 100 and a fan level from 1 to 5.
    pub fn new(persona: PersonaType, store_id: &str, name: String, rng: &mut StdRng) -> (r: Customer)
        ensures
            is_uuid_v4_text(r.id@),
            r.name == name,
            1 <= r.favorite_number <= 100,
            1 <= r.fan_level <= 5,
            r.persona == persona,
            r.store_id@ == store_id@,
    {
        let id = new_id();
        let favorite_number = random_in_range(rng, 1, 101) as i32;
        let fan_level = random_in_range(rng, 1, 6) as i32;
        Customer {
            id,
            name,
            favorite_number,
            fan_level,
            persona,
            store_id: String::from_str(store_id),
        }
    }

    /// How likely, in thousandths, the customer is to want to buy on `day`.
    pub fn p_buy_persona(&self, day: &Day) -> (r: i64)
        ensures
            r == buy_permille(self.persona, self.favorite_number as int, weekend(*day), summer(*day)),
    {
        let fav = self.favorite_number as i64;
        match self.persona {
            PersonaType::Commuter => if day.is_weekend() {
                1
            } else {
                500 + 3 * fav
            },
            PersonaType::RemoteWorker => if day.is_weekend() {
                1
            } else {
                4 * fav
            },
            PersonaType::BrunchCrowd => if day.is_weekend() {
                200 + 2 * fav
            } else {
                0
            },
            PersonaType::Student => if day.season() == Season::Summer {
                0
            } else {
                100 + 4 * fav
            },
            PersonaType::Casuals => 100,
            PersonaType::HealthNut => if day.season() == Season::Summer {
                100 + 4 * fav
            } else {
                200
            },
        }
    }

    /// How likely, in thousandths, the customer is to tweet after an order.
    pub fn p_tweet_persona(&self) -> (r: u32)
        ensures
            r == tweet_permille(self.persona),
    {
        match self.persona {
            PersonaType::Commuter => 200,
            PersonaType::RemoteWorker => 10,
            PersonaType::BrunchCrowd => 800,
            PersonaType::Student => 800,
            PersonaType::Casuals => 100,
            PersonaType::HealthNut => 600,
        }
    }

    /// The minute of `day` at which the customer orders, given a standard
    /// normal draw scaled by a million.
    pub fn get_order_minute(&self, day: &Day, normal_micro: i64) -> (r: u32)
        ensures
            r == order_minute(
                self.persona,
                self.favorite_number as int,
                weekend(*day),
                normal_micro as int,
            ),
    {
        let (mean, spread): (i128, i128) = match self.persona {
            PersonaType::Commuter => (60, 30),
            PersonaType::RemoteWorker => (420, 180),
            PersonaType::BrunchCrowd => (300 + self.favorite_number as i128, 120),
            PersonaType::Student => (540, 120),
            PersonaType::Casuals => (300, 120),
            PersonaType::HealthNut => (300, 120),
        };
        let value: i128 = mean * 1_000_000 + spread * (normal_micro as i128);
        let minute: i128 = if value >= 0 {
            (value + 500_000) / 1_000_000
        } else {
            -((-value + 500_000) / 1_000_000)
        };
        let (open, close): (i128, i128) = if day.is_weekend() {
            (480, 900)
        } else {
            (420, 1200)
        };
        if minute < open {
            open as u32
        } else if minute > close {
            close as u32
        } else {
            minute as u32
        }
    }

    /// The items the customer orders on a visit, drawn from the menu: the
    /// draws are made as `ItemDraws` describes, and the items are what
    /// `order_items_from_draws` gives for them. Nothing depends on the day.
    pub fn get_order_items(&self, day: &Day, rng: &mut StdRng) -> (r: Vec<Item>)
        requires
            self.persona == PersonaType::BrunchCrowd ==> self.favorite_number >= 0,
        ensures
            order_items_shape(self.persona, self.favorite_number as int, r@),
            drawn_items(self.persona, self.favorite_number as int, r@),
    {
        let mut d = ItemDraws {
            beverage_count: 0,
            jaffle_count: 0,
            jaffle_chance: 0,
            beverages: Vec::new(),
            jaffles: Vec::new(),
        };
        match self.persona {
            PersonaType::RemoteWorker => {
                d.beverage_count = random_in_range(rng, 1, 3);
                draw_places(&mut d.beverages, d.beverage_count, rng);
                d.jaffle_chance = random_in_range(rng, 0, 1000) as u32;
                if d.jaffle_chance < 300 {
                    draw_places(&mut d.jaffles, 1, rng);
                }
            },
            PersonaType::BrunchCrowd => {
                let count = 1 + (self.favorite_number as usize / 20);
                draw_places(&mut d.jaffles, count, rng);
                draw_places(&mut d.beverages, count, rng);
            },
            PersonaType::Student => {
                draw_places(&mut d.beverages, 1, rng);
                d.jaffle_chance = random_in_range(rng, 0, 1000) as u32;
                if d.jaffle_chance < 500 {
                    draw_places(&mut d.jaffles, 1, rng);
                }
            },
            PersonaType::Casuals => {
                d.beverage_count = random_in_range(rng, 0, 4);
                d.jaffle_count = random_in_range(rng, 0, 4);
                draw_places(&mut d.beverages, d.beverage_count, rng);
                draw_places(&mut d.jaffles, d.jaffle_count, rng);
            },
            _ => {
                draw_places(&mut d.beverages, 1, rng);
            },
        }
        assert(draws_fit(self.persona, self.favorite_number as int, d));
        let items = order_items_from_draws(self.persona, self.favorite_number, &d);
        assert(items_from_draws(self.persona, self.favorite_number as int, d, items@));
        items
    }

    /// The row of the customers file: id and name.
    pub fn to_csv_row(&self) -> (r: Vec<String>)
        ensures
            row_view(r@) == seq![self.id@, self.name@],
    {
        let mut row: Vec<String> = Vec::new();
        row.push(self.id.clone());
        row.push(self.name.clone());
        assert(row_view(row@) =~= seq![self.id@, self.name@]);
        row
    }
}

/// How the customers of a market split into personas, in percent.
pub open spec fn persona_weight_list() -> Seq<(PersonaType, u32)> {
    seq![
        (PersonaType::Commuter, 25u32),
        (PersonaType::RemoteWorker, 25u32),
        (PersonaType::BrunchCrowd, 10u32),
        (PersonaType::Student, 20u32),
        (PersonaType::Casuals, 10u32),
        (PersonaType::HealthNut, 10u32),
    ]
}

/// How the customers of a market split into personas, in percent.
pub fn persona_weights() -> (r: Vec<(PersonaType, u32)>)
    ensures
        r@ == persona_weight_list(),
{
    let mut v: Vec<(PersonaType, u32)> = Vec::new();
    v.push((PersonaType::Commuter, 25));
    v.push((PersonaType::RemoteWorker, 25));
    v.push((PersonaType::BrunchCrowd, 10));
    v.push((PersonaType::Student, 20));
    v.push((PersonaType::Casuals, 10));
    v.push((PersonaType::HealthNut, 10));
    assert(v@ =~= persona_weight_list());
    v
}

} // verus!
