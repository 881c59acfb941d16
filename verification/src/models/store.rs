//! The stores: where they are, when they opened, how popular they are and
//! what tax they charge.

use vstd::prelude::*;
use crate::calendar::{date_text, day_in_range, format_date};
use crate::ids::{is_uuid_v4_text, new_id};
use crate::rows::row_view;
use crate::simulation::time::Day;
use crate::text::{millionths_text, millionths_to_text};

verus! {

/// A store. Its popularity and tax rate are held in millionths; it opens
/// `opened_day` days after the first simulated day, and `tam` is the number
/// of customers in its market.
#[derive(Debug)]
pub struct Store {
    pub id: String,
    pub name: String,
    pub city: String,
    pub country: String,
    pub base_popularity_ppm: u32,
    pub opened_day: i64,
    pub tax_rate_ppm: u32,
    pub tam: i64,
}

impl Clone for Store {
    fn clone(&self) -> (r: Self)
        ensures
            r == *self,
    {
        Store {
            id: self.id.clone(),
            name: self.name.clone(),
            city: self.city.clone(),
            country: self.country.clone(),
            base_popularity_ppm: self.base_popularity_ppm,
            opened_day: self.opened_day,
            tax_rate_ppm: self.tax_rate_ppm,
            tam: self.tam,
        }
    }
}

impl Store {
    /// This store has these fields and a fresh id.
    pub open spec fn is(
        self,
        name: Seq<char>,
        city: Seq<char>,
        country: Seq<char>,
        base_popularity_ppm: int,
        opened_day: int,
        tax_rate_ppm: int,
        tam: int,
    ) -> bool {
        &&& is_uuid_v4_text(self.id@)
        &&& self.name@ == name
        &&& self.city@ == city
        &&& self.country@ == country
        &&& self.base_popularity_ppm == base_popularity_ppm
        &&& self.opened_day == opened_day
        &&& self.tax_rate_ppm == tax_rate_ppm
        &&& self.tam == tam
    }

    pub fn new(
        name: &str,
        city: &str,
        country: &str,
        base_popularity_ppm: u32,
        opened_day: i64,
        tax_rate_ppm: u32,
        tam: i64,
    ) -> (r: Store)
        ensures
            r.is(
                name@,
                city@,
                country@,
                base_popularity_ppm as int,
                opened_day as int,
                tax_rate_ppm as int,
                tam as int,
            ),
    {
        Store {
            id: new_id(),
            name: String::from_str(name),
            city: String::from_str(city),
            country: String::from_str(country),
            base_popularity_ppm,
            opened_day,
            tax_rate_ppm,
            tam,
        }
    }

    /// The store is open on `day` once its opening day has come.
    pub fn is_open(&self, day: &Day) -> (r: bool)
        ensures
            r == (day.spec_date_index() >= self.opened_day),
    {
        day.date_index() >= self.opened_day
    }

    /// The date the store opened, for a first simulated day `epoch`.
    pub fn opened_at_date(&self, epoch: i32) -> (r: i32)
        requires
            day_in_range(epoch + self.opened_day),
        ensures
            r == epoch + self.opened_day,
    {
        (epoch as i64 + self.opened_day) as i32
    }

    /// The row of the stores file: id, name, opening date and tax rate.
    pub fn to_csv_row(&self, epoch: i32) -> (r: Vec<String>)
        requires
            day_in_range(epoch + self.opened_day),
        ensures
            row_view(r@) == seq![
                self.id@,
                self.name@,
                date_text(epoch + self.opened_day),
                millionths_text(self.tax_rate_ppm as nat),
            ],
    {
        let opened_at = self.opened_at_date(epoch);
        let mut row: Vec<String> = Vec::new();
        row.push(self.id.clone());
        row.push(self.name.clone());
        row.push(format_date(opened_at));
        row.push(millionths_to_text(self.tax_rate_ppm));
        assert(row_view(row@) =~= seq![
            self.id@,
            self.name@,
            date_text(epoch + self.opened_day),
            millionths_text(self.tax_rate_ppm as nat),
        ]);
        row
    }

    pub fn country_code(&self) -> (r: &str)
        ensures
            r@ == self.country@,
    {
        self.country.as_str()
    }
}

/// The six stores of the default configuration.
pub open spec fn is_default_store_list(s: Seq<Store>) -> bool {
    &&& s.len() == 6
    &&& s[0].is("Philadelphia"@, "Philadelphia"@, "US"@, 850_000, 0, 60_000, 900)
    &&& s[1].is("Brooklyn"@, "Brooklyn"@, "US"@, 950_000, 192, 40_000, 1400)
    &&& s[2].is("Chicago"@, "Chicago"@, "US"@, 920_000, 605, 62_500, 1200)
    &&& s[3].is("San Francisco"@, "San Francisco"@, "US"@, 870_000, 615, 75_000, 1100)
    &&& s[4].is("New Orleans"@, "New Orleans"@, "US"@, 920_000, 920, 40_000, 800)
    &&& s[5].is("Los Angeles"@, "Los Angeles"@, "US"@, 870_000, 1107, 80_000, 800)
}

pub fn default_stores() -> (r: Vec<Store>)
    ensures
        is_default_store_list(r@),
{
    let mut v: Vec<Store> = Vec::new();
    v.push(Store::new("Philadelphia", "Philadelphia", "US", 850_000, 0, 60_000, 900));
    v.push(Store::new("Brooklyn", "Brooklyn", "US", 950_000, 192, 40_000, 1400));
    v.push(Store::new("Chicago", "Chicago", "US", 920_000, 605, 62_500, 1200));
    v.push(Store::new("San Francisco", "San Francisco", "US", 870_000, 615, 75_000, 1100));
    v.push(Store::new("New Orleans", "New Orleans", "US", 920_000, 920, 40_000, 800));
    v.push(Store::new("Los Angeles", "Los Angeles", "US", 870_000, 1107, 80_000, 800));
    v
}

} // verus!
