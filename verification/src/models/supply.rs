//! The supplies that the products use, with their costs in cents.

use vstd::prelude::*;
use crate::rows::{row_view, table_view};
use crate::text::{int_text, int_to_text, padded_digits, padded_to_text};

verus! {

/// A supply; its cost is held in cents, and `skus` are the products that
/// use it.
#[derive(Debug)]
pub struct Supply {
    pub id: String,
    pub name: String,
    pub cost_cents: i64,
    pub perishable: bool,
    pub skus: Vec<String>,
}

/// The texts of a list of strings.
pub open spec fn texts(v: Seq<String>) -> Seq<Seq<char>> {
    v.map_values(|s: String| s@)
}

/// The text of a flag in the supplies file.
pub open spec fn flag_text(b: bool) -> Seq<char> {
    if b {
        "True"@
    } else {
        "False"@
    }
}

/// The rows of the supplies file for one supply: one per product that uses
/// it, each with the id, name, cost in cents, perishable flag and sku.
pub open spec fn supply_rows(s: Supply) -> Seq<Seq<Seq<char>>> {
    Seq::new(
        s.skus@.len(),
        |i: int|
            seq![
                s.id@,
                s.name@,
                int_text(s.cost_cents as int),
                flag_text(s.perishable),
                s.skus@[i]@,
            ],
    )
}

impl Supply {
    /// This supply has these fields.
    pub open spec fn is(
        self,
        id: Seq<char>,
        name: Seq<char>,
        cost_cents: int,
        perishable: bool,
        skus: Seq<Seq<char>>,
    ) -> bool {
        &&& self.id@ == id
        &&& self.name@ == name
        &&& self.cost_cents == cost_cents
        &&& self.perishable == perishable
        &&& texts(self.skus@) == skus
    }

    /// The cost in cents.
    pub fn cost_cents(&self) -> (r: i64)
        ensures
            r == self.cost_cents,
    {
        self.cost_cents
    }

    pub fn to_csv_rows(&self) -> (r: Vec<Vec<String>>)
        ensures
            table_view(r@) == supply_rows(*self),
    {
        let mut rows: Vec<Vec<String>> = Vec::new();
        let n = self.skus.len();
        for i in 0..n
            invariant
                n == self.skus@.len(),
                rows@.len() == i,
                forall|j: int| 0 <= j < i ==> #[trigger] row_view(rows@[j]@) == supply_rows(*self)[j],
        {
            let mut row: Vec<String> = Vec::new();
            row.push(self.id.clone());
            row.push(self.name.clone());
            row.push(int_to_text(self.cost_cents()));
            if self.perishable {
                row.push(String::from_str("True"));
            } else {
                row.push(String::from_str("False"));
            }
            row.push(self.skus[i].clone());
            assert(row_view(row@) =~= supply_rows(*self)[i as int]);
            rows.push(row);
        }
        assert(table_view(rows@) =~= supply_rows(*self));
        rows
    }
}

/// The skus of the five jaffles, `JAF-001` to `JAF-005`.
pub open spec fn jaffle_skus() -> Seq<Seq<char>> {
    Seq::new(5, |i: int| "JAF-"@ + padded_digits((i + 1) as nat, 3))
}

/// The skus of the five beverages, `BEV-001` to `BEV-005`.
pub open spec fn beverage_skus() -> Seq<Seq<char>> {
    Seq::new(5, |i: int| "BEV-"@ + padded_digits((i + 1) as nat, 3))
}

/// `prefix` followed by 1 to 5, each as three digits.
fn numbered_skus(prefix: &str) -> (r: Vec<String>)
    ensures
        texts(r@) == Seq::new(5, |i: int| prefix@ + padded_digits((i + 1) as nat, 3)),
{
    let mut v: Vec<String> = Vec::new();
    for i in 1..6u64
        invariant
            v@.len() == i - 1,
            forall|j: int|
                0 <= j < v@.len() ==> #[trigger] v@[j]@ == prefix@ + padded_digits((j + 1) as nat, 3),
    {
        let mut s = String::from_str(prefix);
        let digits = padded_to_text(i, 3);
        s.append(digits.as_str());
        v.push(s);
    }
    assert(texts(v@) =~= Seq::new(5, |i: int| prefix@ + padded_digits((i + 1) as nat, 3)));
    v
}

fn clone_texts(v: &Vec<String>) -> (r: Vec<String>)
    ensures
        texts(r@) == texts(v@),
{
    let mut out: Vec<String> = Vec::new();
    for i in 0..v.len()
        invariant
            out@.len() == i,
            forall|j: int| 0 <= j < i ==> #[trigger] out@[j]@ == v@[j]@,
    {
        out.push(v[i].clone());
    }
    assert(texts(out@) =~= texts(v@));
    out
}

fn skus_of_one(sku: &str) -> (r: Vec<String>)
    ensures
        texts(r@) == seq![sku@],
{
    let mut v: Vec<String> = Vec::new();
    v.push(String::from_str(sku));
    assert(texts(v@) =~= seq![sku@]);
    v
}

fn with_sku(v: Vec<String>, sku: &str) -> (r: Vec<String>)
    ensures
        texts(r@) == texts(v@).push(sku@),
{
    let ghost before = v@;
    let mut v = v;
    v.push(String::from_str(sku));
    assert(texts(v@) =~= texts(before).push(sku@));
    v
}

fn new_supply(id: &str, name: &str, cost_cents: i64, perishable: bool, skus: Vec<String>) -> (r: Supply)
    ensures
        r.is(id@, name@, cost_cents as int, perishable, texts(skus@)),
{
    Supply { id: String::from_str(id), name: String::from_str(name), cost_cents, perishable, skus }
}

/// The catalog of supplies.
pub open spec fn is_supply_catalog(s: Seq<Supply>) -> bool {
    &&& s.len() == 29
    &&& s[0].is("SUP-001"@, "compostable cutlery knife"@, 7, false, jaffle_skus())
    &&& s[1].is("SUP-002"@, "cutlery fork"@, 7, false, jaffle_skus())
    &&& s[2].is("SUP-003"@, "serving boat"@, 11, false, jaffle_skus())
    &&& s[3].is("SUP-004"@, "napkin"@, 4, false, jaffle_skus())
    &&& s[4].is("SUP-005"@, "16oz compostable cup"@, 13, false, beverage_skus())
    &&& s[5].is("SUP-006"@, "16oz compostable lid"@, 4, false, beverage_skus())
    &&& s[6].is("SUP-007"@, "biodegradable straw"@, 13, false, beverage_skus())
    &&& s[7].is("SUP-008"@, "chai mix"@, 98, true, seq!["BEV-002"@])
    &&& s[8].is("SUP-009"@, "bread"@, 33, true, jaffle_skus())
    &&& s[9].is("SUP-010"@, "cheese"@, 20, true, seq!["JAF-002"@, "JAF-003"@, "JAF-004"@, "JAF-005"@])
    &&& s[10].is("SUP-011"@, "nutella"@, 46, true, seq!["JAF-001"@])
    &&& s[11].is("SUP-012"@, "banana"@, 13, true, seq!["JAF-001"@])
    &&& s[12].is("SUP-013"@, "beef stew"@, 169, true, seq!["JAF-002"@])
    &&& s[13].is("SUP-014"@, "lamb and pork bratwurst"@, 234, true, seq!["JAF-003"@])
    &&& s[14].is("SUP-015"@, "house-pickled cabbage sauerkraut"@, 43, true, seq!["JAF-003"@])
    &&& s[15].is("SUP-016"@, "mustard"@, 7, true, seq!["JAF-003"@])
    &&& s[16].is("SUP-017"@, "pulled pork"@, 215, true, seq!["JAF-004"@])
    &&& s[17].is("SUP-018"@, "pineapple"@, 26, true, seq!["JAF-004"@])
    &&& s[18].is("SUP-019"@, "melon"@, 33, true, seq!["JAF-005"@])
    &&& s[19].is("SUP-020"@, "minced beef"@, 124, true, seq!["JAF-005"@])
    &&& s[20].is("SUP-021"@, "ghost pepper sauce"@, 20, true, seq!["JAF-004"@])
    &&& s[21].is("SUP-022"@, "mango"@, 32, true, seq!["BEV-001"@])
    &&& s[22].is("SUP-023"@, "tangerine"@, 20, true, seq!["BEV-001"@])
    &&& s[23].is("SUP-025"@, "whey protein"@, 36, true, seq!["BEV-002"@])
    &&& s[24].is("SUP-024"@, "oatmilk"@, 11, true, seq!["BEV-002"@])
    &&& s[25].is("SUP-026"@, "coffee"@, 52, true, seq!["BEV-003"@, "BEV-004"@])
    &&& s[26].is("SUP-027"@, "french vanilla syrup"@, 72, true, seq!["BEV-003"@])
    &&& s[27].is("SUP-028"@, "kiwi"@, 20, true, seq!["BEV-005"@])
    &&& s[28].is("SUP-029"@, "lime"@, 13, true, seq!["BEV-005"@])
}

pub fn all_supplies() -> (r: Vec<Supply>)
    ensures
        is_supply_catalog(r@),
{
    let jaffle = numbered_skus("JAF-");
    let beverage = numbered_skus("BEV-");
    let mut v: Vec<Supply> = Vec::new();
    v.push(new_supply("SUP-001", "compostable cutlery knife", 7, false, clone_texts(&jaffle)));
    v.push(new_supply("SUP-002", "cutlery fork", 7, false, clone_texts(&jaffle)));
    v.push(new_supply("SUP-003", "serving boat", 11, false, clone_texts(&jaffle)));
    v.push(new_supply("SUP-004", "napkin", 4, false, clone_texts(&jaffle)));
    v.push(new_supply("SUP-005", "16oz compostable cup", 13, false, clone_texts(&beverage)));
    v.push(new_supply("SUP-006", "16oz compostable lid", 4, false, clone_texts(&beverage)));
    v.push(new_supply("SUP-007", "biodegradable straw", 13, false, clone_texts(&beverage)));
    v.push(new_supply("SUP-008", "chai mix", 98, true, skus_of_one("BEV-002")));
    v.push(new_supply("SUP-009", "bread", 33, true, clone_texts(&jaffle)));
    v.push(new_supply("SUP-010", "cheese", 20, true, with_sku(with_sku(with_sku(skus_of_one("JAF-002"), "JAF-003"), "JAF-004"), "JAF-005")));
    assert(texts(v@[9].skus@) =~= seq!["JAF-002"@, "JAF-003"@, "JAF-004"@, "JAF-005"@]);
    v.push(new_supply("SUP-011", "nutella", 46, true, skus_of_one("JAF-001")));
    v.push(new_supply("SUP-012", "banana", 13, true, skus_of_one("JAF-001")));
    v.push(new_supply("SUP-013", "beef stew", 169, true, skus_of_one("JAF-002")));
    v.push(new_supply("SUP-014", "lamb and pork bratwurst", 234, true, skus_of_one("JAF-003")));
    v.push(new_supply("SUP-015", "house-pickled cabbage sauerkraut", 43, true, skus_of_one("JAF-003")));
    v.push(new_supply("SUP-016", "mustard", 7, true, skus_of_one("JAF-003")));
    v.push(new_supply("SUP-017", "pulled pork", 215, true, skus_of_one("JAF-004")));
    v.push(new_supply("SUP-018", "pineapple", 26, true, skus_of_one("JAF-004")));
    v.push(new_supply("SUP-019", "melon", 33, true, skus_of_one("JAF-005")));
    v.push(new_supply("SUP-020", "minced beef", 124, true, skus_of_one("JAF-005")));
    v.push(new_supply("SUP-021", "ghost pepper sauce", 20, true, skus_of_one("JAF-004")));
    v.push(new_supply("SUP-022", "mango", 32, true, skus_of_one("BEV-001")));
    v.push(new_supply("SUP-023", "tangerine", 20, true, skus_of_one("BEV-001")));
    v.push(new_supply("SUP-025", "whey protein", 36, true, skus_of_one("BEV-002")));
    v.push(new_supply("SUP-024", "oatmilk", 11, true, skus_of_one("BEV-002")));
    v.push(new_supply("SUP-026", "coffee", 52, true, with_sku(skus_of_one("BEV-003"), "BEV-004")));
    assert(texts(v@[25].skus@) =~= seq!["BEV-003"@, "BEV-004"@]);
    v.push(new_supply("SUP-027", "french vanilla syrup", 72, true, skus_of_one("BEV-003")));
    v.push(new_supply("SUP-028", "kiwi", 20, true, skus_of_one("BEV-005")));
    v.push(new_supply("SUP-029", "lime", 13, true, skus_of_one("BEV-005")));
    v
}

} // verus!
