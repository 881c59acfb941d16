//! What the web interface decides: how a generation request becomes a
//! simulation, and what it answers.

use vstd::prelude::*;
use crate::calendar::{is_parse_error_text, parse_date, parse_failure_text, parsed_date};
use crate::models::store::{default_stores, is_default_store_list, Store};
use crate::simulation::sim::{SimConfig, SimResult};

verus! {

/// A store as a request describes it; its popularity and tax rate in
/// millionths.
pub struct StoreInput {
    pub name: String,
    pub city: String,
    pub country: String,
    pub base_popularity_ppm: u32,
    pub opened_offset_days: i64,
    pub tax_rate_ppm: u32,
    pub tam: i64,
}

pub struct GenerateRequest {
    pub start_date: String,
    pub end_date: String,
    pub num_orders: Option<u64>,
    pub stores: Vec<StoreInput>,
    pub prefix: Option<String>,
}

pub struct GenerateStats {
    pub total_orders: usize,
    pub total_customers: usize,
    pub total_tweets: usize,
    pub total_days: i64,
    pub output_path: String,
}

pub struct GenerateResponse {
    pub success: bool,
    pub message: String,
    pub stats: Option<GenerateStats>,
}

pub struct DefaultConfigResponse {
    pub start_date: String,
    pub end_date: String,
    pub stores: Vec<StoreInput>,
}

/// A failed answer with this message.
pub open spec fn is_failure(r: GenerateResponse, message: Seq<char>) -> bool {
    !r.success && r.message@ == message && r.stats is None
}

/// A failed answer whose message is `prefix` followed by the text of the
/// error that chrono gives for the date text `text`, one of its seven.
pub open spec fn is_parse_failure(r: GenerateResponse, prefix: Seq<char>, text: Seq<char>) -> bool {
    &&& is_failure(r, prefix + parse_failure_text(text))
    &&& is_parse_error_text(parse_failure_text(text))
}

/// The store that a store input describes.
pub open spec fn store_from_input(s: Store, i: StoreInput) -> bool {
    s.is(
        i.name@,
        i.city@,
        i.country@,
        i.base_popularity_ppm as int,
        i.opened_offset_days as int,
        i.tax_rate_ppm as int,
        i.tam as int,
    )
}

/// A failed answer with this message.
pub fn failure(message: &str) -> (r: GenerateResponse)
    ensures
        is_failure(r, message@),
{
    GenerateResponse { success: false, message: String::from_str(message), stats: None }
}

fn parse_failure(prefix: &str, text: &str, detail: String) -> (r: GenerateResponse)
    requires
        detail@ == parse_failure_text(text@),
        is_parse_error_text(detail@),
    ensures
        is_parse_failure(r, prefix@, text@),
{
    let mut message = String::from_str(prefix);
    message.append(detail.as_str());
    GenerateResponse { success: false, message, stats: None }
}

/// The simulation a request asks for, or the answer that refuses it: a
/// start or end date that does not read as `%Y-%m-%d`, an end not after
/// the start, or no stores. The prefix defaults to "raw".
pub fn prepare_config(req: &GenerateRequest) -> (r: Result<SimConfig, GenerateResponse>)
    ensures
        match (parsed_date(req.start_date@), parsed_date(req.end_date@)) {
            (None, _) => r matches Err(x) && is_parse_failure(x, "Invalid start date: "@, req.start_date@),
            (Some(_), None) => r matches Err(x) && is_parse_failure(x, "Invalid end date: "@, req.end_date@),
            (Some(start), Some(end)) => if end <= start {
                r matches Err(x) && is_failure(x, "End date must be after start date"@)
            } else if req.stores@.len() == 0 {
                r matches Err(x) && is_failure(x, "At least one store is required"@)
            } else {
                r matches Ok(c) && {
                    &&& c.start_date == start
                    &&& c.end_date == end
                    &&& c.num_orders == req.num_orders
                    &&& c.stores@.len() == req.stores@.len()
                    &&& forall|i: int|
                        0 <= i < c.stores@.len() ==> #[trigger] store_from_input(c.stores@[i], req.stores@[i])
                    &&& c.prefix@ == match req.prefix {
                        Some(p) => p@,
                        None => "raw"@,
                    }
                }
            },
        },
        r matches Ok(c) ==> (crate::calendar::day_in_range(c.start_date as int)
            && crate::calendar::day_in_range(c.end_date as int)),
{
    let start_date = match parse_date(req.start_date.as_str()) {
        Ok(d) => d,
        Err(e) => {
            return Err(parse_failure("Invalid start date: ", req.start_date.as_str(), e));
        },
    };
    let end_date = match parse_date(req.end_date.as_str()) {
        Ok(d) => d,
        Err(e) => {
            return Err(parse_failure("Invalid end date: ", req.end_date.as_str(), e));
        },
    };
    if end_date <= start_date {
        return Err(failure("End date must be after start date"));
    }
    let mut stores: Vec<Store> = Vec::new();
    for i in 0..req.stores.len()
        invariant
            stores@.len() == i,
            forall|j: int| 0 <= j < i ==> #[trigger] store_from_input(stores@[j], req.stores@[j]),
    {
        let s = &req.stores[i];
        stores.push(
            Store::new(
                s.name.as_str(),
                s.city.as_str(),
                s.country.as_str(),
                s.base_popularity_ppm,
                s.opened_offset_days,
                s.tax_rate_ppm,
                s.tam,
            ),
        );
    }
    if stores.len() == 0 {
        return Err(failure("At least one store is required"));
    }
    let prefix = match &req.prefix {
        Some(p) => p.clone(),
        None => String::from_str("raw"),
    };
    Ok(SimConfig { start_date, end_date, num_orders: req.num_orders, stores, prefix })
}

/// The answer to a simulation whose tables were saved at `output_path`.
pub fn generated(result: &SimResult, output_path: String) -> (r: GenerateResponse)
    ensures
        r.success,
        r.message@ == "Data generated successfully!"@,
        r.stats is Some,
        r.stats matches Some(s) ==> {
            &&& s.total_orders == result.orders@.len()
            &&& s.total_customers == result.customers@.len()
            &&& s.total_tweets == result.tweets@.len()
            &&& s.total_days == result.total_days
            &&& s.output_path == output_path
        },
{
    GenerateResponse {
        success: true,
        message: String::from_str("Data generated successfully!"),
        stats: Some(
            GenerateStats {
                total_orders: result.orders.len(),
                total_customers: result.customers.len(),
                total_tweets: result.tweets.len(),
                total_days: result.total_days,
                output_path,
            },
        ),
    }
}

/// The answer when saving the tables failed with `error`.
pub fn save_failed(error: &str) -> (r: GenerateResponse)
    ensures
        is_failure(r, "Failed to save results: "@ + error@),
{
    let mut message = String::from_str("Failed to save results: ");
    message.append(error);
    GenerateResponse { success: false, message, stats: None }
}

/// An answer and its HTTP status agree: 200 exactly when it succeeded,
/// 400 or 500 otherwise, and statistics exactly when it succeeded.
pub open spec fn answered(status: u16, r: GenerateResponse) -> bool {
    &&& status == 200 || status == 400 || status == 500
    &&& r.success == (status == 200)
    &&& r.success == (r.stats is Some)
}

/// A refused request is answered with status 400 (bad request); the
/// refusals of `prepare_config` are failures without statistics, so their
/// answers agree with the status.
pub fn refused(answer: GenerateResponse) -> (r: (u16, GenerateResponse))
    ensures
        r.0 == 400,
        r.1 == answer,
        !answer.success && answer.stats is None ==> answered(r.0, r.1),
{
    (400, answer)
}

/// The answer once the tables of `result` were saved, with its status:
/// when they were saved at a path, 200 (OK) and the statistics; when saving
/// failed with an error, 500 (internal server error) and the error.
pub fn saved_answer(result: &SimResult, saved: Result<String, String>) -> (r: (u16, GenerateResponse))
    ensures
        answered(r.0, r.1),
        saved is Ok <==> r.0 == 200,
        saved matches Ok(path) ==> {
            &&& r.1.message@ == "Data generated successfully!"@
            &&& r.1.stats matches Some(s) && {
                &&& s.total_orders == result.orders@.len()
                &&& s.total_customers == result.customers@.len()
                &&& s.total_tweets == result.tweets@.len()
                &&& s.total_days == result.total_days
                &&& s.output_path == path
            }
        },
        saved matches Err(e) ==> r.0 == 500 && is_failure(r.1, "Failed to save results: "@ + e@),
{
    match saved {
        Ok(path) => (200, generated(result, path)),
        Err(e) => (500, save_failed(e.as_str())),
    }
}

/// The answer when the configured run is beyond what the machine can
/// simulate or export: status 500 and a failure.
pub fn too_large() -> (r: (u16, GenerateResponse))
    ensures
        r.0 == 500,
        answered(r.0, r.1),
        is_failure(r.1, "The simulation is too large to run"@),
{
    (500, failure("The simulation is too large to run"))
}

/// The store input that describes a store.
pub open spec fn input_of_store(i: StoreInput, s: Store) -> bool {
    &&& i.name@ == s.name@
    &&& i.city@ == s.city@
    &&& i.country@ == s.country@
    &&& i.base_popularity_ppm == s.base_popularity_ppm
    &&& i.opened_offset_days == s.opened_day
    &&& i.tax_rate_ppm == s.tax_rate_ppm
    &&& i.tam == s.tam
}

/// The configuration the interface starts from: a year from September 1,
/// 2023, with the six default stores.
pub fn default_config() -> (r: DefaultConfigResponse)
    ensures
        r.start_date@ == "2023-09-01"@,
        r.end_date@ == "2024-09-01"@,
        exists|stores: Seq<Store>|
            is_default_store_list(stores) && r.stores@.len() == stores.len() && forall|i: int|
                0 <= i < stores.len() ==> #[trigger] input_of_store(r.stores@[i], stores[i]),
{
    let stores = default_stores();
    let mut inputs: Vec<StoreInput> = Vec::new();
    for i in 0..stores.len()
        invariant
            inputs@.len() == i,
            forall|j: int| 0 <= j < i ==> #[trigger] input_of_store(inputs@[j], stores@[j]),
    {
        let s = &stores[i];
        inputs.push(
            StoreInput {
                name: s.name.clone(),
                city: s.city.clone(),
                country: s.country.clone(),
                base_popularity_ppm: s.base_popularity_ppm,
                opened_offset_days: s.opened_day,
                tax_rate_ppm: s.tax_rate_ppm,
                tam: s.tam,
            },
        );
    }
    DefaultConfigResponse {
        start_date: String::from_str("2023-09-01"),
        end_date: String::from_str("2024-09-01"),
        stores: inputs,
    }
}

} // verus!
