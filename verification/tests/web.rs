use jafgen::simulation::time::epoch;
use jafgen::simulation::sim::SimResult;
use jafgen::web::handlers::{
    default_config, failure, generated, prepare_config, refused, save_failed, saved_answer, too_large,
    GenerateRequest, StoreInput,
};

fn store_input(name: &str) -> StoreInput {
    StoreInput {
        name: name.to_string(),
        city: "Springfield".to_string(),
        country: "US".to_string(),
        base_popularity_ppm: 850_000,
        opened_offset_days: 12,
        tax_rate_ppm: 60_000,
        tam: 500,
    }
}

fn request(start: &str, end: &str, stores: Vec<StoreInput>, prefix: Option<&str>) -> GenerateRequest {
    GenerateRequest {
        start_date: start.to_string(),
        end_date: end.to_string(),
        num_orders: Some(42),
        stores,
        prefix: prefix.map(|p| p.to_string()),
    }
}

#[test]
fn a_good_request_becomes_a_configuration() {
    let req = request("2023-09-01", "2023-10-01", vec![store_input("One"), store_input("Two")], None);
    let config = prepare_config(&req).ok().unwrap();
    assert_eq!(config.start_date, epoch());
    assert_eq!(config.end_date, epoch() + 30);
    assert_eq!(config.num_orders, Some(42));
    assert_eq!(config.prefix, "raw");
    assert_eq!(config.stores.len(), 2);
    assert_eq!(config.stores[1].name, "Two");
    assert_eq!(config.stores[0].opened_day, 12);
    assert_eq!(config.stores[0].tam, 500);
    assert_eq!(config.stores[0].tax_rate_ppm, 60_000);
    let named = request("2023-09-01", "2023-10-01", vec![store_input("One")], Some("demo"));
    assert_eq!(prepare_config(&named).ok().unwrap().prefix, "demo");
}

#[test]
fn bad_dates_are_refused_with_chronos_words() {
    let bad_start = prepare_config(&request("yesterday", "2023-10-01", vec![store_input("A")], None));
    let answer = bad_start.err().unwrap();
    assert!(!answer.success);
    assert!(answer.stats.is_none());
    assert_eq!(answer.message, "Invalid start date: input contains invalid characters");
    let bad_end = prepare_config(&request("2023-09-01", "2023-13-01", vec![store_input("A")], None));
    assert_eq!(bad_end.err().unwrap().message, "Invalid end date: input is out of range");
    let both_bad = prepare_config(&request("x", "y", vec![store_input("A")], None));
    assert!(both_bad.err().unwrap().message.starts_with("Invalid start date: "));
}

#[test]
fn the_end_must_follow_the_start() {
    let same = prepare_config(&request("2023-09-01", "2023-09-01", vec![store_input("A")], None));
    assert_eq!(same.err().unwrap().message, "End date must be after start date");
    let before = prepare_config(&request("2023-09-02", "2023-09-01", vec![store_input("A")], None));
    assert_eq!(before.err().unwrap().message, "End date must be after start date");
}

#[test]
fn a_request_needs_a_store() {
    let none = prepare_config(&request("2023-09-01", "2023-10-01", Vec::new(), None));
    let answer = none.err().unwrap();
    assert_eq!(answer.message, "At least one store is required");
    assert!(!answer.success);
}

#[test]
fn answers_report_the_run() {
    let result = SimResult {
        orders: Vec::new(),
        tweets: Vec::new(),
        customers: Vec::new(),
        stores: Vec::new(),
        total_days: 31,
    };
    let ok = generated(&result, "./jaffle-data".to_string());
    assert!(ok.success);
    assert_eq!(ok.message, "Data generated successfully!");
    let stats = ok.stats.unwrap();
    assert_eq!(stats.total_days, 31);
    assert_eq!(stats.total_orders, 0);
    assert_eq!(stats.output_path, "./jaffle-data");
    let failed = save_failed("disk full");
    assert!(!failed.success);
    assert_eq!(failed.message, "Failed to save results: disk full");
    assert_eq!(failure("nope").message, "nope");
}

#[test]
fn the_default_configuration_lists_six_stores() {
    let d = default_config();
    assert_eq!(d.start_date, "2023-09-01");
    assert_eq!(d.end_date, "2024-09-01");
    assert_eq!(d.stores.len(), 6);
    assert_eq!(d.stores[0].name, "Philadelphia");
    assert_eq!(d.stores[0].tax_rate_ppm, 60_000);
    assert_eq!(d.stores[5].name, "Los Angeles");
    assert_eq!(d.stores[5].opened_offset_days, 1107);
    assert_eq!(d.stores[1].tam, 1400);
}

#[test]
fn the_default_configuration_sent_back_gives_the_default_stores() {
    let d = default_config();
    let req = GenerateRequest {
        start_date: d.start_date.clone(),
        end_date: d.end_date.clone(),
        num_orders: None,
        stores: d.stores,
        prefix: None,
    };
    let config = prepare_config(&req).ok().unwrap();
    let defaults = jafgen::models::store::default_stores();
    assert_eq!(config.stores.len(), defaults.len());
    for (a, b) in config.stores.iter().zip(defaults.iter()) {
        assert_eq!(a.name, b.name);
        assert_eq!(a.city, b.city);
        assert_eq!(a.country, b.country);
        assert_eq!(a.base_popularity_ppm, b.base_popularity_ppm);
        assert_eq!(a.opened_day, b.opened_day);
        assert_eq!(a.tax_rate_ppm, b.tax_rate_ppm);
        assert_eq!(a.tam, b.tam);
        assert_ne!(a.id, b.id);
    }
    assert_eq!(config.end_date - config.start_date, 366);
}

#[test]
fn every_answer_carries_its_status() {
    let bad = request("2024-13-01", "2024-02-01", vec![store_input("A")], None);
    let refusal = match prepare_config(&bad) {
        Err(r) => r,
        Ok(_) => panic!("the request should be refused"),
    };
    let (status, r) = refused(refusal);
    assert_eq!(status, 400);
    assert!(!r.success && r.stats.is_none());
    let result = SimResult {
        orders: Vec::new(),
        tweets: Vec::new(),
        customers: Vec::new(),
        stores: Vec::new(),
        total_days: 3,
    };
    let (status, r) = saved_answer(&result, Ok("/tmp/out".to_string()));
    assert_eq!(status, 200);
    assert!(r.success);
    assert_eq!(r.message, "Data generated successfully!");
    let stats = r.stats.unwrap();
    assert_eq!(stats.total_days, 3);
    assert_eq!(stats.output_path, "/tmp/out");
    let (status, r) = saved_answer(&result, Err("disk full".to_string()));
    assert_eq!(status, 500);
    assert!(!r.success && r.stats.is_none());
    assert_eq!(r.message, "Failed to save results: disk full");
    let (status, r) = too_large();
    assert_eq!(status, 500);
    assert!(!r.success && r.stats.is_none());
}
