use albion_market::prices::{
    batch_bounds, city_to_column, collect_item_ids, one_day_before, pause_after_batch,
    plan_price_writes, prices_batch_url, BatchOutcome, PriceQuote, SyncStatus, SyncTally,
    BATCH_SIZE,
};

fn quote(item_id: &str, city: &str, sell: u32, buy: u32) -> PriceQuote {
    PriceQuote {
        item_id: item_id.to_string(),
        city: city.to_string(),
        quality: 1,
        sell_price_min: sell,
        sell_price_max: sell + 10,
        buy_price_min: 1,
        buy_price_max: buy,
    }
}

#[test]
fn city_columns_of_known_cities() {
    assert_eq!(city_to_column("Thetford"), Some(("sell_price_thetford", "buy_price_thetford")));
    assert_eq!(
        city_to_column("Fort Sterling"),
        Some(("sell_price_fort_sterling", "buy_price_fort_sterling"))
    );
    assert_eq!(city_to_column("Martlock"), Some(("sell_price_martlock", "buy_price_martlock")));
    assert_eq!(city_to_column("Brecilien"), Some(("sell_price_brecilien", "buy_price_brecilien")));
}

#[test]
fn city_columns_of_other_cities() {
    assert_eq!(city_to_column("Bridgewatch"), None);
    assert_eq!(city_to_column("thetford"), None);
    assert_eq!(city_to_column(""), None);
}

#[test]
fn price_plan_writes_three_tables_per_priced_quote() {
    let prices = vec![
        quote("T4_BAG", "Martlock", 1500, 1200),
        quote("T5_BAG", "Thetford", 0, 10),
        quote("T6_BAG", "Caerleon", 900, 800),
        quote("T7_BAG", "Fort Sterling", 7, 0),
    ];
    let plan = plan_price_writes(&prices);
    assert_eq!(plan.skipped, 1);
    assert_eq!(plan.writes.len(), 6);
    assert_eq!(
        plan.writes[0].query,
        "UPDATE items SET sell_price_martlock = $sell, buy_price_martlock = $buy, updated_at = $now WHERE item_id = $id AND (source = 'api' OR updated_at < $cutoff)"
    );
    assert_eq!(
        plan.writes[1].query,
        "UPDATE artefacts SET sell_price_martlock = $sell, buy_price_martlock = $buy, updated_at = $now WHERE item_id = $id AND (source = 'api' OR updated_at < $cutoff)"
    );
    assert_eq!(
        plan.writes[2].query,
        "UPDATE resources SET sell_price_martlock = $sell, buy_price_martlock = $buy, updated_at = $now WHERE item_id = $id AND (source = 'api' OR updated_at < $cutoff)"
    );
    assert_eq!(plan.writes[0].sell, "1500");
    assert_eq!(plan.writes[0].buy, "1200");
    assert_eq!(plan.writes[0].item_id, "T4_BAG");
    assert_eq!(
        plan.writes[3].query,
        "UPDATE items SET sell_price_fort_sterling = $sell, buy_price_fort_sterling = $buy, updated_at = $now WHERE item_id = $id AND (source = 'api' OR updated_at < $cutoff)"
    );
    assert_eq!(plan.writes[5].sell, "7");
    assert_eq!(plan.writes[5].buy, "0");
    assert_eq!(plan.writes[5].item_id, "T7_BAG");
}

#[test]
fn price_plan_of_nothing() {
    let plan = plan_price_writes(&Vec::new());
    assert_eq!(plan.skipped, 0);
    assert!(plan.writes.is_empty());
}

#[test]
fn cutoff_is_one_day_earlier() {
    assert_eq!(one_day_before(1_700_000_000), 1_699_913_600);
    assert_eq!(one_day_before(0), -86400);
}

#[test]
fn batch_url_joins_ids() {
    let ids = vec!["T4_BAG".to_string(), "T5_CAPE".to_string()];
    assert_eq!(
        prices_batch_url(&ids),
        "https://europe.albion-online-data.com/api/v2/stats/prices/T4_BAG,T5_CAPE.json?locations=Thetford,Fort Sterling,Martlock,Brecilien&qualities=1"
    );
}

#[test]
fn batches_are_chunks_of_batch_size() {
    assert_eq!(batch_bounds(0), vec![]);
    assert_eq!(batch_bounds(1), vec![(0, 1)]);
    assert_eq!(batch_bounds(150), vec![(0, 150)]);
    assert_eq!(batch_bounds(151), vec![(0, 150), (150, 151)]);
    assert_eq!(batch_bounds(400), vec![(0, 150), (150, 300), (300, 400)]);
    let ids: Vec<u32> = (0..1000).collect();
    let chunks: Vec<(usize, usize)> = ids
        .chunks(BATCH_SIZE)
        .scan(0usize, |start, c| {
            let b = (*start, *start + c.len());
            *start += c.len();
            Some(b)
        })
        .collect();
    assert_eq!(batch_bounds(1000), chunks);
}

#[test]
fn pause_only_after_full_batch() {
    assert!(pause_after_batch(150));
    assert!(!pause_after_batch(149));
    assert!(!pause_after_batch(0));
}

#[test]
fn ids_collected_in_table_order_without_repeated_neighbours() {
    let s = |x: &str| Some(x.to_string());
    let items = vec![s("A"), None, s("A"), s("B")];
    let artefacts = vec![s("B"), s("C")];
    let resources = vec![None, s("A"), s("A")];
    let ids = collect_item_ids(&items, &artefacts, &resources);
    assert_eq!(ids, vec!["A", "B", "C", "A"]);
    assert!(collect_item_ids(&vec![], &vec![None], &vec![]).is_empty());
}

#[test]
fn sync_runs_do_not_overlap() {
    let mut status = SyncStatus::idle();
    assert!(status.try_start());
    assert!(status.running);
    let snapshot = status;
    assert!(!status.try_start());
    assert!(status == snapshot);
}

#[test]
fn start_clears_counts_and_keeps_last_sync() {
    let mut status = SyncStatus {
        last_sync: Some(5),
        items_updated: 3,
        items_skipped: 2,
        errors: 1,
        running: false,
    };
    assert!(status.try_start());
    assert!(
        status
            == SyncStatus {
                last_sync: Some(5),
                items_updated: 0,
                items_skipped: 0,
                errors: 0,
                running: true,
            }
    );
}

#[test]
fn unlisted_run_stops_with_an_error() {
    let mut status = SyncStatus::idle();
    assert!(status.try_start());
    status.stop_unlisted();
    assert!(!status.running);
    assert_eq!(status.errors, 1);
    assert!(status.try_start());
}

#[test]
fn completed_run_reports_tally() {
    let mut status = SyncStatus::idle();
    assert!(status.try_start());
    let mut tally = SyncTally::new();
    for outcome in [
        BatchOutcome::Applied { updated: 9, skipped: 2 },
        BatchOutcome::FetchFailed,
        BatchOutcome::Applied { updated: 3, skipped: 0 },
        BatchOutcome::WriteFailed,
    ] {
        assert!(tally.can_record(outcome));
        tally.record(outcome);
    }
    status.complete(1234, tally);
    assert!(
        status
            == SyncStatus {
                last_sync: Some(1234),
                items_updated: 12,
                items_skipped: 2,
                errors: 2,
                running: false,
            }
    );
}

#[test]
fn tally_refuses_overflow() {
    let tally = SyncTally { updated: u32::MAX - 1, skipped: 0, errors: u32::MAX };
    assert!(tally.can_record(BatchOutcome::Applied { updated: 1, skipped: 5 }));
    assert!(!tally.can_record(BatchOutcome::Applied { updated: 2, skipped: 0 }));
    assert!(!tally.can_record(BatchOutcome::FetchFailed));
}

#[test]
fn completed_run_allows_restart() {
    let mut status = SyncStatus::idle();
    assert!(status.try_start());
    status.complete(10, SyncTally::new());
    assert!(!status.running);
    assert!(status.try_start());
    assert_eq!(status.last_sync, Some(10));
}
