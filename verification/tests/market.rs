use albion_market::market::{market_prices_url, payload_exceeds_limit, MAX_SIZE};

#[test]
fn market_url_for_items_and_locations() {
    assert_eq!(
        market_prices_url("T4_LEATHER,T5_LEATHER", "Thetford,Martlock"),
        "https://europe.albion-online-data.com/api/v2/stats/prices/T4_LEATHER,T5_LEATHER.json?locations=Thetford,Martlock"
    );
}

#[test]
fn payload_limit() {
    assert_eq!(MAX_SIZE, 262_144);
    assert!(!payload_exceeds_limit(0, 0));
    assert!(!payload_exceeds_limit(262_000, 144));
    assert!(payload_exceeds_limit(262_000, 145));
    assert!(payload_exceeds_limit(usize::MAX, usize::MAX));
    assert!(payload_exceeds_limit(0, 262_145));
}
