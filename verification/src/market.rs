//! Pass-through price queries: the address asked for a client's items and
//! locations, and the limit on the size of a client's request body.
use vstd::prelude::*;
use vstd::string::*;

verus! {

/// The largest request body, in bytes, that is held in memory without
/// warning (256 KiB).
pub const MAX_SIZE: usize = 262144;

/// The address asked when a client asks for prices without naming items.
pub const DEFAULT_PRICES_URL: &'static str = "https://europe.albion-online-data.com/api/v2/stats/prices/T4_LEATHER.json?locations=Thetford,Martlock,FortSterling,Bridgewatch,BlackMarket";

/// The address that asks the data service for the prices of some items at
/// some locations, both given as comma-separated lists.
pub open spec fn market_prices_text(items: Seq<char>, locations: Seq<char>) -> Seq<char> {
    "https://europe.albion-online-data.com/api/v2/stats/prices/"@ + items + ".json?locations="@
        + locations
}

/// Builds the address that asks for the prices of some items at some
/// locations.
pub fn market_prices_url(items: &str, locations: &str) -> (url: String)
    ensures
        url@ == market_prices_text(items@, locations@),
{
    let mut url = String::from_str("https://europe.albion-online-data.com/api/v2/stats/prices/");
    url.append(items);
    url.append(".json?locations=");
    url.append(locations);
    url
}

/// Whether a body of `body_len` bytes grows past `MAX_SIZE` when a chunk of
/// `chunk_len` bytes is added.
pub fn payload_exceeds_limit(body_len: usize, chunk_len: usize) -> (over: bool)
    ensures
        over == (body_len + chunk_len > MAX_SIZE),
{
    body_len > MAX_SIZE || chunk_len > MAX_SIZE - body_len
}

} // verus!
