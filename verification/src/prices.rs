//! Price synchronisation: which ids to ask the Albion data service for, in
//! which batches, which database writes a batch of quoted prices leads to,
//! and the status that a synchronisation run reports.
use vstd::prelude::*;
use vstd::string::*;
use crate::text::{decimal, decimal_text, join_texts, joined, text_eq, texts};

verus! {

/// The Albion data service.
pub const API_BASE: &'static str = "https://europe.albion-online-data.com";

/// The cities whose prices are asked for.
pub const LOCATIONS: &'static str = "Thetford,Fort Sterling,Martlock,Brecilien";

/// How many ids one request asks for.
pub const BATCH_SIZE: usize = 150;

/// A price quoted by the data service for one item in one city.
pub struct PriceQuote {
    pub item_id: String,
    pub city: String,
    pub quality: u32,
    pub sell_price_min: u32,
    pub sell_price_max: u32,
    pub buy_price_min: u32,
    pub buy_price_max: u32,
}

/// The price columns of a city: selling column and buying column.
pub open spec fn city_columns(city: Seq<char>) -> Option<(Seq<char>, Seq<char>)> {
    if city == "Thetford"@ {
        Some(("sell_price_thetford"@, "buy_price_thetford"@))
    } else if city == "Fort Sterling"@ {
        Some(("sell_price_fort_sterling"@, "buy_price_fort_sterling"@))
    } else if city == "Martlock"@ {
        Some(("sell_price_martlock"@, "buy_price_martlock"@))
    } else if city == "Brecilien"@ {
        Some(("sell_price_brecilien"@, "buy_price_brecilien"@))
    } else {
        None
    }
}

/// The column suffix a city name gives: lower case, with spaces as
/// underscores.
pub open spec fn column_suffix(city: Seq<char>) -> Seq<char> {
    city.map_values(
        |c: char|
            if c == ' ' {
                '_'
            } else if 'A' <= c <= 'Z' {
                ((c as u32) + 32) as char
            } else {
                c
            },
    )
}

/// Law: a city's prices go to the selling and buying columns named after
/// that same city: `sell_price_` and `buy_price_` followed by the city's
/// name in lower case with underscores for spaces.
pub proof fn lemma_city_columns_named_after_city(city: Seq<char>)
    ensures
        city_columns(city) matches Some((s, b)) ==> s == "sell_price_"@ + column_suffix(city) && b
            == "buy_price_"@ + column_suffix(city),
{
    reveal_strlit("sell_price_");
    reveal_strlit("buy_price_");
    if city == "Thetford"@ {
        reveal_strlit("Thetford");
        reveal_strlit("thetford");
        reveal_strlit("sell_price_thetford");
        reveal_strlit("buy_price_thetford");
        reveal_strlit("Fort Sterling");
        reveal_strlit("fort_sterling");
        reveal_strlit("sell_price_fort_sterling");
        reveal_strlit("buy_price_fort_sterling");
        reveal_strlit("Martlock");
        reveal_strlit("martlock");
        reveal_strlit("sell_price_martlock");
        reveal_strlit("buy_price_martlock");
        reveal_strlit("Brecilien");
        reveal_strlit("brecilien");
        reveal_strlit("sell_price_brecilien");
        reveal_strlit("buy_price_brecilien");
        assert(column_suffix(city) =~= "thetford"@);
        assert("sell_price_thetford"@ =~= "sell_price_"@ + "thetford"@);
        assert("buy_price_thetford"@ =~= "buy_price_"@ + "thetford"@);
    }
    if city == "Fort Sterling"@ {
        reveal_strlit("Thetford");
        reveal_strlit("thetford");
        reveal_strlit("sell_price_thetford");
        reveal_strlit("buy_price_thetford");
        reveal_strlit("Fort Sterling");
        reveal_strlit("fort_sterling");
        reveal_strlit("sell_price_fort_sterling");
        reveal_strlit("buy_price_fort_sterling");
        reveal_strlit("Martlock");
        reveal_strlit("martlock");
        reveal_strlit("sell_price_martlock");
        reveal_strlit("buy_price_martlock");
        reveal_strlit("Brecilien");
        reveal_strlit("brecilien");
        reveal_strlit("sell_price_brecilien");
        reveal_strlit("buy_price_brecilien");
        assert(column_suffix(city) =~= "fort_sterling"@);
        assert("sell_price_fort_sterling"@ =~= "sell_price_"@ + "fort_sterling"@);
        assert("buy_price_fort_sterling"@ =~= "buy_price_"@ + "fort_sterling"@);
    }
    if city == "Martlock"@ {
        reveal_strlit("Thetford");
        reveal_strlit("thetford");
        reveal_strlit("sell_price_thetford");
        reveal_strlit("buy_price_thetford");
        reveal_strlit("Fort Sterling");
        reveal_strlit("fort_sterling");
        reveal_strlit("sell_price_fort_sterling");
        reveal_strlit("buy_price_fort_sterling");
        reveal_strlit("Martlock");
        reveal_strlit("martlock");
        reveal_strlit("sell_price_martlock");
        reveal_strlit("buy_price_martlock");
        reveal_strlit("Brecilien");
        reveal_strlit("brecilien");
        reveal_strlit("sell_price_brecilien");
        reveal_strlit("buy_price_brecilien");
        assert(column_suffix(city) =~= "martlock"@);
        assert("sell_price_martlock"@ =~= "sell_price_"@ + "martlock"@);
        assert("buy_price_martlock"@ =~= "buy_price_"@ + "martlock"@);
    }
    if city == "Brecilien"@ {
        reveal_strlit("Thetford");
        reveal_strlit("thetford");
        reveal_strlit("sell_price_thetford");
        reveal_strlit("buy_price_thetford");
        reveal_strlit("Fort Sterling");
        reveal_strlit("fort_sterling");
        reveal_strlit("sell_price_fort_sterling");
        reveal_strlit("buy_price_fort_sterling");
        reveal_strlit("Martlock");
        reveal_strlit("martlock");
        reveal_strlit("sell_price_martlock");
        reveal_strlit("buy_price_martlock");
        reveal_strlit("Brecilien");
        reveal_strlit("brecilien");
        reveal_strlit("sell_price_brecilien");
        reveal_strlit("buy_price_brecilien");
        assert(column_suffix(city) =~= "brecilien"@);
        assert("sell_price_brecilien"@ =~= "sell_price_"@ + "brecilien"@);
        assert("buy_price_brecilien"@ =~= "buy_price_"@ + "brecilien"@);
    }
}

/// The selling and buying price columns of a city, if it is one the
/// catalogue keeps prices for.
pub fn city_to_column(city: &str) -> (r: Option<(&'static str, &'static str)>)
    ensures
        match r {
            Some((s, b)) => city_columns(city@) == Some((s@, b@)),
            None => city_columns(city@) is None,
        },
{
    if text_eq(city, "Thetford") {
        Some(("sell_price_thetford", "buy_price_thetford"))
    } else if text_eq(city, "Fort Sterling") {
        Some(("sell_price_fort_sterling", "buy_price_fort_sterling"))
    } else if text_eq(city, "Martlock") {
        Some(("sell_price_martlock", "buy_price_martlock"))
    } else if text_eq(city, "Brecilien") {
        Some(("sell_price_brecilien", "buy_price_brecilien"))
    } else {
        None
    }
}

/// A database write for a quoted price: the query, and the values bound to
/// `$sell`, `$buy` and `$id`.
pub struct PriceWrite {
    pub query: String,
    pub sell: String,
    pub buy: String,
    pub item_id: String,
}

/// The texts of a price write.
pub struct PriceWriteView {
    pub query: Seq<char>,
    pub sell: Seq<char>,
    pub buy: Seq<char>,
    pub item_id: Seq<char>,
}

impl View for PriceWrite {
    type V = PriceWriteView;

    open spec fn view(&self) -> PriceWriteView {
        PriceWriteView {
            query: self.query@,
            sell: self.sell@,
            buy: self.buy@,
            item_id: self.item_id@,
        }
    }
}

/// The query that writes a city's prices of an item into a table, unless
/// the row was edited by hand less than a day ago.
pub open spec fn price_write_text(table: Seq<char>, sell_col: Seq<char>, buy_col: Seq<char>) -> Seq<
    char,
> {
    "UPDATE "@ + table + " SET "@ + sell_col + " = $sell, "@ + buy_col
        + " = $buy, updated_at = $now WHERE item_id = $id AND (source = 'api' OR updated_at < $cutoff)"@
}

/// The tables that hold priced entries.
pub open spec fn price_tables() -> Seq<Seq<char>> {
    seq!["items"@, "artefacts"@, "resources"@]
}

/// The writes for one quote: none when its lowest selling price is 0 or its
/// city is unknown, else one per priced table.
pub open spec fn writes_for(p: PriceQuote) -> Seq<PriceWriteView> {
    if p.sell_price_min == 0 {
        seq![]
    } else {
        match city_columns(p.city@) {
            None => seq![],
            Some((s, b)) => price_tables().map_values(
                |t: Seq<char>|
                    PriceWriteView {
                        query: price_write_text(t, s, b),
                        sell: decimal(p.sell_price_min as nat),
                        buy: decimal(p.buy_price_max as nat),
                        item_id: p.item_id@,
                    },
            ),
        }
    }
}

/// The writes for a list of quotes, in order.
pub open spec fn planned_writes(prices: Seq<PriceQuote>) -> Seq<PriceWriteView> {
    prices.flat_map(|p: PriceQuote| writes_for(p))
}

/// How many quotes have no selling price.
pub open spec fn unpriced_count(prices: Seq<PriceQuote>) -> nat {
    prices.filter(|p: PriceQuote| p.sell_price_min == 0).len()
}

/// The texts of a list of price writes.
pub open spec fn write_views(w: Seq<PriceWrite>) -> Seq<PriceWriteView> {
    w.map_values(|x: PriceWrite| x@)
}

/// Law: a quote with a selling price, in a city the catalogue keeps prices
/// for, is written to the items, artefacts and resources tables, in that
/// order; each write sets that city's selling column to the lowest selling
/// price and its buying column to the highest buying price, and binds the
/// quote's own item id. Any other quote is written nowhere.
pub proof fn lemma_quote_writes(p: PriceQuote)
    ensures
        p.sell_price_min == 0 ==> writes_for(p).len() == 0,
        city_columns(p.city@) is None ==> writes_for(p).len() == 0,
        p.sell_price_min != 0 && city_columns(p.city@) is Some ==> {
            let (s, b) = city_columns(p.city@)->0;
            let w = writes_for(p);
            &&& w.len() == 3
            &&& w[0].query == "UPDATE items SET "@ + s + " = $sell, "@ + b
                + " = $buy, updated_at = $now WHERE item_id = $id AND (source = 'api' OR updated_at < $cutoff)"@
            &&& w[1].query == "UPDATE artefacts SET "@ + s + " = $sell, "@ + b
                + " = $buy, updated_at = $now WHERE item_id = $id AND (source = 'api' OR updated_at < $cutoff)"@
            &&& w[2].query == "UPDATE resources SET "@ + s + " = $sell, "@ + b
                + " = $buy, updated_at = $now WHERE item_id = $id AND (source = 'api' OR updated_at < $cutoff)"@
            &&& forall|k: int|
                0 <= k < 3 ==> {
                    &&& (#[trigger] w[k]).item_id == p.item_id@
                    &&& w[k].sell == decimal(p.sell_price_min as nat)
                    &&& w[k].buy == decimal(p.buy_price_max as nat)
                }
        },
{
    if p.sell_price_min != 0 && city_columns(p.city@) is Some {
        let (s, b) = city_columns(p.city@)->0;
        let w = writes_for(p);
        assert(w.len() == 3);
        reveal_strlit("UPDATE ");
        reveal_strlit(" SET ");
        reveal_strlit("items");
        reveal_strlit("artefacts");
        reveal_strlit("resources");
        reveal_strlit("UPDATE items SET ");
        reveal_strlit("UPDATE artefacts SET ");
        reveal_strlit("UPDATE resources SET ");
        assert("UPDATE "@ + "items"@ + " SET "@ =~= "UPDATE items SET "@);
        assert("UPDATE "@ + "artefacts"@ + " SET "@ =~= "UPDATE artefacts SET "@);
        assert("UPDATE "@ + "resources"@ + " SET "@ =~= "UPDATE resources SET "@);
        assert(w[0].query =~= "UPDATE items SET "@ + s + " = $sell, "@ + b
            + " = $buy, updated_at = $now WHERE item_id = $id AND (source = 'api' OR updated_at < $cutoff)"@);
        assert(w[1].query =~= "UPDATE artefacts SET "@ + s + " = $sell, "@ + b
            + " = $buy, updated_at = $now WHERE item_id = $id AND (source = 'api' OR updated_at < $cutoff)"@);
        assert(w[2].query =~= "UPDATE resources SET "@ + s + " = $sell, "@ + b
            + " = $buy, updated_at = $now WHERE item_id = $id AND (source = 'api' OR updated_at < $cutoff)"@);
    }
}

/// Law: the writes planned for a batch are those of its quotes, quote after
/// quote: none for an empty batch, and one quote more adds exactly that
/// quote's writes at the end.
pub proof fn lemma_planned_writes_by_quote(prices: Seq<PriceQuote>, p: PriceQuote)
    ensures
        planned_writes(Seq::<PriceQuote>::empty()) == Seq::<PriceWriteView>::empty(),
        planned_writes(prices.push(p)) == planned_writes(prices) + writes_for(p),
{
    prices.lemma_flat_map_push(|q: PriceQuote| writes_for(q), p);
    assert(Seq::<PriceQuote>::empty().flat_map(|q: PriceQuote| writes_for(q)) =~= Seq::<PriceWriteView>::empty()) by {
        reveal(Seq::flat_map);
    }
}

/// Law: every planned write binds the item id of a quote of the batch, and
/// writes that quote's prices.
pub proof fn lemma_planned_writes_bind_quoted_ids(prices: Seq<PriceQuote>)
    ensures
        forall|k: int|
            0 <= k < planned_writes(prices).len() ==> exists|i: int|
                0 <= i < prices.len() && (#[trigger] planned_writes(prices)[k]).item_id
                    == prices[i].item_id@ && planned_writes(prices)[k].sell == decimal(
                    prices[i].sell_price_min as nat,
                ) && planned_writes(prices)[k].buy == decimal(prices[i].buy_price_max as nat)
                    && prices[i].sell_price_min != 0,
    decreases prices.len(),
{
    if prices.len() > 0 {
        let rest = prices.drop_last();
        let p = prices.last();
        assert(rest.push(p) =~= prices);
        lemma_planned_writes_by_quote(rest, p);
        lemma_planned_writes_bind_quoted_ids(rest);
        lemma_quote_writes(p);
        let a = planned_writes(rest);
        let w = writes_for(p);
        assert forall|k: int| 0 <= k < planned_writes(prices).len() implies exists|i: int|
            0 <= i < prices.len() && (#[trigger] planned_writes(prices)[k]).item_id
                == prices[i].item_id@ && planned_writes(prices)[k].sell == decimal(
                prices[i].sell_price_min as nat,
            ) && planned_writes(prices)[k].buy == decimal(prices[i].buy_price_max as nat)
                && prices[i].sell_price_min != 0 by {
            if k < a.len() {
                assert(planned_writes(prices)[k] == a[k]);
                let i = choose|i: int|
                    0 <= i < rest.len() && (#[trigger] a[k]).item_id == rest[i].item_id@ && a[k].sell
                        == decimal(rest[i].sell_price_min as nat) && a[k].buy == decimal(
                        rest[i].buy_price_max as nat,
                    ) && rest[i].sell_price_min != 0;
                assert(prices[i] == rest[i]);
            } else {
                assert(planned_writes(prices)[k] == w[k - a.len()]);
                assert(w[k - a.len()].item_id == p.item_id@);
                assert(prices[prices.len() - 1] == p);
            }
        }
    } else {
        lemma_planned_writes_by_quote(prices, arbitrary());
        assert(prices =~= Seq::<PriceQuote>::empty());
    }
}

/// The database work for a batch of quotes: the writes to run, and how many
/// quotes were skipped for having no selling price.
pub struct PricePlan {
    pub writes: Vec<PriceWrite>,
    pub skipped: u32,
}

fn price_write(table: &str, sell_col: &str, buy_col: &str, p: &PriceQuote) -> (w: PriceWrite)
    ensures
        w@ == (PriceWriteView {
            query: price_write_text(table@, sell_col@, buy_col@),
            sell: decimal(p.sell_price_min as nat),
            buy: decimal(p.buy_price_max as nat),
            item_id: p.item_id@,
        }),
{
    let mut q = String::from_str("UPDATE ");
    q.append(table);
    q.append(" SET ");
    q.append(sell_col);
    q.append(" = $sell, ");
    q.append(buy_col);
    q.append(
        " = $buy, updated_at = $now WHERE item_id = $id AND (source = 'api' OR updated_at < $cutoff)",
    );
    PriceWrite {
        query: q,
        sell: decimal_text(p.sell_price_min),
        buy: decimal_text(p.buy_price_max),
        item_id: p.item_id.clone(),
    }
}

fn push_writes_for(p: &PriceQuote, out: &mut Vec<PriceWrite>)
    ensures
        write_views(final(out)@) == write_views(old(out)@) + writes_for(*p),
{
    let ghost before = out@;
    if p.sell_price_min != 0 {
        match city_to_column(p.city.as_str()) {
            Some((s, b)) => {
                out.push(price_write("items", s, b, p));
                out.push(price_write("artefacts", s, b, p));
                out.push(price_write("resources", s, b, p));
            },
            None => {},
        }
    }
    assert(write_views(out@) =~= write_views(before) + writes_for(*p));
}

/// Plans the database writes for a batch of quoted prices.
pub fn plan_price_writes(prices: &Vec<PriceQuote>) -> (plan: PricePlan)
    requires
        unpriced_count(prices@) <= u32::MAX,
    ensures
        write_views(plan.writes@) == planned_writes(prices@),
        plan.skipped == unpriced_count(prices@),
{
    let mut writes: Vec<PriceWrite> = Vec::new();
    let mut skipped: u32 = 0;
    let mut i: usize = 0;
    while i < prices.len()
        invariant
            i <= prices.len(),
            unpriced_count(prices@) <= u32::MAX,
            write_views(writes@) == planned_writes(prices@.take(i as int)),
            skipped == unpriced_count(prices@.take(i as int)),
        decreases prices.len() - i,
    {
        let p = &prices[i];
        proof {
            assert(prices@.take(i + 1) =~= prices@.take(i as int).push(*p));
            prices@.take(i as int).lemma_flat_map_push(|p: PriceQuote| writes_for(p), *p);
            prices@.take(i as int).lemma_filter_push(*p, |p: PriceQuote| p.sell_price_min == 0);
            prices@.lemma_filter_take_len(|p: PriceQuote| p.sell_price_min == 0, i + 1);
        }
        if p.sell_price_min == 0 {
            skipped = skipped + 1;
        }
        push_writes_for(p, &mut writes);
        i = i + 1;
    }
    assert(prices@.take(prices.len() as int) =~= prices@);
    PricePlan { writes, skipped }
}

/// The cut-off of one day before a time, in seconds.
pub fn one_day_before(now_secs: u64) -> (cutoff: i64)
    requires
        now_secs <= i64::MAX,
    ensures
        cutoff == now_secs - 86400,
{
    now_secs as i64 - 86400
}

/// The address that asks for the prices of some ids in the catalogue's
/// cities, at the first quality.
pub open spec fn batch_url_text(ids: Seq<Seq<char>>) -> Seq<char> {
    API_BASE@ + "/api/v2/stats/prices/"@ + joined(ids, ","@) + ".json?locations="@ + LOCATIONS@
        + "&qualities=1"@
}

/// Builds the address that asks for the prices of a batch of ids.
pub fn prices_batch_url(ids: &[String]) -> (url: String)
    ensures
        url@ == batch_url_text(texts(ids@)),
{
    let mut url = String::from_str(API_BASE);
    url.append("/api/v2/stats/prices/");
    let list = join_texts(ids, ",");
    url.append(list.as_str());
    url.append(".json?locations=");
    url.append(LOCATIONS);
    url.append("&qualities=1");
    url
}

/// The `[start, end)` bounds of the `i`-th batch of `n` ids.
pub open spec fn batch_bound(n: nat, i: nat) -> (nat, nat) {
    (i * 150, if (i + 1) * 150 <= n { ((i + 1) * 150) as nat } else { n })
}

/// Cuts `n` ids into batches of `BATCH_SIZE`, the last one possibly
/// shorter, as `chunks` does.
pub fn batch_bounds(n: usize) -> (r: Vec<(usize, usize)>)
    ensures
        r@.len() == (n + 149) / 150,
        forall|i: int|
            0 <= i < r@.len() ==> (#[trigger] r@[i].0 as nat, r@[i].1 as nat) == batch_bound(
                n as nat,
                i as nat,
            ),
{
    let mut r: Vec<(usize, usize)> = Vec::new();
    let mut start: usize = 0;
    while start < n
        invariant
            start <= n,
            start < n ==> start == r@.len() * 150 && r@.len() < (n + 149) / 150,
            start == n ==> r@.len() == (n + 149) / 150,
            forall|i: int|
                0 <= i < r@.len() ==> (#[trigger] r@[i].0 as nat, r@[i].1 as nat) == batch_bound(
                    n as nat,
                    i as nat,
                ),
        decreases n - start,
    {
        let ghost k = r@.len();
        let end = if n - start >= BATCH_SIZE {
            start + BATCH_SIZE
        } else {
            n
        };
        r.push((start, end));
        proof {
            assert((k + 1) * 150 == k * 150 + 150) by (nonlinear_arith);
            if end < n {
                assert(end < n ==> k + 1 < (n + 149) / 150) by (nonlinear_arith)
                    requires
                        end == k * 150 + 150,
                ;
            } else {
                assert(r@.len() == (n + 149) / 150) by (nonlinear_arith)
                    requires
                        r@.len() == k + 1,
                        start == k * 150,
                        start < n,
                        n - start <= 150,
                ;
            }
        }
        start = end;
    }
    r
}

/// Whether to wait before the next request: after a full batch.
pub fn pause_after_batch(batch_len: usize) -> (pause: bool)
    ensures
        pause == (batch_len == BATCH_SIZE),
{
    batch_len == BATCH_SIZE
}

/// The ids found in the rows of the three priced tables, in table order,
/// rows without an id left out.
pub open spec fn present_ids(rows: Seq<Option<String>>) -> Seq<Seq<char>> {
    rows.filter_map(|o: Option<String>| match o {
        Some(s) => Some(s@),
        None => None,
    })
}

/// A list with every run of equal neighbours cut down to its first
/// element, as `Vec::dedup` does.
pub open spec fn without_repeats(s: Seq<Seq<char>>) -> Seq<Seq<char>>
    decreases s.len(),
{
    if s.len() == 0 {
        s
    } else {
        let d = without_repeats(s.drop_last());
        if d.len() > 0 && d.last() == s.last() {
            d
        } else {
            d.push(s.last())
        }
    }
}

/// The ids to synchronise: those of the items, artefacts and resources
/// rows, in that order, with repeated neighbours dropped.
pub open spec fn ids_to_sync(
    items: Seq<Option<String>>,
    artefacts: Seq<Option<String>>,
    resources: Seq<Option<String>>,
) -> Seq<Seq<char>> {
    without_repeats(present_ids(items + artefacts + resources))
}

proof fn lemma_without_repeats_last(s: Seq<Seq<char>>)
    ensures
        s.len() > 0 ==> without_repeats(s).len() > 0 && without_repeats(s).last() == s.last(),
        s.len() == 0 ==> without_repeats(s).len() == 0,
    decreases s.len(),
{
    if s.len() > 0 {
        lemma_without_repeats_last(s.drop_last());
    }
}

fn push_id(ids: &mut Vec<String>, row: &Option<String>, Ghost(seen): Ghost<Seq<Option<String>>>)
    requires
        texts(old(ids)@) == without_repeats(present_ids(seen)),
    ensures
        texts(final(ids)@) == without_repeats(present_ids(seen.push(*row))),
{
    proof {
        assert(seen.push(*row).drop_last() =~= seen);
        lemma_without_repeats_last(present_ids(seen));
    }
    let ghost before = ids@;
    match row {
        Some(id) => {
            let n = ids.len();
            let repeat = n > 0 && text_eq(ids[n - 1].as_str(), id.as_str());
            if !repeat {
                ids.push(id.clone());
            }
            proof {
                let p = present_ids(seen.push(*row));
                assert(p == present_ids(seen).push(id@));
                assert(p.drop_last() =~= present_ids(seen));
                if n > 0 {
                    assert(texts(before).last() == before[n - 1]@);
                }
                assert(texts(ids@) =~= without_repeats(p));
            }
        },
        None => {
            assert(present_ids(seen.push(*row)) == present_ids(seen));
        },
    }
}

/// Law: dropping repeated neighbours leaves no two equal neighbours and
/// keeps exactly the same ids.
pub proof fn lemma_without_repeats(s: Seq<Seq<char>>)
    ensures
        forall|i: int, j: int|
            0 <= i && j == i + 1 && j < without_repeats(s).len() ==> #[trigger] without_repeats(s)[i]
                != #[trigger] without_repeats(s)[j],
        forall|x: Seq<char>| #[trigger] without_repeats(s).contains(x) <==> s.contains(x),
    decreases s.len(),
{
    if s.len() > 0 {
        let rest = s.drop_last();
        let d = without_repeats(rest);
        lemma_without_repeats(rest);
        crate::seeding::lemma_push_contains(rest, s.last());
        assert(s =~= rest.push(s.last()));
        if !(d.len() > 0 && d.last() == s.last()) {
            crate::seeding::lemma_push_contains(d, s.last());
            let r = d.push(s.last());
            assert forall|i: int, j: int| 0 <= i && j == i + 1 && j < r.len() implies #[trigger] r[i]
                != #[trigger] r[j] by {
                if j < d.len() {
                    assert(r[i] == d[i] && r[j] == d[j]);
                }
            }
        } else {
            assert forall|x: Seq<char>| #[trigger] d.contains(x) <==> s.contains(x) by {
                if x == s.last() {
                    assert(d[d.len() - 1] == x);
                }
            }
        }
    }
}

/// Law: the ids to synchronise never repeat an id right after itself, and
/// they are exactly the ids found in the rows of the three tables.
pub proof fn lemma_ids_to_sync(
    items: Seq<Option<String>>,
    artefacts: Seq<Option<String>>,
    resources: Seq<Option<String>>,
)
    ensures
        forall|i: int, j: int|
            0 <= i && j == i + 1 && j < ids_to_sync(items, artefacts, resources).len()
                ==> #[trigger] ids_to_sync(items, artefacts, resources)[i] != #[trigger] ids_to_sync(
                items,
                artefacts,
                resources,
            )[j],
        forall|x: Seq<char>| #[trigger]
            ids_to_sync(items, artefacts, resources).contains(x) <==> present_ids(
                items + artefacts + resources,
            ).contains(x),
{
    lemma_without_repeats(present_ids(items + artefacts + resources));
}

/// Collects the ids to synchronise from the id of each row of the items,
/// artefacts and resources tables (`None` for a row without one).
pub fn collect_item_ids(
    items: &Vec<Option<String>>,
    artefacts: &Vec<Option<String>>,
    resources: &Vec<Option<String>>,
) -> (ids: Vec<String>)
    ensures
        texts(ids@) == ids_to_sync(items@, artefacts@, resources@),
{
    let mut ids: Vec<String> = Vec::new();
    let ghost mut seen: Seq<Option<String>> = Seq::empty();
    proof {
        assert(present_ids(seen) =~= Seq::<Seq<char>>::empty());
        assert(texts(ids@) =~= without_repeats(present_ids(seen)));
    }
    let mut i: usize = 0;
    while i < items.len()
        invariant
            i <= items.len(),
            seen == items@.take(i as int),
            texts(ids@) == without_repeats(present_ids(seen)),
        decreases items.len() - i,
    {
        push_id(&mut ids, &items[i], Ghost(seen));
        proof {
            seen = seen.push(items@[i as int]);
            assert(seen =~= items@.take(i + 1));
        }
        i = i + 1;
    }
    proof {
        assert(seen =~= items@);
    }
    let mut i: usize = 0;
    while i < artefacts.len()
        invariant
            i <= artefacts.len(),
            seen == items@ + artefacts@.take(i as int),
            texts(ids@) == without_repeats(present_ids(seen)),
        decreases artefacts.len() - i,
    {
        push_id(&mut ids, &artefacts[i], Ghost(seen));
        proof {
            seen = seen.push(artefacts@[i as int]);
            assert(seen =~= items@ + artefacts@.take(i + 1));
        }
        i = i + 1;
    }
    proof {
        assert(seen =~= items@ + artefacts@);
    }
    let mut i: usize = 0;
    while i < resources.len()
        invariant
            i <= resources.len(),
            seen == items@ + artefacts@ + resources@.take(i as int),
            texts(ids@) == without_repeats(present_ids(seen)),
        decreases resources.len() - i,
    {
        push_id(&mut ids, &resources[i], Ghost(seen));
        proof {
            seen = seen.push(resources@[i as int]);
            assert(seen =~= items@ + artefacts@ + resources@.take(i + 1));
        }
        i = i + 1;
    }
    proof {
        assert(seen =~= items@ + artefacts@ + resources@);
    }
    ids
}

/// What the last synchronisation run did, and whether one is running.
#[derive(Clone, Copy, PartialEq, Eq, Structural)]
pub struct SyncStatus {
    pub last_sync: Option<u64>,
    pub items_updated: u32,
    pub items_skipped: u32,
    pub errors: u32,
    pub running: bool,
}

/// The counts a run gathers over its batches.
#[derive(Clone, Copy, PartialEq, Eq, Structural)]
pub struct SyncTally {
    pub updated: u32,
    pub skipped: u32,
    pub errors: u32,
}

/// How one batch went: its writes ran (with the rows updated and quotes
/// skipped), or its prices could not be fetched, or a write failed.
#[derive(Clone, Copy, PartialEq, Eq, Structural)]
pub enum BatchOutcome {
    Applied { updated: u32, skipped: u32 },
    FetchFailed,
    WriteFailed,
}

/// A run may start only when none is running; starting clears the counts
/// and keeps the time of the last completed run.
pub open spec fn started(s: SyncStatus) -> SyncStatus {
    SyncStatus { running: true, items_updated: 0, items_skipped: 0, errors: 0, ..s }
}

/// An attempt to start a run: whether it starts, and the status after it.
pub open spec fn start_attempt(s: SyncStatus) -> (bool, SyncStatus) {
    if s.running {
        (false, s)
    } else {
        (true, started(s))
    }
}

/// A run that could not list the ids to synchronise stops with one more
/// error.
pub open spec fn stopped_unlisted(s: SyncStatus) -> SyncStatus {
    SyncStatus { running: false, errors: (s.errors + 1) as u32, ..s }
}

/// A completed run records its time and the tallied counts.
pub open spec fn completed(s: SyncStatus, now: u64, t: SyncTally) -> SyncStatus {
    SyncStatus {
        last_sync: Some(now),
        items_updated: t.updated,
        items_skipped: t.skipped,
        errors: t.errors,
        running: false,
    }
}

/// The tally after one more batch.
pub open spec fn tallied(t: SyncTally, o: BatchOutcome) -> SyncTally {
    match o {
        BatchOutcome::Applied { updated, skipped } => SyncTally {
            updated: (t.updated + updated) as u32,
            skipped: (t.skipped + skipped) as u32,
            errors: t.errors,
        },
        _ => SyncTally { errors: (t.errors + 1) as u32, ..t },
    }
}

/// Whether a batch's counts fit in the tally.
pub open spec fn fits_tally(t: SyncTally, o: BatchOutcome) -> bool {
    match o {
        BatchOutcome::Applied { updated, skipped } => t.updated + updated <= u32::MAX && t.skipped
            + skipped <= u32::MAX,
        _ => t.errors + 1 <= u32::MAX,
    }
}

impl SyncStatus {
    /// The status before any run.
    pub fn idle() -> (s: SyncStatus)
        ensures
            s == (SyncStatus {
                last_sync: None,
                items_updated: 0,
                items_skipped: 0,
                errors: 0,
                running: false,
            }),
    {
        SyncStatus { last_sync: None, items_updated: 0, items_skipped: 0, errors: 0, running: false }
    }

    /// Starts a run unless one is running; says whether it started.
    pub fn try_start(&mut self) -> (started_now: bool)
        ensures
            (started_now, *final(self)) == start_attempt(*old(self)),
    {
        if self.running {
            return false;
        }
        self.running = true;
        self.items_updated = 0;
        self.items_skipped = 0;
        self.errors = 0;
        true
    }

    /// Stops a run whose ids could not be listed.
    pub fn stop_unlisted(&mut self)
        requires
            old(self).errors < u32::MAX,
        ensures
            *final(self) == stopped_unlisted(*old(self)),
    {
        self.running = false;
        self.errors = self.errors + 1;
    }

    /// Completes a run at a time, with the counts it tallied.
    pub fn complete(&mut self, now: u64, tally: SyncTally)
        ensures
            *final(self) == completed(*old(self), now, tally),
    {
        self.last_sync = Some(now);
        self.items_updated = tally.updated;
        self.items_skipped = tally.skipped;
        self.errors = tally.errors;
        self.running = false;
    }
}

impl SyncTally {
    /// The tally of a run before its first batch.
    pub fn new() -> (t: SyncTally)
        ensures
            t == (SyncTally { updated: 0, skipped: 0, errors: 0 }),
    {
        SyncTally { updated: 0, skipped: 0, errors: 0 }
    }

    /// Whether a batch's counts fit in the tally.
    pub fn can_record(&self, outcome: BatchOutcome) -> (b: bool)
        ensures
            b == fits_tally(*self, outcome),
    {
        match outcome {
            BatchOutcome::Applied { updated, skipped } => updated <= u32::MAX - self.updated
                && skipped <= u32::MAX - self.skipped,
            _ => self.errors < u32::MAX,
        }
    }

    /// Adds a batch to the tally.
    pub fn record(&mut self, outcome: BatchOutcome)
        requires
            fits_tally(*old(self), outcome),
        ensures
            *final(self) == tallied(*old(self), outcome),
    {
        match outcome {
            BatchOutcome::Applied { updated, skipped } => {
                self.updated = self.updated + updated;
                self.skipped = self.skipped + skipped;
            },
            _ => {
                self.errors = self.errors + 1;
            },
        }
    }
}

/// Law: runs never overlap: once a run has started, a second attempt to
/// start is refused and leaves the status as it was.
pub proof fn lemma_runs_exclusive(s: SyncStatus)
    ensures
        start_attempt(s).0 ==> !start_attempt(start_attempt(s).1).0 && start_attempt(
            start_attempt(s).1,
        ).1 == start_attempt(s).1,
{
}

/// Law: a run that completes or stops leaves the status free, so the next
/// attempt starts a run.
pub proof fn lemma_run_ends_allow_restart(s: SyncStatus, now: u64, t: SyncTally)
    ensures
        start_attempt(completed(s, now, t)).0,
        start_attempt(stopped_unlisted(s)).0,
{
}

/// Law: a run that starts and completes reports exactly the counts it
/// tallied over its batches, at its completion time.
pub proof fn lemma_completed_reports_tally(s: SyncStatus, now: u64, t: SyncTally)
    requires
        start_attempt(s).0,
    ensures
        completed(start_attempt(s).1, now, t) == (SyncStatus {
            last_sync: Some(now),
            items_updated: t.updated,
            items_skipped: t.skipped,
            errors: t.errors,
            running: false,
        }),
{
}

} // verus!
