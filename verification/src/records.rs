//! What the history archive writes of a scan, how a later scan changes it, and
//! how a scan is given back from it.

use vstd::prelude::*;

use crate::decimal::{dec_of, Dec, Decimal};
use crate::domain::{
    book_level_views, copy_book_levels, market_book_views, names_are_distinct, opportunity_views,
    source_quote_views, us_moneyline_market_views, Book, BookLevel, Capture, Level, Market,
    MarketBook, Opportunity, OutcomeSide, Quote, RecommendationClass, Row, ScanCapture, SourceQuote,
    Sport, UsMoneylineMarket, DEFAULT_START_TIME_TOLERANCE_MINUTES,
};
use crate::error::{Error, Failure};
use crate::history::counted;
use crate::seqs::{group_seqs, kept, kept_next, take_next};
use crate::text::{
    concat3, copy_texts, is_digit, owned, same, same_any_case, same_ignoring_case, texts,
};
use crate::textmap::bump;
use crate::time::{instant_of, Timestamp};

verus! {

broadcast use group_seqs;

/// A market as a scan brings it to the archive. An import knows only what its
/// rows carry: no definition, and a participant's name only for a side that a
/// row backed.
#[derive(Debug)]
pub struct MarketRow {
    pub market_id: String,
    pub market_slug: String,
    pub event_id: String,
    pub sport: Sport,
    pub start_time: Timestamp,
    pub long_participant: String,
    pub short_participant: String,
    pub definition: Option<UsMoneylineMarket>,
}

/// A market row as mathematics.
pub struct Listed {
    pub market_id: Seq<char>,
    pub market_slug: Seq<char>,
    pub event_id: Seq<char>,
    pub sport: Sport,
    pub start_time: int,
    pub long_participant: Seq<char>,
    pub short_participant: Seq<char>,
    pub definition: Option<Market>,
}

pub open spec fn market_of(market: Option<UsMoneylineMarket>) -> Option<Market> {
    match market {
        Some(market) => Some(market@),
        None => None,
    }
}

impl View for MarketRow {
    type V = Listed;

    open spec fn view(&self) -> Listed {
        Listed {
            market_id: self.market_id@,
            market_slug: self.market_slug@,
            event_id: self.event_id@,
            sport: self.sport,
            start_time: self.start_time@,
            long_participant: self.long_participant@,
            short_participant: self.short_participant@,
            definition: market_of(self.definition),
        }
    }
}

pub open spec fn market_row_views(items: Seq<MarketRow>) -> Seq<Listed> {
    items.map_values(|item: MarketRow| item@)
}

/// A market with its full definition.
pub open spec fn defined(market: Market) -> Listed {
    Listed {
        market_id: market.market_id,
        market_slug: market.market_slug,
        event_id: market.event_id,
        sport: market.sport,
        start_time: market.start_time,
        long_participant: market.long_participant.name,
        short_participant: market.short_participant.name,
        definition: Some(market),
    }
}

/// A market as far as an opportunity tells of it, with no names.
pub open spec fn bare(row: Row) -> Listed {
    Listed {
        market_id: row.market_id,
        market_slug: row.market_slug,
        event_id: row.event_id,
        sport: row.sport,
        start_time: row.start_time,
        long_participant: Seq::empty(),
        short_participant: Seq::empty(),
        definition: None,
    }
}

/// A market with the name that an opportunity gives the side it backed.
pub open spec fn with_name(listed: Listed, row: Row) -> Listed {
    match row.side {
        OutcomeSide::Long => Listed { long_participant: row.participant, ..listed },
        OutcomeSide::Short => Listed { short_participant: row.participant, ..listed },
    }
}

/// The first place from `from` on at which a market is listed.
pub open spec fn place_of(listed: Seq<Listed>, market_id: Seq<char>, from: int) -> Option<int>
    decreases listed.len() - from,
{
    if from < 0 || from >= listed.len() {
        None
    } else if listed[from].market_id == market_id {
        Some(from)
    } else {
        place_of(listed, market_id, from + 1)
    }
}

/// The list after one more opportunity.
pub open spec fn noting(listed: Seq<Listed>, row: Row) -> Seq<Listed> {
    match place_of(listed, row.market_id, 0) {
        Some(at) => listed.update(at, with_name(listed[at], row)),
        None => listed.push(with_name(bare(row), row)),
    }
}

/// The markets that opportunities tell of, in the order of their first rows.
pub open spec fn told_by(rows: Seq<Row>) -> Seq<Listed>
    decreases rows.len(),
{
    if rows.len() == 0 {
        Seq::empty()
    } else {
        noting(told_by(rows.drop_last()), rows.last())
    }
}

/// The markets of a scan: full definitions where it has them, otherwise what
/// its opportunities tell.
pub open spec fn listed_in(capture: Capture) -> Seq<Listed> {
    if capture.markets.len() > 0 {
        capture.markets.map_values(|m: Market| defined(m))
    } else {
        told_by(capture.snapshot.opportunities)
    }
}

proof fn lemma_place(listed: Seq<Listed>, market_id: Seq<char>, from: int)
    requires
        0 <= from <= listed.len(),
    ensures
        match place_of(listed, market_id, from) {
            Some(at) => from <= at < listed.len() && listed[at].market_id == market_id,
            None => forall|i: int|
                from <= i < listed.len() ==> (#[trigger] listed[i]).market_id != market_id,
        },
    decreases listed.len() - from,
{
    if from < listed.len() && listed[from].market_id != market_id {
        lemma_place(listed, market_id, from + 1);
    }
}

fn find_market(listed: &Vec<MarketRow>, market_id: &str) -> (result: Option<usize>)
    ensures
        match result {
            Some(at) => at < listed@.len() && place_of(
                market_row_views(listed@),
                market_id@,
                0,
            ) == Some(at as int),
            None => place_of(market_row_views(listed@), market_id@, 0) is None,
        },
{
    let ghost all = market_row_views(listed@);
    let mut i: usize = 0;
    while i < listed.len()
        invariant
            i <= listed@.len(),
            all == market_row_views(listed@),
            place_of(all, market_id@, 0) == place_of(all, market_id@, i as int),
        decreases listed@.len() - i,
    {
        if same(listed[i].market_id.as_str(), market_id) {
            return Some(i);
        }
        i = i + 1;
    }
    None
}

fn name_side(row: MarketRow, opportunity: &Opportunity) -> (result: MarketRow)
    ensures
        result@ == with_name(row@, opportunity@),
{
    let mut row = row;
    match opportunity.side {
        OutcomeSide::Long => {
            row.long_participant = opportunity.participant.clone();
        },
        OutcomeSide::Short => {
            row.short_participant = opportunity.participant.clone();
        },
    }
    row
}

fn note_market(listed: Vec<MarketRow>, opportunity: &Opportunity) -> (result: Vec<MarketRow>)
    ensures
        market_row_views(result@) == noting(market_row_views(listed@), opportunity@),
{
    let ghost all = market_row_views(listed@);
    let place: Option<usize> = find_market(&listed, opportunity.market_id.as_str());
    let mut listed = listed;
    match place {
        Some(at) => {
            let row = name_side(listed.swap_remove(at), opportunity);
            proof {
                assert(listed@.len() == all.len() - 1);
            }
            listed.push(row);
            let last: usize = listed.len() - 1;
            let ghost before = listed@;
            if at < last {
                let moved = listed.swap_remove(at);
                listed.push(moved);
            }
            proof {
                assert(market_row_views(listed@) =~= noting(all, opportunity@));
            }
        },
        None => {
            let row = MarketRow {
                market_id: opportunity.market_id.clone(),
                market_slug: opportunity.market_slug.clone(),
                event_id: opportunity.event_id.clone(),
                sport: opportunity.sport,
                start_time: opportunity.start_time,
                long_participant: String::new(),
                short_participant: String::new(),
                definition: None,
            };
            let row = name_side(row, opportunity);
            listed.push(row);
        },
    }
    listed
}

/// The markets that a scan brings to the archive.
pub fn market_rows(capture: &ScanCapture) -> (result: Vec<MarketRow>)
    ensures
        market_row_views(result@) == listed_in(capture@),
{
    let mut out: Vec<MarketRow> = Vec::new();
    if capture.markets.len() > 0 {
        let ghost all = us_moneyline_market_views(capture.markets@);
        let ghost make = |m: Market| defined(m);
        let mut i: usize = 0;
        while i < capture.markets.len()
            invariant
                i <= capture.markets@.len(),
                all == us_moneyline_market_views(capture.markets@),
                make == (|m: Market| defined(m)),
                market_row_views(out@) == all.take(i as int).map_values(make),
            decreases capture.markets@.len() - i,
        {
            proof {
                take_next(all, i as int);
            }
            let market: &UsMoneylineMarket = &capture.markets[i];
            out.push(
                MarketRow {
                    market_id: market.market_id.clone(),
                    market_slug: market.market_slug.clone(),
                    event_id: market.event_id.clone(),
                    sport: market.sport,
                    start_time: market.start_time,
                    long_participant: market.long_participant.name.clone(),
                    short_participant: market.short_participant.name.clone(),
                    definition: Some(market.clone()),
                },
            );
            i = i + 1;
        }
        return out;
    }
    let rows: &Vec<Opportunity> = &capture.snapshot.opportunities;
    let ghost all = opportunity_views(rows@);
    let mut i: usize = 0;
    while i < rows.len()
        invariant
            i <= rows@.len(),
            all == opportunity_views(rows@),
            market_row_views(out@) == told_by(all.take(i as int)),
        decreases rows@.len() - i,
    {
        proof {
            take_next(all, i as int);
        }
        out = note_market(out, &rows[i]);
        i = i + 1;
    }
    out
}

/// Whether a market is listed.
pub open spec fn lists(listed: Seq<Listed>, market_id: Seq<char>) -> bool {
    exists|i: int| 0 <= i < listed.len() && (#[trigger] listed[i]).market_id == market_id
}

/// Opportunities tell of each of their markets once, and of no other.
pub proof fn each_market_is_told_once(rows: Seq<Row>)
    ensures
        forall|i: int, j: int|
            0 <= i < j < told_by(rows).len() ==> (#[trigger] told_by(rows)[i]).market_id != (
            #[trigger] told_by(rows)[j]).market_id,
        forall|i: int|
            0 <= i < rows.len() ==> lists(told_by(rows), (#[trigger] rows[i]).market_id),
        forall|i: int|
            0 <= i < told_by(rows).len() ==> exists|k: int|
                0 <= k < rows.len() && (#[trigger] rows[k]).market_id == (
                #[trigger] told_by(rows)[i]).market_id,
    decreases rows.len(),
{
    if rows.len() > 0 {
        let front = rows.drop_last();
        let row = rows.last();
        let earlier = told_by(front);
        let out = told_by(rows);
        each_market_is_told_once(front);
        lemma_place(earlier, row.market_id, 0);
        assert forall|i: int| 0 <= i < rows.len() implies lists(
            out,
            (#[trigger] rows[i]).market_id,
        ) by {
            if i < front.len() {
                assert(front[i] == rows[i]);
                let k = choose|k: int|
                    0 <= k < earlier.len() && (#[trigger] earlier[k]).market_id
                        == front[i].market_id;
                assert(out[k].market_id == rows[i].market_id);
            } else {
                match place_of(earlier, row.market_id, 0) {
                    Some(at) => {
                        assert(out[at].market_id == row.market_id);
                    },
                    None => {
                        assert(out[earlier.len() as int].market_id == row.market_id);
                    },
                }
            }
        }
        assert forall|i: int| 0 <= i < out.len() implies exists|k: int|
            0 <= k < rows.len() && (#[trigger] rows[k]).market_id == (#[trigger] out[i]).market_id by {
            if i < earlier.len() {
                assert(out[i].market_id == earlier[i].market_id);
                let k = choose|k: int|
                    0 <= k < front.len() && (#[trigger] front[k]).market_id
                        == earlier[i].market_id;
                assert(rows[k].market_id == out[i].market_id);
            } else {
                assert(rows[rows.len() - 1].market_id == out[i].market_id);
            }
        }
        assert forall|i: int, j: int| 0 <= i < j < out.len() implies (#[trigger] out[i]).market_id
            != (#[trigger] out[j]).market_id by {
            if j < earlier.len() {
                assert(out[i].market_id == earlier[i].market_id);
                assert(out[j].market_id == earlier[j].market_id);
            } else {
                assert(out[i].market_id == earlier[i].market_id);
            }
        }
    }
}

/// A market as the archive holds it.
#[derive(Debug)]
pub struct MarketRecord {
    pub market: MarketRow,
    pub first_seen_at: Timestamp,
    pub last_seen_at: Timestamp,
}

/// A market record as mathematics.
pub struct Known {
    pub market: Listed,
    pub first_seen_at: int,
    pub last_seen_at: int,
}

impl View for MarketRecord {
    type V = Known;

    open spec fn view(&self) -> Known {
        Known {
            market: self.market@,
            first_seen_at: self.first_seen_at@,
            last_seen_at: self.last_seen_at@,
        }
    }
}

pub open spec fn known_view(record: Option<MarketRecord>) -> Option<Known> {
    match record {
        Some(record) => Some(record@),
        None => None,
    }
}

/// What the archive holds of a market after a scan brought it again: a newer
/// scan wins for everything except the definition, which an import must never
/// erase, and the participants' names, which an import knows only for the sides
/// it backed.
pub open spec fn updated(before: Option<Known>, market: Listed, seen_at: int) -> Known {
    match before {
        None => Known { market, first_seen_at: seen_at, last_seen_at: seen_at },
        Some(k) => Known {
            market: Listed {
                start_time: if seen_at >= k.last_seen_at {
                    market.start_time
                } else {
                    k.market.start_time
                },
                long_participant: if market.long_participant.len() == 0 {
                    k.market.long_participant
                } else {
                    market.long_participant
                },
                short_participant: if market.short_participant.len() == 0 {
                    k.market.short_participant
                } else {
                    market.short_participant
                },
                definition: if market.definition is None {
                    k.market.definition
                } else if seen_at >= k.last_seen_at || k.market.definition is None {
                    market.definition
                } else {
                    k.market.definition
                },
                ..market
            },
            first_seen_at: if seen_at < k.first_seen_at {
                seen_at
            } else {
                k.first_seen_at
            },
            last_seen_at: if seen_at > k.last_seen_at {
                seen_at
            } else {
                k.last_seen_at
            },
        },
    }
}

pub(crate) fn is_empty(text: &str) -> (result: bool)
    ensures
        result == (text@.len() == 0),
{
    proof {
        reveal_strlit("");
    }
    let result: bool = same(text, "");
    proof {
        if text@.len() == 0 {
            assert(text@ =~= ""@);
        }
    }
    result
}

/// Takes a market into the archive, beside what is already known of it.
pub fn update_market(before: Option<MarketRecord>, market: MarketRow, seen_at: Timestamp) -> (result:
    MarketRecord)
    ensures
        result@ == updated(known_view(before), market@, seen_at@),
{
    match before {
        None => MarketRecord { market, first_seen_at: seen_at, last_seen_at: seen_at },
        Some(known) => {
            let newer: bool = !seen_at.before(known.last_seen_at);
            let long_participant: String = if is_empty(market.long_participant.as_str()) {
                known.market.long_participant
            } else {
                market.long_participant
            };
            let short_participant: String = if is_empty(market.short_participant.as_str()) {
                known.market.short_participant
            } else {
                market.short_participant
            };
            let definition: Option<UsMoneylineMarket> = if market.definition.is_none() {
                known.market.definition
            } else if newer || known.market.definition.is_none() {
                market.definition
            } else {
                known.market.definition
            };
            let row = MarketRow {
                market_id: market.market_id,
                market_slug: market.market_slug,
                event_id: market.event_id,
                sport: market.sport,
                start_time: if newer {
                    market.start_time
                } else {
                    known.market.start_time
                },
                long_participant,
                short_participant,
                definition,
            };
            MarketRecord {
                market: row,
                first_seen_at: if seen_at.before(known.first_seen_at) {
                    seen_at
                } else {
                    known.first_seen_at
                },
                last_seen_at: if known.last_seen_at.before(seen_at) {
                    seen_at
                } else {
                    known.last_seen_at
                },
            }
        },
    }
}

/// An import never erases what the archive knows of a market, and an older scan
/// never replaces what a newer one defined.
pub proof fn known_markets_are_not_erased(k: Known, market: Listed, seen_at: int)
    ensures
        k.market.definition is Some ==> updated(
            Some(k),
            market,
            seen_at,
        ).market.definition is Some,
        market.definition is None ==> updated(Some(k), market, seen_at).market.definition
            == k.market.definition,
        k.market.long_participant.len() > 0 ==> updated(
            Some(k),
            market,
            seen_at,
        ).market.long_participant.len() > 0,
        k.market.short_participant.len() > 0 ==> updated(
            Some(k),
            market,
            seen_at,
        ).market.short_participant.len() > 0,
        seen_at < k.last_seen_at && k.market.definition is Some ==> updated(
            Some(k),
            market,
            seen_at,
        ).market.definition == k.market.definition && updated(
            Some(k),
            market,
            seen_at,
        ).market.start_time == k.market.start_time,
        updated(Some(k), market, seen_at).first_seen_at <= k.first_seen_at,
        updated(Some(k), market, seen_at).last_seen_at >= k.last_seen_at,
{
}

/// A book as the archive holds it: with what can change of its market.
#[derive(Debug)]
pub struct BookRow {
    pub market_id: String,
    pub start_time: Timestamp,
    pub ep3_status: String,
    pub state: String,
    pub transact_time: Timestamp,
    pub fetched_at: Timestamp,
    pub bids: Vec<BookLevel>,
    pub offers: Vec<BookLevel>,
}

/// A book row as mathematics.
pub struct ArchivedBook {
    pub market_id: Seq<char>,
    pub start_time: int,
    pub ep3_status: Seq<char>,
    pub state: Seq<char>,
    pub transact_time: int,
    pub fetched_at: int,
    pub bids: Seq<Level>,
    pub offers: Seq<Level>,
}

impl View for BookRow {
    type V = ArchivedBook;

    open spec fn view(&self) -> ArchivedBook {
        ArchivedBook {
            market_id: self.market_id@,
            start_time: self.start_time@,
            ep3_status: self.ep3_status@,
            state: self.state@,
            transact_time: self.transact_time@,
            fetched_at: self.fetched_at@,
            bids: book_level_views(self.bids@),
            offers: book_level_views(self.offers@),
        }
    }
}

pub open spec fn book_row_views(items: Seq<BookRow>) -> Seq<ArchivedBook> {
    items.map_values(|item: BookRow| item@)
}

/// The last market with a slug.
pub open spec fn market_with_slug(markets: Seq<Market>, slug: Seq<char>) -> Option<Market>
    decreases markets.len(),
{
    if markets.len() == 0 {
        None
    } else if markets.last().market_slug == slug {
        Some(markets.last())
    } else {
        market_with_slug(markets.drop_last(), slug)
    }
}

/// A book as the archive holds it.
pub open spec fn archived(market: Market, book: Book) -> ArchivedBook {
    ArchivedBook {
        market_id: market.market_id,
        start_time: market.start_time,
        ep3_status: market.ep3_status,
        state: book.state,
        transact_time: book.transact_time,
        fetched_at: book.fetched_at,
        bids: book.bids,
        offers: book.offers,
    }
}

/// A book as the archive holds it, if its market is in the scan.
pub open spec fn archived_in(markets: Seq<Market>, book: Book) -> Option<ArchivedBook> {
    match market_with_slug(markets, book.market_slug) {
        Some(market) => Some(archived(market, book)),
        None => None,
    }
}

fn find_slug(markets: &Vec<UsMoneylineMarket>, slug: &str) -> (result: Option<usize>)
    ensures
        match result {
            Some(at) => at < markets@.len() && market_with_slug(
                us_moneyline_market_views(markets@),
                slug@,
            ) == Some(markets@[at as int]@),
            None => market_with_slug(us_moneyline_market_views(markets@), slug@) is None,
        },
{
    let ghost all = us_moneyline_market_views(markets@);
    let mut i: usize = markets.len();
    while i > 0
        invariant
            i <= markets@.len(),
            all == us_moneyline_market_views(markets@),
            market_with_slug(all, slug@) == market_with_slug(all.take(i as int), slug@),
        decreases i,
    {
        i = i - 1;
        proof {
            take_next(all, i as int);
        }
        if same(markets[i].market_slug.as_str(), slug) {
            return Some(i);
        }
    }
    None
}

/// The books of a scan as the archive holds them; one without a market in the
/// scan is left out.
pub fn book_rows(capture: &ScanCapture) -> (result: Vec<BookRow>)
    ensures
        book_row_views(result@) == kept(
            capture@.books,
            |book: Book| archived_in(capture@.markets, book),
        ),
{
    let ghost all = market_book_views(capture.books@);
    let ghost make = |book: Book| archived_in(capture@.markets, book);
    let mut out: Vec<BookRow> = Vec::new();
    let mut i: usize = 0;
    while i < capture.books.len()
        invariant
            i <= capture.books@.len(),
            all == market_book_views(capture.books@),
            make == (|book: Book| archived_in(capture@.markets, book)),
            book_row_views(out@) == kept(all.take(i as int), make),
        decreases capture.books@.len() - i,
    {
        proof {
            kept_next(all, make, i as int);
        }
        let book: &MarketBook = &capture.books[i];
        if let Some(at) = find_slug(&capture.markets, book.market_slug.as_str()) {
            let market: &UsMoneylineMarket = &capture.markets[at];
            out.push(
                BookRow {
                    market_id: market.market_id.clone(),
                    start_time: market.start_time,
                    ep3_status: market.ep3_status.clone(),
                    state: book.state.clone(),
                    transact_time: book.transact_time,
                    fetched_at: book.fetched_at,
                    bids: copy_book_levels(&book.bids),
                    offers: copy_book_levels(&book.offers),
                },
            );
        }
        i = i + 1;
    }
    out
}

/// The market and the book that an archived book stands for, given the
/// market's definition.
pub open spec fn restored(row: ArchivedBook, definition: Market) -> (Market, Book) {
    (
        Market { start_time: row.start_time, ep3_status: row.ep3_status, ..definition },
        Book {
            market_slug: definition.market_slug,
            bids: row.bids,
            offers: row.offers,
            state: row.state,
            transact_time: row.transact_time,
            fetched_at: row.fetched_at,
        },
    )
}

/// The market and the book that an archived book stands for, given the
/// market's definition.
pub fn restore_book(row: &BookRow, definition: &UsMoneylineMarket) -> (result: (
    UsMoneylineMarket,
    MarketBook,
))
    ensures
        (result.0@, result.1@) == restored(row@, definition@),
{
    let mut market = definition.clone();
    market.start_time = row.start_time;
    market.ep3_status = row.ep3_status.clone();
    let book = MarketBook {
        market_slug: market.market_slug.clone(),
        bids: copy_book_levels(&row.bids),
        offers: copy_book_levels(&row.offers),
        state: row.state.clone(),
        transact_time: row.transact_time,
        fetched_at: row.fetched_at,
    };
    (market, book)
}

/// An archived book with its market's definition, where that is known.
pub open spec fn shelf_views(rows: Seq<(BookRow, Option<UsMoneylineMarket>)>) -> Seq<
    (ArchivedBook, Option<Market>),
> {
    rows.map_values(
        |row: (BookRow, Option<UsMoneylineMarket>)|
            (
                row.0@,
                match row.1 {
                    Some(definition) => Some(definition@),
                    None => None,
                },
            ),
    )
}

/// What an archived book gives: nothing where its market is not defined.
pub open spec fn restored_if_defined(row: (ArchivedBook, Option<Market>)) -> Option<
    (Market, Book),
> {
    match row.1 {
        Some(definition) => Some(restored(row.0, definition)),
        None => None,
    }
}

/// The markets and the books of a scan, in the order of the archived books. A
/// book whose market is not defined is dropped, not guessed.
pub fn restore_books(rows: &Vec<(BookRow, Option<UsMoneylineMarket>)>) -> (result: (
    Vec<UsMoneylineMarket>,
    Vec<MarketBook>,
))
    ensures
        us_moneyline_market_views(result.0@) == kept(
            shelf_views(rows@),
            |row: (ArchivedBook, Option<Market>)| restored_if_defined(row),
        ).map_values(|pair: (Market, Book)| pair.0),
        market_book_views(result.1@) == kept(
            shelf_views(rows@),
            |row: (ArchivedBook, Option<Market>)| restored_if_defined(row),
        ).map_values(|pair: (Market, Book)| pair.1),
{
    let ghost make = |row: (ArchivedBook, Option<Market>)| restored_if_defined(row);
    let ghost first = |pair: (Market, Book)| pair.0;
    let ghost second = |pair: (Market, Book)| pair.1;
    let ghost all = shelf_views(rows@);
    let mut markets: Vec<UsMoneylineMarket> = Vec::new();
    let mut books: Vec<MarketBook> = Vec::new();
    let mut i: usize = 0;
    while i < rows.len()
        invariant
            i <= rows@.len(),
            all == shelf_views(rows@),
            make == (|row: (ArchivedBook, Option<Market>)| restored_if_defined(row)),
            first == (|pair: (Market, Book)| pair.0),
            second == (|pair: (Market, Book)| pair.1),
            us_moneyline_market_views(markets@) == kept(all.take(i as int), make).map_values(first),
            market_book_views(books@) == kept(all.take(i as int), make).map_values(second),
        decreases rows@.len() - i,
    {
        proof {
            kept_next(all, make, i as int);
        }
        match &rows[i].1 {
            Some(definition) => {
                let (market, book) = restore_book(&rows[i].0, definition);
                markets.push(market);
                books.push(book);
            },
            None => {},
        }
        i = i + 1;
    }
    (markets, books)
}

/// What the archive gives back is what it was given: a book and its market
/// come back as they were, whatever start and status a later scan defined.
pub proof fn archived_books_come_back(market: Market, book: Book, later: Market)
    requires
        book.market_slug == market.market_slug,
        later == (Market { start_time: later.start_time, ep3_status: later.ep3_status, ..market }),
    ensures
        restored(archived(market, book), later) == (market, book),
{
}

/// An opportunity as the archive holds it. The slug stands with the market.
#[derive(Debug)]
pub struct OpportunityRecord {
    pub opportunity_id: u128,
    pub market_id: String,
    pub event_id: String,
    pub side: String,
    pub class: String,
    pub sport: String,
    pub participant: String,
    pub fair_probability: Decimal,
    pub conservative_probability: Decimal,
    pub executable_price: Decimal,
    pub maker_price: Option<Decimal>,
    pub maker_net_edge: Option<Decimal>,
    pub raw_edge: Decimal,
    pub net_edge: Decimal,
    pub quantity: Decimal,
    pub maximum_loss: Decimal,
    pub estimated_fee: Decimal,
    pub family_count: i32,
    pub source_ids: Vec<String>,
    pub reasons: Vec<String>,
    pub start_time: Timestamp,
    pub book_time: Timestamp,
    pub generated_at: Timestamp,
}

/// An opportunity record as mathematics.
pub struct ArchivedRow {
    pub opportunity_id: int,
    pub market_id: Seq<char>,
    pub event_id: Seq<char>,
    pub side: Seq<char>,
    pub class: Seq<char>,
    pub sport: Seq<char>,
    pub participant: Seq<char>,
    pub fair_probability: Dec,
    pub conservative_probability: Dec,
    pub executable_price: Dec,
    pub maker_price: Option<Dec>,
    pub maker_net_edge: Option<Dec>,
    pub raw_edge: Dec,
    pub net_edge: Dec,
    pub quantity: Dec,
    pub maximum_loss: Dec,
    pub estimated_fee: Dec,
    pub family_count: int,
    pub source_ids: Seq<Seq<char>>,
    pub reasons: Seq<Seq<char>>,
    pub start_time: int,
    pub book_time: int,
    pub generated_at: int,
}

impl View for OpportunityRecord {
    type V = ArchivedRow;

    open spec fn view(&self) -> ArchivedRow {
        ArchivedRow {
            opportunity_id: self.opportunity_id as int,
            market_id: self.market_id@,
            event_id: self.event_id@,
            side: self.side@,
            class: self.class@,
            sport: self.sport@,
            participant: self.participant@,
            fair_probability: self.fair_probability@,
            conservative_probability: self.conservative_probability@,
            executable_price: self.executable_price@,
            maker_price: dec_of(self.maker_price),
            maker_net_edge: dec_of(self.maker_net_edge),
            raw_edge: self.raw_edge@,
            net_edge: self.net_edge@,
            quantity: self.quantity@,
            maximum_loss: self.maximum_loss@,
            estimated_fee: self.estimated_fee@,
            family_count: self.family_count as int,
            source_ids: texts(self.source_ids@),
            reasons: texts(self.reasons@),
            start_time: self.start_time@,
            book_time: self.book_time@,
            generated_at: self.generated_at@,
        }
    }
}

/// A count as the archive holds it.
pub fn count(value: usize) -> (result: Result<i32, Error>)
    ensures
        match result {
            Ok(n) => n == value,
            Err(e) => value > i32::MAX && e@ == Failure::Storage(
                "count overflow: out of range integral type conversion attempted"@,
            ),
        },
{
    if value <= i32::MAX as usize {
        Ok(value as i32)
    } else {
        Err(
            Error::Storage(
                owned("count overflow: out of range integral type conversion attempted"),
            ),
        )
    }
}

/// An opportunity as the archive holds it.
pub open spec fn archived_row(row: Row) -> ArchivedRow {
    ArchivedRow {
        opportunity_id: row.id,
        market_id: row.market_id,
        event_id: row.event_id,
        side: row.side.label(),
        class: row.class.label(),
        sport: row.sport.label(),
        participant: row.participant,
        fair_probability: row.fair_probability,
        conservative_probability: row.conservative_probability,
        executable_price: row.executable_price,
        maker_price: row.maker_price,
        maker_net_edge: row.maker_net_edge,
        raw_edge: row.raw_edge,
        net_edge: row.net_edge,
        quantity: row.quantity,
        maximum_loss: row.maximum_loss,
        estimated_fee: row.estimated_fee,
        family_count: row.family_count as int,
        source_ids: row.source_ids,
        reasons: row.reasons,
        start_time: row.start_time,
        book_time: row.book_time,
        generated_at: row.generated_at,
    }
}

/// An opportunity as the archive holds it; an error only where its family count
/// does not fit the archive's column.
pub fn opportunity_record(opportunity: &Opportunity) -> (result: Result<OpportunityRecord, Error>)
    ensures
        match result {
            Ok(record) => record@ == archived_row(opportunity@),
            Err(e) => opportunity.family_count > i32::MAX && e@ == Failure::Storage(
                "count overflow: out of range integral type conversion attempted"@,
            ),
        },
{
    let family_count: i32 = match count(opportunity.family_count) {
        Ok(n) => n,
        Err(e) => return Err(e),
    };
    Ok(
        OpportunityRecord {
            opportunity_id: opportunity.id,
            market_id: opportunity.market_id.clone(),
            event_id: opportunity.event_id.clone(),
            side: owned(opportunity.side.name()),
            class: owned(opportunity.class.name()),
            sport: owned(opportunity.sport.name()),
            participant: opportunity.participant.clone(),
            fair_probability: opportunity.fair_probability,
            conservative_probability: opportunity.conservative_probability,
            executable_price: opportunity.executable_price,
            maker_price: opportunity.maker_price,
            maker_net_edge: opportunity.maker_net_edge,
            raw_edge: opportunity.raw_edge,
            net_edge: opportunity.net_edge,
            quantity: opportunity.quantity,
            maximum_loss: opportunity.maximum_loss,
            estimated_fee: opportunity.estimated_fee,
            family_count,
            source_ids: copy_texts(&opportunity.source_ids),
            reasons: copy_texts(&opportunity.reasons),
            start_time: opportunity.start_time,
            book_time: opportunity.book_time,
            generated_at: opportunity.generated_at,
        },
    )
}

/// The complaint about a name that is none of those expected.
pub open spec fn unknown_variant(name: Seq<char>, expected: Seq<char>) -> Failure {
    Failure::Json("unknown variant `"@ + name + "`, expected "@ + expected)
}

/// Reads a class by its name.
pub open spec fn class_named(name: Seq<char>) -> Result<RecommendationClass, Failure> {
    if exists|class: RecommendationClass| #[trigger] class.label() == name {
        Ok(choose|class: RecommendationClass| #[trigger] class.label() == name)
    } else {
        Err(unknown_variant(name, "one of `actionable`, `watchlist`, `rejected`"@))
    }
}

/// Reads a sport by its name.
pub open spec fn sport_named(name: Seq<char>) -> Result<Sport, Failure> {
    if exists|sport: Sport| #[trigger] sport.label() == name {
        Ok(choose|sport: Sport| #[trigger] sport.label() == name)
    } else {
        Err(unknown_variant(name, "one of `nfl`, `nba`, `wnba`, `mlb`, `tennis`"@))
    }
}

/// Reads a side by its name.
pub open spec fn side_named(name: Seq<char>) -> Result<OutcomeSide, Failure> {
    if exists|side: OutcomeSide| #[trigger] side.label() == name {
        Ok(choose|side: OutcomeSide| #[trigger] side.label() == name)
    } else {
        Err(unknown_variant(name, "`long` or `short`"@))
    }
}

fn complain(name: &str, expected: &str) -> (result: Error)
    ensures
        result@ == unknown_variant(name@, expected@),
{
    let front: String = concat3("unknown variant `", name, "`, expected ");
    let text: String = crate::text::concat2(front.as_str(), expected);
    assert(text@ =~= "unknown variant `"@ + name@ + "`, expected "@ + expected@);
    Error::Json(text)
}

/// The class with a name.
pub fn class_from_text(name: &str) -> (result: Result<RecommendationClass, Error>)
    ensures
        match result {
            Ok(class) => class_named(name@) == Ok::<RecommendationClass, Failure>(class),
            Err(e) => class_named(name@) == Err::<RecommendationClass, Failure>(e@),
        },
{
    proof {
        names_are_distinct();
    }
    match RecommendationClass::from_name(name) {
        Some(class) => Ok(class),
        None => Err(complain(name, "one of `actionable`, `watchlist`, `rejected`")),
    }
}

/// The sport with a name.
pub fn sport_from_text(name: &str) -> (result: Result<Sport, Error>)
    ensures
        match result {
            Ok(sport) => sport_named(name@) == Ok::<Sport, Failure>(sport),
            Err(e) => sport_named(name@) == Err::<Sport, Failure>(e@),
        },
{
    proof {
        names_are_distinct();
    }
    match Sport::from_name(name) {
        Some(sport) => Ok(sport),
        None => Err(complain(name, "one of `nfl`, `nba`, `wnba`, `mlb`, `tennis`")),
    }
}

/// The side with a name.
pub fn side_from_text(name: &str) -> (result: Result<OutcomeSide, Error>)
    ensures
        match result {
            Ok(side) => side_named(name@) == Ok::<OutcomeSide, Failure>(side),
            Err(e) => side_named(name@) == Err::<OutcomeSide, Failure>(e@),
        },
{
    proof {
        names_are_distinct();
    }
    match OutcomeSide::from_name(name) {
        Some(side) => Ok(side),
        None => Err(complain(name, "`long` or `short`")),
    }
}

/// The opportunity that a record stands for, or the first thing wrong with it.
pub open spec fn row_of_record(record: ArchivedRow, market_slug: Seq<char>) -> Result<Row, Failure> {
    match class_named(record.class) {
        Err(e) => Err(e),
        Ok(class) => match sport_named(record.sport) {
            Err(e) => Err(e),
            Ok(sport) => match side_named(record.side) {
                Err(e) => Err(e),
                Ok(side) => if record.family_count < 0 {
                    Err(
                        Failure::Storage(
                            "family_count: out of range integral type conversion attempted"@,
                        ),
                    )
                } else {
                    Ok(
                        Row {
                            id: record.opportunity_id,
                            generated_at: record.generated_at,
                            class,
                            sport,
                            event_id: record.event_id,
                            market_id: record.market_id,
                            market_slug,
                            participant: record.participant,
                            side,
                            fair_probability: record.fair_probability,
                            conservative_probability: record.conservative_probability,
                            executable_price: record.executable_price,
                            maker_price: record.maker_price,
                            maker_net_edge: record.maker_net_edge,
                            raw_edge: record.raw_edge,
                            net_edge: record.net_edge,
                            quantity: record.quantity,
                            maximum_loss: record.maximum_loss,
                            estimated_fee: record.estimated_fee,
                            family_count: record.family_count as nat,
                            source_ids: record.source_ids,
                            start_time: record.start_time,
                            book_time: record.book_time,
                            reasons: record.reasons,
                        },
                    )
                },
            },
        },
    }
}

/// The opportunity that a record stands for, with the slug of its market.
pub fn opportunity_from_record(record: OpportunityRecord, market_slug: String) -> (result: Result<
    Opportunity,
    Error,
>)
    ensures
        match result {
            Ok(opportunity) => row_of_record(record@, market_slug@) == Ok::<Row, Failure>(
                opportunity@,
            ),
            Err(e) => row_of_record(record@, market_slug@) == Err::<Row, Failure>(e@),
        },
{
    let class: RecommendationClass = match class_from_text(record.class.as_str()) {
        Ok(class) => class,
        Err(e) => return Err(e),
    };
    let sport: Sport = match sport_from_text(record.sport.as_str()) {
        Ok(sport) => sport,
        Err(e) => return Err(e),
    };
    let side: OutcomeSide = match side_from_text(record.side.as_str()) {
        Ok(side) => side,
        Err(e) => return Err(e),
    };
    if record.family_count < 0 {
        return Err(
            Error::Storage(
                owned("family_count: out of range integral type conversion attempted"),
            ),
        );
    }
    Ok(
        Opportunity {
            id: record.opportunity_id,
            generated_at: record.generated_at,
            class,
            sport,
            event_id: record.event_id,
            market_id: record.market_id,
            market_slug,
            participant: record.participant,
            side,
            fair_probability: record.fair_probability,
            conservative_probability: record.conservative_probability,
            executable_price: record.executable_price,
            maker_price: record.maker_price,
            maker_net_edge: record.maker_net_edge,
            raw_edge: record.raw_edge,
            net_edge: record.net_edge,
            quantity: record.quantity,
            maximum_loss: record.maximum_loss,
            estimated_fee: record.estimated_fee,
            family_count: record.family_count as usize,
            source_ids: record.source_ids,
            start_time: record.start_time,
            book_time: record.book_time,
            reasons: record.reasons,
        },
    )
}

/// Every opportunity comes back from the archive as it was.
pub proof fn archived_rows_come_back(row: Row)
    ensures
        row_of_record(archived_row(row), row.market_slug) == Ok::<Row, Failure>(row),
{
    names_are_distinct();
}

/// A hexadecimal digit in either case.
pub open spec fn is_hex(c: char) -> bool {
    is_digit(c) || 'a' <= c <= 'f' || 'A' <= c <= 'F'
}

/// Thirty-two hexadecimal digits in groups of eight, four, four, four and
/// twelve, with hyphens between.
pub open spec fn is_hyphenated(text: Seq<char>) -> bool {
    text.len() == 36 && forall|i: int|
        0 <= i < 36 ==> if i == 8 || i == 13 || i == 18 || i == 23 {
            (#[trigger] text[i]) == '-'
        } else {
            is_hex(text[i])
        }
}

/// An identifier: digits alone, digits with hyphens, or those in braces or after
/// `urn:uuid:`.
pub open spec fn is_uuid(text: Seq<char>) -> bool {
    ||| text.len() == 32 && forall|i: int| 0 <= i < 32 ==> is_hex(#[trigger] text[i])
    ||| is_hyphenated(text)
    ||| text.len() == 38 && text[0] == '{' && text[37] == '}' && is_hyphenated(
        text.subrange(1, 37),
    )
    ||| text.len() == 45 && same_ignoring_case(text.take(9), "urn:uuid:"@) && is_hyphenated(
        text.skip(9),
    )
}

/// `uuid::Uuid::parse_str`: whether the text is an identifier in one of the
/// forms that the crate reads.
#[verifier::external_body]
fn uuid_parses(text: &str) -> (result: bool)
    ensures
        result == is_uuid(text@),
{
    uuid::Uuid::parse_str(text).is_ok()
}

/// Whether a file holds the rows of a scan: it is named by an identifier and
/// ends in `json`. The files beside it are read with it.
pub fn is_scan_file(stem: &str, extension: Option<&str>) -> (result: bool)
    ensures
        result == (extension matches Some(e) && e@ == "json"@ && is_uuid(stem@)),
{
    match extension {
        Some(extension) => same(extension, "json") && uuid_parses(stem),
        None => false,
    }
}

/// A quote that can supply the start of a row: from a source with exact starts,
/// in the row's sport, naming its participant.
pub open spec fn supplies_start(quote: Quote, sport: Seq<char>, participant: Seq<char>) -> bool {
    &&& quote.start_time_tolerance_minutes <= DEFAULT_START_TIME_TOLERANCE_MINUTES
    &&& quote.sport.label() == sport
    &&& same_ignoring_case(quote.participant_a, participant) || same_ignoring_case(
        quote.participant_b,
        participant,
    )
}

/// The start that the first such quote from `from` on gives.
pub open spec fn start_from(
    quotes: Seq<Quote>,
    sport: Seq<char>,
    participant: Seq<char>,
    from: int,
) -> Option<int>
    decreases quotes.len() - from,
{
    if from < 0 || from >= quotes.len() {
        None
    } else if supplies_start(quotes[from], sport, participant) {
        Some(quotes[from].start_time)
    } else {
        start_from(quotes, sport, participant, from + 1)
    }
}

/// The start of a row that was stored without one, from the quotes of its own
/// scan; `None` rather than a guess.
pub fn recover_start_time(quotes: &Vec<SourceQuote>, sport: &str, participant: &str) -> (result:
    Option<Timestamp>)
    ensures
        instant_of(result) == start_from(source_quote_views(quotes@), sport@, participant@, 0),
{
    let ghost all = source_quote_views(quotes@);
    let mut i: usize = 0;
    while i < quotes.len()
        invariant
            i <= quotes@.len(),
            all == source_quote_views(quotes@),
            start_from(all, sport@, participant@, 0) == start_from(
                all,
                sport@,
                participant@,
                i as int,
            ),
        decreases quotes@.len() - i,
    {
        let quote: &SourceQuote = &quotes[i];
        if quote.start_time_tolerance_minutes <= DEFAULT_START_TIME_TOLERANCE_MINUTES && same(
            quote.sport.name(),
            sport,
        ) && (same_any_case(quote.participant_a.as_str(), participant) || same_any_case(
            quote.participant_b.as_str(),
            participant,
        )) {
            return Some(quote.start_time);
        }
        i = i + 1;
    }
    None
}

/// A recovered start is one that a source with exact starts gave for the row's
/// participant in the row's sport.
pub proof fn recovered_starts_are_exact(
    quotes: Seq<Quote>,
    sport: Seq<char>,
    participant: Seq<char>,
    from: int,
)
    requires
        0 <= from,
    ensures
        match start_from(quotes, sport, participant, from) {
            Some(start) => exists|i: int|
                from <= i < quotes.len() && supplies_start(
                    #[trigger] quotes[i],
                    sport,
                    participant,
                ) && quotes[i].start_time == start,
            None => forall|i: int|
                from <= i < quotes.len() ==> !supplies_start(
                    #[trigger] quotes[i],
                    sport,
                    participant,
                ),
        },
    decreases quotes.len() - from,
{
    if from < quotes.len() {
        recovered_starts_are_exact(quotes, sport, participant, from + 1);
    }
}

/// What an import did.
#[derive(Debug, Clone, Copy, PartialEq, Eq, Structural)]
pub struct ImportReport {
    pub files: usize,
    pub imported: usize,
    pub already_archived: usize,
    pub with_books: usize,
    pub failed: usize,
}

/// What became of one file of an import.
#[derive(Debug, Clone, Copy, PartialEq, Eq, Structural)]
pub enum ImportOutcome {
    /// The file could not be read.
    Unreadable,
    /// The archive did not take the scan.
    Refused { with_books: bool },
    /// The archive already held the scan and left it untouched.
    Present { with_books: bool },
    Imported { with_books: bool },
}

impl ImportOutcome {
    /// Whether the file was read and came with books.
    pub open spec fn has_books(self) -> bool {
        match self {
            ImportOutcome::Unreadable => false,
            ImportOutcome::Refused { with_books } => with_books,
            ImportOutcome::Present { with_books } => with_books,
            ImportOutcome::Imported { with_books } => with_books,
        }
    }
}

impl ImportReport {
    /// The report on so many files before the first of them.
    pub fn new(files: usize) -> (result: ImportReport)
        ensures
            result == (ImportReport {
                files,
                imported: 0,
                already_archived: 0,
                with_books: 0,
                failed: 0,
            }),
    {
        ImportReport { files, imported: 0, already_archived: 0, with_books: 0, failed: 0 }
    }

    /// The report after one more file: each file is imported, already archived
    /// or failed, and counts as one with books apart from that.
    pub fn note(self, outcome: ImportOutcome) -> (result: ImportReport)
        ensures
            result.files == self.files,
            result.imported == counted(self.imported, outcome is Imported),
            result.already_archived == counted(self.already_archived, outcome is Present),
            result.failed == counted(
                self.failed,
                outcome is Unreadable || outcome is Refused,
            ),
            result.with_books == counted(self.with_books, outcome.has_books()),
    {
        let mut next = self;
        match outcome {
            ImportOutcome::Unreadable => {
                next.failed = bump(next.failed);
            },
            ImportOutcome::Refused { with_books } => {
                next.failed = bump(next.failed);
                if with_books {
                    next.with_books = bump(next.with_books);
                }
            },
            ImportOutcome::Present { with_books } => {
                next.already_archived = bump(next.already_archived);
                if with_books {
                    next.with_books = bump(next.with_books);
                }
            },
            ImportOutcome::Imported { with_books } => {
                next.imported = bump(next.imported);
                if with_books {
                    next.with_books = bump(next.with_books);
                }
            },
        }
        next
    }
}

} // verus!
