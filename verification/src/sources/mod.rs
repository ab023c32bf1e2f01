//! The places that quotes come from.

use vstd::prelude::*;

use crate::decimal::{dec, dec_of, one, plus, quotient, rounded, Dec, Decimal};
use crate::domain::{
    source_quote_views, Family, Health, Quote, SourceFamily, SourceHealth, SourceQuote,
};
use crate::error::{Error, Failure};
use crate::seqs::{group_seqs, take_next};
use crate::text::{concat2, digits, natural, owned};
use crate::textmap::TextMap;
use crate::time::Timestamp;

pub mod action_network;
pub mod canonical;
pub mod catalog;
pub mod espn;
pub mod kalshi;
pub mod pinnacle;
pub mod polymarket_global;
pub mod smarkets;
pub mod the_odds_api;

verus! {

broadcast use group_seqs;

/// Identifying user agent with a contact URL. Some public sports APIs reject
/// bare `name/version` tokens; this format is accepted and honest.
pub const USER_AGENT: &'static str = "polybot/0.1 (+https://github.com/polybot; research scanner)";

/// What a scan needs to know of a source before it asks for quotes.
#[derive(Debug)]
pub struct SourceFacts {
    pub id: String,
    pub family: SourceFamily,
    /// Every family that the source's quotes can carry.
    pub families: Vec<SourceFamily>,
    /// Quotes never enter a consensus; kept for comparison only.
    pub validation_only: bool,
    /// Quota-limited source that is only asked to confirm candidates of the
    /// continuous sources. Never part of the preliminary pass.
    pub confirmation_only: bool,
}

/// What is known of a source, as mathematics.
pub struct Origin {
    pub id: Seq<char>,
    pub family: Family,
    pub families: Seq<Family>,
    pub validation_only: bool,
    pub confirmation_only: bool,
}

pub open spec fn family_views(items: Seq<SourceFamily>) -> Seq<Family> {
    items.map_values(|item: SourceFamily| item@)
}

impl View for SourceFacts {
    type V = Origin;

    open spec fn view(&self) -> Origin {
        Origin {
            id: self.id@,
            family: self.family@,
            families: family_views(self.families@),
            validation_only: self.validation_only,
            confirmation_only: self.confirmation_only,
        }
    }
}

pub open spec fn origins(items: Seq<SourceFacts>) -> Seq<Origin> {
    items.map_values(|item: SourceFacts| item@)
}

impl Clone for SourceFacts {
    fn clone(&self) -> (result: SourceFacts)
        ensures
            result@ == self@,
    {
        let mut families: Vec<SourceFamily> = Vec::new();
        let mut i: usize = 0;
        while i < self.families.len()
            invariant
                i <= self.families@.len(),
                family_views(families@) == family_views(self.families@).take(i as int),
            decreases self.families@.len() - i,
        {
            proof {
                take_next(family_views(self.families@), i as int);
            }
            families.push(self.families[i].clone());
            i = i + 1;
        }
        SourceFacts {
            id: self.id.clone(),
            family: self.family.clone(),
            families,
            validation_only: self.validation_only,
            confirmation_only: self.confirmation_only,
        }
    }
}

impl SourceFacts {
    /// A source of one family.
    pub fn single(id: String, family: SourceFamily) -> (result: SourceFacts)
        ensures
            result@ == (Origin {
                id: id@,
                family: family@,
                families: seq![family@],
                validation_only: false,
                confirmation_only: false,
            }),
    {
        let mut families: Vec<SourceFamily> = Vec::new();
        families.push(family.clone());
        assert(family_views(families@) =~= seq![family@]);
        SourceFacts { id, family, families, validation_only: false, confirmation_only: false }
    }
}

/// A record of a source that answered.
pub open spec fn answered_record(source: Origin, checked_at: int, latency_ms: int, found: nat, message: Seq<char>) -> Health {
    Health {
        source_id: source.id,
        family: source.family,
        checked_at,
        reachable: true,
        odds_found: found,
        latency_ms,
        message,
    }
}

/// A record of a source that failed.
pub open spec fn failed_record(source: Origin, checked_at: int, latency_ms: int, failure: Failure) -> Health {
    Health {
        source_id: source.id,
        family: source.family,
        checked_at,
        reachable: false,
        odds_found: 0,
        latency_ms,
        message: failure.text(),
    }
}

pub fn health_ok(
    source: &SourceFacts,
    checked_at: Timestamp,
    latency_ms: u64,
    message: String,
) -> (result: SourceHealth)
    ensures
        result@ == answered_record(source@, checked_at@, latency_ms as int, 0, message@),
{
    SourceHealth {
        source_id: owned(source.id.as_str()),
        family: source.family.clone(),
        checked_at,
        reachable: true,
        odds_found: 0,
        latency_ms,
        message,
    }
}

pub fn health_err(
    source: &SourceFacts,
    checked_at: Timestamp,
    latency_ms: u64,
    error: &Error,
) -> (result: SourceHealth)
    ensures
        result@ == failed_record(source@, checked_at@, latency_ms as int, error@),
{
    SourceHealth {
        source_id: owned(source.id.as_str()),
        family: source.family.clone(),
        checked_at,
        reachable: false,
        odds_found: 0,
        latency_ms,
        message: error.to_text(),
    }
}

/// The record of a probe that ran a real collection, so that it proves parsing
/// and not just reachability: `count` quotes, or why there are none.
pub fn probe_health(
    source: &SourceFacts,
    checked_at: Timestamp,
    latency_ms: u64,
    outcome: Result<usize, Error>,
) -> (result: SourceHealth)
    ensures
        result@ == match outcome {
            Ok(count) => answered_record(
                source@,
                checked_at@,
                latency_ms as int,
                count as nat,
                digits(count as nat) + " normalized quotes"@,
            ),
            Err(error) => failed_record(source@, checked_at@, latency_ms as int, error@),
        },
{
    match outcome {
        Ok(count) => {
            let message = concat2(natural(count as u128).as_str(), " normalized quotes");
            let mut health = health_ok(source, checked_at, latency_ms, message);
            health.odds_found = count;
            health
        },
        Err(error) => health_err(source, checked_at, latency_ms, &error),
    }
}

/// Whether a page that answered with a status counts as reachable: it succeeded
/// or sent the visitor on.
pub fn page_is_reachable(status: u16) -> (result: bool)
    ensures
        result == (200 <= status < 400),
{
    200 <= status && status < 400
}

/// The identifier of one provider.
pub open spec fn one_id(provider: Seq<char>, id: Seq<char>) -> Map<Seq<char>, Seq<char>> {
    Map::empty().insert(provider, id)
}

/// The identifier of one provider.
pub fn single_id(provider: &str, id: &str) -> (result: TextMap<String>)
    ensures
        result.deep() == one_id(provider@, id@),
{
    let none: TextMap<String> = TextMap::new();
    assert(none.deep() =~= Map::empty());
    none.put(owned(provider), owned(id))
}

/// No identifier.
pub fn no_ids() -> (result: TextMap<String>)
    ensures
        result.deep() == Map::<Seq<char>, Seq<char>>::empty(),
{
    let none: TextMap<String> = TextMap::new();
    assert(none.deep() =~= Map::empty());
    none
}

/// Decimal odds from American ones: what a winning dollar returns. Missing for
/// zero and on overflow.
pub open spec fn from_american(odds: int) -> Option<Dec> {
    if odds > 0 {
        plus(Some(one()), quotient(dec(odds, 0), dec(100, 0)))
    } else {
        plus(Some(one()), quotient(dec(100, 0), dec(-odds, 0)))
    }
}

/// Decimal odds from American ones; `None` for zero and on overflow.
pub fn american_to_decimal(odds: i64) -> (result: Option<Decimal>)
    ensures
        dec_of(result) == from_american(odds as int),
{
    let hundred = Decimal::one_hundred();
    let share = if odds > 0 {
        Decimal::from_parts(odds as i128, 0)?.checked_div(hundred)?
    } else {
        let magnitude = Decimal::from_parts(-(odds as i128), 0)?;
        hundred.checked_div(magnitude)?
    };
    Decimal::one().checked_add(share)
}

/// Zero is no price in American odds.
pub proof fn zero_is_no_american_price()
    ensures
        from_american(0) is None,
{
}

/// American odds as decimal ones to four places.
pub open spec fn american_price(odds: int) -> Option<Dec> {
    match from_american(odds) {
        Some(d) => Some(rounded(d, 4)),
        None => None,
    }
}

/// Implied probabilities of a two-way market that add up to something between
/// 1.00 and 1.15; a book's hold is normally a few points.
pub open spec fn plausible(a: Dec, b: Dec) -> bool {
    plus(quotient(one(), a), quotient(one(), b)) matches Some(overround) && one().le(overround)
        && overround.le(dec(115, 2))
}

/// The decimal odds of two American lines, if they make a plausible market.
pub open spec fn two_way(home: int, away: int) -> Option<(Dec, Dec)> {
    if home == 0 || away == 0 {
        None
    } else {
        match (american_price(home), american_price(away)) {
            (Some(a), Some(b)) => if plausible(a, b) {
                Some((a, b))
            } else {
                None
            },
            _ => None,
        }
    }
}

pub open spec fn odds_pair(odds: Option<(Decimal, Decimal)>) -> Option<(Dec, Dec)> {
    match odds {
        Some((a, b)) => Some((a@, b@)),
        None => None,
    }
}

/// The decimal odds of two American lines, if they make a plausible market.
pub fn two_way_odds(home: i64, away: i64) -> (result: Option<(Decimal, Decimal)>)
    ensures
        odds_pair(result) == two_way(home as int, away as int),
{
    if home == 0 || away == 0 {
        return None;
    }
    let a = american_to_decimal(home)?.round_dp(4);
    let b = american_to_decimal(away)?.round_dp(4);
    let unit = Decimal::one();
    let share_a = unit.checked_div(a)?;
    let share_b = unit.checked_div(b)?;
    let overround = share_a.checked_add(share_b)?;
    if unit.at_most(overround) && overround.at_most(Decimal::new(115, 2)) {
        Some((a, b))
    } else {
        None
    }
}

/// The quote inside an optional one.
pub open spec fn some_quote(q: Option<SourceQuote>) -> Option<Quote> {
    match q {
        Some(q) => Some(q@),
        None => None,
    }
}

/// Appends the quotes of one list to another.
pub fn append_quotes(out: &mut Vec<SourceQuote>, quotes: Vec<SourceQuote>)
    ensures
        source_quote_views(final(out)@) == source_quote_views(old(out)@) + source_quote_views(
            quotes@,
        ),
{
    let ghost front = source_quote_views(out@);
    let ghost more = source_quote_views(quotes@);
    let mut k: usize = 0;
    while k < quotes.len()
        invariant
            k <= quotes@.len(),
            more == source_quote_views(quotes@),
            source_quote_views(out@) == front + more.take(k as int),
        decreases quotes@.len() - k,
    {
        proof {
            take_next(more, k as int);
            assert(front + more.take(k as int).push(more[k as int]) =~= (front + more.take(
                k as int,
            )).push(more[k as int]));
        }
        out.push(quotes[k].clone());
        k = k + 1;
    }
}

/// The quotes inside a result.
pub open spec fn quotes_result(r: Result<Vec<SourceQuote>, Error>) -> Result<Seq<Quote>, Failure> {
    match r {
        Ok(quotes) => Ok(source_quote_views(quotes@)),
        Err(e) => Err(e@),
    }
}

/// The quote inside a result, where there is one.
pub open spec fn quote_result(r: Result<Option<SourceQuote>, Error>) -> Result<
    Option<Quote>,
    Failure,
> {
    match r {
        Ok(Some(quote)) => Ok(Some(quote@)),
        Ok(None) => Ok(None),
        Err(e) => Err(e@),
    }
}

} // verus!
