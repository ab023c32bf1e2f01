//! What the stores decide: who holds the scan lease, what a stored portfolio
//! amounts to, where a scan is kept, and which store a run uses. Reading and
//! writing is left to the program.

use chrono::Datelike;
use vstd::arithmetic::power::pow;
use vstd::prelude::*;

use crate::config::{Policy, RunMode, Settings};
use crate::decimal::{checked_total, dec_of, decs, sum, total, zero, Dec, Decimal};
use crate::domain::{paper_position_views, PaperPortfolio, PaperPosition, Portfolio, Position};
use crate::error::{config, storage, Error, Failure};
use crate::paper::{exposure, open_exposure};
use crate::scanner::LONGEST_SPAN_SECONDS;
use crate::seqs::{group_seqs, take_next};
use crate::text::{
    concat2, concat3, concat5, digits, int_text, integer, natural, pad_zeros, zero_padded,
};
use crate::time::{
    date_of, day_number, every_day_has_one_date, in_calendar, Timestamp, EPOCH_DAY, INSTANT_LIMIT,
    NANOS_PER_SECOND,
};

verus! {

broadcast use group_seqs;

/// Whether a run also writes to the history archive. Viewers only read, so they
/// never open a database.
#[derive(Debug, Clone, Copy, PartialEq, Eq, Structural)]
pub enum Archive {
    Enabled,
    Disabled,
}

/// Where a run keeps its records.
#[derive(Debug)]
pub struct StorePlan {
    pub mode: RunMode,
    /// The database of the history archive, where scans are archived.
    pub archive_url: Option<String>,
}

/// The archive that a policy and a run ask for.
pub open spec fn archive_of(policy: Policy, archive: Archive) -> Option<Seq<char>> {
    if archive is Enabled {
        policy.database_url
    } else {
        None
    }
}

/// The store for the configured run mode, with the archive behind it where the
/// run writes scans and a database is configured.
pub fn store_for(settings: &Settings, archive: Archive) -> (result: StorePlan)
    ensures
        result.mode == settings@.run_mode,
        crate::text::text_of(result.archive_url) == archive_of(settings@, archive),
{
    let archive_url: Option<String> = match archive {
        Archive::Enabled => crate::text::copy_text(&settings.database_url),
        Archive::Disabled => None,
    };
    StorePlan { mode: settings.run_mode, archive_url }
}

/// Who may scan, and until when.
#[derive(Debug, Clone, Copy)]
pub struct LocalLease {
    pub lease_id: u128,
    pub expires_at: Timestamp,
}

/// A lease file stands in the way of nobody when it cannot be read or has run
/// out.
pub open spec fn lapsed(lease: Option<LocalLease>, now: int) -> bool {
    match lease {
        Some(current) => current.expires_at@ <= now,
        None => true,
    }
}

/// How often a lease is tried for: once, and once more after a lapsed lease was
/// removed.
pub const LEASE_ATTEMPTS: u32 = 2;

/// What came of an attempt to create the lease file.
#[derive(Debug)]
pub enum LeaseAttempt {
    Created,
    /// There already is one; its content, as far as it can be read.
    Present(Option<LocalLease>),
}

/// What follows an attempt to take the lease.
#[derive(Debug, Clone, Copy, PartialEq, Eq, Structural)]
pub enum LeaseStep {
    Acquired,
    Refused,
    /// Remove the lapsed lease, then try again.
    Reclaim,
    /// Remove the lapsed lease, then give up.
    ReclaimLast,
}

pub open spec fn lease_step_after(attempt: LeaseAttempt, tries: int, now: int) -> LeaseStep {
    match attempt {
        LeaseAttempt::Created => LeaseStep::Acquired,
        LeaseAttempt::Present(lease) => if !lapsed(lease, now) {
            LeaseStep::Refused
        } else if tries < LEASE_ATTEMPTS {
            LeaseStep::Reclaim
        } else {
            LeaseStep::ReclaimLast
        },
    }
}

/// What follows the attempt with number `tries` (counted from one) to create
/// the lease file.
pub fn lease_step(attempt: &LeaseAttempt, tries: u32, now: Timestamp) -> (result: LeaseStep)
    ensures
        result == lease_step_after(*attempt, tries as int, now@),
{
    match attempt {
        LeaseAttempt::Created => LeaseStep::Acquired,
        LeaseAttempt::Present(lease) => {
            let stale: bool = match lease {
                Some(current) => !now.before(current.expires_at),
                None => true,
            };
            if !stale {
                LeaseStep::Refused
            } else if tries < LEASE_ATTEMPTS {
                LeaseStep::Reclaim
            } else {
                LeaseStep::ReclaimLast
            }
        },
    }
}

/// A lease that can be read and has not run out is never taken from its holder,
/// and no second scan starts beside it.
pub proof fn a_live_lease_is_exclusive(lease: LocalLease, tries: int, now: int)
    requires
        now < lease.expires_at@,
    ensures
        lease_step_after(LeaseAttempt::Present(Some(lease)), tries, now) is Refused,
{
}

/// A lease that has run out is removed, whoever held it.
pub proof fn a_lapsed_lease_is_taken_over(lease: LocalLease, now: int)
    requires
        lease.expires_at@ <= now,
    ensures
        lease_step_after(LeaseAttempt::Present(Some(lease)), 1, now) is Reclaim,
        lease_step_after(LeaseAttempt::Created, 2, now) is Acquired,
{
}

/// Whether a scan may remove the lease file: only the one that holds it.
pub fn releases(current: &LocalLease, lease_id: u128) -> (result: bool)
    ensures
        result == (current.lease_id == lease_id),
{
    current.lease_id == lease_id
}

/// When a lease taken at `now` for so many seconds runs out.
pub open spec fn lease_end(now: int, ttl: int) -> Result<int, Failure> {
    if ttl > LONGEST_SPAN_SECONDS {
        Err(
            Failure::Storage(
                "lease TTL: Source duration value is out of range for the target type"@,
            ),
        )
    } else if now + ttl * NANOS_PER_SECOND > INSTANT_LIMIT {
        Err(Failure::Overflow)
    } else {
        Ok(now + ttl * NANOS_PER_SECOND)
    }
}

/// The lease that a scan takes at `now` for `ttl` seconds.
pub fn new_lease(lease_id: u128, now: Timestamp, ttl: u64) -> (result: Result<LocalLease, Error>)
    ensures
        match result {
            Ok(lease) => lease.lease_id == lease_id && lease_end(now@, ttl as int) == Ok::<
                int,
                Failure,
            >(lease.expires_at@),
            Err(e) => lease_end(now@, ttl as int) == Err::<int, Failure>(e@),
        },
{
    if ttl > LONGEST_SPAN_SECONDS {
        return Err(
            storage("lease TTL: Source duration value is out of range for the target type"),
        );
    }
    let end: i128 = now.nanos() + ttl as i128 * NANOS_PER_SECOND;
    match Timestamp::from_nanos(end) {
        Some(expires_at) => Ok(LocalLease { lease_id, expires_at }),
        None => Err(Error::Overflow),
    }
}

/// When a lease in the cloud runs out, in seconds since the epoch.
pub open spec fn cloud_lease_end(now_seconds: int, ttl: int) -> Result<int, Failure> {
    if ttl > i64::MAX {
        Err(Failure::Storage("lease TTL: out of range integral type conversion attempted"@))
    } else if now_seconds + ttl > i64::MAX {
        Err(Failure::Overflow)
    } else {
        Ok(now_seconds + ttl)
    }
}

/// When a lease taken in the cloud for `ttl` seconds runs out.
pub fn cloud_lease_expiry(now_seconds: i64, ttl: u64) -> (result: Result<i64, Error>)
    ensures
        match result {
            Ok(end) => cloud_lease_end(now_seconds as int, ttl as int) == Ok::<int, Failure>(
                end as int,
            ),
            Err(e) => cloud_lease_end(now_seconds as int, ttl as int) == Err::<int, Failure>(e@),
        },
{
    if ttl > i64::MAX as u64 {
        return Err(storage("lease TTL: out of range integral type conversion attempted"));
    }
    match now_seconds.checked_add(ttl as i64) {
        Some(end) => Ok(end),
        None => Err(Error::Overflow),
    }
}

/// The results of closed positions; one closed by hand counts as nothing.
pub open spec fn closed_results(positions: Seq<Position>) -> Seq<Dec> {
    positions.map_values(
        |p: Position|
            match p.realized_pnl {
                Some(pnl) => pnl,
                None => zero(),
            },
    )
}

pub open spec fn holds_nonpositive(positions: Seq<Position>) -> bool {
    exists|i: int|
        0 <= i < positions.len() && (#[trigger] positions[i]).maximum_loss.le(zero())
}

/// What a stored portfolio amounts to: its totals follow from its positions and
/// the configured bankroll, whatever totals were stored.
pub open spec fn normalized(portfolio: Portfolio, bankroll: Dec) -> Result<Portfolio, Failure> {
    if bankroll.le(zero()) {
        Err(Failure::Config("PAPER_BANKROLL must be positive"@))
    } else if holds_nonpositive(portfolio.open_positions) {
        Err(Failure::Storage("paper portfolio contains a non-positive position"@))
    } else {
        match total(closed_results(portfolio.closed_positions)) {
            Some(realized_pnl) => match (
                sum(bankroll, realized_pnl),
                exposure(portfolio.open_positions),
            ) {
                (Some(carried), Some(open_exposure)) => if carried.lt(open_exposure) {
                    Err(Failure::Storage("paper portfolio exposure exceeds bankroll"@))
                } else {
                    Ok(
                        Portfolio {
                            bankroll: carried,
                            open_exposure,
                            open_positions: portfolio.open_positions,
                            closed_positions: portfolio.closed_positions,
                            realized_pnl,
                        },
                    )
                },
                _ => Err(Failure::Overflow),
            },
            None => Err(Failure::Overflow),
        }
    }
}

fn realized_total(positions: &Vec<PaperPosition>) -> (result: Option<Decimal>)
    ensures
        dec_of(result) == total(closed_results(paper_position_views(positions@))),
{
    let ghost all = closed_results(paper_position_views(positions@));
    let mut values: Vec<Decimal> = Vec::new();
    let mut i: usize = 0;
    while i < positions.len()
        invariant
            i <= positions@.len(),
            all == closed_results(paper_position_views(positions@)),
            decs(values@) == all.take(i as int),
        decreases positions@.len() - i,
    {
        proof {
            take_next(all, i as int);
        }
        match positions[i].realized_pnl {
            Some(pnl) => values.push(pnl),
            None => values.push(Decimal::zero()),
        }
        i = i + 1;
    }
    checked_total(&values)
}

fn any_nonpositive(positions: &Vec<PaperPosition>) -> (result: bool)
    ensures
        result == holds_nonpositive(paper_position_views(positions@)),
{
    let ghost all = paper_position_views(positions@);
    let mut i: usize = 0;
    while i < positions.len()
        invariant
            i <= positions@.len(),
            all == paper_position_views(positions@),
            forall|k: int| 0 <= k < i ==> !(#[trigger] all[k]).maximum_loss.le(zero()),
        decreases positions@.len() - i,
    {
        if positions[i].maximum_loss.at_most(Decimal::zero()) {
            assert(all[i as int].maximum_loss.le(zero()));
            return true;
        }
        i = i + 1;
    }
    false
}

/// Takes a stored portfolio in. `bankroll` is the configured sizing base; the
/// stored bankroll and result are derived from the positions on every load, so
/// that a file edited by hand cannot drift from them.
pub fn normalize_portfolio(portfolio: PaperPortfolio, bankroll: Decimal) -> (result: Result<
    PaperPortfolio,
    Error,
>)
    ensures
        match result {
            Ok(p) => normalized(portfolio@, bankroll@) == Ok::<Portfolio, Failure>(p@),
            Err(e) => normalized(portfolio@, bankroll@) == Err::<Portfolio, Failure>(e@),
        },
{
    if bankroll.at_most(Decimal::zero()) {
        return Err(config("PAPER_BANKROLL must be positive"));
    }
    if any_nonpositive(&portfolio.open_positions) {
        return Err(storage("paper portfolio contains a non-positive position"));
    }
    let realized_pnl: Decimal = match realized_total(&portfolio.closed_positions) {
        Some(pnl) => pnl,
        None => return Err(Error::Overflow),
    };
    let carried: Decimal = match bankroll.checked_add(realized_pnl) {
        Some(carried) => carried,
        None => return Err(Error::Overflow),
    };
    let exposed: Decimal = match open_exposure(&portfolio.open_positions) {
        Some(exposed) => exposed,
        None => return Err(Error::Overflow),
    };
    if carried.less(exposed) {
        return Err(storage("paper portfolio exposure exceeds bankroll"));
    }
    Ok(
        PaperPortfolio {
            bankroll: carried,
            open_exposure: exposed,
            open_positions: portfolio.open_positions,
            closed_positions: portfolio.closed_positions,
            realized_pnl,
        },
    )
}

/// Stored totals cannot drift: two portfolios with the same positions load as
/// the same portfolio.
pub proof fn totals_follow_the_positions(a: Portfolio, b: Portfolio, bankroll: Dec)
    requires
        a.open_positions == b.open_positions,
        a.closed_positions == b.closed_positions,
    ensures
        normalized(a, bankroll) == normalized(b, bankroll),
{
}

/// Loading what was loaded changes nothing.
pub proof fn loading_twice_is_loading_once(portfolio: Portfolio, bankroll: Dec)
    requires
        normalized(portfolio, bankroll) is Ok,
    ensures
        normalized(normalized(portfolio, bankroll)->Ok_0, bankroll) == normalized(
            portfolio,
            bankroll,
        ),
{
}

/// What loads has a positive loss in every open position, and cannot lose more
/// than its bankroll.
pub proof fn loaded_portfolios_can_pay(portfolio: Portfolio, bankroll: Dec)
    requires
        normalized(portfolio, bankroll) is Ok,
    ensures
        !normalized(portfolio, bankroll)->Ok_0.bankroll.lt(
            normalized(portfolio, bankroll)->Ok_0.open_exposure,
        ),
        exposure(normalized(portfolio, bankroll)->Ok_0.open_positions) == Some(
            normalized(portfolio, bankroll)->Ok_0.open_exposure,
        ),
        !holds_nonpositive(normalized(portfolio, bankroll)->Ok_0.open_positions),
{
}

/// A hexadecimal digit.
pub open spec fn hex_char(d: int) -> char {
    if d < 10 {
        (48 + d) as char
    } else {
        (87 + d) as char
    }
}

/// The digits of an identifier from place `from` up to `to`, of 32 in all.
pub open spec fn hex_range(id: int, from: int, to: int) -> Seq<char> {
    Seq::new((to - from) as nat, |i: int| hex_char((id / pow(16, (31 - from - i) as nat)) % 16))
}

/// An identifier as it is written: groups of eight, four, four, four and twelve
/// hexadecimal digits.
pub open spec fn hyphenated(id: int) -> Seq<char> {
    hex_range(id, 0, 8) + "-"@ + hex_range(id, 8, 12) + "-"@ + hex_range(id, 12, 16) + "-"@
        + hex_range(id, 16, 20) + "-"@ + hex_range(id, 20, 32)
}

/// `uuid::Uuid::from_u128` and its `Display`. Claimed: the identifier in lower
/// case hexadecimal, all 32 digits, in groups of eight, four, four, four and
/// twelve with hyphens between.
#[verifier::external_body]
pub(crate) fn uuid_text(id: u128) -> (result: String)
    ensures
        result@ == hyphenated(id as int),
{
    uuid::Uuid::from_u128(id).to_string()
}

/// The number of the day, in UTC, of the instant so many seconds after the
/// epoch.
pub open spec fn utc_day(seconds: int) -> int {
    seconds / 86_400 + EPOCH_DAY
}

/// The calendar date, as year, month and day, of the instant so many seconds
/// after the epoch, in UTC; nothing where the calendar does not reach it.
pub open spec fn utc_date(seconds: int) -> Option<(int, int, int)> {
    if in_calendar(utc_day(seconds)) {
        Some(date_of(utc_day(seconds)))
    } else {
        None
    }
}

/// `chrono::DateTime::from_timestamp` with `year`, `month` and `day`: the UTC
/// calendar date of the instant so many seconds after the epoch, or `None`
/// where the calendar does not cover that day.
#[verifier::external_body]
fn chrono_utc_date(seconds: i64) -> (result: Option<(i32, u32, u32)>)
    ensures
        match result {
            Some((year, month, day)) => in_calendar(utc_day(seconds as int)) && day_number(
                year as int,
                month as int,
                day as int,
            ) == Some(utc_day(seconds as int)),
            None => !in_calendar(utc_day(seconds as int)),
        },
{
    chrono::DateTime::from_timestamp(seconds, 0).map(|t| (t.year(), t.month(), t.day()))
}

/// The directory of the scans of one day.
pub open spec fn partition(year: int, month: int, day: int) -> Seq<char> {
    "scans/year="@ + int_text(year) + "/month="@ + zero_padded(digits(month as nat), 2)
        + "/day="@ + zero_padded(digits(day as nat), 2)
}

/// The directory of the scans of one day.
pub fn scan_partition(year: i32, month: u32, day: u32) -> (result: String)
    ensures
        result@ == partition(year as int, month as int, day as int),
{
    let year_text: String = integer(year as i128);
    let month_text: String = pad_zeros(natural(month as u128).as_str(), 2);
    let day_text: String = pad_zeros(natural(day as u128).as_str(), 2);
    let front: String = concat5(
        "scans/year=",
        year_text.as_str(),
        "/month=",
        month_text.as_str(),
        "/day=",
    );
    let result: String = concat2(front.as_str(), day_text.as_str());
    assert(result@ =~= partition(year as int, month as int, day as int));
    result
}

/// Where the records of a scan start, without their endings; nothing where the
/// calendar does not reach its start.
pub open spec fn scan_stem(scan_id: int, started_at: int) -> Option<Seq<char>> {
    match utc_date(started_at / (NANOS_PER_SECOND as int)) {
        Some((year, month, day)) => Some(partition(year, month, day) + "/"@ + hyphenated(scan_id)),
        None => None,
    }
}

/// The four records that a scan is kept as.
#[derive(Debug)]
pub struct ScanPaths {
    pub snapshot: String,
    pub quotes: String,
    pub markets: String,
    pub books: String,
}

impl ScanPaths {
    /// The records stand side by side and differ in their endings.
    pub open spec fn of_stem(&self, stem: Seq<char>) -> bool {
        &&& self.snapshot@ == stem + ".json"@
        &&& self.quotes@ == stem + "-quotes.json"@
        &&& self.markets@ == stem + "-markets.json"@
        &&& self.books@ == stem + "-books.json"@
    }
}

/// The records of a scan at a place.
pub fn paths_of_stem(stem: &str) -> (result: ScanPaths)
    ensures
        result.of_stem(stem@),
{
    ScanPaths {
        snapshot: concat2(stem, ".json"),
        quotes: concat2(stem, "-quotes.json"),
        markets: concat2(stem, "-markets.json"),
        books: concat2(stem, "-books.json"),
    }
}

/// Where a scan is kept, by the day on which it started; `None` where the
/// calendar does not reach that day.
pub fn scan_paths(scan_id: u128, started_at: Timestamp) -> (result: Option<ScanPaths>)
    ensures
        match result {
            Some(paths) => scan_stem(scan_id as int, started_at@) is Some && paths.of_stem(
                scan_stem(scan_id as int, started_at@)->0,
            ),
            None => scan_stem(scan_id as int, started_at@) is None,
        },
{
    match chrono_utc_date(started_at.seconds()) {
        Some((year, month, day)) => {
            proof {
                every_day_has_one_date(
                    (year as int, month as int, day as int),
                    date_of(utc_day(started_at@ / (NANOS_PER_SECOND as int))),
                );
            }
            let directory: String = scan_partition(year, month, day);
            let id: String = uuid_text(scan_id);
            let stem: String = concat3(directory.as_str(), "/", id.as_str());
            Some(paths_of_stem(stem.as_str()))
        },
        None => None,
    }
}

/// The key under which the cloud store files what belongs to an opportunity.
pub fn opportunity_key(opportunity_id: u128) -> (result: String)
    ensures
        result@ == "OPPORTUNITY#"@ + hyphenated(opportunity_id as int),
{
    let id: String = uuid_text(opportunity_id);
    concat2("OPPORTUNITY#", id.as_str())
}

/// Whether a scan's file was last written before the time that scans are kept.
pub fn is_expired(modified: Timestamp, now: Timestamp, retention_seconds: u64) -> (result: bool)
    ensures
        result == (modified@ < now@ - retention_seconds * 1_000_000_000),
{
    modified.nanos() < now.nanos() - retention_seconds as i128 * 1_000_000_000
}

/// The file that holds the news of an opportunity.
pub fn news_file(opportunity_id: u128) -> (result: String)
    ensures
        result@ == hyphenated(opportunity_id as int) + ".json"@,
{
    let id: String = uuid_text(opportunity_id);
    concat2(id.as_str(), ".json")
}

} // verus!
