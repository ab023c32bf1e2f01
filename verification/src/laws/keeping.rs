//! What the settings say, and what is kept between runs.

use vstd::prelude::*;

use crate::audit::{compared, difference_list, frame_audited, id_at, window, Comparison, Tally};
use crate::config::{default_policy, loaded, objection, policy_from, Policy};
use crate::dashboard::researched;
use crate::decimal::{
    dec, decimal_text, lemma_pow10_values, lemma_value_of, lemma_value_sign, one, pow10, sum, total,
    unit, zero, Dec,
};
use crate::domain::{effective_class, Evidence, Portfolio, Position, Row};
use crate::error::Failure;
use crate::laws::settling::lemma_one;
use crate::replay::Moment;
use crate::scanner::{evaluable, judged};
use crate::seqs::group_seqs;
use crate::storage::{lease_end, normalized};
use crate::text::number_in;

verus! {

broadcast use group_seqs;

/// A setting with a decimal variable is what its own variable says, and the
/// default where that is not set; one that cannot be read stops everything.
pub proof fn decimal_settings_have_their_own_variables(vars: Map<Seq<char>, Seq<char>>)
    ensures
        !vars.contains_key("MINIMUM_RAW_EDGE"@) ==> policy_from(vars).minimum_raw_edge == default_policy().minimum_raw_edge,
        vars.contains_key("MINIMUM_RAW_EDGE"@) ==> (decimal_text(vars["MINIMUM_RAW_EDGE"@]) matches Ok((m, s)) ==> policy_from(
            vars,
        ).minimum_raw_edge == dec(m, s)),
        vars.contains_key("MINIMUM_RAW_EDGE"@) && decimal_text(vars["MINIMUM_RAW_EDGE"@]) is Err ==> loaded(vars) is Err,
        !vars.contains_key("MINIMUM_NET_EDGE"@) ==> policy_from(vars).minimum_net_edge == default_policy().minimum_net_edge,
        vars.contains_key("MINIMUM_NET_EDGE"@) ==> (decimal_text(vars["MINIMUM_NET_EDGE"@]) matches Ok((m, s)) ==> policy_from(
            vars,
        ).minimum_net_edge == dec(m, s)),
        vars.contains_key("MINIMUM_NET_EDGE"@) && decimal_text(vars["MINIMUM_NET_EDGE"@]) is Err ==> loaded(vars) is Err,
        !vars.contains_key("MINIMUM_PRICE"@) ==> policy_from(vars).minimum_price == default_policy().minimum_price,
        vars.contains_key("MINIMUM_PRICE"@) ==> (decimal_text(vars["MINIMUM_PRICE"@]) matches Ok((m, s)) ==> policy_from(
            vars,
        ).minimum_price == dec(m, s)),
        vars.contains_key("MINIMUM_PRICE"@) && decimal_text(vars["MINIMUM_PRICE"@]) is Err ==> loaded(vars) is Err,
        !vars.contains_key("MAXIMUM_PRICE"@) ==> policy_from(vars).maximum_price == default_policy().maximum_price,
        vars.contains_key("MAXIMUM_PRICE"@) ==> (decimal_text(vars["MAXIMUM_PRICE"@]) matches Ok((m, s)) ==> policy_from(
            vars,
        ).maximum_price == dec(m, s)),
        vars.contains_key("MAXIMUM_PRICE"@) && decimal_text(vars["MAXIMUM_PRICE"@]) is Err ==> loaded(vars) is Err,
        !vars.contains_key("PAPER_BANKROLL"@) ==> policy_from(vars).bankroll == default_policy().bankroll,
        vars.contains_key("PAPER_BANKROLL"@) ==> (decimal_text(vars["PAPER_BANKROLL"@]) matches Ok((m, s)) ==> policy_from(
            vars,
        ).bankroll == dec(m, s)),
        vars.contains_key("PAPER_BANKROLL"@) && decimal_text(vars["PAPER_BANKROLL"@]) is Err ==> loaded(vars) is Err,
        !vars.contains_key("MINIMUM_POSITION_FRACTION"@) ==> policy_from(vars).minimum_position_fraction == default_policy().minimum_position_fraction,
        vars.contains_key("MINIMUM_POSITION_FRACTION"@) ==> (decimal_text(vars["MINIMUM_POSITION_FRACTION"@]) matches Ok((m, s)) ==> policy_from(
            vars,
        ).minimum_position_fraction == dec(m, s)),
        vars.contains_key("MINIMUM_POSITION_FRACTION"@) && decimal_text(vars["MINIMUM_POSITION_FRACTION"@]) is Err ==> loaded(vars) is Err,
        !vars.contains_key("MAXIMUM_POSITION_FRACTION"@) ==> policy_from(vars).maximum_position_fraction == default_policy().maximum_position_fraction,
        vars.contains_key("MAXIMUM_POSITION_FRACTION"@) ==> (decimal_text(vars["MAXIMUM_POSITION_FRACTION"@]) matches Ok((m, s)) ==> policy_from(
            vars,
        ).maximum_position_fraction == dec(m, s)),
        vars.contains_key("MAXIMUM_POSITION_FRACTION"@) && decimal_text(vars["MAXIMUM_POSITION_FRACTION"@]) is Err ==> loaded(vars) is Err,
        !vars.contains_key("MAXIMUM_TOTAL_EXPOSURE"@) ==> policy_from(vars).maximum_total_exposure == default_policy().maximum_total_exposure,
        vars.contains_key("MAXIMUM_TOTAL_EXPOSURE"@) ==> (decimal_text(vars["MAXIMUM_TOTAL_EXPOSURE"@]) matches Ok((m, s)) ==> policy_from(
            vars,
        ).maximum_total_exposure == dec(m, s)),
        vars.contains_key("MAXIMUM_TOTAL_EXPOSURE"@) && decimal_text(vars["MAXIMUM_TOTAL_EXPOSURE"@]) is Err ==> loaded(vars) is Err,
        !vars.contains_key("MAXIMUM_EVENT_EXPOSURE"@) ==> policy_from(vars).maximum_event_exposure == default_policy().maximum_event_exposure,
        vars.contains_key("MAXIMUM_EVENT_EXPOSURE"@) ==> (decimal_text(vars["MAXIMUM_EVENT_EXPOSURE"@]) matches Ok((m, s)) ==> policy_from(
            vars,
        ).maximum_event_exposure == dec(m, s)),
        vars.contains_key("MAXIMUM_EVENT_EXPOSURE"@) && decimal_text(vars["MAXIMUM_EVENT_EXPOSURE"@]) is Err ==> loaded(vars) is Err,
        !vars.contains_key("KELLY_FRACTION"@) ==> policy_from(vars).kelly_fraction == default_policy().kelly_fraction,
        vars.contains_key("KELLY_FRACTION"@) ==> (decimal_text(vars["KELLY_FRACTION"@]) matches Ok((m, s)) ==> policy_from(
            vars,
        ).kelly_fraction == dec(m, s)),
        vars.contains_key("KELLY_FRACTION"@) && decimal_text(vars["KELLY_FRACTION"@]) is Err ==> loaded(vars) is Err,
        !vars.contains_key("CONSENSUS_BIAS"@) ==> policy_from(vars).consensus_bias == default_policy().consensus_bias,
        vars.contains_key("CONSENSUS_BIAS"@) ==> (decimal_text(vars["CONSENSUS_BIAS"@]) matches Ok((m, s)) ==> policy_from(
            vars,
        ).consensus_bias == dec(m, s)),
        vars.contains_key("CONSENSUS_BIAS"@) && decimal_text(vars["CONSENSUS_BIAS"@]) is Err ==> loaded(vars) is Err,
        !vars.contains_key("MAKER_REBATE_COEFFICIENT"@) ==> policy_from(vars).maker_rebate_coefficient == default_policy().maker_rebate_coefficient,
        vars.contains_key("MAKER_REBATE_COEFFICIENT"@) ==> (decimal_text(vars["MAKER_REBATE_COEFFICIENT"@]) matches Ok((m, s)) ==> policy_from(
            vars,
        ).maker_rebate_coefficient == dec(m, s)),
        vars.contains_key("MAKER_REBATE_COEFFICIENT"@) && decimal_text(vars["MAKER_REBATE_COEFFICIENT"@]) is Err ==> loaded(vars) is Err,
{
}

/// A setting with a whole number is what its own variable says, and the default
/// where that is not set.
pub proof fn whole_settings_have_their_own_variables(vars: Map<Seq<char>, Seq<char>>)
    ensures
        !vars.contains_key("SOURCE_CONCURRENCY"@) ==> policy_from(vars).source_concurrency == default_policy().source_concurrency,
        vars.contains_key("SOURCE_CONCURRENCY"@) ==> (number_in(vars["SOURCE_CONCURRENCY"@]) matches Some(n) ==> (0 <= n <= usize::MAX
            ==> policy_from(vars).source_concurrency == n)),
        !vars.contains_key("POLYMARKET_CONCURRENCY"@) ==> policy_from(vars).book_concurrency == default_policy().book_concurrency,
        vars.contains_key("POLYMARKET_CONCURRENCY"@) ==> (number_in(vars["POLYMARKET_CONCURRENCY"@]) matches Some(n) ==> (0 <= n <= usize::MAX
            ==> policy_from(vars).book_concurrency == n)),
        !vars.contains_key("DISCOVERY_REFRESH_SECONDS"@) ==> policy_from(vars).discovery_refresh == default_policy().discovery_refresh,
        vars.contains_key("DISCOVERY_REFRESH_SECONDS"@) ==> (number_in(vars["DISCOVERY_REFRESH_SECONDS"@]) matches Some(n) ==> (0 <= n <= u64::MAX
            ==> policy_from(vars).discovery_refresh == n)),
        !vars.contains_key("LOCAL_RETENTION_DAYS"@) ==> policy_from(vars).retention_days == default_policy().retention_days,
        vars.contains_key("LOCAL_RETENTION_DAYS"@) ==> (number_in(vars["LOCAL_RETENTION_DAYS"@]) matches Some(n) ==> (0 <= n <= u32::MAX
            ==> policy_from(vars).retention_days == n)),
        !vars.contains_key("MINIMUM_CONFIGURED_SOURCES"@) ==> policy_from(vars).minimum_configured_sources == default_policy().minimum_configured_sources,
        vars.contains_key("MINIMUM_CONFIGURED_SOURCES"@) ==> (number_in(vars["MINIMUM_CONFIGURED_SOURCES"@]) matches Some(n) ==> (0 <= n <= usize::MAX
            ==> policy_from(vars).minimum_configured_sources == n)),
        !vars.contains_key("SCAN_INTERVAL_SECONDS"@) ==> policy_from(vars).scan_interval == default_policy().scan_interval,
        vars.contains_key("SCAN_INTERVAL_SECONDS"@) ==> (number_in(vars["SCAN_INTERVAL_SECONDS"@]) matches Some(n) ==> (0 <= n <= u64::MAX
            ==> policy_from(vars).scan_interval == n)),
        !vars.contains_key("SCAN_LEASE_TTL_SECONDS"@) ==> policy_from(vars).scan_lease_ttl == default_policy().scan_lease_ttl,
        vars.contains_key("SCAN_LEASE_TTL_SECONDS"@) ==> (number_in(vars["SCAN_LEASE_TTL_SECONDS"@]) matches Some(n) ==> (0 <= n <= u64::MAX
            ==> policy_from(vars).scan_lease_ttl == n)),
        !vars.contains_key("MINIMUM_SOURCE_FAMILIES"@) ==> policy_from(vars).minimum_source_families == default_policy().minimum_source_families,
        vars.contains_key("MINIMUM_SOURCE_FAMILIES"@) ==> (number_in(vars["MINIMUM_SOURCE_FAMILIES"@]) matches Some(n) ==> (0 <= n <= usize::MAX
            ==> policy_from(vars).minimum_source_families == n)),
        !vars.contains_key("WATCHLIST_SOURCE_FAMILIES"@) ==> policy_from(vars).watchlist_source_families == default_policy().watchlist_source_families,
        vars.contains_key("WATCHLIST_SOURCE_FAMILIES"@) ==> (number_in(vars["WATCHLIST_SOURCE_FAMILIES"@]) matches Some(n) ==> (0 <= n <= usize::MAX
            ==> policy_from(vars).watchlist_source_families == n)),
        !vars.contains_key("MAX_QUOTE_AGE_SECONDS"@) ==> policy_from(vars).max_quote_age == default_policy().max_quote_age,
        vars.contains_key("MAX_QUOTE_AGE_SECONDS"@) ==> (number_in(vars["MAX_QUOTE_AGE_SECONDS"@]) matches Some(n) ==> (0 <= n <= u64::MAX
            ==> policy_from(vars).max_quote_age == n)),
        !vars.contains_key("CONFIRMATION_MAX_AGE_SECONDS"@) ==> policy_from(vars).confirmation_max_age == default_policy().confirmation_max_age,
        vars.contains_key("CONFIRMATION_MAX_AGE_SECONDS"@) ==> (number_in(vars["CONFIRMATION_MAX_AGE_SECONDS"@]) matches Some(n) ==> (0 <= n <= u64::MAX
            ==> policy_from(vars).confirmation_max_age == n)),
        !vars.contains_key("BOOK_MAX_AGE_SECONDS"@) ==> policy_from(vars).book_max_age == default_policy().book_max_age,
        vars.contains_key("BOOK_MAX_AGE_SECONDS"@) ==> (number_in(vars["BOOK_MAX_AGE_SECONDS"@]) matches Some(n) ==> (0 <= n <= u64::MAX
            ==> policy_from(vars).book_max_age == n)),
        !vars.contains_key("POLYMARKET_REQUESTS_PER_SECOND"@) ==> policy_from(vars).polymarket_requests_per_second == default_policy().polymarket_requests_per_second,
        vars.contains_key("POLYMARKET_REQUESTS_PER_SECOND"@) ==> (number_in(vars["POLYMARKET_REQUESTS_PER_SECOND"@]) matches Some(n) ==> (0 <= n <= u32::MAX
            ==> policy_from(vars).polymarket_requests_per_second == n)),
        !vars.contains_key("SETTLEMENT_POLL_SECONDS"@) ==> policy_from(vars).settlement_poll == default_policy().settlement_poll,
        vars.contains_key("SETTLEMENT_POLL_SECONDS"@) ==> (number_in(vars["SETTLEMENT_POLL_SECONDS"@]) matches Some(n) ==> (0 <= n <= u64::MAX
            ==> policy_from(vars).settlement_poll == n)),
{
}

/// A span is read in its own unit: minutes of lead, hours of an exchange's.
pub proof fn spans_are_read_in_their_unit(vars: Map<Seq<char>, Seq<char>>)
    ensures
        !vars.contains_key("MINIMUM_LEAD_MINUTES"@) ==> policy_from(vars).minimum_lead == default_policy().minimum_lead,
        vars.contains_key("MINIMUM_LEAD_MINUTES"@) ==> (number_in(vars["MINIMUM_LEAD_MINUTES"@]) matches Some(n) ==> (0 <= n && n * 60
            <= u64::MAX ==> policy_from(vars).minimum_lead == n * 60)),
        !vars.contains_key("EXCHANGE_MAX_LEAD_HOURS"@) ==> policy_from(vars).exchange_max_lead == default_policy().exchange_max_lead,
        vars.contains_key("EXCHANGE_MAX_LEAD_HOURS"@) ==> (number_in(vars["EXCHANGE_MAX_LEAD_HOURS"@]) matches Some(n) ==> (0 <= n && n * 3600
            <= u64::MAX ==> policy_from(vars).exchange_max_lead == n * 3600)),
{
}

/// The settings that are used obey every bound: none is used that the checks
/// object to, and a variable that cannot be read is never passed over.
pub proof fn used_settings_were_checked(vars: Map<Seq<char>, Seq<char>>)
    ensures
        loaded(vars) matches Ok(p) ==> p == policy_from(vars) && objection(p) is None,
{
}

/// The policy without any variable: prices from 35 to 65 cents, five points of
/// raw and three of net edge, two of bias, five families with a reference and
/// three to watch, a quarter of Kelly between one and five hundredths of a
/// hundred dollars, and at most five dollars in all and two and a half for an
/// event.
pub proof fn the_default_policy_is_cautious()
    ensures
        ({
            let p = default_policy();
            &&& 100 * p.minimum_price.value() == 35 * unit()
            &&& 100 * p.maximum_price.value() == 65 * unit()
            &&& 100 * p.minimum_raw_edge.value() == 5 * unit()
            &&& 100 * p.minimum_net_edge.value() == 3 * unit()
            &&& 100 * p.consensus_bias.value() == 2 * unit()
            &&& 100 * p.kelly_fraction.value() == 25 * unit()
            &&& 100 * p.minimum_position_fraction.value() == unit()
            &&& 100 * p.maximum_position_fraction.value() == 5 * unit()
            &&& p.bankroll.value() == 100 * unit()
            &&& p.maximum_total_exposure.value() == 5 * unit()
            &&& 10 * p.maximum_event_exposure.value() == 25 * unit()
            &&& p.minimum_source_families == 5
            &&& p.watchlist_source_families == 3
            &&& p.require_reference_book
            &&& p.minimum_lead == 15 * 60
            &&& p.exchange_max_lead == 4 * 3600
            &&& p.confirmation_max_age == 90
            &&& p.scan_interval == 300
            &&& p.settlement_poll == 600
            &&& p.polymarket_requests_per_second == 18
            &&& p.retention_days == 14
        }),
{
    lemma_one();
    lemma_pow10_values();
    let (c, d) = (pow10(26), pow10(27));
    lemma_value_of(35, 2, c);
    lemma_value_of(65, 2, c);
    lemma_value_of(5, 2, c);
    lemma_value_of(3, 2, c);
    lemma_value_of(2, 2, c);
    lemma_value_of(25, 2, c);
    lemma_value_of(1, 2, c);
    lemma_value_of(25, 1, d);
    lemma_value_of(100, 0, unit());
    lemma_value_of(5, 0, unit());
}

/// Settings are accepted exactly inside these bounds.
pub proof fn settings_are_accepted_inside_their_bounds(p: Policy)
    ensures
        objection(p) is None <==> {
            &&& p.scan_interval != 0 && p.scan_lease_ttl > p.scan_interval
            &&& p.request_timeout != 0 && p.book_concurrency != 0 && p.source_concurrency != 0
            &&& 1 <= p.watchlist_source_families <= p.minimum_source_families
            &&& p.watchlist_source_families <= p.minimum_configured_sources
            &&& 0 < p.minimum_price.value() <= p.maximum_price.value()
            &&& p.maximum_price.value() < unit()
            &&& 0 < p.bankroll.value()
            &&& unit() <= 100 * p.maximum_position_fraction.value() <= 5 * unit()
            &&& 0 <= p.minimum_position_fraction.value()
            &&& p.minimum_position_fraction.value() <= p.maximum_position_fraction.value()
            &&& 0 < p.maximum_total_exposure.value() <= 5 * unit()
            &&& p.maximum_total_exposure.value() <= p.bankroll.value()
            &&& 0 < p.maximum_event_exposure.value() <= p.maximum_total_exposure.value()
            &&& 0 < p.kelly_fraction.value() <= unit()
            &&& 0 <= p.consensus_bias.value() && 2 * p.consensus_bias.value() < unit()
            &&& 0 <= p.maker_rebate_coefficient.value()
            &&& p.max_quote_age != 0 && p.confirmation_max_age != 0 && p.book_max_age != 0
            &&& p.confirmation_max_age <= p.max_quote_age
            &&& p.polymarket_requests_per_second != 0 && p.settlement_poll != 0
        },
{
    lemma_one();
    lemma_value_sign(zero());
    lemma_pow10_values();
    lemma_value_of(1, 2, pow10(26));
    lemma_value_of(5, 2, pow10(26));
    lemma_value_of(5, 0, unit());
    lemma_value_of(5, 1, pow10(27));
}

/// A stored paper book is taken up with its own positions; its realized profit
/// is the sum of what the closed ones earned, its bankroll the configured one
/// and that, its exposure the sum of what the open ones can lose, never above
/// the bankroll.
pub proof fn a_stored_book_is_added_up_anew(portfolio: Portfolio, bankroll: Dec)
    ensures
        normalized(portfolio, bankroll) matches Ok(after) ==> {
            &&& after.open_positions == portfolio.open_positions
            &&& after.closed_positions == portfolio.closed_positions
            &&& total(
                portfolio.closed_positions.map_values(
                    |p: Position|
                        match p.realized_pnl {
                            Some(pnl) => pnl,
                            None => zero(),
                        },
                ),
            ) == Some(after.realized_pnl)
            &&& sum(bankroll, after.realized_pnl) == Some(after.bankroll)
            &&& total(
                portfolio.open_positions.map_values(|p: Position| p.maximum_loss),
            ) == Some(after.open_exposure)
            &&& after.open_exposure.value() <= after.bankroll.value()
            &&& 0 < bankroll.value()
            &&& forall|i: int|
                0 <= i < portfolio.open_positions.len() ==> 0 < (
                #[trigger] portfolio.open_positions[i]).maximum_loss.value()
        },
{
    lemma_value_sign(zero());
    if let Ok(after) = normalized(portfolio, bankroll) {
        assert forall|i: int| 0 <= i < portfolio.open_positions.len() implies 0 < (
        #[trigger] portfolio.open_positions[i]).maximum_loss.value() by {
            assert(!portfolio.open_positions[i].maximum_loss.le(zero()));
        }
    }
}

/// A lease runs for as long as it was taken for.
pub proof fn a_lease_runs_its_time(now: int, ttl: int)
    requires
        0 <= ttl,
    ensures
        lease_end(now, ttl) matches Ok(end) ==> end == now + ttl * 1_000_000_000,
{
}

/// Two rows differ exactly where their classes, their reasons, or the values of
/// one of the numbers that are compared do.
pub proof fn differences_are_what_differs(stored: Row, recomputed: Row)
    ensures
        difference_list(stored, recomputed).len() == 0 <==> {
            &&& stored.class == recomputed.class
            &&& stored.reasons == recomputed.reasons
            &&& stored.fair_probability.value() == recomputed.fair_probability.value()
            &&& stored.executable_price.value() == recomputed.executable_price.value()
            &&& stored.net_edge.value() == recomputed.net_edge.value()
            &&& stored.quantity.value() == recomputed.quantity.value()
            &&& stored.maximum_loss.value() == recomputed.maximum_loss.value()
        },
{
}

/// A recomputed row is held against the stored one with its identifier, which is
/// then used up: it matches where nothing differs, and is counted as new where
/// none is stored.
pub proof fn rows_are_compared_by_identifier(c: Comparison, scan_id: int, row: Row)
    requires
        0 <= c.tally.rows_matched < usize::MAX,
        0 <= c.tally.rows_only_recomputed < usize::MAX,
    ensures
        ({
            let after = compared(c, scan_id, row);
            match id_at(c.left, row.id, 0) {
                None => after.left == c.left && after.tally.rows_only_recomputed
                    == c.tally.rows_only_recomputed + 1 && after.tally.rows_matched
                    == c.tally.rows_matched && after.tally.mismatches == c.tally.mismatches,
                Some(i) => after.left == c.left.remove(i) && (difference_list(
                    c.left[i],
                    row,
                ).len() == 0 ==> after.tally.rows_matched == c.tally.rows_matched + 1
                    && after.tally.mismatches == c.tally.mismatches),
            }
        }),
{
}

/// An audit decides a frame again under its own archived gates, on its own
/// books, quotes and paper book, at its own time; frames that were not live or
/// lack these are skipped.
pub proof fn audits_use_the_archived_gates(t: Tally, frame: Moment)
    requires
        0 <= t.frames_skipped < usize::MAX,
        0 <= t.frames_audited < usize::MAX,
    ensures
        frame.origin != "live"@ || frame.books.len() == 0 || frame.settings is None ==> (
        frame_audited(t, frame) matches Some(after) && after.frames_skipped == t.frames_skipped + 1
            && after.mismatches == t.mismatches && after.rows_matched == t.rows_matched),
        frame.origin == "live"@ && frame.books.len() > 0 ==> (frame.settings matches Some(p) ==> (
        frame_audited(t, frame) matches Some(after) ==> (judged(
            p,
            evaluable(frame.markets, frame.quotes, p, frame.evaluated_at),
            frame.books,
            frame.portfolio,
            frame.evaluated_at,
        ) matches Some(rows) && after.frames_audited == t.frames_audited + 1 && (t.rows_recomputed
            + rows.len() <= usize::MAX ==> after.rows_recomputed == t.rows_recomputed + rows.len())
            && (t.rows_stored + frame.opportunities.len() <= usize::MAX ==> after.rows_stored
            == t.rows_stored + frame.opportunities.len())))),
{
    if frame.origin == "live"@ && frame.books.len() > 0 && frame.settings is Some {
        let p = frame.settings->0;
        if let Some(rows) = judged(
            p,
            evaluable(frame.markets, frame.quotes, p, frame.evaluated_at),
            frame.books,
            frame.portfolio,
            frame.evaluated_at,
        ) {
            let start = Comparison {
                tally: Tally {
                    frames: crate::textmap::bumped(t.frames),
                    frames_audited: crate::textmap::bumped(t.frames_audited),
                    rows_stored: crate::textmap::raised(
                        t.rows_stored,
                        frame.opportunities.len() as int,
                    ),
                    rows_recomputed: crate::textmap::raised(t.rows_recomputed, rows.len() as int),
                    ..t
                },
                left: crate::audit::rows_by_id(frame.opportunities),
            };
            lemma_comparing_keeps_counts(start, frame.scan_id, rows);
        }
    }
}

proof fn lemma_comparing_keeps_counts(c: Comparison, scan_id: int, rows: Seq<Row>)
    ensures
        ({
            let after = crate::audit::all_compared(c, scan_id, rows).tally;
            after.frames_audited == c.tally.frames_audited && after.rows_recomputed
                == c.tally.rows_recomputed && after.rows_stored == c.tally.rows_stored
        }),
    decreases rows.len(),
{
    if rows.len() > 0 {
        lemma_comparing_keeps_counts(c, scan_id, rows.drop_last());
        let before = crate::audit::all_compared(c, scan_id, rows.drop_last());
        if let Some(i) = id_at(before.left, rows.last().id, 0) {
            lemma_counting_keeps_counts(
                before.tally,
                scan_id,
                rows.last(),
                difference_list(before.left[i], rows.last()),
            );
        }
    }
}

proof fn lemma_counting_keeps_counts(
    t: Tally,
    scan_id: int,
    row: Row,
    list: Seq<crate::audit::Difference>,
)
    ensures
        ({
            let after = crate::audit::differences_counted(t, scan_id, row, list);
            after.frames_audited == t.frames_audited && after.rows_recomputed == t.rows_recomputed
                && after.rows_stored == t.rows_stored
        }),
    decreases list.len(),
{
    if list.len() > 0 {
        lemma_counting_keeps_counts(t, scan_id, row, list.drop_last());
    }
}

/// A window ends where it was asked to, or now, and never later; it starts where
/// it was asked to, or thirty days before its end, and before it.
pub proof fn windows_start_before_they_end(
    from: Option<Seq<char>>,
    through: Option<Seq<char>>,
    now: int,
)
    ensures
        window(from, through, now) matches Ok((start, end)) ==> {
            &&& start < end <= now
            &&& through is None ==> end == now
            &&& through matches Some(text) ==> crate::audit::instant_in(text) == Ok::<int, Failure>(
                end,
            )
            &&& from is None ==> start == end - 30 * 86_400_000_000_000
            &&& from matches Some(text) ==> crate::audit::instant_in(text) == Ok::<int, Failure>(
                start,
            )
        },
{
}

/// Each opportunity is shown with what was found for it, and in the class that
/// this leaves it; what is found for a rejected one is not shown.
pub proof fn opportunities_are_shown_with_their_news(
    rows: Seq<Row>,
    found: Seq<Option<Evidence>>,
    now: int,
    i: int,
)
    requires
        0 <= i < rows.len(),
    ensures
        ({
            let shown = researched(rows, found, now)[i];
            let news = if rows[i].class is Rejected || i >= found.len() {
                None
            } else {
                found[i]
            };
            &&& researched(rows, found, now).len() == rows.len()
            &&& shown.opportunity == rows[i]
            &&& shown.news == news
            &&& shown.effective_class == effective_class(rows[i].class, news, now)
        }),
{
}

} // verus!
