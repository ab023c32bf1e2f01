//! The gates and limits that a scan runs under, read from named variables.

use vstd::prelude::*;

use crate::decimal::{
    dec, decimal_text, lemma_pow10_values, lemma_value_of, lemma_value_sign, one, parse_decimal,
    pow10, zero, Dec, Decimal,
};
use crate::error::{config, Error, Failure};
use crate::text::{
    all_digits, ascii_lowered, blank, concat2, concat3, copy_text, digits_value, is_blank, lower,
    number_in, owned, same, text_of, trim, trimmed,
};
use crate::textmap::TextMap;

verus! {

/// Where state lives and which event-driven services run.
#[derive(Debug, Clone, Copy, PartialEq, Eq, Structural)]
pub enum RunMode {
    /// Single host: file-backed store, in-process news loop and terminal UI.
    Local,
    /// AWS: S3/DynamoDB/SQS store and the Lambda news worker; the terminal UI
    /// attaches from the operator's machine.
    Cloud,
}

/// What a text says about the run mode, or the complaint about it.
pub open spec fn mode_of(text: Seq<char>) -> Result<RunMode, Seq<char>> {
    let word = ascii_lowered(trimmed(text));
    if word == "local"@ {
        Ok(RunMode::Local)
    } else if word == "cloud"@ || word == "aws"@ {
        Ok(RunMode::Cloud)
    } else {
        Err("expected local or cloud, got "@ + word)
    }
}

impl RunMode {
    /// Reads a run mode, whatever the case and the white space around it.
    pub fn parse(text: &str) -> (result: Result<RunMode, String>)
        ensures
            match result {
                Ok(mode) => mode_of(text@) == Ok::<RunMode, Seq<char>>(mode),
                Err(message) => mode_of(text@) == Err::<RunMode, Seq<char>>(message@),
            },
    {
        let bare = trim(text);
        let word = lower(bare.as_str());
        if same(word.as_str(), "local") {
            Ok(RunMode::Local)
        } else if same(word.as_str(), "cloud") || same(word.as_str(), "aws") {
            Ok(RunMode::Cloud)
        } else {
            Err(concat2("expected local or cloud, got ", word.as_str()))
        }
    }
}

/// The gates and limits in force. Spans of time are whole seconds.
#[derive(Debug)]
pub struct Settings {
    pub run_mode: RunMode,
    pub polymarket_base_url: String,
    /// Seconds between scans.
    pub scan_interval: u64,
    /// Seconds for which a scan holds its lease.
    pub scan_lease_ttl: u64,
    /// Seconds before a request is given up.
    pub request_timeout: u64,
    pub source_concurrency: usize,
    /// Parallel book requests.
    pub book_concurrency: usize,
    /// Seconds for which a market-discovery result is reused. Events change
    /// slowly; books are fetched again every scan.
    pub discovery_refresh: u64,
    /// Local store: delete scan snapshots older than this many days.
    pub retention_days: u32,
    pub minimum_configured_sources: usize,
    pub minimum_source_families: usize,
    pub watchlist_source_families: usize,
    /// Seconds for which an observed quote counts.
    pub max_quote_age: u64,
    /// Seconds for which a quote that was fetched again counts.
    pub confirmation_max_age: u64,
    /// Seconds for which a book counts.
    pub book_max_age: u64,
    pub minimum_raw_edge: Decimal,
    pub minimum_net_edge: Decimal,
    pub minimum_price: Decimal,
    pub maximum_price: Decimal,
    pub bankroll: Decimal,
    /// A side whose Kelly size or depth-limited maximum loss is below this
    /// fraction of bankroll is rejected as too small to matter. Zero disables
    /// the floor.
    pub minimum_position_fraction: Decimal,
    pub maximum_position_fraction: Decimal,
    pub maximum_total_exposure: Decimal,
    /// Cap on paper exposure across every market of one event.
    pub maximum_event_exposure: Decimal,
    /// Actionable requires a reference sportsbook in the consensus.
    pub require_reference_book: bool,
    pub kelly_fraction: Decimal,
    /// Subtracted from the backed side's fair probability before net edge and
    /// Kelly: a bookmaker consensus over-states the outcome you back by a
    /// roughly constant intercept.
    pub consensus_bias: Decimal,
    /// Seconds before the start within which a market is not actionable.
    pub minimum_lead: u64,
    /// Seconds before the start beyond which exchange families leave the
    /// consensus.
    pub exchange_max_lead: u64,
    /// Maker rebate coefficient of the venue. Used only to report the maker edge.
    pub maker_rebate_coefficient: Decimal,
    /// Stay under the public gateway limit.
    pub polymarket_requests_per_second: u32,
    /// Seconds between two looks at open paper positions.
    pub settlement_poll: u64,
    pub source_config_path: String,
    /// History archive; unset means the store alone.
    pub database_url: Option<String>,
}

/// Settings as mathematics.
pub struct Policy {
    pub run_mode: RunMode,
    pub polymarket_base_url: Seq<char>,
    pub scan_interval: int,
    pub scan_lease_ttl: int,
    pub request_timeout: int,
    pub source_concurrency: nat,
    pub book_concurrency: nat,
    pub discovery_refresh: int,
    pub retention_days: int,
    pub minimum_configured_sources: nat,
    pub minimum_source_families: nat,
    pub watchlist_source_families: nat,
    pub max_quote_age: int,
    pub confirmation_max_age: int,
    pub book_max_age: int,
    pub minimum_raw_edge: Dec,
    pub minimum_net_edge: Dec,
    pub minimum_price: Dec,
    pub maximum_price: Dec,
    pub bankroll: Dec,
    pub minimum_position_fraction: Dec,
    pub maximum_position_fraction: Dec,
    pub maximum_total_exposure: Dec,
    pub maximum_event_exposure: Dec,
    pub require_reference_book: bool,
    pub kelly_fraction: Dec,
    pub consensus_bias: Dec,
    pub minimum_lead: int,
    pub exchange_max_lead: int,
    pub maker_rebate_coefficient: Dec,
    pub polymarket_requests_per_second: int,
    pub settlement_poll: int,
    pub source_config_path: Seq<char>,
    pub database_url: Option<Seq<char>>,
}

impl View for Settings {
    type V = Policy;

    open spec fn view(&self) -> Policy {
        Policy {
            run_mode: self.run_mode,
            polymarket_base_url: self.polymarket_base_url@,
            scan_interval: self.scan_interval as int,
            scan_lease_ttl: self.scan_lease_ttl as int,
            request_timeout: self.request_timeout as int,
            source_concurrency: self.source_concurrency as nat,
            book_concurrency: self.book_concurrency as nat,
            discovery_refresh: self.discovery_refresh as int,
            retention_days: self.retention_days as int,
            minimum_configured_sources: self.minimum_configured_sources as nat,
            minimum_source_families: self.minimum_source_families as nat,
            watchlist_source_families: self.watchlist_source_families as nat,
            max_quote_age: self.max_quote_age as int,
            confirmation_max_age: self.confirmation_max_age as int,
            book_max_age: self.book_max_age as int,
            minimum_raw_edge: self.minimum_raw_edge@,
            minimum_net_edge: self.minimum_net_edge@,
            minimum_price: self.minimum_price@,
            maximum_price: self.maximum_price@,
            bankroll: self.bankroll@,
            minimum_position_fraction: self.minimum_position_fraction@,
            maximum_position_fraction: self.maximum_position_fraction@,
            maximum_total_exposure: self.maximum_total_exposure@,
            maximum_event_exposure: self.maximum_event_exposure@,
            require_reference_book: self.require_reference_book,
            kelly_fraction: self.kelly_fraction@,
            consensus_bias: self.consensus_bias@,
            minimum_lead: self.minimum_lead as int,
            exchange_max_lead: self.exchange_max_lead as int,
            maker_rebate_coefficient: self.maker_rebate_coefficient@,
            polymarket_requests_per_second: self.polymarket_requests_per_second as int,
            settlement_poll: self.settlement_poll as int,
            source_config_path: self.source_config_path@,
            database_url: text_of(self.database_url),
        }
    }
}

impl Clone for Settings {
    fn clone(&self) -> (result: Settings)
        ensures
            result@ == self@,
    {
        Settings {
            run_mode: self.run_mode,
            polymarket_base_url: self.polymarket_base_url.clone(),
            scan_interval: self.scan_interval,
            scan_lease_ttl: self.scan_lease_ttl,
            request_timeout: self.request_timeout,
            source_concurrency: self.source_concurrency,
            book_concurrency: self.book_concurrency,
            discovery_refresh: self.discovery_refresh,
            retention_days: self.retention_days,
            minimum_configured_sources: self.minimum_configured_sources,
            minimum_source_families: self.minimum_source_families,
            watchlist_source_families: self.watchlist_source_families,
            max_quote_age: self.max_quote_age,
            confirmation_max_age: self.confirmation_max_age,
            book_max_age: self.book_max_age,
            minimum_raw_edge: self.minimum_raw_edge,
            minimum_net_edge: self.minimum_net_edge,
            minimum_price: self.minimum_price,
            maximum_price: self.maximum_price,
            bankroll: self.bankroll,
            minimum_position_fraction: self.minimum_position_fraction,
            maximum_position_fraction: self.maximum_position_fraction,
            maximum_total_exposure: self.maximum_total_exposure,
            maximum_event_exposure: self.maximum_event_exposure,
            require_reference_book: self.require_reference_book,
            kelly_fraction: self.kelly_fraction,
            consensus_bias: self.consensus_bias,
            minimum_lead: self.minimum_lead,
            exchange_max_lead: self.exchange_max_lead,
            maker_rebate_coefficient: self.maker_rebate_coefficient,
            polymarket_requests_per_second: self.polymarket_requests_per_second,
            settlement_poll: self.settlement_poll,
            source_config_path: self.source_config_path.clone(),
            database_url: copy_text(&self.database_url),
        }
    }
}

/// The settings without any variable set.
pub open spec fn default_policy() -> Policy {
    Policy {
        run_mode: RunMode::Local,
        polymarket_base_url: "https://gateway.polymarket.us"@,
        scan_interval: 300,
        scan_lease_ttl: 900,
        request_timeout: 20,
        source_concurrency: 4,
        book_concurrency: 8,
        discovery_refresh: 900,
        retention_days: 14,
        minimum_configured_sources: 3,
        minimum_source_families: 5,
        watchlist_source_families: 3,
        max_quote_age: 360,
        confirmation_max_age: 90,
        book_max_age: 15,
        minimum_raw_edge: dec(5, 2),
        minimum_net_edge: dec(3, 2),
        minimum_price: dec(35, 2),
        maximum_price: dec(65, 2),
        bankroll: dec(100, 0),
        minimum_position_fraction: dec(1, 2),
        maximum_position_fraction: dec(5, 2),
        maximum_total_exposure: dec(5, 0),
        maximum_event_exposure: dec(25, 1),
        require_reference_book: true,
        kelly_fraction: dec(25, 2),
        consensus_bias: dec(2, 2),
        minimum_lead: 900,
        exchange_max_lead: 14400,
        maker_rebate_coefficient: dec(125, 4),
        polymarket_requests_per_second: 18,
        settlement_poll: 600,
        source_config_path: "config/sources.json"@,
        database_url: None,
    }
}

impl Default for Settings {
    fn default() -> (result: Settings)
        ensures
            result@ == default_policy(),
    {
        Settings {
            run_mode: RunMode::Local,
            polymarket_base_url: owned("https://gateway.polymarket.us"),
            scan_interval: 300,
            scan_lease_ttl: 900,
            request_timeout: 20,
            source_concurrency: 4,
            book_concurrency: 8,
            discovery_refresh: 900,
            retention_days: 14,
            minimum_configured_sources: 3,
            minimum_source_families: 5,
            watchlist_source_families: 3,
            max_quote_age: 360,
            confirmation_max_age: 90,
            book_max_age: 15,
            minimum_raw_edge: Decimal::new(5, 2),
            minimum_net_edge: Decimal::new(3, 2),
            minimum_price: Decimal::new(35, 2),
            maximum_price: Decimal::new(65, 2),
            bankroll: Decimal::new(100, 0),
            minimum_position_fraction: Decimal::new(1, 2),
            maximum_position_fraction: Decimal::new(5, 2),
            maximum_total_exposure: Decimal::new(5, 0),
            maximum_event_exposure: Decimal::new(25, 1),
            require_reference_book: true,
            kelly_fraction: Decimal::new(25, 2),
            consensus_bias: Decimal::new(2, 2),
            minimum_lead: 900,
            exchange_max_lead: 14400,
            maker_rebate_coefficient: Decimal::new(125, 4),
            polymarket_requests_per_second: 18,
            settlement_poll: 600,
            source_config_path: owned("config/sources.json"),
            database_url: None,
        }
    }
}

/// The first complaint about a policy, if there is one.
pub open spec fn objection(p: Policy) -> Option<Seq<char>> {
    if p.scan_interval == 0 || p.scan_lease_ttl <= p.scan_interval || p.request_timeout == 0
        || p.book_concurrency == 0 || p.source_concurrency == 0 {
        Some("scan timing, request timeout, and concurrency must be positive"@)
    } else if p.watchlist_source_families < 1 || p.minimum_source_families
        < p.watchlist_source_families || p.minimum_configured_sources < p.watchlist_source_families {
        Some(
            "source-family quorum must be at least 1 watchlist, actionable at least watchlist, with at least that many configured continuous families"@,
        )
    } else if p.minimum_price.le(zero()) || one().le(p.maximum_price) || p.maximum_price.lt(
        p.minimum_price,
    ) {
        Some("contract price range is invalid"@)
    } else if p.bankroll.le(zero()) || p.maximum_position_fraction.lt(dec(1, 2)) || dec(5, 2).lt(
        p.maximum_position_fraction,
    ) || p.minimum_position_fraction.lt(zero()) || p.maximum_position_fraction.lt(
        p.minimum_position_fraction,
    ) || p.maximum_total_exposure.le(zero()) || dec(5, 0).lt(p.maximum_total_exposure)
        || p.bankroll.lt(p.maximum_total_exposure) {
        Some("paper risk limits are invalid"@)
    } else if p.maximum_event_exposure.le(zero()) || p.maximum_total_exposure.lt(
        p.maximum_event_exposure,
    ) {
        Some("MAXIMUM_EVENT_EXPOSURE must be positive and at most MAXIMUM_TOTAL_EXPOSURE"@)
    } else if p.kelly_fraction.le(zero()) || one().lt(p.kelly_fraction) {
        Some("KELLY_FRACTION must be in (0, 1]"@)
    } else if p.consensus_bias.lt(zero()) || dec(5, 1).le(p.consensus_bias) {
        Some("CONSENSUS_BIAS must be in [0, 0.5)"@)
    } else if p.maker_rebate_coefficient.lt(zero()) {
        Some("MAKER_REBATE_COEFFICIENT must be non-negative"@)
    } else if p.max_quote_age == 0 || p.confirmation_max_age == 0 || p.confirmation_max_age
        > p.max_quote_age || p.book_max_age == 0 {
        Some(
            "quote and book age windows must be positive, confirmation at most the preliminary window"@,
        )
    } else if p.polymarket_requests_per_second == 0 || p.settlement_poll == 0 {
        Some("POLYMARKET_REQUESTS_PER_SECOND and SETTLEMENT_POLL_SECONDS must be positive"@)
    } else {
        None
    }
}

/// What a missing or read value of a variable leaves.
pub open spec fn value_or<T>(read: Result<T, Failure>, default: T) -> T {
    match read {
        Ok(value) => value,
        Err(_) => default,
    }
}

/// The earlier of two failures.
pub open spec fn earlier<T>(failed: Option<Failure>, read: Result<T, Failure>) -> Option<Failure> {
    match failed {
        Some(f) => Some(f),
        None => match read {
            Ok(_) => None,
            Err(f) => Some(f),
        },
    }
}

/// How a complaint about a variable is worded.
pub open spec fn about(name: Seq<char>, message: Seq<char>) -> Failure {
    Failure::Config(name + ": "@ + message)
}

/// A text as a whole number of a type whose largest is `most`.
pub open spec fn parsed_up_to(text: Seq<char>, most: int) -> Result<int, Seq<char>> {
    if most == u32::MAX {
        parsed_u32(text)
    } else {
        parsed_u64(text)
    }
}

/// What a variable says about a whole number of a type whose largest is `most`.
pub open spec fn number_var(
    vars: Map<Seq<char>, Seq<char>>,
    name: Seq<char>,
    default: int,
    most: int,
) -> Result<int, Failure> {
    if vars.contains_key(name) {
        match parsed_up_to(vars[name], most) {
            Ok(n) => Ok(n),
            Err(message) => Err(about(name, message)),
        }
    } else {
        Ok(default)
    }
}

/// What a variable says about a number of units of `unit` seconds.
pub open spec fn span_var(
    vars: Map<Seq<char>, Seq<char>>,
    name: Seq<char>,
    default: int,
    unit: int,
) -> Result<int, Failure> {
    match number_var(vars, name, default / unit, u64::MAX as int) {
        Ok(n) => if n * unit <= u64::MAX {
            Ok(n * unit)
        } else {
            Err(Failure::Overflow)
        },
        Err(f) => Err(f),
    }
}

/// What a variable says about a decimal number.
pub open spec fn decimal_var(
    vars: Map<Seq<char>, Seq<char>>,
    name: Seq<char>,
    default: Dec,
) -> Result<Dec, Failure> {
    if vars.contains_key(name) {
        match decimal_text(vars[name]) {
            Ok((m, s)) => Ok(dec(m, s)),
            Err(message) => Err(about(name, message)),
        }
    } else {
        Ok(default)
    }
}

/// What a variable says about a switch.
pub open spec fn switch_var(
    vars: Map<Seq<char>, Seq<char>>,
    name: Seq<char>,
    default: bool,
) -> Result<bool, Failure> {
    if vars.contains_key(name) {
        if vars[name] == "true"@ {
            Ok(true)
        } else if vars[name] == "false"@ {
            Ok(false)
        } else {
            Err(about(name, "provided string was not `true` or `false`"@))
        }
    } else {
        Ok(default)
    }
}

/// What a variable says about the run mode.
pub open spec fn mode_var(
    vars: Map<Seq<char>, Seq<char>>,
    name: Seq<char>,
    default: RunMode,
) -> Result<RunMode, Failure> {
    if vars.contains_key(name) {
        match mode_of(vars[name]) {
            Ok(mode) => Ok(mode),
            Err(message) => Err(about(name, message)),
        }
    } else {
        Ok(default)
    }
}

/// A text variable replaces the default unless it is blank.
pub open spec fn text_var(
    vars: Map<Seq<char>, Seq<char>>,
    name: Seq<char>,
    default: Seq<char>,
) -> Seq<char> {
    if vars.contains_key(name) && !is_blank(vars[name]) {
        vars[name]
    } else {
        default
    }
}

/// An optional variable, without the white space around it; a blank one is as
/// good as none.
pub open spec fn optional_var(vars: Map<Seq<char>, Seq<char>>, name: Seq<char>) -> Option<
    Seq<char>,
> {
    if vars.contains_key(name) && trimmed(vars[name]).len() > 0 {
        Some(trimmed(vars[name]))
    } else {
        None
    }
}

/// How `str::parse` words that a text is no `u64`.
pub uninterp spec fn u64_complaint(text: Seq<char>) -> Seq<char>;

/// A text as a `u64`: digits, after a plus sign or nothing, for a number that
/// fits; else the words of a complaint.
pub open spec fn parsed_u64(text: Seq<char>) -> Result<int, Seq<char>> {
    match number_in(text) {
        Some(n) => if n <= u64::MAX {
            Ok(n)
        } else {
            Err(u64_complaint(text))
        },
        None => Err(u64_complaint(text)),
    }
}

/// `str::parse::<u64>`: the number that the digits are, where there are only
/// digits after an optional plus sign and the number fits, and else the error.
/// The wording of the error only has a name here.
#[verifier::external_body]
pub(crate) fn parse_u64(text: &str) -> (result: Result<u64, String>)
    ensures
        match result {
            Ok(n) => number_in(text@) == Some(n as int),
            Err(message) => message@ == u64_complaint(text@) && !(number_in(text@) matches Some(n)
                && n <= u64::MAX),
        },
{
    text.parse::<u64>().map_err(|error| error.to_string())
}

/// How `str::parse` words that a text is no `u32`.
pub uninterp spec fn u32_complaint(text: Seq<char>) -> Seq<char>;

/// A text as a `u32`, as [`parsed_u64`] reads a `u64`.
pub open spec fn parsed_u32(text: Seq<char>) -> Result<int, Seq<char>> {
    match number_in(text) {
        Some(n) => if n <= u32::MAX {
            Ok(n)
        } else {
            Err(u32_complaint(text))
        },
        None => Err(u32_complaint(text)),
    }
}

/// `str::parse::<u32>`: the number that the digits are, where there are only
/// digits after an optional plus sign and the number fits, and else the error.
/// The wording of the error only has a name here.
#[verifier::external_body]
pub(crate) fn parse_u32(text: &str) -> (result: Result<u32, String>)
    ensures
        match result {
            Ok(n) => number_in(text@) == Some(n as int),
            Err(message) => message@ == u32_complaint(text@) && !(number_in(text@) matches Some(n)
                && n <= u32::MAX),
        },
{
    text.parse::<u32>().map_err(|error| error.to_string())
}

/// How `str::parse` words that a text is no `i64`.
pub uninterp spec fn i64_complaint(text: Seq<char>) -> Seq<char>;

/// A text as a whole number: digits, at least one, after a sign or nothing.
pub open spec fn signed_number_in(text: Seq<char>) -> Option<int> {
    if text.len() > 1 && text[0] == '-' && all_digits(text.skip(1)) {
        Some(-digits_value(text.skip(1)))
    } else {
        number_in(text)
    }
}

/// A text as an `i64`, or the words of a complaint.
pub open spec fn parsed_i64(text: Seq<char>) -> Result<int, Seq<char>> {
    match signed_number_in(text) {
        Some(n) => if i64::MIN <= n <= i64::MAX {
            Ok(n)
        } else {
            Err(i64_complaint(text))
        },
        None => Err(i64_complaint(text)),
    }
}

/// `str::parse::<i64>`: the number that the digits are, where there are only
/// digits after an optional sign and the number fits, and else the error. The
/// wording of the error only has a name here.
#[verifier::external_body]
pub(crate) fn parse_i64(text: &str) -> (result: Result<i64, String>)
    ensures
        match result {
            Ok(n) => signed_number_in(text@) == Some(n as int),
            Err(message) => message@ == i64_complaint(text@) && !(signed_number_in(text@) matches Some(n)
                && i64::MIN <= n <= i64::MAX),
        },
{
    text.parse::<i64>().map_err(|error| error.to_string())
}

fn complaint(name: &str, message: &str) -> (result: Error)
    ensures
        result@ == about(name@, message@),
{
    Error::Config(concat3(name, ": ", message))
}

fn read_number(vars: &TextMap<String>, name: &str, default: u64, most: u64) -> (result: Result<
    u64,
    Error,
>)
    requires
        default <= most,
        most == u32::MAX || most == u64::MAX,
    ensures
        match result {
            Ok(n) => number_var(vars.deep(), name@, default as int, most as int) == Ok::<
                int,
                Failure,
            >(n as int) && n <= most,
            Err(e) => number_var(vars.deep(), name@, default as int, most as int) == Err::<
                int,
                Failure,
            >(e@),
        },
{
    match vars.get(name) {
        Some(text) => if most == u32::MAX as u64 {
            match parse_u32(text.as_str()) {
                Ok(n) => Ok(n as u64),
                Err(message) => Err(complaint(name, message.as_str())),
            }
        } else {
            match parse_u64(text.as_str()) {
                Ok(n) => Ok(n),
                Err(message) => Err(complaint(name, message.as_str())),
            }
        },
        None => Ok(default),
    }
}

fn read_span(vars: &TextMap<String>, name: &str, default: u64, unit: u64) -> (result: Result<
    u64,
    Error,
>)
    requires
        unit > 0,
    ensures
        match result {
            Ok(n) => span_var(vars.deep(), name@, default as int, unit as int) == Ok::<
                int,
                Failure,
            >(n as int),
            Err(e) => span_var(vars.deep(), name@, default as int, unit as int) == Err::<
                int,
                Failure,
            >(e@),
        },
{
    let n = match read_number(vars, name, default / unit, u64::MAX) {
        Ok(n) => n,
        Err(e) => {
            return Err(e);
        },
    };
    match n.checked_mul(unit) {
        Some(seconds) => Ok(seconds),
        None => Err(Error::Overflow),
    }
}

fn read_decimal(vars: &TextMap<String>, name: &str, default: Decimal) -> (result: Result<
    Decimal,
    Error,
>)
    ensures
        match result {
            Ok(d) => decimal_var(vars.deep(), name@, default@) == Ok::<Dec, Failure>(d@),
            Err(e) => decimal_var(vars.deep(), name@, default@) == Err::<Dec, Failure>(e@),
        },
{
    match vars.get(name) {
        Some(text) => match parse_decimal(text.as_str()) {
            Ok(d) => Ok(d),
            Err(message) => Err(complaint(name, message.as_str())),
        },
        None => Ok(default),
    }
}

fn read_switch(vars: &TextMap<String>, name: &str, default: bool) -> (result: Result<bool, Error>)
    ensures
        match result {
            Ok(b) => switch_var(vars.deep(), name@, default) == Ok::<bool, Failure>(b),
            Err(e) => switch_var(vars.deep(), name@, default) == Err::<bool, Failure>(e@),
        },
{
    match vars.get(name) {
        Some(text) => if same(text.as_str(), "true") {
            Ok(true)
        } else if same(text.as_str(), "false") {
            Ok(false)
        } else {
            Err(complaint(name, "provided string was not `true` or `false`"))
        },
        None => Ok(default),
    }
}

fn read_mode(vars: &TextMap<String>, name: &str, default: RunMode) -> (result: Result<
    RunMode,
    Error,
>)
    ensures
        match result {
            Ok(m) => mode_var(vars.deep(), name@, default) == Ok::<RunMode, Failure>(m),
            Err(e) => mode_var(vars.deep(), name@, default) == Err::<RunMode, Failure>(e@),
        },
{
    match vars.get(name) {
        Some(text) => match RunMode::parse(text.as_str()) {
            Ok(mode) => Ok(mode),
            Err(message) => Err(complaint(name, message.as_str())),
        },
        None => Ok(default),
    }
}

fn read_text(vars: &TextMap<String>, name: &str, default: String) -> (result: String)
    ensures
        result@ == text_var(vars.deep(), name@, default@),
{
    match vars.get(name) {
        Some(text) => if blank(text.as_str()) {
            default
        } else {
            text.clone()
        },
        None => default,
    }
}

fn read_optional(vars: &TextMap<String>, name: &str) -> (result: Option<String>)
    ensures
        text_of(result) == optional_var(vars.deep(), name@),
{
    match vars.get(name) {
        Some(text) => {
            let bare = trim(text.as_str());
            if bare.as_str().is_empty() {
                None
            } else {
                Some(bare)
            }
        },
        None => None,
    }
}

/// The settings that the variables give, each one read on its own.
pub open spec fn policy_from(vars: Map<Seq<char>, Seq<char>>) -> Policy {
    let d = default_policy();
    Policy {
        polymarket_base_url: text_var(vars, "POLYMARKET_BASE_URL"@, d.polymarket_base_url),
        source_config_path: text_var(vars, "SOURCE_CONFIG_PATH"@, d.source_config_path),
        database_url: optional_var(vars, "DATABASE_URL"@),
        request_timeout: d.request_timeout,
        run_mode: value_or(mode_var(vars, "RUN_MODE"@, d.run_mode), d.run_mode),
        source_concurrency: value_or(number_var(vars, "SOURCE_CONCURRENCY"@, d.source_concurrency as int, usize::MAX as int), d.source_concurrency as int) as nat,
        book_concurrency: value_or(number_var(vars, "POLYMARKET_CONCURRENCY"@, d.book_concurrency as int, usize::MAX as int), d.book_concurrency as int) as nat,
        discovery_refresh: value_or(number_var(vars, "DISCOVERY_REFRESH_SECONDS"@, d.discovery_refresh as int, u64::MAX as int), d.discovery_refresh),
        retention_days: value_or(number_var(vars, "LOCAL_RETENTION_DAYS"@, d.retention_days as int, u32::MAX as int), d.retention_days),
        minimum_configured_sources: value_or(number_var(vars, "MINIMUM_CONFIGURED_SOURCES"@, d.minimum_configured_sources as int, usize::MAX as int), d.minimum_configured_sources as int) as nat,
        scan_interval: value_or(number_var(vars, "SCAN_INTERVAL_SECONDS"@, d.scan_interval as int, u64::MAX as int), d.scan_interval),
        scan_lease_ttl: value_or(number_var(vars, "SCAN_LEASE_TTL_SECONDS"@, d.scan_lease_ttl as int, u64::MAX as int), d.scan_lease_ttl),
        minimum_source_families: value_or(number_var(vars, "MINIMUM_SOURCE_FAMILIES"@, d.minimum_source_families as int, usize::MAX as int), d.minimum_source_families as int) as nat,
        watchlist_source_families: value_or(number_var(vars, "WATCHLIST_SOURCE_FAMILIES"@, d.watchlist_source_families as int, usize::MAX as int), d.watchlist_source_families as int) as nat,
        minimum_raw_edge: value_or(decimal_var(vars, "MINIMUM_RAW_EDGE"@, d.minimum_raw_edge), d.minimum_raw_edge),
        minimum_net_edge: value_or(decimal_var(vars, "MINIMUM_NET_EDGE"@, d.minimum_net_edge), d.minimum_net_edge),
        minimum_price: value_or(decimal_var(vars, "MINIMUM_PRICE"@, d.minimum_price), d.minimum_price),
        maximum_price: value_or(decimal_var(vars, "MAXIMUM_PRICE"@, d.maximum_price), d.maximum_price),
        require_reference_book: value_or(switch_var(vars, "REQUIRE_REFERENCE_BOOK"@, d.require_reference_book), d.require_reference_book),
        bankroll: value_or(decimal_var(vars, "PAPER_BANKROLL"@, d.bankroll), d.bankroll),
        minimum_position_fraction: value_or(decimal_var(vars, "MINIMUM_POSITION_FRACTION"@, d.minimum_position_fraction), d.minimum_position_fraction),
        maximum_position_fraction: value_or(decimal_var(vars, "MAXIMUM_POSITION_FRACTION"@, d.maximum_position_fraction), d.maximum_position_fraction),
        maximum_total_exposure: value_or(decimal_var(vars, "MAXIMUM_TOTAL_EXPOSURE"@, d.maximum_total_exposure), d.maximum_total_exposure),
        maximum_event_exposure: value_or(decimal_var(vars, "MAXIMUM_EVENT_EXPOSURE"@, d.maximum_event_exposure), d.maximum_event_exposure),
        kelly_fraction: value_or(decimal_var(vars, "KELLY_FRACTION"@, d.kelly_fraction), d.kelly_fraction),
        consensus_bias: value_or(decimal_var(vars, "CONSENSUS_BIAS"@, d.consensus_bias), d.consensus_bias),
        max_quote_age: value_or(number_var(vars, "MAX_QUOTE_AGE_SECONDS"@, d.max_quote_age as int, u64::MAX as int), d.max_quote_age),
        confirmation_max_age: value_or(number_var(vars, "CONFIRMATION_MAX_AGE_SECONDS"@, d.confirmation_max_age as int, u64::MAX as int), d.confirmation_max_age),
        book_max_age: value_or(number_var(vars, "BOOK_MAX_AGE_SECONDS"@, d.book_max_age as int, u64::MAX as int), d.book_max_age),
        minimum_lead: value_or(span_var(vars, "MINIMUM_LEAD_MINUTES"@, d.minimum_lead, 60), d.minimum_lead),
        exchange_max_lead: value_or(span_var(vars, "EXCHANGE_MAX_LEAD_HOURS"@, d.exchange_max_lead, 3600), d.exchange_max_lead),
        maker_rebate_coefficient: value_or(decimal_var(vars, "MAKER_REBATE_COEFFICIENT"@, d.maker_rebate_coefficient), d.maker_rebate_coefficient),
        polymarket_requests_per_second: value_or(number_var(vars, "POLYMARKET_REQUESTS_PER_SECOND"@, d.polymarket_requests_per_second as int, u32::MAX as int), d.polymarket_requests_per_second),
        settlement_poll: value_or(number_var(vars, "SETTLEMENT_POLL_SECONDS"@, d.settlement_poll as int, u64::MAX as int), d.settlement_poll),
    }
}

/// The first variable that cannot be read, in the order in which they are.
pub open spec fn unreadable(vars: Map<Seq<char>, Seq<char>>) -> Option<Failure> {
    let d = default_policy();
    let f = None::<Failure>;
    let f = earlier(f, mode_var(vars, "RUN_MODE"@, d.run_mode));
    let f = earlier(f, number_var(vars, "SOURCE_CONCURRENCY"@, d.source_concurrency as int, usize::MAX as int));
    let f = earlier(f, number_var(vars, "POLYMARKET_CONCURRENCY"@, d.book_concurrency as int, usize::MAX as int));
    let f = earlier(f, number_var(vars, "DISCOVERY_REFRESH_SECONDS"@, d.discovery_refresh as int, u64::MAX as int));
    let f = earlier(f, number_var(vars, "LOCAL_RETENTION_DAYS"@, d.retention_days as int, u32::MAX as int));
    let f = earlier(f, number_var(vars, "MINIMUM_CONFIGURED_SOURCES"@, d.minimum_configured_sources as int, usize::MAX as int));
    let f = earlier(f, number_var(vars, "SCAN_INTERVAL_SECONDS"@, d.scan_interval as int, u64::MAX as int));
    let f = earlier(f, number_var(vars, "SCAN_LEASE_TTL_SECONDS"@, d.scan_lease_ttl as int, u64::MAX as int));
    let f = earlier(f, number_var(vars, "MINIMUM_SOURCE_FAMILIES"@, d.minimum_source_families as int, usize::MAX as int));
    let f = earlier(f, number_var(vars, "WATCHLIST_SOURCE_FAMILIES"@, d.watchlist_source_families as int, usize::MAX as int));
    let f = earlier(f, decimal_var(vars, "MINIMUM_RAW_EDGE"@, d.minimum_raw_edge));
    let f = earlier(f, decimal_var(vars, "MINIMUM_NET_EDGE"@, d.minimum_net_edge));
    let f = earlier(f, decimal_var(vars, "MINIMUM_PRICE"@, d.minimum_price));
    let f = earlier(f, decimal_var(vars, "MAXIMUM_PRICE"@, d.maximum_price));
    let f = earlier(f, switch_var(vars, "REQUIRE_REFERENCE_BOOK"@, d.require_reference_book));
    let f = earlier(f, decimal_var(vars, "PAPER_BANKROLL"@, d.bankroll));
    let f = earlier(f, decimal_var(vars, "MINIMUM_POSITION_FRACTION"@, d.minimum_position_fraction));
    let f = earlier(f, decimal_var(vars, "MAXIMUM_POSITION_FRACTION"@, d.maximum_position_fraction));
    let f = earlier(f, decimal_var(vars, "MAXIMUM_TOTAL_EXPOSURE"@, d.maximum_total_exposure));
    let f = earlier(f, decimal_var(vars, "MAXIMUM_EVENT_EXPOSURE"@, d.maximum_event_exposure));
    let f = earlier(f, decimal_var(vars, "KELLY_FRACTION"@, d.kelly_fraction));
    let f = earlier(f, decimal_var(vars, "CONSENSUS_BIAS"@, d.consensus_bias));
    let f = earlier(f, number_var(vars, "MAX_QUOTE_AGE_SECONDS"@, d.max_quote_age as int, u64::MAX as int));
    let f = earlier(f, number_var(vars, "CONFIRMATION_MAX_AGE_SECONDS"@, d.confirmation_max_age as int, u64::MAX as int));
    let f = earlier(f, number_var(vars, "BOOK_MAX_AGE_SECONDS"@, d.book_max_age as int, u64::MAX as int));
    let f = earlier(f, span_var(vars, "MINIMUM_LEAD_MINUTES"@, d.minimum_lead, 60));
    let f = earlier(f, span_var(vars, "EXCHANGE_MAX_LEAD_HOURS"@, d.exchange_max_lead, 3600));
    let f = earlier(f, decimal_var(vars, "MAKER_REBATE_COEFFICIENT"@, d.maker_rebate_coefficient));
    let f = earlier(f, number_var(vars, "POLYMARKET_REQUESTS_PER_SECOND"@, d.polymarket_requests_per_second as int, u32::MAX as int));
    let f = earlier(f, number_var(vars, "SETTLEMENT_POLL_SECONDS"@, d.settlement_poll as int, u64::MAX as int));
    f
}

/// What the variables come to: the first one that cannot be read, else the
/// first complaint about what they say, else the settings.
pub open spec fn loaded(vars: Map<Seq<char>, Seq<char>>) -> Result<Policy, Failure> {
    match unreadable(vars) {
        Some(f) => Err(f),
        None => match objection(policy_from(vars)) {
            Some(message) => Err(Failure::Config(message)),
            None => Ok(policy_from(vars)),
        },
    }
}

impl Settings {
    /// Reads the settings from named variables, on top of the defaults.
    pub fn from_env(vars: &TextMap<String>) -> (result: Result<Settings, Error>)
        ensures
            match result {
                Ok(settings) => loaded(vars.deep()) == Ok::<Policy, Failure>(settings@),
                Err(e) => loaded(vars.deep()) == Err::<Policy, Failure>(e@),
            },
    {
        let d = Settings::default();
        let polymarket_base_url = read_text(vars, "POLYMARKET_BASE_URL", d.polymarket_base_url);
        let source_config_path = read_text(vars, "SOURCE_CONFIG_PATH", d.source_config_path);
        let database_url = read_optional(vars, "DATABASE_URL");
        let run_mode = match read_mode(vars, "RUN_MODE", d.run_mode) {
            Ok(value) => value,
            Err(e) => {
                return Err(e);
            },
        };
        let source_concurrency = match read_number(vars, "SOURCE_CONCURRENCY", d.source_concurrency as u64, usize::MAX as u64) {
            Ok(value) => value as usize,
            Err(e) => {
                return Err(e);
            },
        };
        let book_concurrency = match read_number(vars, "POLYMARKET_CONCURRENCY", d.book_concurrency as u64, usize::MAX as u64) {
            Ok(value) => value as usize,
            Err(e) => {
                return Err(e);
            },
        };
        let discovery_refresh = match read_number(vars, "DISCOVERY_REFRESH_SECONDS", d.discovery_refresh, u64::MAX) {
            Ok(value) => value,
            Err(e) => {
                return Err(e);
            },
        };
        let retention_days = match read_number(vars, "LOCAL_RETENTION_DAYS", d.retention_days as u64, u32::MAX as u64) {
            Ok(value) => value as u32,
            Err(e) => {
                return Err(e);
            },
        };
        let minimum_configured_sources = match read_number(vars, "MINIMUM_CONFIGURED_SOURCES", d.minimum_configured_sources as u64, usize::MAX as u64) {
            Ok(value) => value as usize,
            Err(e) => {
                return Err(e);
            },
        };
        let scan_interval = match read_number(vars, "SCAN_INTERVAL_SECONDS", d.scan_interval, u64::MAX) {
            Ok(value) => value,
            Err(e) => {
                return Err(e);
            },
        };
        let scan_lease_ttl = match read_number(vars, "SCAN_LEASE_TTL_SECONDS", d.scan_lease_ttl, u64::MAX) {
            Ok(value) => value,
            Err(e) => {
                return Err(e);
            },
        };
        let minimum_source_families = match read_number(vars, "MINIMUM_SOURCE_FAMILIES", d.minimum_source_families as u64, usize::MAX as u64) {
            Ok(value) => value as usize,
            Err(e) => {
                return Err(e);
            },
        };
        let watchlist_source_families = match read_number(vars, "WATCHLIST_SOURCE_FAMILIES", d.watchlist_source_families as u64, usize::MAX as u64) {
            Ok(value) => value as usize,
            Err(e) => {
                return Err(e);
            },
        };
        let minimum_raw_edge = match read_decimal(vars, "MINIMUM_RAW_EDGE", d.minimum_raw_edge) {
            Ok(value) => value,
            Err(e) => {
                return Err(e);
            },
        };
        let minimum_net_edge = match read_decimal(vars, "MINIMUM_NET_EDGE", d.minimum_net_edge) {
            Ok(value) => value,
            Err(e) => {
                return Err(e);
            },
        };
        let minimum_price = match read_decimal(vars, "MINIMUM_PRICE", d.minimum_price) {
            Ok(value) => value,
            Err(e) => {
                return Err(e);
            },
        };
        let maximum_price = match read_decimal(vars, "MAXIMUM_PRICE", d.maximum_price) {
            Ok(value) => value,
            Err(e) => {
                return Err(e);
            },
        };
        let require_reference_book = match read_switch(vars, "REQUIRE_REFERENCE_BOOK", d.require_reference_book) {
            Ok(value) => value,
            Err(e) => {
                return Err(e);
            },
        };
        let bankroll = match read_decimal(vars, "PAPER_BANKROLL", d.bankroll) {
            Ok(value) => value,
            Err(e) => {
                return Err(e);
            },
        };
        let minimum_position_fraction = match read_decimal(vars, "MINIMUM_POSITION_FRACTION", d.minimum_position_fraction) {
            Ok(value) => value,
            Err(e) => {
                return Err(e);
            },
        };
        let maximum_position_fraction = match read_decimal(vars, "MAXIMUM_POSITION_FRACTION", d.maximum_position_fraction) {
            Ok(value) => value,
            Err(e) => {
                return Err(e);
            },
        };
        let maximum_total_exposure = match read_decimal(vars, "MAXIMUM_TOTAL_EXPOSURE", d.maximum_total_exposure) {
            Ok(value) => value,
            Err(e) => {
                return Err(e);
            },
        };
        let maximum_event_exposure = match read_decimal(vars, "MAXIMUM_EVENT_EXPOSURE", d.maximum_event_exposure) {
            Ok(value) => value,
            Err(e) => {
                return Err(e);
            },
        };
        let kelly_fraction = match read_decimal(vars, "KELLY_FRACTION", d.kelly_fraction) {
            Ok(value) => value,
            Err(e) => {
                return Err(e);
            },
        };
        let consensus_bias = match read_decimal(vars, "CONSENSUS_BIAS", d.consensus_bias) {
            Ok(value) => value,
            Err(e) => {
                return Err(e);
            },
        };
        let max_quote_age = match read_number(vars, "MAX_QUOTE_AGE_SECONDS", d.max_quote_age, u64::MAX) {
            Ok(value) => value,
            Err(e) => {
                return Err(e);
            },
        };
        let confirmation_max_age = match read_number(vars, "CONFIRMATION_MAX_AGE_SECONDS", d.confirmation_max_age, u64::MAX) {
            Ok(value) => value,
            Err(e) => {
                return Err(e);
            },
        };
        let book_max_age = match read_number(vars, "BOOK_MAX_AGE_SECONDS", d.book_max_age, u64::MAX) {
            Ok(value) => value,
            Err(e) => {
                return Err(e);
            },
        };
        let minimum_lead = match read_span(vars, "MINIMUM_LEAD_MINUTES", d.minimum_lead, 60) {
            Ok(value) => value,
            Err(e) => {
                return Err(e);
            },
        };
        let exchange_max_lead = match read_span(vars, "EXCHANGE_MAX_LEAD_HOURS", d.exchange_max_lead, 3600) {
            Ok(value) => value,
            Err(e) => {
                return Err(e);
            },
        };
        let maker_rebate_coefficient = match read_decimal(vars, "MAKER_REBATE_COEFFICIENT", d.maker_rebate_coefficient) {
            Ok(value) => value,
            Err(e) => {
                return Err(e);
            },
        };
        let polymarket_requests_per_second = match read_number(vars, "POLYMARKET_REQUESTS_PER_SECOND", d.polymarket_requests_per_second as u64, u32::MAX as u64) {
            Ok(value) => value as u32,
            Err(e) => {
                return Err(e);
            },
        };
        let settlement_poll = match read_number(vars, "SETTLEMENT_POLL_SECONDS", d.settlement_poll, u64::MAX) {
            Ok(value) => value,
            Err(e) => {
                return Err(e);
            },
        };
        let settings = Settings {
            polymarket_base_url,
            source_config_path,
            database_url,
            request_timeout: d.request_timeout,
            run_mode,
            source_concurrency,
            book_concurrency,
            discovery_refresh,
            retention_days,
            minimum_configured_sources,
            scan_interval,
            scan_lease_ttl,
            minimum_source_families,
            watchlist_source_families,
            minimum_raw_edge,
            minimum_net_edge,
            minimum_price,
            maximum_price,
            require_reference_book,
            bankroll,
            minimum_position_fraction,
            maximum_position_fraction,
            maximum_total_exposure,
            maximum_event_exposure,
            kelly_fraction,
            consensus_bias,
            max_quote_age,
            confirmation_max_age,
            book_max_age,
            minimum_lead,
            exchange_max_lead,
            maker_rebate_coefficient,
            polymarket_requests_per_second,
            settlement_poll,
        };
        match settings.validate() {
            Ok(_) => Ok(settings),
            Err(e) => Err(e),
        }
    }

    /// Whether the settings make sense together; the first complaint if not.
    pub fn validate(&self) -> (result: Result<(), Error>)
        ensures
            match result {
                Ok(_) => objection(self@) is None,
                Err(e) => objection(self@) matches Some(message) && e@ == Failure::Config(message),
            },
    {
        let nil = Decimal::zero();
        let unit = Decimal::one();
        if self.scan_interval == 0 || self.scan_lease_ttl <= self.scan_interval
            || self.request_timeout == 0 || self.book_concurrency == 0 || self.source_concurrency == 0 {
            return Err(config("scan timing, request timeout, and concurrency must be positive"));
        }
        if self.watchlist_source_families < 1 || self.minimum_source_families
            < self.watchlist_source_families || self.minimum_configured_sources
            < self.watchlist_source_families {
            return Err(
                config(
                    "source-family quorum must be at least 1 watchlist, actionable at least watchlist, with at least that many configured continuous families",
                ),
            );
        }
        if self.minimum_price.at_most(nil) || unit.at_most(self.maximum_price)
            || self.maximum_price.less(self.minimum_price) {
            return Err(config("contract price range is invalid"));
        }
        if self.bankroll.at_most(nil) || self.maximum_position_fraction.less(Decimal::new(1, 2))
            || Decimal::new(5, 2).less(self.maximum_position_fraction)
            || self.minimum_position_fraction.less(nil) || self.maximum_position_fraction.less(
            self.minimum_position_fraction,
        ) || self.maximum_total_exposure.at_most(nil) || Decimal::new(5, 0).less(
            self.maximum_total_exposure,
        ) || self.bankroll.less(self.maximum_total_exposure) {
            return Err(config("paper risk limits are invalid"));
        }
        if self.maximum_event_exposure.at_most(nil) || self.maximum_total_exposure.less(
            self.maximum_event_exposure,
        ) {
            return Err(
                config("MAXIMUM_EVENT_EXPOSURE must be positive and at most MAXIMUM_TOTAL_EXPOSURE"),
            );
        }
        if self.kelly_fraction.at_most(nil) || unit.less(self.kelly_fraction) {
            return Err(config("KELLY_FRACTION must be in (0, 1]"));
        }
        if self.consensus_bias.less(nil) || Decimal::new(5, 1).at_most(self.consensus_bias) {
            return Err(config("CONSENSUS_BIAS must be in [0, 0.5)"));
        }
        if self.maker_rebate_coefficient.less(nil) {
            return Err(config("MAKER_REBATE_COEFFICIENT must be non-negative"));
        }
        if self.max_quote_age == 0 || self.confirmation_max_age == 0 || self.confirmation_max_age
            > self.max_quote_age || self.book_max_age == 0 {
            return Err(
                config(
                    "quote and book age windows must be positive, confirmation at most the preliminary window",
                ),
            );
        }
        if self.polymarket_requests_per_second == 0 || self.settlement_poll == 0 {
            return Err(
                config(
                    "POLYMARKET_REQUESTS_PER_SECOND and SETTLEMENT_POLL_SECONDS must be positive",
                ),
            );
        }
        Ok(())
    }
}

/// The default settings are valid, and hold the paper book to a hundred of
/// bankroll, five percent a position and five in total.
pub proof fn defaults_are_valid()
    ensures
        objection(default_policy()) is None,
{
    lemma_pow10_values();
    lemma_value_of(35, 2, pow10(26));
    assert(35 * pow10(26) == 35 * 100000000000000000000000000) by (nonlinear_arith)
        requires
            pow10(26) == 100000000000000000000000000,
    ;
    lemma_value_of(65, 2, pow10(26));
    assert(65 * pow10(26) == 65 * 100000000000000000000000000) by (nonlinear_arith)
        requires
            pow10(26) == 100000000000000000000000000,
    ;
    lemma_value_of(100, 0, pow10(28));
    assert(100 * pow10(28) == 100 * 10000000000000000000000000000) by (nonlinear_arith)
        requires
            pow10(28) == 10000000000000000000000000000,
    ;
    lemma_value_of(1, 2, pow10(26));
    assert(1 * pow10(26) == 1 * 100000000000000000000000000) by (nonlinear_arith)
        requires
            pow10(26) == 100000000000000000000000000,
    ;
    lemma_value_of(5, 2, pow10(26));
    assert(5 * pow10(26) == 5 * 100000000000000000000000000) by (nonlinear_arith)
        requires
            pow10(26) == 100000000000000000000000000,
    ;
    lemma_value_of(5, 0, pow10(28));
    assert(5 * pow10(28) == 5 * 10000000000000000000000000000) by (nonlinear_arith)
        requires
            pow10(28) == 10000000000000000000000000000,
    ;
    lemma_value_of(25, 1, pow10(27));
    assert(25 * pow10(27) == 25 * 1000000000000000000000000000) by (nonlinear_arith)
        requires
            pow10(27) == 1000000000000000000000000000,
    ;
    lemma_value_of(25, 2, pow10(26));
    assert(25 * pow10(26) == 25 * 100000000000000000000000000) by (nonlinear_arith)
        requires
            pow10(26) == 100000000000000000000000000,
    ;
    lemma_value_of(2, 2, pow10(26));
    assert(2 * pow10(26) == 2 * 100000000000000000000000000) by (nonlinear_arith)
        requires
            pow10(26) == 100000000000000000000000000,
    ;
    lemma_value_of(125, 4, pow10(24));
    assert(125 * pow10(24) == 125 * 1000000000000000000000000) by (nonlinear_arith)
        requires
            pow10(24) == 1000000000000000000000000,
    ;
    lemma_value_of(5, 1, pow10(27));
    assert(5 * pow10(27) == 5 * 1000000000000000000000000000) by (nonlinear_arith)
        requires
            pow10(27) == 1000000000000000000000000000,
    ;
    lemma_value_of(1, 0, pow10(28));
    assert(1 * pow10(28) == 1 * 10000000000000000000000000000) by (nonlinear_arith)
        requires
            pow10(28) == 10000000000000000000000000000,
    ;
    lemma_value_sign(zero());
}

/// Settings that passed keep every exposure inside the next larger one: an
/// event within the total, the total within five and within the bankroll.
pub proof fn valid_policy_bounds_exposure(p: Policy)
    requires
        objection(p) is None,
    ensures
        p.maximum_event_exposure.le(p.maximum_total_exposure),
        p.maximum_total_exposure.le(dec(5, 0)),
        p.maximum_total_exposure.le(p.bankroll),
        p.maximum_position_fraction.le(dec(5, 2)),
        zero().lt(p.minimum_price),
        p.minimum_price.le(p.maximum_price),
        p.maximum_price.lt(one()),
{
}

} // verus!
