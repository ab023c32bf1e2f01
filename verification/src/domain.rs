//! The records that the scan works on.

use vstd::prelude::*;

use crate::decimal::{dec_of, minus, zero, Dec, Decimal};
use crate::seqs::{group_seqs, take_next};
use crate::text::{copy_text, copy_texts, owned, same, text_of, texts};
use crate::textmap::TextMap;
use crate::time::{instant_of, Timestamp};

verus! {

broadcast use group_seqs;

#[derive(Debug, Clone, Copy, PartialEq, Eq, Hash, Structural)]
pub enum Sport {
    Nfl,
    Nba,
    Wnba,
    Mlb,
    Tennis,
}

impl Sport {
    /// Every sport, in the order in which lists show them.
    pub fn all() -> (result: [Sport; 5])
        ensures
            result@ == all_sports(),
    {
        let all = [Sport::Nfl, Sport::Nba, Sport::Wnba, Sport::Mlb, Sport::Tennis];
        assert(all@ =~= all_sports());
        all
    }

    pub open spec fn path(self) -> Seq<char> {
        match self {
            Sport::Nfl => "/v2/leagues/nfl/events"@,
            Sport::Nba => "/v2/leagues/nba/events"@,
            Sport::Wnba => "/v2/leagues/wnba/events"@,
            Sport::Mlb => "/v2/leagues/mlb/events"@,
            Sport::Tennis => "/v2/sports/tennis/events"@,
        }
    }

    /// Where the venue lists the sport's events.
    pub fn discovery_path(self) -> (result: &'static str)
        ensures
            result@ == self.path(),
    {
        match self {
            Sport::Nfl => "/v2/leagues/nfl/events",
            Sport::Nba => "/v2/leagues/nba/events",
            Sport::Wnba => "/v2/leagues/wnba/events",
            Sport::Mlb => "/v2/leagues/mlb/events",
            Sport::Tennis => "/v2/sports/tennis/events",
        }
    }

    pub open spec fn winner_type(self) -> Seq<char> {
        match self {
            Sport::Nfl => "football_team_full_game_winner"@,
            Sport::Nba | Sport::Wnba => "basketball_team_full_game_winner"@,
            Sport::Mlb => "baseball_team_full_game_winner"@,
            Sport::Tennis => "tennis_match_winner"@,
        }
    }

    /// The venue's name for the sport's full-game winner market.
    pub fn moneyline_type(self) -> (result: &'static str)
        ensures
            result@ == self.winner_type(),
    {
        match self {
            Sport::Nfl => "football_team_full_game_winner",
            Sport::Nba | Sport::Wnba => "basketball_team_full_game_winner",
            Sport::Mlb => "baseball_team_full_game_winner",
            Sport::Tennis => "tennis_match_winner",
        }
    }

    pub open spec fn label(self) -> Seq<char> {
        match self {
            Sport::Nfl => "nfl"@,
            Sport::Nba => "nba"@,
            Sport::Wnba => "wnba"@,
            Sport::Mlb => "mlb"@,
            Sport::Tennis => "tennis"@,
        }
    }

    /// The sport's name in lower case.
    pub fn name(self) -> (result: &'static str)
        ensures
            result@ == self.label(),
    {
        match self {
            Sport::Nfl => "nfl",
            Sport::Nba => "nba",
            Sport::Wnba => "wnba",
            Sport::Mlb => "mlb",
            Sport::Tennis => "tennis",
        }
    }

    /// The sport with a name, if there is one.
    pub fn from_name(name: &str) -> (result: Option<Sport>)
        ensures
            result matches Some(sport) ==> sport.label() == name@,
            result is None ==> forall|sport: Sport| #[trigger] sport.label() != name@,
    {
        if same(name, "nfl") {
            Some(Sport::Nfl)
        } else if same(name, "nba") {
            Some(Sport::Nba)
        } else if same(name, "wnba") {
            Some(Sport::Wnba)
        } else if same(name, "mlb") {
            Some(Sport::Mlb)
        } else if same(name, "tennis") {
            Some(Sport::Tennis)
        } else {
            None
        }
    }
}

pub open spec fn all_sports() -> Seq<Sport> {
    seq![Sport::Nfl, Sport::Nba, Sport::Wnba, Sport::Mlb, Sport::Tennis]
}

/// No two sports, sides or classes share a name, so that a name read back is
/// the value that was written.
pub proof fn names_are_distinct()
    ensures
        forall|a: Sport, b: Sport| #[trigger] a.label() == #[trigger] b.label() ==> a == b,
        forall|a: OutcomeSide, b: OutcomeSide|
            #[trigger] a.label() == #[trigger] b.label() ==> a == b,
        forall|a: RecommendationClass, b: RecommendationClass|
            #[trigger] a.label() == #[trigger] b.label() ==> a == b,
{
    reveal_strlit("nfl");
    reveal_strlit("nba");
    reveal_strlit("wnba");
    reveal_strlit("mlb");
    reveal_strlit("tennis");
    reveal_strlit("long");
    reveal_strlit("short");
    reveal_strlit("actionable");
    reveal_strlit("watchlist");
    reveal_strlit("rejected");
    assert("wnba"@.len() == 4 && "tennis"@.len() == 6 && "nfl"@.len() == "nba"@.len()
        == "mlb"@.len() == 3);
    assert("long"@.len() == 4 && "short"@.len() == 5);
    assert("nfl"@[1] == 'f' && "nba"@[1] == 'b' && "mlb"@[1] == 'l');
    assert("actionable"@.len() == 10 && "watchlist"@.len() == 9 && "rejected"@.len() == 8);
}

/// What tells one game from another.
#[derive(Debug)]
pub struct EventKey {
    pub sport: Sport,
    pub participant_a: String,
    pub participant_b: String,
    pub start_time: Timestamp,
}

/// The identity of a game.
pub struct EventIdentity {
    pub sport: Sport,
    pub participant_a: Seq<char>,
    pub participant_b: Seq<char>,
    pub start_time: int,
}

impl View for EventKey {
    type V = EventIdentity;

    open spec fn view(&self) -> EventIdentity {
        EventIdentity {
            sport: self.sport,
            participant_a: self.participant_a@,
            participant_b: self.participant_b@,
            start_time: self.start_time@,
        }
    }
}

impl Clone for EventKey {
    fn clone(&self) -> (result: EventKey)
        ensures
            result@ == self@,
    {
        EventKey {
            sport: self.sport,
            participant_a: self.participant_a.clone(),
            participant_b: self.participant_b.clone(),
            start_time: self.start_time,
        }
    }
}

/// A book or exchange whose prices are its own. Several skins of one operator
/// are one family.
#[derive(Debug)]
pub enum SourceFamily {
    Pinnacle,
    Circa,
    Bookmaker,
    BetOnline,
    Bet365,
    DraftKings,
    FanDuel,
    Caesars,
    BetMgm,
    Fanatics,
    Kambi,
    HardRock,
    Penn,
    Bovada,
    LowVig,
    /// Kalshi regulated exchange; independent order flow, not a sportsbook.
    Kalshi,
    /// Polymarket global order book; separate participant pool from Polymarket US.
    PolymarketGlobal,
    /// A real book or exchange without a variant of its own. Counts as its own
    /// family but can never be a reference book.
    Other(String),
    Validation(String),
}

/// A family with its text as a sequence.
pub enum Family {
    Pinnacle,
    Circa,
    Bookmaker,
    BetOnline,
    Bet365,
    DraftKings,
    FanDuel,
    Caesars,
    BetMgm,
    Fanatics,
    Kambi,
    HardRock,
    Penn,
    Bovada,
    LowVig,
    Kalshi,
    PolymarketGlobal,
    Other(Seq<char>),
    Validation(Seq<char>),
}

impl View for SourceFamily {
    type V = Family;

    open spec fn view(&self) -> Family {
        match *self {
            SourceFamily::Pinnacle => Family::Pinnacle,
            SourceFamily::Circa => Family::Circa,
            SourceFamily::Bookmaker => Family::Bookmaker,
            SourceFamily::BetOnline => Family::BetOnline,
            SourceFamily::Bet365 => Family::Bet365,
            SourceFamily::DraftKings => Family::DraftKings,
            SourceFamily::FanDuel => Family::FanDuel,
            SourceFamily::Caesars => Family::Caesars,
            SourceFamily::BetMgm => Family::BetMgm,
            SourceFamily::Fanatics => Family::Fanatics,
            SourceFamily::Kambi => Family::Kambi,
            SourceFamily::HardRock => Family::HardRock,
            SourceFamily::Penn => Family::Penn,
            SourceFamily::Bovada => Family::Bovada,
            SourceFamily::LowVig => Family::LowVig,
            SourceFamily::Kalshi => Family::Kalshi,
            SourceFamily::PolymarketGlobal => Family::PolymarketGlobal,
            SourceFamily::Other(s) => Family::Other(s@),
            SourceFamily::Validation(s) => Family::Validation(s@),
        }
    }
}

impl Clone for SourceFamily {
    fn clone(&self) -> (result: SourceFamily)
        ensures
            result@ == self@,
    {
        match self {
            SourceFamily::Pinnacle => SourceFamily::Pinnacle,
            SourceFamily::Circa => SourceFamily::Circa,
            SourceFamily::Bookmaker => SourceFamily::Bookmaker,
            SourceFamily::BetOnline => SourceFamily::BetOnline,
            SourceFamily::Bet365 => SourceFamily::Bet365,
            SourceFamily::DraftKings => SourceFamily::DraftKings,
            SourceFamily::FanDuel => SourceFamily::FanDuel,
            SourceFamily::Caesars => SourceFamily::Caesars,
            SourceFamily::BetMgm => SourceFamily::BetMgm,
            SourceFamily::Fanatics => SourceFamily::Fanatics,
            SourceFamily::Kambi => SourceFamily::Kambi,
            SourceFamily::HardRock => SourceFamily::HardRock,
            SourceFamily::Penn => SourceFamily::Penn,
            SourceFamily::Bovada => SourceFamily::Bovada,
            SourceFamily::LowVig => SourceFamily::LowVig,
            SourceFamily::Kalshi => SourceFamily::Kalshi,
            SourceFamily::PolymarketGlobal => SourceFamily::PolymarketGlobal,
            SourceFamily::Other(s) => SourceFamily::Other(s.clone()),
            SourceFamily::Validation(s) => SourceFamily::Validation(s.clone()),
        }
    }
}

impl PartialEq for SourceFamily {
    fn eq(&self, other: &SourceFamily) -> (result: bool) {
        match (self, other) {
            (SourceFamily::Pinnacle, SourceFamily::Pinnacle) => true,
            (SourceFamily::Circa, SourceFamily::Circa) => true,
            (SourceFamily::Bookmaker, SourceFamily::Bookmaker) => true,
            (SourceFamily::BetOnline, SourceFamily::BetOnline) => true,
            (SourceFamily::Bet365, SourceFamily::Bet365) => true,
            (SourceFamily::DraftKings, SourceFamily::DraftKings) => true,
            (SourceFamily::FanDuel, SourceFamily::FanDuel) => true,
            (SourceFamily::Caesars, SourceFamily::Caesars) => true,
            (SourceFamily::BetMgm, SourceFamily::BetMgm) => true,
            (SourceFamily::Fanatics, SourceFamily::Fanatics) => true,
            (SourceFamily::Kambi, SourceFamily::Kambi) => true,
            (SourceFamily::HardRock, SourceFamily::HardRock) => true,
            (SourceFamily::Penn, SourceFamily::Penn) => true,
            (SourceFamily::Bovada, SourceFamily::Bovada) => true,
            (SourceFamily::LowVig, SourceFamily::LowVig) => true,
            (SourceFamily::Kalshi, SourceFamily::Kalshi) => true,
            (SourceFamily::PolymarketGlobal, SourceFamily::PolymarketGlobal) => true,
            (SourceFamily::Other(a), SourceFamily::Other(b)) => same(a.as_str(), b.as_str()),
            (SourceFamily::Validation(a), SourceFamily::Validation(b)) => same(
                a.as_str(),
                b.as_str(),
            ),
            _ => false,
        }
    }
}

impl vstd::std_specs::cmp::PartialEqSpecImpl for SourceFamily {
    open spec fn obeys_eq_spec() -> bool {
        true
    }

    open spec fn eq_spec(&self, other: &SourceFamily) -> bool {
        self@ == other@
    }
}

impl Eq for SourceFamily {

}

impl Family {
    /// Books whose prices the others follow.
    pub open spec fn reference(self) -> bool {
        self is Pinnacle || self is Circa || self is Bookmaker || self is BetOnline
    }

    /// Exchanges, whose prices are calibrated only close to the start.
    pub open spec fn exchange(self) -> bool {
        self is Kalshi || self is PolymarketGlobal
    }
}

impl SourceFamily {
    pub fn is_reference(&self) -> (result: bool)
        ensures
            result == self@.reference(),
    {
        match self {
            SourceFamily::Pinnacle
            | SourceFamily::Circa
            | SourceFamily::Bookmaker
            | SourceFamily::BetOnline => true,
            _ => false,
        }
    }

    /// The family that owns a bookmaker key of The Odds API, so that skins of
    /// one operator are never counted twice.
    pub fn from_odds_api_key(key: &str) -> (result: SourceFamily)
        ensures
            result@ == odds_api_family(key@),
    {

        if same(key, "pinnacle") {
            SourceFamily::Pinnacle
        } else if same(key, "circasports") {
            SourceFamily::Circa
        } else if same(key, "bookmaker") {
            SourceFamily::Bookmaker
        } else if same(key, "betonlineag") {
            SourceFamily::BetOnline
        } else if same(key, "bet365") || same(key, "bet365_au") {
            SourceFamily::Bet365
        } else if same(key, "draftkings") {
            SourceFamily::DraftKings
        } else if same(key, "fanduel") {
            SourceFamily::FanDuel
        } else if same(key, "williamhill_us") || same(key, "williamhill") || same(key, "caesars") {
            SourceFamily::Caesars
        } else if same(key, "betmgm") || same(key, "betmgm_uk") {
            SourceFamily::BetMgm
        } else if same(key, "fanatics") {
            SourceFamily::Fanatics
        } else if same(key, "betrivers") || same(key, "unibet_us") || same(key, "unibet_uk") || same(key, "unibet_eu") {
            SourceFamily::Kambi
        } else if same(key, "hardrockbet") || same(key, "hardrockbet_az") || same(key, "hardrockbet_fl") || same(key, "hardrockbet_oh") {
            SourceFamily::HardRock
        } else if same(key, "espnbet") || same(key, "thescorebet") {
            SourceFamily::Penn
        } else if same(key, "bovada") {
            SourceFamily::Bovada
        } else if same(key, "lowvig") {
            SourceFamily::LowVig
        } else if same(key, "kalshi") {
            SourceFamily::Kalshi
        } else if same(key, "polymarket") {
            SourceFamily::PolymarketGlobal
        } else {
            SourceFamily::Other(owned(key))
        }
    }
}

/// The family that owns a bookmaker key of The Odds API.
pub open spec fn odds_api_family(key: Seq<char>) -> Family {
    if key == "pinnacle"@ {
        Family::Pinnacle
    } else if key == "circasports"@ {
        Family::Circa
    } else if key == "bookmaker"@ {
        Family::Bookmaker
    } else if key == "betonlineag"@ {
        Family::BetOnline
    } else if key == "bet365"@ || key == "bet365_au"@ {
        Family::Bet365
    } else if key == "draftkings"@ {
        Family::DraftKings
    } else if key == "fanduel"@ {
        Family::FanDuel
    } else if key == "williamhill_us"@ || key == "williamhill"@ || key == "caesars"@ {
        Family::Caesars
    } else if key == "betmgm"@ || key == "betmgm_uk"@ {
        Family::BetMgm
    } else if key == "fanatics"@ {
        Family::Fanatics
    } else if key == "betrivers"@ || key == "unibet_us"@ || key == "unibet_uk"@ || key == "unibet_eu"@ {
        Family::Kambi
    } else if key == "hardrockbet"@ || key == "hardrockbet_az"@ || key == "hardrockbet_fl"@ || key == "hardrockbet_oh"@ {
        Family::HardRock
    } else if key == "espnbet"@ || key == "thescorebet"@ {
        Family::Penn
    } else if key == "bovada"@ {
        Family::Bovada
    } else if key == "lowvig"@ {
        Family::LowVig
    } else if key == "kalshi"@ {
        Family::Kalshi
    } else if key == "polymarket"@ {
        Family::PolymarketGlobal
    } else {
        Family::Other(key)
    }
}

/// The start-time mismatch that the matcher accepts unless a quote says more.
pub const DEFAULT_START_TIME_TOLERANCE_MINUTES: i64 = 15;

pub fn default_start_time_tolerance() -> (result: i64)
    ensures
        result == DEFAULT_START_TIME_TOLERANCE_MINUTES,
{
    DEFAULT_START_TIME_TOLERANCE_MINUTES
}

/// One two-way price from one source.
#[derive(Debug)]
pub struct SourceQuote {
    pub source_id: String,
    pub family: SourceFamily,
    pub sport: Sport,
    pub event_id: String,
    pub participant_a: String,
    pub participant_b: String,
    pub participant_a_provider_ids: TextMap<String>,
    pub participant_b_provider_ids: TextMap<String>,
    pub start_time: Timestamp,
    /// Widest start-time mismatch the matcher may accept. Sources that only
    /// publish a calendar date set this large enough to cover the day.
    pub start_time_tolerance_minutes: i64,
    pub decimal_odds_a: Decimal,
    pub decimal_odds_b: Decimal,
    pub decimal_odds_neutral: Option<Decimal>,
    pub source_timestamp: Timestamp,
    pub fetched_at: Timestamp,
    pub parser_version: String,
    pub validation_only: bool,
}

/// A quote with its texts and numbers as mathematics.
pub struct Quote {
    pub source_id: Seq<char>,
    pub family: Family,
    pub sport: Sport,
    pub event_id: Seq<char>,
    pub participant_a: Seq<char>,
    pub participant_b: Seq<char>,
    pub participant_a_provider_ids: Map<Seq<char>, Seq<char>>,
    pub participant_b_provider_ids: Map<Seq<char>, Seq<char>>,
    pub start_time: int,
    pub start_time_tolerance_minutes: int,
    pub decimal_odds_a: Dec,
    pub decimal_odds_b: Dec,
    pub decimal_odds_neutral: Option<Dec>,
    pub source_timestamp: int,
    pub fetched_at: int,
    pub parser_version: Seq<char>,
    pub validation_only: bool,
}

impl View for SourceQuote {
    type V = Quote;

    open spec fn view(&self) -> Quote {
        Quote {
            source_id: self.source_id@,
            family: self.family@,
            sport: self.sport,
            event_id: self.event_id@,
            participant_a: self.participant_a@,
            participant_b: self.participant_b@,
            participant_a_provider_ids: self.participant_a_provider_ids.deep(),
            participant_b_provider_ids: self.participant_b_provider_ids.deep(),
            start_time: self.start_time@,
            start_time_tolerance_minutes: self.start_time_tolerance_minutes as int,
            decimal_odds_a: self.decimal_odds_a@,
            decimal_odds_b: self.decimal_odds_b@,
            decimal_odds_neutral: dec_of(self.decimal_odds_neutral),
            source_timestamp: self.source_timestamp@,
            fetched_at: self.fetched_at@,
            parser_version: self.parser_version@,
            validation_only: self.validation_only,
        }
    }
}

impl Clone for SourceQuote {
    fn clone(&self) -> (result: SourceQuote)
        ensures
            result@ == self@,
    {
        SourceQuote {
            source_id: self.source_id.clone(),
            family: self.family.clone(),
            sport: self.sport,
            event_id: self.event_id.clone(),
            participant_a: self.participant_a.clone(),
            participant_b: self.participant_b.clone(),
            participant_a_provider_ids: self.participant_a_provider_ids.copied(),
            participant_b_provider_ids: self.participant_b_provider_ids.copied(),
            start_time: self.start_time,
            start_time_tolerance_minutes: self.start_time_tolerance_minutes,
            decimal_odds_a: self.decimal_odds_a,
            decimal_odds_b: self.decimal_odds_b,
            decimal_odds_neutral: self.decimal_odds_neutral,
            source_timestamp: self.source_timestamp,
            fetched_at: self.fetched_at,
            parser_version: self.parser_version.clone(),
            validation_only: self.validation_only,
        }
    }
}

pub open spec fn source_quote_views(items: Seq<SourceQuote>) -> Seq<Quote> {
    items.map_values(|item: SourceQuote| item@)
}

/// A quote with the bookmaker's margin taken out.
#[derive(Debug)]
pub struct FairQuote {
    pub source_id: String,
    pub family: SourceFamily,
    pub probability_a: Decimal,
    pub probability_b: Decimal,
    pub probability_neutral: Decimal,
    pub source_timestamp: Timestamp,
}

/// A fair quote as mathematics.
pub struct Fair {
    pub source_id: Seq<char>,
    pub family: Family,
    pub probability_a: Dec,
    pub probability_b: Dec,
    pub probability_neutral: Dec,
    pub source_timestamp: int,
}

impl View for FairQuote {
    type V = Fair;

    open spec fn view(&self) -> Fair {
        Fair {
            source_id: self.source_id@,
            family: self.family@,
            probability_a: self.probability_a@,
            probability_b: self.probability_b@,
            probability_neutral: self.probability_neutral@,
            source_timestamp: self.source_timestamp@,
        }
    }
}

impl Clone for FairQuote {
    fn clone(&self) -> (result: FairQuote)
        ensures
            result@ == self@,
    {
        FairQuote {
            source_id: self.source_id.clone(),
            family: self.family.clone(),
            probability_a: self.probability_a,
            probability_b: self.probability_b,
            probability_neutral: self.probability_neutral,
            source_timestamp: self.source_timestamp,
        }
    }
}

/// What the independent families agree on.
#[derive(Debug)]
pub struct ConsensusPrice {
    pub probability_a: Decimal,
    pub probability_b: Decimal,
    pub probability_neutral: Decimal,
    pub dispersion_a: Decimal,
    pub family_count: usize,
    pub has_reference: bool,
    pub source_ids: Vec<String>,
    pub newest_source_timestamp: Timestamp,
}

/// A consensus as mathematics.
pub struct Consensus {
    pub probability_a: Dec,
    pub probability_b: Dec,
    pub probability_neutral: Dec,
    pub dispersion_a: Dec,
    pub family_count: nat,
    pub has_reference: bool,
    pub source_ids: Seq<Seq<char>>,
    pub newest_source_timestamp: int,
}

impl View for ConsensusPrice {
    type V = Consensus;

    open spec fn view(&self) -> Consensus {
        Consensus {
            probability_a: self.probability_a@,
            probability_b: self.probability_b@,
            probability_neutral: self.probability_neutral@,
            dispersion_a: self.dispersion_a@,
            family_count: self.family_count as nat,
            has_reference: self.has_reference,
            source_ids: texts(self.source_ids@),
            newest_source_timestamp: self.newest_source_timestamp@,
        }
    }
}

impl Clone for ConsensusPrice {
    fn clone(&self) -> (result: ConsensusPrice)
        ensures
            result@ == self@,
    {
        ConsensusPrice {
            probability_a: self.probability_a,
            probability_b: self.probability_b,
            probability_neutral: self.probability_neutral,
            dispersion_a: self.dispersion_a,
            family_count: self.family_count,
            has_reference: self.has_reference,
            source_ids: copy_texts(&self.source_ids),
            newest_source_timestamp: self.newest_source_timestamp,
        }
    }
}

#[derive(Debug, Clone, Copy, PartialEq, Eq, Hash, Structural)]
pub enum OutcomeSide {
    Long,
    Short,
}

impl OutcomeSide {
    pub open spec fn label(self) -> Seq<char> {
        match self {
            OutcomeSide::Long => "long"@,
            OutcomeSide::Short => "short"@,
        }
    }

    /// The side's name in records.
    pub fn name(self) -> (result: &'static str)
        ensures
            result@ == self.label(),
    {
        match self {
            OutcomeSide::Long => "long",
            OutcomeSide::Short => "short",
        }
    }

    /// The side with a name, if there is one.
    pub fn from_name(name: &str) -> (result: Option<OutcomeSide>)
        ensures
            result matches Some(side) ==> side.label() == name@,
            result is None ==> forall|side: OutcomeSide| #[trigger] side.label() != name@,
    {
        if same(name, "long") {
            Some(OutcomeSide::Long)
        } else if same(name, "short") {
            Some(OutcomeSide::Short)
        } else {
            None
        }
    }

    pub open spec fn title(self) -> Seq<char> {
        match self {
            OutcomeSide::Long => "Long"@,
            OutcomeSide::Short => "Short"@,
        }
    }

    /// The side's name in identifiers.
    pub fn capitalized(self) -> (result: &'static str)
        ensures
            result@ == self.title(),
    {
        match self {
            OutcomeSide::Long => "Long",
            OutcomeSide::Short => "Short",
        }
    }
}

/// One price of an order book and what rests there.
#[derive(Debug)]
pub struct BookLevel {
    pub yes_price: Decimal,
    pub quantity: Decimal,
}

/// A level as mathematics.
pub struct Level {
    pub yes_price: Dec,
    pub quantity: Dec,
}

impl View for BookLevel {
    type V = Level;

    open spec fn view(&self) -> Level {
        Level {
            yes_price: self.yes_price@,
            quantity: self.quantity@,
        }
    }
}

impl Clone for BookLevel {
    fn clone(&self) -> (result: BookLevel)
        ensures
            result@ == self@,
    {
        BookLevel {
            yes_price: self.yes_price,
            quantity: self.quantity,
        }
    }
}

pub open spec fn book_level_views(items: Seq<BookLevel>) -> Seq<Level> {
    items.map_values(|item: BookLevel| item@)
}

pub fn copy_book_levels(items: &Vec<BookLevel>) -> (result: Vec<BookLevel>)
    ensures
        book_level_views(result@) == book_level_views(items@),
{
    let mut out: Vec<BookLevel> = Vec::new();
    let mut i: usize = 0;
    while i < items.len()
        invariant
            i <= items@.len(),
            book_level_views(out@) == book_level_views(items@.take(i as int)),
        decreases items@.len() - i,
    {
        out.push(items[i].clone());
        proof {
            take_next(items@, i as int);
        }
        i = i + 1;
    }
    out
}

/// The order book of one market.
#[derive(Debug)]
pub struct MarketBook {
    pub market_slug: String,
    pub bids: Vec<BookLevel>,
    pub offers: Vec<BookLevel>,
    pub state: String,
    /// Last time the venue changed this book. An unchanged book is still live.
    pub transact_time: Timestamp,
    /// When this snapshot was retrieved; freshness is judged against this.
    pub fetched_at: Timestamp,
}

/// A book as mathematics.
pub struct Book {
    pub market_slug: Seq<char>,
    pub bids: Seq<Level>,
    pub offers: Seq<Level>,
    pub state: Seq<char>,
    pub transact_time: int,
    pub fetched_at: int,
}

impl View for MarketBook {
    type V = Book;

    open spec fn view(&self) -> Book {
        Book {
            market_slug: self.market_slug@,
            bids: book_level_views(self.bids@),
            offers: book_level_views(self.offers@),
            state: self.state@,
            transact_time: self.transact_time@,
            fetched_at: self.fetched_at@,
        }
    }
}

impl Clone for MarketBook {
    fn clone(&self) -> (result: MarketBook)
        ensures
            result@ == self@,
    {
        MarketBook {
            market_slug: self.market_slug.clone(),
            bids: copy_book_levels(&self.bids),
            offers: copy_book_levels(&self.offers),
            state: self.state.clone(),
            transact_time: self.transact_time,
            fetched_at: self.fetched_at,
        }
    }
}

pub open spec fn market_book_views(items: Seq<MarketBook>) -> Seq<Book> {
    items.map_values(|item: MarketBook| item@)
}

/// One side of a market.
#[derive(Debug)]
pub struct MarketParticipant {
    pub side_id: String,
    pub name: String,
    pub long: bool,
    pub team_id: Option<i64>,
    pub provider_ids: TextMap<String>,
}

/// A participant as mathematics.
pub struct Participant {
    pub side_id: Seq<char>,
    pub name: Seq<char>,
    pub long: bool,
    pub team_id: Option<i64>,
    pub provider_ids: Map<Seq<char>, Seq<char>>,
}

impl View for MarketParticipant {
    type V = Participant;

    open spec fn view(&self) -> Participant {
        Participant {
            side_id: self.side_id@,
            name: self.name@,
            long: self.long,
            team_id: self.team_id,
            provider_ids: self.provider_ids.deep(),
        }
    }
}

impl Clone for MarketParticipant {
    fn clone(&self) -> (result: MarketParticipant)
        ensures
            result@ == self@,
    {
        MarketParticipant {
            side_id: self.side_id.clone(),
            name: self.name.clone(),
            long: self.long,
            team_id: self.team_id,
            provider_ids: self.provider_ids.copied(),
        }
    }
}

/// One winner market of the venue.
#[derive(Debug)]
pub struct UsMoneylineMarket {
    pub event_id: String,
    pub game_id: Option<i64>,
    pub sportradar_game_id: Option<String>,
    pub sport: Sport,
    pub start_time: Timestamp,
    pub market_id: String,
    pub market_slug: String,
    pub description: String,
    pub sports_market_type: String,
    pub long_participant: MarketParticipant,
    pub short_participant: MarketParticipant,
    pub tick_size: Decimal,
    pub minimum_quantity: Decimal,
    pub fee_coefficient: Decimal,
    pub ep3_status: String,
    pub ep3_synced_at: Option<Timestamp>,
}

/// A market as mathematics.
pub struct Market {
    pub event_id: Seq<char>,
    pub game_id: Option<i64>,
    pub sportradar_game_id: Option<Seq<char>>,
    pub sport: Sport,
    pub start_time: int,
    pub market_id: Seq<char>,
    pub market_slug: Seq<char>,
    pub description: Seq<char>,
    pub sports_market_type: Seq<char>,
    pub long_participant: Participant,
    pub short_participant: Participant,
    pub tick_size: Dec,
    pub minimum_quantity: Dec,
    pub fee_coefficient: Dec,
    pub ep3_status: Seq<char>,
    pub ep3_synced_at: Option<int>,
}

impl View for UsMoneylineMarket {
    type V = Market;

    open spec fn view(&self) -> Market {
        Market {
            event_id: self.event_id@,
            game_id: self.game_id,
            sportradar_game_id: text_of(self.sportradar_game_id),
            sport: self.sport,
            start_time: self.start_time@,
            market_id: self.market_id@,
            market_slug: self.market_slug@,
            description: self.description@,
            sports_market_type: self.sports_market_type@,
            long_participant: self.long_participant@,
            short_participant: self.short_participant@,
            tick_size: self.tick_size@,
            minimum_quantity: self.minimum_quantity@,
            fee_coefficient: self.fee_coefficient@,
            ep3_status: self.ep3_status@,
            ep3_synced_at: instant_of(self.ep3_synced_at),
        }
    }
}

impl Clone for UsMoneylineMarket {
    fn clone(&self) -> (result: UsMoneylineMarket)
        ensures
            result@ == self@,
    {
        UsMoneylineMarket {
            event_id: self.event_id.clone(),
            game_id: self.game_id,
            sportradar_game_id: copy_text(&self.sportradar_game_id),
            sport: self.sport,
            start_time: self.start_time,
            market_id: self.market_id.clone(),
            market_slug: self.market_slug.clone(),
            description: self.description.clone(),
            sports_market_type: self.sports_market_type.clone(),
            long_participant: self.long_participant.clone(),
            short_participant: self.short_participant.clone(),
            tick_size: self.tick_size,
            minimum_quantity: self.minimum_quantity,
            fee_coefficient: self.fee_coefficient,
            ep3_status: self.ep3_status.clone(),
            ep3_synced_at: self.ep3_synced_at,
        }
    }
}

pub open spec fn us_moneyline_market_views(items: Seq<UsMoneylineMarket>) -> Seq<Market> {
    items.map_values(|item: UsMoneylineMarket| item@)
}

pub fn copy_us_moneyline_markets(items: &Vec<UsMoneylineMarket>) -> (result: Vec<UsMoneylineMarket>)
    ensures
        us_moneyline_market_views(result@) == us_moneyline_market_views(items@),
{
    let mut out: Vec<UsMoneylineMarket> = Vec::new();
    let mut i: usize = 0;
    while i < items.len()
        invariant
            i <= items@.len(),
            us_moneyline_market_views(out@) == us_moneyline_market_views(items@.take(i as int)),
        decreases items@.len() - i,
    {
        out.push(items[i].clone());
        proof {
            take_next(items@, i as int);
        }
        i = i + 1;
    }
    out
}

#[derive(Debug, Clone, Copy, PartialEq, Eq, Hash, Structural)]
pub enum RecommendationClass {
    Actionable,
    Watchlist,
    Rejected,
}

impl RecommendationClass {
    pub open spec fn label(self) -> Seq<char> {
        match self {
            RecommendationClass::Actionable => "actionable"@,
            RecommendationClass::Watchlist => "watchlist"@,
            RecommendationClass::Rejected => "rejected"@,
        }
    }

    /// The class as records name it.
    pub fn name(self) -> (result: &'static str)
        ensures
            result@ == self.label(),
    {
        match self {
            RecommendationClass::Actionable => "actionable",
            RecommendationClass::Watchlist => "watchlist",
            RecommendationClass::Rejected => "rejected",
        }
    }

    /// The class with a name, if there is one.
    pub fn from_name(name: &str) -> (result: Option<RecommendationClass>)
        ensures
            result matches Some(class) ==> class.label() == name@,
            result is None ==> forall|class: RecommendationClass| #[trigger] class.label() != name@,
    {
        if same(name, "actionable") {
            Some(RecommendationClass::Actionable)
        } else if same(name, "watchlist") {
            Some(RecommendationClass::Watchlist)
        } else if same(name, "rejected") {
            Some(RecommendationClass::Rejected)
        } else {
            None
        }
    }

    pub open spec fn title(self) -> Seq<char> {
        match self {
            RecommendationClass::Actionable => "Actionable"@,
            RecommendationClass::Watchlist => "Watchlist"@,
            RecommendationClass::Rejected => "Rejected"@,
        }
    }

    /// The class with a capital letter.
    pub fn capitalized(self) -> (result: &'static str)
        ensures
            result@ == self.title(),
    {
        match self {
            RecommendationClass::Actionable => "Actionable",
            RecommendationClass::Watchlist => "Watchlist",
            RecommendationClass::Rejected => "Rejected",
        }
    }

    /// How far a class is from being rejected.
    pub open spec fn strength(self) -> int {
        match self {
            RecommendationClass::Rejected => 0,
            RecommendationClass::Watchlist => 1,
            RecommendationClass::Actionable => 2,
        }
    }

    /// How far a class is from being rejected.
    pub fn rank(self) -> (result: u8)
        ensures
            result == self.strength(),
    {
        match self {
            RecommendationClass::Rejected => 0,
            RecommendationClass::Watchlist => 1,
            RecommendationClass::Actionable => 2,
        }
    }
}

/// One side of one market, priced and classified.
#[derive(Debug)]
pub struct Opportunity {
    pub id: u128,
    pub generated_at: Timestamp,
    pub class: RecommendationClass,
    pub sport: Sport,
    pub event_id: String,
    pub market_id: String,
    pub market_slug: String,
    pub participant: String,
    pub side: OutcomeSide,
    pub fair_probability: Decimal,
    pub conservative_probability: Decimal,
    pub executable_price: Decimal,
    pub maker_price: Option<Decimal>,
    pub maker_net_edge: Option<Decimal>,
    pub raw_edge: Decimal,
    pub net_edge: Decimal,
    pub quantity: Decimal,
    pub maximum_loss: Decimal,
    pub estimated_fee: Decimal,
    pub family_count: usize,
    pub source_ids: Vec<String>,
    /// Scheduled start of the underlying game or match.
    pub start_time: Timestamp,
    pub book_time: Timestamp,
    pub reasons: Vec<String>,
}

/// An opportunity as mathematics.
pub struct Row {
    pub id: int,
    pub generated_at: int,
    pub class: RecommendationClass,
    pub sport: Sport,
    pub event_id: Seq<char>,
    pub market_id: Seq<char>,
    pub market_slug: Seq<char>,
    pub participant: Seq<char>,
    pub side: OutcomeSide,
    pub fair_probability: Dec,
    pub conservative_probability: Dec,
    pub executable_price: Dec,
    pub maker_price: Option<Dec>,
    pub maker_net_edge: Option<Dec>,
    pub raw_edge: Dec,
    pub net_edge: Dec,
    pub quantity: Dec,
    pub maximum_loss: Dec,
    pub estimated_fee: Dec,
    pub family_count: nat,
    pub source_ids: Seq<Seq<char>>,
    pub start_time: int,
    pub book_time: int,
    pub reasons: Seq<Seq<char>>,
}

impl View for Opportunity {
    type V = Row;

    open spec fn view(&self) -> Row {
        Row {
            id: self.id as int,
            generated_at: self.generated_at@,
            class: self.class,
            sport: self.sport,
            event_id: self.event_id@,
            market_id: self.market_id@,
            market_slug: self.market_slug@,
            participant: self.participant@,
            side: self.side,
            fair_probability: self.fair_probability@,
            conservative_probability: self.conservative_probability@,
            executable_price: self.executable_price@,
            maker_price: dec_of(self.maker_price),
            maker_net_edge: dec_of(self.maker_net_edge),
            raw_edge: self.raw_edge@,
            net_edge: self.net_edge@,
            quantity: self.quantity@,
            maximum_loss: self.maximum_loss@,
            estimated_fee: self.estimated_fee@,
            family_count: self.family_count as nat,
            source_ids: texts(self.source_ids@),
            start_time: self.start_time@,
            book_time: self.book_time@,
            reasons: texts(self.reasons@),
        }
    }
}

impl Clone for Opportunity {
    fn clone(&self) -> (result: Opportunity)
        ensures
            result@ == self@,
    {
        Opportunity {
            id: self.id,
            generated_at: self.generated_at,
            class: self.class,
            sport: self.sport,
            event_id: self.event_id.clone(),
            market_id: self.market_id.clone(),
            market_slug: self.market_slug.clone(),
            participant: self.participant.clone(),
            side: self.side,
            fair_probability: self.fair_probability,
            conservative_probability: self.conservative_probability,
            executable_price: self.executable_price,
            maker_price: self.maker_price,
            maker_net_edge: self.maker_net_edge,
            raw_edge: self.raw_edge,
            net_edge: self.net_edge,
            quantity: self.quantity,
            maximum_loss: self.maximum_loss,
            estimated_fee: self.estimated_fee,
            family_count: self.family_count,
            source_ids: copy_texts(&self.source_ids),
            start_time: self.start_time,
            book_time: self.book_time,
            reasons: copy_texts(&self.reasons),
        }
    }
}

pub open spec fn opportunity_views(items: Seq<Opportunity>) -> Seq<Row> {
    items.map_values(|item: Opportunity| item@)
}

pub fn copy_opportunities(items: &Vec<Opportunity>) -> (result: Vec<Opportunity>)
    ensures
        opportunity_views(result@) == opportunity_views(items@),
{
    let mut out: Vec<Opportunity> = Vec::new();
    let mut i: usize = 0;
    while i < items.len()
        invariant
            i <= items@.len(),
            opportunity_views(out@) == opportunity_views(items@.take(i as int)),
        decreases items@.len() - i,
    {
        out.push(items[i].clone());
        proof {
            take_next(items@, i as int);
        }
        i = i + 1;
    }
    out
}

/// A simulated position, open or closed.
#[derive(Debug)]
pub struct PaperPosition {
    pub opportunity_id: u128,
    pub event_id: String,
    pub market_id: String,
    pub market_slug: String,
    pub side: OutcomeSide,
    pub quantity: Decimal,
    pub entry_price: Decimal,
    pub fair_probability: Decimal,
    pub estimated_fee: Decimal,
    pub maximum_loss: Decimal,
    pub start_time: Option<Timestamp>,
    pub opened_at: Timestamp,
    /// Side price at the last observation before the start.
    pub closing_price: Option<Decimal>,
    pub settlement_payout: Option<Decimal>,
    pub realized_pnl: Option<Decimal>,
    pub closed_at: Option<Timestamp>,
}

/// A position as mathematics.
pub struct Position {
    pub opportunity_id: int,
    pub event_id: Seq<char>,
    pub market_id: Seq<char>,
    pub market_slug: Seq<char>,
    pub side: OutcomeSide,
    pub quantity: Dec,
    pub entry_price: Dec,
    pub fair_probability: Dec,
    pub estimated_fee: Dec,
    pub maximum_loss: Dec,
    pub start_time: Option<int>,
    pub opened_at: int,
    pub closing_price: Option<Dec>,
    pub settlement_payout: Option<Dec>,
    pub realized_pnl: Option<Dec>,
    pub closed_at: Option<int>,
}

impl View for PaperPosition {
    type V = Position;

    open spec fn view(&self) -> Position {
        Position {
            opportunity_id: self.opportunity_id as int,
            event_id: self.event_id@,
            market_id: self.market_id@,
            market_slug: self.market_slug@,
            side: self.side,
            quantity: self.quantity@,
            entry_price: self.entry_price@,
            fair_probability: self.fair_probability@,
            estimated_fee: self.estimated_fee@,
            maximum_loss: self.maximum_loss@,
            start_time: instant_of(self.start_time),
            opened_at: self.opened_at@,
            closing_price: dec_of(self.closing_price),
            settlement_payout: dec_of(self.settlement_payout),
            realized_pnl: dec_of(self.realized_pnl),
            closed_at: instant_of(self.closed_at),
        }
    }
}

impl Clone for PaperPosition {
    fn clone(&self) -> (result: PaperPosition)
        ensures
            result@ == self@,
    {
        PaperPosition {
            opportunity_id: self.opportunity_id,
            event_id: self.event_id.clone(),
            market_id: self.market_id.clone(),
            market_slug: self.market_slug.clone(),
            side: self.side,
            quantity: self.quantity,
            entry_price: self.entry_price,
            fair_probability: self.fair_probability,
            estimated_fee: self.estimated_fee,
            maximum_loss: self.maximum_loss,
            start_time: self.start_time,
            opened_at: self.opened_at,
            closing_price: self.closing_price,
            settlement_payout: self.settlement_payout,
            realized_pnl: self.realized_pnl,
            closed_at: self.closed_at,
        }
    }
}

pub open spec fn paper_position_views(items: Seq<PaperPosition>) -> Seq<Position> {
    items.map_values(|item: PaperPosition| item@)
}

pub fn copy_paper_positions(items: &Vec<PaperPosition>) -> (result: Vec<PaperPosition>)
    ensures
        paper_position_views(result@) == paper_position_views(items@),
{
    let mut out: Vec<PaperPosition> = Vec::new();
    let mut i: usize = 0;
    while i < items.len()
        invariant
            i <= items@.len(),
            paper_position_views(out@) == paper_position_views(items@.take(i as int)),
        decreases items@.len() - i,
    {
        out.push(items[i].clone());
        proof {
            take_next(items@, i as int);
        }
        i = i + 1;
    }
    out
}

/// The simulated bankroll and its positions.
#[derive(Debug)]
pub struct PaperPortfolio {
    pub bankroll: Decimal,
    pub open_exposure: Decimal,
    pub open_positions: Vec<PaperPosition>,
    pub closed_positions: Vec<PaperPosition>,
    pub realized_pnl: Decimal,
}

/// A portfolio as mathematics.
pub struct Portfolio {
    pub bankroll: Dec,
    pub open_exposure: Dec,
    pub open_positions: Seq<Position>,
    pub closed_positions: Seq<Position>,
    pub realized_pnl: Dec,
}

impl View for PaperPortfolio {
    type V = Portfolio;

    open spec fn view(&self) -> Portfolio {
        Portfolio {
            bankroll: self.bankroll@,
            open_exposure: self.open_exposure@,
            open_positions: paper_position_views(self.open_positions@),
            closed_positions: paper_position_views(self.closed_positions@),
            realized_pnl: self.realized_pnl@,
        }
    }
}

impl Clone for PaperPortfolio {
    fn clone(&self) -> (result: PaperPortfolio)
        ensures
            result@ == self@,
    {
        PaperPortfolio {
            bankroll: self.bankroll,
            open_exposure: self.open_exposure,
            open_positions: copy_paper_positions(&self.open_positions),
            closed_positions: copy_paper_positions(&self.closed_positions),
            realized_pnl: self.realized_pnl,
        }
    }
}

/// How one source answered.
#[derive(Debug)]
pub struct SourceHealth {
    pub source_id: String,
    pub family: SourceFamily,
    pub checked_at: Timestamp,
    pub reachable: bool,
    pub odds_found: usize,
    pub latency_ms: u64,
    pub message: String,
}

/// A health record as mathematics.
pub struct Health {
    pub source_id: Seq<char>,
    pub family: Family,
    pub checked_at: int,
    pub reachable: bool,
    pub odds_found: nat,
    pub latency_ms: int,
    pub message: Seq<char>,
}

impl View for SourceHealth {
    type V = Health;

    open spec fn view(&self) -> Health {
        Health {
            source_id: self.source_id@,
            family: self.family@,
            checked_at: self.checked_at@,
            reachable: self.reachable,
            odds_found: self.odds_found as nat,
            latency_ms: self.latency_ms as int,
            message: self.message@,
        }
    }
}

impl Clone for SourceHealth {
    fn clone(&self) -> (result: SourceHealth)
        ensures
            result@ == self@,
    {
        SourceHealth {
            source_id: self.source_id.clone(),
            family: self.family.clone(),
            checked_at: self.checked_at,
            reachable: self.reachable,
            odds_found: self.odds_found,
            latency_ms: self.latency_ms,
            message: self.message.clone(),
        }
    }
}

pub open spec fn source_health_views(items: Seq<SourceHealth>) -> Seq<Health> {
    items.map_values(|item: SourceHealth| item@)
}

pub fn copy_source_healths(items: &Vec<SourceHealth>) -> (result: Vec<SourceHealth>)
    ensures
        source_health_views(result@) == source_health_views(items@),
{
    let mut out: Vec<SourceHealth> = Vec::new();
    let mut i: usize = 0;
    while i < items.len()
        invariant
            i <= items@.len(),
            source_health_views(out@) == source_health_views(items@.take(i as int)),
        decreases items@.len() - i,
    {
        out.push(items[i].clone());
        proof {
            take_next(items@, i as int);
        }
        i = i + 1;
    }
    out
}

/// One search result about a candidate.
#[derive(Debug)]
pub struct NewsCitation {
    pub title: String,
    pub url: String,
    pub published_at: Option<Timestamp>,
    pub snippet: String,
}

/// A citation as mathematics.
pub struct Citation {
    pub title: Seq<char>,
    pub url: Seq<char>,
    pub published_at: Option<int>,
    pub snippet: Seq<char>,
}

impl View for NewsCitation {
    type V = Citation;

    open spec fn view(&self) -> Citation {
        Citation {
            title: self.title@,
            url: self.url@,
            published_at: instant_of(self.published_at),
            snippet: self.snippet@,
        }
    }
}

impl Clone for NewsCitation {
    fn clone(&self) -> (result: NewsCitation)
        ensures
            result@ == self@,
    {
        NewsCitation {
            title: self.title.clone(),
            url: self.url.clone(),
            published_at: self.published_at,
            snippet: self.snippet.clone(),
        }
    }
}

pub open spec fn news_citation_views(items: Seq<NewsCitation>) -> Seq<Citation> {
    items.map_values(|item: NewsCitation| item@)
}

pub fn copy_news_citations(items: &Vec<NewsCitation>) -> (result: Vec<NewsCitation>)
    ensures
        news_citation_views(result@) == news_citation_views(items@),
{
    let mut out: Vec<NewsCitation> = Vec::new();
    let mut i: usize = 0;
    while i < items.len()
        invariant
            i <= items@.len(),
            news_citation_views(out@) == news_citation_views(items@.take(i as int)),
        decreases items@.len() - i,
    {
        out.push(items[i].clone());
        proof {
            take_next(items@, i as int);
        }
        i = i + 1;
    }
    out
}

/// What the news review of one candidate found.
#[derive(Debug)]
pub struct NewsEvidence {
    pub opportunity_id: u128,
    pub generated_at: Timestamp,
    pub summary: String,
    pub confidence_effect: String,
    pub manual_review: bool,
    pub citations: Vec<NewsCitation>,
}

/// Evidence as mathematics.
pub struct Evidence {
    pub opportunity_id: int,
    pub generated_at: int,
    pub summary: Seq<char>,
    pub confidence_effect: Seq<char>,
    pub manual_review: bool,
    pub citations: Seq<Citation>,
}

impl View for NewsEvidence {
    type V = Evidence;

    open spec fn view(&self) -> Evidence {
        Evidence {
            opportunity_id: self.opportunity_id as int,
            generated_at: self.generated_at@,
            summary: self.summary@,
            confidence_effect: self.confidence_effect@,
            manual_review: self.manual_review,
            citations: news_citation_views(self.citations@),
        }
    }
}

impl Clone for NewsEvidence {
    fn clone(&self) -> (result: NewsEvidence)
        ensures
            result@ == self@,
    {
        NewsEvidence {
            opportunity_id: self.opportunity_id,
            generated_at: self.generated_at,
            summary: self.summary.clone(),
            confidence_effect: self.confidence_effect.clone(),
            manual_review: self.manual_review,
            citations: copy_news_citations(&self.citations),
        }
    }
}

pub open spec fn news_evidence_view(item: Option<NewsEvidence>) -> Option<Evidence> {
    match item {
        Some(item) => Some(item@),
        None => None,
    }
}

pub fn copy_news_evidence(item: &Option<NewsEvidence>) -> (result: Option<NewsEvidence>)
    ensures
        news_evidence_view(result) == news_evidence_view(*item),
{
    match item {
        Some(item) => Some(item.clone()),
        None => None,
    }
}

/// An opportunity with its news and the class that both leave it.
#[derive(Debug)]
pub struct ResearchOpportunity {
    pub opportunity: Opportunity,
    pub effective_class: RecommendationClass,
    pub news: Option<NewsEvidence>,
}

/// A reviewed opportunity as mathematics.
pub struct Research {
    pub opportunity: Row,
    pub effective_class: RecommendationClass,
    pub news: Option<Evidence>,
}

impl View for ResearchOpportunity {
    type V = Research;

    open spec fn view(&self) -> Research {
        Research {
            opportunity: self.opportunity@,
            effective_class: self.effective_class,
            news: news_evidence_view(self.news),
        }
    }
}

impl Clone for ResearchOpportunity {
    fn clone(&self) -> (result: ResearchOpportunity)
        ensures
            result@ == self@,
    {
        ResearchOpportunity {
            opportunity: self.opportunity.clone(),
            effective_class: self.effective_class,
            news: copy_news_evidence(&self.news),
        }
    }
}

pub open spec fn research_opportunity_views(items: Seq<ResearchOpportunity>) -> Seq<Research> {
    items.map_values(|item: ResearchOpportunity| item@)
}

/// One scan and everything it decided.
#[derive(Debug)]
pub struct ScanSnapshot {
    pub scan_id: u128,
    pub started_at: Timestamp,
    /// The instant at which every market of the scan was judged.
    pub evaluated_at: Timestamp,
    pub completed_at: Timestamp,
    pub market_count: usize,
    pub quote_count: usize,
    pub opportunities: Vec<Opportunity>,
    pub source_health: Vec<SourceHealth>,
}

/// A snapshot as mathematics.
pub struct Snapshot {
    pub scan_id: int,
    pub started_at: int,
    pub evaluated_at: int,
    pub completed_at: int,
    pub market_count: nat,
    pub quote_count: nat,
    pub opportunities: Seq<Row>,
    pub source_health: Seq<Health>,
}

impl View for ScanSnapshot {
    type V = Snapshot;

    open spec fn view(&self) -> Snapshot {
        Snapshot {
            scan_id: self.scan_id as int,
            started_at: self.started_at@,
            evaluated_at: self.evaluated_at@,
            completed_at: self.completed_at@,
            market_count: self.market_count as nat,
            quote_count: self.quote_count as nat,
            opportunities: opportunity_views(self.opportunities@),
            source_health: source_health_views(self.source_health@),
        }
    }
}

impl Clone for ScanSnapshot {
    fn clone(&self) -> (result: ScanSnapshot)
        ensures
            result@ == self@,
    {
        ScanSnapshot {
            scan_id: self.scan_id,
            started_at: self.started_at,
            evaluated_at: self.evaluated_at,
            completed_at: self.completed_at,
            market_count: self.market_count,
            quote_count: self.quote_count,
            opportunities: copy_opportunities(&self.opportunities),
            source_health: copy_source_healths(&self.source_health),
        }
    }
}

/// Everything about a scan except its opportunity rows.
#[derive(Debug)]
pub struct ScanSummary {
    pub scan_id: u128,
    pub started_at: Timestamp,
    pub completed_at: Timestamp,
    pub market_count: usize,
    pub quote_count: usize,
    pub evaluated_count: usize,
    pub candidate_count: usize,
    pub source_health: Vec<SourceHealth>,
}

/// A summary as mathematics.
pub struct ScanTotals {
    pub scan_id: int,
    pub started_at: int,
    pub completed_at: int,
    pub market_count: nat,
    pub quote_count: nat,
    pub evaluated_count: nat,
    pub candidate_count: nat,
    pub source_health: Seq<Health>,
}

impl View for ScanSummary {
    type V = ScanTotals;

    open spec fn view(&self) -> ScanTotals {
        ScanTotals {
            scan_id: self.scan_id as int,
            started_at: self.started_at@,
            completed_at: self.completed_at@,
            market_count: self.market_count as nat,
            quote_count: self.quote_count as nat,
            evaluated_count: self.evaluated_count as nat,
            candidate_count: self.candidate_count as nat,
            source_health: source_health_views(self.source_health@),
        }
    }
}

impl Clone for ScanSummary {
    fn clone(&self) -> (result: ScanSummary)
        ensures
            result@ == self@,
    {
        ScanSummary {
            scan_id: self.scan_id,
            started_at: self.started_at,
            completed_at: self.completed_at,
            market_count: self.market_count,
            quote_count: self.quote_count,
            evaluated_count: self.evaluated_count,
            candidate_count: self.candidate_count,
            source_health: copy_source_healths(&self.source_health),
        }
    }
}

pub open spec fn scan_summary_view(item: Option<ScanSummary>) -> Option<ScanTotals> {
    match item {
        Some(item) => Some(item@),
        None => None,
    }
}

/// A scan together with the inputs it decided on.
#[derive(Debug)]
pub struct ScanCapture {
    pub snapshot: ScanSnapshot,
    pub markets: Vec<UsMoneylineMarket>,
    pub books: Vec<MarketBook>,
    pub quotes: Vec<SourceQuote>,
    pub portfolio: PaperPortfolio,
}

/// A scan with its inputs as mathematics.
pub struct Capture {
    pub snapshot: Snapshot,
    pub markets: Seq<Market>,
    pub books: Seq<Book>,
    pub quotes: Seq<Quote>,
    pub portfolio: Portfolio,
}

impl View for ScanCapture {
    type V = Capture;

    open spec fn view(&self) -> Capture {
        Capture {
            snapshot: self.snapshot@,
            markets: us_moneyline_market_views(self.markets@),
            books: market_book_views(self.books@),
            quotes: source_quote_views(self.quotes@),
            portfolio: self.portfolio@,
        }
    }
}

/// How long evidence can keep an actionable class alive: two hours.
pub const NEWS_LIFETIME_NANOS: i128 = 7_200_000_000_000;

/// How far ahead of the clock evidence may be dated: one minute.
pub const NEWS_CLOCK_SKEW_NANOS: i128 = 60_000_000_000;

/// Evidence young enough to count at `now`, and not from the future.
pub open spec fn news_is_fresh(generated_at: int, now: int) -> bool {
    now - NEWS_LIFETIME_NANOS <= generated_at <= now + NEWS_CLOCK_SKEW_NANOS
}

/// The class that fresh evidence leaves a recommendation: rejecting evidence
/// rejects, unchanged evidence that needs no review keeps it, and anything else
/// leaves nothing better than the watchlist.
pub open spec fn effective_class(
    recommendation: RecommendationClass,
    news: Option<Evidence>,
    now: int,
) -> RecommendationClass {
    if recommendation is Rejected {
        RecommendationClass::Rejected
    } else {
        match news {
            Some(evidence) if news_is_fresh(evidence.generated_at, now) => if evidence.confidence_effect
                == "reject"@ {
                RecommendationClass::Rejected
            } else if evidence.confidence_effect == "unchanged"@ && !evidence.manual_review {
                recommendation
            } else {
                RecommendationClass::Watchlist
            },
            _ => RecommendationClass::Watchlist,
        }
    }
}

/// The class that the news leaves a recommendation at `now`.
pub fn effective_recommendation(
    recommendation: RecommendationClass,
    news: &Option<NewsEvidence>,
    now: Timestamp,
) -> (result: RecommendationClass)
    ensures
        result == effective_class(recommendation, news_evidence_view(*news), now@),
{
    if let RecommendationClass::Rejected = recommendation {
        return RecommendationClass::Rejected;
    }
    match news {
        Some(evidence) => {
            let at: i128 = evidence.generated_at.nanos();
            let clock: i128 = now.nanos();
            if clock - NEWS_LIFETIME_NANOS <= at && at <= clock + NEWS_CLOCK_SKEW_NANOS {
                let effect: &str = evidence.confidence_effect.as_str();
                if same(effect, "reject") {
                    RecommendationClass::Rejected
                } else if same(effect, "unchanged") && !evidence.manual_review {
                    recommendation
                } else {
                    RecommendationClass::Watchlist
                }
            } else {
                RecommendationClass::Watchlist
            }
        },
        None => RecommendationClass::Watchlist,
    }
}

/// News can veto, not invent: no evidence makes a recommendation stronger.
pub proof fn news_never_upgrades(
    recommendation: RecommendationClass,
    news: Option<Evidence>,
    now: int,
)
    ensures
        effective_class(recommendation, news, now).strength() <= recommendation.strength(),
{
}

/// A result is actionable exactly where the recommendation is, and where fresh
/// evidence has an unchanged effect and needs no review; rejected rows stay
/// rejected.
pub proof fn actionable_needs_clean_fresh_news(
    recommendation: RecommendationClass,
    news: Option<Evidence>,
    now: int,
)
    ensures
        effective_class(recommendation, news, now) is Actionable <==> (recommendation is Actionable
            && (news matches Some(e) && news_is_fresh(e.generated_at, now)
            && e.confidence_effect == "unchanged"@ && !e.manual_review)),
        recommendation is Rejected ==> effective_class(recommendation, news, now) is Rejected,
{
    reveal_strlit("unchanged");
    reveal_strlit("reject");
    if "unchanged"@ == "reject"@ {
        assert("unchanged"@.len() == "reject"@.len());
    }
}

impl ResearchOpportunity {
    /// The opportunity with its news, judged at `now`.
    pub fn at(
        opportunity: Opportunity,
        news: Option<NewsEvidence>,
        now: Timestamp,
    ) -> (result: ResearchOpportunity)
        ensures
            result@ == reviewed(opportunity@, news_evidence_view(news), now@),
    {
        let effective_class = effective_recommendation(opportunity.class, &news, now);
        ResearchOpportunity { opportunity, effective_class, news }
    }
}

/// An opportunity with its news, judged at `now`.
pub open spec fn reviewed(row: Row, news: Option<Evidence>, now: int) -> Research {
    Research { opportunity: row, effective_class: effective_class(row.class, news, now), news }
}

/// The position that an opportunity opens: its size and price as they are, and
/// no result yet.
pub open spec fn position_of(row: Row, now: int) -> Position {
    Position {
        opportunity_id: row.id,
        event_id: row.event_id,
        market_id: row.market_id,
        market_slug: row.market_slug,
        side: row.side,
        quantity: row.quantity,
        entry_price: row.executable_price,
        fair_probability: row.fair_probability,
        estimated_fee: row.estimated_fee,
        maximum_loss: row.maximum_loss,
        start_time: Some(row.start_time),
        opened_at: now,
        closing_price: None,
        settlement_payout: None,
        realized_pnl: None,
        closed_at: None,
    }
}

impl PaperPosition {
    /// The position that an opportunity opens at `now`.
    pub fn from_opportunity(opportunity: &Opportunity, now: Timestamp) -> (result: PaperPosition)
        ensures
            result@ == position_of(opportunity@, now@),
    {
        PaperPosition {
            opportunity_id: opportunity.id,
            event_id: opportunity.event_id.clone(),
            market_id: opportunity.market_id.clone(),
            market_slug: opportunity.market_slug.clone(),
            side: opportunity.side,
            quantity: opportunity.quantity,
            entry_price: opportunity.executable_price,
            fair_probability: opportunity.fair_probability,
            estimated_fee: opportunity.estimated_fee,
            maximum_loss: opportunity.maximum_loss,
            start_time: Some(opportunity.start_time),
            opened_at: now,
            closing_price: None,
            settlement_payout: None,
            realized_pnl: None,
            closed_at: None,
        }
    }

    /// Closing-line value: positive when the entry beat the venue's price
    /// before the start. Missing without a closing price.
    pub fn closing_line_value(&self) -> (result: Option<Decimal>)
        ensures
            dec_of(result) == line_value(self@),
    {
        match self.closing_price {
            Some(closing) => closing.checked_sub(self.entry_price),
            None => None,
        }
    }
}

/// Closing price minus entry price.
pub open spec fn line_value(position: Position) -> Option<Dec> {
    minus(position.closing_price, Some(position.entry_price))
}

impl PaperPortfolio {
    /// A portfolio without positions.
    pub fn new(bankroll: Decimal) -> (result: PaperPortfolio)
        ensures
            result@ == empty_book(bankroll@),
    {
        PaperPortfolio {
            bankroll,
            open_exposure: Decimal::zero(),
            open_positions: Vec::new(),
            closed_positions: Vec::new(),
            realized_pnl: Decimal::zero(),
        }
    }
}

/// A portfolio without positions.
pub open spec fn empty_book(bankroll: Dec) -> Portfolio {
    Portfolio {
        bankroll,
        open_exposure: zero(),
        open_positions: Seq::empty(),
        closed_positions: Seq::empty(),
        realized_pnl: zero(),
    }
}

/// How many rows are not rejected.
pub open spec fn candidates(rows: Seq<Row>) -> nat
    decreases rows.len(),
{
    if rows.len() == 0 {
        0
    } else {
        candidates(rows.drop_last()) + if rows.last().class is Rejected {
            0nat
        } else {
            1nat
        }
    }
}

/// What a snapshot amounts to without its rows.
pub open spec fn totals(s: Snapshot) -> ScanTotals {
    ScanTotals {
        scan_id: s.scan_id,
        started_at: s.started_at,
        completed_at: s.completed_at,
        market_count: s.market_count,
        quote_count: s.quote_count,
        evaluated_count: s.opportunities.len(),
        candidate_count: candidates(s.opportunities),
        source_health: s.source_health,
    }
}

impl ScanSnapshot {
    /// Everything about the scan except its rows.
    pub fn summary(&self) -> (result: ScanSummary)
        ensures
            result@ == totals(self@),
    {
        let mut count: usize = 0;
        let mut i: usize = 0;
        let total: usize = self.opportunities.len();
        while i < total
            invariant
                total == self.opportunities@.len(),
                i <= total,
                count == candidates(opportunity_views(self.opportunities@.take(i as int))),
                count <= i,
            decreases total - i,
        {
            let ghost done = opportunity_views(self.opportunities@.take(i as int));
            let ghost more = opportunity_views(self.opportunities@.take(i + 1));
            proof {
                take_next(self.opportunities@, i as int);
                assert(more.drop_last() =~= done);
            }
            if self.opportunities[i].class != RecommendationClass::Rejected {
                count = count + 1;
            }
            i = i + 1;
        }
        ScanSummary {
            scan_id: self.scan_id,
            started_at: self.started_at,
            completed_at: self.completed_at,
            market_count: self.market_count,
            quote_count: self.quote_count,
            evaluated_count: total,
            candidate_count: count,
            source_health: copy_source_healths(&self.source_health),
        }
    }
}

} // verus!
