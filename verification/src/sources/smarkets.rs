//! Smarkets betting exchange, public market data. Independent order flow, so it
//! counts as its own family but is never a reference book. Prices are basis
//! points of implied probability; each side is priced at its best executable
//! offer.

use vstd::prelude::*;

use crate::decimal::{dec, dec_of, quotient, rounded, Dec, Decimal};
use crate::domain::{
    source_quote_views, Family, Quote, SourceFamily, SourceQuote, Sport,
    DEFAULT_START_TIME_TOLERANCE_MINUTES,
};
use crate::error::{Error, Failure};
use crate::seqs::{
    filter_member, filter_next, group_seqs, kept, kept_next, ranking, sorted, stable_sort,
    take_next, Precedence,
};
use crate::sources::{one_id, single_id};
use crate::text::{
    before, by_text, concat2, concat3, concat4, digits, has_prefix, int_text, integer, join, joined,
    natural, once, owned, same, sort_distinct, split_once, split_once_at, starts_with, text_before, text_of, texts, trim,
    trimmed,
};
use crate::textmap::TextMap;
use crate::time::{instant_of, Timestamp};

verus! {

broadcast use group_seqs;

/// Events on one page.
pub const PAGE_LIMIT: usize = 100;

/// Most pages that are asked for.
pub const MAX_PAGES: usize = 3;

/// Identifiers in one batched request; the feed refuses more.
pub const BATCH_SIZE: usize = 50;

/// Full probability in price units.
pub const FULL_BOOK: i64 = 10_000;

/// Best offers that add up to more are too illiquid to be a price.
pub const MAX_OVERROUND: i64 = 11_500;

/// Widest gap between best bid and best offer that is still a price: ten
/// percentage points.
pub const MAX_SPREAD: i64 = 1_000;

/// Least quantity at the best offer of each side.
pub const MIN_OFFER_QUANTITY: i64 = 10_000;

#[derive(Debug)]
pub struct Event {
    pub id: String,
    pub name: String,
    /// Absent on competitions.
    pub start_datetime: Option<Timestamp>,
    pub bettable: bool,
    pub parent_id: Option<String>,
}

#[derive(Debug)]
pub struct Market {
    pub id: String,
    pub event_id: String,
    pub name: String,
    pub state: String,
    /// The name of the market type, or nothing.
    pub market_type: String,
}

#[derive(Debug)]
pub struct Contract {
    pub id: String,
    pub market_id: String,
    pub name: String,
    /// The name of the contract type, or nothing.
    pub contract_type: String,
}

#[derive(Debug, Clone, Copy, PartialEq, Eq, Structural)]
pub struct Level {
    pub price: i64,
    pub quantity: i64,
}

#[derive(Debug)]
pub struct Book {
    pub bids: Vec<Level>,
    pub offers: Vec<Level>,
}

impl Clone for Event {
    fn clone(&self) -> (result: Event)
        ensures
            result == *self,
    {
        Event {
            id: self.id.clone(),
            name: self.name.clone(),
            start_datetime: self.start_datetime,
            bettable: self.bettable,
            parent_id: match &self.parent_id {
                Some(parent) => Some(parent.clone()),
                None => None,
            },
        }
    }
}

impl Clone for Market {
    fn clone(&self) -> (result: Market)
        ensures
            result == *self,
    {
        Market {
            id: self.id.clone(),
            event_id: self.event_id.clone(),
            name: self.name.clone(),
            state: self.state.clone(),
            market_type: self.market_type.clone(),
        }
    }
}

/// The type of a sport's events.
pub open spec fn type_of(sport: Sport) -> Seq<char> {
    match sport {
        Sport::Nfl => "american_football_match"@,
        Sport::Nba => "basketball_match"@,
        Sport::Wnba => "basketball_match"@,
        Sport::Mlb => "baseball_match"@,
        Sport::Tennis => "tennis_match"@,
    }
}

pub fn event_type(sport: Sport) -> (result: &'static str)
    ensures
        result@ == type_of(sport),
{
    match sport {
        Sport::Nfl => "american_football_match",
        Sport::Nba => "basketball_match",
        Sport::Wnba => "basketball_match",
        Sport::Mlb => "baseball_match",
        Sport::Tennis => "tennis_match",
    }
}

/// The sport of a competition. Exact names only: everything else (college,
/// European leagues, pre-season tournaments) must not leak into matching.
pub open spec fn league_of(competition: Seq<char>) -> Option<Sport> {
    let name = trimmed(competition);
    if name == "NFL"@ {
        Some(Sport::Nfl)
    } else if name == "NBA"@ {
        Some(Sport::Nba)
    } else if name == "WNBA"@ {
        Some(Sport::Wnba)
    } else if name == "MLB"@ {
        Some(Sport::Mlb)
    } else {
        None
    }
}

pub fn league_sport(competition: &str) -> (result: Option<Sport>)
    ensures
        result == league_of(competition@),
{
    let name = trim(competition);
    if same(name.as_str(), "NFL") {
        Some(Sport::Nfl)
    } else if same(name.as_str(), "NBA") {
        Some(Sport::Nba)
    } else if same(name.as_str(), "WNBA") {
        Some(Sport::Wnba)
    } else if same(name.as_str(), "MLB") {
        Some(Sport::Mlb)
    } else {
        None
    }
}

/// Still bettable and not yet started.
pub open spec fn pregame(event: Event, now: int) -> bool {
    event.bettable && (instant_of(event.start_datetime) matches Some(start) && start > now)
}

impl Event {
    /// Still bettable and not yet started; live and suspended events are out.
    pub fn is_pregame(&self, now: Timestamp) -> (result: bool)
        ensures
            result == pregame(*self, now@),
    {
        match self.start_datetime {
            Some(start) => self.bettable && now.before(start),
            None => false,
        }
    }
}

/// The sport of an event among those that are wanted: tennis keeps every tour,
/// anything else goes by its competition.
pub open spec fn sport_of(
    event: Event,
    competitions: Map<Seq<char>, Seq<char>>,
    sports: Seq<Sport>,
) -> Option<Sport> {
    if sports.contains(Sport::Tennis) {
        Some(Sport::Tennis)
    } else {
        match text_of(event.parent_id) {
            Some(parent) => if competitions.contains_key(parent) {
                match league_of(competitions[parent]) {
                    Some(sport) => if sports.contains(sport) {
                        Some(sport)
                    } else {
                        None
                    },
                    None => None,
                }
            } else {
                None
            },
            None => None,
        }
    }
}

fn wants(sports: &Vec<Sport>, sport: Sport) -> (result: bool)
    ensures
        result == sports@.contains(sport),
{
    let mut i: usize = 0;
    while i < sports.len()
        invariant
            i <= sports@.len(),
            forall|j: int| 0 <= j < i ==> sports@[j] != sport,
        decreases sports@.len() - i,
    {
        if sports[i] == sport {
            assert(sports@[i as int] == sport);
            return true;
        }
        i = i + 1;
    }
    false
}

pub fn event_sport(event: &Event, competitions: &TextMap<String>, sports: &Vec<Sport>) -> (result:
    Option<Sport>)
    ensures
        result == sport_of(*event, competitions.deep(), sports@),
{
    if wants(sports, Sport::Tennis) {
        return Some(Sport::Tennis);
    }
    let parent = match &event.parent_id {
        Some(parent) => parent,
        None => {
            return None;
        },
    };
    let name = competitions.get(parent.as_str())?;
    let sport = league_sport(name.as_str())?;
    if wants(sports, sport) {
        Some(sport)
    } else {
        None
    }
}

/// The types of events, in the order of their names.
pub open spec fn event_types() -> Seq<Seq<char>> {
    seq![
        "american_football_match"@,
        "baseball_match"@,
        "basketball_match"@,
        "tennis_match"@,
    ]
}

/// The sports of one type of event.
pub open spec fn sports_of_type(sports: Seq<Sport>, kind: Seq<char>) -> Seq<Sport> {
    sports.filter(|sport: Sport| type_of(sport) == kind)
}

/// A type of event with its sports, if any of them is wanted.
pub open spec fn type_group(sports: Seq<Sport>, kind: Seq<char>) -> Option<
    (Seq<char>, Seq<Sport>),
> {
    let group = sports_of_type(sports, kind);
    if group.len() > 0 {
        Some((kind, group))
    } else {
        None
    }
}

pub open spec fn group_views(groups: Seq<(&'static str, Vec<Sport>)>) -> Seq<
    (Seq<char>, Seq<Sport>),
> {
    groups.map_values(|group: (&'static str, Vec<Sport>)| (group.0@, group.1@))
}

fn list_of_type(sports: &Vec<Sport>, kind: &str) -> (result: Vec<Sport>)
    ensures
        result@ == sports_of_type(sports@, kind@),
{
    let ghost keep = |sport: Sport| type_of(sport) == kind@;
    let mut out: Vec<Sport> = Vec::new();
    let mut i: usize = 0;
    while i < sports.len()
        invariant
            i <= sports@.len(),
            keep == (|sport: Sport| type_of(sport) == kind@),
            out@ == sports@.take(i as int).filter(keep),
        decreases sports@.len() - i,
    {
        proof {
            filter_next(sports@, keep, i as int);
        }
        if same(event_type(sports[i]), kind) {
            out.push(sports[i]);
        }
        i = i + 1;
    }
    out
}

/// The wanted sports by the type of their events: one type can serve several
/// sports, and is asked for once.
pub fn sports_by_type(sports: &Vec<Sport>) -> (result: Vec<(&'static str, Vec<Sport>)>)
    ensures
        group_views(result@) == kept(event_types(), |kind: Seq<char>| type_group(sports@, kind)),
{
    let ghost f = |kind: Seq<char>| type_group(sports@, kind);
    let kinds: [&'static str; 4] = [
        "american_football_match",
        "baseball_match",
        "basketball_match",
        "tennis_match",
    ];
    let mut out: Vec<(&'static str, Vec<Sport>)> = Vec::new();
    let mut i: usize = 0;
    while i < 4
        invariant
            i <= 4,
            kinds@.len() == 4,
            forall|k: int| 0 <= k < 4 ==> (#[trigger] kinds@[k])@ == event_types()[k],
            f == (|kind: Seq<char>| type_group(sports@, kind)),
            group_views(out@) == kept(event_types().take(i as int), f),
        decreases 4 - i,
    {
        proof {
            kept_next(event_types(), f, i as int);
        }
        let group = list_of_type(sports, kinds[i]);
        if group.len() > 0 {
            out.push((kinds[i], group));
        }
        i = i + 1;
    }
    out
}

/// A sport is asked for in the group of its type, and in no other.
pub proof fn sports_are_asked_for_by_their_type(sports: Seq<Sport>, kind: Seq<char>, sport: Sport)
    ensures
        event_types().contains(type_of(sport)),
        sports_of_type(sports, kind).contains(sport) <==> sports.contains(sport) && type_of(sport)
            == kind,
{
    let keep = |s: Sport| type_of(s) == kind;
    filter_member(sports, keep, sport);
    let types = event_types();
    assert(types[0] == "american_football_match"@);
    assert(types[1] == "baseball_match"@);
    assert(types[2] == "basketball_match"@);
    assert(types[3] == "tennis_match"@);
}

/// The events that have not started, in their order.
pub fn upcoming(events: &Vec<Event>, now: Timestamp) -> (result: Vec<Event>)
    ensures
        result@ == events@.filter(|event: Event| pregame(event, now@)),
{
    let ghost keep = |event: Event| pregame(event, now@);
    let mut out: Vec<Event> = Vec::new();
    let mut i: usize = 0;
    while i < events.len()
        invariant
            i <= events@.len(),
            keep == (|event: Event| pregame(event, now@)),
            out@ == events@.take(i as int).filter(keep),
        decreases events@.len() - i,
    {
        proof {
            filter_next(events@, keep, i as int);
        }
        if events[i].is_pregame(now) {
            out.push(events[i].clone());
        }
        i = i + 1;
    }
    out
}

/// The competitions to look up: each parent once, in order. Tennis keeps every
/// tour, so it looks up none.
pub open spec fn competitions_of(events: Seq<Event>, sports: Seq<Sport>) -> Seq<Seq<char>> {
    if sports.contains(Sport::Tennis) {
        seq![]
    } else {
        sorted(once(kept(events, |event: Event| text_of(event.parent_id))), by_text())
    }
}

pub fn competition_ids(events: &Vec<Event>, sports: &Vec<Sport>) -> (result: Vec<String>)
    ensures
        texts(result@) == competitions_of(events@, sports@),
{
    let mut parents: Vec<String> = Vec::new();
    if wants(sports, Sport::Tennis) {
        assert(texts(parents@) =~= Seq::<Seq<char>>::empty());
        return parents;
    }
    let ghost f = |event: Event| text_of(event.parent_id);
    let mut i: usize = 0;
    while i < events.len()
        invariant
            i <= events@.len(),
            f == (|event: Event| text_of(event.parent_id)),
            texts(parents@) == kept(events@.take(i as int), f),
        decreases events@.len() - i,
    {
        proof {
            kept_next(events@, f, i as int);
        }
        match &events[i].parent_id {
            Some(parent) => {
                parents.push(parent.clone());
            },
            None => {},
        }
        i = i + 1;
    }
    sort_distinct(&parents)
}

/// An event with its sport, if that is wanted.
pub open spec fn placed(
    event: Event,
    competitions: Map<Seq<char>, Seq<char>>,
    sports: Seq<Sport>,
) -> Option<(Sport, Event)> {
    match sport_of(event, competitions, sports) {
        Some(sport) => Some((sport, event)),
        None => None,
    }
}

/// The events of the wanted sports, each with its sport.
pub fn wanted_events(events: &Vec<Event>, competitions: &TextMap<String>, sports: &Vec<Sport>) -> (
result: Vec<(Sport, Event)>)
    ensures
        result@ == kept(events@, |event: Event| placed(event, competitions.deep(), sports@)),
{
    let ghost f = |event: Event| placed(event, competitions.deep(), sports@);
    let mut out: Vec<(Sport, Event)> = Vec::new();
    let mut i: usize = 0;
    while i < events.len()
        invariant
            i <= events@.len(),
            f == (|event: Event| placed(event, competitions.deep(), sports@)),
            out@ == kept(events@.take(i as int), f),
        decreases events@.len() - i,
    {
        proof {
            kept_next(events@, f, i as int);
        }
        match event_sport(&events[i], competitions, sports) {
            Some(sport) => {
                out.push((sport, events[i].clone()));
            },
            None => {},
        }
        i = i + 1;
    }
    out
}

/// The identifiers of the events, each once, in order.
pub fn event_ids(events: &Vec<(Sport, Event)>) -> (result: Vec<String>)
    ensures
        texts(result@) == sorted(
            once(events@.map_values(|event: (Sport, Event)| event.1.id@)),
            by_text(),
        ),
{
    let ghost id = |event: (Sport, Event)| event.1.id@;
    let mut ids: Vec<String> = Vec::new();
    let mut i: usize = 0;
    while i < events.len()
        invariant
            i <= events@.len(),
            id == (|event: (Sport, Event)| event.1.id@),
            texts(ids@) == events@.take(i as int).map_values(id),
        decreases events@.len() - i,
    {
        proof {
            take_next(events@, i as int);
        }
        ids.push(events[i].1.id.clone());
        i = i + 1;
    }
    sort_distinct(&ids)
}

/// A full-game two-way winner market. A market without a type goes by its name.
pub open spec fn is_winner(market: Market) -> bool {
    let kind = market.market_type@;
    if kind == "WINNER_2_WAY"@ || kind == "WINNER_DNB"@ {
        true
    } else if kind == ""@ {
        market.name@ == "Match winner"@ || market.name@ == "Winner"@ || market.name@
            == "Match Odds"@
    } else {
        false
    }
}

/// Lower is preferred where an event lists both winner variants.
pub open spec fn rank_of(market: Market) -> int {
    if market.market_type@ == "WINNER_2_WAY"@ {
        0
    } else if market.market_type@ == "WINNER_DNB"@ {
        1
    } else {
        2
    }
}

impl Market {
    pub fn is_winner(&self) -> (result: bool)
        ensures
            result == is_winner(*self),
    {
        let kind = self.market_type.as_str();
        if same(kind, "WINNER_2_WAY") || same(kind, "WINNER_DNB") {
            true
        } else if same(kind, "") {
            let name = self.name.as_str();
            same(name, "Match winner") || same(name, "Winner") || same(name, "Match Odds")
        } else {
            false
        }
    }

    pub fn rank(&self) -> (result: u8)
        ensures
            result == rank_of(*self),
    {
        if same(self.market_type.as_str(), "WINNER_2_WAY") {
            0
        } else if same(self.market_type.as_str(), "WINNER_DNB") {
            1
        } else {
            2
        }
    }
}

/// Where an event stands among the markets chosen so far, from place `from` on.
pub open spec fn event_at(chosen: Seq<Market>, event_id: Seq<char>, from: int) -> Option<int>
    decreases chosen.len() - from,
{
    if from >= chosen.len() {
        None
    } else if chosen[from].event_id@ == event_id {
        Some(from)
    } else {
        event_at(chosen, event_id, from + 1)
    }
}

/// The best winner market of each event, in the order the events come up: open
/// ones only, and the first of those with the lowest rank.
pub open spec fn best_of(markets: Seq<Market>) -> Seq<Market>
    decreases markets.len(),
{
    if markets.len() == 0 {
        seq![]
    } else {
        let front = best_of(markets.drop_last());
        let last = markets.last();
        if last.state@ != "open"@ || !is_winner(last) {
            front
        } else {
            match event_at(front, last.event_id@, 0) {
                Some(i) => if rank_of(front[i]) <= rank_of(last) {
                    front
                } else {
                    front.update(i, last)
                },
                None => front.push(last),
            }
        }
    }
}

proof fn lemma_event_at(chosen: Seq<Market>, event_id: Seq<char>, from: int)
    requires
        0 <= from <= chosen.len(),
    ensures
        match event_at(chosen, event_id, from) {
            Some(i) => from <= i < chosen.len() && chosen[i].event_id@ == event_id,
            None => forall|i: int|
                from <= i < chosen.len() ==> (#[trigger] chosen[i]).event_id@ != event_id,
        },
    decreases chosen.len() - from,
{
    if from < chosen.len() {
        lemma_event_at(chosen, event_id, from + 1);
    }
}

/// Each event keeps one market, open and two-way.
pub proof fn one_winner_market_per_event(markets: Seq<Market>)
    ensures
        forall|i: int, j: int|
            0 <= i < j < best_of(markets).len() ==> (#[trigger] best_of(markets)[i]).event_id@ != (
            #[trigger] best_of(markets)[j]).event_id@,
        forall|i: int|
            0 <= i < best_of(markets).len() ==> is_winner(#[trigger] best_of(markets)[i])
                && best_of(markets)[i].state@ == "open"@,
    decreases markets.len(),
{
    if markets.len() > 0 {
        one_winner_market_per_event(markets.drop_last());
        lemma_event_at(best_of(markets.drop_last()), markets.last().event_id@, 0);
    }
}

pub open spec fn by_event() -> spec_fn(Market, Market) -> bool {
    |a: Market, b: Market| text_before(a.event_id@, b.event_id@)
}

pub open spec fn by_id() -> spec_fn(Market, Market) -> bool {
    |a: Market, b: Market| text_before(a.id@, b.id@)
}

/// Where a market stands by its identifier, from place `from` on.
pub open spec fn id_at(list: Seq<Market>, id: Seq<char>, from: int) -> Option<int>
    decreases list.len() - from,
{
    if from >= list.len() {
        None
    } else if list[from].id@ == id {
        Some(from)
    } else {
        id_at(list, id, from + 1)
    }
}

/// The markets by identifier: a later one takes the place of an earlier one.
pub open spec fn last_by_id(markets: Seq<Market>) -> Seq<Market>
    decreases markets.len(),
{
    if markets.len() == 0 {
        seq![]
    } else {
        let front = last_by_id(markets.drop_last());
        match id_at(front, markets.last().id@, 0) {
            Some(i) => front.update(i, markets.last()),
            None => front.push(markets.last()),
        }
    }
}

/// The winner market of each event, in the order of the markets' identifiers.
pub open spec fn winners(markets: Seq<Market>) -> Seq<Market> {
    sorted(last_by_id(sorted(best_of(markets), by_event())), by_id())
}

struct ByEvent;

impl Precedence<Market> for ByEvent {
    closed spec fn precedes(&self, a: Market, b: Market) -> bool {
        text_before(a.event_id@, b.event_id@)
    }

    fn first(&self, a: &Market, b: &Market) -> (result: bool) {
        before(a.event_id.as_str(), b.event_id.as_str())
    }
}

struct ById;

impl Precedence<Market> for ById {
    closed spec fn precedes(&self, a: Market, b: Market) -> bool {
        text_before(a.id@, b.id@)
    }

    fn first(&self, a: &Market, b: &Market) -> (result: bool) {
        before(a.id.as_str(), b.id.as_str())
    }
}

fn keep_best(markets: &Vec<Market>) -> (result: Vec<Market>)
    ensures
        result@ == best_of(markets@),
{
    let mut chosen: Vec<Market> = Vec::new();
    let mut n: usize = 0;
    while n < markets.len()
        invariant
            n <= markets@.len(),
            chosen@ == best_of(markets@.take(n as int)),
        decreases markets@.len() - n,
    {
        proof {
            take_next(markets@, n as int);
        }
        let market = &markets[n];
        if same(market.state.as_str(), "open") && market.is_winner() {
            let mut i: usize = 0;
            while i < chosen.len() && !same(chosen[i].event_id.as_str(), market.event_id.as_str())
                invariant
                    i <= chosen@.len(),
                    event_at(chosen@, market.event_id@, 0) == event_at(
                        chosen@,
                        market.event_id@,
                        i as int,
                    ),
                decreases chosen@.len() - i,
            {
                i = i + 1;
            }
            if i == chosen.len() {
                chosen.push(market.clone());
            } else if chosen[i].rank() > market.rank() {
                chosen.set(i, market.clone());
            }
        }
        n = n + 1;
    }
    chosen
}

fn keep_last_by_id(markets: &Vec<Market>) -> (result: Vec<Market>)
    ensures
        result@ == last_by_id(markets@),
{
    let mut out: Vec<Market> = Vec::new();
    let mut n: usize = 0;
    while n < markets.len()
        invariant
            n <= markets@.len(),
            out@ == last_by_id(markets@.take(n as int)),
        decreases markets@.len() - n,
    {
        proof {
            take_next(markets@, n as int);
        }
        let market = &markets[n];
        let mut i: usize = 0;
        while i < out.len() && !same(out[i].id.as_str(), market.id.as_str())
            invariant
                i <= out@.len(),
                id_at(out@, market.id@, 0) == id_at(out@, market.id@, i as int),
            decreases out@.len() - i,
        {
            i = i + 1;
        }
        if i == out.len() {
            out.push(market.clone());
        } else {
            out.set(i, market.clone());
        }
        n = n + 1;
    }
    out
}

/// The full-game two-way winner market of each event. Three-way, half,
/// alternate and proposition markets are out.
pub fn select_winner_markets(markets: Vec<Market>) -> (result: Vec<Market>)
    ensures
        result@ == winners(markets@),
{
    let best = keep_best(&markets);
    assert(ranking(ByEvent) =~= by_event());
    let by_events = stable_sort(best, &ByEvent);
    let distinct = keep_last_by_id(&by_events);
    assert(ranking(ById) =~= by_id());
    stable_sort(distinct, &ById)
}

/// Which side a contract is on.
#[derive(Debug, Clone, Copy, PartialEq, Eq, Structural)]
pub enum Side {
    A,
    B,
}

pub open spec fn side_of(contract: Contract) -> Option<Side> {
    let kind = contract.contract_type@;
    if kind == "PLAYER_A"@ || kind == "HOME"@ {
        Some(Side::A)
    } else if kind == "PLAYER_B"@ || kind == "AWAY"@ {
        Some(Side::B)
    } else {
        None
    }
}

impl Contract {
    pub fn side(&self) -> (result: Option<Side>)
        ensures
            result == side_of(*self),
    {
        let kind = self.contract_type.as_str();
        if same(kind, "PLAYER_A") || same(kind, "HOME") {
            Some(Side::A)
        } else if same(kind, "PLAYER_B") || same(kind, "AWAY") {
            Some(Side::B)
        } else {
            None
        }
    }
}

/// What the participants are called. Team contracts carry nicknames, so the
/// full names come from the event: `Away at Home` or `Home vs Away`. Player
/// contracts are full names already.
pub open spec fn names_of(event: Event, a: Contract, b: Contract) -> (Seq<char>, Seq<char>) {
    let at = split_once_at(event.name@, " at "@);
    let vs = split_once_at(event.name@, " vs "@);
    if a.contract_type@ == "HOME"@ && at is Some {
        (trimmed((at->0).1), trimmed((at->0).0))
    } else if a.contract_type@ == "HOME"@ && vs is Some {
        (trimmed((vs->0).0), trimmed((vs->0).1))
    } else {
        (a.name@, b.name@)
    }
}

fn participant_names(event: &Event, a: &Contract, b: &Contract) -> (result: (String, String))
    ensures
        (result.0@, result.1@) == names_of(*event, *a, *b),
{
    if same(a.contract_type.as_str(), "HOME") {
        match split_once(event.name.as_str(), " at ") {
            Some((away, home)) => {
                return (trim(home.as_str()), trim(away.as_str()));
            },
            None => {},
        }
        match split_once(event.name.as_str(), " vs ") {
            Some((home, away)) => {
                return (trim(home.as_str()), trim(away.as_str()));
            },
            None => {},
        }
    }
    (owned(a.name.as_str()), owned(b.name.as_str()))
}

/// The first of the cheapest levels.
pub open spec fn cheapest(levels: Seq<Level>) -> Option<Level>
    decreases levels.len(),
{
    if levels.len() == 0 {
        None
    } else {
        match cheapest(levels.drop_last()) {
            Some(best) => if levels.last().price < best.price {
                Some(levels.last())
            } else {
                Some(best)
            },
            None => Some(levels.last()),
        }
    }
}

/// The highest price.
pub open spec fn highest(levels: Seq<Level>) -> Option<int>
    decreases levels.len(),
{
    if levels.len() == 0 {
        None
    } else {
        match highest(levels.drop_last()) {
            Some(best) => if levels.last().price > best {
                Some(levels.last().price as int)
            } else {
                Some(best)
            },
            None => Some(levels.last().price as int),
        }
    }
}

/// The best executable price of a contract, or why there is none: enough at the
/// best offer, a bid, and not too far between them.
pub open spec fn offer_price(books: Map<Seq<char>, Book>, id: Seq<char>) -> Result<int, Seq<char>> {
    let about = "contract "@ + id;
    if !books.contains_key(id) {
        Err(about + ": no order book"@)
    } else {
        let book = books[id];
        match cheapest(book.offers@) {
            None => Err(about + ": no offers"@),
            Some(offer) => if offer.quantity < MIN_OFFER_QUANTITY {
                Err(about + ": best offer quantity "@ + int_text(offer.quantity as int))
            } else {
                match highest(book.bids@) {
                    None => Err(about + ": no bids"@),
                    Some(bid) => if offer.price - bid > MAX_SPREAD {
                        Err(about + ": spread "@ + int_text(offer.price - bid) + " bp"@)
                    } else if offer.price <= 0 || offer.price > FULL_BOOK {
                        Err(about + ": price "@ + int_text(offer.price as int))
                    } else {
                        Ok(offer.price as int)
                    },
                }
            },
        }
    }
}

fn find_cheapest(levels: &Vec<Level>) -> (result: Option<Level>)
    ensures
        result == cheapest(levels@),
{
    let mut best: Option<Level> = None;
    let mut i: usize = 0;
    while i < levels.len()
        invariant
            i <= levels@.len(),
            best == cheapest(levels@.take(i as int)),
        decreases levels@.len() - i,
    {
        proof {
            take_next(levels@, i as int);
        }
        match best {
            Some(b) => {
                if levels[i].price < b.price {
                    best = Some(levels[i]);
                }
            },
            None => {
                best = Some(levels[i]);
            },
        }
        i = i + 1;
    }
    best
}

fn find_highest(levels: &Vec<Level>) -> (result: Option<i64>)
    ensures
        match result {
            Some(p) => highest(levels@) == Some(p as int),
            None => highest(levels@) is None,
        },
{
    let mut best: Option<i64> = None;
    let mut i: usize = 0;
    while i < levels.len()
        invariant
            i <= levels@.len(),
            match best {
                Some(p) => highest(levels@.take(i as int)) == Some(p as int),
                None => highest(levels@.take(i as int)) is None,
            },
        decreases levels@.len() - i,
    {
        proof {
            take_next(levels@, i as int);
        }
        match best {
            Some(b) => {
                if levels[i].price > b {
                    best = Some(levels[i].price);
                }
            },
            None => {
                best = Some(levels[i].price);
            },
        }
        i = i + 1;
    }
    best
}

fn best_offer(books: &TextMap<Book>, contract_id: &str) -> (result: Result<i64, String>)
    ensures
        match result {
            Ok(price) => offer_price(books@, contract_id@) == Ok::<int, Seq<char>>(price as int)
                && 0 < price <= FULL_BOOK,
            Err(message) => offer_price(books@, contract_id@) == Err::<int, Seq<char>>(message@),
        },
{
    let about = concat2("contract ", contract_id);
    let book = match books.get(contract_id) {
        Some(book) => book,
        None => {
            return Err(concat2(about.as_str(), ": no order book"));
        },
    };
    let offer = match find_cheapest(&book.offers) {
        Some(offer) => offer,
        None => {
            return Err(concat2(about.as_str(), ": no offers"));
        },
    };
    if offer.quantity < MIN_OFFER_QUANTITY {
        return Err(
            concat3(
                about.as_str(),
                ": best offer quantity ",
                integer(offer.quantity as i128).as_str(),
            ),
        );
    }
    let bid: i64 = match find_highest(&book.bids) {
        Some(bid) => bid,
        None => {
            return Err(concat2(about.as_str(), ": no bids"));
        },
    };
    let spread: i128 = offer.price as i128 - bid as i128;
    if spread > MAX_SPREAD as i128 {
        return Err(
            concat4(about.as_str(), ": spread ", integer(spread).as_str(), " bp"),
        );
    }
    if offer.price <= 0 || offer.price > FULL_BOOK {
        return Err(
            concat3(about.as_str(), ": price ", integer(offer.price as i128).as_str()),
        );
    }
    Ok(offer.price)
}

/// Decimal odds from a price in basis points, to four places; missing for a
/// price of zero.
pub open spec fn odds_at(price: int) -> Option<Dec> {
    match quotient(dec(FULL_BOOK as int, 0), dec(price, 0)) {
        Some(q) => Some(rounded(q, 4)),
        None => None,
    }
}

/// Decimal odds from a price in basis points, to four places; `None` for a price
/// of zero.
pub fn price_to_decimal(price: i64) -> (result: Option<Decimal>)
    ensures
        dec_of(result) == odds_at(price as int),
{
    let q = Decimal::new(FULL_BOOK, 0).checked_div(Decimal::new(price, 0))?;
    Some(q.round_dp(4))
}

/// What is wrong with a market.
pub open spec fn complaint(market: Market, message: Seq<char>) -> Failure {
    Failure::InvalidData("Smarkets "@ + market.id@ + ": "@ + message)
}

/// The two contracts of a market, the first side's first, or what is wrong with
/// them.
pub open spec fn sides_in(market: Market, contracts: Seq<Contract>) -> Result<
    (Contract, Contract),
    Failure,
> {
    if contracts.len() != 2 {
        Err(complaint(market, digits(contracts.len()) + " contracts"@))
    } else {
        let first = contracts[0];
        let second = contracts[1];
        if side_of(first) == Some(Side::A) && side_of(second) == Some(Side::B) {
            Ok((first, second))
        } else if side_of(first) == Some(Side::B) && side_of(second) == Some(Side::A) {
            Ok((second, first))
        } else {
            Err(
                complaint(
                    market,
                    "contract types "@ + first.contract_type@ + " / "@ + second.contract_type@,
                ),
            )
        }
    }
}

/// The quote that a winner market gives, or what is wrong with it.
pub open spec fn market_quote(
    sport: Sport,
    event: Event,
    market: Market,
    contracts: Seq<Contract>,
    books: Map<Seq<char>, Book>,
    fetched_at: int,
) -> Result<Quote, Failure> {
    match sides_in(market, contracts) {
        Err(f) => Err(f),
        Ok((a, b)) => match offer_price(books, a.id@) {
            Err(message) => Err(complaint(market, message)),
            Ok(price_a) => match offer_price(books, b.id@) {
                Err(message) => Err(complaint(market, message)),
                Ok(price_b) => if price_a + price_b < FULL_BOOK || price_a + price_b
                    > MAX_OVERROUND {
                    Err(
                        complaint(
                            market,
                            "offers imply "@ + int_text(price_a + price_b) + " bp"@,
                        ),
                    )
                } else {
                    match instant_of(event.start_datetime) {
                        None => Err(complaint(market, "no start time"@)),
                        Some(start_time) => match (odds_at(price_a), odds_at(price_b)) {
                            (Some(decimal_odds_a), Some(decimal_odds_b)) => Ok(
                                Quote {
                                    source_id: "smarkets"@,
                                    family: Family::Other("smarkets"@),
                                    sport,
                                    event_id: event.id@,
                                    participant_a: names_of(event, a, b).0,
                                    participant_b: names_of(event, a, b).1,
                                    participant_a_provider_ids: one_id("smarkets"@, a.id@),
                                    participant_b_provider_ids: one_id("smarkets"@, b.id@),
                                    start_time,
                                    start_time_tolerance_minutes:
                                        DEFAULT_START_TIME_TOLERANCE_MINUTES as int,
                                    decimal_odds_a,
                                    decimal_odds_b,
                                    decimal_odds_neutral: None,
                                    source_timestamp: fetched_at,
                                    fetched_at,
                                    parser_version: "smarkets-v1"@,
                                    validation_only: false,
                                },
                            ),
                            _ => Err(Failure::Overflow),
                        },
                    }
                },
            },
        },
    }
}

fn complain(market: &Market, message: &str) -> (result: Error)
    ensures
        result@ == complaint(*market, message@),
{
    Error::InvalidData(concat4("Smarkets ", market.id.as_str(), ": ", message))
}

pub open spec fn picked(contracts: Seq<Contract>, places: Seq<usize>) -> Seq<Contract> {
    places.map_values(|k: usize| contracts[k as int])
}

/// Reads one winner market; `places` are those of its contracts in
/// `contracts`.
pub fn normalize_market(
    sport: Sport,
    event: &Event,
    market: &Market,
    contracts: &Vec<Contract>,
    places: &Vec<usize>,
    books: &TextMap<Book>,
    fetched_at: Timestamp,
) -> (result: Result<SourceQuote, Error>)
    requires
        forall|k: int| 0 <= k < places@.len() ==> (#[trigger] places@[k]) < contracts@.len(),
    ensures
        match result {
            Ok(quote) => market_quote(
                sport,
                *event,
                *market,
                picked(contracts@, places@),
                books@,
                fetched_at@,
            ) == Ok::<Quote, Failure>(quote@),
            Err(e) => market_quote(
                sport,
                *event,
                *market,
                picked(contracts@, places@),
                books@,
                fetched_at@,
            ) == Err::<Quote, Failure>(e@),
        },
{
    if places.len() != 2 {
        let message = concat2(natural(places.len() as u128).as_str(), " contracts");
        return Err(complain(market, message.as_str()));
    }
    let first = &contracts[places[0]];
    let second = &contracts[places[1]];
    proof {
        assert(picked(contracts@, places@)[0] == *first);
        assert(picked(contracts@, places@)[1] == *second);
    }
    let (a, b) = match (first.side(), second.side()) {
        (Some(Side::A), Some(Side::B)) => (first, second),
        (Some(Side::B), Some(Side::A)) => (second, first),
        _ => {
            let message = concat4(
                "contract types ",
                first.contract_type.as_str(),
                " / ",
                second.contract_type.as_str(),
            );
            return Err(complain(market, message.as_str()));
        },
    };
    let (participant_a, participant_b) = participant_names(event, a, b);
    let price_a: i64 = match best_offer(books, a.id.as_str()) {
        Ok(price) => price,
        Err(message) => {
            return Err(complain(market, message.as_str()));
        },
    };
    let price_b: i64 = match best_offer(books, b.id.as_str()) {
        Ok(price) => price,
        Err(message) => {
            return Err(complain(market, message.as_str()));
        },
    };
    let overround: i64 = price_a + price_b;
    if overround < FULL_BOOK || overround > MAX_OVERROUND {
        let message = concat3("offers imply ", integer(overround as i128).as_str(), " bp");
        return Err(complain(market, message.as_str()));
    }
    let start_time = match event.start_datetime {
        Some(start) => start,
        None => {
            return Err(complain(market, "no start time"));
        },
    };
    match (price_to_decimal(price_a), price_to_decimal(price_b)) {
        (Some(decimal_odds_a), Some(decimal_odds_b)) => Ok(
            SourceQuote {
                source_id: owned("smarkets"),
                family: SourceFamily::Other(owned("smarkets")),
                sport,
                event_id: owned(event.id.as_str()),
                participant_a,
                participant_b,
                participant_a_provider_ids: single_id("smarkets", a.id.as_str()),
                participant_b_provider_ids: single_id("smarkets", b.id.as_str()),
                start_time,
                start_time_tolerance_minutes: DEFAULT_START_TIME_TOLERANCE_MINUTES,
                decimal_odds_a,
                decimal_odds_b,
                decimal_odds_neutral: None,
                source_timestamp: fetched_at,
                fetched_at,
                parser_version: owned("smarkets-v1"),
                validation_only: false,
            },
        ),
        _ => Err(Error::Overflow),
    }
}

/// The contracts of a market, in their order.
pub open spec fn contracts_of(contracts: Seq<Contract>, market_id: Seq<char>) -> Seq<Contract> {
    contracts.filter(|c: Contract| c.market_id@ == market_id)
}

/// The places of a market's contracts.
pub fn list_contracts(contracts: &Vec<Contract>, market_id: &str) -> (result: Vec<usize>)
    ensures
        forall|k: int| 0 <= k < result@.len() ==> (#[trigger] result@[k]) < contracts@.len(),
        picked(contracts@, result@) == contracts_of(contracts@, market_id@),
{
    let ghost keep = |c: Contract| c.market_id@ == market_id@;
    let mut out: Vec<usize> = Vec::new();
    let mut i: usize = 0;
    while i < contracts.len()
        invariant
            i <= contracts@.len(),
            keep == (|c: Contract| c.market_id@ == market_id@),
            forall|k: int| 0 <= k < out@.len() ==> (#[trigger] out@[k]) < i,
            picked(contracts@, out@) == contracts@.take(i as int).filter(keep),
        decreases contracts@.len() - i,
    {
        proof {
            filter_next(contracts@, keep, i as int);
        }
        if same(contracts[i].market_id.as_str(), market_id) {
            out.push(i);
        }
        i = i + 1;
    }
    out
}

/// The event with an identifier: the last one, with its sport.
pub open spec fn event_with(events: Seq<(Sport, Event)>, id: Seq<char>) -> Option<(Sport, Event)>
    decreases events.len(),
{
    if events.len() == 0 {
        None
    } else if events.last().1.id@ == id {
        Some(events.last())
    } else {
        event_with(events.drop_last(), id)
    }
}

fn find_event(events: &Vec<(Sport, Event)>, id: &str) -> (result: Option<usize>)
    ensures
        match result {
            Some(i) => i < events@.len() && event_with(events@, id@) == Some(events@[i as int]),
            None => event_with(events@, id@) is None,
        },
{
    let mut i: usize = events.len();
    while i > 0
        invariant
            i <= events@.len(),
            event_with(events@, id@) == event_with(events@.take(i as int), id@),
        decreases i,
    {
        proof {
            take_next(events@, i - 1);
        }
        i = i - 1;
        if same(events[i].1.id.as_str(), id) {
            return Some(i);
        }
    }
    None
}

/// The quote of one chosen market, where there is one.
pub open spec fn chosen_quote(
    events: Seq<(Sport, Event)>,
    market: Market,
    contracts: Seq<Contract>,
    books: Map<Seq<char>, Book>,
    fetched_at: int,
) -> Option<Quote> {
    match event_with(events, market.event_id@) {
        Some((sport, event)) => match market_quote(
            sport,
            event,
            market,
            contracts_of(contracts, market.id@),
            books,
            fetched_at,
        ) {
            Ok(quote) => Some(quote),
            Err(_) => None,
        },
        None => None,
    }
}

/// Reads the chosen markets; one that makes no sense is left out.
pub fn normalize_markets(
    events: &Vec<(Sport, Event)>,
    markets: &Vec<Market>,
    contracts: &Vec<Contract>,
    books: &TextMap<Book>,
    fetched_at: Timestamp,
) -> (result: Vec<SourceQuote>)
    ensures
        source_quote_views(result@) == kept(
            markets@,
            |m: Market| chosen_quote(events@, m, contracts@, books@, fetched_at@),
        ),
{
    let ghost f = |m: Market| chosen_quote(events@, m, contracts@, books@, fetched_at@);
    let mut out: Vec<SourceQuote> = Vec::new();
    let mut i: usize = 0;
    while i < markets.len()
        invariant
            i <= markets@.len(),
            f == (|m: Market| chosen_quote(events@, m, contracts@, books@, fetched_at@)),
            source_quote_views(out@) == kept(markets@.take(i as int), f),
        decreases markets@.len() - i,
    {
        proof {
            kept_next(markets@, f, i as int);
        }
        match find_event(events, markets[i].event_id.as_str()) {
            Some(k) => {
                let places = list_contracts(contracts, markets[i].id.as_str());
                match normalize_market(
                    events[k].0,
                    &events[k].1,
                    &markets[i],
                    contracts,
                    &places,
                    books,
                    fetched_at,
                ) {
                    Ok(quote) => {
                        out.push(quote);
                    },
                    Err(_) => {},
                }
            },
            None => {},
        }
        i = i + 1;
    }
    out
}

/// The identifiers from a place on, in comma-joined batches.
pub open spec fn batches_from(ids: Seq<Seq<char>>, from: int) -> Seq<Seq<char>>
    decreases ids.len() - from,
{
    if from >= ids.len() {
        seq![]
    } else if from + BATCH_SIZE >= ids.len() {
        seq![joined(ids.skip(from), ","@)]
    } else {
        seq![joined(ids.subrange(from, from + BATCH_SIZE), ","@)] + batches_from(
            ids,
            from + BATCH_SIZE,
        )
    }
}

/// The identifiers in comma-joined batches that the feed takes.
pub fn batched(ids: &Vec<String>) -> (result: Vec<String>)
    ensures
        texts(result@) == batches_from(texts(ids@), 0),
{
    let ghost all = texts(ids@);
    let count: usize = ids.len();
    let mut out: Vec<String> = Vec::new();
    let mut from: usize = 0;
    assert(texts(out@) + batches_from(all, 0) =~= batches_from(all, 0));
    while from < count
        invariant
            count == ids@.len(),
            all == texts(ids@),
            from <= count,
            texts(out@) + batches_from(all, from as int) == batches_from(all, 0),
        decreases count - from,
    {
        let to: usize = if BATCH_SIZE <= count - from {
            from + BATCH_SIZE
        } else {
            count
        };
        let mut part: Vec<String> = Vec::new();
        let mut i: usize = from;
        while i < to
            invariant
                count == ids@.len(),
                all == texts(ids@),
                from <= i <= to <= count,
                texts(part@) == all.subrange(from as int, i as int),
            decreases to - i,
        {
            proof {
                assert(all.subrange(from as int, i + 1) =~= all.subrange(
                    from as int,
                    i as int,
                ).push(all[i as int]));
            }
            part.push(owned(ids[i].as_str()));
            i = i + 1;
        }
        let ghost head = texts(out@);
        let ghost line = joined(all.subrange(from as int, to as int), ","@);
        out.push(join(&part, ","));
        proof {
            assert(from + BATCH_SIZE >= count ==> all.skip(from as int) =~= all.subrange(
                from as int,
                to as int,
            ));
            assert(head.push(line) + batches_from(all, to as int) =~= head + (seq![line]
                + batches_from(all, to as int)));
            assert(batches_from(all, from as int) =~= seq![line] + batches_from(all, to as int));
        }
        from = to;
    }
    assert(texts(out@) + batches_from(all, from as int) =~= texts(out@));
    out
}

/// The query of the next page, if there is one: it must be a query and new.
pub fn next_query(current: &str, next: &Option<String>) -> (result: Option<String>)
    ensures
        text_of(result) == match text_of(*next) {
            Some(n) => if has_prefix(n, "?"@) && n != current@ {
                Some(n)
            } else {
                None
            },
            None => None,
        },
{
    match next {
        Some(n) => if starts_with(n.as_str(), "?") && !same(n.as_str(), current) {
            Some(owned(n.as_str()))
        } else {
            None
        },
        None => None,
    }
}

} // verus!
