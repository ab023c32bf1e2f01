//! The terminal views: what they show, in which order, and what a key does.

pub mod data;
pub mod feed;
pub mod log;
pub mod views;
pub mod widgets;

use vstd::prelude::*;

use crate::config::{Policy, Settings};
use crate::domain::{
    all_sports, paper_position_views, research_opportunity_views, PaperPortfolio, PaperPosition,
    Portfolio, Position, RecommendationClass, Research, ResearchOpportunity, Sport,
};
use crate::error::{Error, Failure};
use crate::seqs::{
    filter_next, group_seqs, in_order, is_order, lemma_sorted_keeps, lemma_sorted_map,
    lemma_sorted_order, ranking, sorted, stable_sort, take_next, Precedence,
};
use crate::text::{
    before, concat2, lemma_text_total, lemma_text_transitive, same, text_before,
};
use crate::time::{trunc_div, Timestamp, NANOS_PER_SECOND};
use crate::tui::data::{edge_shorter, families_short, gates_failed, RowGap};
use crate::tui::widgets::Tone;

verus! {

broadcast use group_seqs;

/// One of the views, each behind its tab.
#[derive(Debug, Clone, Copy, PartialEq, Eq, Structural)]
pub enum Tab {
    Overview,
    Markets,
    Sources,
    Portfolio,
    System,
}

/// Every view, in the order of the tabs.
pub open spec fn all_tabs() -> Seq<Tab> {
    seq![Tab::Overview, Tab::Markets, Tab::Sources, Tab::Portfolio, Tab::System]
}

impl Tab {
    /// The place of the tab.
    pub open spec fn place(self) -> int {
        match self {
            Tab::Overview => 0,
            Tab::Markets => 1,
            Tab::Sources => 2,
            Tab::Portfolio => 3,
            Tab::System => 4,
        }
    }

    /// Every view, in the order of the tabs.
    pub fn all() -> (result: [Tab; 5])
        ensures
            result@ == all_tabs(),
    {
        let all = [Tab::Overview, Tab::Markets, Tab::Sources, Tab::Portfolio, Tab::System];
        assert(all@ =~= all_tabs());
        all
    }

    pub open spec fn title(self) -> Seq<char> {
        match self {
            Tab::Overview => "Overview"@,
            Tab::Markets => "Markets"@,
            Tab::Sources => "Sources"@,
            Tab::Portfolio => "Portfolio"@,
            Tab::System => "System"@,
        }
    }

    pub fn label(self) -> (result: &'static str)
        ensures
            result@ == self.title(),
    {
        match self {
            Tab::Overview => "Overview",
            Tab::Markets => "Markets",
            Tab::Sources => "Sources",
            Tab::Portfolio => "Portfolio",
            Tab::System => "System",
        }
    }

    /// The key that opens the view: its place, counted from one.
    pub fn shortcut(self) -> (result: char)
        ensures
            result as int == '1' as int + self.place(),
    {
        match self {
            Tab::Overview => '1',
            Tab::Markets => '2',
            Tab::Sources => '3',
            Tab::Portfolio => '4',
            Tab::System => '5',
        }
    }

    /// The view behind this one; the first is behind the last.
    pub fn next(self) -> (result: Tab)
        ensures
            result == all_tabs()[(self.place() + 1) % 5],
    {
        match self {
            Tab::Overview => Tab::Markets,
            Tab::Markets => Tab::Sources,
            Tab::Sources => Tab::Portfolio,
            Tab::Portfolio => Tab::System,
            Tab::System => Tab::Overview,
        }
    }

    /// The view before this one; the last is before the first.
    pub fn previous(self) -> (result: Tab)
        ensures
            result == all_tabs()[(self.place() + 4) % 5],
    {
        match self {
            Tab::Overview => Tab::System,
            Tab::Markets => Tab::Overview,
            Tab::Sources => Tab::Markets,
            Tab::Portfolio => Tab::Sources,
            Tab::System => Tab::Portfolio,
        }
    }
}

/// Going to the next view and back stays; five steps come round; and the tabs
/// stand at their places.
pub proof fn tabs_go_round(view: Tab)
    ensures
        all_tabs()[view.place()] == view,
        all_tabs()[(all_tabs()[(view.place() + 1) % 5].place() + 4) % 5] == view,
        all_tabs()[(all_tabs()[(view.place() + 4) % 5].place() + 1) % 5] == view,
{
}

#[derive(Debug, Clone, Copy, PartialEq, Eq, Structural)]
pub enum SortKey {
    NetEdge,
    RawEdge,
    Families,
    Class,
    Sport,
}

impl SortKey {
    pub open spec fn following(self) -> SortKey {
        match self {
            SortKey::NetEdge => SortKey::RawEdge,
            SortKey::RawEdge => SortKey::Families,
            SortKey::Families => SortKey::Class,
            SortKey::Class => SortKey::Sport,
            SortKey::Sport => SortKey::NetEdge,
        }
    }

    /// The key behind this one; the first is behind the last.
    pub fn next(self) -> (result: SortKey)
        ensures
            result == self.following(),
    {
        match self {
            SortKey::NetEdge => SortKey::RawEdge,
            SortKey::RawEdge => SortKey::Families,
            SortKey::Families => SortKey::Class,
            SortKey::Class => SortKey::Sport,
            SortKey::Sport => SortKey::NetEdge,
        }
    }

    pub fn label(self) -> (result: &'static str)
        ensures
            result@ == match self {
                SortKey::NetEdge => "net edge"@,
                SortKey::RawEdge => "raw edge"@,
                SortKey::Families => "families"@,
                SortKey::Class => "class"@,
                SortKey::Sport => "sport"@,
            },
    {
        match self {
            SortKey::NetEdge => "net edge",
            SortKey::RawEdge => "raw edge",
            SortKey::Families => "families",
            SortKey::Class => "class",
            SortKey::Sport => "sport",
        }
    }
}

/// The filter behind a filter: from every sport through each of them and back.
pub open spec fn filter_after(current: Option<Sport>) -> Option<Sport> {
    match current {
        None => Some(Sport::Nfl),
        Some(Sport::Nfl) => Some(Sport::Nba),
        Some(Sport::Nba) => Some(Sport::Wnba),
        Some(Sport::Wnba) => Some(Sport::Mlb),
        Some(Sport::Mlb) => Some(Sport::Tennis),
        Some(Sport::Tennis) => None,
    }
}

/// The filter behind a filter.
pub fn next_sport_filter(current: Option<Sport>) -> (result: Option<Sport>)
    ensures
        result == filter_after(current),
{
    match current {
        None => Some(Sport::Nfl),
        Some(sport) => match sport {
            Sport::Nfl => Some(Sport::Nba),
            Sport::Nba => Some(Sport::Wnba),
            Sport::Wnba => Some(Sport::Mlb),
            Sport::Mlb => Some(Sport::Tennis),
            Sport::Tennis => None,
        },
    }
}

/// Pressing on comes back: five sort keys and six filters, in the order in
/// which lists show the sports.
pub proof fn keys_and_filters_come_round(key: SortKey, current: Option<Sport>, i: int)
    ensures
        key.following().following().following().following().following() == key,
        filter_after(
            filter_after(filter_after(filter_after(filter_after(filter_after(current))))),
        ) == current,
        filter_after(None) == Some(all_sports()[0]),
        0 <= i < 4 ==> filter_after(Some(all_sports()[i])) == Some(all_sports()[i + 1]),
        filter_after(Some(all_sports()[4])) is None,
{
}

/// The order of the classes: what can be acted on first.
pub open spec fn rank_of(class: RecommendationClass) -> int {
    match class {
        RecommendationClass::Actionable => 0,
        RecommendationClass::Watchlist => 1,
        RecommendationClass::Rejected => 2,
    }
}

/// The order of the classes: what can be acted on first.
pub fn class_rank(class: RecommendationClass) -> (result: u8)
    ensures
        result == rank_of(class),
{
    match class {
        RecommendationClass::Actionable => 0,
        RecommendationClass::Watchlist => 1,
        RecommendationClass::Rejected => 2,
    }
}

/// Whether a row comes before another under a sort key; what ties keeps its
/// order.
pub open spec fn comes_first(key: SortKey, a: Research, b: Research) -> bool {
    let more_net = b.opportunity.net_edge.lt(a.opportunity.net_edge);
    let more_raw = b.opportunity.raw_edge.lt(a.opportunity.raw_edge);
    match key {
        SortKey::NetEdge => more_net,
        SortKey::RawEdge => more_raw,
        SortKey::Families => a.opportunity.family_count > b.opportunity.family_count || (
        a.opportunity.family_count == b.opportunity.family_count && more_raw),
        SortKey::Class => rank_of(a.effective_class) < rank_of(b.effective_class) || (rank_of(
            a.effective_class,
        ) == rank_of(b.effective_class) && more_net),
        SortKey::Sport => text_before(a.opportunity.sport.label(), b.opportunity.sport.label()) || (
        a.opportunity.sport.label() == b.opportunity.sport.label() && more_net),
    }
}

/// The rows under a sort key.
pub open spec fn by_key(key: SortKey) -> spec_fn(Research, Research) -> bool {
    |a: Research, b: Research| comes_first(key, a, b)
}

/// Whether a row passes a sport filter.
pub open spec fn passes(filter: Option<Sport>) -> spec_fn(Research) -> bool {
    |r: Research| filter is None || filter == Some(r.opportunity.sport)
}

/// The rows of the market view.
pub open spec fn listed_rows(rows: Seq<Research>, filter: Option<Sport>, key: SortKey) -> Seq<
    Research,
> {
    sorted(rows.filter(passes(filter)), by_key(key))
}

pub open spec fn research_ref_views<'a>(items: Seq<&'a ResearchOpportunity>) -> Seq<Research> {
    items.map_values(|item: &'a ResearchOpportunity| item@)
}

struct ByKey {
    key: SortKey,
}

impl<'a> Precedence<&'a ResearchOpportunity> for ByKey {
    closed spec fn precedes(&self, a: &'a ResearchOpportunity, b: &'a ResearchOpportunity) -> bool {
        comes_first(self.key, a@, b@)
    }

    fn first(&self, a: &&'a ResearchOpportunity, b: &&'a ResearchOpportunity) -> (result: bool) {
        let (l, r) = (&a.opportunity, &b.opportunity);
        match self.key {
            SortKey::NetEdge => r.net_edge.less(l.net_edge),
            SortKey::RawEdge => r.raw_edge.less(l.raw_edge),
            SortKey::Families => l.family_count > r.family_count || (l.family_count
                == r.family_count && r.raw_edge.less(l.raw_edge)),
            SortKey::Class => {
                let x: u8 = class_rank(a.effective_class);
                let y: u8 = class_rank(b.effective_class);
                x < y || (x == y && r.net_edge.less(l.net_edge))
            },
            SortKey::Sport => before(l.sport.name(), r.sport.name()) || (same(
                l.sport.name(),
                r.sport.name(),
            ) && r.net_edge.less(l.net_edge)),
        }
    }
}

/// Whether a row comes before another in the overview: candidates first, then
/// by how close a row is to the gates in force. Closer is to fail fewer of
/// them, then to lack less edge, then fewer families; rows as close as each
/// other go by their families and their raw edge.
pub open spec fn closer(policy: Policy, a: Research, b: Research) -> bool {
    let ranks = (rank_of(a.effective_class), rank_of(b.effective_class));
    let (x, y) = (a.opportunity, b.opportunity);
    if ranks.0 != ranks.1 {
        ranks.0 < ranks.1
    } else if gates_failed(x, policy) != gates_failed(y, policy) {
        gates_failed(x, policy) < gates_failed(y, policy)
    } else if edge_shorter(x, y, policy) || edge_shorter(y, x, policy) {
        edge_shorter(x, y, policy)
    } else if families_short(x, policy) != families_short(y, policy) {
        families_short(x, policy) < families_short(y, policy)
    } else {
        x.family_count > y.family_count || (x.family_count == y.family_count && y.raw_edge.lt(
            x.raw_edge,
        ))
    }
}

pub open spec fn by_closeness(policy: Policy) -> spec_fn(Research, Research) -> bool {
    |a: Research, b: Research| closer(policy, a, b)
}

struct ByCloseness<'s> {
    settings: &'s Settings,
}

impl<'a, 's> Precedence<&'a ResearchOpportunity> for ByCloseness<'s> {
    closed spec fn precedes(&self, a: &'a ResearchOpportunity, b: &'a ResearchOpportunity) -> bool {
        closer(self.settings@, a@, b@)
    }

    fn first(&self, a: &&'a ResearchOpportunity, b: &&'a ResearchOpportunity) -> (result: bool) {
        let x: u8 = class_rank(a.effective_class);
        let y: u8 = class_rank(b.effective_class);
        if x != y {
            return x < y;
        }
        let (near, far) = (RowGap::of(*a, self.settings), RowGap::of(*b, self.settings));
        if near.failed != far.failed {
            return near.failed < far.failed;
        }
        if near.edge_below(&far) {
            return true;
        }
        if far.edge_below(&near) {
            return false;
        }
        if near.families != far.families {
            return near.families < far.families;
        }
        let (l, r) = (&a.opportunity, &b.opportunity);
        l.family_count > r.family_count || (l.family_count == r.family_count && r.raw_edge.less(
            l.raw_edge,
        ))
    }
}

/// Candidates first, then the closest misses of the gates in force, for the
/// overview.
pub fn candidate_rows<'a>(rows: &'a Vec<ResearchOpportunity>, settings: &Settings) -> (result: Vec<
    &'a ResearchOpportunity,
>)
    ensures
        research_ref_views(result@) == sorted(
            research_opportunity_views(rows@),
            by_closeness(settings@),
        ),
{
    let order = ByCloseness { settings };
    let ghost all = research_opportunity_views(rows@);
    let mut out: Vec<&'a ResearchOpportunity> = Vec::new();
    let mut i: usize = 0;
    while i < rows.len()
        invariant
            i <= rows@.len(),
            all == research_opportunity_views(rows@),
            research_ref_views(out@) == all.take(i as int),
        decreases rows@.len() - i,
    {
        proof {
            take_next(all, i as int);
        }
        out.push(&rows[i]);
        i = i + 1;
    }
    proof {
        lemma_sorted_map(
            out@,
            |r: &'a ResearchOpportunity| r@,
            ranking::<&'a ResearchOpportunity, ByCloseness<'_>>(order),
            by_closeness(settings@),
        );
    }
    stable_sort(out, &order)
}

/// What the views remember between keys.
#[derive(Debug, Clone, Copy, PartialEq, Eq, Structural)]
pub struct App {
    pub view: Tab,
    pub sort: SortKey,
    pub sport_filter: Option<Sport>,
    pub markets_cursor: usize,
    pub show_detail: bool,
    pub portfolio_cursor: usize,
    pub log_scroll: usize,
}

/// What the keys act on.
pub struct World {
    pub rows: Seq<Research>,
    pub open: Seq<Position>,
    pub log_len: int,
    pub has_engine: bool,
    pub policy: Policy,
}

/// A key as the views tell them apart.
#[derive(Debug, Clone, Copy, PartialEq, Eq, Structural)]
pub enum Key {
    Char(char),
    Escape,
    Tab,
    BackTab,
    Enter,
    Up,
    Down,
    PageUp,
    PageDown,
    Home,
    End,
    Other,
}

/// What a key leads to, beyond what the views remember.
#[derive(Debug, Clone, Copy, PartialEq, Eq, Structural)]
pub enum Outcome {
    Ignored,
    Redraw,
    /// Leave; an engine in this process is asked to shut down.
    Quit { stop_engine: bool },
    /// Ask the engine for a scan.
    RequestScan,
    /// Read the store again.
    ReloadStore,
    OpenPaper(u128),
    ClosePaper(u128),
}

/// How far a page key moves.
pub const PAGE: i128 = 10;

impl App {
    /// The cursor of the view that is shown, and how many places it has.
    pub open spec fn bounds(self, world: World) -> (int, int) {
        match self.view {
            Tab::Markets => (
                self.markets_cursor as int,
                listed_rows(world.rows, self.sport_filter, self.sort).len() as int,
            ),
            Tab::Portfolio => (self.portfolio_cursor as int, world.open.len() as int),
            Tab::System => (self.log_scroll as int, world.log_len),
            _ => (0, 0),
        }
    }

    /// The views with the cursor at a place, or at the last one.
    pub open spec fn at_place(self, world: World, value: int) -> App {
        let len = self.bounds(world).1;
        let last = if len == 0 {
            0
        } else {
            len - 1
        };
        let place = (if value < last {
            value
        } else {
            last
        }) as usize;
        match self.view {
            Tab::Markets => App { markets_cursor: place, ..self },
            Tab::Portfolio => App { portfolio_cursor: place, ..self },
            Tab::System => App { log_scroll: place, ..self },
            _ => self,
        }
    }

    /// The views with the cursor moved, within its places.
    pub open spec fn moved(self, world: World, delta: int) -> App {
        let (current, len) = self.bounds(world);
        if len == 0 {
            self
        } else {
            let aim = current + delta;
            self.at_place(
                world,
                if aim < 0 {
                    0
                } else {
                    aim
                },
            )
        }
    }

    /// The identifier at the cursor of the market view, or of the row nearest
    /// the gates in the overview.
    pub open spec fn picked_row(self, world: World) -> Option<int> {
        let rows = if self.view is Markets {
            listed_rows(world.rows, self.sport_filter, self.sort)
        } else {
            sorted(world.rows, by_closeness(world.policy))
        };
        let at = if self.view is Markets {
            self.markets_cursor as int
        } else {
            0
        };
        if at < rows.len() {
            Some(rows[at].opportunity.id)
        } else {
            None
        }
    }

    /// The opportunity of the position at the cursor.
    pub open spec fn picked_position(self, world: World) -> Option<int> {
        if self.portfolio_cursor < world.open.len() {
            Some(world.open[self.portfolio_cursor as int].opportunity_id)
        } else {
            None
        }
    }

    /// What a key does.
    pub open spec fn pressed(self, key: Key, control: bool, world: World) -> (App, Outcome) {
        match key {
            Key::Escape | Key::Char('q') => (self, Outcome::Quit { stop_engine: world.has_engine }),
            Key::Tab => (
                App { view: all_tabs()[(self.view.place() + 1) % 5], ..self },
                Outcome::Redraw,
            ),
            Key::BackTab => (
                App { view: all_tabs()[(self.view.place() + 4) % 5], ..self },
                Outcome::Redraw,
            ),
            Key::Enter => if self.view is Markets {
                (App { show_detail: !self.show_detail, ..self }, Outcome::Redraw)
            } else {
                (self, Outcome::Ignored)
            },
            Key::Up | Key::Char('k') => (self.moved(world, -1), Outcome::Redraw),
            Key::Down | Key::Char('j') => (self.moved(world, 1), Outcome::Redraw),
            Key::PageUp => (self.moved(world, -PAGE), Outcome::Redraw),
            Key::PageDown => (self.moved(world, PAGE as int), Outcome::Redraw),
            Key::Home | Key::Char('g') => (self.at_place(world, 0), Outcome::Redraw),
            Key::End | Key::Char('G') => (self.at_place(world, usize::MAX as int), Outcome::Redraw),
            Key::Other => (self, Outcome::Ignored),
            Key::Char('c') => if control {
                (self, Outcome::Quit { stop_engine: world.has_engine })
            } else if self.view is Portfolio {
                match self.picked_position(world) {
                    Some(id) => (self, Outcome::ClosePaper(id as u128)),
                    None => (self, Outcome::Ignored),
                }
            } else {
                (self, Outcome::Ignored)
            },
            Key::Char('r') => (
                self,
                if world.has_engine {
                    Outcome::RequestScan
                } else {
                    Outcome::ReloadStore
                },
            ),
            Key::Char('s') => if self.view is Markets {
                (App { sort: self.sort.following(), markets_cursor: 0, ..self }, Outcome::Redraw)
            } else {
                (self, Outcome::Ignored)
            },
            Key::Char('f') => if self.view is Markets {
                (
                    App {
                        sport_filter: filter_after(self.sport_filter),
                        markets_cursor: 0,
                        ..self
                    },
                    Outcome::Redraw,
                )
            } else {
                (self, Outcome::Ignored)
            },
            Key::Char('o') => if self.view is Markets || self.view is Overview {
                match self.picked_row(world) {
                    Some(id) => (self, Outcome::OpenPaper(id as u128)),
                    None => (self, Outcome::Ignored),
                }
            } else {
                (self, Outcome::Ignored)
            },
            Key::Char(c) => if '1' <= c <= '5' {
                (App { view: all_tabs()[c as int - '1' as int], ..self }, Outcome::Redraw)
            } else {
                (self, Outcome::Ignored)
            },
        }
    }

    /// The views as they open.
    pub fn new() -> (result: App)
        ensures
            result == (App {
                view: Tab::Overview,
                sort: SortKey::NetEdge,
                sport_filter: None,
                markets_cursor: 0,
                show_detail: true,
                portfolio_cursor: 0,
                log_scroll: 0,
            }),
    {
        App {
            view: Tab::Overview,
            sort: SortKey::NetEdge,
            sport_filter: None,
            markets_cursor: 0,
            show_detail: true,
            portfolio_cursor: 0,
            log_scroll: 0,
        }
    }

    /// The rows of the market view under the filter and the sort key in force.
    pub fn market_rows<'a>(&self, rows: &'a Vec<ResearchOpportunity>) -> (result: Vec<
        &'a ResearchOpportunity,
    >)
        ensures
            research_ref_views(result@) == listed_rows(
                research_opportunity_views(rows@),
                self.sport_filter,
                self.sort,
            ),
    {
        let ghost all = research_opportunity_views(rows@);
        let filter: Option<Sport> = self.sport_filter;
        let mut out: Vec<&'a ResearchOpportunity> = Vec::new();
        let mut i: usize = 0;
        while i < rows.len()
            invariant
                i <= rows@.len(),
                all == research_opportunity_views(rows@),
                research_ref_views(out@) == all.take(i as int).filter(passes(filter)),
            decreases rows@.len() - i,
        {
            proof {
                filter_next(all, passes(filter), i as int);
            }
            let shown: bool = match filter {
                Some(sport) => rows[i].opportunity.sport == sport,
                None => true,
            };
            if shown {
                out.push(&rows[i]);
            }
            i = i + 1;
        }
        let rank = ByKey { key: self.sort };
        proof {
            lemma_sorted_map(
                out@,
                |r: &'a ResearchOpportunity| r@,
                ranking::<&'a ResearchOpportunity, ByKey>(rank),
                by_key(self.sort),
            );
        }
        stable_sort(out, &rank)
    }

    /// The row at the cursor of the market view.
    pub fn selected_market<'a>(&self, rows: &'a Vec<ResearchOpportunity>) -> (result: Option<
        &'a ResearchOpportunity,
    >)
        ensures
            ({
                let shown = listed_rows(
                    research_opportunity_views(rows@),
                    self.sport_filter,
                    self.sort,
                );
                match result {
                    Some(row) => self.markets_cursor < shown.len() && row@
                        == shown[self.markets_cursor as int],
                    None => self.markets_cursor >= shown.len(),
                }
            }),
    {
        let shown: Vec<&'a ResearchOpportunity> = self.market_rows(rows);
        let ghost views = research_ref_views(shown@);
        if self.markets_cursor < shown.len() {
            assert(views[self.markets_cursor as int] == shown@[self.markets_cursor as int]@);
            Some(shown[self.markets_cursor])
        } else {
            None
        }
    }

    fn cursor_bounds(
        &self,
        rows: &Vec<ResearchOpportunity>,
        open: &Vec<PaperPosition>,
        log_len: usize,
        Ghost(world): Ghost<World>,
    ) -> (result: (usize, usize))
        requires
            world.rows == research_opportunity_views(rows@),
            world.open == paper_position_views(open@),
            world.log_len == log_len,
        ensures
            result.0 == self.bounds(world).0,
            result.1 == self.bounds(world).1,
    {
        match self.view {
            Tab::Markets => {
                let shown: Vec<&ResearchOpportunity> = self.market_rows(rows);
                assert(shown@.len() == research_ref_views(shown@).len());
                (self.markets_cursor, shown.len())
            },
            Tab::Portfolio => (self.portfolio_cursor, open.len()),
            Tab::System => (self.log_scroll, log_len),
            Tab::Overview => (0, 0),
            Tab::Sources => (0, 0),
        }
    }

    fn set_cursor(self, len: usize, value: usize, Ghost(world): Ghost<World>) -> (result: App)
        requires
            len == self.bounds(world).1,
        ensures
            result == self.at_place(world, value as int),
    {
        let last: usize = if len == 0 {
            0
        } else {
            len - 1
        };
        let place: usize = if value < last {
            value
        } else {
            last
        };
        let mut next = self;
        match self.view {
            Tab::Markets => {
                next.markets_cursor = place;
            },
            Tab::Portfolio => {
                next.portfolio_cursor = place;
            },
            Tab::System => {
                next.log_scroll = place;
            },
            Tab::Overview => {},
            Tab::Sources => {},
        }
        next
    }

    fn move_cursor(self, current: usize, len: usize, delta: i128, Ghost(world): Ghost<World>) -> (result:
        App)
        requires
            current == self.bounds(world).0,
            len == self.bounds(world).1,
            -PAGE <= delta <= PAGE,
        ensures
            result == self.moved(world, delta as int),
    {
        if len == 0 {
            return self;
        }
        let aim: i128 = current as i128 + delta;
        let value: usize = if aim < 0 {
            0
        } else if aim > usize::MAX as i128 {
            usize::MAX
        } else {
            aim as usize
        };
        self.set_cursor(len, value, Ghost(world))
    }

    /// Takes a key: what the views remember afterwards, and what is left to do.
    pub fn handle_key(
        &mut self,
        key: Key,
        control: bool,
        rows: &Vec<ResearchOpportunity>,
        portfolio: &PaperPortfolio,
        log_len: usize,
        has_engine: bool,
        settings: &Settings,
    ) -> (result: Outcome)
        ensures
            (*final(self), result) == old(self).pressed(
                key,
                control,
                World {
                    rows: research_opportunity_views(rows@),
                    open: portfolio@.open_positions,
                    log_len: log_len as int,
                    has_engine,
                    policy: settings@,
                },
            ),
    {
        let ghost world = World {
            rows: research_opportunity_views(rows@),
            open: portfolio@.open_positions,
            log_len: log_len as int,
            has_engine,
            policy: settings@,
        };
        let open: &Vec<PaperPosition> = &portfolio.open_positions;
        let app: App = *self;
        match key {
            Key::Escape => Outcome::Quit { stop_engine: has_engine },
            Key::Tab => {
                self.view = app.view.next();
                Outcome::Redraw
            },
            Key::BackTab => {
                self.view = app.view.previous();
                Outcome::Redraw
            },
            Key::Enter => if app.view == Tab::Markets {
                self.show_detail = !app.show_detail;
                Outcome::Redraw
            } else {
                Outcome::Ignored
            },
            Key::Up => {
                let (current, len) = app.cursor_bounds(rows, open, log_len, Ghost(world));
                *self = app.move_cursor(current, len, -1, Ghost(world));
                Outcome::Redraw
            },
            Key::Down => {
                let (current, len) = app.cursor_bounds(rows, open, log_len, Ghost(world));
                *self = app.move_cursor(current, len, 1, Ghost(world));
                Outcome::Redraw
            },
            Key::PageUp => {
                let (current, len) = app.cursor_bounds(rows, open, log_len, Ghost(world));
                *self = app.move_cursor(current, len, -PAGE, Ghost(world));
                Outcome::Redraw
            },
            Key::PageDown => {
                let (current, len) = app.cursor_bounds(rows, open, log_len, Ghost(world));
                *self = app.move_cursor(current, len, PAGE, Ghost(world));
                Outcome::Redraw
            },
            Key::Home => {
                let (_, len) = app.cursor_bounds(rows, open, log_len, Ghost(world));
                *self = app.set_cursor(len, 0, Ghost(world));
                Outcome::Redraw
            },
            Key::End => {
                let (_, len) = app.cursor_bounds(rows, open, log_len, Ghost(world));
                *self = app.set_cursor(len, usize::MAX, Ghost(world));
                Outcome::Redraw
            },
            Key::Other => Outcome::Ignored,
            Key::Char(c) => self.handle_char(
                c,
                control,
                rows,
                portfolio,
                log_len,
                has_engine,
                settings,
            ),
        }
    }

    fn handle_char(
        &mut self,
        c: char,
        control: bool,
        rows: &Vec<ResearchOpportunity>,
        portfolio: &PaperPortfolio,
        log_len: usize,
        has_engine: bool,
        settings: &Settings,
    ) -> (result: Outcome)
        ensures
            (*final(self), result) == old(self).pressed(
                Key::Char(c),
                control,
                World {
                    rows: research_opportunity_views(rows@),
                    open: portfolio@.open_positions,
                    log_len: log_len as int,
                    has_engine,
                    policy: settings@,
                },
            ),
    {
        let ghost world = World {
            rows: research_opportunity_views(rows@),
            open: portfolio@.open_positions,
            log_len: log_len as int,
            has_engine,
            policy: settings@,
        };
        let open: &Vec<PaperPosition> = &portfolio.open_positions;
        let app: App = *self;
        if c == 'q' {
            return Outcome::Quit { stop_engine: has_engine };
        }
        if c == 'k' || c == 'j' {
            let delta: i128 = if c == 'k' {
                -1
            } else {
                1
            };
            let (current, len) = app.cursor_bounds(rows, open, log_len, Ghost(world));
            *self = app.move_cursor(current, len, delta, Ghost(world));
            return Outcome::Redraw;
        }
        if c == 'g' || c == 'G' {
            let value: usize = if c == 'g' {
                0
            } else {
                usize::MAX
            };
            let (_, len) = app.cursor_bounds(rows, open, log_len, Ghost(world));
            *self = app.set_cursor(len, value, Ghost(world));
            return Outcome::Redraw;
        }
        if c == 'c' {
            if control {
                return Outcome::Quit { stop_engine: has_engine };
            }
            if app.view == Tab::Portfolio && app.portfolio_cursor < open.len() {
                assert(world.open[app.portfolio_cursor as int]
                    == open@[app.portfolio_cursor as int]@);
                return Outcome::ClosePaper(open[app.portfolio_cursor].opportunity_id);
            }
            return Outcome::Ignored;
        }
        if c == 'r' {
            if has_engine {
                return Outcome::RequestScan;
            }
            return Outcome::ReloadStore;
        }
        if c == 's' {
            if app.view == Tab::Markets {
                self.sort = app.sort.next();
                self.markets_cursor = 0;
                return Outcome::Redraw;
            }
            return Outcome::Ignored;
        }
        if c == 'f' {
            if app.view == Tab::Markets {
                self.sport_filter = next_sport_filter(app.sport_filter);
                self.markets_cursor = 0;
                return Outcome::Redraw;
            }
            return Outcome::Ignored;
        }
        if c == 'o' {
            if app.view == Tab::Markets {
                return match app.selected_market(rows) {
                    Some(row) => Outcome::OpenPaper(row.opportunity.id),
                    None => Outcome::Ignored,
                };
            }
            if app.view == Tab::Overview {
                let shown: Vec<&ResearchOpportunity> = candidate_rows(rows, settings);
                let ghost views = research_ref_views(shown@);
                if shown.len() > 0 {
                    assert(views[0] == shown@[0]@);
                    return Outcome::OpenPaper(shown[0].opportunity.id);
                }
            }
            return Outcome::Ignored;
        }
        let view: Tab = match c {
            '1' => Tab::Overview,
            '2' => Tab::Markets,
            '3' => Tab::Sources,
            '4' => Tab::Portfolio,
            '5' => Tab::System,
            _ => {
                return Outcome::Ignored;
            },
        };
        self.view = view;
        Outcome::Redraw
    }
}

/// Wherever the cursors stand, a move leaves the one shown at a place that
/// there is, and no other view's.
pub proof fn moves_stay_in_bounds(app: App, world: World, delta: int)
    requires
        app.bounds(world).1 > 0,
        world.log_len <= usize::MAX,
        world.open.len() <= usize::MAX,
        world.rows.len() <= usize::MAX,
    ensures
        0 <= app.moved(world, delta).bounds(world).0 < app.bounds(world).1,
        app.moved(world, delta).bounds(world).1 == app.bounds(world).1,
        app.moved(world, delta).view == app.view,
        app.moved(world, delta).sort == app.sort,
{
    let rows = listed_rows(world.rows, app.sport_filter, app.sort);
    lemma_sorted_keeps(world.rows.filter(passes(app.sport_filter)), by_key(app.sort));
    crate::seqs::filter_member(world.rows, passes(app.sport_filter), world.rows[0]);
    assert(rows.len() <= usize::MAX);
}

/// Leaving never strands an engine: every way out asks the engine of this
/// process to stop, and only the ways out do.
pub proof fn every_exit_stops_the_engine(app: App, key: Key, control: bool, world: World)
    ensures
        app.pressed(key, control, world).1 matches Outcome::Quit { stop_engine } ==> stop_engine
            == world.has_engine,
        app.pressed(key, control, world).1 is Quit <==> key is Escape || key == Key::Char('q') || (
        control && key == Key::Char('c')),
{
}

/// The market view shows each row that passes the filter once, and none before
/// one that comes first under the sort key.
pub proof fn listed_rows_are_the_filtered_rows_in_order(
    rows: Seq<Research>,
    filter: Option<Sport>,
    key: SortKey,
)
    ensures
        listed_rows(rows, filter, key).to_multiset() == rows.filter(passes(filter)).to_multiset(),
        in_order(listed_rows(rows, filter, key), by_key(key)),
{
    let kept = rows.filter(passes(filter));
    lemma_sorted_keeps(kept, by_key(key));
    if key is Sport {
        assert forall|a: Research| !#[trigger] by_key(key)(a, a) by {
            lemma_text_total(a.opportunity.sport.label(), a.opportunity.sport.label());
        }
        assert forall|a: Research, b: Research|
            #![trigger by_key(key)(a, b)]
            by_key(key)(a, b) implies !by_key(key)(b, a) by {
            lemma_text_total(a.opportunity.sport.label(), b.opportunity.sport.label());
            lemma_text_total(b.opportunity.sport.label(), a.opportunity.sport.label());
        }
        assert forall|a: Research, b: Research, c: Research|
            #![trigger by_key(key)(b, a), by_key(key)(c, b)]
            !by_key(key)(b, a) && !by_key(key)(c, b) implies !by_key(key)(c, a) by {
            let (x, y, z) = (
                a.opportunity.sport.label(),
                b.opportunity.sport.label(),
                c.opportunity.sport.label(),
            );
            lemma_text_total(x, y);
            lemma_text_total(y, z);
            lemma_text_total(x, z);
            lemma_text_total(z, x);
            if text_before(x, y) && text_before(y, z) {
                lemma_text_transitive(x, y, z);
            }
        }
    }
    assert(is_order(by_key(key)));
    lemma_sorted_order(kept, by_key(key));
}

/// The overview shows every row once, candidates first, and no row before one
/// that is closer to the gates.
pub proof fn candidates_come_first(rows: Seq<Research>, policy: Policy)
    ensures
        sorted(rows, by_closeness(policy)).to_multiset() == rows.to_multiset(),
        in_order(sorted(rows, by_closeness(policy)), by_closeness(policy)),
{
    let first = by_closeness(policy);
    lemma_sorted_keeps(rows, first);
    assert(is_order(first));
    lemma_sorted_order(rows, first);
}

/// A message in the status bar that goes away by itself.
#[derive(Debug)]
pub struct Notice {
    pub at: Timestamp,
    pub text: String,
    pub tone: Tone,
}

/// How long a notice stays, in seconds.
pub const NOTICE_SECONDS: i128 = 8;

impl Notice {
    /// Whether the notice has been shown long enough.
    pub fn expired(&self, now: Timestamp) -> (result: bool)
        ensures
            result == (trunc_div(now@ - self.at@, NANOS_PER_SECOND as int) > NOTICE_SECONDS),
    {
        now.seconds_since(self.at) > NOTICE_SECONDS
    }
}

/// What the status bar says after a paper position was opened or closed.
pub open spec fn paper_words(opened: bool, result: Result<Portfolio, Failure>) -> (Seq<char>, Tone) {
    match result {
        Ok(portfolio) => (
            (if opened {
                "paper position opened; exposure "@
            } else {
                "paper position closed; exposure "@
            }) + portfolio.open_exposure.text(),
            Tone::Good,
        ),
        Err(failure) => (failure.text(), Tone::Bad),
    }
}

/// What the status bar says after a paper position was opened or closed, or
/// was not.
pub fn paper_notice(opened: bool, result: &Result<PaperPortfolio, Error>) -> (notice: (String, Tone))
    ensures
        (notice.0@, notice.1) == paper_words(
            opened,
            match *result {
                Ok(portfolio) => Ok(portfolio@),
                Err(e) => Err(e@),
            },
        ),
{
    match result {
        Ok(portfolio) => {
            let exposure: String = portfolio.open_exposure.to_text();
            let words: &str = if opened {
                "paper position opened; exposure "
            } else {
                "paper position closed; exposure "
            };
            (concat2(words, exposure.as_str()), Tone::Good)
        },
        Err(e) => (e.to_text(), Tone::Bad),
    }
}

} // verus!
