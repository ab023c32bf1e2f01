//! What the views show: the latest contents of the store and what follows from
//! them.

use vstd::prelude::*;

use crate::config::{Policy, RunMode, Settings};
use crate::decimal::{dec_of, difference, zero, Dec, Decimal};
use crate::domain::{
    research_opportunity_views, RecommendationClass, Research, ResearchOpportunity, Row, Sport,
};
use crate::seqs::{filter_next, group_seqs, take_next};
use crate::text::{concat2, digits, join, joined, natural, owned, texts};

verus! {

broadcast use group_seqs;

/// Where the market sits relative to consensus in a scan.
#[derive(Debug)]
pub struct EdgeStats {
    pub evaluated: usize,
    pub actionable: usize,
    pub watchlist: usize,
    pub rejected: usize,
    /// Rows by family count: one at most, two, three or more.
    pub by_families: [usize; 3],
    /// The sports that have rows, by name.
    pub by_sport: Vec<(Sport, usize)>,
    /// Raw and net edges of the rows with at least three families.
    pub quorum: Vec<(Decimal, Decimal)>,
}

/// How many rows pass a test.
pub open spec fn tally(rows: Seq<Research>, test: spec_fn(Research) -> bool) -> nat {
    rows.filter(test).len()
}

pub open spec fn in_class(class: RecommendationClass) -> spec_fn(Research) -> bool {
    |r: Research| r.effective_class == class
}

/// The group of a family count: zero for at most one, one for two, two for
/// more.
pub open spec fn family_group(families: nat) -> int {
    if families <= 1 {
        0
    } else if families == 2 {
        1
    } else {
        2
    }
}

pub open spec fn in_group(group: int) -> spec_fn(Research) -> bool {
    |r: Research| family_group(r.opportunity.family_count) == group
}

pub open spec fn of_sport(sport: Sport) -> spec_fn(Research) -> bool {
    |r: Research| r.opportunity.sport == sport
}

/// Every sport in the order of the names.
pub open spec fn sports_by_name() -> Seq<Sport> {
    seq![Sport::Mlb, Sport::Nba, Sport::Nfl, Sport::Tennis, Sport::Wnba]
}

/// The sports that have rows, with how many.
pub open spec fn sport_counts(rows: Seq<Research>, sports: Seq<Sport>) -> Seq<(Sport, nat)>
    decreases sports.len(),
{
    if sports.len() == 0 {
        Seq::empty()
    } else {
        let front = sport_counts(rows, sports.drop_last());
        let n = tally(rows, of_sport(sports.last()));
        if n == 0 {
            front
        } else {
            front.push((sports.last(), n))
        }
    }
}

/// The rows that a quorum of families priced.
pub open spec fn has_quorum() -> spec_fn(Research) -> bool {
    |r: Research| r.opportunity.family_count >= 3
}

/// Raw and net edges of the rows that a quorum priced.
pub open spec fn quorum_edges(rows: Seq<Research>) -> Seq<(Dec, Dec)> {
    rows.filter(has_quorum()).map_values(
        |r: Research| (r.opportunity.raw_edge, r.opportunity.net_edge),
    )
}

pub open spec fn sport_count_views(items: Seq<(Sport, usize)>) -> Seq<(Sport, nat)> {
    items.map_values(|item: (Sport, usize)| (item.0, item.1 as nat))
}

pub open spec fn edge_views(items: Seq<(Decimal, Decimal)>) -> Seq<(Dec, Dec)> {
    items.map_values(|item: (Decimal, Decimal)| (item.0@, item.1@))
}

fn count_class(rows: &Vec<ResearchOpportunity>, class: RecommendationClass) -> (result: usize)
    ensures
        result == tally(research_opportunity_views(rows@), in_class(class)),
{
    let ghost all = research_opportunity_views(rows@);
    let mut n: usize = 0;
    let mut i: usize = 0;
    while i < rows.len()
        invariant
            i <= rows@.len(),
            n <= i,
            all == research_opportunity_views(rows@),
            n == tally(all.take(i as int), in_class(class)),
        decreases rows@.len() - i,
    {
        proof {
            filter_next(all, in_class(class), i as int);
        }
        if rows[i].effective_class == class {
            n = n + 1;
        }
        i = i + 1;
    }
    n
}

fn group_of(families: usize) -> (result: usize)
    ensures
        result == family_group(families as nat),
        result < 3,
{
    if families <= 1 {
        0
    } else if families == 2 {
        1
    } else {
        2
    }
}

fn count_group(rows: &Vec<ResearchOpportunity>, group: usize) -> (result: usize)
    ensures
        result == tally(research_opportunity_views(rows@), in_group(group as int)),
{
    let ghost all = research_opportunity_views(rows@);
    let mut n: usize = 0;
    let mut i: usize = 0;
    while i < rows.len()
        invariant
            i <= rows@.len(),
            n <= i,
            all == research_opportunity_views(rows@),
            n == tally(all.take(i as int), in_group(group as int)),
        decreases rows@.len() - i,
    {
        proof {
            filter_next(all, in_group(group as int), i as int);
        }
        if group_of(rows[i].opportunity.family_count) == group {
            n = n + 1;
        }
        i = i + 1;
    }
    n
}

fn count_sport(rows: &Vec<ResearchOpportunity>, sport: Sport) -> (result: usize)
    ensures
        result == tally(research_opportunity_views(rows@), of_sport(sport)),
{
    let ghost all = research_opportunity_views(rows@);
    let mut n: usize = 0;
    let mut i: usize = 0;
    while i < rows.len()
        invariant
            i <= rows@.len(),
            n <= i,
            all == research_opportunity_views(rows@),
            n == tally(all.take(i as int), of_sport(sport)),
        decreases rows@.len() - i,
    {
        proof {
            filter_next(all, of_sport(sport), i as int);
        }
        if rows[i].opportunity.sport == sport {
            n = n + 1;
        }
        i = i + 1;
    }
    n
}

fn count_sports(rows: &Vec<ResearchOpportunity>) -> (result: Vec<(Sport, usize)>)
    ensures
        sport_count_views(result@) == sport_counts(
            research_opportunity_views(rows@),
            sports_by_name(),
        ),
{
    let ghost all = research_opportunity_views(rows@);
    let sports = [Sport::Mlb, Sport::Nba, Sport::Nfl, Sport::Tennis, Sport::Wnba];
    let mut out: Vec<(Sport, usize)> = Vec::new();
    let mut i: usize = 0;
    assert(sports@ =~= sports_by_name());
    while i < 5
        invariant
            i <= 5,
            sports@ == sports_by_name(),
            all == research_opportunity_views(rows@),
            sport_count_views(out@) == sport_counts(all, sports_by_name().take(i as int)),
        decreases 5 - i,
    {
        proof {
            take_next(sports_by_name(), i as int);
        }
        let n: usize = count_sport(rows, sports[i]);
        if n > 0 {
            out.push((sports[i], n));
        }
        i = i + 1;
    }
    out
}

fn collect_quorum(rows: &Vec<ResearchOpportunity>) -> (result: Vec<(Decimal, Decimal)>)
    ensures
        edge_views(result@) == quorum_edges(research_opportunity_views(rows@)),
{
    let ghost all = research_opportunity_views(rows@);
    let mut out: Vec<(Decimal, Decimal)> = Vec::new();
    let mut i: usize = 0;
    while i < rows.len()
        invariant
            i <= rows@.len(),
            all == research_opportunity_views(rows@),
            edge_views(out@) == quorum_edges(all.take(i as int)),
        decreases rows@.len() - i,
    {
        proof {
            filter_next(all, has_quorum(), i as int);
        }
        if rows[i].opportunity.family_count >= 3 {
            out.push((rows[i].opportunity.raw_edge, rows[i].opportunity.net_edge));
        }
        i = i + 1;
    }
    out
}

impl EdgeStats {
    /// The counts of no rows.
    pub fn none() -> (result: EdgeStats)
        ensures
            result.describes(Seq::empty()),
    {
        let rows: Vec<ResearchOpportunity> = Vec::new();
        EdgeStats::from_rows(&rows)
    }

    /// The counts are those of the rows.
    pub open spec fn describes(&self, rows: Seq<Research>) -> bool {
        &&& self.evaluated == rows.len()
        &&& self.actionable == tally(rows, in_class(RecommendationClass::Actionable))
        &&& self.watchlist == tally(rows, in_class(RecommendationClass::Watchlist))
        &&& self.rejected == tally(rows, in_class(RecommendationClass::Rejected))
        &&& forall|g: int|
            0 <= g < 3 ==> #[trigger] self.by_families@[g] == tally(rows, in_group(g))
        &&& sport_count_views(self.by_sport@) == sport_counts(rows, sports_by_name())
        &&& edge_views(self.quorum@) == quorum_edges(rows)
    }

    /// Counts the rows by class, by families and by sport, and collects the
    /// edges of those that a quorum priced.
    pub fn from_rows(rows: &Vec<ResearchOpportunity>) -> (result: EdgeStats)
        ensures
            result.describes(research_opportunity_views(rows@)),
    {
        EdgeStats {
            evaluated: rows.len(),
            actionable: count_class(rows, RecommendationClass::Actionable),
            watchlist: count_class(rows, RecommendationClass::Watchlist),
            rejected: count_class(rows, RecommendationClass::Rejected),
            by_families: [count_group(rows, 0), count_group(rows, 1), count_group(rows, 2)],
            by_sport: count_sports(rows),
            quorum: collect_quorum(rows),
        }
    }
}

/// Every row counts in exactly one class and in exactly one group of families.
pub proof fn counts_add_up(rows: Seq<Research>)
    ensures
        tally(rows, in_class(RecommendationClass::Actionable)) + tally(
            rows,
            in_class(RecommendationClass::Watchlist),
        ) + tally(rows, in_class(RecommendationClass::Rejected)) == rows.len(),
        tally(rows, in_group(0)) + tally(rows, in_group(1)) + tally(rows, in_group(2))
            == rows.len(),
    decreases rows.len(),
{
    reveal(Seq::filter);
    if rows.len() > 0 {
        counts_add_up(rows.drop_last());
    }
}

/// What a side still needs to clear the gates in force: the three independent
/// categories that the operator can act on. Size floors follow from the edge
/// and are not counted twice.
#[derive(Debug, Clone, Copy)]
pub struct GateGap {
    /// The executable price lies outside the configured band.
    pub price: bool,
    /// Families short of the watchlist quorum.
    pub families: usize,
    /// How far the edge is short of the binding gate, raw or net; nothing less
    /// than zero.
    pub edge: Decimal,
}

/// How far an edge is short of its gate; missing on overflow.
pub open spec fn shortfall(row: Row, policy: Policy) -> Option<Dec> {
    match (
        difference(policy.minimum_raw_edge, row.raw_edge),
        difference(policy.minimum_net_edge, row.net_edge),
    ) {
        (Some(raw), Some(net)) => Some(raw.max(net).max(zero())),
        _ => None,
    }
}

/// How many families are short of the quorum.
pub open spec fn families_short(row: Row, policy: Policy) -> int {
    if policy.watchlist_source_families > row.family_count {
        policy.watchlist_source_families - row.family_count
    } else {
        0
    }
}

/// Whether a price lies outside the band.
pub open spec fn price_out(row: Row, policy: Policy) -> bool {
    row.executable_price.lt(policy.minimum_price) || policy.maximum_price.lt(row.executable_price)
}

/// One, if so.
pub open spec fn one_if(condition: bool) -> int {
    if condition {
        1
    } else {
        0
    }
}

/// How many of the three categories a row fails. An edge whose distance
/// overflows is one that fails.
pub open spec fn gates_failed(row: Row, policy: Policy) -> int {
    one_if(price_out(row, policy)) + one_if(families_short(row, policy) > 0) + one_if(
        shortfall(row, policy) matches Some(edge) ==> zero().lt(edge),
    )
}

/// Whether a row lacks less edge than another. A distance that overflows is
/// longer than any other.
pub open spec fn edge_shorter(a: Row, b: Row, policy: Policy) -> bool {
    match (shortfall(a, policy), shortfall(b, policy)) {
        (Some(x), Some(y)) => x.lt(y),
        (Some(_), None) => true,
        _ => false,
    }
}

/// How far a row is from the gates, where it also counts that the distance of
/// the edge can overflow.
pub struct RowGap {
    pub failed: u8,
    pub edge: Option<Decimal>,
    pub families: usize,
}

impl RowGap {
    /// How far a row is from the gates in force.
    pub fn of(row: &ResearchOpportunity, settings: &Settings) -> (result: RowGap)
        ensures
            result.failed == gates_failed(row@.opportunity, settings@),
            dec_of(result.edge) == shortfall(row@.opportunity, settings@),
            result.families == families_short(row@.opportunity, settings@),
    {
        let o = &row.opportunity;
        match GateGap::of(row, settings) {
            Some(gap) => RowGap {
                failed: gap.failures(),
                edge: Some(gap.edge),
                families: gap.families,
            },
            None => {
                let price: bool = o.executable_price.less(settings.minimum_price)
                    || settings.maximum_price.less(o.executable_price);
                let families: usize = if settings.watchlist_source_families > o.family_count {
                    settings.watchlist_source_families - o.family_count
                } else {
                    0
                };
                let gap = GateGap { price, families, edge: Decimal::zero() };
                RowGap { failed: gap.failures() + 1, edge: None, families }
            },
        }
    }

    /// Whether the edge is less short than the other's.
    pub fn edge_below(&self, other: &RowGap) -> (result: bool)
        ensures
            result == match (self.edge, other.edge) {
                (Some(x), Some(y)) => x@.lt(y@),
                (Some(_), None) => true,
                _ => false,
            },
    {
        match (self.edge, other.edge) {
            (Some(x), Some(y)) => x.less(y),
            (Some(_), None) => true,
            _ => false,
        }
    }
}

impl GateGap {
    /// What a row still needs; `None` on overflow.
    pub fn of(row: &ResearchOpportunity, settings: &Settings) -> (result: Option<GateGap>)
        ensures
            match result {
                Some(gap) => {
                    &&& gap.price == price_out(row@.opportunity, settings@)
                    &&& gap.families == families_short(row@.opportunity, settings@)
                    &&& shortfall(row@.opportunity, settings@) == Some(gap.edge@)
                },
                None => shortfall(row@.opportunity, settings@) is None,
            },
    {
        let o = &row.opportunity;
        let raw: Decimal = match settings.minimum_raw_edge.checked_sub(o.raw_edge) {
            Some(raw) => raw,
            None => return None,
        };
        let net: Decimal = match settings.minimum_net_edge.checked_sub(o.net_edge) {
            Some(net) => net,
            None => return None,
        };
        let families: usize = if settings.watchlist_source_families > o.family_count {
            settings.watchlist_source_families - o.family_count
        } else {
            0
        };
        Some(
            GateGap {
                price: o.executable_price.less(settings.minimum_price)
                    || settings.maximum_price.less(o.executable_price),
                families,
                edge: raw.max(net).max(Decimal::zero()),
            },
        )
    }

    /// How many categories fail; none for a row inside every gate.
    pub fn failures(&self) -> (result: u8)
        ensures
            result == one_if(self.price) + one_if(self.families > 0) + one_if(zero().lt(self.edge@)),
    {
        let mut n: u8 = 0;
        if self.price {
            n = n + 1;
        }
        if self.families > 0 {
            n = n + 1;
        }
        if Decimal::zero().less(self.edge) {
            n = n + 1;
        }
        n
    }

    /// What the label says, in order.
    pub open spec fn parts(&self, points: Seq<char>) -> Seq<Seq<char>> {
        let edge = if zero().lt(self.edge@) {
            seq!["edge +"@ + points + "pp"@]
        } else {
            Seq::empty()
        };
        let families = if self.families > 0 {
            seq!["fam +"@ + digits(self.families as nat)]
        } else {
            Seq::empty()
        };
        let price = if self.price {
            seq!["price"@]
        } else {
            Seq::empty()
        };
        edge + families + price
    }

    /// What is missing, such as `edge +4.3pp · fam +2 · price`, or `-` where
    /// nothing is; `points` is the missing edge in percentage points.
    pub fn label(&self, points: &str) -> (result: String)
        ensures
            result@ == if self.parts(points@).len() == 0 {
                "-"@
            } else {
                joined(self.parts(points@), " \u{b7} "@)
            },
    {
        let mut parts: Vec<String> = Vec::new();
        if Decimal::zero().less(self.edge) {
            parts.push(crate::text::concat3("edge +", points, "pp"));
        }
        if self.families > 0 {
            let n: String = natural(self.families as u128);
            parts.push(concat2("fam +", n.as_str()));
        }
        if self.price {
            parts.push(owned("price"));
        }
        assert(texts(parts@) =~= self.parts(points@));
        if parts.len() == 0 {
            owned("-")
        } else {
            join(&parts, " \u{b7} ")
        }
    }
}

/// A row that fails no category lies in the band, has its quorum and clears
/// both edges.
pub proof fn no_failure_means_every_gate(row: Row, policy: Policy)
    requires
        shortfall(row, policy) is Some,
        one_if(price_out(row, policy)) + one_if(families_short(row, policy) > 0) + one_if(
            zero().lt(shortfall(row, policy)->0),
        ) == 0,
    ensures
        !price_out(row, policy),
        row.family_count >= policy.watchlist_source_families,
        !zero().lt(difference(policy.minimum_raw_edge, row.raw_edge)->0),
        !zero().lt(difference(policy.minimum_net_edge, row.net_edge)->0),
{
}

/// How often the store is read again, in seconds: files are cheap, the cloud
/// is not.
pub fn poll_seconds(mode: RunMode) -> (result: u64)
    ensures
        result == match mode {
            RunMode::Local => 2u64,
            RunMode::Cloud => 10u64,
        },
{
    match mode {
        RunMode::Local => 2,
        RunMode::Cloud => 10,
    }
}

} // verus!
