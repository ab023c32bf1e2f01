//! The latest opportunities joined with their news, as the views show them.

use vstd::prelude::*;

use crate::domain::{
    copy_news_evidence, news_evidence_view, opportunity_views, research_opportunity_views, reviewed,
    Evidence, NewsEvidence, Opportunity, RecommendationClass, Research, ResearchOpportunity, Row,
};
use crate::seqs::{group_seqs, take_next};
use crate::time::Timestamp;

verus! {

broadcast use group_seqs;

/// Whether the news of an opportunity is looked up: nothing can revive a
/// rejected one.
pub fn wants_news(opportunity: &Opportunity) -> (result: bool)
    ensures
        result == !(opportunity@.class is Rejected),
{
    opportunity.class != RecommendationClass::Rejected
}

pub open spec fn evidence_views(items: Seq<Option<NewsEvidence>>) -> Seq<Option<Evidence>> {
    items.map_values(|item: Option<NewsEvidence>| news_evidence_view(item))
}

/// What was found for the opportunity at a place; nothing for a rejected one.
pub open spec fn found_news(row: Row, found: Seq<Option<Evidence>>, i: int) -> Option<Evidence> {
    if row.class is Rejected || i >= found.len() {
        None
    } else {
        found[i]
    }
}

/// Every opportunity with its news, judged at `now`.
pub open spec fn researched(rows: Seq<Row>, found: Seq<Option<Evidence>>, now: int) -> Seq<Research> {
    Seq::new(rows.len(), |i: int| reviewed(rows[i], found_news(rows[i], found, i), now))
}

/// The opportunities joined with what was found for each of them, in their
/// order.
pub fn latest_research(
    opportunities: Vec<Opportunity>,
    found: &Vec<Option<NewsEvidence>>,
    now: Timestamp,
) -> (result: Vec<ResearchOpportunity>)
    ensures
        research_opportunity_views(result@) == researched(
            opportunity_views(opportunities@),
            evidence_views(found@),
            now@,
        ),
{
    let ghost all = opportunity_views(opportunities@);
    let ghost news = evidence_views(found@);
    let ghost whole = researched(all, news, now@);
    let mut out: Vec<ResearchOpportunity> = Vec::new();
    let mut i: usize = 0;
    while i < opportunities.len()
        invariant
            i <= opportunities@.len(),
            all == opportunity_views(opportunities@),
            news == evidence_views(found@),
            whole == researched(all, news, now@),
            research_opportunity_views(out@) == whole.take(i as int),
        decreases opportunities@.len() - i,
    {
        proof {
            take_next(whole, i as int);
        }
        let opportunity: Opportunity = opportunities[i].clone();
        let evidence: Option<NewsEvidence> = if wants_news(&opportunity) && i < found.len() {
            copy_news_evidence(&found[i])
        } else {
            None
        };
        out.push(ResearchOpportunity::at(opportunity, evidence, now));
        i = i + 1;
    }
    out
}

/// No news revives a rejected opportunity, and none is shown with it.
pub proof fn rejected_rows_stay_rejected(
    rows: Seq<Row>,
    found: Seq<Option<Evidence>>,
    now: int,
    i: int,
)
    requires
        0 <= i < rows.len(),
        rows[i].class is Rejected,
    ensures
        researched(rows, found, now)[i].effective_class is Rejected,
        researched(rows, found, now)[i].news is None,
        researched(rows, found, now)[i].opportunity == rows[i],
{
}

} // verus!
