//! Direct books behind adapters that speak the canonical format. What an
//! adapter says about its own identity is ignored and overwritten.

use vstd::prelude::*;

use crate::domain::{source_quote_views, Family, Quote, SourceFamily, SourceQuote, Sport};
use crate::seqs::{group_seqs, kept, kept_next};
use crate::text::owned;
use crate::time::Timestamp;

verus! {

broadcast use group_seqs;

/// A quote of a direct book: identity and observation are the library's.
pub open spec fn branded(quote: Quote, source_id: Seq<char>, family: Family, fetched_at: int) -> Quote {
    Quote { source_id, family, validation_only: false, fetched_at, ..quote }
}

/// The quote of a direct book, if its sport is wanted.
pub open spec fn wanted(
    quote: Quote,
    source_id: Seq<char>,
    family: Family,
    sports: Seq<Sport>,
    fetched_at: int,
) -> Option<Quote> {
    if sports.contains(quote.sport) {
        Some(branded(quote, source_id, family, fetched_at))
    } else {
        None
    }
}

fn asks_for(sports: &Vec<Sport>, sport: Sport) -> (result: bool)
    ensures
        result == sports@.contains(sport),
{
    let mut i: usize = 0;
    while i < sports.len()
        invariant
            i <= sports@.len(),
            forall|j: int| 0 <= j < i ==> sports@[j] != sport,
        decreases sports@.len() - i,
    {
        if sports[i] == sport {
            assert(sports@[i as int] == sport);
            return true;
        }
        i = i + 1;
    }
    false
}

/// The quotes of a direct book for some sports, under the book's own identity.
pub fn brand_quotes(
    quotes: &Vec<SourceQuote>,
    source_id: &str,
    family: &SourceFamily,
    sports: &Vec<Sport>,
    fetched_at: Timestamp,
) -> (result: Vec<SourceQuote>)
    ensures
        source_quote_views(result@) == kept(
            source_quote_views(quotes@),
            |q: Quote| wanted(q, source_id@, family@, sports@, fetched_at@),
        ),
{
    let ghost all = source_quote_views(quotes@);
    let ghost f = |q: Quote| wanted(q, source_id@, family@, sports@, fetched_at@);
    let mut out: Vec<SourceQuote> = Vec::new();
    let mut i: usize = 0;
    while i < quotes.len()
        invariant
            i <= quotes@.len(),
            all == source_quote_views(quotes@),
            f == (|q: Quote| wanted(q, source_id@, family@, sports@, fetched_at@)),
            source_quote_views(out@) == kept(all.take(i as int), f),
        decreases quotes@.len() - i,
    {
        proof {
            kept_next(all, f, i as int);
        }
        if asks_for(sports, quotes[i].sport) {
            let mut quote = quotes[i].clone();
            quote.source_id = owned(source_id);
            quote.family = family.clone();
            quote.validation_only = false;
            quote.fetched_at = fetched_at;
            out.push(quote);
        }
        i = i + 1;
    }
    out
}

/// An adapter cannot speak under another book's name, keep its quotes out of the
/// consensus, or claim another time of observation.
pub proof fn adapters_cannot_choose_their_identity(
    quotes: Seq<Quote>,
    source_id: Seq<char>,
    family: Family,
    sports: Seq<Sport>,
    fetched_at: int,
    i: int,
)
    requires
        0 <= i < kept(
            quotes,
            |q: Quote| wanted(q, source_id, family, sports, fetched_at),
        ).len(),
    ensures
        ({
            let quote = kept(
                quotes,
                |q: Quote| wanted(q, source_id, family, sports, fetched_at),
            )[i];
            &&& quote.source_id == source_id
            &&& quote.family == family
            &&& !quote.validation_only
            &&& quote.fetched_at == fetched_at
            &&& sports.contains(quote.sport)
        }),
{
    let f = |q: Quote| wanted(q, source_id, family, sports, fetched_at);
    let k = crate::seqs::kept_member(quotes, f, i);
    assert(f(quotes[k]) == Some(kept(quotes, f)[i]));
}

} // verus!
