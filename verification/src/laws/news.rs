//! What news does to a candidate.

use vstd::prelude::*;

use crate::domain::{effective_class, Citation, Evidence, RecommendationClass, Row};
use crate::error::Failure;
use crate::news::{
    cached, citation_text, classified, first_term, hard_markers, hard_terms, marker, names_any,
    names_for, pieces, query_text, reviewer, risk_in, risk_said, soft_markers, soft_terms, worth_review, Choice, Risk,
};
use crate::seqs::group_seqs;
use crate::text::{contains_text, is_blank, lowered};

verus! {

broadcast use group_seqs;

/// Evidence counts for two hours, and not from more than a minute ahead. What
/// counts and rejects, rejects; what counts, is unchanged and asks for no review
/// keeps the class; everything else leaves nothing above the watchlist; and a
/// rejected row stays rejected.
pub proof fn news_keeps_or_lowers(class: RecommendationClass, news: Option<Evidence>, now: int)
    ensures
        ({
            let after = effective_class(class, news, now);
            let counts = news is Some && now - news->0.generated_at <= 7_200_000_000_000
                && news->0.generated_at - now <= 60_000_000_000;
            &&& class is Rejected ==> after is Rejected
            &&& !(class is Rejected) && counts && news->0.confidence_effect == "reject"@
                ==> after is Rejected
            &&& !(class is Rejected) && counts && news->0.confidence_effect == "unchanged"@
                && !news->0.manual_review ==> after == class
            &&& !(class is Rejected) && !counts ==> after is Watchlist
            &&& !(class is Rejected) && counts && news->0.confidence_effect != "reject"@ && (
            news->0.confidence_effect != "unchanged"@ || news->0.manual_review)
                ==> after is Watchlist
        }),
{
    reveal_strlit("unchanged");
    reveal_strlit("reject");
    assert("unchanged"@.len() != "reject"@.len());
}

/// Whether one of some terms stands in a text.
pub open spec fn says_one_of(text: Seq<char>, terms: Seq<Seq<char>>) -> bool {
    exists|i: int| 0 <= i < terms.len() && contains_text(text, #[trigger] terms[i])
}

proof fn lemma_first_term(terms: Seq<Seq<char>>, text: Seq<char>, from: int)
    requires
        0 <= from <= terms.len(),
    ensures
        first_term(terms, text, from) matches Some(term) ==> exists|i: int|
            from <= i < terms.len() && #[trigger] terms[i] == term && contains_text(text, term)
                && forall|j: int| from <= j < i ==> !contains_text(text, #[trigger] terms[j]),
        first_term(terms, text, from) is None ==> forall|j: int|
            from <= j < terms.len() ==> !contains_text(text, #[trigger] terms[j]),
    decreases terms.len() - from,
{
    if from < terms.len() && !contains_text(text, terms[from]) {
        lemma_first_term(terms, text, from + 1);
        if let Some(term) = first_term(terms, text, from) {
            let i = choose|i: int|
                from + 1 <= i < terms.len() && #[trigger] terms[i] == term && contains_text(
                    text,
                    term,
                ) && forall|j: int| from + 1 <= j < i ==> !contains_text(text, #[trigger] terms[j]);
            assert forall|j: int| from <= j < i implies !contains_text(
                text,
                #[trigger] terms[j],
            ) by {}
        }
    }
}

/// A text counts against a participant only where it says one of its names: as
/// hard where it says a hard term, as soft where it says only a soft one, with
/// a term that it says.
pub proof fn texts_count_where_they_name_the_participant(text: Seq<char>, names: Seq<Seq<char>>)
    ensures
        ({
            let risk = risk_said(text, names);
            let named = says_one_of(text, names);
            &&& risk is Nothing <==> !named || (!says_one_of(text, hard_terms()) && !says_one_of(
                text,
                soft_terms(),
            ))
            &&& risk is Hard <==> named && says_one_of(text, hard_terms())
            &&& risk is Soft <==> named && !says_one_of(text, hard_terms()) && says_one_of(
                text,
                soft_terms(),
            )
            &&& risk matches Risk::Hard(term) ==> hard_terms().contains(term) && contains_text(
                text,
                term,
            )
            &&& risk matches Risk::Soft(term) ==> soft_terms().contains(term) && contains_text(
                text,
                term,
            )
        }),
{
    lemma_first_term(hard_terms(), text, 0);
    lemma_first_term(soft_terms(), text, 0);
}

/// A citation is read as one text: its title, then its snippet, in lower case.
pub proof fn citations_are_read_whole(c: Citation, names: Seq<Seq<char>>)
    ensures
        risk_in(c, names) == risk_said(lowered(c.title + " "@ + c.snippet), names),
{
}

/// What a participant is called: by its full name in lower case, and by those of
/// its words that have at least four letters.
pub proof fn participants_are_called_by_name_and_longer_words(participant: Seq<char>, word: Seq<char>)
    ensures
        names_for(participant).contains(word) <==> word == lowered(participant) || (pieces(
            lowered(participant),
        ).contains(word) && word.len() >= 4),
{
    let full = lowered(participant);
    let keep = |w: Seq<char>| crate::news::telling(w);
    crate::seqs::filter_member(pieces(full), keep, word);
    let names = names_for(participant);
    let longer = pieces(full).filter(keep);
    assert(names =~= seq![full] + longer);
    if names.contains(word) && word != full {
        let i = choose|i: int| 0 <= i < names.len() && names[i] == word;
        assert(longer[i - 1] == word);
    }
    if longer.contains(word) {
        let i = choose|i: int| 0 <= i < longer.len() && longer[i] == word;
        assert(names[i + 1] == word);
    }
    if word == full {
        assert(names[0] == word);
    }
}

/// The terms that force a review speak of players who are out and games that
/// are not played; those that lower speak of doubt.
pub proof fn hard_terms_are_not_soft()
    ensures
        hard_terms().contains("ruled out"@),
        hard_terms().contains("scratched"@),
        hard_terms().contains("suspended"@),
        hard_terms().contains("withdraw"@),
        hard_terms().contains("postponed"@),
        hard_terms().contains("rainout"@),
        hard_terms().contains("no contest"@),
        soft_terms().contains("questionable"@),
        soft_terms().contains("doubtful"@),
        soft_terms().contains("injur"@),
        soft_terms().contains("weather delay"@),
{
    assert(hard_terms()[0] == "ruled out"@);
    assert(hard_terms()[1] == "scratched"@);
    assert(hard_terms()[2] == "suspended"@);
    assert(hard_terms()[4] == "withdraw"@);
    assert(hard_terms()[6] == "postponed"@);
    assert(hard_terms()[16] == "rainout"@);
    assert(hard_terms()[19] == "no contest"@);
    assert(soft_terms()[0] == "questionable"@);
    assert(soft_terms()[1] == "doubtful"@);
    assert(soft_terms()[3] == "injur"@);
    assert(soft_terms()[6] == "weather delay"@);
}

proof fn lemma_markers(citations: Seq<Citation>, names: Seq<Seq<char>>)
    ensures
        hard_markers(citations, names).len() > 0 <==> exists|i: int|
            0 <= i < citations.len() && risk_in(#[trigger] citations[i], names) is Hard,
        soft_markers(citations, names).len() > 0 <==> exists|i: int|
            0 <= i < citations.len() && risk_in(#[trigger] citations[i], names) is Soft,
    decreases citations.len(),
{
    if citations.len() > 0 {
        let front = citations.drop_last();
        lemma_markers(front, names);
        let last = citations.len() - 1;
        assert(citations[last] == citations.last());
        if exists|i: int| 0 <= i < front.len() && risk_in(#[trigger] front[i], names) is Hard {
            let i = choose|i: int| 0 <= i < front.len() && risk_in(#[trigger] front[i], names) is Hard;
            assert(citations[i] == front[i]);
        }
        if exists|i: int| 0 <= i < front.len() && risk_in(#[trigger] front[i], names) is Soft {
            let i = choose|i: int| 0 <= i < front.len() && risk_in(#[trigger] front[i], names) is Soft;
            assert(citations[i] == front[i]);
        }
        if exists|i: int|
            0 <= i < citations.len() && risk_in(#[trigger] citations[i], names) is Hard {
            let i = choose|i: int|
                0 <= i < citations.len() && risk_in(#[trigger] citations[i], names) is Hard;
            if i < last {
                assert(front[i] == citations[i]);
            }
        }
        if exists|i: int|
            0 <= i < citations.len() && risk_in(#[trigger] citations[i], names) is Soft {
            let i = choose|i: int|
                0 <= i < citations.len() && risk_in(#[trigger] citations[i], names) is Soft;
            if i < last {
                assert(front[i] == citations[i]);
            }
        }
    }
}

/// What a search comes to: no citation, or one that is hard on the participant,
/// asks for a review by hand; one that is only soft lowers; and otherwise the
/// candidate is left unchanged. The evidence is about the candidate, dated now,
/// with every citation.
pub proof fn a_search_is_judged_by_its_worst_citation(row: Row, citations: Seq<Citation>, now: int)
    ensures
        ({
            let e = classified(row, citations, now);
            let names = names_for(row.participant);
            let hard = exists|i: int|
                0 <= i < citations.len() && risk_in(#[trigger] citations[i], names) is Hard;
            let soft = exists|i: int|
                0 <= i < citations.len() && risk_in(#[trigger] citations[i], names) is Soft;
            &&& e.opportunity_id == row.id
            &&& e.generated_at == now
            &&& e.citations == citations
            &&& citations.len() == 0 || hard ==> e.confidence_effect == "review"@
                && e.manual_review
            &&& citations.len() > 0 && !hard && soft ==> e.confidence_effect == "lower"@
                && !e.manual_review
            &&& citations.len() > 0 && !hard && !soft ==> e.confidence_effect == "unchanged"@
                && !e.manual_review
        }),
{
    lemma_markers(citations, names_for(row.participant));
}

/// Evidence is used again exactly while it is no older than the refresh span.
pub proof fn evidence_is_used_again_while_young(evidence: Option<Evidence>, refresh_seconds: int, now: int)
    ensures
        cached(evidence, refresh_seconds, now) <==> (evidence matches Some(e) && now
            - e.generated_at <= refresh_seconds * 1_000_000_000),
{
}

/// A search asks for the participant in its market and sport.
pub proof fn searches_name_participant_market_and_sport(row: Row)
    ensures
        query_text(row) == row.participant + " "@ + row.market_slug + " "@ + row.sport.label()
            + " injury lineup suspension withdrawal weather schedule latest"@,
{
}

/// Where no way to review is chosen a search key decides: with one the keyword
/// review is used, under that key, and without one there is none.
pub proof fn a_search_key_decides_the_review(vars: Map<Seq<char>, Seq<char>>)
    requires
        !vars.contains_key("NEWS_REVIEWER"@),
    ensures
        !vars.contains_key("EXA_API_KEY"@) ==> reviewer(vars) == Ok::<Choice, Failure>(
            Choice::Silent,
        ),
        vars.contains_key("EXA_API_KEY"@) && !is_blank(vars["EXA_API_KEY"@]) ==> reviewer(vars)
            == Ok::<Choice, Failure>(Choice::Keyword(vars["EXA_API_KEY"@])),
{
    reveal_strlit("none");
    assert("none"@.len() == 4);
    reveal_strlit("off");
    assert("off"@.len() == 3);
    reveal_strlit("keyword");
    assert("keyword"@.len() == 7);
    assert("keyword"@[0] == 'k');
    reveal_strlit("bedrock");
    assert("bedrock"@.len() == 7);
    assert("bedrock"@[0] == 'b');
}

/// A keyword review needs a search key.
pub proof fn a_keyword_review_has_a_key(vars: Map<Seq<char>, Seq<char>>)
    ensures
        reviewer(vars) matches Ok(Choice::Keyword(key)) ==> vars.contains_key("EXA_API_KEY"@)
            && vars["EXA_API_KEY"@] == key && !is_blank(key),
{
}

} // verus!
