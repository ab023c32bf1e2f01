//! News review: what is searched for, how citations are classified, and which
//! candidates are still waiting for it. News may preserve or downgrade a
//! candidate; it never creates edge.

use vstd::prelude::*;

use crate::config::{parse_i64, parse_u64, parsed_i64, parsed_u64};
use crate::domain::{
    news_citation_views, news_evidence_view, opportunity_views, Citation, Evidence, NewsCitation,
    NewsEvidence, Opportunity, RecommendationClass, Row,
};
use crate::error::{config, invalid, Error, Failure};
use crate::seqs::{group_seqs, take_next};
use crate::scanner::LONGEST_SPAN_SECONDS;
use crate::text::{
    ascii_lowered, blank, char_is_alphanumeric, chars, concat2, concat3, concat4, concat5, concat6,
    contains, contains_text, digits, from_range, has_prefix, is_blank, join, joined, lower,
    lowercase, natural, owned, push_char, same, texts, trim, trimmed, unicode_alphanumeric,
    lowered,
};
use crate::textmap::TextMap;
use crate::time::{
    date_number, midnight, parse_day, parse_rfc3339, rfc3339, Timestamp, NANOS_PER_SECOND,
};

verus! {

broadcast use group_seqs;

/// How candidates are reviewed.
#[derive(Debug)]
pub enum ReviewerChoice {
    /// No evidence is produced, so candidates stay on the watchlist.
    Silent,
    /// Records `unchanged` without searching. Removes the news veto; only for
    /// operators who review candidates by hand.
    Off,
    /// Search plus a deterministic risk-term classifier; no model, runs
    /// anywhere.
    Keyword { api_key: String },
    /// Search results summarized by a model.
    Bedrock,
}

/// A choice as mathematics.
pub enum Choice {
    Silent,
    Off,
    Keyword(Seq<char>),
    Bedrock,
}

impl View for ReviewerChoice {
    type V = Choice;

    open spec fn view(&self) -> Choice {
        match *self {
            ReviewerChoice::Silent => Choice::Silent,
            ReviewerChoice::Off => Choice::Off,
            ReviewerChoice::Keyword { api_key } => Choice::Keyword(api_key@),
            ReviewerChoice::Bedrock => Choice::Bedrock,
        }
    }
}

/// A variable that says something.
pub open spec fn spoken(vars: Map<Seq<char>, Seq<char>>, name: Seq<char>) -> Option<Seq<char>> {
    if vars.contains_key(name) && !is_blank(vars[name]) {
        Some(vars[name])
    } else {
        None
    }
}

/// The kind of news review that the variables ask for: `keyword` where a search
/// key is given and nothing else is said, none without either.
pub open spec fn reviewer(vars: Map<Seq<char>, Seq<char>>) -> Result<Choice, Failure> {
    let key = spoken(vars, "EXA_API_KEY"@);
    let wanted = match spoken(vars, "NEWS_REVIEWER"@) {
        Some(text) => ascii_lowered(trimmed(text)),
        None => if key is Some {
            "keyword"@
        } else {
            "none"@
        },
    };
    if wanted == "none"@ {
        Ok(Choice::Silent)
    } else if wanted == "off"@ {
        Ok(Choice::Off)
    } else if wanted == "keyword"@ {
        match key {
            Some(key) => Ok(Choice::Keyword(key)),
            None => Err(Failure::Config("NEWS_REVIEWER=keyword requires EXA_API_KEY"@)),
        }
    } else if wanted == "bedrock"@ {
        Ok(Choice::Bedrock)
    } else {
        Err(Failure::Config("NEWS_REVIEWER: unknown choice "@ + wanted))
    }
}

fn spoken_var(vars: &TextMap<String>, name: &str) -> (result: Option<String>)
    ensures
        crate::text::text_of(result) == spoken(vars.deep(), name@),
{
    match vars.get(name) {
        Some(text) => if blank(text.as_str()) {
            None
        } else {
            Some(owned(text.as_str()))
        },
        None => None,
    }
}

/// Selects the kind of news review from `NEWS_REVIEWER` and `EXA_API_KEY`.
pub fn reviewer_from_env(vars: &TextMap<String>) -> (result: Result<ReviewerChoice, Error>)
    ensures
        match result {
            Ok(choice) => reviewer(vars.deep()) == Ok::<Choice, Failure>(choice@),
            Err(e) => reviewer(vars.deep()) == Err::<Choice, Failure>(e@),
        },
{
    let key = spoken_var(vars, "EXA_API_KEY");
    let wanted = match spoken_var(vars, "NEWS_REVIEWER") {
        Some(text) => lower(trim(text.as_str()).as_str()),
        None => if key.is_some() {
            owned("keyword")
        } else {
            owned("none")
        },
    };
    if same(wanted.as_str(), "none") {
        Ok(ReviewerChoice::Silent)
    } else if same(wanted.as_str(), "off") {
        Ok(ReviewerChoice::Off)
    } else if same(wanted.as_str(), "keyword") {
        match key {
            Some(api_key) => Ok(ReviewerChoice::Keyword { api_key }),
            None => Err(config("NEWS_REVIEWER=keyword requires EXA_API_KEY")),
        }
    } else if same(wanted.as_str(), "bedrock") {
        Ok(ReviewerChoice::Bedrock)
    } else {
        Err(Error::Config(concat2("NEWS_REVIEWER: unknown choice ", wanted.as_str())))
    }
}

/// The search for a candidate. The dated market slug keeps the results on the
/// right game.
pub open spec fn query_text(row: Row) -> Seq<char> {
    row.participant + " "@ + row.market_slug + " "@ + row.sport.label()
        + " injury lineup suspension withdrawal weather schedule latest"@
}

pub fn search_query(opportunity: &Opportunity) -> (result: String)
    ensures
        result@ == query_text(opportunity@),
{
    concat6(
        opportunity.participant.as_str(),
        " ",
        opportunity.market_slug.as_str(),
        " ",
        opportunity.sport.name(),
        " injury lineup suspension withdrawal weather schedule latest",
    )
}

/// When a page was published: a full time stamp or a day, else unknown.
pub open spec fn published(text: Seq<char>) -> Option<int> {
    match rfc3339(text) {
        Ok(instant) => Some(instant),
        Err(_) => match date_number(text, "%Y-%m-%d"@) {
            Ok(day) => Some(midnight(day)),
            Err(_) => None,
        },
    }
}

/// The citation that a search result becomes: its highlights are the snippet.
/// A result without a date is kept but cannot prove freshness.
pub fn citation(
    title: &Option<String>,
    url: String,
    published_date: &Option<String>,
    highlights: &Vec<String>,
) -> (result: NewsCitation)
    ensures
        result@.title == match crate::text::text_of(*title) {
            Some(title) => title,
            None => seq![],
        },
        result@.url == url@,
        result@.published_at == match crate::text::text_of(*published_date) {
            Some(text) => published(text),
            None => None,
        },
        result@.snippet == joined(texts(highlights@), " "@),
{
    let published_at = match published_date {
        Some(text) => match parse_rfc3339(text.as_str()) {
            Ok(instant) => Some(instant),
            Err(_) => match parse_day(text.as_str()) {
                Ok(instant) => Some(instant),
                Err(_) => None,
            },
        },
        None => None,
    };
    let title = match title {
        Some(title) => owned(title.as_str()),
        None => String::new(),
    };
    NewsCitation { title, url, published_at, snippet: join(highlights, " ") }
}

/// Terms that force a review: the participant will not play, or the game may
/// settle at the last fair price instead of on its result.
pub open spec fn hard_terms() -> Seq<Seq<char>> {
    seq![
        "ruled out"@,
        "scratched"@,
        "suspended"@,
        "suspension"@,
        "withdraw"@,
        "walkover"@,
        "postponed"@,
        "cancelled"@,
        "canceled"@,
        "will not play"@,
        "out for the season"@,
        "placed on the il"@,
        "injured list"@,
        "postponement"@,
        "cancellation"@,
        "rain-out"@,
        "rainout"@,
        "rained out"@,
        "no-contest"@,
        "no contest"@,
    ]
}

/// Terms that lower the confidence.
pub open spec fn soft_terms() -> Seq<Seq<char>> {
    seq![
        "questionable"@,
        "doubtful"@,
        "game-time decision"@,
        "injur"@,
        "illness"@,
        "rain delay"@,
        "weather delay"@,
        "lineup change"@,
    ]
}

/// The first of the terms, from place `from` on, that stands in a text.
pub open spec fn first_term(terms: Seq<Seq<char>>, text: Seq<char>, from: int) -> Option<Seq<char>>
    decreases terms.len() - from,
{
    if from >= terms.len() {
        None
    } else if contains_text(text, terms[from]) {
        Some(terms[from])
    } else {
        first_term(terms, text, from + 1)
    }
}

/// A text split at every character that is neither letter nor digit.
pub open spec fn pieces(text: Seq<char>) -> Seq<Seq<char>>
    decreases text.len(),
{
    if text.len() == 0 {
        seq![Seq::<char>::empty()]
    } else {
        let front = pieces(text.drop_last());
        if unicode_alphanumeric(text.last()) {
            front.drop_last().push(front.last().push(text.last()))
        } else {
            front.push(Seq::empty())
        }
    }
}

/// Long enough to name somebody: at least four characters.
pub open spec fn telling(word: Seq<char>) -> bool {
    word.len() >= 4
}

/// What a headline can call a participant: the full name in lower case, or any
/// of its longer words.
pub open spec fn names_for(participant: Seq<char>) -> Seq<Seq<char>> {
    let full = lowered(participant);
    full_name_and_words(full, pieces(full))
}

/// A name and those of its words that are long enough.
pub open spec fn full_name_and_words(full: Seq<char>, words: Seq<Seq<char>>) -> Seq<Seq<char>> {
    seq![full] + words.filter(|word: Seq<char>| telling(word))
}

pub open spec fn names_any(text: Seq<char>, names: Seq<Seq<char>>) -> bool {
    exists|i: int| 0 <= i < names.len() && contains_text(text, #[trigger] names[i])
}

/// A citation as one lower-case text.
pub open spec fn citation_text(c: Citation) -> Seq<char> {
    lowered(c.title + " "@ + c.snippet)
}

/// What a citation says against a candidate.
pub enum Risk {
    Nothing,
    Soft(Seq<char>),
    Hard(Seq<char>),
}

/// A citation counts only if it names the participant; a hard term goes before
/// a soft one.
pub open spec fn risk_in(c: Citation, names: Seq<Seq<char>>) -> Risk {
    risk_said(citation_text(c), names)
}

/// What a text in lower case says against a participant with these names.
pub open spec fn risk_said(text: Seq<char>, names: Seq<Seq<char>>) -> Risk {
    if !names_any(text, names) {
        Risk::Nothing
    } else {
        match first_term(hard_terms(), text, 0) {
            Some(term) => Risk::Hard(term),
            None => match first_term(soft_terms(), text, 0) {
                Some(term) => Risk::Soft(term),
                None => Risk::Nothing,
            },
        }
    }
}

/// A term with the number of the citation it stands in.
pub open spec fn marker(number: int, term: Seq<char>) -> Seq<char> {
    "["@ + digits(number as nat) + "] "@ + term
}

pub open spec fn hard_markers(citations: Seq<Citation>, names: Seq<Seq<char>>) -> Seq<Seq<char>>
    decreases citations.len(),
{
    if citations.len() == 0 {
        seq![]
    } else {
        let front = hard_markers(citations.drop_last(), names);
        match risk_in(citations.last(), names) {
            Risk::Hard(term) => front.push(marker(citations.len() as int, term)),
            _ => front,
        }
    }
}

pub open spec fn soft_markers(citations: Seq<Citation>, names: Seq<Seq<char>>) -> Seq<Seq<char>>
    decreases citations.len(),
{
    if citations.len() == 0 {
        seq![]
    } else {
        let front = soft_markers(citations.drop_last(), names);
        match risk_in(citations.last(), names) {
            Risk::Soft(term) => front.push(marker(citations.len() as int, term)),
            _ => front,
        }
    }
}

/// The evidence that citations give: no citation or a hard term asks for
/// review, a soft term lowers, and nothing against the participant leaves the
/// candidate as it is.
pub open spec fn classified(row: Row, citations: Seq<Citation>, now: int) -> Evidence {
    let names = names_for(row.participant);
    let hard = hard_markers(citations, names);
    let soft = soft_markers(citations, names);
    let (effect, manual_review, summary) = if citations.len() == 0 {
        ("review"@, true, "No recent corroborating news was found."@)
    } else if hard.len() > 0 {
        (
            "review"@,
            true,
            "Coverage naming "@ + row.participant + " carries hard risk terms: "@ + joined(
                hard,
                ", "@,
            ) + "."@,
        )
    } else if soft.len() > 0 {
        (
            "lower"@,
            false,
            "Coverage naming "@ + row.participant + " carries soft risk terms: "@ + joined(
                soft,
                ", "@,
            ) + "."@,
        )
    } else {
        (
            "unchanged"@,
            false,
            digits(citations.len()) + " recent results; none naming "@ + row.participant
                + " carry injury, suspension, withdrawal, weather, or schedule risk terms."@,
        )
    };
    Evidence {
        opportunity_id: row.id,
        generated_at: now,
        summary,
        confidence_effect: effect,
        manual_review,
        citations,
    }
}

fn find_term(terms: &Vec<&'static str>, text: &str) -> (result: Option<&'static str>)
    ensures
        match result {
            Some(term) => first_term(
                terms@.map_values(|t: &'static str| t@),
                text@,
                0,
            ) == Some(term@),
            None => first_term(terms@.map_values(|t: &'static str| t@), text@, 0) is None,
        },
{
    let ghost all = terms@.map_values(|t: &'static str| t@);
    let mut i: usize = 0;
    while i < terms.len()
        invariant
            i <= terms@.len(),
            all == terms@.map_values(|t: &'static str| t@),
            first_term(all, text@, 0) == first_term(all, text@, i as int),
        decreases terms@.len() - i,
    {
        assert(all[i as int] == terms@[i as int]@);
        let term: &'static str = terms[i];
        if contains(text, term) {
            return Some(term);
        }
        i = i + 1;
    }
    None
}

fn list_hard_terms() -> (result: Vec<&'static str>)
    ensures
        result@.map_values(|t: &'static str| t@) == hard_terms(),
{
    let terms = vec![
        "ruled out",
        "scratched",
        "suspended",
        "suspension",
        "withdraw",
        "walkover",
        "postponed",
        "cancelled",
        "canceled",
        "will not play",
        "out for the season",
        "placed on the il",
        "injured list",
        "postponement",
        "cancellation",
        "rain-out",
        "rainout",
        "rained out",
        "no-contest",
        "no contest",
    ];
    assert(terms@.map_values(|t: &'static str| t@) =~= hard_terms());
    terms
}

fn list_soft_terms() -> (result: Vec<&'static str>)
    ensures
        result@.map_values(|t: &'static str| t@) == soft_terms(),
{
    let terms = vec![
        "questionable",
        "doubtful",
        "game-time decision",
        "injur",
        "illness",
        "rain delay",
        "weather delay",
        "lineup change",
    ];
    assert(terms@.map_values(|t: &'static str| t@) =~= soft_terms());
    terms
}

fn split_words(text: &str) -> (result: Vec<String>)
    ensures
        texts(result@) == pieces(text@),
{
    let all = chars(text);
    let mut out: Vec<String> = Vec::new();
    let mut current = String::new();
    let mut i: usize = 0;
    assert(texts(out@).push(current@) =~= pieces(all@.take(0)));
    while i < all.len()
        invariant
            all@ == text@,
            i <= all@.len(),
            texts(out@).push(current@) == pieces(all@.take(i as int)),
        decreases all@.len() - i,
    {
        proof {
            take_next(all@, i as int);
            let front = pieces(all@.take(i as int));
            assert(front.drop_last() =~= texts(out@));
            assert(front.last() == current@);
        }
        if char_is_alphanumeric(all[i]) {
            push_char(&mut current, all[i]);
        } else {
            out.push(current);
            current = String::new();
        }
        i = i + 1;
    }
    out.push(current);
    out
}

/// Lower-cased full name plus each word of at least four letters, so that "Ravens"
/// or "Sabalenka" alone is enough to attribute a headline.
pub fn participant_terms(participant: &str) -> (result: Vec<String>)
    ensures
        texts(result@) == names_for(participant@),
{
    let full = lowercase(participant);
    let words = split_words(full.as_str());
    name_terms(full, &words)
}

/// A name in lower case and those of its words that are long enough.
pub fn name_terms(full: String, words: &Vec<String>) -> (result: Vec<String>)
    ensures
        texts(result@) == full_name_and_words(full@, texts(words@)),
{
    let ghost all = texts(words@);
    let ghost keep = |word: Seq<char>| telling(word);
    let mut out: Vec<String> = Vec::new();
    out.push(full);
    let ghost head = seq![full@];
    assert(texts(out@) =~= head + all.take(0).filter(keep));
    let mut i: usize = 0;
    while i < words.len()
        invariant
            i <= words@.len(),
            all == texts(words@),
            keep == (|word: Seq<char>| telling(word)),
            texts(out@) == head + all.take(i as int).filter(keep),
        decreases words@.len() - i,
    {
        proof {
            crate::seqs::filter_next(all, keep, i as int);
        }
        let letters: Vec<char> = chars(words[i].as_str());
        if letters.len() >= 4 {
            proof {
                let kept = all.take(i as int).filter(keep);
                assert(head + kept.push(all[i as int]) =~= (head + kept).push(all[i as int]));
            }
            out.push(owned(words[i].as_str()));
        }
        i = i + 1;
    }
    out
}

fn mentions(text: &str, names: &Vec<String>) -> (result: bool)
    ensures
        result == names_any(text@, texts(names@)),
{
    let mut i: usize = 0;
    while i < names.len()
        invariant
            i <= names@.len(),
            forall|j: int| 0 <= j < i ==> !contains_text(text@, #[trigger] texts(names@)[j]),
        decreases names@.len() - i,
    {
        assert(texts(names@)[i as int] == names@[i as int]@);
        if contains(text, names[i].as_str()) {
            return true;
        }
        i = i + 1;
    }
    false
}

/// A term that speaks against a candidate.
#[derive(Debug, Clone, Copy)]
pub enum RiskTerm {
    Nothing,
    Soft(&'static str),
    Hard(&'static str),
}

impl RiskTerm {
    pub open spec fn meaning(&self) -> Risk {
        match self {
            RiskTerm::Nothing => Risk::Nothing,
            RiskTerm::Soft(term) => Risk::Soft(term@),
            RiskTerm::Hard(term) => Risk::Hard(term@),
        }
    }
}

/// What a text in lower case says against a participant with these names: a
/// hard term before a soft one, and nothing where no name occurs.
pub fn risk_term(text: &str, names: &Vec<String>) -> (result: RiskTerm)
    ensures
        result.meaning() == risk_said(text@, texts(names@)),
{
    if !mentions(text, names) {
        return RiskTerm::Nothing;
    }
    match find_term(&list_hard_terms(), text) {
        Some(term) => RiskTerm::Hard(term),
        None => match find_term(&list_soft_terms(), text) {
            Some(term) => RiskTerm::Soft(term),
            None => RiskTerm::Nothing,
        },
    }
}

fn mark(number: usize, term: &str) -> (result: String)
    ensures
        result@ == marker(number as int, term@),
{
    concat4("[", natural(number as u128).as_str(), "] ", term)
}

/// Classifies what was found about a candidate. A citation counts against it
/// only when it names the participant and carries a risk term, so that generic
/// injury coverage of other teams does not downgrade every candidate.
pub fn classify_citations(
    opportunity: &Opportunity,
    citations: Vec<NewsCitation>,
    now: Timestamp,
) -> (result: NewsEvidence)
    ensures
        result@ == classified(opportunity@, news_citation_views(citations@), now@),
{
    let count: usize = citations.len();
    if count == 0 {
        return NewsEvidence {
            opportunity_id: opportunity.id,
            generated_at: now,
            summary: owned("No recent corroborating news was found."),
            confidence_effect: owned("review"),
            manual_review: true,
            citations,
        };
    }
    let ghost all = news_citation_views(citations@);
    let names = participant_terms(opportunity.participant.as_str());
    let ghost called = names_for(opportunity@.participant);
    let mut hard: Vec<String> = Vec::new();
    let mut soft: Vec<String> = Vec::new();
    let mut i: usize = 0;
    while i < count
        invariant
            count == citations@.len(),
            i <= count,
            all == news_citation_views(citations@),
            texts(names@) == called,
            texts(hard@) == hard_markers(all.take(i as int), called),
            texts(soft@) == soft_markers(all.take(i as int), called),
        decreases count - i,
    {
        proof {
            take_next(all, i as int);
        }
        let whole = concat3(citations[i].title.as_str(), " ", citations[i].snippet.as_str());
        let text = lowercase(whole.as_str());
        match risk_term(text.as_str(), &names) {
            RiskTerm::Hard(term) => {
                hard.push(mark(i + 1, term));
            },
            RiskTerm::Soft(term) => {
                soft.push(mark(i + 1, term));
            },
            RiskTerm::Nothing => {},
        }
        i = i + 1;
    }
    let name = opportunity.participant.as_str();
    let (effect, manual_review, summary) = if hard.len() > 0 {
        let list = join(&hard, ", ");
        (
            "review",
            true,
            concat5("Coverage naming ", name, " carries hard risk terms: ", list.as_str(), "."),
        )
    } else if soft.len() > 0 {
        let list = join(&soft, ", ");
        (
            "lower",
            false,
            concat5("Coverage naming ", name, " carries soft risk terms: ", list.as_str(), "."),
        )
    } else {
        (
            "unchanged",
            false,
            concat4(
                natural(count as u128).as_str(),
                " recent results; none naming ",
                name,
                " carry injury, suspension, withdrawal, weather, or schedule risk terms.",
            ),
        )
    };
    proof {
        assert(texts(hard@).len() == hard@.len());
        assert(texts(soft@).len() == soft@.len());
    }
    NewsEvidence {
        opportunity_id: opportunity.id,
        generated_at: now,
        summary,
        confidence_effect: owned(effect),
        manual_review,
        citations,
    }
}

/// A review without a search: nothing is said against the candidate.
pub fn disabled_evidence(opportunity: &Opportunity, now: Timestamp) -> (result: NewsEvidence)
    ensures
        result@ == (Evidence {
            opportunity_id: opportunity@.id,
            generated_at: now@,
            summary: "News review disabled by configuration (NEWS_REVIEWER=off)."@,
            confidence_effect: "unchanged"@,
            manual_review: false,
            citations: seq![],
        }),
{
    NewsEvidence {
        opportunity_id: opportunity.id,
        generated_at: now,
        summary: owned("News review disabled by configuration (NEWS_REVIEWER=off)."),
        confidence_effect: owned("unchanged"),
        manual_review: false,
        citations: Vec::new(),
    }
}

/// No citation, or a hard term about the participant, always asks for a review
/// by hand.
pub proof fn silence_and_hard_terms_ask_for_review(row: Row, citations: Seq<Citation>, now: int)
    ensures
        citations.len() == 0 || hard_markers(citations, names_for(row.participant)).len() > 0
            ==> classified(row, citations, now).manual_review && classified(
            row,
            citations,
            now,
        ).confidence_effect == "review"@,
{
}

/// Coverage that does not name the participant never counts against it.
pub proof fn other_participants_do_not_count(c: Citation, names: Seq<Seq<char>>)
    requires
        !names_any(citation_text(c), names),
    ensures
        risk_in(c, names) is Nothing,
{
}

/// Whether a row with an identifier is among some.
pub open spec fn has_id(rows: Seq<Row>, id: int) -> bool {
    exists|i: int| 0 <= i < rows.len() && (#[trigger] rows[i]).id == id
}

/// The queued rows that are worth a review: each candidate once, the first time
/// it comes up.
pub open spec fn worth_review(queued: Seq<Row>) -> Seq<Row>
    decreases queued.len(),
{
    if queued.len() == 0 {
        seq![]
    } else {
        let front = worth_review(queued.drop_last());
        let row = queued.last();
        if row.class == RecommendationClass::Rejected || has_id(front, row.id) {
            front
        } else {
            front.push(row)
        }
    }
}

fn holds_id(rows: &Vec<Opportunity>, id: u128) -> (result: bool)
    ensures
        result == has_id(opportunity_views(rows@), id as int),
{
    let ghost all = opportunity_views(rows@);
    let mut i: usize = 0;
    while i < rows.len()
        invariant
            i <= rows@.len(),
            all == opportunity_views(rows@),
            forall|j: int| 0 <= j < i ==> (#[trigger] all[j]).id != id,
        decreases rows@.len() - i,
    {
        assert(all[i as int] == rows@[i as int]@);
        if rows[i].id == id {
            return true;
        }
        i = i + 1;
    }
    false
}

/// The queued rows that are worth a review.
pub fn reviews_due(queued: &Vec<Opportunity>) -> (result: Vec<Opportunity>)
    ensures
        opportunity_views(result@) == worth_review(opportunity_views(queued@)),
{
    let ghost all = opportunity_views(queued@);
    let mut out: Vec<Opportunity> = Vec::new();
    let mut i: usize = 0;
    while i < queued.len()
        invariant
            i <= queued@.len(),
            all == opportunity_views(queued@),
            opportunity_views(out@) == worth_review(all.take(i as int)),
        decreases queued@.len() - i,
    {
        proof {
            take_next(all, i as int);
        }
        if queued[i].class != RecommendationClass::Rejected && !holds_id(&out, queued[i].id) {
            out.push(queued[i].clone());
        }
        i = i + 1;
    }
    out
}

/// A queue is drained into one review for each candidate: none is rejected and
/// no identifier comes twice.
pub proof fn each_candidate_is_reviewed_once(queued: Seq<Row>)
    ensures
        forall|i: int|
            0 <= i < worth_review(queued).len() ==> (#[trigger] worth_review(queued)[i]).class
                != RecommendationClass::Rejected,
        forall|i: int, j: int|
            0 <= i < j < worth_review(queued).len() ==> (#[trigger] worth_review(queued)[i]).id != (
            #[trigger] worth_review(queued)[j]).id,
        forall|k: int|
            0 <= k < queued.len() && (#[trigger] queued[k]).class != RecommendationClass::Rejected
                ==> has_id(worth_review(queued), queued[k].id),
    decreases queued.len(),
{
    if queued.len() > 0 {
        let before = queued.drop_last();
        let front = worth_review(before);
        let out = worth_review(queued);
        each_candidate_is_reviewed_once(before);
        assert forall|k: int| 0 <= k < queued.len() && (#[trigger] queued[k]).class
            != RecommendationClass::Rejected implies has_id(out, queued[k].id) by {
            if k < before.len() {
                assert(before[k] == queued[k]);
                let i = choose|i: int| 0 <= i < front.len() && (#[trigger] front[i]).id
                    == queued[k].id;
                assert(out[i] == front[i]);
            } else if has_id(front, queued[k].id) {
                let i = choose|i: int| 0 <= i < front.len() && (#[trigger] front[i]).id
                    == queued[k].id;
                assert(out[i] == front[i]);
            } else {
                assert(out[front.len() as int] == queued[k]);
            }
        }
    }
}

/// For how many seconds evidence is used again, or why not.
pub open spec fn refresh_window(refresh_seconds: int) -> Result<int, Failure> {
    if refresh_seconds > LONGEST_SPAN_SECONDS {
        Err(
            Failure::Config(
                "news refresh: Source duration value is out of range for the target type"@,
            ),
        )
    } else {
        Ok(refresh_seconds)
    }
}

/// For how many seconds evidence is used again.
pub fn checked_refresh(refresh_seconds: u64) -> (result: Result<i64, Error>)
    ensures
        match result {
            Ok(n) => refresh_window(refresh_seconds as int) == Ok::<int, Failure>(n as int),
            Err(e) => refresh_window(refresh_seconds as int) == Err::<int, Failure>(e@),
        },
{
    if refresh_seconds > LONGEST_SPAN_SECONDS {
        Err(config("news refresh: Source duration value is out of range for the target type"))
    } else {
        Ok(refresh_seconds as i64)
    }
}

/// Whether there is evidence young enough to be used again.
pub open spec fn cached(evidence: Option<Evidence>, refresh_seconds: int, now: int) -> bool {
    evidence matches Some(e) && e.generated_at >= now - refresh_seconds * NANOS_PER_SECOND
}

/// Whether evidence is young enough to be used again.
pub fn is_cached(evidence: &Option<NewsEvidence>, refresh_seconds: i64, now: Timestamp) -> (result:
    bool)
    ensures
        result == cached(news_evidence_view(*evidence), refresh_seconds as int, now@),
{
    match evidence {
        Some(e) => e.generated_at.nanos() >= now.nanos() - refresh_seconds as i128
            * NANOS_PER_SECOND,
        None => false,
    }
}

/// Seconds for which a worker uses evidence again: what the variable says, an
/// hour where it says nothing that can be read.
pub fn worker_refresh_seconds(value: &Option<String>) -> (result: i64)
    ensures
        result == match crate::text::text_of(*value) {
            Some(text) => match parsed_i64(text) {
                Ok(n) => n,
                Err(_) => 3600,
            },
            None => 3600,
        },
{
    match value {
        Some(text) => match parse_i64(text.as_str()) {
            Ok(n) => n,
            Err(_) => 3600,
        },
        None => 3600,
    }
}

/// Seconds for which the engine uses evidence again: what the variable says, an
/// hour where it says nothing that can be read.
pub fn engine_refresh_seconds(value: &Option<String>) -> (result: u64)
    ensures
        result == match crate::text::text_of(*value) {
            Some(text) => match parsed_u64(text) {
                Ok(n) => n,
                Err(_) => 3600,
            },
            None => 3600,
        },
{
    match value {
        Some(text) => match parse_u64(text.as_str()) {
            Ok(n) => n,
            Err(_) => 3600,
        },
        None => 3600,
    }
}

/// One citation as a model reads it.
pub open spec fn evidence_line(number: int, c: Citation) -> Seq<char> {
    "["@ + digits(number as nat) + "] "@ + c.title + " | "@ + c.url + " | "@ + c.snippet
}

pub open spec fn evidence_lines(citations: Seq<Citation>) -> Seq<Seq<char>>
    decreases citations.len(),
{
    if citations.len() == 0 {
        seq![]
    } else {
        evidence_lines(citations.drop_last()).push(
            evidence_line(citations.len() as int, citations.last()),
        )
    }
}

/// What a model is asked: to read the evidence, and nothing else.
pub open spec fn prompt_text(participant: Seq<char>, citations: Seq<Citation>) -> Seq<char> {
    "You review news for a prediction-market research tool. Only use the supplied evidence. Do not estimate probabilities or recommend a trade. Identify injuries, lineups, suspensions, withdrawals, weather, or schedule changes affecting "@
        + participant
        + ". Return strict JSON with keys summary (string), confidence_effect (one of unchanged, lower, reject, review), manual_review (boolean). Include [n] citation markers in the summary.\n\nEvidence:\n"@
        + joined(evidence_lines(citations), "\n"@)
}

/// What a model is asked about a candidate.
pub fn model_prompt(opportunity: &Opportunity, citations: &Vec<NewsCitation>) -> (result: String)
    ensures
        result@ == prompt_text(opportunity@.participant, news_citation_views(citations@)),
{
    let ghost all = news_citation_views(citations@);
    let count: usize = citations.len();
    let mut lines: Vec<String> = Vec::new();
    let mut i: usize = 0;
    while i < count
        invariant
            count == citations@.len(),
            i <= count,
            all == news_citation_views(citations@),
            texts(lines@) == evidence_lines(all.take(i as int)),
        decreases count - i,
    {
        proof {
            take_next(all, i as int);
        }
        let c = &citations[i];
        let head = concat4("[", natural((i + 1) as u128).as_str(), "] ", c.title.as_str());
        lines.push(
            concat5(head.as_str(), " | ", c.url.as_str(), " | ", c.snippet.as_str()),
        );
        i = i + 1;
    }
    concat4(
        "You review news for a prediction-market research tool. Only use the supplied evidence. Do not estimate probabilities or recommend a trade. Identify injuries, lineups, suspensions, withdrawals, weather, or schedule changes affecting ",
        opportunity.participant.as_str(),
        ". Return strict JSON with keys summary (string), confidence_effect (one of unchanged, lower, reject, review), manual_review (boolean). Include [n] citation markers in the summary.\n\nEvidence:\n",
        join(&lines, "\n").as_str(),
    )
}

/// A text without the copies of a mark that it starts with.
pub open spec fn without_prefixes(text: Seq<char>, mark: Seq<char>) -> Seq<char>
    decreases text.len(),
{
    if mark.len() > 0 && has_prefix(text, mark) {
        without_prefixes(text.skip(mark.len() as int), mark)
    } else {
        text
    }
}

/// Whether a text ends with a mark.
pub open spec fn has_suffix(text: Seq<char>, mark: Seq<char>) -> bool {
    mark.len() <= text.len() && text.skip(text.len() - mark.len()) == mark
}

/// A text without the copies of a mark that it ends with.
pub open spec fn without_suffixes(text: Seq<char>, mark: Seq<char>) -> Seq<char>
    decreases text.len(),
{
    if mark.len() > 0 && has_suffix(text, mark) {
        without_suffixes(text.take(text.len() - mark.len()), mark)
    } else {
        text
    }
}

/// A model's answer without the fence around it.
pub open spec fn unfenced(text: Seq<char>) -> Seq<char> {
    trimmed(
        without_suffixes(without_prefixes(trimmed(text), "```json"@), "```"@),
    )
}

fn drop_prefixes(text: &str, mark: &str) -> (result: String)
    requires
        mark@.len() > 0,
    ensures
        result@ == without_prefixes(text@, mark@),
    decreases text@.len(),
{
    match crate::text::strip_prefix(text, mark) {
        Some(rest) => drop_prefixes(rest.as_str(), mark),
        None => owned(text),
    }
}

fn drop_suffixes(text: &str, mark: &str) -> (result: String)
    requires
        mark@.len() > 0,
    ensures
        result@ == without_suffixes(text@, mark@),
    decreases text@.len(),
{
    let all = chars(text);
    let sign = chars(mark);
    if all.len() < sign.len() {
        return owned(text);
    }
    let from: usize = all.len() - sign.len();
    let tail = from_range(&all, from, all.len());
    assert(all@.subrange(from as int, all@.len() as int) =~= text@.skip(from as int));
    if same(tail.as_str(), mark) {
        let front = from_range(&all, 0, from);
        assert(all@.subrange(0, from as int) =~= text@.take(from as int));
        drop_suffixes(front.as_str(), mark)
    } else {
        owned(text)
    }
}

/// A model's answer without the fence around it.
pub fn unfence(text: &str) -> (result: String)
    ensures
        result@ == unfenced(text@),
{
    proof {
        reveal_strlit("```json");
        reveal_strlit("```");
    }
    let bare = trim(text);
    let opened = drop_prefixes(bare.as_str(), "```json");
    let closed = drop_suffixes(opened.as_str(), "```");
    trim(closed.as_str())
}

pub open spec fn is_effect(effect: Seq<char>) -> bool {
    effect == "unchanged"@ || effect == "lower"@ || effect == "reject"@ || effect == "review"@
}

/// The evidence that a model's answer gives: only the four effects are taken.
pub fn model_evidence(
    opportunity: &Opportunity,
    citations: Vec<NewsCitation>,
    summary: String,
    confidence_effect: String,
    manual_review: bool,
    now: Timestamp,
) -> (result: Result<NewsEvidence, Error>)
    ensures
        match result {
            Ok(evidence) => is_effect(confidence_effect@) && evidence@ == (Evidence {
                opportunity_id: opportunity@.id,
                generated_at: now@,
                summary: summary@,
                confidence_effect: confidence_effect@,
                manual_review,
                citations: news_citation_views(citations@),
            }),
            Err(e) => !is_effect(confidence_effect@) && e@ == Failure::InvalidData(
                "Bedrock returned an invalid confidence effect"@,
            ),
        },
{
    let effect = confidence_effect.as_str();
    if same(effect, "unchanged") || same(effect, "lower") || same(effect, "reject") || same(
        effect,
        "review",
    ) {
        Ok(
            NewsEvidence {
                opportunity_id: opportunity.id,
                generated_at: now,
                summary,
                confidence_effect,
                manual_review,
                citations,
            },
        )
    } else {
        Err(invalid("Bedrock returned an invalid confidence effect"))
    }
}

} // verus!
