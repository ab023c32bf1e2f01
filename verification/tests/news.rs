use polybot::decimal::Decimal;
use polybot::domain::{NewsCitation, Opportunity, OutcomeSide, RecommendationClass, Sport};
use polybot::news::{
    checked_refresh, citation as cite, classify_citations, disabled_evidence,
    engine_refresh_seconds, is_cached, model_evidence, model_prompt, name_terms, participant_terms,
    reviewer_from_env, reviews_due, risk_term, search_query, unfence, worker_refresh_seconds,
    ReviewerChoice, RiskTerm,
};
use polybot::textmap::TextMap;
use polybot::time::Timestamp;

const NOW: i64 = 1_760_000_000;

fn at(seconds: i64) -> Timestamp {
    Timestamp::from_seconds(seconds).unwrap()
}

fn opportunity(participant: &str) -> Opportunity {
    Opportunity {
        id: 11,
        generated_at: at(NOW),
        class: RecommendationClass::Watchlist,
        sport: Sport::Nfl,
        event_id: "event".into(),
        market_id: "market".into(),
        market_slug: "market".into(),
        participant: participant.into(),
        side: OutcomeSide::Long,
        fair_probability: Decimal::zero(),
        conservative_probability: Decimal::zero(),
        executable_price: Decimal::zero(),
        maker_price: None,
        maker_net_edge: None,
        raw_edge: Decimal::zero(),
        net_edge: Decimal::zero(),
        quantity: Decimal::zero(),
        maximum_loss: Decimal::zero(),
        estimated_fee: Decimal::zero(),
        family_count: 0,
        source_ids: Vec::new(),
        start_time: at(NOW),
        book_time: at(NOW),
        reasons: Vec::new(),
    }
}

fn citation(title: &str, snippet: &str) -> NewsCitation {
    NewsCitation {
        title: title.into(),
        url: "https://example.com".into(),
        published_at: None,
        snippet: snippet.into(),
    }
}

fn vars(pairs: &[(&str, &str)]) -> TextMap<String> {
    let mut map: TextMap<String> = TextMap::new();
    for (name, value) in pairs {
        map = map.put(name.to_string(), value.to_string());
    }
    map
}

#[test]
fn no_citations_forces_manual_review() {
    let evidence = classify_citations(&opportunity("Baltimore Ravens"), Vec::new(), at(NOW));
    assert_eq!(evidence.confidence_effect, "review");
    assert!(evidence.manual_review);
}

#[test]
fn risk_terms_only_count_when_the_participant_is_named() {
    let evidence = classify_citations(
        &opportunity("Baltimore Ravens"),
        vec![citation(
            "Colts QB ruled out for Sunday",
            "Indianapolis will start its backup.",
        )],
        at(NOW),
    );
    assert_eq!(evidence.confidence_effect, "unchanged");

    let evidence = classify_citations(
        &opportunity("Baltimore Ravens"),
        vec![citation(
            "Ravens star ruled out",
            "Baltimore loses its left tackle for the opener.",
        )],
        at(NOW),
    );
    assert_eq!(evidence.confidence_effect, "review");
    assert!(evidence.manual_review);

    let evidence = classify_citations(
        &opportunity("Baltimore Ravens"),
        vec![citation(
            "Ravens receiver questionable",
            "Listed as questionable after limited practice.",
        )],
        at(NOW),
    );
    assert_eq!(evidence.confidence_effect, "lower");
    assert!(!evidence.manual_review);
}

#[test]
fn queue_drain_reviews_once_and_honors_refresh_window() {
    let candidate = opportunity("Baltimore Ravens");
    let mut rejected = opportunity("Carolina Panthers");
    rejected.id = 12;
    rejected.class = RecommendationClass::Rejected;
    let due = reviews_due(&vec![candidate.clone(), candidate.clone(), rejected]);
    assert_eq!(due.len(), 1);
    assert_eq!(due[0].id, candidate.id);

    let evidence = disabled_evidence(&candidate, at(NOW));
    assert_eq!(evidence.confidence_effect, "unchanged");
    let refresh = checked_refresh(3600).unwrap();
    assert!(!is_cached(&None, refresh, at(NOW)));
    let kept = Some(evidence);
    assert!(is_cached(&kept, refresh, at(NOW + 3600)));
    assert!(!is_cached(&kept, refresh, at(NOW + 3601)));
}

#[test]
fn the_reviewer_follows_the_environment() {
    assert!(matches!(
        reviewer_from_env(&vars(&[])).unwrap(),
        ReviewerChoice::Silent
    ));
    assert!(matches!(
        reviewer_from_env(&vars(&[("EXA_API_KEY", "key")])).unwrap(),
        ReviewerChoice::Keyword { .. }
    ));
    assert!(matches!(
        reviewer_from_env(&vars(&[("NEWS_REVIEWER", "off")])).unwrap(),
        ReviewerChoice::Off
    ));
    assert!(matches!(
        reviewer_from_env(&vars(&[("NEWS_REVIEWER", "bedrock")])).unwrap(),
        ReviewerChoice::Bedrock
    ));
    assert!(reviewer_from_env(&vars(&[("NEWS_REVIEWER", "oracle")])).is_err());
    assert!(reviewer_from_env(&vars(&[("NEWS_REVIEWER", "keyword")])).is_err());
}

#[test]
fn names_are_split_into_their_telling_words() {
    assert!(participant_terms("Baltimore Ravens").contains(&"ravens".to_string()));
}

#[test]
fn the_worker_falls_back_to_an_hour() {
    assert_eq!(worker_refresh_seconds(&None), 3600);
    assert_eq!(engine_refresh_seconds(&None), 3600);
    assert_eq!(engine_refresh_seconds(&Some("+90".into())), 90);
    assert_eq!(engine_refresh_seconds(&Some("-5".into())), 3600);
    assert_eq!(worker_refresh_seconds(&Some("soon".into())), 3600);
    assert_eq!(worker_refresh_seconds(&Some("-5".into())), -5);
}

#[test]
fn fenced_answers_are_unwrapped() {
    assert_eq!(unfence("```json\n{\"a\":1}\n```"), "{\"a\":1}");
    assert_eq!(unfence("  {\"a\":1} "), "{\"a\":1}");
}

#[test]
fn only_known_effects_are_taken_from_a_model() {
    let fine = model_evidence(
        &opportunity("A"),
        vec![citation("t", "s")],
        "fine".into(),
        "lower".into(),
        false,
        at(NOW),
    )
    .unwrap();
    assert_eq!(fine.confidence_effect, "lower");
    assert_eq!(fine.opportunity_id, 11);
    assert!(model_evidence(
        &opportunity("A"),
        vec![citation("t", "s")],
        "odd".into(),
        "raise".into(),
        false,
        at(NOW),
    )
    .is_err());
}

#[test]
fn citations_join_their_highlights() {
    let c = cite(
        &Some("Title".into()),
        "https://example.com".into(),
        &None,
        &vec!["one".to_string(), "two".to_string()],
    );
    assert_eq!(c.title, "Title");
    assert!(c.snippet.contains("one") && c.snippet.contains("two"));
}

#[test]
fn an_endless_refresh_is_refused() {
    assert!(checked_refresh(u64::MAX).is_err());
}

#[test]
fn searches_and_prompts_name_the_participant() {
    let row = opportunity("Baltimore Ravens");
    assert_eq!(
        search_query(&row),
        "Baltimore Ravens market nfl injury lineup suspension withdrawal weather schedule latest"
    );
    let prompt = model_prompt(
        &row,
        &vec![
            cite(&Some("First".into()), "https://a".into(), &None, &vec!["one".into()]),
            cite(&Some("Second".into()), "https://b".into(), &None, &vec!["two".into()]),
        ],
    );
    assert!(prompt.contains("schedule changes affecting Baltimore Ravens. Return strict JSON"));
    assert!(prompt.ends_with("Evidence:\n[1] First | https://a | one\n[2] Second | https://b | two"));
}

#[test]
fn short_words_are_counted_in_letters() {
    assert_eq!(participant_terms("Fc K\u{f6}l"), vec!["fc k\u{f6}l".to_string()]);
    assert_eq!(
        participant_terms("Fc K\u{f6}ln"),
        vec!["fc k\u{f6}ln".to_string(), "k\u{f6}ln".to_string()]
    );
}

#[test]
fn a_term_counts_only_beside_a_name() {
    let names = name_terms("new york jets".into(), &vec!["new".into(), "york".into(), "jets".into()]);
    assert_eq!(names, vec!["new york jets", "york", "jets"]);
    assert!(matches!(
        risk_term("jets quarterback ruled out", &names),
        RiskTerm::Hard(_)
    ));
    assert!(matches!(
        risk_term("bills quarterback ruled out", &names),
        RiskTerm::Nothing
    ));
    assert!(matches!(risk_term("jets win again", &names), RiskTerm::Nothing));
}
