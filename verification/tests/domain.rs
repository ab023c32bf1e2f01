use polybot::domain::{
    effective_recommendation, NewsEvidence, OutcomeSide, RecommendationClass, SourceFamily, Sport,
};
use polybot::records::{class_from_text, side_from_text, sport_from_text};
use polybot::time::Timestamp;

const NOW: i64 = 1_760_000_000;

fn at(seconds: i64) -> Timestamp {
    Timestamp::from_seconds(seconds).unwrap()
}

fn evidence(effect: &str, manual_review: bool) -> NewsEvidence {
    NewsEvidence {
        opportunity_id: 7,
        generated_at: at(NOW),
        summary: "test".into(),
        confidence_effect: effect.into(),
        manual_review,
        citations: Vec::new(),
    }
}

#[test]
fn actionable_requires_completed_unchanged_news() {
    assert_eq!(
        effective_recommendation(RecommendationClass::Actionable, &None, at(NOW)),
        RecommendationClass::Watchlist
    );
    assert_eq!(
        effective_recommendation(
            RecommendationClass::Actionable,
            &Some(evidence("unchanged", false)),
            at(NOW)
        ),
        RecommendationClass::Actionable
    );
    assert_eq!(
        effective_recommendation(
            RecommendationClass::Actionable,
            &Some(evidence("lower", false)),
            at(NOW)
        ),
        RecommendationClass::Watchlist
    );
    assert_eq!(
        effective_recommendation(
            RecommendationClass::Actionable,
            &Some(evidence("reject", false)),
            at(NOW)
        ),
        RecommendationClass::Rejected
    );
    let mut stale = evidence("unchanged", false);
    stale.generated_at = at(NOW - 3 * 3600);
    assert_eq!(
        effective_recommendation(RecommendationClass::Actionable, &Some(stale), at(NOW)),
        RecommendationClass::Watchlist
    );
}

#[test]
fn a_review_request_or_evidence_from_the_future_holds_back() {
    assert_eq!(
        effective_recommendation(
            RecommendationClass::Actionable,
            &Some(evidence("unchanged", true)),
            at(NOW)
        ),
        RecommendationClass::Watchlist
    );
    assert_eq!(
        effective_recommendation(
            RecommendationClass::Actionable,
            &Some(evidence("unchanged", false)),
            at(NOW - 61)
        ),
        RecommendationClass::Watchlist
    );
    assert_eq!(
        effective_recommendation(
            RecommendationClass::Actionable,
            &Some(evidence("unchanged", false)),
            at(NOW - 60)
        ),
        RecommendationClass::Actionable
    );
}

#[test]
fn nothing_revives_a_rejected_row() {
    assert_eq!(
        effective_recommendation(
            RecommendationClass::Rejected,
            &Some(evidence("unchanged", false)),
            at(NOW)
        ),
        RecommendationClass::Rejected
    );
}

#[test]
fn enum_text_round_trips_serde_renames() {
    assert_eq!(OutcomeSide::Long.name(), "long");
    assert_eq!(RecommendationClass::Watchlist.name(), "watchlist");
    assert_eq!(Sport::Nfl.name(), "nfl");
    assert_eq!(
        class_from_text("actionable").unwrap(),
        RecommendationClass::Actionable
    );
}

#[test]
fn every_name_reads_back() {
    for sport in Sport::all() {
        assert_eq!(sport_from_text(sport.name()).unwrap(), sport);
    }
    for side in [OutcomeSide::Long, OutcomeSide::Short] {
        assert_eq!(side_from_text(side.name()).unwrap(), side);
    }
    assert_eq!(
        side_from_text("middle").unwrap_err().to_text(),
        "JSON error: unknown variant `middle`, expected `long` or `short`"
    );
    assert_eq!(
        class_from_text("maybe").unwrap_err().to_text(),
        "JSON error: unknown variant `maybe`, expected one of `actionable`, `watchlist`, `rejected`"
    );
    assert_eq!(
        sport_from_text("chess").unwrap_err().to_text(),
        "JSON error: unknown variant `chess`, expected one of `nfl`, `nba`, `wnba`, `mlb`, `tennis`"
    );
}

#[test]
fn venue_paths_follow_the_sport() {
    assert_eq!(Sport::Nfl.discovery_path(), "/v2/leagues/nfl/events");
    assert_eq!(Sport::Tennis.discovery_path(), "/v2/sports/tennis/events");
    assert_eq!(Sport::Wnba.moneyline_type(), "basketball_team_full_game_winner");
}

#[test]
fn only_sharp_books_are_references() {
    assert!(SourceFamily::Pinnacle.is_reference());
    assert!(SourceFamily::Circa.is_reference());
    assert!(!SourceFamily::Kambi.is_reference());
    assert!(!SourceFamily::Other("pinnacle".into()).is_reference());
}

#[test]
fn an_effect_without_a_meaning_keeps_nothing_actionable() {
    for news in [evidence("boost", false), evidence("", false), evidence("unchanged", true)] {
        assert_eq!(
            effective_recommendation(RecommendationClass::Actionable, &Some(news), at(NOW)),
            RecommendationClass::Watchlist
        );
    }
}
