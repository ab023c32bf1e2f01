//! When a game starts, by what the feeds say.

use vstd::prelude::*;

use crate::domain::Sport;
use crate::sources::kalshi::{
    hour_of, hours_behind, moved_at, new_york, start_in, sunday, ApiMarket,
};
use crate::sources::polymarket_global::{
    answers_to, game_start, name_behind, offset_seconds, zone_seconds, GammaTeam,
};
use crate::sources::smarkets::{league_of, pregame, rank_of, sport_of, Event, Market};
use crate::text::{same_ignoring_case, text_of, trimmed};
use crate::time::{day_number, instant_of, rfc3339};

verus! {

/// The n-th Sunday of a month lies in the n-th seven days of the month, a whole
/// number of weeks from day nought.
pub proof fn sundays_come_every_seven_days(year: int, month: int, n: int)
    ensures
        day_number(year, month, 1) matches Some(first) ==> (sunday(year, month, n) matches Some(
            day,
        ) && day % 7 == 0 && first + 7 * (n - 1) <= day < first + 7 * n),
        day_number(year, month, 1) is None ==> sunday(year, month, n) is None,
{
    if let Some(first) = day_number(year, month, 1) {
        let day = first + (7 - first % 7) % 7 + 7 * (n - 1);
        assert(day % 7 == 0);
    }
}

/// New York is four hours behind from the second Sunday of March up to the first
/// of November and five otherwise, unless the text says which; a later hour or
/// minute is later by as much.
pub proof fn new_york_is_four_or_five_hours_behind(
    year: int,
    day: int,
    hour: int,
    minute: int,
    zone: Option<Seq<char>>,
)
    ensures
        zone == Some("EDT"@) ==> hours_behind(zone, year, day) == 4,
        zone == Some("EST"@) ==> hours_behind(zone, year, day) == 5,
        zone is None ==> (sunday(year, 3, 2) matches Some(spring) ==> (sunday(
            year,
            11,
            1,
        ) matches Some(autumn) ==> (hours_behind(zone, year, day) == if spring <= day < autumn {
            4int
        } else {
            5int
        }))),
        new_york(year, day, hour + 1, minute, zone) == new_york(year, day, hour, minute, zone)
            + 3_600_000_000_000,
        new_york(year, day, hour, minute + 1, zone) == new_york(year, day, hour, minute, zone)
            + 60_000_000_000,
        new_york(year, day, 0, 0, Some("EST"@)) == new_york(year, day, 1, 0, Some("EDT"@)),
{
    reveal_strlit("EDT");
    reveal_strlit("EST");
    assert("EDT"@[1] == 'D');
    assert("EST"@[1] == 'S');
}

/// A pair of markets moved when the later of the two did.
pub proof fn the_later_change_counts(a: ApiMarket, b: ApiMarket)
    ensures
        moved_at(a, b) == moved_at(b, a),
        rfc3339(a.updated_time@) matches Ok(x) ==> (moved_at(a, b) matches Some(t) && x <= t),
        moved_at(a, b) matches Some(t) ==> (rfc3339(a.updated_time@) matches Ok(x) && x == t) || (
        rfc3339(b.updated_time@) matches Ok(y) && y == t),
{
}

/// A clock with two halves: noon is twelve, midnight is nothing, and the
/// afternoon is twelve hours on.
pub proof fn afternoons_are_twelve_hours_on(hour: int)
    requires
        1 <= hour < 12,
    ensures
        hour_of("AM"@, hour) == Some(hour),
        hour_of("PM"@, hour) == Some(hour + 12),
        hour_of("AM"@, 12) == Some(0int),
        hour_of("PM"@, 12) == Some(12int),
{
    reveal_strlit("AM");
    reveal_strlit("PM");
    assert("AM"@[0] == 'A');
    assert("PM"@[0] == 'P');
}

/// Where only a date is given, a match may be up to fourteen hours off; else a
/// quarter of an hour.
pub proof fn dates_allow_fourteen_hours(rules: Seq<char>)
    ensures
        start_in(rules) matches Some((_, minutes)) ==> minutes == 15 || minutes == 14 * 60,
{
}

/// A full time stamp is taken as it stands, a time without a zone is in UTC, and
/// a zone behind UTC is as many seconds off as the one ahead of it, the other way.
pub proof fn starts_are_in_utc(raw: Seq<char>, ahead: Seq<char>, behind: Seq<char>)
    requires
        ahead.len() > 0,
        behind.len() > 0,
        ahead[0] == '+',
        behind[0] == '-',
        ahead.skip(1) == behind.skip(1),
    ensures
        rfc3339(trimmed(raw)) matches Ok(instant) ==> game_start(raw) == Some(instant),
        zone_seconds(""@) == Some(0int),
        zone_seconds("Z"@) == Some(0int),
        offset_seconds(ahead) matches Some(seconds) ==> offset_seconds(behind) == Some(-seconds)
            && -86_400 < seconds < 86_400,
        offset_seconds(ahead) is None ==> offset_seconds(behind) is None,
{
}

/// An outcome is completed to the name of the first team that goes by it, and
/// stays as it is where none does.
pub proof fn outcomes_are_completed_by_their_team(
    outcome: Seq<char>,
    teams: Seq<GammaTeam>,
    from: int,
)
    requires
        0 <= from <= teams.len(),
    ensures
        (exists|i: int|
            from <= i < teams.len() && (#[trigger] teams[i]).name@ == name_behind(
                outcome,
                teams,
                from,
            ) && (same_ignoring_case(teams[i].name@, outcome) || (text_of(
                teams[i].alias,
            ) matches Some(alias) && same_ignoring_case(alias, outcome)) || (text_of(
                teams[i].abbreviation,
            ) matches Some(short) && same_ignoring_case(short, outcome)))) || (name_behind(
            outcome,
            teams,
            from,
        ) == outcome && forall|i: int|
            from <= i < teams.len() ==> !answers_to(#[trigger] teams[i], outcome)),
    decreases teams.len() - from,
{
    if from < teams.len() && !answers_to(teams[from], outcome) {
        outcomes_are_completed_by_their_team(outcome, teams, from + 1);
    }
}

/// Only the four leagues by their exact names, and tennis, are read; an event is
/// read while it can be bet on and has not started.
pub proof fn other_leagues_do_not_leak_in(
    event: Event,
    competitions: Map<Seq<char>, Seq<char>>,
    sports: Seq<Sport>,
    now: int,
)
    ensures
        pregame(event, now) <==> event.bettable && (instant_of(event.start_datetime) matches Some(
            start,
        ) && now < start),
        sport_of(event, competitions, sports) matches Some(sport) ==> sports.contains(sport) && (
        sport is Tennis || (text_of(event.parent_id) matches Some(parent)
            && competitions.contains_key(parent) && league_of(competitions[parent]) == Some(
            sport,
        ))),
        forall|name: Seq<char>|
            {
                &&& (#[trigger] league_of(name) == Some(Sport::Nfl)) == (trimmed(name) == "NFL"@)
                &&& (league_of(name) == Some(Sport::Nba)) == (trimmed(name) == "NBA"@)
                &&& (league_of(name) == Some(Sport::Wnba)) == (trimmed(name) == "WNBA"@)
                &&& (league_of(name) == Some(Sport::Mlb)) == (trimmed(name) == "MLB"@)
                &&& league_of(name) != Some(Sport::Tennis)
            },
{
    reveal_strlit("NFL");
    reveal_strlit("NBA");
    reveal_strlit("WNBA");
    reveal_strlit("MLB");
    assert("WNBA"@.len() == 4);
    assert("NFL"@.len() == 3);
    assert("NBA"@.len() == 3);
    assert("MLB"@.len() == 3);
    assert("NFL"@[1] == 'F');
    assert("NBA"@[1] == 'B');
    assert("MLB"@[1] == 'L');
}

/// The plain winner market is preferred to the one that voids a draw, and both
/// to one without a type.
pub proof fn the_plain_winner_is_preferred(a: Market, b: Market)
    ensures
        a.market_type@ == "WINNER_2_WAY"@ && b.market_type@ != "WINNER_2_WAY"@ ==> rank_of(a)
            < rank_of(b),
        a.market_type@ == "WINNER_DNB"@ && b.market_type@ == ""@ ==> rank_of(a) < rank_of(b),
{
    reveal_strlit("WINNER_2_WAY");
    reveal_strlit("WINNER_DNB");
    reveal_strlit("");
    assert("WINNER_2_WAY"@.len() == 12);
    assert("WINNER_DNB"@.len() == 10);
    assert(""@.len() == 0);
}

} // verus!
