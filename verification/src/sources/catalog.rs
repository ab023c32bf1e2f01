//! Which sources a scan is configured with: the public ones, the direct books of
//! the catalog that have an endpoint, and the quota-limited confirmation feed.

use vstd::prelude::*;

use crate::domain::{Family, SourceFamily};
use crate::error::{Error, Failure};
use crate::seqs::{filter_next, group_seqs, take_next};
use crate::text::{blank, concat2, is_blank, owned, same, same_any_case, same_ignoring_case};
use crate::textmap::TextMap;

verus! {

broadcast use group_seqs;

#[derive(Debug, Clone, Copy, PartialEq, Eq, Structural)]
pub enum SourceTier {
    Primary,
    Fallback,
}

/// A direct book of the catalog.
#[derive(Debug)]
pub struct SourceSpec {
    pub id: String,
    pub display_name: String,
    pub family: String,
    pub tier: SourceTier,
    pub reference: bool,
    pub homepage: String,
    pub endpoint_env: String,
}

/// A direct book as mathematics.
pub struct BookSpec {
    pub id: Seq<char>,
    pub display_name: Seq<char>,
    pub family: Seq<char>,
    pub tier: SourceTier,
    pub reference: bool,
    pub homepage: Seq<char>,
    pub endpoint_env: Seq<char>,
}

impl View for SourceSpec {
    type V = BookSpec;

    open spec fn view(&self) -> BookSpec {
        BookSpec {
            id: self.id@,
            display_name: self.display_name@,
            family: self.family@,
            tier: self.tier,
            reference: self.reference,
            homepage: self.homepage@,
            endpoint_env: self.endpoint_env@,
        }
    }
}

impl Clone for SourceSpec {
    fn clone(&self) -> (result: SourceSpec)
        ensures
            result@ == self@,
    {
        SourceSpec {
            id: owned(self.id.as_str()),
            display_name: owned(self.display_name.as_str()),
            family: owned(self.family.as_str()),
            tier: self.tier,
            reference: self.reference,
            homepage: owned(self.homepage.as_str()),
            endpoint_env: owned(self.endpoint_env.as_str()),
        }
    }
}

pub open spec fn spec_views(items: Seq<SourceSpec>) -> Seq<BookSpec> {
    items.map_values(|item: SourceSpec| item@)
}

/// The family that a catalog entry names, or what is wrong with it.
pub open spec fn family_named(value: Seq<char>) -> Result<Family, Failure> {
    if value == "pinnacle"@ {
        Ok(Family::Pinnacle)
    } else if value == "circa"@ {
        Ok(Family::Circa)
    } else if value == "bookmaker"@ {
        Ok(Family::Bookmaker)
    } else if value == "bet_online"@ {
        Ok(Family::BetOnline)
    } else if value == "bet365"@ {
        Ok(Family::Bet365)
    } else if value == "draft_kings"@ {
        Ok(Family::DraftKings)
    } else if value == "fan_duel"@ {
        Ok(Family::FanDuel)
    } else if value == "caesars"@ {
        Ok(Family::Caesars)
    } else if value == "bet_mgm"@ {
        Ok(Family::BetMgm)
    } else if value == "fanatics"@ {
        Ok(Family::Fanatics)
    } else if value == "kambi"@ {
        Ok(Family::Kambi)
    } else if value == "hard_rock"@ {
        Ok(Family::HardRock)
    } else if value == "penn"@ {
        Ok(Family::Penn)
    } else {
        Err(Failure::Config("unknown source family "@ + value))
    }
}

pub fn parse_family(value: &str) -> (result: Result<SourceFamily, Error>)
    ensures
        match result {
            Ok(family) => family_named(value@) == Ok::<Family, Failure>(family@),
            Err(e) => family_named(value@) == Err::<Family, Failure>(e@),
        },
{
    if same(value, "pinnacle") {
        Ok(SourceFamily::Pinnacle)
    } else if same(value, "circa") {
        Ok(SourceFamily::Circa)
    } else if same(value, "bookmaker") {
        Ok(SourceFamily::Bookmaker)
    } else if same(value, "bet_online") {
        Ok(SourceFamily::BetOnline)
    } else if same(value, "bet365") {
        Ok(SourceFamily::Bet365)
    } else if same(value, "draft_kings") {
        Ok(SourceFamily::DraftKings)
    } else if same(value, "fan_duel") {
        Ok(SourceFamily::FanDuel)
    } else if same(value, "caesars") {
        Ok(SourceFamily::Caesars)
    } else if same(value, "bet_mgm") {
        Ok(SourceFamily::BetMgm)
    } else if same(value, "fanatics") {
        Ok(SourceFamily::Fanatics)
    } else if same(value, "kambi") {
        Ok(SourceFamily::Kambi)
    } else if same(value, "hard_rock") {
        Ok(SourceFamily::HardRock)
    } else if same(value, "penn") {
        Ok(SourceFamily::Penn)
    } else {
        Err(Error::Config(concat2("unknown source family ", value)))
    }
}

impl SourceSpec {
    pub fn source_family(&self) -> (result: Result<SourceFamily, Error>)
        ensures
            match result {
                Ok(family) => family_named(self@.family) == Ok::<Family, Failure>(family@),
                Err(e) => family_named(self@.family) == Err::<Family, Failure>(e@),
            },
    {
        parse_family(self.family.as_str())
    }
}

/// A source to be set up.
#[derive(Debug)]
pub enum ConfiguredSource {
    Pinnacle,
    ActionNetwork,
    Espn,
    Kalshi,
    PolymarketGlobal,
    Smarkets,
    /// A direct book behind an adapter that speaks the canonical format.
    Canonical { spec: SourceSpec, endpoint: String },
    /// Only for confirmation.
    TheOddsApi { api_key: String },
}

/// A source to be set up, as mathematics.
pub enum Setup {
    Pinnacle,
    ActionNetwork,
    Espn,
    Kalshi,
    PolymarketGlobal,
    Smarkets,
    Canonical(BookSpec, Seq<char>),
    TheOddsApi(Seq<char>),
}

impl View for ConfiguredSource {
    type V = Setup;

    open spec fn view(&self) -> Setup {
        match *self {
            ConfiguredSource::Pinnacle => Setup::Pinnacle,
            ConfiguredSource::ActionNetwork => Setup::ActionNetwork,
            ConfiguredSource::Espn => Setup::Espn,
            ConfiguredSource::Kalshi => Setup::Kalshi,
            ConfiguredSource::PolymarketGlobal => Setup::PolymarketGlobal,
            ConfiguredSource::Smarkets => Setup::Smarkets,
            ConfiguredSource::Canonical { spec, endpoint } => Setup::Canonical(spec@, endpoint@),
            ConfiguredSource::TheOddsApi { api_key } => Setup::TheOddsApi(api_key@),
        }
    }
}

pub open spec fn setup_views(items: Seq<ConfiguredSource>) -> Seq<Setup> {
    items.map_values(|item: ConfiguredSource| item@)
}

/// Whether a variable says a word, whatever the case.
pub open spec fn says(vars: Map<Seq<char>, Seq<char>>, name: Seq<char>, word: Seq<char>) -> bool {
    vars.contains_key(name) && same_ignoring_case(vars[name], word)
}

fn var_says(vars: &TextMap<String>, name: &str, word: &str) -> (result: bool)
    ensures
        result == says(vars.deep(), name@, word@),
{
    match vars.get(name) {
        Some(text) => same_any_case(text.as_str(), word),
        None => false,
    }
}

/// One more source, unless it is switched off.
pub open spec fn unless_off(
    list: Seq<Setup>,
    vars: Map<Seq<char>, Seq<char>>,
    name: Seq<char>,
    setup: Setup,
) -> Seq<Setup> {
    if says(vars, name, "false"@) {
        list
    } else {
        list.push(setup)
    }
}

/// The public sources: each runs unless it is switched off.
pub open spec fn public_setups(vars: Map<Seq<char>, Seq<char>>) -> Seq<Setup> {
    let a = unless_off(seq![], vars, "ENABLE_PINNACLE"@, Setup::Pinnacle);
    let b = unless_off(a, vars, "ENABLE_ACTION_NETWORK"@, Setup::ActionNetwork);
    let c = unless_off(b, vars, "ENABLE_ESPN"@, Setup::Espn);
    let d = unless_off(c, vars, "ENABLE_KALSHI"@, Setup::Kalshi);
    let e = unless_off(d, vars, "ENABLE_POLYMARKET_GLOBAL"@, Setup::PolymarketGlobal);
    unless_off(e, vars, "ENABLE_SMARKETS"@, Setup::Smarkets)
}

/// The endpoint of a direct book, if one is given.
pub open spec fn endpoint_of(spec: BookSpec, vars: Map<Seq<char>, Seq<char>>) -> Option<Seq<char>> {
    if vars.contains_key(spec.endpoint_env) && !is_blank(vars[spec.endpoint_env]) {
        Some(vars[spec.endpoint_env])
    } else {
        None
    }
}

/// The direct books with an endpoint, or what is wrong with the first of them
/// that names no known family.
pub open spec fn direct_setups(specs: Seq<BookSpec>, vars: Map<Seq<char>, Seq<char>>) -> Result<
    Seq<Setup>,
    Failure,
>
    decreases specs.len(),
{
    if specs.len() == 0 {
        Ok(seq![])
    } else {
        match direct_setups(specs.drop_last(), vars) {
            Err(f) => Err(f),
            Ok(front) => match endpoint_of(specs.last(), vars) {
                None => Ok(front),
                Some(endpoint) => match family_named(specs.last().family) {
                    Err(f) => Err(f),
                    Ok(_) => Ok(front.push(Setup::Canonical(specs.last(), endpoint))),
                },
            },
        }
    }
}

/// The confirmation feed, where it is switched on and has a key.
pub open spec fn confirmation_setups(vars: Map<Seq<char>, Seq<char>>) -> Seq<Setup> {
    let name = "THE_ODDS_API_KEY"@;
    if says(vars, "ENABLE_THE_ODDS_API"@, "true"@) && vars.contains_key(name) && !is_blank(
        vars[name],
    ) {
        seq![Setup::TheOddsApi(vars[name])]
    } else {
        seq![]
    }
}

/// Every source that is configured, or what is wrong.
pub open spec fn setups(specs: Seq<BookSpec>, vars: Map<Seq<char>, Seq<char>>) -> Result<
    Seq<Setup>,
    Failure,
> {
    match direct_setups(specs, vars) {
        Err(f) => Err(f),
        Ok(direct) => Ok(public_setups(vars) + direct + confirmation_setups(vars)),
    }
}

fn list_public(vars: &TextMap<String>) -> (result: Vec<ConfiguredSource>)
    ensures
        setup_views(result@) == public_setups(vars.deep()),
{
    let mut out: Vec<ConfiguredSource> = Vec::new();
    if !var_says(vars, "ENABLE_PINNACLE", "false") {
        out.push(ConfiguredSource::Pinnacle);
    }
    if !var_says(vars, "ENABLE_ACTION_NETWORK", "false") {
        out.push(ConfiguredSource::ActionNetwork);
    }
    if !var_says(vars, "ENABLE_ESPN", "false") {
        out.push(ConfiguredSource::Espn);
    }
    if !var_says(vars, "ENABLE_KALSHI", "false") {
        out.push(ConfiguredSource::Kalshi);
    }
    if !var_says(vars, "ENABLE_POLYMARKET_GLOBAL", "false") {
        out.push(ConfiguredSource::PolymarketGlobal);
    }
    if !var_says(vars, "ENABLE_SMARKETS", "false") {
        out.push(ConfiguredSource::Smarkets);
    }
    out
}

proof fn lemma_direct_stays_wrong(specs: Seq<BookSpec>, vars: Map<Seq<char>, Seq<char>>, at: int)
    requires
        0 <= at <= specs.len(),
        direct_setups(specs.take(at), vars) is Err,
    ensures
        direct_setups(specs, vars) == direct_setups(specs.take(at), vars),
    decreases specs.len() - at,
{
    if at < specs.len() {
        take_next(specs, at);
        lemma_direct_stays_wrong(specs, vars, at + 1);
    }
}

/// The catalog of direct books.
#[derive(Debug)]
pub struct SourceCatalog {
    pub specs: Vec<SourceSpec>,
}

impl SourceCatalog {
    /// The sources that the variables configure.
    pub fn configured_sources(&self, vars: &TextMap<String>) -> (result: Result<
        Vec<ConfiguredSource>,
        Error,
    >)
        ensures
            match result {
                Ok(sources) => setups(spec_views(self.specs@), vars.deep()) == Ok::<
                    Seq<Setup>,
                    Failure,
                >(setup_views(sources@)),
                Err(e) => setups(spec_views(self.specs@), vars.deep()) == Err::<
                    Seq<Setup>,
                    Failure,
                >(e@),
            },
    {
        let ghost all = spec_views(self.specs@);
        let ghost known = vars.deep();
        let mut out = list_public(vars);
        let ghost head = setup_views(out@);
        let ghost mut direct: Seq<Setup> = Seq::empty();
        let mut i: usize = 0;
        assert(head + direct =~= head);
        while i < self.specs.len()
            invariant
                i <= self.specs@.len(),
                all == spec_views(self.specs@),
                known == vars.deep(),
                direct_setups(all.take(i as int), known) == Ok::<Seq<Setup>, Failure>(direct),
                setup_views(out@) == head + direct,
            decreases self.specs@.len() - i,
        {
            proof {
                take_next(all, i as int);
            }
            let spec = &self.specs[i];
            match vars.get(spec.endpoint_env.as_str()) {
                Some(endpoint) => {
                    if !blank(endpoint.as_str()) {
                        match spec.source_family() {
                            Ok(_) => {
                                let ghost one = Setup::Canonical(spec@, endpoint@);
                                out.push(
                                    ConfiguredSource::Canonical {
                                        spec: spec.clone(),
                                        endpoint: owned(endpoint.as_str()),
                                    },
                                );
                                proof {
                                    assert((head + direct).push(one) =~= head + direct.push(one));
                                    direct = direct.push(one);
                                }
                            },
                            Err(e) => {
                                proof {
                                    lemma_direct_stays_wrong(all, known, i + 1);
                                }
                                return Err(e);
                            },
                        }
                    }
                },
                None => {},
            }
            i = i + 1;
        }
        let mut confirmed: Option<String> = None;
        if var_says(vars, "ENABLE_THE_ODDS_API", "true") {
            match vars.get("THE_ODDS_API_KEY") {
                Some(key) => {
                    if !blank(key.as_str()) {
                        confirmed = Some(owned(key.as_str()));
                    }
                },
                None => {},
            }
        }
        match confirmed {
            Some(api_key) => {
                proof {
                    assert((head + direct).push(Setup::TheOddsApi(api_key@)) =~= head + direct
                        + seq![Setup::TheOddsApi(api_key@)]);
                }
                out.push(ConfiguredSource::TheOddsApi { api_key });
            },
            None => {
                assert(head + direct =~= head + direct + Seq::<Setup>::empty());
            },
        }
        Ok(out)
    }

    /// The direct books of the first tier.
    pub fn primary_specs(&self) -> (result: Vec<SourceSpec>)
        ensures
            spec_views(result@) == spec_views(self.specs@).filter(
                |s: BookSpec| s.tier == SourceTier::Primary,
            ),
    {
        let ghost all = spec_views(self.specs@);
        let ghost keep = |s: BookSpec| s.tier == SourceTier::Primary;
        let mut out: Vec<SourceSpec> = Vec::new();
        let mut i: usize = 0;
        while i < self.specs.len()
            invariant
                i <= self.specs@.len(),
                all == spec_views(self.specs@),
                keep == (|s: BookSpec| s.tier == SourceTier::Primary),
                spec_views(out@) == all.take(i as int).filter(keep),
            decreases self.specs@.len() - i,
        {
            proof {
                filter_next(all, keep, i as int);
            }
            if self.specs[i].tier == SourceTier::Primary {
                out.push(self.specs[i].clone());
            }
            i = i + 1;
        }
        out
    }
}

/// The confirmation feed never runs without being switched on and given a key.
pub proof fn confirmation_is_opt_in(specs: Seq<BookSpec>, vars: Map<Seq<char>, Seq<char>>)
    requires
        !says(vars, "ENABLE_THE_ODDS_API"@, "true"@) || !vars.contains_key("THE_ODDS_API_KEY"@),
    ensures
        setups(specs, vars) matches Ok(list) ==> forall|i: int|
            0 <= i < list.len() ==> !((#[trigger] list[i]) is TheOddsApi),
{
    lemma_direct_is_canonical(specs, vars);
}

proof fn lemma_direct_is_canonical(specs: Seq<BookSpec>, vars: Map<Seq<char>, Seq<char>>)
    ensures
        direct_setups(specs, vars) matches Ok(list) ==> forall|i: int|
            0 <= i < list.len() ==> (#[trigger] list[i]) is Canonical,
    decreases specs.len(),
{
    if specs.len() > 0 {
        lemma_direct_is_canonical(specs.drop_last(), vars);
    }
}

} // verus!
