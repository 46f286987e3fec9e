//! The match records that go into a mail, and the choice of the matches that
//! the followed teams play.

use vstd::prelude::*;
use vstd::std_specs::convert::FromSpecImpl;
use vstd::std_specs::convert::IntoSpec;

verus! {

/// A team as it is shown: its name and the address of its logo.
#[derive(Debug)]
pub struct Team {
    pub name: String,
    pub logo: String,
}

/// A team as contracts see it.
pub ghost struct TeamModel {
    pub name: Seq<char>,
    pub logo: Seq<char>,
}

impl View for Team {
    type V = TeamModel;

    open spec fn view(&self) -> TeamModel {
        TeamModel { name: self.name@, logo: self.logo@ }
    }
}

impl Team {
    /// The team called `name` whose logo is found at `logo`.
    pub fn new(name: String, logo: String) -> (team: Team)
        ensures
            team == (Team { name, logo }),
    {
        Team { name, logo }
    }
}

impl From<(String, String)> for Team {
    /// The team of a pair of name and logo.
    fn from(value: (String, String)) -> (team: Team) {
        Team::new(value.0, value.1)
    }
}

impl FromSpecImpl<(String, String)> for Team {
    open spec fn obeys_from_spec() -> bool {
        true
    }

    open spec fn from_spec(value: (String, String)) -> Team {
        Team { name: value.0, logo: value.1 }
    }
}

/// When a match starts, in seconds since the epoch, how many maps it may run
/// to, and the event it belongs to.
#[derive(Debug)]
pub struct Info {
    pub start_time: i64,
    pub bo: String,
    pub name: String,
}

/// The circumstances of a match as contracts see them.
pub ghost struct InfoModel {
    pub start_time: i64,
    pub bo: Seq<char>,
    pub name: Seq<char>,
}

impl View for Info {
    type V = InfoModel;

    open spec fn view(&self) -> InfoModel {
        InfoModel { start_time: self.start_time, bo: self.bo@, name: self.name@ }
    }
}

impl Info {
    /// The circumstances of a match of the event `name` that starts at
    /// `start_time` and is played as `bo` says.
    pub fn new(start_time: i64, bo: String, name: String) -> (info: Info)
        ensures
            info == (Info { start_time, bo, name }),
    {
        Info { start_time, bo, name }
    }
}

impl From<(i64, String, String)> for Info {
    /// The circumstances of a triple of start, format and event.
    fn from(value: (i64, String, String)) -> (info: Info) {
        Info::new(value.0, value.1, value.2)
    }
}

impl FromSpecImpl<(i64, String, String)> for Info {
    open spec fn obeys_from_spec() -> bool {
        true
    }

    open spec fn from_spec(value: (i64, String, String)) -> Info {
        Info { start_time: value.0, bo: value.1, name: value.2 }
    }
}

/// One match: the two teams and the circumstances.
#[derive(Debug)]
pub struct Match {
    pub team1: Team,
    pub team2: Team,
    pub info: Info,
}

/// A match as contracts see it.
pub ghost struct MatchModel {
    pub team1: TeamModel,
    pub team2: TeamModel,
    pub info: InfoModel,
}

impl View for Match {
    type V = MatchModel;

    open spec fn view(&self) -> MatchModel {
        MatchModel { team1: self.team1@, team2: self.team2@, info: self.info@ }
    }
}

impl Match {
    /// The match of `team1` against `team2` under the circumstances `info`,
    /// each given as anything that converts into its part. What the parts
    /// are is known wherever the conversion has a specification, as the
    /// conversions from tuples have.
    pub fn new<A: Into<Team>, B: Into<Team>, C: Into<Info>>(team1: A, team2: B, info: C) -> (made: Match)
        ensures
            <A as IntoSpec<Team>>::obeys_into_spec() ==> made.team1 == team1.into_spec(),
            <B as IntoSpec<Team>>::obeys_into_spec() ==> made.team2 == team2.into_spec(),
            <C as IntoSpec<Info>>::obeys_into_spec() ==> made.info == info.into_spec(),
    {
        Match { team1: team1.into(), team2: team2.into(), info: info.into() }
    }
}

/// Where the match list of a day is asked for; the day's text follows.
pub const MATCH_LIST_URL: &'static str =
    "https://gwapi.pwesports.cn/eventcenter/app/csgo/event/getMatchList?matchTime=";

/// How a day is written in a request: the date and the time of midnight.
pub const MATCH_TIME_FORMAT: &'static str = "%Y-%m-%d+%H:%M:%S";

/// How many days, counting today, a mail looks ahead.
pub const WINDOW_DAYS: i32 = 3;

/// Midnight of the day numbered `day` (day 1 is the first of January of the
/// year 1), as `chrono` writes it in `MATCH_TIME_FORMAT`; `None` for a day
/// that `chrono` has no date for.
pub uninterp spec fn chrono_midnight_text(day: i32) -> Option<Seq<char>>;

/// `NaiveDate::from_num_days_from_ce_opt`, then `and_time` with midnight and
/// `format`: the day's text, or `None` where the day has no date. Only the
/// one format that is known to hold nothing but valid specifiers is let in.
#[verifier::external_body]
fn midnight_text(day: i32, format: &str) -> (text: Option<String>)
    requires
        format@ == MATCH_TIME_FORMAT@,
    ensures
        text is Some <==> chrono_midnight_text(day) is Some,
        text matches Some(written) ==> chrono_midnight_text(day) == Some(written@),
{
    let date = chrono::NaiveDate::from_num_days_from_ce_opt(day)?;
    Some(date.and_time(chrono::NaiveTime::MIN).format(format).to_string())
}

/// One entry of a day's match list, as far as a mail needs it.
#[derive(Debug)]
pub struct Listing {
    pub team1id: i32,
    pub team2id: i32,
    pub team1_name: String,
    pub team1_logo: String,
    pub team2_name: String,
    pub team2_logo: String,
    /// Start of the match in milliseconds since the epoch.
    pub start_time: i64,
    pub bo: String,
    /// Name of the event that the match belongs to.
    pub event: String,
}

/// Whole seconds in `millis` milliseconds, rounded towards zero.
pub open spec fn millis_to_secs(millis: i64) -> i64 {
    if millis >= 0 {
        (millis / 1000) as i64
    } else {
        (-((-millis) / 1000)) as i64
    }
}

/// Whether one of the two teams of `listing` is among `teams`.
pub open spec fn follows(teams: Seq<i32>, listing: Listing) -> bool {
    teams.contains(listing.team1id) || teams.contains(listing.team2id)
}

/// The match that a listing is shown as: the two teams, the start in
/// seconds, and the event's name.
pub open spec fn match_of(listing: Listing) -> MatchModel {
    MatchModel {
        team1: TeamModel { name: listing.team1_name@, logo: listing.team1_logo@ },
        team2: TeamModel { name: listing.team2_name@, logo: listing.team2_logo@ },
        info: InfoModel {
            start_time: millis_to_secs(listing.start_time),
            bo: listing.bo@,
            name: listing.event@,
        },
    }
}

/// What is kept of one listing: its match if one of its teams is among
/// `teams`, nothing otherwise.
pub open spec fn kept_of(teams: Seq<i32>) -> spec_fn(Listing) -> Option<MatchModel> {
    |listing: Listing|
        if follows(teams, listing) {
            Some(match_of(listing))
        } else {
            None
        }
}

/// The matches of the followed teams among `listings`, in their order.
pub open spec fn selected(teams: Seq<i32>, listings: Seq<Listing>) -> Seq<MatchModel> {
    listings.filter_map(kept_of(teams))
}

/// The days that a mail sent on `today` covers: `today` and the days after
/// it, `WINDOW_DAYS` in all, as far as their numbers can be written.
pub open spec fn window_of(today: i32) -> Seq<i32> {
    Seq::new(
        if today <= i32::MAX - (WINDOW_DAYS - 1) {
            WINDOW_DAYS as nat
        } else {
            (i32::MAX - today + 1) as nat
        },
        |k: int| (today + k) as i32,
    )
}

/// The teams whose matches are reported.
pub open spec fn followed_teams() -> Seq<i32> {
    seq![6667, 5995, 12396, 4608, 5378, 8840, 5752]
}

/// The part of the match service that needs no network: which teams are
/// followed, how a request is addressed, and what is kept of an answer.
#[derive(Debug, Clone)]
pub struct CsgoApi {
    teams: Vec<i32>,
}

impl View for CsgoApi {
    type V = Seq<i32>;

    closed spec fn view(&self) -> Seq<i32> {
        self.teams@
    }
}

impl CsgoApi {
    /// The service as it is used: following the seven usual teams.
    pub fn new() -> (api: CsgoApi)
        ensures
            api@ == followed_teams(),
    {
        let mut teams: Vec<i32> = Vec::new();
        teams.push(6667);
        teams.push(5995);
        teams.push(12396);
        teams.push(4608);
        teams.push(5378);
        teams.push(8840);
        teams.push(5752);
        assert(teams@ == followed_teams());
        CsgoApi { teams }
    }

    /// The service following `teams` instead.
    pub fn following(teams: Vec<i32>) -> (api: CsgoApi)
        ensures
            api@ == teams@,
    {
        CsgoApi { teams }
    }

    /// Whether the team numbered `team` is followed.
    pub fn follows_team(&self, team: i32) -> (followed: bool)
        ensures
            followed == self@.contains(team),
    {
        let mut i: usize = 0;
        while i < self.teams.len()
            invariant
                i <= self.teams.len(),
                forall|j: int| 0 <= j < i ==> self.teams@[j] != team,
            decreases self.teams.len() - i,
        {
            if self.teams[i] == team {
                return true;
            }
            i += 1;
        }
        false
    }

    /// The address at which the match list of the day numbered `day` is
    /// asked for, or `None` where the day has no date.
    pub fn match_list_url(&self, day: i32) -> (url: Option<String>)
        ensures
            url is Some <==> chrono_midnight_text(day) is Some,
            url matches Some(address) ==> address@ == MATCH_LIST_URL@ + chrono_midnight_text(
                day,
            )->0,
    {
        match midnight_text(day, MATCH_TIME_FORMAT) {
            Some(text) => Some(Self::address(text.as_str())),
            None => None,
        }
    }

    /// The address at which the match list of the day written as `day_text`
    /// is asked for.
    pub fn address(day_text: &str) -> (address: String)
        ensures
            address@ == MATCH_LIST_URL@ + day_text@,
    {
        let mut address = MATCH_LIST_URL.to_owned();
        address.append(day_text);
        address
    }

    /// What is kept of a day's match list: the matches in which a followed
    /// team plays, in the order of the list.
    pub fn select(&self, listings: Vec<Listing>) -> (matches: Vec<Match>)
        ensures
            matches@.map_values(|kept: Match| kept@) == selected(self@, listings@),
    {
        let mut matches: Vec<Match> = Vec::new();
        let ghost all = listings@;
        for listing in entries: listings.into_iter()
            invariant
                entries.seq() == all,
                matches@.map_values(|kept: Match| kept@) == selected(
                    self@,
                    all.take(entries.index() as int),
                ),
        {
            let ghost before = matches@.map_values(|kept: Match| kept@);
            proof {
                all.lemma_filter_map_take_succ(kept_of(self@), entries.index() as int);
            }
            if self.follows_team(listing.team1id) || self.follows_team(listing.team2id) {
                let kept = Match::new(
                    (listing.team1_name, listing.team1_logo),
                    (listing.team2_name, listing.team2_logo),
                    (listing.start_time / 1000, listing.bo, listing.event),
                );
                matches.push(kept);
                assert(matches@.map_values(|kept: Match| kept@) == before.push(kept@));
            }
        }
        assert(all.take(all.len() as int) == all);
        matches
    }
}

/// The days that a mail sent on the day numbered `today` covers.
pub fn window(today: i32) -> (days: Vec<i32>)
    ensures
        days@ == window_of(today),
{
    let mut days: Vec<i32> = Vec::new();
    let mut ahead: i32 = 0;
    while ahead < WINDOW_DAYS && today <= i32::MAX - ahead
        invariant
            0 <= ahead <= WINDOW_DAYS,
            days.len() == ahead,
            ahead > 0 ==> today + ahead - 1 <= i32::MAX,
            forall|k: int| 0 <= k < ahead ==> days@[k] == today + k,
        decreases WINDOW_DAYS - ahead,
    {
        days.push(today + ahead);
        ahead += 1;
    }
    proof {
        assert(days@.len() == window_of(today).len());
        assert(days@ =~= window_of(today));
    }
    days
}

} // verus!
