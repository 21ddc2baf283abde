use vstd::prelude::*;

use std::collections::HashMap;

verus! {

/// One player taken in a draft.
pub struct DraftSelection {
    player_name: String,
}

impl DraftSelection {
    /// The name of the player taken.
    pub closed spec fn name(&self) -> Seq<char> {
        self.player_name@
    }

    pub fn new(player_name: String) -> (r: DraftSelection)
        ensures
            r.name() == player_name@,
    {
        DraftSelection { player_name }
    }

    pub fn player_name(&self) -> (r: String)
        ensures
            r@ == self.name(),
    {
        self.player_name.clone()
    }

    pub fn set_player_name(&mut self, player_name: String)
        ensures
            final(self).name() == player_name@,
    {
        self.player_name = player_name;
    }
}

/// The score of one game of a week. Scores are in hundredths of a point.
pub struct Scoreboard {
    home_team: String,
    away_team: String,
    pub home_team_score: i64,
    pub away_team_score: i64,
}

impl Scoreboard {
    /// The home team's name.
    pub closed spec fn home(&self) -> Seq<char> {
        self.home_team@
    }

    /// The home team's score.
    pub closed spec fn home_score(&self) -> i64 {
        self.home_team_score
    }

    /// The away team's score.
    pub closed spec fn away_score(&self) -> i64 {
        self.away_team_score
    }

    /// The away team's name.
    pub closed spec fn away(&self) -> Seq<char> {
        self.away_team@
    }

    pub fn new(home_team: String, away_team: String, home_team_score: i64, away_team_score: i64) -> (r:
        Scoreboard)
        ensures
            r.home() == home_team@,
            r.away() == away_team@,
            r.home_score() == home_team_score,
            r.away_score() == away_team_score,
    {
        Scoreboard { home_team, away_team, home_team_score, away_team_score }
    }

    pub fn home_team(&self) -> (r: String)
        ensures
            r@ == self.home(),
    {
        self.home_team.clone()
    }

    pub fn set_home_team(&mut self, home_team: String)
        ensures
            final(self).home() == home_team@,
            final(self).away() == old(self).away(),
            final(self).home_score() == old(self).home_score(),
            final(self).away_score() == old(self).away_score(),
    {
        self.home_team = home_team;
    }

    pub fn away_team(&self) -> (r: String)
        ensures
            r@ == self.away(),
    {
        self.away_team.clone()
    }

    pub fn set_away_team(&mut self, away_team: String)
        ensures
            final(self).away() == away_team@,
            final(self).home() == old(self).home(),
            final(self).home_score() == old(self).home_score(),
            final(self).away_score() == old(self).away_score(),
    {
        self.away_team = away_team;
    }
}

/// A league's draft and its games, week by week.
pub struct LeagueData {
    draft_data: Vec<DraftSelection>,
    matchup_data: HashMap<i32, Vec<Scoreboard>>,
}

impl LeagueData {
    /// The names of the drafted players, in draft order.
    pub closed spec fn draft_names(&self) -> Seq<Seq<char>> {
        self.draft_data@.map_values(|d: DraftSelection| d.name())
    }

    /// The weeks that have games recorded.
    pub closed spec fn weeks(&self) -> Set<i32> {
        self.matchup_data@.dom()
    }

    /// League data with no draft and no games.
    pub fn new() -> (r: LeagueData)
        ensures
            r.draft_names() == Seq::<Seq<char>>::empty(),
            r.weeks() == Set::<i32>::empty(),
    {
        let r = LeagueData { draft_data: Vec::new(), matchup_data: HashMap::new() };
        assert(r.draft_names() =~= Seq::<Seq<char>>::empty());
        r
    }

    /// League data with the given draft and no games.
    pub fn with_draft(draft_data: Vec<DraftSelection>) -> (r: LeagueData)
        ensures
            r.draft_names() == draft_data@.map_values(|d: DraftSelection| d.name()),
            r.weeks() == Set::<i32>::empty(),
    {
        LeagueData { draft_data, matchup_data: HashMap::new() }
    }

    /// A copy of the draft, in draft order.
    pub fn draft_data(&self) -> (r: Vec<DraftSelection>)
        ensures
            r@.map_values(|d: DraftSelection| d.name()) == self.draft_names(),
    {
        let mut r: Vec<DraftSelection> = Vec::new();
        let mut i: usize = 0;
        while i < self.draft_data.len()
            invariant
                i <= self.draft_data@.len(),
                r@.len() == i,
                forall|k: int| 0 <= k < i ==> (#[trigger] r@[k]).name() == self.draft_data@[k].name(),
            decreases self.draft_data.len() - i,
        {
            r.push(DraftSelection::new(self.draft_data[i].player_name()));
            i = i + 1;
        }
        assert(r@.map_values(|d: DraftSelection| d.name()) =~= self.draft_names());
        r
    }
}

} // verus!
