use vstd::prelude::*;

verus! {

/// A player as named in a league's transaction log.
pub struct Player {
    pub name: String,
    pub player_id: i64,
}

/// One roster move by a team.
pub struct Action {
    pub team: String,
    pub action: String,
    pub player: Player,
}

/// The roster moves logged at one time stamp.
pub struct Activity {
    pub date: i64,
    pub actions: Vec<Action>,
}

/// The result of one game. Scores are in hundredths of a point.
pub struct Scoreboard {
    pub home_team: String,
    pub home_team_score: i64,
    pub home_team_projected_score: i64,
    pub away_team: String,
    pub away_team_score: i64,
    pub away_team_projected_score: i64,
}

impl Scoreboard {
    /// Whether the home team outscored the away team.
    pub fn home_win(&self) -> (r: bool)
        ensures
            r == (self.home_team_score > self.away_team_score),
    {
        self.home_team_score > self.away_team_score
    }
}

/// A team's record. Points are in hundredths of a point.
pub struct TeamStanding {
    pub wins: i32,
    pub losses: i32,
    pub points_scored: i64,
    pub points_against: i64,
}

impl TeamStanding {
    /// Counts a game that this team played at home on a standing taken by
    /// value: a home win adds a win and the game's points for and against.
    /// The updated standing is dropped with the call, so the caller sees no
    /// change.
    pub fn add_game(self, scoreboard: Scoreboard)
        requires
            self.wins < i32::MAX,
            i64::MIN <= self.points_scored + scoreboard.home_team_score <= i64::MAX,
            i64::MIN <= self.points_against + scoreboard.away_team_score <= i64::MAX,
    {
        let mut standing = self;
        if scoreboard.home_win() {
            standing.wins = standing.wins + 1;
            standing.points_scored = standing.points_scored + scoreboard.home_team_score;
            standing.points_against = standing.points_against + scoreboard.away_team_score;
        }
    }
}

/// The team names that the games mention, away team before home team,
/// game by game.
pub open spec fn names_in(games: Seq<Scoreboard>) -> Seq<Seq<char>>
    decreases games.len(),
{
    if games.len() == 0 {
        seq![]
    } else {
        names_in(games.drop_last()).push(games.last().away_team@).push(games.last().home_team@)
    }
}

/// One of `names` reads `x`.
pub open spec fn holds_name(names: Seq<String>, x: Seq<char>) -> bool {
    exists|k: int| 0 <= k < names.len() && names[k]@ == x
}

/// `names` holds each of `wanted` once, and nothing else.
pub open spec fn is_name_set(names: Seq<String>, wanted: Seq<Seq<char>>) -> bool {
    &&& forall|k: int| 0 <= k < names.len() ==> wanted.contains(#[trigger] names[k]@)
    &&& forall|j: int| 0 <= j < wanted.len() ==> holds_name(names, #[trigger] wanted[j])
    &&& forall|a: int, b: int| 0 <= a < b < names.len() ==> names[a]@ != names[b]@
}

fn insert_name(names: &mut Vec<String>, name: &String)
    requires
        forall|a: int, b: int| 0 <= a < b < old(names)@.len() ==> old(names)@[a]@ != old(names)@[b]@,
    ensures
        forall|a: int, b: int| 0 <= a < b < final(names)@.len() ==> final(names)@[a]@ != final(names)@[b]@,
        forall|k: int|
            0 <= k < final(names)@.len() ==> (#[trigger] final(names)@[k])@ == name@ || holds_name(
                old(names)@,
                final(names)@[k]@,
            ),
        forall|m: int| 0 <= m < old(names)@.len() ==> holds_name(final(names)@, (#[trigger] old(names)@[m])@),
        holds_name(final(names)@, name@),
{
    let ghost pre = names@;
    let mut i: usize = 0;
    while i < names.len()
        invariant
            names@ == pre,
            forall|a: int, b: int| 0 <= a < b < pre.len() ==> pre[a]@ != pre[b]@,
            i <= names@.len(),
            forall|k: int| 0 <= k < i ==> (#[trigger] names@[k])@ != name@,
        decreases names.len() - i,
    {
        if names[i] == *name {
            assert(names@[i as int]@ == name@);
            assert forall|k: int| 0 <= k < names@.len() implies holds_name(pre, (#[trigger] names@[k])@) by {
                assert(pre[k]@ == names@[k]@);
            }
            return;
        }
        i = i + 1;
    }
    names.push(name.clone());
    assert(names@[pre.len() as int]@ == name@);
    assert forall|m: int| 0 <= m < pre.len() implies holds_name(names@, (#[trigger] pre[m])@) by {
        assert(names@[m] == pre[m]);
    }
    assert forall|k: int| 0 <= k < names@.len() implies (#[trigger] names@[k])@ == name@ || holds_name(pre, names@[k]@) by {
        if k < pre.len() {
            assert(pre[k]@ == names@[k]@);
        }
    }
}

/// The teams that play in `games`, each named once.
pub fn team_names(games: &Vec<Scoreboard>) -> (r: Vec<String>)
    ensures
        is_name_set(r@, names_in(games@)),
{
    let mut names: Vec<String> = Vec::new();
    let mut i: usize = 0;
    while i < games.len()
        invariant
            i <= games@.len(),
            is_name_set(names@, names_in(games@.take(i as int))),
        decreases games.len() - i,
    {
        let ghost pre = names@;
        let ghost before = names_in(games@.take(i as int));
        insert_name(&mut names, &games[i].away_team);
        let ghost mid = names@;
        insert_name(&mut names, &games[i].home_team);
        let ghost after = names_in(games@.take(i + 1));
        proof {
            let away = games@[i as int].away_team@;
            let home = games@[i as int].home_team@;
            assert(games@.take(i + 1).drop_last() =~= games@.take(i as int));
            assert(after =~= before.push(away).push(home));
            assert(after[before.len() as int] == away);
            assert(after[before.len() as int + 1] == home);
            assert forall|k: int| 0 <= k < names@.len() implies after.contains(#[trigger] names@[k]@) by {
                let x = names@[k]@;
                if x != home && x != away {
                    let m = choose|m: int| 0 <= m < mid.len() && mid[m]@ == x;
                    assert(mid[m]@ == away || holds_name(pre, mid[m]@));
                    let p = choose|p: int| 0 <= p < pre.len() && pre[p]@ == x;
                    assert(before.contains(pre[p]@));
                    let j = choose|j: int| 0 <= j < before.len() && before[j] == pre[p]@;
                    assert(after[j] == before[j]);
                }
            }
            assert forall|j: int| 0 <= j < after.len() implies holds_name(names@, #[trigger] after[j]) by {
                if j < before.len() {
                    assert(after[j] == before[j]);
                    assert(holds_name(pre, before[j]));
                    let p = choose|p: int| 0 <= p < pre.len() && pre[p]@ == before[j];
                    assert(holds_name(mid, pre[p]@));
                    let m = choose|m: int| 0 <= m < mid.len() && mid[m]@ == pre[p]@;
                    assert(holds_name(names@, mid[m]@));
                } else if j == before.len() {
                    let m = choose|m: int| 0 <= m < mid.len() && mid[m]@ == away;
                    assert(holds_name(names@, mid[m]@));
                }
            }
        }
        i = i + 1;
    }
    assert(games@.take(i as int) =~= games@);
    names
}

} // verus!
