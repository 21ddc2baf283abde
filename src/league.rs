use vstd::prelude::*;

use crate::error::SimError;
use crate::stats::{draw_value, lemma_zero_spread_draws_mean, mean_of, Stats};

verus! {

/// The value that `m` draws for the deviate `z`.
pub open spec fn draw_of(m: Stats, z: int) -> int {
    draw_value(m@, m.spread_spec(), z)
}

/// Entities are paired by position: 0 with 1, 2 with 3, and so on.
pub open spec fn partner_of(i: int) -> int {
    if i % 2 == 0 {
        i + 1
    } else {
        i - 1
    }
}

/// Whether entity `i` wins its pairing in a trial where entity `k` draws
/// with deviate `zs[k]`: the strictly greater draw wins, and a tie goes to
/// the lower index.
pub open spec fn wins_pairing(models: Seq<Stats>, zs: Seq<i32>, i: int) -> bool {
    let mine = draw_of(models[i], zs[i] as int);
    let theirs = draw_of(models[partner_of(i)], zs[partner_of(i)] as int);
    if i % 2 == 0 {
        mine >= theirs
    } else {
        mine > theirs
    }
}

/// One win for entity `i` if it wins its pairing, else none.
pub open spec fn credit(models: Seq<Stats>, zs: Seq<i32>, i: int) -> int {
    if wins_pairing(models, zs, i) {
        1
    } else {
        0
    }
}

/// Wins of entity `i` over the trials whose deviates are `rows`.
pub open spec fn tally(models: Seq<Stats>, rows: Seq<Seq<i32>>, i: int) -> int
    decreases rows.len(),
{
    if rows.len() == 0 {
        0
    } else {
        tally(models, rows.drop_last(), i) + credit(models, rows.last(), i)
    }
}

/// Wins of the two entities of pairing `p`.
pub open spec fn pair_wins(w: Seq<u64>, p: int) -> int {
    w[2 * p] as int + w[2 * p + 1] as int
}

/// Sum of a tally.
pub open spec fn sum_wins(s: Seq<u64>) -> int
    decreases s.len(),
{
    if s.len() == 0 {
        0
    } else {
        sum_wins(s.drop_last()) + s.last() as int
    }
}

proof fn lemma_sum_wins_update(s: Seq<u64>, k: int, v: u64)
    requires
        0 <= k < s.len(),
    ensures
        sum_wins(s.update(k, v)) == sum_wins(s) - s[k] + v,
    decreases s.len(),
{
    let u = s.update(k, v);
    if k == s.len() - 1 {
        assert(u.drop_last() =~= s.drop_last());
    } else {
        assert(u.drop_last() =~= s.drop_last().update(k, v));
        lemma_sum_wins_update(s.drop_last(), k, v);
    }
}

proof fn lemma_sum_wins_zero(s: Seq<u64>)
    requires
        forall|i: int| 0 <= i < s.len() ==> s[i] == 0,
    ensures
        sum_wins(s) == 0,
    decreases s.len(),
{
    if s.len() > 0 {
        lemma_sum_wins_zero(s.drop_last());
    }
}

/// One entity's line in a report.
pub struct TeamReport {
    pub name: String,
    pub wins: u64,
    pub trials: u64,
    /// Share of trials won, in thousandths, rounded down.
    pub win_rate_permille: u64,
    pub average: i64,
    pub std_dev: u64,
    /// The spread the entity draws with, in units of `1 / SPREAD_SCALE`.
    pub spread: u64,
}

/// The deviates of each trial, as sequences.
pub open spec fn rows_of(deviates: Seq<Vec<i32>>) -> Seq<Seq<i32>> {
    deviates.map_values(|v: Vec<i32>| v@)
}

/// A simulation of head-to-head trials between paired entities, with a
/// running tally of each entity's wins.
pub struct League {
    teams: Vec<String>,
    team_stats: Vec<Stats>,
    team_wins: Vec<u64>,
    n: u64,
}

impl League {
    /// Entity names, in pairing order.
    pub closed spec fn names(&self) -> Seq<String> {
        self.teams@
    }

    /// Entity models, in pairing order.
    pub closed spec fn models(&self) -> Seq<Stats> {
        self.team_stats@
    }

    /// Trials won by each entity.
    pub closed spec fn wins(&self) -> Seq<u64> {
        self.team_wins@
    }

    /// Trials run so far.
    pub closed spec fn trials(&self) -> int {
        self.n as int
    }

    /// Pairings per trial: each entity has one partner.
    pub open spec fn pairs(&self) -> int {
        self.models().len() as int / 2
    }

    /// The three sequences describe the same entities.
    pub closed spec fn inv(&self) -> bool {
        self.teams@.len() == self.team_stats@.len() == self.team_wins@.len()
    }

    /// A league built by [`League::new`] and advanced by trials.
    pub open spec fn wf(&self) -> bool {
        &&& self.inv()
        &&& self.names().len() == self.models().len()
        &&& self.wins().len() == self.models().len()
        &&& self.models().len() >= 2
        &&& self.models().len() % 2 == 0
        &&& self.models().len() <= usize::MAX
        &&& forall|i: int| 0 <= i < self.models().len() ==> (#[trigger] self.models()[i]).wf()
        &&& forall|i: int| 0 <= i < self.wins().len() ==> #[trigger] self.wins()[i] <= self.trials()
        &&& forall|p: int| 0 <= p < self.pairs() ==> #[trigger] pair_wins(self.wins(), p) == self.trials()
        &&& sum_wins(self.wins()) == self.trials() * self.pairs()
    }

    /// Builds a league from `(name, model)` entities paired by position.
    /// Fails with `InvalidConfiguration` unless the count is positive and
    /// even.
    pub fn new(entities: Vec<(String, Stats)>) -> (r: Result<League, SimError>)
        requires
            forall|i: int| 0 <= i < entities.len() ==> (#[trigger] entities@[i]).1.wf(),
        ensures
            (entities.len() == 0 || entities.len() % 2 == 1) <==> r == Err::<League, SimError>(
                SimError::InvalidConfiguration,
            ),
            entities.len() > 0 && entities.len() % 2 == 0 ==> r is Ok,
            r matches Ok(l) ==> {
                &&& l.wf()
                &&& l.trials() == 0
                &&& l.models().len() == entities.len()
                &&& forall|i: int| 0 <= i < entities.len() ==> #[trigger] l.names()[i] == entities@[i].0
                &&& forall|i: int| 0 <= i < entities.len() ==> #[trigger] l.models()[i] == entities@[i].1
                &&& forall|i: int| 0 <= i < entities.len() ==> #[trigger] l.wins()[i] == 0
            },
    {
        if entities.len() == 0 || entities.len() % 2 == 1 {
            return Err(SimError::InvalidConfiguration);
        }
        let mut teams: Vec<String> = Vec::new();
        let mut team_stats: Vec<Stats> = Vec::new();
        let mut team_wins: Vec<u64> = Vec::new();
        let mut i: usize = 0;
        while i < entities.len()
            invariant
                i <= entities.len(),
                teams@.len() == i,
                team_stats@.len() == i,
                team_wins@.len() == i,
                forall|k: int| 0 <= k < i ==> #[trigger] teams@[k] == entities@[k].0,
                forall|k: int| 0 <= k < i ==> #[trigger] team_stats@[k] == entities@[k].1,
                forall|k: int| 0 <= k < i ==> #[trigger] team_wins@[k] == 0,
            decreases entities.len() - i,
        {
            teams.push(entities[i].0.clone());
            team_stats.push(entities[i].1);
            team_wins.push(0);
            i = i + 1;
        }
        let l = League { teams, team_stats, team_wins, n: 0 };
        proof {
            lemma_sum_wins_zero(l.team_wins@);
            assert forall|k: int| 0 <= k < l.models().len() implies (#[trigger] l.models()[k]).wf() by {
                assert(l.team_stats@[k] == entities@[k].1);
            }
            assert forall|p: int| 0 <= p < l.pairs() implies #[trigger] pair_wins(l.wins(), p) == 0 by {
                assert(l.team_wins@[2 * p] == 0);
                assert(l.team_wins@[2 * p + 1] == 0);
            }
            assert(l.wf());

        }
        Ok(l)
    }

    /// Runs one trial: every entity draws with its own deviate from
    /// `deviates`, and in each pairing the greater draw, or on a tie the
    /// lower index, is credited one win. The models are left as they are.
    pub fn run_trial(&mut self, deviates: &Vec<i32>)
        requires
            old(self).wf(),
            deviates.len() == old(self).models().len(),
            old(self).trials() < u64::MAX,
        ensures
            final(self).wf(),
            final(self).names() == old(self).names(),
            final(self).models() == old(self).models(),
            final(self).trials() == old(self).trials() + 1,
            final(self).wins().len() == old(self).wins().len(),
            forall|i: int|
                0 <= i < old(self).wins().len() ==> #[trigger] final(self).wins()[i]
                    == old(self).wins()[i] + credit(old(self).models(), deviates@, i),
    {
        let ghost pre = *self;
        let len: usize = self.team_stats.len();
        let mut p: usize = 0;
        while p < len
            invariant
                pre.wf(),
                deviates.len() == len == pre.models().len(),
                pre.trials() < u64::MAX,
                p % 2 == 0,
                p <= len,
                self.teams@ == pre.teams@,
                self.team_stats@ == pre.team_stats@,
                self.n == pre.n,
                self.team_wins@.len() == len,
                forall|k: int|
                    0 <= k < p ==> #[trigger] self.team_wins@[k] == pre.team_wins@[k] + credit(
                        pre.models(),
                        deviates@,
                        k,
                    ),
                forall|k: int| p <= k < len ==> #[trigger] self.team_wins@[k] == pre.team_wins@[k],
                sum_wins(self.team_wins@) == sum_wins(pre.team_wins@) + p / 2,
            decreases len - p,
        {
            assert(self.team_stats@[p as int].wf());
            assert(self.team_stats@[p + 1].wf());
            let a: i64 = self.team_stats[p].random_number(deviates[p]);
            let b: i64 = self.team_stats[p + 1].random_number(deviates[p + 1]);
            assert(pre.wins()[p as int] <= pre.trials());
            assert(pre.wins()[p + 1] <= pre.trials());
            let ghost before = self.team_wins@;
            assert(partner_of(p as int) == p + 1);
            assert(partner_of(p + 1) == p as int);
            if a >= b {
                let w: u64 = self.team_wins[p] + 1;
                self.team_wins.set(p, w);
                proof {
                    lemma_sum_wins_update(before, p as int, w);
                }
            } else {
                let w: u64 = self.team_wins[p + 1] + 1;
                self.team_wins.set(p + 1, w);
                proof {
                    lemma_sum_wins_update(before, p + 1, w);
                }
            }
            p = p + 2;
        }
        self.n = self.n + 1;
        proof {
            assert(sum_wins(self.team_wins@) == (pre.trials() + 1) * self.pairs()) by (nonlinear_arith)
                requires
                    sum_wins(self.team_wins@) == sum_wins(pre.team_wins@) + len as int / 2,
                    sum_wins(pre.team_wins@) == pre.trials() * self.pairs(),
                    self.pairs() == len as int / 2,
            ;
            assert forall|k: int| 0 <= k < self.wins().len() implies #[trigger] self.wins()[k]
                <= self.trials() by {
                assert(pre.wins()[k] <= pre.trials());
            }
            assert forall|q: int| 0 <= q < self.pairs() implies #[trigger] pair_wins(self.wins(), q)
                == self.trials() by {
                assert(pair_wins(pre.wins(), q) == pre.trials());
                assert((2 * q) % 2 == 0 && (2 * q + 1) % 2 == 1);
                assert(partner_of(2 * q) == 2 * q + 1);
                assert(partner_of(2 * q + 1) == 2 * q);
                assert(self.team_wins@[2 * q] == pre.team_wins@[2 * q] + credit(pre.models(), deviates@, 2 * q));
                assert(self.team_wins@[2 * q + 1] == pre.team_wins@[2 * q + 1] + credit(pre.models(), deviates@, 2 * q + 1));
            }
        }
    }

    /// Trials run so far.
    pub fn trials_run(&self) -> (r: u64)
        ensures
            r == self.trials(),
    {
        self.n
    }

    /// The number of entities.
    pub fn entity_count(&self) -> (r: usize)
        requires
            self.wf(),
        ensures
            r == self.models().len(),
    {
        self.team_stats.len()
    }

    /// Runs one more trial, as [`League::run_trial`] does, unless `cap`
    /// trials have already run; says whether it ran one.
    pub fn sim(&mut self, deviates: &Vec<i32>, cap: u64) -> (ran: bool)
        requires
            old(self).wf(),
            deviates.len() == old(self).models().len(),
        ensures
            final(self).wf(),
            ran == (old(self).trials() < cap),
            final(self).names() == old(self).names(),
            final(self).models() == old(self).models(),
            final(self).trials() == old(self).trials() + if ran { 1int } else { 0int },
            final(self).wins().len() == old(self).wins().len(),
            forall|i: int|
                0 <= i < old(self).wins().len() ==> #[trigger] final(self).wins()[i]
                    == old(self).wins()[i] + if ran { credit(old(self).models(), deviates@, i) } else { 0int },
    {
        if self.n < cap {
            self.run_trial(deviates);
            true
        } else {
            false
        }
    }

    /// Runs one trial for each row of `deviates`, in order.
    pub fn run_trials(&mut self, deviates: &Vec<Vec<i32>>)
        requires
            old(self).wf(),
            forall|t: int| 0 <= t < deviates.len() ==> (#[trigger] deviates@[t]).len() == old(self).models().len(),
            old(self).trials() + deviates.len() <= u64::MAX,
        ensures
            final(self).wf(),
            final(self).names() == old(self).names(),
            final(self).models() == old(self).models(),
            final(self).trials() == old(self).trials() + deviates.len(),
            sum_wins(final(self).wins()) == final(self).trials() * final(self).pairs(),
            final(self).wins().len() == old(self).wins().len(),
            forall|i: int|
                0 <= i < old(self).wins().len() ==> #[trigger] final(self).wins()[i]
                    == old(self).wins()[i] + tally(old(self).models(), rows_of(deviates@), i),
    {
        let ghost pre = *self;
        let ghost rows = rows_of(deviates@);
        let mut t: usize = 0;
        while t < deviates.len()
            invariant
                pre.wf(),
                self.wf(),
                t <= deviates.len(),
                rows == rows_of(deviates@),
                forall|u: int| 0 <= u < deviates.len() ==> (#[trigger] deviates@[u]).len() == pre.models().len(),
                pre.trials() + deviates.len() <= u64::MAX,
                self.names() == pre.names(),
                self.models() == pre.models(),
                self.trials() == pre.trials() + t,
                self.wins().len() == pre.wins().len(),
                forall|i: int|
                    0 <= i < pre.wins().len() ==> #[trigger] self.wins()[i] == pre.wins()[i] + tally(
                        pre.models(),
                        rows.take(t as int),
                        i,
                    ),
            decreases deviates.len() - t,
        {
            let ghost mid = *self;
            self.run_trial(&deviates[t]);
            proof {
                assert(rows.take(t + 1).drop_last() =~= rows.take(t as int));
                assert(rows.take(t + 1).last() == deviates@[t as int]@);
                assert forall|i: int| 0 <= i < pre.wins().len() implies #[trigger] self.wins()[i]
                    == pre.wins()[i] + tally(pre.models(), rows.take(t + 1), i) by {
                    assert(mid.wins()[i] == pre.wins()[i] + tally(pre.models(), rows.take(t as int), i));
                }
            }
            t = t + 1;
        }
        assert(rows.take(t as int) =~= rows);
    }

    /// The current report: for each entity in order, its name, wins, the
    /// trial count, its win rate and its model's mean and spread. Fails with
    /// `InvalidState` before any trial has run.
    pub fn snapshot(&self) -> (r: Result<Vec<TeamReport>, SimError>)
        requires
            self.wf(),
        ensures
            self.trials() == 0 <==> r is Err,
            r matches Err(e) ==> e == SimError::InvalidState,
            r matches Ok(v) ==> {
                &&& v.len() == self.models().len()
                &&& forall|i: int|
                    0 <= i < v.len() ==> {
                        let line = #[trigger] v@[i];
                        &&& line.name == self.names()[i]
                        &&& line.wins == self.wins()[i]
                        &&& line.trials == self.trials()
                        &&& line.win_rate_permille == line.wins * 1000 / self.trials()
                        &&& line.wins <= line.trials
                        &&& line.win_rate_permille <= 1000
                        &&& line.average == mean_of(self.models()[i]@)
                        &&& line.std_dev == self.models()[i].std_dev_spec()
                        &&& line.spread == self.models()[i].spread_spec()
                    }
            },
    {
        if self.n == 0 {
            return Err(SimError::InvalidState);
        }
        let mut v: Vec<TeamReport> = Vec::new();
        let mut i: usize = 0;
        while i < self.team_stats.len()
            invariant
                self.wf(),
                self.n > 0,
                i <= self.team_stats@.len(),
                v.len() == i,
                forall|k: int|
                    0 <= k < i ==> {
                        let line = #[trigger] v@[k];
                        &&& line.name == self.names()[k]
                        &&& line.wins == self.wins()[k]
                        &&& line.trials == self.trials()
                        &&& line.win_rate_permille == line.wins * 1000 / self.trials()
                        &&& line.wins <= line.trials
                        &&& line.win_rate_permille <= 1000
                        &&& line.average == mean_of(self.models()[k]@)
                        &&& line.std_dev == self.models()[k].std_dev_spec()
                        &&& line.spread == self.models()[k].spread_spec()
                    },
            decreases self.team_stats@.len() - i,
        {
            let st: Stats = self.team_stats[i];
            assert(self.models()[i as int].wf());
            let wins: u64 = self.team_wins[i];
            assert(self.wins()[i as int] <= self.trials());
            let rate: u128 = (wins as u128) * 1000 / (self.n as u128);
            assert(rate <= 1000) by (nonlinear_arith)
                requires
                    rate == (wins as int) * 1000 / (self.n as int),
                    wins <= self.n,
                    self.n > 0,
            ;
            v.push(
                TeamReport {
                    name: self.teams[i].clone(),
                    wins,
                    trials: self.n,
                    win_rate_permille: rate as u64,
                    average: st.average(),
                    std_dev: st.std_deviation(),
                    spread: st.spread(),
                },
            );
            i = i + 1;
        }
        Ok(v)
    }
}

/// In a league of two entities whose models have no spread, the one with
/// the higher mean wins every trial, whatever the deviates: its tally over
/// any trials equals their number, and its opponent's stays at zero.
pub proof fn lemma_zero_spread_favourite_wins_all(l: League, rows: Seq<Seq<i32>>, i: int)
    requires
        l.wf(),
        l.models().len() == 2,
        0 <= i < 2,
        l.models()[0].spread_spec() == 0,
        l.models()[1].spread_spec() == 0,
        mean_of(l.models()[i]@) > mean_of(l.models()[1 - i]@),
        forall|t: int| 0 <= t < rows.len() ==> (#[trigger] rows[t]).len() == 2,
    ensures
        tally(l.models(), rows, i) == rows.len(),
        tally(l.models(), rows, 1 - i) == 0,
    decreases rows.len(),
{
    if rows.len() > 0 {
        let zs = rows.last();
        let m = l.models();
        assert(m[0].wf() && m[1].wf());
        lemma_zero_spread_draws_mean(m[0]@, zs[0] as int);
        lemma_zero_spread_draws_mean(m[1]@, zs[1] as int);
        assert(rows[rows.len() - 1].len() == 2);
        assert forall|t: int| 0 <= t < rows.drop_last().len() implies (#[trigger] rows.drop_last()[t]).len() == 2 by {
            assert(rows[t].len() == 2);
        }
        lemma_zero_spread_favourite_wins_all(l, rows.drop_last(), i);
    }
}

} // verus!
