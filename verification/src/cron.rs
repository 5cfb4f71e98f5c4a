//! The schedule of periodic jobs. Each tick hands out the tasks that have come due and schedules
//! every configured job that has no task waiting: its next run falls one interval from now, plus a
//! random jitter of less than a fifth of the interval.
use vstd::prelude::*;

use crate::date::{chrono_accepts_millis, max_duration_seconds, StoryDate, StoryDuration};
use crate::tagger::{assoc_insert, key_index, keys_of, string_key_index, string_keys, strs_view};

verus! {

#[derive(Clone, Copy, Debug)]
pub enum CronInterval {
    Week,
    Day,
    Hour,
    Minute,
    Second,
}

/// The seconds in one unit of the interval.
pub open spec fn interval_seconds(i: CronInterval) -> int {
    match i {
        CronInterval::Week => 604_800,
        CronInterval::Day => 86_400,
        CronInterval::Hour => 3_600,
        CronInterval::Minute => 60,
        CronInterval::Second => 1,
    }
}

impl CronInterval {
    /// The length of `count` units.
    pub fn as_duration(&self, count: usize) -> (r: StoryDuration)
        requires
            count * interval_seconds(*self) <= max_duration_seconds(),
        ensures
            r.millis() == count * interval_seconds(*self) * 1000,
    {
        let c = count as i64;
        match *self {
            CronInterval::Second => StoryDuration::seconds(c),
            CronInterval::Minute => StoryDuration::minutes(c),
            CronInterval::Hour => StoryDuration::hours(c),
            CronInterval::Day => StoryDuration::days(c),
            CronInterval::Week => StoryDuration::weeks(c),
        }
    }
}

/// A job: the URL it fetches, and how often (a count of interval units).
pub struct CronJob {
    pub url: String,
    pub interval: (usize, CronInterval),
}

/// The configured jobs, by name.
#[derive(Default)]
pub struct CronConfig {
    pub jobs: Vec<(String, CronJob)>,
}

/// A scheduled run of a job.
pub struct CronTask {
    pub name: String,
    pub url: String,
    pub next: StoryDate,
}

/// The queue of scheduled runs.
pub struct Cron {
    queue: Vec<CronTask>,
}

pub struct CronJobView {
    pub url: Seq<char>,
    pub count: int,
    pub unit: CronInterval,
}

pub struct CronTaskView {
    pub name: Seq<char>,
    pub url: Seq<char>,
    pub next: int,
}

pub open spec fn job_view(j: CronJob) -> CronJobView {
    CronJobView { url: j.url@, count: j.interval.0 as int, unit: j.interval.1 }
}

pub open spec fn jobs_view(v: Seq<(String, CronJob)>) -> Seq<(Seq<char>, CronJobView)> {
    v.map_values(|e: (String, CronJob)| (e.0@, job_view(e.1)))
}

pub open spec fn task_view(t: CronTask) -> CronTaskView {
    CronTaskView { name: t.name@, url: t.url@, next: t.next.millis() }
}

pub open spec fn tasks_view(v: Seq<CronTask>) -> Seq<CronTaskView> {
    v.map_values(|t: CronTask| task_view(t))
}

impl Cron {
    /// The scheduled runs, in queue order.
    pub closed spec fn queue_view(&self) -> Seq<CronTaskView> {
        tasks_view(self.queue@)
    }
}

/// A job's interval, in milliseconds.
pub open spec fn job_millis(j: CronJobView) -> int {
    j.count * interval_seconds(j.unit) * 1000
}

/// The bound on a job's jitter: a fifth of its interval, in whole milliseconds.
pub open spec fn jitter_bound(j: CronJobView) -> int {
    job_millis(j) * 20 / 100
}

/// A job that can be scheduled: its interval fits a duration, a fifth of it is at least a
/// millisecond (the jitter is drawn from an empty range otherwise), and twenty times it fits an
/// `i64`.
pub open spec fn job_ok(j: CronJobView) -> bool {
    &&& j.count * interval_seconds(j.unit) <= max_duration_seconds()
    &&& job_millis(j) * 20 <= i64::MAX
    &&& jitter_bound(j) > 0
}

pub open spec fn config_ok(jobs: Seq<(Seq<char>, CronJobView)>) -> bool {
    forall|i: int| 0 <= i < jobs.len() ==> job_ok(#[trigger] jobs[i].1)
}

/// The URLs of the tasks whose next run is after `now`, in queue order: the tasks a tick hands out.
pub open spec fn ready_urls(q: Seq<CronTaskView>, now: int) -> Seq<Seq<char>>
    decreases q.len(),
{
    if q.len() == 0 {
        Seq::empty()
    } else if q.last().next > now {
        ready_urls(q.drop_last(), now).push(q.last().url)
    } else {
        ready_urls(q.drop_last(), now)
    }
}

/// The tasks whose next run is not after `now`: the tasks a tick keeps.
pub open spec fn kept_tasks(q: Seq<CronTaskView>, now: int) -> Seq<CronTaskView>
    decreases q.len(),
{
    if q.len() == 0 {
        Seq::empty()
    } else if q.last().next > now {
        kept_tasks(q.drop_last(), now)
    } else {
        kept_tasks(q.drop_last(), now).push(q.last())
    }
}

/// The configured jobs by name: a later job of a name replaces an earlier one in its place.
pub open spec fn job_table(jobs: Seq<(Seq<char>, CronJobView)>) -> Seq<(Seq<char>, CronJobView)>
    decreases jobs.len(),
{
    if jobs.len() == 0 {
        Seq::empty()
    } else {
        assoc_insert(job_table(jobs.drop_last()), jobs.last().0, jobs.last().1)
    }
}

/// Whether some task has the name.
pub open spec fn has_task(tasks: Seq<CronTaskView>, name: Seq<char>) -> bool {
    exists|i: int| 0 <= i < tasks.len() && #[trigger] tasks[i].name == name
}

/// The jobs of the table that no kept task stands for, in table order.
pub open spec fn unscheduled(table: Seq<(Seq<char>, CronJobView)>, kept: Seq<CronTaskView>) -> Seq<(Seq<char>, CronJobView)>
    decreases table.len(),
{
    if table.len() == 0 {
        Seq::empty()
    } else if has_task(kept, table.last().0) {
        unscheduled(table.drop_last(), kept)
    } else {
        unscheduled(table.drop_last(), kept).push(table.last())
    }
}

/// The jobs a tick at `now` schedules.
pub open spec fn due_jobs(q: Seq<CronTaskView>, jobs: Seq<(Seq<char>, CronJobView)>, now: int) -> Seq<(Seq<char>, CronJobView)> {
    unscheduled(job_table(jobs), kept_tasks(q, now))
}

/// Jitters that a tick may draw for the jobs: each at least 0 and below the job's bound.
pub open spec fn jitters_ok(jobs: Seq<(Seq<char>, CronJobView)>, jitters: Seq<int>) -> bool {
    &&& jitters.len() == jobs.len()
    &&& forall|i: int| 0 <= i < jobs.len() ==> 0 <= #[trigger] jitters[i] < jitter_bound(jobs[i].1)
}

/// The tasks for the jobs, each one interval and its jitter after its clock reading; a job whose
/// next run `chrono` cannot represent gets none.
pub open spec fn new_tasks(nows: Seq<int>, jobs: Seq<(Seq<char>, CronJobView)>, jitters: Seq<int>) -> Seq<CronTaskView>
    decreases jobs.len(),
{
    if jobs.len() == 0 {
        Seq::empty()
    } else {
        let rest = new_tasks(nows.take(jobs.len() - 1), jobs.drop_last(), jitters.take(jobs.len() - 1));
        let (name, job) = jobs.last();
        let after = nows[jobs.len() - 1] + job_millis(job);
        let next = after + jitters[jobs.len() - 1];
        if chrono_accepts_millis(after) && chrono_accepts_millis(next) {
            rest.push(CronTaskView { name, url: job.url, next })
        } else {
            rest
        }
    }
}

/// What a tick hands out and the queue it leaves, where the clock read `now` for the tasks, then
/// `nows` for the jobs it schedules, and it drew `jitters`.
pub open spec fn tick_outcome(
    q: Seq<CronTaskView>,
    jobs: Seq<(Seq<char>, CronJobView)>,
    now: int,
    nows: Seq<int>,
    jitters: Seq<int>,
) -> (Seq<Seq<char>>, Seq<CronTaskView>) {
    (ready_urls(q, now), kept_tasks(q, now) + new_tasks(nows, due_jobs(q, jobs, now), jitters))
}

/// Clock readings and jitters that a tick may meet when it schedules the jobs.
pub open spec fn draws_ok(jobs: Seq<(Seq<char>, CronJobView)>, nows: Seq<int>, jitters: Seq<int>) -> bool {
    &&& nows.len() == jobs.len()
    &&& jitters_ok(jobs, jitters)
}

/// `rand::thread_rng().gen_range(0..bound)`: a number drawn at random, at least 0 and below
/// `bound`. Nothing more is said of it: it rests on chance.
#[verifier::external_body]
fn random_below(bound: i64) -> (r: i64)
    requires
        bound > 0,
    ensures
        0 <= r < bound,
{
    rand::Rng::gen_range(&mut rand::thread_rng(), 0..bound)
}

proof fn lemma_table_ok(jobs: Seq<(Seq<char>, CronJobView)>)
    requires
        config_ok(jobs),
    ensures
        config_ok(job_table(jobs)),
    decreases jobs.len(),
{
    if jobs.len() > 0 {
        let d = jobs.drop_last();
        assert forall|i: int| 0 <= i < d.len() implies job_ok(#[trigger] d[i].1) by {
            assert(d[i] == jobs[i]);
        }
        lemma_table_ok(d);
        let t = job_table(d);
        crate::tagger::lemma_assoc_insert_values(t, jobs.last().0, jobs.last().1);
        let t2 = job_table(jobs);
        assert forall|i: int| 0 <= i < t2.len() implies job_ok(#[trigger] t2[i].1) by {
            assert(t2[i].1 == jobs.last().1 || (i < t.len() && t2[i] == t[i]));
        }
    }
}

proof fn lemma_unscheduled_ok(table: Seq<(Seq<char>, CronJobView)>, kept: Seq<CronTaskView>)
    requires
        config_ok(table),
    ensures
        config_ok(unscheduled(table, kept)),
    decreases table.len(),
{
    if table.len() > 0 {
        let d = table.drop_last();
        assert forall|i: int| 0 <= i < d.len() implies job_ok(#[trigger] d[i].1) by {
            assert(d[i] == table[i]);
        }
        lemma_unscheduled_ok(d, kept);
        let u = unscheduled(table, kept);
        assert forall|i: int| 0 <= i < u.len() implies job_ok(#[trigger] u[i].1) by {
            if has_task(kept, table.last().0) {
            } else {
                let ud = unscheduled(d, kept);
                if i < ud.len() {
                    assert(u[i] == ud[i]);
                } else {
                    assert(u[i] == table.last());
                }
            }
        }
    }
}

fn copy_job(j: &CronJob) -> (r: CronJob)
    ensures
        job_view(r) == job_view(*j),
{
    CronJob { url: j.url.clone(), interval: j.interval }
}

fn job_table_exec(jobs: &Vec<(String, CronJob)>) -> (r: Vec<(String, CronJob)>)
    ensures
        jobs_view(r@) == job_table(jobs_view(jobs@)),
{
    let ghost jv = jobs_view(jobs@);
    let mut t: Vec<(String, CronJob)> = Vec::new();
    let mut i: usize = 0;
    assert(jv.take(0) =~= Seq::<(Seq<char>, CronJobView)>::empty());
    assert(jobs_view(t@) =~= Seq::<(Seq<char>, CronJobView)>::empty());
    while i < jobs.len()
        invariant
            i <= jobs@.len(),
            jv == jobs_view(jobs@),
            jv.len() == jobs@.len(),
            jobs_view(t@) == job_table(jv.take(i as int)),
        decreases jobs@.len() - i,
    {
        assert(jv.take(i + 1).drop_last() =~= jv.take(i as int));
        assert(jv.take(i + 1).last() == jv[i as int]);
        let k = jobs[i].0.clone();
        let j = copy_job(&jobs[i].1);
        let ghost kv = k@;
        let ghost jview = job_view(j);
        assert(keys_of(jobs_view(t@)) =~= string_keys(t@));
        let ghost before = jobs_view(t@);
        match string_key_index(&t, &k) {
            Some(x) => {
                t.set(x, (k, j));
                assert(jobs_view(t@) =~= before.update(x as int, (kv, jview)));
            },
            None => {
                t.push((k, j));
                assert(jobs_view(t@) =~= before.push((kv, jview)));
            },
        }
        i = i + 1;
    }
    assert(jv.take(jobs@.len() as int) =~= jv);
    t
}

fn has_task_exec(tasks: &Vec<CronTask>, name: &String) -> (r: bool)
    ensures
        r == has_task(tasks_view(tasks@), name@),
{
    let ghost tv = tasks_view(tasks@);
    let mut i: usize = 0;
    while i < tasks.len()
        invariant
            i <= tasks@.len(),
            tv == tasks_view(tasks@),
            tv.len() == tasks@.len(),
            forall|k: int| 0 <= k < i ==> tv[k].name != name@,
        decreases tasks@.len() - i,
    {
        if tasks[i].name == *name {
            assert(tv[i as int].name == name@);
            return true;
        }
        i = i + 1;
    }
    false
}

fn copy_task(t: &CronTask) -> (r: CronTask)
    ensures
        task_view(r) == task_view(*t),
{
    CronTask { name: t.name.clone(), url: t.url.clone(), next: t.next }
}

impl Cron {
    /// Hands out the tasks whose next run is after `now` and keeps the others; returns the URLs
    /// handed out and the configured jobs that no kept task stands for.
    pub fn take_due(&mut self, config: &CronConfig, now: StoryDate) -> (r: (Vec<String>, Vec<(String, CronJob)>))
        ensures
            strs_view(r.0@) == ready_urls(old(self).queue_view(), now.millis()),
            final(self).queue_view() == kept_tasks(old(self).queue_view(), now.millis()),
            jobs_view(r.1@) == due_jobs(old(self).queue_view(), jobs_view(config.jobs@), now.millis()),
    {
        let mut old_q: Vec<CronTask> = Vec::new();
        std::mem::swap(&mut old_q, &mut self.queue);
        let ghost q0 = tasks_view(old_q@);
        let ghost n = now.millis();
        let mut ready: Vec<String> = Vec::new();
        let ghost mut k: int = 0;
        assert(q0.skip(0) =~= q0);
        assert(q0.take(0) =~= Seq::<CronTaskView>::empty());
        assert(strs_view(ready@) =~= Seq::<Seq<char>>::empty());
        assert(tasks_view(self.queue@) =~= Seq::<CronTaskView>::empty());
        while old_q.len() > 0
            invariant
                0 <= k <= q0.len(),
                n == now.millis(),
                tasks_view(old_q@) == q0.skip(k),
                strs_view(ready@) == ready_urls(q0.take(k), n),
                tasks_view(self.queue@) == kept_tasks(q0.take(k), n),
            decreases old_q@.len(),
        {
            let ghost before_q = old_q@;
            assert(tasks_view(before_q).len() == before_q.len());
            assert(q0.skip(k)[0] == q0[k]);
            let t = old_q.remove(0);
            assert(old_q@ =~= before_q.skip(1));
            assert(tasks_view(old_q@) =~= tasks_view(before_q).skip(1));
            assert(tasks_view(old_q@) =~= q0.skip(k + 1));
            assert(q0.take(k + 1).drop_last() =~= q0.take(k));
            assert(q0.take(k + 1).last() == task_view(t));
            if t.next.is_after(&now) {
                let ghost rb = strs_view(ready@);
                let ghost u = t.url@;
                ready.push(t.url);
                assert(strs_view(ready@) =~= rb.push(u));
            } else {
                let ghost qb = tasks_view(self.queue@);
                let ghost tv = task_view(t);
                self.queue.push(t);
                assert(tasks_view(self.queue@) =~= qb.push(tv));
            }
            proof {
                k = k + 1;
            }
        }
        assert(q0.skip(k).len() == 0);
        assert(q0.take(k) =~= q0);
        let table = job_table_exec(&config.jobs);
        let ghost tv = jobs_view(table@);
        let ghost kept = tasks_view(self.queue@);
        let mut due: Vec<(String, CronJob)> = Vec::new();
        let mut i: usize = 0;
        assert(tv.take(0) =~= Seq::<(Seq<char>, CronJobView)>::empty());
        assert(jobs_view(due@) =~= Seq::<(Seq<char>, CronJobView)>::empty());
        while i < table.len()
            invariant
                i <= table@.len(),
                tv == jobs_view(table@),
                tv.len() == table@.len(),
                kept == tasks_view(self.queue@),
                jobs_view(due@) == unscheduled(tv.take(i as int), kept),
            decreases table@.len() - i,
        {
            assert(tv.take(i + 1).drop_last() =~= tv.take(i as int));
            assert(tv.take(i + 1).last() == tv[i as int]);
            if !has_task_exec(&self.queue, &table[i].0) {
                let ghost db = jobs_view(due@);
                let entry = (table[i].0.clone(), copy_job(&table[i].1));
                let ghost ev = (entry.0@, job_view(entry.1));
                due.push(entry);
                assert(jobs_view(due@) =~= db.push(ev));
            }
            i = i + 1;
        }
        assert(tv.take(table@.len() as int) =~= tv);
        (ready, due)
    }

    /// Hands out the tasks that have come due and schedules every configured job that has no task
    /// waiting, one interval and a random jitter (below a fifth of the interval) from the clock's
    /// reading; a job whose next run `chrono` cannot represent is left unscheduled.
    pub fn tick(&mut self, config: &CronConfig) -> (r: Vec<String>)
        requires
            config_ok(jobs_view(config.jobs@)),
        ensures
            exists|now: int, nows: Seq<int>, jitters: Seq<int>|
                draws_ok(due_jobs(old(self).queue_view(), jobs_view(config.jobs@), now), nows, jitters)
                    && #[trigger] tick_outcome(old(self).queue_view(), jobs_view(config.jobs@), now, nows, jitters)
                    == (strs_view(r@), final(self).queue_view()),
    {
        let ghost q0 = self.queue_view();
        let ghost jobs = jobs_view(config.jobs@);
        let now = StoryDate::now();
        let (ready, due) = self.take_due(config, now);
        let ghost dv = jobs_view(due@);
        let ghost kept = self.queue_view();
        proof {
            lemma_table_ok(jobs);
            lemma_unscheduled_ok(job_table(jobs), kept);
        }
        let ghost mut nows: Seq<int> = Seq::empty();
        let ghost mut js: Seq<int> = Seq::empty();
        let mut i: usize = 0;
        assert(dv.take(0) =~= Seq::<(Seq<char>, CronJobView)>::empty());
        assert(kept + Seq::<CronTaskView>::empty() =~= kept);
        while i < due.len()
            invariant
                i <= due@.len(),
                dv == jobs_view(due@),
                dv.len() == due@.len(),
                config_ok(dv),
                nows.len() == i,
                js.len() == i,
                jitters_ok(dv.take(i as int), js),
                self.queue_view() == kept + new_tasks(nows, dv.take(i as int), js),
            decreases due@.len() - i,
        {
            assert(dv[i as int] == (due@[i as int].0@, job_view(due@[i as int].1)));
            assert(job_ok(dv[i as int].1));
            let t_now = StoryDate::now();
            let d = due[i].1.interval.1.as_duration(due[i].1.interval.0);
            let bound = d.num_milliseconds() * 20 / 100;
            let j = random_below(bound);
            let ghost nows1 = nows.push(t_now.millis());
            let ghost js1 = js.push(j as int);
            let ghost take1 = dv.take(i + 1);
            proof {
                assert(take1.drop_last() =~= dv.take(i as int));
                assert(take1.last() == dv[i as int]);
                assert(nows1.take(i as int) =~= nows);
                assert(js1.take(i as int) =~= js);
                assert(nows1[i as int] == t_now.millis());
                assert(js1[i as int] == j);
                assert forall|x: int| 0 <= x < take1.len() implies 0 <= #[trigger] js1[x] < jitter_bound(take1[x].1) by {
                    if x < i {
                        assert(js1[x] == js[x]);
                        assert(take1[x] == dv.take(i as int)[x]);
                    }
                }
            }
            let ghost qb = self.queue_view();
            match t_now.checked_add(d) {
                Some(after) => match after.checked_add(StoryDuration::milliseconds(j)) {
                    Some(next) => {
                        let task = CronTask { name: due[i].0.clone(), url: due[i].1.url.clone(), next };
                        let ghost tv = task_view(task);
                        self.queue.push(task);
                        assert(self.queue_view() =~= qb.push(tv));
                        assert(kept + new_tasks(nows, dv.take(i as int), js).push(tv) =~= qb.push(tv));
                    },
                    None => {},
                },
                None => {},
            }
            proof {
                nows = nows1;
                js = js1;
            }
            i = i + 1;
        }
        assert(dv.take(due@.len() as int) =~= dv);
        assert(tick_outcome(q0, jobs, now.millis(), nows, js) == (strs_view(ready@), self.queue_view()));
        ready
    }

    /// A schedule with every configured job scheduled, as by a tick on an empty queue.
    pub fn initialize(config: &CronConfig) -> (r: Cron)
        requires
            config_ok(jobs_view(config.jobs@)),
        ensures
            exists|now: int, nows: Seq<int>, jitters: Seq<int>|
                draws_ok(due_jobs(Seq::empty(), jobs_view(config.jobs@), now), nows, jitters)
                    && #[trigger] tick_outcome(Seq::empty(), jobs_view(config.jobs@), now, nows, jitters).1
                    == r.queue_view(),
    {
        let mut new = Cron { queue: Vec::new() };
        let ghost empty = new.queue_view();
        assert(empty =~= Seq::<CronTaskView>::empty());
        let ready = new.tick(config);
        proof {
            let jobs = jobs_view(config.jobs@);
            let (n, nows, js) = choose|n: int, nows: Seq<int>, js: Seq<int>|
                draws_ok(due_jobs(empty, jobs, n), nows, js) && #[trigger] tick_outcome(empty, jobs, n, nows, js) == (
                    strs_view(ready@),
                    new.queue_view(),
                );
            assert(draws_ok(due_jobs(Seq::empty(), jobs, n), nows, js));
            assert(tick_outcome(Seq::empty(), jobs, n, nows, js).1 == new.queue_view());
        }
        new
    }

    /// A copy of the scheduled runs.
    pub fn inspect(&self) -> (r: Vec<CronTask>)
        ensures
            tasks_view(r@) == self.queue_view(),
    {
        let mut out: Vec<CronTask> = Vec::new();
        let mut i: usize = 0;
        while i < self.queue.len()
            invariant
                i <= self.queue@.len(),
                tasks_view(out@) == tasks_view(self.queue@).take(i as int),
            decreases self.queue@.len() - i,
        {
            let ghost ob = tasks_view(out@);
            let t = copy_task(&self.queue[i]);
            let ghost tv = task_view(t);
            assert(tasks_view(self.queue@)[i as int] == task_view(self.queue@[i as int]));
            out.push(t);
            assert(tasks_view(out@) =~= ob.push(tv));
            assert(tasks_view(out@) =~= tasks_view(self.queue@).take(i + 1));
            i = i + 1;
        }
        assert(tasks_view(self.queue@).take(self.queue@.len() as int) =~= tasks_view(self.queue@));
        out
    }
}

/// No two tasks of the queue are for the same job.
pub open spec fn names_distinct(q: Seq<CronTaskView>) -> bool {
    forall|i: int, j: int| 0 <= i < j < q.len() ==> q[i].name != q[j].name
}

/// No two jobs of the list have the same name.
pub open spec fn keys_distinct(t: Seq<(Seq<char>, CronJobView)>) -> bool {
    forall|i: int, j: int| 0 <= i < j < t.len() ==> t[i].0 != t[j].0
}

/// Whether some job of the list has the name.
pub open spec fn has_job(t: Seq<(Seq<char>, CronJobView)>, name: Seq<char>) -> bool {
    exists|i: int| 0 <= i < t.len() && #[trigger] t[i].0 == name
}

proof fn lemma_kept(q: Seq<CronTaskView>, n: int)
    ensures
        names_distinct(q) ==> names_distinct(kept_tasks(q, n)),
        forall|name: Seq<char>| has_task(kept_tasks(q, n), name) ==> has_task(q, name),
    decreases q.len(),
{
    if q.len() > 0 {
        let dl = q.drop_last();
        lemma_kept(dl, n);
        let k = kept_tasks(dl, n);
        assert forall|name: Seq<char>| has_task(dl, name) implies has_task(q, name) by {
            let i = choose|i: int| 0 <= i < dl.len() && #[trigger] dl[i].name == name;
            assert(q[i] == dl[i]);
        }
        if names_distinct(q) {
            assert forall|i: int, j: int| 0 <= i < j < dl.len() implies dl[i].name != dl[j].name by {
                assert(dl[i] == q[i] && dl[j] == q[j]);
            }
        }
        if q.last().next <= n {
            let kk = k.push(q.last());
            assert forall|name: Seq<char>| has_task(kk, name) implies has_task(q, name) by {
                let i = choose|i: int| 0 <= i < kk.len() && #[trigger] kk[i].name == name;
                if i == k.len() {
                    assert(q[q.len() - 1].name == name);
                } else {
                    assert(kk[i] == k[i]);
                    assert(has_task(k, name));
                }
            }
            if names_distinct(q) {
                if has_task(k, q.last().name) {
                    assert(has_task(dl, q.last().name));
                    let i = choose|i: int| 0 <= i < dl.len() && #[trigger] dl[i].name == q.last().name;
                    assert(q[i] == dl[i]);
                    assert(q[i].name != q[q.len() - 1].name);
                }
                assert forall|i: int, j: int| 0 <= i < j < kk.len() implies kk[i].name != kk[j].name by {
                    if j == k.len() {
                        assert(kk[i] == k[i]);
                        if kk[i].name == q.last().name {
                            assert(has_task(k, q.last().name));
                        }
                    } else {
                        assert(kk[i] == k[i] && kk[j] == k[j]);
                    }
                }
            }
        }
    }
}

proof fn lemma_table_distinct(jobs: Seq<(Seq<char>, CronJobView)>)
    ensures
        keys_distinct(job_table(jobs)),
    decreases jobs.len(),
{
    if jobs.len() > 0 {
        let dl = jobs.drop_last();
        lemma_table_distinct(dl);
        let t = job_table(dl);
        let (k, v) = jobs.last();
        crate::tagger::lemma_key_index(keys_of(t), k);
        let t2 = job_table(jobs);
        match key_index(keys_of(t), k) {
            Some(i) => {
                assert(keys_of(t)[i] == t[i].0);
                assert forall|a: int, b: int| 0 <= a < b < t2.len() implies t2[a].0 != t2[b].0 by {
                    assert(t2[a].0 == t[a].0);
                    assert(t2[b].0 == t[b].0);
                }
            },
            None => {
                assert forall|a: int, b: int| 0 <= a < b < t2.len() implies t2[a].0 != t2[b].0 by {
                    if b == t.len() {
                        assert(t2[a] == t[a]);
                        assert(keys_of(t)[a] == t[a].0);
                    } else {
                        assert(t2[a] == t[a] && t2[b] == t[b]);
                    }
                }
            },
        }
    }
}

proof fn lemma_unscheduled(table: Seq<(Seq<char>, CronJobView)>, kept: Seq<CronTaskView>)
    ensures
        keys_distinct(table) ==> keys_distinct(unscheduled(table, kept)),
        forall|i: int| 0 <= i < unscheduled(table, kept).len() ==> !has_task(kept, #[trigger] unscheduled(table, kept)[i].0),
        forall|name: Seq<char>| has_job(unscheduled(table, kept), name) ==> has_job(table, name),
    decreases table.len(),
{
    if table.len() > 0 {
        let dl = table.drop_last();
        lemma_unscheduled(dl, kept);
        let u = unscheduled(dl, kept);
        assert forall|name: Seq<char>| has_job(dl, name) implies has_job(table, name) by {
            let i = choose|i: int| 0 <= i < dl.len() && #[trigger] dl[i].0 == name;
            assert(table[i] == dl[i]);
        }
        if keys_distinct(table) {
            assert forall|i: int, j: int| 0 <= i < j < dl.len() implies dl[i].0 != dl[j].0 by {
                assert(dl[i] == table[i] && dl[j] == table[j]);
            }
        }
        if !has_task(kept, table.last().0) {
            let uu = u.push(table.last());
            assert forall|i: int| 0 <= i < uu.len() implies !has_task(kept, #[trigger] uu[i].0) by {
                if i < u.len() {
                    assert(uu[i] == u[i]);
                }
            }
            assert forall|name: Seq<char>| has_job(uu, name) implies has_job(table, name) by {
                let i = choose|i: int| 0 <= i < uu.len() && #[trigger] uu[i].0 == name;
                if i == u.len() {
                    assert(table[table.len() - 1].0 == name);
                } else {
                    assert(uu[i] == u[i]);
                    assert(has_job(u, name));
                }
            }
            if keys_distinct(table) {
                if has_job(u, table.last().0) {
                    assert(has_job(dl, table.last().0));
                    let i = choose|i: int| 0 <= i < dl.len() && #[trigger] dl[i].0 == table.last().0;
                    assert(table[i] == dl[i]);
                }
                assert forall|i: int, j: int| 0 <= i < j < uu.len() implies uu[i].0 != uu[j].0 by {
                    if j == u.len() {
                        assert(uu[i] == u[i]);
                        if uu[i].0 == table.last().0 {
                            assert(has_job(u, table.last().0));
                        }
                    } else {
                        assert(uu[i] == u[i] && uu[j] == u[j]);
                    }
                }
            }
        }
    }
}

proof fn lemma_new_tasks(nows: Seq<int>, jobs: Seq<(Seq<char>, CronJobView)>, jitters: Seq<int>)
    ensures
        keys_distinct(jobs) ==> names_distinct(new_tasks(nows, jobs, jitters)),
        forall|name: Seq<char>| has_task(new_tasks(nows, jobs, jitters), name) ==> has_job(jobs, name),
    decreases jobs.len(),
{
    if jobs.len() > 0 {
        let dl = jobs.drop_last();
        let nn = nows.take(jobs.len() - 1);
        let jj = jitters.take(jobs.len() - 1);
        lemma_new_tasks(nn, dl, jj);
        let rest = new_tasks(nn, dl, jj);
        let r = new_tasks(nows, jobs, jitters);
        assert forall|name: Seq<char>| has_job(dl, name) implies has_job(jobs, name) by {
            let i = choose|i: int| 0 <= i < dl.len() && #[trigger] dl[i].0 == name;
            assert(jobs[i] == dl[i]);
        }
        if keys_distinct(jobs) {
            assert forall|i: int, j: int| 0 <= i < j < dl.len() implies dl[i].0 != dl[j].0 by {
                assert(dl[i] == jobs[i] && dl[j] == jobs[j]);
            }
        }
        if r != rest {
            assert forall|name: Seq<char>| has_task(r, name) implies has_job(jobs, name) by {
                let i = choose|i: int| 0 <= i < r.len() && #[trigger] r[i].name == name;
                if i == rest.len() {
                    assert(jobs[jobs.len() - 1].0 == name);
                } else {
                    assert(r[i] == rest[i]);
                    assert(has_task(rest, name));
                }
            }
            if keys_distinct(jobs) {
                if has_task(rest, jobs.last().0) {
                    assert(has_job(dl, jobs.last().0));
                    let i = choose|i: int| 0 <= i < dl.len() && #[trigger] dl[i].0 == jobs.last().0;
                    assert(jobs[i] == dl[i]);
                }
                assert forall|i: int, j: int| 0 <= i < j < r.len() implies r[i].name != r[j].name by {
                    if j == rest.len() {
                        assert(r[i] == rest[i]);
                        if r[i].name == jobs.last().0 {
                            assert(has_task(rest, jobs.last().0));
                        }
                    } else {
                        assert(r[i] == rest[i] && r[j] == rest[j]);
                    }
                }
            }
        }
    }
}

/// A tick never queues a job twice: where no two tasks of the queue are for the same job, none
/// are after the tick, whatever the clock reads and whatever jitters it draws.
pub proof fn lemma_tick_keeps_jobs_distinct(
    q: Seq<CronTaskView>,
    jobs: Seq<(Seq<char>, CronJobView)>,
    now: int,
    nows: Seq<int>,
    jitters: Seq<int>,
)
    requires
        names_distinct(q),
    ensures
        names_distinct(tick_outcome(q, jobs, now, nows, jitters).1),
{
    let kept = kept_tasks(q, now);
    let table = job_table(jobs);
    let due = unscheduled(table, kept);
    let fresh = new_tasks(nows, due, jitters);
    lemma_kept(q, now);
    lemma_table_distinct(jobs);
    lemma_unscheduled(table, kept);
    lemma_new_tasks(nows, due, jitters);
    let all = kept + fresh;
    assert forall|i: int, j: int| 0 <= i < j < all.len() implies all[i].name != all[j].name by {
        if j < kept.len() {
            assert(all[i] == kept[i] && all[j] == kept[j]);
        } else if i >= kept.len() {
            assert(all[i] == fresh[i - kept.len()] && all[j] == fresh[j - kept.len()]);
        } else {
            assert(all[i] == kept[i]);
            assert(all[j] == fresh[j - kept.len()]);
            if all[i].name == all[j].name {
                assert(has_task(fresh, all[j].name));
                assert(has_job(due, all[j].name));
                let x = choose|x: int| 0 <= x < due.len() && #[trigger] due[x].0 == all[j].name;
                assert(!has_task(kept, due[x].0));
                assert(has_task(kept, all[i].name));
            }
        }
    }
}

} // verus!
