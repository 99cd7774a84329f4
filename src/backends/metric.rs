//! One backend's reading for one job, and the per-job cache a backend keeps.

use vstd::prelude::*;

use crate::text::views;

verus! {

/// One backend's reading for one job: the names it reports and, once a poll
/// has read them, their values.
#[derive(Debug)]
pub struct Metric {
    pub job_id: i32,
    pub hostname: String,
    pub timestamp: i64,
    pub backend_name: String,
    pub metric_names: Vec<String>,
    pub metric_values: Option<Vec<i64>>,
}

/// What a `Metric` holds, as mathematical values.
pub struct MetricView {
    pub job_id: i32,
    pub hostname: Seq<char>,
    pub timestamp: i64,
    pub backend_name: Seq<char>,
    pub names: Seq<Seq<char>>,
    pub values: Option<Seq<i64>>,
}

impl View for Metric {
    type V = MetricView;

    open spec fn view(&self) -> MetricView {
        MetricView {
            job_id: self.job_id,
            hostname: self.hostname@,
            timestamp: self.timestamp,
            backend_name: self.backend_name@,
            names: views(self.metric_names@),
            values: match self.metric_values {
                Some(v) => Some(v@),
                None => None,
            },
        }
    }
}

/// What the node handed over for one job this tick: the text of a statistics
/// file, the values of hardware counters, or nothing because the read, or the
/// programming of the counters before it, failed.
pub enum RawReading {
    Stat(String),
    Counters(Vec<i64>),
    Unavailable,
    /// The job's hardware counters could not be programmed.
    NotProgrammed,
}

/// A copy of a list of strings.
pub fn copy_strings(v: &Vec<String>) -> (r: Vec<String>)
    ensures
        r@ == v@,
{
    let mut r: Vec<String> = Vec::new();
    for i in 0..v.len()
        invariant
            r@ == v@.take(i as int),
    {
        r.push(v[i].clone());
        assert(r@ =~= v@.take(i + 1));
    }
    assert(v@.take(v.len() as int) =~= v@);
    r
}

/// A copy of a list of values.
pub fn copy_values(v: &Vec<i64>) -> (r: Vec<i64>)
    ensures
        r@ == v@,
{
    let mut r: Vec<i64> = Vec::new();
    for i in 0..v.len()
        invariant
            r@ == v@.take(i as int),
    {
        r.push(v[i]);
        assert(r@ =~= v@.take(i + 1));
    }
    assert(v@.take(v.len() as int) =~= v@);
    r
}

impl Metric {
    /// A copy of this metric.
    pub fn copy(&self) -> (r: Metric)
        ensures
            r@ == self@,
    {
        let values = match &self.metric_values {
            Some(v) => Some(copy_values(v)),
            None => None,
        };
        Metric {
            job_id: self.job_id,
            hostname: self.hostname.clone(),
            timestamp: self.timestamp,
            backend_name: self.backend_name.clone(),
            metric_names: copy_strings(&self.metric_names),
            metric_values: values,
        }
    }
}

/// The views of a sequence of metrics.
pub open spec fn metric_views(v: Seq<Metric>) -> Seq<MetricView> {
    v.map_values(|m: Metric| m@)
}

/// The job ids and cgroup names of a snapshot, as mathematical values.
pub open spec fn job_views(jobs: Seq<(i32, String)>) -> Seq<(i32, Seq<char>)> {
    jobs.map_values(|j: (i32, String)| (j.0, j.1@))
}

/// The job ids of a snapshot, in order.
pub open spec fn job_ids(jobs: Seq<(i32, String)>) -> Seq<i32> {
    job_views(jobs).map_values(|j: (i32, Seq<char>)| j.0)
}

/// A copy of a list of metrics.
pub fn copy_metrics(v: &Vec<Metric>) -> (r: Vec<Metric>)
    ensures
        metric_views(r@) == metric_views(v@),
{
    let mut r: Vec<Metric> = Vec::new();
    for i in 0..v.len()
        invariant
            metric_views(r@) == metric_views(v@).take(i as int),
    {
        let ghost before = r@;
        r.push(v[i].copy());
        assert(metric_views(r@) =~= metric_views(before).push(v@[i as int]@));
        assert(metric_views(r@) =~= metric_views(v@).take(i + 1));
    }
    assert(metric_views(v@).take(v.len() as int) =~= metric_views(v@));
    r
}

/// The last metric of `cache` that belongs to `job`.
pub open spec fn lookup(cache: Seq<MetricView>, job: i32) -> Option<MetricView>
    decreases cache.len(),
{
    if cache.len() == 0 {
        None
    } else if cache.last().job_id == job {
        Some(cache.last())
    } else {
        lookup(cache.drop_last(), job)
    }
}

/// The metric a job has after one poll: `prev` is what the cache held for it,
/// `decoded` the names and values read this tick, if the read succeeded.
/// A job seen for the first time gets a metric at once, with the names
/// `pending` and no values when its read failed. A failed read keeps the
/// previous metric, stale values and all. The first successful read sets the
/// names and values; later ones replace only the values.
pub open spec fn next_metric(
    prev: Option<MetricView>,
    job: i32,
    hostname: Seq<char>,
    backend_name: Seq<char>,
    now: i64,
    pending: Seq<Seq<char>>,
    decoded: Option<(Seq<Seq<char>>, Seq<i64>)>,
) -> MetricView {
    let base = match prev {
        Some(m) => m,
        None => MetricView {
            job_id: job,
            hostname: hostname,
            timestamp: now,
            backend_name: backend_name,
            names: pending,
            values: None,
        },
    };
    match decoded {
        None => base,
        Some(d) => if base.values is Some {
            MetricView { values: Some(d.1), ..base }
        } else {
            MetricView { names: d.0, values: Some(d.1), ..base }
        },
    }
}

/// The cache after one poll over the tracked `jobs`, with `decoded[k]` read
/// for `jobs[k]`: exactly one metric per tracked job, in the order of
/// `jobs`; jobs that are no longer tracked are dropped.
pub open spec fn next_cache(
    cache: Seq<MetricView>,
    jobs: Seq<i32>,
    hostname: Seq<char>,
    backend_name: Seq<char>,
    now: i64,
    pending: Seq<Seq<char>>,
    decoded: Seq<Option<(Seq<Seq<char>>, Seq<i64>)>>,
) -> Seq<MetricView>
    decreases jobs.len(),
{
    if jobs.len() == 0 || decoded.len() == 0 {
        seq![]
    } else {
        next_cache(
            cache,
            jobs.drop_last(),
            hostname,
            backend_name,
            now,
            pending,
            decoded.drop_last(),
        ).push(
            next_metric(
                lookup(cache, jobs.last()),
                jobs.last(),
                hostname,
                backend_name,
                now,
                pending,
                decoded.last(),
            ),
        )
    }
}

/// A poll leaves one metric per tracked job, the `k`-th for `jobs[k]`.
pub proof fn lemma_one_metric_per_job(
    cache: Seq<MetricView>,
    jobs: Seq<i32>,
    hostname: Seq<char>,
    backend_name: Seq<char>,
    now: i64,
    pending: Seq<Seq<char>>,
    decoded: Seq<Option<(Seq<Seq<char>>, Seq<i64>)>>,
)
    requires
        jobs.len() == decoded.len(),
    ensures
        next_cache(cache, jobs, hostname, backend_name, now, pending, decoded).len() == jobs.len(),
        forall|k: int|
            0 <= k < jobs.len() ==> (#[trigger] next_cache(
                cache,
                jobs,
                hostname,
                backend_name,
                now,
                pending,
                decoded,
            )[k]).job_id == jobs[k],
    decreases jobs.len(),
{
    if jobs.len() > 0 {
        lemma_one_metric_per_job(
            cache,
            jobs.drop_last(),
            hostname,
            backend_name,
            now,
            pending,
            decoded.drop_last(),
        );
        lemma_lookup_job(cache, jobs.last());
        let c = next_cache(cache, jobs, hostname, backend_name, now, pending, decoded);
        assert forall|k: int| 0 <= k < jobs.len() implies (#[trigger] c[k]).job_id == jobs[k] by {
            if k < jobs.len() - 1 {
                assert(jobs.drop_last()[k] == jobs[k]);
            }
        }
    }
}

/// A metric `lookup` finds for a job belongs to that job and is in the cache.
pub proof fn lemma_lookup_job(cache: Seq<MetricView>, job: i32)
    ensures
        lookup(cache, job) matches Some(m) ==> m.job_id == job && cache.contains(m),
    decreases cache.len(),
{
    if cache.len() > 0 && cache.last().job_id != job {
        lemma_lookup_job(cache.drop_last(), job);
        if lookup(cache, job) is Some {
            let m = lookup(cache, job)->0;
            let i = choose|i: int| 0 <= i < cache.drop_last().len() && cache.drop_last()[i] == m;
            assert(cache[i] == m);
        }
    } else if cache.len() > 0 {
        assert(cache[cache.len() - 1] == cache.last());
    }
}

/// The per-job metrics that one backend keeps between polls.
pub struct MetricCache {
    pub backend_name: String,
    pub hostname: String,
    pub metrics: Vec<Metric>,
}

impl MetricCache {
    pub open spec fn view_cache(&self) -> Seq<MetricView> {
        metric_views(self.metrics@)
    }

    /// Every cached metric belongs to this backend.
    pub open spec fn wf(&self) -> bool {
        forall|i: int|
            0 <= i < self.metrics@.len() ==> (#[trigger] self.metrics@[i])@.backend_name
                == self.backend_name@
    }

    /// An empty cache.
    pub fn new(backend_name: String, hostname: String) -> (r: MetricCache)
        ensures
            r.backend_name@ == backend_name@,
            r.hostname@ == hostname@,
            r.view_cache() == Seq::<MetricView>::empty(),
            r.wf(),
    {
        let r = MetricCache { backend_name, hostname, metrics: Vec::new() };
        assert(r.view_cache() =~= Seq::<MetricView>::empty());
        r
    }

    /// The position of the last metric of `job`, if any.
    pub fn find(&self, job: i32) -> (r: Option<usize>)
        ensures
            match r {
                Some(i) => i < self.metrics@.len() && lookup(self.view_cache(), job) == Some(
                    self.metrics@[i as int]@,
                ),
                None => lookup(self.view_cache(), job) is None,
            },
    {
        crate::backends::find_metric(&self.metrics, job)
    }

    /// Applies one poll: `decoded[k]` is what was read for `jobs[k]`.
    pub fn update(
        &mut self,
        jobs: &Vec<(i32, String)>,
        pending: &Vec<String>,
        decoded: Vec<Option<(Vec<String>, Vec<i64>)>>,
        now: i64,
    )
        requires
            old(self).wf(),
            jobs.len() == decoded.len(),
        ensures
            final(self).wf(),
            final(self).backend_name == old(self).backend_name,
            final(self).hostname == old(self).hostname,
            final(self).view_cache() == next_cache(
                old(self).view_cache(),
                job_ids(jobs@),
                old(self).hostname@,
                old(self).backend_name@,
                now,
                views(pending@),
                decoded_views(decoded@),
            ),
    {
        let ghost ids = job_views(jobs@).map_values(|j: (i32, Seq<char>)| j.0);
        let ghost dv = decoded_views(decoded@);
        let ghost old_cache = self.view_cache();
        let mut fresh: Vec<Metric> = Vec::new();
        let mut k: usize = 0;
        while k < jobs.len()
            invariant
                self.wf(),
                self.view_cache() == old_cache,
                self.backend_name == old(self).backend_name,
                self.hostname == old(self).hostname,
                k <= jobs.len(),
                jobs.len() == decoded.len(),
                ids == job_views(jobs@).map_values(|j: (i32, Seq<char>)| j.0),
                dv == decoded_views(decoded@),
                forall|i: int|
                    0 <= i < fresh@.len() ==> (#[trigger] fresh@[i])@.backend_name
                        == self.backend_name@,
                metric_views(fresh@) == next_cache(
                    old_cache,
                    ids.take(k as int),
                    self.hostname@,
                    self.backend_name@,
                    now,
                    views(pending@),
                    dv.take(k as int),
                ),
            decreases jobs.len() - k,
        {
            let job = jobs[k].0;
            assert(ids.take(k + 1).drop_last() =~= ids.take(k as int));
            assert(dv.take(k + 1).drop_last() =~= dv.take(k as int));
            assert(ids.take(k + 1).last() == job);
            assert(dv.take(k + 1).last() == dv[k as int]);
            let prev = self.find(job);
            let ghost before = fresh@;
            let mut m = match prev {
                Some(i) => self.metrics[i].copy(),
                None => Metric {
                    job_id: job,
                    hostname: self.hostname.clone(),
                    timestamp: now,
                    backend_name: self.backend_name.clone(),
                    metric_names: copy_strings(pending),
                    metric_values: None,
                },
            };
            match &decoded[k] {
                None => {},
                Some(d) => {
                    if m.metric_values.is_none() {
                        m.metric_names = copy_strings(&d.0);
                    }
                    m.metric_values = Some(copy_values(&d.1));
                },
            }
            fresh.push(m);
            assert(metric_views(fresh@) =~= next_cache(
                old_cache,
                ids.take(k + 1),
                self.hostname@,
                self.backend_name@,
                now,
                views(pending@),
                dv.take(k + 1),
            )) by {
                assert(metric_views(before) =~= metric_views(fresh@).take(before.len() as int));
            }
            k = k + 1;
        }
        assert(ids.take(jobs.len() as int) =~= ids);
        assert(dv.take(jobs.len() as int) =~= dv);
        self.metrics = fresh;
    }
}

/// The views of what was decoded for each job.
pub open spec fn decoded_views(d: Seq<Option<(Vec<String>, Vec<i64>)>>) -> Seq<
    Option<(Seq<Seq<char>>, Seq<i64>)>,
> {
    d.map_values(
        |x: Option<(Vec<String>, Vec<i64>)>|
            match x {
                Some(p) => Some((views(p.0@), p.1@)),
                None => None,
            },
    )
}

} // verus!
