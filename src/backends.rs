//! Metric backends and the aggregator that polls them.

use vstd::prelude::*;

pub mod cpu;
pub mod memory;
pub mod metric;
pub mod metric_names;
pub mod perfhw;

use crate::backends::cpu::CpuBackend;
use crate::backends::memory::MemoryBackend;
use crate::backends::metric::{
    copy_values, job_ids, lookup, metric_views, next_cache, Metric, MetricView, RawReading,
};
use crate::backends::metric_names::{is_known_metric, metric_id, metric_name_id};
use crate::backends::perfhw::{default_selection, PerfhwBackend};
use crate::text::{chars_of, same_chars, views};

verus! {

/// What every metric source offers the aggregator. The node reads files or
/// counters for each tracked job and hands them over as `RawReading`s; the
/// backend decodes them and keeps one `Metric` per job between polls.
pub trait Backend {
    /// The backend's name, as it appears on the wire.
    spec fn name_view(&self) -> Seq<char>;

    /// The host name stamped on metrics this backend creates.
    spec fn hostname_view(&self) -> Seq<char>;

    /// The per-job metrics kept between polls.
    spec fn cache_view(&self) -> Seq<MetricView>;

    /// The selected metric names, for a backend whose selection can change at
    /// run time; `None` for one whose names come from what it reads.
    spec fn selection_view(&self) -> Option<Seq<Seq<char>>>;

    /// The names and values a reading yields, or `None` when it yields none.
    spec fn decode(&self, r: RawReading) -> Option<(Seq<Seq<char>>, Seq<i64>)>;

    /// Where the reading for the cgroup named `cgroup_name` comes from.
    spec fn path_of(&self, cgroup_name: Seq<char>) -> Seq<char>;

    /// The jobs whose hardware counters are programmed for the current
    /// selection; always empty on a backend without a selection.
    spec fn programmed_view(&self) -> Set<i32>;

    /// The backend's internal consistency.
    spec fn inv(&self) -> bool;

    fn get_backend_name(&self) -> (r: String)
        ensures
            r@ == self.name_view(),
    ;

    fn source_path(&self, cgroup_name: &str) -> (r: String)
        ensures
            r@ == self.path_of(cgroup_name@),
    ;

    /// Takes `readings[k]`, read for `jobs[k]`, into the cache and returns the
    /// cache: one metric per tracked job, whose values are absent until a
    /// read of it succeeds.
    fn get_metrics(
        &mut self,
        jobs: &Vec<(i32, String)>,
        readings: &Vec<RawReading>,
        now: i64,
    ) -> (r: Vec<Metric>)
        requires
            old(self).inv(),
            jobs.len() == readings.len(),
        ensures
            final(self).inv(),
            final(self).name_view() == old(self).name_view(),
            final(self).hostname_view() == old(self).hostname_view(),
            final(self).selection_view() == old(self).selection_view(),
            final(self).cache_view() == next_cache(
                old(self).cache_view(),
                job_ids(jobs@),
                old(self).hostname_view(),
                old(self).name_view(),
                now,
                pending_of(old(self).selection_view()),
                readings@.map_values(|x: RawReading| old(self).decode(x)),
            ),
            metric_views(r@) == final(self).cache_view(),
            old(self).selection_view() is Some ==> final(self).programmed_view() == programmed_after(
                job_ids(jobs@),
                readings@,
            ),
            old(self).selection_view() is None ==> final(self).programmed_view()
                == old(self).programmed_view(),
    ;

    /// Replaces the selected metric names, discarding every cached metric, on
    /// a backend whose selection can change; does nothing on the others.
    fn set_metrics_to_get(&mut self, metrics_to_get: Vec<String>)
        requires
            old(self).inv(),
        ensures
            final(self).inv(),
            final(self).name_view() == old(self).name_view(),
            final(self).hostname_view() == old(self).hostname_view(),
            old(self).selection_view() is None ==> {
                &&& final(self).selection_view() is None
                &&& final(self).cache_view() == old(self).cache_view()
                &&& final(self).programmed_view() == old(self).programmed_view()
            },
            old(self).selection_view() is Some ==> {
                &&& final(self).selection_view() == Some(views(metrics_to_get@))
                &&& final(self).cache_view() == Seq::<MetricView>::empty()
                &&& final(self).programmed_view() == Set::<i32>::empty()
            },
    ;
}

/// The names a job's metric carries before any read of it succeeded: the
/// selection, on a backend that has one; none otherwise.
pub open spec fn pending_of(selection: Option<Seq<Seq<char>>>) -> Seq<Seq<char>> {
    match selection {
        Some(s) => s,
        None => Seq::empty(),
    }
}

/// The jobs whose counters are programmed after a poll: every tracked job
/// for which programming did not fail.
pub open spec fn programmed_after(jobs: Seq<i32>, readings: Seq<RawReading>) -> Set<i32> {
    Set::new(
        |j: i32|
            exists|k: int|
                0 <= k < jobs.len() && k < readings.len() && jobs[k] == j && !(readings[k] is NotProgrammed),
    )
}

/// One of the backends this agent ships with.
pub enum AnyBackend {
    Memory(MemoryBackend),
    Cpu(CpuBackend),
    Perfhw(PerfhwBackend),
}

impl Backend for AnyBackend {
    open spec fn name_view(&self) -> Seq<char> {
        match self {
            AnyBackend::Memory(b) => b.name_view(),
            AnyBackend::Cpu(b) => b.name_view(),
            AnyBackend::Perfhw(b) => b.name_view(),
        }
    }

    open spec fn hostname_view(&self) -> Seq<char> {
        match self {
            AnyBackend::Memory(b) => b.hostname_view(),
            AnyBackend::Cpu(b) => b.hostname_view(),
            AnyBackend::Perfhw(b) => b.hostname_view(),
        }
    }

    open spec fn cache_view(&self) -> Seq<MetricView> {
        match self {
            AnyBackend::Memory(b) => b.cache_view(),
            AnyBackend::Cpu(b) => b.cache_view(),
            AnyBackend::Perfhw(b) => b.cache_view(),
        }
    }

    open spec fn selection_view(&self) -> Option<Seq<Seq<char>>> {
        match self {
            AnyBackend::Memory(b) => b.selection_view(),
            AnyBackend::Cpu(b) => b.selection_view(),
            AnyBackend::Perfhw(b) => b.selection_view(),
        }
    }

    open spec fn decode(&self, r: RawReading) -> Option<(Seq<Seq<char>>, Seq<i64>)> {
        match self {
            AnyBackend::Memory(b) => b.decode(r),
            AnyBackend::Cpu(b) => b.decode(r),
            AnyBackend::Perfhw(b) => b.decode(r),
        }
    }

    open spec fn path_of(&self, cgroup_name: Seq<char>) -> Seq<char> {
        match self {
            AnyBackend::Memory(b) => b.path_of(cgroup_name),
            AnyBackend::Cpu(b) => b.path_of(cgroup_name),
            AnyBackend::Perfhw(b) => b.path_of(cgroup_name),
        }
    }

    open spec fn programmed_view(&self) -> Set<i32> {
        match self {
            AnyBackend::Memory(b) => b.programmed_view(),
            AnyBackend::Cpu(b) => b.programmed_view(),
            AnyBackend::Perfhw(b) => b.programmed_view(),
        }
    }

    open spec fn inv(&self) -> bool {
        match self {
            AnyBackend::Memory(b) => b.inv(),
            AnyBackend::Cpu(b) => b.inv(),
            AnyBackend::Perfhw(b) => b.inv(),
        }
    }

    fn get_backend_name(&self) -> (r: String) {
        match self {
            AnyBackend::Memory(b) => b.get_backend_name(),
            AnyBackend::Cpu(b) => b.get_backend_name(),
            AnyBackend::Perfhw(b) => b.get_backend_name(),
        }
    }

    fn source_path(&self, cgroup_name: &str) -> (r: String) {
        match self {
            AnyBackend::Memory(b) => b.source_path(cgroup_name),
            AnyBackend::Cpu(b) => b.source_path(cgroup_name),
            AnyBackend::Perfhw(b) => b.source_path(cgroup_name),
        }
    }

    fn get_metrics(
        &mut self,
        jobs: &Vec<(i32, String)>,
        readings: &Vec<RawReading>,
        now: i64,
    ) -> (r: Vec<Metric>) {
        let ghost s0 = *self;
        match self {
            AnyBackend::Memory(b) => {
                let ghost b0 = *b;
                assert(readings@.map_values(|x: RawReading| b0.decode(x)) =~= readings@.map_values(
                    |x: RawReading| s0.decode(x),
                ));
                b.get_metrics(jobs, readings, now)
            },
            AnyBackend::Cpu(b) => {
                let ghost b0 = *b;
                assert(readings@.map_values(|x: RawReading| b0.decode(x)) =~= readings@.map_values(
                    |x: RawReading| s0.decode(x),
                ));
                b.get_metrics(jobs, readings, now)
            },
            AnyBackend::Perfhw(b) => {
                let ghost b0 = *b;
                assert(readings@.map_values(|x: RawReading| b0.decode(x)) =~= readings@.map_values(
                    |x: RawReading| s0.decode(x),
                ));
                b.get_metrics(jobs, readings, now)
            },
        }
    }

    fn set_metrics_to_get(&mut self, metrics_to_get: Vec<String>) {
        match self {
            AnyBackend::Memory(b) => b.set_metrics_to_get(metrics_to_get),
            AnyBackend::Cpu(b) => b.set_metrics_to_get(metrics_to_get),
            AnyBackend::Perfhw(b) => b.set_metrics_to_get(metrics_to_get),
        }
    }
}

/// The ids of metric names, each looked up in the wire schema's table.
pub open spec fn ids_of(names: Seq<Seq<char>>) -> Seq<i32> {
    names.map_values(|n: Seq<char>| metric_id(n)->0)
}

/// Whether the wire schema knows every name of `names`.
pub open spec fn all_names_known(names: Seq<Seq<char>>) -> bool {
    forall|i: int| 0 <= i < names.len() ==> is_known_metric(#[trigger] names[i])
}

/// Compression is a function of the name alone: equal names get equal ids
/// wherever they stand, and a known name gets an id from 1 to 64.
pub proof fn lemma_compression_is_pure(names: Seq<Seq<char>>, i: int, j: int)
    requires
        0 <= i < names.len(),
        0 <= j < names.len(),
        names[i] == names[j],
    ensures
        ids_of(names)[i] == ids_of(names)[j],
        is_known_metric(names[i]) ==> 1 <= ids_of(names)[i] <= 64,
{
    if is_known_metric(names[i]) {
        let t = crate::backends::metric_names::metric_name_table();
        let k = choose|k: int| crate::backends::metric_names::first_position(t, names[i], k);
        assert(t.len() == 64);
    }
}

/// Replaces each metric name by its id in the wire schema's table.
pub fn compress_metric_names(metric_names: Vec<String>) -> (r: Vec<i32>)
    requires
        all_names_known(views(metric_names@)),
    ensures
        r@ == ids_of(views(metric_names@)),
{
    match try_compress_metric_names(&metric_names) {
        Ok(ids) => ids,
        Err(_) => {
            proof {
                assert(false);
            }
            Vec::new()
        },
    }
}

/// Replaces each metric name by its id, or gives back the first name the
/// wire schema does not know.
pub fn try_compress_metric_names(metric_names: &Vec<String>) -> (r: Result<Vec<i32>, String>)
    ensures
        r is Ok <==> all_names_known(views(metric_names@)),
        r matches Ok(ids) ==> ids@ == ids_of(views(metric_names@)),
        r matches Err(n) ==> !is_known_metric(n@) && views(metric_names@).contains(n@),
{
    let ghost nv = views(metric_names@);
    let mut ids: Vec<i32> = Vec::new();
    for i in 0..metric_names.len()
        invariant
            nv == views(metric_names@),
            ids@ == ids_of(nv).take(i as int),
            forall|j: int| 0 <= j < i ==> is_known_metric(#[trigger] nv[j]),
    {
        assert(nv[i as int] == metric_names@[i as int]@);
        match metric_name_id(metric_names[i].as_str()) {
            Some(id) => {
                ids.push(id);
                assert(ids@ =~= ids_of(nv).take(i + 1));
            },
            None => {
                return Err(metric_names[i].clone());
            },
        }
    }
    assert(ids_of(nv).take(metric_names.len() as int) =~= ids_of(nv));
    Ok(ids)
}

/// The position of the last metric of `job` in `v`, if any.
pub fn find_metric(v: &Vec<Metric>, job: i32) -> (r: Option<usize>)
    ensures
        match r {
            Some(i) => i < v@.len() && lookup(metric_views(v@), job) == Some(v@[i as int]@),
            None => lookup(metric_views(v@), job) is None,
        },
{
    let mut i: usize = v.len();
    assert(metric_views(v@).take(i as int) =~= metric_views(v@));
    while i > 0
        invariant
            i <= v@.len(),
            lookup(metric_views(v@), job) == lookup(metric_views(v@).take(i as int), job),
        decreases i,
    {
        let ghost c = metric_views(v@).take(i as int);
        assert(c.drop_last() =~= metric_views(v@).take(i - 1));
        if v[i - 1].job_id == job {
            return Some(i - 1);
        }
        i = i - 1;
    }
    assert(metric_views(v@).take(0) =~= Seq::<MetricView>::empty());
    None
}

/// The metric of `job` in `cache`, if it holds values.
pub open spec fn reported(cache: Seq<MetricView>, job: i32) -> Option<MetricView> {
    match lookup(cache, job) {
        Some(m) => if m.values is Some {
            Some(m)
        } else {
            None
        },
        None => None,
    }
}

/// The reports for `job`: one (backend name, metric ids, values) triple per
/// backend of `polled` that holds values for it, in backend order. `polled`
/// pairs each backend's name with its cache.
pub open spec fn job_reports(polled: Seq<(Seq<char>, Seq<MetricView>)>, job: i32) -> Seq<
    (Seq<char>, Seq<i32>, Seq<i64>),
>
    decreases polled.len(),
{
    if polled.len() == 0 {
        seq![]
    } else {
        let prev = job_reports(polled.drop_last(), job);
        match reported(polled.last().1, job) {
            Some(m) => prev.push((polled.last().0, ids_of(m.names), m.values->0)),
            None => prev,
        }
    }
}

/// How many backends of `polled` hold values for `job`.
pub open spec fn reporting_count(polled: Seq<(Seq<char>, Seq<MetricView>)>, job: i32) -> nat
    decreases polled.len(),
{
    if polled.len() == 0 {
        0
    } else {
        reporting_count(polled.drop_last(), job) + if reported(polled.last().1, job) is Some {
            1nat
        } else {
            0nat
        }
    }
}

/// A batch has exactly one entry per tracked job, and each entry exactly one
/// report per backend that holds values for that job; a backend that has
/// never read a job holds none, one whose latest read failed still holds the
/// values of its last successful read.
pub proof fn lemma_batch_shape(
    polled: Seq<(Seq<char>, Seq<MetricView>)>,
    jobs: Seq<i32>,
    hostname: Seq<char>,
    now: i64,
    k: int,
)
    requires
        0 <= k < jobs.len(),
    ensures
        expected_batch(polled, jobs, hostname, now).len() == jobs.len(),
        expected_batch(polled, jobs, hostname, now)[k].0 == jobs[k],
        expected_batch(polled, jobs, hostname, now)[k].1.2.len() == reporting_count(polled, jobs[k]),
{
    lemma_reports_count(polled, jobs[k]);
}

proof fn lemma_reports_count(polled: Seq<(Seq<char>, Seq<MetricView>)>, job: i32)
    ensures
        job_reports(polled, job).len() == reporting_count(polled, job),
    decreases polled.len(),
{
    if polled.len() > 0 {
        lemma_reports_count(polled.drop_last(), job);
    }
}

/// Whether the wire schema knows every name that a backend of `polled`
/// reports for one of `jobs`.
pub open spec fn reports_known(polled: Seq<(Seq<char>, Seq<MetricView>)>, jobs: Seq<i32>) -> bool {
    forall|b: int, k: int|
        0 <= b < polled.len() && 0 <= k < jobs.len() ==> match #[trigger] reported(
            polled[b].1,
            jobs[k],
        ) {
            Some(m) => all_names_known(m.names),
            None => true,
        }
}

/// What the backends hold after a poll: each one's name and cache.
pub open spec fn polled_view(backends: Seq<AnyBackend>) -> Seq<(Seq<char>, Seq<MetricView>)> {
    backends.map_values(|b: AnyBackend| (b.name_view(), b.cache_view()))
}

/// Whether `after` is `before` once it has taken `readings`, read for `jobs`.
pub open spec fn polled_from(
    before: AnyBackend,
    after: AnyBackend,
    jobs: Seq<(i32, String)>,
    readings: Seq<RawReading>,
    now: i64,
) -> bool {
    &&& after.inv()
    &&& after.name_view() == before.name_view()
    &&& after.hostname_view() == before.hostname_view()
    &&& after.selection_view() == before.selection_view()
    &&& after.cache_view() == next_cache(
        before.cache_view(),
        job_ids(jobs),
        before.hostname_view(),
        before.name_view(),
        now,
        pending_of(before.selection_view()),
        readings.map_values(|x: RawReading| before.decode(x)),
    )
    &&& before.selection_view() is Some ==> after.programmed_view() == programmed_after(
        job_ids(jobs),
        readings,
    )
    &&& before.selection_view() is None ==> after.programmed_view() == before.programmed_view()
}

/// Whether `after` is `before` once its selected metrics were replaced by
/// `names`.
pub open spec fn reconfigured(before: AnyBackend, after: AnyBackend, names: Seq<Seq<char>>) -> bool {
    &&& after.inv()
    &&& after.name_view() == before.name_view()
    &&& after.hostname_view() == before.hostname_view()
    &&& before.selection_view() is None ==> {
        &&& after.selection_view() is None
        &&& after.cache_view() == before.cache_view()
        &&& after.programmed_view() == before.programmed_view()
    }
    &&& before.selection_view() is Some ==> {
        &&& after.selection_view() == Some(names)
        &&& after.cache_view() == Seq::<MetricView>::empty()
        &&& after.programmed_view() == Set::<i32>::empty()
    }
}

/// The view of an optional string.
pub open spec fn opt_string_view(s: Option<String>) -> Option<Seq<char>> {
    match s {
        Some(t) => Some(t@),
        None => None,
    }
}

/// What a batch entry holds, as mathematical values.
pub open spec fn entry_view(e: (i32, (String, i64, Vec<(String, Vec<i32>, Vec<i64>)>))) -> (
    i32,
    (Seq<char>, i64, Seq<(Seq<char>, Seq<i32>, Seq<i64>)>),
) {
    (e.0, (e.1.0@, e.1.1, e.1.2@.map_values(|t: (String, Vec<i32>, Vec<i64>)| (t.0@, t.1@, t.2@))))
}

/// What a batch holds, as mathematical values.
pub open spec fn batch_view(b: Seq<(i32, (String, i64, Vec<(String, Vec<i32>, Vec<i64>)>))>) -> Seq<
    (i32, (Seq<char>, i64, Seq<(Seq<char>, Seq<i32>, Seq<i64>)>)),
> {
    b.map_values(|e: (i32, (String, i64, Vec<(String, Vec<i32>, Vec<i64>)>))| entry_view(e))
}

/// The host name on the metric of `job` in the first backend of `polled`
/// that holds values for it.
pub open spec fn first_host(polled: Seq<(Seq<char>, Seq<MetricView>)>, job: i32) -> Option<Seq<char>>
    decreases polled.len(),
{
    if polled.len() == 0 {
        None
    } else {
        match first_host(polled.drop_last(), job) {
            Some(h) => Some(h),
            None => match reported(polled.last().1, job) {
                Some(m) => Some(m.hostname),
                None => None,
            },
        }
    }
}

/// The host name of a job's entry: the one on the metric of the first
/// backend that reports the job, or `hostname` when none does.
pub open spec fn entry_host(polled: Seq<(Seq<char>, Seq<MetricView>)>, job: i32, hostname: Seq<char>) -> Seq<char> {
    match first_host(polled, job) {
        Some(h) => h,
        None => hostname,
    }
}

/// The batch one tick yields: for each tracked job, in order, its host name,
/// the tick's timestamp and the job's reports.
pub open spec fn expected_batch(
    polled: Seq<(Seq<char>, Seq<MetricView>)>,
    jobs: Seq<i32>,
    hostname: Seq<char>,
    now: i64,
) -> Seq<(i32, (Seq<char>, i64, Seq<(Seq<char>, Seq<i32>, Seq<i64>)>))> {
    jobs.map_values(|j: i32| (j, (entry_host(polled, j, hostname), now, job_reports(polled, j))))
}

/// Owns the active backends and turns one poll of them into a batch.
pub struct BackendsManager {
    pub backends: Vec<AnyBackend>,
}

impl BackendsManager {
    /// Whether every backend is consistent.
    pub open spec fn wf(&self) -> bool {
        forall|i: int| 0 <= i < self.backends@.len() ==> (#[trigger] self.backends@[i]).inv()
    }

    /// A manager with no backend.
    pub fn new() -> (r: BackendsManager)
        ensures
            r.backends@ == Seq::<AnyBackend>::empty(),
            r.wf(),
    {
        BackendsManager { backends: Vec::new() }
    }

    /// Adds a backend after the others.
    pub fn add_backend(&mut self, backend: AnyBackend)
        requires
            old(self).wf(),
            backend.inv(),
        ensures
            final(self).backends@ == old(self).backends@.push(backend),
            final(self).wf(),
    {
        self.backends.push(backend);
    }

    /// Adds the memory, CPU and hardware-counter backends, in that order,
    /// each stamping `hostname` on the metrics it creates.
    pub fn init_backends(&mut self, hostname: String)
        requires
            old(self).wf(),
        ensures
            final(self).wf(),
            final(self).backends@.len() == old(self).backends@.len() + 3,
            forall|i: int| 0 <= i < old(self).backends@.len() ==> final(self).backends@[i] == old(self).backends@[i],
            final(self).backends@[old(self).backends@.len() as int] matches AnyBackend::Memory(_),
            final(self).backends@[old(self).backends@.len() as int + 1] matches AnyBackend::Cpu(_),
            final(self).backends@[old(self).backends@.len() as int + 2] matches AnyBackend::Perfhw(_),
            final(self).backends@[old(self).backends@.len() as int].name_view() == "Memory"@,
            final(self).backends@[old(self).backends@.len() as int + 1].name_view() == "Cpu"@,
            final(self).backends@[old(self).backends@.len() as int + 2].name_view() == "Perfhw"@,
            final(self).backends@[old(self).backends@.len() as int].selection_view() is None,
            final(self).backends@[old(self).backends@.len() as int + 1].selection_view() is None,
            final(self).backends@[old(self).backends@.len() as int + 2].selection_view() == Some(
                default_selection(),
            ),
            forall|i: int|
                old(self).backends@.len() <= i < final(self).backends@.len() ==> {
                    &&& (#[trigger] final(self).backends@[i]).hostname_view() == hostname@
                    &&& final(self).backends@[i].cache_view() == Seq::<MetricView>::empty()
                },
    {
        self.add_backend(AnyBackend::Memory(MemoryBackend::new(hostname.clone())));
        self.add_backend(AnyBackend::Cpu(CpuBackend::new(hostname.clone())));
        self.add_backend(AnyBackend::Perfhw(PerfhwBackend::new(hostname)));
    }

    /// Replaces the selected metrics of every backend named `name` with
    /// `metrics_to_get`; the others stay as they are.
    pub fn reconfigure_named(&mut self, name: &str, metrics_to_get: &Vec<String>)
        requires
            old(self).wf(),
        ensures
            final(self).wf(),
            final(self).backends@.len() == old(self).backends@.len(),
            forall|b: int|
                0 <= b < old(self).backends@.len() ==> if (#[trigger] old(self).backends@[b]).name_view()
                    == name@ {
                    reconfigured(old(self).backends@[b], final(self).backends@[b], views(metrics_to_get@))
                } else {
                    final(self).backends@[b] == old(self).backends@[b]
                },
    {
        let ghost olds = self.backends@;
        let wanted = chars_of(name);
        let mut rest: Vec<AnyBackend> = Vec::new();
        std::mem::swap(&mut rest, &mut self.backends);
        let n = rest.len();
        let mut b: usize = 0;
        while b < n
            invariant
                b <= n,
                n == olds.len(),
                olds == old(self).backends@,
                wanted@ == name@,
                forall|i: int| 0 <= i < olds.len() ==> (#[trigger] olds[i]).inv(),
                rest@ == olds.subrange(b as int, n as int),
                self.backends@.len() == b,
                forall|i: int| 0 <= i < b ==> (#[trigger] self.backends@[i]).inv(),
                forall|i: int|
                    0 <= i < b ==> if (#[trigger] olds[i]).name_view() == name@ {
                        reconfigured(olds[i], self.backends@[i], views(metrics_to_get@))
                    } else {
                        self.backends@[i] == olds[i]
                    },
            decreases n - b,
        {
            let mut backend = rest.remove(0);
            assert(backend == olds[b as int]);
            let own = chars_of(backend.get_backend_name().as_str());
            if same_chars(&own, &wanted) {
                backend.set_metrics_to_get(crate::backends::metric::copy_strings(metrics_to_get));
            }
            self.backends.push(backend);
            assert(rest@ =~= olds.subrange(b + 1, n as int));
            b = b + 1;
        }
    }

    /// Polls every backend with its readings (`readings[b][k]` was read by
    /// backend `b` for `jobs[k]`) and merges what they hold into one batch:
    /// one entry per tracked job, in the order of `jobs`, stamped with
    /// `hostname` and `now`, listing one report per backend that holds values
    /// for the job. Gives back a metric name the wire schema does not know,
    /// if a backend reports one.
    pub fn get_all_metrics(
        &mut self,
        jobs: &Vec<(i32, String)>,
        readings: &Vec<Vec<RawReading>>,
        hostname: &String,
        now: i64,
    ) -> (r: Result<Vec<(i32, (String, i64, Vec<(String, Vec<i32>, Vec<i64>)>))>, String>)
        requires
            old(self).wf(),
            readings.len() == old(self).backends@.len(),
            forall|b: int| 0 <= b < readings.len() ==> (#[trigger] readings@[b]).len() == jobs.len(),
        ensures
            final(self).wf(),
            final(self).backends@.len() == old(self).backends@.len(),
            forall|b: int|
                0 <= b < old(self).backends@.len() ==> polled_from(
                    #[trigger] old(self).backends@[b],
                    final(self).backends@[b],
                    jobs@,
                    readings@[b]@,
                    now,
                ),
            r is Ok <==> reports_known(polled_view(final(self).backends@), job_ids(jobs@)),
            r matches Ok(batch) ==> batch_view(batch@) == expected_batch(
                polled_view(final(self).backends@),
                job_ids(jobs@),
                hostname@,
                now,
            ),
            r matches Err(n) ==> !is_known_metric(n@),
    {
        let ghost olds = self.backends@;
        let mut rest: Vec<AnyBackend> = Vec::new();
        std::mem::swap(&mut rest, &mut self.backends);
        let mut caches: Vec<Vec<Metric>> = Vec::new();
        let mut names: Vec<String> = Vec::new();
        let mut b: usize = 0;
        while b < readings.len()
            invariant
                b <= readings.len(),
                readings.len() == olds.len(),
                forall|i: int| 0 <= i < readings.len() ==> (#[trigger] readings@[i]).len() == jobs.len(),
                forall|i: int| 0 <= i < olds.len() ==> (#[trigger] olds[i]).inv(),
                rest@ == olds.subrange(b as int, olds.len() as int),
                olds == old(self).backends@,
                self.backends@.len() == b,
                caches@.len() == b,
                names@.len() == b,
                forall|i: int|
                    0 <= i < b ==> polled_from(
                        #[trigger] olds[i],
                        self.backends@[i],
                        jobs@,
                        readings@[i]@,
                        now,
                    ),
                forall|i: int|
                    0 <= i < b ==> metric_views((#[trigger] caches@[i])@) == self.backends@[i].cache_view(),
                forall|i: int| 0 <= i < b ==> (#[trigger] names@[i])@ == self.backends@[i].name_view(),
            decreases readings.len() - b,
        {
            let mut backend = rest.remove(0);
            assert(backend == olds[b as int]);
            let got = backend.get_metrics(jobs, &readings[b], now);
            names.push(backend.get_backend_name());
            caches.push(got);
            self.backends.push(backend);
            assert(rest@ =~= olds.subrange(b + 1, olds.len() as int));
            b = b + 1;
        }
        let ghost polled = polled_view(self.backends@);
        let ghost ids = job_ids(jobs@);
        assert forall|i: int| 0 <= i < self.backends@.len() implies (#[trigger] self.backends@[i]).inv() by {
            assert(polled_from(olds[i], self.backends@[i], jobs@, readings@[i]@, now));
        }
        let mut batch: Vec<(i32, (String, i64, Vec<(String, Vec<i32>, Vec<i64>)>))> = Vec::new();
        for k in 0..jobs.len()
            invariant
                self.wf(),
                self.backends@.len() == olds.len(),
                olds == old(self).backends@,
                readings.len() == olds.len(),
                forall|i: int|
                    0 <= i < olds.len() ==> polled_from(
                        #[trigger] olds[i],
                        self.backends@[i],
                        jobs@,
                        readings@[i]@,
                        now,
                    ),
                polled == polled_view(self.backends@),
                ids == job_ids(jobs@),
                caches@.len() == self.backends@.len(),
                names@.len() == self.backends@.len(),
                forall|i: int|
                    0 <= i < caches@.len() ==> metric_views((#[trigger] caches@[i])@) == self.backends@[i].cache_view(),
                forall|i: int| 0 <= i < names@.len() ==> (#[trigger] names@[i])@ == self.backends@[i].name_view(),
                forall|bb: int, kk: int|
                    0 <= bb < polled.len() && 0 <= kk < k ==> match #[trigger] reported(
                        polled[bb].1,
                        ids[kk],
                    ) {
                        Some(m) => all_names_known(m.names),
                        None => true,
                    },
                batch_view(batch@) == expected_batch(polled, ids, hostname@, now).take(k as int),
        {
            let job = jobs[k].0;
            assert(ids[k as int] == job);
            let mut reports: Vec<(String, Vec<i32>, Vec<i64>)> = Vec::new();
            let mut host: Option<String> = None;
            for bi in 0..caches.len()
                invariant
                    self.wf(),
                    self.backends@.len() == olds.len(),
                    olds == old(self).backends@,
                    readings.len() == olds.len(),
                    forall|i: int|
                        0 <= i < olds.len() ==> polled_from(
                            #[trigger] olds[i],
                            self.backends@[i],
                            jobs@,
                            readings@[i]@,
                            now,
                        ),
                    polled == polled_view(self.backends@),
                    0 <= k < ids.len(),
                    ids == job_ids(jobs@),
                    ids[k as int] == job,
                    caches@.len() == self.backends@.len(),
                    names@.len() == self.backends@.len(),
                    forall|i: int|
                        0 <= i < caches@.len() ==> metric_views((#[trigger] caches@[i])@) == self.backends@[i].cache_view(),
                    forall|i: int| 0 <= i < names@.len() ==> (#[trigger] names@[i])@ == self.backends@[i].name_view(),
                    forall|bb: int|
                        0 <= bb < bi ==> match #[trigger] reported(polled[bb].1, job) {
                            Some(m) => all_names_known(m.names),
                            None => true,
                        },
                    reports@.map_values(|t: (String, Vec<i32>, Vec<i64>)| (t.0@, t.1@, t.2@))
                        == job_reports(polled.take(bi as int), job),
                    opt_string_view(host) == first_host(polled.take(bi as int), job),
            {
                let ghost before = reports@;
                assert(polled.take(bi + 1).drop_last() =~= polled.take(bi as int));
                assert(polled[bi as int] == (self.backends@[bi as int].name_view(), self.backends@[bi as int].cache_view()));
                match find_metric(&caches[bi], job) {
                    Some(i) => {
                        match &caches[bi][i].metric_values {
                            Some(vals) => {
                                match try_compress_metric_names(&caches[bi][i].metric_names) {
                                    Ok(mids) => {
                                        reports.push((names[bi].clone(), mids, copy_values(vals)));
                                        if host.is_none() {
                                            host = Some(caches[bi][i].hostname.clone());
                                        }
                                    },
                                    Err(n) => {
                                        proof {
                                            let m = caches@[bi as int]@[i as int]@;
                                            assert(reported(polled[bi as int].1, ids[k as int]) == Some(m));
                                            let j = choose|j: int| 0 <= j < m.names.len() && m.names[j] == n@;
                                            assert(!is_known_metric(m.names[j]));
                                            assert(!all_names_known(m.names));
                                        }
                                        return Err(n);
                                    },
                                }
                            },
                            None => {},
                        }
                    },
                    None => {},
                }
                assert(reports@.map_values(|t: (String, Vec<i32>, Vec<i64>)| (t.0@, t.1@, t.2@))
                    =~= job_reports(polled.take(bi + 1), job)) by {
                    assert(before.map_values(|t: (String, Vec<i32>, Vec<i64>)| (t.0@, t.1@, t.2@))
                        =~= reports@.map_values(|t: (String, Vec<i32>, Vec<i64>)| (t.0@, t.1@, t.2@)).take(before.len() as int));
                }
            }
            assert(polled.take(caches.len() as int) =~= polled);
            let ghost bbefore = batch@;
            let entry_hostname = match host {
                Some(h) => h,
                None => hostname.clone(),
            };
            batch.push((job, (entry_hostname, now, reports)));
            assert(batch_view(batch@) =~= batch_view(bbefore).push(entry_view(batch@[k as int])));
            assert(batch_view(batch@) =~= expected_batch(polled, ids, hostname@, now).take(k + 1));
        }
        assert(expected_batch(polled, ids, hostname@, now).take(jobs.len() as int) =~= expected_batch(polled, ids, hostname@, now));
        Ok(batch)
    }
}

} // verus!
