//! Hardware performance counters, programmed per job cgroup.

use vstd::prelude::*;

use crate::backends::metric::{
    copy_metrics, copy_strings, decoded_views, job_ids, lemma_lookup_job, lookup, next_cache, next_metric,
    Metric, MetricCache, MetricView, RawReading,
};
use crate::backends::{programmed_after, Backend};
use crate::text::{append_str, join_with, joined, views};

verus! {

/// What a reading yields for the counter backend: the selected names with the
/// counter values, when exactly one value came back per selected name.
pub open spec fn decode_counters(sel: Seq<Seq<char>>, r: RawReading) -> Option<
    (Seq<Seq<char>>, Seq<i64>),
> {
    match r {
        RawReading::Counters(v) => if v@.len() == sel.len() {
            Some((sel, v@))
        } else {
            None
        },
        _ => None,
    }
}

/// Decodes each reading as counter values for the selection `sel`.
fn decode_counter_readings(readings: &Vec<RawReading>, sel: &Vec<String>) -> (r: Vec<
    Option<(Vec<String>, Vec<i64>)>,
>)
    ensures
        r.len() == readings.len(),
        decoded_views(r@) == readings@.map_values(
            |x: RawReading| decode_counters(views(sel@), x),
        ),
{
    let ghost want = readings@.map_values(|x: RawReading| decode_counters(views(sel@), x));
    let mut r: Vec<Option<(Vec<String>, Vec<i64>)>> = Vec::new();
    for k in 0..readings.len()
        invariant
            r.len() == k,
            want == readings@.map_values(|x: RawReading| decode_counters(views(sel@), x)),
            decoded_views(r@) == want.take(k as int),
    {
        let ghost before = r@;
        let d = match &readings[k] {
            RawReading::Counters(v) => if v.len() == sel.len() {
                let mut vals: Vec<i64> = Vec::new();
                for i in 0..v.len()
                    invariant
                        vals@ == v@.take(i as int),
                {
                    vals.push(v[i]);
                    assert(vals@ =~= v@.take(i + 1));
                }
                assert(v@.take(v.len() as int) =~= v@);
                Some((copy_strings(sel), vals))
            } else {
                None
            },
            _ => None,
        };
        r.push(d);
        assert(decoded_views(r@) =~= decoded_views(before).push(want[k as int]));
        assert(decoded_views(r@) =~= want.take(k + 1));
    }
    assert(want.take(readings.len() as int) =~= want);
    r
}

/// Whether a cached metric agrees with the selection `sel`: it carries the
/// selected names, and one value per name once it has values.
pub open spec fn fits_selection(m: MetricView, sel: Seq<Seq<char>>) -> bool {
    &&& m.names == sel
    &&& m.values matches Some(v) ==> v.len() == sel.len()
}

proof fn lemma_lookup_fits(cache: Seq<MetricView>, sel: Seq<Seq<char>>, job: i32)
    requires
        forall|i: int| 0 <= i < cache.len() ==> fits_selection(#[trigger] cache[i], sel),
    ensures
        lookup(cache, job) matches Some(m) ==> fits_selection(m, sel),
{
    lemma_lookup_job(cache, job);
}

/// A poll keeps every metric of the counter backend in agreement with the
/// selection: after the selection is replaced (and the cache emptied), each
/// job reports exactly the selected names, with one value each.
pub proof fn lemma_polls_report_selection(
    cache: Seq<MetricView>,
    sel: Seq<Seq<char>>,
    jobs: Seq<i32>,
    hostname: Seq<char>,
    name: Seq<char>,
    now: i64,
    readings: Seq<RawReading>,
    decoded: Seq<Option<(Seq<Seq<char>>, Seq<i64>)>>,
)
    requires
        forall|i: int| 0 <= i < cache.len() ==> fits_selection(#[trigger] cache[i], sel),
        decoded == readings.map_values(|x: RawReading| decode_counters(sel, x)),
    ensures
        forall|i: int|
            0 <= i < next_cache(cache, jobs, hostname, name, now, sel, decoded).len()
                ==> fits_selection(
                #[trigger] next_cache(cache, jobs, hostname, name, now, sel, decoded)[i],
                sel,
            ),
    decreases jobs.len(),
{
    if jobs.len() > 0 && decoded.len() > 0 {
        assert(readings.drop_last().map_values(|x: RawReading| decode_counters(sel, x))
            =~= decoded.drop_last());
        lemma_polls_report_selection(
            cache,
            sel,
            jobs.drop_last(),
            hostname,
            name,
            now,
            readings.drop_last(),
            decoded.drop_last(),
        );
        assert(decoded.last() == decode_counters(sel, readings.last()));
        lemma_lookup_fits(cache, sel, jobs.last());
        let prev = next_cache(cache, jobs.drop_last(), hostname, name, now, sel, decoded.drop_last());
        let c = next_cache(cache, jobs, hostname, name, now, sel, decoded);
        assert(c == prev.push(
            next_metric(lookup(cache, jobs.last()), jobs.last(), hostname, name, now, sel, decoded.last()),
        ));
        assert forall|i: int| 0 <= i < c.len() implies fits_selection(#[trigger] c[i], sel) by {
            if i < prev.len() {
                assert(c[i] == prev[i]);
            }
        }
    }
}

/// The names of the counters read for a job until a selection arrives.
pub open spec fn default_selection() -> Seq<Seq<char>> {
    seq!["instructions"@, "cache_misses"@, "page_faults"@]
}

/// Reads hardware counters scoped to each job's cgroup. The counters to read
/// can be changed while running.
pub struct PerfhwBackend {
    pub cache: MetricCache,
    pub metrics_to_get: Vec<String>,
    pub programmed: Vec<i32>,
}

impl PerfhwBackend {
    /// A counter backend that reads instructions, cache misses and page
    /// faults, with no job read yet.
    pub fn new(hostname: String) -> (r: PerfhwBackend)
        ensures
            r.name_view() == "Perfhw"@,
            r.hostname_view() == hostname@,
            r.cache_view() == Seq::<MetricView>::empty(),
            r.selection_view() == Some(default_selection()),
            r.programmed_view() == Set::<i32>::empty(),
            r.inv(),
    {
        let mut sel: Vec<String> = Vec::new();
        sel.push(String::from_str("instructions"));
        sel.push(String::from_str("cache_misses"));
        sel.push(String::from_str("page_faults"));
        assert(views(sel@) =~= default_selection());
        PerfhwBackend {
            cache: MetricCache::new(String::from_str("Perfhw"), hostname),
            metrics_to_get: sel,
            programmed: Vec::new(),
        }
    }

    /// The selected counter names joined with commas, as the counter library
    /// takes them.
    pub fn selection_list(&self) -> (r: String)
        ensures
            r@ == joined(views(self.metrics_to_get@), ','),
    {
        join_with(&self.metrics_to_get, ',')
    }

    /// How many values a read of the selected counters must return.
    pub fn selection_len(&self) -> (r: usize)
        ensures
            r == self.metrics_to_get@.len(),
    {
        self.metrics_to_get.len()
    }

    /// Whether the counters of `job` must be programmed before they are read:
    /// true until they were programmed for the current selection.
    pub fn needs_programming(&self, job: i32) -> (r: bool)
        ensures
            r == !self.programmed_view().contains(job),
    {
        let mut i: usize = 0;
        while i < self.programmed.len()
            invariant
                i <= self.programmed@.len(),
                forall|j: int| 0 <= j < i ==> self.programmed@[j] != job,
            decreases self.programmed.len() - i,
        {
            if self.programmed[i] == job {
                return false;
            }
            i = i + 1;
        }
        true
    }
}

impl Backend for PerfhwBackend {
    open spec fn name_view(&self) -> Seq<char> {
        self.cache.backend_name@
    }

    open spec fn hostname_view(&self) -> Seq<char> {
        self.cache.hostname@
    }

    open spec fn cache_view(&self) -> Seq<MetricView> {
        self.cache.view_cache()
    }

    open spec fn selection_view(&self) -> Option<Seq<Seq<char>>> {
        Some(views(self.metrics_to_get@))
    }

    open spec fn decode(&self, r: RawReading) -> Option<(Seq<Seq<char>>, Seq<i64>)> {
        decode_counters(views(self.metrics_to_get@), r)
    }

    open spec fn path_of(&self, cgroup_name: Seq<char>) -> Seq<char> {
        "/oar/"@ + cgroup_name
    }

    open spec fn programmed_view(&self) -> Set<i32> {
        Set::new(|j: i32| self.programmed@.contains(j))
    }

    open spec fn inv(&self) -> bool {
        &&& self.cache.wf()
        &&& forall|i: int|
            0 <= i < self.cache_view().len() ==> fits_selection(
                #[trigger] self.cache_view()[i],
                views(self.metrics_to_get@),
            )
    }

    fn get_backend_name(&self) -> (r: String) {
        self.cache.backend_name.clone()
    }

    fn source_path(&self, cgroup_name: &str) -> (r: String) {
        let mut r = String::from_str("/oar/");
        append_str(&mut r, cgroup_name);
        r
    }

    fn get_metrics(
        &mut self,
        jobs: &Vec<(i32, String)>,
        readings: &Vec<RawReading>,
        now: i64,
    ) -> (r: Vec<Metric>) {
        let decoded = decode_counter_readings(readings, &self.metrics_to_get);
        let ghost dv = decoded_views(decoded@);
        proof {
            lemma_polls_report_selection(
                self.cache_view(),
                views(self.metrics_to_get@),
                job_ids(jobs@),
                self.cache.hostname@,
                self.cache.backend_name@,
                now,
                readings@,
                dv,
            );
        }
        assert(readings@.map_values(|x: RawReading| decode_counters(views(self.metrics_to_get@), x)) =~= readings@.map_values(
            |x: RawReading| self.decode(x),
        ));
        self.cache.update(jobs, &self.metrics_to_get, decoded, now);
        let mut programmed: Vec<i32> = Vec::new();
        for k in 0..jobs.len()
            invariant
                jobs.len() == readings.len(),
                forall|j: i32|
                    programmed@.contains(j) <==> exists|i: int|
                        0 <= i < k && job_ids(jobs@)[i] == j && !(readings@[i] is NotProgrammed),
        {
            let ghost before = programmed@;
            assert(job_ids(jobs@)[k as int] == jobs@[k as int].0);
            let ok = match &readings[k] {
                RawReading::NotProgrammed => false,
                _ => true,
            };
            if ok {
                programmed.push(jobs[k].0);
            }
            assert(ok ==> programmed@ == before.push(jobs@[k as int].0));
            assert(!ok ==> programmed@ == before);
            assert(ok == !(readings@[k as int] is NotProgrammed));
            assert forall|j: i32|
                programmed@.contains(j) <==> exists|i: int|
                    0 <= i < k + 1 && job_ids(jobs@)[i] == j && !(readings@[i] is NotProgrammed) by {
                if programmed@.contains(j) {
                    let p = choose|p: int| 0 <= p < programmed@.len() && programmed@[p] == j;
                    if p < before.len() {
                        assert(before[p] == j);
                        assert(before.contains(j));
                        let i = choose|i: int|
                            0 <= i < k && job_ids(jobs@)[i] == j && !(readings@[i] is NotProgrammed);
                        assert(0 <= i < k + 1 && job_ids(jobs@)[i] == j && !(readings@[i] is NotProgrammed));
                    } else {
                        assert(ok);
                        assert(job_ids(jobs@)[k as int] == j);
                    }
                }
                if exists|i: int|
                    0 <= i < k + 1 && job_ids(jobs@)[i] == j && !(readings@[i] is NotProgrammed) {
                    let i = choose|i: int|
                        0 <= i < k + 1 && job_ids(jobs@)[i] == j && !(readings@[i] is NotProgrammed);
                    if i < k {
                        assert(before.contains(j));
                        let p = choose|p: int| 0 <= p < before.len() && before[p] == j;
                        assert(programmed@[p] == j);
                    } else {
                        assert(ok);
                        assert(programmed@[before.len() as int] == j);
                    }
                }
            }
        }
        self.programmed = programmed;
        assert(self.programmed_view() =~= programmed_after(job_ids(jobs@), readings@));
        copy_metrics(&self.cache.metrics)
    }

    fn set_metrics_to_get(&mut self, metrics_to_get: Vec<String>) {
        self.metrics_to_get = metrics_to_get;
        self.cache.metrics = Vec::new();
        self.programmed = Vec::new();
        assert(self.cache.view_cache() =~= Seq::<MetricView>::empty());
        assert(self.programmed_view() =~= Set::<i32>::empty());
    }
}

} // verus!
