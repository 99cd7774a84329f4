//! Resident memory statistics of each job's cgroup.

use vstd::prelude::*;

use crate::backends::metric::{copy_metrics, Metric, MetricCache, MetricView, RawReading};
use crate::backends::Backend;
use crate::stat_file::{decode_stat, decode_stat_readings};
use crate::text::{concat3, views};

verus! {

/// Reads each job's `memory.stat`.
pub struct MemoryBackend {
    pub cache: MetricCache,
}

impl MemoryBackend {
    /// A memory backend with no job read yet; `hostname` is stamped on the
    /// metrics it creates.
    pub fn new(hostname: String) -> (r: MemoryBackend)
        ensures
            r.name_view() == "Memory"@,
            r.hostname_view() == hostname@,
            r.cache_view() == Seq::<MetricView>::empty(),
            r.selection_view() is None,
            r.inv(),
    {
        MemoryBackend { cache: MetricCache::new(String::from_str("Memory"), hostname) }
    }
}

impl Backend for MemoryBackend {
    open spec fn name_view(&self) -> Seq<char> {
        self.cache.backend_name@
    }

    open spec fn hostname_view(&self) -> Seq<char> {
        self.cache.hostname@
    }

    open spec fn cache_view(&self) -> Seq<MetricView> {
        self.cache.view_cache()
    }

    open spec fn selection_view(&self) -> Option<Seq<Seq<char>>> {
        None
    }

    open spec fn decode(&self, r: RawReading) -> Option<(Seq<Seq<char>>, Seq<i64>)> {
        decode_stat(r)
    }

    open spec fn path_of(&self, cgroup_name: Seq<char>) -> Seq<char> {
        "/sys/fs/cgroup/memory/oar/"@ + cgroup_name + "/memory.stat"@
    }

    open spec fn programmed_view(&self) -> Set<i32> {
        Set::empty()
    }

    open spec fn inv(&self) -> bool {
        self.cache.wf()
    }

    fn get_backend_name(&self) -> (r: String) {
        self.cache.backend_name.clone()
    }

    fn source_path(&self, cgroup_name: &str) -> (r: String) {
        concat3("/sys/fs/cgroup/memory/oar/", cgroup_name, "/memory.stat")
    }

    fn get_metrics(
        &mut self,
        jobs: &Vec<(i32, String)>,
        readings: &Vec<RawReading>,
        now: i64,
    ) -> (r: Vec<Metric>) {
        let decoded = decode_stat_readings(readings);
        assert(readings@.map_values(|x: RawReading| decode_stat(x)) =~= readings@.map_values(
            |x: RawReading| self.decode(x),
        ));
        let pending: Vec<String> = Vec::new();
        assert(views(pending@) =~= Seq::<Seq<char>>::empty());
        self.cache.update(jobs, &pending, decoded, now);
        copy_metrics(&self.cache.metrics)
    }

    fn set_metrics_to_get(&mut self, metrics_to_get: Vec<String>) {
    }
}

} // verus!
