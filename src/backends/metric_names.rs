//! The wire schema's table of metric names. A name's id is its position in
//! the table plus one; the collector holds the same table, so the order is
//! part of the wire format and entries are only ever appended.

use vstd::prelude::*;

use crate::text::{chars_of, same_chars};

verus! {

/// The metric names known to the wire schema, in id order: memory names
/// first, then the CPU throttling names, then the hardware-counter names.
pub open spec fn metric_name_table() -> Seq<Seq<char>> {
    seq![
        "cache"@,
        "rss"@,
        "rss_huge"@,
        "shmem"@,
        "mapped_file"@,
        "dirty"@,
        "writeback"@,
        "pgpgin"@,
        "pgpgout"@,
        "pgfault"@,
        "pgmajfault"@,
        "inactive_anon"@,
        "active_anon"@,
        "inactive_file"@,
        "active_file"@,
        "unevictable"@,
        "hierarchical_memory_limit"@,
        "total_cache"@,
        "total_rss"@,
        "total_rss_huge"@,
        "total_shmem"@,
        "total_mapped_file"@,
        "total_dirty"@,
        "total_writeback"@,
        "total_pgpgin"@,
        "total_pgpgout"@,
        "total_pgfault"@,
        "total_pgmajfault"@,
        "total_inactive_anon"@,
        "total_active_anon"@,
        "total_inactive_file"@,
        "total_active_file"@,
        "total_unevictable"@,
        "nr_periods"@,
        "nr_throttled"@,
        "throttled_time"@,
        "cpu_cycles"@,
        "instructions"@,
        "cache_references"@,
        "cache_misses"@,
        "branch_instructions"@,
        "branch_misses"@,
        "bus_cycles"@,
        "ref_cpu_cycles"@,
        "cache_l1d"@,
        "cache_ll"@,
        "cache_dtlb"@,
        "cache_itlb"@,
        "cache_bpu"@,
        "cache_node"@,
        "cache_op_read"@,
        "cache_op_prefetch"@,
        "cache_result_access"@,
        "cpu_clock"@,
        "task_clock"@,
        "page_faults"@,
        "context_switches"@,
        "cpu_migrations"@,
        "page_faults_min"@,
        "page_faults_maj"@,
        "alignment_faults"@,
        "emulation_faults"@,
        "dummy"@,
        "bpf_output"@,
    ]
}

/// Whether `i` is the first position of `name` in `t`.
pub open spec fn first_position(t: Seq<Seq<char>>, name: Seq<char>, i: int) -> bool {
    &&& 0 <= i < t.len()
    &&& t[i] == name
    &&& forall|j: int| 0 <= j < i ==> t[j] != name
}

/// The id of a metric name, or `None` for a name the schema does not know.
pub open spec fn metric_id(name: Seq<char>) -> Option<i32> {
    let t = metric_name_table();
    if exists|i: int| first_position(t, name, i) {
        Some(((choose|i: int| first_position(t, name, i)) + 1) as i32)
    } else {
        None
    }
}

/// Whether the schema knows `name`.
pub open spec fn is_known_metric(name: Seq<char>) -> bool {
    metric_id(name) is Some
}

fn metric_name_literals() -> (r: Vec<&'static str>)
    ensures
        r@.map_values(|s: &str| s@) == metric_name_table(),
{
    let r = vec![
        "cache",
        "rss",
        "rss_huge",
        "shmem",
        "mapped_file",
        "dirty",
        "writeback",
        "pgpgin",
        "pgpgout",
        "pgfault",
        "pgmajfault",
        "inactive_anon",
        "active_anon",
        "inactive_file",
        "active_file",
        "unevictable",
        "hierarchical_memory_limit",
        "total_cache",
        "total_rss",
        "total_rss_huge",
        "total_shmem",
        "total_mapped_file",
        "total_dirty",
        "total_writeback",
        "total_pgpgin",
        "total_pgpgout",
        "total_pgfault",
        "total_pgmajfault",
        "total_inactive_anon",
        "total_active_anon",
        "total_inactive_file",
        "total_active_file",
        "total_unevictable",
        "nr_periods",
        "nr_throttled",
        "throttled_time",
        "cpu_cycles",
        "instructions",
        "cache_references",
        "cache_misses",
        "branch_instructions",
        "branch_misses",
        "bus_cycles",
        "ref_cpu_cycles",
        "cache_l1d",
        "cache_ll",
        "cache_dtlb",
        "cache_itlb",
        "cache_bpu",
        "cache_node",
        "cache_op_read",
        "cache_op_prefetch",
        "cache_result_access",
        "cpu_clock",
        "task_clock",
        "page_faults",
        "context_switches",
        "cpu_migrations",
        "page_faults_min",
        "page_faults_maj",
        "alignment_faults",
        "emulation_faults",
        "dummy",
        "bpf_output",
    ];
    assert(r@.map_values(|s: &str| s@) =~= metric_name_table());
    r
}

/// The id of `name` in the table, or `None` when the schema does not know it.
pub fn metric_name_id(name: &str) -> (r: Option<i32>)
    ensures
        r == metric_id(name@),
{
    let table = metric_name_literals();
    let ghost t = metric_name_table();
    let wanted = chars_of(name);
    let mut i: usize = 0;
    while i < table.len()
        invariant
            table@.map_values(|s: &str| s@) == t,
            t == metric_name_table(),
            wanted@ == name@,
            i <= table.len(),
            forall|j: int| 0 <= j < i ==> t[j] != name@,
        decreases table.len() - i,
    {
        let entry = chars_of(table[i]);
        assert(table@[i as int]@ == t[i as int]);
        if same_chars(&entry, &wanted) {
            assert(first_position(t, name@, i as int));
            proof {
                let k = choose|k: int| first_position(t, name@, k);
                assert(k == i as int) by {
                    if k < i {
                        assert(t[k] != name@);
                    } else if k > i {
                        assert(t[i as int] != name@);
                    }
                }
            }
            return Some(i as i32 + 1);
        }
        i = i + 1;
    }
    assert(!exists|k: int| first_position(t, name@, k)) by {
        if exists|k: int| first_position(t, name@, k) {
            let k = choose|k: int| first_position(t, name@, k);
            assert(t[k] != name@);
        }
    }
    None
}

} // verus!
