//! The registry of jobs running on this node, kept from the cgroup directory
//! names seen at start-up and from directory events afterwards.

use vstd::prelude::*;

use crate::text::{
    chars_of, digits_value, i32_of, is_digit, lemma_digits_nonneg, parse_i32, push_char, views,
};

verus! {

#[verifier::external_type_specification]
#[verifier::external_body]
pub struct ExRegex(regex::Regex);

#[verifier::external_type_specification]
#[verifier::external_body]
pub struct ExRegexError(regex::Error);

/// Whether `m` occurs in `s` as a contiguous run of characters.
pub open spec fn is_substring(m: Seq<char>, s: Seq<char>) -> bool {
    exists|i: int| 0 <= i && i + m.len() <= s.len() && #[trigger] s.subrange(i, i + m.len()) == m
}

/// The text of the leftmost match of the regular expression `pattern` in
/// `haystack`, if any.
pub uninterp spec fn regex_find(pattern: Seq<char>, haystack: Seq<char>) -> Option<Seq<char>>;

/// Relies on `regex::Regex::new`: compiles the pattern, or fails on an
/// invalid one.
#[verifier::external_body]
fn compile_regex(pattern: &str) -> (r: Result<regex::Regex, regex::Error>) {
    regex::Regex::new(pattern)
}

/// Relies on `regex::Regex::find` with `Match::as_str`: the text of the
/// leftmost match, a slice of the haystack, which depends on the pattern and
/// the haystack alone. `p.re` is compiled from `p.text`, and neither changes
/// after `JobIdPattern::new`.
#[verifier::external_body]
fn find_match(p: &JobIdPattern, haystack: &str) -> (r: Option<String>)
    ensures
        opt_view(r) == regex_find(p.text_view(), haystack@),
        r matches Some(m) ==> is_substring(m@, haystack@),
{
    match p.re.find(haystack) {
        Some(m) => Some(m.as_str().to_string()),
        None => None,
    }
}

/// The job id written in a match of the job-id pattern: what follows its
/// first character, the separator, read as a decimal integer.
pub open spec fn job_id_in(matched: Seq<char>) -> Option<i32> {
    if matched.len() >= 1 {
        i32_of(matched.drop_first())
    } else {
        None
    }
}

/// The job id written in a match of the job-id pattern.
pub fn extract_job_id(matched: &str) -> (r: Option<i32>)
    ensures
        r == job_id_in(matched@),
{
    let cs = chars_of(matched);
    if cs.len() < 1 {
        return None;
    }
    let mut digits = String::new();
    let mut i: usize = 1;
    while i < cs.len()
        invariant
            cs@ == matched@,
            1 <= i <= cs.len(),
            digits@ == matched@.subrange(1, i as int),
        decreases cs.len() - i,
    {
        push_char(&mut digits, cs[i]);
        assert(digits@ =~= matched@.subrange(1, i + 1));
        i = i + 1;
    }
    assert(digits@ =~= matched@.drop_first());
    parse_i32(digits.as_str())
}

/// A match made of a separator followed by decimal digits carries the
/// integer those digits write, whenever it fits in an `i32`.
pub proof fn lemma_job_id_after_separator(sep: char, digits: Seq<char>)
    requires
        digits.len() > 0,
        forall|i: int| 0 <= i < digits.len() ==> is_digit(#[trigger] digits[i]),
        digits_value(digits) <= i32::MAX,
    ensures
        job_id_in(seq![sep] + digits) == Some(digits_value(digits) as i32),
{
    assert((seq![sep] + digits).drop_first() =~= digits);
    assert(is_digit(digits[0]));
    lemma_digits_nonneg(digits);
}

/// The compiled pattern that finds a job id in a cgroup directory name,
/// with the text it was compiled from.
pub struct JobIdPattern {
    text: String,
    re: regex::Regex,
}

/// Why a job-id pattern was refused.
pub enum PatternError {
    /// The pattern is not a valid regular expression.
    Invalid,
}

/// The job id in a cgroup directory name whose match of the job-id pattern
/// is `matched`.
pub open spec fn job_id_of_match(matched: Option<Seq<char>>) -> Option<i32> {
    match matched {
        Some(m) => job_id_in(m),
        None => None,
    }
}

impl JobIdPattern {
    /// The text the pattern was compiled from.
    pub closed spec fn text_view(&self) -> Seq<char> {
        self.text@
    }

    /// Compiles `pattern`.
    pub fn new(pattern: &str) -> (r: Result<JobIdPattern, PatternError>)
        ensures
            r matches Ok(p) ==> p.text_view() == pattern@,
    {
        match compile_regex(pattern) {
            Ok(re) => Ok(JobIdPattern { text: String::from_str(pattern), re }),
            Err(_) => Err(PatternError::Invalid),
        }
    }

    /// The leftmost match of the pattern in `name`, if any.
    pub fn find(&self, name: &str) -> (r: Option<String>)
        ensures
            opt_view(r) == regex_find(self.text_view(), name@),
            r matches Some(m) ==> is_substring(m@, name@),
    {
        find_match(self, name)
    }

    /// The job id in `name`: the integer after the separator of the
    /// pattern's match, if there is a match and it carries one.
    pub fn job_id_of(&self, name: &str) -> (r: Option<i32>)
        ensures
            r == job_id_of_match(regex_find(self.text_view(), name@)),
    {
        match self.find(name) {
            Some(m) => extract_job_id(m.as_str()),
            None => None,
        }
    }
}

/// The mapping a list of (job id, cgroup name) pairs stands for; a later
/// pair for the same id wins.
pub open spec fn pairs_map(s: Seq<(i32, String)>) -> Map<i32, Seq<char>>
    decreases s.len(),
{
    if s.len() == 0 {
        Map::empty()
    } else {
        pairs_map(s.drop_last()).insert(s.last().0, s.last().1@)
    }
}

/// Whether no two pairs of `s` carry the same job id.
pub open spec fn unique_ids(s: Seq<(i32, String)>) -> bool {
    forall|i: int, j: int| 0 <= i < j < s.len() ==> s[i].0 != s[j].0
}

proof fn lemma_pairs_map_keys(s: Seq<(i32, String)>, id: i32)
    ensures
        pairs_map(s).contains_key(id) <==> exists|i: int| 0 <= i < s.len() && s[i].0 == id,
    decreases s.len(),
{
    if s.len() > 0 {
        lemma_pairs_map_keys(s.drop_last(), id);
        if pairs_map(s.drop_last()).contains_key(id) {
            let i = choose|i: int| 0 <= i < s.len() - 1 && s.drop_last()[i].0 == id;
            assert(s[i].0 == id);
        }
        if exists|i: int| 0 <= i < s.len() && s[i].0 == id {
            let i = choose|i: int| 0 <= i < s.len() && s[i].0 == id;
            if i < s.len() - 1 {
                assert(s.drop_last()[i].0 == id);
            }
        }
    }
}

/// The registry's state, as mathematical values: the tracked jobs, and the
/// sample period in nanoseconds, as configured and as currently in force.
pub struct RegistryView {
    pub jobs: Map<i32, Seq<char>>,
    pub initial_sample_period: u64,
    pub current_sample_period: u64,
}

/// The registry after a removal of `id`: the job is gone and the sample
/// period is back at its configured value.
pub open spec fn removed(v: RegistryView, id: i32) -> RegistryView {
    RegistryView {
        jobs: v.jobs.remove(id),
        current_sample_period: v.initial_sample_period,
        ..v
    }
}

/// The registry after a create event for the directory `name`, whose match
/// of the job-id pattern is `matched`: the job is added when the match
/// carries a job id.
pub open spec fn after_created(v: RegistryView, name: Seq<char>, matched: Option<Seq<char>>) -> RegistryView {
    match job_id_of_match(matched) {
        Some(id) => RegistryView { jobs: v.jobs.insert(id, name), ..v },
        None => v,
    }
}

/// The registry after a delete event for a directory whose match of the
/// job-id pattern is `matched`: the job is removed when the match carries a
/// job id.
pub open spec fn after_deleted(v: RegistryView, matched: Option<Seq<char>>) -> RegistryView {
    match job_id_of_match(matched) {
        Some(id) => removed(v, id),
        None => v,
    }
}

/// After a create event for a directory whose name carries job `j`, the
/// registry tracks `j` under that name; after a delete event for a name that
/// carries `j`, it no longer tracks `j`, whatever it held before.
pub proof fn lemma_create_then_delete(v: RegistryView, w: RegistryView, name: Seq<char>, matched: Seq<char>, j: i32)
    requires
        job_id_in(matched) == Some(j),
    ensures
        after_created(v, name, Some(matched)).jobs.contains_key(j),
        after_created(v, name, Some(matched)).jobs[j] == name,
        !after_deleted(w, Some(matched)).jobs.contains_key(j),
{
}

/// Removing the last tracked job leaves no job tracked and puts the sample
/// period back at its configured value.
pub proof fn lemma_last_removal_resets_period(v: RegistryView, id: i32)
    requires
        v.jobs.dom() == set![id],
    ensures
        removed(v, id).jobs.dom().is_empty(),
        removed(v, id).current_sample_period == v.initial_sample_period,
{
    assert(removed(v, id).jobs.dom() =~= Set::<i32>::empty());
}

/// The registry after the start-up scan found the directories `names`,
/// `matched[i]` being the match of the job-id pattern in `names[i]`.
pub open spec fn after_scan(v: RegistryView, names: Seq<Seq<char>>, matched: Seq<Option<Seq<char>>>) -> RegistryView
    decreases names.len(),
{
    if names.len() == 0 || matched.len() == 0 {
        v
    } else {
        after_created(
            after_scan(v, names.drop_last(), matched.drop_last()),
            names.last(),
            matched.last(),
        )
    }
}

/// After the start-up scan, a directory whose match carries job id `id`
/// is tracked under that id, unless a later directory carries the same id.
pub proof fn lemma_scan_registers(
    v: RegistryView,
    names: Seq<Seq<char>>,
    matched: Seq<Option<Seq<char>>>,
    i: int,
    id: i32,
)
    requires
        names.len() == matched.len(),
        0 <= i < names.len(),
        job_id_of_match(matched[i]) == Some(id),
        forall|j: int| i < j < names.len() ==> job_id_of_match(#[trigger] matched[j]) != Some(id),
    ensures
        after_scan(v, names, matched).jobs.contains_key(id),
        after_scan(v, names, matched).jobs[id] == names[i],
    decreases names.len(),
{
    if i < names.len() - 1 {
        lemma_scan_registers(v, names.drop_last(), matched.drop_last(), i, id);
        assert(job_id_of_match(matched[names.len() - 1]) != Some(id));
    }
}

/// The start-up scan leaves the sample period alone, and every job it
/// tracks was tracked before or is carried by the match of a scanned name.
pub proof fn lemma_scan_only_adds_matches(
    v: RegistryView,
    names: Seq<Seq<char>>,
    matched: Seq<Option<Seq<char>>>,
)
    requires
        names.len() == matched.len(),
    ensures
        after_scan(v, names, matched).initial_sample_period == v.initial_sample_period,
        after_scan(v, names, matched).current_sample_period == v.current_sample_period,
        forall|id: i32|
            #[trigger] after_scan(v, names, matched).jobs.contains_key(id) ==> v.jobs.contains_key(id)
                || exists|i: int| 0 <= i < matched.len() && job_id_of_match(matched[i]) == Some(id),
    decreases names.len(),
{
    if names.len() > 0 {
        lemma_scan_only_adds_matches(v, names.drop_last(), matched.drop_last());
        let r = after_scan(v, names, matched);
        assert forall|id: i32| #[trigger] r.jobs.contains_key(id) implies v.jobs.contains_key(id)
            || exists|i: int| 0 <= i < matched.len() && job_id_of_match(matched[i]) == Some(id) by {
            if job_id_of_match(matched.last()) == Some(id) {
                assert(job_id_of_match(matched[matched.len() - 1]) == Some(id));
            } else if !v.jobs.contains_key(id) {
                let i = choose|i: int|
                    0 <= i < matched.drop_last().len() && job_id_of_match(matched.drop_last()[i]) == Some(id);
                assert(matched[i] == matched.drop_last()[i]);
            }
        }
    }
}

/// What changed in the watched cgroup directory.
pub enum DirEventKind {
    Create,
    Delete,
    Other,
}

/// One change in the watched cgroup directory.
pub struct DirEvent {
    pub kind: DirEventKind,
    pub is_dir: bool,
    pub name: String,
}

/// The registry after `event`, whose name's match of the job-id pattern is
/// `matched`. Only directories count.
pub open spec fn after_event(v: RegistryView, event: DirEvent, matched: Option<Seq<char>>) -> RegistryView {
    if !event.is_dir {
        v
    } else {
        match event.kind {
            DirEventKind::Create => after_created(v, event.name@, matched),
            DirEventKind::Delete => after_deleted(v, matched),
            DirEventKind::Other => v,
        }
    }
}

/// The jobs currently running on this node, with the sample period that
/// losing a job resets.
pub struct CgroupManager {
    cgroups: Vec<(i32, String)>,
    initial_sample_period: u64,
    current_sample_period: u64,
}

impl View for CgroupManager {
    type V = RegistryView;

    closed spec fn view(&self) -> RegistryView {
        RegistryView {
            jobs: pairs_map(self.cgroups@),
            initial_sample_period: self.initial_sample_period,
            current_sample_period: self.current_sample_period,
        }
    }
}

impl CgroupManager {
    /// No two tracked entries carry the same job id.
    pub closed spec fn wf(&self) -> bool {
        unique_ids(self.cgroups@)
    }

    /// An empty registry whose sample period, in nanoseconds, starts at and
    /// resets to `initial_sample_period`.
    pub fn new(initial_sample_period: u64) -> (r: CgroupManager)
        ensures
            r.wf(),
            r@.jobs == Map::<i32, Seq<char>>::empty(),
            r@.initial_sample_period == initial_sample_period,
            r@.current_sample_period == initial_sample_period,
    {
        CgroupManager {
            cgroups: Vec::new(),
            initial_sample_period,
            current_sample_period: initial_sample_period,
        }
    }

    /// Drops the entry of `id`, if any, leaving the sample period as it is.
    fn drop_entry(&mut self, id: i32)
        requires
            old(self).wf(),
        ensures
            final(self).wf(),
            final(self)@ == (RegistryView { jobs: old(self)@.jobs.remove(id), ..old(self)@ }),
    {
        let ghost s = self.cgroups@;
        let mut kept: Vec<(i32, String)> = Vec::new();
        for i in 0..self.cgroups.len()
            invariant
                self.cgroups@ == s,
                unique_ids(s),
                unique_ids(kept@),
                pairs_map(kept@) == pairs_map(s.take(i as int)).remove(id),
        {
            let entry = (self.cgroups[i].0, self.cgroups[i].1.clone());
            assert(s.take(i + 1).drop_last() =~= s.take(i as int));
            if entry.0 != id {
                proof {
                    lemma_pairs_map_keys(s.take(i as int), entry.0);
                    lemma_pairs_map_keys(kept@, entry.0);
                    if exists|j: int| 0 <= j < i && s.take(i as int)[j].0 == entry.0 {
                        let j = choose|j: int| 0 <= j < i && s.take(i as int)[j].0 == entry.0;
                        assert(s[j].0 == s[i as int].0);
                    }
                }
                let ghost kb = kept@;
                kept.push(entry);
                assert(kept@.drop_last() =~= kb);
                assert(s.take(i + 1).last() == s[i as int]);
                assert(pairs_map(kept@) == pairs_map(kb).insert(entry.0, entry.1@));
                assert(pairs_map(s.take(i + 1)) == pairs_map(s.take(i as int)).insert(s[i as int].0, s[i as int].1@));
                assert(pairs_map(kept@) =~= pairs_map(s.take(i + 1)).remove(id));
                proof {
                    assert forall|a: int, b: int| 0 <= a < b < kept@.len() implies kept@[a].0 != kept@[b].0 by {
                        if b == kept@.len() - 1 && a < b {
                            assert(kept@.drop_last()[a].0 == kept@[a].0);
                        }
                    }
                }
            } else {
                assert(pairs_map(kept@) =~= pairs_map(s.take(i + 1)).remove(id));
            }
        }
        assert(s.take(s.len() as int) =~= s);
        self.cgroups = kept;
    }

    /// Tracks `name` as the cgroup of job `id`, replacing an earlier entry.
    pub fn add_cgroup(&mut self, id: i32, name: String)
        requires
            old(self).wf(),
        ensures
            final(self).wf(),
            final(self)@ == (RegistryView { jobs: old(self)@.jobs.insert(id, name@), ..old(self)@ }),
    {
        self.drop_entry(id);
        proof {
            lemma_pairs_map_keys(self.cgroups@, id);
        }
        let ghost before = self.cgroups@;
        self.cgroups.push((id, name));
        assert(self.cgroups@.drop_last() == before);
        assert(pairs_map(self.cgroups@) =~= old(self)@.jobs.insert(id, name@));
        assert forall|a: int, b: int| 0 <= a < b < self.cgroups@.len() implies self.cgroups@[a].0 != self.cgroups@[b].0 by {
            if b == self.cgroups@.len() - 1 {
                assert(before[a].0 == self.cgroups@[a].0);
            } else {
                assert(before[a].0 == self.cgroups@[a].0 && before[b].0 == self.cgroups@[b].0);
            }
        }
    }

    /// Stops tracking job `id` and puts the sample period back at its
    /// configured value.
    pub fn remove_cgroup(&mut self, id: i32)
        requires
            old(self).wf(),
        ensures
            final(self).wf(),
            final(self)@ == removed(old(self)@, id),
    {
        self.drop_entry(id);
        self.current_sample_period = self.initial_sample_period;
    }

    /// A copy of the tracked jobs: (job id, cgroup name) pairs, no two with
    /// the same id.
    pub fn get_cgroups(&self) -> (r: Vec<(i32, String)>)
        requires
            self.wf(),
        ensures
            unique_ids(r@),
            pairs_map(r@) == self@.jobs,
    {
        let mut r: Vec<(i32, String)> = Vec::new();
        for i in 0..self.cgroups.len()
            invariant
                self.wf(),
                r@.len() == i,
                forall|j: int| 0 <= j < i ==> (#[trigger] r@[j]).0 == self.cgroups@[j].0 && r@[j].1@ == self.cgroups@[j].1@,
        {
            r.push((self.cgroups[i].0, self.cgroups[i].1.clone()));
        }
        proof {
            lemma_same_pairs_map(r@, self.cgroups@);
        }
        r
    }

    /// The sample period in force, in nanoseconds.
    pub fn sample_period(&self) -> (r: u64)
        ensures
            r == self@.current_sample_period,
    {
        self.current_sample_period
    }

    /// Puts a new sample period, in nanoseconds, in force.
    pub fn set_sample_period(&mut self, period: u64)
        requires
            old(self).wf(),
        ensures
            final(self).wf(),
            final(self)@ == (RegistryView { current_sample_period: period, ..old(self)@ }),
    {
        self.current_sample_period = period;
    }

    /// Takes a create event for the directory `name` whose match of the
    /// job-id pattern is `matched`.
    pub fn register_created(&mut self, name: String, matched: Option<String>)
        requires
            old(self).wf(),
        ensures
            final(self).wf(),
            final(self)@ == after_created(old(self)@, name@, opt_view(matched)),
    {
        match matched {
            Some(m) => match extract_job_id(m.as_str()) {
                Some(id) => self.add_cgroup(id, name),
                None => {},
            },
            None => {},
        }
    }

    /// Takes a delete event for a directory whose match of the job-id
    /// pattern is `matched`.
    pub fn register_deleted(&mut self, matched: Option<String>)
        requires
            old(self).wf(),
        ensures
            final(self).wf(),
            final(self)@ == after_deleted(old(self)@, opt_view(matched)),
    {
        match matched {
            Some(m) => match extract_job_id(m.as_str()) {
                Some(id) => self.remove_cgroup(id),
                None => {},
            },
            None => {},
        }
    }

    /// Takes `event`, whose name's match of the job-id pattern is `matched`.
    pub fn apply_event_matched(&mut self, event: DirEvent, matched: Option<String>)
        requires
            old(self).wf(),
        ensures
            final(self).wf(),
            final(self)@ == after_event(old(self)@, event, opt_view(matched)),
    {
        if event.is_dir {
            match event.kind {
                DirEventKind::Create => self.register_created(event.name, matched),
                DirEventKind::Delete => self.register_deleted(matched),
                DirEventKind::Other => {},
            }
        }
    }

    /// Takes `event`, matching its name against `pattern`.
    pub fn apply_event(&mut self, pattern: &JobIdPattern, event: DirEvent)
        requires
            old(self).wf(),
        ensures
            final(self).wf(),
            final(self)@ == after_event(
                old(self)@,
                event,
                regex_find(pattern.text_view(), event.name@),
            ),
    {
        let matched = pattern.find(event.name.as_str());
        self.apply_event_matched(event, matched);
    }

    /// Registers the directories `names` found at start-up, `matched[i]`
    /// being the match of the job-id pattern in `names[i]`.
    pub fn scan_matched(&mut self, names: &Vec<String>, matched: Vec<Option<String>>)
        requires
            old(self).wf(),
            names.len() == matched.len(),
        ensures
            final(self).wf(),
            final(self)@ == after_scan(old(self)@, views(names@), opt_views(matched@)),
    {
        let ghost nv = views(names@);
        let ghost mv = opt_views(matched@);
        let mut i: usize = 0;
        while i < names.len()
            invariant
                self.wf(),
                i <= names.len(),
                names.len() == matched.len(),
                nv == views(names@),
                mv == opt_views(matched@),
                self@ == after_scan(old(self)@, nv.take(i as int), mv.take(i as int)),
            decreases names.len() - i,
        {
            assert(nv.take(i + 1).drop_last() =~= nv.take(i as int));
            assert(mv.take(i + 1).drop_last() =~= mv.take(i as int));
            assert(nv.take(i + 1).last() == names@[i as int]@);
            assert(mv.take(i + 1).last() == opt_view(matched@[i as int]));
            let m = match &matched[i] {
                Some(t) => Some(t.clone()),
                None => None,
            };
            self.register_created(names[i].clone(), m);
            i = i + 1;
        }
        assert(nv.take(names.len() as int) =~= nv);
        assert(mv.take(names.len() as int) =~= mv);
    }

    /// Registers every directory of `names`, the entries of the cgroup root
    /// found at start-up, whose name carries a job id.
    pub fn scan(&mut self, pattern: &JobIdPattern, names: &Vec<String>)
        requires
            old(self).wf(),
        ensures
            final(self).wf(),
            final(self)@ == after_scan(
                old(self)@,
                views(names@),
                scan_matches(pattern.text_view(), views(names@)),
            ),
    {
        let ghost want = scan_matches(pattern.text_view(), views(names@));
        let mut matched: Vec<Option<String>> = Vec::new();
        for i in 0..names.len()
            invariant
                want == scan_matches(pattern.text_view(), views(names@)),
                opt_views(matched@) == want.take(i as int),
        {
            let m = pattern.find(names[i].as_str());
            let ghost before = matched@;
            matched.push(m);
            assert(opt_views(matched@) =~= opt_views(before).push(opt_view(m)));
            assert(opt_views(matched@) =~= want.take(i + 1));
        }
        assert(want.take(names.len() as int) =~= want);
        self.scan_matched(names, matched);
    }
}

/// The pattern's match in each of `names`.
pub open spec fn scan_matches(pattern: Seq<char>, names: Seq<Seq<char>>) -> Seq<Option<Seq<char>>> {
    names.map_values(|n: Seq<char>| regex_find(pattern, n))
}

/// The views of a sequence of optional strings.
pub open spec fn opt_views(s: Seq<Option<String>>) -> Seq<Option<Seq<char>>> {
    s.map_values(|x: Option<String>| opt_view(x))
}

/// The view of an optional string.
pub open spec fn opt_view(s: Option<String>) -> Option<Seq<char>> {
    match s {
        Some(t) => Some(t@),
        None => None,
    }
}

proof fn lemma_same_pairs_map(a: Seq<(i32, String)>, b: Seq<(i32, String)>)
    requires
        a.len() == b.len(),
        forall|j: int| 0 <= j < a.len() ==> (#[trigger] a[j]).0 == b[j].0 && a[j].1@ == b[j].1@,
    ensures
        pairs_map(a) == pairs_map(b),
        unique_ids(b) ==> unique_ids(a),
    decreases a.len(),
{
    if a.len() > 0 {
        lemma_same_pairs_map(a.drop_last(), b.drop_last());
    }
}

} // verus!
