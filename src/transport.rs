//! The control channel: configuration messages that change the sample period
//! and the hardware counters to read, while the agent runs.

use vstd::prelude::*;

use crate::backends::{
    all_names_known, batch_view, opt_string_view, reconfigured, try_compress_metric_names, Backend, BackendsManager,
};
use crate::cgroup_manager::{CgroupManager, RegistryView};
use crate::text::{
    all_digits, chars_of, digits_u64, digits_value, is_digit, lemma_digits_monotone,
    lemma_split_nonempty, same_chars, split_chars, split_on, views,
};

verus! {

/// Ten to the power `n`.
pub open spec fn pow10(n: nat) -> int
    decreases n,
{
    if n == 0 {
        1
    } else {
        10 * pow10((n - 1) as nat)
    }
}

/// Nanoseconds written by the digits after a decimal point: the first nine
/// count, later ones are cut off.
pub open spec fn fraction_ns(f: Seq<char>) -> int {
    if f.len() >= 9 {
        digits_value(f.take(9))
    } else {
        digits_value(f) * pow10((9 - f.len()) as nat)
    }
}

/// A number of seconds in decimal notation (digits, then optionally a point
/// and more digits, with at least one digit in all) in whole nanoseconds;
/// `None` for any other text, or when the result does not fit in a `u64`.
pub open spec fn seconds_ns(s: Seq<char>) -> Option<u64> {
    let parts = split_on(s, '.');
    let int_part = parts[0];
    let frac = if parts.len() == 2 {
        parts[1]
    } else {
        Seq::<char>::empty()
    };
    if parts.len() <= 2 && all_digits(int_part) && all_digits(frac) && int_part.len() + frac.len()
        > 0 {
        let v = digits_value(int_part) * 1_000_000_000 + fraction_ns(frac);
        if v <= u64::MAX {
            Some(v as u64)
        } else {
            None
        }
    } else {
        None
    }
}

proof fn lemma_pow10_monotone(a: nat, b: nat)
    requires
        a <= b,
    ensures
        1 <= pow10(a) <= pow10(b),
    decreases b,
{
    if b > a {
        lemma_pow10_monotone(a, (b - 1) as nat);
    } else if a > 0 {
        lemma_pow10_monotone((a - 1) as nat, (a - 1) as nat);
    }
}

proof fn lemma_pow10_nine()
    ensures
        pow10(9) == 1_000_000_000,
{
    reveal_with_fuel(pow10, 10);
}

/// The nanoseconds written by the digits after a decimal point, if they are
/// all digits.
fn fraction_u64(f: &Vec<char>) -> (r: Option<u64>)
    ensures
        r == (if all_digits(f@) {
            Some(fraction_ns(f@) as u64)
        } else {
            None
        }),
        r matches Some(v) ==> v < 1_000_000_000 && v as int == fraction_ns(f@),
{
    let mut acc: u64 = 0;
    let mut i: usize = 0;
    proof {
        lemma_pow10_nine();
    }
    while i < f.len()
        invariant
            i <= f.len(),
            forall|j: int| 0 <= j < i ==> is_digit(#[trigger] f@[j]),
            acc as int == digits_value(f@.take(if i < 9 { i as int } else { 9 })),
            acc < pow10(if i < 9 { i as nat } else { 9 }),
            pow10(9) == 1_000_000_000,
        decreases f.len() - i,
    {
        let c = f[i];
        if !('0' <= c && c <= '9') {
            return None;
        }
        if i < 9 {
            let d = (c as u32 - '0' as u32) as u64;
            assert(f@.take(i + 1).drop_last() =~= f@.take(i as int));
            proof {
                lemma_pow10_monotone((i + 1) as nat, 9);
            }
            assert(acc * 10 + d < pow10((i + 1) as nat)) by (nonlinear_arith)
                requires
                    acc < pow10(i as nat),
                    pow10((i + 1) as nat) == 10 * pow10(i as nat),
                    d <= 9,
            ;
            acc = acc * 10 + d;
        }
        i = i + 1;
    }
    proof {
        lemma_pow10_nine();
    }
    if f.len() >= 9 {
        return Some(acc);
    }
    assert(f@.take(f@.len() as int) =~= f@);
    assert(pow10(0) == 1);
    assert(digits_value(f@) * pow10(0) == digits_value(f@));
    let mut k: usize = f.len();
    while k < 9
        invariant
            f.len() <= k <= 9,
            acc as int == digits_value(f@) * pow10((k - f.len()) as nat),
            acc < pow10(k as nat),
            pow10(9) == 1_000_000_000,
        decreases 9 - k,
    {
        proof {
            lemma_pow10_monotone((k + 1) as nat, 9);
        }
        assert(acc * 10 < pow10((k + 1) as nat)) by (nonlinear_arith)
            requires
                acc < pow10(k as nat),
                pow10((k + 1) as nat) == 10 * pow10(k as nat),
        ;
        assert(pow10((k + 1 - f.len()) as nat) == 10 * pow10((k - f.len()) as nat));
        assert(digits_value(f@) * pow10((k + 1 - f.len()) as nat) == digits_value(f@) * pow10((k - f.len()) as nat) * 10) by (nonlinear_arith)
            requires
                pow10((k + 1 - f.len()) as nat) == 10 * pow10((k - f.len()) as nat),
        ;
        acc = acc * 10;
        k = k + 1;
    }
    Some(acc)
}

/// A number of seconds in decimal notation, in nanoseconds.
pub fn parse_seconds_ns(s: &str) -> (r: Option<u64>)
    ensures
        r == seconds_ns(s@),
{
    let cs = chars_of(s);
    let parts = split_chars(&cs, '.');
    proof {
        lemma_split_nonempty(s@, '.');
    }
    let ghost pv = views(parts@);
    assert(pv[0] == parts@[0]@);
    if parts.len() > 2 {
        return None;
    }
    let ip = chars_of(parts[0].as_str());
    let fp = if parts.len() == 2 {
        assert(pv[1] == parts@[1]@);
        chars_of(parts[1].as_str())
    } else {
        Vec::new()
    };
    assert(fp@ == (if parts.len() == 2 { pv[1] } else { Seq::<char>::empty() }));
    if ip.len() == 0 && fp.len() == 0 {
        return None;
    }
    let fv = match fraction_u64(&fp) {
        Some(v) => v,
        None => {
            return None;
        },
    };
    let iv = match digits_u64(&ip) {
        Some(v) => v,
        None => {
            return None;
        },
    };
    if iv > (u64::MAX - fv) / 1_000_000_000 {
        assert(iv * 1_000_000_000 + fv > u64::MAX) by (nonlinear_arith)
            requires
                iv > (u64::MAX - fv) / 1_000_000_000,
                fv < 1_000_000_000,
        ;
        return None;
    }
    assert(iv * 1_000_000_000 + fv <= u64::MAX) by (nonlinear_arith)
        requires
            iv <= (u64::MAX - fv) / 1_000_000_000,
            fv < 1_000_000_000,
    ;
    Some(iv * 1_000_000_000 + fv)
}

/// The key of a control message that sets the sample period, in seconds.
pub open spec fn sample_period_key() -> Seq<char> {
    "sample_period"@
}

/// The key of a control message that selects the hardware counters, as a
/// comma-separated list of metric names.
pub open spec fn perfhw_metrics_key() -> Seq<char> {
    "perfhw_metrics"@
}

/// The name the hardware-counter backend goes by.
pub open spec fn perfhw_name() -> Seq<char> {
    "Perfhw"@
}

/// The value of the last entry of `config` under `key`.
pub open spec fn config_value(config: Seq<(Seq<char>, Seq<char>)>, key: Seq<char>) -> Option<Seq<char>>
    decreases config.len(),
{
    if config.len() == 0 {
        None
    } else if config.last().0 == key {
        Some(config.last().1)
    } else {
        config_value(config.drop_last(), key)
    }
}

/// The views of a list of configuration entries.
pub open spec fn config_views(config: Seq<(String, String)>) -> Seq<(Seq<char>, Seq<char>)> {
    config.map_values(|e: (String, String)| (e.0@, e.1@))
}

/// The sample period, in nanoseconds, that `config` sets: a positive number
/// of seconds under the sample-period key. Anything else there is ignored.
pub open spec fn configured_period(config: Seq<(Seq<char>, Seq<char>)>) -> Option<u64> {
    match config_value(config, sample_period_key()) {
        Some(v) => match seconds_ns(v) {
            Some(ns) => if ns > 0 {
                Some(ns)
            } else {
                None
            },
            None => None,
        },
        None => None,
    }
}

/// Whether `config` is a well-formed control message: its sample period is a
/// positive number of seconds, and the counter selection, if there is one,
/// names only metrics the wire schema knows.
pub open spec fn config_accepted(config: Seq<(Seq<char>, Seq<char>)>) -> bool {
    &&& configured_period(config) is Some
    &&& match config_value(config, perfhw_metrics_key()) {
        Some(list) => all_names_known(split_on(list, ',')),
        None => true,
    }
}

/// The registry once `config` is applied: a malformed message changes
/// nothing.
pub open spec fn registry_after(v: RegistryView, config: Seq<(Seq<char>, Seq<char>)>) -> RegistryView {
    if config_accepted(config) {
        RegistryView { current_sample_period: configured_period(config)->0, ..v }
    } else {
        v
    }
}

/// Whether `after` holds the backends of `before` once `config` is applied:
/// the hardware-counter backend takes the selection under the metrics key;
/// every other backend stays, and so does every backend when the message is
/// malformed or has no such key.
pub open spec fn backends_after(
    before: BackendsManager,
    after: BackendsManager,
    config: Seq<(Seq<char>, Seq<char>)>,
) -> bool {
    &&& after.wf()
    &&& after.backends@.len() == before.backends@.len()
    &&& forall|b: int|
        0 <= b < before.backends@.len() ==> match config_value(config, perfhw_metrics_key()) {
            Some(list) => if config_accepted(config) && (#[trigger] before.backends@[b]).name_view()
                == perfhw_name() {
                reconfigured(before.backends@[b], after.backends@[b], split_on(list, ','))
            } else {
                after.backends@[b] == before.backends@[b]
            },
            None => after.backends@[b] == before.backends@[b],
        }
}

/// The value of the last entry of `config` under `key`.
fn lookup_config(config: &Vec<(String, String)>, key: &str) -> (r: Option<String>)
    ensures
        opt_string_view(r) == config_value(config_views(config@), key@),
{
    let wanted = chars_of(key);
    let ghost cv = config_views(config@);
    let mut i: usize = config.len();
    assert(cv.take(i as int) =~= cv);
    while i > 0
        invariant
            i <= config@.len(),
            cv == config_views(config@),
            wanted@ == key@,
            config_value(cv, key@) == config_value(cv.take(i as int), key@),
        decreases i,
    {
        assert(cv.take(i as int).drop_last() =~= cv.take(i - 1));
        let k = chars_of(config[i - 1].0.as_str());
        if same_chars(&k, &wanted) {
            return Some(config[i - 1].1.clone());
        }
        i = i - 1;
    }
    assert(cv.take(0) =~= Seq::<(Seq<char>, Seq<char>)>::empty());
    None
}

/// Applies a decoded control message: the new sample period goes to the
/// registry, a new counter selection to the hardware-counter backend. A
/// malformed message (no readable positive period, or a selection naming a
/// metric the wire schema does not know) changes nothing. Unknown keys are
/// ignored. Returns whether the message was applied.
pub fn apply_config(
    config: &Vec<(String, String)>,
    registry: &mut CgroupManager,
    backends: &mut BackendsManager,
) -> (r: bool)
    requires
        old(registry).wf(),
        old(backends).wf(),
    ensures
        r == config_accepted(config_views(config@)),
        final(registry).wf(),
        final(registry)@ == registry_after(old(registry)@, config_views(config@)),
        backends_after(*old(backends), *final(backends), config_views(config@)),
{
    let period = match lookup_config(config, "sample_period") {
        Some(v) => match parse_seconds_ns(v.as_str()) {
            Some(ns) => if ns > 0 {
                ns
            } else {
                return false;
            },
            None => {
                return false;
            },
        },
        None => {
            return false;
        },
    };
    let selection = match lookup_config(config, "perfhw_metrics") {
        Some(list) => {
            let names = split_chars(&chars_of(list.as_str()), ',');
            match try_compress_metric_names(&names) {
                Ok(_) => Some(names),
                Err(_) => {
                    return false;
                },
            }
        },
        None => None,
    };
    registry.set_sample_period(period);
    match selection {
        Some(names) => backends.reconfigure_named("Perfhw", &names),
        None => {},
    }
    true
}

/// The entries of a MessagePack map of strings to strings, in key order.
pub uninterp spec fn decoded_config(bytes: Seq<u8>) -> Option<Seq<(Seq<char>, Seq<char>)>>;

/// Relies on `rmp_serde::from_slice`: decodes a MessagePack map of strings to
/// strings, or fails on anything else. The map is read into a `BTreeMap`, so
/// the entries come out in key order and depend on the bytes alone.
#[verifier::external_body]
fn decode_config(bytes: &[u8]) -> (r: Option<Vec<(String, String)>>)
    ensures
        match r {
            Some(v) => decoded_config(bytes@) == Some(config_views(v@)),
            None => decoded_config(bytes@) is None,
        },
{
    match rmp_serde::from_slice::<std::collections::BTreeMap<String, String>>(bytes) {
        Ok(m) => Some(m.into_iter().collect()),
        Err(_) => None,
    }
}

/// Decodes a control message and applies it; an undecodable or malformed
/// message changes nothing. Returns whether the message was applied.
pub fn receive_config(
    message: &Vec<u8>,
    registry: &mut CgroupManager,
    backends: &mut BackendsManager,
) -> (r: bool)
    requires
        old(registry).wf(),
        old(backends).wf(),
    ensures
        final(registry).wf(),
        final(backends).wf(),
        r == (decoded_config(message@) matches Some(cv) && config_accepted(cv)),
        match decoded_config(message@) {
            Some(cv) => {
                &&& final(registry)@ == registry_after(old(registry)@, cv)
                &&& backends_after(*old(backends), *final(backends), cv)
            },
            None => {
                &&& final(registry)@ == old(registry)@
                &&& *final(backends) == *old(backends)
            },
        },
{
    match decode_config(message.as_slice()) {
        Some(config) => apply_config(&config, registry, backends),
        None => false,
    }
}

/// The MessagePack encoding of a batch as a map from job id to (host name,
/// timestamp, reports), with the entries in job-id order.
pub uninterp spec fn msgpack_batch(
    batch: Seq<(i32, (Seq<char>, i64, Seq<(Seq<char>, Seq<i32>, Seq<i64>)>))>,
) -> Seq<u8>;

/// Relies on `rmp_serde::to_vec`: encodes the batch as a MessagePack map from
/// job id to (host name, timestamp, reports). The map is a `BTreeMap`, so the
/// entries come out in job-id order and the bytes depend on the batch alone.
/// `to_vec` fails only when the output buffer cannot grow.
#[verifier::external_body]
fn encode_map(batch: &Vec<(i32, (String, i64, Vec<(String, Vec<i32>, Vec<i64>)>))>) -> (r: Option<
    Vec<u8>,
>)
    ensures
        r matches Some(b) ==> b@ == msgpack_batch(batch_view(batch@)),
{
    let m: std::collections::BTreeMap<i32, (String, i64, Vec<(String, Vec<i32>, Vec<i64>)>)> =
        batch.iter().cloned().collect();
    match rmp_serde::to_vec(&m) {
        Ok(bytes) => Some(bytes),
        Err(_) => None,
    }
}

/// The wire message for a batch: its MessagePack encoding, or `None` when
/// memory for it could not be had.
pub fn encode_batch(batch: &Vec<(i32, (String, i64, Vec<(String, Vec<i32>, Vec<i64>)>))>) -> (r:
    Option<Vec<u8>>)
    ensures
        r matches Some(b) ==> b@ == msgpack_batch(batch_view(batch@)),
{
    encode_map(batch)
}

} // verus!
