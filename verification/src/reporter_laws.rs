//! What a node's reporter makes of its readings.
use crate::fleet_types::NodeStateSpec;
use crate::reporter;
use crate::reporter::{
    Advance, Baseline, CacheSpan, DeviceReading, GpuRound, GpuSource, GpuTally, Measurement,
    NodeReport, NvmlSampler, Retained, ScrapeRound, ScrapeTally, Setting, Signals, Span,
    TargetReadings, VllmScrape,
};
use crate::signal::{Reading, Signal};
use vstd::prelude::*;

verus! {

/// Whether the second of two readings of a counter is no lower than the first: both are numbers or
/// infinite, they are not the same infinity, and the second is no smaller.
pub open spec fn no_lower(a: Reading, b: Reading) -> bool {
    &&& !a.not_a_number()
    &&& !b.not_a_number()
    &&& !(a == b && a.infinite())
    &&& a.number() <= b.number()
}

/// The generated tokens of a round depend on the two readings of the tokens alone: where the target
/// was read before, both times with its tokens, and the second reading is no lower, the round adds
/// what lies between the two, whatever the hits and the queries did; and else it adds none.
pub proof fn tokens_follow_their_own_readings(
    s: &mut VllmScrape,
    url: &str,
    hits: Reading,
    queries: Reading,
    tokens: Option<Reading>,
    r: Advance,
)
    requires
        call_ensures(VllmScrape::advance, (s, url, hits, queries, tokens), r),
    ensures
        ({
            let known = old(s).previous@.contains_key(url@);
            let before = old(s).previous@[url@].tokens;
            &&& r.tokens is Some <==> known && before is Some && tokens is Some && no_lower(
                before->0,
                tokens->0,
            )
            &&& r.tokens is Some ==> r.tokens->0.from == before->0 && r.tokens->0.to == tokens->0
        }),
{
}

/// The hits and the queries of a round count together: where the target was read before and neither
/// went down, the round adds what lies between the readings, whatever the tokens did; and else it
/// adds neither.
pub proof fn hits_and_queries_count_together(
    s: &mut VllmScrape,
    url: &str,
    hits: Reading,
    queries: Reading,
    tokens: Option<Reading>,
    r: Advance,
)
    requires
        call_ensures(VllmScrape::advance, (s, url, hits, queries, tokens), r),
    ensures
        ({
            let known = old(s).previous@.contains_key(url@);
            let before = old(s).previous@[url@];
            &&& r.cache is Some <==> known && no_lower(before.hits, hits) && no_lower(
                before.queries,
                queries,
            )
            &&& r.cache is Some ==> r.cache->0.hits.from == before.hits && r.cache->0.hits.to
                == hits && r.cache->0.queries.from == before.queries && r.cache->0.queries.to
                == queries
        }),
{
}

/// Whatever a round adds, the next round of the same target is compared with it, and what is known
/// of the other targets stays.
pub proof fn a_round_becomes_the_baseline(
    s: &mut VllmScrape,
    url: &str,
    hits: Reading,
    queries: Reading,
    tokens: Option<Reading>,
    r: Advance,
    other: Seq<char>,
)
    requires
        call_ensures(VllmScrape::advance, (s, url, hits, queries, tokens), r),
        other != url@,
    ensures
        final(s).previous@.contains_key(url@),
        final(s).previous@[url@].hits == hits,
        final(s).previous@[url@].queries == queries,
        final(s).previous@[url@].tokens == tokens,
        final(s).previous@.contains_key(other) == old(s).previous@.contains_key(other),
        old(s).previous@.contains_key(other) ==> final(s).previous@[other]
            == old(s).previous@[other],
        final(s).targets == old(s).targets,
{
}

/// Two rounds join: the second one starts from the readings of the first, so that over rounds
/// without a reset nothing is counted twice and nothing is left out.
pub proof fn rounds_join(
    first: &mut VllmScrape,
    second: &mut VllmScrape,
    url: &str,
    a: Baseline,
    b: Baseline,
    ra: Advance,
    rb: Advance,
)
    requires
        call_ensures(VllmScrape::advance, (first, url, a.hits, a.queries, a.tokens), ra),
        *old(second) == *final(first),
        call_ensures(VllmScrape::advance, (second, url, b.hits, b.queries, b.tokens), rb),
    ensures
        rb.cache is Some <==> no_lower(a.hits, b.hits) && no_lower(a.queries, b.queries),
        rb.cache is Some ==> rb.cache->0.hits.from == a.hits && rb.cache->0.queries.from
            == a.queries,
        rb.tokens is Some <==> a.tokens is Some && b.tokens is Some && no_lower(
            a.tokens->0,
            b.tokens->0,
        ),
        rb.tokens is Some ==> rb.tokens->0.from == a.tokens->0 && rb.tokens->0.to == b.tokens->0,
        ra.cache is Some && rb.cache is Some ==> ra.cache->0.hits.to == rb.cache->0.hits.from
            && ra.cache->0.queries.to == rb.cache->0.queries.from,
        ra.tokens is Some && rb.tokens is Some ==> ra.tokens->0.to == rb.tokens->0.from,
{
}

/// A target's answer counts for what it holds: the requests in any case; the target itself, and what
/// its counters added, only where it exposes both cache counters.
pub proof fn answers_count_for_what_they_hold(
    s: &mut VllmScrape,
    url: &str,
    readings: &TargetReadings,
    tally: &mut ScrapeTally,
)
    requires
        call_ensures(VllmScrape::record, (s, url, readings, tally), ()),
    ensures
        ({
            let counts = readings.hits is Some && readings.queries is Some;
            let known = old(s).previous@.contains_key(url@);
            let before = old(s).previous@[url@];
            let cache = counts && known && no_lower(before.hits, readings.hits->0) && no_lower(
                before.queries,
                readings.queries->0,
            );
            let tokens = counts && known && before.tokens is Some && readings.tokens is Some
                && no_lower(before.tokens->0, readings.tokens->0);
            &&& final(tally).responding == old(tally).responding + (if counts {
                1int
            } else {
                0
            })
            &&& final(tally).waiting@ == (if readings.waiting is Some {
                old(tally).waiting@.push(readings.waiting->0)
            } else {
                old(tally).waiting@
            })
            &&& final(tally).running@ == (if readings.running is Some {
                old(tally).running@.push(readings.running->0)
            } else {
                old(tally).running@
            })
            &&& final(tally).cache@.len() == old(tally).cache@.len() + (if cache {
                1int
            } else {
                0
            })
            &&& cache ==> final(tally).cache@.last() == (CacheSpan {
                hits: Span { from: before.hits, to: readings.hits->0 },
                queries: Span { from: before.queries, to: readings.queries->0 },
            })
            &&& old(tally).cache@.is_prefix_of(final(tally).cache@)
            &&& final(tally).tokens@.len() == old(tally).tokens@.len() + (if tokens {
                1int
            } else {
                0
            })
            &&& tokens ==> final(tally).tokens@.last() == (Span {
                from: before.tokens->0,
                to: readings.tokens->0,
            })
            &&& old(tally).tokens@.is_prefix_of(final(tally).tokens@)
            &&& counts ==> final(s).previous@ == old(s).previous@.insert(
                url@,
                (Baseline {
                    hits: readings.hits->0,
                    queries: readings.queries->0,
                    tokens: readings.tokens,
                }),
            )
            &&& !counts ==> final(s).previous@ == old(s).previous@
            &&& final(s).targets == old(s).targets
        }),
{
}

/// A round and a sampler start from nothing.
pub proof fn all_start_from_nothing(
    tally: ScrapeTally,
    targets: Vec<String>,
    scrape: VllmScrape,
    sampler: NvmlSampler,
    retained: Retained,
)
    requires
        call_ensures(ScrapeTally::new, (), tally),
        call_ensures(VllmScrape::new, (targets,), scrape),
        call_ensures(NvmlSampler::new, (), sampler),
        call_ensures(Retained::new, (), retained),
    ensures
        tally.responding == 0,
        tally.cache@.len() == 0,
        tally.tokens@.len() == 0,
        tally.waiting@.len() == 0,
        tally.running@.len() == 0,
        scrape.targets == targets,
        forall|url: Seq<char>| !(#[trigger] scrape.previous@.contains_key(url)),
        sampler.previous_energy is None,
        retained.hit_rate is None,
        retained.tokens_per_joule is None,
{
}

/// The sums over the GPUs of a node add up: over two groups together they are those over the one
/// and those over the other, and over a single GPU they are what it answered.
pub proof fn gpu_sums_add_up(a: Seq<DeviceReading>, b: Seq<DeviceReading>)
    ensures
        reporter::utilization_sum(a + b) == reporter::utilization_sum(a)
            + reporter::utilization_sum(b),
        reporter::utilization_count(a + b) == reporter::utilization_count(a)
            + reporter::utilization_count(b),
        reporter::energy_sum(a + b) == reporter::energy_sum(a) + reporter::energy_sum(b),
        reporter::memory_sum(a + b) == (match (reporter::memory_sum(a), reporter::memory_sum(b)) {
            (Some(x), Some(y)) => Some((x + y) as nat),
            (Some(x), None) => Some(x),
            (None, y) => y,
        }),
    decreases b.len(),
{
    if b.len() == 0 {
        assert(a + b =~= a);
    } else {
        gpu_sums_add_up(a, b.drop_last());
        assert((a + b).drop_last() =~= a + b.drop_last());
        assert((a + b).last() == b.last());
    }
}

/// The sums over one GPU, and over none.
pub proof fn one_gpu_counts_as_it_answered(d: DeviceReading)
    ensures
        reporter::utilization_sum(seq![d]) == (if d.utilization is Some {
            d.utilization->0 as nat
        } else {
            0
        }),
        reporter::utilization_count(seq![d]) == (if d.utilization is Some {
            1nat
        } else {
            0
        }),
        reporter::energy_sum(seq![d]) == (if d.energy is Some {
            d.energy->0 as nat
        } else {
            0
        }),
        reporter::memory_sum(seq![d]) == (if d.memory_used is Some {
            Some(d.memory_used->0 as nat)
        } else {
            None
        }),
        reporter::energy_complete(seq![d]) <==> d.energy is Some,
        reporter::utilization_sum(Seq::empty()) == 0,
        reporter::utilization_count(Seq::empty()) == 0,
        reporter::energy_sum(Seq::empty()) == 0,
        reporter::memory_sum(Seq::empty()) is None,
        !reporter::energy_complete(Seq::empty()),
{
    let none = Seq::<DeviceReading>::empty();
    let one = seq![d];
    assert(one.drop_last() =~= none);
    assert(one.last() == d);
    assert(one[0] == d);
    assert(reporter::utilization_sum(none) == 0);
    assert(reporter::utilization_count(none) == 0);
    assert(reporter::energy_sum(none) == 0);
    assert(reporter::memory_sum(none) is None);
}

/// A round of GPU readings: the utilizations and their number, and the memory, are those of the GPUs
/// that answered. The energy counts only where there are GPUs and all of them answered theirs; it is
/// what they consumed since the round before, if that was complete as well and the sum did not go
/// down.
pub proof fn a_gpu_round_adds_up_what_was_answered(
    s: &mut NvmlSampler,
    devices: &[DeviceReading],
    r: GpuTally,
)
    requires
        call_ensures(NvmlSampler::sample, (s, devices), r),
        reporter::energy_sum(devices@) <= u64::MAX,
    ensures
        r.utilization_sum == reporter::utilization_sum(devices@),
        r.utilization_count == reporter::utilization_count(devices@),
        r.memory_used is Some <==> reporter::memory_sum(devices@) is Some,
        r.memory_used is Some ==> r.memory_used->0 as int == reporter::memory_sum(devices@)->0,
        ({
            let complete = devices@.len() > 0 && forall|i: int|
                0 <= i < devices@.len() ==> (#[trigger] devices@[i]).energy is Some;
            let sum = reporter::energy_sum(devices@);
            let before = old(s).previous_energy;
            &&& final(s).previous_energy is Some <==> complete
            &&& complete ==> final(s).previous_energy->0 == sum
            &&& r.energy_delta is Some <==> complete && before is Some && before->0 <= sum
            &&& r.energy_delta is Some ==> before->0 + r.energy_delta->0 == sum
        }),
{
}

/// Two complete rounds in a row: the second one's energy is the growth of the sum, none if it went
/// down; and after a round that is not complete there is none.
pub proof fn energy_is_what_the_counters_grew(
    first: &mut NvmlSampler,
    second: &mut NvmlSampler,
    a: &[DeviceReading],
    b: &[DeviceReading],
    ra: GpuTally,
    rb: GpuTally,
)
    requires
        call_ensures(NvmlSampler::sample, (first, a), ra),
        *old(second) == *final(first),
        call_ensures(NvmlSampler::sample, (second, b), rb),
        reporter::energy_sum(a@) <= u64::MAX,
        reporter::energy_sum(b@) <= u64::MAX,
    ensures
        ({
            let all_a = a@.len() > 0 && forall|i: int|
                0 <= i < a@.len() ==> (#[trigger] a@[i]).energy is Some;
            let all_b = b@.len() > 0 && forall|i: int|
                0 <= i < b@.len() ==> (#[trigger] b@[i]).energy is Some;
            &&& rb.energy_delta is Some <==> all_a && all_b && reporter::energy_sum(a@)
                <= reporter::energy_sum(b@)
            &&& rb.energy_delta is Some ==> rb.energy_delta->0 == reporter::energy_sum(b@)
                - reporter::energy_sum(a@)
        }),
{
}

/// A counter is read under its suffixed name where it has one, else under its bare name, else not.
pub proof fn the_suffixed_name_goes_first(
    suffixed: Option<Reading>,
    bare: Option<Reading>,
    r: Option<Reading>,
)
    requires
        call_ensures(reporter::counter_reading, (suffixed, bare), r),
    ensures
        suffixed is Some ==> r == suffixed,
        suffixed is None ==> r == bare,
{
}

/// Tokens are set against energy only in a round that counted both, and only where energy was
/// consumed.
pub proof fn tokens_need_energy_of_the_same_round(
    tokens: &[Span],
    energy_delta: Option<u64>,
    r: Option<u64>,
)
    requires
        call_ensures(reporter::energy_for_tokens, (tokens, energy_delta), r),
    ensures
        r is Some ==> r == energy_delta && r->0 > 0 && tokens@.len() > 0,
        tokens@.len() > 0 && energy_delta is Some && energy_delta->0 > 0 ==> r is Some,
{
}

/// A sample holds what its sources measured: each signal comes from its own source, and none from a
/// source that is switched off.
pub proof fn a_sample_holds_what_its_sources_measured(
    scrape: Option<ScrapeRound>,
    gpu: Option<GpuRound>,
    r: Signals,
)
    requires
        call_ensures(reporter::assemble, (scrape, gpu), r),
    ensures
        scrape is Some ==> r.kv_cache_hit_rate == scrape->0.kv_cache_hit_rate
            && r.requests_waiting == scrape->0.requests_waiting && r.requests_running
            == scrape->0.requests_running && r.active_service_count == Some(
            scrape->0.responding_targets,
        ),
        scrape is None ==> r.kv_cache_hit_rate is None && r.requests_waiting is None
            && r.requests_running is None && r.active_service_count is None,
        gpu is Some ==> r.gpu_utilization == gpu->0.gpu_utilization && r.gpu_memory_used_bytes
            == gpu->0.gpu_memory_used_bytes && r.tokens_per_joule == gpu->0.tokens_per_joule,
        gpu is None ==> r.gpu_utilization is None && r.gpu_memory_used_bytes is None
            && r.tokens_per_joule is None,
{
}

/// What a round measured of the two efficiency signals is kept, with the time of the round; what it
/// did not measure is kept from before, with its own time, however old it is.
pub proof fn the_last_measurement_is_kept(s: &mut Retained, signals: &Signals, measured_at: &str)
    requires
        call_ensures(Retained::retain, (s, signals, measured_at), ()),
    ensures
        signals.kv_cache_hit_rate is None ==> final(s).hit_rate == old(s).hit_rate,
        signals.kv_cache_hit_rate is Some ==> final(s).hit_rate is Some
            && final(s).hit_rate->0.value == signals.kv_cache_hit_rate->0
            && final(s).hit_rate->0.taken_at@ == measured_at@,
        signals.tokens_per_joule is None ==> final(s).tokens_per_joule == old(s).tokens_per_joule,
        signals.tokens_per_joule is Some ==> final(s).tokens_per_joule is Some
            && final(s).tokens_per_joule->0.value == signals.tokens_per_joule->0
            && final(s).tokens_per_joule->0.taken_at@ == measured_at@,
{
}

/// A report carries the sample, but the two efficiency signals as they were last measured, each with
/// the time of its measurement.
pub proof fn a_report_carries_the_last_measurements(
    signals: &Signals,
    retained: &Retained,
    generation: Option<i64>,
    report_time: &str,
    r: NodeReport,
)
    requires
        call_ensures(reporter::node_report, (signals, retained, generation, report_time), r),
    ensures
        generation is Some ==> r.observed_generation == generation->0,
        generation is None ==> r.observed_generation == 0,
        r.last_report_time@ == report_time@,
        r.gpu_utilization == signals.gpu_utilization,
        r.gpu_memory_used_bytes == signals.gpu_memory_used_bytes,
        r.active_service_count == signals.active_service_count,
        r.requests_waiting == signals.requests_waiting,
        r.requests_running == signals.requests_running,
        retained.hit_rate is None ==> r.kv_cache_hit_rate is None
            && r.kv_cache_hit_rate_observed_at is None,
        retained.hit_rate is Some ==> r.kv_cache_hit_rate == Some(retained.hit_rate->0.value)
            && r.kv_cache_hit_rate_observed_at is Some && r.kv_cache_hit_rate_observed_at->0@
            == retained.hit_rate->0.taken_at@,
        retained.tokens_per_joule is None ==> r.tokens_per_joule is None
            && r.tokens_per_joule_observed_at is None,
        retained.tokens_per_joule is Some ==> r.tokens_per_joule == Some(
            retained.tokens_per_joule->0.value,
        ) && r.tokens_per_joule_observed_at is Some && r.tokens_per_joule_observed_at->0@
            == retained.tokens_per_joule->0.taken_at@,
{
}

/// A measurement reaches the report with the time at which it was taken, however many rounds that
/// measure nothing lie between.
pub proof fn an_old_measurement_is_reported_with_its_time(
    s: &mut Retained,
    silent: &Signals,
    measured_at: &str,
    after: Retained,
    generation: Option<i64>,
    report_time: &str,
    r: NodeReport,
)
    requires
        silent.kv_cache_hit_rate is None,
        silent.tokens_per_joule is None,
        call_ensures(Retained::retain, (s, silent, measured_at), ()),
        after == *final(s),
        call_ensures(reporter::node_report, (silent, &after, generation, report_time), r),
        old(s).hit_rate is Some,
        old(s).tokens_per_joule is Some,
    ensures
        r.kv_cache_hit_rate == Some(old(s).hit_rate->0.value),
        r.kv_cache_hit_rate_observed_at is Some,
        r.kv_cache_hit_rate_observed_at->0@ == old(s).hit_rate->0.taken_at@,
        r.tokens_per_joule == Some(old(s).tokens_per_joule->0.value),
        r.tokens_per_joule_observed_at is Some,
        r.tokens_per_joule_observed_at->0@ == old(s).tokens_per_joule->0.taken_at@,
{
}

/// Reports are at least a second apart, and as far apart as the spec asks where it asks for more.
pub proof fn reports_are_at_least_a_second_apart(spec: &NodeStateSpec, r: u64)
    requires
        call_ensures(reporter::report_interval_secs, (spec,), r),
    ensures
        r >= 1,
        spec.report_interval_seconds >= 1 ==> r == spec.report_interval_seconds,
        spec.report_interval_seconds < 1 ==> r == 1,
{
}

/// The setting for one node goes before the setting for all, and is named after the node; without
/// either there is none.
pub proof fn the_setting_for_the_node_goes_first(
    key: &str,
    node: &str,
    for_node: &Option<String>,
    for_all: &Option<String>,
    r: Option<Setting>,
    node_key: String,
)
    requires
        call_ensures(reporter::pick_setting, (key, node, for_node, for_all), r),
        call_ensures(reporter::node_setting_name, (key, node), node_key),
    ensures
        for_node is Some ==> r is Some && r->0.value@ == for_node->0@ && r->0.key@ == node_key@,
        for_node is None && for_all is Some ==> r is Some && r->0.value@ == for_all->0@
            && r->0.key@ == key@,
        for_node is None && for_all is None ==> r is None,
{
}

/// The name of the setting for a node: the key, a fixed middle, and the node's name, in which small
/// letters are made large, dashes and dots become underscores, and all else stays.
pub proof fn node_settings_are_named_after_the_node(key: &str, node: &str, r: String, i: int)
    requires
        call_ensures(reporter::node_setting_name, (key, node), r),
        0 <= i < node@.len(),
    ensures
        r@.len() == key@.len() + 6 + node@.len(),
        r@.subrange(0, key@.len() as int) == key@,
        r@.subrange(key@.len() as int, key@.len() as int + 6) == "_NODE_"@,
        ({
            let c = node@[i];
            let d = r@[key@.len() + 6 + i];
            &&& c == '-' || c == '.' ==> d == '_'
            &&& 'a' <= c <= 'z' ==> d as int == c as int - 32
            &&& c != '-' && c != '.' && !('a' <= c <= 'z') ==> d == c
        }),
{
    reveal_strlit("_NODE_");
    assert("_NODE_"@.len() == 6);
    assert(r@.subrange(0, key@.len() as int) =~= key@);
    assert(r@.subrange(key@.len() as int, key@.len() as int + 6) =~= "_NODE_"@);
}

/// The GPUs are read only where the one known source is asked for; another is told apart from none.
pub proof fn one_gpu_source_is_known(setting: &Option<String>, r: GpuSource)
    requires
        call_ensures(reporter::gpu_source, (setting,), r),
    ensures
        setting is None <==> r == GpuSource::Off,
        r == GpuSource::Nvidia <==> setting is Some && setting->0@ == "nvidia"@,
{
}

/// A setting that must be there is there if it is not empty, as it is.
pub proof fn required_settings_are_not_empty(value: &Option<String>, r: Option<String>)
    requires
        call_ensures(reporter::required_setting, (value,), r),
    ensures
        r is Some <==> value is Some && value->0@.len() > 0,
        r is Some ==> r->0@ == value->0@,
{
}

} // verus!
