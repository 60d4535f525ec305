//! A node's reporter: from readings to the signals that are written to the node's state.
//!
//! The reporter measures and does not judge: what it cannot measure is absent, never a made-up
//! number. Arithmetic on readings is done where they are read; here it is decided which readings
//! count.
use crate::fleet_types::NodeStateSpec;
use crate::names::NameMap;
use crate::objects;
use crate::signal::{Reading, Signal};
use crate::text;
use crate::text::{chars_of, split_parts, text_of, trim_part};
use vstd::prelude::*;

verus! {

/// One sample of everything that the reporter measures.
#[derive(Clone, Copy, Debug, PartialEq, Eq, Structural)]
pub struct Signals {
    pub gpu_utilization: Option<Signal>,
    pub gpu_memory_used_bytes: Option<i64>,
    pub active_service_count: Option<i32>,
    pub kv_cache_hit_rate: Option<Signal>,
    pub tokens_per_joule: Option<Signal>,
    pub requests_waiting: Option<Signal>,
    pub requests_running: Option<Signal>,
}

/// A character of a node's name, as it stands in the name of a setting.
pub open spec fn setting_char(c: char) -> char {
    if c == '-' || c == '.' {
        '_'
    } else if 97 <= c as int <= 122 {
        (c as int - 32) as char
    } else {
        c
    }
}

/// A text in the form in which it stands in the name of a setting.
pub open spec fn setting_text(s: Seq<char>) -> Seq<char> {
    s.map_values(|c: char| setting_char(c))
}

/// The name of a setting for one node.
pub open spec fn node_setting(key: Seq<char>, node: Seq<char>) -> Seq<char> {
    key + "_NODE_"@ + setting_text(node)
}

fn setting_char_of(c: char) -> (r: char)
    ensures
        r == setting_char(c),
{
    let n: u32 = c as u32;
    if c == '-' || c == '.' {
        '_'
    } else if 97 <= n && n <= 122 {
        let upper: u8 = (n - 32) as u8;
        upper as char
    } else {
        c
    }
}

/// The name of a setting for one node: the node's name in upper case, with dashes and dots
/// replaced.
pub fn node_setting_name(key: &str, node: &str) -> (r: String)
    ensures
        r@ == node_setting(key@, node@),
{
    let mut name = key.to_owned();
    name.append("_NODE_");
    let ghost start = name@;
    let chars = chars_of(node);
    let mut i: usize = 0;
    while i < chars.len()
        invariant
            i <= chars@.len(),
            chars@ == node@,
            name@ == start + setting_text(node@.take(i as int)),
        decreases chars@.len() - i,
    {
        proof {
            assert(setting_text(node@.take(i + 1)) =~= setting_text(node@.take(i as int)).push(
                setting_char(node@[i as int]),
            ));
        }
        name.push(setting_char_of(chars[i]));
        i = i + 1;
    }
    proof {
        assert(node@.take(node@.len() as int) == node@);
    }
    name
}

/// A setting, with the name under which it was found.
#[derive(Debug)]
pub struct Setting {
    pub key: String,
    pub value: String,
}

/// The setting that holds on a node: the one for that node, if there is one, else the one for all.
pub fn pick_setting(
    key: &str,
    node: &str,
    for_node: &Option<String>,
    for_all: &Option<String>,
) -> (r: Option<Setting>)
    ensures
        match r {
            Some(s) => if for_node is Some {
                s.key@ == node_setting(key@, node@) && s.value == for_node->0
            } else {
                s.key@ == key@ && *for_all == Some(s.value)
            },
            None => for_node is None && for_all is None,
        },
{
    match for_node {
        Some(v) => Some(Setting { key: node_setting_name(key, node), value: v.clone() }),
        None => match for_all {
            Some(v) => Some(Setting { key: key.to_owned(), value: v.clone() }),
            None => None,
        },
    }
}

/// Whether a text is not empty.
pub open spec fn non_empty() -> spec_fn(Seq<char>) -> bool {
    |t: Seq<char>| t.len() > 0
}

/// The targets that a setting lists: the texts between its commas, trimmed, without the empty ones.
pub open spec fn listed_targets(raw: Seq<char>) -> Seq<Seq<char>> {
    text::pieces(raw, ',').map_values(|p: Seq<char>| text::trimmed(p)).filter(non_empty())
}

/// The targets that a setting lists.
pub fn scrape_targets(raw: &str) -> (r: Vec<String>)
    ensures
        objects::texts_view(r@) == listed_targets(raw@),
{
    let chars = chars_of(raw);
    let parts = split_parts(&chars, ',');
    let ghost all = text::pieces(raw@, ',').map_values(|p: Seq<char>| text::trimmed(p));
    let mut out: Vec<String> = Vec::new();
    let mut i: usize = 0;
    proof {
        reveal(Seq::filter);
        assert(objects::texts_view(out@) =~= all.take(0).filter(non_empty()));
    }
    while i < parts.len()
        invariant
            i <= parts@.len(),
            chars@ == raw@,
            all == text::pieces(raw@, ',').map_values(|p: Seq<char>| text::trimmed(p)),
            parts@.len() == all.len(),
            forall|j: int|
                0 <= j < parts@.len() ==> (#[trigger] parts@[j]).0 <= parts@[j].1 <= chars@.len()
                    && chars@.subrange(parts@[j].0 as int, parts@[j].1 as int) == text::pieces(
                    raw@,
                    ',',
                )[j],
            objects::texts_view(out@) == all.take(i as int).filter(non_empty()),
        decreases parts@.len() - i,
    {
        let (from, to) = parts[i];
        let (start, end) = trim_part(&chars, from, to);
        let ghost t = chars@.subrange(start as int, end as int);
        let ghost before = out@;
        proof {
            assert(all[i as int] == t);
            assert(all.take(i + 1) == all.take(i as int).push(t));
            all.take(i as int).lemma_filter_push(t, non_empty());
        }
        if start < end {
            let target = text_of(&chars, start, end);
            out.push(target);
            proof {
                assert(objects::texts_view(out@) =~= objects::texts_view(before).push(t));
            }
        }
        i = i + 1;
    }
    proof {
        assert(all.take(all.len() as int) == all);
    }
    out
}

/// Whether the GPUs are read.
#[derive(Clone, Copy, Debug, PartialEq, Eq, Structural)]
pub enum GpuSource {
    /// They are not.
    Off,
    /// Through the vendor's library.
    Nvidia,
    /// The setting asks for a source that there is not; they are not read.
    Unknown,
}

/// Whether the GPUs are read, going by the setting that asks for it.
pub fn gpu_source(setting: &Option<String>) -> (r: GpuSource)
    ensures
        r == (match *setting {
            None => GpuSource::Off,
            Some(v) => if v@ == "nvidia"@ {
                GpuSource::Nvidia
            } else {
                GpuSource::Unknown
            },
        }),
{
    match setting {
        None => GpuSource::Off,
        Some(v) => if text::same_text(v.as_str(), "nvidia") {
            GpuSource::Nvidia
        } else {
            GpuSource::Unknown
        },
    }
}

/// A setting that must be there: its value, if it is not empty.
pub fn required_setting(value: &Option<String>) -> (r: Option<String>)
    ensures
        r == (if value is Some && value->0@.len() > 0 {
            *value
        } else {
            None
        }),
{
    match value {
        Some(v) => {
            proof {
                reveal_strlit("");
                if v@.len() == 0 {
                    assert(v@ =~= ""@);
                }
            }
            if text::same_text(v.as_str(), "") {
                None
            } else {
                Some(v.clone())
            }
        },
        None => None,
    }
}

/// What was last read of a target's counters.
#[derive(Clone, Copy, Debug, PartialEq, Eq, Structural)]
pub struct Baseline {
    pub hits: Reading,
    pub queries: Reading,
    /// The generated tokens; a target may expose the others without them.
    pub tokens: Option<Reading>,
}

/// Two readings of one counter, the second no lower than the first.
#[derive(Clone, Copy, Debug, PartialEq, Eq, Structural)]
pub struct Span {
    pub from: Reading,
    pub to: Reading,
}

/// What the hits and the queries of a target did over a round.
#[derive(Clone, Copy, Debug, PartialEq, Eq, Structural)]
pub struct CacheSpan {
    pub hits: Span,
    pub queries: Span,
}

/// What a round adds for one target, where there is something to compare with.
#[derive(Clone, Copy, Debug, PartialEq, Eq, Structural)]
pub struct Advance {
    /// The hits and the queries.
    pub cache: Option<CacheSpan>,
    /// The generated tokens.
    pub tokens: Option<Span>,
}

/// What a round adds for one target. Nothing in the first round; nothing where a counter went down,
/// which means that it was reset; for the tokens nothing where either reading lacks them.
pub open spec fn advanced(previous: Option<Baseline>, now: Baseline) -> Advance {
    match previous {
        None => Advance { cache: None, tokens: None },
        Some(p) => Advance {
            cache: if p.hits.grows_to(now.hits) && p.queries.grows_to(now.queries) {
                Some(
                    CacheSpan {
                        hits: Span { from: p.hits, to: now.hits },
                        queries: Span { from: p.queries, to: now.queries },
                    },
                )
            } else {
                None
            },
            tokens: match (p.tokens, now.tokens) {
                (Some(a), Some(b)) => if a.grows_to(b) {
                    Some(Span { from: a, to: b })
                } else {
                    None
                },
                _ => None,
            },
        },
    }
}

/// What one target answered in a round. A series that the answer lacks is absent.
#[derive(Clone, Copy, Debug, PartialEq, Eq, Structural)]
pub struct TargetReadings {
    pub waiting: Option<Reading>,
    pub running: Option<Reading>,
    pub hits: Option<Reading>,
    pub queries: Option<Reading>,
    pub tokens: Option<Reading>,
}

/// What a round has gathered so far.
#[derive(Debug)]
pub struct ScrapeTally {
    /// The targets that exposed their cache counters.
    pub responding: i32,
    /// What the hits and queries added, target by target.
    pub cache: Vec<CacheSpan>,
    /// What the tokens added, target by target.
    pub tokens: Vec<Span>,
    /// The requests that wait, target by target.
    pub waiting: Vec<Reading>,
    /// The requests that run, target by target.
    pub running: Vec<Reading>,
}

impl ScrapeTally {
    /// A round that has gathered nothing.
    pub fn new() -> (r: ScrapeTally)
        ensures
            r.responding == 0,
            r.cache@ == Seq::<CacheSpan>::empty(),
            r.tokens@ == Seq::<Span>::empty(),
            r.waiting@ == Seq::<Reading>::empty(),
            r.running@ == Seq::<Reading>::empty(),
    {
        ScrapeTally {
            responding: 0,
            cache: Vec::new(),
            tokens: Vec::new(),
            waiting: Vec::new(),
            running: Vec::new(),
        }
    }
}

/// A list with one more value, if there is one.
pub open spec fn extended<T>(s: Seq<T>, x: Option<T>) -> Seq<T> {
    match x {
        Some(v) => s.push(v),
        None => s,
    }
}

/// The targets of a node, and what was last read of each.
#[derive(Debug)]
pub struct VllmScrape {
    pub targets: Vec<String>,
    pub previous: NameMap<Baseline>,
}

/// What was last read of a target.
pub open spec fn baseline_of(m: Map<Seq<char>, Baseline>, url: Seq<char>) -> Option<Baseline> {
    if m.contains_key(url) {
        Some(m[url])
    } else {
        None
    }
}

impl VllmScrape {
    /// The record of previous readings has no target twice.
    pub open spec fn wf(&self) -> bool {
        self.previous.wf()
    }

    /// The given targets, none of which has been read.
    pub fn new(targets: Vec<String>) -> (r: VllmScrape)
        ensures
            r.wf(),
            r.targets == targets,
            r.previous@ == Map::<Seq<char>, Baseline>::empty(),
    {
        VllmScrape { targets, previous: NameMap::new() }
    }

    /// Takes the counters of one target, and says what they add to those last read. Whatever they
    /// add, the next round is compared with these.
    pub fn advance(
        &mut self,
        url: &str,
        hits: Reading,
        queries: Reading,
        tokens: Option<Reading>,
    ) -> (r: Advance)
        requires
            old(self).wf(),
        ensures
            final(self).wf(),
            final(self).targets == old(self).targets,
            r == advanced(
                baseline_of(old(self).previous@, url@),
                (Baseline { hits, queries, tokens }),
            ),
            final(self).previous@ == old(self).previous@.insert(
                url@,
                (Baseline { hits, queries, tokens }),
            ),
    {
        let now = Baseline { hits, queries, tokens };
        let r = match self.previous.get(url) {
            None => Advance { cache: None, tokens: None },
            Some(p) => Advance {
                cache: if p.hits.grew_to(&now.hits) && p.queries.grew_to(&now.queries) {
                    Some(
                        CacheSpan {
                            hits: Span { from: p.hits, to: now.hits },
                            queries: Span { from: p.queries, to: now.queries },
                        },
                    )
                } else {
                    None
                },
                tokens: match (p.tokens, now.tokens) {
                    (Some(a), Some(b)) => if a.grew_to(&b) {
                        Some(Span { from: a, to: b })
                    } else {
                        None
                    },
                    _ => None,
                },
            },
        };
        self.previous.insert(url, now);
        r
    }

    /// Adds what one target answered to a round. The requests count in any case; a target that does
    /// not expose its cache counters counts for nothing else.
    pub fn record(&mut self, url: &str, readings: &TargetReadings, tally: &mut ScrapeTally)
        requires
            old(self).wf(),
            old(tally).responding < i32::MAX,
        ensures
            final(self).wf(),
            final(self).targets == old(self).targets,
            final(tally).waiting@ == extended(old(tally).waiting@, readings.waiting),
            final(tally).running@ == extended(old(tally).running@, readings.running),
            match (readings.hits, readings.queries) {
                (Some(hits), Some(queries)) => {
                    let now = Baseline { hits, queries, tokens: readings.tokens };
                    let step = advanced(baseline_of(old(self).previous@, url@), now);
                    &&& final(tally).responding == old(tally).responding + 1
                    &&& final(tally).cache@ == extended(old(tally).cache@, step.cache)
                    &&& final(tally).tokens@ == extended(old(tally).tokens@, step.tokens)
                    &&& final(self).previous@ == old(self).previous@.insert(url@, now)
                },
                _ => {
                    &&& final(tally).responding == old(tally).responding
                    &&& final(tally).cache@ == old(tally).cache@
                    &&& final(tally).tokens@ == old(tally).tokens@
                    &&& final(self).previous@ == old(self).previous@
                },
            },
    {
        if let Some(v) = readings.waiting {
            tally.waiting.push(v);
        }
        if let Some(v) = readings.running {
            tally.running.push(v);
        }
        if let (Some(hits), Some(queries)) = (readings.hits, readings.queries) {
            tally.responding = tally.responding + 1;
            let step = self.advance(url, hits, queries, readings.tokens);
            if let Some(c) = step.cache {
                tally.cache.push(c);
            }
            if let Some(t) = step.tokens {
                tally.tokens.push(t);
            }
        }
    }
}

/// What one GPU answered in a round. What it did not answer is absent.
#[derive(Clone, Copy, Debug, PartialEq, Eq, Structural)]
pub struct DeviceReading {
    /// Utilization in percent.
    pub utilization: Option<u32>,
    /// Used memory in bytes.
    pub memory_used: Option<u64>,
    /// Energy consumed so far, in millijoules.
    pub energy: Option<u64>,
}

/// What the GPUs of a node answered in a round, taken together.
#[derive(Clone, Copy, Debug, PartialEq, Eq, Structural)]
pub struct GpuTally {
    /// The sum of the utilizations.
    pub utilization_sum: u64,
    /// The number of GPUs that answered their utilization.
    pub utilization_count: u32,
    /// Used memory in bytes, if any GPU answered.
    pub memory_used: Option<i64>,
    /// Energy consumed since the previous round, in millijoules.
    pub energy_delta: Option<u64>,
}

/// The sum of the utilizations.
pub open spec fn utilization_sum(devices: Seq<DeviceReading>) -> nat
    decreases devices.len(),
{
    if devices.len() == 0 {
        0
    } else {
        utilization_sum(devices.drop_last()) + (match devices.last().utilization {
            Some(u) => u as nat,
            None => 0,
        })
    }
}

/// The number of GPUs that answered their utilization.
pub open spec fn utilization_count(devices: Seq<DeviceReading>) -> nat
    decreases devices.len(),
{
    if devices.len() == 0 {
        0
    } else {
        utilization_count(devices.drop_last()) + (if devices.last().utilization is Some {
            1nat
        } else {
            0
        })
    }
}

/// The sum of the used memories; none if no GPU answered.
pub open spec fn memory_sum(devices: Seq<DeviceReading>) -> Option<nat>
    decreases devices.len(),
{
    if devices.len() == 0 {
        None
    } else {
        match (memory_sum(devices.drop_last()), devices.last().memory_used) {
            (Some(s), Some(m)) => Some(s + m as nat),
            (None, Some(m)) => Some(m as nat),
            (s, None) => s,
        }
    }
}

/// The sum of the energies, counting an absent one as none.
pub open spec fn energy_sum(devices: Seq<DeviceReading>) -> nat
    decreases devices.len(),
{
    if devices.len() == 0 {
        0
    } else {
        energy_sum(devices.drop_last()) + (match devices.last().energy {
            Some(e) => e as nat,
            None => 0,
        })
    }
}

/// Whether there are GPUs and all answered their energy.
pub open spec fn energy_complete(devices: Seq<DeviceReading>) -> bool {
    devices.len() > 0 && forall|i: int|
        0 <= i < devices.len() ==> (#[trigger] devices[i]).energy is Some
}

/// The sum over a list is no less than the sum over its start.
proof fn sums_grow(devices: Seq<DeviceReading>, n: int)
    requires
        0 <= n <= devices.len(),
    ensures
        energy_sum(devices.take(n)) <= energy_sum(devices),
        memory_sum(devices.take(n)) is Some ==> memory_sum(devices) is Some && memory_sum(
            devices.take(n),
        )->0 <= memory_sum(devices)->0,
    decreases devices.len(),
{
    if n == devices.len() {
        assert(devices.take(n) == devices);
    } else {
        assert(devices.drop_last().take(n) == devices.take(n));
        sums_grow(devices.drop_last(), n);
    }
}

/// Adds up what the GPUs of a node answer, round by round.
#[derive(Clone, Copy, Debug, PartialEq, Eq, Structural)]
pub struct NvmlSampler {
    /// The summed energy of the previous round, if that round was complete.
    pub previous_energy: Option<u64>,
}

impl NvmlSampler {
    /// A sampler that has seen no round.
    pub fn new() -> (r: NvmlSampler)
        ensures
            r.previous_energy is None,
    {
        NvmlSampler { previous_energy: None }
    }

    /// Adds up one round. A round in which some GPU did not answer its energy has no energy, and
    /// the next round is not compared with it. Where the sum went down, which means that a counter
    /// was reset, the round has no energy either, but the next is compared with it.
    pub fn sample(&mut self, devices: &[DeviceReading]) -> (r: GpuTally)
        requires
            devices@.len() <= u32::MAX,
            energy_sum(devices@) <= u64::MAX,
            memory_sum(devices@) is Some ==> memory_sum(devices@)->0 <= i64::MAX,
        ensures
            r.utilization_sum == utilization_sum(devices@),
            r.utilization_count == utilization_count(devices@),
            match r.memory_used {
                Some(m) => memory_sum(devices@) == Some(m as nat) && m >= 0,
                None => memory_sum(devices@) is None,
            },
            final(self).previous_energy == (if energy_complete(devices@) {
                Some(energy_sum(devices@) as u64)
            } else {
                None
            }),
            r.energy_delta == (if energy_complete(devices@) && old(self).previous_energy is Some
                && old(self).previous_energy->0 <= energy_sum(devices@) {
                Some((energy_sum(devices@) - old(self).previous_energy->0) as u64)
            } else {
                None
            }),
    {
        let mut sum: u64 = 0;
        let mut n: u32 = 0;
        let mut memory: Option<i64> = None;
        let mut energy: u64 = 0;
        let mut complete = devices.len() > 0;
        let mut i: usize = 0;
        while i < devices.len()
            invariant
                i <= devices@.len() <= u32::MAX,
                energy_sum(devices@) <= u64::MAX,
                memory_sum(devices@) is Some ==> memory_sum(devices@)->0 <= i64::MAX,
                n <= i,
                sum <= i * u32::MAX,
                sum == utilization_sum(devices@.take(i as int)),
                n == utilization_count(devices@.take(i as int)),
                match memory {
                    Some(m) => memory_sum(devices@.take(i as int)) == Some(m as nat) && m >= 0,
                    None => memory_sum(devices@.take(i as int)) is None,
                },
                energy == energy_sum(devices@.take(i as int)),
                complete == (devices@.len() > 0 && forall|j: int|
                    0 <= j < i ==> (#[trigger] devices@[j]).energy is Some),
            decreases devices@.len() - i,
        {
            let d = devices[i];
            proof {
                assert(devices@.take(i + 1).drop_last() == devices@.take(i as int));
                assert(devices@.take(i + 1).last() == d);
                sums_grow(devices@, i + 1);
                assert(i * u32::MAX + u32::MAX == (i + 1) * u32::MAX) by (nonlinear_arith);
                assert((i + 1) * u32::MAX <= u32::MAX * u32::MAX) by (nonlinear_arith)
                    requires
                        i + 1 <= u32::MAX,
                ;
            }
            if let Some(u) = d.utilization {
                sum = sum + u as u64;
                n = n + 1;
            }
            if let Some(m) = d.memory_used {
                memory = match memory {
                    Some(s) => Some(s + m as i64),
                    None => Some(m as i64),
                };
            }
            match d.energy {
                Some(e) => {
                    energy = energy + e;
                },
                None => {
                    complete = false;
                },
            }
            i = i + 1;
        }
        proof {
            assert(devices@.take(devices@.len() as int) == devices@);
        }
        let energy_delta = if complete {
            let delta = match self.previous_energy {
                Some(p) => if p <= energy {
                    Some(energy - p)
                } else {
                    None
                },
                None => None,
            };
            self.previous_energy = Some(energy);
            delta
        } else {
            self.previous_energy = None;
            None
        };
        GpuTally { utilization_sum: sum, utilization_count: n, memory_used: memory, energy_delta }
    }
}

/// The reading of a counter, given what was read under its suffixed name and under its bare one: the
/// suffixed name goes first.
pub fn counter_reading(suffixed: Option<Reading>, bare: Option<Reading>) -> (r: Option<Reading>)
    ensures
        r == (if suffixed is Some {
            suffixed
        } else {
            bare
        }),
{
    match suffixed {
        Some(v) => Some(v),
        None => bare,
    }
}

/// The energy over which the tokens of a round are counted, in millijoules: there is one only if
/// tokens were counted in the same round and some energy was consumed.
pub fn energy_for_tokens(tokens: &[Span], energy_delta: Option<u64>) -> (r: Option<u64>)
    ensures
        r == (if tokens@.len() > 0 && energy_delta is Some && energy_delta->0 > 0 {
            energy_delta
        } else {
            None
        }),
{
    match energy_delta {
        Some(e) => if tokens.len() > 0 && e > 0 {
            Some(e)
        } else {
            None
        },
        None => None,
    }
}

/// What the scraping of a round amounts to.
#[derive(Clone, Copy, Debug, PartialEq, Eq, Structural)]
pub struct ScrapeRound {
    pub kv_cache_hit_rate: Option<Signal>,
    pub requests_waiting: Option<Signal>,
    pub requests_running: Option<Signal>,
    pub responding_targets: i32,
}

/// What the GPUs of a round amount to.
#[derive(Clone, Copy, Debug, PartialEq, Eq, Structural)]
pub struct GpuRound {
    pub gpu_utilization: Option<Signal>,
    pub gpu_memory_used_bytes: Option<i64>,
    pub tokens_per_joule: Option<Signal>,
}

/// The sample that a round amounts to. A source that is switched off measures nothing.
pub fn assemble(scrape: Option<ScrapeRound>, gpu: Option<GpuRound>) -> (r: Signals)
    ensures
        match scrape {
            Some(s) => {
                &&& r.kv_cache_hit_rate == s.kv_cache_hit_rate
                &&& r.requests_waiting == s.requests_waiting
                &&& r.requests_running == s.requests_running
                &&& r.active_service_count == Some(s.responding_targets)
            },
            None => {
                &&& r.kv_cache_hit_rate is None
                &&& r.requests_waiting is None
                &&& r.requests_running is None
                &&& r.active_service_count is None
            },
        },
        match gpu {
            Some(g) => {
                &&& r.gpu_utilization == g.gpu_utilization
                &&& r.gpu_memory_used_bytes == g.gpu_memory_used_bytes
                &&& r.tokens_per_joule == g.tokens_per_joule
            },
            None => {
                &&& r.gpu_utilization is None
                &&& r.gpu_memory_used_bytes is None
                &&& r.tokens_per_joule is None
            },
        },
{
    let mut out = Signals {
        gpu_utilization: None,
        gpu_memory_used_bytes: None,
        active_service_count: None,
        kv_cache_hit_rate: None,
        tokens_per_joule: None,
        requests_waiting: None,
        requests_running: None,
    };
    if let Some(s) = scrape {
        out.kv_cache_hit_rate = s.kv_cache_hit_rate;
        out.requests_waiting = s.requests_waiting;
        out.requests_running = s.requests_running;
        out.active_service_count = Some(s.responding_targets);
    }
    if let Some(g) = gpu {
        out.gpu_utilization = g.gpu_utilization;
        out.gpu_memory_used_bytes = g.gpu_memory_used_bytes;
        out.tokens_per_joule = g.tokens_per_joule;
    }
    out
}

/// A measurement with the time at which it was taken.
#[derive(Debug)]
pub struct Measurement {
    pub value: Signal,
    pub taken_at: String,
}

/// The last measurements of the two efficiency signals. A node that no longer serves measures
/// neither, and it is then that they are asked for.
#[derive(Debug)]
pub struct Retained {
    pub hit_rate: Option<Measurement>,
    pub tokens_per_joule: Option<Measurement>,
}

/// Whether a measurement is a new one, if there is any, and else the old one.
pub open spec fn is_latest(
    after: Option<Measurement>,
    before: Option<Measurement>,
    value: Option<Signal>,
    taken_at: Seq<char>,
) -> bool {
    match value {
        Some(v) => after is Some && after->0.value == v && after->0.taken_at@ == taken_at,
        None => after == before,
    }
}

impl Retained {
    /// No measurement.
    pub fn new() -> (r: Retained)
        ensures
            r.hit_rate is None,
            r.tokens_per_joule is None,
    {
        Retained { hit_rate: None, tokens_per_joule: None }
    }

    /// Takes over what a sample measured; what it did not measure is kept, with its own time.
    pub fn retain(&mut self, signals: &Signals, measured_at: &str)
        ensures
            is_latest(
                final(self).hit_rate,
                old(self).hit_rate,
                signals.kv_cache_hit_rate,
                measured_at@,
            ),
            is_latest(
                final(self).tokens_per_joule,
                old(self).tokens_per_joule,
                signals.tokens_per_joule,
                measured_at@,
            ),
    {
        if let Some(v) = signals.kv_cache_hit_rate {
            self.hit_rate = Some(Measurement { value: v, taken_at: measured_at.to_owned() });
        }
        if let Some(v) = signals.tokens_per_joule {
            self.tokens_per_joule =
            Some(Measurement { value: v, taken_at: measured_at.to_owned() });
        }
    }
}

/// What is written to a node's state. What is absent is taken off it.
#[derive(Debug)]
pub struct NodeReport {
    pub observed_generation: i64,
    pub last_report_time: String,
    pub gpu_utilization: Option<Signal>,
    pub gpu_memory_used_bytes: Option<i64>,
    pub active_service_count: Option<i32>,
    pub kv_cache_hit_rate: Option<Signal>,
    pub kv_cache_hit_rate_observed_at: Option<String>,
    pub tokens_per_joule: Option<Signal>,
    pub tokens_per_joule_observed_at: Option<String>,
    pub requests_waiting: Option<Signal>,
    pub requests_running: Option<Signal>,
}

/// The value of a measurement.
pub open spec fn value_of(m: Option<Measurement>) -> Option<Signal> {
    match m {
        Some(x) => Some(x.value),
        None => None,
    }
}

/// The time of a measurement.
pub open spec fn time_of(m: Option<Measurement>) -> Option<Seq<char>> {
    match m {
        Some(x) => Some(x.taken_at@),
        None => None,
    }
}

fn split_measurement(m: &Option<Measurement>) -> (r: (Option<Signal>, Option<String>))
    ensures
        r.0 == value_of(*m),
        objects::text_view(r.1) == time_of(*m),
{
    match m {
        Some(x) => (Some(x.value), Some(x.taken_at.clone())),
        None => (None, None),
    }
}

/// What is written to a node's state after a sample: the sample, but for the two efficiency signals
/// the last measurement of each, with its time.
pub fn node_report(
    signals: &Signals,
    retained: &Retained,
    generation: Option<i64>,
    report_time: &str,
) -> (r: NodeReport)
    ensures
        r.observed_generation == (match generation {
            Some(g) => g,
            None => 0,
        }),
        r.last_report_time@ == report_time@,
        r.gpu_utilization == signals.gpu_utilization,
        r.gpu_memory_used_bytes == signals.gpu_memory_used_bytes,
        r.active_service_count == signals.active_service_count,
        r.kv_cache_hit_rate == value_of(retained.hit_rate),
        objects::text_view(r.kv_cache_hit_rate_observed_at) == time_of(retained.hit_rate),
        r.tokens_per_joule == value_of(retained.tokens_per_joule),
        objects::text_view(r.tokens_per_joule_observed_at) == time_of(retained.tokens_per_joule),
        r.requests_waiting == signals.requests_waiting,
        r.requests_running == signals.requests_running,
{
    let (hit_rate, hit_rate_time) = split_measurement(&retained.hit_rate);
    let (tokens, tokens_time) = split_measurement(&retained.tokens_per_joule);
    NodeReport {
        observed_generation: match generation {
            Some(g) => g,
            None => 0,
        },
        last_report_time: report_time.to_owned(),
        gpu_utilization: signals.gpu_utilization,
        gpu_memory_used_bytes: signals.gpu_memory_used_bytes,
        active_service_count: signals.active_service_count,
        kv_cache_hit_rate: hit_rate,
        kv_cache_hit_rate_observed_at: hit_rate_time,
        tokens_per_joule: tokens,
        tokens_per_joule_observed_at: tokens_time,
        requests_waiting: signals.requests_waiting,
        requests_running: signals.requests_running,
    }
}

/// Seconds until the next report: what the spec asks for, but at least one.
pub fn report_interval_secs(spec: &NodeStateSpec) -> (r: u64)
    ensures
        r == (if spec.report_interval_seconds < 1 {
            1
        } else {
            spec.report_interval_seconds as int
        }),
{
    if spec.report_interval_seconds < 1 {
        1
    } else {
        spec.report_interval_seconds as u64
    }
}

/// The first round has nothing to compare with.
pub proof fn first_round_adds_nothing(now: Baseline)
    ensures
        advanced(None, now) == (Advance { cache: None, tokens: None }),
{
}

/// A counter that went down was reset: the round adds nothing for it, and the round after is
/// compared with the lower reading.
pub proof fn reset_is_skipped_and_realigned(a: Baseline, b: Baseline, c: Baseline)
    requires
        b.hits.number() < a.hits.number(),
        b.hits.grows_to(c.hits),
        b.queries.grows_to(c.queries),
    ensures
        advanced(Some(a), b).cache is None,
        advanced(Some(b), c).cache == Some(
            (CacheSpan {
                hits: Span { from: b.hits, to: c.hits },
                queries: Span { from: b.queries, to: c.queries },
            }),
        ),
{
}

/// Nothing is made up: what a round adds is two readings of one counter, the second no lower.
pub proof fn spans_do_not_decrease(previous: Option<Baseline>, now: Baseline)
    ensures
        ({
            let a = advanced(previous, now);
            &&& a.cache matches Some(c) ==> c.hits.from.grows_to(c.hits.to)
                && c.queries.from.grows_to(c.queries.to)
            &&& a.tokens matches Some(tokens) ==> tokens.from.grows_to(tokens.to)
        }),
{
}

/// A measurement is kept until there is a newer one: it does not expire here.
pub proof fn measurements_do_not_expire(
    after: Option<Measurement>,
    before: Option<Measurement>,
    value: Option<Signal>,
    taken_at: Seq<char>,
)
    requires
        is_latest(after, before, value, taken_at),
        before is Some,
    ensures
        after is Some,
        value is None ==> value_of(after) == value_of(before) && time_of(after) == time_of(before),
{
}

} // verus!
