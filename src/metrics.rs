//! Derived metrics: turns cumulative CPU, network and block-device counters
//! into a utilisation figure, keeping one previous sample per resource.
use vstd::prelude::*;
use vstd::arithmetic::div_mod::{lemma_fundamental_div_mod, lemma_hoist_over_denominator};
use crate::keyed::{
    Keyed, keys_unique, keyed_map, find_key, lemma_keyed_map_dom, lemma_keyed_map_index,
    lemma_keyed_map_update, lemma_keyed_map_push,
};

verus! {

/// Seconds that must separate two samples before the cached one is used as a baseline.
pub const MIN_CPU_INTERVAL: u64 = 1;

/// Fixed-point scale of [`CpuCalculate::cpu_percent_scaled`]: one percent is this many units.
pub const PERCENT_SCALE: u128 = 1_000_000;

pub struct ContainerCpuUsage {
    pub total_usage: Option<u64>,
    pub percpu_usage: Option<Vec<u64>>,
}

pub struct ContainerCpuStats {
    pub cpu_usage: Option<ContainerCpuUsage>,
    pub system_cpu_usage: Option<u64>,
    pub online_cpus: Option<u32>,
}

pub struct ContainerNetworkStats {
    pub rx_bytes: Option<u64>,
    pub tx_bytes: Option<u64>,
}

pub struct ContainerBlkioStatEntry {
    pub op: Option<String>,
    pub value: Option<u64>,
}

/// One raw counter reading for a container (or the host): the current CPU
/// counters, the runtime's own previous CPU counters, per-interface network
/// counters and per-device block I/O records.
pub struct ContainerStatsSnapshot {
    pub cpu_stats: Option<ContainerCpuStats>,
    pub precpu_stats: Option<ContainerCpuStats>,
    pub networks: Option<Vec<ContainerNetworkStats>>,
    pub blkio_stats: Option<Vec<ContainerBlkioStatEntry>>,
    pub memory_usage: Option<u64>,
    pub memory_limit: Option<u64>,
}

/// The sample retained for a resource, replaced on every new sample.
#[derive(Clone, Copy, Debug)]
pub struct PreviousStats {
    pub timestamp: u64,
    pub cpu_total: u64,
    pub system_total: u64,
    pub network_rx: u64,
    pub network_tx: u64,
    pub block_read: u64,
    pub block_write: u64,
}

/// CPU utilisation of one sample, as the two counter deltas and the CPU count
/// that the percentage `cpu_delta / system_delta * online_cpus * 100` is made of.
#[derive(Clone, Copy, Debug)]
pub struct CpuCalculate {
    pub cpu_delta: u64,
    pub system_delta: u64,
    pub online_cpus: u64,
}

/// The metrics engine: one previous sample per resource identifier.
pub struct DockerManager {
    previous_stats: Vec<Keyed<PreviousStats>>,
}

pub open spec fn or_zero(v: Option<u64>) -> u64 {
    match v {
        Some(x) => x,
        None => 0,
    }
}

/// `a - b`, floored at zero.
pub open spec fn sat_sub(a: u64, b: u64) -> u64 {
    if a >= b {
        (a - b) as u64
    } else {
        0
    }
}

/// A non-negative integer, capped at the largest `u64`.
pub open spec fn capped(x: int) -> u64 {
    if x >= u64::MAX {
        u64::MAX
    } else {
        x as u64
    }
}

pub open spec fn seq_total(s: Seq<u64>) -> int
    decreases s.len(),
{
    if s.len() == 0 {
        0
    } else {
        seq_total(s.drop_last()) + s.last()
    }
}

pub open spec fn rx_values(n: Seq<ContainerNetworkStats>) -> Seq<u64> {
    n.map_values(|e: ContainerNetworkStats| or_zero(e.rx_bytes))
}

pub open spec fn tx_values(n: Seq<ContainerNetworkStats>) -> Seq<u64> {
    n.map_values(|e: ContainerNetworkStats| or_zero(e.tx_bytes))
}

pub open spec fn read_op() -> Seq<char> {
    seq!['R', 'e', 'a', 'd']
}

pub open spec fn write_op() -> Seq<char> {
    seq!['W', 'r', 'i', 't', 'e']
}

/// What a block I/O record adds to the total of operation `op`.
pub open spec fn op_bytes(e: ContainerBlkioStatEntry, op: Seq<char>) -> u64 {
    match e.op {
        Some(o) => if o@ == op {
            or_zero(e.value)
        } else {
            0
        },
        None => 0,
    }
}

pub open spec fn op_values(b: Seq<ContainerBlkioStatEntry>, op: Seq<char>) -> Seq<u64> {
    b.map_values(|e: ContainerBlkioStatEntry| op_bytes(e, op))
}

/// Received and transmitted bytes summed over all interfaces (saturating).
pub open spec fn network_totals(s: ContainerStatsSnapshot) -> (u64, u64) {
    match s.networks {
        Some(n) => (capped(seq_total(rx_values(n@))), capped(seq_total(tx_values(n@)))),
        None => (0, 0),
    }
}

/// Bytes read and written summed over all block-device records (saturating).
pub open spec fn block_totals(s: ContainerStatsSnapshot) -> (u64, u64) {
    match s.blkio_stats {
        Some(b) => (
            capped(seq_total(op_values(b@, read_op()))),
            capped(seq_total(op_values(b@, write_op()))),
        ),
        None => (0, 0),
    }
}

/// The snapshot carries current and previous CPU usage counters.
pub open spec fn has_cpu_counters(s: ContainerStatsSnapshot) -> bool {
    &&& s.cpu_stats is Some
    &&& s.precpu_stats is Some
    &&& s.cpu_stats->0.cpu_usage is Some
    &&& s.precpu_stats->0.cpu_usage is Some
}

pub open spec fn cpu_total_of(c: ContainerCpuStats) -> u64 {
    match c.cpu_usage {
        Some(u) => or_zero(u.total_usage),
        None => 0,
    }
}

pub open spec fn system_total_of(c: ContainerCpuStats) -> u64 {
    or_zero(c.system_cpu_usage)
}

/// Online CPUs: the explicit count, else the number of per-CPU entries
/// (at least one), else one.
pub open spec fn cpu_count(c: ContainerCpuStats) -> u64 {
    match c.online_cpus {
        Some(n) => n as u64,
        None => match c.cpu_usage {
            Some(u) => match u.percpu_usage {
                Some(p) => if p@.len() >= 1 {
                    p@.len() as u64
                } else {
                    1
                },
                None => 1,
            },
            None => 1,
        },
    }
}

/// The cached sample may serve as a baseline: one exists for the resource and
/// at least `MIN_CPU_INTERVAL` seconds have passed since it was taken.
pub open spec fn uses_cached_baseline(
    cache: Map<Seq<char>, PreviousStats>,
    id: Seq<char>,
    now: u64,
) -> bool {
    cache.contains_key(id) && now - cache[id].timestamp >= MIN_CPU_INTERVAL
}

/// The `(cpu, system)` counters that the current sample is measured against:
/// the cached sample when it may serve, otherwise the snapshot's own
/// previous counters.
pub open spec fn baseline(
    cache: Map<Seq<char>, PreviousStats>,
    id: Seq<char>,
    s: ContainerStatsSnapshot,
    now: u64,
) -> (u64, u64) {
    if uses_cached_baseline(cache, id, now) {
        (cache[id].cpu_total, cache[id].system_total)
    } else {
        (cpu_total_of(s.precpu_stats->0), system_total_of(s.precpu_stats->0))
    }
}

/// The result of sampling `s` for resource `id` at time `now` against `cache`.
pub open spec fn cpu_result(
    cache: Map<Seq<char>, PreviousStats>,
    id: Seq<char>,
    s: ContainerStatsSnapshot,
    now: u64,
) -> CpuCalculate {
    if has_cpu_counters(s) {
        let cur = s.cpu_stats->0;
        let base = baseline(cache, id, s, now);
        CpuCalculate {
            cpu_delta: sat_sub(cpu_total_of(cur), base.0),
            system_delta: sat_sub(system_total_of(cur), base.1),
            online_cpus: cpu_count(cur),
        }
    } else {
        CpuCalculate { cpu_delta: 0, system_delta: 0, online_cpus: 0 }
    }
}

/// The sample retained after reading `s` at time `now`.
pub open spec fn retained_sample(s: ContainerStatsSnapshot, now: u64) -> PreviousStats {
    PreviousStats {
        timestamp: now,
        cpu_total: cpu_total_of(s.cpu_stats->0),
        system_total: system_total_of(s.cpu_stats->0),
        network_rx: network_totals(s).0,
        network_tx: network_totals(s).1,
        block_read: block_totals(s).0,
        block_write: block_totals(s).1,
    }
}

/// The cache after sampling: replaced for `id` when the snapshot has CPU
/// counters, untouched otherwise.
pub open spec fn cache_after(
    cache: Map<Seq<char>, PreviousStats>,
    id: Seq<char>,
    s: ContainerStatsSnapshot,
    now: u64,
) -> Map<Seq<char>, PreviousStats> {
    if has_cpu_counters(s) {
        cache.insert(id, retained_sample(s, now))
    } else {
        cache
    }
}

impl CpuCalculate {
    /// The utilisation in percent, scaled by `PERCENT_SCALE` and rounded down;
    /// zero when no reference time passed.
    pub open spec fn spec_percent_scaled(self) -> int {
        if self.system_delta == 0 {
            0
        } else {
            (self.cpu_delta * self.online_cpus * 100 * PERCENT_SCALE) / (self.system_delta as int)
        }
    }

    /// [`Self::spec_percent_scaled`], saturating at the largest `u128`.
    pub fn cpu_percent_scaled(&self) -> (r: u128)
        ensures
            r == (if self.spec_percent_scaled() > u128::MAX {
                u128::MAX as int
            } else {
                self.spec_percent_scaled()
            }),
    {
        if self.system_delta == 0 {
            return 0;
        }
        let cd = self.cpu_delta;
        let cpus = self.online_cpus;
        assert((cd as int) * (cpus as int) <= u128::MAX) by (nonlinear_arith)
            requires
                cd <= u64::MAX,
                cpus <= u64::MAX,
        ;
        let base: u128 = (cd as u128) * (cpus as u128);
        let d: u128 = self.system_delta as u128;
        let scale: u128 = 100 * PERCENT_SCALE;
        let whole: u128 = base / d;
        let rest: u128 = base % d;
        let ghost exact: int = (base * scale) / (d as int);
        proof {
            lemma_fundamental_div_mod(base as int, d as int);
            assert(base * scale == rest * scale + (whole * scale) * d) by (nonlinear_arith)
                requires
                    base == d * whole + rest,
            ;
            lemma_hoist_over_denominator(rest * scale, whole * scale, d as nat);
            assert(exact == (rest * scale) / (d as int) + whole * scale);
            assert(cd * cpus * 100 * PERCENT_SCALE == base * scale) by (nonlinear_arith)
                requires
                    base == cd * cpus,
                    scale == 100 * PERCENT_SCALE,
            ;
            assert(rest * scale <= u128::MAX) by (nonlinear_arith)
                requires
                    rest < d,
                    d <= u64::MAX,
                    scale == 100 * PERCENT_SCALE,
            ;
            assert(0 <= (rest * scale) / (d as int)) by (nonlinear_arith)
                requires
                    0 <= rest,
                    0 < d,
                    0 <= scale,
            ;
        }
        match whole.checked_mul(scale) {
            Some(w) => {
                let frac: u128 = (rest * scale) / d;
                match w.checked_add(frac) {
                    Some(r) => r,
                    None => u128::MAX,
                }
            },
            None => u128::MAX,
        }
    }
}

pub proof fn lemma_seq_total_nonneg(s: Seq<u64>)
    ensures
        seq_total(s) >= 0,
    decreases s.len(),
{
    if s.len() > 0 {
        lemma_seq_total_nonneg(s.drop_last());
    }
}

proof fn lemma_total_step(s: Seq<u64>, i: int)
    requires
        0 <= i < s.len(),
    ensures
        seq_total(s.subrange(0, i + 1)) == seq_total(s.subrange(0, i)) + s[i],
        capped(seq_total(s.subrange(0, i + 1))) == (if capped(seq_total(s.subrange(0, i))) + s[i]
            > u64::MAX {
            u64::MAX as int
        } else {
            capped(seq_total(s.subrange(0, i))) + s[i]
        }),
{
    assert(s.subrange(0, i + 1).drop_last() =~= s.subrange(0, i));
    lemma_seq_total_nonneg(s.subrange(0, i));
}

/// Sum of received and transmitted bytes over all interfaces.
fn sum_networks(n: &Vec<ContainerNetworkStats>) -> (r: (u64, u64))
    ensures
        r.0 == capped(seq_total(rx_values(n@))),
        r.1 == capped(seq_total(tx_values(n@))),
{
    let mut rx: u64 = 0;
    let mut tx: u64 = 0;
    let mut i: usize = 0;
    while i < n.len()
        invariant
            i <= n@.len(),
            rx == capped(seq_total(rx_values(n@).subrange(0, i as int))),
            tx == capped(seq_total(tx_values(n@).subrange(0, i as int))),
        decreases n@.len() - i,
    {
        proof {
            lemma_total_step(rx_values(n@), i as int);
            lemma_total_step(tx_values(n@), i as int);
        }
        let e = &n[i];
        let r_add = match e.rx_bytes {
            Some(x) => x,
            None => 0,
        };
        let t_add = match e.tx_bytes {
            Some(x) => x,
            None => 0,
        };
        rx = rx.saturating_add(r_add);
        tx = tx.saturating_add(t_add);
        i = i + 1;
    }
    proof {
        assert(rx_values(n@).subrange(0, n@.len() as int) =~= rx_values(n@));
        assert(tx_values(n@).subrange(0, n@.len() as int) =~= tx_values(n@));
    }
    (rx, tx)
}

/// Sum of bytes read and written over all block-device records.
fn sum_block_io(b: &Vec<ContainerBlkioStatEntry>) -> (r: (u64, u64))
    ensures
        r.0 == capped(seq_total(op_values(b@, read_op()))),
        r.1 == capped(seq_total(op_values(b@, write_op()))),
{
    let read_name = String::from_str("Read");
    let write_name = String::from_str("Write");
    proof {
        reveal_strlit("Read");
        reveal_strlit("Write");
        assert(read_name@ =~= read_op());
        assert(write_name@ =~= write_op());
    }
    let mut read: u64 = 0;
    let mut write: u64 = 0;
    let mut i: usize = 0;
    while i < b.len()
        invariant
            i <= b@.len(),
            read_name@ == read_op(),
            write_name@ == write_op(),
            read == capped(seq_total(op_values(b@, read_op()).subrange(0, i as int))),
            write == capped(seq_total(op_values(b@, write_op()).subrange(0, i as int))),
        decreases b@.len() - i,
    {
        proof {
            lemma_total_step(op_values(b@, read_op()), i as int);
            lemma_total_step(op_values(b@, write_op()), i as int);
        }
        let e = &b[i];
        let value = match e.value {
            Some(x) => x,
            None => 0,
        };
        match &e.op {
            Some(op) => {
                if *op == read_name {
                    read = read.saturating_add(value);
                } else if *op == write_name {
                    write = write.saturating_add(value);
                }
            },
            None => {},
        }
        i = i + 1;
    }
    proof {
        assert(op_values(b@, read_op()).subrange(0, b@.len() as int) =~= op_values(
            b@,
            read_op(),
        ));
        assert(op_values(b@, write_op()).subrange(0, b@.len() as int) =~= op_values(
            b@,
            write_op(),
        ));
    }
    (read, write)
}

fn cpu_total(c: &ContainerCpuStats) -> (r: u64)
    ensures
        r == cpu_total_of(*c),
{
    match &c.cpu_usage {
        Some(u) => match u.total_usage {
            Some(x) => x,
            None => 0,
        },
        None => 0,
    }
}

fn system_total(c: &ContainerCpuStats) -> (r: u64)
    ensures
        r == system_total_of(*c),
{
    match c.system_cpu_usage {
        Some(x) => x,
        None => 0,
    }
}

fn online_cpu_count(c: &ContainerCpuStats) -> (r: u64)
    ensures
        r == cpu_count(*c),
{
    match c.online_cpus {
        Some(n) => n as u64,
        None => match &c.cpu_usage {
            Some(u) => match &u.percpu_usage {
                Some(p) => if p.len() >= 1 {
                    p.len() as u64
                } else {
                    1
                },
                None => 1,
            },
            None => 1,
        },
    }
}

impl DockerManager {
    /// Well-formed: at most one cached sample per resource identifier.
    pub closed spec fn wf(&self) -> bool {
        keys_unique(self.previous_stats@)
    }

    /// The retained sample of each resource identifier.
    pub closed spec fn cache(&self) -> Map<Seq<char>, PreviousStats> {
        keyed_map(self.previous_stats@)
    }

    pub fn new() -> (r: DockerManager)
        ensures
            r.wf(),
            r.cache() == Map::<Seq<char>, PreviousStats>::empty(),
    {
        DockerManager { previous_stats: Vec::new() }
    }

    /// The retained sample for `id`, if any.
    pub fn previous_sample(&self, id: &str) -> (r: Option<PreviousStats>)
        requires
            self.wf(),
        ensures
            match r {
                Some(p) => self.cache().contains_key(id@) && self.cache()[id@] == p,
                None => !self.cache().contains_key(id@),
            },
    {
        proof {
            lemma_keyed_map_dom(self.previous_stats@, id@);
        }
        match find_key(&self.previous_stats, id) {
            Some(i) => {
                proof {
                    lemma_keyed_map_index(self.previous_stats@, i as int);
                }
                Some(self.previous_stats[i].value)
            },
            None => None,
        }
    }

    /// Received and transmitted bytes of a snapshot, summed over interfaces.
    pub fn get_network_stats(&self, stats: &ContainerStatsSnapshot) -> (r: (u64, u64))
        ensures
            r == network_totals(*stats),
    {
        match &stats.networks {
            Some(n) => sum_networks(n),
            None => (0, 0),
        }
    }

    /// Bytes read and written of a snapshot, summed over block-device records.
    pub fn get_block_stats(&self, stats: &ContainerStatsSnapshot) -> (r: (u64, u64))
        ensures
            r == block_totals(*stats),
    {
        match &stats.blkio_stats {
            Some(b) => sum_block_io(b),
            None => (0, 0),
        }
    }

    /// Replaces (or creates) the retained sample of `id`.
    fn store_sample(&mut self, id: &str, sample: PreviousStats)
        requires
            old(self).wf(),
        ensures
            final(self).wf(),
            final(self).cache() == old(self).cache().insert(id@, sample),
    {
        let row = Keyed { key: String::from_str(id), value: sample };
        match find_key(&self.previous_stats, id) {
            Some(i) => {
                proof {
                    lemma_keyed_map_update(self.previous_stats@, i as int, row);
                }
                self.previous_stats.set(i, row);
            },
            None => {
                proof {
                    lemma_keyed_map_push(self.previous_stats@, row);
                }
                self.previous_stats.push(row);
            },
        }
    }

    /// Samples `stats` for resource `container_id` at time `current_time` (seconds).
    ///
    /// The CPU deltas are taken against the retained sample of the resource
    /// when one exists and is at least `MIN_CPU_INTERVAL` old, and against the
    /// snapshot's own previous counters otherwise (first sample, or sampled
    /// too soon). Deltas never go below zero. The retained sample is then
    /// replaced by this one, whichever baseline was used. A snapshot without
    /// CPU usage counters yields zeros and leaves the cache as it was.
    pub fn calculate_cpu_percentage_with_cache(
        &mut self,
        container_id: &str,
        stats: &ContainerStatsSnapshot,
        current_time: u64,
    ) -> (r: CpuCalculate)
        requires
            old(self).wf(),
        ensures
            final(self).wf(),
            r == cpu_result(old(self).cache(), container_id@, *stats, current_time),
            final(self).cache() == cache_after(old(self).cache(), container_id@, *stats, current_time),
    {
        let (cpu_stats, precpu_stats) = match (&stats.cpu_stats, &stats.precpu_stats) {
            (Some(c), Some(p)) => (c, p),
            _ => {
                return CpuCalculate { cpu_delta: 0, system_delta: 0, online_cpus: 0 };
            },
        };
        if cpu_stats.cpu_usage.is_none() || precpu_stats.cpu_usage.is_none() {
            return CpuCalculate { cpu_delta: 0, system_delta: 0, online_cpus: 0 };
        }
        let cpu_now = cpu_total(cpu_stats);
        let system_now = system_total(cpu_stats);
        let (cpu_before, system_before) = match self.previous_sample(container_id) {
            Some(prev) => {
                if current_time.saturating_sub(prev.timestamp) >= MIN_CPU_INTERVAL {
                    (prev.cpu_total, prev.system_total)
                } else {
                    (cpu_total(precpu_stats), system_total(precpu_stats))
                }
            },
            None => (cpu_total(precpu_stats), system_total(precpu_stats)),
        };
        let (network_rx, network_tx) = self.get_network_stats(stats);
        let (block_read, block_write) = self.get_block_stats(stats);
        let online_cpus = online_cpu_count(cpu_stats);
        let sample = PreviousStats {
            timestamp: current_time,
            cpu_total: cpu_now,
            system_total: system_now,
            network_rx,
            network_tx,
            block_read,
            block_write,
        };
        self.store_sample(container_id, sample);
        CpuCalculate {
            cpu_delta: cpu_now.saturating_sub(cpu_before),
            system_delta: system_now.saturating_sub(system_before),
            online_cpus,
        }
    }
}

/// A resource seen for the first time is measured against the snapshot's own
/// previous counters, and its utilisation is defined (never a division by zero).
pub proof fn lemma_first_sample_uses_snapshot_pair(
    cache: Map<Seq<char>, PreviousStats>,
    id: Seq<char>,
    s: ContainerStatsSnapshot,
    now: u64,
)
    requires
        !cache.contains_key(id),
    ensures
        has_cpu_counters(s) ==> baseline(cache, id, s, now) == (
            cpu_total_of(s.precpu_stats->0),
            system_total_of(s.precpu_stats->0),
        ),
        cpu_result(cache, id, s, now).spec_percent_scaled() >= 0,
        cache_after(cache, id, s, now).contains_key(id) == has_cpu_counters(s),
{
    let r = cpu_result(cache, id, s, now);
    if r.system_delta != 0 {
        assert((r.cpu_delta * r.online_cpus * 100 * PERCENT_SCALE) / (r.system_delta as int) >= 0)
            by (nonlinear_arith)
            requires
                r.system_delta > 0,
                r.cpu_delta >= 0,
                r.online_cpus >= 0,
        ;
    }
}

/// When the system counter did not advance, the utilisation is exactly zero.
pub proof fn lemma_zero_system_delta_gives_zero(c: CpuCalculate)
    requires
        c.system_delta == 0,
    ensures
        c.spec_percent_scaled() == 0,
{
}

/// A sample taken less than `MIN_CPU_INTERVAL` after the retained one is
/// measured against the snapshot's own previous counters, not the cache.
pub proof fn lemma_short_interval_uses_snapshot_pair(
    cache: Map<Seq<char>, PreviousStats>,
    id: Seq<char>,
    s: ContainerStatsSnapshot,
    now: u64,
)
    requires
        cache.contains_key(id),
        now - cache[id].timestamp < MIN_CPU_INTERVAL,
    ensures
        baseline(cache, id, s, now) == (
            cpu_total_of(s.precpu_stats->0),
            system_total_of(s.precpu_stats->0),
        ),
{
}

/// Two samples of one resource at the same instant: the second is measured
/// against its own previous counters, and the cache then holds the second.
pub proof fn lemma_same_instant_resample(
    cache: Map<Seq<char>, PreviousStats>,
    id: Seq<char>,
    first: ContainerStatsSnapshot,
    second: ContainerStatsSnapshot,
    now: u64,
)
    requires
        has_cpu_counters(first),
    ensures
        ({
            let mid = cache_after(cache, id, first, now);
            &&& baseline(mid, id, second, now) == (
                cpu_total_of(second.precpu_stats->0),
                system_total_of(second.precpu_stats->0),
            )
            &&& has_cpu_counters(second) ==> cache_after(mid, id, second, now)[id]
                == retained_sample(second, now)
        }),
{
}

} // verus!
