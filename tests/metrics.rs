use docker_ui::metrics::{
    ContainerBlkioStatEntry, ContainerCpuStats, ContainerCpuUsage, ContainerNetworkStats,
    ContainerStatsSnapshot, CpuCalculate, DockerManager, PERCENT_SCALE,
};

fn cpu(total: u64, system: u64, online: Option<u32>) -> ContainerCpuStats {
    ContainerCpuStats {
        cpu_usage: Some(ContainerCpuUsage { total_usage: Some(total), percpu_usage: None }),
        system_cpu_usage: Some(system),
        online_cpus: online,
    }
}

fn snapshot(cur: ContainerCpuStats, pre: ContainerCpuStats) -> ContainerStatsSnapshot {
    ContainerStatsSnapshot {
        cpu_stats: Some(cur),
        precpu_stats: Some(pre),
        networks: None,
        blkio_stats: None,
        memory_usage: None,
        memory_limit: None,
    }
}

fn percent(c: &CpuCalculate) -> f64 {
    c.cpu_percent_scaled() as f64 / PERCENT_SCALE as f64
}

#[test]
fn monotonic_counters_give_fifty_percent() {
    let mut m = DockerManager::new();
    let first = m.calculate_cpu_percentage_with_cache(
        "c1",
        &snapshot(cpu(100, 1000, Some(2)), cpu(100, 1000, Some(2))),
        0,
    );
    assert_eq!(first.system_delta, 0);
    let second = m.calculate_cpu_percentage_with_cache(
        "c1",
        &snapshot(cpu(300, 1800, Some(2)), cpu(290, 1790, Some(2))),
        2,
    );
    assert_eq!(second.cpu_delta, 200);
    assert_eq!(second.system_delta, 800);
    assert_eq!(second.online_cpus, 2);
    assert_eq!(second.cpu_percent_scaled(), 50 * PERCENT_SCALE);
    assert_eq!(percent(&second), 50.0);
}

#[test]
fn first_sample_uses_snapshot_pair() {
    let mut m = DockerManager::new();
    let r = m.calculate_cpu_percentage_with_cache(
        "new",
        &snapshot(cpu(500, 4000, Some(4)), cpu(400, 3000, Some(4))),
        10,
    );
    assert_eq!(r.cpu_delta, 100);
    assert_eq!(r.system_delta, 1000);
    assert_eq!(r.online_cpus, 4);
    assert_eq!(r.cpu_percent_scaled(), 40 * PERCENT_SCALE);
    let kept = m.previous_sample("new").unwrap();
    assert_eq!(kept.timestamp, 10);
    assert_eq!(kept.cpu_total, 500);
    assert_eq!(kept.system_total, 4000);
}

#[test]
fn zero_system_delta_gives_exactly_zero() {
    let mut m = DockerManager::new();
    let r = m.calculate_cpu_percentage_with_cache(
        "idle",
        &snapshot(cpu(900, 1000, Some(8)), cpu(100, 1000, Some(8))),
        3,
    );
    assert_eq!(r.system_delta, 0);
    assert_eq!(r.cpu_percent_scaled(), 0);
    assert_eq!(r.online_cpus, 8);
    assert_eq!(percent(&r), 0.0);
}

#[test]
fn resample_at_same_instant_uses_snapshot_pair() {
    let mut m = DockerManager::new();
    m.calculate_cpu_percentage_with_cache(
        "c",
        &snapshot(cpu(1000, 10000, Some(1)), cpu(900, 9000, Some(1))),
        5,
    );
    // The cache now holds 1000/10000 at t=5; a second sample at t=5 must not use it.
    let r = m.calculate_cpu_percentage_with_cache(
        "c",
        &snapshot(cpu(1050, 10100, Some(1)), cpu(1040, 10000, Some(1))),
        5,
    );
    assert_eq!(r.cpu_delta, 10);
    assert_eq!(r.system_delta, 100);
    assert_eq!(m.previous_sample("c").unwrap().cpu_total, 1050);
    // One second later the cached sample is the baseline again.
    let r = m.calculate_cpu_percentage_with_cache(
        "c",
        &snapshot(cpu(1150, 10300, Some(1)), cpu(1149, 10299, Some(1))),
        6,
    );
    assert_eq!(r.cpu_delta, 100);
    assert_eq!(r.system_delta, 200);
}

#[test]
fn counters_going_backwards_floor_at_zero() {
    let mut m = DockerManager::new();
    m.calculate_cpu_percentage_with_cache("c", &snapshot(cpu(500, 5000, None), cpu(0, 0, None)), 0);
    let r = m.calculate_cpu_percentage_with_cache("c", &snapshot(cpu(100, 6000, None), cpu(0, 0, None)), 10);
    assert_eq!(r.cpu_delta, 0);
    assert_eq!(r.system_delta, 1000);
    assert_eq!(r.online_cpus, 1);
}

#[test]
fn cpu_count_falls_back_to_per_cpu_entries() {
    let mut m = DockerManager::new();
    let cur = ContainerCpuStats {
        cpu_usage: Some(ContainerCpuUsage { total_usage: Some(10), percpu_usage: Some(vec![1, 2, 3]) }),
        system_cpu_usage: Some(100),
        online_cpus: None,
    };
    let r = m.calculate_cpu_percentage_with_cache("c", &snapshot(cur, cpu(0, 0, None)), 1);
    assert_eq!(r.online_cpus, 3);
    let empty = ContainerCpuStats {
        cpu_usage: Some(ContainerCpuUsage { total_usage: Some(10), percpu_usage: Some(vec![]) }),
        system_cpu_usage: Some(100),
        online_cpus: None,
    };
    let r = m.calculate_cpu_percentage_with_cache("d", &snapshot(empty, cpu(0, 0, None)), 1);
    assert_eq!(r.online_cpus, 1);
}

#[test]
fn snapshot_without_cpu_counters_leaves_cache_alone() {
    let mut m = DockerManager::new();
    let s = ContainerStatsSnapshot {
        cpu_stats: Some(cpu(1, 2, Some(2))),
        precpu_stats: None,
        networks: None,
        blkio_stats: None,
        memory_usage: None,
        memory_limit: None,
    };
    let r = m.calculate_cpu_percentage_with_cache("x", &s, 4);
    assert_eq!(r.online_cpus, 0);
    assert_eq!(r.cpu_percent_scaled(), 0);
    assert!(m.previous_sample("x").is_none());
}

#[test]
fn network_and_block_totals_are_summed() {
    let m = DockerManager::new();
    let s = ContainerStatsSnapshot {
        cpu_stats: None,
        precpu_stats: None,
        networks: Some(vec![
            ContainerNetworkStats { rx_bytes: Some(100), tx_bytes: Some(7) },
            ContainerNetworkStats { rx_bytes: None, tx_bytes: Some(3) },
            ContainerNetworkStats { rx_bytes: Some(u64::MAX), tx_bytes: None },
        ]),
        blkio_stats: Some(vec![
            ContainerBlkioStatEntry { op: Some("Read".to_string()), value: Some(10) },
            ContainerBlkioStatEntry { op: Some("Write".to_string()), value: Some(20) },
            ContainerBlkioStatEntry { op: Some("read".to_string()), value: Some(1000) },
            ContainerBlkioStatEntry { op: None, value: Some(1000) },
            ContainerBlkioStatEntry { op: Some("Read".to_string()), value: Some(5) },
        ]),
        memory_usage: None,
        memory_limit: None,
    };
    assert_eq!(m.get_network_stats(&s), (u64::MAX, 10));
    assert_eq!(m.get_block_stats(&s), (15, 20));
    let none = ContainerStatsSnapshot {
        cpu_stats: None,
        precpu_stats: None,
        networks: None,
        blkio_stats: None,
        memory_usage: None,
        memory_limit: None,
    };
    assert_eq!(m.get_network_stats(&none), (0, 0));
    assert_eq!(m.get_block_stats(&none), (0, 0));
}

#[test]
fn cache_keeps_one_sample_per_resource() {
    let mut m = DockerManager::new();
    m.calculate_cpu_percentage_with_cache("a", &snapshot(cpu(1, 10, Some(1)), cpu(0, 0, Some(1))), 1);
    m.calculate_cpu_percentage_with_cache("b", &snapshot(cpu(2, 20, Some(1)), cpu(0, 0, Some(1))), 1);
    m.calculate_cpu_percentage_with_cache("a", &snapshot(cpu(3, 30, Some(1)), cpu(0, 0, Some(1))), 9);
    assert_eq!(m.previous_sample("a").unwrap().cpu_total, 3);
    assert_eq!(m.previous_sample("a").unwrap().timestamp, 9);
    assert_eq!(m.previous_sample("b").unwrap().cpu_total, 2);
}

#[test]
fn huge_utilisation_saturates() {
    let c = CpuCalculate { cpu_delta: u64::MAX, system_delta: 1, online_cpus: u64::MAX };
    assert_eq!(c.cpu_percent_scaled(), u128::MAX);
    let c = CpuCalculate { cpu_delta: 1, system_delta: 3, online_cpus: 1 };
    assert_eq!(c.cpu_percent_scaled(), 33_333_333);
}
