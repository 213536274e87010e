use docker_ui::local::{
    docker_info, image_removal_message_lower, network_removal_message_lower, volume_kind_lower,
    volume_removal_message_lower,
};
use docker_ui::local::{
    container_info, container_name, container_name_exists, container_plan, format_log_line,
    format_logs, image_exists, image_info, image_removal_message, list_images, list_networks,
    list_volumes, mem_total_bytes, network_removal_message, show_log_line, volume_removal_message,
    ContainerSample, CreateContainerRequest, DockerStatus, EnvVar, ImageRecord, MountRecord,
    NetworkRecord, PortMapping, ProcessOutput, RestartPolicyKind, VolumeRecord,
};
use docker_ui::metrics::{
    ContainerCpuStats, ContainerCpuUsage, ContainerNetworkStats, ContainerStatsSnapshot,
    DockerManager, PERCENT_SCALE,
};

fn out(success: bool, stdout: &str, stderr: &str) -> ProcessOutput {
    ProcessOutput { success, stdout: stdout.to_string(), stderr: stderr.to_string() }
}

#[test]
fn local_status_decisions() {
    let m = DockerManager::new();
    assert!(matches!(m.check_docker_status(false, &None), DockerStatus::NotInstalled));
    assert!(matches!(m.check_docker_status(true, &None), DockerStatus::PermissionDenied));
    assert!(matches!(m.check_docker_status(true, &Some(out(true, "", ""))), DockerStatus::Running));
    let denied = out(false, "", "Got permission denied while trying to connect to the Docker daemon socket");
    assert!(matches!(m.check_docker_status(true, &Some(denied)), DockerStatus::PermissionDenied));
    let down = out(false, "", "Cannot connect to the Docker daemon at unix:///var/run/docker.sock. Is the docker daemon running?");
    assert!(matches!(m.check_docker_status(true, &Some(down)), DockerStatus::NotRunning));
    let other = out(false, "", "something else");
    assert!(matches!(m.check_docker_status(true, &Some(other)), DockerStatus::PermissionDenied));
}

#[test]
fn removal_failures_are_classified() {
    assert_eq!(
        image_removal_message("Error: CONFLICT: unable to delete (image is being used by running container 1)"),
        "IN_USE:A imagem está em uso por um contêiner."
    );
    assert_eq!(
        image_removal_message("no such image"),
        "OTHER_ERROR:Não foi possível remover a imagem. Tente forçar a remoção."
    );
    assert_eq!(
        network_removal_message("error: network has active ENDPOINTS"),
        "IN_USE:A network possui containers conectados."
    );
    assert_eq!(network_removal_message("No such network: x"), "OTHER_ERROR:Network não encontrada.");
    assert_eq!(
        network_removal_message("Boom"),
        "OTHER_ERROR:Não foi possível remover a network: Boom"
    );
    assert_eq!(
        volume_removal_message("Error: volume is IN USE"),
        "IN_USE:O volume está sendo usado por containers."
    );
    assert_eq!(volume_removal_message("no such volume"), "OTHER_ERROR:Volume não encontrado.");
    assert_eq!(volume_removal_message("Bad"), "OTHER_ERROR:Não foi possível remover o volume: Bad");
}

#[test]
fn image_repository_and_tag() {
    let i = image_info("sha".to_string(), &vec!["localhost:5000/app:1.2".to_string()], 1, 2, 3);
    assert_eq!(i.repository, "localhost:5000/app");
    assert_eq!(i.tag, "1.2");
    assert!(i.in_use);
    let i = image_info("sha".to_string(), &vec!["plain".to_string()], 1, 2, 0);
    assert_eq!(i.repository, "plain");
    assert_eq!(i.tag, "latest");
    assert!(!i.in_use);
    let i = image_info("sha".to_string(), &vec![], 1, 2, 0);
    assert_eq!(i.repository, "<none>");
    assert_eq!(i.tag, "<none>");
}

#[test]
fn images_are_listed_by_repository() {
    let rec = |id: &str, tag: &str| ImageRecord {
        id: id.to_string(),
        repo_tags: vec![tag.to_string()],
        created: 0,
        size: 10,
        containers: 0,
    };
    let list = list_images(vec![rec("1", "redis:7"), rec("2", "alpine:3"), rec("3", "nginx:1")]);
    let repos: Vec<&str> = list.iter().map(|i| i.repository.as_str()).collect();
    assert_eq!(repos, vec!["alpine", "nginx", "redis"]);
    assert!(image_exists(&list, "alpine:3"));
    assert!(image_exists(&list, "nginx"));
    assert!(!image_exists(&list, "nginx:2"));
    let latest = list_images(vec![rec("4", "busybox:latest")]);
    assert!(image_exists(&latest, "busybox"));
    assert!(!image_exists(&latest, "busybox:latest"));
}

#[test]
fn container_names_and_ports() {
    assert_eq!(container_name(&vec!["/web".to_string(), "/alias".to_string()]), "web, /alias");
    assert_eq!(container_name(&vec![]), "");
    assert_eq!(container_name(&vec!["//x".to_string()]), "x");
    let c = container_info(
        "id".to_string(),
        &vec!["/db".to_string()],
        "postgres".to_string(),
        None,
        "Up".to_string(),
        &vec![Some(5432), None, Some(80)],
        7,
    );
    assert_eq!(c.name, "db");
    assert_eq!(c.state, "unknown");
    assert_eq!(c.ports, vec![5432, 80]);
    assert!(container_name_exists(&vec![c], "db"));
}

#[test]
fn networks_count_attached_containers() {
    let n = |id: &str, name: &str| NetworkRecord {
        id: id.to_string(),
        name: name.to_string(),
        driver: "bridge".to_string(),
        scope: "local".to_string(),
        created: "2024".to_string(),
    };
    let attached = vec!["b".to_string(), "a".to_string(), "b".to_string(), "z".to_string()];
    let list = list_networks(vec![n("z", "bridge"), n("b", "zeta"), n("a", "alpha"), n("h", "host")], &attached);
    assert_eq!(list.len(), 2);
    assert_eq!(list[0].name, "alpha");
    assert_eq!(list[0].containers_count, 1);
    assert_eq!(list[1].name, "zeta");
    assert_eq!(list[1].containers_count, 2);
    assert!(!list[1].is_system);
}

#[test]
fn volumes_count_named_volume_mounts() {
    let v = |name: &str| VolumeRecord {
        name: name.to_string(),
        driver: "local".to_string(),
        mountpoint: format!("/v/{}", name),
        created: String::new(),
    };
    let mounts = vec![
        MountRecord { name: Some("data".to_string()), kind: Some("VOLUME".to_string()) },
        MountRecord { name: Some("data".to_string()), kind: Some("BIND".to_string()) },
        MountRecord { name: Some("data".to_string()), kind: Some("Volume".to_string()) },
        MountRecord { name: None, kind: Some("VOLUME".to_string()) },
        MountRecord { name: Some("cache".to_string()), kind: None },
    ];
    let list = list_volumes(vec![v("data"), v("cache"), v("aux")], &mounts);
    let names: Vec<&str> = list.iter().map(|x| x.name.as_str()).collect();
    assert_eq!(names, vec!["aux", "cache", "data"]);
    assert_eq!(list[0].containers_count, 0);
    assert_eq!(list[1].containers_count, 0);
    assert_eq!(list[2].containers_count, 2);
}

#[test]
fn creation_plan() {
    let req = CreateContainerRequest {
        name: "web".to_string(),
        image: "nginx".to_string(),
        ports: vec![PortMapping { host_port: 8080, container_port: 80, protocol: "tcp".to_string() }],
        volumes: vec![],
        environment: vec![
            EnvVar { key: "A".to_string(), value: "1".to_string() },
            EnvVar { key: "B".to_string(), value: "x=y".to_string() },
        ],
        command: Some("  nginx -g  'daemon off;' ".to_string()),
        restart_policy: "on-failure".to_string(),
    };
    let plan = container_plan(&req);
    assert_eq!(plan.port_bindings.len(), 1);
    assert_eq!(plan.port_bindings[0].container_port_key, "80/tcp");
    assert_eq!(plan.port_bindings[0].host_port, "8080");
    assert_eq!(plan.env, vec!["A=1".to_string(), "B=x=y".to_string()]);
    assert!(matches!(plan.restart, RestartPolicyKind::OnFailure));
    assert_eq!(plan.maximum_retry_count, Some(3));
    assert_eq!(
        plan.cmd,
        Some(vec!["nginx".to_string(), "-g".to_string(), "'daemon".to_string(), "off;'".to_string()])
    );
    let other = CreateContainerRequest { restart_policy: "sometimes".to_string(), command: None, ..req };
    let plan = container_plan(&other);
    assert!(matches!(plan.restart, RestartPolicyKind::Never));
    assert_eq!(plan.maximum_retry_count, None);
    assert_eq!(plan.cmd, None);
}

#[test]
fn log_lines_are_shown_with_clock_time() {
    let line = "2024-01-01T12:34:56.000000000Z hello world";
    assert_eq!(show_log_line(line, Some("09:34:56".to_string())), "[09:34:56] hello world");
    assert_eq!(show_log_line(line, None), "hello world");
    assert_eq!(show_log_line("short line", Some("x".to_string())), "short line");
    let shown = format_log_line(line);
    assert!(shown.starts_with('['));
    assert!(shown.ends_with("] hello world"));
    assert_eq!(shown.len(), "[HH:MM:SS] hello world".len());
    let not_a_time = "this line is longer than thirty characters";
    assert_eq!(format_log_line(not_a_time), " characters");
}

#[test]
fn whole_logs_are_joined_or_replaced_by_a_notice() {
    assert_eq!(format_logs(""), "Nenhum log disponível");
    assert_eq!(format_logs("a\n\nb\n"), "a\n\nb");
}

#[test]
fn meminfo_total_in_bytes() {
    let text = "MemFree:  100 kB\nMemTotal:       16318480 kB\nMemTotal: 1 kB\n";
    assert_eq!(mem_total_bytes(text), 16318480 * 1024);
    assert_eq!(mem_total_bytes("MemTotal: lots kB\nMemTotal: +2 kB\n"), 2048);
    assert_eq!(mem_total_bytes("nothing here"), 0);
    assert_eq!(mem_total_bytes("MemTotal: 18446744073709551615 kB"), u64::MAX);
}

#[test]
fn system_usage_totals() {
    let sample = |id: &str, total: u64, system: u64, mem: u64, rx: u64| ContainerSample {
        id: id.to_string(),
        stats: ContainerStatsSnapshot {
            cpu_stats: Some(ContainerCpuStats {
                cpu_usage: Some(ContainerCpuUsage { total_usage: Some(total), percpu_usage: None }),
                system_cpu_usage: Some(system),
                online_cpus: Some(2),
            }),
            precpu_stats: Some(ContainerCpuStats {
                cpu_usage: Some(ContainerCpuUsage { total_usage: Some(0), percpu_usage: None }),
                system_cpu_usage: Some(0),
                online_cpus: Some(2),
            }),
            networks: Some(vec![ContainerNetworkStats { rx_bytes: Some(rx), tx_bytes: Some(1) }]),
            blkio_stats: None,
            memory_usage: Some(mem),
            memory_limit: None,
        },
    };
    let mut m = DockerManager::new();
    let u = m.get_docker_system_usage(&vec![sample("a", 100, 1000, 10, 5), sample("b", 50, 1000, 20, 7)], 4096, 30);
    assert_eq!(u.cpu_online, 2);
    assert_eq!(u.cpu_usage_scaled, 30 * PERCENT_SCALE);
    assert_eq!(u.memory_usage, 30);
    assert_eq!(u.memory_limit, 4096);
    assert_eq!(u.network_rx_bytes, 12);
    assert_eq!(u.network_tx_bytes, 2);
    assert_eq!(u.block_read_bytes, 0);
    assert_eq!(m.previous_sample("a").unwrap().cpu_total, 100);
    assert_eq!(m.previous_sample("b").unwrap().timestamp, 30);
}

#[test]
fn removal_decisions_on_lower_case_text() {
    assert_eq!(
        image_removal_message_lower("conflict: image is being used by running container abc"),
        "IN_USE:A imagem está em uso por um contêiner."
    );
    assert_eq!(
        image_removal_message_lower("CONFLICT: image is being used by running container abc"),
        "OTHER_ERROR:Não foi possível remover a imagem. Tente forçar a remoção."
    );
    assert_eq!(
        network_removal_message_lower("error: not found", "Error: NOT FOUND"),
        "OTHER_ERROR:Network não encontrada."
    );
    assert_eq!(
        network_removal_message_lower("weird", "Weird"),
        "OTHER_ERROR:Não foi possível remover a network: Weird"
    );
    assert_eq!(
        volume_removal_message_lower("in use by 2 containers", "In use by 2 containers"),
        "IN_USE:O volume está sendo usado por containers."
    );
    assert_eq!(
        volume_removal_message_lower("busy", "Busy"),
        "OTHER_ERROR:Não foi possível remover o volume: Busy"
    );
    assert!(volume_kind_lower("volume"));
    assert!(!volume_kind_lower("VOLUME"));
    assert!(!volume_kind_lower("bind"));
}

#[test]
fn docker_info_defaults() {
    let i = docker_info(Some("24.0".to_string()), None, Some(3), None, Some(1), Some(2), None);
    assert_eq!(i.version, "24.0");
    assert_eq!(i.architecture, "");
    assert_eq!(i.containers, 3);
    assert_eq!(i.containers_paused, 0);
    assert_eq!(i.containers_running, 1);
    assert_eq!(i.containers_stopped, 2);
    assert_eq!(i.images, 0);
}

#[test]
fn long_logs_format_in_linear_time() {
    let mut raw = String::new();
    for i in 0..4000 {
        raw.push_str(&format!("2024-01-01T12:00:00.000000000Z message number {}\n", i));
    }
    let shown = format_logs(&raw);
    assert_eq!(shown.lines().count(), 4000);
    assert!(shown.ends_with("] message number 3999"));
}
