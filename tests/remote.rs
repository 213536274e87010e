use docker_ui::remote::{running_state_lower, version_failure_status_of};
use docker_ui::remote::{
    created_container_id, create_container_command, docker_status, logs_or_notice,
    parse_containers, parse_docker_info, parse_images, parse_networks, parse_volumes,
    summarize_usage, SshContainerInfo, SshCreateContainerRequest, SshDockerStatus, SshEnvVar,
    SshPortMapping, SshVolumeMapping,
};

#[test]
fn container_table_is_parsed_after_the_header() {
    let out = "CONTAINER ID|NAMES|IMAGE|STATE|STATUS|PORTS|CREATED AT\n\
               abc123| web |nginx:1.25|running|Up 2 hours|0.0.0.0:80->80/tcp, :::80->80/tcp|2024-01-01 10:00:00\n\
               \n\
               short|line\n\
               def456|db|postgres|exited|Exited (0)||\n";
    let cs = parse_containers(out);
    assert_eq!(cs.len(), 2);
    assert_eq!(cs[0].id, "abc123");
    assert_eq!(cs[0].name, "web");
    assert_eq!(cs[0].image, "nginx:1.25");
    assert_eq!(cs[0].state, "running");
    assert_eq!(cs[0].status, "Up 2 hours");
    assert_eq!(cs[0].ports, vec!["0.0.0.0:80->80/tcp".to_string(), ":::80->80/tcp".to_string()]);
    assert_eq!(cs[0].created, "2024-01-01 10:00:00");
    assert_eq!(cs[1].name, "db");
    assert!(cs[1].ports.is_empty());
    assert_eq!(cs[1].created, "");
}

#[test]
fn container_row_without_created_column() {
    let out = "header\r\nid|n|i|s|st|p\r\n";
    let cs = parse_containers(out);
    assert_eq!(cs.len(), 1);
    assert_eq!(cs[0].ports, vec!["p".to_string()]);
    assert_eq!(cs[0].created, "");
}

#[test]
fn empty_output_has_no_rows() {
    assert!(parse_containers("").is_empty());
    assert!(parse_images("only a header").is_empty());
}

#[test]
fn image_table_is_parsed() {
    let out = "ID|REPOSITORY|TAG|CREATED AT|SIZE\nsha1|alpine|3.19|2024-01-01|7.4MB\nbad|row\n";
    let ims = parse_images(out);
    assert_eq!(ims.len(), 1);
    assert_eq!(ims[0].id, "sha1");
    assert_eq!(ims[0].repository, "alpine");
    assert_eq!(ims[0].tag, "3.19");
    assert_eq!(ims[0].created, "2024-01-01");
    assert_eq!(ims[0].size, "7.4MB");
}

#[test]
fn network_table_leaves_out_system_networks() {
    let out = "NETWORK ID|NAME|DRIVER|SCOPE\n\
               n1|bridge|bridge|local\n\
               n2|host|host|local\n\
               n3|none|null|local\n\
               n4|backend|overlay|swarm\n";
    let ns = parse_networks(out);
    assert_eq!(ns.len(), 1);
    assert_eq!(ns[0].id, "n4");
    assert_eq!(ns[0].name, "backend");
    assert_eq!(ns[0].driver, "overlay");
    assert_eq!(ns[0].scope, "swarm");
}

#[test]
fn volume_table_is_parsed() {
    let out = "VOLUME NAME|DRIVER|MOUNTPOINT\ndata|local|/var/lib/docker/volumes/data/_data\n";
    let vs = parse_volumes(out);
    assert_eq!(vs.len(), 1);
    assert_eq!(vs[0].name, "data");
    assert_eq!(vs[0].driver, "local");
    assert_eq!(vs[0].mountpoint, "/var/lib/docker/volumes/data/_data");
}

#[test]
fn docker_info_fields_and_defaults() {
    let info = parse_docker_info("24.0.7|24.0.7|amd64|linux\n", " 5|2|1|2|12|6.1.0-13-amd64\n");
    assert_eq!(info.version, "24.0.7");
    assert_eq!(info.server_version, "24.0.7");
    assert_eq!(info.architecture, "amd64");
    assert_eq!(info.os, "linux");
    assert_eq!(info.containers_total, 5);
    assert_eq!(info.containers_running, 2);
    assert_eq!(info.containers_paused, 1);
    assert_eq!(info.containers_stopped, 2);
    assert_eq!(info.images, 12);
    assert_eq!(info.kernel_version, "6.1.0-13-amd64");
    let sparse = parse_docker_info("25.0", "x|+7|-3|99999999999");
    assert_eq!(sparse.version, "25.0");
    assert_eq!(sparse.server_version, "unknown");
    assert_eq!(sparse.architecture, "unknown");
    assert_eq!(sparse.containers_total, 0);
    assert_eq!(sparse.containers_running, 7);
    assert_eq!(sparse.containers_paused, -3);
    assert_eq!(sparse.containers_stopped, 0);
    assert_eq!(sparse.images, 0);
    assert_eq!(sparse.kernel_version, "unknown");
}

#[test]
fn docker_status_decisions() {
    assert!(matches!(docker_status(&Ok("Docker version 24".to_string()), true), SshDockerStatus::Running));
    assert!(matches!(docker_status(&Ok(String::new()), false), SshDockerStatus::NotRunning));
    let missing = Err("Command failed with exit status 127: bash: docker: Command Not Found".to_string());
    assert!(matches!(docker_status(&missing, false), SshDockerStatus::NotInstalled));
    let no_file = Err("exec: NO SUCH FILE or directory".to_string());
    assert!(matches!(docker_status(&no_file, false), SshDockerStatus::NotInstalled));
    let gone = Err("Failed to create channel: timeout".to_string());
    assert!(matches!(docker_status(&gone, false), SshDockerStatus::SshNotConnected));
}

#[test]
fn run_command_line_is_built_in_order() {
    let req = SshCreateContainerRequest {
        name: "web".to_string(),
        image: "nginx:latest".to_string(),
        ports: vec![
            SshPortMapping { host_port: 8080, container_port: 80, protocol: "tcp".to_string() },
            SshPortMapping { host_port: 53, container_port: 53, protocol: "udp".to_string() },
        ],
        volumes: vec![
            SshVolumeMapping { host_path: "/srv".to_string(), container_path: "/data".to_string(), read_only: true },
            SshVolumeMapping { host_path: "/tmp".to_string(), container_path: "/t".to_string(), read_only: false },
        ],
        environment: vec![SshEnvVar { key: "A".to_string(), value: "1".to_string() }],
        command: Some("sh -c true".to_string()),
        restart_policy: "always".to_string(),
        detach: true,
    };
    assert_eq!(
        create_container_command(&req),
        "docker run --name web -d -p 8080:80/tcp -p 53:53/udp -v /srv:/data:ro -v /tmp:/t -e A=1 --restart always nginx:latest sh -c true"
    );
    let bare = SshCreateContainerRequest {
        name: String::new(),
        image: "alpine".to_string(),
        ports: vec![],
        volumes: vec![],
        environment: vec![],
        command: None,
        restart_policy: "no".to_string(),
        detach: false,
    };
    assert_eq!(create_container_command(&bare), "docker run alpine");
}

#[test]
fn created_id_is_first_line_trimmed() {
    assert_eq!(created_container_id("  4f2a9c  \nwarning\n"), "4f2a9c");
    assert_eq!(created_container_id(""), "");
}

#[test]
fn blank_logs_become_a_notice() {
    assert_eq!(logs_or_notice(" \n\t".to_string()), "Nenhum log disponível");
    assert_eq!(logs_or_notice("line\n".to_string()), "line\n");
}

#[test]
fn usage_counts_running_in_any_case() {
    let c = |state: &str| SshContainerInfo {
        id: "i".to_string(),
        name: "n".to_string(),
        image: "m".to_string(),
        state: state.to_string(),
        status: String::new(),
        ports: vec![],
        created: String::new(),
    };
    let cs = vec![c("running"), c("RUNNING"), c("exited"), c("Running ")];
    let u = summarize_usage(&cs, 3, "  Linux host 6.1 x86_64\n");
    assert_eq!(u.containers_running, 2);
    assert_eq!(u.containers_total, 4);
    assert_eq!(u.images_total, 3);
    assert_eq!(u.system_info, "Linux host 6.1 x86_64");
}

#[test]
fn decisions_on_lower_case_text() {
    assert!(matches!(version_failure_status_of("bash: docker: command not found"), SshDockerStatus::NotInstalled));
    assert!(matches!(version_failure_status_of("Bash: docker: Command Not Found"), SshDockerStatus::SshNotConnected));
    assert!(matches!(version_failure_status_of("no such file or directory"), SshDockerStatus::NotInstalled));
    assert!(running_state_lower("running"));
    assert!(!running_state_lower("Running"));
    assert!(!running_state_lower("running "));
}

#[test]
fn large_tables_parse_in_linear_time() {
    let mut out = String::from("CONTAINER ID|NAMES|IMAGE|STATE|STATUS|PORTS|CREATED AT\n");
    for i in 0..5000 {
        out.push_str(&format!("id{}|name{}|image:{}|running|Up 1 hour|0.0.0.0:{}->80/tcp|2024-01-01\n", i, i, i, i));
    }
    let cs = parse_containers(&out);
    assert_eq!(cs.len(), 5000);
    assert_eq!(cs[4999].name, "name4999");
    assert_eq!(cs[4999].ports, vec!["0.0.0.0:4999->80/tcp".to_string()]);
}
