use docker_ui::session::{
    command_outcome, SavedSshConnection, SshClient, SshConnectionRequest, SshError,
};

fn request(host: &str, port: u16, user: &str) -> SshConnectionRequest {
    SshConnectionRequest {
        host: host.to_string(),
        port,
        username: user.to_string(),
        password: "secret".to_string(),
    }
}

fn profile(host: &str, port: u16, user: &str, name: Option<&str>) -> SavedSshConnection {
    SavedSshConnection {
        host: host.to_string(),
        port,
        username: user.to_string(),
        name: name.map(|n| n.to_string()),
    }
}

#[test]
fn sequential_connects_get_distinct_ids() {
    let mut client: SshClient<u32> = SshClient::new(Vec::new());
    let mut ids: Vec<String> = Vec::new();
    for i in 0..25u32 {
        let id = client.connect(&request("10.0.0.1", 22, "root"), i, 100).unwrap();
        ids.push(id);
    }
    for a in 0..ids.len() {
        for b in 0..ids.len() {
            if a != b {
                assert_ne!(ids[a], ids[b]);
            }
        }
    }
    assert_eq!(ids[0], "ssh_conn_0");
    assert_eq!(ids[10], "ssh_conn_10");
    assert_eq!(client.list_connections().len(), 25);
}

#[test]
fn connect_records_session_and_saves_profile_once() {
    let mut client: SshClient<u32> = SshClient::new(Vec::new());
    let id = client.connect(&request("h", 2222, "alice"), 7, 50).unwrap();
    let info = client.get_connection_info(&id).unwrap();
    assert_eq!(info.host, "h");
    assert_eq!(info.port, 2222);
    assert_eq!(info.username, "alice");
    assert_eq!(info.connection_id, id);
    assert_eq!(info.connected_at, 50);
    assert_eq!(info.last_activity, 50);
    assert_eq!(client.session(&id), Some(&7));
    client.connect(&request("h", 2222, "alice"), 8, 60).unwrap();
    let saved = client.get_saved_connections();
    assert_eq!(saved.len(), 1);
    assert_eq!(saved[0].host, "h");
    assert_eq!(saved[0].name, None);
}

#[test]
fn disconnect_twice_succeeds_then_reports_not_found() {
    let mut client: SshClient<u32> = SshClient::new(Vec::new());
    let id = client.connect(&request("h", 22, "u"), 42, 0).unwrap();
    let released = client.disconnect(&id).unwrap();
    assert_eq!(released.session, 42);
    assert_eq!(released.info.connection_id, id);
    match client.disconnect(&id) {
        Err(SshError::NotFound) => {}
        _ => panic!("second disconnect must report NotFound"),
    }
    assert!(!client.is_connected(&id));
    assert!(client.session(&id).is_none());
}

#[test]
fn unknown_session_lookups_report_not_found() {
    let mut client: SshClient<u32> = SshClient::new(Vec::new());
    assert!(matches!(client.get_connection_info("ssh_conn_9"), Err(SshError::NotFound)));
    assert!(matches!(client.record_activity("ssh_conn_9", 5), Err(SshError::NotFound)));
    assert!(!client.is_connected("ssh_conn_9"));
    assert_eq!(SshError::NotFound.message(), "Connection not found");
}

#[test]
fn disconnect_all_hands_back_every_session() {
    let mut client: SshClient<u32> = SshClient::new(Vec::new());
    for i in 0..4u32 {
        client.connect(&request("h", 22, "u"), i, 0).unwrap();
    }
    let released = client.disconnect_all();
    assert_eq!(released.len(), 4);
    let mut handles: Vec<u32> = released.iter().map(|r| r.session).collect();
    handles.sort();
    assert_eq!(handles, vec![0, 1, 2, 3]);
    assert!(client.list_connections().is_empty());
    assert_eq!(client.disconnect_all().len(), 0);
}

#[test]
fn idle_sweep_removes_only_the_stale_session() {
    // Last activity at minutes 0, 5 and 15; threshold 10 minutes; evaluated at minute 11.
    let mut client: SshClient<u32> = SshClient::new(Vec::new());
    let a = client.connect(&request("a", 22, "u"), 1, 0).unwrap();
    let b = client.connect(&request("b", 22, "u"), 2, 5 * 60).unwrap();
    let c = client.connect(&request("c", 22, "u"), 3, 15 * 60).unwrap();
    let removed = client.cleanup_inactive_connections(10, 11 * 60);
    assert_eq!(removed.len(), 1);
    assert_eq!(removed[0].info.connection_id, a);
    assert_eq!(removed[0].session, 1);
    assert!(!client.is_connected(&a));
    assert!(client.is_connected(&b));
    assert!(client.is_connected(&c));
}

#[test]
fn idle_sweep_with_huge_threshold_keeps_everything() {
    let mut client: SshClient<u32> = SshClient::new(Vec::new());
    client.connect(&request("a", 22, "u"), 1, 0).unwrap();
    let removed = client.cleanup_inactive_connections(u64::MAX, u64::MAX);
    assert!(removed.is_empty());
    assert_eq!(client.list_connections().len(), 1);
}

#[test]
fn activity_moves_forward_only() {
    let mut client: SshClient<u32> = SshClient::new(Vec::new());
    let id = client.connect(&request("h", 22, "u"), 1, 100).unwrap();
    client.record_activity(&id, 200).unwrap();
    assert_eq!(client.get_connection_info(&id).unwrap().last_activity, 200);
    client.record_activity(&id, 150).unwrap();
    assert_eq!(client.get_connection_info(&id).unwrap().last_activity, 200);
    assert_eq!(client.get_connection_info(&id).unwrap().connected_at, 100);
}

#[test]
fn activity_on_distinct_sessions_loses_no_update() {
    let mut client: SshClient<u32> = SshClient::new(Vec::new());
    let ids: Vec<String> = (0..8u32)
        .map(|i| client.connect(&request("h", 22, "u"), i, 0).unwrap())
        .collect();
    for (k, id) in ids.iter().enumerate() {
        client.record_activity(id, 10 + k as u64).unwrap();
    }
    for (k, id) in ids.iter().enumerate() {
        assert_eq!(client.get_connection_info(id).unwrap().last_activity, 10 + k as u64);
    }
    assert_eq!(client.list_connections().len(), 8);
}

#[test]
fn command_outcome_reports_non_zero_exit() {
    assert_eq!(command_outcome(0, "ok\n".to_string()).unwrap(), "ok\n");
    match command_outcome(127, "sh: docker: not found".to_string()) {
        Err(e) => {
            assert_eq!(e.message(), "Command failed with exit status 127: sh: docker: not found");
            assert!(matches!(e, SshError::CommandFailed { exit_status: 127, .. }));
        }
        Ok(_) => panic!("non-zero exit must fail"),
    }
    let negative = command_outcome(-1, String::new()).unwrap_err();
    assert_eq!(negative.message(), "Command failed with exit status -1: ");
}

#[test]
fn saved_profiles_keep_keys_unique() {
    let mut client: SshClient<u32> = SshClient::new(vec![
        profile("h", 22, "u", None),
        profile("h", 22, "u", Some("dup")),
        profile("k", 22, "u", None),
    ]);
    let saved = client.get_saved_connections();
    assert_eq!(saved.len(), 2);
    assert_eq!(saved[0].name.as_deref(), Some("dup"));
    client.add_saved_connection(profile("k", 22, "u", Some("kay")));
    client.update_saved_connection_name("h", 22, "u", Some("home".to_string()));
    let saved = client.get_saved_connections();
    assert_eq!(saved.len(), 2);
    for a in 0..saved.len() {
        for b in 0..saved.len() {
            if a != b {
                let same = saved[a].host == saved[b].host
                    && saved[a].port == saved[b].port
                    && saved[a].username == saved[b].username;
                assert!(!same);
            }
        }
    }
    assert_eq!(saved[0].name.as_deref(), Some("home"));
    assert_eq!(saved[1].name.as_deref(), Some("kay"));
}

#[test]
fn rename_of_missing_profile_changes_nothing() {
    let mut client: SshClient<u32> = SshClient::new(vec![profile("h", 22, "u", None)]);
    client.update_saved_connection_name("h", 23, "u", Some("x".to_string()));
    let saved = client.get_saved_connections();
    assert_eq!(saved.len(), 1);
    assert_eq!(saved[0].name, None);
}

#[test]
fn remove_saved_profile_by_key() {
    let mut client: SshClient<u32> = SshClient::new(vec![
        profile("h", 22, "u", None),
        profile("h", 22, "v", None),
    ]);
    client.remove_saved_connection("h", 22, "u");
    let saved = client.get_saved_connections();
    assert_eq!(saved.len(), 1);
    assert_eq!(saved[0].username, "v");
    client.remove_saved_connection("nowhere", 1, "x");
    assert_eq!(client.get_saved_connections().len(), 1);
}
