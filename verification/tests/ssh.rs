use sshvault::models::{Host, IdKind};
use sshvault::ssh::ssh_args;

fn host() -> Host {
    Host {
        id: "i".to_string(),
        name: "db1".to_string(),
        hostname: "example.com".to_string(),
        port: 22,
        username: None,
        auth: IdKind::Agent,
        group: None,
        tags: vec![],
        notes: None,
        created_at: 0,
        updated_at: 0,
    }
}

#[test]
fn plain_host_gives_the_hostname_alone() {
    assert_eq!(ssh_args(&host()), vec!["example.com".to_string()]);
}

#[test]
fn user_name_stands_before_the_hostname() {
    let mut h = host();
    h.username = Some("alice".to_string());
    assert_eq!(ssh_args(&h), vec!["alice@example.com".to_string()]);
}

#[test]
fn other_port_is_named() {
    let mut h = host();
    h.port = 2222;
    assert_eq!(ssh_args(&h), vec!["-p".to_string(), "2222".to_string(), "example.com".to_string()]);
    h.port = 0;
    assert_eq!(ssh_args(&h), vec!["-p".to_string(), "0".to_string(), "example.com".to_string()]);
    h.port = 65535;
    assert_eq!(ssh_args(&h), vec!["-p".to_string(), "65535".to_string(), "example.com".to_string()]);
}

#[test]
fn key_path_is_named() {
    let mut h = host();
    h.auth = IdKind::KeyPath("/home/a/.ssh/id".to_string());
    assert_eq!(
        ssh_args(&h),
        vec!["-i".to_string(), "/home/a/.ssh/id".to_string(), "example.com".to_string()]
    );
}

#[test]
fn port_comes_before_key_and_target_comes_last() {
    let mut h = host();
    h.port = 2200;
    h.username = Some("root".to_string());
    h.auth = IdKind::KeyPath("k".to_string());
    assert_eq!(
        ssh_args(&h),
        vec![
            "-p".to_string(),
            "2200".to_string(),
            "-i".to_string(),
            "k".to_string(),
            "root@example.com".to_string()
        ]
    );
}
