use sshvault::session::{add_host, command_notice, find_host, tab_id, window_title, SessionHost};

fn three() -> Vec<SessionHost> {
    let mut hosts = Vec::new();
    add_host(&mut hosts, "Adguard.local".to_string(), "192.168.1.57".to_string(), "tim".to_string(), 22);
    add_host(&mut hosts, "Web Server".to_string(), "192.168.1.100".to_string(), "admin".to_string(), 22);
    add_host(&mut hosts, "Database".to_string(), "192.168.1.101".to_string(), "root".to_string(), 22);
    hosts
}

#[test]
fn added_hosts_are_numbered_from_one() {
    let mut hosts = Vec::new();
    let first = add_host(&mut hosts, "a".to_string(), "1.1.1.1".to_string(), "u".to_string(), 22);
    assert_eq!(
        first,
        SessionHost {
            id: "1".to_string(),
            name: "a".to_string(),
            address: "1.1.1.1".to_string(),
            user: "u".to_string(),
            port: 22
        }
    );
    assert_eq!(hosts, vec![first]);
    for _ in 0..9 {
        add_host(&mut hosts, "x".to_string(), "y".to_string(), "z".to_string(), 1);
    }
    assert_eq!(hosts.len(), 10);
    assert_eq!(hosts[9].id, "10");
    assert_eq!(hosts[8].id, "9");
}

#[test]
fn host_is_found_by_its_identifier() {
    let hosts = three();
    assert_eq!(find_host(&hosts, "1"), Some(0));
    assert_eq!(find_host(&hosts, "3"), Some(2));
    assert_eq!(find_host(&hosts, "4"), None);
    assert_eq!(find_host(&hosts, ""), None);
    assert_eq!(find_host(&Vec::new(), "1"), None);
}

#[test]
fn first_of_two_hosts_with_one_identifier_is_found() {
    let mut hosts = three();
    hosts[2].id = "2".to_string();
    assert_eq!(find_host(&hosts, "2"), Some(1));
}

#[test]
fn tab_is_named_after_host_and_time() {
    assert_eq!(tab_id("Database", 1700000000123), "ssh-Database-1700000000123");
    assert_eq!(tab_id("", 0), "ssh--0");
    assert_eq!(tab_id("a-b", -7), "ssh-a-b--7");
}

#[test]
fn window_is_titled_after_the_host() {
    assert_eq!(window_title("Web Server"), "SSH: Web Server");
}

#[test]
fn command_is_answered_with_a_notice() {
    assert_eq!(command_notice("2", "ls -la"), "Executing 'ls -la' on host 2");
}
