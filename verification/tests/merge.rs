use sshvault::merge::merge_vaults;
use sshvault::models::{Group, Host, IdKind, Vault};

fn group(name: &str, created_at: i64) -> Group {
    Group { name: name.to_string(), created_at }
}

fn host(id: &str, name: &str, hostname: &str, port: u16) -> Host {
    Host {
        id: id.to_string(),
        name: name.to_string(),
        hostname: hostname.to_string(),
        port,
        username: None,
        auth: IdKind::Agent,
        group: None,
        tags: vec![],
        notes: None,
        created_at: 100,
        updated_at: 200,
    }
}

fn prod_db1() -> Vault {
    Vault {
        version: 1,
        groups: vec![group("prod", 1)],
        hosts: vec![host("a", "db1", "example.com", 22)],
    }
}

#[test]
fn merge_of_empty_vault_changes_nothing() {
    let mut current = prod_db1();
    merge_vaults(&mut current, Vault::default());
    assert_eq!(current, prod_db1());
}

#[test]
fn merge_into_empty_vault_takes_everything() {
    let mut current = Vault::default();
    merge_vaults(&mut current, prod_db1());
    assert_eq!(current, prod_db1());
}

#[test]
fn merge_drops_host_with_same_name_hostname_and_port() {
    let mut current = prod_db1();
    let mut twin = host("other-id", "db1", "example.com", 22);
    twin.username = Some("root".to_string());
    twin.notes = Some("imported".to_string());
    let imported = Vault { version: 1, groups: vec![], hosts: vec![twin] };
    merge_vaults(&mut current, imported);
    assert_eq!(current.hosts.len(), 1);
    assert_eq!(current, prod_db1());
}

#[test]
fn merge_keeps_host_that_differs_in_one_part_of_the_key() {
    let mut current = prod_db1();
    let imported = Vault {
        version: 1,
        groups: vec![],
        hosts: vec![
            host("b", "db1", "example.com", 2222),
            host("c", "db1", "example.org", 22),
            host("d", "db2", "example.com", 22),
        ],
    };
    merge_vaults(&mut current, imported);
    assert_eq!(current.hosts.len(), 4);
    assert_eq!(current.hosts[0], host("a", "db1", "example.com", 22));
    assert_eq!(current.hosts[1], host("b", "db1", "example.com", 2222));
    assert_eq!(current.hosts[2], host("c", "db1", "example.org", 22));
    assert_eq!(current.hosts[3], host("d", "db2", "example.com", 22));
}

#[test]
fn merge_drops_group_with_same_name_and_keeps_the_old_one() {
    let mut current = prod_db1();
    let imported = Vault { version: 1, groups: vec![group("prod", 999)], hosts: vec![] };
    merge_vaults(&mut current, imported);
    assert_eq!(current.groups, vec![group("prod", 1)]);
}

#[test]
fn merge_compares_group_names_case_sensitively() {
    let mut current = prod_db1();
    let imported = Vault { version: 1, groups: vec![group("Prod", 5)], hosts: vec![] };
    merge_vaults(&mut current, imported);
    assert_eq!(current.groups, vec![group("prod", 1), group("Prod", 5)]);
}

#[test]
fn merge_drops_duplicates_within_the_import() {
    let mut current = Vault::default();
    let imported = Vault {
        version: 1,
        groups: vec![group("g", 1), group("g", 2)],
        hosts: vec![host("x", "h", "h.example", 22), host("y", "h", "h.example", 22)],
    };
    merge_vaults(&mut current, imported);
    assert_eq!(current.groups, vec![group("g", 1)]);
    assert_eq!(current.hosts, vec![host("x", "h", "h.example", 22)]);
}

#[test]
fn merge_keeps_the_version_of_the_current_vault() {
    let mut current = prod_db1();
    let imported = Vault { version: 7, groups: vec![], hosts: vec![] };
    merge_vaults(&mut current, imported);
    assert_eq!(current.version, 1);
}

#[test]
fn merge_adds_new_host_beside_known_group() {
    let mut current = prod_db1();
    let mut web1 = host("w", "web1", "10.0.0.5", 22);
    web1.group = Some("prod".to_string());
    let imported = Vault { version: 1, groups: vec![group("prod", 77)], hosts: vec![web1] };
    merge_vaults(&mut current, imported);
    assert_eq!(current.groups.len(), 1);
    assert_eq!(current.groups[0].name, "prod");
    assert_eq!(current.hosts.len(), 2);
    assert_eq!(current.hosts[0].name, "db1");
    assert_eq!(current.hosts[1].name, "web1");
    assert_eq!(current.hosts[1].hostname, "10.0.0.5");
    assert_eq!(current.hosts[1].port, 22);
}

#[test]
fn default_vault_is_empty_and_of_version_one() {
    let v = Vault::default();
    assert_eq!(v.version, 1);
    assert!(v.groups.is_empty());
    assert!(v.hosts.is_empty());
}
