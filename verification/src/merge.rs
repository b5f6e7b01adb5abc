//! Merging an imported vault into the current one.

use vstd::prelude::*;
use crate::models::{Group, GroupView, Host, HostView, Vault, VaultView, views};

verus! {

/// Two hosts are the same entry when name, hostname and port agree.
pub open spec fn same_host(a: HostView, b: HostView) -> bool {
    a.name == b.name && a.hostname == b.hostname && a.port == b.port
}

/// Some group of `groups` has this name.
pub open spec fn has_group(groups: Seq<GroupView>, name: Seq<char>) -> bool {
    exists|i: int| 0 <= i < groups.len() && #[trigger] groups[i].name == name
}

/// Some host of `hosts` is the same entry as `h`.
pub open spec fn has_host(hosts: Seq<HostView>, h: HostView) -> bool {
    exists|i: int| 0 <= i < hosts.len() && same_host(#[trigger] hosts[i], h)
}

/// `current` after the groups of `incoming` were offered to it one by one,
/// first to last: each is appended unless a group of that name is already
/// there.
pub open spec fn merge_groups(current: Seq<GroupView>, incoming: Seq<GroupView>) -> Seq<GroupView>
    decreases incoming.len(),
{
    if incoming.len() == 0 {
        current
    } else {
        let before = merge_groups(current, incoming.drop_last());
        if has_group(before, incoming.last().name) {
            before
        } else {
            before.push(incoming.last())
        }
    }
}

/// `current` after the hosts of `incoming` were offered to it one by one,
/// first to last: each is appended unless the same entry is already there.
pub open spec fn merge_hosts(current: Seq<HostView>, incoming: Seq<HostView>) -> Seq<HostView>
    decreases incoming.len(),
{
    if incoming.len() == 0 {
        current
    } else {
        let before = merge_hosts(current, incoming.drop_last());
        if has_host(before, incoming.last()) {
            before
        } else {
            before.push(incoming.last())
        }
    }
}

/// The vault that merging `imported` into `current` gives.
pub open spec fn merged(current: VaultView, imported: VaultView) -> VaultView {
    VaultView {
        version: current.version,
        groups: merge_groups(current.groups, imported.groups),
        hosts: merge_hosts(current.hosts, imported.hosts),
    }
}

/// Whether a group named like `g` is already in `groups`.
fn group_known(groups: &Vec<Group>, g: &Group) -> (r: bool)
    ensures
        r == has_group(views(groups@), g@.name),
{
    let mut i: usize = 0;
    while i < groups.len()
        invariant
            i <= groups.len(),
            forall|k: int| 0 <= k < i ==> (#[trigger] views(groups@)[k]).name != g@.name,
        decreases groups.len() - i,
    {
        if groups[i].name == g.name {
            assert(views(groups@)[i as int].name == g@.name);
            return true;
        }
        i = i + 1;
    }
    false
}

/// Whether the same entry as `h` is already in `hosts`.
fn host_known(hosts: &Vec<Host>, h: &Host) -> (r: bool)
    ensures
        r == has_host(views(hosts@), h@),
{
    let mut i: usize = 0;
    while i < hosts.len()
        invariant
            i <= hosts.len(),
            forall|k: int| 0 <= k < i ==> !same_host(#[trigger] views(hosts@)[k], h@),
        decreases hosts.len() - i,
    {
        let c = &hosts[i];
        if c.name == h.name && c.hostname == h.hostname && c.port == h.port {
            assert(same_host(views(hosts@)[i as int], h@));
            return true;
        }
        i = i + 1;
    }
    false
}

/// Merges `imported` into `current`. A group is appended unless a group of
/// the same name is present; a host is appended unless a host with the same
/// name, hostname and port is present. Nothing already in `current` is
/// changed, moved or removed, and entries appended earlier in the same merge
/// count as present for the later ones.
pub fn merge_vaults(current: &mut Vault, imported: Vault)
    ensures
        final(current)@ == merged(old(current)@, imported@),
{
    let ghost start = current@;
    let mut i: usize = 0;
    while i < imported.groups.len()
        invariant
            i <= imported.groups.len(),
            current.version == start.version,
            views(current.hosts@) == start.hosts,
            views(current.groups@) == merge_groups(
                start.groups,
                views(imported.groups@).take(i as int),
            ),
        decreases imported.groups.len() - i,
    {
        let g = &imported.groups[i];
        let ghost done = views(imported.groups@).take(i as int);
        let ghost next = views(imported.groups@).take(i + 1);
        assert(next.drop_last() =~= done);
        assert(next.last() == g@);
        if !group_known(&current.groups, g) {
            let ghost before = views(current.groups@);
            current.groups.push(g.clone());
            assert(views(current.groups@) =~= before.push(g@));
        }
        i = i + 1;
    }
    assert(views(imported.groups@).take(i as int) =~= views(imported.groups@));
    let mut j: usize = 0;
    while j < imported.hosts.len()
        invariant
            j <= imported.hosts.len(),
            current.version == start.version,
            views(current.groups@) == merge_groups(start.groups, imported@.groups),
            views(current.hosts@) == merge_hosts(
                start.hosts,
                views(imported.hosts@).take(j as int),
            ),
        decreases imported.hosts.len() - j,
    {
        let h = &imported.hosts[j];
        let ghost done = views(imported.hosts@).take(j as int);
        let ghost next = views(imported.hosts@).take(j + 1);
        assert(next.drop_last() =~= done);
        assert(next.last() == h@);
        if !host_known(&current.hosts, h) {
            let ghost before = views(current.hosts@);
            current.hosts.push(h.clone());
            assert(views(current.hosts@) =~= before.push(h@));
        }
        j = j + 1;
    }
    assert(views(imported.hosts@).take(j as int) =~= views(imported.hosts@));
}

/// Merging is additive: the groups and hosts of `current` open the merged
/// lists, unchanged and in their order, and the merge adds at most one entry
/// for each incoming one.
pub proof fn lemma_merge_keeps_current(current: VaultView, imported: VaultView)
    ensures
        merged(current, imported).version == current.version,
        current.groups.is_prefix_of(merged(current, imported).groups),
        current.hosts.is_prefix_of(merged(current, imported).hosts),
        merged(current, imported).groups.len() <= current.groups.len() + imported.groups.len(),
        merged(current, imported).hosts.len() <= current.hosts.len() + imported.hosts.len(),
{
    lemma_merge_groups_prefix(current.groups, imported.groups);
    lemma_merge_hosts_prefix(current.hosts, imported.hosts);
}

/// Merging an empty vault changes nothing.
pub proof fn lemma_merge_empty(current: VaultView, imported: VaultView)
    requires
        imported.groups.len() == 0,
        imported.hosts.len() == 0,
    ensures
        merged(current, imported) == current,
{
}

/// Where every incoming host is the same entry as a host of `current`, the
/// merge leaves the hosts of `current` as they were: no host is added.
pub proof fn lemma_merge_known_hosts(current: VaultView, imported: VaultView)
    requires
        forall|k: int|
            0 <= k < imported.hosts.len() ==> has_host(current.hosts, #[trigger] imported.hosts[k]),
    ensures
        merged(current, imported).hosts == current.hosts,
    decreases imported.hosts.len(),
{
    if imported.hosts.len() > 0 {
        let shorter = VaultView { hosts: imported.hosts.drop_last(), ..imported };
        assert forall|k: int| 0 <= k < shorter.hosts.len() implies has_host(
            current.hosts,
            #[trigger] shorter.hosts[k],
        ) by {
            assert(shorter.hosts[k] == imported.hosts[k]);
        }
        lemma_merge_known_hosts(current, shorter);
        assert(has_host(current.hosts, imported.hosts[imported.hosts.len() - 1]));
    }
}

/// An incoming host that is the same entry as a host of `current` is
/// dropped: the merged list is shorter than the two lists together.
pub proof fn lemma_merge_drops_known_host(current: VaultView, imported: VaultView, k: int)
    requires
        0 <= k < imported.hosts.len(),
        has_host(current.hosts, imported.hosts[k]),
    ensures
        merged(current, imported).hosts.len() < current.hosts.len() + imported.hosts.len(),
    decreases imported.hosts.len(),
{
    let shorter = VaultView { hosts: imported.hosts.drop_last(), ..imported };
    let before = merge_hosts(current.hosts, shorter.hosts);
    lemma_merge_hosts_prefix(current.hosts, shorter.hosts);
    if k == imported.hosts.len() - 1 {
        let w = choose|i: int|
            0 <= i < current.hosts.len() && same_host(#[trigger] current.hosts[i], imported.hosts[k]);
        assert(before[w] == current.hosts[w]);
        assert(has_host(before, imported.hosts.last()));
    } else {
        assert(shorter.hosts[k] == imported.hosts[k]);
        lemma_merge_drops_known_host(current, shorter, k);
    }
}

/// Where every incoming group bears the name of a group of `current`, the
/// merge leaves the groups of `current` as they were.
pub proof fn lemma_merge_known_groups(current: VaultView, imported: VaultView)
    requires
        forall|k: int|
            0 <= k < imported.groups.len() ==> has_group(
                current.groups,
                (#[trigger] imported.groups[k]).name,
            ),
    ensures
        merged(current, imported).groups == current.groups,
    decreases imported.groups.len(),
{
    if imported.groups.len() > 0 {
        let shorter = VaultView { groups: imported.groups.drop_last(), ..imported };
        assert forall|k: int| 0 <= k < shorter.groups.len() implies has_group(
            current.groups,
            (#[trigger] shorter.groups[k]).name,
        ) by {
            assert(shorter.groups[k] == imported.groups[k]);
        }
        lemma_merge_known_groups(current, shorter);
        assert(has_group(current.groups, imported.groups[imported.groups.len() - 1].name));
    }
}

/// After a merge no two groups that it added share a name with each other or
/// with a group of `current`: where the names of `current` were distinct, so
/// are those of the merged list.
pub proof fn lemma_merge_keeps_group_names_distinct(current: VaultView, imported: VaultView)
    requires
        distinct_group_names(current.groups),
    ensures
        distinct_group_names(merged(current, imported).groups),
    decreases imported.groups.len(),
{
    if imported.groups.len() > 0 {
        let shorter = VaultView { groups: imported.groups.drop_last(), ..imported };
        lemma_merge_keeps_group_names_distinct(current, shorter);
    }
}

/// Where no two hosts of `current` were the same entry, no two hosts of the
/// merged list are.
pub proof fn lemma_merge_keeps_hosts_distinct(current: VaultView, imported: VaultView)
    requires
        distinct_hosts(current.hosts),
    ensures
        distinct_hosts(merged(current, imported).hosts),
    decreases imported.hosts.len(),
{
    if imported.hosts.len() > 0 {
        let shorter = VaultView { hosts: imported.hosts.drop_last(), ..imported };
        lemma_merge_keeps_hosts_distinct(current, shorter);
    }
}

/// No two hosts of the list are the same entry.
pub open spec fn distinct_hosts(hosts: Seq<HostView>) -> bool {
    forall|i: int, j: int|
        0 <= i < j < hosts.len() ==> !same_host(#[trigger] hosts[i], #[trigger] hosts[j])
}

/// No two groups of the list have the same name.
pub open spec fn distinct_group_names(groups: Seq<GroupView>) -> bool {
    forall|i: int, j: int|
        0 <= i < j < groups.len() ==> (#[trigger] groups[i]).name != (#[trigger] groups[j]).name
}

proof fn lemma_merge_groups_prefix(current: Seq<GroupView>, incoming: Seq<GroupView>)
    ensures
        current.is_prefix_of(merge_groups(current, incoming)),
        merge_groups(current, incoming).len() <= current.len() + incoming.len(),
    decreases incoming.len(),
{
    if incoming.len() > 0 {
        lemma_merge_groups_prefix(current, incoming.drop_last());
    }
}

proof fn lemma_merge_hosts_prefix(current: Seq<HostView>, incoming: Seq<HostView>)
    ensures
        current.is_prefix_of(merge_hosts(current, incoming)),
        merge_hosts(current, incoming).len() <= current.len() + incoming.len(),
    decreases incoming.len(),
{
    if incoming.len() > 0 {
        lemma_merge_hosts_prefix(current, incoming.drop_last());
    }
}

} // verus!
