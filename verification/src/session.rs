//! The hosts of a running session, and the names of its tabs.
//!
//! A session keeps a plain list of hosts, each with a number for an
//! identifier, and opens one tab per connection.

use vstd::prelude::*;
use vstd::string::StringExecFns;
use crate::models::views;
use crate::text::{decimal, integer_text, push_decimal, push_integer, string_of};

verus! {

/// A host of the session.
#[derive(Debug, PartialEq, Eq)]
pub struct SessionHost {
    pub id: String,
    pub name: String,
    pub address: String,
    pub user: String,
    pub port: u16,
}

/// The view of a [`SessionHost`].
pub struct SessionHostView {
    pub id: Seq<char>,
    pub name: Seq<char>,
    pub address: Seq<char>,
    pub user: Seq<char>,
    pub port: u16,
}

impl View for SessionHost {
    type V = SessionHostView;

    open spec fn view(&self) -> SessionHostView {
        SessionHostView {
            id: self.id@,
            name: self.name@,
            address: self.address@,
            user: self.user@,
            port: self.port,
        }
    }
}

impl Clone for SessionHost {
    fn clone(&self) -> (r: Self)
        ensures
            r@ == self@,
    {
        SessionHost {
            id: self.id.clone(),
            name: self.name.clone(),
            address: self.address.clone(),
            user: self.user.clone(),
            port: self.port,
        }
    }
}

/// The name of the tab for a connection to the host `name` opened at
/// `millis`.
pub open spec fn tab_name(name: Seq<char>, millis: i64) -> Seq<char> {
    "ssh-"@ + name + "-"@ + integer_text(millis as int)
}

/// Adds a host to the session. Its identifier is its number in the list,
/// counted from one.
pub fn add_host(
    hosts: &mut Vec<SessionHost>,
    name: String,
    address: String,
    user: String,
    port: u16,
) -> (r: SessionHost)
    ensures
        r@ == (SessionHostView {
            id: decimal((old(hosts)@.len() + 1) as nat),
            name: name@,
            address: address@,
            user: user@,
            port,
        }),
        views(final(hosts)@) == views(old(hosts)@).push(r@),
{
    let mut digits: Vec<char> = Vec::new();
    push_decimal(&mut digits, hosts.len() as u128 + 1);
    assert(digits@ =~= decimal((hosts@.len() + 1) as nat));
    let host = SessionHost { id: string_of(&digits), name, address, user, port };
    let copy = host.clone();
    hosts.push(host);
    assert(views(hosts@) =~= views(old(hosts)@).push(copy@));
    copy
}

/// Finds the host with the identifier `id`: the first, where several bear
/// it.
pub fn find_host(hosts: &Vec<SessionHost>, id: &str) -> (r: Option<usize>)
    ensures
        match r {
            Some(i) => i < hosts@.len() && hosts@[i as int]@.id == id@ && forall|j: int|
                0 <= j < i ==> (#[trigger] hosts@[j])@.id != id@,
            None => forall|j: int| 0 <= j < hosts@.len() ==> (#[trigger] hosts@[j])@.id != id@,
        },
{
    let wanted = String::from_str(id);
    let mut i: usize = 0;
    while i < hosts.len()
        invariant
            i <= hosts.len(),
            wanted@ == id@,
            forall|j: int| 0 <= j < i ==> (#[trigger] hosts@[j])@.id != id@,
        decreases hosts.len() - i,
    {
        if hosts[i].id == wanted {
            return Some(i);
        }
        i = i + 1;
    }
    None
}

/// The name of the tab for a connection to the host `name` opened at
/// `millis`, in milliseconds since the Unix epoch.
pub fn tab_id(name: &str, millis: i64) -> (r: String)
    ensures
        r@ == tab_name(name@, millis),
{
    let mut digits: Vec<char> = Vec::new();
    push_integer(&mut digits, millis);
    assert(digits@ =~= integer_text(millis as int));
    let stamp = string_of(&digits);
    let mut out = String::from_str("ssh-");
    out.append(name);
    out.append("-");
    out.append(stamp.as_str());
    out
}

/// The title of the window for a connection to the host `name`.
pub fn window_title(name: &str) -> (r: String)
    ensures
        r@ == "SSH: "@ + name@,
{
    let mut out = String::from_str("SSH: ");
    out.append(name);
    out
}

/// What is answered to the request to run `command` on the host `host_id`.
pub fn command_notice(host_id: &str, command: &str) -> (r: String)
    ensures
        r@ == "Executing '"@ + command@ + "' on host "@ + host_id@,
{
    let mut out = String::from_str("Executing '");
    out.append(command);
    out.append("' on host ");
    out.append(host_id);
    out
}

} // verus!
