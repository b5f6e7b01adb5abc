//! The arguments with which `ssh` is started for a host.

use vstd::prelude::*;
use vstd::string::StringExecFns;
use crate::models::{Host, HostView, IdKind, IdKindView, views};
use crate::text::{decimal, push_decimal, string_of};

verus! {

/// The port that `ssh` uses when none is named.
pub const DEFAULT_PORT: u16 = 22;

/// Whom to reach: the host name, behind the user name and `@` where the
/// host has one.
pub open spec fn ssh_target(h: HostView) -> Seq<char> {
    match h.username {
        Some(user) => user + "@"@ + h.hostname,
        None => h.hostname,
    }
}

/// The port option: `-p` and the port, unless the port is the default.
pub open spec fn port_option(h: HostView) -> Seq<Seq<char>> {
    if h.port != DEFAULT_PORT {
        seq!["-p"@, decimal(h.port as nat)]
    } else {
        Seq::empty()
    }
}

/// The identity option: `-i` and the key's path, for a host that
/// authenticates with a key.
pub open spec fn identity_option(h: HostView) -> Seq<Seq<char>> {
    match h.auth {
        IdKindView::KeyPath(path) => seq!["-i"@, path],
        IdKindView::Agent => Seq::empty(),
    }
}

/// The arguments for `ssh`: the port option, the identity option, the
/// target.
pub open spec fn ssh_arguments(h: HostView) -> Seq<Seq<char>> {
    port_option(h) + identity_option(h) + seq![ssh_target(h)]
}

/// Builds the arguments with which `ssh` is started for `host`.
pub fn ssh_args(host: &Host) -> (r: Vec<String>)
    ensures
        views(r@) == ssh_arguments(host@),
{
    let mut args: Vec<String> = Vec::new();
    if host.port != DEFAULT_PORT {
        args.push("-p".to_owned());
        let mut digits: Vec<char> = Vec::new();
        push_decimal(&mut digits, host.port as u128);
        assert(digits@ =~= decimal(host.port as nat));
        args.push(string_of(&digits));
    }
    assert(views(args@) =~= port_option(host@));
    match &host.auth {
        IdKind::KeyPath(path) => {
            args.push("-i".to_owned());
            args.push(path.clone());
        },
        IdKind::Agent => {},
    }
    assert(views(args@) =~= port_option(host@) + identity_option(host@));
    let target = match &host.username {
        Some(user) => {
            let mut t = user.clone();
            t.append("@");
            t.append(host.hostname.as_str());
            t
        },
        None => host.hostname.clone(),
    };
    args.push(target);
    assert(views(args@) =~= ssh_arguments(host@));
    args
}

} // verus!
