//! The vault's data types and their mathematical views.

use vstd::prelude::*;
use crate::error::VaultError;
use crate::primitives::{os_random, uuid_from_random, uuid_v4_text};

verus! {

/// How a host authenticates: through the running agent, or with the private
/// key stored at a path.
#[derive(Debug, PartialEq, Eq)]
pub enum IdKind {
    Agent,
    KeyPath(String),
}

/// A named collection of hosts.
#[derive(Debug, PartialEq, Eq)]
pub struct Group {
    pub name: String,
    pub created_at: i64,
}

/// One connection record.
#[derive(Debug, PartialEq, Eq)]
pub struct Host {
    pub id: String,
    pub name: String,
    pub hostname: String,
    pub port: u16,
    pub username: Option<String>,
    pub auth: IdKind,
    pub group: Option<String>,
    pub tags: Vec<String>,
    pub notes: Option<String>,
    pub created_at: i64,
    pub updated_at: i64,
}

/// The whole store: its format version, its groups and its hosts, each in
/// insertion order.
#[derive(Debug, PartialEq, Eq)]
pub struct Vault {
    pub version: u8,
    pub groups: Vec<Group>,
    pub hosts: Vec<Host>,
}

/// The envelope that carries an encrypted vault: a format tag, a format
/// version, and the salt, nonce and ciphertext in base64.
#[derive(Debug, PartialEq, Eq)]
pub struct ExportFile {
    pub fmt: String,
    pub v: u8,
    pub salt: String,
    pub nonce: String,
    pub ciphertext: String,
}

/// The only version of the vault layout.
pub const VAULT_VERSION: u8 = 1;

/// The view of an [`IdKind`].
pub enum IdKindView {
    Agent,
    KeyPath(Seq<char>),
}

/// The view of a [`Group`].
pub struct GroupView {
    pub name: Seq<char>,
    pub created_at: i64,
}

/// The view of a [`Host`].
pub struct HostView {
    pub id: Seq<char>,
    pub name: Seq<char>,
    pub hostname: Seq<char>,
    pub port: u16,
    pub username: Option<Seq<char>>,
    pub auth: IdKindView,
    pub group: Option<Seq<char>>,
    pub tags: Seq<Seq<char>>,
    pub notes: Option<Seq<char>>,
    pub created_at: i64,
    pub updated_at: i64,
}

/// The view of a [`Vault`].
pub struct VaultView {
    pub version: u8,
    pub groups: Seq<GroupView>,
    pub hosts: Seq<HostView>,
}

/// The view of an [`ExportFile`].
pub struct ExportFileView {
    pub fmt: Seq<char>,
    pub v: u8,
    pub salt: Seq<char>,
    pub nonce: Seq<char>,
    pub ciphertext: Seq<char>,
}

/// The characters of an optional string.
pub open spec fn opt_text(o: Option<String>) -> Option<Seq<char>> {
    match o {
        Some(s) => Some(s@),
        None => None,
    }
}

/// The views of the items of a list, in order.
pub open spec fn views<T: View>(v: Seq<T>) -> Seq<T::V> {
    Seq::new(v.len(), |i: int| v[i]@)
}

impl View for IdKind {
    type V = IdKindView;

    open spec fn view(&self) -> IdKindView {
        match self {
            IdKind::Agent => IdKindView::Agent,
            IdKind::KeyPath(p) => IdKindView::KeyPath(p@),
        }
    }
}

impl View for Group {
    type V = GroupView;

    open spec fn view(&self) -> GroupView {
        GroupView { name: self.name@, created_at: self.created_at }
    }
}

impl View for Host {
    type V = HostView;

    open spec fn view(&self) -> HostView {
        HostView {
            id: self.id@,
            name: self.name@,
            hostname: self.hostname@,
            port: self.port,
            username: opt_text(self.username),
            auth: self.auth@,
            group: opt_text(self.group),
            tags: views(self.tags@),
            notes: opt_text(self.notes),
            created_at: self.created_at,
            updated_at: self.updated_at,
        }
    }
}

impl View for Vault {
    type V = VaultView;

    open spec fn view(&self) -> VaultView {
        VaultView {
            version: self.version,
            groups: views(self.groups@),
            hosts: views(self.hosts@),
        }
    }
}

impl View for ExportFile {
    type V = ExportFileView;

    open spec fn view(&self) -> ExportFileView {
        ExportFileView {
            fmt: self.fmt@,
            v: self.v,
            salt: self.salt@,
            nonce: self.nonce@,
            ciphertext: self.ciphertext@,
        }
    }
}

impl VaultView {
    /// A vault is valid when it carries the one known layout version.
    pub open spec fn valid(self) -> bool {
        self.version == VAULT_VERSION
    }
}

impl Clone for IdKind {
    fn clone(&self) -> (r: Self)
        ensures
            r@ == self@,
    {
        match self {
            IdKind::Agent => IdKind::Agent,
            IdKind::KeyPath(p) => IdKind::KeyPath(p.clone()),
        }
    }
}

impl Clone for Group {
    fn clone(&self) -> (r: Self)
        ensures
            r@ == self@,
    {
        Group { name: self.name.clone(), created_at: self.created_at }
    }
}

/// A copy of an optional string.
pub fn clone_opt_text(o: &Option<String>) -> (r: Option<String>)
    ensures
        opt_text(r) == opt_text(*o),
{
    match o {
        Some(s) => Some(s.clone()),
        None => None,
    }
}

/// A copy of a list of strings.
pub fn clone_texts(v: &Vec<String>) -> (r: Vec<String>)
    ensures
        views(r@) == views(v@),
{
    let mut out: Vec<String> = Vec::new();
    let mut i: usize = 0;
    while i < v.len()
        invariant
            i <= v.len(),
            out@.len() == i,
            forall|k: int| 0 <= k < i ==> out@[k]@ == v@[k]@,
        decreases v.len() - i,
    {
        out.push(v[i].clone());
        i = i + 1;
    }
    assert(views(out@) =~= views(v@));
    out
}

impl Clone for Host {
    fn clone(&self) -> (r: Self)
        ensures
            r@ == self@,
    {
        Host {
            id: self.id.clone(),
            name: self.name.clone(),
            hostname: self.hostname.clone(),
            port: self.port,
            username: clone_opt_text(&self.username),
            auth: self.auth.clone(),
            group: clone_opt_text(&self.group),
            tags: clone_texts(&self.tags),
            notes: clone_opt_text(&self.notes),
            created_at: self.created_at,
            updated_at: self.updated_at,
        }
    }
}

impl Clone for Vault {
    fn clone(&self) -> (r: Self)
        ensures
            r@ == self@,
    {
        let mut groups: Vec<Group> = Vec::new();
        let mut i: usize = 0;
        while i < self.groups.len()
            invariant
                i <= self.groups.len(),
                groups@.len() == i,
                forall|k: int| 0 <= k < i ==> groups@[k]@ == self.groups@[k]@,
            decreases self.groups.len() - i,
        {
            groups.push(self.groups[i].clone());
            i = i + 1;
        }
        let mut hosts: Vec<Host> = Vec::new();
        let mut j: usize = 0;
        while j < self.hosts.len()
            invariant
                j <= self.hosts.len(),
                hosts@.len() == j,
                forall|k: int| 0 <= k < j ==> hosts@[k]@ == self.hosts@[k]@,
            decreases self.hosts.len() - j,
        {
            hosts.push(self.hosts[j].clone());
            j = j + 1;
        }
        assert(views(groups@) =~= views(self.groups@));
        assert(views(hosts@) =~= views(self.hosts@));
        Vault { version: self.version, groups, hosts }
    }
}

impl Clone for ExportFile {
    fn clone(&self) -> (r: Self)
        ensures
            r@ == self@,
    {
        ExportFile {
            fmt: self.fmt.clone(),
            v: self.v,
            salt: self.salt.clone(),
            nonce: self.nonce.clone(),
            ciphertext: self.ciphertext.clone(),
        }
    }
}

impl Default for Vault {
    /// The empty vault of the current version.
    fn default() -> (r: Self)
        ensures
            r@.valid(),
            r@.groups.len() == 0,
            r@.hosts.len() == 0,
    {
        Vault { version: VAULT_VERSION, groups: Vec::new(), hosts: Vec::new() }
    }
}

/// A host as it is first made: reached through the agent, in no group,
/// without user name, tags or notes, created and updated at `now`.
pub open spec fn new_host(
    id: Seq<char>,
    now: i64,
    name: Seq<char>,
    hostname: Seq<char>,
    port: u16,
) -> HostView {
    HostView {
        id,
        name,
        hostname,
        port,
        username: None,
        auth: IdKindView::Agent,
        group: None,
        tags: Seq::empty(),
        notes: None,
        created_at: now,
        updated_at: now,
    }
}

impl Host {
    /// A new host with the given identifier, made at the time `now`.
    pub fn from_parts(id: String, now: i64, name: String, hostname: String, port: u16) -> (r: Self)
        ensures
            r@ == new_host(id@, now, name@, hostname@, port),
    {
        let r = Host {
            id,
            name,
            hostname,
            port,
            username: None,
            auth: IdKind::Agent,
            group: None,
            tags: Vec::new(),
            notes: None,
            created_at: now,
            updated_at: now,
        };
        assert(r@.tags =~= Seq::<Seq<char>>::empty());
        r
    }

    /// A new host, made at the time `now`, with a fresh identifier: the
    /// version-4 UUID of 16 bytes drawn from the operating system's random
    /// source. Where the source gives none, no host is made.
    pub fn new(name: String, hostname: String, port: u16, now: i64) -> (r: Result<
        Self,
        VaultError,
    >)
        ensures
            match r {
                Ok(h) => h@.id.len() == 36 && exists|bytes: Seq<u8>|
                    bytes.len() == 16 && h@ == new_host(
                        #[trigger] uuid_v4_text(bytes),
                        now,
                        name@,
                        hostname@,
                        port,
                    ),
                Err(e) => e == VaultError::RandomSource,
            },
    {
        let drawn = match os_random(16) {
            Ok(drawn) => drawn,
            Err(_) => {
                return Err(VaultError::RandomSource);
            },
        };
        let mut bytes = [0u8; 16];
        let mut i: usize = 0;
        while i < 16
            invariant
                i <= 16,
                drawn@.len() == 16,
                forall|k: int| 0 <= k < i ==> bytes@[k] == drawn@[k],
            decreases 16 - i,
        {
            bytes[i] = drawn[i];
            i = i + 1;
        }
        Ok(Host::from_parts(uuid_from_random(&bytes), now, name, hostname, port))
    }
}

/// The kind of authentication alone, as it is written beside the key's
/// path.
#[derive(Clone, Copy, Debug, PartialEq, Eq, Structural)]
pub enum IdTag {
    Agent,
    KeyPath,
}

/// What a kind and a path that may be absent say together: the agent with
/// no path, a key with its path, and nothing where the two contradict each
/// other.
pub open spec fn id_kind_of(tag: IdTag, key_path: Option<Seq<char>>) -> Option<IdKindView> {
    match (tag, key_path) {
        (IdTag::Agent, None) => Some(IdKindView::Agent),
        (IdTag::KeyPath, Some(path)) => Some(IdKindView::KeyPath(path)),
        _ => None,
    }
}

impl IdKind {
    /// Puts a kind and a path together. The agent takes no path and a key
    /// needs one: a path beside the agent, and a key without a path, are
    /// refused, here as in the text of a vault.
    pub fn from_parts(tag: IdTag, key_path: Option<String>) -> (r: Option<Self>)
        ensures
            match r {
                Some(a) => id_kind_of(tag, opt_text(key_path)) == Some(a@),
                None => id_kind_of(tag, opt_text(key_path)) is None,
            },
    {
        match (tag, key_path) {
            (IdTag::Agent, None) => Some(IdKind::Agent),
            (IdTag::KeyPath, Some(path)) => Some(IdKind::KeyPath(path)),
            _ => None,
        }
    }

    /// The kind and the path of which this value is made.
    pub fn into_parts(self) -> (r: (IdTag, Option<String>))
        ensures
            id_kind_of(r.0, opt_text(r.1)) == Some(self@),
    {
        match self {
            IdKind::Agent => (IdTag::Agent, None),
            IdKind::KeyPath(path) => (IdTag::KeyPath, Some(path)),
        }
    }
}

} // verus!
