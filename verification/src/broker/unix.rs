//! The decisions behind the broker's Unix socket: where it may be bound, when
//! a bound endpoint counts as secured, which peer policies its file mode
//! serves, and which kernel peer records are believable. Reading metadata,
//! binding and `SO_PEERCRED` stay with the caller, which hands over what it
//! read as plain values.
use vstd::prelude::*;

use crate::broker::wire::{BrokerPeerCredentials, BrokerPeerPolicy};
use crate::config::{file_name_of, parent_of, path_file_name, path_is_absolute, path_parent};

verus! {

/// The permission bits a bound broker socket must carry: owner and group may
/// read and write, nobody else may.
pub const BROKER_SOCKET_MODE: u32 = 0o660;

/// What `symlink_metadata` reports of one filesystem entry.
#[derive(Debug, Clone, Copy, PartialEq, Eq, Structural)]
pub struct EntryFacts {
    pub is_socket: bool,
    pub is_symlink: bool,
    pub is_dir: bool,
    pub dev: u64,
    pub ino: u64,
    pub uid: u32,
    pub gid: u32,
    pub mode: u32,
}

/// Why a socket path or endpoint was refused.
#[derive(Debug, Clone, Copy, PartialEq, Eq, Structural)]
pub enum SocketRejection {
    /// The path is relative or names no file.
    NotAbsoluteFile,
    /// The path has no parent directory.
    NoParent,
    /// The parent is a symbolic link or not a directory.
    ParentNotDirectory,
    /// The parent reaches its directory through an alias or a link.
    ParentAliased,
    /// The parent is not owned by the broker or is writable by others.
    ParentUnsafe,
    /// Something already exists at the path.
    AlreadyExists,
    /// What was bound is not a socket.
    NotSocket,
    /// The endpoint changed identity or permissions after it was bound.
    IdentityChanged,
}

/// The parent directory of an acceptable socket path: the path is absolute,
/// names a file, and has a parent.
pub open spec fn socket_parent_of(path: Seq<char>) -> Result<Seq<char>, SocketRejection> {
    if !(path.len() > 0 && path[0] == '/') || file_name_of(path) is None {
        Err(SocketRejection::NotAbsoluteFile)
    } else {
        match parent_of(path) {
            Some(p) => Ok(p),
            None => Err(SocketRejection::NoParent),
        }
    }
}

/// Checks the shape of a socket path and gives its parent directory.
pub fn socket_parent(path: &str) -> (r: Result<String, SocketRejection>)
    ensures
        match socket_parent_of(path@) {
            Ok(p) => r matches Ok(q) && q@ == p,
            Err(e) => r == Err::<String, SocketRejection>(e),
        },
{
    if !path_is_absolute(path) || path_file_name(path).is_none() {
        return Err(SocketRejection::NotAbsoluteFile);
    }
    match path_parent(path) {
        Some(p) => Ok(p),
        None => Err(SocketRejection::NoParent),
    }
}

/// Whether a directory's mode lets its group or others write to it.
pub open spec fn writable_by_others(mode: u32) -> bool {
    mode & 0o022u32 != 0
}

/// The verdict on a socket path's parent directory, in the order the checks
/// are made: a real directory, reached without aliases, owned by the
/// broker's effective user and writable by nobody else, with nothing yet at
/// the socket path itself.
pub open spec fn parent_verdict(
    parent: EntryFacts,
    canonical_same: bool,
    effective_uid: u32,
    path_exists: bool,
) -> Result<(), SocketRejection> {
    if parent.is_symlink || !parent.is_dir {
        Err(SocketRejection::ParentNotDirectory)
    } else if !canonical_same {
        Err(SocketRejection::ParentAliased)
    } else if parent.uid != effective_uid || writable_by_others(parent.mode) {
        Err(SocketRejection::ParentUnsafe)
    } else if path_exists {
        Err(SocketRejection::AlreadyExists)
    } else {
        Ok(())
    }
}

/// Judges the parent directory of a socket path from its metadata, whether
/// its canonical form is itself, the broker's effective user, and whether
/// the socket path is already taken.
pub fn check_socket_parent(
    parent: EntryFacts,
    canonical_same: bool,
    effective_uid: u32,
    path_exists: bool,
) -> (r: Result<(), SocketRejection>)
    ensures
        r == parent_verdict(parent, canonical_same, effective_uid, path_exists),
{
    if parent.is_symlink || !parent.is_dir {
        Err(SocketRejection::ParentNotDirectory)
    } else if !canonical_same {
        Err(SocketRejection::ParentAliased)
    } else if parent.uid != effective_uid || parent.mode & 0o022 != 0 {
        Err(SocketRejection::ParentUnsafe)
    } else if path_exists {
        Err(SocketRejection::AlreadyExists)
    } else {
        Ok(())
    }
}

/// Whether an entry is still the socket that was bound, by device and inode.
pub open spec fn is_same_socket(facts: EntryFacts, dev: u64, ino: u64) -> bool {
    facts.is_socket && facts.dev == dev && facts.ino == ino
}

/// Whether the entry at the socket path is still the bound socket; only then
/// may it be removed.
pub fn same_socket(facts: EntryFacts, dev: u64, ino: u64) -> (r: bool)
    ensures
        r == is_same_socket(facts, dev, ino),
{
    facts.is_socket && facts.dev == dev && facts.ino == ino
}

/// A freshly bound endpoint must be a socket.
pub fn bound_endpoint(facts: EntryFacts) -> (r: Result<(), SocketRejection>)
    ensures
        facts.is_socket <==> r is Ok,
        !facts.is_socket ==> r == Err::<(), SocketRejection>(SocketRejection::NotSocket),
{
    if facts.is_socket {
        Ok(())
    } else {
        Err(SocketRejection::NotSocket)
    }
}

/// After its mode was set, the endpoint is still the bound socket and
/// carries exactly the broker socket's permission bits.
pub open spec fn is_secured(dev: u64, ino: u64, facts: EntryFacts) -> bool {
    is_same_socket(facts, dev, ino) && facts.mode & 0o777u32 == BROKER_SOCKET_MODE
}

pub fn secured_endpoint(dev: u64, ino: u64, facts: EntryFacts) -> (r: Result<(), SocketRejection>)
    ensures
        is_secured(dev, ino, facts) <==> r is Ok,
        !is_secured(dev, ino, facts) ==> r == Err::<(), SocketRejection>(
            SocketRejection::IdentityChanged,
        ),
{
    if facts.is_socket && facts.dev == dev && facts.ino == ino && facts.mode & 0o777 == BROKER_SOCKET_MODE {
        Ok(())
    } else {
        Err(SocketRejection::IdentityChanged)
    }
}

/// Whether the socket's owner and mode let the configured peer connect: the
/// endpoint must still be the bound socket; a root peer is always served;
/// otherwise the peer's user must own it with owner read and write, or its
/// group must own it with group read and write.
pub open spec fn peer_policy_verdict(
    dev: u64,
    ino: u64,
    facts: EntryFacts,
    policy: BrokerPeerPolicy,
) -> Result<bool, SocketRejection> {
    if !is_same_socket(facts, dev, ino) {
        Err(SocketRejection::IdentityChanged)
    } else if policy.allowed_uid == 0 {
        Ok(true)
    } else {
        Ok((facts.uid == policy.allowed_uid && facts.mode & 0o600u32 == 0o600u32) || (facts.gid
            == policy.allowed_gid && facts.mode & 0o060u32 == 0o060u32))
    }
}

/// Judges, from the current metadata of the socket bound as `dev`/`ino`,
/// whether it serves the peer policy.
pub fn permits_peer_policy(dev: u64, ino: u64, facts: EntryFacts, policy: BrokerPeerPolicy) -> (r:
    Result<bool, SocketRejection>)
    ensures
        r == peer_policy_verdict(dev, ino, facts, policy),
{
    if !same_socket(facts, dev, ino) {
        return Err(SocketRejection::IdentityChanged);
    }
    if policy.allowed_uid == 0 {
        return Ok(true);
    }
    Ok((facts.uid == policy.allowed_uid && facts.mode & 0o600 == 0o600) || (facts.gid
        == policy.allowed_gid && facts.mode & 0o060 == 0o060))
}

/// A socket that passed the bind-time check serves exactly the policies
/// that name root, its owner or its group.
pub proof fn lemma_secured_socket_serves_owner_and_group(
    dev: u64,
    ino: u64,
    facts: EntryFacts,
    policy: BrokerPeerPolicy,
)
    requires
        is_secured(dev, ino, facts),
    ensures
        peer_policy_verdict(dev, ino, facts, policy) == Ok::<bool, SocketRejection>(
            policy.allowed_uid == 0 || facts.uid == policy.allowed_uid || facts.gid
                == policy.allowed_gid,
        ),
{
    let mode = facts.mode;
    assert(mode & 0o777u32 == 0o660u32 ==> mode & 0o600u32 == 0o600u32 && mode & 0o060u32
        == 0o060u32) by (bit_vector);
}

/// Why a kernel peer record was not believed.
#[derive(Debug, Clone, Copy, PartialEq, Eq, Structural)]
pub enum CredentialRejection {
    /// The kernel reported a record of another size than `ucred`.
    UnexpectedSize,
    /// The peer process id is negative.
    NegativePid,
    /// The peer process id is zero.
    ZeroPid,
}

/// The peer record of `SO_PEERCRED`, believed only when the kernel filled
/// exactly one record and named a real process.
pub open spec fn credentials_verdict(
    length: u32,
    record_size: usize,
    pid: i32,
    uid: u32,
    gid: u32,
) -> Result<BrokerPeerCredentials, CredentialRejection> {
    if length != record_size {
        Err(CredentialRejection::UnexpectedSize)
    } else if pid < 0 {
        Err(CredentialRejection::NegativePid)
    } else if pid == 0 {
        Err(CredentialRejection::ZeroPid)
    } else {
        Ok(BrokerPeerCredentials { uid, gid, pid: pid as u32 })
    }
}

/// Checks what `SO_PEERCRED` returned: the reported length against the size
/// of the kernel's record, and the process id.
pub fn validated_credentials(length: u32, record_size: usize, pid: i32, uid: u32, gid: u32) -> (r:
    Result<BrokerPeerCredentials, CredentialRejection>)
    ensures
        r == credentials_verdict(length, record_size, pid, uid, gid),
{
    if length as usize != record_size {
        return Err(CredentialRejection::UnexpectedSize);
    }
    if pid < 0 {
        return Err(CredentialRejection::NegativePid);
    }
    if pid == 0 {
        return Err(CredentialRejection::ZeroPid);
    }
    Ok(BrokerPeerCredentials { uid, gid, pid: pid as u32 })
}

} // verus!
