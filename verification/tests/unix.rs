use vault_watch::broker::unix::{
    bound_endpoint, check_socket_parent, permits_peer_policy, same_socket, secured_endpoint,
    socket_parent, validated_credentials, CredentialRejection, EntryFacts, SocketRejection,
    BROKER_SOCKET_MODE,
};
use vault_watch::broker::wire::{BrokerPeerCredentials, BrokerPeerPolicy};

fn socket_facts(uid: u32, gid: u32, mode: u32) -> EntryFacts {
    EntryFacts {
        is_socket: true,
        is_symlink: false,
        is_dir: false,
        dev: 7,
        ino: 42,
        uid,
        gid,
        mode,
    }
}

fn directory_facts(uid: u32, mode: u32) -> EntryFacts {
    EntryFacts {
        is_socket: false,
        is_symlink: false,
        is_dir: true,
        dev: 7,
        ino: 9,
        uid,
        gid: uid,
        mode,
    }
}

#[test]
fn synthetic_ucred_validation_rejects_bad_size_and_pid() {
    let size = std::mem::size_of::<libc::ucred>();
    let length = libc::socklen_t::try_from(size).unwrap();
    assert_eq!(
        validated_credentials(length, size, 123, 1000, 1001).unwrap(),
        BrokerPeerCredentials {
            uid: 1000,
            gid: 1001,
            pid: 123,
        }
    );
    assert_eq!(
        validated_credentials(length - 1, size, 123, 1000, 1001).unwrap_err(),
        CredentialRejection::UnexpectedSize
    );
    assert_eq!(
        validated_credentials(length, size, 0, 1000, 1001).unwrap_err(),
        CredentialRejection::ZeroPid
    );
}

#[test]
fn negative_peer_pid_is_not_believed() {
    assert_eq!(
        validated_credentials(12, 12, -4, 0, 0).unwrap_err(),
        CredentialRejection::NegativePid
    );
}

#[test]
fn socket_path_must_be_absolute_and_name_a_file() {
    assert_eq!(socket_parent("broker.sock"), Err(SocketRejection::NotAbsoluteFile));
    assert_eq!(socket_parent("/run/vault/.."), Err(SocketRejection::NotAbsoluteFile));
    assert_eq!(socket_parent("/"), Err(SocketRejection::NotAbsoluteFile));
    assert_eq!(socket_parent("/run/vault-watch/broker.sock"), Ok("/run/vault-watch".to_string()));
}

#[test]
fn parent_directory_checks_come_in_order() {
    let safe = directory_facts(0, 0o700);
    assert_eq!(check_socket_parent(safe, true, 0, false), Ok(()));
    let link = EntryFacts {
        is_symlink: true,
        ..safe
    };
    assert_eq!(
        check_socket_parent(link, false, 0, true),
        Err(SocketRejection::ParentNotDirectory)
    );
    assert_eq!(check_socket_parent(safe, false, 0, true), Err(SocketRejection::ParentAliased));
    assert_eq!(
        check_socket_parent(directory_facts(0, 0o722), true, 0, false),
        Err(SocketRejection::ParentUnsafe)
    );
    assert_eq!(
        check_socket_parent(directory_facts(1000, 0o700), true, 0, false),
        Err(SocketRejection::ParentUnsafe)
    );
    assert_eq!(check_socket_parent(safe, true, 0, true), Err(SocketRejection::AlreadyExists));
}

#[test]
fn secured_socket_serves_its_owner_and_group_only() {
    let bound = socket_facts(1000, 1001, 0o140000 | BROKER_SOCKET_MODE);
    assert_eq!(bound_endpoint(bound), Ok(()));
    assert_eq!(secured_endpoint(7, 42, bound), Ok(()));
    let owner = BrokerPeerPolicy {
        allowed_uid: 1000,
        allowed_gid: 1001,
    };
    assert_eq!(permits_peer_policy(7, 42, bound, owner), Ok(true));
    let stranger = BrokerPeerPolicy {
        allowed_uid: 1001,
        allowed_gid: 1002,
    };
    assert_eq!(permits_peer_policy(7, 42, bound, stranger), Ok(false));
    let root = BrokerPeerPolicy {
        allowed_uid: 0,
        allowed_gid: 5,
    };
    assert_eq!(permits_peer_policy(7, 42, bound, root), Ok(true));
}

#[test]
fn group_access_needs_group_read_and_write() {
    let owner_only = socket_facts(1000, 1001, 0o600);
    let group_peer = BrokerPeerPolicy {
        allowed_uid: 2000,
        allowed_gid: 1001,
    };
    assert_eq!(permits_peer_policy(7, 42, owner_only, group_peer), Ok(false));
    assert_eq!(secured_endpoint(7, 42, owner_only), Err(SocketRejection::IdentityChanged));
}

#[test]
fn replaced_socket_is_neither_served_nor_removed() {
    let bound = socket_facts(1000, 1001, BROKER_SOCKET_MODE);
    let owner = BrokerPeerPolicy {
        allowed_uid: 1000,
        allowed_gid: 1001,
    };
    assert_eq!(permits_peer_policy(7, 43, bound, owner), Err(SocketRejection::IdentityChanged));
    assert!(same_socket(bound, 7, 42));
    assert!(!same_socket(bound, 8, 42));
    let file = EntryFacts {
        is_socket: false,
        ..bound
    };
    assert!(!same_socket(file, 7, 42));
    assert_eq!(bound_endpoint(file), Err(SocketRejection::NotSocket));
}
