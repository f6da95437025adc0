use authd::limits::{
    has_room, MAX_CONCURRENT_CONVERSATIONS, MAX_IDENT_CONNECTIONS, MAX_SOURCE_CONNECTIONS,
};
use authd::logon::{LogonType, LogonTypes};
use authd::source::MAX_SOURCES;

#[test]
fn a_full_socket_serves_nobody_else() {
    for cap in [
        MAX_CONCURRENT_CONVERSATIONS,
        MAX_SOURCE_CONNECTIONS,
        MAX_IDENT_CONNECTIONS,
    ] {
        assert!(has_room(cap - 1, cap));
        assert!(!has_room(cap, cap));
    }
    assert!(MAX_SOURCES < MAX_SOURCE_CONNECTIONS);
}

/// No principal becomes usable for a credential-free logon by saying nothing.
#[test]
fn silence_permits_everything_but_service() {
    let unstated = LogonTypes::unstated();
    assert!(!unstated.stated());
    assert!(unstated.permits(LogonType::Interactive));
    assert!(unstated.permits(LogonType::NewCredentials));
    assert!(!unstated.permits(LogonType::Service));
    assert!(!unstated.has(LogonType::Interactive));

    let batch = unstated.with(LogonType::Batch);
    assert!(batch.stated());
    assert!(batch.permits(LogonType::Batch));
    assert!(!batch.permits(LogonType::Interactive));

    let unknown = LogonTypes {
        other: 1 << 20,
        ..unstated
    };
    assert!(unknown.stated(), "a type nobody here can name is still one");
    assert!(!unknown.permits(LogonType::Interactive));
}
