use foxy_ecs::error::EcsFault;
use foxy_ecs::error::FoxyError;

#[test]
fn foxy_error_carries_message() {
    let e = FoxyError::new("something went sideways");
    assert_eq!(e.message().as_str(), "something went sideways");
    let FoxyError::Error { msg } = e;
    assert_eq!(msg, "something went sideways");
}

#[test]
fn faults_compare_by_variant() {
    assert_eq!(EcsFault::DuplicateInsert, EcsFault::DuplicateInsert);
    assert_ne!(EcsFault::MissingOnRemove, EcsFault::MissingOnSet);
    let copied = EcsFault::UnknownEntity;
    let again = copied;
    assert_eq!(copied, again);
}
