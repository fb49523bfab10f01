use splicer::common::idgen::{parse_base36, PaneId, PeerId, SessionId, WindowId};
use splicer::ipc::proto::ErrorCode;
use splicer::server::IdAllocator;

#[test]
fn zero_is_not_an_id() {
    assert!(SessionId::new(0).is_none());
    assert!(WindowId::new(0).is_none());
    assert!(PaneId::new(0).is_none());
    assert!(PeerId::new(0).is_none());
    assert_eq!(PaneId::new(42).unwrap().get(), 42);
}

#[test]
fn ids_print_in_base36() {
    assert_eq!(SessionId::new(1).unwrap().to_string(), "1");
    assert_eq!(WindowId::new(35).unwrap().to_string(), "z");
    assert_eq!(PaneId::new(36).unwrap().to_string(), "10");
    assert_eq!(PeerId::new(1295).unwrap().to_string(), "zz");
    assert_eq!(PeerId::new(u64::MAX).unwrap().to_string(), "3w5e11264sgsf");
}

#[test]
fn allocations_are_distinct_and_increasing() {
    let mut a = IdAllocator::new();
    let ids: Vec<u64> = (0..100).map(|_| a.allocate()).collect();
    assert!(ids.iter().all(|&x| x >= 1));
    assert!(ids.windows(2).all(|w| w[0] < w[1]));
    assert_eq!(ids[0], 1);
    assert_eq!(ids[99], 100);
    assert!(a.can_allocate());
}

#[test]
fn error_code_numbers() {
    let all = [
        (ErrorCode::Success, 0u8),
        (ErrorCode::NotFound, 2),
        (ErrorCode::InvalidArgs, 3),
        (ErrorCode::NotAttached, 4),
        (ErrorCode::VersionMismatch, 5),
        (ErrorCode::Denied, 6),
        (ErrorCode::Timeout, 7),
        (ErrorCode::Internal, 255),
    ];
    for (c, n) in all {
        assert_eq!(c.code(), n);
        assert_eq!(ErrorCode::from_code(n), Some(c));
    }
    assert_eq!(ErrorCode::from_code(1), None);
    assert_eq!(ErrorCode::from_code(8), None);
}

#[test]
fn ids_parse_from_base36() {
    assert_eq!(parse_base36("zz"), Some(1295));
    assert_eq!(parse_base36("+Z"), Some(35));
    assert_eq!(parse_base36("10"), Some(36));
    assert_eq!(parse_base36("3w5e11264sgsf"), Some(u64::MAX));
    assert_eq!(parse_base36("3w5e11264sgsg"), None);
    assert_eq!(parse_base36(""), None);
    assert_eq!(parse_base36("+"), None);
    assert_eq!(parse_base36("a-b"), None);
    assert_eq!(parse_base36("0"), Some(0));
    assert!(PaneId::parse("0").is_none());
    assert_eq!(SessionId::parse("1z").unwrap().get(), 71);
    for n in [1u64, 35, 36, 1295, 123456789, u64::MAX] {
        let id = WindowId::new(n).unwrap();
        assert_eq!(WindowId::parse(&id.to_string()), Some(id));
        assert_eq!(PeerId::parse(&PeerId::new(n).unwrap().to_string()).unwrap().get(), n);
    }
}
