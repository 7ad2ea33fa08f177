use console_relay::error::ConsoleError;
use console_relay::registry::Registry;

#[test]
fn ids_are_consecutive_and_listed() {
    let mut r: Registry<&str> = Registry::new();
    let a = r.register("10.0.0.5:8303".to_string(), "s0");
    let b = r.register("10.0.0.6:8303".to_string(), "s1");
    assert_eq!((a, b), (0, 1));
    assert_eq!(r.next_id(), 2);
    assert_eq!(
        r.list(),
        vec![(0, "10.0.0.5:8303".to_string()), (1, "10.0.0.6:8303".to_string())]
    );
    assert_eq!(r.get(1).ok(), Some(&"s1"));
}

#[test]
fn unknown_id_is_not_found() {
    let r: Registry<u8> = Registry::new();
    assert!(matches!(r.get(7), Err(ConsoleError::NotFound(7))));
    assert!(!r.contains(7));
}

#[test]
fn removed_id_is_gone_and_not_reused() {
    let mut r: Registry<u8> = Registry::new();
    let a = r.register("x:1".to_string(), 1);
    let b = r.register("y:2".to_string(), 2);
    assert_eq!(r.remove(a).ok(), Some(1));
    assert!(matches!(r.get(a), Err(ConsoleError::NotFound(0))));
    assert!(matches!(r.remove(a), Err(ConsoleError::NotFound(0))));
    let c = r.register("z:3".to_string(), 3);
    assert_eq!(c, 2);
    assert!(!r.contains(a));
    assert_eq!(r.list(), vec![(b, "y:2".to_string()), (c, "z:3".to_string())]);
    assert_eq!(r.len(), 2);
}
