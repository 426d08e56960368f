use process_core::pid::Pid;

#[test]
fn uninitialized_is_not_init() {
    let p = Pid::uninitialized();
    assert!(!p.is_init());
}

#[test]
fn first_set_wins() {
    let mut p = Pid::uninitialized();
    assert!(p.set_if_uninitialized(42));
    assert_eq!(p.get(), 42);
}

#[test]
fn pid_never_changes_once_set() {
    let mut p = Pid::uninitialized();
    assert!(p.set_if_uninitialized(3));
    assert!(!p.set_if_uninitialized(9));
    assert!(!p.set_if_uninitialized(0));
    assert_eq!(p.get(), 3);
}

#[test]
fn zero_pid_is_init() {
    let mut p = Pid::uninitialized();
    assert!(p.set_if_uninitialized(0));
    assert!(p.is_init());
    assert_eq!(p.get(), 0);
}

#[test]
fn nonzero_pid_is_not_init() {
    let mut p = Pid::uninitialized();
    assert!(p.set_if_uninitialized(7));
    assert!(!p.is_init());
}
