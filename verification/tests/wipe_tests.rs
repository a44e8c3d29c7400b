use sudoers::Secure;

#[test]
fn miri_test_wipe() {
    let mut fix = Secure::new(vec![1, 2, 3]);
    assert_eq!(*fix.get(), vec![1, 2, 3]);
    fix.wipe();
    assert_eq!(*fix.get(), vec![0x55, 0x55, 0x55]);
}

#[test]
fn wipe_empty_buffer() {
    let mut fix = Secure::new(Vec::new());
    fix.wipe();
    assert!(fix.get().is_empty());
}
