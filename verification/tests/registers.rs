use lc3_toolchain::vm::registers::Registers;

#[test]
fn test_set() {
    let mut reg = Registers::new();

    assert!(reg.r[0] == 0);

    reg.set(0, 256);

    assert!(reg.r[0] != 0);
    assert!(reg.r[0] == 256);
}

#[test]
fn test_get() {
    let mut reg = Registers::new();

    assert!(reg.get(0) == 0);

    reg.r[7] = 1000;
    assert!(reg.get(7) == 1000);

    reg.r[3] = 712;
    assert!(reg.get(3) == 712);
}

#[test]
fn register_numbers_past_seven_name_nothing() {
    let mut reg = Registers::new();
    reg.set(8, 77);
    assert_eq!(reg.r, [0; 8]);
    assert_eq!(reg.get(8), 1);
}
