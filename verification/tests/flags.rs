use randomx::flag::{
    RandomxFlags, FLAG_ALL, FLAG_DEFAULT, FLAG_FULLMEM, FLAG_HARDAES, FLAG_JIT, FLAG_LARGEPAGES,
};

#[test]
fn default_flags_are_empty() {
    let flags = RandomxFlags::default();
    assert_eq!(flags.bits(), FLAG_DEFAULT);
    assert_eq!(flags.bits(), 0);
}

#[test]
fn union_collects_options() {
    let flags = RandomxFlags::default()
        .union(RandomxFlags::fullmem())
        .union(RandomxFlags::jit());
    assert_eq!(flags.bits(), FLAG_FULLMEM | FLAG_JIT);
}

#[test]
fn intersection_keeps_common_options() {
    let a = RandomxFlags::fullmem().union(RandomxFlags::hardaes());
    let b = RandomxFlags::hardaes().union(RandomxFlags::jit());
    assert_eq!(a.intersection(b).bits(), FLAG_HARDAES);
}

#[test]
fn contains_checks_every_bit() {
    let flags = RandomxFlags::fullmem().union(RandomxFlags::hardaes());
    assert!(flags.contains(RandomxFlags::fullmem()));
    assert!(flags.contains(RandomxFlags::hardaes()));
    assert!(!flags.contains(RandomxFlags::jit()));
    assert!(!flags.contains(RandomxFlags::fullmem().union(RandomxFlags::jit())));
}

#[test]
fn from_bits_accepts_recognized_options() {
    let flags = RandomxFlags::from_bits(FLAG_LARGEPAGES | FLAG_FULLMEM).unwrap();
    assert_eq!(flags.bits(), FLAG_LARGEPAGES | FLAG_FULLMEM);
    assert_eq!(RandomxFlags::from_bits(FLAG_ALL).unwrap().bits(), FLAG_ALL);
    assert_eq!(RandomxFlags::from_bits(0).unwrap().bits(), 0);
}

#[test]
fn from_bits_rejects_unrecognized_bits() {
    assert!(RandomxFlags::from_bits(FLAG_ALL + 1).is_none());
    assert!(RandomxFlags::from_bits(1 << 31).is_none());
}
