use zlob::ZlobFlags;

#[test]
fn test_flag_values() {
    // the numeric bit assignments are a compatibility contract
    assert_eq!(ZlobFlags::err().bits(), 0x0001);
    assert_eq!(ZlobFlags::mark().bits(), 0x0002);
    assert_eq!(ZlobFlags::nosort().bits(), 0x0004);
    assert_eq!(ZlobFlags::dooffs().bits(), 0x0008);
    assert_eq!(ZlobFlags::nocheck().bits(), 0x0010);
    assert_eq!(ZlobFlags::append().bits(), 0x0020);
    assert_eq!(ZlobFlags::noescape().bits(), 0x0040);
    assert_eq!(ZlobFlags::period().bits(), 0x0080);
    assert_eq!(ZlobFlags::magchar().bits(), 0x0100);
    assert_eq!(ZlobFlags::altdirfunc().bits(), 0x0200);
    assert_eq!(ZlobFlags::brace().bits(), 0x0400);
    assert_eq!(ZlobFlags::nomagic().bits(), 0x0800);
    assert_eq!(ZlobFlags::tilde().bits(), 0x1000);
    assert_eq!(ZlobFlags::onlydir().bits(), 0x2000);
    assert_eq!(ZlobFlags::tilde_check().bits(), 0x4000);
    assert_eq!(ZlobFlags::gitignore().bits(), 1 << 24);
    assert_eq!(ZlobFlags::doublestar_recursive().bits(), 1 << 25);
}

#[test]
fn test_flag_combinations() {
    let flags = ZlobFlags::brace().or(ZlobFlags::nosort());
    assert!(flags.contains(ZlobFlags::brace()));
    assert!(flags.contains(ZlobFlags::nosort()));
    assert!(!flags.contains(ZlobFlags::tilde()));
}

#[test]
fn test_default_is_empty() {
    assert_eq!(ZlobFlags::default(), ZlobFlags::empty());
}

#[test]
fn test_recommended_contains_expected_flags() {
    let recommended = ZlobFlags::recommended();
    assert!(recommended.contains(ZlobFlags::brace()));
    assert!(recommended.contains(ZlobFlags::doublestar_recursive()));
    assert!(recommended.contains(ZlobFlags::nosort()));
    assert!(recommended.contains(ZlobFlags::tilde()));
    assert!(recommended.contains(ZlobFlags::tilde_check()));
    // Should NOT contain these
    assert!(!recommended.contains(ZlobFlags::err()));
    assert!(!recommended.contains(ZlobFlags::mark()));
    assert!(!recommended.contains(ZlobFlags::gitignore()));
    assert!(!recommended.contains(ZlobFlags::period()));
}
