use lush::config::{is_verbose, set_verbose, VerboseFlag};

#[test]
fn verbose_after_set() {
    let mut f = VerboseFlag::new();
    set_verbose(&mut f);
    assert!(is_verbose(&mut f));
    set_verbose(&mut f);
    assert!(is_verbose(&mut f));
}

#[test]
fn verbose_read_first_stays_off() {
    let mut f = VerboseFlag::new();
    assert!(!is_verbose(&mut f));
    set_verbose(&mut f);
    assert!(!is_verbose(&mut f));
}
