use julia_set::escape::EscapeCounter;

fn count(flags: &[bool], max_iter: u32) -> u32 {
    let mut c = EscapeCounter::new(max_iter);
    for &f in flags {
        if let Some(k) = c.observe(f) {
            return k;
        }
    }
    panic!("the count was not decided");
}

#[test]
fn orbit_that_never_escapes_counts_max_iter() {
    assert_eq!(count(&[false; 10], 10), 10);
    assert_eq!(count(&[false], 1), 1);
}

#[test]
fn start_outside_counts_zero() {
    assert_eq!(count(&[true], 10), 0);
    assert_eq!(count(&[true], 1), 0);
}

#[test]
fn first_escape_is_counted() {
    assert_eq!(count(&[false, false, false, true], 10), 3);
}

#[test]
fn escape_at_last_allowed_point() {
    assert_eq!(count(&[false, false, false, false, true], 5), 4);
}

#[test]
fn counter_decides_at_cap() {
    let mut c = EscapeCounter::new(3);
    assert_eq!(c.observe(false), None);
    assert_eq!(c.observe(false), None);
    assert_eq!(c.observe(false), Some(3));
}
