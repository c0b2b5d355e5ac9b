use pg_search::visibility::exec_if_visible;

#[test]
fn runs_the_closure_when_visible() {
    let r = exec_if_visible(true, 21u32, |rel| rel * 2);
    assert_eq!(r, Some(42));
}

#[test]
fn skips_the_closure_when_not_visible() {
    let mut ran = false;
    let r = exec_if_visible(false, 21u32, |rel| {
        ran = true;
        rel * 2
    });
    assert_eq!(r, None);
    assert!(!ran);
}
