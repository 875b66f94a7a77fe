use rulox::Lox;

#[test]
fn fresh_context_has_no_errors() {
    let lox = Lox::new();
    assert!(!lox.had_error());
    assert!(lox.diagnostics().is_empty());
}

#[test]
fn reporting_sets_the_flag_and_records_the_message() {
    let mut lox = Lox::new();
    lox.error(3, "boom");
    assert!(lox.had_error());
    let d = &lox.diagnostics()[0];
    assert_eq!(d.line, 3);
    assert_eq!(d.location, "");
    assert_eq!(d.message, "boom");
}

#[test]
fn reports_accumulate_in_order() {
    let mut lox = Lox::new();
    lox.report(1, " at 'x'", "first");
    lox.error(2, "second");
    let ds = lox.diagnostics();
    assert_eq!(ds.len(), 2);
    assert_eq!(ds[0].location, " at 'x'");
    assert_eq!(ds[0].message, "first");
    assert_eq!(ds[1].message, "second");
}

#[test]
fn reset_clears_the_context_between_inputs() {
    let mut lox = Lox::new();
    lox.error(1, "boom");
    lox.reset();
    assert!(!lox.had_error());
    assert!(lox.diagnostics().is_empty());
}
