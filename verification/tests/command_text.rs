use ftl_stats::command::{push_decimal, DEFAULT_LIMIT};
use ftl_stats::{build_command, command_line, TopParams};

fn params(limit: Option<usize>, audit: Option<bool>, ascending: Option<bool>) -> TopParams {
    TopParams { limit, audit, ascending }
}

fn decimal(n: usize) -> String {
    let mut out = String::new();
    push_decimal(&mut out, n);
    out
}

#[test]
fn default_parameters() {
    let defaults = TopParams::default();
    assert_eq!(defaults.limit, Some(10));
    assert_eq!(defaults.audit, Some(false));
    assert_eq!(defaults.ascending, Some(false));
    assert_eq!(DEFAULT_LIMIT, 10);
}

#[test]
fn command_with_defaults() {
    assert_eq!(build_command(false, &TopParams::default()), "top-domains (10)");
    assert_eq!(build_command(true, &TopParams::default()), "top-ads (10)");
}

#[test]
fn command_with_missing_fields_takes_defaults() {
    assert_eq!(build_command(false, &params(None, None, None)), "top-domains (10)");
    assert_eq!(build_command(true, &params(None, Some(true), None)), "top-ads (10) for audit");
    assert_eq!(build_command(false, &params(None, None, Some(true))), "top-domains (10) asc");
}

#[test]
fn command_with_limit() {
    assert_eq!(build_command(false, &params(Some(1), None, None)), "top-domains (1)");
    assert_eq!(build_command(true, &params(Some(250), None, None)), "top-ads (250)");
}

#[test]
fn command_with_audit_and_ascending() {
    assert_eq!(
        build_command(false, &params(Some(5), Some(true), Some(true))),
        "top-domains (5) for audit asc"
    );
    assert_eq!(
        build_command(true, &params(Some(5), Some(true), Some(true))),
        "top-ads (5) for audit asc"
    );
    assert_eq!(
        build_command(false, &params(Some(5), Some(false), Some(true))),
        "top-domains (5) asc"
    );
    assert_eq!(
        build_command(false, &params(Some(5), Some(true), Some(false))),
        "top-domains (5) for audit"
    );
}

#[test]
fn zero_limit_is_passed_through() {
    assert_eq!(build_command(false, &params(Some(0), None, None)), "top-domains (0)");
}

#[test]
fn largest_limit_is_passed_through() {
    assert_eq!(
        build_command(false, &params(Some(usize::MAX), None, None)),
        format!("top-domains ({})", usize::MAX)
    );
}

#[test]
fn same_parameters_same_command() {
    let a = params(Some(42), Some(true), None);
    let b = params(Some(42), Some(true), Some(false));
    assert_eq!(build_command(true, &a), build_command(true, &a));
    assert_eq!(build_command(true, &a), build_command(true, &b));
    assert_eq!(build_command(true, &a), "top-ads (42) for audit");
}

#[test]
fn decimal_digits() {
    assert_eq!(decimal(0), "0");
    assert_eq!(decimal(7), "7");
    assert_eq!(decimal(9), "9");
    assert_eq!(decimal(10), "10");
    assert_eq!(decimal(4096), "4096");
    assert_eq!(decimal(1234567890), "1234567890");
    assert_eq!(decimal(usize::MAX), usize::MAX.to_string());
}

#[test]
fn decimal_is_appended() {
    let mut out = String::from("limit ");
    push_decimal(&mut out, 305);
    assert_eq!(out, "limit 305");
}

#[test]
fn command_line_ends_the_line() {
    assert_eq!(command_line("top-domains (10)"), b"top-domains (10)\n".to_vec());
    assert_eq!(command_line(""), vec![0x0a]);
    let line = command_line(&build_command(true, &params(Some(3), None, Some(true))));
    assert_eq!(line, b"top-ads (3) asc\n".to_vec());
}
