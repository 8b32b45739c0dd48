use cfg_logic::parsing::parse;

#[test]
fn parsing_cfg_string() {
    let input = r#"  all(not(any(target_os = "linux", target_os = "macos")), all(), any(unix))  "#;
    let expr = parse(input).ok().unwrap();
    assert_eq!(expr.to_string(), input.trim());
}

#[test]
fn parse_accepts_loose_spacing_and_trailing_comma() {
    let expr = parse("any( unix ,windows,)").ok().unwrap();
    assert_eq!(expr.to_string(), "any(unix, windows)");
    assert!(parse("any(unix, )").is_err());
    let expr = parse("not ( target_env=\"gnu\" )").ok().unwrap();
    assert_eq!(expr.to_string(), r#"not(target_env = "gnu")"#);
}

#[test]
fn parse_reports_the_rest_of_the_input() {
    let err = parse("all(unix").err().unwrap();
    assert_eq!(err.input, "");
    let err = parse("unix junk").err().unwrap();
    assert_eq!(err.input, "junk");
    let err = parse("target_os = \"\"").err().unwrap();
    assert_eq!(err.input, "\"");
    let err = parse("= x").err().unwrap();
    assert_eq!(err.input, "= x");
}

#[test]
fn parse_render_round_trip() {
    for s in [
        "unix",
        r#"target_pointer_width = "64""#,
        r#"any(all(unix, not(target_os = "macos")), windows)"#,
        "all()",
        "any()",
        r#"target_env = "a\b""#,
    ] {
        let e = parse(s).ok().unwrap();
        assert_eq!(e.to_string(), s);
    }
}
