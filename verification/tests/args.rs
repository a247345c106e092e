use rpg_top::TopArgs;

#[test]
fn parse_no_args_keeps_defaults() {
    let a = TopArgs::parse("");
    assert!(!a.once);
}

#[test]
fn parse_once_flag_sets_once() {
    assert!(TopArgs::parse("--once").once);
    assert!(TopArgs::parse("  --once  ").once);
}

#[test]
fn parse_unknown_flags_are_ignored() {
    let a = TopArgs::parse("--banana --once --carrot");
    assert!(a.once);
}

#[test]
fn parse_requires_a_whole_word() {
    assert!(!TopArgs::parse("--once-more").once);
    assert!(!TopArgs::parse("x--once").once);
    assert!(TopArgs::parse("\t--once\n").once);
    assert!(TopArgs::parse("a\u{3000}--once").once);
}
