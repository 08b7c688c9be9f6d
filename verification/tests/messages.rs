use snatch::commands::messages::effective_include_thinking;

#[test]
fn full_detail_implies_thinking_without_flag() {
    assert!(effective_include_thinking(false, "full"));
}

#[test]
fn non_full_detail_still_gated_by_flag() {
    for detail in ["overview", "conversation", "standard"] {
        assert!(
            !effective_include_thinking(false, detail),
            "{detail} should hide thinking without the flag"
        );
        assert!(
            effective_include_thinking(true, detail),
            "{detail} should show thinking with the flag"
        );
    }
}

#[test]
fn full_detail_with_flag_stays_on_once() {
    assert!(effective_include_thinking(true, "full"));
}
