use cool_scroll::mode::Mode;

#[test]
fn the_document_starts_as_text_and_toggles_between_the_two() {
    let mode = Mode::default();
    assert_eq!(mode, Mode::Text);
    assert!(!mode.is_skeleton());
    assert_eq!(mode.toggled(), Mode::Skeleton);
    assert!(mode.toggled().is_skeleton());
    assert_eq!(mode.toggled().toggled(), mode);
}
