use dildonica::tabs::Tab;

#[test]
fn tabs_compare_by_variant() {
    assert!(Tab::Plot == Tab::Plot);
    assert!(Tab::Plot != Tab::Config);
    assert!(Tab::Config != Tab::Midi);
}
