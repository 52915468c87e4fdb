use mw_core::runtime::airstage::airfield_controller_update_due;

#[test]
fn airfield_controller_updates_use_browser_phase_cadence() {
    assert!(!airfield_controller_update_due(46));
    assert!(airfield_controller_update_due(47));
    assert!(!airfield_controller_update_due(48));
    assert!(airfield_controller_update_due(167));
}
