use convenience_tools::tray::{
    copy_tip, set_tray_service_active, set_tray_toggle_handler, toggle_label, tray_menu_command,
    wide_null, with_tip, TrayAction, TrayState, TRAY_MENU_EXIT, TRAY_MENU_OPEN, TRAY_MENU_TOGGLE,
};

#[test]
fn tray_switch_flips_and_tells_the_first_handler() {
    let mut tray: TrayState<&str> = TrayState::new();
    assert!(tray.service_active);
    assert_eq!(toggle_label(&tray), "Disable Blocking");

    // Without a handler the switch still flips.
    assert_eq!(tray_menu_command(&mut tray, TRAY_MENU_TOGGLE), TrayAction::Toggle { active: false, notify: false });
    assert_eq!(toggle_label(&tray), "Enable Blocking");

    set_tray_toggle_handler(&mut tray, "first");
    set_tray_toggle_handler(&mut tray, "second");
    assert_eq!(tray.toggle_handler, Some("first"));

    // Switching twice comes back to where it was.
    assert_eq!(tray_menu_command(&mut tray, TRAY_MENU_TOGGLE), TrayAction::Toggle { active: true, notify: true });
    assert!(tray.service_active);
}

#[test]
fn tray_other_commands_leave_the_switch() {
    let mut tray: TrayState<u8> = TrayState::new();
    set_tray_service_active(&mut tray, false);
    assert!(!tray.service_active);
    assert_eq!(tray_menu_command(&mut tray, TRAY_MENU_OPEN), TrayAction::OpenMainWindow);
    assert_eq!(tray_menu_command(&mut tray, TRAY_MENU_EXIT), TrayAction::Exit);
    assert_eq!(tray_menu_command(&mut tray, 7), TrayAction::Ignore);
    assert!(!tray.service_active);
}

#[test]
fn windows_text_is_utf16_with_a_terminating_zero() {
    assert_eq!(wide_null("Ab"), vec![0x41, 0x62, 0]);
    assert_eq!(wide_null("차단"), vec![0xCC28, 0xB2E8, 0]);
    // Beyond U+FFFF a character takes a surrogate pair.
    assert_eq!(wide_null("\u{1F600}"), vec![0xD83D, 0xDE00, 0]);
    assert_eq!(wide_null(""), vec![0]);
}

#[test]
fn the_tooltip_keeps_its_last_unit() {
    let tip = with_tip([7u16; 128], "gpui");
    assert_eq!(&tip[..5], &[0x67, 0x70, 0x75, 0x69, 0]);
    assert!(tip[5..].iter().all(|&u| u == 7));

    let long: String = "x".repeat(200);
    let tip = with_tip([0u16; 128], &long);
    assert!(tip[..127].iter().all(|&u| u == 0x78));
    assert_eq!(tip[127], 0);

    let copied = copy_tip([1u16; 128], &[9, 8]);
    assert_eq!((copied[0], copied[1], copied[2]), (9, 8, 1));
}
