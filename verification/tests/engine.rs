use usnip::paste::{inject, paste_keystrokes, Clipboard, KeyStroke, PasteError, PasteSession, VK_CONTROL, VK_V};
use usnip::windowing::{
    bridge_plan, hibyte, hiword, lobyte, loword, HotkeyAction, HotkeyRegistration, MainWindow,
    EN_CHANGE, WM_CREATE, WM_NCDESTROY, WM_PAINT,
};

fn chord() -> Vec<KeyStroke> {
    vec![
        KeyStroke { vk: VK_CONTROL, up: false },
        KeyStroke { vk: VK_V, up: false },
        KeyStroke { vk: VK_V, up: true },
        KeyStroke { vk: VK_CONTROL, up: true },
    ]
}

#[test]
fn paste_restores_the_clipboard() {
    let mut clip = Clipboard::holding("old_value".to_string());
    let mut keys: Vec<KeyStroke> = Vec::new();
    let r = inject(&mut clip, &mut keys, &"any text".to_string(), true, true);
    assert!(r.is_ok());
    assert_eq!(clip.content, "old_value");
    assert_eq!(clip.writes, vec!["any text".to_string(), "old_value".to_string()]);
    assert_eq!(keys, chord());
}

#[test]
fn unavailable_clipboard_stops_the_protocol() {
    let mut clip = Clipboard::holding("old_value".to_string());
    let mut keys: Vec<KeyStroke> = Vec::new();
    let r = inject(&mut clip, &mut keys, &"any text".to_string(), false, true);
    assert_eq!(r, Err(PasteError::ClipboardUnavailable));
    assert_eq!(clip.content, "old_value");
    assert!(clip.writes.is_empty());
    assert!(keys.is_empty());
}

#[test]
fn a_failed_injection_still_restores_the_clipboard() {
    let mut clip = Clipboard::holding("old_value".to_string());
    let mut keys: Vec<KeyStroke> = Vec::new();
    let r = inject(&mut clip, &mut keys, &"any text".to_string(), true, false);
    assert_eq!(r, Err(PasteError::InjectionFailed));
    assert_eq!(clip.content, "old_value");
    assert_eq!(clip.writes, vec!["any text".to_string(), "old_value".to_string()]);
    assert!(keys.is_empty());
}

#[test]
fn the_payload_is_on_the_clipboard_between_write_and_restore() {
    let mut clip = Clipboard::holding("prior".to_string());
    let session = PasteSession::open(&clip, "hello world".to_string(), true).unwrap();
    session.write_payload(&mut clip);
    assert_eq!(clip.content, "hello world");
    assert_eq!(session.keystrokes(), chord());
    session.restore(&mut clip);
    assert_eq!(clip.content, "prior");
}

#[test]
fn the_chord_releases_every_key_it_presses() {
    let keys = paste_keystrokes();
    assert_eq!(keys.len(), 4);
    assert_eq!(keys[0], KeyStroke { vk: VK_CONTROL, up: false });
    assert_eq!(keys[1], KeyStroke { vk: VK_V, up: false });
    assert_eq!(keys[2], KeyStroke { vk: VK_V, up: true });
    assert_eq!(keys[3], KeyStroke { vk: VK_CONTROL, up: true });
}

#[test]
fn hotkey_fired_in_notepad_pastes_and_restores() {
    let contents = vec!["1;notepad.exe;true;2;65;Text;hello world".to_string()];
    let mut mw = MainWindow::new("C:\\Users\\me\\usnip".to_string());
    let regs = mw.on_create(&contents);
    assert_eq!(regs, vec![HotkeyRegistration { id: 0, modifiers: 2, keycode: 65 }]);

    let lparam: u32 = 2 | (65 << 16);
    let action = mw.on_hotkey(lparam, &"notepad.exe".to_string(), false);
    let index = match action {
        HotkeyAction::Paste { index } => index,
        _ => panic!("expected a paste"),
    };
    assert_eq!(index, 0);
    assert_eq!(mw.register[index].data, "hello world");

    let mut clip = Clipboard::holding("prior".to_string());
    let session = PasteSession::open(&clip, mw.register[index].data.clone(), true).unwrap();
    session.write_payload(&mut clip);
    assert_eq!(clip.content, "hello world");
    let observed = session.keystrokes();
    session.restore(&mut clip);
    assert_eq!(clip.content, "prior");
    assert_eq!(observed, chord());

    let mut keys: Vec<KeyStroke> = Vec::new();
    let r = mw.paste_record(index, &mut clip, &mut keys, true, true);
    assert!(r.is_ok());
    assert_eq!(clip.content, "prior");
    assert_eq!(
        clip.writes,
        vec![
            "hello world".to_string(),
            "prior".to_string(),
            "hello world".to_string(),
            "prior".to_string(),
        ]
    );
    assert_eq!(keys, chord());
}

#[test]
fn the_same_combination_in_calc_does_not_paste() {
    let contents = vec!["1;notepad.exe;true;2;65;Text;hello world".to_string()];
    let mut mw = MainWindow::new("C:\\Users\\me\\usnip".to_string());
    mw.on_create(&contents);
    let lparam: u32 = 2 | (65 << 16);
    let action = mw.on_hotkey(lparam, &"calc.exe".to_string(), false);
    assert!(matches!(action, HotkeyAction::Nothing));
}

#[test]
fn a_hex_keycode_field_falls_back_to_the_sentinel() {
    let contents = vec!["1;notepad.exe;true;2;0x41;Text;hello world".to_string()];
    let mut mw = MainWindow::new("C:\\Users\\me\\usnip".to_string());
    let regs = mw.on_create(&contents);
    assert_eq!(regs, vec![HotkeyRegistration { id: 0, modifiers: 2, keycode: 0x87 }]);
    let lparam: u32 = 2 | (65 << 16);
    let action = mw.on_hotkey(lparam, &"notepad.exe".to_string(), false);
    assert!(matches!(action, HotkeyAction::Nothing));
}

#[test]
fn a_disabled_record_is_registered_but_never_fires() {
    let contents = vec!["1;notepad.exe;false;2;65;Text;hello world".to_string()];
    let mut mw = MainWindow::new("C:\\Users\\me\\usnip".to_string());
    let regs = mw.on_create(&contents);
    assert_eq!(regs, vec![HotkeyRegistration { id: 0, modifiers: 2, keycode: 65 }]);
    let lparam: u32 = 2 | (65 << 16);
    let action = mw.on_hotkey(lparam, &"notepad.exe".to_string(), false);
    assert!(matches!(action, HotkeyAction::Nothing));
    let own = mw.on_hotkey(lparam, &"usnip.exe".to_string(), true);
    assert!(matches!(own, HotkeyAction::Nothing));
}

#[test]
fn an_unmatched_combination_in_the_own_window_surfaces_a_notice() {
    let contents = vec!["1;notepad.exe;true;2;65;Text;hello world".to_string()];
    let mut mw = MainWindow::new("C:\\Users\\me\\usnip".to_string());
    mw.on_create(&contents);
    let lparam: u32 = 2 | (65 << 16);
    let action = mw.on_hotkey(lparam, &"usnip.exe".to_string(), true);
    let index = match action {
        HotkeyAction::Notice { index } => index,
        _ => panic!("expected a notice"),
    };
    assert_eq!(index, 0);
    assert_eq!(mw.notice_text(index), "Hotkey is already setup for process: notepad.exe");

    let elsewhere = mw.on_hotkey(lparam, &"word.exe".to_string(), false);
    assert!(matches!(elsewhere, HotkeyAction::Nothing));
}

#[test]
fn destruction_unregisters_every_record() {
    let contents = vec![
        "1;a.exe;true;0;10;Raw;x".to_string(),
        "bad".to_string(),
        "1;b.exe;false;0;11;Raw;y".to_string(),
    ];
    let mut mw = MainWindow::new("C:\\Users\\me\\usnip".to_string());
    mw.on_create(&contents);
    assert_eq!(mw.on_destroy(), vec![0, 2]);
}

#[test]
fn captured_combinations_are_corrected_and_rendered() {
    let mut mw = MainWindow::new("C:\\Users\\me\\usnip".to_string());
    let raw: u32 = (0x1 << 8) | 0x41;
    mw.on_hotkey_captured(raw);
    assert_eq!(mw.last_keys, (0x4, 0x41));
    assert_eq!(mw.render_status(), "Keycode: 65, Modifier: 4");

    mw.on_hotkey_captured((0x5 << 8) | 0x42);
    assert_eq!(mw.last_keys, (0x5, 0x42));
}

#[test]
fn word_and_byte_halves_split_as_documented() {
    assert_eq!(loword(0x0041_0002), 0x0002);
    assert_eq!(hiword(0x0041_0002), 0x0041);
    assert_eq!(lobyte(0x0141), 0x41);
    assert_eq!(hibyte(0x0141), 0x01);
    assert_eq!(EN_CHANGE, 0x0300);
}

#[test]
fn the_bridge_attaches_routes_and_releases_once() {
    let create = bridge_plan(WM_CREATE, true);
    assert!(create.attach && create.invoke && !create.release);

    let paint = bridge_plan(WM_PAINT, true);
    assert!(!paint.attach && paint.invoke && !paint.release);

    let stray = bridge_plan(WM_PAINT, false);
    assert!(!stray.attach && !stray.invoke && !stray.release);

    let teardown = bridge_plan(WM_NCDESTROY, true);
    assert!(!teardown.attach && teardown.invoke && teardown.release);

    let late = bridge_plan(WM_NCDESTROY, false);
    assert!(!late.release);
}
