use usnip::fix_modifiers;
use usnip::shortcuts::{find_key_match, find_match, load_records};
use usnip::utils::{process_name_from_path, save_folder_path, u8_to_dec, wstring};

#[test]
fn matching_is_scoped_to_the_focused_process() {
    let contents = vec![
        "1;notepad.exe;true;2;65;Text;for notepad".to_string(),
        "1;calc.exe;true;2;65;Text;for calc".to_string(),
    ];
    let records = load_records(&contents);
    assert_eq!(records.len(), 2);

    assert_eq!(find_match(&records, 2, 65, &"notepad.exe".to_string()), Some(0));
    assert_eq!(find_match(&records, 2, 65, &"calc.exe".to_string()), Some(1));
    assert_eq!(find_match(&records, 2, 65, &"word.exe".to_string()), None);
}

#[test]
fn first_match_wins_in_load_order() {
    let contents = vec![
        "1;notepad.exe;true;2;65;Text;first".to_string(),
        "1;notepad.exe;true;2;65;Text;second".to_string(),
    ];
    let records = load_records(&contents);
    assert_eq!(find_match(&records, 2, 65, &"notepad.exe".to_string()), Some(0));
}

#[test]
fn disabled_record_is_never_selected() {
    let contents = vec!["1;notepad.exe;false;2;65;Text;hidden".to_string()];
    let records = load_records(&contents);
    assert_eq!(records.len(), 1);
    assert!(!records[0].enabled);
    assert_eq!(find_match(&records, 2, 65, &"notepad.exe".to_string()), None);
    assert_eq!(find_key_match(&records, 2, 65), None);
}

#[test]
fn key_match_ignores_the_process() {
    let contents = vec!["1;notepad.exe;true;2;65;Text;x".to_string()];
    let records = load_records(&contents);
    assert_eq!(find_key_match(&records, 2, 65), Some(0));
    assert_eq!(find_key_match(&records, 2, 66), None);
    assert_eq!(find_key_match(&records, 4, 65), None);
}

#[test]
fn modifier_correction_swaps_a_lone_shift_or_alt() {
    assert_eq!(fix_modifiers(0x1), 0x4);
    assert_eq!(fix_modifiers(0x4), 0x1);
    assert_eq!(fix_modifiers(0x5), 0x5);
    assert_eq!(fix_modifiers(0x0), 0x0);
}

#[test]
fn modifier_correction_keeps_other_bits() {
    assert_eq!(fix_modifiers(0x3), 0x6);
    assert_eq!(fix_modifiers(0x6), 0x3);
    assert_eq!(fix_modifiers(0x7), 0x7);
    assert_eq!(fix_modifiers(0x2), 0x2);
}

#[test]
fn modifier_correction_is_an_involution_on_samples() {
    for m in 0..=255u8 {
        assert_eq!(fix_modifiers(fix_modifiers(m)), m);
    }
}

#[test]
fn wide_strings_are_utf16_with_a_terminator() {
    assert_eq!(wstring("ab"), vec![97, 98, 0]);
    assert_eq!(wstring(""), vec![0]);
    assert_eq!(wstring("\u{1F600}"), vec![0xD83D, 0xDE00, 0]);
}

#[test]
fn bytes_render_in_decimal() {
    assert_eq!(u8_to_dec(0), "0");
    assert_eq!(u8_to_dec(7), "7");
    assert_eq!(u8_to_dec(40), "40");
    assert_eq!(u8_to_dec(255), "255");
}

#[test]
fn process_names_are_lowercased_basenames() {
    assert_eq!(process_name_from_path("C:\\Windows\\NOTEPAD.EXE"), "notepad.exe");
    assert_eq!(process_name_from_path("calc.exe"), "calc.exe");
    assert_eq!(process_name_from_path("C:\\dir\\"), "");
    assert_eq!(process_name_from_path(""), "");
}

#[test]
fn the_save_folder_lives_under_the_home_directory() {
    assert_eq!(save_folder_path("C:", "\\Users\\me"), "C:\\Users\\me\\usnip");
}
