use autotune_pipeline::ui::{format_file_size, get_key_name, get_note_name, KEY_NAMES, NOTE_NAMES};

#[test]
fn test_key_names_length() {
    assert_eq!(KEY_NAMES.len(), 24);
}

#[test]
fn test_key_names() {
    assert_eq!(get_key_name(0), "C Major");
    assert_eq!(get_key_name(12), "A Minor");
    assert_eq!(get_key_name(100), "Unknown");
}

#[test]
fn test_note_names() {
    assert_eq!(get_note_name(0), "C");
    assert_eq!(get_note_name(11), "B");
    assert_eq!(get_note_name(-1), "Unknown");
    assert_eq!(get_note_name(12), "Unknown");
}

#[test]
fn test_format_file_size() {
    assert_eq!(format_file_size(512), "512 B");
    assert_eq!(format_file_size(1536), "1.5 KB");
    assert_eq!(format_file_size(1048576), "1.0 MB");
}

#[test]
fn test_format_file_size_more() {
    assert_eq!(format_file_size(0), "0 B");
    assert_eq!(format_file_size(1023), "1023 B");
    assert_eq!(format_file_size(1024), "1.0 KB");
    // 1280 / 1024 = 1.25 exactly: the tie rounds to even.
    assert_eq!(format_file_size(1280), "1.2 KB");
    assert_eq!(format_file_size(1073741824), "1.0 GB");
    assert_eq!(format_file_size(3221225472), "3.0 GB");
}

#[test]
fn test_key_names_table() {
    for (i, name) in KEY_NAMES.iter().enumerate() {
        assert_eq!(get_key_name(i), *name);
    }
}

#[test]
fn test_note_names_table() {
    assert_eq!(NOTE_NAMES.len(), 12);
    for (i, name) in NOTE_NAMES.iter().enumerate() {
        assert_eq!(get_note_name(i as i32), *name);
    }
}
