use alcom_rs::filemanager::FileManager;

fn is_uuid_text(s: &str) -> bool {
    let chars: Vec<char> = s.chars().collect();
    if chars.len() != 36 {
        return false;
    }
    for (i, c) in chars.iter().enumerate() {
        let ok = if i == 8 || i == 13 || i == 18 || i == 23 {
            *c == '-'
        } else {
            ('0'..='9').contains(c) || ('a'..='f').contains(c)
        };
        if !ok {
            return false;
        }
    }
    true
}

#[test]
fn new_keeps_the_directory() {
    let manager = FileManager::new("scratch".to_string());
    assert_eq!(manager.temporary_directory(), "scratch");
}

#[test]
fn default_directory_is_named_by_a_uuid() {
    let manager = FileManager::default();
    assert!(is_uuid_text(manager.temporary_directory()));
}

#[test]
fn temporary_file_name_is_a_uuid() {
    let manager = FileManager::new("scratch".to_string());
    let name = manager.temporary_file_name();
    assert!(is_uuid_text(&name));
    assert_eq!(manager.temporary_directory(), "scratch");
}

#[test]
fn temporary_file_names_differ() {
    let manager = FileManager::new("scratch".to_string());
    assert_ne!(manager.temporary_file_name(), manager.temporary_file_name());
}
