use bedrock_bridge::profile::{
    profile_from_random, edit_profile, find_profile, get_profile, merge_profiles, remove_profile, replace_profile, Profile,
    ProfileError,
};

fn profile(id: &str, label: &str) -> Profile {
    Profile { id: id.to_string(), label: label.to_string(), host: "10.0.0.1".to_string(), port: 19132 }
}

#[test]
fn test_profile_new() {
    let p = Profile::new("  My Server  ", "  10.0.0.1  ", 19132).unwrap();
    assert_eq!(p.label, "My Server");
    assert_eq!(p.host, "10.0.0.1");
    assert_eq!(p.port, 19132);
    assert!(!p.id.is_empty());
}

#[test]
fn profile_id_is_hyphenated_v4_uuid() {
    let p = Profile::new("a", "b", 1).unwrap();
    let q = Profile::new("a", "b", 1).unwrap();
    assert_ne!(p.id, q.id);
    let chars: Vec<char> = p.id.chars().collect();
    assert_eq!(chars.len(), 36);
    for (i, c) in chars.iter().enumerate() {
        if i == 8 || i == 13 || i == 18 || i == 23 {
            assert_eq!(*c, '-');
        } else {
            assert!(c.is_ascii_hexdigit() && !c.is_ascii_uppercase());
        }
    }
    assert_eq!(chars[14], '4');
    assert!(matches!(chars[19], '8' | '9' | 'a' | 'b'));
}

#[test]
fn profile_new_trims_unicode_white_space() {
    let p = Profile::new("\u{3000}\t Lobby \u{2003}\n", "\u{a0}example.org\u{85}", 7).unwrap();
    assert_eq!(p.label, "Lobby");
    assert_eq!(p.host, "example.org");
    let q = Profile::new("   ", "a b", 7).unwrap();
    assert_eq!(q.label, "");
    assert_eq!(q.host, "a b");
}

#[test]
fn get_finds_first_with_id() {
    let list = vec![profile("1", "A"), profile("2", "B"), profile("2", "C")];
    assert_eq!(get_profile(&list, "2").unwrap().label, "B");
    assert_eq!(get_profile(&list, "3").unwrap_err(), ProfileError::NotFound);
}

#[test]
fn replace_then_get_returns_new_profile() {
    let mut list = vec![profile("1", "Server A"), profile("2", "Other")];
    let mut updated = list[0].clone();
    updated.label = "Server B".to_string();
    assert!(replace_profile(&mut list, &updated).is_ok());
    assert_eq!(get_profile(&list, "1").unwrap().label, "Server B");
    assert_eq!(list.len(), 2);
    assert_eq!(list[1].label, "Other");

    let stranger = profile("9", "X");
    assert_eq!(replace_profile(&mut list, &stranger), Err(ProfileError::NotFound));
    assert_eq!(list.len(), 2);
}

#[test]
fn remove_then_get_is_not_found() {
    let mut list = vec![profile("1", "A"), profile("2", "B"), profile("1", "C")];
    assert!(remove_profile(&mut list, "1").is_ok());
    assert_eq!(list.len(), 1);
    assert_eq!(list[0].label, "B");
    assert_eq!(get_profile(&list, "1").unwrap_err(), ProfileError::NotFound);
    assert_eq!(remove_profile(&mut list, "1"), Err(ProfileError::NotFound));
    assert_eq!(list.len(), 1);
}

#[test]
fn edit_trims_and_keeps_id() {
    let mut list = vec![profile("1", "A")];
    let p = edit_profile(&mut list, "1", "  New  ", " 1.2.3.4 ", 20000).unwrap();
    assert_eq!(p.id, "1");
    assert_eq!(p.label, "New");
    assert_eq!(p.host, "1.2.3.4");
    assert_eq!(p.port, 20000);
    assert_eq!(list[0].label, "New");
    assert_eq!(edit_profile(&mut list, "x", "a", "b", 1).unwrap_err(), ProfileError::NotFound);
}

#[test]
fn find_prefers_id_then_label() {
    let list = vec![profile("abc", "Server"), profile("Server", "Other")];
    assert_eq!(find_profile(&list, "Server").unwrap().id, "Server");
    assert_eq!(find_profile(&list, "abc").unwrap().label, "Server");
    assert_eq!(find_profile(&list, "Other").unwrap().id, "Server");
    assert_eq!(find_profile(&list, "nonexistent").unwrap_err(), ProfileError::NotFound);
}

#[test]
fn merge_skips_labels_equal_up_to_case() {
    let mut existing = vec![profile("1", "Lobby")];
    let imported = vec![profile("2", "LOBBY"), profile("3", "Survival"), profile("4", "survival")];
    let count = merge_profiles(&mut existing, imported.clone());
    assert_eq!(count, 3);
    let labels: Vec<&str> = existing.iter().map(|p| p.label.as_str()).collect();
    assert_eq!(labels, vec!["Lobby", "Survival"]);

    let again = merge_profiles(&mut existing, imported);
    assert_eq!(again, 3);
    assert_eq!(existing.len(), 2);
}

#[test]
fn merge_uses_unicode_lowercase() {
    let mut existing = vec![profile("1", "ÉTÉ")];
    assert_eq!(merge_profiles(&mut existing, vec![profile("2", "été")]), 1);
    assert_eq!(existing.len(), 1);
}

#[test]
fn profile_from_fixed_random_bytes() {
    let bytes: [u8; 16] = [0, 1, 2, 3, 4, 5, 6, 7, 8, 9, 10, 11, 12, 13, 14, 15];
    let p = profile_from_random(bytes, " Lobby ", " 10.0.0.1 ", 19132);
    assert_eq!(p.id, "00010203-0405-4607-8809-0a0b0c0d0e0f");
    assert_eq!(p.label, "Lobby");
    assert_eq!(p.host, "10.0.0.1");
    assert_eq!(p.port, 19132);
    let q = profile_from_random([0xff; 16], "a", "b", 1);
    assert_eq!(q.id, "ffffffff-ffff-4fff-bfff-ffffffffffff");
}
