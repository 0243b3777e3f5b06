use kovi_plugins::registry::{is_emoji, EmojiSet, GroupSet};
use kovi_plugins::text::{
    parse_emoji_command, parse_reaction_toggle, parse_symmetry_command, parse_symmetry_toggle,
    strip_whitespace, EmojiCommand,
};

#[test]
fn strip_removes_all_white_space() {
    let s: String = strip_whitespace(" a\tb\n c\u{3000}d\u{a0}").into_iter().collect();
    assert_eq!(s, "abcd");
}

#[test]
fn emoji_command_add_and_remove() {
    assert_eq!(parse_emoji_command("$emoji+=😀"), Some(EmojiCommand { add: true, code: 0x1F600 }));
    assert_eq!(parse_emoji_command("$emoji-=😀"), Some(EmojiCommand { add: false, code: 0x1F600 }));
    assert_eq!(parse_emoji_command(" $ emoji + =\n 😀 "), Some(EmojiCommand { add: true, code: 0x1F600 }));
    assert_eq!(parse_emoji_command("$emoji+=a"), Some(EmojiCommand { add: true, code: 'a' as u32 }));
}

#[test]
fn emoji_command_rejects_other_text() {
    assert_eq!(parse_emoji_command("$emoji+=ab"), None);
    assert_eq!(parse_emoji_command("$emoji*=a"), None);
    assert_eq!(parse_emoji_command("$emoji+="), None);
    assert_eq!(parse_emoji_command("emoji+=a"), None);
    assert_eq!(parse_emoji_command("x$emoji+=a"), None);
    assert_eq!(parse_emoji_command("$Emoji+=a"), None);
    assert_eq!(parse_emoji_command(""), None);
}

#[test]
fn symmetry_toggle_commands() {
    let c = parse_symmetry_toggle("$12345+=image-symmetry").unwrap();
    assert!(c.add);
    assert_eq!(c.group, "12345");
    let c = parse_symmetry_toggle(" $ 123 45 - = image_symmetry ").unwrap();
    assert!(!c.add);
    assert_eq!(c.group, "12345");
    let c = parse_symmetry_toggle("$+=image-symmetry").unwrap();
    assert_eq!(c.group, "");
    let c = parse_symmetry_toggle("$a+b-=image-symmetry").unwrap();
    assert!(!c.add);
    assert_eq!(c.group, "a+b");
}

#[test]
fn symmetry_toggle_rejects_other_text() {
    assert!(parse_symmetry_toggle("$12345+=image.symmetry").is_none());
    assert!(parse_symmetry_toggle("$12345=image-symmetry").is_none());
    assert!(parse_symmetry_toggle("12345+=image-symmetry").is_none());
    assert!(parse_symmetry_toggle("$12345+=image-symmetryx").is_none());
    assert!(parse_symmetry_toggle("$12345+=message-reaction").is_none());
    assert!(parse_symmetry_toggle("+=image-symmetry").is_none());
}

#[test]
fn reaction_toggle_commands() {
    let c = parse_reaction_toggle("$987+=message_reaction").unwrap();
    assert!(c.add);
    assert_eq!(c.group, "987");
    assert!(parse_reaction_toggle("$987+=image-symmetry").is_none());
}

#[test]
fn symmetry_command_words() {
    assert_eq!(parse_symmetry_command("对称 左"), Some("左".to_string()));
    assert_eq!(parse_symmetry_command("  对称 \t 前  "), Some("前".to_string()));
    assert_eq!(parse_symmetry_command("对称 whatever"), Some("whatever".to_string()));
}

#[test]
fn symmetry_command_rejects_other_text() {
    assert_eq!(parse_symmetry_command("对称左"), None);
    assert_eq!(parse_symmetry_command("对称 左 右"), None);
    assert_eq!(parse_symmetry_command("对称 "), None);
    assert_eq!(parse_symmetry_command("x对称 左"), None);
    assert_eq!(parse_symmetry_command("对"), None);
    assert_eq!(parse_symmetry_command(""), None);
}

#[test]
fn emoji_registry_follows_commands() {
    let mut set = EmojiSet::new();
    assert!(!is_emoji(&set, '😀'));
    assert!(set.handle_admin_text("$emoji+=😀"));
    assert!(is_emoji(&set, '😀'));
    assert!(!is_emoji(&set, '😁'));
    assert!(!set.handle_admin_text("hello"));
    assert!(is_emoji(&set, '😀'));
    assert!(set.handle_admin_text("$emoji-=😀"));
    assert!(!is_emoji(&set, '😀'));
    assert!(set.handle_admin_text("$emoji-=😀"));
    assert!(set.codes().is_empty());
}

#[test]
fn emoji_registry_from_saved_codes() {
    let codes: std::collections::HashSet<u32> = [0x1F600, 0x2764].into_iter().collect();
    let set = EmojiSet::from_codes(codes);
    assert!(set.contains(0x2764));
    assert!(is_emoji(&set, '\u{2764}'));
    assert!(!set.contains(0x41));
}

#[test]
fn group_switches_follow_commands() {
    let mut groups = GroupSet::new();
    let g = "12345".to_string();
    assert!(!groups.contains(&g));
    assert!(groups.handle_symmetry_admin_text("$12345+=image-symmetry"));
    assert!(groups.contains(&g));
    assert!(groups.handle_symmetry_admin_text("$12345+=image_symmetry"));
    assert_eq!(groups.groups().len(), 1);
    assert!(!groups.handle_symmetry_admin_text("$12345+=message-reaction"));
    assert!(groups.handle_reaction_admin_text("$777+=message-reaction"));
    assert!(groups.contains(&"777".to_string()));
    assert!(groups.handle_symmetry_admin_text("$12345-=image-symmetry"));
    assert!(!groups.contains(&g));
    assert_eq!(groups.groups(), &vec!["777".to_string()]);
}

#[test]
fn group_set_insert_remove_report_change() {
    let mut groups = GroupSet::new();
    assert!(groups.insert("a".to_string()));
    assert!(!groups.insert("a".to_string()));
    assert!(groups.insert("b".to_string()));
    assert!(groups.remove(&"a".to_string()));
    assert!(!groups.remove(&"a".to_string()));
    assert_eq!(groups.groups(), &vec!["b".to_string()]);
}

#[test]
fn group_set_from_saved_names() {
    let groups = GroupSet::from_names(vec!["1".to_string(), "2".to_string(), "1".to_string()]);
    assert_eq!(groups.groups(), &vec!["1".to_string(), "2".to_string()]);
    assert!(groups.contains(&"2".to_string()));
    assert!(!groups.contains(&"3".to_string()));
}

#[test]
fn registration_persists_until_removed() {
    let mut set = EmojiSet::new();
    set.handle_admin_text("$emoji+=😀");
    for text in ["hello", "$emoji-=😁", "$emoji+=😀", "$emoji+=👍", "$emoji-=👍", "$ emoji - = a"] {
        set.handle_admin_text(text);
        assert!(is_emoji(&set, '😀'));
    }
    set.handle_admin_text(" $emoji -= 😀");
    assert!(!is_emoji(&set, '😀'));
}

#[test]
fn group_switch_persists_until_switched_off() {
    let mut groups = GroupSet::new();
    let g = "42".to_string();
    groups.handle_symmetry_admin_text("$42+=image-symmetry");
    for text in ["$43-=image-symmetry", "$42-=message-reaction", "$42+=image_symmetry", "hi"] {
        groups.handle_symmetry_admin_text(text);
        assert!(groups.contains(&g));
    }
    groups.handle_symmetry_admin_text("$4 2-=image_symmetry");
    assert!(!groups.contains(&g));
}
