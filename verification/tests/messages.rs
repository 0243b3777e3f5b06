use kovi_plugins::message::{get_image_url, plan_reactions, plan_symmetry, same_str, Reaction, Segment};
use kovi_plugins::registry::{EmojiSet, GroupSet};

fn seg(kind: &str) -> Segment {
    Segment { kind: kind.to_string(), text: None, face_id: None, temp_url: None, segments: None }
}

fn image(url: Option<&str>) -> Segment {
    Segment { temp_url: url.map(|u| u.to_string()), ..seg("image") }
}

fn reply(inner: Option<Vec<Segment>>) -> Segment {
    Segment { segments: inner, ..seg("reply") }
}

fn text(t: &str) -> Segment {
    Segment { text: Some(t.to_string()), ..seg("text") }
}

fn face(id: &str) -> Segment {
    Segment { face_id: Some(id.to_string()), ..seg("face") }
}

#[test]
fn same_str_compares_characters() {
    assert!(same_str("image", "image"));
    assert!(!same_str("image", "imag"));
    assert!(!same_str("image", "imagE"));
    assert!(same_str("", ""));
}

#[test]
fn image_url_of_own_picture() {
    let segs = vec![text("对称 左"), image(Some("http://a/1.png"))];
    assert_eq!(get_image_url(&segs, true), Some("http://a/1.png".to_string()));
    assert_eq!(get_image_url(&segs, false), Some("http://a/1.png".to_string()));
}

#[test]
fn image_url_skips_images_without_address() {
    let segs = vec![image(None), image(Some("u2"))];
    assert_eq!(get_image_url(&segs, true), Some("u2".to_string()));
    assert_eq!(get_image_url(&vec![image(None)], true), None);
}

#[test]
fn image_url_of_quoted_picture() {
    let segs = vec![reply(Some(vec![text("hi"), image(Some("quoted"))])), text("对称 左")];
    assert_eq!(get_image_url(&segs, true), Some("quoted".to_string()));
    assert_eq!(get_image_url(&segs, false), None);
}

#[test]
fn image_url_first_match_wins() {
    let segs = vec![reply(Some(vec![image(Some("quoted"))])), image(Some("own"))];
    assert_eq!(get_image_url(&segs, true), Some("quoted".to_string()));
    let segs = vec![reply(Some(vec![text("no picture")])), image(Some("own"))];
    assert_eq!(get_image_url(&segs, true), Some("own".to_string()));
    let segs = vec![reply(None), image(Some("own"))];
    assert_eq!(get_image_url(&segs, true), Some("own".to_string()));
}

#[test]
fn image_url_does_not_search_nested_quotes() {
    let nested = reply(Some(vec![image(Some("deep"))]));
    let segs = vec![reply(Some(vec![nested]))];
    assert_eq!(get_image_url(&segs, true), None);
}

fn groups_with(g: &str) -> GroupSet {
    let mut groups = GroupSet::new();
    groups.insert(g.to_string());
    groups
}

fn summary(rs: &[Reaction]) -> Vec<String> {
    rs.iter()
        .map(|r| match r {
            Reaction::Face(f) => format!("face:{}", f),
            Reaction::Emoji(c) => format!("emoji:{}", c),
        })
        .collect()
}

#[test]
fn reactions_for_faces_and_emoji() {
    let groups = groups_with("42");
    let mut emojis = EmojiSet::new();
    emojis.handle_admin_text("$emoji+=😀");
    emojis.handle_admin_text("$emoji+=👍");
    let segs = vec![
        text("a😀b👍😀"),
        face("14"),
        seg("image"),
        Segment { face_id: None, ..seg("face") },
        text("😁"),
    ];
    let out = plan_reactions(&groups, &"42".to_string(), &segs, &emojis);
    assert_eq!(
        summary(&out),
        vec!["emoji:128512", "emoji:128077", "emoji:128512", "face:14"]
    );
}

#[test]
fn no_reactions_outside_enabled_groups() {
    let groups = groups_with("42");
    let emojis = EmojiSet::new();
    let segs = vec![face("14")];
    assert!(plan_reactions(&groups, &"43".to_string(), &segs, &emojis).is_empty());
}

#[test]
fn symmetry_job_when_all_present() {
    let groups = groups_with("42");
    let segs = vec![text("对称 右"), image(Some("u"))];
    let job = plan_symmetry(&groups, &"42".to_string(), Some("对称 右"), &segs).unwrap();
    assert_eq!(job.direction, "右");
    assert_eq!(job.url, "u");
}

#[test]
fn no_symmetry_job_when_something_is_missing() {
    let groups = groups_with("42");
    let segs = vec![image(Some("u"))];
    assert!(plan_symmetry(&groups, &"7".to_string(), Some("对称 右"), &segs).is_none());
    assert!(plan_symmetry(&groups, &"42".to_string(), None, &segs).is_none());
    assert!(plan_symmetry(&groups, &"42".to_string(), Some("对称右"), &segs).is_none());
    assert!(plan_symmetry(&groups, &"42".to_string(), Some("对称 右"), &vec![text("x")]).is_none());
}
