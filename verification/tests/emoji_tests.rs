use botofgreed::emoji::{find_unused_emoji, pick_unused_emoji, unicode_reaction_names, ReactionKind};

fn strings(v: &[&str]) -> Vec<String> {
    v.iter().map(|s| s.to_string()).collect()
}

#[test]
fn pick_first_emoji_without_reactions() {
    assert_eq!(pick_unused_emoji(&strings(&["a", "b"]), &vec![]), Some(0));
    assert_eq!(pick_unused_emoji(&vec![], &vec![]), None);
}

#[test]
fn pick_skips_used_emojis_in_order() {
    assert_eq!(pick_unused_emoji(&strings(&["a", "b", "c"]), &strings(&["a", "b"])), Some(2));
    assert_eq!(pick_unused_emoji(&strings(&["a", "b"]), &strings(&["a", "b"])), None);
}

#[test]
fn pick_scans_reactions_once() {
    // `b` is a reaction, but it stands before `a`, where the scan for `a`
    // stopped; the scan for `b` starts after it and does not find it.
    assert_eq!(pick_unused_emoji(&strings(&["a", "b", "c"]), &strings(&["b", "a"])), Some(1));
}

#[test]
fn unicode_reactions_only() {
    let rs = vec![
        ReactionKind::Unicode("x".to_string()),
        ReactionKind::Custom,
        ReactionKind::Unicode("y".to_string()),
    ];
    assert_eq!(unicode_reaction_names(&rs), strings(&["x", "y"]));
}

#[test]
fn find_unused_emoji_uses_emoji_list() {
    let first = emojis::iter().next().unwrap().as_str().to_string();
    let second = emojis::iter().nth(1).unwrap().as_str().to_string();
    assert_eq!(find_unused_emoji(&vec![]), Some(first.clone()));
    assert_eq!(find_unused_emoji(&vec![ReactionKind::Unicode(first.clone())]), Some(second));
    assert_eq!(find_unused_emoji(&vec![ReactionKind::Custom]), Some(first));
}

#[test]
fn emoji_list_is_the_crate_list() {
    let expected: Vec<String> = emojis::iter().map(|e| e.as_str().to_string()).collect();
    assert_eq!(botofgreed::emoji::emoji_list(), expected);
}
