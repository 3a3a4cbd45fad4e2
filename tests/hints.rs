use jacarex::{find_hint, playground_hints, CommandHint};

#[test]
fn playground_offers_each_command() {
    let hints = playground_hints();
    let shown: Vec<&str> = hints.iter().map(|h| h.display()).collect();
    assert_eq!(shown, vec!["#help", "#clear", "#readfile", "#addline", "#addword"]);
    for h in &hints {
        assert_eq!(h.complete_up_to, h.display.len());
    }
}

#[test]
fn hint_completes_rest_of_command() {
    let hints = playground_hints();
    let h = find_hint(&hints, "#he", 3).unwrap();
    assert_eq!(h.display(), "lp");
    assert_eq!(h.completion(), Some("lp"));
    let h = find_hint(&hints, "#add", 4).unwrap();
    assert_eq!(h.display(), "line");
    assert_eq!(h.complete_up_to, 4);
}

#[test]
fn no_hint_mid_line_empty_or_unknown() {
    let hints = playground_hints();
    assert!(find_hint(&hints, "#help", 2).is_none());
    assert!(find_hint(&hints, "", 0).is_none());
    assert!(find_hint(&hints, "#x", 2).is_none());
}

#[test]
fn full_command_hints_nothing_more() {
    let hints = playground_hints();
    let h = find_hint(&hints, "#clear", 6).unwrap();
    assert_eq!(h.display(), "");
    assert_eq!(h.completion(), None);
}

#[test]
fn suffix_strips_and_saturates() {
    let h = CommandHint::new("#readfile", "#read");
    assert_eq!(h.complete_up_to, 5);
    let s = h.suffix(2);
    assert_eq!(s.display(), "eadfile");
    assert_eq!(s.complete_up_to, 3);
    assert_eq!(s.completion(), Some("ead"));
    let t = h.suffix(7);
    assert_eq!(t.display(), "le");
    assert_eq!(t.complete_up_to, 0);
    assert_eq!(t.completion(), None);
}

#[test]
fn hint_offsets_count_bytes() {
    let h = CommandHint::new("é!", "é");
    assert_eq!(h.complete_up_to, 2);
    assert_eq!(h.completion(), Some("é"));
    let s = h.suffix(2);
    assert_eq!(s.display(), "!");
    assert_eq!(s.complete_up_to, 0);
    let whole = CommandHint::new("é!", "é!");
    assert_eq!(whole.completion(), Some("é!"));
    let t = whole.suffix(2);
    assert_eq!(format!("{}{}", &"é!"[..2], t.display()), "é!");
    assert_eq!(t.complete_up_to, 1);
    assert_eq!(t.completion(), Some("!"));
}

#[test]
fn hint_for_multibyte_line_strips_its_bytes() {
    let hints = vec![CommandHint::new("#héllo", "#héllo")];
    let h = find_hint(&hints, "#hé", 4).unwrap();
    assert_eq!(h.display(), "llo");
    assert_eq!(h.complete_up_to, 3);
}
