use wn3::rules::{is_hr, is_hr_text, is_lozenge_line, scene_sep_of, strip_leading_note, ParaFlags};
use wn3::walk::DomNode;

fn p(text: &str) -> DomNode {
    DomNode::Element {
        name: "p".to_string(),
        matches: vec![],
        children: vec![DomNode::Text(text.to_string())],
    }
}

#[test]
fn is_hr_works() {
    assert!(is_hr(&p("-")));
    assert!(is_hr(&p("--")));
    assert!(is_hr(&p("---")));
    assert!(is_hr(&p("===")));
    assert!(is_hr(&p("\u{2014}\u{2014}-")));
    assert!(is_hr(&p("\u{2014}\u{2014}- ")));
    assert!(is_hr(&p("\u{2014}\u{2014}\u{2013}")));
    assert!(is_hr(&p("\u{2014}-")));
    assert!(is_hr(&p("\u{2014}")));
    assert!(!is_hr(&p("\u{2014}Great Forest\u{2014}")));
    assert!(!is_hr(&DomNode::Element {
        name: "p".to_string(),
        matches: vec![],
        children: vec![],
    }));
    assert!(is_hr(&DomNode::Element {
        name: "hr".to_string(),
        matches: vec![],
        children: vec![],
    }));
}

#[test]
fn hr_text_cases() {
    assert!(is_hr_text(" --- "));
    assert!(!is_hr_text(""));
    assert!(!is_hr_text("   "));
    assert!(!is_hr_text("-a-"));
}

#[test]
fn scene_separators() {
    assert_eq!(scene_sep_of("\u{25c7}Interlude\u{25c7}").as_deref(), Some("Interlude"));
    assert_eq!(scene_sep_of("\u{25c7} The Forest \u{25c7}  ").as_deref(), Some("The Forest"));
    assert_eq!(scene_sep_of("\u{25c7}no closer").as_deref(), Some("no closer"));
    assert_eq!(scene_sep_of("\u{25c7}\u{25c7}").as_deref(), Some(""));
    assert!(scene_sep_of("plain text").is_none());
    assert!(scene_sep_of("\u{25c7}a\u{25c7}tail").is_none());

    assert!(is_lozenge_line(" \u{25c7}\u{25c7} "));
    assert!(!is_lozenge_line("\u{25c7}x"));
    assert!(!is_lozenge_line(" "));
}

#[test]
fn leading_note_strip() {
    let p = |excluded, hr| ParaFlags { excluded, hr };
    // a short note up to the separator is skipped
    assert_eq!(strip_leading_note(&vec![p(false, false), p(false, false), p(false, true), p(false, false)]), 3);
    // excluded paragraphs do not count against the limit check position
    assert_eq!(strip_leading_note(&vec![p(true, false), p(false, true), p(false, false)]), 2);
    // a separator only after more than ten paragraphs is distrusted
    let mut long: Vec<ParaFlags> = std::iter::repeat(p(false, false)).take(11).collect();
    long.push(p(false, true));
    assert_eq!(strip_leading_note(&long), 0);
    // a note running past twenty-five paragraphs is distrusted
    let very_long: Vec<ParaFlags> = std::iter::repeat(p(false, false)).take(30).collect();
    assert_eq!(strip_leading_note(&very_long), 0);
}
