use wn3::chapter::ChapterBuilder;
use wn3::sed::Sed;
use wn3::walk::{walk_node, DomNode};

fn text(t: &str) -> DomNode {
    DomNode::Text(t.to_string())
}

fn el(name: &str, matches: Vec<bool>, children: Vec<DomNode>) -> DomNode {
    DomNode::Element {
        name: name.to_string(),
        matches,
        children,
    }
}

fn emitted(patterns: &Vec<Sed>, node: &DomNode) -> String {
    let mut levels: Vec<usize> = Vec::new();
    let mut i = 0;
    while i < patterns.len() {
        levels.push(0);
        i += 1;
    }
    let mut ch = ChapterBuilder::new();
    ch.title_set("walk".to_string());
    walk_node(patterns, node, 1, &mut levels, &mut ch);
    // all levels are cleared again once the walk is done
    for l in &levels {
        assert_eq!(*l, 0);
    }
    // a sentinel so even a fully suppressed walk builds a valid chapter
    ch.add_text("[end]".to_string());
    let chapter = ch.finish().unwrap();
    chapter.render_md()
}

#[test]
fn delete_suppresses_whole_subtree() {
    let patterns = vec![Sed::new("d;div.note").unwrap()];
    // the outer element matches the delete rule: nothing under it is
    // emitted, not even text that matches no rule
    let tree = el(
        "div",
        vec![true],
        vec![text("inside "), el("span", vec![false], vec![text("deep")])],
    );
    let out = emitted(&patterns, &tree);
    assert!(!out.contains("inside"));
    assert!(!out.contains("deep"));

    // without the match everything is emitted
    let tree = el(
        "div",
        vec![false],
        vec![text("inside "), el("span", vec![false], vec![text("deep")])],
    );
    let out = emitted(&patterns, &tree);
    assert!(out.contains("inside"));
    assert!(out.contains("deep"));
}

#[test]
fn substitution_scopes_to_subtree() {
    let patterns = vec![Sed::new("s;div.tln/TLN/Note/").unwrap()];
    // the substitution activates on the middle element and applies to its
    // own text and its descendants, but not to its sibling
    let tree = el(
        "body",
        vec![false],
        vec![
            el(
                "div",
                vec![true],
                vec![text("TLN one "), el("span", vec![false], vec![text("TLN two")])],
            ),
            el("div", vec![false], vec![text("TLN sibling")]),
        ],
    );
    let out = emitted(&patterns, &tree);
    assert!(out.contains("Note one"));
    assert!(out.contains("Note two"));
    assert!(out.contains("TLN sibling"));
    assert!(!out.contains("TLN one"));
}

#[test]
fn delete_rolls_back_same_depth_activations() {
    // a non-delete rule and a delete rule match the same element: the
    // element is abandoned and the other rule's activation is rolled back,
    // so the sibling is untouched
    let patterns = vec![
        Sed::new("s;div.x/a/b/").unwrap(),
        Sed::new("d;div.x").unwrap(),
    ];
    let tree = el(
        "body",
        vec![false, false],
        vec![
            el("div", vec![true, true], vec![text("gone a")]),
            el("div", vec![false, false], vec![text("kept a")]),
        ],
    );
    let out = emitted(&patterns, &tree);
    assert!(!out.contains("gone"));
    assert!(out.contains("kept a"));
}
