use scraper::{Html, Selector};
use wn3::sed::Sed;

#[test]
fn sed_it_works() {
    let fragment = Html::parse_fragment("<div>foo</div>");
    let sed = Sed::new("d;html > div/foo/").unwrap();
    assert!(sed.should_delete(&fragment.root_element().child_elements().next().unwrap()));
}

fn should_delete_case(html: &str, sed: &str, should: bool) {
    let fragment = Html::parse_fragment(html);
    assert!(fragment.errors.is_empty());
    let sed = Sed::new(sed).unwrap();
    let root = fragment
        .root_element()
        .child_elements()
        .next()
        .expect("should have child");
    assert_eq!(root.value().name(), "div");
    assert!(should == sed.should_delete(&root));
}

#[test]
fn should_delete() {
    should_delete_case("<div></div>", "d;div", true);
    should_delete_case("<div>foo</div>", "d;div", true);
    should_delete_case("<div><span></span></div>", "d;div", true);
    should_delete_case("<div><span>foo</span></div>", "d;div", true);
    should_delete_case("<div><span>foo</span></div>", "d;div", true);
    should_delete_case("<div><span>foo</span></div>", "d;div/foo/", true);
    should_delete_case("<div><span>foo</span></div>", "d;div/bar/", false);
    should_delete_case("<div><span>foo</span></div>", "d;div/^f/", true);
    should_delete_case("<div><span>foo</span></div>", "d;div/^o/", false);
    should_delete_case("<div><span>foo</span></div>", "d;div/foo/", true);
}

fn should_delete_adv_case(html: &str, sed: &str, should: bool) {
    let fragment = Html::parse_fragment(html);
    assert!(fragment.errors.is_empty());
    let sed = Sed::new(sed).unwrap();
    let sel = Selector::parse("#x").unwrap();
    let el = fragment.select(&sel).next().unwrap();
    assert!(should == sed.should_delete(&el));
}

#[test]
fn should_delete_adv() {
    should_delete_adv_case(r#"<div><span id="x"></span></div>"#, "d;div > span", true);
    should_delete_adv_case(r#"<div><span id="x">foo</span></div>"#, "d;div > span", true);
    should_delete_adv_case(
        r#"<div><span id="x">foo</span></div>"#,
        "d;div > span/foo/",
        true,
    );
    should_delete_adv_case(
        r#"<div><span id="x">foo</span></div>"#,
        "d;div > span/bar/",
        false,
    );
    should_delete_adv_case(
        r#"<div><span id="x">foo</span></div>"#,
        "d;div > span/o/",
        true,
    );
    should_delete_adv_case(
        r#"<div><span id="x">foo</span></div>"#,
        "d;div > span/^f/",
        true,
    );
    should_delete_adv_case(
        r#"<div><span id="x">foo</span></div>"#,
        "d;div > span/^o/",
        false,
    );
    should_delete_adv_case(
        r#"<div><p></p><span id="x">foo</span></div>"#,
        "d;div > p + span/foo/",
        true,
    );
    should_delete_adv_case(
        r#"<div><span id="x">foo</span></div>"#,
        "d;div > p + span/foo/",
        false,
    );
}

#[test]
fn parse_fail() {
    let cases = vec![
        "", "/", "s/", "s/./", "d///", "d//", "s", "d", "p/", "p//", "p;div", "P/", "ds//",
        "sd///", "d/(/", "d /(/", "d;/./", "d;",
    ];
    let res: Vec<_> = cases
        .into_iter()
        .map(|c| (c, Sed::new(c)))
        .flat_map(|(c, sed)| sed.ok().map(|_| c))
        .collect();
    assert!(res.is_empty(), "cases incorrectly parsed: {res:#?}");
}

#[test]
fn parse_succ() {
    let cases = vec![
        "/./",
        ";*/./",
        ";*",
        "s/.//",
        "s/./foo/",
        "s/.*/foo/",
        "s/^.*$?/foo/",
        "s/^.*$?//",
        "d/./",
        "d;div/./",
        "d;div",
        "P;div",
    ];
    let res: Vec<_> = cases
        .into_iter()
        .map(|c| (c, Sed::new(c)))
        .flat_map(|(c, sed)| sed.err().map(|e| format!("{c} => {}", e.message())))
        .collect();
    assert!(res.is_empty(), "cases incorrectly failed to parse: {res:#?}");
}

fn replacing_case(start: &str, sed: &str, expected: &str) {
    let sed = Sed::new(sed).unwrap();
    assert_eq!(sed.apply_text(start), expected);
}

#[test]
fn replacing() {
    replacing_case("TLN asdf", "s/TLN //", "asdf");
    replacing_case("TLN asdf", "s/TLN.*$//", "");
    replacing_case(" TLN", "s/^TLN//", " TLN");
}

#[test]
fn replacing_idempotent() {
    let sed = Sed::new("s/TLN //").unwrap();
    let once = sed.apply_text("TLN asdf");
    assert_eq!(once, "asdf");
    let twice = sed.apply_text(once.as_str());
    assert_eq!(twice, "asdf");
}

fn idempotent_display_case(s: &str) {
    assert_eq!(Sed::new(s).unwrap().render(), s);
    let sed = Sed::new(s).unwrap();
    assert_eq!(Sed::new(&sed.render()).unwrap(), sed);
}

#[test]
fn idempotent_display() {
    idempotent_display_case("d;div.entry-content > p:not(:nth-of-type(4) ~ *)/enjoy/");
    idempotent_display_case("s;div.entry-content > p:not(:nth-of-type(4) ~ *)/enjoy/goodbye/");
}

fn apply_full_delete_case(start: &str, end: &str, sed: &str) {
    let sed = Sed::new(sed).unwrap();
    assert!(sed.is_del());
    let start = format!("<!DOCTYPE HTML> <html> <head></head> <body> {start} </body> </html>");
    let end = format!("<!DOCTYPE HTML> <html> <head></head> <body> {end} </body> </html>");
    let mut start = Html::parse_document(&start);
    sed.apply_full_expensive(&mut start);
    let actual = start;
    let expected = Html::parse_document(&end);
    assert_eq!(actual.html(), expected.html());
}

#[test]
fn apply_full_delete() {
    apply_full_delete_case("<p></p>", "", "d;p");
    apply_full_delete_case("<p></p><p></p>", "", "d;p");
    apply_full_delete_case(r#"<p id="x"></p><p></p>"#, "<p></p>", "d;p#x");
    apply_full_delete_case(
        r#"<div><div></div></div><div><div></div></div>"#,
        "<div></div><div></div>",
        "d;div > div",
    );
    apply_full_delete_case(
        r#"<div><div></div></div><div><div></div></div>"#,
        "",
        "d;body > div",
    );
}

#[test]
fn apply_full_substitute() {
    let sed = Sed::new("s;p/TLN/Note/").unwrap();
    let mut html = Html::parse_document("<html><body><p>a TLN here</p><div>TLN kept</div></body></html>");
    sed.apply_full_expensive(&mut html);
    let out = html.html();
    assert!(out.contains("a Note here"));
    assert!(out.contains("TLN kept"));
}

#[test]
fn matcher_contains_match() {
    let sed = Sed::new_matcher(";div/foo/").unwrap();
    let html = Html::parse_fragment("<div><span>foo</span></div>");
    assert!(sed.contains_match(&html.root_element()));
    let sed2 = Sed::new_matcher(";div/bar/").unwrap();
    assert!(!sed2.contains_match(&html.root_element()));
    assert!(Sed::new_matcher("d;div").is_err());
}

#[test]
fn parent_css_match_walks_up() {
    let fragment = Html::parse_fragment(r#"<div class="outer"><p><span id="x">t</span></p></div>"#);
    let sel = Selector::parse("#x").unwrap();
    let el = fragment.select(&sel).next().unwrap();

    // the element itself matches
    let sed = Sed::new(";span/t/").unwrap();
    let hit = sed.parent_css_match(&el).unwrap();
    assert_eq!(hit.value().name(), "span");

    // an ancestor matches
    let sed = Sed::new(";div.outer/t/").unwrap();
    let hit = sed.parent_css_match(&el).unwrap();
    assert_eq!(hit.value().name(), "div");

    // nothing in the chain matches
    let sed = Sed::new(";article/t/").unwrap();
    assert!(sed.parent_css_match(&el).is_none());

    // without a selector the element itself comes back
    let sed = Sed::new("/t/").unwrap();
    let hit = sed.parent_css_match(&el).unwrap();
    assert_eq!(hit.value().name(), "span");
}

#[test]
fn matcher_with_selector_only() {
    let sed = Sed::new_matcher(";span").unwrap();
    let html = Html::parse_fragment("<div><span>x</span></div>");
    assert!(sed.contains_match(&html.root_element()));
    let html = Html::parse_fragment("<div><p>x</p></div>");
    assert!(!sed.contains_match(&html.root_element()));
}

#[test]
fn predicates_by_operation() {
    let sed = Sed::new("s/a/b/").unwrap();
    assert!(sed.is_sub());
    assert!(sed.is_destructive());
    assert!(!sed.is_del());
    assert!(!sed.is_matcher());
    assert!(!sed.is_print_any());
    let sed = Sed::new("p/a/").unwrap();
    assert!(sed.is_print() && sed.is_print_any() && !sed.is_print_all());
    let sed = Sed::new("P;div").unwrap();
    assert!(sed.is_print_all() && sed.is_print_any() && !sed.is_print());
    let sed = Sed::new("d;div").unwrap();
    assert!(sed.is_del() && sed.is_destructive());

    // a non-substitution leaves text unchanged
    assert_eq!(sed.apply_text("anything"), "anything");
}

#[test]
fn print_matches_with_selector() {
    let html = Html::parse_document(
        r#"<html><body><div class="a"><p>foo bar foo</p></div><p>foo kept</p></body></html>"#,
    );
    let root = html.root_element();
    let sed = Sed::new("p;div.a/foo/").unwrap();
    assert!(sed.is_print());
    let ms = sed.print_matches(&root);
    assert_eq!(ms, vec!["foo".to_owned(), "foo".to_owned()]);
}

#[test]
fn print_matches_without_selector() {
    let html = Html::parse_document("<html><body><p>one 12 two 345</p></body></html>");
    let root = html.root_element();
    let sed = Sed::new("p/[0-9]+/").unwrap();
    let ms = sed.print_matches(&root);
    assert_eq!(ms, vec!["12".to_owned(), "345".to_owned()]);
}

#[test]
fn print_matches_nothing_on_no_match() {
    let html = Html::parse_document("<html><body><p>plain</p></body></html>");
    let root = html.root_element();
    let sed = Sed::new("p/[0-9]+/").unwrap();
    assert_eq!(sed.print_matches(&root), Vec::<String>::new());
}
