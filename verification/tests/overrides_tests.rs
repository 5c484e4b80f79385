use wn3::overrides::{OverrideChoice, OverrideTracker};
use wn3::sed::Sed;
use wn3::urlsel::UrlSelection;

fn choice(urls: UrlSelection, title: Option<&str>, rules: Vec<&str>) -> OverrideChoice {
    OverrideChoice {
        urls,
        title: title.map(|t| t.to_string()),
        subs: rules.into_iter().map(|r| Sed::new(r).unwrap()).collect(),
    }
}

#[test]
fn range_contributes_from_start_through_end() {
    let overrides = vec![choice(
        UrlSelection::Range {
            start: "https://example.com/2".to_string(),
            end: "https://example.com/4".to_string(),
        },
        None,
        vec!["s/TLN //"],
    )];
    let mut tracker = OverrideTracker::new(overrides);

    let set = tracker.with_url("https://example.com/1");
    assert!(set.group_ids.is_empty());

    let set = tracker.with_url("https://example.com/2");
    assert_eq!(set.group_ids, vec![0]);

    let set = tracker.with_url("https://example.com/3");
    assert_eq!(set.group_ids, vec![0]);

    let set = tracker.with_url("https://example.com/4");
    assert_eq!(set.group_ids, vec![0]);

    let set = tracker.with_url("https://example.com/5");
    assert!(set.group_ids.is_empty());
}

#[test]
fn single_contributes_exactly_once() {
    let overrides = vec![choice(
        UrlSelection::Url("https://example.com/a".to_string()),
        Some("Special"),
        vec!["d;div"],
    )];
    let mut tracker = OverrideTracker::new(overrides);

    let set = tracker.with_url("https://example.com/a");
    assert_eq!(set.group_ids, vec![0]);
    assert_eq!(set.title.as_deref(), Some("Special"));

    // the same URL again: the entry was consumed
    let set = tracker.with_url("https://example.com/a");
    assert!(set.group_ids.is_empty());
    assert!(set.title.is_none());
}

#[test]
fn list_fans_out_and_deduplicates() {
    let overrides = vec![choice(
        UrlSelection::List(vec![
            "https://example.com/x".to_string(),
            "https://example.com/y".to_string(),
            "https://example.com/x".to_string(),
        ]),
        None,
        vec!["s/a/b/"],
    )];
    let mut tracker = OverrideTracker::new(overrides);

    let set = tracker.with_url("https://example.com/x");
    assert_eq!(set.group_ids, vec![0]);

    let set = tracker.with_url("https://example.com/y");
    assert_eq!(set.group_ids, vec![0]);

    let set = tracker.with_url("https://example.com/x");
    assert!(set.group_ids.is_empty());
}

#[test]
fn groups_are_shared_and_accessible() {
    let overrides = vec![
        choice(
            UrlSelection::Url("https://example.com/a".to_string()),
            None,
            vec!["s/one/1/", "s/two/2/"],
        ),
        choice(
            UrlSelection::Range {
                start: "https://example.com/a".to_string(),
                end: "https://example.com/b".to_string(),
            },
            None,
            vec!["d;div"],
        ),
    ];
    let mut tracker = OverrideTracker::new(overrides);
    let set = tracker.with_url("https://example.com/a");
    // the single entry retires now; the range stays active
    assert_eq!(set.group_ids, vec![0, 1]);
    let rules = tracker.group(set.group_ids[0]);
    assert_eq!(rules.len(), 2);
    assert_eq!(rules[0].render(), "s/one/1/");
    let set = tracker.with_url("https://example.com/b");
    assert_eq!(set.group_ids, vec![1]);
}

#[test]
fn url_selection_as_slice() {
    let u = UrlSelection::Url("https://example.com/0".to_string());
    assert_eq!(u.as_slice().unwrap(), vec!["https://example.com/0".to_string()]);
    let l = UrlSelection::List(vec!["a".to_string(), "b".to_string()]);
    assert_eq!(l.as_slice().unwrap().len(), 2);
    let r = UrlSelection::Range {
        start: "a".to_string(),
        end: "b".to_string(),
    };
    assert!(r.as_slice().is_none());
}
