use wn3::package::{IdentifierType, ManifestItem, ManifestProperties, OpfBuilder};

#[test]
fn package_it_works() {
    let mut builder = OpfBuilder::new();
    builder.title = wn3::settings::Setting::Override("test".to_string());
    builder.manifest = vec![
        ManifestItem::try_new("nav.xhtml".to_string()).unwrap(),
        ManifestItem::try_new("chapter-1.xhtml".to_string()).unwrap(),
    ];
    builder.add_identifier(IdentifierType::Isbn13, "978-1-56619-909-4".to_string());
    builder.finish().unwrap();
}

#[test]
fn manifest_item_ids() {
    assert_eq!(
        ManifestItem::try_new("assets/cover.png".to_string())
            .unwrap()
            .id(),
        "cover"
    );
    assert_eq!(
        ManifestItem::try_new("book.xhtml".to_string()).unwrap().id(),
        "book"
    );
    assert_eq!(
        ManifestItem::try_new("chapter_1.xhtml".to_string())
            .unwrap()
            .id(),
        "chapter_1"
    );
    assert_eq!(
        ManifestItem::try_new("part1/images/im1.png".to_string())
            .unwrap()
            .id(),
        "im1"
    );
    assert!(ManifestItem::try_new("noext".to_string()).is_none());
    assert!(ManifestItem::try_new("bad.fmt".to_string()).is_none());
}

#[test]
fn manifest_properties_attribute() {
    assert!(ManifestProperties::empty().attribute_val().is_none());
    let mut p = ManifestProperties::empty();
    p.scripted = true;
    assert_eq!(p.attribute_val().unwrap(), "scripted");
    let mut p = ManifestProperties::empty();
    p.remote_resources = true;
    assert_eq!(p.attribute_val().unwrap(), "remote-resources");
    let mut p = ManifestProperties::empty();
    p.remote_resources = true;
    p.svg = true;
    p.cover_image = true;
    assert_eq!(p.attribute_val().unwrap(), "remote-resources svg cover-image");
}

#[test]
fn finish_rejects_bad_manifests() {
    // no identifiers, no nav
    let builder = OpfBuilder::new();
    let err = builder.finish().unwrap_err();
    assert!(err.no_identifiers);
    assert!(err.no_nav);

    // duplicate items
    let mut builder = OpfBuilder::new();
    builder.manifest = vec![
        ManifestItem::try_new("nav.xhtml".to_string()).unwrap(),
        ManifestItem::try_new("a/ch.xhtml".to_string()).unwrap(),
        ManifestItem::try_new("b/ch.xhtml".to_string()).unwrap(),
    ];
    builder.add_identifier(IdentifierType::Adhoc, "x".to_string());
    let err = builder.finish().unwrap_err();
    assert!(err.duplicate_manifest_item);

    // two navigation documents
    let mut builder = OpfBuilder::new();
    builder.manifest = vec![
        ManifestItem::try_new("nav.xhtml".to_string()).unwrap(),
        ManifestItem::try_new("extra/nav.xhtml".to_string()).unwrap(),
    ];
    builder.add_identifier(IdentifierType::Adhoc, "x".to_string());
    let err = builder.finish().unwrap_err();
    assert!(err.multiple_nav);
}
