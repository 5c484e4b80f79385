use wn3::bookdef::BookDef;
use wn3::epubcheck::{Code, EpubcheckResult, Message, Severity};
use wn3::image::Image;
use wn3::escape::{escape, EscapeKind};
use wn3::implies::Implies;
use wn3::lang::{Lang, StrLang};
use wn3::media::MediaType;

#[test]
fn escape_kinds() {
    assert_eq!(escape(EscapeKind::Body, "a<b>&c"), "a&lt;b&gt;&amp;c");
    assert_eq!(escape(EscapeKind::Attr, "say \"hi\""), "say \\\"hi\\\"");
    assert_eq!(escape(EscapeKind::Md, "a*b[c]`d\\e"), "a\\*b\\[c\\]\\`d\\\\e");
    assert_eq!(escape(EscapeKind::Body, "plain"), "plain");
}

#[test]
fn lang_round_trip() {
    assert_eq!(Lang::new("en"), Some(Lang::En));
    assert_eq!(Lang::new("ja"), Some(Lang::Ja));
    assert_eq!(Lang::new("xx"), None);
    assert_eq!(Lang::De.as_str(), "de");
}

#[test]
fn strlang_alts() {
    let mut s = StrLang::new(Lang::En, "Title".to_string());
    assert!(s.no_alts());
    s.set_alt(Lang::Ja, "題".to_string());
    assert!(!s.no_alts());
    assert_eq!(s.for_lang(Lang::Ja).unwrap(), "題");
    assert_eq!(s.for_lang(Lang::En).unwrap(), "Title");
    assert!(s.for_lang(Lang::De).is_none());
    // overwriting an existing alternate
    s.set_alt(Lang::Ja, "表題".to_string());
    assert_eq!(s.for_lang(Lang::Ja).unwrap(), "表題");
    // try_set_alt refuses an existing language
    assert!(s.try_set_alt(Lang::Ja, "x".to_string()).is_err());
    assert!(s.try_set_alt(Lang::Zh, "题".to_string()).is_ok());
    assert_eq!(s.iter().len(), 3);
    // the primary language cannot change once alternates exist
    assert!(s.set_primary_lang(Lang::De).is_err());
}

#[test]
fn media_types() {
    assert_eq!(MediaType::try_new(0), Some(MediaType::Xhtml));
    assert_eq!(MediaType::try_new(8), Some(MediaType::Html));
    assert_eq!(MediaType::try_new(9), None);
    assert_eq!(MediaType::Jpg.mime(), "image/jpeg");
    assert_eq!(MediaType::from_str("image/png"), MediaType::Png);
    assert!(MediaType::Png.is_image());
    assert!(!MediaType::Css.is_image());
}

#[test]
fn severity_and_code_parsing() {
    assert_eq!(Severity::from_str("ERROR").unwrap(), Severity::Error);
    assert!(Severity::from_str("error").is_err());
    let code = Code::from_str("RSC-005").unwrap();
    assert_eq!(code.render(), "RSC-5");
    assert_eq!(code.num, 5);
    assert!(Code::from_str("RSC005").is_err());
    assert!(Code::from_str("RSC-0x5").is_err());

    let report = EpubcheckResult {
        most_severe: Some(Severity::Warning),
        msgs: vec![],
    };
    assert!(!report.is_error());
    // a warning is within an Error tolerance, so the report is surfaced
    assert!(report.as_result(Severity::Error).is_err());
    // but lies above a Usage tolerance
    assert!(report.as_result(Severity::Usage).is_ok());
}

#[test]
fn implication() {
    assert!(false.implies(false));
    assert!(false.implies(true));
    assert!(!true.implies(false));
    assert!(true.implies(true));
}

#[test]
fn image_ids_are_stable() {
    let a = Image::new("https://example.com/img.png".to_string());
    let b = Image::new("https://example.com/img.png".to_string());
    let c = Image::new("https://example.com/other.png".to_string());
    assert_eq!(a.id(), b.id());
    assert_ne!(a.id(), c.id());
    let rendered = a.id().render();
    assert!(rendered.starts_with("image_"));
    assert_eq!(rendered.len(), "image_".len() + 16);
}

#[test]
fn book_def_todo_markers() {
    let def = BookDef {
        file: None,
        language: Lang::En,
        title: StrLang::new(Lang::En, "TODO".to_string()),
        author: StrLang::new(Lang::En, "Someone".to_string()),
        subtitle: None,
        homepage: "https://example.com".to_string(),
        cover_image: None,
        translator: None,
        content: vec![],
        overrides: vec![],
        sections: vec![],
    };
    assert!(def.has_todo_markers());
    assert!(def.validate().is_ok());
}

#[test]
fn epubcheck_error_string_lists_messages() {
    let report = EpubcheckResult {
        most_severe: Some(Severity::Error),
        msgs: vec![
            Message {
                code: Code::from_str("RSC-005").unwrap(),
                sev: Severity::Error,
                msg: "bad reference".to_string(),
            },
            Message {
                code: Code::from_str("OPF-014").unwrap(),
                sev: Severity::Warning,
                msg: "odd property".to_string(),
            },
        ],
    };
    let err = report.as_result(Severity::Error).unwrap_err();
    assert_eq!(
        err,
        "epubcheck errors:\n        ERROR(RSC-5): bad reference\n        WARNING(OPF-14): odd property"
    );
}
