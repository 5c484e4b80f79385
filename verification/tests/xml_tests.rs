use wn3::xmlsink::XmlSink;

#[test]
fn xml_it_works() {
    let mut xml = XmlSink::new();
    xml.mkel("aaa", &vec![("attr".to_string(), "val".to_string())]);
    xml.mkel("bbb", &vec![]);
    xml.write_field("ccc");
    xml.close_el("bbb");
    xml.close_el("aaa");
    let out = xml.finish();
    let expected = "<?xml version=\"1.0\"?>\n\n<aaa attr=\"val\"><bbb>ccc</bbb></aaa>";
    assert_eq!(out, expected);
}

#[test]
fn xml_selfclosed_and_escaping() {
    let mut xml = XmlSink::new_xhtml();
    xml.mkel_selfclosed(
        "link",
        &vec![("href".to_string(), "a<b&c".to_string())],
    );
    let out = xml.finish();
    assert_eq!(
        out,
        "<?xml version=\"1.0\" encoding=\"UTF-8\"?>\n<!DOCTYPE html>\n\n<link href=\"a&lt;b&amp;c\" />"
    );
}

#[test]
fn xml_finish_closes_open_elements() {
    let mut xml = XmlSink::new();
    let empty: Vec<(String, String)> = Vec::new();
    xml.mkel("aaa", &empty);
    xml.mkel("bbb", &empty);
    xml.write_field("x");
    let out = xml.finish();
    assert_eq!(out, "<?xml version=\"1.0\"?>\n\n<aaa><bbb>x</bbb></aaa>");
}
