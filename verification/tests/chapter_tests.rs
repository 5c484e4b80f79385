use wn3::chapter::ChapterBuilder;
use wn3::style::SpanStyle;

#[test]
fn chapter_it_works() {
    let mut builder = ChapterBuilder::new();
    builder.title_set("it works".to_string());
    builder.add_text("hello, ".to_string());
    builder.add_text_styled("world".to_string(), SpanStyle::bold());
    builder.add_text("!".to_string());
    let chapter = builder.finish().unwrap();
    let expected = "<h2>it works</h2>\n<p>hello, <b>world</b>!</p>";
    assert_eq!(chapter.render_xml(), expected);
}

#[test]
fn multiple_paragraphs() {
    let mut builder = ChapterBuilder::new();
    builder.title_set("multiple paragraphs".to_string());
    builder.add_text("hello, ".to_string());
    builder.add_text("world".to_string());
    builder.add_text_styled("!".to_string(), SpanStyle::bold());
    builder.paragraph_finish();
    builder.add_text("paragraph 2".to_string());
    builder.paragraph_finish();
    builder.add_text("paragraph 3".to_string());
    let chapter = builder.finish().unwrap();
    let expected = "<h2>multiple paragraphs</h2>\n<p>hello, world<b>!</b></p>\n<p>paragraph 2</p>\n<p>paragraph 3</p>";
    assert_eq!(chapter.render_xml(), expected);
}

#[test]
fn transitions() {
    let mut builder = ChapterBuilder::new();
    builder.title_set("transitions".to_string());
    builder.add_text("aaa".to_string());
    builder.add_text_styled("bbb".to_string(), SpanStyle::bold_italic());
    builder.span_style_set(SpanStyle::bold());
    builder.add_text_styled("ccc".to_string(), SpanStyle::bold());
    builder.add_text_styled("ddd".to_string(), SpanStyle::italic());
    builder.add_text("eee".to_string());
    builder.add_text("fff".to_string());
    builder.span_style_reset();
    builder.add_text("ggg".to_string());
    builder.add_text("hhh".to_string());
    let chapter = builder.finish().unwrap();
    let expected = "<h2>transitions</h2>\n<p>aaa<b><i>bbb</i>ccc</b><i>ddd</i><b>eeefff</b>ggghhh</p>";
    assert_eq!(chapter.render_xml(), expected);
}

#[test]
fn markdown() {
    let mut builder = ChapterBuilder::new();
    builder.title_set("markdown".to_string());
    builder.add_text("hello, ".to_string());
    builder.add_text("world".to_string());
    builder.span_style_set(SpanStyle::bold());
    builder.add_text("!".to_string());
    builder.paragraph_finish();
    builder.add_text("paragraph 2".to_string());
    builder.paragraph_finish();
    builder.add_text("paragraph 3".to_string());
    let chapter = builder.finish().unwrap();
    let expected = "# markdown\n\nhello, world**!**\n\nparagraph 2\n\nparagraph 3";
    assert_eq!(chapter.render_md(), expected);
}

#[test]
fn finish_errors() {
    let builder = ChapterBuilder::new();
    let err = builder.finish().unwrap_err();
    assert!(err.missing_title);
    assert!(err.empty);
    assert!(!err.unresolved_resources);

    let mut builder = ChapterBuilder::new();
    builder.add_text("content".to_string());
    let err = builder.finish().unwrap_err();
    assert!(err.missing_title);
    assert!(!err.empty);
}

#[test]
fn escaping_body_text() {
    let mut builder = ChapterBuilder::new();
    builder.title_set("esc".to_string());
    builder.add_text("a < b & c > d".to_string());
    let chapter = builder.finish().unwrap();
    assert_eq!(
        chapter.render_xml(),
        "<h2>esc</h2>\n<p>a &lt; b &amp; c &gt; d</p>"
    );
}

#[test]
fn inline_text_size_counts_bytes() {
    let ascii = wn3::chapter::InlineElement::Text(String::from("hello"));
    assert_eq!(ascii.size(), 5);
    let accented = wn3::chapter::InlineElement::Text(String::from("héllo"));
    assert_eq!(accented.size(), 6);
    let kana = wn3::chapter::InlineElement::Text(String::from("かな"));
    assert_eq!(kana.size(), 6);
}
