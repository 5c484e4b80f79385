use wn3::book::{chunk_boundaries, chunk_name, write_chunk, write_nav, EpubBuilder};
use wn3::chapter::ChapterBuilder;
use wn3::package::IdentifierType;

fn chapter(n: u32, title: &str, text: &str) -> wn3::chapter::Chapter {
    let mut b = ChapterBuilder::new();
    b.id = n;
    b.title_set(title.to_string());
    b.add_text(text.to_string());
    b.finish().unwrap()
}

#[test]
fn chunking_groups_by_size() {
    // zero chunk size: every chapter starts its own chunk
    assert_eq!(chunk_boundaries(&vec![5, 5, 5], 0), vec![0, 1, 2]);
    // a large limit keeps everything together
    assert_eq!(chunk_boundaries(&vec![5, 5, 5], 100), vec![0]);
    // the chunk breaks once the accumulated size reaches the limit
    assert_eq!(chunk_boundaries(&vec![6, 1, 6, 1], 6), vec![0, 1, 3]);
    assert_eq!(chunk_name(3), "chunk_3.xhtml");
}

#[test]
fn chunk_document_contains_sections() {
    let chapters = vec![chapter(0, "One", "first"), chapter(1, "Two", "second")];
    let doc = write_chunk(&chapters, 0, 2);
    assert!(doc.starts_with("<?xml version=\"1.0\" encoding=\"UTF-8\"?>\n<!DOCTYPE html>"));
    assert!(doc.contains("<section id=\"chapter-0\"><h2>One</h2>\n<p>first</p></section>"));
    assert!(doc.contains("<section id=\"chapter-1\"><h2>Two</h2>\n<p>second</p></section>"));
    assert!(doc.ends_with("</body></html>"));
}

#[test]
fn nav_document_links_chapters() {
    let chapters = vec![chapter(0, "One", "a"), chapter(1, "T<wo", "b")];
    let nav = write_nav("My & Book", &chapters, &vec![0, 1]);
    assert!(nav.contains("<h1>My & Book</h1>"));
    assert!(nav.contains("<li><a href=\"chunk_0.xhtml#chapter-0\">One</a></li>"));
    // chapter titles are escaped, the book title is written raw
    assert!(nav.contains("<li><a href=\"chunk_1.xhtml#chapter-1\">T&lt;wo</a></li>"));
}

#[test]
fn builder_plans_and_renders_package() {
    let mut book = EpubBuilder::new();
    book.set_title("A Book".to_string());
    book.add_author("Someone".to_string());
    book.add_identifier(IdentifierType::Url, "https://example.com/".to_string());
    book.add_chapter(chapter(0, "One", "text"));
    let bounds = book.plan_chunks();
    assert_eq!(bounds, vec![0]);

    book.opf.manifest.push(wn3::package::ManifestItem::new("nav.xhtml".to_string()));
    book.opf.manifest.push(wn3::package::ManifestItem::new("chunk_0.xhtml".to_string()));
    let spec = book.opf.finish().unwrap();
    let doc = spec.render();
    assert!(doc.contains("<dc:title id=\"title_main\">A Book</dc:title>"));
    assert!(doc.contains("<dc:creator id=\"creator000\">Someone</dc:creator>"));
    assert!(doc.contains("<dc:identifier id=\"identifier_0\">https://example.com/</dc:identifier>"));
    assert!(doc.contains("properties=\"nav\""));
    assert!(doc.contains("<spine><itemref idref=\"nav\" />\n<itemref idref=\"chunk_0\" />\n</spine>"));
}
