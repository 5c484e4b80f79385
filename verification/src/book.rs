//! Assembling a whole book: chapters are grouped into document chunks, and
//! the chunk and navigation documents are produced for a packer to write.

use vstd::prelude::*;

use crate::chapter::{spec_chapter_id, Chapter};
use crate::escape::{spec_escape, EscapeKind};
use crate::image::ResolvedImage;
use crate::package::{ContributorRole, IdentifierType, OpfBuilder};
use crate::xmlsink::{attr_views, spec_el_start, spec_xhtml_header, XmlSink};

verus! {

/// How archive content is stored.
#[derive(Clone, Copy, PartialEq, Eq, Structural, Debug)]
pub enum Compression {
    Store,
    Deflate,
}

/// The chunk file name a chunk index maps to.
pub open spec fn spec_chunk_name(i: int) -> Seq<char> {
    "chunk_"@ + crate::chapter::spec_dec(i) + ".xhtml"@
}

/// The chunk file name a chunk index maps to.
pub fn chunk_name(i: u32) -> (r: String)
    ensures
        r@ == spec_chunk_name(i as int),
{
    let mut out: Vec<char> = Vec::new();
    crate::escape::push_str_chars("chunk_", &mut out);
    let d = crate::chapter::dec_chars(i);
    let ghost base = out@;
    let mut k: usize = 0;
    while k < d.len()
        invariant
            k <= d@.len(),
            out@ == base + d@.subrange(0, k as int),
        decreases d@.len() - k,
    {
        out.push(d[k]);
        k = k + 1;
        proof {
            assert(out@ =~= base + d@.subrange(0, k as int));
        }
    }
    crate::escape::push_str_chars(".xhtml", &mut out);
    proof {
        assert(d@ == crate::chapter::spec_dec(i as int));
        assert(out@ =~= spec_chunk_name(i as int));
    }
    crate::strutil::string_from_chars(&out)
}

/// Where each chunk of chapters starts, given the chapters' sizes: a chunk
/// grows until its accumulated size reaches the limit, then the next
/// chapter starts a fresh chunk. The first chapter always starts chunk
/// zero.
pub open spec fn spec_boundaries(sizes: Seq<int>, limit: int, i: int, acc: int) -> Seq<int>
    decreases sizes.len() - i when 1 <= i <= sizes.len()
{
    if i >= sizes.len() {
        Seq::empty()
    } else if acc >= limit {
        seq![i] + spec_boundaries(sizes, limit, i + 1, sizes[i])
    } else {
        spec_boundaries(sizes, limit, i + 1, crate::chapter::sat_add(acc, sizes[i]))
    }
}

/// Where each chunk of chapters starts: index zero, then every index where
/// the accumulated size of the running chunk had already reached the
/// limit.
pub fn chunk_boundaries(sizes: &Vec<usize>, limit: usize) -> (r: Vec<usize>)
    requires
        sizes@.len() >= 1,
    ensures
        r@.len() >= 1,
        r@[0] == 0,
        r@.map_values(|x: usize| x as int).skip(1) == spec_boundaries(
            sizes@.map_values(|x: usize| x as int),
            limit as int,
            1,
            sizes@[0] as int,
        ),
{
    let ghost sv = sizes@.map_values(|x: usize| x as int);
    let mut r: Vec<usize> = Vec::new();
    r.push(0);
    let mut acc: usize = sizes[0];
    let mut i: usize = 1;
    let ghost target = spec_boundaries(sv, limit as int, 1, sizes@[0] as int);
    proof {
        assert(sv[0] == sizes@[0] as int);
        assert(r@.map_values(|x: usize| x as int).skip(1) =~= Seq::<int>::empty());
    }
    while i < sizes.len()
        invariant
            sv == sizes@.map_values(|x: usize| x as int),
            1 <= i <= sv.len(),
            r@.len() >= 1,
            r@[0] == 0,
            acc as int <= usize::MAX,
            r@.map_values(|x: usize| x as int).skip(1) + spec_boundaries(
                sv,
                limit as int,
                i as int,
                acc as int,
            ) == target,
        decreases sv.len() - i,
    {
        let ghost rv = r@.map_values(|x: usize| x as int);
        proof {
            assert(sv[i as int] == sizes@[i as int] as int);
        }
        if acc >= limit {
            r.push(i);
            acc = sizes[i];
            proof {
                assert(r@.map_values(|x: usize| x as int) =~= rv.push(i as int));
                assert(rv.push(i as int).skip(1) =~= rv.skip(1) + seq![i as int]);
                assert(rv.skip(1) + seq![i as int] + spec_boundaries(
                    sv,
                    limit as int,
                    i as int + 1,
                    sv[i as int],
                ) =~= rv.skip(1) + (seq![i as int] + spec_boundaries(
                    sv,
                    limit as int,
                    i as int + 1,
                    sv[i as int],
                )));
            }
        } else {
            acc = crate::chapter::sat_add_usize(acc, sizes[i]);
        }
        i = i + 1;
    }
    proof {
        assert(spec_boundaries(sv, limit as int, sv.len() as int, acc as int) =~= Seq::<
            int,
        >::empty());
        assert(r@.map_values(|x: usize| x as int).skip(1) =~= target);
    }
    r
}


/// What one chunk section renders as: a `section` anchored by the
/// chapter's id, holding the chapter's markup.
pub open spec fn spec_section(c: Chapter) -> Seq<char> {
    spec_el_start("section"@, seq![("id"@, spec_chapter_id(c.id))], false)
        + crate::chapter::spec_chapter_xml(c) + "</"@ + "section"@ + ">"@
}

/// What the sections of a chapter range render as.
pub open spec fn spec_sections(chapters: Seq<Chapter>, i: int, b: int) -> Seq<char>
    decreases b - i when 0 <= i <= b <= chapters.len()
{
    if i >= b {
        Seq::empty()
    } else {
        spec_section(chapters[i]) + spec_sections(chapters, i + 1, b)
    }
}

/// What one chunk document renders as: an XHTML document whose body holds
/// one section per chapter of the chunk.
pub open spec fn spec_chunk_render(chapters: Seq<Chapter>, a: int, b: int) -> Seq<char> {
    spec_xhtml_header() + spec_el_start(
        "html"@,
        seq![
            ("xmlns"@, "http://www.w3.org/1999/xhtml"@),
            ("xmlns:epub"@, "http://www.idpf.org/2007/ops"@),
            ("lang"@, "en"@),
            ("xml:lang"@, "en"@),
            ("epub:prefix"@, "z3998: http://www.daisy.org/z3998/2012/vocab/structure/#"@),
        ],
        false,
    ) + spec_el_start("head"@, Seq::empty(), false) + spec_el_start(
        "link"@,
        seq![
            ("href"@, "css/epub.css"@),
            ("type"@, "text/epub.css"@),
            ("rel"@, "stylesheet"@),
        ],
        true,
    ) + crate::package::el1("title"@, Seq::empty(), "chunk"@) + "</"@ + "head"@ + ">"@
        + spec_el_start("body"@, Seq::empty(), false) + spec_sections(chapters, a, b) + "</"@
        + "body"@ + ">"@ + "</"@ + "html"@ + ">"@
}

/// Writes one chunk document: the chapters from `a` (inclusive) to `b`
/// (exclusive), one section each.
pub fn write_chunk(chapters: &Vec<Chapter>, a: usize, b: usize) -> (r: String)
    requires
        a <= b <= chapters@.len(),
        forall|i: int| a <= i < b ==> (#[trigger] chapters@[i]).wf(),
    ensures
        r@ == spec_chunk_render(chapters@, a as int, b as int),
{
    let mut sink = XmlSink::new_xhtml();
    let empty_attrs: Vec<(String, String)> = Vec::new();
    proof {
        assert(attr_views(empty_attrs@) =~= Seq::<(Seq<char>, Seq<char>)>::empty());
    }
    let attrs = attrs_html();
    sink.mkel("html", &attrs);
    sink.mkel("head", &empty_attrs);
    let attrs = attrs_css_link();
    sink.mkel_selfclosed("link", &attrs);
    sink.mkel("title", &empty_attrs);
    sink.write_field("chunk");
    sink.close_el("title");
    sink.close_el("head");
    sink.mkel("body", &empty_attrs);
    proof {
        assert(sink.open_names() =~= seq!["html"@, "body"@]);
    }
    let ghost base = sink.out@;
    let mut i: usize = a;
    while i < b
        invariant
            a <= i <= b <= chapters@.len(),
            forall|k: int| a <= k < b ==> (#[trigger] chapters@[k]).wf(),
            sink.out@ + spec_sections(chapters@, i as int, b as int) == base + spec_sections(
                chapters@,
                a as int,
                b as int,
            ),
            sink.open_names() == seq!["html"@, "body"@],
        decreases b - i,
    {
        let ghost before = sink.out@;
        let chapter = &chapters[i];
        let attrs = attrs1_owned("id", chapter.id());
        sink.mkel("section", &attrs);
        let content = chapter.render_xml();
        sink.write_field(content.as_str());
        sink.close_el("section");
        proof {
            assert(sink.out@ =~= before + spec_section(chapters@[i as int]));
            assert(sink.open_names() =~= seq!["html"@, "body"@]);
        }
        i = i + 1;
    }
    sink.close_el("body");
    sink.close_el("html");
    proof {
        assert(spec_sections(chapters@, b as int, b as int) =~= Seq::<char>::empty());
        assert(sink.out@ =~= spec_chunk_render(chapters@, a as int, b as int));
        assert(sink.open_names() =~= Seq::<Seq<char>>::empty());
        assert(sink.out@ + crate::xmlsink::spec_close_all(sink.open_names()) =~= sink.out@);
    }
    sink.finish()
}

/// The attributes of a chunk's root element.
fn attrs_html() -> (r: Vec<(String, String)>)
    ensures
        attr_views(r@) =~= seq![
            ("xmlns"@, "http://www.w3.org/1999/xhtml"@),
            ("xmlns:epub"@, "http://www.idpf.org/2007/ops"@),
            ("lang"@, "en"@),
            ("xml:lang"@, "en"@),
            ("epub:prefix"@, "z3998: http://www.daisy.org/z3998/2012/vocab/structure/#"@),
        ],
{
    let mut r: Vec<(String, String)> = Vec::new();
    r.push((str_owned("xmlns"), str_owned("http://www.w3.org/1999/xhtml")));
    r.push((str_owned("xmlns:epub"), str_owned("http://www.idpf.org/2007/ops")));
    r.push((str_owned("lang"), str_owned("en")));
    r.push((str_owned("xml:lang"), str_owned("en")));
    r.push((
        str_owned("epub:prefix"),
        str_owned("z3998: http://www.daisy.org/z3998/2012/vocab/structure/#"),
    ));
    r
}

/// The attributes of the stylesheet link.
fn attrs_css_link() -> (r: Vec<(String, String)>)
    ensures
        attr_views(r@) =~= seq![
            ("href"@, "css/epub.css"@),
            ("type"@, "text/epub.css"@),
            ("rel"@, "stylesheet"@),
        ],
{
    let mut r: Vec<(String, String)> = Vec::new();
    r.push((str_owned("href"), str_owned("css/epub.css")));
    r.push((str_owned("type"), str_owned("text/epub.css")));
    r.push((str_owned("rel"), str_owned("stylesheet")));
    r
}

/// A one-attribute vector with an owned value.
fn attrs1_owned(k0: &str, v0: String) -> (r: Vec<(String, String)>)
    ensures
        attr_views(r@) =~= seq![(k0@, v0@)],
{
    let mut r: Vec<(String, String)> = Vec::new();
    r.push((str_owned(k0), v0));
    r
}

/// An owned copy of a string slice.
fn str_owned(s: &str) -> (r: String)
    ensures
        r@ == s@,
{
    let v = crate::strutil::chars_of(s);
    crate::strutil::string_from_chars(&v)
}

/// What one table-of-contents line renders as: a list item linking the
/// chapter's anchor inside its chunk, with the chapter's escaped title.
pub open spec fn spec_nav_line(ci: int, c: Chapter) -> Seq<char> {
    spec_el_start("li"@, Seq::empty(), false) + spec_el_start(
        "a"@,
        seq![("href"@, spec_chunk_name(ci) + "#"@ + spec_chapter_id(c.id))],
        false,
    ) + spec_escape(EscapeKind::Body, c.title@) + "</"@ + "a"@ + ">"@ + "</"@ + "li"@ + ">"@
}

/// What the table-of-contents lines of a chapter range render as.
pub open spec fn spec_nav_lines(chapters: Seq<Chapter>, ci: int, i: int, b: int) -> Seq<char>
    decreases b - i when 0 <= i <= b <= chapters.len()
{
    if i >= b {
        Seq::empty()
    } else {
        spec_nav_line(ci, chapters[i]) + spec_nav_lines(chapters, ci, i + 1, b)
    }
}

/// The end of the chunk a boundary index starts: the next boundary, or the
/// number of chapters.
pub open spec fn spec_chunk_end(bounds: Seq<int>, ci: int, n: int) -> int {
    if ci + 1 < bounds.len() {
        bounds[ci + 1]
    } else {
        n
    }
}

/// What the whole table of contents body renders as, chunk by chunk.
pub open spec fn spec_nav_chunks(chapters: Seq<Chapter>, bounds: Seq<int>, ci: int) -> Seq<char>
    decreases bounds.len() - ci when 0 <= ci <= bounds.len()
{
    if ci >= bounds.len() {
        Seq::empty()
    } else {
        spec_nav_lines(
            chapters,
            ci,
            bounds[ci],
            spec_chunk_end(bounds, ci, chapters.len() as int),
        ) + spec_nav_chunks(chapters, bounds, ci + 1)
    }
}

/// What the navigation document renders as.
pub open spec fn spec_nav_render(title: Seq<char>, chapters: Seq<Chapter>, bounds: Seq<int>) -> Seq<
    char,
> {
    spec_xhtml_header() + spec_el_start(
        "html"@,
        seq![
            ("xmlns"@, "http://www.w3.org/1999/xhtml"@),
            ("xmlns:epub"@, "http://www.idpf.org/2007/ops"@),
            ("xml:lang"@, "en"@),
            ("lang"@, "en"@),
        ],
        false,
    ) + spec_el_start("head"@, Seq::empty(), false) + crate::package::el1(
        "title"@,
        Seq::empty(),
        "Table of Contents"@,
    ) + "</"@ + "head"@ + ">"@ + spec_el_start("body"@, Seq::empty(), false) + spec_el_start(
        "nav"@,
        seq![("epub:type"@, "toc"@)],
        false,
    ) + crate::package::el1("h1"@, Seq::empty(), title) + spec_el_start(
        "ol"@,
        Seq::empty(),
        false,
    ) + spec_nav_chunks(chapters, bounds, 0) + "</"@ + "ol"@ + ">"@ + "</"@ + "nav"@ + ">"@ + "</"@
        + "body"@ + ">"@ + "</"@ + "html"@ + ">"@
}

/// Writes the navigation document: the book title, then one link per
/// chapter, grouped by the chunks the boundaries describe.
#[verifier::rlimit(100)]
pub fn write_nav(title: &str, chapters: &Vec<Chapter>, bounds: &Vec<usize>) -> (r: String)
    requires
        bounds@.len() >= 1,
        bounds@.len() < 4294967295,
        forall|ci: int|
            0 <= ci < bounds@.len() ==> 0 <= #[trigger] bounds@[ci] as int <= chapters@.len(),
        forall|ci: int|
            0 <= ci < bounds@.len() - 1 ==> #[trigger] bounds@[ci] as int <= bounds@[ci
                + 1] as int,
    ensures
        r@ == spec_nav_render(
            title@,
            chapters@,
            bounds@.map_values(|x: usize| x as int),
        ),
{
    let ghost bv = bounds@.map_values(|x: usize| x as int);
    let mut sink = XmlSink::new_xhtml();
    let empty_attrs: Vec<(String, String)> = Vec::new();
    proof {
        assert(attr_views(empty_attrs@) =~= Seq::<(Seq<char>, Seq<char>)>::empty());
    }
    let mut attrs: Vec<(String, String)> = Vec::new();
    attrs.push((str_owned("xmlns"), str_owned("http://www.w3.org/1999/xhtml")));
    attrs.push((str_owned("xmlns:epub"), str_owned("http://www.idpf.org/2007/ops")));
    attrs.push((str_owned("xml:lang"), str_owned("en")));
    attrs.push((str_owned("lang"), str_owned("en")));
    proof {
        assert(attr_views(attrs@) =~= seq![
            ("xmlns"@, "http://www.w3.org/1999/xhtml"@),
            ("xmlns:epub"@, "http://www.idpf.org/2007/ops"@),
            ("xml:lang"@, "en"@),
            ("lang"@, "en"@),
        ]);
    }
    sink.mkel("html", &attrs);
    sink.mkel("head", &empty_attrs);
    sink.mkel("title", &empty_attrs);
    sink.write_field("Table of Contents");
    sink.close_el("title");
    sink.close_el("head");
    sink.mkel("body", &empty_attrs);
    let attrs = attrs1_owned("epub:type", str_owned("toc"));
    sink.mkel("nav", &attrs);
    sink.mkel("h1", &empty_attrs);
    sink.write_field(title);
    sink.close_el("h1");
    sink.mkel("ol", &empty_attrs);
    proof {
        assert(sink.open_names() =~= seq!["html"@, "body"@, "nav"@, "ol"@]);
    }
    let ghost base = sink.out@;
    let mut ci: usize = 0;
    while ci < bounds.len()
        invariant
            bv == bounds@.map_values(|x: usize| x as int),
            bounds@.len() < 4294967295,
            ci <= bv.len(),
            forall|k: int| 0 <= k < bv.len() ==> 0 <= #[trigger] bv[k] <= chapters@.len(),
            forall|k: int| 0 <= k < bv.len() - 1 ==> #[trigger] bv[k] <= bv[k + 1],
            attr_views(empty_attrs@) == Seq::<(Seq<char>, Seq<char>)>::empty(),
            sink.out@ + spec_nav_chunks(chapters@, bv, ci as int) == base + spec_nav_chunks(
                chapters@,
                bv,
                0,
            ),
            sink.open_names() == seq!["html"@, "body"@, "nav"@, "ol"@],
        decreases bv.len() - ci,
    {
        let start = bounds[ci];
        let end = if ci + 1 < bounds.len() {
            bounds[ci + 1]
        } else {
            chapters.len()
        };
        proof {
            assert(bv[ci as int] == bounds@[ci as int] as int);
            assert(end as int == spec_chunk_end(bv, ci as int, chapters@.len() as int));
        }
        let ghost chunk_base = sink.out@;
        let mut i: usize = start;
        while i < end
            invariant
                bv == bounds@.map_values(|x: usize| x as int),
                bounds@.len() < 4294967295,
                ci < bv.len(),
                start as int == bv[ci as int],
                end as int == spec_chunk_end(bv, ci as int, chapters@.len() as int),
                start <= i <= end || (start > end && i == start),
                end <= chapters@.len(),
                attr_views(empty_attrs@) == Seq::<(Seq<char>, Seq<char>)>::empty(),
                sink.out@ + spec_nav_lines(chapters@, ci as int, i as int, end as int)
                    == chunk_base + spec_nav_lines(
                    chapters@,
                    ci as int,
                    start as int,
                    end as int,
                ),
                sink.open_names() == seq!["html"@, "body"@, "nav"@, "ol"@],
            decreases end - i,
        {
            let ghost before = sink.out@;
            let chapter = &chapters[i];
            proof {
                assert(ci as u32 as int == ci as int);
            }
            let mut href: Vec<char> = Vec::new();
            let cname = chunk_name(ci as u32);
            crate::escape::push_str_chars(cname.as_str(), &mut href);
            crate::escape::push_str_chars("#", &mut href);
            let anchor = chapter.id();
            crate::escape::push_str_chars(anchor.as_str(), &mut href);
            let href = crate::strutil::string_from_chars(&href);
            proof {
                assert(href@ =~= spec_chunk_name(ci as int) + "#"@ + spec_chapter_id(
                    chapters@[i as int].id,
                ));
            }
            sink.mkel("li", &empty_attrs);
            let attrs = attrs1_owned("href", href);
            sink.mkel("a", &attrs);
            sink.write_field_escaped(chapter.title());
            sink.close_el("a");
            sink.close_el("li");
            proof {
                assert(sink.out@ =~= before + spec_nav_line(ci as int, chapters@[i as int]));
                assert(sink.open_names() =~= seq!["html"@, "body"@, "nav"@, "ol"@]);
            }
            i = i + 1;
        }
        proof {
            assert(spec_nav_lines(chapters@, ci as int, end as int, end as int) =~= Seq::<
                char,
            >::empty());
            if start as int > end as int {
                assert(spec_nav_lines(chapters@, ci as int, start as int, end as int) == Seq::<
                    char,
                >::empty());
            }
        }
        ci = ci + 1;
    }
    proof {
        assert(spec_nav_chunks(chapters@, bv, bv.len() as int) =~= Seq::<char>::empty());
    }
    sink.close_el("ol");
    sink.close_el("nav");
    sink.close_el("body");
    sink.close_el("html");
    proof {
        assert(sink.out@ =~= spec_nav_render(title@, chapters@, bv));
        assert(sink.open_names() =~= Seq::<Seq<char>>::empty());
        assert(sink.out@ + crate::xmlsink::spec_close_all(sink.open_names()) =~= sink.out@);
    }
    sink.finish()
}


/// The fixed container document pointing at the package file.
pub fn container_xml() -> (r: &'static str)
    ensures
        r@ == spec_container_xml(),
{
    "<?xml version=\"1.0\"?>\n<container version=\"1.0\" xmlns=\"urn:oasis:names:tc:opendocument:xmlns:container\">\n   <rootfiles>\n      <rootfile\n          full-path=\"EPUB/package.opf\"\n          media-type=\"application/oebps-package+xml\"/>\n   </rootfiles>\n</container>"
}

/// The fixed container document pointing at the package file.
pub open spec fn spec_container_xml() -> Seq<char> {
    "<?xml version=\"1.0\"?>\n<container version=\"1.0\" xmlns=\"urn:oasis:names:tc:opendocument:xmlns:container\">\n   <rootfiles>\n      <rootfile\n          full-path=\"EPUB/package.opf\"\n          media-type=\"application/oebps-package+xml\"/>\n   </rootfiles>\n</container>"@
}

/// Collects chapters and metadata for one book and decides how they are
/// packaged; the archive itself is written by a caller from the documents
/// this produces.
#[derive(Debug)]
pub struct EpubBuilder {
    pub opf: OpfBuilder,
    pub chapters: Vec<Chapter>,
    pub cover: Option<crate::image::ImageId>,
    pub additional_resources: Vec<ResolvedImage>,
    pub chunk_size: usize,
    pub compression: Compression,
}

impl EpubBuilder {
    /// An empty book.
    pub fn new() -> (r: Self)
        ensures
            r.chapters@.len() == 0,
            r.additional_resources@.len() == 0,
            r.cover is None,
            r.chunk_size == 0,
            r.opf.manifest@.len() == 0,
            r.opf.identifiers@.len() == 0,
    {
        EpubBuilder {
            opf: OpfBuilder::new(),
            chapters: Vec::new(),
            cover: None,
            additional_resources: Vec::new(),
            chunk_size: 0,
            compression: Compression::Deflate,
        }
    }

    /// Sets how many bytes of chapters are grouped into one file; zero
    /// gives each chapter its own file.
    pub fn set_chunk_size(&mut self, size: usize)
        ensures
            *final(self) == (EpubBuilder { chunk_size: size, ..*old(self) }),
    {
        self.chunk_size = size;
    }

    /// Sets the compression used for content entries.
    pub fn set_compression(&mut self, compression: Compression)
        ensures
            *final(self) == (EpubBuilder { compression, ..*old(self) }),
    {
        self.compression = compression;
    }

    /// Sets the book title.
    pub fn set_title(&mut self, title: String)
        ensures
            final(self).opf.title@ == title@,
            final(self).chapters == old(self).chapters,
    {
        self.opf.title.set(title);
    }

    /// Adds an author.
    pub fn add_author(&mut self, author: String)
        ensures
            final(self).opf.contributors@ == old(self).opf.contributors@.push(
                (ContributorRole::Author, author),
            ),
            final(self).chapters == old(self).chapters,
    {
        self.opf.contributors.push((ContributorRole::Author, author));
    }

    /// Adds a translator.
    pub fn add_translator(&mut self, translator: String)
        ensures
            final(self).opf.contributors@ == old(self).opf.contributors@.push(
                (ContributorRole::Translator, translator),
            ),
            final(self).chapters == old(self).chapters,
    {
        self.opf.contributors.push((ContributorRole::Translator, translator));
    }

    /// Adds a contributor with an explicit role.
    pub fn add_contributor(&mut self, role: ContributorRole, creator: String)
        ensures
            final(self).opf.contributors@ == old(self).opf.contributors@.push((role, creator)),
            final(self).chapters == old(self).chapters,
    {
        self.opf.contributors.push((role, creator));
    }

    /// Sets the publisher.
    pub fn set_publisher(&mut self, publisher: String)
        ensures
            final(self).opf.publisher@ == Some(publisher@),
            final(self).chapters == old(self).chapters,
    {
        self.opf.publisher.set(publisher);
    }

    /// Adds a publication identifier.
    pub fn add_identifier(&mut self, ty: IdentifierType, identifier: String)
        ensures
            final(self).opf.identifiers@ == old(self).opf.identifiers@.push((ty, identifier)),
            final(self).chapters == old(self).chapters,
    {
        self.opf.add_identifier(ty, identifier);
    }

    /// Sets the cover image from already fetched content.
    pub fn set_cover_resolved(&mut self, img: ResolvedImage)
        ensures
            final(self).cover == Some(img.id),
            final(self).chapters == old(self).chapters,
    {
        self.cover = Some(img.id);
        let mut present = false;
        let mut i: usize = 0;
        while i < self.additional_resources.len()
            invariant
                i <= self.additional_resources@.len(),
            decreases self.additional_resources@.len() - i,
        {
            if self.additional_resources[i].id.id == img.id.id {
                present = true;
            }
            i = i + 1;
        }
        if !present {
            self.additional_resources.push(img);
        }
    }

    /// Adds a finished chapter, filing its image resources once each.
    pub fn add_chapter(&mut self, chapter: Chapter)
        requires
            chapter.wf(),
        ensures
            final(self).chapters@ == old(self).chapters@.push(chapter),
            forall|i: int|
                0 <= i < old(self).chapters@.len() ==> (#[trigger] final(self).chapters@[i]).wf()
                    == old(self).chapters@[i].wf(),
    {
        let mut k: usize = 0;
        let n = chapter.rsc.len();
        while k < n
            invariant
                k <= n,
                n == chapter.rsc@.len(),
                chapter.wf(),
                self.chapters == old(self).chapters,
            decreases n - k,
        {
            let rid = chapter.rsc[k].id.id;
            let mut present = false;
            let mut i: usize = 0;
            while i < self.additional_resources.len()
                invariant
                    i <= self.additional_resources@.len(),
                decreases self.additional_resources@.len() - i,
            {
                if self.additional_resources[i].id.id == rid {
                    present = true;
                }
                i = i + 1;
            }
            if !present {
                let img = ResolvedImage {
                    id: chapter.rsc[k].id,
                    alt: match &chapter.rsc[k].alt {
                        Some(a) => Some(a.clone()),
                        None => None,
                    },
                    media_type: chapter.rsc[k].media_type,
                    data: chapter.rsc[k].data.clone(),
                };
                self.additional_resources.push(img);
            }
            k = k + 1;
        }
        self.chapters.push(chapter);
    }

    /// Where the chapters split into files, from their sizes and the
    /// configured chunk size.
    pub fn plan_chunks(&self) -> (r: Vec<usize>)
        requires
            self.chapters@.len() >= 1,
        ensures
            r@.len() >= 1,
            r@[0] == 0,
    {
        let mut sizes: Vec<usize> = Vec::new();
        let mut i: usize = 0;
        while i < self.chapters.len()
            invariant
                i <= self.chapters@.len(),
                sizes@.len() == i,
            decreases self.chapters@.len() - i,
        {
            sizes.push(self.chapters[i].size());
            i = i + 1;
        }
        chunk_boundaries(&sizes, self.chunk_size)
    }
}

impl Default for EpubBuilder {
    /// The default book is empty.
    fn default() -> (r: Self)
        ensures
            r.chapters@.len() == 0,
    {
        EpubBuilder::new()
    }
}

} // verus!
