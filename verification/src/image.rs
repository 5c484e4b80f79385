//! Images referenced by chapters, identified by a hash of their URL.

use vstd::prelude::*;

use crate::media::MediaType;

verus! {

/// What hashing a URL yields; the hasher is seeded with fixed keys, so
/// within one build the result depends on the URL alone.
pub uninterp spec fn url_hash(s: Seq<char>) -> u64;

/// Relies on `ahash::RandomState::hash_one` with fixed seeds: the result is
/// a function of the hashed string alone.
#[verifier::external_body]
fn hash_url(url: &str) -> (r: u64)
    ensures
        r == url_hash(url@),
{
    ahash::RandomState::with_seeds(0x48, 0xb0, 0x7e, 0x03).hash_one(url)
}

/// The stable identifier a URL maps to.
pub fn url_id(url: &str) -> (r: u64)
    ensures
        r == url_hash(url@),
{
    hash_url(url)
}

/// The hexadecimal digit for a value below sixteen.
pub open spec fn spec_hex_digit(d: int) -> char {
    if d == 0 {
        '0'
    } else if d == 1 {
        '1'
    } else if d == 2 {
        '2'
    } else if d == 3 {
        '3'
    } else if d == 4 {
        '4'
    } else if d == 5 {
        '5'
    } else if d == 6 {
        '6'
    } else if d == 7 {
        '7'
    } else if d == 8 {
        '8'
    } else if d == 9 {
        '9'
    } else if d == 10 {
        'a'
    } else if d == 11 {
        'b'
    } else if d == 12 {
        'c'
    } else if d == 13 {
        'd'
    } else if d == 14 {
        'e'
    } else {
        'f'
    }
}

/// The value written with the given number of hexadecimal digits, most
/// significant first.
pub open spec fn spec_hex(v: int, digits: nat) -> Seq<char>
    decreases digits,
{
    if digits == 0 {
        Seq::empty()
    } else {
        spec_hex(v / 16, (digits - 1) as nat).push(spec_hex_digit(v % 16))
    }
}

/// The hexadecimal digit for a value below sixteen.
fn hex_digit(d: u64) -> (r: char)
    requires
        d < 16,
    ensures
        r == spec_hex_digit(d as int),
{
    if d == 0 {
        '0'
    } else if d == 1 {
        '1'
    } else if d == 2 {
        '2'
    } else if d == 3 {
        '3'
    } else if d == 4 {
        '4'
    } else if d == 5 {
        '5'
    } else if d == 6 {
        '6'
    } else if d == 7 {
        '7'
    } else if d == 8 {
        '8'
    } else if d == 9 {
        '9'
    } else if d == 10 {
        'a'
    } else if d == 11 {
        'b'
    } else if d == 12 {
        'c'
    } else if d == 13 {
        'd'
    } else if d == 14 {
        'e'
    } else {
        'f'
    }
}

/// The value written with the given number of hexadecimal digits.
pub fn hex_chars(v: u64, digits: usize) -> (r: Vec<char>)
    ensures
        r@ == spec_hex(v as int, digits as nat),
    decreases digits,
{
    if digits == 0 {
        Vec::new()
    } else {
        let mut r = hex_chars(v / 16, digits - 1);
        r.push(hex_digit(v % 16));
        r
    }
}

/// A stable identifier for an image, from a hash of its source URL.
#[derive(Clone, Copy, PartialEq, Eq, Structural, Debug, Hash)]
pub struct ImageId {
    pub id: u64,
}

/// What an image id renders as: `image_` and sixteen hex digits.
pub open spec fn spec_image_id_str(id: u64) -> Seq<char> {
    "image_"@ + spec_hex(id as int, 16)
}

impl ImageId {
    /// The id as text: `image_` and sixteen hex digits.
    pub fn render(&self) -> (r: String)
        ensures
            r@ == spec_image_id_str(self.id),
    {
        let mut out: Vec<char> = Vec::new();
        crate::escape::push_str_chars("image_", &mut out);
        let mut hx = hex_chars(self.id, 16);
        let mut i: usize = 0;
        while i < hx.len()
            invariant
                i <= hx@.len(),
                hx@ == spec_hex(self.id as int, 16),
                out@ == "image_"@ + hx@.subrange(0, i as int),
            decreases hx@.len() - i,
        {
            out.push(hx[i]);
            i = i + 1;
            proof {
                assert(out@ =~= "image_"@ + hx@.subrange(0, i as int));
            }
        }
        proof {
            assert(out@ =~= spec_image_id_str(self.id));
        }
        crate::strutil::string_from_chars(&out)
    }
}

/// An image reference: its source URL and optional alternate text.
#[derive(Debug)]
pub struct Image {
    pub url: String,
    pub alt: Option<String>,
}

impl Image {
    /// An image reference with no alternate text.
    pub fn new(url: String) -> (r: Self)
        ensures
            r.url@ == url@,
            r.alt is None,
    {
        Image { url, alt: None }
    }

    /// The identifier derived from the image's URL.
    pub fn id(&self) -> (r: ImageId)
        ensures
            r.id == url_hash(self.url@),
    {
        ImageId { id: url_id(self.url.as_str()) }
    }

    /// The image's source URL.
    pub fn url(&self) -> (r: &String)
        ensures
            r@ == self.url@,
    {
        &self.url
    }

    /// The image with its fetched content and media type attached.
    pub fn resolve_with(self, ty: MediaType, data: Vec<u8>) -> (r: ResolvedImage)
        ensures
            r.id.id == url_hash(self.url@),
            r.alt == self.alt,
            r.media_type == ty,
            r.data == data,
    {
        let id = self.id();
        ResolvedImage { id, alt: self.alt, media_type: ty, data }
    }
}

/// An image with its content fetched.
#[derive(Debug)]
pub struct ResolvedImage {
    pub id: ImageId,
    pub alt: Option<String>,
    pub media_type: MediaType,
    pub data: Vec<u8>,
}

/// The packaged path of a resolved image: under `assets/`, named by its id,
/// with the extension of its media type.
pub open spec fn spec_image_src(id: u64, ty: MediaType) -> Seq<char> {
    "assets/"@ + spec_image_id_str(id) + "."@ + crate::media::spec_extension(ty)
}

/// The alternate text used when an image has none.
pub open spec fn spec_alt_text(alt: Option<Seq<char>>) -> Seq<char> {
    match alt {
        Some(a) => a,
        None => "an image without alt text"@,
    }
}

impl ResolvedImage {
    /// The packaged path of this image.
    pub fn src(&self) -> (r: String)
        ensures
            r@ == spec_image_src(self.id.id, self.media_type),
    {
        let mut out: Vec<char> = Vec::new();
        crate::escape::push_str_chars("assets/", &mut out);
        let ids = self.id.render();
        crate::escape::push_str_chars(ids.as_str(), &mut out);
        crate::escape::push_str_chars(".", &mut out);
        crate::escape::push_str_chars(self.media_type.extension(), &mut out);
        proof {
            assert(out@ =~= spec_image_src(self.id.id, self.media_type));
        }
        crate::strutil::string_from_chars(&out)
    }

    /// The alternate text, or a fixed note when there is none.
    fn alt_text(&self) -> (r: &str)
        ensures
            r@ == spec_alt_text(crate::overrides::opt_str_view(self.alt)),
    {
        match &self.alt {
            Some(a) => a.as_str(),
            None => "an image without alt text",
        }
    }

    /// What this image renders as in a document: an `img` element with its
    /// packaged path and escaped alternate text.
    pub fn render_xml(&self) -> (r: String)
        ensures
            r@ == spec_image_xml(self.id.id, self.media_type, crate::overrides::opt_str_view(
                self.alt,
            )),
    {
        let mut out: Vec<char> = Vec::new();
        crate::escape::push_str_chars("<img src=\"", &mut out);
        let src = self.src();
        crate::escape::push_str_chars(src.as_str(), &mut out);
        crate::escape::push_str_chars("\" alt=\"", &mut out);
        crate::escape::push_escaped(crate::escape::EscapeKind::Attr, self.alt_text(), &mut out);
        crate::escape::push_str_chars("\" />", &mut out);
        proof {
            assert(out@ =~= spec_image_xml(self.id.id, self.media_type, crate::overrides::opt_str_view(
                self.alt,
            )));
        }
        crate::strutil::string_from_chars(&out)
    }

    /// What this image renders as in Markdown: a link image with its
    /// escaped alternate text.
    pub fn render_md(&self) -> (r: String)
        ensures
            r@ == spec_image_md(self.id.id, self.media_type, crate::overrides::opt_str_view(
                self.alt,
            )),
    {
        let mut out: Vec<char> = Vec::new();
        crate::escape::push_str_chars("![", &mut out);
        crate::escape::push_escaped(crate::escape::EscapeKind::Md, self.alt_text(), &mut out);
        crate::escape::push_str_chars("](", &mut out);
        let src = self.src();
        crate::escape::push_str_chars(src.as_str(), &mut out);
        crate::escape::push_str_chars(")", &mut out);
        proof {
            assert(out@ =~= spec_image_md(self.id.id, self.media_type, crate::overrides::opt_str_view(
                self.alt,
            )));
        }
        crate::strutil::string_from_chars(&out)
    }
}

/// What a resolved image renders as in a document.
pub open spec fn spec_image_xml(id: u64, ty: MediaType, alt: Option<Seq<char>>) -> Seq<char> {
    "<img src=\""@ + spec_image_src(id, ty) + "\" alt=\""@ + crate::escape::spec_escape(
        crate::escape::EscapeKind::Attr,
        spec_alt_text(alt),
    ) + "\" />"@
}

/// What a resolved image renders as in Markdown.
pub open spec fn spec_image_md(id: u64, ty: MediaType, alt: Option<Seq<char>>) -> Seq<char> {
    "!["@ + crate::escape::spec_escape(crate::escape::EscapeKind::Md, spec_alt_text(alt)) + "]("@
        + spec_image_src(id, ty) + ")"@
}

} // verus!
