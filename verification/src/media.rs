//! Media types for cached and packaged resources.

use vstd::prelude::*;

verus! {

/// A media (MIME) type this crate knows how to handle.
///
/// One type serves both the fetch cache and the package writer: the cache
/// stores all nine tags, and the package side gives every variant a MIME
/// string, so the narrower boundary a split type would draw is not needed.
#[derive(Clone, Copy, PartialEq, Eq, Structural, Debug)]
pub enum MediaType {
    Xhtml,
    Xml,
    Png,
    Jpg,
    Svg,
    Css,
    Gif,
    Webp,
    Html,
}

/// The numeric tag a media type is stored under.
pub open spec fn spec_media_id(m: MediaType) -> int {
    match m {
        MediaType::Xhtml => 0,
        MediaType::Xml => 1,
        MediaType::Png => 2,
        MediaType::Jpg => 3,
        MediaType::Svg => 4,
        MediaType::Css => 5,
        MediaType::Gif => 6,
        MediaType::Webp => 7,
        MediaType::Html => 8,
    }
}

impl MediaType {
    /// The media type stored under the given numeric tag; panics on an unknown tag.
    pub fn new(id: i32) -> (r: Self)
        requires
            0 <= id <= 8,
        ensures
            spec_media_id(r) == id,
    {
        Self::try_new(id).unwrap()
    }

    /// The media type stored under the given numeric tag, if any.
    pub fn try_new(id: i32) -> (r: Option<Self>)
        ensures
            r is Some <==> 0 <= id <= 8,
            r is Some ==> spec_media_id(r->0) == id,
    {
        let ret = match id {
            0 => Self::Xhtml,
            1 => Self::Xml,
            2 => Self::Png,
            3 => Self::Jpg,
            4 => Self::Svg,
            5 => Self::Css,
            6 => Self::Gif,
            7 => Self::Webp,
            8 => Self::Html,
            _ => {
                return None;
            },
        };
        Some(ret)
    }

    /// The numeric tag of this media type.
    pub fn id(self) -> (r: i32)
        ensures
            r == spec_media_id(self),
    {
        match self {
            MediaType::Xhtml => 0,
            MediaType::Xml => 1,
            MediaType::Png => 2,
            MediaType::Jpg => 3,
            MediaType::Svg => 4,
            MediaType::Css => 5,
            MediaType::Gif => 6,
            MediaType::Webp => 7,
            MediaType::Html => 8,
        }
    }

    /// The media type that serves the given MIME string, if it is one this
    /// crate knows.
    pub fn try_from_mime(s: &str) -> (r: Option<Self>)
        ensures
            r is Some <==> exists|m: MediaType| spec_mime(m) == s@,
            r is Some ==> spec_mime(r->0) == s@,
    {
        let r = if crate::strutil::streq(s, "application/xhtml+xml") {
            Some(MediaType::Xhtml)
        } else if crate::strutil::streq(s, "application/xml") {
            Some(MediaType::Xml)
        } else if crate::strutil::streq(s, "image/png") {
            Some(MediaType::Png)
        } else if crate::strutil::streq(s, "image/jpeg") {
            Some(MediaType::Jpg)
        } else if crate::strutil::streq(s, "image/svg+xml") {
            Some(MediaType::Svg)
        } else if crate::strutil::streq(s, "text/css") {
            Some(MediaType::Css)
        } else if crate::strutil::streq(s, "image/gif") {
            Some(MediaType::Gif)
        } else if crate::strutil::streq(s, "image/webp") {
            Some(MediaType::Webp)
        } else if crate::strutil::streq(s, "text/html") {
            Some(MediaType::Html)
        } else {
            None
        };
        proof {
            if r is Some {
                assert(spec_mime(r->0) == s@);
            }
            if r is None {
                assert forall|m: MediaType| spec_mime(m) != s@ by {
                    match m {
                        MediaType::Xhtml => assert(spec_mime(m) != s@),
                        MediaType::Xml => assert(spec_mime(m) != s@),
                        MediaType::Png => assert(spec_mime(m) != s@),
                        MediaType::Jpg => assert(spec_mime(m) != s@),
                        MediaType::Svg => assert(spec_mime(m) != s@),
                        MediaType::Css => assert(spec_mime(m) != s@),
                        MediaType::Gif => assert(spec_mime(m) != s@),
                        MediaType::Webp => assert(spec_mime(m) != s@),
                        MediaType::Html => assert(spec_mime(m) != s@),
                    }
                }
            }
        }
        r
    }

    /// The media type that serves the given MIME string; only defined on the
    /// MIME strings this crate knows.
    pub fn from_str(s: &str) -> (r: Self)
        requires
            exists|m: MediaType| spec_mime(m) == s@,
        ensures
            spec_mime(r) == s@,
    {
        Self::try_from_mime(s).unwrap()
    }

    /// The MIME string of this media type.
    pub fn mime(self) -> (r: &'static str)
        ensures
            r@ == spec_mime(self),
    {
        match self {
            MediaType::Xhtml => "application/xhtml+xml",
            MediaType::Xml => "application/xml",
            MediaType::Png => "image/png",
            MediaType::Jpg => "image/jpeg",
            MediaType::Svg => "image/svg+xml",
            MediaType::Css => "text/css",
            MediaType::Gif => "image/gif",
            MediaType::Webp => "image/webp",
            MediaType::Html => "text/html",
        }
    }

    /// Whether this media type is an image format.
    pub fn is_image(self) -> (r: bool)
        ensures
            r == self.spec_is_image(),
    {
        match self {
            MediaType::Png | MediaType::Jpg | MediaType::Svg | MediaType::Gif
            | MediaType::Webp => true,
            _ => false,
        }
    }

    /// Whether this media type is an image format.
    pub open spec fn spec_is_image(self) -> bool {
        match self {
            MediaType::Png | MediaType::Jpg | MediaType::Svg | MediaType::Gif
            | MediaType::Webp => true,
            _ => false,
        }
    }

    /// The file extension used when a resource of this type is packaged.
    pub fn extension(self) -> (r: &'static str)
        ensures
            r@ == spec_extension(self),
    {
        match self {
            MediaType::Xhtml => "xhtml",
            MediaType::Xml => "xml",
            MediaType::Png => "png",
            MediaType::Jpg => "jpeg",
            MediaType::Svg => "svg",
            MediaType::Css => "css",
            MediaType::Gif => "gif",
            MediaType::Webp => "webp",
            MediaType::Html => "html",
        }
    }
}

/// The MIME string of a media type.
pub open spec fn spec_mime(m: MediaType) -> Seq<char> {
    match m {
        MediaType::Xhtml => "application/xhtml+xml"@,
        MediaType::Xml => "application/xml"@,
        MediaType::Png => "image/png"@,
        MediaType::Jpg => "image/jpeg"@,
        MediaType::Svg => "image/svg+xml"@,
        MediaType::Css => "text/css"@,
        MediaType::Gif => "image/gif"@,
        MediaType::Webp => "image/webp"@,
        MediaType::Html => "text/html"@,
    }
}

/// The file extension of a media type.
pub open spec fn spec_extension(m: MediaType) -> Seq<char> {
    match m {
        MediaType::Xhtml => "xhtml"@,
        MediaType::Xml => "xml"@,
        MediaType::Png => "png"@,
        MediaType::Jpg => "jpeg"@,
        MediaType::Svg => "svg"@,
        MediaType::Css => "css"@,
        MediaType::Gif => "gif"@,
        MediaType::Webp => "webp"@,
        MediaType::Html => "html"@,
    }
}

} // verus!
