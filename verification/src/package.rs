//! The package document: manifest items, identifiers, contributors, and
//! the builder that validates them into a package description.

use vstd::prelude::*;

use crate::media::{spec_mime, MediaType};
use crate::settings::{OptSetting, Setting};
use crate::strutil::{chars_of, streq, string_from_chars};

verus! {

/// The properties a manifest item can carry.
#[derive(Clone, Copy, PartialEq, Eq, Structural, Debug)]
pub struct ManifestProperties {
    pub mathml: bool,
    pub remote_resources: bool,
    pub scripted: bool,
    pub svg: bool,
    pub cover_image: bool,
    pub nav: bool,
}

impl ManifestProperties {
    /// No property set.
    pub fn empty() -> (r: Self)
        ensures
            r == ManifestProperties::spec_empty(),
    {
        ManifestProperties {
            mathml: false,
            remote_resources: false,
            scripted: false,
            svg: false,
            cover_image: false,
            nav: false,
        }
    }

    /// No property set.
    pub open spec fn spec_empty() -> Self {
        ManifestProperties {
            mathml: false,
            remote_resources: false,
            scripted: false,
            svg: false,
            cover_image: false,
            nav: false,
        }
    }

    /// The property names that are set, in declaration order.
    pub open spec fn spec_names(self) -> Seq<Seq<char>> {
        let parts = Seq::<Seq<char>>::empty();
        let parts = if self.mathml {
            parts.push("mathml"@)
        } else {
            parts
        };
        let parts = if self.remote_resources {
            parts.push("remote-resources"@)
        } else {
            parts
        };
        let parts = if self.scripted {
            parts.push("scripted"@)
        } else {
            parts
        };
        let parts = if self.svg {
            parts.push("svg"@)
        } else {
            parts
        };
        let parts = if self.cover_image {
            parts.push("cover-image"@)
        } else {
            parts
        };
        let parts = if self.nav {
            parts.push("nav"@)
        } else {
            parts
        };
        parts
    }

    /// The attribute value of the set properties: their names joined by
    /// spaces, or nothing when no property is set.
    pub fn attribute_val(self) -> (r: Option<String>)
        ensures
            r is Some <==> self != ManifestProperties::spec_empty(),
            r is Some ==> r->0@ == crate::escape::spec_join(self.spec_names(), " "@),
    {
        let mut parts: Vec<String> = Vec::new();
        if self.mathml {
            parts.push(str_owned("mathml"));
        }
        if self.remote_resources {
            parts.push(str_owned("remote-resources"));
        }
        if self.scripted {
            parts.push(str_owned("scripted"));
        }
        if self.svg {
            parts.push(str_owned("svg"));
        }
        if self.cover_image {
            parts.push(str_owned("cover-image"));
        }
        if self.nav {
            parts.push(str_owned("nav"));
        }
        proof {
            assert(crate::escape::views_of(parts@) =~= self.spec_names());
        }
        if parts.len() == 0 {
            proof {
                assert(self == ManifestProperties::spec_empty());
            }
            return None;
        }
        let j = crate::escape::Join { sep: str_owned(" "), items: parts };
        Some(j.render())
    }
}

/// An owned copy of a string slice.
fn str_owned(s: &str) -> (r: String)
    ensures
        r@ == s@,
{
    let v = chars_of(s);
    string_from_chars(&v)
}

/// The position of the last occurrence of a character.
pub open spec fn spec_last_index_of(s: Seq<char>, c: char) -> Option<int>
    decreases s.len(),
{
    if s.len() == 0 {
        None
    } else if s.last() == c {
        Some(s.len() - 1)
    } else {
        spec_last_index_of(s.drop_last(), c)
    }
}

/// The position of the last occurrence of a character.
fn find_last(v: &Vec<char>, c: char) -> (r: Option<usize>)
    ensures
        match spec_last_index_of(v@, c) {
            Some(i) => r matches Some(got) && got == i,
            None => r is None,
        },
        r matches Some(got) ==> got < v@.len() && v@[got as int] == c,
{
    proof {
        assert(v@.take(v@.len() as int) =~= v@);
    }
    let mut i: usize = v.len();
    while i > 0
        invariant
            i <= v@.len(),
            spec_last_index_of(v@.take(i as int), c) == spec_last_index_of(v@, c),
        decreases i,
    {
        i = i - 1;
        proof {
            assert(v@.take(i as int + 1).last() == v@[i as int]);
            assert(v@.take(i as int + 1).drop_last() =~= v@.take(i as int));
        }
        if v[i] == c {
            return Some(i);
        }
    }
    proof {
        assert(v@.take(0) =~= Seq::<char>::empty());
    }
    None
}

/// The media type a file extension infers, for the extensions the manifest
/// accepts.
pub open spec fn spec_media_of_ext(e: Seq<char>) -> Option<MediaType> {
    if e == "xhtml"@ {
        Some(MediaType::Xhtml)
    } else if e == "png"@ {
        Some(MediaType::Png)
    } else if e == "jpeg"@ || e == "jpg"@ {
        Some(MediaType::Jpg)
    } else if e == "svg"@ {
        Some(MediaType::Svg)
    } else if e == "css"@ {
        Some(MediaType::Css)
    } else {
        None
    }
}

/// The stem of a path: everything before the last dot; meaningful only
/// when a dot exists.
pub open spec fn spec_stem(href: Seq<char>) -> Seq<char> {
    match spec_last_index_of(href, '.') {
        Some(i) => href.take(i),
        None => href,
    }
}

/// The id of a manifest item: the basename of its path's stem.
pub open spec fn spec_item_id(href: Seq<char>) -> Seq<char> {
    let stem = spec_stem(href);
    match spec_last_index_of(stem, '/') {
        Some(j) => stem.skip(j + 1),
        None => stem,
    }
}

/// An item of the package manifest: its path, its media type, and its
/// properties.
#[derive(Debug)]
pub struct ManifestItem {
    pub href: String,
    pub media_type: MediaType,
    pub props: ManifestProperties,
}

impl ManifestItem {
    /// The item's id: the basename of its path's stem.
    pub fn id(&self) -> (r: String)
        requires
            spec_last_index_of(self.href@, '.') is Some,
        ensures
            r@ == spec_item_id(self.href@),
    {
        let chars = chars_of(self.href.as_str());
        let dot = find_last(&chars, '.').unwrap();
        let stem = crate::sed::subvec(&chars, 0, dot);
        match find_last(&stem, '/') {
            Some(j) => {
                let id = crate::sed::subvec(&stem, j + 1, stem.len());
                string_from_chars(&id)
            },
            None => string_from_chars(&stem),
        }
    }

    /// An item with an explicit media type and no properties.
    pub fn new_explicit(href: String, ty: MediaType) -> (r: Self)
        ensures
            r.href == href,
            r.media_type == ty,
            r.props == ManifestProperties::spec_empty(),
    {
        ManifestItem { href, media_type: ty, props: ManifestProperties::empty() }
    }

    /// An item inferred from a path: the extension picks the media type,
    /// and the ids `nav` and `cover` imply their properties. Fails when the
    /// path has no dot, an unknown extension, or an empty id.
    pub fn try_new(href: String) -> (r: Option<Self>)
        ensures
            r is Some <==> (spec_last_index_of(href@, '.') matches Some(dot) && spec_media_of_ext(
                href@.skip(dot + 1),
            ) is Some && spec_item_id(href@).len() > 0),
            r is Some ==> {
                &&& r->0.href == href
                &&& Some(r->0.media_type) == spec_media_of_ext(
                    href@.skip(spec_last_index_of(href@, '.')->0 + 1),
                )
                &&& r->0.props == (ManifestProperties {
                    nav: spec_item_id(href@) == "nav"@,
                    cover_image: spec_item_id(href@) != "nav"@ && spec_item_id(href@) == "cover"@,
                    ..ManifestProperties::spec_empty()
                })
            },
    {
        let chars = chars_of(href.as_str());
        let dot = match find_last(&chars, '.') {
            Some(d) => d,
            None => {
                return None;
            },
        };
        let ext_chars = crate::sed::subvec(&chars, dot + 1, chars.len());
        let ext = string_from_chars(&ext_chars);
        let media_type = if streq(ext.as_str(), "xhtml") {
            MediaType::Xhtml
        } else if streq(ext.as_str(), "png") {
            MediaType::Png
        } else if streq(ext.as_str(), "jpeg") {
            MediaType::Jpg
        } else if streq(ext.as_str(), "jpg") {
            MediaType::Jpg
        } else if streq(ext.as_str(), "svg") {
            MediaType::Svg
        } else if streq(ext.as_str(), "css") {
            MediaType::Css
        } else {
            return None;
        };
        let stem = crate::sed::subvec(&chars, 0, dot);
        let id = match find_last(&stem, '/') {
            Some(j) => string_from_chars(&crate::sed::subvec(&stem, j + 1, stem.len())),
            None => string_from_chars(&stem),
        };
        if id.as_str().is_empty() {
            return None;
        }
        let mut props = ManifestProperties::empty();
        if streq(id.as_str(), "nav") {
            props.nav = true;
        } else if streq(id.as_str(), "cover") {
            props.cover_image = true;
        }
        Some(ManifestItem { href, media_type, props })
    }

    /// An item inferred from a path; only defined where inference succeeds.
    pub fn new(href: String) -> (r: Self)
        requires
            spec_last_index_of(href@, '.') matches Some(dot) && spec_media_of_ext(
                href@.skip(dot + 1),
            ) is Some && spec_item_id(href@).len() > 0,
        ensures
            r.href == href,
    {
        ManifestItem::try_new(href).unwrap()
    }
}

/// A kind of publication identifier, best first.
#[derive(Clone, Copy, PartialEq, Eq, Structural, Debug)]
pub enum IdentifierType {
    Doi,
    Isbn13,
    Isbn10,
    Issn,
    Url,
    Adhoc,
}

/// A contributor's role, as a MARC relator.
#[derive(Clone, Copy, PartialEq, Eq, Structural, Debug)]
pub enum ContributorRole {
    Author,
    Illustrator,
    Editor,
    Narrator,
    Funder,
    Translator,
    Programmer,
}

impl ContributorRole {
    /// The MARC relator code of this role.
    pub fn marc_code(self) -> (r: &'static str)
        ensures
            r@ == spec_marc_code(self),
    {
        match self {
            ContributorRole::Author => "aut",
            ContributorRole::Illustrator => "ill",
            ContributorRole::Editor => "edt",
            ContributorRole::Narrator => "nrt",
            ContributorRole::Funder => "fnd",
            ContributorRole::Translator => "trl",
            ContributorRole::Programmer => "prg",
        }
    }
}

/// The MARC relator code of a role.
pub open spec fn spec_marc_code(r: ContributorRole) -> Seq<char> {
    match r {
        ContributorRole::Author => "aut"@,
        ContributorRole::Illustrator => "ill"@,
        ContributorRole::Editor => "edt"@,
        ContributorRole::Narrator => "nrt"@,
        ContributorRole::Funder => "fnd"@,
        ContributorRole::Translator => "trl"@,
        ContributorRole::Programmer => "prg"@,
    }
}

/// Why a package could not be assembled.
#[derive(Clone, Copy, PartialEq, Eq, Structural, Debug)]
pub struct OpfError {
    pub no_nav: bool,
    pub no_identifiers: bool,
    pub duplicate_manifest_item: bool,
    pub multiple_nav: bool,
    pub multiple_cover: bool,
    pub conflicting_manifest_properties: bool,
}

impl OpfError {
    /// Whether any error condition holds.
    pub fn any(&self) -> (r: bool)
        ensures
            r == (self.no_nav || self.no_identifiers || self.duplicate_manifest_item
                || self.multiple_nav || self.multiple_cover
                || self.conflicting_manifest_properties),
    {
        self.no_nav || self.no_identifiers || self.duplicate_manifest_item || self.multiple_nav
            || self.multiple_cover || self.conflicting_manifest_properties
    }
}

/// How many items from position `i` on carry the navigation property.
pub open spec fn count_nav(items: Seq<ManifestItem>, i: int) -> int
    decreases items.len() - i when 0 <= i <= items.len()
{
    if i >= items.len() {
        0
    } else {
        (if items[i].props.nav {
            1int
        } else {
            0int
        }) + count_nav(items, i + 1)
    }
}

/// How many items from position `i` on carry the cover-image property.
pub open spec fn count_cover(items: Seq<ManifestItem>, i: int) -> int
    decreases items.len() - i when 0 <= i <= items.len()
{
    if i >= items.len() {
        0
    } else {
        (if items[i].props.cover_image {
            1int
        } else {
            0int
        }) + count_cover(items, i + 1)
    }
}

/// Whether some item's properties contradict its media type: a cover image
/// that is no image, or a navigation document that is not a document.
pub open spec fn spec_conflicting(items: Seq<ManifestItem>) -> bool {
    exists|i: int|
        0 <= i < items.len() && ((#[trigger] items[i]).props.cover_image
            && !items[i].media_type.spec_is_image() || items[i].props.nav && items[i].media_type
            != MediaType::Xhtml)
}

/// Whether two items share an id.
pub open spec fn spec_dup_ids(items: Seq<ManifestItem>) -> bool {
    exists|i: int, j: int|
        0 <= i < j < items.len() && spec_item_id((#[trigger] items[i]).href@) == spec_item_id(
            (#[trigger] items[j]).href@,
        )
}

/// Every manifest item's path has an extension.
pub open spec fn items_have_ext(items: Seq<ManifestItem>) -> bool {
    forall|i: int|
        0 <= i < items.len() ==> spec_last_index_of((#[trigger] items[i]).href@, '.') is Some
}

/// Builds a package description.
#[derive(Debug)]
pub struct OpfBuilder {
    pub language: Setting,
    pub title: Setting,
    pub subtitle: OptSetting,
    pub publisher: OptSetting,
    /// Seconds since the epoch; zero means "now" at assembly time.
    pub date: u64,
    pub identifiers: Vec<(IdentifierType, String)>,
    pub contributors: Vec<(ContributorRole, String)>,
    pub manifest: Vec<ManifestItem>,
}

/// An assembled package description.
#[derive(Debug)]
pub struct OpfSpec {
    pub language: Setting,
    pub title: Setting,
    pub subtitle: OptSetting,
    pub publisher: OptSetting,
    pub date: u64,
    pub identifiers: Vec<(IdentifierType, String)>,
    pub contributors: Vec<(ContributorRole, String)>,
    pub manifest_nav: ManifestItem,
    pub manifest_cover: Option<ManifestItem>,
    pub manifest: Vec<(String, ManifestItem)>,
    pub spine: Vec<String>,
}

/// Relies on `std::time::SystemTime::now`: the current time in seconds
/// since the epoch; nothing more is assumed of it.
#[verifier::external_body]
fn now_secs() -> u64 {
    match std::time::SystemTime::now().duration_since(std::time::SystemTime::UNIX_EPOCH) {
        Ok(d) => d.as_secs(),
        Err(_) => 0,
    }
}

impl OpfBuilder {
    /// An empty builder with defaults.
    pub fn new() -> (r: Self)
        ensures
            r.language@ == "en"@,
            r.title@ == "Ebook"@,
            r.subtitle@ is None,
            r.publisher@ is None,
            r.date == 0,
            r.identifiers@.len() == 0,
            r.contributors@.len() == 0,
            r.manifest@.len() == 0,
    {
        OpfBuilder {
            language: Setting::dft("en"),
            title: Setting::dft("Ebook"),
            subtitle: OptSetting::new(),
            publisher: OptSetting::new(),
            date: 0,
            identifiers: Vec::new(),
            contributors: Vec::new(),
            manifest: Vec::new(),
        }
    }

    /// Adds a publication identifier.
    pub fn add_identifier(&mut self, ty: IdentifierType, val: String)
        ensures
            final(self).identifiers@ == old(self).identifiers@.push((ty, val)),
            final(self).manifest == old(self).manifest,
            final(self).title == old(self).title,
            final(self).language == old(self).language,
            final(self).subtitle == old(self).subtitle,
            final(self).publisher == old(self).publisher,
            final(self).date == old(self).date,
            final(self).contributors == old(self).contributors,
    {
        self.identifiers.push((ty, val));
    }

    /// Validates and assembles the package: there must be at least one
    /// identifier and exactly one navigation document, at most one cover,
    /// no property contradicting its media type, and no two items sharing
    /// an id. The spine holds the ids of the document items in manifest
    /// order.
    pub fn finish(self) -> (r: Result<OpfSpec, OpfError>)
        requires
            items_have_ext(self.manifest@),
        ensures
            ({
                let items = self.manifest@;
                let bad = count_nav(items, 0) == 0 || self.identifiers@.len() == 0 || count_nav(
                    items,
                    0,
                ) >= 2 || count_cover(items, 0) >= 2 || spec_conflicting(items) || spec_dup_ids(
                    items,
                );
                &&& (r is Err <==> bad)
                &&& (r matches Err(e) ==> {
                    &&& e.no_nav == (count_nav(items, 0) == 0)
                    &&& e.no_identifiers == (self.identifiers@.len() == 0)
                    &&& e.multiple_nav == (count_nav(items, 0) >= 2)
                    &&& e.multiple_cover == (count_cover(items, 0) >= 2)
                    &&& e.conflicting_manifest_properties == spec_conflicting(items)
                })
                &&& (r matches Ok(spec) ==> {
                    &&& spec.manifest_nav.props.nav
                    &&& spec.identifiers == self.identifiers
                    &&& spec.contributors == self.contributors
                    &&& spec.title == self.title
                    &&& spec.language == self.language
                    &&& spec.subtitle == self.subtitle
                    &&& spec.publisher == self.publisher
                    &&& (self.date != 0 ==> spec.date == self.date)
                    &&& (spec.manifest_cover matches Some(c) ==> c.props.cover_image)
                })
            }),
    {
        let ghost items = self.manifest@;
        let mut e = OpfError {
            no_nav: false,
            no_identifiers: false,
            duplicate_manifest_item: false,
            multiple_nav: false,
            multiple_cover: false,
            conflicting_manifest_properties: false,
        };
        if self.identifiers.len() == 0 {
            e.no_identifiers = true;
        }
        let mut navs: usize = 0;
        let mut covers: usize = 0;
        let mut conflicting = false;
        let mut i: usize = 0;
        while i < self.manifest.len()
            invariant
                items == self.manifest@,
                i <= items.len(),
                navs <= i,
                covers <= i,
                navs + count_nav(items, i as int) == count_nav(items, 0),
                covers + count_cover(items, i as int) == count_cover(items, 0),
                conflicting == exists|k: int|
                    0 <= k < i && ((#[trigger] items[k]).props.cover_image
                        && !items[k].media_type.spec_is_image() || items[k].props.nav
                        && items[k].media_type != MediaType::Xhtml),
            decreases items.len() - i,
        {
            let item = &self.manifest[i];
            if item.props.nav {
                navs = navs + 1;
            }
            if item.props.cover_image {
                covers = covers + 1;
            }
            if item.props.cover_image && !item.media_type.is_image() {
                conflicting = true;
            }
            if item.props.nav && item.media_type.id() != MediaType::Xhtml.id() {
                conflicting = true;
            }
            i = i + 1;
        }
        if navs == 0 {
            e.no_nav = true;
        }
        if navs >= 2 {
            e.multiple_nav = true;
        }
        if covers >= 2 {
            e.multiple_cover = true;
        }
        e.conflicting_manifest_properties = conflicting;
        if e.any() {
            return Err(e);
        }
        // phase two: split off the navigation and cover items and key the
        // rest by id, detecting duplicates
        let mut rest = self.manifest;
        let mut manifest_nav: Option<ManifestItem> = None;
        let mut manifest_cover: Option<ManifestItem> = None;
        let mut keyed: Vec<(String, ManifestItem)> = Vec::new();
        let mut spine: Vec<String> = Vec::new();
        let mut seen: Vec<String> = Vec::new();
        let ghost total = items.len() as int;
        let mut dup = false;
        while rest.len() > 0
            invariant
                items_have_ext(items),
                rest@.len() <= items.len(),
                forall|k: int|
                    0 <= k < rest@.len() ==> #[trigger] rest@[k] == items[items.len() - rest@.len()
                        + k],
                dup ==> spec_dup_ids(items),
                !dup ==> ({
                    let done = items.len() - rest@.len();
                    &&& seen@.len() == done
                    &&& forall|k: int|
                        0 <= k < done ==> (#[trigger] seen@[k])@ == spec_item_id(items[k].href@)
                    &&& forall|k1: int, k2: int|
                        0 <= k1 < k2 < done ==> spec_item_id(
                            (#[trigger] items[k1]).href@,
                        ) != spec_item_id((#[trigger] items[k2]).href@)
                }),
                manifest_nav matches Some(n) ==> n.props.nav,
                manifest_cover matches Some(c) ==> c.props.cover_image,
                count_nav(items, 0) == 1 ==> (manifest_nav is Some <==> exists|k: int|
                    0 <= k < items.len() - rest@.len() && (#[trigger] items[k]).props.nav),
            decreases rest@.len(),
        {
            let ghost done = items.len() - rest@.len();
            let item = rest.remove(0);
            proof {
                assert(item == items[done]);
                assert(forall|k: int|
                    0 <= k < rest@.len() ==> #[trigger] rest@[k] == items[done + 1 + k]);
            }
            let id = item.id();
            if !dup {
                let mut k: usize = 0;
                let mut found = false;
                while k < seen.len()
                    invariant
                        k <= seen@.len(),
                        0 <= done < items.len(),
                        id@ == spec_item_id(items[done].href@),
                        !dup,
                        seen@.len() == done,
                        forall|k0: int|
                            0 <= k0 < done ==> (#[trigger] seen@[k0])@ == spec_item_id(
                                items[k0].href@,
                            ),
                        found ==> spec_dup_ids(items),
                        !found ==> forall|k0: int|
                            0 <= k0 < k ==> spec_item_id((#[trigger] items[k0]).href@) != id@,
                    decreases seen@.len() - k,
                {
                    if streq(seen[k].as_str(), id.as_str()) {
                        proof {
                            assert(spec_item_id(items[k as int].href@) == spec_item_id(
                                items[done].href@,
                            ));
                            assert(0 <= k < done < items.len());
                            assert(spec_dup_ids(items));
                        }
                        found = true;
                    }
                    k = k + 1;
                }
                if found {
                    dup = true;
                }
            }
            seen.push(id.clone());
            if item.media_type.id() == MediaType::Xhtml.id() {
                spine.push(id.clone());
            }
            if item.props.nav {
                manifest_nav = Some(item);
            } else if item.props.cover_image {
                manifest_cover = Some(item);
            } else {
                keyed.push((id, item));
            }
        }
        if dup {
            e.duplicate_manifest_item = true;
            return Err(e);
        }
        let nav = match manifest_nav {
            Some(n) => n,
            None => {
                proof {
                    lemma_count_nav_exists(items, 0);
                }
                let e2 = OpfError { no_nav: true, ..e };
                proof {
                    assert(false);
                }
                return Err(e2);
            },
        };
        let date = if self.date == 0 {
            now_secs()
        } else {
            self.date
        };
        Ok(
            OpfSpec {
                language: self.language,
                title: self.title,
                subtitle: self.subtitle,
                publisher: self.publisher,
                date,
                identifiers: self.identifiers,
                contributors: self.contributors,
                manifest_nav: nav,
                manifest_cover,
                manifest: keyed,
                spine,
            },
        )
    }
}

/// A positive navigation count means some item carries the property.
proof fn lemma_count_nav_exists(items: Seq<ManifestItem>, i: int)
    requires
        0 <= i <= items.len(),
        count_nav(items, i) > 0,
    ensures
        exists|k: int| i <= k < items.len() && (#[trigger] items[k]).props.nav,
    decreases items.len() - i,
{
    if i < items.len() {
        if items[i].props.nav {
        } else {
            lemma_count_nav_exists(items, i + 1);
        }
    }
}

impl OpfSpec {
    /// The package's main title.
    pub fn title(&self) -> (r: &str)
        ensures
            r@ == self.title@,
    {
        self.title.get()
    }
}


/// What the external time crate writes a UTC date as, for a given moment
/// in seconds since the epoch.
pub uninterp spec fn utc_date_str(secs: u64) -> Seq<char>;

/// What the external time crate writes a UTC date and time as, for a given
/// moment in seconds since the epoch.
pub uninterp spec fn utc_datetime_str(secs: u64) -> Seq<char>;

/// Relies on `time::OffsetDateTime::from_unix_timestamp` and `Date`'s
/// display: the UTC calendar date of the moment, a function of the seconds
/// alone.
#[verifier::external_body]
fn format_utc_date(secs: u64) -> (r: String)
    ensures
        r@ == utc_date_str(secs),
{
    match time::OffsetDateTime::from_unix_timestamp(secs as i64) {
        Ok(dt) => dt.to_offset(time::UtcOffset::UTC).date().to_string(),
        Err(_) => String::new(),
    }
}

/// Relies on `time::OffsetDateTime::format` with a fixed year-to-second
/// description: the UTC date and time of the moment, a function of the
/// seconds alone.
#[verifier::external_body]
fn format_utc_datetime(secs: u64) -> (r: String)
    ensures
        r@ == utc_datetime_str(secs),
{
    let desc = match time::format_description::parse(
        "[year]-[month]-[day]T[hour]:[minute]:[second]Z",
    ) {
        Ok(d) => d,
        Err(_) => return String::new(),
    };
    match time::OffsetDateTime::from_unix_timestamp(secs as i64) {
        Ok(dt) => dt.to_offset(time::UtcOffset::UTC).format(&desc).unwrap_or_default(),
        Err(_) => String::new(),
    }
}

/// A contributor anchor: `creator` and a three-digit zero-padded number.
pub open spec fn spec_creator_id(i: int) -> Seq<char> {
    "creator"@ + (if i < 10 {
        "00"@ + crate::chapter::spec_dec(i)
    } else if i < 100 {
        "0"@ + crate::chapter::spec_dec(i)
    } else {
        crate::chapter::spec_dec(i)
    })
}

/// A contributor anchor: `creator` and a three-digit zero-padded number.
fn creator_id(i: u32) -> (r: String)
    ensures
        r@ == spec_creator_id(i as int),
{
    let mut out: Vec<char> = Vec::new();
    crate::escape::push_str_chars("creator", &mut out);
    if i < 10 {
        crate::escape::push_str_chars("00", &mut out);
    } else if i < 100 {
        crate::escape::push_str_chars("0", &mut out);
    }
    let d = crate::chapter::dec_chars(i);
    let ghost base = out@;
    let mut k: usize = 0;
    while k < d.len()
        invariant
            k <= d@.len(),
            out@ == base + d@.subrange(0, k as int),
        decreases d@.len() - k,
    {
        out.push(d[k]);
        k = k + 1;
        proof {
            assert(out@ =~= base + d@.subrange(0, k as int));
        }
    }
    proof {
        assert(d@ == crate::chapter::spec_dec(i as int));
        assert(out@ =~= spec_creator_id(i as int));
    }
    crate::strutil::string_from_chars(&out)
}

/// An identifier anchor: `identifier_` and a number.
pub open spec fn spec_identifier_id(i: int) -> Seq<char> {
    "identifier_"@ + crate::chapter::spec_dec(i)
}

/// An identifier anchor: `identifier_` and a number.
fn identifier_id(i: u32) -> (r: String)
    ensures
        r@ == spec_identifier_id(i as int),
{
    let mut out: Vec<char> = Vec::new();
    crate::escape::push_str_chars("identifier_", &mut out);
    let d = crate::chapter::dec_chars(i);
    let ghost base = out@;
    let mut k: usize = 0;
    while k < d.len()
        invariant
            k <= d@.len(),
            out@ == base + d@.subrange(0, k as int),
        decreases d@.len() - k,
    {
        out.push(d[k]);
        k = k + 1;
        proof {
            assert(out@ =~= base + d@.subrange(0, k as int));
        }
    }
    proof {
        assert(out@ =~= spec_identifier_id(i as int));
    }
    crate::strutil::string_from_chars(&out)
}


/// What an element with raw content renders as.
pub open spec fn el1(
    name: Seq<char>,
    attrs: Seq<(Seq<char>, Seq<char>)>,
    content: Seq<char>,
) -> Seq<char> {
    crate::xmlsink::spec_el_start(name, attrs, false) + content + "</"@ + name + ">"@
}

/// The views of the identifier list.
pub open spec fn ident_views(v: Seq<(IdentifierType, String)>) -> Seq<(IdentifierType, Seq<char>)> {
    v.map_values(|p: (IdentifierType, String)| (p.0, p.1@))
}

/// The views of the contributor list.
pub open spec fn contrib_views(v: Seq<(ContributorRole, String)>) -> Seq<
    (ContributorRole, Seq<char>),
> {
    v.map_values(|p: (ContributorRole, String)| (p.0, p.1@))
}

/// What the identifier entries render as, one element and line break per
/// identifier, anchored by position.
pub open spec fn spec_idents(ids: Seq<(IdentifierType, Seq<char>)>, i: int) -> Seq<char>
    decreases ids.len() - i when 0 <= i <= ids.len()
{
    if i >= ids.len() {
        Seq::empty()
    } else {
        el1("dc:identifier"@, seq![("id"@, spec_identifier_id(i))], ids[i].1) + "\n"@
            + spec_idents(ids, i + 1)
    }
}

/// What the contributor entries render as: the creator or contributor
/// element, then the role refinement, each on its own line.
pub open spec fn spec_contribs(cs: Seq<(ContributorRole, Seq<char>)>, i: int) -> Seq<char>
    decreases cs.len() - i when 0 <= i <= cs.len()
{
    if i >= cs.len() {
        Seq::empty()
    } else {
        let attribution = if cs[i].0 is Author {
            "dc:creator"@
        } else {
            "dc:contributor"@
        };
        el1(attribution, seq![("id"@, spec_creator_id(i))], cs[i].1) + "\n"@ + el1(
            "meta"@,
            seq![
                ("refines"@, "#"@ + spec_creator_id(i)),
                ("property"@, "role"@),
                ("scheme"@, "marc:relators"@),
            ],
            spec_marc_code(cs[i].0),
        ) + "\n"@ + spec_contribs(cs, i + 1)
    }
}

/// What one manifest item line renders as: a self-closed `item` with its
/// id, path and media type, and its properties when it has any.
pub open spec fn spec_item_line(id: Seq<char>, item: ManifestItem) -> Seq<char> {
    let base = seq![("id"@, id), ("href"@, item.href@), ("media-type"@, spec_mime(
        item.media_type,
    ))];
    let attrs = if item.props == ManifestProperties::spec_empty() {
        base
    } else {
        base.push(("properties"@, crate::escape::spec_join(item.props.spec_names(), " "@)))
    };
    crate::xmlsink::spec_el_start("item"@, attrs, true) + "\n"@
}

/// What the keyed manifest entries render as.
pub open spec fn spec_item_lines(entries: Seq<(String, ManifestItem)>, i: int) -> Seq<char>
    decreases entries.len() - i when 0 <= i <= entries.len()
{
    if i >= entries.len() {
        Seq::empty()
    } else {
        spec_item_line(entries[i].0@, entries[i].1) + spec_item_lines(entries, i + 1)
    }
}

/// What the spine renders as: one self-closed `itemref` per id.
pub open spec fn spec_spine_lines(ids: Seq<String>, i: int) -> Seq<char>
    decreases ids.len() - i when 0 <= i <= ids.len()
{
    if i >= ids.len() {
        Seq::empty()
    } else {
        crate::xmlsink::spec_el_start("itemref"@, seq![("idref"@, ids[i]@)], true) + "\n"@
            + spec_spine_lines(ids, i + 1)
    }
}

/// What the front of the metadata section renders as: its opening, the
/// titles and the identifiers.
pub open spec fn spec_metadata_front(o: OpfSpec) -> Seq<char> {
    crate::xmlsink::spec_el_start(
        "metadata"@,
        seq![("xmlns:dc"@, "http://purl.org/dc/elements/1.1/"@)],
        false,
    ) + el1("dc:title"@, seq![("id"@, "title_main"@)], o.title@) + el1(
        "meta"@,
        seq![("refines"@, "#title_main"@), ("property"@, "title-type"@)],
        "main"@,
    ) + (match o.subtitle@ {
        Some(st) => el1("dc:title"@, seq![("id"@, "title_sub"@)], st) + el1(
            "meta"@,
            seq![("refines"@, "#title_sub"@), ("property"@, "title-type"@)],
            "subtitle"@,
        ),
        None => Seq::empty(),
    }) + spec_idents(ident_views(o.identifiers@), 0)
}

/// What the rest of the metadata section renders as: the dates, the
/// contributors, the language and the publisher.
pub open spec fn spec_metadata_tail(o: OpfSpec) -> Seq<char> {
    el1("dc:date"@, Seq::empty(), utc_date_str(o.date)) + "\n"@ + el1(
        "meta"@,
        seq![("property"@, "dcterms:modified"@)],
        utc_datetime_str(o.date),
    ) + "\n"@ + spec_contribs(contrib_views(o.contributors@), 0) + el1(
        "dc:language"@,
        Seq::empty(),
        o.language@,
    ) + (match o.publisher@ {
        Some(p) => el1("dc:publisher"@, Seq::empty(), p) + "\n"@,
        None => Seq::empty(),
    }) + "</"@ + "metadata"@ + ">"@
}

/// What the metadata section renders as.
pub open spec fn spec_metadata(o: OpfSpec) -> Seq<char> {
    spec_metadata_front(o) + spec_metadata_tail(o)
}

/// What the manifest section renders as: the navigation item, the cover if
/// any, then the keyed entries.
pub open spec fn spec_manifest_part(o: OpfSpec) -> Seq<char> {
    crate::xmlsink::spec_el_start("manifest"@, Seq::empty(), false) + crate::xmlsink::spec_el_start(
        "item"@,
        seq![
            ("id"@, "nav"@),
            ("href"@, o.manifest_nav.href@),
            ("media-type"@, spec_mime(o.manifest_nav.media_type)),
            ("properties"@, crate::escape::spec_join(o.manifest_nav.props.spec_names(), " "@)),
        ],
        true,
    ) + "\n"@ + (match o.manifest_cover {
        Some(c) => spec_item_line(spec_item_id(c.href@), c),
        None => Seq::empty(),
    }) + spec_item_lines(o.manifest@, 0) + "</"@ + "manifest"@ + ">"@
}

/// What the spine section renders as.
pub open spec fn spec_spine_part(o: OpfSpec) -> Seq<char> {
    crate::xmlsink::spec_el_start("spine"@, Seq::empty(), false) + spec_spine_lines(o.spine@, 0)
        + "</"@ + "spine"@ + ">"@
}

/// What a whole package document renders as.
pub open spec fn spec_opf_render(o: OpfSpec) -> Seq<char> {
    crate::xmlsink::spec_xml_header() + crate::xmlsink::spec_el_start(
        "package"@,
        seq![
            ("version"@, "3.0"@),
            ("xml:lang"@, "en"@),
            ("xmlns"@, "http://www.idpf.org/2007/opf"@),
            ("unique-identifier"@, "identifier_0"@),
        ],
        false,
    ) + spec_metadata(o) + spec_manifest_part(o) + spec_spine_part(o) + "</"@ + "package"@ + ">"@
}

/// A one-attribute vector.
fn attrs1(k0: &str, v0: String) -> (r: Vec<(String, String)>)
    ensures
        crate::xmlsink::attr_views(r@) =~= seq![(k0@, v0@)],
{
    let mut r: Vec<(String, String)> = Vec::new();
    r.push((str_owned(k0), v0));
    r
}

/// A two-attribute vector.
fn attrs2(k0: &str, v0: String, k1: &str, v1: String) -> (r: Vec<(String, String)>)
    ensures
        crate::xmlsink::attr_views(r@) =~= seq![(k0@, v0@), (k1@, v1@)],
{
    let mut r: Vec<(String, String)> = Vec::new();
    r.push((str_owned(k0), v0));
    r.push((str_owned(k1), v1));
    r
}

/// A three-attribute vector.
fn attrs3(k0: &str, v0: String, k1: &str, v1: String, k2: &str, v2: String) -> (r: Vec<
    (String, String),
>)
    ensures
        crate::xmlsink::attr_views(r@) =~= seq![(k0@, v0@), (k1@, v1@), (k2@, v2@)],
{
    let mut r: Vec<(String, String)> = Vec::new();
    r.push((str_owned(k0), v0));
    r.push((str_owned(k1), v1));
    r.push((str_owned(k2), v2));
    r
}

/// A four-attribute vector.
fn attrs4(
    k0: &str,
    v0: String,
    k1: &str,
    v1: String,
    k2: &str,
    v2: String,
    k3: &str,
    v3: String,
) -> (r: Vec<(String, String)>)
    ensures
        crate::xmlsink::attr_views(r@) =~= seq![(k0@, v0@), (k1@, v1@), (k2@, v2@), (k3@, v3@)],
{
    let mut r: Vec<(String, String)> = Vec::new();
    r.push((str_owned(k0), v0));
    r.push((str_owned(k1), v1));
    r.push((str_owned(k2), v2));
    r.push((str_owned(k3), v3));
    r
}

/// Writes one element with raw content.
fn write_el(
    sink: &mut crate::xmlsink::XmlSink,
    name: &str,
    attrs: &Vec<(String, String)>,
    content: &str,
)
    ensures
        final(sink).out@ == old(sink).out@ + el1(
            name@,
            crate::xmlsink::attr_views(attrs@),
            content@,
        ),
        final(sink).open_names() == old(sink).open_names(),
{
    sink.mkel(name, attrs);
    sink.write_field(content);
    sink.close_el(name);
    proof {
        assert(sink.out@ =~= old(sink).out@ + el1(
            name@,
            crate::xmlsink::attr_views(attrs@),
            content@,
        ));
        assert(sink.open_names() =~= old(sink).open_names());
    }
}

impl OpfSpec {
    /// Writes the metadata section's opening, titles and identifiers.
    fn render_metadata_front(&self, sink: &mut crate::xmlsink::XmlSink)
        requires
            self.identifiers@.len() < 4294967295,
        ensures
            final(sink).out@ == old(sink).out@ + spec_metadata_front(*self),
            final(sink).open_names() == old(sink).open_names().push("metadata"@),
    {
        let attrs = attrs1("xmlns:dc", str_owned("http://purl.org/dc/elements/1.1/"));
        sink.mkel("metadata", &attrs);
        let attrs = attrs1("id", str_owned("title_main"));
        write_el(sink, "dc:title", &attrs, self.title.get());
        let attrs = attrs2("refines", str_owned("#title_main"), "property", str_owned(
            "title-type",
        ));
        write_el(sink, "meta", &attrs, "main");
        match self.subtitle.get() {
            Some(st) => {
                let st = str_owned(st);
                let attrs = attrs1("id", str_owned("title_sub"));
                write_el(sink, "dc:title", &attrs, st.as_str());
                let attrs = attrs2("refines", str_owned("#title_sub"), "property", str_owned(
                    "title-type",
                ));
                write_el(sink, "meta", &attrs, "subtitle");
            },
            None => {},
        }
        let ghost idv = ident_views(self.identifiers@);
        let ghost base = sink.out@;
        let mut i: usize = 0;
        while i < self.identifiers.len()
            invariant
                idv == ident_views(self.identifiers@),
                self.identifiers@.len() < 4294967295,
                i <= idv.len(),
                sink.out@ + spec_idents(idv, i as int) == base + spec_idents(idv, 0),
                sink.open_names() == old(sink).open_names().push("metadata"@),
            decreases idv.len() - i,
        {
            proof {
                assert(idv[i as int] == (self.identifiers@[i as int].0, self.identifiers@[
                    i as int].1@));
                assert(i as u32 as int == i as int);
            }
            let attrs = attrs1("id", identifier_id(i as u32));
            write_el(sink, "dc:identifier", &attrs, self.identifiers[i].1.as_str());
            sink.write_lf();
            i = i + 1;
        }
        proof {
            assert(spec_idents(idv, idv.len() as int) =~= Seq::<char>::empty());
            assert(sink.out@ =~= old(sink).out@ + spec_metadata_front(*self));
        }
    }

    /// Writes the metadata section's dates, contributors, language and
    /// publisher, and closes it.
    #[verifier::rlimit(100)]
    fn render_metadata_tail(&self, sink: &mut crate::xmlsink::XmlSink)
        requires
            self.contributors@.len() < 4294967295,
            old(sink).open_names().len() > 0,
            old(sink).open_names().last() == "metadata"@,
        ensures
            final(sink).out@ == old(sink).out@ + spec_metadata_tail(*self),
            final(sink).open_names() == old(sink).open_names().drop_last(),
    {
        let empty_attrs: Vec<(String, String)> = Vec::new();
        proof {
            assert(crate::xmlsink::attr_views(empty_attrs@) =~= Seq::<
                (Seq<char>, Seq<char>),
            >::empty());
        }
        let date_str = format_utc_date(self.date);
        write_el(sink, "dc:date", &empty_attrs, date_str.as_str());
        sink.write_lf();
        let datetime_str = format_utc_datetime(self.date);
        let attrs = attrs1("property", str_owned("dcterms:modified"));
        write_el(sink, "meta", &attrs, datetime_str.as_str());
        sink.write_lf();
        let ghost cv = contrib_views(self.contributors@);
        let ghost base = sink.out@;
        let mut i: usize = 0;
        while i < self.contributors.len()
            invariant
                cv == contrib_views(self.contributors@),
                self.contributors@.len() < 4294967295,
                i <= cv.len(),
                sink.out@ + spec_contribs(cv, i as int) == base + spec_contribs(cv, 0),
                sink.open_names() == old(sink).open_names(),
            decreases cv.len() - i,
        {
            proof {
                assert(cv[i as int] == (self.contributors@[i as int].0, self.contributors@[
                    i as int].1@));
                assert(i as u32 as int == i as int);
            }
            let id = creator_id(i as u32);
            let mut selid: Vec<char> = Vec::new();
            crate::escape::push_str_chars("#", &mut selid);
            crate::escape::push_str_chars(id.as_str(), &mut selid);
            let selid = crate::strutil::string_from_chars(&selid);
            proof {
                assert(selid@ =~= "#"@ + spec_creator_id(i as int));
            }
            let role = self.contributors[i].0;
            let attribution = match role {
                ContributorRole::Author => "dc:creator",
                _ => "dc:contributor",
            };
            let attrs = attrs1("id", id);
            write_el(sink, attribution, &attrs, self.contributors[i].1.as_str());
            sink.write_lf();
            let attrs = attrs3(
                "refines",
                selid,
                "property",
                str_owned("role"),
                "scheme",
                str_owned("marc:relators"),
            );
            write_el(sink, "meta", &attrs, role.marc_code());
            sink.write_lf();
            i = i + 1;
        }
        proof {
            assert(spec_contribs(cv, cv.len() as int) =~= Seq::<char>::empty());
            assert(sink.out@ =~= base + spec_contribs(cv, 0));
        }
        write_el(sink, "dc:language", &empty_attrs, self.language.get());
        match self.publisher.get() {
            Some(p) => {
                let p = str_owned(p);
                write_el(sink, "dc:publisher", &empty_attrs, p.as_str());
                sink.write_lf();
            },
            None => {},
        }
        sink.close_el("metadata");
        proof {
            assert(sink.out@ =~= old(sink).out@ + spec_metadata_tail(*self));
        }
    }

    /// Writes the manifest section.
    fn render_manifest(&self, sink: &mut crate::xmlsink::XmlSink)
        requires
            self.manifest_nav.props.nav,
            self.manifest_cover matches Some(c) ==> c.props.cover_image && spec_last_index_of(
                c.href@,
                '.',
            ) is Some,
        ensures
            final(sink).out@ == old(sink).out@ + spec_manifest_part(*self),
            final(sink).open_names() == old(sink).open_names(),
    {
        let empty_attrs: Vec<(String, String)> = Vec::new();
        proof {
            assert(crate::xmlsink::attr_views(empty_attrs@) =~= Seq::<
                (Seq<char>, Seq<char>),
            >::empty());
        }
        sink.mkel("manifest", &empty_attrs);
        let nav_prop = self.manifest_nav.props.attribute_val().unwrap();
        let attrs = attrs4(
            "id",
            str_owned("nav"),
            "href",
            self.manifest_nav.href.clone(),
            "media-type",
            str_owned(self.manifest_nav.media_type.mime()),
            "properties",
            nav_prop,
        );
        sink.mkel_selfclosed("item", &attrs);
        sink.write_lf();
        match &self.manifest_cover {
            Some(cover) => {
                let ghost before_cover = sink.out@;
                let id = cover.id();
                let cover_prop = cover.props.attribute_val().unwrap();
                let attrs = attrs4(
                    "id",
                    id,
                    "href",
                    cover.href.clone(),
                    "media-type",
                    str_owned(cover.media_type.mime()),
                    "properties",
                    cover_prop,
                );
                proof {
                    assert(cover.props != ManifestProperties::spec_empty());
                    assert(crate::xmlsink::attr_views(attrs@) =~= seq![
                        ("id"@, spec_item_id(cover.href@)),
                        ("href"@, cover.href@),
                        ("media-type"@, spec_mime(cover.media_type)),
                    ].push(
                        ("properties"@, crate::escape::spec_join(cover.props.spec_names(), " "@)),
                    ));
                }
                sink.mkel_selfclosed("item", &attrs);
                sink.write_lf();
                proof {
                    assert(sink.out@ =~= before_cover + spec_item_line(
                        spec_item_id(cover.href@),
                        *cover,
                    ));
                }
            },
            None => {},
        }
        let ghost base = sink.out@;
        let mut i: usize = 0;
        while i < self.manifest.len()
            invariant
                i <= self.manifest@.len(),
                sink.out@ + spec_item_lines(self.manifest@, i as int) == base + spec_item_lines(
                    self.manifest@,
                    0,
                ),
                sink.open_names() == old(sink).open_names().push("manifest"@),
            decreases self.manifest@.len() - i,
        {
            let ghost before_item = sink.out@;
            let entry = &self.manifest[i];
            proof {
                assert(*entry == self.manifest@[i as int]);
            }
            match entry.1.props.attribute_val() {
                Some(prop) => {
                    let attrs = attrs4(
                        "id",
                        entry.0.clone(),
                        "href",
                        entry.1.href.clone(),
                        "media-type",
                        str_owned(entry.1.media_type.mime()),
                        "properties",
                        prop,
                    );
                    proof {
                        assert(crate::xmlsink::attr_views(attrs@) =~= seq![
                            ("id"@, entry.0@),
                            ("href"@, entry.1.href@),
                            ("media-type"@, spec_mime(entry.1.media_type)),
                        ].push(
                            (
                                "properties"@,
                                crate::escape::spec_join(entry.1.props.spec_names(), " "@),
                            ),
                        ));
                    }
                    sink.mkel_selfclosed("item", &attrs);
                },
                None => {
                    let attrs = attrs3(
                        "id",
                        entry.0.clone(),
                        "href",
                        entry.1.href.clone(),
                        "media-type",
                        str_owned(entry.1.media_type.mime()),
                    );
                    sink.mkel_selfclosed("item", &attrs);
                },
            }
            sink.write_lf();
            proof {
                assert(sink.out@ =~= before_item + spec_item_line(entry.0@, entry.1));
            }
            i = i + 1;
        }
        proof {
            assert(spec_item_lines(self.manifest@, self.manifest@.len() as int) =~= Seq::<
                char,
            >::empty());
        }
        sink.close_el("manifest");
        proof {
            assert(sink.out@ =~= old(sink).out@ + spec_manifest_part(*self));
            assert(sink.open_names() =~= old(sink).open_names());
        }
    }

    /// Writes the spine section.
    fn render_spine(&self, sink: &mut crate::xmlsink::XmlSink)
        ensures
            final(sink).out@ == old(sink).out@ + spec_spine_part(*self),
            final(sink).open_names() == old(sink).open_names(),
    {
        let empty_attrs: Vec<(String, String)> = Vec::new();
        proof {
            assert(crate::xmlsink::attr_views(empty_attrs@) =~= Seq::<
                (Seq<char>, Seq<char>),
            >::empty());
        }
        sink.mkel("spine", &empty_attrs);
        let ghost base = sink.out@;
        let mut i: usize = 0;
        while i < self.spine.len()
            invariant
                i <= self.spine@.len(),
                sink.out@ + spec_spine_lines(self.spine@, i as int) == base + spec_spine_lines(
                    self.spine@,
                    0,
                ),
                sink.open_names() == old(sink).open_names().push("spine"@),
            decreases self.spine@.len() - i,
        {
            let attrs = attrs1("idref", self.spine[i].clone());
            sink.mkel_selfclosed("itemref", &attrs);
            sink.write_lf();
            i = i + 1;
        }
        proof {
            assert(spec_spine_lines(self.spine@, self.spine@.len() as int) =~= Seq::<
                char,
            >::empty());
        }
        sink.close_el("spine");
        proof {
            assert(sink.out@ =~= old(sink).out@ + spec_spine_part(*self));
            assert(sink.open_names() =~= old(sink).open_names());
        }
    }

    /// What this package renders as: the package document, with its
    /// metadata, manifest and spine sections.
    #[verifier::rlimit(100)]
    pub fn render(&self) -> (r: String)
        requires
            self.manifest_nav.props.nav,
            self.manifest_cover matches Some(c) ==> c.props.cover_image && spec_last_index_of(
                c.href@,
                '.',
            ) is Some,
            self.identifiers@.len() < 4294967295,
            self.contributors@.len() < 4294967295,
        ensures
            r@ == spec_opf_render(*self),
    {
        let mut sink = crate::xmlsink::XmlSink::new();
        let attrs = attrs4(
            "version",
            str_owned("3.0"),
            "xml:lang",
            str_owned("en"),
            "xmlns",
            str_owned("http://www.idpf.org/2007/opf"),
            "unique-identifier",
            str_owned("identifier_0"),
        );
        sink.mkel("package", &attrs);
        self.render_metadata_front(&mut sink);
        self.render_metadata_tail(&mut sink);
        proof {
            assert(sink.open_names() =~= seq!["package"@]);
        }
        self.render_manifest(&mut sink);
        self.render_spine(&mut sink);
        sink.close_el("package");
        proof {
            assert(sink.out@ =~= spec_opf_render(*self));
            assert(sink.open_names() =~= Seq::<Seq<char>>::empty());
            assert(sink.out@ + crate::xmlsink::spec_close_all(sink.open_names()) =~= sink.out@);
        }
        sink.finish()
    }
}

} // verus!
