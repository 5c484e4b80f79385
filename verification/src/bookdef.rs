//! The authored definition of a book: metadata, content pages, overrides
//! and sections.

use vstd::prelude::*;

use crate::lang::{Lang, StrLang};
use crate::overrides::OverrideChoice;
use crate::urlsel::UrlSelection;

verus! {

/// A named section starting at a page.
pub struct Section {
    pub title: String,
    pub start: String,
}

/// A book definition could not be validated.
pub struct BookDefValidationError {}

/// The authored definition of a book.
pub struct BookDef {
    /// The file the definition was read from, if any.
    pub file: Option<String>,
    pub language: Lang,
    pub title: StrLang,
    pub author: StrLang,
    pub subtitle: Option<String>,
    pub homepage: String,
    pub cover_image: Option<String>,
    pub translator: Option<String>,
    pub content: Vec<UrlSelection>,
    pub overrides: Vec<OverrideChoice>,
    pub sections: Vec<Section>,
}

/// Whether an optional field is marked as still to be filled in.
pub open spec fn spec_opt_todo(s: Option<Seq<char>>) -> bool {
    match s {
        Some(t) => crate::strutil::spec_eq_ignore_ascii_case(t, "todo"@),
        None => false,
    }
}

/// Whether any script of a multi-language string is marked as still to be
/// filled in.
pub open spec fn spec_strlang_todo(s: Seq<(Lang, Seq<char>)>) -> bool {
    exists|i: int|
        0 <= i < s.len() && crate::strutil::spec_eq_ignore_ascii_case(
            (#[trigger] s[i]).1,
            "todo"@,
        )
}

/// Whether an optional field is marked as still to be filled in.
fn opt_is_todo(s: &Option<String>) -> (r: bool)
    ensures
        r == spec_opt_todo(crate::overrides::opt_str_view(*s)),
{
    match s {
        Some(t) => crate::strutil::eq_ignore_ascii_case(t.as_str(), "todo"),
        None => false,
    }
}

/// Whether any script of a multi-language string is marked as still to be
/// filled in.
fn strlang_is_todo(s: &StrLang) -> (r: bool)
    ensures
        r == spec_strlang_todo(s@),
{
    let mut i: usize = 0;
    while i < s.entries.len()
        invariant
            i <= s@.len(),
            s@.len() == s.entries@.len(),
            forall|j: int|
                0 <= j < i ==> !crate::strutil::spec_eq_ignore_ascii_case(
                    (#[trigger] s@[j]).1,
                    "todo"@,
                ),
        decreases s@.len() - i,
    {
        proof {
            assert(s@[i as int].1 == s.entries@[i as int].1@);
        }
        if crate::strutil::eq_ignore_ascii_case(s.entries[i].1.as_str(), "todo") {
            proof {
                assert(crate::strutil::spec_eq_ignore_ascii_case(s@[i as int].1, "todo"@));
            }
            return true;
        }
        i = i + 1;
    }
    false
}

impl BookDef {
    /// Whether any authored text field is marked as still to be filled in.
    pub fn has_todo_markers(&self) -> (r: bool)
        ensures
            r == (spec_strlang_todo(self.title@) || spec_opt_todo(
                crate::overrides::opt_str_view(self.subtitle),
            ) || spec_strlang_todo(self.author@) || spec_opt_todo(
                crate::overrides::opt_str_view(self.translator),
            )),
    {
        let mut w = false;
        if strlang_is_todo(&self.title) {
            w = true;
        }
        if opt_is_todo(&self.subtitle) {
            w = true;
        }
        if strlang_is_todo(&self.author) {
            w = true;
        }
        if opt_is_todo(&self.translator) {
            w = true;
        }
        w
    }

    /// Validates the definition; placeholder markers are tolerated, so this
    /// always succeeds.
    pub fn validate(&self) -> (r: Result<(), BookDefValidationError>)
        ensures
            r is Ok,
    {
        let _w = self.has_todo_markers();
        Ok(())
    }
}

} // verus!
