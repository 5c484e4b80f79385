//! Language tags and strings with alternate-language scripts.

use vstd::prelude::*;

verus! {

/// A language this crate can tag text with.
#[derive(Clone, Copy, PartialEq, Eq, Structural, Debug, Hash)]
pub enum Lang {
    En,
    De,
    Zh,
    Ja,
}

/// The subtag string of a language.
pub open spec fn spec_lang_str(l: Lang) -> Seq<char> {
    match l {
        Lang::En => "en"@,
        Lang::De => "de"@,
        Lang::Zh => "zh"@,
        Lang::Ja => "ja"@,
    }
}

impl Lang {
    /// The language with the given subtag, if this crate knows it.
    pub fn new(s: &str) -> (r: Option<Self>)
        ensures
            r is Some <==> exists|l: Lang| spec_lang_str(l) == s@,
            r is Some ==> spec_lang_str(r->0) == s@,
    {
        let r = if crate::strutil::streq(s, "en") {
            Some(Lang::En)
        } else if crate::strutil::streq(s, "de") {
            Some(Lang::De)
        } else if crate::strutil::streq(s, "zh") {
            Some(Lang::Zh)
        } else if crate::strutil::streq(s, "ja") {
            Some(Lang::Ja)
        } else {
            None
        };
        proof {
            if r is Some {
                assert(spec_lang_str(r->0) == s@);
            }
            if r is None {
                assert forall|l: Lang| spec_lang_str(l) != s@ by {
                    match l {
                        Lang::En => assert(spec_lang_str(l) != s@),
                        Lang::De => assert(spec_lang_str(l) != s@),
                        Lang::Zh => assert(spec_lang_str(l) != s@),
                        Lang::Ja => assert(spec_lang_str(l) != s@),
                    }
                }
            }
        }
        r
    }

    /// The subtag string of this language.
    pub fn as_str(self) -> (r: &'static str)
        ensures
            r@ == spec_lang_str(self),
    {
        self.to_str()
    }

    /// The subtag string of this language.
    pub fn to_str(self) -> (r: &'static str)
        ensures
            r@ == spec_lang_str(self),
    {
        match self {
            Lang::En => "en",
            Lang::De => "de",
            Lang::Zh => "zh",
            Lang::Ja => "ja",
        }
    }
}

impl Default for Lang {
    /// The default language.
    fn default() -> (r: Self)
        ensures
            r == Lang::En,
    {
        Lang::En
    }
}

/// A string with possible alternate scripts in other languages.
///
/// The languages present are pairwise distinct, and there is always at least
/// one entry: the primary one, which comes first.
#[derive(Debug)]
pub struct StrLang {
    pub entries: Vec<(Lang, String)>,
}

impl StrLang {
    /// The (language, text) entries, primary first.
    pub open spec fn view(&self) -> Seq<(Lang, Seq<char>)> {
        self.entries@.map_values(|e: (Lang, String)| (e.0, e.1@))
    }

    /// Well-formed: non-empty, with pairwise distinct languages.
    pub open spec fn wf(&self) -> bool {
        &&& self@.len() >= 1
        &&& forall|i: int, j: int| 0 <= i < j < self@.len() ==> self@[i].0 != self@[j].0
    }

    /// A string in a single language.
    pub fn new(lang: Lang, s: String) -> (r: Self)
        ensures
            r.wf(),
            r@ =~= seq![(lang, s@)],
    {
        let entries = vec![(lang, s)];
        let r = StrLang { entries };
        proof {
            assert(r@ =~= seq![(lang, s@)]);
        }
        r
    }

    /// Whether this string has no alternate scripts.
    pub fn no_alts(&self) -> (r: bool)
        requires
            self.wf(),
        ensures
            r == (self@.len() == 1),
    {
        self.entries.len() == 1
    }

    /// Sets the primary language; fails if alternate scripts exist.
    pub fn set_primary_lang(&mut self, new_lang: Lang) -> (r: Result<(), &'static str>)
        requires
            old(self).wf(),
        ensures
            r is Ok <==> old(self)@.len() == 1,
            r is Ok ==> final(self)@ =~= seq![(new_lang, old(self)@[0].1)],
            r is Err ==> final(self)@ == old(self)@,
            final(self).wf(),
    {
        if self.entries.len() != 1 {
            return Err("cannot set primary language ");
        }
        let old_entry = self.entries.remove(0);
        self.entries.push((new_lang, old_entry.1));
        proof {
            assert(self@ =~= seq![(new_lang, old(self)@[0].1)]);
        }
        Ok(())
    }

    /// The index of the entry for `lang`, if present.
    pub open spec fn spec_index_of(&self, lang: Lang) -> Option<int> {
        if exists|i: int| 0 <= i < self@.len() && self@[i].0 == lang {
            Some(choose|i: int| 0 <= i < self@.len() && self@[i].0 == lang)
        } else {
            None
        }
    }

    /// The index of the entry for `lang`, if present.
    fn index_of(&self, lang: Lang) -> (r: Option<usize>)
        ensures
            r is Some <==> exists|i: int| 0 <= i < self@.len() && self@[i].0 == lang,
            r is Some ==> 0 <= r->0 < self@.len() && self@[r->0 as int].0 == lang,
    {
        let mut i: usize = 0;
        while i < self.entries.len()
            invariant
                i <= self@.len(),
                self@.len() == self.entries@.len(),
                forall|j: int| 0 <= j < i ==> self@[j].0 != lang,
            decreases self@.len() - i,
        {
            if self.entries[i].0 == lang {
                return Some(i);
            }
            i = i + 1;
        }
        None
    }

    /// Sets the alternate script for `lang`, overwriting an existing one.
    pub fn set_alt(&mut self, lang: Lang, s: String)
        requires
            old(self).wf(),
        ensures
            final(self).wf(),
            old(self).spec_index_of(lang) matches Some(i) ==> final(self)@ =~= old(self)@.update(
                i,
                (lang, s@),
            ),
            old(self).spec_index_of(lang) is None ==> final(self)@ =~= old(self)@.push(
                (lang, s@),
            ),
    {
        match self.index_of(lang) {
            Some(i) => {
                self.entries.set(i, (lang, s));
                proof {
                    let gi = old(self).spec_index_of(lang)->Some_0;
                    assert(old(self)@[gi].0 == lang && old(self)@[i as int].0 == lang);
                    assert(gi == i);
                    assert(self@ =~= old(self)@.update(i as int, (lang, s@)));
                }
            },
            None => {
                self.entries.push((lang, s));
                proof {
                    assert(self@ =~= old(self)@.push((lang, s@)));
                }
            },
        }
    }

    /// Sets the alternate script for `lang`; fails if one already exists.
    pub fn try_set_alt(&mut self, lang: Lang, s: String) -> (r: Result<(), ()>)
        requires
            old(self).wf(),
        ensures
            final(self).wf(),
            r is Ok <==> old(self).spec_index_of(lang) is None,
            r is Ok ==> final(self)@ =~= old(self)@.push((lang, s@)),
            r is Err ==> final(self)@ == old(self)@,
    {
        match self.index_of(lang) {
            Some(_) => Err(()),
            None => {
                self.entries.push((lang, s));
                proof {
                    assert(self@ =~= old(self)@.push((lang, s@)));
                }
                Ok(())
            },
        }
    }

    /// The text for `lang`, if an entry exists.
    pub fn for_lang(&self, lang: Lang) -> (r: Option<&str>)
        requires
            self.wf(),
        ensures
            r is Some <==> self.spec_index_of(lang) is Some,
            r is Some ==> r->0@ == self@[self.spec_index_of(lang)->Some_0].1,
    {
        match self.index_of(lang) {
            Some(i) => {
                proof {
                    let gi = self.spec_index_of(lang)->Some_0;
                    assert(self@[gi].0 == lang && self@[i as int].0 == lang);
                    assert(gi == i);
                }
                Some(self.entries[i].1.as_str())
            },
            None => None,
        }
    }

    /// The primary text of this string.
    pub fn primary(&self) -> (r: &str)
        requires
            self.wf(),
        ensures
            r@ == self@[0].1,
    {
        self.entries[0].1.as_str()
    }

    /// The primary language of this string.
    pub fn primary_lang(&self) -> (r: Lang)
        requires
            self.wf(),
        ensures
            r == self@[0].0,
    {
        self.entries[0].0
    }

    /// The (language, text) entries, primary first.
    pub fn iter(&self) -> (r: Vec<(Lang, String)>)
        ensures
            r@.map_values(|e: (Lang, String)| (e.0, e.1@)) == self@,
    {
        let mut r: Vec<(Lang, String)> = Vec::new();
        let mut i: usize = 0;
        while i < self.entries.len()
            invariant
                i <= self.entries@.len(),
                self@.len() == self.entries@.len(),
                r@.len() == i,
                forall|j: int|
                    0 <= j < i ==> (#[trigger] r@[j]).0 == self@[j].0 && r@[j].1@ == self@[j].1,
            decreases self.entries@.len() - i,
        {
            let lang = self.entries[i].0;
            let text = self.entries[i].1.clone();
            proof {
                assert(self@[i as int].0 == lang);
            }
            r.push((lang, text));
            i = i + 1;
        }
        proof {
            assert(r@.map_values(|e: (Lang, String)| (e.0, e.1@)) =~= self@);
        }
        r
    }
}

/// A single-entry string in the default language.
pub fn strlang_from(s: String) -> (r: StrLang)
    ensures
        r.wf(),
        r@ =~= seq![(Lang::En, s@)],
{
    StrLang::new(Lang::En, s)
}

} // verus!
