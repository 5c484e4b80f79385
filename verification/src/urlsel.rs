//! Which pages an override applies to.

use vstd::prelude::*;

verus! {

/// A selection of page URLs: one page, an inclusive range of pages, or an
/// explicit list.
#[derive(Debug)]
pub enum UrlSelection {
    Range { start: String, end: String },
    Url(String),
    List(Vec<String>),
}

/// The mathematical value of a URL selection.
pub enum UrlSelectionModel {
    Range { start: Seq<char>, end: Seq<char> },
    Url(Seq<char>),
    List(Seq<Seq<char>>),
}

impl UrlSelection {
    /// The mathematical value of this selection.
    pub open spec fn view(&self) -> UrlSelectionModel {
        match self {
            UrlSelection::Range { start, end } => UrlSelectionModel::Range {
                start: start@,
                end: end@,
            },
            UrlSelection::Url(u) => UrlSelectionModel::Url(u@),
            UrlSelection::List(l) => UrlSelectionModel::List(
                l@.map_values(|s: String| s@),
            ),
        }
    }

    /// The selection's URLs as a list: one for a single URL, all of them
    /// for a list, and nothing for a range, whose pages are not enumerable.
    pub fn as_slice(&self) -> (r: Option<Vec<String>>)
        ensures
            match self@ {
                UrlSelectionModel::Range { .. } => r is None,
                UrlSelectionModel::Url(u) => r matches Some(v) && v@.map_values(|s: String| s@)
                    =~= seq![u],
                UrlSelectionModel::List(l) => r matches Some(v) && v@.map_values(|s: String| s@)
                    == l,
            },
    {
        match self {
            UrlSelection::Range { .. } => None,
            UrlSelection::Url(u) => {
                let v = vec![u.clone()];
                proof {
                    assert(v@.map_values(|s: String| s@) =~= seq![u@]);
                }
                Some(v)
            },
            UrlSelection::List(l) => {
                let mut v: Vec<String> = Vec::new();
                let mut i: usize = 0;
                while i < l.len()
                    invariant
                        i <= l@.len(),
                        v@.len() == i,
                        forall|j: int| 0 <= j < i ==> (#[trigger] v@[j])@ == l@[j]@,
                    decreases l@.len() - i,
                {
                    v.push(l[i].clone());
                    i = i + 1;
                }
                proof {
                    assert(v@.map_values(|s: String| s@) =~= l@.map_values(|s: String| s@));
                }
                Some(v)
            },
        }
    }
}

} // verus!
