//! A small sink for writing XML documents: elements are opened and closed
//! explicitly and everything accumulates in one buffer.

use vstd::prelude::*;

use crate::escape::{push_escaped, push_str_chars, spec_escape, EscapeKind};
use crate::strutil::string_from_chars;

verus! {

/// What an element start tag renders as: the name, each attribute with its
/// escaped value, and `>` or ` />`.
pub open spec fn spec_el_start(
    name: Seq<char>,
    attrs: Seq<(Seq<char>, Seq<char>)>,
    self_closed: bool,
) -> Seq<char> {
    "<"@ + name + spec_attrs(attrs) + (if self_closed {
        " />"@
    } else {
        ">"@
    })
}

/// What a run of attributes renders as.
pub open spec fn spec_attrs(attrs: Seq<(Seq<char>, Seq<char>)>) -> Seq<char>
    decreases attrs.len(),
{
    if attrs.len() == 0 {
        Seq::empty()
    } else {
        " "@ + attrs[0].0 + "=\""@ + spec_escape(EscapeKind::Attr, attrs[0].1) + "\""@
            + spec_attrs(attrs.drop_first())
    }
}

/// The views of an attribute vector.
pub open spec fn attr_views(attrs: Seq<(String, String)>) -> Seq<(Seq<char>, Seq<char>)> {
    attrs.map_values(|p: (String, String)| (p.0@, p.1@))
}

/// The header an XML document starts with.
pub open spec fn spec_xml_header() -> Seq<char> {
    "<?xml version=\"1.0\"?>\n\n"@
}

/// The header an XHTML document starts with.
pub open spec fn spec_xhtml_header() -> Seq<char> {
    "<?xml version=\"1.0\" encoding=\"UTF-8\"?>\n<!DOCTYPE html>\n\n"@
}

/// The close tags that shut a stack of open elements, innermost first.
pub open spec fn spec_close_all(names: Seq<Seq<char>>) -> Seq<char>
    decreases names.len(),
{
    if names.len() == 0 {
        Seq::empty()
    } else {
        "</"@ + names.last() + ">"@ + spec_close_all(names.drop_last())
    }
}

/// A sink accumulating one XML document, tracking which elements are open.
pub struct XmlSink {
    pub out: Vec<char>,
    pub open_els: Vec<String>,
}

impl XmlSink {
    /// The names of the elements still open, outermost first.
    pub open spec fn open_names(&self) -> Seq<Seq<char>> {
        self.open_els@.map_values(|s: String| s@)
    }

    /// A sink holding the XML header, with nothing open.
    pub fn new() -> (r: Self)
        ensures
            r.out@ == spec_xml_header(),
            r.open_names() == Seq::<Seq<char>>::empty(),
    {
        let mut out: Vec<char> = Vec::new();
        push_str_chars("<?xml version=\"1.0\"?>\n\n", &mut out);
        proof {
            assert(out@ =~= spec_xml_header());
            assert(Seq::<String>::empty().map_values(|s: String| s@) =~= Seq::<
                Seq<char>,
            >::empty());
        }
        XmlSink { out, open_els: Vec::new() }
    }

    /// A sink holding the XHTML header, with nothing open.
    pub fn new_xhtml() -> (r: Self)
        ensures
            r.out@ == spec_xhtml_header(),
            r.open_names() == Seq::<Seq<char>>::empty(),
    {
        let mut out: Vec<char> = Vec::new();
        push_str_chars("<?xml version=\"1.0\" encoding=\"UTF-8\"?>\n<!DOCTYPE html>\n\n", &mut out);
        proof {
            assert(out@ =~= spec_xhtml_header());
            assert(Seq::<String>::empty().map_values(|s: String| s@) =~= Seq::<
                Seq<char>,
            >::empty());
        }
        XmlSink { out, open_els: Vec::new() }
    }

    /// Appends an element start tag with its attributes.
    fn write_el_start(&mut self, name: &str, attrs: &Vec<(String, String)>, self_closed: bool)
        ensures
            final(self).out@ == old(self).out@ + spec_el_start(
                name@,
                attr_views(attrs@),
                self_closed,
            ),
            final(self).open_els == old(self).open_els,
    {
        push_str_chars("<", &mut self.out);
        push_str_chars(name, &mut self.out);
        let ghost av = attr_views(attrs@);
        let ghost base = self.out@;
        let mut i: usize = 0;
        proof {
            assert(av.skip(0) =~= av);
        }
        while i < attrs.len()
            invariant
                av == attr_views(attrs@),
                i <= attrs@.len(),
                self.out@ + spec_attrs(av.skip(i as int)) == base + spec_attrs(av),
                self.open_els == old(self).open_els,
            decreases attrs@.len() - i,
        {
            proof {
                assert(av.skip(i as int)[0] == av[i as int]);
                assert(av[i as int] == (attrs@[i as int].0@, attrs@[i as int].1@));
                assert(av.skip(i as int).drop_first() =~= av.skip(i as int + 1));
            }
            push_str_chars(" ", &mut self.out);
            push_str_chars(attrs[i].0.as_str(), &mut self.out);
            push_str_chars("=\"", &mut self.out);
            push_escaped(EscapeKind::Attr, attrs[i].1.as_str(), &mut self.out);
            push_str_chars("\"", &mut self.out);
            i = i + 1;
        }
        proof {
            assert(av.skip(av.len() as int) =~= Seq::<(Seq<char>, Seq<char>)>::empty());
        }
        if self_closed {
            push_str_chars(" />", &mut self.out);
        } else {
            push_str_chars(">", &mut self.out);
        }
        proof {
            assert(self.out@ =~= old(self).out@ + spec_el_start(
                name@,
                attr_views(attrs@),
                self_closed,
            ));
        }
    }

    /// Opens an element with the given attributes; it stays open until a
    /// close is written for it.
    pub fn mkel(&mut self, name: &str, attrs: &Vec<(String, String)>)
        ensures
            final(self).out@ == old(self).out@ + spec_el_start(name@, attr_views(attrs@), false),
            final(self).open_names() == old(self).open_names().push(name@),
    {
        self.write_el_start(name, attrs, false);
        let ghost prev = self.open_els@;
        self.open_els.push(name.to_owned());
        proof {
            assert(self.open_els@ == prev.push(self.open_els@[prev.len() as int]));
            prev.lemma_push_map_commute(
                |s: String| s@,
                self.open_els@[prev.len() as int],
            );
            assert(self.open_names() =~= old(self).open_names().push(name@));
        }
    }

    /// Writes a self-closed element with the given attributes; nothing is
    /// left open.
    pub fn mkel_selfclosed(&mut self, name: &str, attrs: &Vec<(String, String)>)
        ensures
            final(self).out@ == old(self).out@ + spec_el_start(name@, attr_views(attrs@), true),
            final(self).open_els == old(self).open_els,
    {
        self.write_el_start(name, attrs, true);
    }

    /// Closes the innermost open element, which must carry the given name.
    pub fn close_el(&mut self, name: &str)
        requires
            old(self).open_names().len() > 0,
            old(self).open_names().last() == name@,
        ensures
            final(self).out@ == old(self).out@ + "</"@ + name@ + ">"@,
            final(self).open_names() == old(self).open_names().drop_last(),
    {
        push_str_chars("</", &mut self.out);
        push_str_chars(name, &mut self.out);
        push_str_chars(">", &mut self.out);
        let ghost prev = self.open_els@;
        let _closed = self.open_els.pop();
        proof {
            assert(self.open_names() =~= old(self).open_names().drop_last());
        }
    }

    /// Writes raw element content.
    pub fn write_field(&mut self, val: &str)
        ensures
            final(self).out@ == old(self).out@ + val@,
            final(self).open_els == old(self).open_els,
    {
        push_str_chars(val, &mut self.out);
    }

    /// Writes element content with body escaping.
    pub fn write_field_escaped(&mut self, val: &str)
        ensures
            final(self).out@ == old(self).out@ + spec_escape(EscapeKind::Body, val@),
            final(self).open_els == old(self).open_els,
    {
        push_escaped(EscapeKind::Body, val, &mut self.out);
    }

    /// Writes a line feed.
    pub fn write_lf(&mut self)
        ensures
            final(self).out@ == old(self).out@ + "\n"@,
            final(self).open_els == old(self).open_els,
    {
        push_str_chars("\n", &mut self.out);
    }

    /// The accumulated document, closed off: a close tag is flushed for
    /// every element still open, innermost first, so the elements opened
    /// via `mkel` are all closed in the result.
    pub fn finish(self) -> (r: String)
        ensures
            r@ == self.out@ + spec_close_all(self.open_names()),
    {
        let ghost base_out = self.out@;
        let ghost names0 = self.open_names();
        let mut this = self;
        while this.open_els.len() > 0
            invariant
                this.out@ + spec_close_all(this.open_names()) == base_out + spec_close_all(
                    names0,
                ),
            decreases this.open_els@.len(),
        {
            let ghost names_prev = this.open_names();
            let name = this.open_els.pop().unwrap();
            proof {
                assert(names_prev.last() == name@);
                assert(this.open_names() =~= names_prev.drop_last());
            }
            push_str_chars("</", &mut this.out);
            push_str_chars(name.as_str(), &mut this.out);
            push_str_chars(">", &mut this.out);
            proof {
                assert(this.out@ + spec_close_all(this.open_names()) =~= base_out
                    + spec_close_all(names0));
            }
        }
        proof {
            assert(this.open_names() =~= Seq::<Seq<char>>::empty());
            assert(this.out@ =~= base_out + spec_close_all(names0));
        }
        string_from_chars(&this.out)
    }
}

} // verus!
