//! The parsed page: a `kuchiki` tree, described by the HTML it was parsed
//! from and by the elements detached from it since.
use vstd::prelude::*;
use crate::skills::opt_view;

verus! {

/// A node of a `kuchiki` DOM tree, carried through opaquely.
#[verifier::external_type_specification]
#[verifier::external_body]
pub struct ExNodeRef(kuchiki::NodeRef);

/// How many elements `kuchiki::NodeRef::select` finds for a selector in a
/// page, given by its source and the detachments applied to it; `None`
/// when the selector does not parse.
pub uninterp spec fn dom_match_count(
    page: (Seq<char>, Seq<(Seq<char>, nat, nat)>),
    selector: Seq<char>,
) -> Option<nat>;

/// The value that `kuchiki::Attributes::get` gives for an attribute of the
/// `index`-th element that a selector finds in a page.
pub uninterp spec fn dom_match_attribute(
    selection: ((Seq<char>, Seq<(Seq<char>, nat, nat)>), Seq<char>),
    index: nat,
    name: Seq<char>,
) -> Option<Seq<char>>;

/// The text (`kuchiki::NodeRef::text_contents`) of the `index`-th element
/// that a selector finds in a page.
pub uninterp spec fn dom_match_text(
    selection: ((Seq<char>, Seq<(Seq<char>, nat, nat)>), Seq<char>),
    index: nat,
) -> Seq<char>;

/// The bytes that `kuchiki::NodeRef::serialize` writes for a page; `None`
/// when writing fails.
pub uninterp spec fn dom_serialized(page: (Seq<char>, Seq<(Seq<char>, nat, nat)>)) -> Option<
    Seq<u8>,
>;

pub open spec fn opt_bytes(o: Option<Vec<u8>>) -> Option<Seq<u8>> {
    match o {
        Some(b) => Some(b@),
        None => None,
    }
}

/// A parsed HTML page and the elements that a selector last found in it.
///
/// Its view is `(source, edits)`: the tree is the one `kuchiki` parsed from
/// `source`, with the edits applied in order. An edit `(selector, base,
/// index)` detached the element that was the `index`-th match of
/// `selector`, in document order, once the first `base` edits had been
/// applied. The fields are private to this module, and only the trusted
/// functions below, each of which makes the `kuchiki` call that the change
/// stands for, set them.
pub struct Document {
    node: kuchiki::NodeRef,
    selected: Vec<kuchiki::NodeRef>,
    source: Ghost<Seq<char>>,
    edits: Ghost<Seq<(Seq<char>, nat, nat)>>,
    selection: Ghost<Option<(Seq<char>, nat)>>,
}

impl View for Document {
    type V = (Seq<char>, Seq<(Seq<char>, nat, nat)>);

    closed spec fn view(&self) -> Self::V {
        (self.source@, self.edits@)
    }
}

impl Document {
    /// The selector of the last selection and how many edits had been
    /// applied when it was made; `None` before any selection, and after one
    /// whose selector did not parse.
    pub closed spec fn selection(&self) -> Option<(Seq<char>, nat)> {
        self.selection@
    }

    /// The selector of the last selection.
    pub open spec fn selected_by(&self) -> Seq<char> {
        match self.selection() {
            Some((s, _)) => s,
            None => seq![],
        }
    }

    /// How many edits had been applied when the last selection was made.
    pub open spec fn selected_at(&self) -> nat {
        match self.selection() {
            Some((_, b)) => b,
            None => 0,
        }
    }

    /// The page as it was when the last selection was made, and its selector.
    pub open spec fn selected_page(&self) -> ((Seq<char>, Seq<(Seq<char>, nat, nat)>), Seq<char>) {
        ((self@.0, self@.1.take(self.selected_at() as int)), self.selected_by())
    }

    /// How many elements the last selection found.
    pub open spec fn selected_count(&self) -> nat {
        match self.selection() {
            Some(_) => match dom_match_count(self.selected_page().0, self.selected_page().1) {
                Some(n) => n,
                None => 0,
            },
            None => 0,
        }
    }

    /// Parses HTML with `kuchiki::parse_html().one`. Trusted: the page it
    /// gives is described by the HTML and no edit.
    #[verifier::external_body]
    pub fn parse(html: &str) -> (r: Document)
        ensures
            r@ == (html@, Seq::<(Seq<char>, nat, nat)>::empty()),
            r.selection() is None,
    {
        Document {
            node: kuchiki::traits::TendrilSink::one(kuchiki::parse_html(), html),
            selected: Vec::new(),
            source: Ghost(html@),
            edits: Ghost(Seq::empty()),
            selection: Ghost(None),
        }
    }

    /// Selects the elements that `kuchiki::NodeRef::select` finds, in
    /// document order, and gives how many; `None` for a selector that does
    /// not parse. Trusted: as many as [`dom_match_count`] names.
    #[verifier::external_body]
    pub fn select(&mut self, selector: &str) -> (r: Option<usize>)
        ensures
            final(self)@ == old(self)@,
            r is Some <==> dom_match_count(old(self)@, selector@) is Some,
            r matches Some(n) ==> n == dom_match_count(old(self)@, selector@)->0,
            final(self).selection() == if r is Some {
                Some((selector@, old(self)@.1.len()))
            } else {
                None::<(Seq<char>, nat)>
            },
    {
        match self.node.select(selector) {
            Ok(found) => {
                self.selected = found.map(|element| element.as_node().clone()).collect();
                self.selection = Ghost(Some((selector@, self.edits@.len())));
                Some(self.selected.len())
            },
            Err(()) => {
                self.selected = Vec::new();
                self.selection = Ghost(None);
                None
            },
        }
    }

    /// The value of an attribute of a selected element
    /// (`kuchiki::Attributes::get`). Trusted: the value that
    /// [`dom_match_attribute`] names for the page as it was when selected;
    /// detaching elements changes no attribute.
    #[verifier::external_body]
    pub fn selected_attribute(&self, index: usize, name: &str) -> (r: Option<String>)
        requires
            index < self.selected_count(),
        ensures
            opt_view(r) == dom_match_attribute(self.selected_page(), index as nat, name@),
    {
        let element = self.selected[index].as_element()?;
        let attributes = element.attributes.borrow();
        attributes.get(name).map(|value| value.to_string())
    }

    /// The text of a selected element (`kuchiki::NodeRef::text_contents`),
    /// read before anything was detached since the selection. Trusted: the
    /// text that [`dom_match_text`] names.
    #[verifier::external_body]
    pub fn selected_text(&self, index: usize) -> (r: String)
        requires
            index < self.selected_count(),
            self.selected_at() == self@.1.len(),
        ensures
            r@ == dom_match_text(self.selected_page(), index as nat),
    {
        self.selected[index].text_contents()
    }

    /// Detaches a selected element from its parent and siblings
    /// (`kuchiki::NodeRef::detach`). Trusted: the page gains the edit that
    /// stands for it.
    #[verifier::external_body]
    pub fn detach_selected(&mut self, index: usize)
        requires
            index < old(self).selected_count(),
            old(self).selected_at() <= old(self)@.1.len(),
        ensures
            final(self)@ == (
                old(self)@.0,
                old(self)@.1.push((old(self).selected_by(), old(self).selected_at(), index as nat)),
            ),
            final(self).selection() == old(self).selection(),
    {
        self.selected[index].detach();
        self.edits = Ghost(self.edits@.push((self.selected_by(), self.selected_at(), index as nat)));
    }

    /// The HTML serialization of the page (`kuchiki::NodeRef::serialize` into
    /// a byte buffer); `None` when writing fails. Trusted: the bytes that
    /// [`dom_serialized`] names.
    #[verifier::external_body]
    pub fn serialize(&self) -> (r: Option<Vec<u8>>)
        ensures
            opt_bytes(r) == dom_serialized(self@),
    {
        let mut out: Vec<u8> = Vec::new();
        match self.node.serialize(&mut out) {
            Ok(()) => Some(out),
            Err(_) => None,
        }
    }
}

} // verus!
