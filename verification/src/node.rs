//! The composable text tree: literal fragments, nested lists of fragments and
//! deferred computations, rendered by one depth-first, left-to-right pass.
//!
//! The mathematical model of a tree is the sequence of its leaves in document
//! order ([`Node::leaves`]). A rendering of the tree is the concatenation of
//! one text per leaf: a literal leaf yields its own text, a deferred leaf
//! yields whatever one call of its computation returns.
use crate::node_laws::{
    lemma_leaves_of_step, lemma_outlines_of_step, lemma_outputs_concat, lemma_plain_renders,
    lemma_ready_child, lemma_renders_single,
};
use vstd::prelude::*;

verus! {

/// A segment of a document that cannot be reduced further.
///
/// `F` is the type of the deferred computations of the tree. Callers that
/// want to mix closures of several types in one tree choose a boxed
/// callable for `F`.
pub enum Node<'a, F> {
    /// Children in document order; renders as their concatenation.
    List(Vec<Node<'a, F>>),
    /// A borrowed literal; renders verbatim.
    Str(&'a str),
    /// A computation that is run each time the tree is rendered.
    Fn(F),
}

/// A complete document: a marker around the node at its top.
pub struct Root<'a, F> {
    pub root: Node<'a, F>,
}

/// A leaf of a tree, as the model sees it.
pub enum Leaf<F> {
    /// A literal and its text.
    Text(Seq<char>),
    /// A deferred computation.
    Lazy(F),
}

/// The structure of a tree with the computations blanked out: all that
/// introspection may look at.
pub enum Outline {
    List(Seq<Outline>),
    Text(Seq<char>),
    Lazy,
}

/// Every leaf of `leaves` is a literal, none is deferred.
pub open spec fn plain<F>(leaves: Seq<Leaf<F>>) -> bool {
    forall|k: int| 0 <= k < leaves.len() ==> #[trigger] leaves[k] is Text
}

/// The text of a sequence of literal leaves.
pub open spec fn plain_text<F>(leaves: Seq<Leaf<F>>) -> Seq<char> {
    Seq::new(leaves.len(), |k: int| leaves[k]->Text_0).flatten()
}

/// Every deferred leaf of `leaves` may be called.
pub open spec fn ready<F: Fn() -> String>(leaves: Seq<Leaf<F>>) -> bool {
    forall|k: int|
        0 <= k < leaves.len() ==> (#[trigger] leaves[k] matches Leaf::Lazy(f) ==> call_requires(
            f,
            (),
        ))
}

/// `text` is what `leaf` contributes to one rendering: a literal contributes
/// itself, a deferred leaf the result of one call.
pub open spec fn yields<F: Fn() -> String>(leaf: Leaf<F>, text: Seq<char>) -> bool {
    match leaf {
        Leaf::Text(t) => text == t,
        Leaf::Lazy(f) => exists|s: String| call_ensures(f, (), s) && s@ == text,
    }
}

/// `parts` holds exactly one contribution for each leaf, in order.
pub open spec fn outputs_of<F: Fn() -> String>(
    leaves: Seq<Leaf<F>>,
    parts: Seq<Seq<char>>,
) -> bool {
    &&& parts.len() == leaves.len()
    &&& forall|k: int| 0 <= k < leaves.len() ==> #[trigger] yields(leaves[k], parts[k])
}

/// `text` is a rendering of `leaves`: the contributions of the leaves, one
/// each, joined in order with nothing in between.
pub open spec fn renders<F: Fn() -> String>(leaves: Seq<Leaf<F>>, text: Seq<char>) -> bool {
    exists|parts: Seq<Seq<char>>| #[trigger] outputs_of(leaves, parts) && text == parts.flatten()
}

impl<'a, F> Node<'a, F> {
    /// The leaves of the tree in pre-order, left to right.
    pub open spec fn leaves(&self) -> Seq<Leaf<F>>
        decreases self,
    {
        match self {
            Node::List(children) => Self::leaves_of(children@),
            Node::Str(s) => seq![Leaf::Text(s@)],
            Node::Fn(f) => seq![Leaf::Lazy(*f)],
        }
    }

    /// The leaves of a sequence of trees: those of the first tree, then
    /// those of the second, and so on.
    pub open spec fn leaves_of(nodes: Seq<Node<'a, F>>) -> Seq<Leaf<F>>
        decreases nodes,
    {
        if nodes.len() == 0 {
            Seq::empty()
        } else {
            Self::leaves_of(nodes.drop_last()) + nodes.last().leaves()
        }
    }

    /// The structure of the tree without its computations.
    pub open spec fn outline(&self) -> Outline
        decreases self,
    {
        match self {
            Node::List(children) => Outline::List(Self::outlines_of(children@)),
            Node::Str(s) => Outline::Text(s@),
            Node::Fn(_) => Outline::Lazy,
        }
    }

    /// The outlines of a sequence of trees, one for one.
    pub open spec fn outlines_of(nodes: Seq<Node<'a, F>>) -> Seq<Outline>
        decreases nodes,
    {
        if nodes.len() == 0 {
            Seq::empty()
        } else {
            Self::outlines_of(nodes.drop_last()).push(nodes.last().outline())
        }
    }
}

/// What `{:?}` prints for a string slice: the text between double quotes,
/// with the characters that need it escaped.
pub uninterp spec fn debug_quoted(text: Seq<char>) -> Seq<char>;

/// The diagnostic form of an outline: `List([..])` around the forms of the
/// children, `Str(..)` around the quoted literal, and the bare word `Fn` for
/// a computation.
pub open spec fn debug_text(outline: Outline) -> Seq<char>
    decreases outline,
{
    match outline {
        Outline::List(items) => "List(["@ + debug_join(items) + "])"@,
        Outline::Text(text) => "Str("@ + debug_quoted(text) + ")"@,
        Outline::Lazy => "Fn"@,
    }
}

/// The diagnostic forms of `items`, separated by a comma and a space.
pub open spec fn debug_join(items: Seq<Outline>) -> Seq<char>
    decreases items,
{
    if items.len() == 0 {
        Seq::empty()
    } else if items.len() == 1 {
        debug_text(items[0])
    } else {
        debug_join(items.drop_last()) + ", "@ + debug_text(items.last())
    }
}

impl<'a, F> View for Node<'a, F> {
    type V = Seq<Leaf<F>>;

    open spec fn view(&self) -> Seq<Leaf<F>> {
        self.leaves()
    }
}

impl<'a, F> View for Root<'a, F> {
    type V = Seq<Leaf<F>>;

    open spec fn view(&self) -> Seq<Leaf<F>> {
        self.root.leaves()
    }
}

impl<'a, F: Fn() -> String> Node<'a, F> {
    /// Every computation in the tree may be called.
    pub open spec fn callable(&self) -> bool {
        ready(self.leaves())
    }

    /// `text` is a rendering of the tree.
    pub open spec fn renders_to(&self, text: Seq<char>) -> bool {
        renders(self.leaves(), text)
    }

    /// Appends one rendering of the trees `nodes` to `out`, tree by tree.
    fn write_all(nodes: &Vec<Node<'a, F>>, out: &mut String)
        requires
            ready(Self::leaves_of(nodes@)),
        ensures
            exists|text: Seq<char>| #[trigger]
                renders(Self::leaves_of(nodes@), text) && final(out)@ == old(out)@ + text,
        decreases nodes,
    {
        let ghost start = out@;
        let ghost mut parts: Seq<Seq<char>> = Seq::empty();
        let mut i: usize = 0;
        proof {
            assert(nodes@.take(0) =~= Seq::empty());
            assert(out@ =~= start + parts.flatten());
        }
        while i < nodes.len()
            invariant
                i <= nodes.len(),
                ready(Self::leaves_of(nodes@)),
                outputs_of(Self::leaves_of(nodes@.take(i as int)), parts),
                out@ == start + parts.flatten(),
            decreases nodes.len() - i,
        {
            let ghost before = out@;
            proof {
                lemma_ready_child(nodes@, i as int);
            }
            nodes[i].write_to(out);
            proof {
                let text = choose|text: Seq<char>| #[trigger]
                    nodes[i as int].renders_to(text) && out@ == before + text;
                let more = choose|more: Seq<Seq<char>>| #[trigger]
                    outputs_of(nodes[i as int].leaves(), more) && text == more.flatten();
                lemma_leaves_of_step(nodes@, i as int);
                lemma_outputs_concat(
                    Self::leaves_of(nodes@.take(i as int)),
                    parts,
                    nodes[i as int].leaves(),
                    more,
                );
                assert(out@ =~= start + (parts + more).flatten());
                parts = parts + more;
            }
            i += 1;
        }
        proof {
            assert(nodes@.take(i as int) =~= nodes@);
            assert(renders(Self::leaves_of(nodes@), parts.flatten()));
        }
    }

    /// Appends one rendering of the tree to `out`, visiting the leaves in
    /// document order and calling each computation once.
    fn write_to(&self, out: &mut String)
        requires
            self.callable(),
        ensures
            exists|text: Seq<char>| #[trigger]
                self.renders_to(text) && final(out)@ == old(out)@ + text,
        decreases self,
    {
        match self {
            Node::List(children) => {
                let ghost before = out@;
                Self::write_all(children, out);
                proof {
                    let text = choose|text: Seq<char>| #[trigger]
                        renders(Self::leaves_of(children@), text) && out@ == before + text;
                    assert(self.renders_to(text));
                }
            },
            Node::Str(s) => {
                out.append(s);
                proof {
                    lemma_renders_single(Leaf::<F>::Text(s@), s@);
                    assert(self.renders_to(s@));
                }
            },
            Node::Fn(f) => {
                assert(self.leaves()[0] == Leaf::Lazy(*f));
                let s = f();
                out.append(s.as_str());
                proof {
                    lemma_renders_single(Leaf::Lazy(*f), s@);
                    assert(self.renders_to(s@));
                }
            },
        }
    }

    /// Renders the tree: one pass over its leaves, left to right, with
    /// nothing put between them. Each computation in the tree is called
    /// exactly once and its result used as it is; nothing is kept from one
    /// rendering to the next. A tree without computations has one rendering,
    /// the text of its literals.
    pub fn render(&self) -> (text: String)
        requires
            self.callable(),
        ensures
            self.renders_to(text@),
            plain(self@) ==> text@ == plain_text(self@),
    {
        let mut out = String::new();
        self.write_to(&mut out);
        proof {
            let t = choose|t: Seq<char>| #[trigger]
                self.renders_to(t) && out@ == Seq::<char>::empty() + t;
            assert(out@ =~= t);
            if plain(self@) {
                lemma_plain_renders(self@, out@);
            }
        }
        out
    }

    /// Renders each of `nodes` in order and joins the results: the same
    /// text as rendering one list that holds them.
    pub fn render_all(nodes: Vec<Node<'a, F>>) -> (text: String)
        requires
            ready(Self::leaves_of(nodes@)),
        ensures
            renders(Self::leaves_of(nodes@), text@),
            plain(Self::leaves_of(nodes@)) ==> text@ == plain_text(Self::leaves_of(nodes@)),
    {
        let mut out = String::new();
        Self::write_all(&nodes, &mut out);
        proof {
            let t = choose|t: Seq<char>| #[trigger]
                renders(Self::leaves_of(nodes@), t) && out@ == Seq::<char>::empty() + t;
            assert(out@ =~= t);
            if plain(Self::leaves_of(nodes@)) {
                lemma_plain_renders(Self::leaves_of(nodes@), out@);
            }
        }
        out
    }
}

/// Formats a string slice with `{:?}` (the `Debug` form that `std` gives to
/// `str`). Trusted: the result is what the name `debug_quoted` stands for.
#[verifier::external_body]
fn quoted(text: &str) -> (out: String)
    ensures
        out@ == debug_quoted(text@),
{
    format!("{:?}", text)
}

impl<'a, F> Node<'a, F> {
    /// Appends the diagnostic forms of `nodes`, separated by `, `, to `out`.
    fn write_debug_all(nodes: &Vec<Node<'a, F>>, out: &mut String)
        ensures
            final(out)@ == old(out)@ + debug_join(Self::outlines_of(nodes@)),
        decreases nodes,
    {
        let ghost start = out@;
        let mut i: usize = 0;
        proof {
            assert(nodes@.take(0) =~= Seq::empty());
            assert(out@ =~= start + debug_join(Self::outlines_of(nodes@.take(0))));
        }
        while i < nodes.len()
            invariant
                i <= nodes.len(),
                out@ == start + debug_join(Self::outlines_of(nodes@.take(i as int))),
            decreases nodes.len() - i,
        {
            let ghost before = out@;
            if i > 0 {
                out.append(", ");
            }
            nodes[i].write_debug(out);
            proof {
                lemma_outlines_of_step(nodes@, i as int);
                let done = Self::outlines_of(nodes@.take(i as int));
                let next = done.push(nodes[i as int].outline());
                assert(next.drop_last() =~= done);
                assert(next.last() == nodes[i as int].outline());
                if i > 0 {
                    assert(out@ =~= start + (debug_join(done) + ", "@ + debug_text(next.last())));
                } else {
                    assert(debug_join(done) =~= Seq::<char>::empty());
                    assert(out@ =~= start + debug_text(next[0]));
                }
            }
            i += 1;
        }
        proof {
            assert(nodes@.take(i as int) =~= nodes@);
        }
    }

    /// Appends the diagnostic form of the tree to `out`.
    fn write_debug(&self, out: &mut String)
        ensures
            final(out)@ == old(out)@ + debug_text(self.outline()),
        decreases self,
    {
        let ghost start = out@;
        match self {
            Node::List(children) => {
                out.append("List([");
                Self::write_debug_all(children, out);
                out.append("])");
                assert(out@ =~= start + ("List(["@ + debug_join(Self::outlines_of(children@))
                    + "])"@));
            },
            Node::Str(s) => {
                out.append("Str(");
                let q = quoted(s);
                out.append(q.as_str());
                out.append(")");
                assert(out@ =~= start + ("Str("@ + debug_quoted(s@) + ")"@));
            },
            Node::Fn(_) => {
                out.append("Fn");
            },
        }
    }

    /// The structure of the tree, written out for diagnostics: lists show
    /// their children, literals their quoted text, and a computation shows
    /// as the bare word `Fn`. No computation of the tree is called: the
    /// result is a function of the outline alone, and nothing is required
    /// of the computations.
    pub fn debug_string(&self) -> (out: String)
        ensures
            out@ == debug_text(self.outline()),
    {
        let mut out = String::new();
        self.write_debug(&mut out);
        assert(out@ =~= debug_text(self.outline()));
        out
    }
}

impl<'a, F> From<Node<'a, F>> for Root<'a, F> {
    /// Takes ownership of `value` as the top of a document.
    fn from(value: Node<'a, F>) -> (root: Self) {
        Root { root: value }
    }
}

impl<'a, F> vstd::std_specs::convert::FromSpecImpl<Node<'a, F>> for Root<'a, F> {
    open spec fn obeys_from_spec() -> bool {
        true
    }

    open spec fn from_spec(value: Node<'a, F>) -> Self {
        Root { root: value }
    }
}

impl<'a, F> From<Vec<Node<'a, F>>> for Node<'a, F> {
    /// Collects `nodes` into one list node, keeping their order.
    fn from(nodes: Vec<Node<'a, F>>) -> (list: Self) {
        Node::List(nodes)
    }
}

impl<'a, F> vstd::std_specs::convert::FromSpecImpl<Vec<Node<'a, F>>> for Node<'a, F> {
    open spec fn obeys_from_spec() -> bool {
        true
    }

    open spec fn from_spec(nodes: Vec<Node<'a, F>>) -> Self {
        Node::List(nodes)
    }
}

/// The diagnostic form of a document around that of its top node.
pub open spec fn root_debug_text(outline: Outline) -> Seq<char> {
    "Root { root: "@ + debug_text(outline) + " }"@
}

impl<'a, F> Root<'a, F> {
    /// The structure of the document, written out for diagnostics, without
    /// calling any of its computations.
    pub fn debug_string(&self) -> (out: String)
        ensures
            out@ == root_debug_text(self.root.outline()),
    {
        let mut out = String::new();
        out.append("Root { root: ");
        let inner = self.root.debug_string();
        out.append(inner.as_str());
        out.append(" }");
        assert(out@ =~= root_debug_text(self.root.outline()));
        out
    }
}

impl<'a, F: Fn() -> String> Root<'a, F> {
    /// Renders the document: exactly what rendering its top node gives.
    pub fn render(&self) -> (text: String)
        requires
            self.root.callable(),
        ensures
            self.root.renders_to(text@),
            plain(self@) ==> text@ == plain_text(self@),
    {
        self.root.render()
    }
}

} // verus!
