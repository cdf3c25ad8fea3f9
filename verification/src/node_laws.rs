//! What holds of rendering for every tree: the laws that callers of
//! [`Node::render`](crate::node::Node::render) may rely on.
use crate::node::{outputs_of, plain, plain_text, ready, renders, yields, Leaf, Node};
use vstd::prelude::*;

verus! {

/// Readiness of a concatenation is readiness of both halves.
pub proof fn lemma_ready_concat<F: Fn() -> String>(a: Seq<Leaf<F>>, b: Seq<Leaf<F>>)
    ensures
        ready(a + b) <==> ready(a) && ready(b),
{
    if ready(a + b) {
        assert forall|k: int| 0 <= k < a.len() implies (#[trigger] a[k] matches Leaf::Lazy(f)
            ==> call_requires(f, ())) by {
            assert((a + b)[k] == a[k]);
        }
        assert forall|k: int| 0 <= k < b.len() implies (#[trigger] b[k] matches Leaf::Lazy(f)
            ==> call_requires(f, ())) by {
            assert((a + b)[k + a.len()] == b[k]);
        }
    }
    if ready(a) && ready(b) {
        assert forall|k: int| 0 <= k < (a + b).len() implies (#[trigger] (a + b)[k] matches Leaf::Lazy(
            f,
        ) ==> call_requires(f, ())) by {
            if k < a.len() {
                assert((a + b)[k] == a[k]);
            } else {
                assert((a + b)[k] == b[k - a.len()]);
            }
        }
    }
}

/// Contributions for two leaf sequences, put end to end, are contributions
/// for the two sequences put end to end, and their texts concatenate.
pub proof fn lemma_outputs_concat<F: Fn() -> String>(
    a: Seq<Leaf<F>>,
    pa: Seq<Seq<char>>,
    b: Seq<Leaf<F>>,
    pb: Seq<Seq<char>>,
)
    requires
        outputs_of(a, pa),
        outputs_of(b, pb),
    ensures
        outputs_of(a + b, pa + pb),
        (pa + pb).flatten() == pa.flatten() + pb.flatten(),
{
    assert forall|k: int| 0 <= k < (a + b).len() implies #[trigger] yields(
        (a + b)[k],
        (pa + pb)[k],
    ) by {
        if k < a.len() {
            assert(yields(a[k], pa[k]));
        } else {
            assert(yields(b[k - a.len()], pb[k - a.len()]));
        }
    }
    vstd::seq_lib::lemma_flatten_concat(pa, pb);
}

/// Contributions for a concatenation split into contributions for each half.
pub proof fn lemma_outputs_split<F: Fn() -> String>(
    a: Seq<Leaf<F>>,
    b: Seq<Leaf<F>>,
    parts: Seq<Seq<char>>,
)
    requires
        outputs_of(a + b, parts),
    ensures
        outputs_of(a, parts.take(a.len() as int)),
        outputs_of(b, parts.skip(a.len() as int)),
        parts.flatten() == parts.take(a.len() as int).flatten() + parts.skip(
            a.len() as int,
        ).flatten(),
{
    let pa = parts.take(a.len() as int);
    let pb = parts.skip(a.len() as int);
    assert forall|k: int| 0 <= k < a.len() implies #[trigger] yields(a[k], pa[k]) by {
        assert(yields((a + b)[k], parts[k]));
    }
    assert forall|k: int| 0 <= k < b.len() implies #[trigger] yields(b[k], pb[k]) by {
        assert(yields((a + b)[k + a.len()], parts[k + a.len()]));
    }
    assert(parts =~= pa + pb);
    vstd::seq_lib::lemma_flatten_concat(pa, pb);
}

/// A single leaf renders to exactly its contributions.
pub proof fn lemma_renders_single<F: Fn() -> String>(leaf: Leaf<F>, text: Seq<char>)
    ensures
        renders(seq![leaf], text) <==> yields(leaf, text),
{
    if yields(leaf, text) {
        let parts = seq![text];
        assert(yields(seq![leaf][0], parts[0]));
        assert(outputs_of(seq![leaf], parts));
        parts.lemma_flatten_one_element();
    }
    if renders(seq![leaf], text) {
        let parts = choose|parts: Seq<Seq<char>>| #[trigger]
            outputs_of(seq![leaf], parts) && text == parts.flatten();
        assert(yields(seq![leaf][0], parts[0]));
        parts.lemma_flatten_one_element();
    }
}

/// Literal leaves leave no choice: their only contributions are their texts.
pub proof fn lemma_plain_outputs<F: Fn() -> String>(leaves: Seq<Leaf<F>>, parts: Seq<Seq<char>>)
    requires
        plain(leaves),
    ensures
        outputs_of(leaves, parts) <==> parts == Seq::new(leaves.len(), |k: int| leaves[k]->Text_0),
{
    let texts = Seq::new(leaves.len(), |k: int| leaves[k]->Text_0);
    if outputs_of(leaves, parts) {
        assert forall|k: int| 0 <= k < leaves.len() implies parts[k] == texts[k] by {
            assert(leaves[k] is Text);
            assert(yields(leaves[k], parts[k]));
        }
        assert(parts =~= texts);
    }
    if parts == texts {
        assert forall|k: int| 0 <= k < leaves.len() implies #[trigger] yields(
            leaves[k],
            parts[k],
        ) by {
            assert(leaves[k] is Text);
        }
    }
}

/// A sequence of literal leaves has one rendering, its text.
pub proof fn lemma_plain_renders<F: Fn() -> String>(leaves: Seq<Leaf<F>>, text: Seq<char>)
    requires
        plain(leaves),
    ensures
        renders(leaves, text) <==> text == plain_text(leaves),
{
    let texts = Seq::new(leaves.len(), |k: int| leaves[k]->Text_0);
    lemma_plain_outputs(leaves, texts);
    if renders(leaves, text) {
        let parts = choose|parts: Seq<Seq<char>>| #[trigger]
            outputs_of(leaves, parts) && text == parts.flatten();
        lemma_plain_outputs(leaves, parts);
    }
}

/// The leaves of the first `i + 1` trees are those of the first `i`,
/// followed by those of tree `i`.
pub proof fn lemma_leaves_of_step<'a, F>(nodes: Seq<Node<'a, F>>, i: int)
    requires
        0 <= i < nodes.len(),
    ensures
        Node::leaves_of(nodes.take(i + 1)) == Node::leaves_of(nodes.take(i)) + nodes[i].leaves(),
{
    assert(nodes.take(i + 1).drop_last() =~= nodes.take(i));
}

/// If a sequence of trees is callable, so is each of them.
pub proof fn lemma_ready_child<'a, F: Fn() -> String>(nodes: Seq<Node<'a, F>>, i: int)
    requires
        0 <= i < nodes.len(),
        ready(Node::leaves_of(nodes)),
    ensures
        ready(nodes[i].leaves()),
    decreases nodes.len(),
{
    lemma_ready_concat(Node::leaves_of(nodes.drop_last()), nodes.last().leaves());
    if i < nodes.len() - 1 {
        lemma_ready_child(nodes.drop_last(), i);
    }
}

/// The outlines of the first `i + 1` trees are those of the first `i` and
/// that of tree `i`; there is one outline for each tree.
pub proof fn lemma_outlines_of_step<'a, F>(nodes: Seq<Node<'a, F>>, i: int)
    requires
        0 <= i < nodes.len(),
    ensures
        Node::outlines_of(nodes.take(i + 1)) == Node::outlines_of(nodes.take(i)).push(
            nodes[i].outline(),
        ),
        Node::outlines_of(nodes.take(i)).len() == i,
    decreases i,
{
    assert(nodes.take(i + 1).drop_last() =~= nodes.take(i));
    if i > 0 {
        lemma_outlines_of_step(nodes, i - 1);
    }
}

/// Rendering depends on nothing but the tree and what its computations
/// return: two renderings in which every computation returned the same
/// text are the same text.
pub proof fn lemma_rendering_determined_by_computations<F: Fn() -> String>(
    leaves: Seq<Leaf<F>>,
    first: Seq<Seq<char>>,
    second: Seq<Seq<char>>,
)
    requires
        outputs_of(leaves, first),
        outputs_of(leaves, second),
        forall|k: int| 0 <= k < leaves.len() && leaves[k] is Lazy ==> first[k] == second[k],
    ensures
        first == second,
        first.flatten() == second.flatten(),
{
    assert forall|k: int| 0 <= k < leaves.len() implies first[k] == second[k] by {
        assert(yields(leaves[k], first[k]));
        assert(yields(leaves[k], second[k]));
    }
    assert(first =~= second);
}

/// Where every leaf can contribute one text only, and `expected` holds
/// these texts, the one rendering is their concatenation.
pub proof fn lemma_renders_exactly<F: Fn() -> String>(
    leaves: Seq<Leaf<F>>,
    expected: Seq<Seq<char>>,
    text: Seq<char>,
)
    requires
        renders(leaves, text),
        expected.len() == leaves.len(),
        forall|k: int, part: Seq<char>|
            0 <= k < leaves.len() && #[trigger] yields(leaves[k], part) ==> part == expected[k],
    ensures
        text == expected.flatten(),
{
    let parts = choose|parts: Seq<Seq<char>>| #[trigger]
        outputs_of(leaves, parts) && text == parts.flatten();
    assert forall|k: int| 0 <= k < leaves.len() implies parts[k] == expected[k] by {
        assert(yields(leaves[k], parts[k]));
    }
    assert(parts =~= expected);
}

/// A tree without computations renders to one text only, whatever the
/// machine or the moment: the text of its literals in document order.
pub proof fn lemma_plain_tree_renders_once<'a, F: Fn() -> String>(
    node: Node<'a, F>,
    first: Seq<char>,
    second: Seq<char>,
)
    requires
        plain(node@),
        node.renders_to(first),
        node.renders_to(second),
    ensures
        first == second,
        first == plain_text(node@),
{
    lemma_plain_renders(node@, first);
    lemma_plain_renders(node@, second);
}

/// Nothing is remembered from one rendering to the next: where some
/// computation of a tree can return two different texts, the tree has two
/// different renderings, and rendering it twice may give the one and then
/// the other.
pub proof fn lemma_renderings_may_differ<F: Fn() -> String>(
    leaves: Seq<Leaf<F>>,
    parts: Seq<Seq<char>>,
    k: int,
    other: Seq<char>,
)
    requires
        outputs_of(leaves, parts),
        0 <= k < leaves.len(),
        yields(leaves[k], other),
        other != parts[k],
    ensures
        renders(leaves, parts.flatten()),
        renders(leaves, parts.update(k, other).flatten()),
        parts.flatten() != parts.update(k, other).flatten(),
{
    let changed = parts.update(k, other);
    assert forall|i: int| 0 <= i < leaves.len() implies #[trigger] yields(
        leaves[i],
        changed[i],
    ) by {
        if i != k {
            assert(yields(leaves[i], parts[i]));
        }
    }
    assert(outputs_of(leaves, changed));
    let before = parts.take(k);
    let after = parts.skip(k + 1);
    assert(parts =~= before + seq![parts[k]] + after);
    assert(changed =~= before + seq![other] + after);
    vstd::seq_lib::lemma_flatten_concat(before, seq![parts[k]]);
    vstd::seq_lib::lemma_flatten_concat(before + seq![parts[k]], after);
    vstd::seq_lib::lemma_flatten_concat(before, seq![other]);
    vstd::seq_lib::lemma_flatten_concat(before + seq![other], after);
    seq![parts[k]].lemma_flatten_one_element();
    seq![other].lemma_flatten_one_element();
    let x = before.flatten();
    let y = after.flatten();
    assert(parts.flatten() == x + parts[k] + y);
    assert(changed.flatten() == x + other + y);
    if x + parts[k] + y == x + other + y {
        assert((x + parts[k] + y).len() == (x + other + y).len());
        assert(parts[k].len() == other.len());
        assert forall|i: int| 0 <= i < other.len() implies parts[k][i] == other[i] by {
            assert((x + parts[k] + y)[x.len() + i] == parts[k][i]);
            assert((x + other + y)[x.len() + i] == other[i]);
        }
        assert(parts[k] =~= other);
    }
}

/// The empty list renders to the empty text, and to nothing else.
pub proof fn lemma_empty_list_renders_empty<'a, F: Fn() -> String>(
    children: Vec<Node<'a, F>>,
    text: Seq<char>,
)
    requires
        children@.len() == 0,
    ensures
        Node::List(children).renders_to(text) <==> text == Seq::<char>::empty(),
{
    let node = Node::List(children);
    assert(node@ =~= Seq::<Leaf<F>>::empty());
    assert(plain(node@));
    lemma_plain_renders(node@, text);
    assert(Seq::new(node@.len(), |k: int| node@[k]->Text_0) =~= Seq::<Seq<char>>::empty());
}

/// The renderings of two leaf sequences put end to end are the renderings
/// of the first, each followed by a rendering of the second.
pub proof fn lemma_renders_concat<F: Fn() -> String>(
    a: Seq<Leaf<F>>,
    b: Seq<Leaf<F>>,
    text: Seq<char>,
)
    ensures
        renders(a + b, text) <==> exists|ta: Seq<char>, tb: Seq<char>|
            #![trigger renders(a, ta), renders(b, tb)]
            renders(a, ta) && renders(b, tb) && text == ta + tb,
{
    if renders(a + b, text) {
        let parts = choose|parts: Seq<Seq<char>>| #[trigger]
            outputs_of(a + b, parts) && text == parts.flatten();
        lemma_outputs_split(a, b, parts);
        let ta = parts.take(a.len() as int).flatten();
        let tb = parts.skip(a.len() as int).flatten();
        assert(renders(a, ta) && renders(b, tb) && text == ta + tb);
    }
    if exists|ta: Seq<char>, tb: Seq<char>|
        #![trigger renders(a, ta), renders(b, tb)]
        renders(a, ta) && renders(b, tb) && text == ta + tb {
        let (ta, tb) = choose|ta: Seq<char>, tb: Seq<char>|
            #![trigger renders(a, ta), renders(b, tb)]
            renders(a, ta) && renders(b, tb) && text == ta + tb;
        let pa = choose|pa: Seq<Seq<char>>| #[trigger] outputs_of(a, pa) && ta == pa.flatten();
        let pb = choose|pb: Seq<Seq<char>>| #[trigger] outputs_of(b, pb) && tb == pb.flatten();
        lemma_outputs_concat(a, pa, b, pb);
    }
}

/// The leaves of two sequences of trees put end to end are the leaves of
/// the first sequence followed by the leaves of the second.
pub proof fn lemma_leaves_of_concat<'a, F>(xs: Seq<Node<'a, F>>, ys: Seq<Node<'a, F>>)
    ensures
        Node::leaves_of(xs + ys) == Node::leaves_of(xs) + Node::leaves_of(ys),
    decreases ys.len(),
{
    if ys.len() == 0 {
        assert(xs + ys =~= xs);
        assert(Node::leaves_of(xs) + Node::leaves_of(ys) =~= Node::leaves_of(xs));
    } else {
        lemma_leaves_of_concat(xs, ys.drop_last());
        assert((xs + ys).drop_last() =~= xs + ys.drop_last());
        assert((xs + ys).last() == ys.last());
        assert(Node::leaves_of(xs + ys) =~= Node::leaves_of(xs) + Node::leaves_of(ys));
    }
}

/// One tree alone has its own leaves.
pub proof fn lemma_leaves_of_single<'a, F>(node: Node<'a, F>)
    ensures
        Node::leaves_of(seq![node]) == node.leaves(),
{
    let single = seq![node];
    assert(single.drop_last() =~= Seq::<Node<'a, F>>::empty());
    assert(Node::leaves_of(single.drop_last()) =~= Seq::<Leaf<F>>::empty());
    assert(Node::leaves_of(single) =~= node.leaves());
}

/// The leaf that a node without children is.
pub open spec fn leaf_of<'a, F>(node: Node<'a, F>) -> Leaf<F> {
    match node {
        Node::Str(s) => Leaf::Text(s@),
        Node::Fn(f) => Leaf::Lazy(f),
        Node::List(_) => Leaf::Text(Seq::empty()),
    }
}

/// A sequence of nodes none of which is a list has one leaf for each node.
pub proof fn lemma_leaves_of_flat<'a, F>(nodes: Seq<Node<'a, F>>)
    requires
        forall|k: int| 0 <= k < nodes.len() ==> !(#[trigger] nodes[k] is List),
    ensures
        Node::leaves_of(nodes) == Seq::new(nodes.len(), |k: int| leaf_of(nodes[k])),
    decreases nodes.len(),
{
    if nodes.len() > 0 {
        let init = nodes.drop_last();
        assert forall|k: int| 0 <= k < init.len() implies !(#[trigger] init[k] is List) by {
            assert(init[k] == nodes[k]);
        }
        lemma_leaves_of_flat(init);
        assert(!(nodes[nodes.len() - 1] is List));
        assert(nodes.last().leaves() =~= seq![leaf_of(nodes.last())]);
        assert(Node::leaves_of(nodes) =~= Seq::new(nodes.len(), |k: int| leaf_of(nodes[k])));
    } else {
        assert(Node::leaves_of(nodes) =~= Seq::new(nodes.len(), |k: int| leaf_of(nodes[k])));
    }
}

/// A list of two nodes renders to a rendering of the first followed by a
/// rendering of the second, with no separator.
pub proof fn lemma_pair_renders_in_order<'a, F: Fn() -> String>(
    children: Vec<Node<'a, F>>,
    text: Seq<char>,
)
    requires
        children@.len() == 2,
    ensures
        Node::List(children).renders_to(text) <==> exists|ta: Seq<char>, tb: Seq<char>|
            #![trigger children@[0].renders_to(ta), children@[1].renders_to(tb)]
            children@[0].renders_to(ta) && children@[1].renders_to(tb) && text == ta + tb,
{
    let a = children@[0];
    let b = children@[1];
    assert(children@ =~= seq![a] + seq![b]);
    lemma_leaves_of_concat(seq![a], seq![b]);
    lemma_leaves_of_single(a);
    lemma_leaves_of_single(b);
    assert(Node::List(children)@ == a.leaves() + b.leaves());
    lemma_renders_concat(a.leaves(), b.leaves(), text);
    if Node::List(children).renders_to(text) {
        let (ta, tb) = choose|ta: Seq<char>, tb: Seq<char>|
            #![trigger renders(a.leaves(), ta), renders(b.leaves(), tb)]
            renders(a.leaves(), ta) && renders(b.leaves(), tb) && text == ta + tb;
        assert(children@[0].renders_to(ta) && children@[1].renders_to(tb) && text == ta + tb);
    }
    if exists|ta: Seq<char>, tb: Seq<char>|
        #![trigger children@[0].renders_to(ta), children@[1].renders_to(tb)]
        children@[0].renders_to(ta) && children@[1].renders_to(tb) && text == ta + tb {
        let (ta, tb) = choose|ta: Seq<char>, tb: Seq<char>|
            #![trigger children@[0].renders_to(ta), children@[1].renders_to(tb)]
            children@[0].renders_to(ta) && children@[1].renders_to(tb) && text == ta + tb;
        assert(renders(a.leaves(), ta) && renders(b.leaves(), tb) && text == ta + tb);
    }
}

/// Nesting does not show: a list in which one child is itself a list has
/// the leaves, and so the renderings, of the list with that child's
/// children written in its place.
pub proof fn lemma_nesting_is_flattened<'a, F: Fn() -> String>(
    outer: Vec<Node<'a, F>>,
    at: int,
    inner: Vec<Node<'a, F>>,
    flat: Vec<Node<'a, F>>,
)
    requires
        0 <= at < outer@.len(),
        outer@[at] == Node::List(inner),
        flat@ == outer@.take(at) + inner@ + outer@.skip(at + 1),
    ensures
        Node::List(outer)@ == Node::List(flat)@,
        forall|text: Seq<char>|
            Node::List(outer).renders_to(text) <==> Node::List(flat).renders_to(text),
{
    let before = outer@.take(at);
    let after = outer@.skip(at + 1);
    let nested = seq![outer@[at]];
    assert(outer@ =~= before + nested + after);
    lemma_leaves_of_concat(before, nested);
    lemma_leaves_of_concat(before + nested, after);
    lemma_leaves_of_concat(before, inner@);
    lemma_leaves_of_concat(before + inner@, after);
    lemma_leaves_of_single(outer@[at]);
}

/// `texts` holds one rendering for each of `nodes`, in order.
pub open spec fn each_renders<'a, F: Fn() -> String>(
    nodes: Seq<Node<'a, F>>,
    texts: Seq<Seq<char>>,
) -> bool {
    &&& texts.len() == nodes.len()
    &&& forall|i: int| 0 <= i < nodes.len() ==> #[trigger] nodes[i].renders_to(texts[i])
}

/// The renderings of the leaves of a sequence of trees are the renderings
/// of the trees, one each, joined in order.
pub proof fn lemma_renders_tree_by_tree<'a, F: Fn() -> String>(
    nodes: Seq<Node<'a, F>>,
    text: Seq<char>,
)
    ensures
        renders(Node::leaves_of(nodes), text) <==> exists|texts: Seq<Seq<char>>| #[trigger]
            each_renders(nodes, texts) && text == texts.flatten(),
    decreases nodes.len(),
{
    if nodes.len() == 0 {
        let none = Seq::<Seq<char>>::empty();
        if renders(Node::leaves_of(nodes), text) {
            let parts = choose|parts: Seq<Seq<char>>| #[trigger]
                outputs_of(Node::leaves_of(nodes), parts) && text == parts.flatten();
            assert(parts =~= none);
            assert(each_renders(nodes, none));
        }
        if exists|texts: Seq<Seq<char>>| #[trigger]
            each_renders(nodes, texts) && text == texts.flatten() {
            let texts = choose|texts: Seq<Seq<char>>| #[trigger]
                each_renders(nodes, texts) && text == texts.flatten();
            assert(texts =~= none);
            assert(outputs_of(Node::leaves_of(nodes), none));
        }
    } else {
        let init = nodes.drop_last();
        let last = nodes.last();
        lemma_renders_concat(Node::leaves_of(init), last.leaves(), text);
        if renders(Node::leaves_of(nodes), text) {
            let (head, tail) = choose|head: Seq<char>, tail: Seq<char>|
                #![trigger renders(Node::leaves_of(init), head), renders(last.leaves(), tail)]
                renders(Node::leaves_of(init), head) && renders(last.leaves(), tail) && text
                    == head + tail;
            lemma_renders_tree_by_tree(init, head);
            let firsts = choose|texts: Seq<Seq<char>>| #[trigger]
                each_renders(init, texts) && head == texts.flatten();
            let texts = firsts.push(tail);
            assert forall|i: int| 0 <= i < nodes.len() implies #[trigger] nodes[i].renders_to(
                texts[i],
            ) by {
                if i < init.len() {
                    assert(init[i].renders_to(firsts[i]));
                }
            }
            firsts.lemma_flatten_push(tail);
            assert(each_renders(nodes, texts) && text == texts.flatten());
        }
        if exists|texts: Seq<Seq<char>>| #[trigger]
            each_renders(nodes, texts) && text == texts.flatten() {
            let texts = choose|texts: Seq<Seq<char>>| #[trigger]
                each_renders(nodes, texts) && text == texts.flatten();
            let firsts = texts.drop_last();
            let tail = texts.last();
            assert(texts =~= firsts.push(tail));
            firsts.lemma_flatten_push(tail);
            assert forall|i: int| 0 <= i < init.len() implies #[trigger] init[i].renders_to(
                firsts[i],
            ) by {
                assert(nodes[i].renders_to(texts[i]));
            }
            assert(each_renders(init, firsts));
            lemma_renders_tree_by_tree(init, firsts.flatten());
            assert(nodes[nodes.len() - 1].renders_to(texts[nodes.len() - 1]));
            assert(renders(Node::leaves_of(init), firsts.flatten()) && renders(
                last.leaves(),
                tail,
            ) && text == firsts.flatten() + tail);
        }
    }
}

/// Collecting nodes into a list and rendering the list gives the same
/// texts as rendering the nodes one after the other and joining the
/// results.
pub proof fn lemma_collected_renders_as_joined<'a, F: Fn() -> String>(
    nodes: Vec<Node<'a, F>>,
    text: Seq<char>,
)
    ensures
        Node::List(nodes).renders_to(text) <==> renders(Node::leaves_of(nodes@), text),
        Node::List(nodes).renders_to(text) <==> exists|texts: Seq<Seq<char>>| #[trigger]
            each_renders(nodes@, texts) && text == texts.flatten(),
{
    lemma_renders_tree_by_tree(nodes@, text);
}

} // verus!
