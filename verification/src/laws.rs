//! What holds of every rendering: the laws of the text that the renderer
//! produces, each proved from the definitions.

use crate::parser::ast_types::{bare, AttrView, ElemView, NodeView};
use crate::renderer::{
    attr_text, attrs_text, interior_text, join, lemma_resolved_at, node_resolved, node_text,
    chain_fits, held_paths, nodes_resolved, nodes_text, opening_text, own_text, path_text,
    spliced_node, spliced_nodes, RenderFault,
};
use crate::table::lookup;
use vstd::prelude::*;

verus! {

/// The total length of the parts.
pub open spec fn total_len(parts: Seq<Seq<char>>) -> nat
    decreases parts.len(),
{
    if parts.len() == 0 {
        0
    } else {
        total_len(parts.drop_last()) + parts.last().len()
    }
}

/// An element whose text and children render as nothing closes itself, and
/// one that has only a tag renders as the tag between `<` and ` />`. Any
/// other element is wrapped, and the two forms never read the same.
pub proof fn lemma_self_closing(e: ElemView)
    ensures
        interior_text(e).len() == 0 <==> node_text(NodeView::Elem(e)) == "<"@ + opening_text(e)
            + " />"@,
        interior_text(e).len() != 0 ==> node_text(NodeView::Elem(e)) == "<"@ + opening_text(e)
            + ">"@ + interior_text(e) + "</"@ + e.tag + ">"@,
        e == bare(e.tag) ==> node_text(NodeView::Elem(e)) == "<"@ + e.tag + " />"@,
{
    reveal_strlit("<");
    reveal_strlit(" />");
    reveal_strlit(">");
    reveal_strlit("</");
    let closed = "<"@ + opening_text(e) + " />"@;
    let wrapped = "<"@ + opening_text(e) + ">"@ + interior_text(e) + "</"@ + e.tag + ">"@;
    assert(closed.len() < wrapped.len());
    if e == bare(e.tag) {
        assert(opening_text(e) =~= e.tag);
        assert(interior_text(e) =~= Seq::<char>::empty());
    }
}

/// The value of an attribute stands in single quotes exactly where it
/// holds a double quote, and in double quotes otherwise; the name, an equals
/// sign and the opening quote stand before it, the closing quote after it.
pub proof fn lemma_attr_quotes(a: AttrView)
    ensures
        attr_text(a).len() == a.name.len() + a.value.len() + 3,
        attr_text(a).subrange(0, a.name.len() as int) == a.name,
        attr_text(a)[a.name.len() as int] == '=',
        attr_text(a).subrange(a.name.len() as int + 2, attr_text(a).len() - 1) == a.value,
        a.value.contains('"') ==> attr_text(a)[a.name.len() as int + 1] == '\'' && attr_text(
            a,
        ).last() == '\'',
        !a.value.contains('"') ==> attr_text(a)[a.name.len() as int + 1] == '"' && attr_text(
            a,
        ).last() == '"',
{
    reveal_strlit("='");
    reveal_strlit("'");
    reveal_strlit("=\"");
    reveal_strlit("\"");
    let n = a.name.len() as int;
    assert(attr_text(a).subrange(0, n) =~= a.name);
    assert(attr_text(a).subrange(n + 2, attr_text(a).len() - 1) =~= a.value);
}

/// Joining keeps the order of the parts: the join of two runs of parts, none
/// of them empty, is the join of the first, the separator, and the join of
/// the second.
pub proof fn lemma_join_concat(a: Seq<Seq<char>>, b: Seq<Seq<char>>, sep: Seq<char>)
    requires
        a.len() > 0,
        b.len() > 0,
    ensures
        join(a + b, sep) == join(a, sep) + sep + join(b, sep),
    decreases b.len(),
{
    assert((a + b).drop_last() =~= a + b.drop_last());
    assert((a + b).last() == b.last());
    if b.len() == 1 {
        assert(a + b.drop_last() =~= a);
        assert(join(a + b, sep) =~= join(a, sep) + sep + join(b, sep));
    } else {
        lemma_join_concat(a, b.drop_last(), sep);
        assert(join(a + b, sep) =~= join(a, sep) + sep + join(b, sep));
    }
}

/// A join of `n` parts, `n` at least one, holds the parts and `n - 1`
/// separators, so none stands after the last part.
pub proof fn lemma_join_len(parts: Seq<Seq<char>>, sep: Seq<char>)
    requires
        parts.len() > 0,
    ensures
        join(parts, sep).len() == total_len(parts) + (parts.len() - 1) * sep.len(),
    decreases parts.len(),
{
    if parts.len() == 1 {
        assert(parts.drop_last().len() == 0);
        assert(total_len(parts.drop_last()) == 0);
    } else {
        lemma_join_len(parts.drop_last(), sep);
        assert((parts.len() - 1) * sep.len() == (parts.len() - 2) * sep.len() + sep.len())
            by (nonlinear_arith);
    }
}

/// Attributes render in their order: the text of two runs of attributes is
/// the text of the first followed by the text of the second.
pub proof fn lemma_attrs_concat(a: Seq<AttrView>, b: Seq<AttrView>)
    ensures
        attrs_text(a + b) == attrs_text(a) + attrs_text(b),
    decreases b.len(),
{
    if b.len() == 0 {
        assert(a + b =~= a);
        assert(attrs_text(a) + attrs_text(b) =~= attrs_text(a));
    } else {
        assert((a + b).drop_last() =~= a + b.drop_last());
        assert((a + b).last() == b.last());
        lemma_attrs_concat(a, b.drop_last());
        assert(attrs_text(a + b) =~= attrs_text(a) + attrs_text(b));
    }
}

/// Nodes render in their order, each by itself: the text of two runs of
/// nodes is the text of the first followed by the text of the second.
pub proof fn lemma_nodes_concat(a: Seq<NodeView>, b: Seq<NodeView>)
    ensures
        nodes_text(a + b) == nodes_text(a) + nodes_text(b),
    decreases b.len(),
{
    if b.len() == 0 {
        assert(a + b =~= a);
        assert(nodes_text(a) + nodes_text(b) =~= nodes_text(a));
    } else {
        assert((a + b).drop_last() =~= a + b.drop_last());
        assert((a + b).last() == b.last());
        lemma_nodes_concat(a, b.drop_last());
        assert(nodes_text(a + b) =~= nodes_text(a) + nodes_text(b));
    }
}

/// A node that fails makes the whole sequence fail, whatever stands before
/// or after it: no text is returned for a part of the nodes.
pub proof fn lemma_failure_spreads(
    nodes: Seq<NodeView>,
    k: int,
    i: int,
    templates: Seq<(Seq<char>, Seq<char>)>,
    chain: Seq<Seq<char>>,
    fuel: nat,
    acc: Seq<char>,
)
    requires
        0 <= i <= k < nodes.len(),
        spliced_node(nodes[k], templates, chain, fuel) is Err,
    ensures
        spliced_nodes(nodes, i, templates, chain, fuel, acc) is Err,
    decreases k - i,
{
    if i < k {
        match spliced_node(nodes[i], templates, chain, fuel) {
            Err(_) => {},
            Ok(text) => {
                lemma_failure_spreads(nodes, k, i + 1, templates, chain, fuel, acc + text);
            },
        }
    }
}

/// An inclusion whose path is not held fails as an inclusion that cannot be
/// followed, and so does every sequence of nodes that it stands in and a
/// rendering by that path.
pub proof fn lemma_missing_include(
    path: Seq<char>,
    nodes: Seq<NodeView>,
    k: int,
    templates: Seq<(Seq<char>, Seq<char>)>,
    chain: Seq<Seq<char>>,
    fuel: nat,
)
    requires
        lookup(templates, path) is None,
        0 <= k < nodes.len(),
        nodes[k] == NodeView::Include(path),
    ensures
        spliced_node(NodeView::Include(path), templates, chain, fuel) is Err,
        !(spliced_node(NodeView::Include(path), templates, chain, fuel) matches Err(
            RenderFault::Parse(_, _),
        )),
        !(spliced_node(NodeView::Include(path), templates, chain, fuel) matches Err(
            RenderFault::Binding(_),
        )),
        spliced_nodes(nodes, 0, templates, chain, fuel, Seq::empty()) is Err,
        path_text(path, templates) == Err::<Seq<char>, RenderFault>(
            RenderFault::PathNotFound(path),
        ),
{
    lemma_failure_spreads(nodes, k, 0, templates, chain, fuel, Seq::empty());
}

/// Where no inclusion is left, templates play no part: the nodes from
/// index `i` on render as they do by themselves.
pub proof fn lemma_resolved_nodes(
    nodes: Seq<NodeView>,
    i: int,
    templates: Seq<(Seq<char>, Seq<char>)>,
    chain: Seq<Seq<char>>,
    fuel: nat,
    acc: Seq<char>,
)
    requires
        nodes_resolved(nodes),
        0 <= i <= nodes.len(),
    ensures
        spliced_nodes(nodes, i, templates, chain, fuel, acc) == Ok::<Seq<char>, RenderFault>(
            acc + nodes_text(nodes.subrange(i, nodes.len() as int)),
        ),
    decreases nodes, nodes.len() - i,
{
    let rest = nodes.subrange(i, nodes.len() as int);
    if i == nodes.len() {
        assert(acc + nodes_text(rest) =~= acc);
    } else {
        lemma_resolved_at(nodes, i);
        lemma_resolved_node(nodes[i], templates, chain, fuel);
        let one = node_text(nodes[i]);
        lemma_resolved_nodes(nodes, i + 1, templates, chain, fuel, acc + one);
        let tail = nodes.subrange(i + 1, nodes.len() as int);
        lemma_nodes_concat(seq![nodes[i]], tail);
        assert(seq![nodes[i]] + tail =~= rest);
        assert(seq![nodes[i]].drop_last() =~= Seq::<NodeView>::empty());
        assert(nodes_text(Seq::<NodeView>::empty()) =~= Seq::<char>::empty());
        assert(seq![nodes[i]].last() == nodes[i]);
        assert(nodes_text(seq![nodes[i]]) =~= one);
        assert(acc + one + nodes_text(tail) =~= acc + nodes_text(rest));
    }
}

/// A node without inclusions renders as it does by itself, whatever the
/// templates are.
pub proof fn lemma_resolved_node(
    n: NodeView,
    templates: Seq<(Seq<char>, Seq<char>)>,
    chain: Seq<Seq<char>>,
    fuel: nat,
)
    requires
        node_resolved(n),
    ensures
        spliced_node(n, templates, chain, fuel) == Ok::<Seq<char>, RenderFault>(node_text(n)),
    decreases n, 0nat,
{
    match n {
        NodeView::Elem(e) => match e.children {
            None => {
                assert(own_text(e) + Seq::<char>::empty() =~= own_text(e));
            },
            Some(ch) => {
                lemma_resolved_nodes(ch, 0, templates, chain, fuel, own_text(e));
                assert(ch.subrange(0, ch.len() as int) =~= ch);
            },
        },
        NodeView::Include(_) => {},
    }
}

/// A path under which a template is held is among the held paths.
pub proof fn lemma_held_path(templates: Seq<(Seq<char>, Seq<char>)>, path: Seq<char>)
    requires
        lookup(templates, path) is Some,
    ensures
        held_paths(templates).contains(path),
    decreases templates.len(),
{
    let last = templates.len() - 1;
    if templates.last().0 == path {
        assert(held_paths(templates)[last] == path);
    } else {
        let fewer = templates.drop_last();
        lemma_held_path(fewer, path);
        let i = choose|i: int| 0 <= i < held_paths(fewer).len() && held_paths(fewer)[i] == path;
        assert(held_paths(templates)[i] == path);
    }
}

/// The fuel does not run out before a circle is found: where the chain
/// fits the fuel, an inclusion of a held path that is not in the chain
/// finds fuel left, and the longer chain fits what is left. The chain fits
/// at the start of every rendering, so a rendering never fails for want of
/// fuel.
pub proof fn lemma_fuel_suffices(
    chain: Seq<Seq<char>>,
    templates: Seq<(Seq<char>, Seq<char>)>,
    fuel: nat,
    path: Seq<char>,
)
    requires
        chain_fits(chain, templates, fuel),
        !chain.contains(path),
        lookup(templates, path) is Some,
    ensures
        fuel > 0,
        chain_fits(chain.push(path), templates, (fuel - 1) as nat),
{
    let longer = chain.push(path);
    let held = held_paths(templates);
    assert forall|i: int| 0 <= i < longer.len() implies lookup(
        templates,
        #[trigger] longer[i],
    ) is Some by {
        if i < chain.len() {
            assert(longer[i] == chain[i]);
        }
    }
    assert forall|i: int, j: int|
        0 <= i < longer.len() && 0 <= j < longer.len() && i != j implies longer[i] != longer[j] by {
        if i < chain.len() && j < chain.len() {
            assert(longer[i] == chain[i] && longer[j] == chain[j]);
        } else if i < chain.len() {
            assert(longer[i] == chain[i]);
        } else {
            assert(longer[j] == chain[j]);
        }
    }
    assert(longer.no_duplicates());
    longer.unique_seq_to_set();
    held.lemma_cardinality_of_set();
    assert(longer.to_set().subset_of(held.to_set())) by {
        assert forall|p: Seq<char>| longer.to_set().contains(p) implies held.to_set().contains(
            p,
        ) by {
            let i = choose|i: int| 0 <= i < longer.len() && longer[i] == p;
            assert(lookup(templates, longer[i]) is Some);
            lemma_held_path(templates, p);
        }
    }
    vstd::seq_lib::seq_to_set_is_finite(held);
    vstd::set_lib::lemma_len_subset(longer.to_set(), held.to_set());
}

} // verus!
