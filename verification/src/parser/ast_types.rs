//! The node tree shared by the parser and the renderer, with its mathematical
//! model: every string is a sequence of characters, every vector a sequence.

use vstd::prelude::*;
use vstd::string::*;

verus! {

/// One entry of a template: an element, or a directive that splices another
/// template in at this place.
#[derive(PartialEq, Eq, Debug)]
pub enum Node {
    ELEM(Elem),
    INCLUDE(Include),
}

/// The description of one HTML element.
#[derive(Default, PartialEq, Eq, Debug)]
pub struct Elem {
    pub tag: String,
    pub id: Option<String>,
    pub classes: Option<Vec<String>>,
    pub attr: Option<Vec<Attr>>,
    pub cont: Option<Cont>,
    pub children: Option<Vec<Node>>,
}

/// A reference to another template by its path.
#[derive(Default, PartialEq, Eq, Debug, Clone)]
pub struct Include {
    pub path: String,
}

/// One attribute of an element.
#[derive(Default, PartialEq, Eq, Debug, Clone)]
pub struct Attr {
    pub name: String,
    pub value: String,
}

/// The text of an element: one line, or a block of lines.
#[derive(PartialEq, Eq, Debug, Clone)]
pub enum Cont {
    LINE(String),
    BLOCK(Vec<String>),
}

/// The model of an [`Attr`].
pub struct AttrView {
    pub name: Seq<char>,
    pub value: Seq<char>,
}

/// The model of a [`Cont`].
pub enum ContView {
    Line(Seq<char>),
    Block(Seq<Seq<char>>),
}

/// The model of an [`Elem`].
pub struct ElemView {
    pub tag: Seq<char>,
    pub id: Option<Seq<char>>,
    pub classes: Option<Seq<Seq<char>>>,
    pub attr: Option<Seq<AttrView>>,
    pub cont: Option<ContView>,
    pub children: Option<Seq<NodeView>>,
}

/// The model of a [`Node`]; an inclusion is modelled by its path.
pub enum NodeView {
    Elem(ElemView),
    Include(Seq<char>),
}

/// The model of a vector of strings.
pub open spec fn strings_view(v: Seq<String>) -> Seq<Seq<char>> {
    Seq::new(v.len(), |i: int| v[i]@)
}

/// The model of a vector of attributes.
pub open spec fn attrs_view(v: Seq<Attr>) -> Seq<AttrView> {
    Seq::new(v.len(), |i: int| v[i]@)
}

/// The model of a vector of nodes.
pub open spec fn nodes_view(v: Seq<Node>) -> Seq<NodeView> {
    Seq::new(v.len(), |i: int| v[i]@)
}

impl View for Attr {
    type V = AttrView;

    open spec fn view(&self) -> AttrView {
        AttrView { name: self.name@, value: self.value@ }
    }
}

impl View for Cont {
    type V = ContView;

    open spec fn view(&self) -> ContView {
        match self {
            Cont::LINE(text) => ContView::Line(text@),
            Cont::BLOCK(lines) => ContView::Block(strings_view(lines@)),
        }
    }
}

impl View for Elem {
    type V = ElemView;

    open spec fn view(&self) -> ElemView {
        elem_view(*self)
    }
}

impl View for Node {
    type V = NodeView;

    open spec fn view(&self) -> NodeView {
        node_view(*self)
    }
}

/// The model of an element, by recursion over its children.
pub open spec fn elem_view(e: Elem) -> ElemView
    decreases e,
{
    ElemView {
        tag: e.tag@,
        id: match e.id {
            Some(id) => Some(id@),
            None => None,
        },
        classes: match e.classes {
            Some(c) => Some(strings_view(c@)),
            None => None,
        },
        attr: match e.attr {
            Some(a) => Some(attrs_view(a@)),
            None => None,
        },
        cont: match e.cont {
            Some(c) => Some(c@),
            None => None,
        },
        children: match e.children {
            Some(ch) => Some(
                Seq::new(
                    ch@.len(),
                    |i: int|
                        if 0 <= i < ch@.len() {
                            node_view(ch@[i])
                        } else {
                            NodeView::Include(Seq::empty())
                        },
                ),
            ),
            None => None,
        },
    }
}

/// The model of a node.
pub open spec fn node_view(n: Node) -> NodeView
    decreases n,
{
    match n {
        Node::ELEM(e) => NodeView::Elem(elem_view(e)),
        Node::INCLUDE(i) => NodeView::Include(i.path@),
    }
}

/// An element is well formed where its tag is not empty, each collection
/// that it has holds something, and its children are well formed.
pub open spec fn elem_wf(e: ElemView) -> bool
    decreases e, 0nat,
{
    &&& e.tag.len() > 0
    &&& (e.classes matches Some(c) ==> c.len() > 0)
    &&& (e.attr matches Some(a) ==> a.len() > 0)
    &&& (e.cont matches Some(ContView::Block(b)) ==> b.len() > 0)
    &&& (e.children matches Some(ch) ==> ch.len() > 0 && nodes_wf(ch))
}

/// A node is well formed where it is a well-formed element or an inclusion
/// with a path.
pub open spec fn node_wf(n: NodeView) -> bool
    decreases n, 0nat,
{
    match n {
        NodeView::Elem(e) => elem_wf(e),
        NodeView::Include(path) => path.len() > 0,
    }
}

/// Every node of the sequence is well formed.
pub open spec fn nodes_wf(nodes: Seq<NodeView>) -> bool
    decreases nodes, 1nat,
{
    forall|i: int| 0 <= i < nodes.len() ==> node_wf(#[trigger] nodes[i])
}

/// The model of an element without identifier, classes, attributes, text or
/// children.
pub open spec fn bare(tag: Seq<char>) -> ElemView {
    ElemView { tag, id: None, classes: None, attr: None, cont: None, children: None }
}

impl Elem {
    /// An element that has only a tag.
    pub fn from_ta(tag: &str) -> (e: Elem)
        ensures
            e@ == bare(tag@),
    {
        Elem {
            tag: String::from_str(tag),
            id: None,
            classes: None,
            attr: None,
            cont: None,
            children: None,
        }
    }

    /// An element with a tag and one line of text.
    pub fn from_ta_col(tag: &str, cont: &str) -> (e: Elem)
        ensures
            e@ == (ElemView { cont: Some(ContView::Line(cont@)), ..bare(tag@) }),
    {
        Elem {
            tag: String::from_str(tag),
            id: None,
            classes: None,
            attr: None,
            cont: Some(Cont::LINE(String::from_str(cont))),
            children: None,
        }
    }

    /// An element with a tag and a block of text.
    pub fn from_ta_cob(tag: &str, cont: Vec<String>) -> (e: Elem)
        ensures
            e@ == (ElemView { cont: Some(ContView::Block(strings_view(cont@))), ..bare(tag@) }),
    {
        Elem {
            tag: String::from_str(tag),
            id: None,
            classes: None,
            attr: None,
            cont: Some(Cont::BLOCK(cont)),
            children: None,
        }
    }

    /// An element with a tag and children.
    pub fn from_ta_ch(tag: &str, children: Vec<Node>) -> (e: Elem)
        ensures
            e@ == (ElemView { children: Some(nodes_view(children@)), ..bare(tag@) }),
    {
        let e = Elem {
            tag: String::from_str(tag),
            id: None,
            classes: None,
            attr: None,
            cont: None,
            children: Some(children),
        };
        assert(e@.children->0 =~= nodes_view(children@));
        e
    }

    /// An element with a tag and classes.
    pub fn from_ta_cl(tag: &str, classes: Vec<String>) -> (e: Elem)
        ensures
            e@ == (ElemView { classes: Some(strings_view(classes@)), ..bare(tag@) }),
    {
        Elem {
            tag: String::from_str(tag),
            id: None,
            classes: Some(classes),
            attr: None,
            cont: None,
            children: None,
        }
    }

    /// An element with a tag and an identifier.
    pub fn from_ta_id(tag: &str, id: &str) -> (e: Elem)
        ensures
            e@ == (ElemView { id: Some(id@), ..bare(tag@) }),
    {
        Elem {
            tag: String::from_str(tag),
            id: Some(String::from_str(id)),
            classes: None,
            attr: None,
            cont: None,
            children: None,
        }
    }

    /// An element with a tag, an identifier and classes.
    pub fn from_ta_id_cl(tag: &str, id: &str, classes: Vec<String>) -> (e: Elem)
        ensures
            e@ == (ElemView {
                id: Some(id@),
                classes: Some(strings_view(classes@)),
                ..bare(tag@)
            }),
    {
        Elem {
            tag: String::from_str(tag),
            id: Some(String::from_str(id)),
            classes: Some(classes),
            attr: None,
            cont: None,
            children: None,
        }
    }

    /// An element with a tag, an identifier, classes and a block of text.
    pub fn from_ta_id_cl_cob(
        tag: &str,
        id: &str,
        classes: Vec<String>,
        content: Vec<String>,
    ) -> (e: Elem)
        ensures
            e@ == (ElemView {
                id: Some(id@),
                classes: Some(strings_view(classes@)),
                cont: Some(ContView::Block(strings_view(content@))),
                ..bare(tag@)
            }),
    {
        Elem {
            tag: String::from_str(tag),
            id: Some(String::from_str(id)),
            classes: Some(classes),
            attr: None,
            cont: Some(Cont::BLOCK(content)),
            children: None,
        }
    }

    /// An element with a tag, attributes and a block of text.
    pub fn from_ta_at_cob(tag: &str, attributes: Vec<Attr>, content: Vec<String>) -> (e: Elem)
        ensures
            e@ == (ElemView {
                attr: Some(attrs_view(attributes@)),
                cont: Some(ContView::Block(strings_view(content@))),
                ..bare(tag@)
            }),
    {
        Elem {
            tag: String::from_str(tag),
            id: None,
            classes: None,
            attr: Some(attributes),
            cont: Some(Cont::BLOCK(content)),
            children: None,
        }
    }

    /// An element with a tag and attributes.
    pub fn from_ta_at(tag: &str, attributes: Vec<Attr>) -> (e: Elem)
        ensures
            e@ == (ElemView { attr: Some(attrs_view(attributes@)), ..bare(tag@) }),
    {
        Elem {
            tag: String::from_str(tag),
            id: None,
            classes: None,
            attr: Some(attributes),
            cont: None,
            children: None,
        }
    }

    /// An element with a tag, attributes and children.
    pub fn from_ta_at_ch(tag: &str, attributes: Vec<Attr>, children: Vec<Node>) -> (e: Elem)
        ensures
            e@ == (ElemView {
                attr: Some(attrs_view(attributes@)),
                children: Some(nodes_view(children@)),
                ..bare(tag@)
            }),
    {
        let e = Elem {
            tag: String::from_str(tag),
            id: None,
            classes: None,
            attr: Some(attributes),
            cont: None,
            children: Some(children),
        };
        assert(e@.children->0 =~= nodes_view(children@));
        e
    }
}

/// A copy of the strings.
pub fn copy_strings(v: &Vec<String>) -> (r: Vec<String>)
    ensures
        strings_view(r@) == strings_view(v@),
{
    let mut r: Vec<String> = Vec::new();
    let mut i: usize = 0;
    while i < v.len()
        invariant
            i <= v.len(),
            r.len() == i,
            forall|k: int| 0 <= k < i ==> r@[k]@ == v@[k]@,
        decreases v.len() - i,
    {
        r.push(v[i].clone());
        i += 1;
    }
    assert(strings_view(r@) =~= strings_view(v@));
    r
}

/// A copy of the attributes.
fn copy_attrs(v: &Vec<Attr>) -> (r: Vec<Attr>)
    ensures
        attrs_view(r@) == attrs_view(v@),
{
    let mut r: Vec<Attr> = Vec::new();
    let mut i: usize = 0;
    while i < v.len()
        invariant
            i <= v.len(),
            r.len() == i,
            forall|k: int| 0 <= k < i ==> r@[k]@ == v@[k]@,
        decreases v.len() - i,
    {
        r.push(Attr { name: v[i].name.clone(), value: v[i].value.clone() });
        i += 1;
    }
    assert(attrs_view(r@) =~= attrs_view(v@));
    r
}

/// A copy of the nodes, each with all that stands under it.
fn copy_nodes(v: &Vec<Node>) -> (r: Vec<Node>)
    ensures
        nodes_view(r@) == nodes_view(v@),
    decreases *v,
{
    let mut r: Vec<Node> = Vec::new();
    let mut i: usize = 0;
    while i < v.len()
        invariant
            i <= v.len(),
            r.len() == i,
            forall|k: int| 0 <= k < i ==> r@[k]@ == v@[k]@,
        decreases v.len() - i,
    {
        proof {
            vstd::std_specs::vec::axiom_vec_index_decreases(*v, i as int);
        }
        r.push(v[i].clone());
        i += 1;
    }
    assert(nodes_view(r@) =~= nodes_view(v@));
    r
}

impl Clone for Elem {
    /// A copy of the element with all that stands under it.
    fn clone(&self) -> (r: Elem)
        ensures
            r@ == self@,
        decreases *self,
    {
        let r = Elem {
            tag: self.tag.clone(),
            id: match &self.id {
                Some(id) => Some(id.clone()),
                None => None,
            },
            classes: match &self.classes {
                Some(c) => Some(copy_strings(c)),
                None => None,
            },
            attr: match &self.attr {
                Some(a) => Some(copy_attrs(a)),
                None => None,
            },
            cont: match &self.cont {
                Some(Cont::LINE(text)) => Some(Cont::LINE(text.clone())),
                Some(Cont::BLOCK(lines)) => Some(Cont::BLOCK(copy_strings(lines))),
                None => None,
            },
            children: match &self.children {
                Some(ch) => {
                    proof {
                        assert(decreases_to!(*self => self.children));
                        assert(decreases_to!(self.children => self.children->Some_0));
                    }
                    Some(copy_nodes(ch))
                },
                None => None,
            },
        };
        proof {
            if self.children is Some {
                assert(r@.children->0 =~= nodes_view(r.children->0@));
                assert(self@.children->0 =~= nodes_view(self.children->0@));
            }
        }
        r
    }
}

impl Clone for Node {
    /// A copy of the node with all that stands under it.
    fn clone(&self) -> (r: Node)
        ensures
            r@ == self@,
        decreases *self,
    {
        match self {
            Node::ELEM(e) => {
                proof {
                    assert(decreases_to!(*self => self->ELEM_0));
                }
                Node::ELEM(e.clone())
            },
            Node::INCLUDE(i) => Node::INCLUDE(Include { path: i.path.clone() }),
        }
    }
}

} // verus!
