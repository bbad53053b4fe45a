//! Rendering of a node tree as HTML text.
//!
//! The rules are stated once, as spec functions over the model of the tree;
//! the executable functions are proved to produce exactly that text.

use crate::parser::ast_types::{
    attrs_view, copy_strings, nodes_view, strings_view, Attr, AttrView, Cont, ContView, Elem, ElemView, Node,
    NodeView,
};
use crate::parser::ast::{from_str, parse};
use crate::parser::decl::{opt_view, ParseError};
use crate::binder::{substitute, substituted, BindingError};
use crate::laws::lemma_fuel_suffices;
use crate::table::{lookup, Table};
use crate::template_manager::TemplateManager;
use crate::text::has_char;
use vstd::prelude::*;
use vstd::string::*;

verus! {

/// The parts joined with `sep` between each two neighbours, and nowhere else.
pub open spec fn join(parts: Seq<Seq<char>>, sep: Seq<char>) -> Seq<char>
    decreases parts.len(),
{
    if parts.len() == 0 {
        Seq::empty()
    } else if parts.len() == 1 {
        parts[0]
    } else {
        join(parts.drop_last(), sep) + sep + parts.last()
    }
}

/// An attribute: its value stands in single quotes where it holds a double
/// quote, and in double quotes otherwise.
pub open spec fn attr_text(a: AttrView) -> Seq<char> {
    if a.value.contains('"') {
        a.name + "='"@ + a.value + "'"@
    } else {
        a.name + "=\""@ + a.value + "\""@
    }
}

/// The attributes in order, each after one space.
pub open spec fn attrs_text(attrs: Seq<AttrView>) -> Seq<char>
    decreases attrs.len(),
{
    if attrs.len() == 0 {
        Seq::empty()
    } else {
        attrs_text(attrs.drop_last()) + " "@ + attr_text(attrs.last())
    }
}

/// What stands between `<` and the end of the opening tag: the tag, then the
/// identifier, the classes and the attributes, as far as they are present.
pub open spec fn opening_text(e: ElemView) -> Seq<char> {
    e.tag + (match e.id {
        Some(id) => " id=\""@ + id + "\""@,
        None => Seq::empty(),
    }) + (match e.classes {
        Some(classes) => " class=\""@ + join(classes, " "@) + "\""@,
        None => Seq::empty(),
    }) + (match e.attr {
        Some(attrs) => attrs_text(attrs),
        None => Seq::empty(),
    })
}

/// The text of an element: a line as it is, a block with a break between each
/// two lines.
pub open spec fn cont_text(c: ContView) -> Seq<char> {
    match c {
        ContView::Line(text) => text,
        ContView::Block(lines) => join(lines, "<br>"@),
    }
}

/// The element's own text, where it has one.
pub open spec fn own_text(e: ElemView) -> Seq<char> {
    match e.cont {
        Some(c) => cont_text(c),
        None => Seq::empty(),
    }
}

/// The element with `inner` inside: where `inner` is empty the tag closes
/// itself, otherwise `inner` stands between an opening and a closing tag.
pub open spec fn wrap(e: ElemView, inner: Seq<char>) -> Seq<char> {
    if inner.len() == 0 {
        "<"@ + opening_text(e) + " />"@
    } else {
        "<"@ + opening_text(e) + ">"@ + inner + "</"@ + e.tag + ">"@
    }
}

/// The rendering of a node. An inclusion has none of its own: it must be
/// replaced by the nodes of the template that it names.
pub open spec fn node_text(n: NodeView) -> Seq<char>
    decreases n, 0nat,
{
    match n {
        NodeView::Elem(e) => wrap(
            e,
            own_text(e) + (match e.children {
                Some(ch) => nodes_text(ch),
                None => Seq::empty(),
            }),
        ),
        NodeView::Include(_) => Seq::empty(),
    }
}

/// The renderings of the nodes one after the other, with nothing between.
pub open spec fn nodes_text(nodes: Seq<NodeView>) -> Seq<char>
    decreases nodes, 1nat,
{
    if nodes.len() == 0 {
        Seq::empty()
    } else {
        nodes_text(nodes.drop_last()) + node_text(nodes.last())
    }
}

/// What is inside an element: its own text, then its children.
pub open spec fn interior_text(e: ElemView) -> Seq<char> {
    own_text(e) + (match e.children {
        Some(ch) => nodes_text(ch),
        None => Seq::empty(),
    })
}

/// No inclusion is left in the node or below it.
pub open spec fn node_resolved(n: NodeView) -> bool
    decreases n, 0nat,
{
    match n {
        NodeView::Elem(e) => match e.children {
            Some(ch) => nodes_resolved(ch),
            None => true,
        },
        NodeView::Include(_) => false,
    }
}

/// No inclusion is left in any of the nodes or below them.
pub open spec fn nodes_resolved(nodes: Seq<NodeView>) -> bool
    decreases nodes, 1nat,
{
    if nodes.len() == 0 {
        true
    } else {
        nodes_resolved(nodes.drop_last()) && node_resolved(nodes.last())
    }
}

/// Each line followed by a line feed.
pub open spec fn lines_text(lines: Seq<Seq<char>>) -> Seq<char>
    decreases lines.len(),
{
    if lines.len() == 0 {
        Seq::empty()
    } else {
        lines_text(lines.drop_last()) + lines.last() + "\n"@
    }
}

/// A text as it reads in plain form: a line as it is, a block with a line
/// feed after each line.
pub open spec fn plain_text(c: ContView) -> Seq<char> {
    match c {
        ContView::Line(text) => text,
        ContView::Block(lines) => lines_text(lines),
    }
}

impl Attr {
    /// The attribute as it stands in an opening tag, quoted by the rule of
    /// [`attr_text`].
    pub fn to_string(&self) -> (out: String)
        ensures
            out@ == attr_text(self@),
    {
        let mut out = self.name.clone();
        if has_char(self.value.as_str(), '"') {
            out.append("='");
            out.append(self.value.as_str());
            out.append("'");
        } else {
            out.append("=\"");
            out.append(self.value.as_str());
            out.append("\"");
        }
        out
    }
}

impl Cont {
    /// The text in plain form.
    pub fn to_string(&self) -> (out: String)
        ensures
            out@ == plain_text(self@),
    {
        match self {
            Cont::LINE(text) => text.clone(),
            Cont::BLOCK(lines) => {
                let mut out = String::new();
                let mut i: usize = 0;
                while i < lines.len()
                    invariant
                        i <= lines.len(),
                        out@ == lines_text(strings_view(lines@).take(i as int)),
                    decreases lines.len() - i,
                {
                    out.append(lines[i].as_str());
                    out.append("\n");
                    i += 1;
                    proof {
                        let all = strings_view(lines@);
                        assert(all.take(i as int).drop_last() =~= all.take(i - 1));
                    }
                }
                assert(strings_view(lines@).take(lines.len() as int) =~= strings_view(lines@));
                out
            },
        }
    }
}

/// The strings joined with `sep` between each two neighbours.
pub fn join_strings(parts: &Vec<String>, sep: &str) -> (out: String)
    ensures
        out@ == join(strings_view(parts@), sep@),
{
    let mut out = String::new();
    let mut i: usize = 0;
    while i < parts.len()
        invariant
            i <= parts.len(),
            out@ == join(strings_view(parts@).take(i as int), sep@),
        decreases parts.len() - i,
    {
        if i > 0 {
            out.append(sep);
        }
        out.append(parts[i].as_str());
        i += 1;
        proof {
            let all = strings_view(parts@);
            assert(all.take(i as int).drop_last() =~= all.take(i - 1));
            if i == 1 {
                assert(out@ =~= all.take(1)[0]);
            }
        }
    }
    assert(strings_view(parts@).take(parts.len() as int) =~= strings_view(parts@));
    out
}

/// The text of an element as it stands between the tags.
pub fn render_elem_content(cont: &Cont) -> (out: String)
    ensures
        out@ == cont_text(cont@),
{
    match cont {
        Cont::LINE(l) => l.clone(),
        Cont::BLOCK(b) => join_strings(b, "<br>"),
    }
}

/// The attributes in order, each after one space.
fn render_attrs(attrs: &Vec<Attr>) -> (out: String)
    ensures
        out@ == attrs_text(attrs_view(attrs@)),
{
    let mut out = String::new();
    let mut i: usize = 0;
    while i < attrs.len()
        invariant
            i <= attrs.len(),
            out@ == attrs_text(attrs_view(attrs@).take(i as int)),
        decreases attrs.len() - i,
    {
        out.append(" ");
        let a = attrs[i].to_string();
        out.append(a.as_str());
        i += 1;
        proof {
            let all = attrs_view(attrs@);
            assert(all.take(i as int).drop_last() =~= all.take(i - 1));
        }
    }
    assert(attrs_view(attrs@).take(attrs.len() as int) =~= attrs_view(attrs@));
    out
}

/// What stands between `<` and the end of the opening tag.
pub(crate) fn render_opening(elem: &Elem) -> (out: String)
    ensures
        out@ == opening_text(elem@),
{
    let mut out = elem.tag.clone();
    if let Some(id) = &elem.id {
        out.append(" id=\"");
        out.append(id.as_str());
        out.append("\"");
    }
    assert(out@ =~= elem@.tag + (match elem@.id {
        Some(id) => " id=\""@ + id + "\""@,
        None => Seq::empty(),
    }));
    if let Some(classes) = &elem.classes {
        let joined = join_strings(classes, " ");
        out.append(" class=\"");
        out.append(joined.as_str());
        out.append("\"");
    }
    assert(out@ =~= elem@.tag + (match elem@.id {
        Some(id) => " id=\""@ + id + "\""@,
        None => Seq::empty(),
    }) + (match elem@.classes {
        Some(classes) => " class=\""@ + join(classes, " "@) + "\""@,
        None => Seq::empty(),
    }));
    if let Some(attrs) = &elem.attr {
        let rendered = render_attrs(attrs);
        out.append(rendered.as_str());
    }
    assert(out@ =~= opening_text(elem@));
    out
}

/// Puts `content` inside the element whose opening is `opening`.
pub(crate) fn wrap_elem(elem: &Elem, opening: &str, content: &str) -> (out: String)
    requires
        opening@ == opening_text(elem@),
    ensures
        out@ == wrap(elem@, content@),
{
    let mut out = String::from_str("<");
    out.append(opening);
    if content.is_empty() {
        out.append(" />");
    } else {
        out.append(">");
        out.append(content);
        out.append("</");
        out.append(elem.tag.as_str());
        out.append(">");
    }
    out
}

/// Renders one node. An element without text and children, or whose text
/// and children render as nothing, closes itself; any other is wrapped in
/// an opening and a closing tag.
pub fn render_node(node: &Node) -> (out: String)
    requires
        node_resolved(node@),
    ensures
        out@ == node_text(node@),
    decreases node,
{
    match node {
        Node::ELEM(elem) => {
            let opening = render_opening(elem);
            let mut content = String::new();
            if let Some(c) = &elem.cont {
                let own = render_elem_content(c);
                content.append(own.as_str());
            }
            assert(content@ =~= own_text(elem@));
            if let Some(children) = &elem.children {
                let ghost kids = elem@.children->0;
                let mut i: usize = 0;
                while i < children.len()
                    invariant
                        i <= children.len(),
                        kids == elem@.children->0,
                        elem.children == Some(*children),
                        *node == Node::ELEM(*elem),
                        nodes_resolved(kids),
                        content@ == own_text(elem@) + nodes_text(kids.take(i as int)),
                    decreases children.len() - i,
                {
                    proof {
                        lemma_resolved_at(kids, i as int);
                        vstd::std_specs::vec::axiom_vec_index_decreases(*children, i as int);
                        assert(decreases_to!(*node => node->ELEM_0));
                        assert(decreases_to!(*elem => elem.children));
                        assert(decreases_to!(elem.children => elem.children->Some_0));
                    }
                    let child = render_node(&children[i]);
                    content.append(child.as_str());
                    i += 1;
                    proof {
                        assert(kids.take(i as int).drop_last() =~= kids.take(i - 1));
                    }
                }
                assert(kids.take(children.len() as int) =~= kids);
            }
            assert(content@ =~= interior_text(elem@));
            wrap_elem(elem, opening.as_str(), content.as_str())
        },
        Node::INCLUDE(_) => String::new(),
    }
}

/// Renders the nodes in order, with nothing between them.
pub fn render_ast(ast: Vec<Node>) -> (out: String)
    requires
        nodes_resolved(nodes_view(ast@)),
    ensures
        out@ == nodes_text(nodes_view(ast@)),
{
    let ghost all = nodes_view(ast@);
    let mut out = String::new();
    let mut i: usize = 0;
    while i < ast.len()
        invariant
            i <= ast.len(),
            all == nodes_view(ast@),
            nodes_resolved(all),
            out@ == nodes_text(all.take(i as int)),
        decreases ast.len() - i,
    {
        proof {
            lemma_resolved_at(all, i as int);
        }
        let one = render_node(&ast[i]);
        out.append(one.as_str());
        i += 1;
        proof {
            assert(all.take(i as int).drop_last() =~= all.take(i - 1));
        }
    }
    assert(all.take(ast.len() as int) =~= all);
    out
}

/// Where no inclusion is left among the nodes, none is left in any one of
/// them.
pub proof fn lemma_resolved_at(nodes: Seq<NodeView>, i: int)
    requires
        nodes_resolved(nodes),
        0 <= i < nodes.len(),
    ensures
        node_resolved(nodes[i]),
    decreases nodes.len(),
{
    if i < nodes.len() - 1 {
        lemma_resolved_at(nodes.drop_last(), i);
    }
}

/// Why an inclusion could not be followed; each with the path in question.
#[derive(Clone, PartialEq, Eq, Debug)]
pub enum IncludeResolutionError {
    /// No template is held under the path.
    PathNotFound(String),
    /// The template under this path names itself, directly or through
    /// others: its inclusion stands inside its own rendering.
    CycleDetected(String),
}

/// Why a rendering failed.
#[derive(Clone, PartialEq, Eq, Debug)]
pub enum RenderError {
    /// A template is malformed: the one that was to be rendered where no
    /// path is given, else the one held under the path.
    Parse(Option<String>, ParseError),
    /// An inclusion could not be followed.
    IncludeResolution(IncludeResolutionError),
    /// A placeholder has no value.
    Binding(BindingError),
}

/// The model of a [`RenderError`].
pub enum RenderFault {
    Parse(Option<Seq<char>>, ParseError),
    PathNotFound(Seq<char>),
    CycleDetected(Seq<char>),
    Binding(BindingError),
}

impl View for RenderError {
    type V = RenderFault;

    open spec fn view(&self) -> RenderFault {
        match self {
            RenderError::Parse(path, err) => RenderFault::Parse(opt_view(*path), *err),
            RenderError::IncludeResolution(IncludeResolutionError::PathNotFound(path)) => {
                RenderFault::PathNotFound(path@)
            },
            RenderError::IncludeResolution(IncludeResolutionError::CycleDetected(path)) => {
                RenderFault::CycleDetected(path@)
            },
            RenderError::Binding(err) => RenderFault::Binding(*err),
        }
    }
}

/// The paths under which the templates are held, in the order of entry.
pub open spec fn held_paths(templates: Seq<(Seq<char>, Seq<char>)>) -> Seq<Seq<char>> {
    Seq::new(templates.len(), |i: int| templates[i].0)
}

/// The chain of templates being rendered fits the fuel: no path stands
/// twice in it, each of its paths is held, and the fuel covers the templates
/// that the chain has not used.
pub open spec fn chain_fits(
    chain: Seq<Seq<char>>,
    templates: Seq<(Seq<char>, Seq<char>)>,
    fuel: nat,
) -> bool {
    &&& chain.no_duplicates()
    &&& forall|i: int| 0 <= i < chain.len() ==> lookup(templates, #[trigger] chain[i]) is Some
    &&& fuel + chain.len() >= templates.len()
}

/// The rendering of a node where each inclusion is replaced by the nodes
/// of the template that `templates` holds under its path. `chain` holds the
/// paths of the templates that are being rendered around the node: an
/// inclusion of one of them is a circle. It fails where a path is not held
/// and where a named template does not parse. `fuel` is the number of
/// inclusions that may still nest, by which the recursion is measured; it
/// starts as the number of templates held, and does not run out before the
/// chain holds a path twice.
pub open spec fn spliced_node(
    n: NodeView,
    templates: Seq<(Seq<char>, Seq<char>)>,
    chain: Seq<Seq<char>>,
    fuel: nat,
) -> Result<Seq<char>, RenderFault>
    decreases fuel, n, 0nat,
{
    match n {
        NodeView::Elem(e) => match e.children {
            None => Ok(wrap(e, own_text(e))),
            Some(ch) => match spliced_nodes(ch, 0, templates, chain, fuel, own_text(e)) {
                Err(err) => Err(err),
                Ok(inner) => Ok(wrap(e, inner)),
            },
        },
        NodeView::Include(path) => if chain.contains(path) {
            Err(RenderFault::CycleDetected(path))
        } else {
            match lookup(templates, path) {
                None => Err(RenderFault::PathNotFound(path)),
                Some(source) => if fuel == 0 {
                    Err(RenderFault::CycleDetected(path))
                } else {
                    match parse(source) {
                        Err(err) => Err(RenderFault::Parse(Some(path), err)),
                        Ok(nodes) => spliced_nodes(
                            nodes,
                            0,
                            templates,
                            chain.push(path),
                            (fuel - 1) as nat,
                            Seq::empty(),
                        ),
                    }
                },
            }
        },
    }
}

/// The renderings of the nodes from index `i` on, added to `acc`; the
/// failure of the first node that fails.
pub open spec fn spliced_nodes(
    nodes: Seq<NodeView>,
    i: int,
    templates: Seq<(Seq<char>, Seq<char>)>,
    chain: Seq<Seq<char>>,
    fuel: nat,
    acc: Seq<char>,
) -> Result<Seq<char>, RenderFault>
    decreases fuel, nodes, nodes.len() - i,
{
    if i < 0 || i >= nodes.len() {
        Ok(acc)
    } else {
        match spliced_node(nodes[i], templates, chain, fuel) {
            Err(err) => Err(err),
            Ok(text) => spliced_nodes(nodes, i + 1, templates, chain, fuel, acc + text),
        }
    }
}

/// The rendering of the template `source`, which is held under `origin`
/// if that is a path.
pub open spec fn template_text(
    source: Seq<char>,
    origin: Option<Seq<char>>,
    templates: Seq<(Seq<char>, Seq<char>)>,
) -> Result<Seq<char>, RenderFault> {
    match parse(source) {
        Err(err) => Err(RenderFault::Parse(origin, err)),
        Ok(nodes) => spliced_nodes(
            nodes,
            0,
            templates,
            match origin {
                Some(path) => seq![path],
                None => Seq::empty(),
            },
            templates.len(),
            Seq::empty(),
        ),
    }
}

/// The rendering of the template `source`.
pub open spec fn source_text(source: Seq<char>, templates: Seq<(Seq<char>, Seq<char>)>) -> Result<
    Seq<char>,
    RenderFault,
> {
    template_text(source, None, templates)
}

/// The rendering of the template held under `path`.
pub open spec fn path_text(path: Seq<char>, templates: Seq<(Seq<char>, Seq<char>)>) -> Result<
    Seq<char>,
    RenderFault,
> {
    match lookup(templates, path) {
        None => Err(RenderFault::PathNotFound(path)),
        Some(source) => template_text(source, Some(path), templates),
    }
}

/// Whether `r` is the outcome `expected`.
pub open spec fn same_outcome(r: Result<String, RenderError>, expected: Result<
    Seq<char>,
    RenderFault,
>) -> bool {
    match r {
        Ok(out) => expected == Ok::<Seq<char>, RenderFault>(out@),
        Err(err) => expected == Err::<Seq<char>, RenderFault>(err@),
    }
}

/// Whether `s` is among the strings.
fn has_string(v: &Vec<String>, s: &String) -> (found: bool)
    ensures
        found == strings_view(v@).contains(s@),
{
    let mut i: usize = 0;
    while i < v.len()
        invariant
            i <= v.len(),
            forall|k: int| 0 <= k < i ==> strings_view(v@)[k] != s@,
        decreases v.len() - i,
    {
        if v[i] == *s {
            assert(strings_view(v@)[i as int] == s@);
            return true;
        }
        i += 1;
    }
    false
}

/// Renders `nodes` after `start`, following inclusions.
fn render_spliced_nodes(
    nodes: &Vec<Node>,
    templates: &TemplateManager,
    chain: &Vec<String>,
    fuel: usize,
    start: String,
) -> (r: Result<String, RenderError>)
    requires
        chain_fits(strings_view(chain@), templates@, fuel as nat),
    ensures
        same_outcome(
            r,
            spliced_nodes(
                nodes_view(nodes@),
                0,
                templates@,
                strings_view(chain@),
                fuel as nat,
                start@,
            ),
        ),
    decreases fuel, *nodes, 1nat,
{
    let ghost all = nodes_view(nodes@);
    let mut out = start;
    let mut i: usize = 0;
    while i < nodes.len()
        invariant
            i <= nodes.len(),
            all == nodes_view(nodes@),
            chain_fits(strings_view(chain@), templates@, fuel as nat),
            spliced_nodes(all, 0, templates@, strings_view(chain@), fuel as nat, start@)
                == spliced_nodes(
                all,
                i as int,
                templates@,
                strings_view(chain@),
                fuel as nat,
                out@,
            ),
        decreases nodes.len() - i,
    {
        proof {
            vstd::std_specs::vec::axiom_vec_index_decreases(*nodes, i as int);
        }
        match render_spliced_node(&nodes[i], templates, chain, fuel) {
            Err(err) => {
                return Err(err);
            },
            Ok(text) => {
                out.append(text.as_str());
            },
        }
        i += 1;
    }
    Ok(out)
}

/// Renders one node, following inclusions.
fn render_spliced_node(
    node: &Node,
    templates: &TemplateManager,
    chain: &Vec<String>,
    fuel: usize,
) -> (r: Result<String, RenderError>)
    requires
        chain_fits(strings_view(chain@), templates@, fuel as nat),
    ensures
        same_outcome(r, spliced_node(node@, templates@, strings_view(chain@), fuel as nat)),
    decreases fuel, *node, 0nat,
{
    match node {
        Node::ELEM(elem) => {
            let opening = render_opening(elem);
            let mut content = String::new();
            if let Some(c) = &elem.cont {
                let own = render_elem_content(c);
                content.append(own.as_str());
            }
            assert(content@ =~= own_text(elem@));
            if let Some(children) = &elem.children {
                proof {
                    assert(decreases_to!(*node => node->ELEM_0));
                    assert(decreases_to!(*elem => elem.children));
                    assert(decreases_to!(elem.children => elem.children->Some_0));
                    assert(elem@.children->0 =~= nodes_view(children@));
                }
                content = match render_spliced_nodes(children, templates, chain, fuel, content) {
                    Ok(inner) => inner,
                    Err(err) => {
                        return Err(err);
                    },
                };
            }
            Ok(wrap_elem(elem, opening.as_str(), content.as_str()))
        },
        Node::INCLUDE(inc) => {
            if has_string(chain, &inc.path) {
                return Err(
                    RenderError::IncludeResolution(
                        IncludeResolutionError::CycleDetected(inc.path.clone()),
                    ),
                );
            }
            let source = match templates.get(inc.path.as_str()) {
                Some(source) => source,
                None => {
                    return Err(
                        RenderError::IncludeResolution(
                            IncludeResolutionError::PathNotFound(inc.path.clone()),
                        ),
                    );
                },
            };
            proof {
                lemma_fuel_suffices(strings_view(chain@), templates@, fuel as nat, inc.path@);
            }
            let nodes = match from_str(source.as_str()) {
                Ok(nodes) => nodes,
                Err(err) => {
                    return Err(RenderError::Parse(Some(inc.path.clone()), err));
                },
            };
            let mut inner = copy_strings(chain);
            inner.push(inc.path.clone());
            assert(strings_view(inner@) =~= strings_view(chain@).push(inc.path@));
            render_spliced_nodes(&nodes, templates, &inner, fuel - 1, String::new())
        },
    }
}

/// Renders the nodes in order, with each inclusion replaced by the
/// template that `templates` holds under its path. Any fault fails the whole
/// rendering.
pub fn render_ast_with(ast: &Vec<Node>, templates: &TemplateManager) -> (r: Result<
    String,
    RenderError,
>)
    ensures
        same_outcome(
            r,
            spliced_nodes(
                nodes_view(ast@),
                0,
                templates@,
                Seq::empty(),
                templates@.len(),
                Seq::empty(),
            ),
        ),
{
    let chain: Vec<String> = Vec::new();
    assert(strings_view(chain@) =~= Seq::empty());
    render_spliced_nodes(ast, templates, &chain, templates.len(), String::new())
}

/// Parses and renders the template `source`. Each inclusion is replaced by
/// the template that `templates` holds under its path. Any fault fails the
/// whole rendering: no part of the text is returned.
pub fn render_source(source: &str, templates: &TemplateManager) -> (r: Result<
    String,
    RenderError,
>)
    ensures
        same_outcome(r, source_text(source@, templates@)),
{
    render_template(source, None, templates)
}

/// Parses and renders the template `source`, held under `origin` if that
/// is a path.
fn render_template(source: &str, origin: Option<String>, templates: &TemplateManager) -> (r: Result<
    String,
    RenderError,
>)
    requires
        origin matches Some(path) ==> lookup(templates@, path@) is Some,
    ensures
        same_outcome(r, template_text(source@, opt_view(origin), templates@)),
{
    let nodes = match from_str(source) {
        Ok(nodes) => nodes,
        Err(err) => {
            return Err(RenderError::Parse(origin, err));
        },
    };
    let mut chain: Vec<String> = Vec::new();
    assert(strings_view(chain@) =~= Seq::empty());
    if let Some(path) = origin {
        chain.push(path);
        assert(strings_view(chain@) =~= seq![path@]);
    }
    render_spliced_nodes(&nodes, templates, &chain, templates.len(), String::new())
}

/// Renders the template that `templates` holds under `path`.
pub fn render_path(path: &str, templates: &TemplateManager) -> (r: Result<String, RenderError>)
    ensures
        same_outcome(r, path_text(path@, templates@)),
{
    match templates.get(path) {
        Some(source) => render_template(source.as_str(), Some(String::from_str(path)), templates),
        None => Err(
            RenderError::IncludeResolution(
                IncludeResolutionError::PathNotFound(String::from_str(path)),
            ),
        ),
    }
}

/// The rendering of the template `source` with each placeholder of the
/// rendered text replaced by its value.
pub open spec fn bound_text(
    source: Seq<char>,
    templates: Seq<(Seq<char>, Seq<char>)>,
    bindings: Seq<(Seq<char>, Seq<char>)>,
) -> Result<Seq<char>, RenderFault> {
    match source_text(source, templates) {
        Err(err) => Err(err),
        Ok(text) => match substituted(text, 0, bindings, Seq::empty()) {
            Err(err) => Err(RenderFault::Binding(err)),
            Ok(out) => Ok(out),
        },
    }
}

/// Renders the template `source` and replaces each placeholder `{{name}}`
/// of the rendered text by the value that `bindings` holds for `name`.
pub fn render_bound(source: &str, templates: &TemplateManager, bindings: &Table) -> (r: Result<
    String,
    RenderError,
>)
    ensures
        same_outcome(r, bound_text(source@, templates@, bindings@)),
{
    let text = match render_source(source, templates) {
        Ok(text) => text,
        Err(err) => {
            return Err(err);
        },
    };
    match substitute(text.as_str(), bindings) {
        Ok(out) => Ok(out),
        Err(err) => Err(RenderError::Binding(err)),
    }
}

/// The paths of the inclusions in a node and below it, in reading order,
/// added to `acc`.
pub open spec fn node_paths(n: NodeView, acc: Seq<Seq<char>>) -> Seq<Seq<char>>
    decreases n, 0nat,
{
    match n {
        NodeView::Elem(e) => match e.children {
            None => acc,
            Some(ch) => paths_from(ch, 0, acc),
        },
        NodeView::Include(path) => acc.push(path),
    }
}

/// The paths of the inclusions in the nodes from index `i` on, in reading
/// order, added to `acc`.
pub open spec fn paths_from(nodes: Seq<NodeView>, i: int, acc: Seq<Seq<char>>) -> Seq<Seq<char>>
    decreases nodes, nodes.len() - i,
{
    if i < 0 || i >= nodes.len() {
        acc
    } else {
        paths_from(nodes, i + 1, node_paths(nodes[i], acc))
    }
}

/// Adds the paths of the inclusions in `nodes` to `out`.
fn collect_paths(nodes: &Vec<Node>, out: &mut Vec<String>)
    ensures
        strings_view(final(out)@) == paths_from(nodes_view(nodes@), 0, strings_view(old(out)@)),
    decreases *nodes,
{
    let ghost all = nodes_view(nodes@);
    let mut i: usize = 0;
    while i < nodes.len()
        invariant
            i <= nodes.len(),
            all == nodes_view(nodes@),
            paths_from(all, 0, strings_view(old(out)@)) == paths_from(
                all,
                i as int,
                strings_view(out@),
            ),
        decreases nodes.len() - i,
    {
        let ghost before = strings_view(out@);
        assert(all[i as int] == nodes[i as int]@);
        assert(paths_from(all, i as int, before) == paths_from(
            all,
            i + 1,
            node_paths(all[i as int], before),
        ));
        match &nodes[i] {
            Node::ELEM(elem) => {
                if let Some(children) = &elem.children {
                    proof {
                        vstd::std_specs::vec::axiom_vec_index_decreases(*nodes, i as int);
                        assert(decreases_to!(nodes[i as int] => nodes[i as int]->ELEM_0));
                        assert(decreases_to!(*elem => elem.children));
                        assert(decreases_to!(elem.children => elem.children->Some_0));
                        assert(elem@.children->0 =~= nodes_view(children@));
                    }
                    collect_paths(children, out);
                }
            },
            Node::INCLUDE(inc) => {
                let path = inc.path.clone();
                out.push(path);
                assert(strings_view(out@) =~= before.push(inc.path@));
            },
        }
        i += 1;
    }
}

/// The paths of the templates that `nodes` name, in reading order: what a
/// rendering of `nodes` asks of the template manager first.
pub fn include_paths(nodes: &Vec<Node>) -> (paths: Vec<String>)
    ensures
        strings_view(paths@) == paths_from(nodes_view(nodes@), 0, Seq::empty()),
{
    let mut paths: Vec<String> = Vec::new();
    assert(strings_view(paths@) =~= Seq::empty());
    collect_paths(nodes, &mut paths);
    paths
}

} // verus!
