//! From the lines of a template to its tree.
//!
//! A line one level deeper than a declaration stands under it. What stands
//! under an element is either a run of declarations, which become its
//! children, or a run of lines of text, which become its block of text.
//! Blank lines are passed over.

use crate::parser::ast_types::{
    elem_wf, nodes_view, nodes_wf, strings_view, Cont, ContView, Elem, ElemView, Node, NodeView,
};
use crate::parser::decl::{
    declaration, lemma_declaration_wf, parse_declaration, ParseError, ParseErrorKind,
};
use crate::parser::scan::{
    after_line, count_line, find_after, find_line, indent, is_text_line, lemma_line_bounds,
    lemma_significant_bounds, line_end, line_number, next_line, scan, text_of, text_start,
    CharClass,
};
use crate::text::{from_chars, to_chars};
use vstd::prelude::*;

verus! {

/// The fault of kind `kind` on the line that holds `pos`.
pub open spec fn fault(s: Seq<char>, pos: int, kind: ParseErrorKind) -> ParseError {
    ParseError { kind, line: line_number(s, pos) as usize }
}

/// `j` where it lies after `pos`, the end of the text otherwise. What
/// follows a line lies after it, so this is `j` wherever it is applied;
/// the recursion below is measured by it.
pub open spec fn ahead(s: Seq<char>, pos: int, j: int) -> int {
    if pos < j <= s.len() {
        j
    } else {
        s.len() as int
    }
}

/// The lines of text at level `depth` from `pos` on, added to `acc`, and
/// the start of the first line that is not one of them.
pub open spec fn text_block(s: Seq<char>, pos: int, depth: int, acc: Seq<Seq<char>>) -> (
    Seq<Seq<char>>,
    int,
)
    decreases s.len() - pos,
{
    if 0 <= pos < s.len() && indent(s, pos) == 2 * depth && is_text_line(s, pos) {
        text_block(s, ahead(s, pos, after_line(s, pos)), depth, acc.push(text_of(s, pos)))
    } else {
        (acc, pos)
    }
}

/// The nodes declared at level `depth` from the line at `pos` on, added to
/// `acc`, and the start of the first line of a lower level. A line of text
/// among them is a fault, as is a line under an inclusion.
pub open spec fn siblings(s: Seq<char>, pos: int, depth: int, acc: Seq<NodeView>) -> Result<
    (Seq<NodeView>, int),
    ParseError,
>
    decreases s.len() - pos, 0int,
{
    if pos < 0 || pos >= s.len() {
        Ok((acc, pos))
    } else if indent(s, pos) % 2 != 0 {
        Err(fault(s, pos, ParseErrorKind::BadIndentation))
    } else if indent(s, pos) / 2 < depth {
        Ok((acc, pos))
    } else if indent(s, pos) / 2 > depth {
        Err(fault(s, pos, ParseErrorKind::BadIndentation))
    } else if is_text_line(s, pos) {
        Err(
            fault(
                s,
                pos,
                if depth == 0 {
                    ParseErrorKind::MalformedTag
                } else {
                    ParseErrorKind::MixedContent
                },
            ),
        )
    } else {
        let nxt = ahead(s, pos, after_line(s, pos));
        match declaration(s, text_start(s, pos), line_end(s, pos)) {
            Err(k) => Err(fault(s, pos, k)),
            Ok(NodeView::Include(path)) => if nxt < s.len() && indent(s, nxt) > indent(s, pos) {
                Err(fault(s, nxt, ParseErrorKind::IncludeWithChildren))
            } else {
                siblings(s, nxt, depth, acc.push(NodeView::Include(path)))
            },
            Ok(NodeView::Elem(e)) => match body(s, nxt, depth + 1, e) {
                Err(err) => Err(err),
                Ok((full, j)) => siblings(s, ahead(s, pos, j), depth, acc.push(NodeView::Elem(full))),
            },
        }
    }
}

/// The element `e` with what stands under it, where the lines under it
/// start at `pos` and are of level `depth`; and the start of the first line
/// that does not stand under it.
pub open spec fn body(s: Seq<char>, pos: int, depth: int, e: ElemView) -> Result<
    (ElemView, int),
    ParseError,
>
    decreases s.len() - pos, 1int,
{
    if pos < 0 || pos >= s.len() {
        Ok((e, pos))
    } else if indent(s, pos) % 2 != 0 {
        Err(fault(s, pos, ParseErrorKind::BadIndentation))
    } else if indent(s, pos) / 2 < depth {
        Ok((e, pos))
    } else if indent(s, pos) / 2 > depth {
        Err(fault(s, pos, ParseErrorKind::BadIndentation))
    } else if is_text_line(s, pos) {
        let (lines, j) = text_block(s, pos, depth, Seq::empty());
        if e.cont is Some {
            Err(fault(s, pos, ParseErrorKind::MixedContent))
        } else if 0 <= j < s.len() && indent(s, j) == indent(s, pos) {
            Err(fault(s, j, ParseErrorKind::MixedContent))
        } else if 0 <= j < s.len() && indent(s, j) > indent(s, pos) {
            Err(fault(s, j, ParseErrorKind::BadIndentation))
        } else {
            Ok((ElemView { cont: Some(ContView::Block(lines)), ..e }, j))
        }
    } else {
        match siblings(s, pos, depth, Seq::empty()) {
            Err(err) => Err(err),
            Ok((kids, j)) => Ok((ElemView { children: Some(kids), ..e }, j)),
        }
    }
}

/// The tree of the template `s`, or its first fault.
pub open spec fn parse(s: Seq<char>) -> Result<Seq<NodeView>, ParseError> {
    match siblings(s, next_line(s, 0), 0, Seq::empty()) {
        Err(err) => Err(err),
        Ok((nodes, _)) => Ok(nodes),
    }
}

/// A block of text only grows, and ends within the text.
pub proof fn lemma_text_block(s: Seq<char>, pos: int, depth: int, acc: Seq<Seq<char>>)
    requires
        0 <= pos <= s.len(),
    ensures
        text_block(s, pos, depth, acc).0.len() >= acc.len(),
        pos <= text_block(s, pos, depth, acc).1 <= s.len(),
        pos < s.len() && indent(s, pos) == 2 * depth && is_text_line(s, pos) ==> text_block(
            s,
            pos,
            depth,
            acc,
        ).0.len() > acc.len(),
    decreases s.len() - pos,
{
    if pos < s.len() && indent(s, pos) == 2 * depth && is_text_line(s, pos) {
        lemma_line_bounds(s, pos);
        lemma_text_block(s, ahead(s, pos, after_line(s, pos)), depth, acc.push(text_of(s, pos)));
    }
}

/// The nodes read at one level are well formed where those read before
/// were, and none of them is lost. Where the line at `pos` is a declaration
/// of that level, at least one node is added.
pub proof fn lemma_siblings_wf(s: Seq<char>, pos: int, depth: int, acc: Seq<NodeView>)
    requires
        0 <= pos <= s.len(),
        nodes_wf(acc),
        siblings(s, pos, depth, acc) is Ok,
    ensures
        nodes_wf(siblings(s, pos, depth, acc)->Ok_0.0),
        siblings(s, pos, depth, acc)->Ok_0.0.len() >= acc.len(),
        pos < s.len() && indent(s, pos) / 2 == depth ==> siblings(s, pos, depth, acc)->Ok_0.0.len()
            > acc.len(),
    decreases s.len() - pos, 0int,
{
    if pos < s.len() && indent(s, pos) % 2 == 0 && indent(s, pos) / 2 == depth && !is_text_line(
        s,
        pos,
    ) {
        lemma_line_bounds(s, pos);
        let nxt = ahead(s, pos, after_line(s, pos));
        lemma_declaration_wf(s, text_start(s, pos), line_end(s, pos));
        match declaration(s, text_start(s, pos), line_end(s, pos)) {
            Err(_) => {},
            Ok(NodeView::Include(path)) => {
                lemma_siblings_wf(s, nxt, depth, acc.push(NodeView::Include(path)));
            },
            Ok(NodeView::Elem(e)) => {
                lemma_body_wf(s, nxt, depth + 1, e);
                let (full, j) = body(s, nxt, depth + 1, e)->Ok_0;
                lemma_siblings_wf(s, ahead(s, pos, j), depth, acc.push(NodeView::Elem(full)));
            },
        }
    }
}

/// An element stays well formed when what stands under it is added.
pub proof fn lemma_body_wf(s: Seq<char>, pos: int, depth: int, e: ElemView)
    requires
        0 <= pos <= s.len(),
        elem_wf(e),
        e.children is None,
        body(s, pos, depth, e) is Ok,
    ensures
        elem_wf(body(s, pos, depth, e)->Ok_0.0),
        pos <= body(s, pos, depth, e)->Ok_0.1 <= s.len(),
    decreases s.len() - pos, 1int,
{
    if pos < s.len() && indent(s, pos) % 2 == 0 && indent(s, pos) / 2 == depth {
        if is_text_line(s, pos) {
            lemma_text_block(s, pos, depth, Seq::empty());
        } else {
            lemma_siblings_wf(s, pos, depth, Seq::empty());
            lemma_siblings_end(s, pos, depth, Seq::empty());
        }
    }
}

/// Reading a level ends at or after its start, within the text.
pub proof fn lemma_siblings_end(s: Seq<char>, pos: int, depth: int, acc: Seq<NodeView>)
    requires
        0 <= pos <= s.len(),
        siblings(s, pos, depth, acc) is Ok,
    ensures
        pos <= siblings(s, pos, depth, acc)->Ok_0.1 <= s.len(),
    decreases s.len() - pos,
{
    if pos < s.len() && indent(s, pos) % 2 == 0 && indent(s, pos) / 2 == depth && !is_text_line(
        s,
        pos,
    ) {
        lemma_line_bounds(s, pos);
        let nxt = ahead(s, pos, after_line(s, pos));
        match declaration(s, text_start(s, pos), line_end(s, pos)) {
            Err(_) => {},
            Ok(NodeView::Include(path)) => {
                lemma_siblings_end(s, nxt, depth, acc.push(NodeView::Include(path)));
            },
            Ok(NodeView::Elem(e)) => {
                let (full, j) = body(s, nxt, depth + 1, e)->Ok_0;
                lemma_siblings_end(s, ahead(s, pos, j), depth, acc.push(NodeView::Elem(full)));
            },
        }
    }
}

/// Every tree that parsing gives is well formed: no tag and no path is
/// empty, and no element has an empty collection.
pub proof fn lemma_parse_wf(s: Seq<char>)
    requires
        parse(s) is Ok,
    ensures
        nodes_wf(parse(s)->Ok_0),
{
    lemma_significant_bounds(s, 0, 0);
    lemma_siblings_wf(s, next_line(s, 0), 0, Seq::empty());
}

/// The fault of kind `kind` on the line that holds `pos`.
fn fault_at(s: &Vec<char>, pos: usize, kind: ParseErrorKind) -> (e: ParseError)
    requires
        pos < s.len(),
    ensures
        e == fault(s@, pos as int, kind),
{
    ParseError { kind, line: count_line(s, pos) }
}

/// The head of the line at `pos`: where its indentation ends and where the
/// line ends.
fn line_head(s: &Vec<char>, pos: usize) -> (r: (usize, usize))
    requires
        pos <= s.len(),
    ensures
        r.0 == text_start(s@, pos as int),
        r.1 == line_end(s@, pos as int),
        pos <= r.0 <= r.1 <= s.len(),
{
    let end = scan(s, pos, s.len(), CharClass::Except('\n'));
    let start = scan(s, pos, end, CharClass::Space);
    (start, end)
}

/// Reads the lines of text at level `depth` from `pos` on.
fn parse_text_block(s: &Vec<char>, pos: usize, depth: usize) -> (r: (Vec<String>, usize))
    requires
        pos <= s.len(),
    ensures
        text_block(s@, pos as int, depth as int, Seq::empty()) == (
            strings_view(r.0@),
            r.1 as int,
        ),
        pos <= r.1 <= s.len(),
{
    let mut lines: Vec<String> = Vec::new();
    let mut cur: usize = pos;
    assert(strings_view(lines@) =~= Seq::empty());
    while cur < s.len()
        invariant
            pos <= cur <= s.len(),
            text_block(s@, pos as int, depth as int, Seq::empty()) == text_block(
                s@,
                cur as int,
                depth as int,
                strings_view(lines@),
            ),
        decreases s.len() - cur,
    {
        let (start, end) = line_head(s, cur);
        let ind = start - cur;
        if !(ind % 2 == 0 && ind / 2 == depth && start < end && s[start] == '|') {
            return (lines, cur);
        }
        let p = start + 1;
        let a = if p < end && s[p] == ' ' {
            p + 1
        } else {
            p
        };
        let line = from_chars(s, a, end);
        let ghost before = strings_view(lines@);
        lines.push(line);
        assert(strings_view(lines@) =~= before.push(line@));
        cur = find_after(s, cur, end);
    }
    (lines, cur)
}

/// Reads the nodes declared at level `depth` from the line at `pos` on.
fn parse_siblings(s: &Vec<char>, pos: usize, depth: usize) -> (r: Result<
    (Vec<Node>, usize),
    ParseError,
>)
    requires
        pos <= s.len(),
    ensures
        match r {
            Ok((nodes, j)) => siblings(s@, pos as int, depth as int, Seq::empty()) == Ok::<
                _,
                ParseError,
            >((nodes_view(nodes@), j as int)) && pos <= j <= s.len(),
            Err(err) => siblings(s@, pos as int, depth as int, Seq::empty()) == Err::<
                (Seq<NodeView>, int),
                _,
            >(err),
        },
    decreases s.len() - pos, 0int,
{
    let mut nodes: Vec<Node> = Vec::new();
    let mut cur: usize = pos;
    assert(nodes_view(nodes@) =~= Seq::empty());
    while cur < s.len()
        invariant
            pos <= cur <= s.len(),
            siblings(s@, pos as int, depth as int, Seq::empty()) == siblings(
                s@,
                cur as int,
                depth as int,
                nodes_view(nodes@),
            ),
        decreases s.len() - cur,
    {
        let (start, end) = line_head(s, cur);
        let ind = start - cur;
        if ind % 2 != 0 {
            return Err(fault_at(s, cur, ParseErrorKind::BadIndentation));
        }
        if ind / 2 < depth {
            return Ok((nodes, cur));
        }
        if ind / 2 > depth {
            return Err(fault_at(s, cur, ParseErrorKind::BadIndentation));
        }
        if start < end && s[start] == '|' {
            let kind = if depth == 0 {
                ParseErrorKind::MalformedTag
            } else {
                ParseErrorKind::MixedContent
            };
            return Err(fault_at(s, cur, kind));
        }
        let nxt = find_after(s, cur, end);
        let node = match parse_declaration(s, start, end) {
            Ok(node) => node,
            Err(k) => {
                return Err(fault_at(s, cur, k));
            },
        };
        let ghost before = nodes_view(nodes@);
        match node {
            Node::INCLUDE(inc) => {
                if nxt < s.len() {
                    let (nstart, _) = line_head(s, nxt);
                    if nstart - nxt > ind {
                        return Err(fault_at(s, nxt, ParseErrorKind::IncludeWithChildren));
                    }
                }
                let kept = Node::INCLUDE(inc);
                nodes.push(kept);
                assert(nodes_view(nodes@) =~= before.push(kept@));
                cur = nxt;
            },
            Node::ELEM(e) => {
                let (full, j) = match parse_body(s, nxt, depth + 1, e) {
                    Ok(found) => found,
                    Err(err) => {
                        return Err(err);
                    },
                };
                let kept = Node::ELEM(full);
                nodes.push(kept);
                assert(nodes_view(nodes@) =~= before.push(kept@));
                cur = j;
            },
        }
    }
    Ok((nodes, cur))
}

/// Reads what stands under the element `e`, from the line at `pos` on.
fn parse_body(s: &Vec<char>, pos: usize, depth: usize, e: Elem) -> (r: Result<
    (Elem, usize),
    ParseError,
>)
    requires
        pos <= s.len(),
        e.children is None,
    ensures
        match r {
            Ok((full, j)) => body(s@, pos as int, depth as int, e@) == Ok::<_, ParseError>(
                (full@, j as int),
            ) && pos <= j <= s.len(),
            Err(err) => body(s@, pos as int, depth as int, e@) == Err::<(ElemView, int), _>(
                err,
            ),
        },
    decreases s.len() - pos, 1int,
{
    if pos >= s.len() {
        return Ok((e, pos));
    }
    let (start, end) = line_head(s, pos);
    let ind = start - pos;
    if ind % 2 != 0 {
        return Err(fault_at(s, pos, ParseErrorKind::BadIndentation));
    }
    if ind / 2 < depth {
        return Ok((e, pos));
    }
    if ind / 2 > depth {
        return Err(fault_at(s, pos, ParseErrorKind::BadIndentation));
    }
    if start < end && s[start] == '|' {
        if e.cont.is_some() {
            return Err(fault_at(s, pos, ParseErrorKind::MixedContent));
        }
        let (lines, j) = parse_text_block(s, pos, depth);
        if j < s.len() {
            let (jstart, _) = line_head(s, j);
            if jstart - j == ind {
                return Err(fault_at(s, j, ParseErrorKind::MixedContent));
            }
            if jstart - j > ind {
                return Err(fault_at(s, j, ParseErrorKind::BadIndentation));
            }
        }
        let full = Elem {
            tag: e.tag,
            id: e.id,
            classes: e.classes,
            attr: e.attr,
            cont: Some(Cont::BLOCK(lines)),
            children: None,
        };
        Ok((full, j))
    } else {
        let (kids, j) = match parse_siblings(s, pos, depth) {
            Ok(found) => found,
            Err(err) => {
                return Err(err);
            },
        };
        let full = Elem {
            tag: e.tag,
            id: e.id,
            classes: e.classes,
            attr: e.attr,
            cont: e.cont,
            children: Some(kids),
        };
        assert(full@.children->0 =~= nodes_view(kids@));
        Ok((full, j))
    }
}

/// Parses a template into its tree. The empty template has the empty tree.
pub fn from_str(source: &str) -> (r: Result<Vec<Node>, ParseError>)
    ensures
        match r {
            Ok(nodes) => parse(source@) == Ok::<_, ParseError>(nodes_view(nodes@)) && nodes_wf(
                nodes_view(nodes@),
            ) && nodes.len() == parse(source@)->Ok_0.len(),
            Err(err) => parse(source@) == Err::<Seq<NodeView>, _>(err),
        },
{
    proof {
        if parse(source@) is Ok {
            lemma_parse_wf(source@);
        }
    }
    let s = to_chars(source);
    let first = find_line(&s, 0);
    match parse_siblings(&s, first, 0) {
        Ok((nodes, _)) => Ok(nodes),
        Err(err) => Err(err),
    }
}

} // verus!
