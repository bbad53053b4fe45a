//! The grammar of one declaring line:
//! a tag; then, with no space between, `#name` for the identifier and
//! `.name` for each class; then attributes `name="value"` or
//! `name='value'`, each after spaces; then the rest of the line as text.
//! A line `include path` names the template at `path`: the keyword, spaces,
//! and the rest of the line as the path.

use crate::parser::ast_types::{
    attrs_view, node_wf, strings_view, Attr, AttrView, Cont, ContView, Elem, ElemView, Include,
    Node, NodeView,
};
use crate::parser::scan::{lemma_run_end_bounds, run_end, scan, CharClass};
use crate::text::from_chars;
use vstd::prelude::*;

verus! {

/// What is wrong with a template.
#[derive(Clone, Copy, PartialEq, Eq, Debug)]
pub enum ParseErrorKind {
    /// A line does not start with a tag, a `#` or a `.` is followed by no
    /// name, a second identifier is given, the tag is followed by something
    /// that is neither a shorthand nor a space, the inclusion keyword is
    /// followed by no path, or a line of text stands outside any element.
    MalformedTag,
    /// The indentation of a line is not a multiple of two spaces, or the
    /// line is more than one level deeper than the element it stands under.
    BadIndentation,
    /// An element has lines of text and declarations under it, or text on
    /// its own line and lines of text under it.
    MixedContent,
    /// A line stands under an inclusion.
    IncludeWithChildren,
    /// The value of an attribute is not closed on its line.
    UnterminatedQuote,
}

/// A fault of a template, with the number of the offending line.
#[derive(Clone, Copy, PartialEq, Eq, Debug)]
pub struct ParseError {
    pub kind: ParseErrorKind,
    pub line: usize,
}

/// The model of an optional string.
pub open spec fn opt_view(o: Option<String>) -> Option<Seq<char>> {
    match o {
        Some(x) => Some(x@),
        None => None,
    }
}

/// Whether `s[from..to]` is the keyword that names another template.
pub open spec fn is_keyword(s: Seq<char>, from: int, to: int) -> bool {
    &&& to - from == 7
    &&& s[from] == 'i'
    &&& s[from + 1] == 'n'
    &&& s[from + 2] == 'c'
    &&& s[from + 3] == 'l'
    &&& s[from + 4] == 'u'
    &&& s[from + 5] == 'd'
    &&& s[from + 6] == 'e'
}

/// The shorthands from `pos` on, added to the identifier and classes read
/// so far, and where they end. They end at a space or at the end of the
/// line; anything else is a fault, as are an empty name and a second
/// identifier.
pub open spec fn shorthand(
    s: Seq<char>,
    pos: int,
    end: int,
    id: Option<Seq<char>>,
    classes: Seq<Seq<char>>,
) -> Result<(Option<Seq<char>>, Seq<Seq<char>>, int), ParseErrorKind>
    decreases end - pos,
{
    if pos < end && (s[pos] == '#' || s[pos] == '.') {
        let e = run_end(s, pos + 1, end, CharClass::Name);
        if e <= pos + 1 || e > end {
            Err(ParseErrorKind::MalformedTag)
        } else if s[pos] == '#' {
            if id is Some {
                Err(ParseErrorKind::MalformedTag)
            } else {
                shorthand(s, e, end, Some(s.subrange(pos + 1, e)), classes)
            }
        } else {
            shorthand(s, e, end, id, classes.push(s.subrange(pos + 1, e)))
        }
    } else if pos < end && s[pos] != ' ' {
        Err(ParseErrorKind::MalformedTag)
    } else {
        Ok((id, classes, pos))
    }
}

/// Whether an attribute stands at `q`: a name that ends at `n`, then `=`
/// and a quote.
pub open spec fn attr_at(s: Seq<char>, q: int, n: int, end: int) -> bool {
    q < n && n + 1 < end && s[n] == '=' && (s[n + 1] == '"' || s[n + 1] == '\'')
}

/// The attributes from `pos` on, added to those read so far, and where the
/// rest of the line starts. The value of an attribute runs from its opening
/// quote to the next quote of the same kind, and is kept without them.
pub open spec fn attributes(s: Seq<char>, pos: int, end: int, acc: Seq<AttrView>) -> Result<
    (Seq<AttrView>, int),
    ParseErrorKind,
>
    decreases end - pos,
{
    let q = run_end(s, pos, end, CharClass::Space);
    let n = run_end(s, q, end, CharClass::Name);
    if pos <= q && attr_at(s, q, n, end) {
        let r = run_end(s, n + 2, end, CharClass::Except(s[n + 1]));
        if r >= end || r < n + 2 {
            Err(ParseErrorKind::UnterminatedQuote)
        } else {
            attributes(
                s,
                r + 1,
                end,
                acc.push(AttrView { name: s.subrange(q, n), value: s.subrange(n + 2, r) }),
            )
        }
    } else {
        Ok((acc, q))
    }
}

/// The sequence, or nothing where it is empty.
pub open spec fn non_empty<T>(items: Seq<T>) -> Option<Seq<T>> {
    if items.len() == 0 {
        None
    } else {
        Some(items)
    }
}

/// The node that the declaration `s[pos..end]` stands for, without what
/// stands under it.
pub open spec fn declaration(s: Seq<char>, pos: int, end: int) -> Result<NodeView, ParseErrorKind> {
    let t = run_end(s, pos, end, CharClass::Name);
    if t <= pos {
        Err(ParseErrorKind::MalformedTag)
    } else if is_keyword(s, pos, t) {
        let q = run_end(s, t, end, CharClass::Space);
        if q == t || q >= end {
            Err(ParseErrorKind::MalformedTag)
        } else {
            Ok(NodeView::Include(s.subrange(q, end)))
        }
    } else {
        match shorthand(s, t, end, None, Seq::empty()) {
            Err(k) => Err(k),
            Ok((id, classes, p)) => match attributes(s, p, end, Seq::empty()) {
                Err(k) => Err(k),
                Ok((attrs, q)) => Ok(
                    NodeView::Elem(
                        ElemView {
                            tag: s.subrange(pos, t),
                            id,
                            classes: non_empty(classes),
                            attr: non_empty(attrs),
                            cont: if q < end {
                                Some(ContView::Line(s.subrange(q, end)))
                            } else {
                                None
                            },
                            children: None,
                        },
                    ),
                ),
            },
        }
    }
}

/// A declaration stands for a well-formed node: its tag, or its path, is
/// not empty, and it has no empty collection.
pub proof fn lemma_declaration_wf(s: Seq<char>, pos: int, end: int)
    requires
        0 <= pos <= end <= s.len(),
        declaration(s, pos, end) is Ok,
    ensures
        node_wf(declaration(s, pos, end)->Ok_0),
        declaration(s, pos, end)->Ok_0 matches NodeView::Elem(e) ==> e.children is None,
{
    let t = run_end(s, pos, end, CharClass::Name);
    lemma_run_end_bounds(s, pos, end, CharClass::Name);
    if is_keyword(s, pos, t) {
        lemma_run_end_bounds(s, t, end, CharClass::Space);
    }
}

/// Reads the shorthands that follow a tag.
fn parse_shorthand(s: &Vec<char>, from: usize, end: usize) -> (r: Result<
    (Option<String>, Vec<String>, usize),
    ParseErrorKind,
>)
    requires
        from <= end <= s.len(),
    ensures
        match r {
            Ok((id, classes, p)) => shorthand(s@, from as int, end as int, None, Seq::empty())
                == Ok::<_, ParseErrorKind>((opt_view(id), strings_view(classes@), p as int))
                && from <= p <= end,
            Err(k) => shorthand(s@, from as int, end as int, None, Seq::empty()) == Err::<
                (Option<Seq<char>>, Seq<Seq<char>>, int),
                _,
            >(k),
        },
{
    let mut id: Option<String> = None;
    let mut classes: Vec<String> = Vec::new();
    let mut pos: usize = from;
    assert(strings_view(classes@) =~= Seq::empty());
    while pos < end && (s[pos] == '#' || s[pos] == '.')
        invariant
            from <= pos <= end <= s.len(),
            shorthand(s@, from as int, end as int, None, Seq::empty()) == shorthand(
                s@,
                pos as int,
                end as int,
                opt_view(id),
                strings_view(classes@),
            ),
        decreases end - pos,
    {
        let e = scan(s, pos + 1, end, CharClass::Name);
        if e <= pos + 1 {
            return Err(ParseErrorKind::MalformedTag);
        }
        let name = from_chars(s, pos + 1, e);
        if s[pos] == '#' {
            if id.is_some() {
                return Err(ParseErrorKind::MalformedTag);
            }
            id = Some(name);
        } else {
            let ghost before = strings_view(classes@);
            classes.push(name);
            assert(strings_view(classes@) =~= before.push(name@));
        }
        pos = e;
    }
    if pos < end && s[pos] != ' ' {
        return Err(ParseErrorKind::MalformedTag);
    }
    Ok((id, classes, pos))
}

/// Reads the attributes of a declaration.
fn parse_attributes(s: &Vec<char>, from: usize, end: usize) -> (r: Result<
    (Vec<Attr>, usize),
    ParseErrorKind,
>)
    requires
        from <= end <= s.len(),
    ensures
        match r {
            Ok((attrs, q)) => attributes(s@, from as int, end as int, Seq::empty()) == Ok::<
                _,
                ParseErrorKind,
            >((attrs_view(attrs@), q as int)) && from <= q <= end,
            Err(k) => attributes(s@, from as int, end as int, Seq::empty()) == Err::<
                (Seq<AttrView>, int),
                _,
            >(k),
        },
{
    let mut attrs: Vec<Attr> = Vec::new();
    let mut pos: usize = from;
    assert(attrs_view(attrs@) =~= Seq::empty());
    loop
        invariant
            from <= pos <= end <= s.len(),
            attributes(s@, from as int, end as int, Seq::empty()) == attributes(
                s@,
                pos as int,
                end as int,
                attrs_view(attrs@),
            ),
        decreases end - pos,
    {
        let q = scan(s, pos, end, CharClass::Space);
        let n = scan(s, q, end, CharClass::Name);
        if q < n && n < end && n + 1 < end && s[n] == '=' && (s[n + 1] == '"' || s[n + 1]
            == '\'') {
            let r = scan(s, n + 2, end, CharClass::Except(s[n + 1]));
            if r >= end {
                return Err(ParseErrorKind::UnterminatedQuote);
            }
            let attr = Attr { name: from_chars(s, q, n), value: from_chars(s, n + 2, r) };
            let ghost before = attrs_view(attrs@);
            attrs.push(attr);
            assert(attrs_view(attrs@) =~= before.push(attr@));
            pos = r + 1;
        } else {
            return Ok((attrs, q));
        }
    }
}

/// Whether `s[from..to]` is the keyword that names another template.
fn keyword_at(s: &Vec<char>, from: usize, to: usize) -> (b: bool)
    requires
        from <= to <= s.len(),
    ensures
        b == is_keyword(s@, from as int, to as int),
{
    to - from == 7 && s[from] == 'i' && s[from + 1] == 'n' && s[from + 2] == 'c' && s[from + 3]
        == 'l' && s[from + 4] == 'u' && s[from + 5] == 'd' && s[from + 6] == 'e'
}

/// Reads the declaration `s[pos..end]`.
pub fn parse_declaration(s: &Vec<char>, pos: usize, end: usize) -> (r: Result<
    Node,
    ParseErrorKind,
>)
    requires
        pos <= end <= s.len(),
    ensures
        match r {
            Ok(node) => declaration(s@, pos as int, end as int) == Ok::<_, ParseErrorKind>(
                node@,
            ),
            Err(k) => declaration(s@, pos as int, end as int) == Err::<NodeView, _>(k),
        },
{
    let t = scan(s, pos, end, CharClass::Name);
    if t <= pos {
        return Err(ParseErrorKind::MalformedTag);
    }
    if keyword_at(s, pos, t) {
        let q = scan(s, t, end, CharClass::Space);
        if q == t || q >= end {
            return Err(ParseErrorKind::MalformedTag);
        }
        return Ok(Node::INCLUDE(Include { path: from_chars(s, q, end) }));
    }
    let (id, classes, p) = match parse_shorthand(s, t, end) {
        Ok(found) => found,
        Err(k) => {
            return Err(k);
        },
    };
    let (attrs, q) = match parse_attributes(s, p, end) {
        Ok(found) => found,
        Err(k) => {
            return Err(k);
        },
    };
    let cont = if q < end {
        Some(Cont::LINE(from_chars(s, q, end)))
    } else {
        None
    };
    let elem = Elem {
        tag: from_chars(s, pos, t),
        id,
        classes: if classes.len() == 0 {
            None
        } else {
            Some(classes)
        },
        attr: if attrs.len() == 0 {
            None
        } else {
            Some(attrs)
        },
        cont,
        children: None,
    };
    Ok(Node::ELEM(elem))
}

} // verus!
