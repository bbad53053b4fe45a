//! The shorthand for identifier and classes means what the fields say: a
//! line written with it stands for the element that has the same tag,
//! identifier and classes set directly.

use crate::parser::ast_types::{AttrView, ElemView, NodeView};
use crate::parser::decl::{attributes, declaration, is_keyword, non_empty, shorthand, ParseErrorKind};
use crate::parser::ast::{ahead, body, parse, siblings};
use crate::parser::decl::ParseError;
use crate::parser::scan::{
    after_line, is_name_char, line_end, next_line, run_end, text_start, CharClass,
};
use vstd::prelude::*;

verus! {

/// Whether `name` can stand as a tag, an identifier or a class: it is not
/// empty and holds name characters only.
pub open spec fn is_name(name: Seq<char>) -> bool {
    name.len() > 0 && forall|i: int| 0 <= i < name.len() ==> is_name_char(#[trigger] name[i])
}

/// The classes in shorthand: each after a dot.
pub open spec fn classes_text(classes: Seq<Seq<char>>) -> Seq<char>
    decreases classes.len(),
{
    if classes.len() == 0 {
        Seq::empty()
    } else {
        seq!['.'] + classes[0] + classes_text(classes.drop_first())
    }
}

/// The identifier in shorthand: after a hash sign.
pub open spec fn id_text(id: Option<Seq<char>>) -> Seq<char> {
    match id {
        Some(x) => seq!['#'] + x,
        None => Seq::empty(),
    }
}

/// The line that declares an element by its tag and the shorthand for its
/// identifier and classes.
pub open spec fn shorthand_line(tag: Seq<char>, id: Option<Seq<char>>, classes: Seq<Seq<char>>) -> Seq<
    char,
> {
    tag + id_text(id) + classes_text(classes)
}

/// A run ends at `e` where every character before `e` is of the class and
/// the one at `e`, if the bound is not reached, is not.
pub proof fn lemma_run_end_exact(s: Seq<char>, from: int, e: int, to: int, k: CharClass)
    requires
        0 <= from <= e <= to,
        e <= s.len(),
        forall|i: int| from <= i < e ==> k.holds(#[trigger] s[i]),
        e == to || e == s.len() || !k.holds(s[e]),
    ensures
        run_end(s, from, to, k) == e,
    decreases e - from,
{
    if from < e {
        lemma_run_end_exact(s, from + 1, e, to, k);
    }
}

/// Classes in shorthand start with a dot, if there are any.
proof fn lemma_classes_text_head(classes: Seq<Seq<char>>)
    ensures
        classes.len() == 0 ==> classes_text(classes).len() == 0,
        classes.len() > 0 ==> classes_text(classes).len() > 0 && classes_text(classes)[0] == '.',
{
}

/// Where the rest of a line is `rest` in shorthand, reading the shorthands
/// there adds exactly `rest` to the classes, and ends at the end of the line.
proof fn lemma_shorthand_classes(
    s: Seq<char>,
    p: int,
    id: Option<Seq<char>>,
    acc: Seq<Seq<char>>,
    rest: Seq<Seq<char>>,
)
    requires
        0 <= p <= s.len(),
        s.subrange(p, s.len() as int) == classes_text(rest),
        forall|i: int| 0 <= i < rest.len() ==> is_name(#[trigger] rest[i]),
    ensures
        shorthand(s, p, s.len() as int, id, acc) == Ok::<_, ParseErrorKind>(
            (id, acc + rest, s.len() as int),
        ),
    decreases rest.len(),
{
    let end = s.len() as int;
    let text = classes_text(rest);
    lemma_classes_text_head(rest);
    assert(text.len() == end - p);
    if rest.len() == 0 {
        assert(acc + rest =~= acc);
    } else {
        let c = rest[0];
        let tail = rest.drop_first();
        let e = p + 1 + c.len();
        assert(is_name(c));
        assert(text =~= seq!['.'] + c + classes_text(tail));
        assert(s[p] == text[0]);
        assert forall|i: int| p + 1 <= i < e implies CharClass::Name.holds(#[trigger] s[i]) by {
            assert(s[i] == text[i - p]);
            assert(text[i - p] == c[i - p - 1]);
        }
        lemma_classes_text_head(tail);
        if e < end {
            assert(s[e] == text[e - p]);
            assert(text[e - p] == classes_text(tail)[0]);
        }
        lemma_run_end_exact(s, p + 1, e, end, CharClass::Name);
        assert(s.subrange(p + 1, e) =~= c) by {
            assert forall|i: int| 0 <= i < c.len() implies s.subrange(p + 1, e)[i] == c[i] by {
                assert(s[p + 1 + i] == text[1 + i]);
            }
        }
        assert(s.subrange(e, end) =~= classes_text(tail)) by {
            assert forall|i: int| 0 <= i < end - e implies s.subrange(e, end)[i] == classes_text(
                tail,
            )[i] by {
                assert(s[e + i] == text[e - p + i]);
            }
        }
        assert forall|i: int| 0 <= i < tail.len() implies is_name(#[trigger] tail[i]) by {
            assert(tail[i] == rest[i + 1]);
        }
        lemma_shorthand_classes(s, e, id, acc.push(c), tail);
        assert(acc.push(c) + tail =~= acc + rest);
    }
}

/// A line made of a tag and the shorthand for an identifier and classes
/// declares the element that has this tag, this identifier and these
/// classes, and nothing else.
pub proof fn lemma_shorthand_as_fields(
    tag: Seq<char>,
    id: Option<Seq<char>>,
    classes: Seq<Seq<char>>,
)
    requires
        is_name(tag),
        !is_keyword(tag, 0, tag.len() as int),
        id matches Some(x) ==> is_name(x),
        forall|i: int| 0 <= i < classes.len() ==> is_name(#[trigger] classes[i]),
    ensures
        declaration(
            shorthand_line(tag, id, classes),
            0,
            shorthand_line(tag, id, classes).len() as int,
        ) == Ok::<_, ParseErrorKind>(
            NodeView::Elem(
                ElemView {
                    tag,
                    id,
                    classes: non_empty(classes),
                    attr: None,
                    cont: None,
                    children: None,
                },
            ),
        ),
{
    let line = shorthand_line(tag, id, classes);
    let end = line.len() as int;
    let t = tag.len() as int;
    let after = id_text(id) + classes_text(classes);
    assert(line =~= tag + after);
    lemma_classes_text_head(classes);
    assert forall|i: int| 0 <= i < t implies CharClass::Name.holds(#[trigger] line[i]) by {
        assert(line[i] == tag[i]);
    }
    if t < end {
        assert(line[t] == after[0]);
        assert(after[0] == '#' || after[0] == '.');
    }
    lemma_run_end_exact(line, 0, t, end, CharClass::Name);
    assert(line.subrange(0, t) =~= tag);
    assert(!is_keyword(line, 0, t)) by {
        if t == 7 {
            assert(line[0] == tag[0] && line[1] == tag[1] && line[2] == tag[2] && line[3] == tag[3]
                && line[4] == tag[4] && line[5] == tag[5] && line[6] == tag[6]);
        }
    }
    let none: Seq<Seq<char>> = Seq::empty();
    match id {
        Some(x) => {
            let e = t + 1 + x.len();
            let text = classes_text(classes);
            assert(line =~= tag + seq!['#'] + x + text);
            assert(line[t] == '#');
            assert forall|i: int| t + 1 <= i < e implies CharClass::Name.holds(
                #[trigger] line[i],
            ) by {
                assert(line[i] == x[i - t - 1]);
            }
            if e < end {
                assert(line[e] == text[0]);
            }
            lemma_run_end_exact(line, t + 1, e, end, CharClass::Name);
            assert(line.subrange(t + 1, e) =~= x);
            assert(line.subrange(e, end) =~= text);
            lemma_shorthand_classes(line, e, Some(x), none, classes);
            assert(none + classes =~= classes);
            assert(shorthand(line, t, end, None, none) == shorthand(line, e, end, Some(x), none));
        },
        None => {
            assert(line =~= tag + classes_text(classes));
            assert(line.subrange(t, end) =~= classes_text(classes));
            lemma_shorthand_classes(line, t, None, none, classes);
            assert(none + classes =~= classes);
        },
    }
    assert(run_end(line, end, end, CharClass::Space) == end);
    assert(run_end(line, end, end, CharClass::Name) == end);
    assert(attributes(line, end, end, Seq::empty()) == Ok::<_, ParseErrorKind>(
        (Seq::<AttrView>::empty(), end),
    ));
}

/// A template of one line without indentation has the node that the line
/// declares, and nothing else.
pub proof fn lemma_single_line(s: Seq<char>)
    requires
        s.len() > 0,
        forall|i: int| 0 <= i < s.len() ==> #[trigger] s[i] != '\n',
        s[0] != ' ',
        s[0] != '|',
        declaration(s, 0, s.len() as int) is Ok,
    ensures
        parse(s) == Ok::<_, ParseError>(seq![declaration(s, 0, s.len() as int)->Ok_0]),
{
    let end = s.len() as int;
    lemma_run_end_exact(s, 0, end, end, CharClass::Except('\n'));
    assert(line_end(s, 0) == end);
    assert(text_start(s, 0) == 0);
    assert(next_line(s, 0) == 0);
    assert(after_line(s, 0) == end);
    assert(ahead(s, 0, end) == end);
    let none: Seq<NodeView> = Seq::empty();
    let node = declaration(s, 0, end)->Ok_0;
    assert(none.push(node) =~= seq![node]);
    match node {
        NodeView::Elem(e) => {
            assert(body(s, end, 1, e) == Ok::<_, ParseError>((e, end)));
            assert(siblings(s, end, 0, seq![node]) == Ok::<_, ParseError>((seq![node], end)));
        },
        NodeView::Include(path) => {
            assert(siblings(s, end, 0, seq![node]) == Ok::<_, ParseError>((seq![node], end)));
        },
    }
}

/// Classes in shorthand hold no line feed.
proof fn lemma_classes_text_chars(classes: Seq<Seq<char>>)
    requires
        forall|i: int| 0 <= i < classes.len() ==> is_name(#[trigger] classes[i]),
    ensures
        forall|i: int|
            0 <= i < classes_text(classes).len() ==> #[trigger] classes_text(classes)[i] != '\n',
    decreases classes.len(),
{
    if classes.len() > 0 {
        let c = classes[0];
        let tail = classes.drop_first();
        assert(is_name(c));
        assert forall|i: int| 0 <= i < tail.len() implies is_name(#[trigger] tail[i]) by {
            assert(tail[i] == classes[i + 1]);
        }
        lemma_classes_text_chars(tail);
        let text = classes_text(classes);
        assert forall|i: int| 0 <= i < text.len() implies #[trigger] text[i] != '\n' by {
            if i == 0 {
            } else if i < 1 + c.len() {
                assert(text[i] == c[i - 1]);
                assert(is_name_char(c[i - 1]));
            } else {
                assert(text[i] == classes_text(tail)[i - 1 - c.len()]);
            }
        }
    }
}

/// Parsing a tag with the shorthand for an identifier and classes gives
/// the one element that has this tag, this identifier and these classes
/// set directly, equal to it field by field.
pub proof fn lemma_shorthand_parses(tag: Seq<char>, id: Option<Seq<char>>, classes: Seq<Seq<char>>)
    requires
        is_name(tag),
        !is_keyword(tag, 0, tag.len() as int),
        id matches Some(x) ==> is_name(x),
        forall|i: int| 0 <= i < classes.len() ==> is_name(#[trigger] classes[i]),
    ensures
        parse(shorthand_line(tag, id, classes)) == Ok::<_, ParseError>(
            seq![
                NodeView::Elem(
                    ElemView {
                        tag,
                        id,
                        classes: non_empty(classes),
                        attr: None,
                        cont: None,
                        children: None,
                    },
                ),
            ],
        ),
{
    let line = shorthand_line(tag, id, classes);
    lemma_shorthand_as_fields(tag, id, classes);
    lemma_classes_text_chars(classes);
    let text = classes_text(classes);
    assert(line[0] == tag[0]);
    assert(is_name_char(tag[0]));
    assert forall|i: int| 0 <= i < line.len() implies #[trigger] line[i] != '\n' by {
        if i < tag.len() {
            assert(line[i] == tag[i]);
            assert(is_name_char(tag[i]));
        } else {
            match id {
                Some(x) => {
                    assert(line =~= tag + seq!['#'] + x + text);
                    if i == tag.len() {
                    } else if i < tag.len() + 1 + x.len() {
                        assert(line[i] == x[i - tag.len() - 1]);
                        assert(is_name_char(x[i - tag.len() - 1]));
                    } else {
                        assert(line[i] == text[i - tag.len() - 1 - x.len()]);
                    }
                },
                None => {
                    assert(line =~= tag + text);
                    assert(line[i] == text[i - tag.len()]);
                },
            }
        }
    }
    lemma_single_line(line);
}

} // verus!
