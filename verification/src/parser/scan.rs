//! Runs of characters and the lines of a source text.

use vstd::prelude::*;

verus! {

/// A class of characters that a run is made of.
#[derive(Clone, Copy, Debug)]
pub enum CharClass {
    /// The space.
    Space,
    /// Letters and digits of ASCII, `-` and `_`.
    Name,
    /// Every character but the given one.
    Except(char),
}

/// Whether `c` may stand in a tag, an identifier, a class or an attribute
/// name.
pub open spec fn is_name_char(c: char) -> bool {
    ('a' <= c && c <= 'z') || ('A' <= c && c <= 'Z') || ('0' <= c && c <= '9') || c == '-' || c
        == '_'
}

impl CharClass {
    /// Whether `c` belongs to the class.
    pub open spec fn holds(self, c: char) -> bool {
        match self {
            CharClass::Space => c == ' ',
            CharClass::Name => is_name_char(c),
            CharClass::Except(x) => c != x,
        }
    }

    /// Whether `c` belongs to the class.
    pub fn test(&self, c: char) -> (b: bool)
        ensures
            b == self.holds(c),
    {
        match self {
            CharClass::Space => c == ' ',
            CharClass::Name => ('a' <= c && c <= 'z') || ('A' <= c && c <= 'Z') || ('0' <= c && c
                <= '9') || c == '-' || c == '_',
            CharClass::Except(x) => c != *x,
        }
    }
}

/// Where the longest run of characters of class `k` that starts at `from`
/// and stays before `to` ends.
pub open spec fn run_end(s: Seq<char>, from: int, to: int, k: CharClass) -> int
    decreases to - from,
{
    if 0 <= from < to && from < s.len() && k.holds(s[from]) {
        run_end(s, from + 1, to, k)
    } else {
        from
    }
}

/// A run ends at or after its start, and at or before the bound.
pub proof fn lemma_run_end_bounds(s: Seq<char>, from: int, to: int, k: CharClass)
    requires
        from <= to,
    ensures
        from <= run_end(s, from, to, k) <= to,
    decreases to - from,
{
    if 0 <= from < to && from < s.len() && k.holds(s[from]) {
        lemma_run_end_bounds(s, from + 1, to, k);
    }
}

/// The first line that is not blank starts at or after the place where the
/// search starts, and within the text.
pub proof fn lemma_significant_bounds(s: Seq<char>, i: int, start: int)
    requires
        0 <= start <= i <= s.len(),
    ensures
        start <= significant(s, i, start) <= s.len(),
    decreases s.len() - i,
{
    if i < s.len() {
        if s[i] == '\n' {
            lemma_significant_bounds(s, i + 1, i + 1);
        } else if s[i] == ' ' {
            lemma_significant_bounds(s, i + 1, start);
        }
    }
}

/// The head of a line lies within the text, and what follows the line lies
/// after its start.
pub proof fn lemma_line_bounds(s: Seq<char>, pos: int)
    requires
        0 <= pos < s.len(),
    ensures
        pos <= text_start(s, pos) <= line_end(s, pos) <= s.len(),
        pos < after_line(s, pos) <= s.len(),
{
    lemma_run_end_bounds(s, pos, s.len() as int, CharClass::Except('\n'));
    lemma_run_end_bounds(s, pos, line_end(s, pos), CharClass::Space);
    if line_end(s, pos) < s.len() {
        lemma_significant_bounds(s, line_end(s, pos) + 1, line_end(s, pos) + 1);
    }
}

/// Finds the end of the run of class `k` that starts at `from`.
pub fn scan(s: &Vec<char>, from: usize, to: usize, k: CharClass) -> (r: usize)
    requires
        from <= to <= s.len(),
    ensures
        r == run_end(s@, from as int, to as int, k),
        from <= r <= to,
        forall|i: int| from <= i < r ==> k.holds(#[trigger] s@[i]),
        r < to ==> !k.holds(s@[r as int]),
{
    let mut i: usize = from;
    while i < to && k.test(s[i])
        invariant
            from <= i <= to <= s.len(),
            run_end(s@, from as int, to as int, k) == run_end(s@, i as int, to as int, k),
            forall|j: int| from <= j < i ==> k.holds(#[trigger] s@[j]),
        decreases to - i,
    {
        i += 1;
    }
    i
}

/// Where the line that starts at `pos` ends: at its line feed, or at the end
/// of the text.
pub open spec fn line_end(s: Seq<char>, pos: int) -> int {
    run_end(s, pos, s.len() as int, CharClass::Except('\n'))
}

/// Where the indentation of the line that starts at `pos` ends.
pub open spec fn text_start(s: Seq<char>, pos: int) -> int {
    run_end(s, pos, line_end(s, pos), CharClass::Space)
}

/// The number of spaces that the line at `pos` starts with.
pub open spec fn indent(s: Seq<char>, pos: int) -> int {
    text_start(s, pos) - pos
}

/// Whether the line at `pos` is a line of text: its first character after
/// the indentation is `|`.
pub open spec fn is_text_line(s: Seq<char>, pos: int) -> bool {
    text_start(s, pos) < line_end(s, pos) && s[text_start(s, pos)] == '|'
}

/// The text of a line of text: what follows the `|` and one space after it,
/// if there is one.
pub open spec fn text_of(s: Seq<char>, pos: int) -> Seq<char> {
    let p = text_start(s, pos) + 1;
    let a = if p < line_end(s, pos) && s[p] == ' ' {
        p + 1
    } else {
        p
    };
    s.subrange(a, line_end(s, pos))
}

/// The start of the first line, from the one that holds `i` on, that holds
/// anything but spaces; the length of the text if there is none. `start` is
/// where the line that holds `i` starts, and only spaces stand between.
pub open spec fn significant(s: Seq<char>, i: int, start: int) -> int
    decreases s.len() - i,
{
    if i < 0 || i >= s.len() {
        s.len() as int
    } else if s[i] == '\n' {
        significant(s, i + 1, i + 1)
    } else if s[i] == ' ' {
        significant(s, i + 1, start)
    } else {
        start
    }
}

/// The start of the first line at or after `pos` that is not blank.
pub open spec fn next_line(s: Seq<char>, pos: int) -> int {
    significant(s, pos, pos)
}

/// The start of the first line after the one at `pos` that is not blank.
pub open spec fn after_line(s: Seq<char>, pos: int) -> int {
    if line_end(s, pos) < s.len() {
        next_line(s, line_end(s, pos) + 1)
    } else {
        s.len() as int
    }
}

/// The number of line feeds in `t`.
pub open spec fn line_feeds(t: Seq<char>) -> nat
    decreases t.len(),
{
    if t.len() == 0 {
        0
    } else {
        line_feeds(t.drop_last()) + if t.last() == '\n' {
            1nat
        } else {
            0nat
        }
    }
}

/// The number of the line that holds position `pos`, counted from one.
pub open spec fn line_number(s: Seq<char>, pos: int) -> nat {
    line_feeds(s.take(pos)) + 1
}

/// Finds the first line at or after `pos` that is not blank.
pub fn find_line(s: &Vec<char>, pos: usize) -> (r: usize)
    requires
        pos <= s.len(),
    ensures
        r == next_line(s@, pos as int),
        pos <= r <= s.len(),
{
    let mut i: usize = pos;
    let mut start: usize = pos;
    while i < s.len()
        invariant
            pos <= start <= i <= s.len(),
            next_line(s@, pos as int) == significant(s@, i as int, start as int),
        decreases s.len() - i,
    {
        let c = s[i];
        if c == '\n' {
            start = i + 1;
        } else if c != ' ' {
            return start;
        }
        i += 1;
    }
    s.len()
}

/// Finds the first line after the one at `pos` that is not blank, given
/// where the line at `pos` ends.
pub(crate) fn find_after(s: &Vec<char>, pos: usize, end: usize) -> (r: usize)
    requires
        pos < s.len(),
        end == line_end(s@, pos as int),
        pos <= end <= s.len(),
    ensures
        r == after_line(s@, pos as int),
        pos < r <= s.len(),
{
    if end < s.len() {
        find_line(s, end + 1)
    } else {
        s.len()
    }
}

/// Counts the line that holds position `pos`.
pub fn count_line(s: &Vec<char>, pos: usize) -> (n: usize)
    requires
        pos < s.len(),
    ensures
        n == line_number(s@, pos as int),
{
    let mut n: usize = 1;
    let mut i: usize = 0;
    while i < pos
        invariant
            i <= pos < s.len(),
            n == line_feeds(s@.take(i as int)) + 1,
            n <= i + 1,
        decreases pos - i,
    {
        proof {
            assert(s@.take(i + 1).drop_last() =~= s@.take(i as int));
        }
        if s[i] == '\n' {
            n += 1;
        }
        i += 1;
    }
    n
}

} // verus!
