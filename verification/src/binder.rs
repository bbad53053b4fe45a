//! Placeholders: a span `{{name}}` in a text stands for the value that a
//! table of bindings gives for `name`.

use crate::table::{lookup, Table};
use crate::text::{from_chars, to_chars};
use vstd::prelude::*;
use vstd::string::*;

verus! {

/// A placeholder names a value that the bindings do not hold.
#[derive(Clone, Copy, PartialEq, Eq, Debug)]
pub struct BindingError {
    /// The number of characters before the placeholder.
    pub position: usize,
}

/// Whether two opening braces stand at `i`.
pub open spec fn opens(s: Seq<char>, i: int) -> bool {
    0 <= i && i + 1 < s.len() && s[i] == '{' && s[i + 1] == '{'
}

/// The first place from `j` on where two closing braces stand; the length
/// of the text if there is none.
pub open spec fn closing(s: Seq<char>, j: int) -> int
    decreases s.len() - j,
{
    if j < 0 || j + 1 >= s.len() {
        s.len() as int
    } else if s[j] == '}' && s[j + 1] == '}' {
        j
    } else {
        closing(s, j + 1)
    }
}

/// The text from `i` on with each placeholder replaced by its value,
/// added to `acc`. The name of a placeholder is what stands between the
/// braces, as it is. Braces that are never closed are text.
pub open spec fn substituted(
    s: Seq<char>,
    i: int,
    bindings: Seq<(Seq<char>, Seq<char>)>,
    acc: Seq<char>,
) -> Result<Seq<char>, BindingError>
    decreases s.len() - i,
{
    if i < 0 || i >= s.len() {
        Ok(acc)
    } else if opens(s, i) && i + 2 <= closing(s, i + 2) && closing(s, i + 2) + 1 < s.len() {
        let j = closing(s, i + 2);
        match lookup(bindings, s.subrange(i + 2, j)) {
            None => Err(BindingError { position: i as usize }),
            Some(value) => substituted(s, j + 2, bindings, acc + value),
        }
    } else {
        substituted(s, i + 1, bindings, acc.push(s[i]))
    }
}

/// Finds the closing braces from `j` on.
fn find_closing(s: &Vec<char>, j: usize) -> (r: usize)
    requires
        j <= s.len(),
    ensures
        r == closing(s@, j as int),
        j <= r <= s.len(),
        r < s.len() ==> r + 1 < s.len(),
{
    let mut k: usize = j;
    while k < s.len() && k + 1 < s.len()
        invariant
            j <= k <= s.len(),
            closing(s@, j as int) == closing(s@, k as int),
        decreases s.len() - k,
    {
        if s[k] == '}' && s[k + 1] == '}' {
            return k;
        }
        k += 1;
    }
    s.len()
}

/// Replaces each placeholder of `text` by the value that `bindings` gives
/// for its name. A name without a value is an error; nothing else is.
pub fn substitute(text: &str, bindings: &Table) -> (r: Result<String, BindingError>)
    ensures
        match r {
            Ok(out) => substituted(text@, 0, bindings@, Seq::empty()) == Ok::<_, BindingError>(
                out@,
            ),
            Err(e) => substituted(text@, 0, bindings@, Seq::empty()) == Err::<Seq<char>, _>(e),
        },
{
    let s = to_chars(text);
    let mut out = String::new();
    let mut i: usize = 0;
    while i < s.len()
        invariant
            i <= s.len(),
            s@ == text@,
            substituted(text@, 0, bindings@, Seq::empty()) == substituted(
                s@,
                i as int,
                bindings@,
                out@,
            ),
        decreases s.len() - i,
    {
        if s[i] == '{' && i + 1 < s.len() && s[i + 1] == '{' {
            let j = find_closing(&s, i + 2);
            if j < s.len() {
                let name = from_chars(&s, i + 2, j);
                match bindings.get(name.as_str()) {
                    None => {
                        return Err(BindingError { position: i });
                    },
                    Some(value) => {
                        out.append(value.as_str());
                        i = j + 2;
                    },
                }
            } else {
                out.push(s[i]);
                i += 1;
            }
        } else {
            out.push(s[i]);
            i += 1;
        }
    }
    Ok(out)
}

} // verus!
