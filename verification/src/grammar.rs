//! Small helpers for rendering English text.

use vstd::prelude::*;
use vstd::string::*;

verus! {

/// Whether `c` is one of the five vowels, in either case.
pub open spec fn vowel(c: char) -> bool {
    c == 'a' || c == 'e' || c == 'i' || c == 'o' || c == 'u' || c == 'A' || c == 'E' || c == 'I'
        || c == 'O' || c == 'U'
}

/// The items joined by `", "`.
pub open spec fn comma_joined(items: Seq<Seq<char>>) -> Seq<char>
    decreases items.len(),
{
    if items.len() == 0 {
        Seq::empty()
    } else if items.len() == 1 {
        items[0]
    } else {
        comma_joined(items.drop_last()) + ", "@ + items.last()
    }
}

/// The items as an English list: `a`, `a and b`, `a, b and c`.
pub open spec fn list_text(items: Seq<Seq<char>>) -> Seq<char> {
    if items.len() == 0 {
        Seq::empty()
    } else if items.len() == 1 {
        items[0]
    } else {
        comma_joined(items.drop_last()) + " and "@ + items.last()
    }
}

/// The views of a list of string slices.
pub open spec fn texts(l: Seq<&str>) -> Seq<Seq<char>> {
    Seq::new(l.len(), |i: int| l[i]@)
}

/// Whether `c` is a vowel, in either case.
pub fn is_vowel(c: &char) -> (b: bool)
    ensures
        b == vowel(*c),
{
    let c: char = *c;
    c == 'a' || c == 'e' || c == 'i' || c == 'o' || c == 'u' || c == 'A' || c == 'E' || c == 'I'
        || c == 'O' || c == 'U'
}

/// The items as an English list.
pub fn render_list(l: Vec<&str>) -> (s: String)
    ensures
        s@ == list_text(texts(l@)),
{
    let n: usize = l.len();
    if n == 0 {
        return String::new();
    }
    if n == 1 {
        return String::from_str(l[0]);
    }
    let mut out = String::from_str(l[0]);
    let mut i: usize = 1;
    while i < n - 1
        invariant
            n == l.len(),
            n >= 2,
            1 <= i <= n - 1,
            out@ == comma_joined(texts(l@).take(i as int)),
        decreases n - i,
    {
        out.append(", ");
        out.append(l[i]);
        proof {
            let head = texts(l@).take(i as int + 1);
            assert(head.drop_last() =~= texts(l@).take(i as int));
            assert(head.last() == l@[i as int]@);
        }
        i += 1;
    }
    out.append(" and ");
    out.append(l[n - 1]);
    proof {
        assert(texts(l@).drop_last() =~= texts(l@).take(n - 1));
    }
    out
}

/// The indefinite article that goes before `next`.
pub fn a_or_an(next: &str) -> (s: String)
    requires
        next@.len() > 0,
    ensures
        s@ == (if vowel(next@[0]) {
            "an"@
        } else {
            "a"@
        }),
{
    let first = next.get_char(0);
    if is_vowel(&first) {
        String::from_str("an")
    } else {
        String::from_str("a")
    }
}

} // verus!
