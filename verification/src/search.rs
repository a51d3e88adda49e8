//! Finding a text in a description, the way the store matches a
//! pattern: `%` in the pattern stands for any run of characters, `_`
//! for any one character, and the letters A to Z match in either case.

use vstd::prelude::*;
use vstd::std_specs::iter::IteratorSpec;

verus! {

/// Number of a character, with the capital letters A to Z counted as
/// their small letters.
pub open spec fn folded(c: char) -> int {
    if 65 <= c as u32 <= 90 {
        c as u32 + 32
    } else {
        c as u32 as int
    }
}

/// Whether the text matches the pattern.
pub open spec fn matches_pattern(pattern: Seq<char>, text: Seq<char>) -> bool
    decreases pattern.len() + text.len(),
{
    if pattern.len() == 0 {
        text.len() == 0
    } else if pattern[0] == '%' {
        matches_pattern(pattern.drop_first(), text) || (text.len() > 0 && matches_pattern(
            pattern,
            text.drop_first(),
        ))
    } else if text.len() == 0 {
        false
    } else {
        (pattern[0] == '_' || folded(pattern[0]) == folded(text[0])) && matches_pattern(
            pattern.drop_first(),
            text.drop_first(),
        )
    }
}

/// The pattern that finds a text anywhere in another.
pub open spec fn search_pattern(search: Seq<char>) -> Seq<char> {
    seq!['%'] + search + seq!['%']
}

/// The characters of a text.
pub fn chars_of(text: &str) -> (r: Vec<char>)
    ensures
        r@ == text@,
{
    broadcast use vstd::string::group_string_axioms;

    let mut list: Vec<char> = Vec::new();
    let mut rest = text.chars();
    loop
        invariant
            list@ + rest.remaining() == text@,
            rest.decrease() is Some,
        decreases rest.decrease()->0,
    {
        let ghost before = rest.remaining();
        match rest.next() {
            Some(c) => {
                proof {
                    assert(list@.push(c) + before.drop_first() =~= list@ + before);
                }
                list.push(c);
            },
            None => {
                proof {
                    assert(list@ + before =~= list@);
                }
                return list;
            },
        }
    }
}

/// Number of a character, with capital letters counted as small ones.
fn fold(c: char) -> (r: u32)
    ensures
        r == folded(c),
{
    let number: u32 = c as u32;
    if 65 <= number && number <= 90 {
        number + 32
    } else {
        number
    }
}

/// Whether the text matches the pattern, both given by their
/// characters.
pub fn is_match(pattern: &Vec<char>, text: &Vec<char>) -> (r: bool)
    ensures
        r == matches_pattern(pattern@, text@),
{
    let m: usize = pattern.len();
    let n: usize = text.len();
    // What matches the rest of the pattern: `rest[j]` says whether the
    // text from its character `j` on does, `rest_end` whether the empty
    // text does.
    let mut rest: Vec<bool> = vec![false; n];
    let mut rest_end: bool = true;
    proof {
        assert(pattern@.skip(m as int).len() == 0);
        assert(text@.skip(n as int).len() == 0);
        assert forall|k: int| 0 <= k < n implies #[trigger] rest[k] == matches_pattern(
            pattern@.skip(m as int),
            text@.skip(k),
        ) by {
            assert(text@.skip(k).len() == n - k);
        }
    }
    let mut i: usize = m;
    while i > 0
        invariant
            i <= m,
            n == text.len(),
            m == pattern.len(),
            rest.len() == n,
            rest_end == matches_pattern(pattern@.skip(i as int), text@.skip(n as int)),
            forall|k: int|
                0 <= k < n ==> #[trigger] rest[k] == matches_pattern(
                    pattern@.skip(i as int),
                    text@.skip(k),
                ),
        decreases i,
    {
        i = i - 1;
        let sign = pattern[i];
        let any_run = sign == '%';
        let any_one = sign == '_';
        let wanted: u32 = fold(sign);
        let ghost tail = pattern@.skip(i + 1);
        let ghost here = pattern@.skip(i as int);
        proof {
            assert(here.drop_first() =~= tail);
            assert(here[0] == sign);
            assert(text@.skip(n as int).len() == 0);
        }
        let row_end = any_run && rest_end;
        let mut row: Vec<bool> = vec![false; n];
        let mut j: usize = n;
        while j > 0
            invariant
                j <= n,
                i < m,
                n == text.len(),
                m == pattern.len(),
                rest.len() == n,
                row.len() == n,
                here == pattern@.skip(i as int),
                tail == pattern@.skip(i + 1),
                here.len() > 0,
                here.drop_first() == tail,
                here[0] == sign,
                any_run == (sign == '%'),
                any_one == (sign == '_'),
                wanted == folded(sign),
                rest_end == matches_pattern(tail, text@.skip(n as int)),
                row_end == matches_pattern(here, text@.skip(n as int)),
                forall|k: int|
                    0 <= k < n ==> #[trigger] rest[k] == matches_pattern(tail, text@.skip(k)),
                forall|k: int|
                    j <= k < n ==> #[trigger] row[k] == matches_pattern(here, text@.skip(k)),
            decreases j,
        {
            j = j - 1;
            let ghost from = text@.skip(j as int);
            proof {
                assert(from.len() == n - j);
                assert(from.drop_first() =~= text@.skip(j + 1));
                assert(from[0] == text@[j as int]);
            }
            let later = if j + 1 == n {
                row_end
            } else {
                row[j + 1]
            };
            let rest_later = if j + 1 == n {
                rest_end
            } else {
                rest[j + 1]
            };
            let found = if any_run {
                rest[j] || later
            } else {
                (any_one || wanted == fold(text[j])) && rest_later
            };
            row.set(j, found);
        }
        rest = row;
        rest_end = row_end;
    }
    proof {
        assert(pattern@.skip(0) =~= pattern@);
        assert(text@.skip(0) =~= text@);
    }
    if n == 0 {
        rest_end
    } else {
        rest[0]
    }
}

/// Whether the text sought stands somewhere in the text, with `%` and
/// `_` in the text sought standing for any run of characters and for
/// any one character, and the letters A to Z matching in either case.
pub fn contains_text(text: &str, search: &str) -> (r: bool)
    ensures
        r == matches_pattern(search_pattern(search@), text@),
{
    let sought = chars_of(search);
    let mut pattern: Vec<char> = Vec::new();
    pattern.push('%');
    let mut i: usize = 0;
    while i < sought.len()
        invariant
            i <= sought.len(),
            pattern@ == seq!['%'] + sought@.take(i as int),
        decreases sought.len() - i,
    {
        proof {
            assert((seq!['%'] + sought@.take(i as int)).push(sought@[i as int]) =~= seq!['%']
                + sought@.take(i + 1));
        }
        pattern.push(sought[i]);
        i = i + 1;
    }
    pattern.push('%');
    proof {
        assert(sought@.take(sought.len() as int) =~= sought@);
        assert(pattern@ =~= search_pattern(search@));
    }
    let letters = chars_of(text);
    is_match(&pattern, &letters)
}

} // verus!
