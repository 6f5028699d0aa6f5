//! Small tools on text.
use vstd::prelude::*;

verus! {

/// `String::push` appends the one character to the string.
pub assume_specification[ String::push ](s: &mut String, ch: char)
    ensures
        final(s)@ == old(s)@.push(ch),
;

/// Where `c` first stands in `text`; the length of `text` where it does not.
pub open spec fn first_index(text: Seq<char>, c: char) -> nat
    decreases text.len(),
{
    if text.len() == 0 {
        0
    } else if text[0] == c {
        0
    } else {
        1 + first_index(text.skip(1), c)
    }
}

/// If `c` stands at `d` and nowhere before, `d` is where it first stands;
/// and if it stands nowhere, that is the length of the text.
pub proof fn lemma_first_index(text: Seq<char>, c: char, d: int)
    requires
        0 <= d <= text.len(),
        forall|j: int| 0 <= j < d ==> text[j] != c,
        d < text.len() ==> text[d] == c,
    ensures
        first_index(text, c) == d,
    decreases d,
{
    if d > 0 {
        assert(forall|j: int| 0 <= j < d - 1 ==> text.skip(1)[j] != c);
        lemma_first_index(text.skip(1), c, d - 1);
    }
}

/// Up to where it first stands, `c` does not stand; there it does.
pub proof fn lemma_first_index_is_first(text: Seq<char>, c: char)
    ensures
        first_index(text, c) <= text.len(),
        forall|j: int| 0 <= j < first_index(text, c) ==> text[j] != c,
        first_index(text, c) < text.len() ==> text[first_index(text, c) as int] == c,
    decreases text.len(),
{
    if text.len() > 0 && text[0] != c {
        lemma_first_index_is_first(text.skip(1), c);
        assert forall|j: int| 0 <= j < first_index(text, c) implies text[j] != c by {
            if j > 0 {
                assert(text.skip(1)[j - 1] == text[j]);
            }
        }
    }
}

/// Where `c` first stands in `text`: see [`first_index`].
pub fn find_first(text: &str, c: char) -> (d: usize)
    ensures
        d == first_index(text@, c),
        d <= text@.len(),
{
    let mut i: usize = 0;
    let total = text.unicode_len();
    for x in it: text.chars()
        invariant
            it.seq() == text@,
            total == text@.len(),
            i == it.index(),
            forall|j: int| 0 <= j < i ==> text@[j] != c,
    {
        if x == c {
            proof {
                lemma_first_index(text@, c, i as int);
            }
            return i;
        }
        i += 1;
    }
    proof {
        lemma_first_index(text@, c, i as int);
    }
    i
}

} // verus!
