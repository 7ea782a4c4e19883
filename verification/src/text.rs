//! String functions from the ownership walkthrough: handing a string's
//! ownership around, measuring it through a reference, changing it through
//! an exclusive reference, and slicing out its first word.

use vstd::prelude::*;
use vstd::string::*;
use vstd::utf8::encode_utf8;

verus! {

/// Where the first word of `s` ends: the index of the first space, or the
/// length if there is none.
pub open spec fn word_end(s: Seq<char>) -> int
    decreases s.len(),
{
    if s.len() == 0 {
        0
    } else if s[0] == ' ' {
        0
    } else {
        1 + word_end(s.drop_first())
    }
}

/// `word_end` is the position of the first space: everything before it is
/// not a space, and the character there, if any, is one.
pub proof fn lemma_word_end(s: Seq<char>)
    ensures
        0 <= word_end(s) <= s.len(),
        forall|j: int| 0 <= j < word_end(s) ==> s[j] != ' ',
        word_end(s) < s.len() ==> s[word_end(s)] == ' ',
    decreases s.len(),
{
    if s.len() > 0 && s[0] != ' ' {
        let rest = s.drop_first();
        lemma_word_end(rest);
        assert forall|j: int| 0 <= j < word_end(s) implies s[j] != ' ' by {
            if j > 0 {
                assert(rest[j - 1] == s[j]);
            }
        }
        if word_end(s) < s.len() {
            assert(rest[word_end(rest)] == s[word_end(s)]);
        }
    }
}

/// The first word of a string slice: the prefix that ends at the first
/// space, or the whole slice if it holds none.
pub fn first_word_str(s: &str) -> (r: &str)
    ensures
        r@ == s@.subrange(0, word_end(s@)),
{
    proof {
        lemma_word_end(s@);
    }
    let n = s.unicode_len();
    let mut i: usize = 0;
    while i < n
        invariant
            n == s@.len(),
            i <= n,
            forall|j: int| 0 <= j < i ==> s@[j] != ' ',
        decreases n - i,
    {
        if s.get_char(i) == ' ' {
            proof {
                lemma_word_end(s@);
                assert(word_end(s@) == i);
            }
            return s.substring_char(0, i);
        }
        i = i + 1;
    }
    proof {
        lemma_word_end(s@);
        assert(word_end(s@) == s@.len());
    }
    s.substring_char(0, n)
}

/// The first word of an owned string, read through a shared reference.
pub fn first_word(s: &String) -> (r: &str)
    ensures
        r@ == s@.subrange(0, word_end(s@)),
{
    first_word_str(s.as_str())
}

/// Hands out ownership of a freshly created string.
pub fn gives_ownership() -> (r: String)
    ensures
        r@ == "yours"@,
{
    let some_string = String::from_str("yours");
    some_string
}

/// Takes ownership of a string and hands the same string back.
pub fn takes_and_gives_back(a_string: String) -> (r: String)
    ensures
        r == a_string,
{
    a_string
}

/// Takes ownership of a string and returns it together with its length in
/// bytes, so the caller gets the ownership back.
pub fn calculate_length(s: String) -> (r: (String, usize))
    ensures
        r.0 == s,
        r.1 == encode_utf8(s@).len(),
{
    let length = s.as_str().as_bytes().len();
    (s, length)
}

/// The length of a string in bytes, read through a shared reference: no
/// ownership changes hands.
pub fn calculate_length_ref(s: &String) -> (r: usize)
    ensures
        r == encode_utf8(s@).len(),
{
    s.as_str().as_bytes().len()
}

/// Appends through an exclusive reference: the one way to change a borrowed
/// string.
pub fn change(some_string: &mut String)
    ensures
        final(some_string)@ == old(some_string)@ + ", world"@,
{
    some_string.append(", world");
}

} // verus!
