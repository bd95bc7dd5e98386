//! Splitting text on a separator character. A trailing separator yields a
//! final empty segment: the result always holds one segment more than the
//! text holds separators.

use vstd::prelude::*;

verus! {

use vstd::string::*;

/// Index of the first occurrence of `sep` in `s`, or `s.len()` when there is none.
pub open spec fn first_sep(s: Seq<char>, sep: char) -> nat
    decreases s.len(),
{
    if s.len() == 0 {
        0
    } else if s[0] == sep {
        0
    } else {
        1 + first_sep(s.drop_first(), sep)
    }
}

proof fn lemma_first_sep(s: Seq<char>, sep: char)
    ensures
        first_sep(s, sep) <= s.len(),
        forall|j: int| 0 <= j < first_sep(s, sep) ==> s[j] != sep,
        first_sep(s, sep) < s.len() ==> s[first_sep(s, sep) as int] == sep,
    decreases s.len(),
{
    if s.len() == 0 {
    } else if s[0] == sep {
    } else {
        lemma_first_sep(s.drop_first(), sep);
        assert forall|j: int| 0 <= j < first_sep(s, sep) implies s[j] != sep by {
            if j > 0 {
                assert(s.drop_first()[j - 1] != sep);
            }
        }
    }
}

proof fn lemma_first_sep_is(s: Seq<char>, sep: char, i: int)
    requires
        0 <= i <= s.len(),
        forall|j: int| 0 <= j < i ==> s[j] != sep,
        i < s.len() ==> s[i] == sep,
    ensures
        first_sep(s, sep) == i,
    decreases s.len(),
{
    if s.len() == 0 {
    } else if s[0] == sep {
        assert(i == 0);
    } else {
        assert(i >= 1);
        assert forall|j: int| 0 <= j < i - 1 implies s.drop_first()[j] != sep by {
            assert(s[j + 1] != sep);
        }
        assert(i - 1 < s.drop_first().len() ==> s.drop_first()[i - 1] == sep);
        lemma_first_sep_is(s.drop_first(), sep, i - 1);
    }
}

fn find_sep(s: &str, sep: char) -> (i: usize)
    ensures
        i as nat == first_sep(s@, sep),
{
    let n = s.unicode_len();
    let mut i: usize = 0;
    while i < n
        invariant
            n == s@.len(),
            i <= n,
            forall|j: int| 0 <= j < i ==> s@[j] != sep,
        decreases n - i,
    {
        if s.get_char(i) == sep {
            proof {
                lemma_first_sep_is(s@, sep, i as int);
            }
            return i;
        }
        i += 1;
    }
    proof {
        lemma_first_sep_is(s@, sep, i as int);
    }
    i
}

/// The segments of `s`, split on the separator character. The segment
/// after a trailing separator is a real (empty) segment, so the result
/// always holds one segment more than `s` holds separators.
pub open spec fn spec_split_on(s: Seq<char>, sep: char) -> Seq<Seq<char>>
    decreases s.len(),
    via spec_split_on_decreases
{
    let i = first_sep(s, sep) as int;
    if i == s.len() {
        seq![s]
    } else {
        seq![s.subrange(0, i)] + spec_split_on(s.subrange(i + 1, s.len() as int), sep)
    }
}

#[via_fn]
proof fn spec_split_on_decreases(s: Seq<char>, sep: char) {
    lemma_first_sep(s, sep);
}

/// Split a text on a separator character, one `String` per segment.
pub fn split_on(content: &str, sep: char) -> (r: Vec<String>)
    ensures
        r.deep_view() == spec_split_on(content@, sep),
    decreases content@.len(),
{
    let n = content.unicode_len();
    let i = find_sep(content, sep);
    proof {
        lemma_first_sep(content@, sep);
    }
    if i == n {
        let mut r: Vec<String> = Vec::new();
        r.push(String::from_str(content));
        proof {
            assert(r.deep_view() =~~= spec_split_on(content@, sep));
        }
        r
    } else {
        let head = content.substring_char(0, i);
        let tail = content.substring_char(i + 1, n);
        let mut rest = split_on(tail, sep);
        let mut r: Vec<String> = Vec::new();
        r.push(String::from_str(head));
        r.append(&mut rest);
        proof {
            assert(r.deep_view() =~~= spec_split_on(content@, sep));
        }
        r
    }
}


} // verus!
