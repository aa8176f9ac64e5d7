//! Text handling for header values: unfolding, stripping white space,
//! lower case, and finding one text in another.

use vstd::prelude::*;
use vstd::std_specs::iter::IteratorSpec;
use vstd::string::StringSliceAdditionalSpecFns;

verus! {

/// `String::push`: appends one character to the end of the string.
pub assume_specification[ String::push ](s: &mut String, c: char)
    ensures
        final(s)@ == old(s)@.push(c),
;

/// The characters of `s`, in order.
pub fn chars_of(s: &str) -> (chars: Vec<char>)
    ensures
        chars@ == s@,
{
    broadcast use vstd::string::axiom_spec_iter, vstd::string::next_postcondition;

    let mut it = s.chars();
    let mut chars: Vec<char> = Vec::new();
    loop
        invariant_except_break
            chars@ + it.remaining() == s@,
        ensures
            chars@ == s@,
        decreases s@.len() - chars@.len(),
    {
        let ghost before = it.remaining();
        match it.next() {
            Some(c) => {
                chars.push(c);
                assert(chars@ + it.remaining() =~= s@) by {
                    assert(before =~= seq![c] + before.drop_first());
                }
            },
            None => {
                assert(chars@ + it.remaining() =~= chars@);
                break ;
            },
        }
    }
    chars
}

/// The string made of `chars`, in order.
pub fn string_of(chars: &[char]) -> (s: String)
    ensures
        s@ == chars@,
{
    let mut s = String::new();
    let mut i: usize = 0;
    while i < chars.len()
        invariant
            i <= chars@.len(),
            s@ == chars@.subrange(0, i as int),
        decreases chars@.len() - i,
    {
        s.push(chars[i]);
        assert(chars@.subrange(0, i as int).push(chars@[i as int]) =~= chars@.subrange(
            0,
            i + 1,
        ));
        i += 1;
    }
    assert(chars@.subrange(0, i as int) =~= chars@);
    s
}

/// Whether `c` is white space, as `char::is_whitespace` sees it: whether it
/// has the Unicode property `White_Space`.
pub uninterp spec fn is_whitespace(c: char) -> bool;

/// `char::is_whitespace`. Its result is taken as the meaning of white space.
pub assume_specification[ char::is_whitespace ](c: char) -> (r: bool)
    ensures
        r == is_whitespace(c),
;

/// `text` in lower case, as `str::to_lowercase` gives it.
pub uninterp spec fn lowercased(text: Seq<char>) -> Seq<char>;

/// `str::to_lowercase`. Its result is taken as the meaning of lower case.
#[verifier::external_body]
pub(crate) fn to_lowercase(text: &str) -> (lower: String)
    ensures
        lower@ == lowercased(text@),
{
    text.to_lowercase()
}

/// A folded header value with its line breaks taken out: every line feed
/// goes, and with it the carriage return right before it.
pub open spec fn unfolded(s: Seq<char>) -> Seq<char>
    decreases s.len(),
{
    if s.len() == 0 {
        s
    } else if s[0] == '\n' {
        unfolded(s.drop_first())
    } else if s[0] == '\r' && s.len() >= 2 && s[1] == '\n' {
        unfolded(s.subrange(2, s.len() as int))
    } else {
        seq![s[0]] + unfolded(s.drop_first())
    }
}

/// Joins the lines of a folded header value.
pub fn unfold(folded: &str) -> (joined: String)
    ensures
        joined@ == unfolded(folded@),
{
    let chars = chars_of(folded);
    let n: usize = chars.len();
    let mut out: Vec<char> = Vec::new();
    let mut i: usize = 0;
    assert(chars@.subrange(0, n as int) =~= chars@);
    assert(out@ + unfolded(chars@) =~= unfolded(chars@));
    while i < n
        invariant
            i <= n,
            n == chars@.len(),
            out@ + unfolded(chars@.subrange(i as int, n as int)) == unfolded(chars@),
        decreases n - i,
    {
        let ghost rest = chars@.subrange(i as int, n as int);
        let c: char = chars[i];
        assert(rest[0] == c);
        if c == '\n' {
            assert(rest.drop_first() =~= chars@.subrange(i + 1, n as int));
            i += 1;
        } else if c == '\r' && i + 1 < n && chars[i + 1] == '\n' {
            assert(rest[1] == chars@[i + 1]);
            assert(rest.subrange(2, rest.len() as int) =~= chars@.subrange(i + 2, n as int));
            i += 2;
        } else {
            assert(i + 1 < n ==> rest[1] == chars@[i + 1]);
            assert(rest.drop_first() =~= chars@.subrange(i + 1, n as int));
            let ghost before = out@;
            out.push(c);
            assert(out@ + unfolded(rest.drop_first()) =~= before + (seq![c] + unfolded(
                rest.drop_first(),
            )));
            i += 1;
        }
    }
    assert(chars@.subrange(n as int, n as int) =~= Seq::<char>::empty());
    assert(out@ + Seq::<char>::empty() =~= out@);
    assert(chars@.subrange(0, n as int) =~= chars@);
    string_of(out.as_slice())
}

/// `s` without its white space.
pub open spec fn without_whitespace(s: Seq<char>) -> Seq<char>
    decreases s.len(),
{
    if s.len() == 0 {
        s
    } else if is_whitespace(s.last()) {
        without_whitespace(s.drop_last())
    } else {
        without_whitespace(s.drop_last()).push(s.last())
    }
}

/// Takes the white space out of `text`.
pub fn strip_whitespace(text: &str) -> (stripped: String)
    ensures
        stripped@ == without_whitespace(text@),
{
    let chars = chars_of(text);
    let n: usize = chars.len();
    let mut out: Vec<char> = Vec::new();
    let mut i: usize = 0;
    while i < n
        invariant
            i <= n,
            n == chars@.len(),
            out@ == without_whitespace(chars@.subrange(0, i as int)),
        decreases n - i,
    {
        let c: char = chars[i];
        assert(chars@.subrange(0, i + 1).drop_last() =~= chars@.subrange(0, i as int));
        if !c.is_whitespace() {
            out.push(c);
        }
        i += 1;
    }
    assert(chars@.subrange(0, n as int) =~= chars@);
    string_of(out.as_slice())
}

/// Whether `needle` stands in `haystack` at byte offset `i`.
pub open spec fn occurs_at(haystack: Seq<u8>, needle: Seq<u8>, i: int) -> bool {
    &&& 0 <= i
    &&& i + needle.len() <= haystack.len()
    &&& haystack.subrange(i, i + needle.len()) == needle
}

/// Whether `i` is the first byte offset at which `needle` stands in `haystack`.
pub open spec fn first_occurrence(haystack: Seq<u8>, needle: Seq<u8>, i: int) -> bool {
    &&& occurs_at(haystack, needle, i)
    &&& forall|j: int| 0 <= j < i ==> !occurs_at(haystack, needle, j)
}

/// The first byte offset at which `needle` stands in `haystack`, if it
/// stands there at all.
pub open spec fn position_of(haystack: Seq<u8>, needle: Seq<u8>) -> Option<int> {
    if exists|i: int| first_occurrence(haystack, needle, i) {
        Some(choose|i: int| first_occurrence(haystack, needle, i))
    } else {
        None
    }
}

/// There is one first occurrence at most.
pub proof fn lemma_first_occurrence_is_position(haystack: Seq<u8>, needle: Seq<u8>, i: int)
    requires
        first_occurrence(haystack, needle, i),
    ensures
        position_of(haystack, needle) == Some(i),
{
    let other = choose|k: int| first_occurrence(haystack, needle, k);
    if other < i {
        assert(occurs_at(haystack, needle, other));
    } else if i < other {
        assert(occurs_at(haystack, needle, i));
    }
}

fn bytes_occur_at(haystack: &[u8], needle: &[u8], i: usize) -> (r: bool)
    requires
        i + needle@.len() <= haystack@.len(),
    ensures
        r == occurs_at(haystack@, needle@, i as int),
{
    let n: usize = needle.len();
    let total: usize = haystack.len();
    let ghost window = haystack@.subrange(i as int, i + n);
    let mut k: usize = 0;
    while k < n
        invariant
            k <= n,
            n == needle@.len(),
            i + n <= haystack@.len(),
            total == haystack@.len(),
            window == haystack@.subrange(i as int, i + n),
            forall|j: int| 0 <= j < k ==> window[j] == needle@[j],
        decreases n - k,
    {
        if haystack[i + k] != needle[k] {
            assert(window[k as int] != needle@[k as int]);
            return false;
        }
        assert(window[k as int] == needle@[k as int]);
        k += 1;
    }
    assert(window =~= needle@);
    true
}

/// The byte offset of the first occurrence of `needle` in `haystack`.
pub fn find_text(haystack: &str, needle: &str) -> (found: Option<usize>)
    ensures
        match found {
            Some(i) => position_of(haystack.spec_bytes(), needle.spec_bytes()) == Some(i as int),
            None => position_of(haystack.spec_bytes(), needle.spec_bytes()).is_none(),
        },
{
    let hay = haystack.as_bytes();
    let pin = needle.as_bytes();
    let n: usize = pin.len();
    if hay.len() < n {
        return None;
    }
    let last: usize = hay.len() - n;
    let mut i: usize = 0;
    while i <= last
        invariant
            i <= last + 1,
            n == pin@.len(),
            last + n == hay@.len(),
            hay@.len() <= usize::MAX,
            hay@ == haystack.spec_bytes(),
            pin@ == needle.spec_bytes(),
            forall|j: int| 0 <= j < i ==> !occurs_at(hay@, pin@, j),
        decreases last + 1 - i,
    {
        if bytes_occur_at(hay, pin, i) {
            proof {
                lemma_first_occurrence_is_position(hay@, pin@, i as int);
            }
            return Some(i);
        }
        if i == last {
            return None;
        }
        i += 1;
    }
    None
}

/// `std::str::from_utf8`: the text that `bytes` encode, where they are
/// valid UTF-8.
#[verifier::external_body]
pub(crate) fn text_of_bytes(bytes: &[u8]) -> (text: Option<&str>)
    ensures
        match text {
            Some(t) => vstd::utf8::valid_utf8(bytes@) && t.spec_bytes() == bytes@,
            None => !vstd::utf8::valid_utf8(bytes@),
        },
{
    std::str::from_utf8(bytes).ok()
}

} // verus!
