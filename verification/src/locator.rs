//! Finding the `From:` header in raw header bytes.

use vstd::prelude::*;

verus! {

/// `b` with an ASCII capital letter turned into its small letter.
pub open spec fn ascii_lower(b: u8) -> u8 {
    if 0x41 <= b && b <= 0x5a {
        (b + 0x20) as u8
    } else {
        b
    }
}

/// Whether `a` and `b` are equal up to the case of ASCII letters.
pub open spec fn eq_ignore_case(a: Seq<u8>, b: Seq<u8>) -> bool {
    &&& a.len() == b.len()
    &&& forall|i: int| 0 <= i < a.len() ==> ascii_lower(#[trigger] a[i]) == ascii_lower(b[i])
}

/// Whether `pattern` stands in `data` at offset `i`, up to the case of ASCII letters.
pub open spec fn matches_at(data: Seq<u8>, pattern: Seq<u8>, i: int) -> bool {
    &&& 0 <= i
    &&& i + pattern.len() <= data.len()
    &&& eq_ignore_case(data.subrange(i, i + pattern.len()), pattern)
}

/// The bytes of `From:`.
pub open spec fn from_token() -> Seq<u8> {
    seq![0x46u8, 0x72u8, 0x6fu8, 0x6du8, 0x3au8]
}

/// Whether a `From:` header begins at offset `p`: the token stands there, in
/// any case, and `p` is the start of the input or follows a line feed (which
/// covers both `\n` and `\r\n` line breaks).
pub open spec fn header_starts_at(data: Seq<u8>, p: int) -> bool {
    &&& matches_at(data, from_token(), p)
    &&& (p == 0 || data[p - 1] == 0x0au8)
}

/// The first offset at or after `start` where a `From:` header begins.
pub open spec fn first_header_from(data: Seq<u8>, start: int) -> Option<int>
    decreases data.len() - start,
{
    if start < 0 || start >= data.len() {
        None
    } else if header_starts_at(data, start) {
        Some(start)
    } else {
        first_header_from(data, start + 1)
    }
}

/// The offset of the `F` of the first `From:` header in `data`.
pub open spec fn from_header_position(data: Seq<u8>) -> Option<int> {
    first_header_from(data, 0)
}

fn to_lower(b: u8) -> (r: u8)
    ensures
        r == ascii_lower(b),
{
    if 0x41 <= b && b <= 0x5a {
        b + 0x20
    } else {
        b
    }
}

/// Whether `pattern` stands in `data` at offset `i`, up to the case of ASCII letters.
fn window_matches(data: &[u8], pattern: &[u8], i: usize) -> (r: bool)
    requires
        i + pattern@.len() <= data@.len(),
    ensures
        r == matches_at(data@, pattern@, i as int),
{
    let n: usize = pattern.len();
    let total: usize = data.len();
    let ghost window = data@.subrange(i as int, i + n);
    let mut k: usize = 0;
    while k < n
        invariant
            k <= n,
            n == pattern@.len(),
            i + n <= data@.len(),
            total == data@.len(),
            window == data@.subrange(i as int, i + n),
            forall|j: int| 0 <= j < k ==> ascii_lower(#[trigger] window[j]) == ascii_lower(pattern@[j]),
        decreases n - k,
    {
        if to_lower(data[i + k]) != to_lower(pattern[k]) {
            assert(window[k as int] == data@[i + k]);
            return false;
        }
        assert(window[k as int] == data@[i + k]);
        k += 1;
    }
    true
}

/// The first offset at which `pattern` stands in `data`, up to the case of
/// ASCII letters.
pub fn find_subsequence(data: &[u8], pattern: &[u8]) -> (found: Option<usize>)
    requires
        pattern@.len() > 0,
    ensures
        match found {
            Some(i) => matches_at(data@, pattern@, i as int) && forall|j: int|
                0 <= j < i ==> !matches_at(data@, pattern@, j),
            None => forall|j: int| !matches_at(data@, pattern@, j),
        },
{
    let n: usize = pattern.len();
    if data.len() < n {
        return None;
    }
    let last: usize = data.len() - n;
    let mut i: usize = 0;
    while i <= last
        invariant
            i <= last + 1,
            0 < n == pattern@.len(),
            last + n == data@.len(),
            data@.len() <= usize::MAX,
            forall|j: int| 0 <= j < i ==> !matches_at(data@, pattern@, j),
        decreases last + 1 - i,
    {
        if window_matches(data, pattern, i) {
            return Some(i);
        }
        i += 1;
    }
    None
}

/// The offset of the `F` of the first `From:` header: the token `From:`, in
/// any case, at the start of the input or right after a line break.
pub fn find_from_header_position(data: &[u8]) -> (position: Option<usize>)
    ensures
        match position {
            Some(p) => from_header_position(data@) == Some(p as int),
            None => from_header_position(data@).is_none(),
        },
{
    let token: [u8; 5] = [0x46, 0x72, 0x6f, 0x6d, 0x3a];
    assert(token@ =~= from_token());
    if data.len() >= 5 && window_matches(data, token.as_slice(), 0) {
        return Some(0);
    }
    let pattern: [u8; 6] = [0x0a, 0x46, 0x72, 0x6f, 0x6d, 0x3a];
    let found = find_subsequence(data, pattern.as_slice());
    proof {
        assert(!header_starts_at(data@, 0));
        assert forall|q: int| q >= 1 implies (#[trigger] header_starts_at(data@, q)
            <==> matches_at(data@, pattern@, q - 1)) by {
            lemma_line_feed_pattern(data@, pattern@, q - 1);
        }
    }
    match found {
        Some(pos) => {
            proof {
                lemma_first_header(data@, 0, pos + 1);
            }
            Some(pos + 1)
        },
        None => {
            proof {
                lemma_no_header(data@, 0);
            }
            None
        },
    }
}

/// A line feed followed by the token at `j` is a header start at `j + 1`, and the reverse.
proof fn lemma_line_feed_pattern(data: Seq<u8>, pattern: Seq<u8>, j: int)
    requires
        pattern =~= seq![0x0au8] + from_token(),
    ensures
        matches_at(data, pattern, j) <==> j >= 0 && header_starts_at(data, j + 1),
{
    let token = from_token();
    if matches_at(data, pattern, j) {
        let w = data.subrange(j, j + 6);
        assert(ascii_lower(w[0]) == ascii_lower(pattern[0]));
        assert(data[j] == 0x0au8);
        let v = data.subrange(j + 1, j + 6);
        assert forall|i: int| 0 <= i < 5 implies ascii_lower(#[trigger] v[i]) == ascii_lower(
            token[i],
        ) by {
            assert(v[i] == w[i + 1]);
            assert(ascii_lower(w[i + 1]) == ascii_lower(pattern[i + 1]));
        }
    }
    if j >= 0 && header_starts_at(data, j + 1) {
        let w = data.subrange(j, j + 6);
        let v = data.subrange(j + 1, j + 6);
        assert forall|i: int| 0 <= i < 6 implies ascii_lower(#[trigger] w[i]) == ascii_lower(
            pattern[i],
        ) by {
            if i > 0 {
                assert(w[i] == v[i - 1]);
                assert(ascii_lower(v[i - 1]) == ascii_lower(token[i - 1]));
            }
        }
    }
}

/// Where a header begins at `p` and at no offset from `start` up to `p`, the
/// search from `start` gives `p`.
pub proof fn lemma_first_header(data: Seq<u8>, start: int, p: int)
    requires
        0 <= start <= p,
        header_starts_at(data, p),
        forall|q: int| start <= q < p ==> !header_starts_at(data, q),
    ensures
        first_header_from(data, start) == Some(p),
    decreases p - start,
{
    if start < p {
        lemma_first_header(data, start + 1, p);
    }
}

/// Where no header begins at or after `start`, the search from `start` gives nothing.
pub proof fn lemma_no_header(data: Seq<u8>, start: int)
    requires
        forall|q: int| start <= q ==> !header_starts_at(data, q),
    ensures
        first_header_from(data, start).is_none(),
    decreases data.len() - start,
{
    if 0 <= start < data.len() {
        lemma_no_header(data, start + 1);
    }
}

/// The position found is the first offset at which a header begins; nothing
/// is found only where no header begins anywhere.
pub proof fn lemma_position_is_first(data: Seq<u8>, start: int)
    requires
        0 <= start,
    ensures
        first_header_from(data, start) matches Some(p) ==> start <= p && header_starts_at(data, p)
            && forall|q: int| start <= q < p ==> !header_starts_at(data, q),
        first_header_from(data, start).is_none() ==> forall|q: int|
            start <= q ==> !header_starts_at(data, q),
    decreases data.len() - start,
{
    if start < data.len() && !header_starts_at(data, start) {
        lemma_position_is_first(data, start + 1);
    }
}

/// The token at the very start of the input is found, at offset zero.
pub proof fn lemma_token_at_start_is_found(data: Seq<u8>)
    requires
        matches_at(data, from_token(), 0),
    ensures
        from_header_position(data) == Some(0int),
{
}

/// The token right after a line feed, and so after `\n` as well as after
/// `\r\n`, is found, unless a header begins earlier.
pub proof fn lemma_token_after_line_break_is_found(data: Seq<u8>, p: int)
    requires
        p >= 1,
        data[p - 1] == 0x0au8,
        matches_at(data, from_token(), p),
    ensures
        from_header_position(data) matches Some(q) && q <= p,
{
    lemma_position_is_first(data, 0);
    assert(header_starts_at(data, p));
}

/// Inputs that differ only in the case of ASCII letters have the header at
/// the same offset.
pub proof fn lemma_position_ignores_case(a: Seq<u8>, b: Seq<u8>)
    requires
        eq_ignore_case(a, b),
    ensures
        from_header_position(a) == from_header_position(b),
{
    assert forall|q: int| header_starts_at(a, q) == header_starts_at(b, q) by {
        if header_starts_at(a, q) {
            lemma_header_start_ignores_case(a, b, q);
        }
        if header_starts_at(b, q) {
            lemma_header_start_ignores_case(b, a, q);
        }
    }
    lemma_search_agrees(a, b, 0);
}

proof fn lemma_header_start_ignores_case(a: Seq<u8>, b: Seq<u8>, q: int)
    requires
        a.len() == b.len(),
        forall|i: int| 0 <= i < a.len() ==> ascii_lower(a[i]) == ascii_lower(b[i]),
        header_starts_at(a, q),
    ensures
        header_starts_at(b, q),
{
    let token = from_token();
    let wa = a.subrange(q, q + 5);
    let wb = b.subrange(q, q + 5);
    assert forall|i: int| 0 <= i < 5 implies ascii_lower(#[trigger] wb[i]) == ascii_lower(
        token[i],
    ) by {
        assert(wb[i] == b[q + i]);
        assert(wa[i] == a[q + i]);
        assert(ascii_lower(wa[i]) == ascii_lower(token[i]));
    }
    if q != 0 {
        assert(ascii_lower(a[q - 1]) == ascii_lower(b[q - 1]));
    }
}

proof fn lemma_search_agrees(a: Seq<u8>, b: Seq<u8>, start: int)
    requires
        a.len() == b.len(),
        forall|q: int| header_starts_at(a, q) == header_starts_at(b, q),
    ensures
        first_header_from(a, start) == first_header_from(b, start),
    decreases a.len() - start,
{
    if 0 <= start < a.len() && !header_starts_at(a, start) {
        lemma_search_agrees(a, b, start + 1);
    }
}

} // verus!
