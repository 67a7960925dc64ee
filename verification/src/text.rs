//! UTF-8 byte lengths of character sequences and the positions that fall
//! between two characters.

use vstd::prelude::*;
use vstd::utf8::*;

verus! {

/// Number of bytes that `s` takes in UTF-8.
pub open spec fn byte_len(s: Seq<char>) -> nat {
    encode_utf8(s).len()
}

/// Number of bytes that the first `k` characters of `s` take.
pub open spec fn prefix_len(s: Seq<char>, k: int) -> nat {
    byte_len(s.take(k))
}

/// `b` is a byte offset that lies between two characters of `s`, or at one of its ends.
pub open spec fn on_boundary(s: Seq<char>, b: int) -> bool {
    exists|k: int| 0 <= k <= s.len() && #[trigger] prefix_len(s, k) == b
}

/// The number of whole characters before the boundary `b`.
pub open spec fn char_index(s: Seq<char>, b: int) -> int {
    choose|k: int| 0 <= k <= s.len() && #[trigger] prefix_len(s, k) == b
}

/// Every character takes between one and four bytes.
pub proof fn lemma_scalar_width(c: char)
    ensures
        1 <= encode_scalar(c as u32).len() <= 4,
{
}

/// Encoding distributes over concatenation.
pub proof fn lemma_encode_concat(a: Seq<char>, b: Seq<char>)
    ensures
        encode_utf8(a + b) == encode_utf8(a) + encode_utf8(b),
    decreases a.len(),
{
    if a.len() == 0 {
        assert(a + b == b);
        assert(encode_utf8(a) + encode_utf8(b) == encode_utf8(b));
    } else {
        let ab = a + b;
        assert(ab[0] == a[0]);
        assert(ab.drop_first() == a.drop_first() + b);
        lemma_encode_concat(a.drop_first(), b);
        assert(encode_utf8(ab) == encode_scalar(a[0] as u32) + (encode_utf8(a.drop_first())
            + encode_utf8(b)));
        assert(encode_utf8(a) + encode_utf8(b) == encode_scalar(a[0] as u32) + (encode_utf8(
            a.drop_first(),
        ) + encode_utf8(b)));
    }
}

/// Byte lengths add up over concatenation.
pub proof fn lemma_byte_len_concat(a: Seq<char>, b: Seq<char>)
    ensures
        byte_len(a + b) == byte_len(a) + byte_len(b),
{
    lemma_encode_concat(a, b);
}

/// Taking one more character adds that character's width to the prefix length.
pub proof fn lemma_prefix_len_step(s: Seq<char>, k: int)
    requires
        0 <= k < s.len(),
    ensures
        prefix_len(s, k + 1) == prefix_len(s, k) + encode_scalar(s[k] as u32).len(),
        prefix_len(s, k) < prefix_len(s, k + 1) <= prefix_len(s, k) + 4,
{
    let one = seq![s[k]];
    assert(s.take(k + 1) == s.take(k) + one);
    lemma_encode_concat(s.take(k), one);
    assert(one.drop_first() == Seq::<char>::empty());
    assert(encode_utf8(one) == encode_scalar(s[k] as u32) + encode_utf8(one.drop_first()));
    assert(encode_utf8(Seq::<char>::empty()) == Seq::<u8>::empty());
    lemma_scalar_width(s[k]);
}

/// The empty prefix takes no bytes and the full prefix takes them all.
pub proof fn lemma_prefix_len_ends(s: Seq<char>)
    ensures
        prefix_len(s, 0) == 0,
        prefix_len(s, s.len() as int) == byte_len(s),
        on_boundary(s, 0),
        on_boundary(s, byte_len(s) as int),
{
    assert(s.take(0) == Seq::<char>::empty());
    assert(s.take(s.len() as int) == s);
}

/// Longer prefixes take strictly more bytes.
pub proof fn lemma_prefix_len_increases(s: Seq<char>, i: int, j: int)
    requires
        0 <= i < j <= s.len(),
    ensures
        prefix_len(s, i) < prefix_len(s, j),
    decreases j - i,
{
    lemma_prefix_len_step(s, j - 1);
    if i < j - 1 {
        lemma_prefix_len_increases(s, i, j - 1);
    }
}

/// A prefix is never longer than the whole.
pub proof fn lemma_prefix_len_bound(s: Seq<char>, k: int)
    requires
        0 <= k <= s.len(),
    ensures
        prefix_len(s, k) <= byte_len(s),
{
    lemma_prefix_len_ends(s);
    if k < s.len() {
        lemma_prefix_len_increases(s, k, s.len() as int);
    }
}

/// The character index of a boundary is the one index whose prefix ends there.
pub proof fn lemma_char_index(s: Seq<char>, k: int)
    requires
        0 <= k <= s.len(),
    ensures
        on_boundary(s, prefix_len(s, k) as int),
        char_index(s, prefix_len(s, k) as int) == k,
{
    let b = prefix_len(s, k) as int;
    let c = char_index(s, b);
    assert(0 <= c <= s.len() && prefix_len(s, c) == b);
    if c < k {
        lemma_prefix_len_increases(s, c, k);
    }
    if k < c {
        lemma_prefix_len_increases(s, k, c);
    }
}

/// What `char_index` is at a boundary.
pub proof fn lemma_char_index_at(s: Seq<char>, b: int)
    requires
        on_boundary(s, b),
    ensures
        0 <= char_index(s, b) <= s.len(),
        prefix_len(s, char_index(s, b)) == b,
        0 <= b <= byte_len(s),
{
    lemma_prefix_len_bound(s, char_index(s, b));
}

/// Boundaries keep the order of their character indices.
pub proof fn lemma_char_index_ordered(s: Seq<char>, a: int, b: int)
    requires
        on_boundary(s, a),
        on_boundary(s, b),
        a <= b,
    ensures
        char_index(s, a) <= char_index(s, b),
{
    lemma_char_index_at(s, a);
    lemma_char_index_at(s, b);
    if char_index(s, b) < char_index(s, a) {
        lemma_prefix_len_increases(s, char_index(s, b), char_index(s, a));
    }
}

/// The first character of a text takes its bytes before the rest.
pub proof fn lemma_prefix_len_first(s: Seq<char>, k: int)
    requires
        1 <= k <= s.len(),
    ensures
        prefix_len(s, k) == encode_scalar(s[0] as u32).len() + prefix_len(s.drop_first(), k - 1),
{
    let first = seq![s[0]];
    assert(s.take(k) == first + s.drop_first().take(k - 1));
    lemma_encode_concat(first, s.drop_first().take(k - 1));
    assert(first.drop_first() == Seq::<char>::empty());
    assert(encode_utf8(first) == encode_scalar(s[0] as u32) + encode_utf8(first.drop_first()));
    assert(encode_utf8(Seq::<char>::empty()) == Seq::<u8>::empty());
}

/// The boundaries of a text are the character boundaries of its bytes.
pub proof fn lemma_boundary_is_char_boundary(s: Seq<char>, b: int)
    ensures
        on_boundary(s, b) == is_char_boundary(encode_utf8(s), b),
    decreases s.len(),
{
    let bytes = encode_utf8(s);
    encode_utf8_valid_utf8(s);
    lemma_prefix_len_ends(s);
    if b == 0 {
    } else if b < 0 || bytes.len() < b {
        if on_boundary(s, b) {
            lemma_char_index_at(s, b);
        }
    } else {
        assert(s.len() > 0);
        let rest = s.drop_first();
        let w = encode_scalar(s[0] as u32).len() as int;
        encode_utf8_first_scalar(s);
        assert(pop_first_scalar(bytes) =~= encode_utf8(rest));
        lemma_boundary_is_char_boundary(rest, b - w);
        lemma_scalar_width(s[0]);
        if on_boundary(s, b) {
            lemma_char_index_at(s, b);
            let k = char_index(s, b);
            assert(k >= 1);
            lemma_prefix_len_first(s, k);
            assert(prefix_len(rest, k - 1) == b - w);
        }
        if on_boundary(rest, b - w) {
            lemma_char_index_at(rest, b - w);
            let j = char_index(rest, b - w);
            lemma_prefix_len_first(s, j + 1);
            assert(prefix_len(s, j + 1) == b);
        }
    }
}

/// The boundary before the boundary `b`, which is not the start.
pub open spec fn prev_boundary(s: Seq<char>, b: int) -> int {
    prefix_len(s, char_index(s, b) - 1) as int
}

/// The boundary after the boundary `b`, which is not the end.
pub open spec fn next_boundary(s: Seq<char>, b: int) -> int {
    prefix_len(s, char_index(s, b) + 1) as int
}

/// The neighbours of a boundary are boundaries, at most four bytes away.
pub proof fn lemma_neighbours(s: Seq<char>, b: int)
    requires
        on_boundary(s, b),
    ensures
        b > 0 ==> on_boundary(s, prev_boundary(s, b)) && b - 4 <= prev_boundary(s, b) < b
            && char_index(s, prev_boundary(s, b)) == char_index(s, b) - 1,
        b < byte_len(s) ==> on_boundary(s, next_boundary(s, b)) && b < next_boundary(s, b) <= b
            + 4 && next_boundary(s, b) <= byte_len(s) && char_index(s, next_boundary(s, b))
            == char_index(s, b) + 1,
{
    lemma_char_index_at(s, b);
    lemma_prefix_len_ends(s);
    let k = char_index(s, b);
    if b > 0 {
        assert(k > 0);
        lemma_prefix_len_step(s, k - 1);
        lemma_char_index(s, k - 1);
    }
    if b < byte_len(s) {
        assert(k < s.len());
        lemma_prefix_len_step(s, k);
        lemma_char_index(s, k + 1);
        lemma_prefix_len_bound(s, k + 1);
    }
}

/// `char::to_string`: the string of the one character.
#[verifier::external_body]
pub(crate) fn char_to_string(c: char) -> (s: String)
    ensures
        s@ == seq![c],
{
    c.to_string()
}

} // verus!
