//! Text as sequences of characters: white space, trimming and lines.

use vstd::prelude::*;
use vstd::slice::slice_subrange;

verus! {

/// The characters of `text`, in order.
pub fn chars_of(text: &str) -> (chars: Vec<char>)
    ensures
        chars@ == text@,
{
    let mut chars: Vec<char> = Vec::new();
    for c in it: text.chars()
        invariant
            it.seq() == text@,
            chars@ == text@.take(it.index() as int),
    {
        chars.push(c);
        assert(text@.take(it.index() + 1) == text@.take(it.index() as int).push(c));
    }
    assert(text@.take(text@.len() as int) == text@);
    chars
}

/// `String::from_iter` on the characters of a slice: the string is made of
/// exactly these characters, in order.
#[verifier::external_body]
pub(crate) fn string_of(chars: &[char]) -> (text: String)
    ensures
        text@ == chars@,
{
    String::from_iter(chars.iter())
}

/// White space as Unicode defines it: the code points with the property
/// `White_Space`.
pub open spec fn is_whitespace(c: char) -> bool {
    let n = c as u32;
    ||| 0x09 <= n <= 0x0D
    ||| n == 0x20
    ||| n == 0x85
    ||| n == 0xA0
    ||| n == 0x1680
    ||| 0x2000 <= n <= 0x200A
    ||| n == 0x2028
    ||| n == 0x2029
    ||| n == 0x202F
    ||| n == 0x205F
    ||| n == 0x3000
}

/// Tells whether `c` is white space.
pub fn whitespace(c: char) -> (b: bool)
    ensures
        b == is_whitespace(c),
{
    let n: u32 = c as u32;
    (0x09 <= n && n <= 0x0D) || n == 0x20 || n == 0x85 || n == 0xA0 || n == 0x1680 || (0x2000 <= n
        && n <= 0x200A) || n == 0x2028 || n == 0x2029 || n == 0x202F || n == 0x205F || n == 0x3000
}

/// `text` without the white space it starts with.
pub open spec fn trimmed_start(text: Seq<char>) -> Seq<char>
    decreases text.len(),
{
    if text.len() > 0 && is_whitespace(text[0]) {
        trimmed_start(text.drop_first())
    } else {
        text
    }
}

/// `text` without the white space it ends with.
pub open spec fn trimmed_end(text: Seq<char>) -> Seq<char>
    decreases text.len(),
{
    if text.len() > 0 && is_whitespace(text.last()) {
        trimmed_end(text.drop_last())
    } else {
        text
    }
}

/// `text` without the white space at both ends.
pub open spec fn trimmed(text: Seq<char>) -> Seq<char> {
    trimmed_end(trimmed_start(text))
}

/// The number of characters before the first line feed, or the length of
/// `text` if it has none.
pub open spec fn line_end(text: Seq<char>) -> int
    decreases text.len(),
{
    if text.len() == 0 || text[0] == '\n' {
        0
    } else {
        1 + line_end(text.drop_first())
    }
}

/// The first line of `text`, without its terminator. A line ends with a line
/// feed, or with a carriage return and a line feed, or with the text.
pub open spec fn first_line(text: Seq<char>) -> Seq<char> {
    let end = line_end(text);
    if 0 < end < text.len() && text[end - 1] == '\r' {
        text.take(end - 1)
    } else {
        text.take(end)
    }
}

/// What follows the first line of `text` and its terminator.
pub open spec fn after_first_line(text: Seq<char>) -> Seq<char> {
    let end = line_end(text);
    if end < text.len() {
        text.skip(end + 1)
    } else {
        text.skip(end)
    }
}

/// The lines of `text`, without their terminators. The last line needs no
/// terminator, and a terminator at the end of the text starts no further line.
pub open spec fn lines(text: Seq<char>) -> Seq<Seq<char>>
    decreases text.len(),
{
    if text.len() == 0 {
        Seq::empty()
    } else {
        proof {
            lemma_line_end(text);
        }
        seq![first_line(text)] + lines(after_first_line(text))
    }
}

/// The first line ends within the text, at the first line feed if there is one.
pub proof fn lemma_line_end(text: Seq<char>)
    ensures
        0 <= line_end(text) <= text.len(),
        line_end(text) < text.len() ==> text[line_end(text)] == '\n',
        forall|i: int| 0 <= i < line_end(text) ==> text[i] != '\n',
        text.len() > 0 ==> after_first_line(text).len() < text.len(),
    decreases text.len(),
{
    if text.len() == 0 || text[0] == '\n' {
    } else {
        let rest = text.drop_first();
        lemma_line_end(rest);
        assert forall|i: int| 0 <= i < line_end(text) implies text[i] != '\n' by {
            if i > 0 {
                assert(text[i] == rest[i - 1]);
            }
        }
    }
}

/// Returns `text` without the white space it starts with.
pub fn trim_start(text: &[char]) -> (rest: &[char])
    ensures
        rest@ == trimmed_start(text@),
{
    let n = text.len();
    let mut at: usize = 0;
    assert(text@.skip(0) == text@);
    while at < n && whitespace(text[at])
        invariant
            n == text@.len(),
            at <= n,
            trimmed_start(text@) == trimmed_start(text@.skip(at as int)),
        decreases n - at,
    {
        assert(text@.skip(at as int).drop_first() == text@.skip(at + 1));
        at += 1;
    }
    assert(text@.skip(at as int) == text@.subrange(at as int, n as int));
    slice_subrange(text, at, n)
}

/// Returns `text` without the white space it ends with.
pub fn trim_end(text: &[char]) -> (rest: &[char])
    ensures
        rest@ == trimmed_end(text@),
{
    let mut end: usize = text.len();
    assert(text@.take(end as int) == text@);
    while end > 0 && whitespace(text[end - 1])
        invariant
            end <= text@.len(),
            trimmed_end(text@) == trimmed_end(text@.take(end as int)),
        decreases end,
    {
        assert(text@.take(end as int).drop_last() == text@.take(end - 1));
        end -= 1;
    }
    assert(text@.take(end as int) == text@.subrange(0, end as int));
    slice_subrange(text, 0, end)
}

/// Returns `text` without the white space at both ends.
pub fn trim(text: &[char]) -> (rest: &[char])
    ensures
        rest@ == trimmed(text@),
{
    trim_end(trim_start(text))
}

/// If `text` starts with `prefix`, returns what follows the prefix.
pub fn strip_prefix<'a>(text: &'a [char], prefix: &[char]) -> (rest: Option<&'a [char]>)
    ensures
        rest is Some <==> prefix@.is_prefix_of(text@),
        rest matches Some(r) ==> r@ == text@.skip(prefix@.len() as int),
{
    let n = prefix.len();
    if text.len() < n {
        return None;
    }
    let mut i: usize = 0;
    while i < n
        invariant
            n == prefix@.len(),
            n <= text@.len(),
            i <= n,
            forall|j: int| 0 <= j < i ==> text@[j] == prefix@[j],
        decreases n - i,
    {
        if text[i] != prefix[i] {
            assert(!prefix@.is_prefix_of(text@)) by {
                if prefix@.is_prefix_of(text@) {
                    assert(text@.subrange(0, n as int)[i as int] == prefix@[i as int]);
                }
            }
            return None;
        }
        i += 1;
    }
    assert(text@.subrange(0, n as int) == prefix@);
    assert(text@.skip(n as int) == text@.subrange(n as int, text@.len() as int));
    Some(slice_subrange(text, n, text.len()))
}

/// Splits a text that is not empty into its first line and what follows it.
pub fn split_first_line(text: &[char]) -> (parts: (&[char], &[char]))
    requires
        text@.len() > 0,
    ensures
        parts.0@ == first_line(text@),
        parts.1@ == after_first_line(text@),
        parts.1@.len() < text@.len(),
{
    let n = text.len();
    let mut end: usize = 0;
    assert(text@.skip(0) == text@);
    while end < n && text[end] != '\n'
        invariant
            n == text@.len(),
            end <= n,
            line_end(text@) == end + line_end(text@.skip(end as int)),
        decreases n - end,
    {
        assert(text@.skip(end as int).drop_first() == text@.skip(end + 1));
        end += 1;
    }
    proof {
        lemma_line_end(text@);
        assert(text@.skip(end as int).len() == 0 || text@.skip(end as int)[0] == '\n');
        assert(line_end(text@) == end);
    }
    let stop = if 0 < end && end < n && text[end - 1] == '\r' {
        end - 1
    } else {
        end
    };
    let next = if end < n {
        end + 1
    } else {
        end
    };
    proof {
        assert(text@.take(stop as int) == text@.subrange(0, stop as int));
        assert(text@.skip(next as int) == text@.subrange(next as int, n as int));
    }
    (slice_subrange(text, 0, stop), slice_subrange(text, next, n))
}

} // verus!
