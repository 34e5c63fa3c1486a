//! What escaping does to a byte string, for text and for link targets.

use vstd::prelude::*;
use vstd::string::StringSliceAdditionalSpecFns;

verus! {

/// The four bytes that text escaping replaces: `"`, `&`, `<` and `>`.
pub open spec fn needs_escaped(b: u8) -> bool {
    b == 34 || b == 38 || b == 60 || b == 62
}

/// What one byte becomes in escaped text.
pub open spec fn escape_byte(b: u8) -> Seq<u8> {
    if b == 34 {
        "&quot;".spec_bytes()
    } else if b == 38 {
        "&amp;".spec_bytes()
    } else if b == 60 {
        "&lt;".spec_bytes()
    } else if b == 62 {
        "&gt;".spec_bytes()
    } else {
        seq![b]
    }
}

/// Escaped text: each byte replaced by `escape_byte` of it, in order.
pub open spec fn escaped(s: Seq<u8>) -> Seq<u8>
    decreases s.len(),
{
    if s.len() == 0 {
        Seq::<u8>::empty()
    } else {
        escaped(s.drop_last()) + escape_byte(s.last())
    }
}

/// The bytes that pass through href escaping unchanged: ASCII letters and
/// digits and `-_.+!*(),%#@?=;:/$~`.
pub open spec fn href_safe(b: u8) -> bool {
    ||| 97 <= b <= 122
    ||| 65 <= b <= 90
    ||| 48 <= b <= 57
    ||| b == 45 || b == 95 || b == 46 || b == 43 || b == 33 || b == 42
    ||| b == 40 || b == 41 || b == 44 || b == 37 || b == 35 || b == 64
    ||| b == 63 || b == 61 || b == 59 || b == 58 || b == 47 || b == 36 || b == 126
}

/// The upper-case hexadecimal digit for a value below sixteen.
pub open spec fn hex_digit(d: u8) -> u8 {
    if d < 10 {
        (48 + d) as u8
    } else {
        (55 + d) as u8
    }
}

/// What one byte becomes in an escaped link target: itself where it is safe,
/// `&amp;` for `&`, `&#x27;` for `'`, else `%` and two upper-case hex digits.
pub open spec fn href_escape_byte(b: u8) -> Seq<u8> {
    if href_safe(b) {
        seq![b]
    } else if b == 38 {
        "&amp;".spec_bytes()
    } else if b == 39 {
        "&#x27;".spec_bytes()
    } else {
        seq![37u8, hex_digit(b / 16), hex_digit(b % 16)]
    }
}

/// An escaped link target: each byte replaced by `href_escape_byte` of it.
pub open spec fn href_escaped(s: Seq<u8>) -> Seq<u8>
    decreases s.len(),
{
    if s.len() == 0 {
        Seq::<u8>::empty()
    } else {
        href_escaped(s.drop_last()) + href_escape_byte(s.last())
    }
}

/// Escaping a prefix extended by a run of bytes that need no escaping
/// copies the run.
pub proof fn lemma_escaped_run(s: Seq<u8>, from: int, to: int)
    requires
        0 <= from <= to <= s.len(),
        forall|k: int| from <= k < to ==> !needs_escaped(s[k]),
    ensures
        escaped(s.subrange(0, to)) == escaped(s.subrange(0, from)) + s.subrange(from, to),
    decreases to - from,
{
    if from == to {
        assert(s.subrange(from, to) =~= Seq::<u8>::empty());
        assert(escaped(s.subrange(0, from)) + Seq::<u8>::empty() =~= escaped(s.subrange(0, from)));
    } else {
        lemma_escaped_run(s, from, to - 1);
        assert(s.subrange(0, to).drop_last() =~= s.subrange(0, to - 1));
        assert(s.subrange(0, to).last() == s[to - 1]);
        assert(s.subrange(from, to) =~= s.subrange(from, to - 1) + seq![s[to - 1]]);
        assert(escaped(s.subrange(0, from)) + (s.subrange(from, to - 1) + seq![s[to - 1]])
            =~= (escaped(s.subrange(0, from)) + s.subrange(from, to - 1)) + seq![s[to - 1]]);
    }
}

/// Escaping a prefix extended by one byte appends what that byte becomes.
pub proof fn lemma_escaped_step(s: Seq<u8>, i: int)
    requires
        0 <= i < s.len(),
    ensures
        escaped(s.subrange(0, i + 1)) == escaped(s.subrange(0, i)) + escape_byte(s[i]),
{
    assert(s.subrange(0, i + 1).drop_last() =~= s.subrange(0, i));
}

/// Href escaping a prefix extended by a run of safe bytes copies the run.
pub proof fn lemma_href_escaped_run(s: Seq<u8>, from: int, to: int)
    requires
        0 <= from <= to <= s.len(),
        forall|k: int| from <= k < to ==> href_safe(s[k]),
    ensures
        href_escaped(s.subrange(0, to)) == href_escaped(s.subrange(0, from)) + s.subrange(
            from,
            to,
        ),
    decreases to - from,
{
    if from == to {
        assert(s.subrange(from, to) =~= Seq::<u8>::empty());
        assert(href_escaped(s.subrange(0, from)) + Seq::<u8>::empty() =~= href_escaped(
            s.subrange(0, from),
        ));
    } else {
        lemma_href_escaped_run(s, from, to - 1);
        assert(s.subrange(0, to).drop_last() =~= s.subrange(0, to - 1));
        assert(s.subrange(0, to).last() == s[to - 1]);
        assert(s.subrange(from, to) =~= s.subrange(from, to - 1) + seq![s[to - 1]]);
        assert(href_escaped(s.subrange(0, from)) + (s.subrange(from, to - 1) + seq![s[to - 1]])
            =~= (href_escaped(s.subrange(0, from)) + s.subrange(from, to - 1)) + seq![s[to - 1]]);
    }
}

/// Href escaping a prefix extended by one byte appends what that byte
/// becomes.
pub proof fn lemma_href_escaped_step(s: Seq<u8>, i: int)
    requires
        0 <= i < s.len(),
    ensures
        href_escaped(s.subrange(0, i + 1)) == href_escaped(s.subrange(0, i)) + href_escape_byte(
            s[i],
        ),
{
    assert(s.subrange(0, i + 1).drop_last() =~= s.subrange(0, i));
}

/// Escaping changes nothing in text that holds none of the four bytes it
/// replaces: such text is a fixed point of escaping.
pub proof fn lemma_escape_fixed_point(s: Seq<u8>)
    requires
        forall|k: int| 0 <= k < s.len() ==> !needs_escaped(s[k]),
    ensures
        escaped(s) == s,
{
    lemma_escaped_run(s, 0, s.len() as int);
    assert(s.subrange(0, s.len() as int) =~= s);
    assert(s.subrange(0, 0) =~= Seq::<u8>::empty());
    assert(Seq::<u8>::empty() + s =~= s);
}

} // verus!
