//! Defences against script injection: the filter for raw HTML tags and the
//! test for link targets that must not be rendered.

use vstd::prelude::*;
use vstd::slice::slice_subrange;
use vstd::string::StringSliceAdditionalSpecFns;
use crate::ctype::{ascii_lower, is_space, isspace, to_ascii_lower};
use crate::writer::WriteWithLast;

verus! {

/// `literal` holds `name` at offset `at`, ASCII letters compared without
/// regard to case. `name` is expected in lower case.
pub open spec fn has_name_at(literal: Seq<u8>, at: int, name: Seq<u8>) -> bool {
    &&& 0 <= at
    &&& at + name.len() <= literal.len()
    &&& forall|j: int| 0 <= j < name.len() ==> #[trigger] name[j] == ascii_lower(literal[at + j])
}

/// A tag name may end at offset `j`: the byte there is whitespace or `>`, or
/// it is `/` with `>` right behind it.
pub open spec fn tag_ends_at(literal: Seq<u8>, j: int) -> bool {
    &&& 0 <= j < literal.len()
    &&& (is_space(literal[j]) || literal[j] == 62 || (literal[j] == 47 && j + 1 < literal.len()
        && literal[j + 1] == 62))
}

/// `literal` holds the whole tag name `name` at offset `at`.
pub open spec fn has_tag_at(literal: Seq<u8>, at: int, name: Seq<u8>) -> bool {
    has_name_at(literal, at, name) && tag_ends_at(literal, at + name.len())
}

/// Whether `literal` opens or closes one of the filtered elements: it starts
/// with `<` or `</`, then one of `title`, `textarea`, `style`, `xmp`,
/// `iframe`, `noembed`, `noframes`, `script`, `plaintext` in any case, then
/// the end of a tag name.
pub open spec fn is_filtered_tag(literal: Seq<u8>) -> bool {
    &&& literal.len() >= 3
    &&& literal[0] == 60
    &&& {
        let at: int = if literal[1] == 47 {
            2
        } else {
            1
        };
        ||| has_tag_at(literal, at, "title".spec_bytes())
        ||| has_tag_at(literal, at, "textarea".spec_bytes())
        ||| has_tag_at(literal, at, "style".spec_bytes())
        ||| has_tag_at(literal, at, "xmp".spec_bytes())
        ||| has_tag_at(literal, at, "iframe".spec_bytes())
        ||| has_tag_at(literal, at, "noembed".spec_bytes())
        ||| has_tag_at(literal, at, "noframes".spec_bytes())
        ||| has_tag_at(literal, at, "script".spec_bytes())
        ||| has_tag_at(literal, at, "plaintext".spec_bytes())
    }
}

/// What the byte at offset `i` of a raw HTML block becomes: `&lt;` where a
/// filtered tag starts there, else the byte itself.
pub open spec fn filter_byte(input: Seq<u8>, i: int) -> Seq<u8> {
    if input[i] == 60 && is_filtered_tag(input.subrange(i, input.len() as int)) {
        "&lt;".spec_bytes()
    } else {
        seq![input[i]]
    }
}

/// The first `n` bytes of a raw HTML block after filtering.
pub open spec fn filtered_prefix(input: Seq<u8>, n: int) -> Seq<u8>
    decreases n,
{
    if n <= 0 {
        Seq::<u8>::empty()
    } else {
        filtered_prefix(input, n - 1) + filter_byte(input, n - 1)
    }
}

/// A raw HTML block after filtering: the `<` of every filtered tag is
/// replaced by `&lt;`, all else is kept.
pub open spec fn filtered(input: Seq<u8>) -> Seq<u8> {
    filtered_prefix(input, input.len() as int)
}

/// `input` starts with `prefix`, ASCII letters compared without regard to
/// case. `prefix` is expected in lower case.
pub open spec fn has_scheme(input: Seq<u8>, prefix: Seq<u8>) -> bool {
    has_name_at(input, 0, prefix)
}

/// Whether a link target is dangerous: it starts, in any case, with
/// `javascript:`, `vbscript:`, `file:`, or with `data:` that does not go on
/// as `image/png`, `image/gif`, `image/jpeg` or `image/webp`.
pub open spec fn is_dangerous_url(input: Seq<u8>) -> bool {
    ||| has_scheme(input, "javascript:".spec_bytes())
    ||| has_scheme(input, "vbscript:".spec_bytes())
    ||| has_scheme(input, "file:".spec_bytes())
    ||| (has_scheme(input, "data:".spec_bytes()) && !(has_scheme(
        input,
        "data:image/png".spec_bytes(),
    ) || has_scheme(input, "data:image/gif".spec_bytes()) || has_scheme(
        input,
        "data:image/jpeg".spec_bytes(),
    ) || has_scheme(input, "data:image/webp".spec_bytes())))
}

/// Compares the bytes of `literal` from offset `at` with `name`, folding
/// ASCII upper case in `literal`.
pub fn name_at(literal: &[u8], at: usize, name: &str) -> (r: bool)
    ensures
        r == has_name_at(literal@, at as int, name.spec_bytes()),
{
    let name_bytes = name.as_bytes();
    let n: usize = name_bytes.len();
    if at > literal.len() || n > literal.len() - at {
        return false;
    }
    let mut j: usize = 0;
    while j < n
        invariant
            j <= n,
            n == name_bytes@.len(),
            name_bytes@ == name.spec_bytes(),
            at + n <= literal@.len() <= usize::MAX,
            forall|k: int| 0 <= k < j ==> #[trigger] name_bytes@[k] == ascii_lower(literal@[at + k]),
        decreases n - j,
    {
        if to_ascii_lower(literal[at + j]) != name_bytes[j] {
            return false;
        }
        j += 1;
    }
    true
}

/// Tests for a whole tag name at offset `at`.
fn tag_at(literal: &[u8], at: usize, name: &str) -> (r: bool)
    ensures
        r == has_tag_at(literal@, at as int, name.spec_bytes()),
{
    if !name_at(literal, at, name) {
        return false;
    }
    let n: usize = name.as_bytes().len();
    let len: usize = literal.len();
    let j: usize = at + n;
    if j >= len {
        return false;
    }
    isspace(literal[j]) || literal[j] == 62 || (literal[j] == 47 && len - j >= 2
        && literal[j + 1] == 62)
}

/// Decides whether `literal` starts with a tag of a filtered element.
pub fn tagfilter(literal: &[u8]) -> (r: bool)
    ensures
        r == is_filtered_tag(literal@),
{
    if literal.len() < 3 || literal[0] != 60 {
        return false;
    }
    let mut i: usize = 1;
    if literal[i] == 47 {
        i += 1;
    }
    tag_at(literal, i, "title") || tag_at(literal, i, "textarea") || tag_at(literal, i, "style")
        || tag_at(literal, i, "xmp") || tag_at(literal, i, "iframe") || tag_at(
        literal,
        i,
        "noembed",
    ) || tag_at(literal, i, "noframes") || tag_at(literal, i, "script") || tag_at(
        literal,
        i,
        "plaintext",
    )
}

/// Writes a raw HTML block to `o`, with the `<` of every filtered tag turned
/// into `&lt;`.
pub fn tagfilter_block(input: &[u8], o: &mut WriteWithLast)
    requires
        old(o).wf(),
    ensures
        final(o).wf(),
        final(o)@ == old(o)@ + filtered(input@),
{
    let size: usize = input.len();
    let mut i: usize = 0;
    assert(old(o)@ + filtered_prefix(input@, 0) =~= old(o)@);
    while i < size
        invariant
            i <= size,
            size == input@.len(),
            o.wf(),
            o@ == old(o)@ + filtered_prefix(input@, i as int),
        decreases size - i,
    {
        let org: usize = i;
        while i < size && input[i] != 60
            invariant
                org <= i <= size,
                size == input@.len(),
                forall|k: int| org <= k < i ==> input@[k] != 60,
            decreases size - i,
        {
            i += 1;
        }
        proof {
            lemma_filtered_run(input@, org as int, i as int);
        }
        if i > org {
            o.write(slice_subrange(input, org, i));
        }
        assert(o@ =~= old(o)@ + filtered_prefix(input@, i as int));
        if i < size {
            if tagfilter(slice_subrange(input, i, size)) {
                o.write_str("&lt;");
            } else {
                o.write_str("<");
                proof {
                    reveal_strlit("<");
                    vstd::string::is_ascii_spec_bytes("<");
                    assert("<".spec_bytes() =~= seq![60u8]);
                }
            }
            assert(o@ =~= old(o)@ + filtered_prefix(input@, i + 1));
            i += 1;
        }
    }
}

/// Filtering copies a run of bytes that holds no `<`.
pub proof fn lemma_filtered_run(input: Seq<u8>, from: int, to: int)
    requires
        0 <= from <= to <= input.len(),
        forall|k: int| from <= k < to ==> input[k] != 60,
    ensures
        filtered_prefix(input, to) == filtered_prefix(input, from) + input.subrange(from, to),
    decreases to - from,
{
    if from == to {
        assert(filtered_prefix(input, from) + input.subrange(from, to) =~= filtered_prefix(
            input,
            from,
        ));
    } else {
        lemma_filtered_run(input, from, to - 1);
        assert(input.subrange(from, to) =~= input.subrange(from, to - 1) + seq![input[to - 1]]);
        assert(filtered_prefix(input, from) + (input.subrange(from, to - 1) + seq![input[to - 1]])
            =~= (filtered_prefix(input, from) + input.subrange(from, to - 1)) + seq![
            input[to - 1],
        ]);
    }
}

/// Decides whether a link target is dangerous.
pub fn dangerous_url(input: &[u8]) -> (r: bool)
    ensures
        r == is_dangerous_url(input@),
{
    if name_at(input, 0, "javascript:") || name_at(input, 0, "vbscript:") || name_at(
        input,
        0,
        "file:",
    ) {
        return true;
    }
    if !name_at(input, 0, "data:") {
        return false;
    }
    !(name_at(input, 0, "data:image/png") || name_at(input, 0, "data:image/gif") || name_at(
        input,
        0,
        "data:image/jpeg",
    ) || name_at(input, 0, "data:image/webp"))
}

} // verus!
