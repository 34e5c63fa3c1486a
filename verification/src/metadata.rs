//! Reading the entries of a block of slide metadata from its text.

use vstd::prelude::*;
use vstd::slice::{slice_subrange, slice_to_vec};
use crate::nodes::{NodeKV, NodeSlideMetaDataBlock};

verus! {

/// The length of the line that starts at offset `from`, up to the line
/// feed that ends it or to the end of the text.
pub open spec fn line_len(bytes: Seq<u8>, from: int) -> nat
    decreases bytes.len() - from,
{
    if 0 <= from < bytes.len() && bytes[from] != 10 {
        1 + line_len(bytes, from + 1)
    } else {
        0
    }
}

/// The line that starts at offset `from`, without the line feed that ends
/// it and without a carriage return right before that line feed.
pub open spec fn line_at(bytes: Seq<u8>, from: int) -> Seq<u8> {
    let end = from + line_len(bytes, from);
    if from < end < bytes.len() && bytes[end - 1] == 13 {
        bytes.subrange(from, end - 1)
    } else {
        bytes.subrange(from, end)
    }
}

/// The number of bytes of a line from offset `from` on that come before
/// its first colon, or before its end where there is none.
pub open spec fn key_len(line: Seq<u8>, from: int) -> nat
    decreases line.len() - from,
{
    if 0 <= from < line.len() && line[from] != 58 {
        1 + key_len(line, from + 1)
    } else {
        0
    }
}

/// The entries that the lines of a text from offset `from` on stand for.
/// A line is split at its first colon into key and value. A line without
/// a colon is passed over. A line with an empty key ends the reading: it
/// and the lines behind it give no entries.
pub open spec fn entries_from(bytes: Seq<u8>, from: int) -> Seq<(Seq<u8>, Seq<u8>)>
    decreases bytes.len() - from + 1,
{
    if 0 <= from < bytes.len() {
        let line = line_at(bytes, from);
        let colon = key_len(line, 0) as int;
        let next = from + line_len(bytes, from) + 1;
        if colon >= line.len() {
            proof {
                lemma_line_len_bound(bytes, from);
            }
            entries_from(bytes, next)
        } else if colon == 0 {
            Seq::empty()
        } else {
            proof {
                lemma_line_len_bound(bytes, from);
            }
            seq![(line.subrange(0, colon), line.subrange(colon + 1, line.len() as int))]
                + entries_from(bytes, next)
        }
    } else {
        Seq::empty()
    }
}

/// A line ends within the text.
pub proof fn lemma_line_len_bound(bytes: Seq<u8>, from: int)
    requires
        0 <= from <= bytes.len(),
    ensures
        from + line_len(bytes, from) <= bytes.len(),
    decreases bytes.len() - from,
{
    if from < bytes.len() && bytes[from] != 10 {
        lemma_line_len_bound(bytes, from + 1);
    }
}

/// The entries that the text of a block of slide metadata stands for.
pub open spec fn entries_of(literal: Seq<u8>) -> Seq<(Seq<u8>, Seq<u8>)> {
    entries_from(literal, 0)
}

/// The keys and values of a list of entries.
pub open spec fn pairs(metadatas: Seq<NodeKV>) -> Seq<(Seq<u8>, Seq<u8>)> {
    metadatas.map_values(|kv: NodeKV| (kv.key@, kv.value@))
}

/// Reads the entries of a block of slide metadata from its text, in the
/// order of the lines.
pub fn read_metadatas(literal: &[u8]) -> (metadatas: Vec<NodeKV>)
    ensures
        pairs(metadatas@) == entries_of(literal@),
{
    let size: usize = literal.len();
    let mut metadatas: Vec<NodeKV> = Vec::new();
    let mut start: usize = 0;
    assert(pairs(metadatas@) =~= Seq::empty());
    while start < size
        invariant
            start <= size,
            size == literal@.len(),
            pairs(metadatas@) + entries_from(literal@, start as int) == entries_of(literal@),
        decreases size - start,
    {
        let mut end: usize = start;
        while end < size && literal[end] != 10
            invariant
                start <= end <= size,
                size == literal@.len(),
                end - start + line_len(literal@, end as int) == line_len(literal@, start as int),
            decreases size - end,
        {
            end += 1;
        }
        let stop: usize = if start < end && end < size && literal[end - 1] == 13 {
            end - 1
        } else {
            end
        };
        let line: &[u8] = slice_subrange(literal, start, stop);
        assert(line@ == line_at(literal@, start as int));
        let n: usize = line.len();
        let mut colon: usize = 0;
        while colon < n && line[colon] != 58
            invariant
                colon <= n,
                n == line@.len(),
                colon + key_len(line@, colon as int) == key_len(line@, 0),
            decreases n - colon,
        {
            colon += 1;
        }
        if colon < n {
            if colon == 0 {
                assert(pairs(metadatas@) + Seq::empty() =~= pairs(metadatas@));
                return metadatas;
            }
            let ghost before = pairs(metadatas@);
            let kv = NodeKV {
                key: slice_to_vec(slice_subrange(line, 0, colon)),
                value: slice_to_vec(slice_subrange(line, colon + 1, n)),
            };
            metadatas.push(kv);
            proof {
                let entry = (line@.subrange(0, colon as int), line@.subrange(colon + 1, n as int));
                assert(pairs(metadatas@) =~= before.push(entry));
                assert(before.push(entry) + entries_from(literal@, end + 1) =~= before + (seq![
                    entry,
                ] + entries_from(literal@, end + 1)));
            }
        }
        if end < size {
            start = end + 1;
        } else {
            start = size;
            assert(entries_from(literal@, size + 1) =~= entries_from(literal@, size as int));
        }
    }
    assert(pairs(metadatas@) + Seq::empty() =~= pairs(metadatas@));
    metadatas
}

impl NodeSlideMetaDataBlock {
    /// A block of slide metadata with the given text and the entries that
    /// the text stands for.
    pub fn new(literal: Vec<u8>) -> (block: Self)
        ensures
            block.literal == literal,
            pairs(block.metadatas@) == entries_of(literal@),
    {
        let metadatas = read_metadatas(literal.as_slice());
        NodeSlideMetaDataBlock { literal, metadatas }
    }
}

} // verus!
