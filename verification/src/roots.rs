//! The list of paths at which a scan starts, as it is written on the
//! command line: the paths in one string, with commas between them.

use vstd::prelude::*;
use crate::path_order::path_views;
use crate::text::{chars_of, is_white_space, string_of};

verus! {

/// The pieces into which the commas cut `text`. There is one piece more
/// than there are commas, and a piece may be empty.
pub open spec fn pieces(text: Seq<char>) -> Seq<Seq<char>>
    decreases text.len(),
{
    if text.len() == 0 {
        seq![Seq::<char>::empty()]
    } else {
        let before = pieces(text.drop_last());
        if text.last() == ',' {
            before.push(Seq::<char>::empty())
        } else {
            before.drop_last().push(before.last().push(text.last()))
        }
    }
}

/// `text` without the white space at its start.
pub open spec fn trim_start(text: Seq<char>) -> Seq<char>
    decreases text.len(),
{
    if text.len() > 0 && is_white_space(text[0]) {
        trim_start(text.drop_first())
    } else {
        text
    }
}

/// `text` without the white space at its end.
pub open spec fn trim_end(text: Seq<char>) -> Seq<char>
    decreases text.len(),
{
    if text.len() > 0 && is_white_space(text.last()) {
        trim_end(text.drop_last())
    } else {
        text
    }
}

/// `text` without the white space at its start and at its end.
pub open spec fn trimmed(text: Seq<char>) -> Seq<char> {
    trim_end(trim_start(text))
}

/// The paths that `text` lists: its pieces, each without the white space
/// around it.
pub open spec fn base_paths_of(text: Seq<char>) -> Seq<Seq<char>> {
    Seq::new(pieces(text).len(), |k: int| trimmed(pieces(text)[k]))
}

/// The characters of `chars` from `from` up to `to`, without the white
/// space around them, as a string.
fn trimmed_piece(chars: &Vec<char>, from: usize, to: usize) -> (piece: String)
    requires
        from <= to <= chars@.len(),
    ensures
        piece@ == trimmed(chars@.subrange(from as int, to as int)),
{
    let mut first: usize = from;
    while first < to && chars[first].is_whitespace()
        invariant
            from <= first <= to <= chars@.len(),
            trim_start(chars@.subrange(from as int, to as int)) == trim_start(
                chars@.subrange(first as int, to as int),
            ),
        decreases to - first,
    {
        proof {
            assert(chars@.subrange(first as int, to as int).drop_first() =~= chars@.subrange(
                first + 1,
                to as int,
            ));
        }
        first += 1;
    }
    let mut end: usize = to;
    while end > first && chars[end - 1].is_whitespace()
        invariant
            first <= end <= to <= chars@.len(),
            trim_end(chars@.subrange(first as int, to as int)) == trim_end(
                chars@.subrange(first as int, end as int),
            ),
        decreases end - first,
    {
        proof {
            assert(chars@.subrange(first as int, end as int).drop_last() =~= chars@.subrange(
                first as int,
                end - 1,
            ));
        }
        end -= 1;
    }
    string_of(chars, first, end)
}

/// Reads the list of paths at which a scan starts: cuts `text` at its
/// commas and takes the white space off both ends of every piece.
pub fn parse_base_paths(text: &str) -> (paths: Vec<String>)
    ensures
        path_views(paths@) == base_paths_of(text@),
{
    let chars = chars_of(text);
    let mut paths: Vec<String> = Vec::new();
    let mut start: usize = 0;
    let mut i: usize = 0;
    while i < chars.len()
        invariant
            chars@ == text@,
            start <= i <= chars@.len(),
            pieces(chars@.take(i as int)).len() == paths@.len() + 1,
            pieces(chars@.take(i as int)).last() == chars@.subrange(start as int, i as int),
            forall|k: int|
                0 <= k < paths@.len() ==> (#[trigger] paths@[k])@ == trimmed(
                    pieces(chars@.take(i as int))[k],
                ),
        decreases chars@.len() - i,
    {
        proof {
            assert(chars@.take(i + 1).drop_last() =~= chars@.take(i as int));
            assert(chars@.subrange(start as int, i as int).push(chars@[i as int])
                =~= chars@.subrange(start as int, i + 1));
        }
        if chars[i] == ',' {
            let piece = trimmed_piece(&chars, start, i);
            paths.push(piece);
            start = i + 1;
            proof {
                assert(chars@.subrange(start as int, start as int) =~= Seq::<char>::empty());
            }
        }
        i += 1;
    }
    proof {
        assert(chars@.take(chars@.len() as int) =~= chars@);
    }
    let piece = trimmed_piece(&chars, start, chars.len());
    paths.push(piece);
    proof {
        assert(path_views(paths@) =~= base_paths_of(text@));
    }
    paths
}

} // verus!
