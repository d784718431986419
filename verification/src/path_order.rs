//! The order in which paths are kept and reported: the order of their UTF-8
//! encodings, byte by byte, a proper prefix coming before what extends it.

use vstd::prelude::*;
use vstd::string::StringSliceAdditionalSpecFns;
use vstd::utf8::{encode_utf8, encode_utf8_decode_utf8};

verus! {

/// Whether `a` comes before `b` when only the bytes from position `from` on
/// are looked at.
pub open spec fn bytes_precede_from(a: Seq<u8>, b: Seq<u8>, from: int) -> bool
    decreases a.len() - from,
{
    if from >= b.len() {
        false
    } else if from >= a.len() {
        true
    } else if a[from] != b[from] {
        a[from] < b[from]
    } else {
        bytes_precede_from(a, b, from + 1)
    }
}

/// Whether the byte string `a` comes before the byte string `b`.
pub open spec fn bytes_precede(a: Seq<u8>, b: Seq<u8>) -> bool {
    bytes_precede_from(a, b, 0)
}

/// Whether the path `a` comes before the path `b`.
pub open spec fn path_precedes(a: Seq<char>, b: Seq<char>) -> bool {
    bytes_precede(encode_utf8(a), encode_utf8(b))
}

/// The paths that a sequence of strings spells out.
pub open spec fn path_views(paths: Seq<String>) -> Seq<Seq<char>> {
    Seq::new(paths.len(), |i: int| paths[i]@)
}

/// Whether the paths of `paths` stand in strictly ascending order.
pub open spec fn strictly_ascending(paths: Seq<Seq<char>>) -> bool {
    forall|i: int, j: int|
        0 <= i < j < paths.len() ==> path_precedes(#[trigger] paths[i], #[trigger] paths[j])
}

proof fn lemma_bytes_irreflexive(a: Seq<u8>, from: int)
    requires
        0 <= from,
    ensures
        !bytes_precede_from(a, a, from),
    decreases a.len() - from,
{
    if from < a.len() {
        lemma_bytes_irreflexive(a, from + 1);
    }
}

proof fn lemma_bytes_asymmetric(a: Seq<u8>, b: Seq<u8>, from: int)
    requires
        0 <= from,
        bytes_precede_from(a, b, from),
    ensures
        !bytes_precede_from(b, a, from),
    decreases a.len() - from,
{
    if from < a.len() && from < b.len() && a[from] == b[from] {
        lemma_bytes_asymmetric(a, b, from + 1);
    }
}

proof fn lemma_bytes_transitive(a: Seq<u8>, b: Seq<u8>, c: Seq<u8>, from: int)
    requires
        0 <= from,
        bytes_precede_from(a, b, from),
        bytes_precede_from(b, c, from),
    ensures
        bytes_precede_from(a, c, from),
    decreases a.len() - from,
{
    if from < a.len() && a[from] == b[from] && b[from] == c[from] {
        lemma_bytes_transitive(a, b, c, from + 1);
    }
}

proof fn lemma_bytes_total(a: Seq<u8>, b: Seq<u8>, from: int)
    requires
        0 <= from <= a.len(),
        from <= b.len(),
        !bytes_precede_from(a, b, from),
        !bytes_precede_from(b, a, from),
    ensures
        a.len() == b.len(),
        forall|k: int| from <= k < a.len() ==> a[k] == b[k],
    decreases a.len() - from,
{
    if from < a.len() && from < b.len() {
        lemma_bytes_total(a, b, from + 1);
    }
}

/// Of two paths at most one comes before the other, and no path comes
/// before itself.
pub proof fn lemma_path_order_asymmetric(a: Seq<char>, b: Seq<char>)
    requires
        path_precedes(a, b),
    ensures
        !path_precedes(b, a),
        a != b,
{
    lemma_bytes_asymmetric(encode_utf8(a), encode_utf8(b), 0);
    lemma_bytes_irreflexive(encode_utf8(a), 0);
}

/// What comes before a path comes before everything that the path comes
/// before.
pub proof fn lemma_path_order_transitive(a: Seq<char>, b: Seq<char>, c: Seq<char>)
    requires
        path_precedes(a, b),
        path_precedes(b, c),
    ensures
        path_precedes(a, c),
{
    lemma_bytes_transitive(encode_utf8(a), encode_utf8(b), encode_utf8(c), 0);
}

/// Two paths of which neither comes before the other are the same path.
pub proof fn lemma_path_order_total(a: Seq<char>, b: Seq<char>)
    requires
        !path_precedes(a, b),
        !path_precedes(b, a),
    ensures
        a == b,
{
    let x = encode_utf8(a);
    let y = encode_utf8(b);
    lemma_bytes_total(x, y, 0);
    assert(x =~= y);
    encode_utf8_decode_utf8(a);
    encode_utf8_decode_utf8(b);
}

/// How one path stands to another in the order of paths.
#[derive(Clone, Copy, Debug, PartialEq, Eq, Structural)]
pub enum PathOrder {
    /// The first path comes before the second.
    Before,
    /// The two paths are the same.
    Same,
    /// The first path comes after the second.
    After,
}

/// Tells how the path `a` stands to the path `b`.
pub fn compare_paths(a: &str, b: &str) -> (order: PathOrder)
    ensures
        order is Before <==> path_precedes(a@, b@),
        order is Same <==> a@ == b@,
        order is After <==> path_precedes(b@, a@),
{
    let x = a.as_bytes();
    let y = b.as_bytes();
    let mut i: usize = 0;
    while i < x.len() && i < y.len()
        invariant
            i <= x@.len(),
            i <= y@.len(),
            x@ == encode_utf8(a@),
            y@ == encode_utf8(b@),
            bytes_precede_from(x@, y@, i as int) == path_precedes(a@, b@),
            bytes_precede_from(y@, x@, i as int) == path_precedes(b@, a@),
        decreases x@.len() - i,
    {
        if x[i] < y[i] {
            proof {
                lemma_path_order_asymmetric(a@, b@);
            }
            return PathOrder::Before;
        } else if x[i] > y[i] {
            proof {
                lemma_path_order_asymmetric(b@, a@);
            }
            return PathOrder::After;
        }
        i += 1;
    }
    if x.len() < y.len() {
        proof {
            lemma_path_order_asymmetric(a@, b@);
        }
        PathOrder::Before
    } else if x.len() > y.len() {
        proof {
            lemma_path_order_asymmetric(b@, a@);
        }
        PathOrder::After
    } else {
        proof {
            lemma_path_order_total(a@, b@);
        }
        PathOrder::Same
    }
}

} // verus!
