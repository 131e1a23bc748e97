//! The order of strings, byte by byte, and lists in that order.
use vstd::prelude::*;
use vstd::utf8::*;
use crate::text;

verus! {

/// `a` stands before `b`, byte by byte, or is the same.
pub open spec fn bytes_le(a: Seq<u8>, b: Seq<u8>) -> bool
    decreases a.len(),
{
    if a.len() == 0 {
        true
    } else if b.len() == 0 {
        false
    } else if a[0] != b[0] {
        a[0] < b[0]
    } else {
        bytes_le(a.drop_first(), b.drop_first())
    }
}

/// `a` stands before `b` in the order of their UTF-8 bytes, or is the same.
pub open spec fn text_le(a: Seq<char>, b: Seq<char>) -> bool {
    bytes_le(encode_utf8(a), encode_utf8(b))
}

/// The order of bytes is total.
pub proof fn lemma_bytes_total(a: Seq<u8>, b: Seq<u8>)
    ensures
        bytes_le(a, b) || bytes_le(b, a),
        bytes_le(a, b) && bytes_le(b, a) ==> a == b,
        a == b ==> bytes_le(a, b),
    decreases a.len(),
{
    if a.len() == 0 {
        if b.len() == 0 {
            assert(a =~= b);
        }
    } else if b.len() > 0 {
        lemma_bytes_total(a.drop_first(), b.drop_first());
        if a[0] == b[0] && a.drop_first() == b.drop_first() {
            assert(a =~= seq![a[0]] + a.drop_first());
            assert(b =~= seq![b[0]] + b.drop_first());
        }
    }
}

/// The order of bytes is transitive.
pub proof fn lemma_bytes_transitive(a: Seq<u8>, b: Seq<u8>, c: Seq<u8>)
    requires
        bytes_le(a, b),
        bytes_le(b, c),
    ensures
        bytes_le(a, c),
    decreases a.len(),
{
    if a.len() > 0 && b.len() > 0 && c.len() > 0 && a[0] == b[0] && b[0] == c[0] {
        lemma_bytes_transitive(a.drop_first(), b.drop_first(), c.drop_first());
    }
}

/// The order of strings is total, antisymmetric and transitive.
pub proof fn law_text_order(a: Seq<char>, b: Seq<char>, c: Seq<char>)
    ensures
        text_le(a, a),
        text_le(a, b) || text_le(b, a),
        text_le(a, b) && text_le(b, a) ==> a == b,
        text_le(a, b) && text_le(b, c) ==> text_le(a, c),
{
    lemma_bytes_total(encode_utf8(a), encode_utf8(b));
    lemma_bytes_total(encode_utf8(a), encode_utf8(a));
    text::lemma_bytes_determine_text(a, b);
    if text_le(a, b) && text_le(b, c) {
        lemma_bytes_transitive(encode_utf8(a), encode_utf8(b), encode_utf8(c));
    }
}

fn bytes_in_order(a: &[u8], b: &[u8]) -> (r: bool)
    ensures
        r == bytes_le(a@, b@),
{
    let mut i: usize = 0;
    assert(a@.skip(0) =~= a@);
    assert(b@.skip(0) =~= b@);
    while i < a.len() && i < b.len()
        invariant
            i <= a@.len(),
            i <= b@.len(),
            bytes_le(a@, b@) == bytes_le(a@.skip(i as int), b@.skip(i as int)),
        decreases a.len() - i,
    {
        let ghost x = a@.skip(i as int);
        let ghost y = b@.skip(i as int);
        assert(x[0] == a@[i as int] && y[0] == b@[i as int]);
        if a[i] != b[i] {
            return a[i] < b[i];
        }
        assert(x.drop_first() =~= a@.skip(i + 1));
        assert(y.drop_first() =~= b@.skip(i + 1));
        i += 1;
    }
    i == a.len()
}

/// Whether `a` stands before `b` or is the same.
pub fn in_text_order(a: &str, b: &str) -> (r: bool)
    ensures
        r == text_le(a@, b@),
{
    bytes_in_order(a.as_bytes(), b.as_bytes())
}

// ---------------------------------------------------------------------------
// Lists in order
// ---------------------------------------------------------------------------

/// The first elements of a list, `limit` at most.
pub open spec fn at_most<A>(list: Seq<A>, limit: nat) -> Seq<A> {
    if list.len() > limit {
        list.take(limit as int)
    } else {
        list
    }
}

/// The number of elements at the front of a list that stand before `x` or
/// level with it.
pub open spec fn rank_of<A>(list: Seq<A>, x: A, le: spec_fn(A, A) -> bool) -> nat
    decreases list.len(),
{
    if list.len() > 0 && le(list[0], x) {
        1 + rank_of(list.drop_first(), x, le)
    } else {
        0
    }
}

/// A list in order with one more element, behind those level with it.
pub open spec fn insert_ordered<A>(list: Seq<A>, x: A, le: spec_fn(A, A) -> bool) -> Seq<A> {
    list.insert(rank_of(list, x, le) as int, x)
}

/// The elements of a list in order; level ones keep their order.
pub open spec fn ordered<A>(list: Seq<A>, le: spec_fn(A, A) -> bool) -> Seq<A>
    decreases list.len(),
{
    if list.len() == 0 {
        list
    } else {
        insert_ordered(ordered(list.drop_last(), le), list.last(), le)
    }
}

/// Each element stands before or level with those behind it.
pub open spec fn is_ordered<A>(list: Seq<A>, le: spec_fn(A, A) -> bool) -> bool {
    forall|i: int, j: int| 0 <= i < j < list.len() ==> le(#[trigger] list[i], #[trigger] list[j])
}

pub open spec fn total<A>(le: spec_fn(A, A) -> bool) -> bool {
    &&& forall|a: A, b: A| #[trigger] le(a, b) || le(b, a)
    &&& forall|a: A, b: A, c: A| #[trigger] le(a, b) && #[trigger] le(b, c) ==> le(a, c)
}

pub proof fn lemma_rank_of<A>(list: Seq<A>, x: A, le: spec_fn(A, A) -> bool)
    ensures
        0 <= rank_of(list, x, le) <= list.len(),
        forall|i: int| 0 <= i < rank_of(list, x, le) ==> le(#[trigger] list[i], x),
        rank_of(list, x, le) < list.len() ==> !le(list[rank_of(list, x, le) as int], x),
    decreases list.len(),
{
    if list.len() > 0 && le(list[0], x) {
        let rest = list.drop_first();
        lemma_rank_of(rest, x, le);
        assert forall|i: int| 0 <= i < rank_of(list, x, le) implies le(#[trigger] list[i], x) by {
            if i > 0 {
                assert(list[i] == rest[i - 1]);
            }
        }
    }
}

pub proof fn lemma_rank_is<A>(list: Seq<A>, x: A, le: spec_fn(A, A) -> bool, n: nat)
    requires
        n <= list.len(),
        forall|i: int| 0 <= i < n ==> le(#[trigger] list[i], x),
        n < list.len() ==> !le(list[n as int], x),
    ensures
        rank_of(list, x, le) == n,
{
    lemma_rank_of(list, x, le);
    let m = rank_of(list, x, le);
    if m < n {
        assert(le(list[m as int], x));
    } else if n < m {
        assert(le(list[n as int], x));
    }
}

/// Putting a list in order keeps its elements and orders them.
pub proof fn law_ordered<A>(list: Seq<A>, le: spec_fn(A, A) -> bool)
    requires
        total(le),
    ensures
        is_ordered(ordered(list, le), le),
        ordered(list, le).to_multiset() == list.to_multiset(),
        ordered(list, le).len() == list.len(),
    decreases list.len(),
{
    if list.len() > 0 {
        let rest = list.drop_last();
        let x = list.last();
        law_ordered(rest, le);
        let before = ordered(rest, le);
        lemma_rank_of(before, x, le);
        let n = rank_of(before, x, le) as int;
        let after = ordered(list, le);
        assert forall|i: int, j: int| 0 <= i < j < after.len() implies le(
            #[trigger] after[i],
            #[trigger] after[j],
        ) by {
            if j < n {
                assert(after[i] == before[i] && after[j] == before[j]);
            } else if j == n {
                assert(after[i] == before[i]);
            } else if i == n {
                let k = j - 1;
                assert(after[j] == before[k]);
                assert(le(before[n], x) || le(x, before[n]));
                if n < k {
                    assert(le(before[n], before[k]));
                    assert(le(x, before[k]));
                }
            } else {
                let a = if i < n { i } else { i - 1 };
                assert(after[i] == before[a] && after[j] == before[j - 1]);
            }
        }
        assert(list =~= rest.push(x));
        vstd::seq_lib::to_multiset_insert(before, n, x);
        vstd::seq_lib::to_multiset_build(rest, x);
    }
}

} // verus!
