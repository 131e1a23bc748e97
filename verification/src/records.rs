//! Texts in a stream of bytes, each ended by a NUL.
use vstd::prelude::*;
use vstd::utf8::*;
use crate::paths::append_bytes;

verus! {

/// A text without a NUL, which would end it.
pub open spec fn without_nul(s: Seq<char>) -> bool {
    forall|i: int| 0 <= i < s.len() ==> #[trigger] s[i] != '\0'
}

/// A text up to its first NUL.
pub open spec fn until_nul(s: Seq<char>) -> Seq<char>
    decreases s.len(),
{
    if s.len() == 0 || s[0] == '\0' {
        Seq::empty()
    } else {
        seq![s[0]] + until_nul(s.skip(1))
    }
}

/// A text without a NUL is read to its end.
pub proof fn lemma_until_nul(s: Seq<char>)
    requires
        without_nul(s),
    ensures
        until_nul(s) == s,
    decreases s.len(),
{
    if s.len() > 0 {
        assert forall|i: int| 0 <= i < s.skip(1).len() implies #[trigger] s.skip(1)[i] != '\0' by {
            assert(s[i + 1] != '\0');
        }
        lemma_until_nul(s.skip(1));
        assert(seq![s[0]] + s.skip(1) =~= s);
    }
    assert(until_nul(s) =~= s);
}

/// What a text starts with is read before what follows it, or holds the NUL that
/// ends both.
pub proof fn lemma_until_nul_prefix(s: Seq<char>, p: Seq<char>)
    ensures
        until_nul(p + s) == if without_nul(p) {
            p + until_nul(s)
        } else {
            until_nul(p)
        },
    decreases p.len(),
{
    if p.len() == 0 {
        assert(p + s =~= s);
        assert(p + until_nul(s) =~= until_nul(s));
    } else if p[0] != '\0' {
        let rest = p.skip(1);
        lemma_until_nul_prefix(s, rest);
        assert((p + s).skip(1) =~= rest + s);
        assert(without_nul(rest) == without_nul(p)) by {
            if without_nul(rest) {
                assert forall|i: int| 0 <= i < p.len() implies #[trigger] p[i] != '\0' by {
                    if i > 0 {
                        assert(rest[i - 1] != '\0');
                    }
                }
            }
            if without_nul(p) {
                assert forall|i: int| 0 <= i < rest.len() implies #[trigger] rest[i] != '\0' by {
                    assert(p[i + 1] != '\0');
                }
            }
        }
        assert(seq![p[0]] + (rest + until_nul(s)) =~= p + until_nul(s));
    } else {
        assert(!without_nul(p));
    }
}

/// Texts as bytes, each ended by a NUL.
pub open spec fn terminated(list: Seq<Seq<char>>) -> Seq<u8>
    decreases list.len(),
{
    if list.len() == 0 {
        Seq::empty()
    } else {
        encode_utf8(list[0]).push(0u8) + terminated(list.drop_first())
    }
}

pub proof fn lemma_terminated_concat(a: Seq<Seq<char>>, b: Seq<Seq<char>>)
    ensures
        terminated(a + b) == terminated(a) + terminated(b),
    decreases a.len(),
{
    if a.len() == 0 {
        assert(a + b =~= b);
        assert(terminated(a) + terminated(b) =~= terminated(b));
    } else {
        lemma_terminated_concat(a.drop_first(), b);
        assert((a + b).drop_first() =~= a.drop_first() + b);
        assert((a + b)[0] == a[0]);
        assert(terminated(a + b) =~= terminated(a) + terminated(b));
    }
}

pub proof fn lemma_terminated_push(list: Seq<Seq<char>>, one: Seq<char>)
    ensures
        terminated(list.push(one)) == terminated(list) + encode_utf8(one).push(0u8),
{
    lemma_terminated_concat(list, seq![one]);
    assert(list.push(one) =~= list + seq![one]);
    assert(seq![one].drop_first() =~= Seq::<Seq<char>>::empty());
    assert(terminated(Seq::empty()) =~= Seq::<u8>::empty());
    assert(terminated(seq![one]) =~= encode_utf8(one).push(0u8));
}

pub proof fn lemma_terminated_take(list: Seq<Seq<char>>, k: int)
    requires
        0 <= k < list.len(),
    ensures
        terminated(list.take(k + 1)) == terminated(list.take(k)) + encode_utf8(list[k]).push(0u8),
{
    assert(list.take(k + 1) =~= list.take(k).push(list[k]));
    lemma_terminated_push(list.take(k), list[k]);
}

/// Appends a text and the NUL that ends it.
pub fn push_record(out: &mut Vec<u8>, text: &str)
    ensures
        final(out)@ == old(out)@ + encode_utf8(text@).push(0u8),
{
    let ghost before = out@;
    append_bytes(out, text.as_bytes());
    out.push(0);
    assert(out@ =~= before + encode_utf8(text@).push(0u8));
}

/// Texts as bytes, each ended by a NUL.
pub fn records_of(list: &Vec<String>) -> (r: Vec<u8>)
    ensures
        r@ == terminated(list.deep_view()),
{
    let ghost all = list.deep_view();
    let mut out: Vec<u8> = Vec::new();
    let mut i: usize = 0;
    assert(out@ =~= terminated(all.take(0)));
    while i < list.len()
        invariant
            i <= list@.len(),
            all == list.deep_view(),
            out@ == terminated(all.take(i as int)),
        decreases list.len() - i,
    {
        proof {
            assert(all.take(i + 1) =~= all.take(i as int).push(all[i as int]));
            lemma_terminated_push(all.take(i as int), all[i as int]);
        }
        push_record(&mut out, list[i].as_str());
        i += 1;
    }
    assert(all.take(all.len() as int) =~= all);
    out
}

/// The position of the first byte of a value; the length where there is none.
pub open spec fn first_byte(s: Seq<u8>, b: u8) -> nat
    decreases s.len(),
{
    if s.len() == 0 || s[0] == b {
        0
    } else {
        1 + first_byte(s.drop_first(), b)
    }
}

/// The runs of bytes between bytes of a value.
pub open spec fn split_bytes(s: Seq<u8>, b: u8) -> Seq<Seq<u8>>
    decreases s.len(),
{
    let n = first_byte(s, b);
    if n >= s.len() {
        seq![s]
    } else {
        seq![s.take(n as int)] + split_bytes(s.skip(n as int + 1), b)
    }
}

pub proof fn lemma_first_byte(s: Seq<u8>, b: u8)
    ensures
        0 <= first_byte(s, b) <= s.len(),
        forall|i: int| 0 <= i < first_byte(s, b) ==> #[trigger] s[i] != b,
        first_byte(s, b) < s.len() ==> s[first_byte(s, b) as int] == b,
    decreases s.len(),
{
    if s.len() > 0 && s[0] != b {
        let rest = s.drop_first();
        lemma_first_byte(rest, b);
        assert forall|i: int| 0 <= i < first_byte(s, b) implies #[trigger] s[i] != b by {
            if i > 0 {
                assert(s[i] == rest[i - 1]);
            }
        }
    }
}

pub proof fn lemma_first_byte_is(s: Seq<u8>, b: u8, n: nat)
    requires
        n <= s.len(),
        forall|i: int| 0 <= i < n ==> #[trigger] s[i] != b,
        n < s.len() ==> s[n as int] == b,
    ensures
        first_byte(s, b) == n,
{
    lemma_first_byte(s, b);
    let m = first_byte(s, b);
    if m < n {
        assert(s[m as int] != b);
    } else if n < m {
        assert(s[n as int] != b);
    }
}

/// The position of the first byte of a value.
pub fn find_byte(s: &[u8], b: u8) -> (n: usize)
    ensures
        n == first_byte(s@, b),
        n <= s@.len(),
{
    let mut i: usize = 0;
    while i < s.len() && s[i] != b
        invariant
            i <= s@.len(),
            forall|j: int| 0 <= j < i ==> #[trigger] s@[j] != b,
        decreases s.len() - i,
    {
        i += 1;
    }
    proof {
        lemma_first_byte_is(s@, b, i as nat);
    }
    i
}

pub proof fn lemma_split_nonempty(s: Seq<u8>, b: u8)
    ensures
        split_bytes(s, b).len() > 0,
{
}

pub proof fn lemma_encode_concat(a: Seq<char>, b: Seq<char>)
    ensures
        encode_utf8(a + b) == encode_utf8(a) + encode_utf8(b),
    decreases a.len(),
{
    if a.len() == 0 {
        assert(a + b =~= b);
        assert(encode_utf8(a) + encode_utf8(b) =~= encode_utf8(b));
    } else {
        lemma_encode_concat(a.drop_first(), b);
        assert((a + b).drop_first() =~= a.drop_first() + b);
        assert((a + b)[0] == a[0]);
        assert(encode_utf8(a + b) =~= encode_utf8(a) + encode_utf8(b));
    }
}

proof fn lemma_scalar_without_nul(c: u32)
    requires
        c != 0,
        vstd::utf8::is_scalar(c),
    ensures
        forall|i: int|
            0 <= i < vstd::utf8::encode_scalar(c).len() ==> #[trigger] vstd::utf8::encode_scalar(
                c,
            )[i] != 0u8,
{
    assert(vstd::utf8::has_width_1_encoding(c) ==> vstd::utf8::leading_byte_width_1(c) != 0u8)
        by (bit_vector)
        requires
            c != 0,
    ;
    assert(vstd::utf8::leading_byte_width_2(c) != 0u8 && vstd::utf8::leading_byte_width_3(c) != 0u8
        && vstd::utf8::leading_byte_width_4(c) != 0u8 && vstd::utf8::last_continuation_byte(c)
        != 0u8 && vstd::utf8::second_last_continuation_byte(c) != 0u8
        && vstd::utf8::third_last_continuation_byte(c) != 0u8) by (bit_vector);
}

pub proof fn lemma_text_without_nul(s: Seq<char>)
    requires
        without_nul(s),
    ensures
        forall|i: int| 0 <= i < encode_utf8(s).len() ==> #[trigger] encode_utf8(s)[i] != 0u8,
    decreases s.len(),
{
    if s.len() > 0 {
        let rest = s.drop_first();
        assert forall|i: int| 0 <= i < rest.len() implies #[trigger] rest[i] != '\0' by {
            assert(s[i + 1] != '\0');
        }
        lemma_text_without_nul(rest);
        assert(s[0] != '\0');
        vstd::utf8::char_is_scalar(s[0]);
        vstd::utf8::char_u32_cast(s[0], s[0] as u32);
        assert(0u32 as char == '\0');
        lemma_scalar_without_nul(s[0] as u32);
        let head = vstd::utf8::encode_scalar(s[0] as u32);
        assert forall|i: int| 0 <= i < encode_utf8(s).len() implies #[trigger] encode_utf8(s)[i]
            != 0u8 by {
            if i < head.len() {
                assert(encode_utf8(s)[i] == head[i]);
            } else {
                assert(encode_utf8(s)[i] == encode_utf8(rest)[i - head.len()]);
            }
        }
    }
}

/// Texts without a NUL are found again in the stream: they are what stands
/// between its NULs, with nothing behind the last.
pub proof fn law_records_are_found_again(list: Seq<Seq<char>>)
    requires
        forall|i: int| 0 <= i < list.len() ==> without_nul(#[trigger] list[i]),
    ensures
        split_bytes(terminated(list), 0u8) == list.map_values(
            |s: Seq<char>| encode_utf8(s),
        ).push(Seq::empty()),
    decreases list.len(),
{
    let output = terminated(list);
    let records = list.map_values(|s: Seq<char>| encode_utf8(s));
    if list.len() == 0 {
        assert(records.push(Seq::empty()) =~= seq![output]);
    } else {
        let rest = list.drop_first();
        assert forall|i: int| 0 <= i < rest.len() implies without_nul(#[trigger] rest[i]) by {
            assert(rest[i] == list[i + 1]);
        }
        law_records_are_found_again(rest);
        let one = encode_utf8(list[0]);
        lemma_text_without_nul(list[0]);
        let tail = terminated(rest);
        let others = rest.map_values(|s: Seq<char>| encode_utf8(s));
        assert(output =~= one.push(0u8) + tail);
        assert forall|i: int| 0 <= i < one.len() implies #[trigger] output[i] != 0u8 by {
            assert(output[i] == one[i]);
        }
        assert(output[one.len() as int] == 0u8);
        lemma_first_byte_is(output, 0u8, one.len());
        assert(output.take(one.len() as int) =~= one);
        assert(output.skip(one.len() as int + 1) =~= tail);
        assert(records =~= seq![one] + others);
        assert(seq![one] + others.push(Seq::empty()) =~= records.push(Seq::empty()));
    }
}

} // verus!
