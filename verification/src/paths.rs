//! Unix paths as byte strings.
use vstd::prelude::*;
use vstd::slice::slice_subrange;
use vstd::utf8::*;
use crate::text::same_bytes;

verus! {

pub const SLASH: u8 = 0x2f;

pub const DOT: u8 = 0x2e;

/// A path that starts at the root.
pub open spec fn absolute(p: Seq<u8>) -> bool {
    p.len() > 0 && p[0] == SLASH
}

/// A path seen from another one.
pub open spec fn join(base: Seq<u8>, p: Seq<u8>) -> Seq<u8> {
    if absolute(p) {
        p
    } else if base.len() == 0 || base.last() == SLASH {
        base + p
    } else {
        base.push(SLASH) + p
    }
}

/// Where the components of a path start: behind the root, or behind a leading
/// `.` component.
pub open spec fn body_start(p: Seq<u8>) -> int {
    if absolute(p) || (p.len() > 0 && p[0] == DOT && (p.len() == 1 || p[1] == SLASH)) {
        1
    } else {
        0
    }
}

/// Where the last component starts.
pub open spec fn last_start(p: Seq<u8>, from: int) -> int
    decreases p.len(),
{
    if p.len() == 0 || p.len() <= from || p.last() == SLASH {
        p.len() as int
    } else {
        last_start(p.drop_last(), from)
    }
}

/// A path without its last component and the slash before it.
pub open spec fn without_last(p: Seq<u8>) -> Seq<u8> {
    let start = last_start(p, body_start(p));
    if start > body_start(p) {
        p.take(start - 1)
    } else {
        p.take(start)
    }
}

/// The last component of a path.
pub open spec fn last_component(p: Seq<u8>) -> Seq<u8> {
    p.skip(last_start(p, body_start(p)))
}

/// A component that stands for nothing.
pub open spec fn void_component(c: Seq<u8>) -> bool {
    c.len() == 0 || c == seq![DOT]
}

/// A path without the empty and `.` components at its end.
pub open spec fn trimmed_path(p: Seq<u8>) -> Seq<u8>
    decreases p.len(),
{
    if p.len() > body_start(p) && void_component(last_component(p)) && without_last(p).len()
        < p.len() {
        trimmed_path(without_last(p))
    } else {
        p
    }
}

/// The name of the file that a path leads to.
pub open spec fn file_name(p: Seq<u8>) -> Option<Seq<u8>> {
    let q = trimmed_path(p);
    if q.len() > body_start(q) && last_component(q) != seq![DOT, DOT] {
        Some(last_component(q))
    } else {
        None
    }
}

/// The path without its last component.
pub open spec fn parent(p: Seq<u8>) -> Option<Seq<u8>> {
    let q = trimmed_path(p);
    if q.len() > body_start(q) {
        Some(trimmed_path(without_last(q)))
    } else if q.len() == 0 || absolute(q) {
        None
    } else {
        Some(Seq::empty())
    }
}

proof fn lemma_last_start(p: Seq<u8>, from: int)
    requires
        0 <= from,
    ensures
        0 <= last_start(p, from) <= p.len(),
        from <= p.len() ==> from <= last_start(p, from),
        last_start(p, from) > from ==> p[last_start(p, from) - 1] == SLASH,
    decreases p.len(),
{
    if p.len() > from && p.last() != SLASH {
        lemma_last_start(p.drop_last(), from);
    }
}

pub fn is_absolute(p: &[u8]) -> (b: bool)
    ensures
        b == absolute(p@),
{
    p.len() > 0 && p[0] == SLASH
}

/// Appends bytes.
pub fn append_bytes(out: &mut Vec<u8>, more: &[u8])
    ensures
        final(out)@ == old(out)@ + more@,
{
    out.extend_from_slice(more);
    assert(out@ =~= old(out)@ + more@);
}

/// A copy of some bytes.
pub fn bytes_of(s: &[u8]) -> (r: Vec<u8>)
    ensures
        r@ == s@,
{
    let mut out: Vec<u8> = Vec::new();
    append_bytes(&mut out, s);
    assert(out@ =~= s@);
    out
}

/// A path seen from another one.
pub fn joined(base: &[u8], p: &[u8]) -> (r: Vec<u8>)
    ensures
        r@ == join(base@, p@),
{
    if is_absolute(p) {
        return bytes_of(p);
    }
    let mut out = bytes_of(base);
    if base.len() > 0 && base[base.len() - 1] != SLASH {
        out.push(SLASH);
    }
    append_bytes(&mut out, p);
    out
}

fn find_body(p: &[u8]) -> (n: usize)
    ensures
        n == body_start(p@),
        n <= p@.len(),
{
    if is_absolute(p) || (p.len() > 0 && p[0] == DOT && (p.len() == 1 || p[1] == SLASH)) {
        1
    } else {
        0
    }
}

fn find_last(p: &[u8]) -> (n: usize)
    ensures
        n == last_start(p@, body_start(p@)),
        body_start(p@) <= n <= p@.len(),
{
    let body: usize = find_body(p);
    let mut i: usize = p.len();
    assert(p@.take(p@.len() as int) =~= p@);
    while i > body && p[i - 1] != SLASH
        invariant
            body <= i <= p@.len(),
            last_start(p@, body as int) == last_start(p@.take(i as int), body as int),
        decreases i,
    {
        assert(p@.take(i as int).drop_last() =~= p@.take(i - 1));
        i -= 1;
    }
    i
}

fn drop_last_component<'a>(p: &'a [u8]) -> (r: &'a [u8])
    ensures
        r@ == without_last(p@),
        p@.len() > body_start(p@) && void_component(last_component(p@)) ==> r@.len() < p@.len(),
{
    let start: usize = find_last(p);
    let body: usize = find_body(p);
    let end: usize = if start > body {
        start - 1
    } else {
        start
    };
    assert(p@.subrange(0, end as int) =~= p@.take(end as int));
    slice_subrange(p, 0, end)
}

fn ends_in_void(p: &[u8]) -> (b: bool)
    ensures
        b == void_component(last_component(p@)),
{
    let start: usize = find_last(p);
    let n: usize = p.len() - start;
    let b = n == 0 || (n == 1 && p[start] == DOT);
    proof {
        let c = last_component(p@);
        assert(c.len() == n);
        if n == 1 {
            assert(c[0] == p@[start as int]);
            assert(c[0] == DOT ==> c =~= seq![DOT]);
        }
    }
    b
}

fn trim_path<'a>(p: &'a [u8]) -> (r: &'a [u8])
    ensures
        r@ == trimmed_path(p@),
{
    let mut q = p;
    while q.len() > find_body(q) && ends_in_void(q)
        invariant
            trimmed_path(q@) == trimmed_path(p@),
        decreases q@.len(),
    {
        q = drop_last_component(q);
    }
    q
}

/// The name of the file that a path leads to.
pub fn file_name_of<'a>(p: &'a [u8]) -> (r: Option<&'a [u8]>)
    ensures
        match r {
            Some(n) => file_name(p@) == Some(n@),
            None => file_name(p@) is None,
        },
{
    let q = trim_path(p);
    if q.len() <= find_body(q) {
        return None;
    }
    let start: usize = find_last(q);
    let name = slice_subrange(q, start, q.len());
    assert(name@ =~= last_component(q@));
    if name.len() == 2 && name[0] == DOT && name[1] == DOT {
        assert(name@ =~= seq![DOT, DOT]);
        return None;
    }
    Some(name)
}

/// The path without its last component.
pub fn parent_of<'a>(p: &'a [u8]) -> (r: Option<&'a [u8]>)
    ensures
        match r {
            Some(n) => parent(p@) == Some(n@),
            None => parent(p@) is None,
        },
{
    let q = trim_path(p);
    if q.len() > find_body(q) {
        return Some(trim_path(drop_last_component(q)));
    }
    if q.len() == 0 || is_absolute(q) {
        return None;
    }
    let none = slice_subrange(q, 0, 0);
    assert(none@ =~= Seq::<u8>::empty());
    Some(none)
}

/// A file whose name starts with `.env`.
pub open spec fn env_file(p: Seq<u8>) -> bool {
    match file_name(p) {
        Some(name) => name.len() >= 4 && name.take(4) == encode_utf8(".env"@),
        None => false,
    }
}

/// Whether a path leads to a file whose name starts with `.env`.
pub fn is_env_file(p: &[u8]) -> (b: bool)
    ensures
        b == env_file(p@),
{
    match file_name_of(p) {
        Some(name) => {
            if name.len() < 4 {
                return false;
            }
            let head = slice_subrange(name, 0, 4);
            assert(head@ =~= name@.take(4));
            same_bytes(head, ".env".as_bytes())
        },
        None => false,
    }
}

/// An absolute path stays itself wherever it is seen from.
pub proof fn law_absolute_paths_stay(base: Seq<u8>, p: Seq<u8>)
    ensures
        absolute(p) ==> join(base, p) == p,
        absolute(base) ==> absolute(join(base, p)),
{
}

/// A run of bytes occurs in another.
pub open spec fn contains_bytes(s: Seq<u8>, p: Seq<u8>) -> bool {
    exists|i: int| 0 <= i <= s.len() - p.len() && #[trigger] s.subrange(i, i + p.len()) == p
}

/// Whether a run of bytes occurs in another.
pub fn has_bytes(s: &[u8], p: &[u8]) -> (b: bool)
    ensures
        b == contains_bytes(s@, p@),
{
    let n: usize = p.len();
    let mut i: usize = 0;
    while i <= s.len() && n <= s.len() - i
        invariant
            i <= s@.len() + 1,
            n == p@.len(),
            forall|j: int|
                0 <= j < i && j <= s@.len() - n ==> #[trigger] s@.subrange(j, j + n) != p@,
        decreases s.len() + 1 - i,
    {
        if same_bytes(slice_subrange(s, i, i + n), p) {
            return true;
        }
        if i == s.len() {
            assert(forall|j: int|
                0 <= j <= s@.len() - n ==> #[trigger] s@.subrange(j, j + n) != p@);
            return false;
        }
        i += 1;
    }
    false
}

} // verus!
