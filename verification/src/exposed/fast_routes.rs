//! The per-endpoint routing table.
//!
//! A table is built once from the repositories that serve through an
//! endpoint.  Its routes are ordered by the first byte of their name and then
//! by the length of the name, routes with equal keys keeping the order in
//! which they were given; a 256-entry index maps every leading byte to the run
//! of routes that begin with it.

use vstd::prelude::*;
use vstd::string::*;
use crate::text::{utf8, str_equal};

verus! {

/// One entry of a routing table: a repository name and the handle of the
/// backend that serves it.
#[derive(Debug)]
pub struct FastRoute<B> {
    pub name: String,
    pub backend: B,
}

/// The ordering key of a name: its first byte (0 for the empty name) and its
/// length in bytes.
pub open spec fn route_key(name: Seq<u8>) -> (int, int) {
    (
        if name.len() > 0 {
            name[0] as int
        } else {
            0
        },
        name.len() as int,
    )
}

/// Keys are ordered by first byte, then by length.
pub open spec fn key_le(a: (int, int), b: (int, int)) -> bool {
    a.0 < b.0 || (a.0 == b.0 && a.1 <= b.1)
}

impl<B> FastRoute<B> {
    /// The name as a byte string.
    pub open spec fn name_bytes(&self) -> Seq<u8> {
        utf8(self.name@)
    }

    /// The key by which a table orders this route.
    pub open spec fn key(&self) -> (int, int) {
        route_key(self.name_bytes())
    }

    fn sort_key(&self) -> (k: (u8, usize))
        ensures
            (k.0 as int, k.1 as int) == self.key(),
    {
        let bytes = self.name.as_str().as_bytes();
        let first: u8 = if bytes.len() > 0 {
            bytes[0]
        } else {
            0
        };
        (first, bytes.len())
    }
}

/// Whether `a` does not come after `b` in key order.
fn key_not_after(a: (u8, usize), b: (u8, usize)) -> (r: bool)
    ensures
        r == key_le((a.0 as int, a.1 as int), (b.0 as int, b.1 as int)),
{
    a.0 < b.0 || (a.0 == b.0 && a.1 <= b.1)
}

/// Routes in ascending key order.
pub open spec fn keys_sorted<B>(s: Seq<FastRoute<B>>) -> bool {
    forall|i: int, j: int| 0 <= i <= j < s.len() ==> key_le(#[trigger] s[i].key(), #[trigger] s[j].key())
}

/// The routes of `s` whose key is `k`, in the order in which they stand in `s`.
pub open spec fn with_key<B>(s: Seq<FastRoute<B>>, k: (int, int)) -> Seq<FastRoute<B>>
    decreases s.len(),
{
    if s.len() == 0 {
        Seq::empty()
    } else if s.last().key() == k {
        with_key(s.drop_last(), k).push(s.last())
    } else {
        with_key(s.drop_last(), k)
    }
}

/// `out` is `inp` sorted by key, routes with equal keys in their old order.
pub open spec fn stable_sorted<B>(out: Seq<FastRoute<B>>, inp: Seq<FastRoute<B>>) -> bool {
    &&& out.len() == inp.len()
    &&& keys_sorted(out)
    &&& forall|k: (int, int)| #[trigger] with_key(out, k) == with_key(inp, k)
}

proof fn lemma_with_key_concat<B>(a: Seq<FastRoute<B>>, b: Seq<FastRoute<B>>, k: (int, int))
    ensures
        with_key(a + b, k) == with_key(a, k) + with_key(b, k),
    decreases b.len(),
{
    if b.len() == 0 {
        assert(a + b =~= a);
        assert(with_key(a, k) + with_key(b, k) =~= with_key(a, k));
    } else {
        let c = a + b;
        assert(c.drop_last() =~= a + b.drop_last());
        assert(c.last() == b.last());
        lemma_with_key_concat(a, b.drop_last(), k);
        if b.last().key() == k {
            assert(with_key(a, k) + with_key(b.drop_last(), k).push(b.last()) =~= (with_key(a, k)
                + with_key(b.drop_last(), k)).push(b.last()));
        }
    }
}

proof fn lemma_with_key_none<B>(s: Seq<FastRoute<B>>, k: (int, int))
    requires
        forall|i: int| 0 <= i < s.len() ==> #[trigger] s[i].key() != k,
    ensures
        with_key(s, k) == Seq::<FastRoute<B>>::empty(),
    decreases s.len(),
{
    if s.len() > 0 {
        assert(s.last() == s[s.len() - 1]);
        assert forall|i: int| 0 <= i < s.drop_last().len() implies #[trigger] s.drop_last()[i].key()
            != k by {
            assert(s.drop_last()[i] == s[i]);
        }
        lemma_with_key_none(s.drop_last(), k);
    }
}

proof fn lemma_with_key_single<B>(x: FastRoute<B>, k: (int, int))
    ensures
        with_key(seq![x], k) == if x.key() == k {
            seq![x]
        } else {
            Seq::empty()
        },
{
    let s = seq![x];
    assert(s.drop_last() =~= Seq::<FastRoute<B>>::empty());
    assert(s.last() == x);
    assert(with_key(s.drop_last(), k) =~= Seq::<FastRoute<B>>::empty());
    if x.key() == k {
        assert(Seq::<FastRoute<B>>::empty().push(x) =~= seq![x]);
    }
}

/// The state of a merge: `a` and `b` are what is left of the two runs, `tail`
/// is the end of the merged run.  Everything is sorted, nothing that is left
/// comes after a route of `tail`, and for every key the routes left and the
/// routes merged are together the routes of the two runs, in order.
spec fn merging<B>(
    a: Seq<FastRoute<B>>,
    b: Seq<FastRoute<B>>,
    tail: Seq<FastRoute<B>>,
    a0: Seq<FastRoute<B>>,
    b0: Seq<FastRoute<B>>,
) -> bool {
    &&& keys_sorted(a)
    &&& keys_sorted(b)
    &&& keys_sorted(tail)
    &&& a.len() + b.len() + tail.len() == a0.len() + b0.len()
    &&& forall|i: int, j: int|
        0 <= i < a.len() && 0 <= j < tail.len() ==> key_le(
            #[trigger] a[i].key(),
            #[trigger] tail[j].key(),
        )
    &&& forall|i: int, j: int|
        0 <= i < b.len() && 0 <= j < tail.len() ==> key_le(
            #[trigger] b[i].key(),
            #[trigger] tail[j].key(),
        )
    &&& forall|k: (int, int)| #[trigger]
        with_key(a, k) + with_key(b, k) + with_key(tail, k) == with_key(a0, k) + with_key(b0, k)
}

proof fn lemma_merging_starts<B>(a0: Seq<FastRoute<B>>, b0: Seq<FastRoute<B>>)
    requires
        keys_sorted(a0),
        keys_sorted(b0),
    ensures
        merging(a0, b0, Seq::empty(), a0, b0),
{
    let tail = Seq::<FastRoute<B>>::empty();
    assert forall|k: (int, int)| #[trigger]
        with_key(a0, k) + with_key(b0, k) + with_key(tail, k) == with_key(a0, k) + with_key(
            b0,
            k,
        ) by {
        assert(with_key(a0, k) + with_key(b0, k) + with_key(tail, k) =~= with_key(a0, k) + with_key(
            b0,
            k,
        ));
    }
}

/// The last route of `a` comes after every route of `b`: it is merged next.
proof fn lemma_merging_takes_left<B>(
    a: Seq<FastRoute<B>>,
    x: FastRoute<B>,
    b: Seq<FastRoute<B>>,
    tail: Seq<FastRoute<B>>,
    a0: Seq<FastRoute<B>>,
    b0: Seq<FastRoute<B>>,
)
    requires
        merging(a.push(x), b, tail, a0, b0),
        b.len() > 0 ==> !key_le(x.key(), b.last().key()),
    ensures
        merging(a, b, seq![x] + tail, a0, b0),
{
    let a1 = a.push(x);
    let next = seq![x] + tail;
    assert(a1.drop_last() =~= a);
    assert(a1.last() == x);
    assert forall|i: int| 0 <= i < b.len() implies #[trigger] b[i].key() != x.key() by {
        assert(key_le(b[i].key(), b[b.len() - 1].key()));
    }
    assert forall|k: (int, int)| #[trigger]
        with_key(a, k) + with_key(b, k) + with_key(next, k) == with_key(a0, k) + with_key(
            b0,
            k,
        ) by {
        lemma_with_key_concat(seq![x], tail, k);
        lemma_with_key_single(x, k);
        assert(with_key(a1, k) + with_key(b, k) + with_key(tail, k) == with_key(a0, k) + with_key(
            b0,
            k,
        ));
        if x.key() == k {
            lemma_with_key_none(b, k);
            assert(with_key(a1, k) == with_key(a, k).push(x));
            assert(with_key(a, k) + with_key(b, k) + (seq![x] + with_key(tail, k)) =~= with_key(
                a,
                k,
            ).push(x) + with_key(b, k) + with_key(tail, k));
        } else {
            assert(with_key(a1, k) == with_key(a, k));
            assert(Seq::<FastRoute<B>>::empty() + with_key(tail, k) =~= with_key(tail, k));
        }
    }
    assert forall|i: int, j: int| 0 <= i <= j < next.len() implies key_le(
        #[trigger] next[i].key(),
        #[trigger] next[j].key(),
    ) by {
        if i == 0 && j > 0 {
            assert(next[j] == tail[j - 1]);
            assert(a1[a1.len() - 1] == x);
        } else if i > 0 {
            assert(next[i] == tail[i - 1] && next[j] == tail[j - 1]);
        }
    }
    assert forall|i: int, j: int| 0 <= i < a.len() && 0 <= j < next.len() implies key_le(
        #[trigger] a[i].key(),
        #[trigger] next[j].key(),
    ) by {
        assert(a[i] == a1[i]);
        if j == 0 {
            assert(key_le(a1[i].key(), a1[a1.len() - 1].key()));
        } else {
            assert(next[j] == tail[j - 1]);
        }
    }
    assert forall|i: int, j: int| 0 <= i < b.len() && 0 <= j < next.len() implies key_le(
        #[trigger] b[i].key(),
        #[trigger] next[j].key(),
    ) by {
        if j == 0 {
            assert(key_le(b[i].key(), b[b.len() - 1].key()));
        } else {
            assert(next[j] == tail[j - 1]);
        }
    }
}

/// The last route of `b` does not come before any route of `a`: it is
/// merged next, after the routes of `a` with the same key.
proof fn lemma_merging_takes_right<B>(
    a: Seq<FastRoute<B>>,
    b: Seq<FastRoute<B>>,
    y: FastRoute<B>,
    tail: Seq<FastRoute<B>>,
    a0: Seq<FastRoute<B>>,
    b0: Seq<FastRoute<B>>,
)
    requires
        merging(a, b.push(y), tail, a0, b0),
        a.len() > 0 ==> key_le(a.last().key(), y.key()),
    ensures
        merging(a, b, seq![y] + tail, a0, b0),
{
    let b1 = b.push(y);
    let next = seq![y] + tail;
    assert(b1.drop_last() =~= b);
    assert(b1.last() == y);
    assert forall|k: (int, int)| #[trigger]
        with_key(a, k) + with_key(b, k) + with_key(next, k) == with_key(a0, k) + with_key(
            b0,
            k,
        ) by {
        lemma_with_key_concat(seq![y], tail, k);
        lemma_with_key_single(y, k);
        assert(with_key(a, k) + with_key(b1, k) + with_key(tail, k) == with_key(a0, k) + with_key(
            b0,
            k,
        ));
        if y.key() == k {
            assert(with_key(b1, k) == with_key(b, k).push(y));
            assert(with_key(a, k) + with_key(b, k) + (seq![y] + with_key(tail, k)) =~= with_key(
                a,
                k,
            ) + with_key(b, k).push(y) + with_key(tail, k));
        } else {
            assert(with_key(b1, k) == with_key(b, k));
            assert(Seq::<FastRoute<B>>::empty() + with_key(tail, k) =~= with_key(tail, k));
        }
    }
    assert forall|i: int, j: int| 0 <= i <= j < next.len() implies key_le(
        #[trigger] next[i].key(),
        #[trigger] next[j].key(),
    ) by {
        if i == 0 && j > 0 {
            assert(next[j] == tail[j - 1]);
            assert(b1[b1.len() - 1] == y);
        } else if i > 0 {
            assert(next[i] == tail[i - 1] && next[j] == tail[j - 1]);
        }
    }
    assert forall|i: int, j: int| 0 <= i < b.len() && 0 <= j < next.len() implies key_le(
        #[trigger] b[i].key(),
        #[trigger] next[j].key(),
    ) by {
        assert(b[i] == b1[i]);
        if j == 0 {
            assert(key_le(b1[i].key(), b1[b1.len() - 1].key()));
        } else {
            assert(next[j] == tail[j - 1]);
        }
    }
    assert forall|i: int, j: int| 0 <= i < a.len() && 0 <= j < next.len() implies key_le(
        #[trigger] a[i].key(),
        #[trigger] next[j].key(),
    ) by {
        if j == 0 {
            assert(key_le(a[i].key(), a[a.len() - 1].key()));
        } else {
            assert(next[j] == tail[j - 1]);
        }
    }
}

proof fn lemma_merging_ends<B>(
    tail: Seq<FastRoute<B>>,
    a0: Seq<FastRoute<B>>,
    b0: Seq<FastRoute<B>>,
)
    requires
        merging(Seq::empty(), Seq::empty(), tail, a0, b0),
    ensures
        tail.len() == a0.len() + b0.len(),
        keys_sorted(tail),
        forall|k: (int, int)| #[trigger] with_key(tail, k) == with_key(a0, k) + with_key(b0, k),
{
    let none = Seq::<FastRoute<B>>::empty();
    assert forall|k: (int, int)| #[trigger] with_key(tail, k) == with_key(a0, k) + with_key(
        b0,
        k,
    ) by {
        assert(with_key(none, k) + with_key(none, k) + with_key(tail, k) =~= with_key(tail, k));
    }
}

/// Merges two sorted runs, on equal keys the routes of `a` first.
fn merge<B>(a: Vec<FastRoute<B>>, b: Vec<FastRoute<B>>) -> (out: Vec<FastRoute<B>>)
    requires
        keys_sorted(a@),
        keys_sorted(b@),
    ensures
        out@.len() == a@.len() + b@.len(),
        keys_sorted(out@),
        forall|k: (int, int)| #[trigger] with_key(out@, k) == with_key(a@, k) + with_key(b@, k),
{
    let ghost a0 = a@;
    let ghost b0 = b@;
    let mut a = a;
    let mut b = b;
    // The merged tail, last route first.
    let mut rev: Vec<FastRoute<B>> = Vec::new();
    proof {
        lemma_merging_starts(a0, b0);
        assert(rev@.reverse() =~= Seq::<FastRoute<B>>::empty());
    }
    while a.len() > 0 || b.len() > 0
        invariant
            merging(a@, b@, rev@.reverse(), a0, b0),
        decreases a@.len() + b@.len(),
    {
        let ghost tail = rev@.reverse();
        let take_left: bool = if b.len() == 0 {
            true
        } else if a.len() == 0 {
            false
        } else {
            let ka = a[a.len() - 1].sort_key();
            let kb = b[b.len() - 1].sort_key();
            !key_not_after(ka, kb)
        };
        if take_left {
            let ghost a1 = a@;
            let x = a.pop().unwrap();
            rev.push(x);
            proof {
                assert(a1 =~= a@.push(x));
                assert(rev@.reverse() =~= seq![x] + tail);
                lemma_merging_takes_left(a@, x, b@, tail, a0, b0);
            }
        } else {
            let ghost b1 = b@;
            let y = b.pop().unwrap();
            rev.push(y);
            proof {
                assert(b1 =~= b@.push(y));
                assert(rev@.reverse() =~= seq![y] + tail);
                lemma_merging_takes_right(a@, b@, y, tail, a0, b0);
            }
        }
    }
    let ghost merged = rev@.reverse();
    proof {
        assert(a@ =~= Seq::<FastRoute<B>>::empty());
        assert(b@ =~= Seq::<FastRoute<B>>::empty());
        lemma_merging_ends(merged, a0, b0);
    }
    let mut out: Vec<FastRoute<B>> = Vec::new();
    while rev.len() > 0
        invariant
            out@ + rev@.reverse() == merged,
        decreases rev@.len(),
    {
        let ghost r1 = rev@;
        let ghost o1 = out@;
        let x = rev.pop().unwrap();
        out.push(x);
        proof {
            assert(r1.reverse() =~= seq![x] + rev@.reverse());
            assert(out@ + rev@.reverse() =~= o1 + r1.reverse());
        }
    }
    proof {
        assert(out@ + rev@.reverse() =~= out@);
    }
    out
}

proof fn lemma_stable_sorted_halves<B>(
    whole: Seq<FastRoute<B>>,
    left: Seq<FastRoute<B>>,
    right: Seq<FastRoute<B>>,
    l: Seq<FastRoute<B>>,
    r: Seq<FastRoute<B>>,
    out: Seq<FastRoute<B>>,
)
    requires
        whole == left + right,
        stable_sorted(l, left),
        stable_sorted(r, right),
        out.len() == l.len() + r.len(),
        keys_sorted(out),
        forall|k: (int, int)| #[trigger] with_key(out, k) == with_key(l, k) + with_key(r, k),
    ensures
        stable_sorted(out, whole),
{
    assert forall|k: (int, int)| #[trigger] with_key(out, k) == with_key(whole, k) by {
        lemma_with_key_concat(left, right, k);
        assert(with_key(l, k) == with_key(left, k));
        assert(with_key(r, k) == with_key(right, k));
    }
}

/// Sorts routes by key; routes with equal keys keep their order.
fn merge_sort<B>(v: Vec<FastRoute<B>>) -> (out: Vec<FastRoute<B>>)
    ensures
        stable_sorted(out@, v@),
    decreases v@.len(),
{
    if v.len() <= 1 {
        return v;
    }
    let ghost whole = v@;
    let mut left = v;
    let mid: usize = left.len() / 2;
    let right = left.split_off(mid);
    proof {
        assert(whole =~= left@ + right@);
    }
    let ghost left0 = left@;
    let ghost right0 = right@;
    let l = merge_sort(left);
    let r = merge_sort(right);
    let out = merge(l, r);
    proof {
        lemma_stable_sorted_halves(whole, left0, right0, l@, r@, out@);
    }
    out
}

/// Index of the first route of `s` named `name`, or `s.len()` when no route
/// has that name.
pub open spec fn position<B>(s: Seq<FastRoute<B>>, name: Seq<u8>) -> int
    decreases s.len(),
{
    if s.len() == 0 {
        0
    } else if s[0].name_bytes() == name {
        0
    } else {
        1 + position(s.drop_first(), name)
    }
}

/// The backend of the first route of `s` named `name`.
pub open spec fn first_named<B>(s: Seq<FastRoute<B>>, name: Seq<u8>) -> Option<B> {
    let at = position(s, name);
    if 0 <= at < s.len() {
        Some(s[at].backend)
    } else {
        None
    }
}

/// The routes that a list of `(name, backend)` pairs asks for, in its order.
pub open spec fn as_routes<B>(pairs: Seq<(String, B)>) -> Seq<FastRoute<B>> {
    Seq::new(pairs.len(), |i: int| FastRoute { name: pairs[i].0, backend: pairs[i].1 })
}

pub proof fn lemma_position_bounds<B>(s: Seq<FastRoute<B>>, name: Seq<u8>)
    ensures
        0 <= position(s, name) <= s.len(),
        position(s, name) < s.len() ==> s[position(s, name)].name_bytes() == name,
        forall|i: int| 0 <= i < position(s, name) ==> #[trigger] s[i].name_bytes() != name,
    decreases s.len(),
{
    if s.len() > 0 && s[0].name_bytes() != name {
        let t = s.drop_first();
        lemma_position_bounds(t, name);
        assert forall|i: int| 0 <= i < position(s, name) implies #[trigger] s[i].name_bytes()
            != name by {
            if i > 0 {
                assert(s[i] == t[i - 1]);
            }
        }
    }
}

pub proof fn lemma_position_unique<B>(s: Seq<FastRoute<B>>, name: Seq<u8>, at: int)
    requires
        0 <= at <= s.len(),
        at < s.len() ==> s[at].name_bytes() == name,
        forall|i: int| 0 <= i < at ==> #[trigger] s[i].name_bytes() != name,
    ensures
        position(s, name) == at,
    decreases s.len(),
{
    if s.len() > 0 && s[0].name_bytes() != name {
        let t = s.drop_first();
        assert forall|i: int| 0 <= i < at - 1 implies #[trigger] t[i].name_bytes() != name by {
            assert(t[i] == s[i + 1]);
        }
        lemma_position_unique(t, name, at - 1);
    }
}

/// An immutable routing table: the routes in key order and, for every
/// leading byte, the run of routes whose name begins with it.
#[derive(Debug)]
pub struct FastRoutes<B> {
    routes: Vec<FastRoute<B>>,
    first_byte_index: [usize; 256],
    first_byte_len: [usize; 256],
}

impl<B> FastRoutes<B> {
    /// Every leading byte is indexed by exactly the run of routes that begin
    /// with it.
    #[verifier::type_invariant]
    spec fn well_formed(self) -> bool {
        &&& keys_sorted(self.routes@)
        &&& forall|b: int|
            0 <= b < 256 ==> (#[trigger] self.first_byte_index@[b]) + self.first_byte_len@[b]
                <= self.routes@.len()
        &&& forall|b: int, i: int|
            0 <= b < 256 && 0 <= i < self.routes@.len() ==> ((#[trigger] self.routes@[i].key()).0 == b
                <==> (#[trigger] self.first_byte_index@[b]) <= i < self.first_byte_index@[b]
                + self.first_byte_len@[b])
    }

    /// The routes of the table, in table order.
    pub closed spec fn view(&self) -> Seq<FastRoute<B>> {
        self.routes@
    }

    /// Builds the table of `routes`: they are ordered by the first byte of the
    /// name, then by the length of the name, routes that tie keeping the order
    /// in which they were given.
    pub fn new(routes: Vec<(String, B)>) -> (table: Self)
        ensures
            stable_sorted(table@, as_routes(routes@)),
    {
        let ghost pairs = routes@;
        let mut pending = routes;
        let mut rev: Vec<FastRoute<B>> = Vec::new();
        while pending.len() > 0
            invariant
                pending@.len() + rev@.len() == pairs.len(),
                pending@ == pairs.take(pending@.len() as int),
                forall|i: int|
                    0 <= i < rev@.len() ==> #[trigger] rev@[i] == as_routes(pairs)[pairs.len() - 1
                        - i],
            decreases pending@.len(),
        {
            let (name, backend) = pending.pop().unwrap();
            rev.push(FastRoute { name, backend });
        }
        let mut routes_vec: Vec<FastRoute<B>> = Vec::new();
        while rev.len() > 0
            invariant
                rev@.len() + routes_vec@.len() == pairs.len(),
                forall|i: int|
                    0 <= i < rev@.len() ==> #[trigger] rev@[i] == as_routes(pairs)[pairs.len() - 1
                        - i],
                forall|i: int|
                    0 <= i < routes_vec@.len() ==> #[trigger] routes_vec@[i] == as_routes(pairs)[i],
            decreases rev@.len(),
        {
            let r = rev.pop().unwrap();
            routes_vec.push(r);
        }
        proof {
            assert(routes_vec@ =~= as_routes(pairs));
        }
        let sorted = merge_sort(routes_vec);

        let mut first_byte_index: [usize; 256] = [0usize; 256];
        let mut first_byte_len: [usize; 256] = [0usize; 256];
        let n: usize = sorted.len();
        let mut i: usize = 0;
        while i < n
            invariant
                n == sorted@.len(),
                i <= n,
                keys_sorted(sorted@),
                forall|b: int|
                    0 <= b < 256 ==> (#[trigger] first_byte_index@[b]) + first_byte_len@[b] <= i,
                forall|b: int, j: int|
                    0 <= b < 256 && 0 <= j < i ==> ((#[trigger] sorted@[j].key()).0 == b <==> (
                    #[trigger] first_byte_index@[b]) <= j < first_byte_index@[b]
                        + first_byte_len@[b]),
                forall|j: int, m: int|
                    0 <= j < i && i <= m < n ==> (#[trigger] sorted@[j].key()).0 < (
                    #[trigger] sorted@[m].key()).0,
            decreases n - i,
        {
            let byte: u8 = sorted[i].sort_key().0;
            let start: usize = i;
            let ghost index0 = first_byte_index@;
            let ghost len0 = first_byte_len@;
            while i < n && sorted[i].sort_key().0 == byte
                invariant
                    n == sorted@.len(),
                    start <= i <= n,
                    forall|j: int| start <= j < i ==> (#[trigger] sorted@[j].key()).0 == byte,
                decreases n - i,
            {
                i += 1;
            }
            first_byte_index[byte as usize] = start;
            first_byte_len[byte as usize] = i - start;
            proof {
                assert(first_byte_index@ == index0.update(byte as int, start));
                assert(first_byte_len@ == len0.update(byte as int, (i - start) as usize));
                assert(i > start);
                assert forall|j: int, m: int| 0 <= j < i && i <= m < n implies (
                #[trigger] sorted@[j].key()).0 < (#[trigger] sorted@[m].key()).0 by {
                    if j >= start {
                        assert(key_le(sorted@[i as int].key(), sorted@[m].key()));
                        assert(key_le(sorted@[j].key(), sorted@[i as int].key()));
                    } else {
                        assert((sorted@[j].key()).0 < (sorted@[start as int].key()).0);
                        assert(key_le(sorted@[start as int].key(), sorted@[m].key()));
                    }
                }
                assert forall|b: int, j: int| 0 <= b < 256 && 0 <= j < i implies ((
                #[trigger] sorted@[j].key()).0 == b <==> (#[trigger] first_byte_index@[b]) <= j
                    < first_byte_index@[b] + first_byte_len@[b]) by {
                    if b == byte {
                        if j < start {
                            assert((sorted@[j].key()).0 < (sorted@[start as int].key()).0);
                        }
                    } else {
                        assert(index0[b] + len0[b] <= start);
                        if j >= start {
                            assert((sorted@[j].key()).0 == byte);
                        }
                    }
                }
            }
        }
        FastRoutes { routes: sorted, first_byte_index, first_byte_len }
    }

    /// The run of the routes whose key begins with `first`, that is whose
    /// name begins with that byte (the empty name counts as beginning with
    /// 0): the offset of the first route of the run, and its length.
    pub fn bucket(&self, first: u8) -> (run: (usize, usize))
        ensures
            run.0 + run.1 <= self@.len() <= usize::MAX,
            forall|i: int|
                0 <= i < self@.len() ==> ((#[trigger] self@[i].key()).0 == first <==> run.0 <= i
                    < run.0 + run.1),
    {
        proof {
            use_type_invariant(self);
            assert(self.routes.len() == self.routes@.len());
        }
        let start: usize = self.first_byte_index[first as usize];
        let len: usize = self.first_byte_len[first as usize];
        assert(start == self.first_byte_index@[first as int] && len == self.first_byte_len@[first as int]);
        (start, len)
    }

    /// Finds the backend registered under `name`: of several routes with that
    /// name, the first of the table.  Only the routes that begin with the
    /// first byte of `name` are compared.
    pub fn lookup(&self, name: &str) -> (found: Option<&B>)
        ensures
            match found {
                Some(backend) => first_named(self@, name.spec_bytes()) == Some(*backend),
                None => first_named(self@, name.spec_bytes()) is None,
            },
    {
        let bytes = name.as_bytes();
        let first: u8 = if bytes.len() > 0 {
            bytes[0]
        } else {
            0
        };
        let (start, len) = self.bucket(first);
        let end: usize = start + len;
        let mut i: usize = start;
        while i < end
            invariant
                end == start + len,
                start <= i <= end <= self@.len(),
                self@ == self.routes@,
                first == route_key(name.spec_bytes()).0,
                forall|j: int|
                    0 <= j < self@.len() ==> ((#[trigger] self@[j].key()).0 == first <==> start <= j
                        < start + len),
                forall|j: int| start <= j < i ==> #[trigger] self@[j].name_bytes() != name.spec_bytes(),
            decreases end - i,
        {
            let r = &self.routes[i];
            if str_equal(r.name.as_str(), name) {
                proof {
                    assert forall|j: int| 0 <= j < i implies #[trigger] self@[j].name_bytes()
                        != name.spec_bytes() by {
                        if j < start {
                            assert((self@[j].key()).0 != first);
                        }
                    }
                    lemma_position_unique(self@, name.spec_bytes(), i as int);
                }
                return Some(&r.backend);
            }
            i += 1;
        }
        proof {
            lemma_position_bounds(self@, name.spec_bytes());
            let at = position(self@, name.spec_bytes());
            if at < self@.len() {
                assert((self@[at].key()).0 == first);
            }
        }
        None
    }

    /// The number of routes.
    pub fn len(&self) -> (n: usize)
        ensures
            n == self@.len(),
    {
        self.routes.len()
    }

    /// The routes, in table order.
    pub fn routes(&self) -> (routes: &Vec<FastRoute<B>>)
        ensures
            routes@ == self@,
    {
        &self.routes
    }
}

proof fn lemma_with_key_keeps_unnamed<B>(s: Seq<FastRoute<B>>, k: (int, int), name: Seq<u8>)
    requires
        forall|i: int| 0 <= i < s.len() ==> #[trigger] s[i].name_bytes() != name,
    ensures
        forall|i: int|
            0 <= i < with_key(s, k).len() ==> #[trigger] with_key(s, k)[i].name_bytes() != name,
    decreases s.len(),
{
    if s.len() > 0 {
        let t = s.drop_last();
        assert forall|i: int| 0 <= i < t.len() implies #[trigger] t[i].name_bytes() != name by {
            assert(t[i] == s[i]);
        }
        lemma_with_key_keeps_unnamed(t, k, name);
        let picked = with_key(s, k);
        assert forall|i: int| 0 <= i < picked.len() implies #[trigger] picked[i].name_bytes()
            != name by {
            if i < with_key(t, k).len() {
                assert(picked[i] == with_key(t, k)[i]);
            } else {
                assert(picked[i] == s[s.len() - 1]);
            }
        }
    }
}

proof fn lemma_first_named_by_key<B>(s: Seq<FastRoute<B>>, name: Seq<u8>)
    ensures
        first_named(with_key(s, route_key(name)), name) == first_named(s, name),
{
    let k = route_key(name);
    let at = position(s, name);
    lemma_position_bounds(s, name);
    if at < s.len() {
        let before = s.take(at);
        let after = s.skip(at + 1);
        assert(s =~= before + seq![s[at]] + after);
        lemma_with_key_concat(before + seq![s[at]], after, k);
        lemma_with_key_concat(before, seq![s[at]], k);
        lemma_with_key_single(s[at], k);
        assert forall|i: int| 0 <= i < before.len() implies #[trigger] before[i].name_bytes()
            != name by {
            assert(before[i] == s[i]);
        }
        lemma_with_key_keeps_unnamed(before, k, name);
        let kept = with_key(before, k);
        let picked = with_key(s, k);
        assert(picked == kept + seq![s[at]] + with_key(after, k));
        assert(picked[kept.len() as int] == s[at]);
        assert forall|i: int| 0 <= i < kept.len() implies #[trigger] picked[i].name_bytes()
            != name by {
            assert(picked[i] == kept[i]);
        }
        lemma_position_unique(picked, name, kept.len() as int);
    } else {
        lemma_with_key_keeps_unnamed(s, k, name);
        lemma_position_unique(with_key(s, k), name, with_key(s, k).len() as int);
    }
}

/// Lookup correctness.  A table built from a list of routes answers for every
/// name as the list does: with the backend of the first route that the list
/// gives under exactly that name, and with nothing when the list gives none
/// (so always with nothing when the list is empty).
pub proof fn lookup_returns_registered_backend<B>(
    given: Seq<FastRoute<B>>,
    table: Seq<FastRoute<B>>,
    name: Seq<u8>,
)
    requires
        stable_sorted(table, given),
    ensures
        first_named(table, name) == first_named(given, name),
        given.len() == 0 ==> first_named(table, name) is None,
{
    lemma_first_named_by_key(table, name);
    lemma_first_named_by_key(given, name);
    assert(with_key(table, route_key(name)) == with_key(given, route_key(name)));
}

} // verus!
