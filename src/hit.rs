//! Choosing which surface a ray meets first.
//!
//! Ray parameters are handled as order keys: unsigned integers whose order is
//! the total order of the IEEE-754 values they stand for (see `key_of_bits`).
//! The selection below only ever compares parameters, so it is exact on keys.

use vstd::prelude::*;

verus! {

pub const SIGN_BIT: u64 = 0x8000_0000_0000_0000;

/// The order key of a double given by its bit pattern: negative values have
/// all their bits flipped, the others get the sign bit set.
pub open spec fn order_key(bits: u64) -> u64 {
    if bits & SIGN_BIT != 0 {
        !bits
    } else {
        bits | SIGN_BIT
    }
}

/// The bit pattern that an order key stands for.
pub open spec fn key_bits(key: u64) -> u64 {
    if key & SIGN_BIT != 0 {
        key & !SIGN_BIT
    } else {
        !key
    }
}

/// The order key of the double with bit pattern `bits`.
pub fn key_of_bits(bits: u64) -> (r: u64)
    ensures
        r == order_key(bits),
{
    if bits & SIGN_BIT != 0 {
        !bits
    } else {
        bits | SIGN_BIT
    }
}

/// The bit pattern of the double that `key` stands for.
pub fn bits_of_key(key: u64) -> (r: u64)
    ensures
        r == key_bits(key),
{
    if key & SIGN_BIT != 0 {
        key & !SIGN_BIT
    } else {
        !key
    }
}

/// Converting a bit pattern to its key and back gives the pattern again, and
/// converting a key to its pattern and back gives the key again.
pub proof fn lemma_order_key_round_trip(bits: u64, key: u64)
    ensures
        key_bits(order_key(bits)) == bits,
        order_key(key_bits(key)) == key,
{
    assert(bits & SIGN_BIT != 0 ==> (!bits) & SIGN_BIT == 0) by (bit_vector);
    assert(bits & SIGN_BIT != 0 ==> !(!bits) == bits) by (bit_vector);
    assert(bits & SIGN_BIT == 0 ==> (bits | SIGN_BIT) & SIGN_BIT != 0) by (bit_vector);
    assert(bits & SIGN_BIT == 0 ==> (bits | SIGN_BIT) & !SIGN_BIT == bits) by (bit_vector);
    assert(key & SIGN_BIT != 0 ==> (key & !SIGN_BIT) & SIGN_BIT == 0) by (bit_vector);
    assert(key & SIGN_BIT != 0 ==> (key & !SIGN_BIT) | SIGN_BIT == key) by (bit_vector);
    assert(key & SIGN_BIT == 0 ==> (!key) & SIGN_BIT != 0) by (bit_vector);
    assert(key & SIGN_BIT == 0 ==> !(!key) == key) by (bit_vector);
}

/// The two roots of a ray–surface intersection, as order keys, smaller first.
#[derive(Clone, Copy, Debug, PartialEq, Eq, Structural)]
pub struct Roots {
    pub near: u64,
    pub far: u64,
}

impl Roots {
    pub open spec fn wf(&self) -> bool {
        self.near <= self.far
    }
}

/// Every object's roots, where it has any, are in order.
pub open spec fn all_wf(objects: Seq<Option<Roots>>) -> bool {
    forall|j: int| 0 <= j < objects.len() && (#[trigger] objects[j]) is Some ==> objects[j]->0.wf()
}

/// The root that an object offers inside the open interval `(lo, hi)`: the
/// near root if it lies there, else the far root if it lies there.
pub open spec fn accepted(roots: Option<Roots>, lo: u64, hi: u64) -> Option<u64> {
    match roots {
        None => None,
        Some(x) => if lo < x.near && x.near < hi {
            Some(x.near)
        } else if lo < x.far && x.far < hi {
            Some(x.far)
        } else {
            None
        },
    }
}

/// The root of `roots` that lies in `(t_min, t_max)`, the near one first.
pub fn accept_root(roots: Option<Roots>, t_min: u64, t_max: u64) -> (r: Option<u64>)
    ensures
        r == accepted(roots, t_min, t_max),
{
    match roots {
        None => None,
        Some(x) => {
            if t_min < x.near && x.near < t_max {
                Some(x.near)
            } else if t_min < x.far && x.far < t_max {
                Some(x.far)
            } else {
                None
            }
        },
    }
}

/// Of ordered roots, the accepted one is the smallest root in the interval.
pub proof fn lemma_accepted_is_smallest(roots: Roots, lo: u64, hi: u64)
    requires
        roots.wf(),
    ensures
        accepted(Some(roots), lo, hi) is Some <==> (lo < roots.near < hi || lo < roots.far < hi),
        accepted(Some(roots), lo, hi) is Some ==> {
            let t = accepted(Some(roots), lo, hi)->0;
            &&& lo < t < hi
            &&& (t == roots.near || t == roots.far)
            &&& (lo < roots.near < hi ==> t <= roots.near)
            &&& (lo < roots.far < hi ==> t <= roots.far)
        },
{
}

/// Narrowing the upper bound from `hi` to `c` keeps a root that lies below
/// `c`, and loses only roots at or above `c`.
proof fn lemma_accepted_narrowed(roots: Option<Roots>, lo: u64, c: u64, hi: u64)
    requires
        roots is Some ==> roots->0.wf(),
        c <= hi,
    ensures
        accepted(roots, lo, c) is Some ==> accepted(roots, lo, hi) == accepted(roots, lo, c),
        accepted(roots, lo, c) is None && accepted(roots, lo, hi) is Some ==> accepted(
            roots,
            lo,
            hi,
        )->0 >= c,
{
}

/// `r` is the nearest hit among `objects` in `(lo, hi)`: the object's index
/// and its accepted root, the smallest accepted root of all, and of equal
/// roots the one of the first object.  `None` exactly when no object has a
/// root there.
pub open spec fn is_nearest(
    objects: Seq<Option<Roots>>,
    lo: u64,
    hi: u64,
    r: Option<(usize, u64)>,
) -> bool {
    &&& r is None <==> (forall|j: int| 0 <= j < objects.len() ==> (#[trigger] accepted(objects[j], lo, hi)) is None)
    &&& r is Some ==> {
        let (i, t) = r->0;
        &&& i < objects.len()
        &&& accepted(objects[i as int], lo, hi) == Some(t)
        &&& forall|j: int| 0 <= j < objects.len() && (#[trigger] accepted(objects[j], lo, hi)) is Some ==> t <= accepted(objects[j], lo, hi)->0
        &&& forall|j: int| 0 <= j < i && (#[trigger] accepted(objects[j], lo, hi)) is Some ==> t < accepted(objects[j], lo, hi)->0
    }
}

/// Finds the nearest hit among `objects` in `(t_min, t_max)`: a linear scan
/// that narrows the upper bound to the best root found so far.
pub fn nearest_hit(objects: &Vec<Option<Roots>>, t_min: u64, t_max: u64) -> (r: Option<(usize, u64)>)
    requires
        all_wf(objects@),
    ensures
        is_nearest(objects@, t_min, t_max, r),
{
    let mut best: Option<(usize, u64)> = None;
    let mut closest: u64 = t_max;
    let mut k: usize = 0;
    while k < objects.len()
        invariant
            k <= objects@.len(),
            all_wf(objects@),
            is_nearest(objects@.subrange(0, k as int), t_min, t_max, best),
            closest == match best {
                Some((_, t)) => t,
                None => t_max,
            },
            closest <= t_max,
        decreases objects@.len() - k,
    {
        let o = objects[k];
        proof {
            lemma_accepted_narrowed(o, t_min, closest, t_max);
        }
        let prefix = Ghost(objects@.subrange(0, k as int));
        let next = Ghost(objects@.subrange(0, k + 1));
        assert forall|j: int| 0 <= j < k implies next@[j] == prefix@[j] by {}
        assert(next@[k as int] == o);
        match accept_root(o, t_min, closest) {
            Some(t) => {
                best = Some((k, t));
                closest = t;
            },
            None => {},
        }
        k = k + 1;
        assert(is_nearest(next@, t_min, t_max, best)) by {
            if best is Some {
                let (i, t) = best->0;
                assert forall|j: int| 0 <= j < next@.len() && (#[trigger] accepted(next@[j], t_min, t_max)) is Some implies t <= accepted(next@[j], t_min, t_max)->0 by {
                    if j < k - 1 {
                        assert(next@[j] == prefix@[j]);
                        assert(accepted(prefix@[j], t_min, t_max) is Some);
                    }
                }
                assert forall|j: int| 0 <= j < i && (#[trigger] accepted(next@[j], t_min, t_max)) is Some implies t < accepted(next@[j], t_min, t_max)->0 by {
                    assert(next@[j] == prefix@[j]);
                    assert(accepted(prefix@[j], t_min, t_max) is Some);
                }
            } else {
                assert forall|j: int| 0 <= j < next@.len() implies (#[trigger] accepted(next@[j], t_min, t_max)) is None by {
                    if j < k - 1 {
                        assert(next@[j] == prefix@[j]);
                        assert(accepted(prefix@[j], t_min, t_max) is None);
                    }
                }
            }
        }
    }
    assert(objects@.subrange(0, k as int) =~= objects@);
    best
}

/// The nearest hit does not depend on the order of the objects: two lists that
/// hold the same objects, in any order, give the same root, or both no hit.
pub proof fn lemma_nearest_ignores_order(
    a: Seq<Option<Roots>>,
    b: Seq<Option<Roots>>,
    lo: u64,
    hi: u64,
    ra: Option<(usize, u64)>,
    rb: Option<(usize, u64)>,
)
    requires
        forall|j: int| 0 <= j < a.len() ==> b.contains(#[trigger] a[j]),
        forall|j: int| 0 <= j < b.len() ==> a.contains(#[trigger] b[j]),
        is_nearest(a, lo, hi, ra),
        is_nearest(b, lo, hi, rb),
    ensures
        ra is None <==> rb is None,
        ra is Some ==> (ra->0).1 == (rb->0).1,
{
    if ra is Some {
        let (i, t) = ra->0;
        assert(b.contains(a[i as int]));
        let k = choose|k: int| 0 <= k < b.len() && b[k] == a[i as int];
        assert(accepted(b[k], lo, hi) is Some);
        assert(rb is Some);
        let (m, u) = rb->0;
        assert(a.contains(b[m as int]));
        let n = choose|n: int| 0 <= n < a.len() && a[n] == b[m as int];
        assert(accepted(a[n], lo, hi) is Some);
    }
    if rb is Some {
        let (m, u) = rb->0;
        assert(a.contains(b[m as int]));
        let n = choose|n: int| 0 <= n < a.len() && a[n] == b[m as int];
        assert(accepted(a[n], lo, hi) is Some);
    }
}

} // verus!
