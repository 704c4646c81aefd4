//! Bounded, canonically ordered contact patches.
use vstd::prelude::*;

use crate::collide::{contact, spec_contact};
use crate::convex::{poly_points, spec_poly_points};
use crate::physics::{PoseMm, QuantizedContact};
use crate::query::{bounds, spec_bounds};
use crate::shape::{GeomError, Shape};
use crate::space::{AabbMm, IVec3};

verus! {

/// Bounded, deterministically ordered contact patch.
#[derive(Copy, Clone, PartialEq, Eq, Hash, Debug)]
pub struct ContactManifold {
    /// Fixed point storage; only the first `len` entries participate.
    pub points: [QuantizedContact; 4],
    /// Number of live points.
    pub len: u8,
}

/// The all-zero contact.
pub open spec fn zero_contact() -> QuantizedContact {
    QuantizedContact { point: IVec3 { x: 0, y: 0, z: 0 }, normal: (0, 0, 0), depth_mm: 0, feature: 0 }
}

fn zero_contact_exec() -> (r: QuantizedContact)
    ensures
        r == zero_contact(),
{
    QuantizedContact { point: IVec3::zero(), normal: (0, 0, 0), depth_mm: 0, feature: 0 }
}

impl Default for ContactManifold {
    fn default() -> (r: Self)
        ensures
            r.len == 0,
            forall|i: int| 0 <= i < 4 ==> #[trigger] r.points@[i] == zero_contact(),
    {
        let z = zero_contact_exec();
        ContactManifold { points: [z, z, z, z], len: 0 }
    }
}

impl ContactManifold {
    /// Live contact points in canonical point order.
    pub fn as_slice(&self) -> (r: &[QuantizedContact])
        requires
            self.len <= 4,
        ensures
            r@ == self.points@.take(self.len as int),
    {
        vstd::slice::slice_subrange(vstd::array::array_as_slice(&self.points), 0, self.len as usize)
    }
}

/// Lexicographic `(x, y, z)` order.
pub open spec fn pt_lt(p: IVec3, q: IVec3) -> bool {
    p.x < q.x || (p.x == q.x && (p.y < q.y || (p.y == q.y && p.z < q.z)))
}

/// Strictly increasing in `(x, y, z)` order.
pub open spec fn strictly_sorted(s: Seq<IVec3>) -> bool {
    forall|i: int, j: int| 0 <= i < j < s.len() ==> pt_lt(#[trigger] s[i], #[trigger] s[j])
}

/// `s` holds exactly the points of `c`.
pub open spec fn same_points(s: Seq<IVec3>, c: Seq<IVec3>) -> bool {
    forall|p: IVec3| s.contains(p) <==> c.contains(p)
}

/// Membership in the closed box `b`.
pub open spec fn in_box(b: AabbMm) -> spec_fn(IVec3) -> bool {
    |p: IVec3| b.spec_contains(p)
}

/// Points of `pts` inside `b`, in order.
pub open spec fn inside(pts: Seq<IVec3>, b: AabbMm) -> Seq<IVec3> {
    pts.filter(in_box(b))
}

/// Candidate patch points: each polyhedral operand's points inside the
/// other's bounds (`a` first), then the primary contact point.
pub open spec fn manifold_candidates(a: Shape, pa: PoseMm, b: Shape, pb: PoseMm, primary: IVec3) -> Result<Seq<IVec3>, GeomError> {
    let first: Result<Seq<IVec3>, GeomError> = match spec_poly_points(a, pa) {
        Err(_) => Ok(Seq::<IVec3>::empty()),
        Ok(pts) => match spec_bounds(b, pb) {
            Err(e) => Err(e),
            Ok(bb) => Ok(inside(pts, bb)),
        },
    };
    match first {
        Err(e) => Err(e),
        Ok(c1) => match spec_poly_points(b, pb) {
            Err(_) => Ok(c1.push(primary)),
            Ok(pts) => match spec_bounds(a, pa) {
                Err(e) => Err(e),
                Ok(ba) => Ok((c1 + inside(pts, ba)).push(primary)),
            },
        },
    }
}

/// Patch from candidate points: the primary contact at each of the first four
/// distinct candidates in `(x, y, z)` order, feature offset by the index.
pub open spec fn patch_of(m: ContactManifold, primary: QuantizedContact, c: Seq<IVec3>) -> bool {
    exists|s: Seq<IVec3>|
        #![trigger strictly_sorted(s)]
        strictly_sorted(s) && same_points(s, c) && m.len == if s.len() < 4 {
            s.len()
        } else {
            4
        } && (forall|i: int|
            0 <= i < m.len ==> #[trigger] m.points@[i] == (QuantizedContact {
                point: s[i],
                feature: if primary.feature + i > u16::MAX {
                    u16::MAX
                } else {
                    (primary.feature + i) as u16
                },
                ..primary
            })) && (forall|i: int| m.len <= i < 4 ==> #[trigger] m.points@[i] == zero_contact())
}

fn pt_lt_exec(p: IVec3, q: IVec3) -> (r: bool)
    ensures
        r == pt_lt(p, q),
{
    p.x < q.x || (p.x == q.x && (p.y < q.y || (p.y == q.y && p.z < q.z)))
}

/// Insert `x` into a strictly sorted vector unless present.
fn insert_sorted(v: &mut Vec<IVec3>, x: IVec3)
    requires
        strictly_sorted(old(v)@),
    ensures
        strictly_sorted(final(v)@),
        forall|p: IVec3| final(v)@.contains(p) <==> (old(v)@.contains(p) || p == x),
{
    let mut pos: usize = 0;
    while pos < v.len() && pt_lt_exec(v[pos], x)
        invariant
            0 <= pos <= v@.len(),
            v@ == old(v)@,
            strictly_sorted(v@),
            forall|i: int| 0 <= i < pos ==> pt_lt(#[trigger] v@[i], x),
        decreases v@.len() - pos,
    {
        pos = pos + 1;
    }
    if pos < v.len() && v[pos] == x {
        return;
    }
    proof {
        if pos < v@.len() {
            assert(pt_lt(x, v@[pos as int]));
            assert forall|j: int| pos <= j < v@.len() implies pt_lt(x, #[trigger] v@[j]) by {
                if j > pos {
                    assert(pt_lt(v@[pos as int], v@[j]));
                }
            }
        }
    }
    let ghost before = v@;
    v.insert(pos, x);
    proof {
        before.insert_ensures(pos as int, x);
        assert forall|i: int, j: int| 0 <= i < j < v@.len() implies pt_lt(#[trigger] v@[i], #[trigger] v@[j]) by {
            if i < pos && j < pos {
            } else if i < pos && j == pos {
            } else if i < pos {
                assert(pt_lt(before[i], before[j - 1]));
            } else if i == pos {
            } else {
                assert(pt_lt(before[i - 1], before[j - 1]));
            }
        }
        assert forall|p: IVec3| v@.contains(p) <==> (before.contains(p) || p == x) by {
            if v@.contains(p) {
                let k = choose|k: int| 0 <= k < v@.len() && #[trigger] v@[k] == p;
                if k < pos {
                    assert(before[k] == p);
                } else if k > pos {
                    assert(before[k - 1] == p);
                }
            }
            if before.contains(p) {
                let k = choose|k: int| 0 <= k < before.len() && #[trigger] before[k] == p;
                if k < pos {
                    assert(v@[k] == p);
                } else {
                    assert(v@[k + 1] == p);
                }
            }
            if p == x {
                assert(v@[pos as int] == x);
            }
        }
    }
}

/// Sorted distinct points of a vector.
fn sort_dedup(c: &Vec<IVec3>) -> (r: Vec<IVec3>)
    ensures
        strictly_sorted(r@),
        same_points(r@, c@),
{
    let mut out: Vec<IVec3> = Vec::new();
    let mut k: usize = 0;
    while k < c.len()
        invariant
            0 <= k <= c@.len(),
            strictly_sorted(out@),
            forall|p: IVec3| out@.contains(p) <==> c@.take(k as int).contains(p),
        decreases c@.len() - k,
    {
        let ghost before = out@;
        insert_sorted(&mut out, c[k]);
        proof {
            assert forall|p: IVec3| out@.contains(p) <==> c@.take(k as int + 1).contains(p) by {
                if c@.take(k as int + 1).contains(p) {
                    let j = choose|j: int| 0 <= j < k + 1 && #[trigger] c@.take(k as int + 1)[j] == p;
                    if j < k {
                        assert(c@.take(k as int)[j] == p);
                    }
                }
                if c@.take(k as int).contains(p) {
                    let j = choose|j: int| 0 <= j < k && #[trigger] c@.take(k as int)[j] == p;
                    assert(c@.take(k as int + 1)[j] == p);
                }
                if p == c@[k as int] {
                    assert(c@.take(k as int + 1)[k as int] == p);
                }
            }
        }
        k = k + 1;
    }
    assert(c@.take(c@.len() as int) =~= c@);
    out
}

/// Append the points of `pts` inside `b`, in order.
fn push_inside(cands: &mut Vec<IVec3>, pts: &Vec<IVec3>, b: AabbMm)
    ensures
        final(cands)@ == old(cands)@ + inside(pts@, b),
{
    let ghost start = cands@;
    let mut k: usize = 0;
    while k < pts.len()
        invariant
            0 <= k <= pts@.len(),
            cands@ == start + inside(pts@.take(k as int), b),
        decreases pts@.len() - k,
    {
        assert(pts@.take(k as int + 1).drop_last() =~= pts@.take(k as int));
        let p = pts[k];
        if b.contains_point(p) {
            cands.push(p);
        }
        proof {
            reveal(Seq::filter);
            let t = pts@.take(k as int + 1);
            assert(t.last() == p);
            assert(t.len() > 0);
            assert(t.filter(in_box(b)) == if in_box(b)(t.last()) {
                t.drop_last().filter(in_box(b)).push(t.last())
            } else {
                t.drop_last().filter(in_box(b))
            });
        }
        k = k + 1;
    }
    assert(pts@.take(pts@.len() as int) =~= pts@);
}

/// What [`manifold`] yields: nothing when separated; otherwise the patch of
/// the candidate points around the primary contact.
pub open spec fn manifold_as(a: Shape, pa: PoseMm, b: Shape, pb: PoseMm, r: Result<Option<ContactManifold>, GeomError>) -> bool {
    match spec_contact(a, pa, b, pb) {
        Err(e) => r == Err::<Option<ContactManifold>, GeomError>(e),
        Ok(None) => r == Ok::<Option<ContactManifold>, GeomError>(None),
        Ok(Some(primary)) => match manifold_candidates(a, pa, b, pb, primary.point) {
            Err(e) => r == Err::<Option<ContactManifold>, GeomError>(e),
            Ok(c) => r matches Ok(Some(m)) && patch_of(m, primary, c),
        },
    }
}

/// Stable contact patch with at most four quantized points, ordered by
/// `(x, y, z)`.
pub fn manifold(a: Shape, pose_a: PoseMm, b: Shape, pose_b: PoseMm) -> (r: Result<Option<ContactManifold>, GeomError>)
    requires
        a.spec_well_formed(),
        b.spec_well_formed(),
    ensures
        manifold_as(a, pose_a, b, pose_b, r),
{
    let primary = match contact(a, pose_a, b, pose_b) {
        Err(e) => return Err(e),
        Ok(None) => return Ok(None),
        Ok(Some(p)) => p,
    };
    let mut cands: Vec<IVec3> = Vec::new();
    match poly_points(a, pose_a) {
        Ok(pts) => {
            let bb = match bounds(b, pose_b) {
                Err(e) => return Err(e),
                Ok(x) => x,
            };
            push_inside(&mut cands, &pts, bb);
        },
        Err(_) => {},
    }
    let ghost c1 = cands@;
    match poly_points(b, pose_b) {
        Ok(pts) => {
            let ba = match bounds(a, pose_a) {
                Err(e) => return Err(e),
                Ok(x) => x,
            };
            push_inside(&mut cands, &pts, ba);
        },
        Err(_) => {},
    }
    cands.push(primary.point);
    assert(manifold_candidates(a, pose_a, b, pose_b, primary.point) == Ok::<Seq<IVec3>, GeomError>(
        cands@,
    ));
    let s = sort_dedup(&cands);
    let mut out = ContactManifold::default();
    let n: usize = if s.len() < 4 {
        s.len()
    } else {
        4
    };
    let mut i: usize = 0;
    while i < n
        invariant
            0 <= i <= n,
            n <= 4,
            n <= s@.len(),
            out.len == i,
            forall|j: int|
                0 <= j < i ==> #[trigger] out.points@[j] == (QuantizedContact {
                    point: s@[j],
                    feature: if primary.feature + j > u16::MAX {
                        u16::MAX
                    } else {
                        (primary.feature + j) as u16
                    },
                    ..primary
                }),
            forall|j: int| i <= j < 4 ==> #[trigger] out.points@[j] == zero_contact(),
        decreases n - i,
    {
        let f = (primary.feature as u32) + (i as u32);
        let feature: u16 = if f > u16::MAX as u32 {
            u16::MAX
        } else {
            f as u16
        };
        out.points[i] = QuantizedContact { point: s[i], feature, ..primary };
        out.len = out.len + 1;
        i = i + 1;
    }
    assert(strictly_sorted(s@));
    Ok(Some(out))
}

} // verus!
