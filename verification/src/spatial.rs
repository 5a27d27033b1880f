//! A uniform 2D hash grid over a bounded world extent: agents are
//! bucketed by position so that neighbors within a radius are found by
//! scanning only the buckets the disc can touch.

use vstd::prelude::*;
use std::collections::HashMap;
use crate::geometry::{clamp, clamp_spec, dist_sq, Vec2f, COORD_LIMIT};
use crate::occupancy::{cell_coord, floor_div_coord, RESOLUTION_LIMIT};

verus! {

broadcast use vstd::std_specs::hash::group_hash_axioms;

/// Remove one occurrence of `id` from a duplicate-free vector.
fn remove_id(v: &mut Vec<u64>, id: u64)
    requires
        old(v)@.contains(id),
        forall|i: int, j: int|
            0 <= i < j < old(v)@.len() ==> old(v)@[i] != old(v)@[j],
    ensures
        !final(v)@.contains(id),
        forall|x: u64| x != id ==> final(v)@.contains(x) == old(v)@.contains(x),
        forall|i: int, j: int|
            0 <= i < j < final(v)@.len() ==> final(v)@[i] != final(v)@[j],
        forall|i: int| 0 <= i < final(v)@.len() ==> old(v)@.contains(#[trigger] final(v)@[i]),
{
    let ghost v0 = v@;
    let mut idx: usize = 0;
    while idx < v.len() && v[idx] != id
        invariant
            v@ == v0,
            0 <= idx <= v0.len(),
            forall|j: int| 0 <= j < idx ==> v0[j] != id,
            v0.contains(id),
        decreases v0.len() - idx,
    {
        idx += 1;
    }
    proof {
        if idx >= v0.len() {
            let w = choose|w: int| 0 <= w < v0.len() && v0[w] == id;
            assert(false);
        }
    }
    v.remove(idx);
    proof {
        let vn = v@;
        assert forall|x: u64| x != id implies vn.contains(x) == v0.contains(x) by {
            if v0.contains(x) {
                let w = choose|w: int| 0 <= w < v0.len() && v0[w] == x;
                if w < idx {
                    assert(vn[w] == x);
                } else {
                    assert(vn[w - 1] == x);
                }
            } else {
                if vn.contains(x) {
                    let w = choose|w: int| 0 <= w < vn.len() && vn[w] == x;
                    if w < idx {
                        assert(v0[w] == x);
                    } else {
                        assert(v0[w + 1] == x);
                    }
                }
            }
        }
        if vn.contains(id) {
            let w = choose|w: int| 0 <= w < vn.len() && vn[w] == id;
            if w < idx {
                assert(v0[w] == id);
            } else {
                assert(v0[w + 1] == id);
            }
            assert(false);
        }
        assert forall|i: int, j: int| 0 <= i < j < vn.len() implies vn[i] != vn[j] by {
            let i0 = if i < idx { i } else { i + 1 };
            let j0 = if j < idx { j } else { j + 1 };
            assert(vn[i] == v0[i0] && vn[j] == v0[j0]);
        }
        assert forall|i: int| 0 <= i < vn.len() implies v0.contains(#[trigger] vn[i]) by {
            let i0 = if i < idx { i } else { i + 1 };
            assert(vn[i] == v0[i0]);
        }
    }
}

/// A location hash over a rectangular extent, tracking agent positions.
pub struct LocationHash2D {
    cell_size: i64,
    origin: Vec2f,
    nx: i64,
    ny: i64,
    buckets: HashMap<u64, Vec<u64>>,
    positions: HashMap<u64, Vec2f>,
}

impl LocationHash2D {
    /// The tracked agents and their positions.
    pub closed spec fn model(self) -> Map<u64, Vec2f> {
        self.positions@
    }

    /// The clamped bucket column of a position.
    closed spec fn bucket_x(self, p: Vec2f) -> int {
        clamp_spec(cell_coord(p.x - self.origin.x, self.cell_size as int), 0, self.nx - 1)
    }

    /// The clamped bucket row of a position.
    closed spec fn bucket_y(self, p: Vec2f) -> int {
        clamp_spec(cell_coord(p.y - self.origin.y, self.cell_size as int), 0, self.ny - 1)
    }

    /// The hash key of the bucket holding a position.
    closed spec fn bucket_key(self, p: Vec2f) -> u64 {
        (self.bucket_x(p) * self.ny + self.bucket_y(p)) as u64
    }

    closed spec fn config_wf(self) -> bool {
        &&& 0 < self.cell_size <= RESOLUTION_LIMIT
        &&& 0 < self.nx <= 0x8000_0000
        &&& 0 < self.ny <= 0x8000_0000
        &&& self.origin.in_range()
    }

    /// Well-formed index: every tracked agent sits in exactly the bucket
    /// of its position, buckets hold only tracked agents, no bucket lists
    /// an agent twice.
    pub closed spec fn wf(self) -> bool {
        &&& self.config_wf()
        &&& forall|id: u64| #[trigger]
            self.positions@.contains_key(id) ==> self.positions@[id].in_range()
        &&& forall|id: u64| #[trigger]
            self.positions@.contains_key(id) ==> self.buckets@.contains_key(
                self.bucket_key(self.positions@[id]),
            ) && self.buckets@[self.bucket_key(self.positions@[id])]@.contains(id)
        &&& forall|b: u64, i: int|
            #![trigger self.buckets@[b]@[i]]
            self.buckets@.contains_key(b) && 0 <= i < self.buckets@[b]@.len()
                ==> self.positions@.contains_key(self.buckets@[b]@[i]) && self.bucket_key(
                self.positions@[self.buckets@[b]@[i]],
            ) == b
        &&& forall|b: u64, i: int, j: int|
            #![trigger self.buckets@[b]@[i], self.buckets@[b]@[j]]
            self.buckets@.contains_key(b) && 0 <= i < j < self.buckets@[b]@.len()
                ==> self.buckets@[b]@[i] != self.buckets@[b]@[j]
    }

    /// A fresh, empty index over the extent starting at `origin` with the
    /// given width, height and bucket size (all in milli-units).
    pub fn new(width: i64, height: i64, cell_size: i64, origin: Vec2f) -> (r: Self)
        requires
            0 < cell_size <= RESOLUTION_LIMIT,
            0 < width <= COORD_LIMIT,
            0 < height <= COORD_LIMIT,
            origin.in_range(),
        ensures
            r.wf(),
            r.model() == Map::<u64, Vec2f>::empty(),
    {
        let nx = (width + cell_size - 1) / cell_size;
        let ny = (height + cell_size - 1) / cell_size;
        let nx = if nx < 1 {
            1
        } else {
            nx
        };
        let ny = if ny < 1 {
            1
        } else {
            ny
        };
        proof {
            assert(0 <= (width + cell_size - 1) as int / cell_size as int <= width + cell_size - 1)
                by (nonlinear_arith)
                requires
                    width + cell_size - 1 >= 0,
                    cell_size > 0;
            assert(0 <= (height + cell_size - 1) as int / cell_size as int <= height + cell_size
                - 1) by (nonlinear_arith)
                requires
                    height + cell_size - 1 >= 0,
                    cell_size > 0;
        }
        LocationHash2D {
            cell_size,
            origin,
            nx,
            ny,
            buckets: HashMap::new(),
            positions: HashMap::new(),
        }
    }

    /// The bucket key of a position.
    fn bucket_key_at(&self, p: &Vec2f) -> (k: u64)
        requires
            self.config_wf(),
            p.in_range(),
        ensures
            k == self.bucket_key(*p),
    {
        let bx = clamp(floor_div_coord(p.x - self.origin.x, self.cell_size), 0, self.nx - 1);
        let by = clamp(floor_div_coord(p.y - self.origin.y, self.cell_size), 0, self.ny - 1);
        proof {
            assert(0 <= bx * self.ny + by < 0x8000_0000_0000_0000) by (nonlinear_arith)
                requires
                    0 <= bx <= 0x8000_0000,
                    0 <= by < self.ny,
                    0 < self.ny <= 0x8000_0000;
        }
        (bx * self.ny + by) as u64
    }

    /// Start tracking an agent that was not tracked before.
    pub fn insert_agent(&mut self, id: u64, pos: &Vec2f)
        requires
            old(self).wf(),
            !old(self).model().contains_key(id),
            pos.in_range(),
        ensures
            final(self).wf(),
            final(self).model() == old(self).model().insert(id, *pos),
    {
        let k = self.bucket_key_at(pos);
        let mut bucket = match self.buckets.remove(&k) {
            Some(b) => b,
            None => Vec::new(),
        };
        proof {
            if bucket@.contains(id) {
                let w = choose|w: int| 0 <= w < bucket@.len() && bucket@[w] == id;
                assert(old(self).buckets@[k]@[w] == id);
                assert(false);
            }
        }
        bucket.push(id);
        self.buckets.insert(k, bucket);
        self.positions.insert(id, *pos);
        proof {
            let s = *self;
            let o = *old(self);
            assert(s.bucket_key(*pos) == o.bucket_key(*pos));
            assert forall|id2: u64| #[trigger] s.positions@.contains_key(id2) implies s.buckets@.contains_key(
                s.bucket_key(s.positions@[id2]),
            ) && s.buckets@[s.bucket_key(s.positions@[id2])]@.contains(id2) by {
                if id2 == id {
                    assert(s.buckets@[k]@[s.buckets@[k]@.len() - 1] == id);
                } else {
                    let b2 = o.bucket_key(o.positions@[id2]);
                    assert(o.buckets@[b2]@.contains(id2));
                    if b2 == k {
                        let w = choose|w: int|
                            0 <= w < o.buckets@[k]@.len() && o.buckets@[k]@[w] == id2;
                        assert(s.buckets@[k]@[w] == id2);
                    }
                }
            }
            assert forall|b: u64, i: int|
                s.buckets@.contains_key(b) && 0 <= i < s.buckets@[b]@.len() implies s.positions@.contains_key(
                #[trigger] s.buckets@[b]@[i],
            ) && s.bucket_key(s.positions@[s.buckets@[b]@[i]]) == b by {
                if b == k {
                    if i < s.buckets@[k]@.len() - 1 {
                        if o.buckets@.contains_key(k) {
                            assert(o.buckets@[k]@[i] == s.buckets@[b]@[i]);
                        }
                    }
                } else {
                    assert(o.buckets@[b]@[i] == s.buckets@[b]@[i]);
                }
            }
            assert forall|b: u64, i: int, j: int|
                #![trigger s.buckets@[b]@[i], s.buckets@[b]@[j]]
                s.buckets@.contains_key(b) && 0 <= i < j < s.buckets@[b]@.len() implies s.buckets@[b]@[i]
                != s.buckets@[b]@[j] by {
                if b == k && o.buckets@.contains_key(k) {
                    if j < s.buckets@[k]@.len() - 1 {
                        assert(o.buckets@[k]@[i] == s.buckets@[b]@[i]);
                        assert(o.buckets@[k]@[j] == s.buckets@[b]@[j]);
                    } else {
                        assert(s.buckets@[b]@[j] == id);
                        assert(o.buckets@[k]@[i] == s.buckets@[b]@[i]);
                        assert(o.positions@.contains_key(o.buckets@[k]@[i]));
                    }
                } else if b == k {
                    assert(s.buckets@[b]@.len() == 1);
                }
            }
        }
    }

    /// Stop tracking an agent.
    pub fn remove_agent(&mut self, id: u64)
        requires
            old(self).wf(),
            old(self).model().contains_key(id),
        ensures
            final(self).wf(),
            final(self).model() == old(self).model().remove(id),
    {
        let pos = match self.positions.get(&id) {
            Some(p) => *p,
            None => {
                proof {
                    assert(false);
                }
                Vec2f { x: 0, y: 0 }
            },
        };
        let k = self.bucket_key_at(&pos);
        let mut bucket = match self.buckets.remove(&k) {
            Some(b) => b,
            None => {
                proof {
                    assert(false);
                }
                Vec::new()
            },
        };
        remove_id(&mut bucket, id);
        self.buckets.insert(k, bucket);
        self.positions.remove(&id);
        proof {
            let s = *self;
            let o = *old(self);
            assert forall|id2: u64| #[trigger] s.positions@.contains_key(id2) implies s.buckets@.contains_key(
                s.bucket_key(s.positions@[id2]),
            ) && s.buckets@[s.bucket_key(s.positions@[id2])]@.contains(id2) by {
                let b2 = o.bucket_key(o.positions@[id2]);
                assert(o.buckets@[b2]@.contains(id2));
                if b2 == k {
                    assert(s.buckets@[k]@.contains(id2));
                }
            }
            assert forall|b: u64, i: int|
                s.buckets@.contains_key(b) && 0 <= i < s.buckets@[b]@.len() implies s.positions@.contains_key(
                #[trigger] s.buckets@[b]@[i],
            ) && s.bucket_key(s.positions@[s.buckets@[b]@[i]]) == b by {
                if b == k {
                    assert(o.buckets@[k]@.contains(s.buckets@[b]@[i]));
                    let w = choose|w: int|
                        0 <= w < o.buckets@[k]@.len() && o.buckets@[k]@[w] == s.buckets@[b]@[i];
                    assert(o.positions@.contains_key(o.buckets@[k]@[w]));
                } else {
                    assert(o.buckets@[b]@[i] == s.buckets@[b]@[i]);
                    assert(o.positions@.contains_key(o.buckets@[b]@[i]));
                }
            }
            assert forall|b: u64, i: int, j: int|
                #![trigger s.buckets@[b]@[i], s.buckets@[b]@[j]]
                s.buckets@.contains_key(b) && 0 <= i < j < s.buckets@[b]@.len() implies s.buckets@[b]@[i]
                != s.buckets@[b]@[j] by {
                if b != k {
                    assert(o.buckets@[b]@[i] == s.buckets@[b]@[i]);
                    assert(o.buckets@[b]@[j] == s.buckets@[b]@[j]);
                }
            }
        }
    }

    /// Move a tracked agent to a new position.
    pub fn update_agent(&mut self, id: u64, pos: &Vec2f)
        requires
            old(self).wf(),
            old(self).model().contains_key(id),
            pos.in_range(),
        ensures
            final(self).wf(),
            final(self).model() == old(self).model().insert(id, *pos),
    {
        self.remove_agent(id);
        self.insert_agent(id, pos);
        proof {
            assert(self.positions@ =~= old(self).positions@.insert(id, *pos));
        }
    }

    /// Whether `id` is listed in bucket `key`.
    pub closed spec fn in_bucket(self, key: u64, id: u64) -> bool {
        self.buckets@.contains_key(key) && self.buckets@[key]@.contains(id)
    }

    /// Whether `id` is tracked and within `radius` of `center`.
    pub open spec fn within(self, center: Vec2f, radius: i64, id: u64) -> bool {
        self.model().contains_key(id) && dist_sq(self.model()[id], center) <= radius * radius
    }

    /// Append the agents of one bucket that lie within the disc, skipping
    /// ones already collected.
    fn collect_bucket(&self, key: u64, center: &Vec2f, radius: i64, r: &mut Vec<u64>)
        requires
            self.wf(),
            center.in_range(),
            0 <= radius <= COORD_LIMIT,
            forall|i: int, j: int| 0 <= i < j < old(r)@.len() ==> old(r)@[i] != old(r)@[j],
        ensures
            forall|id: u64|
                #[trigger] final(r)@.contains(id) == (old(r)@.contains(id) || (self.in_bucket(
                    key,
                    id,
                ) && self.within(*center, radius, id))),
            forall|i: int, j: int| 0 <= i < j < final(r)@.len() ==> final(r)@[i] != final(r)@[j],
    {
        let ghost r0 = r@;
        match self.buckets.get(&key) {
            Some(bucket) => {
                let mut bi: usize = 0;
                while bi < bucket.len()
                    invariant
                        self.wf(),
                        center.in_range(),
                        0 <= radius <= COORD_LIMIT,
                        self.buckets@.contains_key(key),
                        bucket@ == self.buckets@[key]@,
                        0 <= bi <= bucket@.len(),
                        forall|id: u64|
                            #[trigger] r@.contains(id) == (r0.contains(id) || (exists|w: int|
                                0 <= w < bi && bucket@[w] == id && self.within(*center, radius, id))),
                        forall|i: int, j: int| 0 <= i < j < r@.len() ==> r@[i] != r@[j],
                    decreases bucket@.len() - bi,
                {
                    let id = bucket[bi];
                    proof {
                        assert(self.positions@.contains_key(bucket@[bi as int]));
                    }
                    let p = match self.positions.get(&id) {
                        Some(p) => *p,
                        None => {
                            proof {
                                assert(false);
                            }
                            Vec2f { x: 0, y: 0 }
                        },
                    };
                    let d2 = p.dist_squared(center);
                    proof {
                        assert(0 <= (radius as int) * (radius as int) <= 0x4000_0000_0000_0000)
                            by (nonlinear_arith)
                            requires
                                0 <= radius <= 0x4000_0000;
                    }
                    let close = d2 <= (radius as i128) * (radius as i128);
                    let mut dup = false;
                    let mut ri: usize = 0;
                    while ri < r.len()
                        invariant
                            0 <= ri <= r@.len(),
                            dup == exists|w: int| 0 <= w < ri && r@[w] == id,
                        decreases r@.len() - ri,
                    {
                        if r[ri] == id {
                            dup = true;
                            proof {
                                assert(r@[ri as int] == id);
                            }
                        }
                        ri += 1;
                    }
                    let ghost rprev = r@;
                    if close && !dup {
                        r.push(id);
                    }
                    proof {
                        assert(dup == rprev.contains(id));
                        assert forall|id2: u64| #[trigger]
                            r@.contains(id2) == (r0.contains(id2) || (exists|w: int|
                                0 <= w < bi + 1 && bucket@[w] == id2 && self.within(
                                    *center,
                                    radius,
                                    id2,
                                ))) by {
                            if close && !dup {
                                if id2 == id {
                                    assert(r@[r@.len() - 1] == id);
                                    assert(bucket@[bi as int] == id && self.within(
                                        *center,
                                        radius,
                                        id,
                                    ));
                                } else {
                                    assert(r@.contains(id2) == rprev.contains(id2)) by {
                                        if rprev.contains(id2) {
                                            let w = choose|w: int|
                                                0 <= w < rprev.len() && rprev[w] == id2;
                                            assert(r@[w] == id2);
                                        }
                                        if r@.contains(id2) {
                                            let w = choose|w: int|
                                                0 <= w < r@.len() && r@[w] == id2;
                                            assert(w < rprev.len());
                                            assert(rprev[w] == id2);
                                        }
                                    }
                                    if exists|w: int|
                                        0 <= w < bi + 1 && bucket@[w] == id2 && self.within(
                                            *center,
                                            radius,
                                            id2,
                                        ) {
                                        let w = choose|w: int|
                                            0 <= w < bi + 1 && bucket@[w] == id2 && self.within(
                                                *center,
                                                radius,
                                                id2,
                                            );
                                        assert(w < bi);
                                    }
                                }
                            } else {
                                if id2 == id {
                                    if close {
                                        assert(rprev.contains(id));
                                    } else {
                                        if exists|w: int|
                                            0 <= w < bi + 1 && bucket@[w] == id && self.within(
                                                *center,
                                                radius,
                                                id,
                                            ) {
                                            let w = choose|w: int|
                                                0 <= w < bi + 1 && bucket@[w] == id && self.within(
                                                    *center,
                                                    radius,
                                                    id,
                                                );
                                            assert(self.model()[id] == p);
                                            assert(false);
                                        }
                                    }
                                } else {
                                    if exists|w: int|
                                        0 <= w < bi + 1 && bucket@[w] == id2 && self.within(
                                            *center,
                                            radius,
                                            id2,
                                        ) {
                                        let w = choose|w: int|
                                            0 <= w < bi + 1 && bucket@[w] == id2 && self.within(
                                                *center,
                                                radius,
                                                id2,
                                            );
                                        assert(w < bi);
                                    }
                                }
                            }
                        }
                    }
                    bi += 1;
                }
                proof {
                    assert forall|id: u64| #[trigger]
                        r@.contains(id) == (r0.contains(id) || (self.in_bucket(key, id)
                            && self.within(*center, radius, id))) by {
                        if self.in_bucket(key, id) && self.within(*center, radius, id) {
                            let w = choose|w: int|
                                0 <= w < bucket@.len() && bucket@[w] == id;
                            assert(0 <= w < bucket@.len() && bucket@[w] == id && self.within(
                                *center,
                                radius,
                                id,
                            ));
                        }
                        if r@.contains(id) && !r0.contains(id) {
                            let w = choose|w: int|
                                0 <= w < bucket@.len() && bucket@[w] == id && self.within(
                                    *center,
                                    radius,
                                    id,
                                );
                            assert(self.in_bucket(key, id));
                        }
                    }
                }
            },
            None => {},
        }
    }

    /// All tracked agents within `radius` of `center` (inclusive), in an
    /// unspecified order, each listed once.
    pub fn get_neighbours_in_radius(&self, center: &Vec2f, radius: i64) -> (r: Vec<u64>)
        requires
            self.wf(),
            center.in_range(),
            0 <= radius <= COORD_LIMIT,
        ensures
            forall|id: u64|
                #[trigger] r@.contains(id) <==> self.within(*center, radius, id),
            forall|i: int, j: int| 0 <= i < j < r@.len() ==> r@[i] != r@[j],
    {
        let bx0 = clamp(floor_div_coord(center.x - radius - self.origin.x, self.cell_size), 0, self.nx - 1);
        let bx1 = clamp(floor_div_coord(center.x + radius - self.origin.x, self.cell_size), 0, self.nx - 1);
        let by0 = clamp(floor_div_coord(center.y - radius - self.origin.y, self.cell_size), 0, self.ny - 1);
        let by1 = clamp(floor_div_coord(center.y + radius - self.origin.y, self.cell_size), 0, self.ny - 1);
        proof {
            lemma_div_ordered(
                center.x - radius - self.origin.x,
                center.x + radius - self.origin.x,
                self.cell_size as int,
            );
            lemma_div_ordered(
                center.y - radius - self.origin.y,
                center.y + radius - self.origin.y,
                self.cell_size as int,
            );
        }
        let mut r: Vec<u64> = Vec::new();
        proof {
            assert forall|id: u64|
                self.within(*center, radius, id) && self.bucket_x(self.model()[id]) < bx0
                    implies #[trigger] r@.contains(id) by {
                self.lemma_in_disc_in_rect(*center, radius, id);
            }
        }
        let mut bx = bx0;
        while bx <= bx1
            invariant
                self.wf(),
                center.in_range(),
                0 <= radius <= COORD_LIMIT,
                0 <= bx0 <= bx1 < self.nx,
                0 <= by0 <= by1 < self.ny,
                bx0 <= bx <= bx1 + 1,
                bx0 == clamp_spec(
                    cell_coord(center.x - radius - self.origin.x, self.cell_size as int),
                    0,
                    self.nx - 1,
                ),
                bx1 == clamp_spec(
                    cell_coord(center.x + radius - self.origin.x, self.cell_size as int),
                    0,
                    self.nx - 1,
                ),
                by0 == clamp_spec(
                    cell_coord(center.y - radius - self.origin.y, self.cell_size as int),
                    0,
                    self.ny - 1,
                ),
                by1 == clamp_spec(
                    cell_coord(center.y + radius - self.origin.y, self.cell_size as int),
                    0,
                    self.ny - 1,
                ),
                forall|id: u64| #[trigger]
                    r@.contains(id) ==> self.within(*center, radius, id),
                forall|id: u64|
                    self.within(*center, radius, id) && self.bucket_x(self.model()[id]) < bx
                        ==> #[trigger] r@.contains(id),
                forall|i: int, j: int| 0 <= i < j < r@.len() ==> r@[i] != r@[j],
            decreases bx1 + 1 - bx,
        {
            let mut by = by0;
            proof {
                assert forall|id: u64|
                    self.within(*center, radius, id) && (self.bucket_x(self.model()[id]) < bx || (
                    self.bucket_x(self.model()[id]) == bx && self.bucket_y(self.model()[id]) < by0))
                        implies #[trigger] r@.contains(id) by {
                    if !(self.bucket_x(self.model()[id]) < bx) {
                        self.lemma_in_disc_in_rect(*center, radius, id);
                    }
                }
            }
            while by <= by1
                invariant
                    self.wf(),
                    center.in_range(),
                    0 <= radius <= COORD_LIMIT,
                    0 <= bx0 <= bx1 < self.nx,
                    0 <= by0 <= by1 < self.ny,
                    bx0 <= bx <= bx1,
                    by0 <= by <= by1 + 1,
                    by0 == clamp_spec(
                        cell_coord(center.y - radius - self.origin.y, self.cell_size as int),
                        0,
                        self.ny - 1,
                    ),
                    by1 == clamp_spec(
                        cell_coord(center.y + radius - self.origin.y, self.cell_size as int),
                        0,
                        self.ny - 1,
                    ),
                    forall|id: u64| #[trigger]
                        r@.contains(id) ==> self.within(*center, radius, id),
                    forall|id: u64|
                        self.within(*center, radius, id) && (self.bucket_x(self.model()[id]) < bx
                            || (self.bucket_x(self.model()[id]) == bx && self.bucket_y(
                            self.model()[id],
                        ) < by)) ==> #[trigger] r@.contains(id),
                    forall|i: int, j: int| 0 <= i < j < r@.len() ==> r@[i] != r@[j],
                decreases by1 + 1 - by,
            {
                proof {
                    assert(0 <= bx * self.ny + by < 0x8000_0000_0000_0000) by (nonlinear_arith)
                        requires
                            0 <= bx <= 0x8000_0000,
                            0 <= by < self.ny,
                            0 < self.ny <= 0x8000_0000;
                }
                let key = (bx * self.ny + by) as u64;
                let ghost rbefore = r@;
                self.collect_bucket(key, center, radius, &mut r);
                proof {
                    assert forall|id: u64|
                        self.within(*center, radius, id) && (self.bucket_x(self.model()[id]) < bx
                            || (self.bucket_x(self.model()[id]) == bx && self.bucket_y(
                            self.model()[id],
                        ) < by + 1)) implies #[trigger] r@.contains(id) by {
                        if self.bucket_x(self.model()[id]) == bx && self.bucket_y(self.model()[id])
                            == by {
                            assert(self.bucket_key(self.model()[id]) == key);
                            assert(self.in_bucket(key, id));
                        } else {
                            assert(rbefore.contains(id));
                        }
                    }
                    assert forall|id: u64| #[trigger] r@.contains(id) implies self.within(
                        *center,
                        radius,
                        id,
                    ) by {
                        if !rbefore.contains(id) {
                            assert(self.in_bucket(key, id) && self.within(*center, radius, id));
                        }
                    }
                }
                by += 1;
            }
            proof {
                assert forall|id: u64|
                    self.within(*center, radius, id) && self.bucket_x(self.model()[id]) < bx + 1
                        implies #[trigger] r@.contains(id) by {
                    self.lemma_in_disc_in_rect(*center, radius, id);
                }
            }
            bx += 1;
        }
        proof {
            assert forall|id: u64| self.within(*center, radius, id) implies #[trigger] r@.contains(
                id,
            ) by {
                self.lemma_in_disc_in_rect(*center, radius, id);
            }
        }
        r
    }

    /// A tracked agent within the disc has its bucket inside the scanned
    /// rectangle of buckets.
    proof fn lemma_in_disc_in_rect(self, center: Vec2f, radius: i64, id: u64)
        requires
            self.wf(),
            center.in_range(),
            0 <= radius <= COORD_LIMIT,
            self.model().contains_key(id),
            dist_sq(self.model()[id], center) <= radius * radius,
        ensures
            clamp_spec(
                cell_coord(center.x - radius - self.origin.x, self.cell_size as int),
                0,
                self.nx - 1,
            ) <= self.bucket_x(self.model()[id]) <= clamp_spec(
                cell_coord(center.x + radius - self.origin.x, self.cell_size as int),
                0,
                self.nx - 1,
            ),
            clamp_spec(
                cell_coord(center.y - radius - self.origin.y, self.cell_size as int),
                0,
                self.ny - 1,
            ) <= self.bucket_y(self.model()[id]) <= clamp_spec(
                cell_coord(center.y + radius - self.origin.y, self.cell_size as int),
                0,
                self.ny - 1,
            ),
    {
        let p = self.model()[id];
        assert(iabs_sp(p.x - center.x) <= radius && iabs_sp(p.y - center.y) <= radius)
            by (nonlinear_arith)
            requires
                (p.x - center.x) * (p.x - center.x) + (p.y - center.y) * (p.y - center.y) <= radius
                    * radius,
                radius >= 0;
        lemma_div_ordered(
            center.x - radius - self.origin.x,
            p.x - self.origin.x,
            self.cell_size as int,
        );
        lemma_div_ordered(
            p.x - self.origin.x,
            center.x + radius - self.origin.x,
            self.cell_size as int,
        );
        lemma_div_ordered(
            center.y - radius - self.origin.y,
            p.y - self.origin.y,
            self.cell_size as int,
        );
        lemma_div_ordered(
            p.y - self.origin.y,
            center.y + radius - self.origin.y,
            self.cell_size as int,
        );
    }
}

/// Magnitude, for local use in proofs.
pub open spec fn iabs_sp(a: int) -> int {
    if a < 0 {
        -a
    } else {
        a
    }
}

/// Division by a positive divisor is monotone.
proof fn lemma_div_ordered(a: int, b: int, d: int)
    requires
        a <= b,
        0 < d,
    ensures
        a / d <= b / d,
{
    vstd::arithmetic::div_mod::lemma_div_is_ordered(a, b, d);
}

} // verus!
