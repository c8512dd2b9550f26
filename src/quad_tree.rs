use vstd::prelude::*;

use crate::vector::{Vec2, COORD_LIMIT};
use vstd::multiset::Multiset;

verus! {

/// Largest magnitude of a rectangle's corner coordinate.
pub const RECT_LIMIT: i64 = 70368744177664;

/// An axis-aligned rectangle `[left, left + width) x [top, top + height)`.
#[derive(Clone, Copy, PartialEq, Eq, Structural, Debug)]
pub struct Rect {
    pub left: i64,
    pub top: i64,
    pub width: i64,
    pub height: i64,
}

impl Rect {
    pub open spec fn wf(self) -> bool {
        &&& 0 <= self.width
        &&& 0 <= self.height
        &&& -RECT_LIMIT <= self.left
        &&& self.left + self.width <= RECT_LIMIT
        &&& -RECT_LIMIT <= self.top
        &&& self.top + self.height <= RECT_LIMIT
    }

    /// The cell `self` (right and bottom edges excluded) shares a point with the closed
    /// window `o`.
    pub open spec fn overlaps(self, o: Rect) -> bool {
        &&& self.left <= o.left + o.width
        &&& o.left < self.left + self.width
        &&& self.top <= o.top + o.height
        &&& o.top < self.top + self.height
    }

    /// `self` contains every point of `o`.
    pub open spec fn covers(self, o: Rect) -> bool {
        &&& self.left <= o.left
        &&& o.left + o.width <= self.left + self.width
        &&& self.top <= o.top
        &&& o.top + o.height <= self.top + self.height
    }

    pub fn intersects(&self, o: &Rect) -> (r: bool)
        requires
            self.wf(),
            o.wf(),
        ensures
            r == self.overlaps(*o),
    {
        self.left <= o.left + o.width && o.left < self.left + self.width && self.top <= o.top
            + o.height && o.top < self.top + self.height
    }

    /// The point lies in the closed rectangle, all four edges included: how query
    /// windows select entries.
    pub open spec fn holds_spec(self, p: Vec2) -> bool {
        self.left <= p.x <= self.left + self.width && self.top <= p.y <= self.top + self.height
    }

    pub fn holds(&self, p: Vec2) -> (r: bool)
        requires
            self.wf(),
        ensures
            r == self.holds_spec(p),
    {
        self.left <= p.x && p.x <= self.left + self.width && self.top <= p.y && p.y <= self.top
            + self.height
    }

    /// The point lies in the rectangle as a quadtree cell: left and top edges included,
    /// right and bottom excluded, so the quarters of a cell share no point.
    pub open spec fn contains_spec(self, p: Vec2) -> bool {
        self.left <= p.x < self.left + self.width && self.top <= p.y < self.top + self.height
    }

    pub open spec fn new_spec(x: int, y: int, w: int, h: int) -> Rect {
        Rect { left: (x - w / 2) as i64, top: (y - h / 2) as i64, width: w as i64, height: h as i64 }
    }

    /// The rectangle of size `w` by `h` centred on `(x, y)`.
    pub fn new(x: i64, y: i64, w: i64, h: i64) -> (r: Rect)
        requires
            -COORD_LIMIT <= x <= COORD_LIMIT,
            -COORD_LIMIT <= y <= COORD_LIMIT,
            0 <= w <= 2 * COORD_LIMIT,
            0 <= h <= 2 * COORD_LIMIT,
        ensures
            r.wf(),
            r == Rect::new_spec(x as int, y as int, w as int, h as int),
            r.left == x - w / 2,
            r.top == y - h / 2,
            r.width == w,
            r.height == h,
    {
        Rect { left: x - w / 2, top: y - h / 2, width: w, height: h }
    }

    pub fn contains(&self, p: Vec2) -> (r: bool)
        requires
            self.wf(),
        ensures
            r == self.contains_spec(p),
    {
        self.left <= p.x && p.x < self.left + self.width && self.top <= p.y && p.y < self.top
            + self.height
    }
}

/// A leaf holding more entries than this splits into four quadrants.
pub const CAPACITY: usize = 8;

/// A point stored in the tree with an opaque payload (an index into the caller's list).
#[derive(Clone, Copy, PartialEq, Eq, Structural, Debug)]
pub struct QuadTreeEntry {
    pub position: Vec2,
    pub payload: usize,
}

impl QuadTreeEntry {
    pub fn new(position: Vec2, payload: usize) -> (r: QuadTreeEntry)
        ensures
            r == (QuadTreeEntry { position, payload }),
    {
        QuadTreeEntry { position, payload }
    }
}

/// A region quadtree: a leaf bucket of entries, or four children covering its quarters.
pub struct QuadTree {
    pub area: Rect,
    pub entries: Vec<QuadTreeEntry>,
    pub children: Option<Box<Quadrants>>,
}

/// The four children of a split node.
pub struct Quadrants {
    pub nw: QuadTree,
    pub ne: QuadTree,
    pub sw: QuadTree,
    pub se: QuadTree,
}

/// The rectangle is large enough to halve in both directions.
pub open spec fn can_split(a: Rect) -> bool {
    a.width >= 2 && a.height >= 2
}

/// Quarter `k` of `a`: 0 top-left, 1 top-right, 2 bottom-left, 3 bottom-right.
pub open spec fn quadrant(a: Rect, k: int) -> Rect {
    let hw = (a.width / 2) as i64;
    let hh = (a.height / 2) as i64;
    if k == 0 {
        Rect { left: a.left, top: a.top, width: hw, height: hh }
    } else if k == 1 {
        Rect { left: (a.left + hw) as i64, top: a.top, width: (a.width - hw) as i64, height: hh }
    } else if k == 2 {
        Rect { left: a.left, top: (a.top + hh) as i64, width: hw, height: (a.height - hh) as i64 }
    } else {
        Rect {
            left: (a.left + hw) as i64,
            top: (a.top + hh) as i64,
            width: (a.width - hw) as i64,
            height: (a.height - hh) as i64,
        }
    }
}

/// The size measure that shrinks from a node to its children.
pub open spec fn extent(a: Rect) -> int {
    a.width + a.height
}

/// The entries the closed window `r` selects.
pub open spec fn in_rect(r: Rect) -> spec_fn(QuadTreeEntry) -> bool {
    |e: QuadTreeEntry| r.holds_spec(e.position)
}

impl QuadTree {
    pub open spec fn wf(self) -> bool
        decreases self,
    {
        &&& self.area.wf()
        &&& forall|i: int|
            0 <= i < self.entries.len() ==> self.area.contains_spec(
                (#[trigger] self.entries[i]).position,
            )
        &&& match self.children {
            None => true,
            Some(q) => {
                &&& can_split(self.area)
                &&& self.entries.len() == 0
                &&& q.nw.area == quadrant(self.area, 0)
                &&& q.ne.area == quadrant(self.area, 1)
                &&& q.sw.area == quadrant(self.area, 2)
                &&& q.se.area == quadrant(self.area, 3)
                &&& q.nw.wf()
                &&& q.ne.wf()
                &&& q.sw.wf()
                &&& q.se.wf()
            },
        }
    }

    /// Every entry stored in the tree, with multiplicity.
    pub open spec fn contents(self) -> Multiset<QuadTreeEntry>
        decreases self,
    {
        self.entries@.to_multiset().add(
            match self.children {
                None => Multiset::empty(),
                Some(q) => q.nw.contents().add(q.ne.contents()).add(q.sw.contents()).add(
                    q.se.contents(),
                ),
            },
        )
    }

    /// An empty tree bounded to `area`.
    pub fn new(area: Rect) -> (r: QuadTree)
        requires
            area.wf(),
        ensures
            r.wf(),
            r.area == area,
            r.contents() =~= Multiset::empty(),
    {
        let r = QuadTree { area, entries: Vec::new(), children: None };
        proof {
            broadcast use vstd::multiset::group_multiset_axioms;
            broadcast use vstd::seq_lib::group_seq_properties;

            assert(r.entries@ =~= Seq::<QuadTreeEntry>::empty());
        }
        r
    }
}

/// The children of a node over `area` cover its four quarters and are well formed.
pub open spec fn quads_wf(q: Quadrants, area: Rect) -> bool {
    &&& q.nw.area == quadrant(area, 0)
    &&& q.ne.area == quadrant(area, 1)
    &&& q.sw.area == quadrant(area, 2)
    &&& q.se.area == quadrant(area, 3)
    &&& q.nw.wf()
    &&& q.ne.wf()
    &&& q.sw.wf()
    &&& q.se.wf()
}

/// Every entry held by the four children.
pub open spec fn quads_contents(q: Quadrants) -> Multiset<QuadTreeEntry> {
    q.nw.contents().add(q.ne.contents()).add(q.sw.contents()).add(q.se.contents())
}

impl QuadTree {
    /// Stores `entry` in the leaf whose region holds its position. An entry whose
    /// position lies outside the tree's area is dropped.
    pub fn add(&mut self, entry: QuadTreeEntry)
        requires
            old(self).wf(),
        ensures
            final(self).wf(),
            final(self).area == old(self).area,
            final(self).contents() =~= if old(self).area.contains_spec(entry.position) {
                old(self).contents().insert(entry)
            } else {
                old(self).contents()
            },
        decreases extent(old(self).area), 1int,
    {
        broadcast use vstd::multiset::group_multiset_axioms;
        broadcast use vstd::seq_lib::group_seq_properties;

        if !self.area.contains(entry.position) {
            return ;
        }
        let ghost old_contents = self.contents();
        let children = self.children.take();
        match children {
            Some(b) => {
                let mut q = *b;
                assert(quads_wf(q, self.area));
                add_to_quadrants(&mut q, &self.area, entry);
                self.children = Some(Box::new(q));
                assert(self.entries@.to_multiset() =~= Multiset::empty());
            },
            None => {
                self.entries.push(entry);
                assert(self.entries@.to_multiset() =~= old_contents.insert(entry)) by {
                    assert(old(self).entries@.push(entry) == self.entries@);
                }
                if self.entries.len() > CAPACITY && self.area.width >= 2 && self.area.height >= 2 {
                    proof {
                        lemma_quadrant_wf(self.area, 0);
                        lemma_quadrant_wf(self.area, 1);
                        lemma_quadrant_wf(self.area, 2);
                        lemma_quadrant_wf(self.area, 3);
                    }
                    let mut q = Quadrants {
                        nw: QuadTree::new(quarter(&self.area, 0)),
                        ne: QuadTree::new(quarter(&self.area, 1)),
                        sw: QuadTree::new(quarter(&self.area, 2)),
                        se: QuadTree::new(quarter(&self.area, 3)),
                    };
                    let mut i: usize = 0;
                    assert(self.entries@.take(0).to_multiset() =~= Multiset::empty());
                    while i < self.entries.len()
                        invariant
                            self.area == old(self).area,
                            self.area.wf(),
                            can_split(self.area),
                            forall|j: int|
                                0 <= j < self.entries.len() ==> self.area.contains_spec(
                                    (#[trigger] self.entries[j]).position,
                                ),
                            0 <= i <= self.entries.len(),
                            quads_wf(q, self.area),
                            quads_contents(q) =~= self.entries@.take(i as int).to_multiset(),
                        decreases self.entries.len() - i,
                    {
                        let e = self.entries[i];
                        add_to_quadrants(&mut q, &self.area, e);
                        assert(self.entries@.take(i + 1) == self.entries@.take(i as int).push(e));
                        proof {
                            self.entries@.take(i as int).to_multiset_ensures();
                        }
                        assert(self.entries@.take(i as int).push(e).to_multiset()
                            =~= self.entries@.take(i as int).to_multiset().insert(e));
                        i = i + 1;
                    }
                    assert(self.entries@.take(i as int) == self.entries@);
                    let ghost all = self.entries@.to_multiset();
                    self.entries = Vec::new();
                    self.children = Some(Box::new(q));
                    assert(self.entries@.to_multiset() =~= Multiset::empty());
                    assert(self.contents() =~= all);
                } else {
                    self.children = None;
                }
            },
        }
    }
}

/// Every entry stored in a well-formed tree lies in the tree's area.
pub proof fn lemma_contents_in_area(t: QuadTree, e: QuadTreeEntry)
    requires
        t.wf(),
        t.contents().count(e) > 0,
    ensures
        t.area.contains_spec(e.position),
    decreases t,
{
    broadcast use vstd::multiset::group_multiset_axioms;

    t.entries@.to_multiset_ensures();
    if t.entries@.to_multiset().count(e) > 0 {
        let i = choose|i: int| 0 <= i < t.entries@.len() && t.entries@[i] == e;
        assert(t.area.contains_spec(t.entries[i].position));
    } else {
        match t.children {
            None => {},
            Some(q) => {
                if q.nw.contents().count(e) > 0 {
                    lemma_contents_in_area(q.nw, e);
                } else if q.ne.contents().count(e) > 0 {
                    lemma_contents_in_area(q.ne, e);
                } else if q.sw.contents().count(e) > 0 {
                    lemma_contents_in_area(q.sw, e);
                } else {
                    lemma_contents_in_area(q.se, e);
                }
            },
        }
    }
}

impl QuadTree {
    /// Appends to `out` every stored entry whose position lies in `rect`, descending only
    /// into the children whose quarters meet `rect`.
    pub fn query_entries(&self, rect: &Rect, out: &mut Vec<QuadTreeEntry>)
        requires
            self.wf(),
            rect.wf(),
        ensures
            final(out)@.to_multiset() =~= old(out)@.to_multiset().add(
                self.contents().filter(in_rect(*rect)),
            ),
        decreases extent(self.area),
    {
        broadcast use vstd::multiset::group_multiset_axioms;

        if !self.area.intersects(rect) {
            assert forall|e: QuadTreeEntry|
                #[trigger] self.contents().filter(in_rect(*rect)).count(e) == 0 by {
                if self.contents().count(e) > 0 {
                    lemma_contents_in_area(*self, e);
                }
            }
            assert(self.contents().filter(in_rect(*rect)) =~= Multiset::empty());
            assert(out@.to_multiset().add(Multiset::empty()) =~= out@.to_multiset());
            return ;
        }
        let ghost start = out@.to_multiset();
        let mut i: usize = 0;
        proof {
            broadcast use vstd::seq_lib::group_seq_properties;

            self.entries@.take(0).to_multiset_ensures();
        }
        assert(self.entries@.take(0).to_multiset() =~= Multiset::empty());
        while i < self.entries.len()
            invariant
                self.wf(),
                rect.wf(),
                0 <= i <= self.entries.len(),
                out@.to_multiset() =~= start.add(
                    self.entries@.take(i as int).to_multiset().filter(in_rect(*rect)),
                ),
            decreases self.entries.len() - i,
        {
            let e = self.entries[i];
            proof {
                self.entries@.take(i as int).to_multiset_ensures();
                out@.to_multiset_ensures();
                assert(self.entries@.take(i + 1) == self.entries@.take(i as int).push(e));
            }
            if rect.holds(e.position) {
                out.push(e);
            }
            assert(out@.to_multiset() =~= start.add(
                self.entries@.take(i + 1).to_multiset().filter(in_rect(*rect)),
            ));
            i = i + 1;
        }
        assert(self.entries@.take(i as int) == self.entries@);
        match &self.children {
            None => {
                assert(self.contents().filter(in_rect(*rect)) =~= self.entries@.to_multiset().filter(
                    in_rect(*rect),
                ));
            },
            Some(q) => {
                proof {
                    lemma_quadrant_wf(self.area, 0);
                    lemma_quadrant_wf(self.area, 1);
                    lemma_quadrant_wf(self.area, 2);
                    lemma_quadrant_wf(self.area, 3);
                }
                q.nw.query_entries(rect, out);
                q.ne.query_entries(rect, out);
                q.sw.query_entries(rect, out);
                q.se.query_entries(rect, out);
                assert(self.contents().filter(in_rect(*rect)) =~= self.entries@.to_multiset().filter(
                    in_rect(*rect),
                ).add(q.nw.contents().filter(in_rect(*rect))).add(
                    q.ne.contents().filter(in_rect(*rect)),
                ).add(q.sw.contents().filter(in_rect(*rect))).add(
                    q.se.contents().filter(in_rect(*rect)),
                ));
            },
        }
    }
}

/// A window that covers the tree's whole area selects every stored entry.
pub proof fn lemma_covering_query_is_complete(t: QuadTree, window: Rect)
    requires
        t.wf(),
        window.covers(t.area),
    ensures
        t.contents().filter(in_rect(window)) =~= t.contents(),
{
    broadcast use vstd::multiset::group_multiset_axioms;

    assert forall|e: QuadTreeEntry|
        #[trigger] t.contents().filter(in_rect(window)).count(e) == t.contents().count(e) by {
        if t.contents().count(e) > 0 {
            lemma_contents_in_area(t, e);
        }
    }
}

/// Puts `entry` into the child whose quarter holds its position.
fn add_to_quadrants(q: &mut Quadrants, area: &Rect, entry: QuadTreeEntry)
    requires
        area.wf(),
        can_split(*area),
        area.contains_spec(entry.position),
        quads_wf(*old(q), *area),
    ensures
        quads_wf(*final(q), *area),
        quads_contents(*final(q)) =~= quads_contents(*old(q)).insert(entry),
    decreases extent(*area), 0int,
{
    broadcast use vstd::multiset::group_multiset_axioms;

    let k = quadrant_index(area, entry.position);
    proof {
        lemma_quadrant_wf(*area, k as int);
    }
    if k == 0 {
        q.nw.add(entry);
    } else if k == 1 {
        q.ne.add(entry);
    } else if k == 2 {
        q.sw.add(entry);
    } else {
        q.se.add(entry);
    }
}

/// Quarter `k` of `a`.
fn quarter(a: &Rect, k: usize) -> (r: Rect)
    requires
        a.wf(),
        can_split(*a),
        k < 4,
    ensures
        r == quadrant(*a, k as int),
{
    let hw = a.width / 2;
    let hh = a.height / 2;
    if k == 0 {
        Rect { left: a.left, top: a.top, width: hw, height: hh }
    } else if k == 1 {
        Rect { left: a.left + hw, top: a.top, width: a.width - hw, height: hh }
    } else if k == 2 {
        Rect { left: a.left, top: a.top + hh, width: hw, height: a.height - hh }
    } else {
        Rect { left: a.left + hw, top: a.top + hh, width: a.width - hw, height: a.height - hh }
    }
}

proof fn lemma_quadrant_wf(a: Rect, k: int)
    requires
        a.wf(),
        can_split(a),
        0 <= k < 4,
    ensures
        quadrant(a, k).wf(),
        extent(quadrant(a, k)) + 2 <= extent(a),
{
}

/// Which quarter of `a` holds `p`.
fn quadrant_index(a: &Rect, p: Vec2) -> (k: usize)
    requires
        a.wf(),
        can_split(*a),
        a.contains_spec(p),
    ensures
        k < 4,
        quadrant(*a, k as int).contains_spec(p),
        forall|j: int| 0 <= j < 4 && j != k ==> !quadrant(*a, j).contains_spec(p),
{
    let hw = a.width / 2;
    let hh = a.height / 2;
    let right = p.x >= a.left + hw;
    let bottom = p.y >= a.top + hh;
    if !right && !bottom {
        0
    } else if right && !bottom {
        1
    } else if !right && bottom {
        2
    } else {
        3
    }
}

} // verus!
