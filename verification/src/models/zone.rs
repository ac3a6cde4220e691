use vstd::prelude::*;

use crate::models::monitor::Rect;

verus! {

broadcast use vstd::std_specs::vec::group_vec_axioms;

/// Largest distance between a window's corner and a zone's corner, per axis, for the
/// window to be snapped to that zone on capture.
pub const MAX_POS_DELTA: i32 = 200;

/// Largest difference between a window's and a zone's width or height for the window to
/// be snapped to that zone on capture.
pub const MAX_SIZE_DELTA: i32 = 200;

/// Largest total of the four differences for a window to be snapped on capture.
pub const AUTO_SNAP_THRESHOLD: i32 = 200;

#[derive(Debug, Clone, Copy, PartialEq, Eq, Structural)]
pub enum Axis {
    Horizontal,
    Vertical,
}

/// The split structure of a layout. Leaves index into the layout's flat zone list.
#[derive(Debug)]
pub enum ZoneNode {
    /// Index into the owning `Layout`'s flat `zones` list.
    Leaf(usize),
    Split { axis: Axis, children: Vec<ZoneNode> },
}

/// How many sibling levels a window has been stretched past its own zone on each side.
#[derive(Debug, Clone, Copy, PartialEq, Eq, Structural)]
pub struct Reach {
    pub neg_h: u32,
    pub pos_h: u32,
    pub neg_v: u32,
    pub pos_v: u32,
}

impl Default for Reach {
    fn default() -> (r: Self)
        ensures
            r == Reach::zero(),
    {
        Reach { neg_h: 0, pos_h: 0, neg_v: 0, pos_v: 0 }
    }
}

impl Reach {
    pub open spec fn zero() -> Reach {
        Reach { neg_h: 0, pos_h: 0, neg_v: 0, pos_v: 0 }
    }

    /// The reach after extending the `axis`/`forward` edge by one level.
    pub open spec fn grown(self, axis: Axis, forward: bool) -> Reach {
        match (axis, forward) {
            (Axis::Horizontal, true) => Reach { pos_h: (self.pos_h + 1) as u32, ..self },
            (Axis::Horizontal, false) => Reach { neg_h: (self.neg_h + 1) as u32, ..self },
            (Axis::Vertical, true) => Reach { pos_v: (self.pos_v + 1) as u32, ..self },
            (Axis::Vertical, false) => Reach { neg_v: (self.neg_v + 1) as u32, ..self },
        }
    }

    /// The counter that `grow(axis, forward)` increments.
    pub open spec fn grow_counter(self, axis: Axis, forward: bool) -> u32 {
        match (axis, forward) {
            (Axis::Horizontal, true) => self.pos_h,
            (Axis::Horizontal, false) => self.neg_h,
            (Axis::Vertical, true) => self.pos_v,
            (Axis::Vertical, false) => self.neg_v,
        }
    }

    /// The reach after releasing one level from the edge opposite the `axis`/`forward`
    /// side, never below zero.
    pub open spec fn shrunk(self, axis: Axis, forward: bool) -> Reach {
        match (axis, forward) {
            (Axis::Horizontal, true) => Reach { neg_h: sat_dec(self.neg_h), ..self },
            (Axis::Horizontal, false) => Reach { pos_h: sat_dec(self.pos_h), ..self },
            (Axis::Vertical, true) => Reach { neg_v: sat_dec(self.neg_v), ..self },
            (Axis::Vertical, false) => Reach { pos_v: sat_dec(self.pos_v), ..self },
        }
    }

    /// Extends the edge on the `axis`/`forward` side outward by one level.
    pub fn grow(&mut self, axis: Axis, forward: bool)
        requires
            old(self).grow_counter(axis, forward) < u32::MAX,
        ensures
            *final(self) == old(self).grown(axis, forward),
    {
        match (axis, forward) {
            (Axis::Horizontal, true) => self.pos_h = self.pos_h + 1,
            (Axis::Horizontal, false) => self.neg_h = self.neg_h + 1,
            (Axis::Vertical, true) => self.pos_v = self.pos_v + 1,
            (Axis::Vertical, false) => self.neg_v = self.neg_v + 1,
        }
    }

    /// Releases one level from the edge *opposite* the `axis`/`forward` side.
    pub fn shrink(&mut self, axis: Axis, forward: bool)
        ensures
            *final(self) == old(self).shrunk(axis, forward),
    {
        match (axis, forward) {
            (Axis::Horizontal, true) => self.neg_h = self.neg_h.saturating_sub(1),
            (Axis::Horizontal, false) => self.pos_h = self.pos_h.saturating_sub(1),
            (Axis::Vertical, true) => self.neg_v = self.neg_v.saturating_sub(1),
            (Axis::Vertical, false) => self.pos_v = self.pos_v.saturating_sub(1),
        }
    }
}

pub open spec fn sat_dec(x: u32) -> u32 {
    if x == 0 { 0 } else { (x - 1) as u32 }
}

/// Shrinking toward the opposite direction undoes one growth step.
pub proof fn lemma_shrink_undoes_grow(r: Reach, axis: Axis, forward: bool)
    requires
        r.grow_counter(axis, forward) < u32::MAX,
    ensures
        r.grown(axis, forward).shrunk(axis, !forward) == r,
{
}


/// The smallest rectangle covering both `a` and `b`.
pub open spec fn spec_join(a: Rect, b: Rect) -> Rect {
    Rect {
        left: if a.left <= b.left { a.left } else { b.left },
        top: if a.top <= b.top { a.top } else { b.top },
        right: if a.right >= b.right { a.right } else { b.right },
        bottom: if a.bottom >= b.bottom { a.bottom } else { b.bottom },
    }
}

/// Bounding box of a list of rects; the empty list has the all-zero rect.
pub open spec fn spec_union(rs: Seq<Rect>) -> Rect
    decreases rs.len(),
{
    if rs.len() == 0 {
        Rect { left: 0, top: 0, right: 0, bottom: 0 }
    } else if rs.len() == 1 {
        rs[0]
    } else {
        spec_join(spec_union(rs.drop_last()), rs.last())
    }
}

impl Rect {
    fn join(self, other: Rect) -> (r: Rect)
        ensures
            r == spec_join(self, other),
    {
        Rect {
            left: if self.left <= other.left { self.left } else { other.left },
            top: if self.top <= other.top { self.top } else { other.top },
            right: if self.right >= other.right { self.right } else { other.right },
            bottom: if self.bottom >= other.bottom { self.bottom } else { other.bottom },
        }
    }

    /// Bounding box of `rects` (all zero when `rects` is empty).
    pub fn union(rects: &[Rect]) -> (r: Rect)
        ensures
            r == spec_union(rects@),
    {
        if rects.len() == 0 {
            return Rect { left: 0, top: 0, right: 0, bottom: 0 };
        }
        let mut acc = rects[0];
        let mut i: usize = 1;
        while i < rects.len()
            invariant
                1 <= i <= rects@.len(),
                acc == spec_union(rects@.take(i as int)),
            decreases rects@.len() - i,
        {
            assert(rects@.take(i as int + 1).drop_last() =~= rects@.take(i as int));
            acc = acc.join(rects[i]);
            i = i + 1;
        }
        assert(rects@.take(rects@.len() as int) =~= rects@);
        acc
    }
}

impl ZoneNode {
    pub open spec fn num_children(self) -> nat {
        match self {
            ZoneNode::Leaf(_) => 0,
            ZoneNode::Split { children, .. } => children@.len(),
        }
    }

    /// Leaves of the first `n` children of a split, in order; a leaf's own index for a leaf.
    pub open spec fn leaves_upto(self, n: nat) -> Seq<usize>
        decreases self, n,
    {
        match self {
            ZoneNode::Leaf(i) => seq![i],
            ZoneNode::Split { children, .. } => {
                if n == 0 || n > children.len() {
                    Seq::empty()
                } else {
                    self.leaves_upto((n - 1) as nat) + children[n - 1].leaves_upto(
                        children[n - 1].num_children(),
                    )
                }
            },
        }
    }

    /// All leaf indices below this node, left to right.
    pub open spec fn leaves(self) -> Seq<usize> {
        self.leaves_upto(self.num_children())
    }

    #[verifier::loop_isolation(false)]
    pub fn contains_leaf(&self, leaf_idx: usize) -> (b: bool)
        ensures
            b == self.leaves().contains(leaf_idx),
        decreases self,
    {
        match self {
            ZoneNode::Leaf(i) => {
                assert(self.leaves() =~= seq![*i]);
                assert(self.leaves()[0] == *i);
                *i == leaf_idx
            },
            ZoneNode::Split { children, .. } => {
                let mut j: usize = 0;
                while j < children.len()
                    invariant
                        j <= children.len(),
                        !self.leaves_upto(j as nat).contains(leaf_idx),
                    decreases children.len() - j,
                {
                    proof {
                        assert(decreases_to!(children => children@[j as int]));
                    }
                    let c = children[j].contains_leaf(leaf_idx);
                    assert(self.leaves_upto((j + 1) as nat) =~= self.leaves_upto(j as nat)
                        + children[j as int].leaves());
                    if c {
                        proof {
                            let pre = self.leaves_upto(j as nat);
                            let cl = children[j as int].leaves();
                            let k = choose|k: int| 0 <= k < cl.len() && cl[k] == leaf_idx;
                            assert(self.leaves_upto((j + 1) as nat)[pre.len() + k] == leaf_idx);
                            lemma_upto_prefix(*self, (j + 1) as nat, children@.len());
                        }
                        return true;
                    }
                    assert(!self.leaves_upto((j + 1) as nat).contains(leaf_idx));
                    j = j + 1;
                }
                false
            },
        }
    }
}

/// The leaves of a prefix of children are a prefix of all leaves.
proof fn lemma_upto_prefix(node: ZoneNode, m: nat, n: nat)
    requires
        node is Split,
        m <= n <= node.num_children(),
    ensures
        node.leaves_upto(m).len() <= node.leaves_upto(n).len(),
        forall|k: int| 0 <= k < node.leaves_upto(m).len() ==>
            node.leaves_upto(n)[k] == #[trigger] node.leaves_upto(m)[k],
        forall|l: usize| node.leaves_upto(m).contains(l) ==> node.leaves_upto(n).contains(l),
    decreases n,
{
    if n > m {
        lemma_upto_prefix(node, m, (n - 1) as nat);
        assert forall|l: usize| node.leaves_upto(m).contains(l) implies node.leaves_upto(n).contains(l) by {
            let k = choose|k: int| 0 <= k < node.leaves_upto(m).len() && node.leaves_upto(m)[k] == l;
            assert(node.leaves_upto(n)[k] == l);
        }
    }
}


impl ZoneNode {
    /// Every leaf below this node indexes into a list of `bound` zones.
    pub open spec fn leaves_below(self, bound: nat) -> bool {
        forall|k: int| 0 <= k < self.leaves().len() ==> #[trigger] self.leaves()[k] < bound
    }

    fn collect_leaves(&self, out: &mut Vec<usize>)
        ensures
            final(out)@ == old(out)@ + self.leaves(),
        decreases self,
    {
        match self {
            ZoneNode::Leaf(i) => {
                out.push(*i);
                assert(self.leaves() =~= seq![*i]);
            },
            ZoneNode::Split { children, .. } => {
                let ghost start = out@;
                let mut j: usize = 0;
                while j < children.len()
                    invariant
                        j <= children@.len(),
                        *self == (ZoneNode::Split { axis: self->axis, children: *children }),
                        out@ == start + self.leaves_upto(j as nat),
                    decreases children@.len() - j,
                {
                    proof {
                        assert(decreases_to!(children => children@[j as int]));
                    }
                    children[j].collect_leaves(out);
                    assert(self.leaves_upto((j + 1) as nat) =~= self.leaves_upto(j as nat)
                        + children[j as int].leaves());
                    j = j + 1;
                }
                assert(out@ =~= start + self.leaves());
            },
        }
    }
}

/// `j` is the first child whose subtree holds `leaf`.
pub open spec fn is_first_holder(children: Seq<ZoneNode>, leaf: usize, j: int) -> bool {
    &&& 0 <= j < children.len()
    &&& children[j].leaves().contains(leaf)
    &&& forall|k: int| 0 <= k < j ==> !(#[trigger] children[k].leaves()).contains(leaf)
}

/// The first child whose subtree holds `leaf`, if any.
pub open spec fn first_holder(children: Seq<ZoneNode>, leaf: usize) -> Option<int> {
    if exists|j: int| is_first_holder(children, leaf, j) {
        Some(choose|j: int| is_first_holder(children, leaf, j))
    } else {
        None
    }
}

proof fn lemma_first_holder_unique(children: Seq<ZoneNode>, leaf: usize, j: int)
    requires
        is_first_holder(children, leaf, j),
    ensures
        first_holder(children, leaf) == Some(j),
{
    let c = choose|i: int| is_first_holder(children, leaf, i);
    assert(is_first_holder(children, leaf, c));
    if c < j {
        assert(!children[c].leaves().contains(leaf));
    } else if j < c {
        assert(!children[j].leaves().contains(leaf));
    }
}

proof fn lemma_no_holder(children: Seq<ZoneNode>, leaf: usize)
    requires
        forall|k: int| 0 <= k < children.len() ==> !(#[trigger] children[k].leaves()).contains(leaf),
    ensures
        first_holder(children, leaf) is None,
{
}

/// Bounding box of the zones under `node`.
pub open spec fn spec_node_bbox(node: ZoneNode, rects: Seq<Rect>) -> Rect {
    spec_union(node.leaves().map_values(|l: usize| rects[l as int]))
}

/// Stretches `r` (the rect of the leaf under `children[ci]`) across up to the budgeted
/// number of siblings of that split, positive side first, then negative side.
/// Returns the stretched rect and the budget left over.
pub open spec fn spec_stretch(
    axis: Axis,
    children: Seq<ZoneNode>,
    ci: int,
    r: Rect,
    b: Reach,
    rects: Seq<Rect>,
) -> (Rect, Reach) {
    let n = children.len();
    let pos = if axis == Axis::Horizontal { b.pos_h } else { b.pos_v };
    let neg = if axis == Axis::Horizontal { b.neg_h } else { b.neg_v };
    let kp: int = if pos <= n - 1 - ci { pos as int } else { n - 1 - ci };
    let kn: int = if neg <= ci { neg as int } else { ci };
    let r1 = if kp > 0 {
        let bb = spec_node_bbox(children[ci + kp], rects);
        if axis == Axis::Horizontal { Rect { right: bb.right, ..r } } else { Rect { bottom: bb.bottom, ..r } }
    } else {
        r
    };
    let r2 = if kn > 0 {
        let bb = spec_node_bbox(children[ci - kn], rects);
        if axis == Axis::Horizontal { Rect { left: bb.left, ..r1 } } else { Rect { top: bb.top, ..r1 } }
    } else {
        r1
    };
    let b2 = if axis == Axis::Horizontal {
        Reach { pos_h: (pos - kp) as u32, neg_h: (neg - kn) as u32, ..b }
    } else {
        Reach { pos_v: (pos - kp) as u32, neg_v: (neg - kn) as u32, ..b }
    };
    (r2, b2)
}

impl ZoneNode {
    /// The rect that `leaf` covers once stretched by `budget`, climbing from the leaf
    /// toward the root: each split along an axis spends the budget of that axis on the
    /// siblings it has on either side. `None` when `leaf` is not below this node.
    /// Also returns the budget not spent.
    pub open spec fn spec_bounds(self, leaf: usize, budget: Reach, rects: Seq<Rect>) -> (
        Option<Rect>,
        Reach,
    )
        decreases self,
    {
        match self {
            ZoneNode::Leaf(i) => {
                if i == leaf {
                    (Some(rects[leaf as int]), budget)
                } else {
                    (None, budget)
                }
            },
            ZoneNode::Split { axis, children } => {
                match first_holder(children@, leaf) {
                    None => (None, budget),
                    Some(ci) => {
                        if 0 <= ci < children.len() {
                            let (inner, b1) = children[ci].spec_bounds(leaf, budget, rects);
                            match inner {
                                None => (None, b1),
                                Some(r) => {
                                    let (r2, b2) = spec_stretch(axis, children@, ci, r, b1, rects);
                                    (Some(r2), b2)
                                },
                            }
                        } else {
                            (None, budget)
                        }
                    },
                }
            },
        }
    }
}

proof fn lemma_child_leaves_in(node: ZoneNode, j: int)
    requires
        node is Split,
        0 <= j < node.num_children(),
    ensures
        forall|l: usize| (#[trigger] node->children@[j].leaves()).contains(l) ==> node.leaves().contains(l),
{
    let children = node->children;
    assert(node.leaves_upto((j + 1) as nat) =~= node.leaves_upto(j as nat) + children[j].leaves());
    lemma_upto_prefix(node, (j + 1) as nat, node.num_children());
    assert forall|l: usize| (#[trigger] children@[j].leaves()).contains(l) implies node.leaves().contains(l) by {
        let cl = children[j].leaves();
        let k = choose|k: int| 0 <= k < cl.len() && cl[k] == l;
        assert(node.leaves_upto((j + 1) as nat)[node.leaves_upto(j as nat).len() + k] == l);
    }
}

proof fn lemma_child_leaves_below(node: ZoneNode, j: int, bound: nat)
    requires
        node is Split,
        0 <= j < node.num_children(),
        node.leaves_below(bound),
    ensures
        node->children@[j].leaves_below(bound),
{
    lemma_child_leaves_in(node, j);
    let cl = node->children@[j].leaves();
    assert forall|k: int| 0 <= k < cl.len() implies #[trigger] cl[k] < bound by {
        assert(cl.contains(cl[k]));
        assert(node->children@[j].leaves().contains(cl[k]));
        assert(node.leaves().contains(cl[k]));
        let l = node.leaves();
        let m = choose|m: int| 0 <= m < l.len() && l[m] == cl[k];
        assert(l[m] < bound);
    }
}

fn sibling_bbox(children: &Vec<ZoneNode>, idx: usize, rects: &Vec<Rect>) -> (r: Rect)
    requires
        idx < children@.len(),
        children@[idx as int].leaves_below(rects@.len()),
    ensures
        r == spec_node_bbox(children@[idx as int], rects@),
{
    let mut leaves: Vec<usize> = Vec::new();
    children[idx].collect_leaves(&mut leaves);
    assert(leaves@ =~= children@[idx as int].leaves());
    let mut zr: Vec<Rect> = Vec::new();
    let mut i: usize = 0;
    while i < leaves.len()
        invariant
            i <= leaves@.len(),
            leaves@ == children@[idx as int].leaves(),
            children@[idx as int].leaves_below(rects@.len()),
            zr@ =~= leaves@.take(i as int).map_values(|l: usize| rects@[l as int]),
        decreases leaves@.len() - i,
    {
        assert(leaves@[i as int] < rects@.len());
        zr.push(rects[leaves[i]]);
        assert(leaves@.take(i as int + 1) =~= leaves@.take(i as int).push(leaves@[i as int]));
        i = i + 1;
    }
    assert(leaves@.take(leaves@.len() as int) =~= leaves@);
    Rect::union(zr.as_slice())
}


fn stretch(
    axis: Axis,
    children: &Vec<ZoneNode>,
    ci: usize,
    r: Rect,
    budget: &mut Reach,
    rects: &Vec<Rect>,
) -> (res: Rect)
    requires
        ci < children@.len(),
        forall|j: int| 0 <= j < children@.len() ==> (#[trigger] children@[j]).leaves_below(rects@.len()),
    ensures
        (res, *final(budget)) == spec_stretch(axis, children@, ci as int, r, *old(budget), rects@),
{
    let ghost b0 = *budget;
    let n = children.len();
    let mut rect = r;
    let mut idx = ci;
    if axis == Axis::Horizontal {
        while budget.pos_h > 0 && idx + 1 < n
            invariant
                n == children@.len(),
                ci <= idx < n,
                forall|j: int| 0 <= j < children@.len() ==> (#[trigger] children@[j]).leaves_below(rects@.len()),
                budget.pos_h + (idx - ci) == b0.pos_h,
                budget.neg_h == b0.neg_h && budget.pos_v == b0.pos_v && budget.neg_v == b0.neg_v,
                rect == (if idx == ci { r } else {
                    Rect { right: spec_node_bbox(children@[idx as int], rects@).right, ..r }
                }),
            decreases n - idx,
        {
            idx = idx + 1;
            let bb = sibling_bbox(children, idx, rects);
            rect.right = bb.right;
            budget.pos_h = budget.pos_h - 1;
        }
        let ghost kp: int = if b0.pos_h <= n - 1 - ci { b0.pos_h as int } else { n - 1 - ci };
        assert(idx - ci == kp);
        let ghost r1 = rect;
        let mut idx = ci;
        while budget.neg_h > 0 && idx > 0
            invariant
                n == children@.len(),
                idx <= ci < n,
                forall|j: int| 0 <= j < children@.len() ==> (#[trigger] children@[j]).leaves_below(rects@.len()),
                budget.neg_h + (ci - idx) == b0.neg_h,
                budget.pos_v == b0.pos_v && budget.neg_v == b0.neg_v,
                budget.pos_h + kp == b0.pos_h,
                rect == (if idx == ci { r1 } else {
                    Rect { left: spec_node_bbox(children@[idx as int], rects@).left, ..r1 }
                }),
            decreases idx,
        {
            idx = idx - 1;
            let bb = sibling_bbox(children, idx, rects);
            rect.left = bb.left;
            budget.neg_h = budget.neg_h - 1;
        }
        let ghost kn: int = if b0.neg_h <= ci { b0.neg_h as int } else { ci as int };
        assert(ci - idx == kn);
    } else {
        while budget.pos_v > 0 && idx + 1 < n
            invariant
                n == children@.len(),
                ci <= idx < n,
                forall|j: int| 0 <= j < children@.len() ==> (#[trigger] children@[j]).leaves_below(rects@.len()),
                budget.pos_v + (idx - ci) == b0.pos_v,
                budget.neg_h == b0.neg_h && budget.pos_h == b0.pos_h && budget.neg_v == b0.neg_v,
                rect == (if idx == ci { r } else {
                    Rect { bottom: spec_node_bbox(children@[idx as int], rects@).bottom, ..r }
                }),
            decreases n - idx,
        {
            idx = idx + 1;
            let bb = sibling_bbox(children, idx, rects);
            rect.bottom = bb.bottom;
            budget.pos_v = budget.pos_v - 1;
        }
        let ghost kp: int = if b0.pos_v <= n - 1 - ci { b0.pos_v as int } else { n - 1 - ci };
        assert(idx - ci == kp);
        let ghost r1 = rect;
        let mut idx = ci;
        while budget.neg_v > 0 && idx > 0
            invariant
                n == children@.len(),
                idx <= ci < n,
                forall|j: int| 0 <= j < children@.len() ==> (#[trigger] children@[j]).leaves_below(rects@.len()),
                budget.neg_v + (ci - idx) == b0.neg_v,
                budget.pos_h == b0.pos_h && budget.neg_h == b0.neg_h,
                budget.pos_v + kp == b0.pos_v,
                rect == (if idx == ci { r1 } else {
                    Rect { top: spec_node_bbox(children@[idx as int], rects@).top, ..r1 }
                }),
            decreases idx,
        {
            idx = idx - 1;
            let bb = sibling_bbox(children, idx, rects);
            rect.top = bb.top;
            budget.neg_v = budget.neg_v - 1;
        }
        let ghost kn: int = if b0.neg_v <= ci { b0.neg_v as int } else { ci as int };
        assert(ci - idx == kn);
    }
    rect
}

impl ZoneNode {
    fn bounds(&self, leaf_idx: usize, budget: &mut Reach, rects: &Vec<Rect>) -> (res: Option<Rect>)
        requires
            self.leaves_below(rects@.len()),
        ensures
            (res, *final(budget)) == self.spec_bounds(leaf_idx, *old(budget), rects@),
        decreases self,
    {
        match self {
            ZoneNode::Leaf(i) => {
                if *i == leaf_idx {
                    assert(self.leaves()[0] == *i);
                    Some(rects[leaf_idx])
                } else {
                    None
                }
            },
            ZoneNode::Split { axis, children } => {
                let mut ci: usize = 0;
                while ci < children.len() && !children[ci].contains_leaf(leaf_idx)
                    invariant
                        ci <= children@.len(),
                        forall|k: int| 0 <= k < ci ==> !(#[trigger] children@[k].leaves()).contains(leaf_idx),
                    decreases children@.len() - ci,
                {
                    ci = ci + 1;
                }
                if ci >= children.len() {
                    proof { lemma_no_holder(children@, leaf_idx); }
                    return None;
                }
                proof {
                    lemma_first_holder_unique(children@, leaf_idx, ci as int);
                    assert forall|j: int| 0 <= j < children@.len() implies
                        (#[trigger] children@[j]).leaves_below(rects@.len()) by {
                        lemma_child_leaves_below(*self, j, rects@.len());
                    }
                    assert(decreases_to!(children => children@[ci as int]));
                }
                let inner = children[ci].bounds(leaf_idx, budget, rects);
                match inner {
                    None => None,
                    Some(r) => Some(stretch(*axis, children, ci, r, budget, rects)),
                }
            },
        }
    }
}

/// A layout whose zones have been placed on a monitor's work area.
#[derive(Debug)]
pub struct Layout {
    pub name: String,
    /// Absolute rect of every zone, in reading order.
    pub zones: Vec<Rect>,
    pub tree: ZoneNode,
}

impl Layout {
    /// Every leaf of the tree names one of the zones.
    pub open spec fn wf(self) -> bool {
        self.tree.leaves_below(self.zones@.len())
    }

    pub open spec fn spec_bounds_for_reach(self, leaf_idx: usize, reach: Reach) -> Rect {
        match self.tree.spec_bounds(leaf_idx, reach, self.zones@).0 {
            Some(r) => r,
            None => self.zones@[leaf_idx as int],
        }
    }

    /// Rect `leaf_idx` covers once stretched by `reach`.
    pub fn bounds_for_reach(&self, leaf_idx: usize, reach: Reach) -> (r: Rect)
        requires
            self.wf(),
            leaf_idx < self.zones@.len(),
        ensures
            r == self.spec_bounds_for_reach(leaf_idx, reach),
    {
        let mut budget = reach;
        match self.tree.bounds(leaf_idx, &mut budget, &self.zones) {
            Some(r) => r,
            None => self.zones[leaf_idx],
        }
    }
}


proof fn lemma_zero_budget(node: ZoneNode, leaf: usize, rects: Seq<Rect>)
    ensures
        node.spec_bounds(leaf, Reach::zero(), rects).1 == Reach::zero(),
        node.spec_bounds(leaf, Reach::zero(), rects).0 matches Some(r) ==> r == rects[leaf as int],
    decreases node,
{
    match node {
        ZoneNode::Leaf(_) => {},
        ZoneNode::Split { axis, children } => {
            match first_holder(children@, leaf) {
                None => {},
                Some(ci) => {
                    if 0 <= ci < children.len() {
                        assert(decreases_to!(children => children@[ci]));
                        lemma_zero_budget(children[ci], leaf, rects);
                    }
                },
            }
        },
    }
}

impl ZoneNode {
    /// Whether no split among the first `n` children of this node, nor this split itself,
    /// nor any split below them divides along `axis`.
    pub open spec fn avoids_upto(self, axis: Axis, n: nat) -> bool
        decreases self, n,
    {
        match self {
            ZoneNode::Leaf(_) => true,
            ZoneNode::Split { axis: a, children } => {
                if n == 0 || n > children.len() {
                    a != axis
                } else {
                    self.avoids_upto(axis, (n - 1) as nat) && children[n - 1].avoids_upto(
                        axis,
                        children[n - 1].num_children(),
                    )
                }
            },
        }
    }

    /// Whether no split in this tree divides along `axis`.
    pub open spec fn avoids(self, axis: Axis) -> bool {
        self.avoids_upto(axis, self.num_children())
    }
}

impl Reach {
    /// This reach with nothing along `axis`.
    pub open spec fn without(self, axis: Axis) -> Reach {
        match axis {
            Axis::Horizontal => Reach { neg_h: 0, pos_h: 0, ..self },
            Axis::Vertical => Reach { neg_v: 0, pos_v: 0, ..self },
        }
    }

    /// The two reaches agree on every edge not along `axis`.
    pub open spec fn agrees_off(self, other: Reach, axis: Axis) -> bool {
        match axis {
            Axis::Horizontal => self.neg_v == other.neg_v && self.pos_v == other.pos_v,
            Axis::Vertical => self.neg_h == other.neg_h && self.pos_h == other.pos_h,
        }
    }
}

proof fn lemma_avoids_child(node: ZoneNode, axis: Axis, n: nat, j: int)
    requires
        node is Split,
        node.avoids_upto(axis, n),
        0 <= j < n <= node.num_children(),
    ensures
        node->children@[j].avoids(axis),
        node->axis != axis,
    decreases n,
{
    assert(node.avoids_upto(axis, (n - 1) as nat));
    if n - 1 > j {
        lemma_avoids_child(node, axis, (n - 1) as nat, j);
    } else if n - 1 > 0 {
        lemma_avoids_child(node, axis, (n - 1) as nat, 0);
    } else {
        assert(node.avoids_upto(axis, 0));
    }
}

proof fn lemma_reach_off_axis(node: ZoneNode, leaf: usize, b: Reach, c: Reach, rects: Seq<Rect>, axis: Axis)
    requires
        node.avoids(axis),
        b.agrees_off(c, axis),
    ensures
        node.spec_bounds(leaf, b, rects).0 == node.spec_bounds(leaf, c, rects).0,
        node.spec_bounds(leaf, b, rects).1.agrees_off(node.spec_bounds(leaf, c, rects).1, axis),
    decreases node,
{
    match node {
        ZoneNode::Leaf(_) => {},
        ZoneNode::Split { axis: a, children } => {
            match first_holder(children@, leaf) {
                None => {},
                Some(ci) => {
                    if 0 <= ci < children.len() {
                        lemma_avoids_child(node, axis, node.num_children(), ci);
                        assert(decreases_to!(node => children@[ci]));
                        lemma_reach_off_axis(children[ci], leaf, b, c, rects, axis);
                    }
                },
            }
        },
    }
}

/// Reach along an axis on which no split of the layout divides changes nothing: the
/// bounds are those of the same reach without it (for instance, any vertical reach in a
/// layout of columns only).
pub proof fn lemma_reach_along_unsplit_axis_is_ignored(layout: Layout, leaf_idx: usize, reach: Reach, axis: Axis)
    requires
        layout.tree.avoids(axis),
    ensures
        layout.spec_bounds_for_reach(leaf_idx, reach) == layout.spec_bounds_for_reach(leaf_idx, reach.without(axis)),
{
    lemma_reach_off_axis(layout.tree, leaf_idx, reach, reach.without(axis), layout.zones@, axis);
}

/// In a layout that no split divides along `axis`, a zone stretched only along `axis`
/// keeps its own rect.
pub proof fn lemma_growing_along_unsplit_axis_is_a_no_op(layout: Layout, leaf_idx: usize, reach: Reach, axis: Axis)
    requires
        layout.tree.avoids(axis),
        leaf_idx < layout.zones@.len(),
        reach.without(axis) == Reach::zero(),
    ensures
        layout.spec_bounds_for_reach(leaf_idx, reach) == layout.zones@[leaf_idx as int],
{
    lemma_reach_along_unsplit_axis_is_ignored(layout, leaf_idx, reach, axis);
    lemma_zero_budget(layout.tree, leaf_idx, layout.zones@);
}

impl ZoneNode {
    /// Whether, in every split along `axis` on the way down to `leaf`, the branch holding
    /// `leaf` is the last one (`forward`) or the first one: no sibling lies beyond it on
    /// that side.
    pub open spec fn at_edge(self, leaf: usize, axis: Axis, forward: bool) -> bool
        decreases self,
    {
        match self {
            ZoneNode::Leaf(_) => true,
            ZoneNode::Split { axis: a, children } => match first_holder(children@, leaf) {
                None => true,
                Some(ci) => if 0 <= ci < children.len() {
                    &&& a == axis ==> ci == if forward { children.len() - 1 } else { 0 }
                    &&& children[ci].at_edge(leaf, axis, forward)
                } else {
                    true
                },
            },
        }
    }
}

impl Reach {
    /// This reach with nothing on the `axis`/`forward` edge.
    pub open spec fn without_edge(self, axis: Axis, forward: bool) -> Reach {
        match (axis, forward) {
            (Axis::Horizontal, true) => Reach { pos_h: 0, ..self },
            (Axis::Horizontal, false) => Reach { neg_h: 0, ..self },
            (Axis::Vertical, true) => Reach { pos_v: 0, ..self },
            (Axis::Vertical, false) => Reach { neg_v: 0, ..self },
        }
    }
}

proof fn lemma_reach_at_edge(node: ZoneNode, leaf: usize, b: Reach, c: Reach, rects: Seq<Rect>, axis: Axis, forward: bool)
    requires
        node.at_edge(leaf, axis, forward),
        b.without_edge(axis, forward) == c.without_edge(axis, forward),
    ensures
        node.spec_bounds(leaf, b, rects).0 == node.spec_bounds(leaf, c, rects).0,
        node.spec_bounds(leaf, b, rects).1.without_edge(axis, forward) == node.spec_bounds(leaf, c, rects).1.without_edge(axis, forward),
    decreases node,
{
    match node {
        ZoneNode::Leaf(_) => {},
        ZoneNode::Split { axis: a, children } => {
            match first_holder(children@, leaf) {
                None => {},
                Some(ci) => {
                    if 0 <= ci < children.len() {
                        assert(decreases_to!(node => children@[ci]));
                        lemma_reach_at_edge(children[ci], leaf, b, c, rects, axis, forward);
                    }
                },
            }
        },
    }
}

/// Reach toward a side on which the zone's branch has no sibling in any split along that
/// axis above it (for instance, leftward from the leftmost zone) changes nothing: the
/// bounds are those of the same reach without it.
pub proof fn lemma_reach_toward_no_sibling_is_ignored(layout: Layout, leaf_idx: usize, reach: Reach, axis: Axis, forward: bool)
    requires
        layout.tree.at_edge(leaf_idx, axis, forward),
    ensures
        layout.spec_bounds_for_reach(leaf_idx, reach) == layout.spec_bounds_for_reach(leaf_idx, reach.without_edge(axis, forward)),
{
    assert(reach.without_edge(axis, forward).without_edge(axis, forward) == reach.without_edge(axis, forward));
    lemma_reach_at_edge(layout.tree, leaf_idx, reach, reach.without_edge(axis, forward), layout.zones@, axis, forward);
}

/// Reach of `k` on the near side (left or top) of `axis`, nothing elsewhere.
pub open spec fn back_reach(axis: Axis, k: u32) -> Reach {
    match axis {
        Axis::Horizontal => Reach { neg_h: k, ..Reach::zero() },
        Axis::Vertical => Reach { neg_v: k, ..Reach::zero() },
    }
}

/// Growing a zone back (leftward along a horizontal split, upward along a vertical one):
/// when the top split of a layout runs along `axis` and holds the zone directly as its
/// child `ci >= 1`, a reach of `k >= 1` on the near side moves the zone's near edge onto
/// the near edge of the sibling `min(k, ci)` places before it (the left edge of the
/// column to its left, growing left once), and leaves its other edges where they were.
pub proof fn lemma_growing_back_reaches_preceding_sibling(layout: Layout, leaf_idx: usize, ci: int, k: u32, axis: Axis)
    requires
        layout.tree is Split,
        layout.tree->axis == axis,
        1 <= ci < layout.tree->children@.len(),
        layout.tree->children@[ci] == ZoneNode::Leaf(leaf_idx),
        forall|j: int| 0 <= j < ci ==> !(#[trigger] layout.tree->children@[j].leaves()).contains(leaf_idx),
        k >= 1,
    ensures
        ({
            let children = layout.tree->children@;
            let z = layout.zones@[leaf_idx as int];
            let back = if (k as int) <= ci { k as int } else { ci };
            let bb = spec_node_bbox(children[ci - back], layout.zones@);
            let r = layout.spec_bounds_for_reach(leaf_idx, back_reach(axis, k));
            match axis {
                Axis::Horizontal => r == Rect { left: bb.left, ..z },
                Axis::Vertical => r == Rect { top: bb.top, ..z },
            }
        }),
{
    let children = layout.tree->children@;
    let leaf = ZoneNode::Leaf(leaf_idx);
    assert(leaf.leaves() =~= seq![leaf_idx]);
    assert(leaf.leaves()[0] == leaf_idx);
    assert(is_first_holder(children, leaf_idx, ci));
    lemma_first_holder_unique(children, leaf_idx, ci);
    assert(children[ci].spec_bounds(leaf_idx, back_reach(axis, k), layout.zones@) == (
        Some(layout.zones@[leaf_idx as int]),
        back_reach(axis, k),
    ));
}

/// Reach of `k` on the far side (right or bottom) of `axis`, nothing elsewhere.
pub open spec fn forward_reach(axis: Axis, k: u32) -> Reach {
    match axis {
        Axis::Horizontal => Reach { pos_h: k, ..Reach::zero() },
        Axis::Vertical => Reach { pos_v: k, ..Reach::zero() },
    }
}

/// Growing a zone forward (rightward along a horizontal split, downward along a vertical
/// one): when the top split of a layout runs along `axis` and holds the zone directly as
/// its child `ci`, with a sibling after it, a reach of `k >= 1` on the far side moves the
/// zone's far edge onto the far edge of the sibling `min(k, n - 1 - ci)` places after it,
/// and leaves its other edges where they were.
pub proof fn lemma_growing_forward_reaches_following_sibling(layout: Layout, leaf_idx: usize, ci: int, k: u32, axis: Axis)
    requires
        layout.tree is Split,
        layout.tree->axis == axis,
        0 <= ci < layout.tree->children@.len() - 1,
        layout.tree->children@[ci] == ZoneNode::Leaf(leaf_idx),
        forall|j: int| 0 <= j < ci ==> !(#[trigger] layout.tree->children@[j].leaves()).contains(leaf_idx),
        k >= 1,
    ensures
        ({
            let children = layout.tree->children@;
            let z = layout.zones@[leaf_idx as int];
            let room = children.len() - 1 - ci;
            let ahead = if (k as int) <= room { k as int } else { room };
            let bb = spec_node_bbox(children[ci + ahead], layout.zones@);
            let r = layout.spec_bounds_for_reach(leaf_idx, forward_reach(axis, k));
            match axis {
                Axis::Horizontal => r == Rect { right: bb.right, ..z },
                Axis::Vertical => r == Rect { bottom: bb.bottom, ..z },
            }
        }),
{
    let children = layout.tree->children@;
    let leaf = ZoneNode::Leaf(leaf_idx);
    assert(leaf.leaves() =~= seq![leaf_idx]);
    assert(leaf.leaves()[0] == leaf_idx);
    assert(is_first_holder(children, leaf_idx, ci));
    lemma_first_holder_unique(children, leaf_idx, ci);
    assert(children[ci].spec_bounds(leaf_idx, forward_reach(axis, k), layout.zones@) == (
        Some(layout.zones@[leaf_idx as int]),
        forward_reach(axis, k),
    ));
}

/// With nothing stretched, the bounds of a zone are the zone's own rect.
pub proof fn lemma_unstretched_bounds_are_own_zone(layout: Layout, leaf_idx: usize)
    requires
        leaf_idx < layout.zones@.len(),
    ensures
        layout.spec_bounds_for_reach(leaf_idx, Reach::zero()) == layout.zones@[leaf_idx as int],
{
    lemma_zero_budget(layout.tree, leaf_idx, layout.zones@);
}

} // verus!
