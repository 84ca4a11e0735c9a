//! Connected-component extraction: labeling of the 4-connected
//! foreground regions of a binary mask.

use vstd::prelude::*;
use vstd::pervasive::VecAdditionalExecFns;
use crate::frame::{lemma_cell_index, lemma_flat_index, lemma_tight_grid, Frame, PixelFormat};
use crate::filters::{copy_gray, lemma_grays_fit, MAX_DIM};

verus! {

/// One detected region: the bounding box of a maximal 4-connected set
/// of foreground pixels, in frame-pixel coordinates with the origin at
/// the top left, plus the pixel count of the region itself.
#[derive(Clone, Copy, PartialEq, Eq, Structural, Debug)]
pub struct ConnectedComponent {
    /// Leftmost column of the bounding box.
    pub left: usize,
    /// Topmost row of the bounding box.
    pub top: usize,
    /// Width of the bounding box in pixels.
    pub width: usize,
    /// Height of the bounding box in pixels.
    pub height: usize,
    /// Number of pixels in the labeled region.
    pub area: usize,
}

impl ConnectedComponent {
    /// The bounding box is nonempty and lies inside a `w`-by-`h` frame.
    pub open spec fn in_bounds(self, w: int, h: int) -> bool {
        &&& self.width >= 1
        &&& self.height >= 1
        &&& self.left + self.width <= w
        &&& self.top + self.height <= h
    }

    /// Pixel `(x, y)` lies inside the bounding box.
    pub open spec fn contains(self, x: int, y: int) -> bool {
        &&& self.left <= x < self.left + self.width
        &&& self.top <= y < self.top + self.height
    }
}

/// The mask grid has at least one foreground (nonzero) pixel.
pub open spec fn has_fg(g: Seq<u8>) -> bool {
    exists|i: int| 0 <= i < g.len() && g[i] != 0
}

/// Flat indices `a` and `b` name 4-adjacent pixels of a `w`-by-`h`
/// grid: same row and neighboring columns, or same column and
/// neighboring rows.
pub open spec fn adjacent(w: int, h: int, a: int, b: int) -> bool {
    &&& 0 <= a < w * h
    &&& 0 <= b < w * h
    &&& ((a % w == b % w && (a / w - b / w == 1 || b / w - a / w == 1)) || (a / w == b / w && (a
        % w - b % w == 1 || b % w - a % w == 1)))
}

/// A 4-connected walk through foreground pixels.
pub open spec fn is_fg_path(g: Seq<u8>, w: int, h: int, p: Seq<int>) -> bool {
    &&& p.len() >= 1
    &&& forall|k: int| 0 <= k < p.len() ==> 0 <= #[trigger] p[k] < w * h && g[p[k]] != 0
    &&& forall|k: int| 0 <= k < p.len() - 1 ==> adjacent(w, h, #[trigger] p[k], p[k + 1])
}

/// Pixels `a` and `b` lie in the same maximal 4-connected foreground
/// region: a walk through foreground pixels joins them.
pub open spec fn connected(g: Seq<u8>, w: int, h: int, a: int, b: int) -> bool {
    exists|p: Seq<int>| #[trigger] is_fg_path(g, w, h, p) && p[0] == a && p.last() == b
}

/// A foreground pixel is connected to itself.
proof fn lemma_connected_refl(g: Seq<u8>, w: int, h: int, a: int)
    requires
        0 <= a < w * h,
        g[a] != 0,
    ensures
        connected(g, w, h, a, a),
{
    let p = seq![a];
    assert(is_fg_path(g, w, h, p));
}

/// Extending a walk by one adjacent foreground pixel.
proof fn lemma_connected_extend(g: Seq<u8>, w: int, h: int, a: int, b: int, c: int)
    requires
        connected(g, w, h, a, b),
        adjacent(w, h, b, c),
        g[c] != 0,
    ensures
        connected(g, w, h, a, c),
{
    let p = choose|p: Seq<int>| #[trigger] is_fg_path(g, w, h, p) && p[0] == a && p.last() == b;
    let q = p.push(c);
    assert forall|k: int| 0 <= k < q.len() - 1 implies adjacent(w, h, #[trigger] q[k], q[k + 1]) by {
        if k < p.len() - 1 {
            assert(q[k] == p[k] && q[k + 1] == p[k + 1]);
        } else {
            assert(q[k] == p.last() && q[k + 1] == c);
        }
    }
    assert(is_fg_path(g, w, h, q));
    assert(q[0] == a && q.last() == c);
}

/// The pixels labeled `lbl` are closed under foreground adjacency: a
/// foreground neighbor of an `lbl` pixel is itself labeled `lbl`.
pub open spec fn lbl_closed(g: Seq<u8>, w: int, h: int, labels: Seq<usize>, lbl: usize) -> bool {
    forall|i: int, j: int|
        0 <= i < labels.len() && labels[i] == lbl && #[trigger] adjacent(w, h, i, j) && g[j] != 0
            ==> labels[j] == lbl
}

/// The labeled (nonzero) pixels are closed under foreground
/// adjacency: a foreground neighbor of a labeled pixel is labeled.
pub open spec fn nonzero_closed(g: Seq<u8>, w: int, h: int, labels: Seq<usize>) -> bool {
    forall|i: int, j: int|
        0 <= i < labels.len() && labels[i] != 0 && #[trigger] adjacent(w, h, i, j) && g[j] != 0
            ==> labels[j] != 0
}

/// A label set that contains `seed` and is closed under foreground
/// adjacency contains every pixel of `seed`'s region: walks cannot
/// leave a closed set.
proof fn lemma_closed_walk(
    g: Seq<u8>,
    w: int,
    h: int,
    labels: Seq<usize>,
    lbl: usize,
    p: Seq<int>,
    k: int,
)
    requires
        labels.len() == w * h,
        is_fg_path(g, w, h, p),
        labels[p[0]] == lbl,
        lbl_closed(g, w, h, labels, lbl),
        0 <= k < p.len(),
    ensures
        labels[p[k]] == lbl,
    decreases k,
{
    if k > 0 {
        lemma_closed_walk(g, w, h, labels, lbl, p, k - 1);
        assert(adjacent(w, h, p[k - 1], p[k]));
    }
}

/// The only pixels adjacent to `p` are the four at offsets `-1`,
/// `+1`, `-w`, `+w`, each existing only when `p` is not on the
/// corresponding edge of the grid.
proof fn lemma_adjacent_cases(w: int, h: int, p: int, j: int)
    requires
        w >= 1,
        h >= 1,
        adjacent(w, h, p, j),
    ensures
        (j == p - 1 && p % w >= 1) || (j == p + 1 && p % w < w - 1) || (j == p - w && p / w >= 1)
            || (j == p + w && p / w < h - 1),
{
    lemma_flat_index(w, h, p);
    lemma_flat_index(w, h, j);
    let pq = p / w;
    let jq = j / w;
    let pr = p % w;
    let jr = j % w;
    if pr == jr {
        if pq - jq == 1 {
            assert(j == p - w) by (nonlinear_arith)
                requires
                    p == pq * w + pr,
                    j == jq * w + jr,
                    pr == jr,
                    pq - jq == 1,
            ;
        } else {
            assert(j == p + w) by (nonlinear_arith)
                requires
                    p == pq * w + pr,
                    j == jq * w + jr,
                    pr == jr,
                    jq - pq == 1,
            ;
        }
    } else {
        assert(pq == jq);
        assert(pq * w == jq * w);
    }
}

/// Pixel `i` belongs to the maximal 4-connected foreground region
/// holding pixel `r`.
pub open spec fn in_region(g: Seq<u8>, w: int, h: int, r: int, i: int) -> bool {
    &&& 0 <= i < w * h
    &&& g[i] != 0
    &&& connected(g, w, h, r, i)
}

/// How many pixels of `r`'s region have a flat index below `n`.
pub open spec fn region_count_below(g: Seq<u8>, w: int, h: int, r: int, n: nat) -> nat
    decreases n,
{
    if n == 0 {
        0
    } else {
        region_count_below(g, w, h, r, (n - 1) as nat) + if in_region(g, w, h, r, n - 1) {
            1nat
        } else {
            0nat
        }
    }
}

/// The exact pixel count of `r`'s region.
pub open spec fn region_area(g: Seq<u8>, w: int, h: int, r: int) -> nat {
    region_count_below(g, w, h, r, (w * h) as nat)
}

/// A labeling that marks exactly the pixels of `r`'s region with `v`
/// has as many `v` entries as the region has pixels.
proof fn lemma_count_eq_is_region_area(
    g: Seq<u8>,
    w: int,
    h: int,
    r: int,
    labels: Seq<usize>,
    v: usize,
)
    requires
        labels.len() == w * h,
        forall|i: int|
            0 <= i < labels.len() ==> (#[trigger] labels[i] == v <==> in_region(g, w, h, r, i)),
    ensures
        count_eq(labels, v) == region_area(g, w, h, r),
{
    lemma_count_prefix(g, w, h, r, labels, v, labels.len() as nat);
    assert(labels.subrange(0, labels.len() as int) =~= labels);
}

/// Prefix version of [`lemma_count_eq_is_region_area`], by induction
/// on the prefix length.
proof fn lemma_count_prefix(
    g: Seq<u8>,
    w: int,
    h: int,
    r: int,
    labels: Seq<usize>,
    v: usize,
    n: nat,
)
    requires
        n <= labels.len(),
        forall|i: int|
            0 <= i < labels.len() ==> (#[trigger] labels[i] == v <==> in_region(g, w, h, r, i)),
    ensures
        count_eq(labels.subrange(0, n as int), v) == region_count_below(g, w, h, r, n),
    decreases n,
{
    if n == 0 {
        assert(labels.subrange(0, 0).len() == 0);
    } else {
        lemma_count_prefix(g, w, h, r, labels, v, (n - 1) as nat);
        let pre = labels.subrange(0, n as int);
        assert(pre.drop_last() =~= labels.subrange(0, n - 1));
        assert(pre.last() == labels[n - 1]);
    }
}

/// The component `c` is exactly the maximal 4-connected foreground
/// region holding pixel `r`: the box covers the region, every box
/// edge is attained by a region pixel (so the box is the minimal one),
/// and `area` is the region's exact pixel count.
pub open spec fn describes_region(
    c: ConnectedComponent,
    g: Seq<u8>,
    w: int,
    h: int,
    r: int,
) -> bool {
    &&& in_region(g, w, h, r, r)
    &&& forall|i: int| #[trigger] in_region(g, w, h, r, i) ==> c.contains(i % w, i / w)
    &&& exists|i: int| #[trigger] in_region(g, w, h, r, i) && i % w == c.left
    &&& exists|i: int| #[trigger] in_region(g, w, h, r, i) && i % w == c.left + c.width - 1
    &&& exists|i: int| #[trigger] in_region(g, w, h, r, i) && i / w == c.top
    &&& exists|i: int| #[trigger] in_region(g, w, h, r, i) && i / w == c.top + c.height - 1
    &&& c.area == region_area(g, w, h, r)
}

/// The component list is a decomposition of the mask's foreground
/// into maximal 4-connected regions: one entry per region (`seeds`
/// holding one pixel of each), no two entries for the same region,
/// and no region missing.
pub open spec fn region_decomposition(
    components: Seq<ConnectedComponent>,
    seeds: Seq<int>,
    g: Seq<u8>,
    w: int,
    h: int,
) -> bool {
    &&& seeds.len() == components.len()
    &&& forall|ci: int|
        0 <= ci < components.len() ==> describes_region(#[trigger] components[ci], g, w, h, seeds[ci])
    &&& forall|ci: int, cj: int|
        0 <= ci < cj < components.len() ==> !connected(
            g,
            w,
            h,
            #[trigger] seeds[ci],
            #[trigger] seeds[cj],
        )
    &&& forall|i: int|
        0 <= i < w * h && g[i] != 0 ==> exists|ci: int|
            0 <= ci < components.len() && connected(g, w, h, #[trigger] seeds[ci], i)
}

/// Pixel `(x, y)` lies in the bounding box of some listed component.
pub open spec fn covers(components: Seq<ConnectedComponent>, x: int, y: int) -> bool {
    exists|ci: int| 0 <= ci < components.len() && (#[trigger] components[ci]).contains(x, y)
}

/// Some foreground pixel of the `w`-by-`h` mask grid `g` lies inside
/// the component's bounding box.
pub open spec fn holds_fg(component: ConnectedComponent, w: int, h: int, g: Seq<u8>) -> bool {
    exists|x: int, y: int|
        0 <= x < w && 0 <= y < h && #[trigger] g[y * w + x] != 0 && component.contains(x, y)
}

/// What the labeling pass promises of its result, over the mask grid
/// `g` of a `w`-by-`h` frame: every component is a nonempty in-bounds
/// box holding at least one foreground pixel, every foreground pixel
/// is covered by some component's box, there are components exactly
/// when there is foreground, and — the full statement — the list is a
/// decomposition of the foreground into maximal 4-connected regions:
/// one component per region, with the minimal bounding box and the
/// region's exact pixel count.
pub open spec fn components_ok(
    components: Seq<ConnectedComponent>,
    w: int,
    h: int,
    g: Seq<u8>,
) -> bool {
    &&& forall|ci: int|
        0 <= ci < components.len() ==> (#[trigger] components[ci]).in_bounds(w, h)
    &&& forall|ci: int|
        0 <= ci < components.len() ==> 1 <= (#[trigger] components[ci]).area <= w * h
    &&& forall|x: int, y: int|
        0 <= x < w && 0 <= y < h && g[y * w + x] != 0 ==> #[trigger] covers(components, x, y)
    &&& forall|ci: int|
        0 <= ci < components.len() ==> holds_fg(#[trigger] components[ci], w, h, g)
    &&& (components.len() == 0 <==> !has_fg(g))
    &&& exists|seeds: Seq<int>| #[trigger] region_decomposition(components, seeds, g, w, h)
}

/// How many entries of `s` equal `v`.
pub open spec fn count_eq(s: Seq<usize>, v: usize) -> nat
    decreases s.len(),
{
    if s.len() == 0 {
        0
    } else {
        count_eq(s.drop_last(), v) + if s.last() == v {
            1nat
        } else {
            0nat
        }
    }
}

/// Updating one entry moves the count of each value by at most one.
proof fn lemma_count_eq_update(s: Seq<usize>, i: int, x: usize, v: usize)
    requires
        0 <= i < s.len(),
    ensures
        count_eq(s.update(i, x), v) == count_eq(s, v) - (if s[i] == v {
            1int
        } else {
            0int
        }) + (if x == v {
            1int
        } else {
            0int
        }),
    decreases s.len(),
{
    let t = s.update(i, x);
    if i == s.len() - 1 {
        assert(t.drop_last() =~= s.drop_last());
    } else {
        assert(t.drop_last() =~= s.drop_last().update(i, x));
        lemma_count_eq_update(s.drop_last(), i, x, v);
    }
}

/// No entry of `s` equals `v`, so the count is zero.
proof fn lemma_count_eq_absent(s: Seq<usize>, v: usize)
    requires
        forall|i: int| 0 <= i < s.len() ==> s[i] != v,
    ensures
        count_eq(s, v) == 0,
    decreases s.len(),
{
    if s.len() > 0 {
        lemma_count_eq_absent(s.drop_last(), v);
    }
}

/// The count of any value is at most the length.
proof fn lemma_count_eq_le_len(s: Seq<usize>, v: usize)
    ensures
        count_eq(s, v) <= s.len(),
    decreases s.len(),
{
    if s.len() > 0 {
        lemma_count_eq_le_len(s.drop_last(), v);
    }
}

/// Some pixel carries label `ci + 1`.
pub open spec fn has_witness(labels: Seq<usize>, n: int, ci: int) -> bool {
    exists|i: int| 0 <= i < n && #[trigger] labels[i] == ci + 1
}

/// A pixel sits somewhere on the pending stack.
spec fn on_stack(stack: Seq<usize>, i: int) -> bool {
    exists|k: int| 0 <= k < stack.len() && #[trigger] stack[k] == i
}

/// Pushing onto the stack keeps every pending pixel pending.
proof fn lemma_on_stack_push(stack: Seq<usize>, v: usize, i: int)
    requires
        on_stack(stack, i),
    ensures
        on_stack(stack.push(v), i),
{
    let k = choose|k: int| 0 <= k < stack.len() && #[trigger] stack[k] == i;
    assert(stack.push(v)[k] == i);
}

/// Running state of one flood fill: the bounding box seen so far, the
/// number of pixels labeled, and (for specification only) one labeled
/// pixel attaining each edge of the box.
struct FillState {
    minx: usize,
    miny: usize,
    maxx: usize,
    maxy: usize,
    area: usize,
    at_minx: Ghost<int>,
    at_maxx: Ghost<int>,
    at_miny: Ghost<int>,
    at_maxy: Ghost<int>,
}

/// Everything one flood fill maintains, relative to the mask grid `g`
/// of a `w`-by-`h` frame: labels stay at most `lbl` and only on
/// foreground, only zero entries of the starting labeling `labels0`
/// were changed (to `lbl`), the seed is labeled, every `lbl` pixel
/// lies in the running bounding box and is connected to the seed,
/// every `lbl` pixel is pending on the stack, the exempt pixel
/// `pending` currently being expanded, or has all its foreground
/// neighbors labeled `lbl`, each box edge is attained by a labeled
/// pixel, and `area` counts the `lbl` entries.
spec fn fill_inv(
    g: Seq<u8>,
    w: int,
    h: int,
    labels: Seq<usize>,
    labels0: Seq<usize>,
    stack: Seq<usize>,
    st: FillState,
    lbl: usize,
    seed: int,
    pending: int,
) -> bool {
    &&& labels.len() == w * h
    &&& forall|i: int| 0 <= i < labels.len() ==> #[trigger] labels[i] <= lbl
    &&& forall|i: int| 0 <= i < labels.len() && #[trigger] labels[i] != 0 ==> g[i] != 0
    &&& forall|i: int|
        0 <= i < labels.len() ==> #[trigger] labels[i] == labels0[i] || (labels0[i] == 0
            && labels[i] == lbl)
    &&& 0 <= seed < labels.len() && labels[seed] == lbl
    &&& forall|i: int|
        0 <= i < labels.len() && #[trigger] labels[i] == lbl ==> st.minx <= i % w <= st.maxx
            && st.miny <= i / w <= st.maxy
    &&& st.minx <= st.maxx < w
    &&& st.miny <= st.maxy < h
    &&& forall|s: int|
        0 <= s < stack.len() ==> 0 <= #[trigger] stack[s] < labels.len() && labels[stack[s] as int]
            == lbl
    &&& st.area == count_eq(labels, lbl)
    &&& 1 <= st.area <= labels.len()
    &&& forall|i: int|
        0 <= i < labels.len() && #[trigger] labels[i] == lbl ==> connected(g, w, h, seed, i)
    &&& forall|i: int|
        0 <= i < labels.len() && #[trigger] labels[i] == lbl ==> on_stack(stack, i) || i == pending
            || (forall|j: int| #[trigger] adjacent(w, h, i, j) && g[j] != 0 ==> labels[j] == lbl)
    &&& 0 <= st.at_minx@ < labels.len() && labels[st.at_minx@] == lbl && st.at_minx@ % w == st.minx
    &&& 0 <= st.at_maxx@ < labels.len() && labels[st.at_maxx@] == lbl && st.at_maxx@ % w == st.maxx
    &&& 0 <= st.at_miny@ < labels.len() && labels[st.at_miny@] == lbl && st.at_miny@ / w == st.miny
    &&& 0 <= st.at_maxy@ < labels.len() && labels[st.at_maxy@] == lbl && st.at_maxy@ / w == st.maxy
}

/// Labels the pixel `q = (qx, qy)` with `lbl` if it is unlabeled
/// foreground, growing the bounding box and the stack accordingly.
/// `q` is a neighbor of the labeled pixel `parent`, so a labeled `q`
/// joins `parent`'s region: a foreground `q` is labeled `lbl` when
/// this returns.
#[verifier::rlimit(100)]
fn visit(
    gv: &Frame,
    labels: &mut Vec<usize>,
    stack: &mut Vec<usize>,
    st: &mut FillState,
    q: usize,
    qx: usize,
    qy: usize,
    lbl: usize,
    Ghost(labels0): Ghost<Seq<usize>>,
    Ghost(seed): Ghost<int>,
    Ghost(parent): Ghost<int>,
)
    requires
        gv.wf(),
        gv.format == PixelFormat::Gray8,
        gv.stride == gv.width,
        gv.data@.len() == gv.width * gv.height,
        fill_inv(
            gv.data@,
            gv.width as int,
            gv.height as int,
            old(labels)@,
            labels0,
            old(stack)@,
            *old(st),
            lbl,
            seed,
            parent,
        ),
        nonzero_closed(gv.data@, gv.width as int, gv.height as int, labels0),
        forall|i: int| 0 <= i < labels0.len() ==> #[trigger] labels0[i] <= lbl - 1,
        labels0.len() == gv.width * gv.height,
        q == qy * gv.width + qx,
        qx < gv.width,
        qy < gv.height,
        lbl >= 1,
        0 <= parent < gv.width * gv.height,
        old(labels)@[parent] == lbl,
        adjacent(gv.width as int, gv.height as int, parent, q as int),
    ensures
        fill_inv(
            gv.data@,
            gv.width as int,
            gv.height as int,
            final(labels)@,
            labels0,
            final(stack)@,
            *final(st),
            lbl,
            seed,
            parent,
        ),
        5 * count_eq(final(labels)@, 0usize) + final(stack)@.len() <= 5 * count_eq(
            old(labels)@,
            0usize,
        ) + old(stack)@.len(),
        forall|i: int|
            0 <= i < final(labels)@.len() ==> #[trigger] final(labels)@[i] == old(labels)@[i] || (
            old(labels)@[i] == 0 && final(labels)@[i] == lbl && i == q),
        gv.data@[q as int] != 0 ==> final(labels)@[q as int] == lbl,
{
    let ghost g = gv.data@;
    let ghost w = gv.width as int;
    let ghost h = gv.height as int;
    proof {
        lemma_cell_index(w, h, qx as int, qy as int);
    }
    // Reading the length bounds the labels within `usize` range.
    let _len = labels.len();
    if gv.data[q] != 0 && labels[q] == 0 {
        let ghost stack_was = stack@;
        proof {
            lemma_count_eq_update(labels@, q as int, lbl, lbl);
            lemma_count_eq_update(labels@, q as int, lbl, 0usize);
            lemma_count_eq_le_len(labels@.update(q as int, lbl), lbl);
            lemma_connected_extend(g, w, h, seed, parent, q as int);
        }
        labels.set(q, lbl);
        st.area = st.area + 1;
        if qx < st.minx {
            st.minx = qx;
            st.at_minx = Ghost(q as int);
        }
        if qx > st.maxx {
            st.maxx = qx;
            st.at_maxx = Ghost(q as int);
        }
        if qy < st.miny {
            st.miny = qy;
            st.at_miny = Ghost(q as int);
        }
        if qy > st.maxy {
            st.maxy = qy;
            st.at_maxy = Ghost(q as int);
        }
        stack.push(q);
        proof {
            assert(stack@[stack@.len() - 1] == q);
            assert forall|i: int|
                0 <= i < labels@.len() && #[trigger] labels@[i] == lbl implies on_stack(stack@, i)
                || i == parent || (forall|j: int|
                #[trigger] adjacent(w, h, i, j) && g[j] != 0 ==> labels@[j] == lbl) by {
                if i == q as int {
                    assert(on_stack(stack@, i));
                } else {
                    if on_stack(stack_was, i) {
                        lemma_on_stack_push(stack_was, q, i);
                    }
                }
            }
        }
    } else {
        proof {
            if gv.data@[q as int] != 0 && labels@[q as int] != lbl {
                // A foreground neighbor of an `lbl` pixel cannot carry
                // an older label: the old labeling is closed, so the
                // parent would carry an old label too.
                assert(labels@[q as int] == labels0[q as int]);
                assert(adjacent(w, h, q as int, parent));
                assert(labels0[parent] != 0);
                assert(labels@[parent] == labels0[parent]);
                assert(false);
            }
        }
    }
}

/// Popping a pixel from the stack keeps the invariant, with the
/// popped pixel exempted until its neighbors are expanded.
proof fn lemma_pop_exemption(
    g: Seq<u8>,
    w: int,
    h: int,
    labels: Seq<usize>,
    labels0: Seq<usize>,
    stack_at_pop: Seq<usize>,
    st: FillState,
    lbl: usize,
    seed: int,
    p: int,
)
    requires
        fill_inv(g, w, h, labels, labels0, stack_at_pop, st, lbl, seed, -1),
        stack_at_pop.len() > 0,
        p == stack_at_pop.last(),
    ensures
        fill_inv(g, w, h, labels, labels0, stack_at_pop.drop_last(), st, lbl, seed, p),
{
    let stack = stack_at_pop.drop_last();
    assert forall|i: int|
        0 <= i < labels.len() && #[trigger] labels[i] == lbl implies on_stack(stack, i) || i == p
        || (forall|j: int| #[trigger] adjacent(w, h, i, j) && g[j] != 0 ==> labels[j] == lbl) by {
        if i != p && on_stack(stack_at_pop, i) {
            let k = choose|k: int|
                0 <= k < stack_at_pop.len() && #[trigger] stack_at_pop[k] == i;
            if k < stack_at_pop.len() - 1 {
                assert(stack[k] == i);
            }
        }
    }
}

/// Once every foreground neighbor of the exempt pixel `p` carries the
/// label, the exemption can be dropped.
proof fn lemma_close_pending(
    g: Seq<u8>,
    w: int,
    h: int,
    labels: Seq<usize>,
    labels0: Seq<usize>,
    stack: Seq<usize>,
    st: FillState,
    lbl: usize,
    seed: int,
    p: int,
)
    requires
        fill_inv(g, w, h, labels, labels0, stack, st, lbl, seed, p),
        w >= 1,
        h >= 1,
        0 <= p < w * h,
        p % w >= 1 ==> g[p - 1] == 0 || labels[p - 1] == lbl,
        p % w < w - 1 ==> g[p + 1] == 0 || labels[p + 1] == lbl,
        p / w >= 1 ==> g[p - w] == 0 || labels[p - w] == lbl,
        p / w < h - 1 ==> g[p + w] == 0 || labels[p + w] == lbl,
    ensures
        fill_inv(g, w, h, labels, labels0, stack, st, lbl, seed, -1),
{
    assert forall|j: int|
        #[trigger] adjacent(w, h, p, j) && g[j] != 0 implies labels[j] == lbl by {
        lemma_adjacent_cases(w, h, p, j);
    }
    assert forall|i: int|
        0 <= i < labels.len() && #[trigger] labels[i] == lbl implies on_stack(stack, i) || i == -1
        || (forall|j: int| #[trigger] adjacent(w, h, i, j) && g[j] != 0 ==> labels[j] == lbl) by {
        if i == p {
        }
    }
}

/// When the stack has emptied, the labeled set is exactly the seed's
/// maximal region, and the whole labeling stays closed.
proof fn lemma_fill_done(
    g: Seq<u8>,
    w: int,
    h: int,
    labels: Seq<usize>,
    labels0: Seq<usize>,
    st: FillState,
    lbl: usize,
    seed: int,
)
    requires
        fill_inv(g, w, h, labels, labels0, Seq::<usize>::empty(), st, lbl, seed, -1),
        nonzero_closed(g, w, h, labels0),
        labels0.len() == w * h,
    ensures
        forall|i: int| #[trigger] in_region(g, w, h, seed, i) ==> labels[i] == lbl,
        nonzero_closed(g, w, h, labels),
{
    assert(lbl_closed(g, w, h, labels, lbl));
    assert forall|i: int| #[trigger] in_region(g, w, h, seed, i) implies labels[i] == lbl by {
        let path = choose|p: Seq<int>|
            #[trigger] is_fg_path(g, w, h, p) && p[0] == seed && p.last() == i;
        lemma_closed_walk(g, w, h, labels, lbl, path, path.len() - 1);
    }
    assert forall|i: int, j: int|
        0 <= i < labels.len() && labels[i] != 0 && #[trigger] adjacent(w, h, i, j) && g[j] != 0
        implies labels[j] != 0 by {
        if labels[i] == lbl {
        } else {
            assert(labels0[i] == labels[i]);
            assert(labels0[j] != 0);
        }
    }
}

/// Expands one popped pixel `p`: visits its four neighbors, labeling
/// any unlabeled foreground among them, and re-establishes the
/// invariant without `p`'s exemption.
#[verifier::rlimit(100)]
fn expand(
    gv: &Frame,
    labels: &mut Vec<usize>,
    stack: &mut Vec<usize>,
    st: &mut FillState,
    p: usize,
    lbl: usize,
    Ghost(labels0): Ghost<Seq<usize>>,
    Ghost(seed): Ghost<int>,
)
    requires
        gv.wf(),
        gv.format == PixelFormat::Gray8,
        gv.stride == gv.width,
        gv.data@.len() == gv.width * gv.height,
        fill_inv(
            gv.data@,
            gv.width as int,
            gv.height as int,
            old(labels)@,
            labels0,
            old(stack)@,
            *old(st),
            lbl,
            seed,
            p as int,
        ),
        nonzero_closed(gv.data@, gv.width as int, gv.height as int, labels0),
        forall|i: int| 0 <= i < labels0.len() ==> #[trigger] labels0[i] <= lbl - 1,
        labels0.len() == gv.width * gv.height,
        lbl >= 1,
        p < gv.width * gv.height,
        old(labels)@[p as int] == lbl,
    ensures
        fill_inv(
            gv.data@,
            gv.width as int,
            gv.height as int,
            final(labels)@,
            labels0,
            final(stack)@,
            *final(st),
            lbl,
            seed,
            -1,
        ),
        5 * count_eq(final(labels)@, 0usize) + final(stack)@.len() <= 5 * count_eq(
            old(labels)@,
            0usize,
        ) + old(stack)@.len(),
{
    let w = gv.width;
    let h = gv.height;
    let ghost g = gv.data@;
    proof {
        lemma_flat_index(w as int, h as int, p as int);
    }
    // Reading the length bounds the labels within `usize` range.
    let _len = labels.len();
    let cx = p % w;
    let cy = p / w;
    if cx >= 1 {
        proof {
            lemma_cell_index(w as int, h as int, cx - 1, cy as int);
        }
        let q = p - 1;
        visit(gv, labels, stack, st, q, cx - 1, cy, lbl, Ghost(labels0), Ghost(seed),
            Ghost(p as int));
    }
    if cx + 1 < w {
        proof {
            lemma_cell_index(w as int, h as int, cx + 1, cy as int);
        }
        let q = p + 1;
        visit(gv, labels, stack, st, q, cx + 1, cy, lbl, Ghost(labels0), Ghost(seed),
            Ghost(p as int));
    }
    if cy >= 1 {
        proof {
            lemma_cell_index(w as int, h as int, cx as int, cy - 1);
            assert((cy - 1) * (w as int) == cy * (w as int) - (w as int)) by (nonlinear_arith);
        }
        let q = p - w;
        visit(gv, labels, stack, st, q, cx, cy - 1, lbl, Ghost(labels0), Ghost(seed),
            Ghost(p as int));
    }
    if cy + 1 < h {
        proof {
            lemma_cell_index(w as int, h as int, cx as int, cy + 1);
            assert((cy + 1) * (w as int) == cy * (w as int) + (w as int)) by (nonlinear_arith);
        }
        let q = p + w;
        visit(gv, labels, stack, st, q, cx, cy + 1, lbl, Ghost(labels0), Ghost(seed),
            Ghost(p as int));
    }
    proof {
        // Every foreground neighbor of `p` is now labeled, so `p`
        // needs no exemption any more.
        lemma_close_pending(g, w as int, h as int, labels@, labels0, stack@, *st, lbl, seed,
            p as int);
    }
}

/// Labels with `lbl` every pixel of the maximal 4-connected
/// foreground region of `seed` in the tight mask `gv` — exactly that
/// region, no more — returning its tight bounding box and exact pixel
/// count as `(minx, miny, maxx, maxy, area)`.
#[verifier::loop_isolation(false)]
#[verifier::rlimit(100)]
fn flood_fill(gv: &Frame, labels: &mut Vec<usize>, seed: usize, lbl: usize) -> (r: (
    usize,
    usize,
    usize,
    usize,
    usize,
))
    requires
        gv.wf(),
        gv.format == PixelFormat::Gray8,
        gv.stride == gv.width,
        gv.width <= MAX_DIM,
        gv.height <= MAX_DIM,
        gv.data@.len() == gv.width * gv.height,
        old(labels)@.len() == gv.width * gv.height,
        seed < gv.width * gv.height,
        gv.data@[seed as int] != 0,
        old(labels)@[seed as int] == 0,
        lbl >= 1,
        forall|i: int| 0 <= i < old(labels)@.len() ==> #[trigger] old(labels)@[i] <= lbl - 1,
        forall|i: int|
            0 <= i < old(labels)@.len() && #[trigger] old(labels)@[i] != 0 ==> gv.data@[i] != 0,
        nonzero_closed(gv.data@, gv.width as int, gv.height as int, old(labels)@),
    ensures
        final(labels)@.len() == old(labels)@.len(),
        forall|i: int| 0 <= i < final(labels)@.len() ==> #[trigger] final(labels)@[i] <= lbl,
        forall|i: int|
            0 <= i < final(labels)@.len() && #[trigger] final(labels)@[i] != 0 ==> gv.data@[i]
                != 0,
        forall|i: int|
            0 <= i < final(labels)@.len() ==> #[trigger] final(labels)@[i] == old(labels)@[i] || (
            old(labels)@[i] == 0 && final(labels)@[i] == lbl),
        final(labels)@[seed as int] == lbl,
        forall|i: int|
            0 <= i < final(labels)@.len() && #[trigger] final(labels)@[i] == lbl ==> r.0 <= i % (
            gv.width as int) <= r.2 && r.1 <= i / (gv.width as int) <= r.3,
        r.0 <= r.2 < gv.width,
        r.1 <= r.3 < gv.height,
        r.4 == count_eq(final(labels)@, lbl),
        1 <= r.4 <= gv.width * gv.height,
        forall|i: int|
            0 <= i < final(labels)@.len() && #[trigger] final(labels)@[i] == lbl ==> in_region(
                gv.data@,
                gv.width as int,
                gv.height as int,
                seed as int,
                i,
            ),
        forall|i: int|
            #[trigger] in_region(gv.data@, gv.width as int, gv.height as int, seed as int, i)
                ==> final(labels)@[i] == lbl,
        nonzero_closed(gv.data@, gv.width as int, gv.height as int, final(labels)@),
        exists|i: int|
            0 <= i < final(labels)@.len() && #[trigger] final(labels)@[i] == lbl && i % (
            gv.width as int) == r.0,
        exists|i: int|
            0 <= i < final(labels)@.len() && #[trigger] final(labels)@[i] == lbl && i % (
            gv.width as int) == r.2,
        exists|i: int|
            0 <= i < final(labels)@.len() && #[trigger] final(labels)@[i] == lbl && i / (
            gv.width as int) == r.1,
        exists|i: int|
            0 <= i < final(labels)@.len() && #[trigger] final(labels)@[i] == lbl && i / (
            gv.width as int) == r.3,
{
    let w = gv.width;
    let h = gv.height;
    let n = labels.len();
    let ghost g = gv.data@;
    let ghost labels0 = labels@;
    proof {
        lemma_flat_index(w as int, h as int, seed as int);
        lemma_count_eq_absent(labels@, lbl);
        lemma_count_eq_update(labels@, seed as int, lbl, lbl);
        lemma_connected_refl(g, w as int, h as int, seed as int);
    }
    let px = seed % w;
    let py = seed / w;
    let mut st = FillState {
        minx: px,
        miny: py,
        maxx: px,
        maxy: py,
        area: 1,
        at_minx: Ghost(seed as int),
        at_maxx: Ghost(seed as int),
        at_miny: Ghost(seed as int),
        at_maxy: Ghost(seed as int),
    };
    labels.set(seed, lbl);
    let mut stack: Vec<usize> = Vec::new();
    stack.push(seed);
    proof {
        assert(stack@[0] == seed);
    }
    while stack.len() > 0
        invariant
            fill_inv(g, w as int, h as int, labels@, labels0, stack@, st, lbl, seed as int, -1),
        decreases 5 * count_eq(labels@, 0usize) + stack@.len(),
    {
        let ghost stack_at_pop = stack@;
        let p = stack.pop().unwrap();
        proof {
            assert(p < n);
            lemma_pop_exemption(g, w as int, h as int, labels@, labels0, stack_at_pop, st, lbl,
                seed as int, p as int);
        }
        expand(gv, labels, &mut stack, &mut st, p, lbl, Ghost(labels0), Ghost(seed as int));
    }
    proof {
        // The stack is empty, so the labeled set is closed: it holds
        // exactly the seed's region.
        assert(stack@ =~= Seq::<usize>::empty());
        lemma_fill_done(g, w as int, h as int, labels@, labels0, st, lbl, seed as int);
    }
    (st.minx, st.miny, st.maxx, st.maxy, st.area)
}

/// A freshly filled component describes its seed's maximal region:
/// the box covers the region and touches it on all four sides, and
/// `area` is the region's exact pixel count.
proof fn lemma_describes_new(
    g: Seq<u8>,
    w: int,
    h: int,
    labels: Seq<usize>,
    lbl: usize,
    seedj: int,
    cc: ConnectedComponent,
)
    requires
        labels.len() == w * h,
        0 <= seedj < w * h,
        g[seedj] != 0,
        labels[seedj] == lbl,
        forall|i: int|
            0 <= i < labels.len() && #[trigger] labels[i] == lbl ==> in_region(g, w, h, seedj, i),
        forall|i: int| #[trigger] in_region(g, w, h, seedj, i) ==> labels[i] == lbl,
        forall|i: int|
            0 <= i < labels.len() && #[trigger] labels[i] == lbl ==> cc.left <= i % w <= cc.left
                + cc.width - 1 && cc.top <= i / w <= cc.top + cc.height - 1,
        exists|i: int|
            0 <= i < labels.len() && #[trigger] labels[i] == lbl && i % w == cc.left,
        exists|i: int|
            0 <= i < labels.len() && #[trigger] labels[i] == lbl && i % w == cc.left + cc.width
                - 1,
        exists|i: int| 0 <= i < labels.len() && #[trigger] labels[i] == lbl && i / w == cc.top,
        exists|i: int|
            0 <= i < labels.len() && #[trigger] labels[i] == lbl && i / w == cc.top + cc.height
                - 1,
        cc.area == count_eq(labels, lbl),
    ensures
        describes_region(cc, g, w, h, seedj),
{
    lemma_connected_refl(g, w, h, seedj);
    assert(in_region(g, w, h, seedj, seedj));
    let il = choose|i: int|
        0 <= i < labels.len() && #[trigger] labels[i] == lbl && i % w == cc.left;
    assert(in_region(g, w, h, seedj, il) && il % w == cc.left);
    let ir = choose|i: int|
        0 <= i < labels.len() && #[trigger] labels[i] == lbl && i % w == cc.left + cc.width - 1;
    assert(in_region(g, w, h, seedj, ir) && ir % w == cc.left + cc.width - 1);
    let it = choose|i: int|
        0 <= i < labels.len() && #[trigger] labels[i] == lbl && i / w == cc.top;
    assert(in_region(g, w, h, seedj, it) && it / w == cc.top);
    let ib = choose|i: int|
        0 <= i < labels.len() && #[trigger] labels[i] == lbl && i / w == cc.top + cc.height - 1;
    assert(in_region(g, w, h, seedj, ib) && ib / w == cc.top + cc.height - 1);
    assert forall|i: int| #[trigger] in_region(g, w, h, seedj, i) implies cc.contains(
        i % w,
        i / w,
    ) by {
        assert(labels[i] == lbl);
    }
    assert(count_eq(labels, lbl) == region_area(g, w, h, seedj)) by {
        lemma_count_eq_is_region_area(g, w, h, seedj, labels, lbl);
    }
}

/// Everything the scan over the mask maintains, relative to the grid
/// `g`: labels index into the component list and mark only
/// foreground, each component is its seed's maximal region (tight box
/// and exact area, in bounds), labeled pixels lie in their
/// component's region and conversely every region pixel carries its
/// component's label, distinct components hold distinct regions, and
/// the labeled set is closed under foreground adjacency.
spec fn scan_inv(
    g: Seq<u8>,
    w: int,
    h: int,
    labels: Seq<usize>,
    components: Seq<ConnectedComponent>,
    seeds: Seq<int>,
) -> bool {
    &&& labels.len() == w * h
    &&& forall|i: int| 0 <= i < labels.len() ==> #[trigger] labels[i] <= components.len()
    &&& forall|i: int| 0 <= i < labels.len() && #[trigger] labels[i] != 0 ==> g[i] != 0
    &&& forall|i: int|
        0 <= i < labels.len() && #[trigger] labels[i] != 0 ==> components[labels[i] - 1].contains(
            i % w,
            i / w,
        )
    &&& forall|ci: int|
        0 <= ci < components.len() ==> (#[trigger] components[ci]).in_bounds(w, h)
    &&& forall|ci: int|
        0 <= ci < components.len() ==> 1 <= (#[trigger] components[ci]).area <= w * h
    &&& forall|ci: int|
        0 <= ci < components.len() ==> #[trigger] has_witness(labels, w * h, ci)
    &&& seeds.len() == components.len()
    &&& forall|ci: int|
        0 <= ci < seeds.len() ==> #[trigger] describes_region(components[ci], g, w, h, seeds[ci])
    &&& forall|i: int|
        0 <= i < labels.len() && #[trigger] labels[i] != 0 ==> in_region(
            g,
            w,
            h,
            seeds[labels[i] - 1],
            i,
        )
    &&& forall|ci: int, i: int|
        0 <= ci < seeds.len() && #[trigger] in_region(g, w, h, seeds[ci], i) ==> labels[i] == ci
            + 1
    &&& forall|ci: int, cj: int|
        0 <= ci < cj < seeds.len() ==> !connected(g, w, h, #[trigger] seeds[ci], #[trigger] seeds[cj])
    &&& nonzero_closed(g, w, h, labels)
}

/// Fills and records the component seeded at the unlabeled foreground
/// pixel `j`, returning the grown seed list.
#[verifier::rlimit(100)]
fn label_component(
    gv: &Frame,
    labels: &mut Vec<usize>,
    components: &mut Vec<ConnectedComponent>,
    j: usize,
    Ghost(seeds_in): Ghost<Seq<int>>,
) -> (seeds_out: Ghost<Seq<int>>)
    requires
        gv.wf(),
        gv.format == PixelFormat::Gray8,
        gv.stride == gv.width,
        gv.width <= MAX_DIM,
        gv.height <= MAX_DIM,
        gv.data@.len() == gv.width * gv.height,
        scan_inv(
            gv.data@,
            gv.width as int,
            gv.height as int,
            old(labels)@,
            old(components)@,
            seeds_in,
        ),
        j < gv.width * gv.height,
        gv.data@[j as int] != 0,
        old(labels)@[j as int] == 0,
        old(components)@.len() < gv.width * gv.height,
    ensures
        scan_inv(
            gv.data@,
            gv.width as int,
            gv.height as int,
            final(labels)@,
            final(components)@,
            seeds_out@,
        ),
        final(components)@.len() == old(components)@.len() + 1,
        forall|i: int|
            0 <= i < final(labels)@.len() && #[trigger] old(labels)@[i] != 0 ==> final(labels)@[i]
                == old(labels)@[i],
        final(labels)@[j as int] != 0,
        final(labels)@.len() == old(labels)@.len(),
{
    let ghost g = gv.data@;
    let ghost w = gv.width as int;
    let ghost h = gv.height as int;
    let ghost labels_before = labels@;
    // Reading the length bounds the buffer within `usize` range.
    let _len = gv.data.len();
    let lbl = components.len() + 1;
    let (minx, miny, maxx, maxy, area) = flood_fill(gv, labels, j, lbl);
    let cc = ConnectedComponent {
        left: minx,
        top: miny,
        width: maxx - minx + 1,
        height: maxy - miny + 1,
        area,
    };
    components.push(cc);
    let ghost seeds = seeds_in.push(j as int);
    proof {
        lemma_describes_new(g, w, h, labels@, lbl, j as int, cc);
        assert forall|i: int|
            0 <= i < labels@.len() && #[trigger] labels@[i] != 0 implies components@[labels@[i]
            - 1].contains(i % w, i / w) by {
            if labels@[i] == lbl {
                assert(components@[lbl - 1] == cc);
            } else {
                assert(labels_before[i] == labels@[i]);
            }
        }
        assert forall|ci: int| 0 <= ci < components@.len() implies #[trigger] has_witness(
            labels@,
            w * h,
            ci,
        ) by {
            if ci + 1 == lbl {
                assert(labels@[j as int] == ci + 1);
            } else {
                assert(has_witness(labels_before, w * h, ci));
                let i = choose|i: int| 0 <= i < w * h && #[trigger] labels_before[i] == ci + 1;
                assert(labels@[i] == ci + 1);
            }
        }
        assert forall|ci: int, cj: int| 0 <= ci < cj < seeds.len() implies !connected(
            g,
            w,
            h,
            #[trigger] seeds[ci],
            #[trigger] seeds[cj],
        ) by {
            if cj == seeds.len() - 1 {
                if connected(g, w, h, seeds[ci], j as int) {
                    assert(in_region(g, w, h, seeds[ci], j as int));
                    assert(labels_before[j as int] == ci + 1);
                }
            }
        }
        assert forall|ci: int, i: int|
            0 <= ci < seeds.len() && #[trigger] in_region(g, w, h, seeds[ci], i) implies labels@[i]
            == ci + 1 by {
            if ci < seeds.len() - 1 {
                assert(labels_before[i] == ci + 1);
            }
        }
    }
    Ghost(seeds)
}

/// At the end of the scan every foreground pixel is labeled, so
/// every foreground pixel is covered, every component holds
/// foreground, and components exist exactly when foreground does.
proof fn lemma_scan_covers(
    g: Seq<u8>,
    w: int,
    h: int,
    labels: Seq<usize>,
    components: Seq<ConnectedComponent>,
    seeds: Seq<int>,
)
    requires
        scan_inv(g, w, h, labels, components, seeds),
        g.len() == w * h,
        forall|i: int| 0 <= i < w * h && g[i] != 0 ==> #[trigger] labels[i] != 0,
    ensures
        forall|x: int, y: int|
            0 <= x < w && 0 <= y < h && g[y * w + x] != 0 ==> #[trigger] covers(components, x, y),
        forall|ci: int|
            0 <= ci < components.len() ==> holds_fg(#[trigger] components[ci], w, h, g),
        components.len() == 0 <==> !has_fg(g),
{
    assert forall|x: int, y: int|
        0 <= x < w && 0 <= y < h && g[y * w + x] != 0 implies #[trigger] covers(
        components,
        x,
        y,
    ) by {
        lemma_cell_index(w, h, x, y);
        let i = y * w + x;
        let ci = labels[i] - 1;
        assert(0 <= ci < components.len());
        assert(components[ci].contains(x, y));
    }
    assert forall|ci: int| 0 <= ci < components.len() implies holds_fg(
        #[trigger] components[ci],
        w,
        h,
        g,
    ) by {
        assert(has_witness(labels, w * h, ci));
        let i = choose|i: int| 0 <= i < w * h && #[trigger] labels[i] == ci + 1;
        lemma_flat_index(w, h, i);
        let x = i % w;
        let y = i / w;
        assert(0 <= x < w && 0 <= y < h && g[y * w + x] != 0 && components[ci].contains(x, y));
    }
    if components.len() == 0 {
        assert forall|i: int| 0 <= i < g.len() implies g[i] == 0 by {
            assert(labels[i] == 0);
        }
    } else {
        assert(has_witness(labels, w * h, 0));
        let i = choose|i: int| 0 <= i < w * h && #[trigger] labels[i] == 0 + 1;
        assert(0 <= i < g.len() && g[i] != 0);
    }
}

/// At the end of the scan the recorded components and their seeds are
/// a decomposition of the foreground into maximal regions.
proof fn lemma_scan_decomposition(
    g: Seq<u8>,
    w: int,
    h: int,
    labels: Seq<usize>,
    components: Seq<ConnectedComponent>,
    seeds: Seq<int>,
)
    requires
        scan_inv(g, w, h, labels, components, seeds),
        g.len() == w * h,
        forall|i: int| 0 <= i < w * h && g[i] != 0 ==> #[trigger] labels[i] != 0,
    ensures
        region_decomposition(components, seeds, g, w, h),
{
    assert forall|i: int| 0 <= i < w * h && g[i] != 0 implies exists|ci: int|
        0 <= ci < components.len() && connected(g, w, h, #[trigger] seeds[ci], i) by {
        let ci = labels[i] - 1;
        assert(in_region(g, w, h, seeds[ci], i));
        assert(0 <= ci < components.len() && connected(g, w, h, seeds[ci], i));
    }
}

/// Labels the 4-connected foreground regions of a binary mask and
/// returns one [`ConnectedComponent`] per region, background (zero
/// pixels) excluded: each entry holds the region's minimal bounding
/// box and exact pixel count, no region appears twice, and none is
/// missing. Label order is whatever the scan assigns; callers must
/// rely only on the returned set.
#[verifier::loop_isolation(false)]
#[verifier::rlimit(100)]
pub fn find_objects_mask(mask: &Frame) -> (components: Vec<ConnectedComponent>)
    requires
        mask.wf(),
        mask.format == PixelFormat::Gray8,
        mask.width <= MAX_DIM,
        mask.height <= MAX_DIM,
    ensures
        components_ok(components@, mask.width as int, mask.height as int, mask.gray_grid()),
{
    let w = mask.width;
    let h = mask.height;
    let ghost g = mask.gray_grid();
    let gv = copy_gray(mask);
    proof {
        lemma_tight_grid(gv);
        assert(gv.data@ =~= g);
        lemma_grays_fit(*mask);
    }
    // Reading the length bounds the buffer within `usize` range.
    let _len = mask.data.len();
    let n = w * h;
    let mut labels: Vec<usize> = Vec::new();
    while labels.len() < n
        invariant
            labels@.len() <= n,
            forall|i: int| 0 <= i < labels@.len() ==> labels@[i] == 0usize,
        decreases n - labels@.len(),
    {
        labels.push(0usize);
    }
    let mut components: Vec<ConnectedComponent> = Vec::new();
    let ghost mut seeds: Seq<int> = Seq::empty();
    let mut j: usize = 0;
    while j < n
        invariant
            j <= n,
            components@.len() <= j,
            scan_inv(g, w as int, h as int, labels@, components@, seeds),
            forall|i: int| 0 <= i < j && g[i] != 0 ==> #[trigger] labels@[i] != 0,
        decreases n - j,
    {
        let ghost labels_at_j = labels@;
        if gv.data[j] != 0 && labels[j] == 0 {
            let Ghost(grown) = label_component(&gv, &mut labels, &mut components, j, Ghost(seeds));
            proof {
                seeds = grown;
            }
        }
        proof {
            assert forall|i: int| 0 <= i < j + 1 && g[i] != 0 implies #[trigger] labels@[i]
                != 0 by {
                if i < j {
                    assert(labels_at_j[i] != 0);
                }
            }
        }
        j += 1;
    }
    proof {
        lemma_scan_covers(g, w as int, h as int, labels@, components@, seeds);
        lemma_scan_decomposition(g, w as int, h as int, labels@, components@, seeds);
    }
    components
}

} // verus!
