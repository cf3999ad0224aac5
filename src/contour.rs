use vstd::prelude::*;

use crate::levels::{lemma_min_max_bounds, seq_max, seq_min};
use crate::mesh::Triangle;

verus! {

/// A threshold on the scalar field: the rational value `num / den`, with `den > 0`.
#[derive(Clone, Copy, Debug, PartialEq, Eq, Structural)]
pub struct Threshold {
    pub num: i128,
    pub den: u16,
}

impl Threshold {
    /// A threshold is well formed when its denominator is positive.
    pub open spec fn wf(self) -> bool {
        self.den > 0
    }

    /// The threshold equal to a field value.
    pub fn from_value(v: i64) -> (r: Threshold)
        ensures
            r.wf(),
            r.num == v as int,
            r.den == 1,
    {
        Threshold { num: v as i128, den: 1 }
    }
}

/// Whether field value `v` lies strictly below threshold `thr`.
pub open spec fn is_below(v: i64, thr: Threshold) -> bool {
    (v as int) * (thr.den as int) < thr.num as int
}

/// The binary-map bit of a field value: 0 strictly below the threshold, 1 at or above.
pub open spec fn bit_of(v: i64, thr: Threshold) -> u8 {
    if is_below(v, thr) {
        0
    } else {
        1
    }
}

/// Whether every index of the triangle is below `n`.
pub open spec fn triangle_in_range(t: Triangle, n: int) -> bool {
    t.0 < n && t.1 < n && t.2 < n
}

/// Whether every triangle of the list only names nodes below `n`.
pub open spec fn triangles_in_range(tris: Seq<Triangle>, n: int) -> bool {
    forall|i: int| 0 <= i < tris.len() ==> triangle_in_range(#[trigger] tris[i], n)
}

/// A map of bits: one 0/1 entry per node.
pub open spec fn is_bit_map(bits: Seq<u8>) -> bool {
    forall|i: int| 0 <= i < bits.len() ==> #[trigger] bits[i] <= 1
}

/// The state code of a triangle: `4 * bit(c) + 2 * bit(b) + bit(a)` for nodes `(a, b, c)`.
pub open spec fn state_of(t: Triangle, bits: Seq<u8>) -> int {
    4 * (bits[t.2 as int] as int) + 2 * (bits[t.1 as int] as int) + (bits[t.0 as int] as int)
}

/// The triangle's nodes reordered so that the node on the minority side of the
/// threshold comes first: the node whose bit is 1 when one bit is 1, the node whose
/// bit is 0 when two bits are 1, swapped with the node at position 0. With all three
/// bits equal the order is kept.
pub open spec fn canonical_spec(t: Triangle, b0: u8, b1: u8, b2: u8) -> Triangle {
    let ones = b0 + b1 + b2;
    let odd: u8 = if ones == 1 {
        1
    } else {
        0
    };
    if ones == 0 || ones == 3 || b0 == odd {
        t
    } else if b1 == odd {
        (t.1, t.0, t.2)
    } else {
        (t.2, t.1, t.0)
    }
}

/// The canonical order of a triangle under a map of bits.
pub open spec fn canonical_of(t: Triangle, bits: Seq<u8>) -> Triangle {
    canonical_spec(t, bits[t.0 as int], bits[t.1 as int], bits[t.2 as int])
}

/// Classifies every node against the threshold: 0 where the field value is strictly
/// below it, 1 elsewhere.
pub fn make_binary_map(field: &Vec<i64>, thr: Threshold) -> (r: Vec<u8>)
    ensures
        r@.len() == field@.len(),
        forall|i: int| 0 <= i < field@.len() ==> #[trigger] r@[i] == bit_of(field@[i], thr),
        is_bit_map(r@),
{
    let mut r: Vec<u8> = Vec::new();
    let den = thr.den as i128;
    let mut i: usize = 0;
    while i < field.len()
        invariant
            i <= field@.len(),
            den == thr.den as int,
            r@.len() == i,
            forall|j: int| 0 <= j < i ==> #[trigger] r@[j] == bit_of(field@[j], thr),
        decreases field.len() - i,
    {
        let v = field[i] as i128;
        proof {
            lemma_product_bounds(field@[i as int], thr.den);
        }
        if v * den < thr.num {
            r.push(0);
        } else {
            r.push(1);
        }
        i = i + 1;
    }
    r
}

/// The state code of a triangle, an integer in 0..8: 0 when all three nodes lie
/// below the threshold, 7 when all lie at or above it.
pub fn element_state(t: Triangle, bits: &Vec<u8>) -> (r: u8)
    requires
        triangle_in_range(t, bits@.len() as int),
        is_bit_map(bits@),
    ensures
        r as int == state_of(t, bits@),
        r <= 7,
{
    let a = bits[t.0];
    let b = bits[t.1];
    let c = bits[t.2];
    assert(a <= 1 && b <= 1 && c <= 1);
    c * 4 + b * 2 + a
}

/// Reorders a triangle so that the node on the minority side of the threshold comes
/// first (see `canonical_spec`). The result is a new triple; the input is not changed.
pub fn canonical_order(t: Triangle, bits: &Vec<u8>) -> (r: Triangle)
    requires
        triangle_in_range(t, bits@.len() as int),
        is_bit_map(bits@),
    ensures
        r == canonical_of(t, bits@),
        1 <= state_of(t, bits@) <= 6 ==> {
            &&& bits@[r.0 as int] != bits@[r.1 as int]
            &&& bits@[r.0 as int] != bits@[r.2 as int]
        },
{
    let a = bits[t.0];
    let b = bits[t.1];
    let c = bits[t.2];
    assert(a <= 1 && b <= 1 && c <= 1);
    let ones = a + b + c;
    let odd: u8 = if ones == 1 {
        1
    } else {
        0
    };
    if ones == 0 || ones == 3 || a == odd {
        t
    } else if b == odd {
        (t.1, t.0, t.2)
    } else {
        (t.2, t.1, t.0)
    }
}

/// Largest denominator of an edge crossing: a difference of two `i64` values times a
/// `u16` threshold denominator.
pub const CROSSING_DEN_LIMIT: i128 = 0x1_0000_0000_0000_0000_0000;

/// Where an isoline crosses the edge from node `start` to node `end`: at the fraction
/// `t_num / t_den` of the way from `start` to `end`.
#[derive(Clone, Copy, Debug, PartialEq, Eq, Structural)]
pub struct EdgeCrossing {
    pub start: usize,
    pub end: usize,
    pub t_num: i128,
    pub t_den: i128,
}

impl EdgeCrossing {
    /// The fraction lies in [0, 1], with a positive denominator below `CROSSING_DEN_LIMIT`.
    pub open spec fn wf(self) -> bool {
        &&& 0 < self.t_den <= CROSSING_DEN_LIMIT
        &&& 0 <= self.t_num <= self.t_den
    }
}

/// One isoline segment inside a triangle: its crossings of the two edges that meet
/// at the triangle's first canonical node.
#[derive(Clone, Copy, Debug, PartialEq, Eq, Structural)]
pub struct Segment {
    pub first: EdgeCrossing,
    pub second: EdgeCrossing,
}

/// The crossing of the threshold along edge `(s, e)`:
/// `t = (thr - field[s]) / (field[e] - field[s])`, written with a positive denominator.
pub open spec fn crossing_spec(field: Seq<i64>, thr: Threshold, s: usize, e: usize) -> EdgeCrossing {
    let den = thr.den as int;
    let n = thr.num as int - (field[s as int] as int) * den;
    let d = (field[e as int] as int - field[s as int] as int) * den;
    if d < 0 {
        EdgeCrossing { start: s, end: e, t_num: (-n) as i128, t_den: (-d) as i128 }
    } else {
        EdgeCrossing { start: s, end: e, t_num: n as i128, t_den: d as i128 }
    }
}

/// Whether the threshold crosses the triangle: its three nodes do not all lie on
/// one side.
pub open spec fn crosses(field: Seq<i64>, thr: Threshold, t: Triangle) -> bool {
    !(bit_of(field[t.0 as int], thr) == bit_of(field[t.1 as int], thr) && bit_of(
        field[t.1 as int],
        thr,
    ) == bit_of(field[t.2 as int], thr))
}

/// The map of bits of a whole field.
pub open spec fn bits_of(field: Seq<i64>, thr: Threshold) -> Seq<u8> {
    Seq::new(field.len(), |i: int| bit_of(field[i], thr))
}

/// The segment of a crossed triangle: from its first canonical node along the edges
/// to the second and to the third.
pub open spec fn segment_spec(field: Seq<i64>, thr: Threshold, t: Triangle) -> Segment {
    let c = canonical_of(t, bits_of(field, thr));
    Segment { first: crossing_spec(field, thr, c.0, c.1), second: crossing_spec(field, thr, c.0, c.2) }
}

/// The isoline at one threshold: one segment per crossed triangle, in the order of
/// the triangle list.
pub open spec fn isoline_spec(tris: Seq<Triangle>, field: Seq<i64>, thr: Threshold) -> Seq<Segment>
    decreases tris.len(),
{
    if tris.len() == 0 {
        Seq::empty()
    } else {
        let prev = isoline_spec(tris.drop_last(), field, thr);
        if crosses(field, thr, tris.last()) {
            prev.push(segment_spec(field, thr, tris.last()))
        } else {
            prev
        }
    }
}

pub(crate) proof fn lemma_product_bounds(v: i64, den: u16)
    ensures
        -0x8000_0000_0000_0000 * 0x1_0000 <= (v as int) * (den as int) <= 0x8000_0000_0000_0000
            * 0x1_0000,
{
    let a = v as int;
    let b = den as int;
    assert(-0x8000_0000_0000_0000 * 0x1_0000 <= a * b <= 0x8000_0000_0000_0000 * 0x1_0000)
        by (nonlinear_arith)
        requires
            -0x8000_0000_0000_0000 <= a < 0x8000_0000_0000_0000,
            0 <= b < 0x1_0000,
    ;
}

/// Largest magnitude of a threshold numerator that `edge_crossing` accepts, so that
/// its arithmetic stays within `i128`.
pub const THRESHOLD_NUM_LIMIT: i128 = 0x4000_0000_0000_0000_0000_0000_0000_0000;

/// Whether the threshold lies between the values at the two ends of edge `(s, e)`,
/// either end included.
pub open spec fn threshold_on_edge(field: Seq<i64>, thr: Threshold, s: usize, e: usize) -> bool {
    let a = (field[s as int] as int) * (thr.den as int);
    let b = (field[e as int] as int) * (thr.den as int);
    (a <= thr.num <= b) || (b <= thr.num <= a)
}

/// The fraction `t = (thr - field[s]) / (field[e] - field[s])` along an edge whose end
/// values differ. Where the threshold lies between the end values, `t` lies in [0, 1]:
/// 0 when the threshold equals the value at `s`, 1 when it equals the value at `e`.
pub fn edge_crossing(field: &Vec<i64>, thr: Threshold, s: usize, e: usize) -> (r: EdgeCrossing)
    requires
        thr.wf(),
        s < field@.len(),
        e < field@.len(),
        field@[s as int] != field@[e as int],
        -THRESHOLD_NUM_LIMIT <= thr.num <= THRESHOLD_NUM_LIMIT,
    ensures
        r == crossing_spec(field@, thr, s, e),
        r.t_den > 0,
        threshold_on_edge(field@, thr, s, e) ==> r.wf(),
{
    let den = thr.den as i128;
    let fs = field[s] as i128;
    let fe = field[e] as i128;
    proof {
        lemma_product_bounds(field@[s as int], thr.den);
        lemma_product_bounds(field@[e as int], thr.den);
        let (a, b, k) = (fs as int, fe as int, den as int);
        assert((b - a) * k == b * k - a * k) by (nonlinear_arith);
        assert((b - a) * k != 0) by (nonlinear_arith)
            requires
                a != b,
                k > 0,
        ;
    }
    let n = thr.num - fs * den;
    let d = fe * den - fs * den;
    assert(d == (fe - fs) * den);
    if d < 0 {
        EdgeCrossing { start: s, end: e, t_num: -n, t_den: -d }
    } else {
        EdgeCrossing { start: s, end: e, t_num: n, t_den: d }
    }
}

/// An edge whose ends lie on different sides of the threshold has different end values,
/// and the threshold lies between them.
proof fn lemma_separated_edge(field: Seq<i64>, thr: Threshold, s: usize, e: usize)
    requires
        thr.wf(),
        s < field.len(),
        e < field.len(),
        bit_of(field[s as int], thr) != bit_of(field[e as int], thr),
    ensures
        field[s as int] != field[e as int],
        -THRESHOLD_NUM_LIMIT <= thr.num <= THRESHOLD_NUM_LIMIT,
        threshold_on_edge(field, thr, s, e),
{
    lemma_product_bounds(field[s as int], thr.den);
    lemma_product_bounds(field[e as int], thr.den);
}

/// Whether node `n` is a vertex of triangle `t`.
pub open spec fn is_node_of(n: usize, t: Triangle) -> bool {
    n == t.0 || n == t.1 || n == t.2
}

/// Whether a segment lies in triangle `t`: both of its crossings start at the same
/// vertex of `t`, end at vertices of `t`, and have a fraction in [0, 1].
pub open spec fn segment_on(sg: Segment, t: Triangle) -> bool {
    &&& sg.first.start == sg.second.start
    &&& is_node_of(sg.first.start, t)
    &&& is_node_of(sg.first.end, t)
    &&& is_node_of(sg.second.end, t)
    &&& sg.first.wf()
    &&& sg.second.wf()
}

/// Whether a segment lies in some triangle of the list.
pub open spec fn segment_placed(sg: Segment, tris: Seq<Triangle>) -> bool {
    exists|j: int| 0 <= j < tris.len() && #[trigger] segment_on(sg, tris[j])
}

/// Whether every segment lies in some triangle of the list.
pub open spec fn segments_placed(segs: Seq<Segment>, tris: Seq<Triangle>) -> bool {
    forall|i: int| 0 <= i < segs.len() ==> #[trigger] segment_placed(segs[i], tris)
}

/// Extracts the isoline at one threshold: classifies the nodes once, then emits,
/// triangle by triangle in list order, the segment of every triangle that the
/// threshold crosses. Triangles with all nodes on one side contribute nothing.
pub fn extract_isoline(tris: &Vec<Triangle>, field: &Vec<i64>, thr: Threshold) -> (r: Vec<Segment>)
    requires
        thr.wf(),
        triangles_in_range(tris@, field@.len() as int),
    ensures
        r@ == isoline_spec(tris@, field@, thr),
        segments_placed(r@, tris@),
{
    let bits = make_binary_map(field, thr);
    assert(bits@ =~= bits_of(field@, thr));
    let mut r: Vec<Segment> = Vec::new();
    let mut i: usize = 0;
    while i < tris.len()
        invariant
            i <= tris@.len(),
            thr.wf(),
            triangles_in_range(tris@, field@.len() as int),
            bits@ == bits_of(field@, thr),
            is_bit_map(bits@),
            r@ == isoline_spec(tris@.subrange(0, i as int), field@, thr),
            segments_placed(r@, tris@),
        decreases tris.len() - i,
    {
        let t = tris[i];
        assert(triangle_in_range(tris@[i as int], field@.len() as int));
        let ghost sub = tris@.subrange(0, i + 1);
        assert(sub.drop_last() =~= tris@.subrange(0, i as int));
        assert(sub.last() == t);
        let state = element_state(t, &bits);
        if state != 0 && state != 7 {
            let c = canonical_order(t, &bits);
            proof {
                lemma_separated_edge(field@, thr, c.0, c.1);
                lemma_separated_edge(field@, thr, c.0, c.2);
            }
            let first = edge_crossing(field, thr, c.0, c.1);
            let second = edge_crossing(field, thr, c.0, c.2);
            let ghost prev = r@;
            r.push(Segment { first, second });
            proof {
                assert(segment_on(r@[prev.len() as int], tris@[i as int]));
                assert(segment_placed(r@[prev.len() as int], tris@));
                assert forall|k: int| 0 <= k < r@.len() implies #[trigger] segment_placed(
                    r@[k],
                    tris@,
                ) by {
                    if k < prev.len() {
                        assert(r@[k] == prev[k]);
                        assert(segment_placed(prev[k], tris@));
                    }
                }
                assert(segments_placed(r@, tris@));
            }
        }
        i = i + 1;
    }
    assert(tris@.subrange(0, i as int) =~= tris@);
    r
}

/// In a triangle that the threshold crosses, the first canonical node lies on the
/// other side of the threshold from both remaining nodes, and the canonical order is the
/// triangle with its first node swapped with one of the others, or left as it is.
pub proof fn lemma_canonical_odd_one_out(t: Triangle, bits: Seq<u8>)
    requires
        triangle_in_range(t, bits.len() as int),
        is_bit_map(bits),
        1 <= state_of(t, bits) <= 6,
    ensures
        ({
            let c = canonical_of(t, bits);
            &&& bits[c.0 as int] != bits[c.1 as int]
            &&& bits[c.0 as int] != bits[c.2 as int]
            &&& bits[c.1 as int] == bits[c.2 as int]
            &&& (c == t || c == (t.1, t.0, t.2) || c == (t.2, t.1, t.0))
        }),
{
    assert(bits[t.0 as int] <= 1 && bits[t.1 as int] <= 1 && bits[t.2 as int] <= 1);
}

/// A threshold at or below the field's minimum, or strictly above its maximum, crosses
/// no triangle: every triangle has state 0 or 7, and the isoline is empty. (At the
/// maximum itself, see `lemma_isoline_at_maximum`.)
pub proof fn lemma_no_isoline_outside_range(tris: Seq<Triangle>, field: Seq<i64>, thr: Threshold)
    requires
        thr.wf(),
        field.len() > 0,
        triangles_in_range(tris, field.len() as int),
        thr.num <= (seq_min(field) as int) * (thr.den as int) || thr.num > (seq_max(field) as int)
            * (thr.den as int),
    ensures
        forall|i: int|
            0 <= i < tris.len() ==> {
                let st = #[trigger] state_of(tris[i], bits_of(field, thr));
                st == 0 || st == 7
            },
        isoline_spec(tris, field, thr) == Seq::<Segment>::empty(),
    decreases tris.len(),
{
    lemma_min_max_bounds(field);
    let k = thr.den as int;
    let lo = seq_min(field) as int;
    let hi = seq_max(field) as int;
    assert forall|j: int| 0 <= j < field.len() implies #[trigger] bit_of(field[j], thr) == if thr.num
        <= lo * k {
        1u8
    } else {
        0u8
    } by {
        let v = field[j] as int;
        assert(lo <= v <= hi);
        assert(lo * k <= v * k <= hi * k) by (nonlinear_arith)
            requires
                lo <= v <= hi,
                k > 0,
        ;
    }
    if tris.len() > 0 {
        lemma_no_isoline_outside_range(tris.drop_last(), field, thr);
        let t = tris.last();
        assert(triangle_in_range(tris[tris.len() - 1], field.len() as int));
        assert(!crosses(field, thr, t));
        assert forall|i: int| 0 <= i < tris.len() implies {
            let st = #[trigger] state_of(tris[i], bits_of(field, thr));
            st == 0 || st == 7
        } by {
            assert(triangle_in_range(tris[i], field.len() as int));
        }
    }
}

/// The isoline at a threshold is empty exactly when the threshold crosses none of the
/// triangles.
pub proof fn lemma_isoline_empty_iff(tris: Seq<Triangle>, field: Seq<i64>, thr: Threshold)
    ensures
        isoline_spec(tris, field, thr).len() == 0 <==> forall|j: int|
            0 <= j < tris.len() ==> !crosses(field, thr, #[trigger] tris[j]),
    decreases tris.len(),
{
    if tris.len() > 0 {
        let p = tris.drop_last();
        lemma_isoline_empty_iff(p, field, thr);
        assert forall|j: int| 0 <= j < p.len() implies #[trigger] p[j] == tris[j] by {}
        assert(tris[tris.len() - 1] == tris.last());
        if isoline_spec(tris, field, thr).len() == 0 {
            assert forall|j: int| 0 <= j < tris.len() implies !crosses(
                field,
                thr,
                #[trigger] tris[j],
            ) by {
                if j < p.len() {
                    assert(p[j] == tris[j]);
                }
            }
        }
    }
}

/// Whether a triangle has a node holding the value `m` and a node below it.
pub open spec fn mixes_at(field: Seq<i64>, t: Triangle, m: i64) -> bool {
    let (a, b, c) = (field[t.0 as int], field[t.1 as int], field[t.2 as int]);
    (a == m || b == m || c == m) && (a < m || b < m || c < m)
}

/// Whether a crossing lands on a node holding `m`: at `t = 0` on its start, or at
/// `t = 1` on its end.
pub open spec fn lands_on_value(field: Seq<i64>, c: EdgeCrossing, m: i64) -> bool {
    (c.t_num == 0 && field[c.start as int] == m) || (c.t_num == c.t_den && field[c.end as int]
        == m)
}

/// At a threshold equal to the field's maximum, exactly the nodes holding the maximum
/// lie at or above it. So a triangle is crossed exactly when it has a node at the
/// maximum and a node below it, each crossing of its segment lands on a node holding the
/// maximum, and the isoline is empty exactly when no triangle mixes the two.
pub proof fn lemma_isoline_at_maximum(tris: Seq<Triangle>, field: Seq<i64>, thr: Threshold)
    requires
        thr.wf(),
        field.len() > 0,
        triangles_in_range(tris, field.len() as int),
        thr.num == (seq_max(field) as int) * (thr.den as int),
    ensures
        forall|n: int|
            0 <= n < field.len() ==> (#[trigger] bit_of(field[n], thr) == 1 <==> field[n]
                == seq_max(field)),
        forall|j: int|
            0 <= j < tris.len() ==> (crosses(field, thr, #[trigger] tris[j]) <==> mixes_at(
                field,
                tris[j],
                seq_max(field),
            )),
        forall|j: int|
            0 <= j < tris.len() && crosses(field, thr, #[trigger] tris[j]) ==> {
                let sg = segment_spec(field, thr, tris[j]);
                &&& lands_on_value(field, sg.first, seq_max(field))
                &&& lands_on_value(field, sg.second, seq_max(field))
            },
        isoline_spec(tris, field, thr).len() == 0 <==> forall|j: int|
            0 <= j < tris.len() ==> !mixes_at(field, #[trigger] tris[j], seq_max(field)),
{
    lemma_min_max_bounds(field);
    let m = seq_max(field);
    let k = thr.den as int;
    assert forall|n: int| 0 <= n < field.len() implies (#[trigger] bit_of(field[n], thr) == 1
        <==> field[n] == m) by {
        let v = field[n] as int;
        assert(v <= m);
        assert(v < m ==> v * k < (m as int) * k) by (nonlinear_arith)
            requires
                k > 0,
        ;
    }
    let bits = bits_of(field, thr);
    assert forall|j: int| 0 <= j < tris.len() implies (crosses(field, thr, #[trigger] tris[j])
        <==> mixes_at(field, tris[j], m)) by {
        assert(triangle_in_range(tris[j], field.len() as int));
    }
    assert forall|j: int| 0 <= j < tris.len() && crosses(field, thr, #[trigger] tris[j]) implies {
        let sg = segment_spec(field, thr, tris[j]);
        &&& lands_on_value(field, sg.first, m)
        &&& lands_on_value(field, sg.second, m)
    } by {
        let t = tris[j];
        assert(triangle_in_range(t, field.len() as int));
        let c = canonical_of(t, bits);
        assert(bits[t.0 as int] == bit_of(field[t.0 as int], thr));
        assert(bits[t.1 as int] == bit_of(field[t.1 as int], thr));
        assert(bits[t.2 as int] == bit_of(field[t.2 as int], thr));
        assert(bits[c.0 as int] != bits[c.1 as int] && bits[c.0 as int] != bits[c.2 as int]);
        lemma_crossing_lands_at_maximum(field, thr, c.0, c.1);
        lemma_crossing_lands_at_maximum(field, thr, c.0, c.2);
    }
    lemma_isoline_empty_iff(tris, field, thr);
}

/// On an edge with exactly one end at the maximum, a threshold at the maximum is crossed
/// on that end.
proof fn lemma_crossing_lands_at_maximum(field: Seq<i64>, thr: Threshold, s: usize, e: usize)
    requires
        thr.wf(),
        s < field.len(),
        e < field.len(),
        field.len() > 0,
        thr.num == (seq_max(field) as int) * (thr.den as int),
        field[s as int] == seq_max(field) <==> field[e as int] != seq_max(field),
        field[s as int] <= seq_max(field),
        field[e as int] <= seq_max(field),
    ensures
        lands_on_value(field, crossing_spec(field, thr, s, e), seq_max(field)),
{
    let m = seq_max(field) as int;
    let k = thr.den as int;
    let (a, b) = (field[s as int] as int, field[e as int] as int);
    lemma_product_bounds(field[s as int], thr.den);
    lemma_product_bounds(field[e as int], thr.den);
    lemma_product_bounds(seq_max(field), thr.den);
    assert((b - a) * k == b * k - a * k) by (nonlinear_arith);
    assert(a != b ==> (b - a) * k != 0) by (nonlinear_arith)
        requires
            k > 0,
    ;
}

/// Extraction is a function of its inputs alone: two results that meet the contract of
/// `extract_isoline` for the same triangles, field and threshold are the same list.
pub proof fn lemma_extraction_repeatable(
    tris: Seq<Triangle>,
    field: Seq<i64>,
    thr: Threshold,
    first_run: Seq<Segment>,
    second_run: Seq<Segment>,
)
    requires
        first_run == isoline_spec(tris, field, thr),
        second_run == isoline_spec(tris, field, thr),
    ensures
        first_run == second_run,
{
}

/// A point with rational coordinates `(x_num / den, y_num / den)`.
#[derive(Clone, Copy, Debug, PartialEq, Eq, Structural)]
pub struct RationalPoint {
    pub x_num: i128,
    pub y_num: i128,
    pub den: i128,
}

/// The point of an edge crossing, `p_start + t * (p_end - p_start)` in each coordinate,
/// over the crossing's denominator.
pub open spec fn crossing_point_spec(points: Seq<(i32, i32)>, c: EdgeCrossing) -> RationalPoint {
    let (xs, ys) = points[c.start as int];
    let (xe, ye) = points[c.end as int];
    let d = c.t_den as int;
    let n = c.t_num as int;
    RationalPoint {
        x_num: ((xs as int) * d + n * (xe as int - xs as int)) as i128,
        y_num: ((ys as int) * d + n * (ye as int - ys as int)) as i128,
        den: c.t_den,
    }
}

proof fn lemma_interpolation_bounds(a: i32, b: i32, n: i128, d: i128)
    requires
        0 < d <= CROSSING_DEN_LIMIT,
        0 <= n <= d,
    ensures
        -0x8000_0000 * CROSSING_DEN_LIMIT <= (a as int) * (d as int) <= 0x8000_0000
            * CROSSING_DEN_LIMIT,
        -0x1_0000_0000 * CROSSING_DEN_LIMIT <= (n as int) * (b as int - a as int) <= 0x1_0000_0000
            * CROSSING_DEN_LIMIT,
{
    let (x, y, m, k) = (a as int, b as int, n as int, d as int);
    assert(-0x8000_0000 * 0x1_0000_0000_0000_0000_0000 <= x * k <= 0x8000_0000
        * 0x1_0000_0000_0000_0000_0000) by (nonlinear_arith)
        requires
            -0x8000_0000 <= x < 0x8000_0000,
            0 < k <= 0x1_0000_0000_0000_0000_0000,
    ;
    assert(-0x1_0000_0000 * 0x1_0000_0000_0000_0000_0000 <= m * (y - x) <= 0x1_0000_0000
        * 0x1_0000_0000_0000_0000_0000) by (nonlinear_arith)
        requires
            -0x1_0000_0000 <= y - x <= 0x1_0000_0000,
            0 <= m <= 0x1_0000_0000_0000_0000_0000,
    ;
}

/// The point where an isoline crosses an edge, from the coordinates of the edge's two
/// nodes.
pub fn crossing_point(points: &Vec<(i32, i32)>, c: EdgeCrossing) -> (r: RationalPoint)
    requires
        c.start < points@.len(),
        c.end < points@.len(),
        c.wf(),
    ensures
        r == crossing_point_spec(points@, c),
        r.den > 0,
{
    let (xs, ys) = points[c.start];
    let (xe, ye) = points[c.end];
    proof {
        lemma_interpolation_bounds(xs, xe, c.t_num, c.t_den);
        lemma_interpolation_bounds(ys, ye, c.t_num, c.t_den);
    }
    let x_num = (xs as i128) * c.t_den + c.t_num * ((xe as i128) - (xs as i128));
    let y_num = (ys as i128) * c.t_den + c.t_num * ((ye as i128) - (ys as i128));
    RationalPoint { x_num, y_num, den: c.t_den }
}

} // verus!
