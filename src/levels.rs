use vstd::prelude::*;

use crate::contour::{
    extract_isoline, isoline_spec, lemma_product_bounds, segments_placed, triangles_in_range, Segment,
    Threshold,
};
use crate::mesh::Triangle;

verus! {

/// The smallest value of a non-empty field.
pub open spec fn seq_min(s: Seq<i64>) -> i64
    recommends
        s.len() > 0,
    decreases s.len(),
{
    if s.len() <= 1 {
        s[0]
    } else {
        let m = seq_min(s.drop_last());
        if s.last() < m {
            s.last()
        } else {
            m
        }
    }
}

/// The largest value of a non-empty field.
pub open spec fn seq_max(s: Seq<i64>) -> i64
    recommends
        s.len() > 0,
    decreases s.len(),
{
    if s.len() <= 1 {
        s[0]
    } else {
        let m = seq_max(s.drop_last());
        if s.last() > m {
            s.last()
        } else {
            m
        }
    }
}

/// The minimum and maximum of a non-empty field are values of it, and bound all of it.
pub proof fn lemma_min_max_bounds(s: Seq<i64>)
    requires
        s.len() > 0,
    ensures
        forall|i: int| 0 <= i < s.len() ==> seq_min(s) <= #[trigger] s[i] <= seq_max(s),
        exists|i: int| 0 <= i < s.len() && s[i] == seq_min(s),
        exists|i: int| 0 <= i < s.len() && s[i] == seq_max(s),
    decreases s.len(),
{
    if s.len() > 1 {
        let p = s.drop_last();
        lemma_min_max_bounds(p);
        assert forall|i: int| 0 <= i < s.len() implies seq_min(s) <= #[trigger] s[i] <= seq_max(
            s,
        ) by {
            if i < s.len() - 1 {
                assert(s[i] == p[i]);
            }
        }
        let jmin = choose|i: int| 0 <= i < p.len() && p[i] == seq_min(p);
        let jmax = choose|i: int| 0 <= i < p.len() && p[i] == seq_max(p);
        assert(s[jmin] == p[jmin]);
        assert(s[jmax] == p[jmax]);
        assert(s[s.len() - 1] == s.last());
    } else {
        assert(s[0] == seq_min(s));
    }
}

/// The smallest value of the field.
pub fn field_min(field: &Vec<i64>) -> (r: i64)
    requires
        field@.len() > 0,
    ensures
        r == seq_min(field@),
{
    let mut m = field[0];
    let mut i: usize = 1;
    while i < field.len()
        invariant
            1 <= i <= field@.len(),
            m == seq_min(field@.subrange(0, i as int)),
        decreases field.len() - i,
    {
        let ghost sub = field@.subrange(0, i + 1);
        assert(sub.drop_last() =~= field@.subrange(0, i as int));
        if field[i] < m {
            m = field[i];
        }
        i = i + 1;
    }
    assert(field@.subrange(0, i as int) =~= field@);
    m
}

/// The largest value of the field.
pub fn field_max(field: &Vec<i64>) -> (r: i64)
    requires
        field@.len() > 0,
    ensures
        r == seq_max(field@),
{
    let mut m = field[0];
    let mut i: usize = 1;
    while i < field.len()
        invariant
            1 <= i <= field@.len(),
            m == seq_max(field@.subrange(0, i as int)),
        decreases field.len() - i,
    {
        let ghost sub = field@.subrange(0, i + 1);
        assert(sub.drop_last() =~= field@.subrange(0, i as int));
        if field[i] > m {
            m = field[i];
        }
        i = i + 1;
    }
    assert(field@.subrange(0, i as int) =~= field@);
    m
}

/// Level `i` of `count` isolines spaced evenly from `min` to `max`:
/// `min + i * (max - min) / count`, written over the denominator `count`. With a count
/// of zero the one level is the minimum itself.
pub open spec fn level_spec(min: i64, max: i64, count: u16, i: int) -> Threshold {
    if count == 0 {
        Threshold { num: min as i128, den: 1 }
    } else {
        Threshold {
            num: ((min as int) * (count as int) + i * (max as int - min as int)) as i128,
            den: count,
        }
    }
}

/// The thresholds of `count` isolines: `count + 1` values evenly spaced from `min` to
/// `max`, both ends included. With a count of zero no spacing is defined, and the one
/// threshold is `min`.
pub fn isoline_levels(min: i64, max: i64, count: u16) -> (r: Vec<Threshold>)
    ensures
        r@.len() == count + 1,
        forall|i: int| 0 <= i < r@.len() ==> #[trigger] r@[i] == level_spec(min, max, count, i),
        forall|i: int| 0 <= i < r@.len() ==> (#[trigger] r@[i]).wf(),
        r@[0].num == (min as int) * (r@[0].den as int),
        count > 0 ==> r@[count as int].num == (max as int) * (count as int),
{
    let mut r: Vec<Threshold> = Vec::new();
    if count == 0 {
        r.push(Threshold { num: min as i128, den: 1 });
        assert(r@[0].num == (min as int) * (r@[0].den as int)) by (nonlinear_arith)
            requires
                r@[0].num == min as int,
                r@[0].den == 1,
        ;
        return r;
    }
    let k = count as i128;
    let lo = min as i128;
    let span = max as i128 - min as i128;
    proof {
        lemma_product_bounds(min, count);
    }
    let base = lo * k;
    let mut i: u32 = 0;
    while i <= count as u32
        invariant
            0 <= i <= count + 1,
            count > 0,
            k == count as int,
            base == (min as int) * (count as int),
            -0x8000_0000_0000_0000 * 0x1_0000 <= base <= 0x8000_0000_0000_0000 * 0x1_0000,
            span == max as int - min as int,
            r@.len() == i,
            forall|j: int| 0 <= j < i ==> #[trigger] r@[j] == level_spec(min, max, count, j),
        decreases count + 1 - i,
    {
        let ii = i as i128;
        assert(-0x1_0000_0000_0000_0000 * 0x1_0000 <= ii * span <= 0x1_0000_0000_0000_0000
            * 0x1_0000) by (nonlinear_arith)
            requires
                0 <= ii <= 0xffff,
                -0x1_0000_0000_0000_0000 <= span <= 0x1_0000_0000_0000_0000,
        ;
        r.push(Threshold { num: base + ii * span, den: count });
        i = i + 1;
    }
    proof {
        let c = count as int;
        assert((min as int) * c + c * (max as int - min as int) == (max as int) * c)
            by (nonlinear_arith);
        lemma_product_bounds(max, count);
        assert(r@[c] == level_spec(min, max, count, c));
    }
    r
}

/// Extracts the isolines of `count` evenly spaced levels between the field's minimum
/// and maximum: entry `i` of the result is the isoline at level `i`.
pub fn contour_isolines(tris: &Vec<Triangle>, field: &Vec<i64>, count: u16) -> (r: Vec<
    Vec<Segment>,
>)
    requires
        field@.len() > 0,
        triangles_in_range(tris@, field@.len() as int),
    ensures
        r@.len() == count + 1,
        forall|i: int|
            0 <= i < r@.len() ==> (#[trigger] r@[i])@ == isoline_spec(
                tris@,
                field@,
                level_spec(seq_min(field@), seq_max(field@), count, i),
            ),
        forall|i: int| 0 <= i < r@.len() ==> segments_placed(#[trigger] r@[i]@, tris@),
{
    let lo = field_min(field);
    let hi = field_max(field);
    let levels = isoline_levels(lo, hi, count);
    let mut r: Vec<Vec<Segment>> = Vec::new();
    let mut i: usize = 0;
    while i < levels.len()
        invariant
            i <= levels@.len(),
            levels@.len() == count + 1,
            lo == seq_min(field@),
            hi == seq_max(field@),
            forall|j: int| 0 <= j < levels@.len() ==> #[trigger] levels@[j] == level_spec(lo, hi, count, j),
            forall|j: int| 0 <= j < levels@.len() ==> (#[trigger] levels@[j]).wf(),
            triangles_in_range(tris@, field@.len() as int),
            r@.len() == i,
            forall|j: int|
                0 <= j < i ==> (#[trigger] r@[j])@ == isoline_spec(
                    tris@,
                    field@,
                    level_spec(lo, hi, count, j),
                ),
            forall|j: int| 0 <= j < i ==> segments_placed(#[trigger] r@[j]@, tris@),
        decreases levels.len() - i,
    {
        assert(levels@[i as int].wf());
        let line = extract_isoline(tris, field, levels[i]);
        r.push(line);
        i = i + 1;
    }
    r
}

} // verus!
