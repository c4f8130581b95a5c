use vstd::prelude::*;

verus! {

/// The part of a medium's boundary crossing that a query can use: the
/// crossing `(enter, exit)` is cut to the query interval `(t_min, t_max)`,
/// nothing is left when the cut is empty, and the start is then moved up to
/// the key `zero` of the ray's origin, so that no scattering is placed
/// behind it.
pub open spec fn medium_segment_spec(enter: i64, exit: i64, t_min: i64, t_max: i64, zero: i64) -> Option<(i64, i64)> {
    let start = if enter < t_min { t_min } else { enter };
    let end = if exit > t_max { t_max } else { exit };
    if start >= end {
        None
    } else {
        Some((if start < zero { zero } else { start }, end))
    }
}

/// Cuts a medium's boundary crossing to the query interval; see
/// `medium_segment_spec`.
pub fn medium_segment(enter: i64, exit: i64, t_min: i64, t_max: i64, zero: i64) -> (r: Option<(i64, i64)>)
    ensures
        r == medium_segment_spec(enter, exit, t_min, t_max, zero),
        r matches Some((a, b)) ==> t_min <= a && zero <= a && b <= t_max && b <= exit && enter <= a,
{
    let mut start = enter;
    let mut end = exit;
    if start < t_min {
        start = t_min;
    }
    if end > t_max {
        end = t_max;
    }
    if start >= end {
        return None;
    }
    if start < zero {
        start = zero;
    }
    Some((start, end))
}

} // verus!
