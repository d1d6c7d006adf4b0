use vstd::prelude::*;

verus! {

/// Pairs a sequence of crossing points, sorted along a line, into segments:
/// the first with the second, the third with the fourth, and so on. A last
/// point left without a partner is dropped.
pub fn pair_consecutive<T: Copy>(points: &Vec<T>) -> (r: Vec<(T, T)>)
    ensures
        r@.len() == points@.len() / 2,
        forall|i: int| 0 <= i < r@.len() ==> #[trigger] r@[i] == (points@[2 * i], points@[2 * i + 1]),
{
    let len = points.len();
    let half = len / 2;
    let mut out: Vec<(T, T)> = Vec::new();
    let mut i: usize = 0;
    while i < half
        invariant
            half == points@.len() / 2,
            points@.len() <= usize::MAX,
            i <= half,
            out@.len() == i,
            forall|k: int| 0 <= k < i ==> #[trigger] out@[k] == (points@[2 * k], points@[2 * k + 1]),
        decreases half - i,
    {
        out.push((points[2 * i], points[2 * i + 1]));
        i = i + 1;
    }
    out
}

} // verus!
