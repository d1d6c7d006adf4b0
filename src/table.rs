use vstd::prelude::*;
use crate::loops::IndexEdge;

verus! {

/// `same` is a square table over the endpoints of a bag of edges: endpoint
/// `2k` is the start of edge `k` and endpoint `2k + 1` its end, and
/// `same[i][j]` says whether endpoints `i` and `j` coincide.
pub open spec fn coincidence_table(same: Seq<Vec<bool>>) -> bool {
    &&& same.len() % 2 == 0
    &&& forall|i: int| 0 <= i < same.len() ==> #[trigger] same[i]@.len() == same.len()
}

/// Whether the point recorded as endpoint `p` stands for endpoint `e`.
pub open spec fn represents(same: Seq<Vec<bool>>, p: int, e: int) -> bool {
    p == e || same[p]@[e]
}

/// The point-table index that `edges` gives to endpoint `e`.
pub open spec fn id_of(edges: Seq<IndexEdge>, e: int) -> int {
    if e % 2 == 0 {
        edges[e / 2].0 as int
    } else {
        edges[e / 2].1 as int
    }
}

/// Last entry of `table` that coincides with endpoint `e`.
fn find_last(table: &Vec<usize>, same: &Vec<Vec<bool>>, e: usize) -> (r: Option<usize>)
    requires
        coincidence_table(same@),
        e < same@.len(),
        forall|q: int| 0 <= q < table@.len() ==> #[trigger] table@[q] < same@.len(),
    ensures
        r matches Some(p) ==> p < table@.len() && same@[table@[p as int] as int]@[e as int]
            && forall|q: int| p < q < table@.len() ==> !same@[#[trigger] table@[q] as int]@[e as int],
        r is None ==> forall|q: int| 0 <= q < table@.len() ==> !same@[#[trigger] table@[q] as int]@[e as int],
{
    let mut found: Option<usize> = None;
    let mut q: usize = 0;
    while q < table.len()
        invariant
            coincidence_table(same@),
            e < same@.len(),
            forall|q: int| 0 <= q < table@.len() ==> #[trigger] table@[q] < same@.len(),
            q <= table@.len(),
            found matches Some(p) ==> p < q && same@[table@[p as int] as int]@[e as int]
                && forall|k: int| p < k < q ==> !same@[#[trigger] table@[k] as int]@[e as int],
            found is None ==> forall|k: int| 0 <= k < q ==> !same@[#[trigger] table@[k] as int]@[e as int],
        decreases table@.len() - q,
    {
        if same[table[q]][e] {
            found = Some(q);
        }
        q = q + 1;
    }
    found
}

/// Builds the point table of a bag of edges: each endpoint is matched
/// against the points already recorded before its edge, and recorded as a
/// new point only when it coincides with none of them. Returns each edge as
/// a pair of point indices, and for each point the endpoint that it was
/// recorded from.
pub fn index_points(same: &Vec<Vec<bool>>) -> (r: (Vec<IndexEdge>, Vec<usize>))
    requires
        coincidence_table(same@),
    ensures
        r.0@.len() * 2 == same@.len(),
        forall|q: int| 0 <= q < r.1@.len() ==> #[trigger] r.1@[q] < same@.len(),
        forall|q: int, p: int| 0 <= q < p < r.1@.len() ==> #[trigger] r.1@[q] < #[trigger] r.1@[p],
        forall|e: int|
            0 <= e < same@.len() ==> {
                &&& 0 <= #[trigger] id_of(r.0@, e) < r.1@.len()
                &&& represents(same@, r.1@[id_of(r.0@, e)] as int, e)
            },
        forall|p: int| 0 <= p < r.1@.len() ==> id_of(r.0@, #[trigger] r.1@[p] as int) == p,
        forall|q: int, p: int|
            0 <= q < p < r.1@.len() && r.1@[q] < 2 * (r.1@[p] / 2) ==> !same@[#[trigger] r.1@[q] as int]@[#[trigger] r.1@[p] as int],
{
    let len = same.len();
    let n = len / 2;
    let mut edges: Vec<IndexEdge> = Vec::new();
    let mut table: Vec<usize> = Vec::new();
    let mut k: usize = 0;
    while k < n
        invariant
            coincidence_table(same@),
            n * 2 == same@.len(),
            same@.len() <= usize::MAX,
            k <= n,
            edges@.len() == k,
            forall|q: int| 0 <= q < table@.len() ==> #[trigger] table@[q] < 2 * k,
            forall|q: int, p: int| 0 <= q < p < table@.len() ==> #[trigger] table@[q] < #[trigger] table@[p],
            forall|e: int|
                0 <= e < 2 * k ==> {
                    &&& 0 <= #[trigger] id_of(edges@, e) < table@.len()
                    &&& represents(same@, table@[id_of(edges@, e)] as int, e)
                },
            forall|p: int| 0 <= p < table@.len() ==> id_of(edges@, #[trigger] table@[p] as int) == p,
            forall|q: int, p: int|
                0 <= q < p < table@.len() && table@[q] < 2 * (table@[p] / 2) ==> !same@[#[trigger] table@[q] as int]@[#[trigger] table@[p] as int],
        decreases n - k,
    {
        let ea = 2 * k;
        let eb = 2 * k + 1;
        let ghost old_table = table@;
        let found_a = find_last(&table, same, ea);
        let found_b = find_last(&table, same, eb);
        let ia = match found_a {
            Some(p) => p,
            None => {
                table.push(ea);
                table.len() - 1
            },
        };
        let ib = match found_b {
            Some(p) => p,
            None => {
                table.push(eb);
                table.len() - 1
            },
        };
        let ghost old_edges = edges@;
        edges.push((ia, ib));
        proof {
            assert forall|q: int| 0 <= q < old_table.len() implies table@[q] == old_table[q] by {}
            assert(represents(same@, table@[ia as int] as int, ea as int));
            assert(represents(same@, table@[ib as int] as int, eb as int));
            assert forall|e: int| 0 <= e < 2 * k + 2 implies {
                &&& 0 <= #[trigger] id_of(edges@, e) < table@.len()
                &&& represents(same@, table@[id_of(edges@, e)] as int, e)
            } by {
                if e < 2 * k {
                    assert(e / 2 < k);
                    assert(id_of(edges@, e) == id_of(old_edges, e));
                } else if e == 2 * k {
                    assert(id_of(edges@, e) == ia);
                } else {
                    assert(id_of(edges@, e) == ib);
                }
            }
            assert forall|p: int| 0 <= p < table@.len() implies id_of(edges@, #[trigger] table@[p] as int) == p by {
                if p < old_table.len() {
                    assert(table@[p] == old_table[p]);
                }
            }
        }
        k = k + 1;
    }
    (edges, table)
}

} // verus!
