use vstd::prelude::*;
use vstd::multiset::Multiset;
use vstd::arithmetic::div_mod::{lemma_mod_self_0, lemma_small_mod};
use vstd::seq_lib::{lemma_multiset_commutative, to_multiset_build, to_multiset_insert};

verus! {

broadcast use vstd::multiset::group_multiset_axioms, vstd::seq_lib::group_to_multiset_ensures;

/// An edge between two entries of a point table.
pub type IndexEdge = (usize, usize);

/// How many of the two ends of `e` are the point `v`.
pub open spec fn incidence(e: IndexEdge, v: usize) -> int {
    (if e.0 == v { 1int } else { 0int }) + (if e.1 == v { 1int } else { 0int })
}

/// Number of edge ends in `s` at the point `v` (a loop edge counts twice).
pub open spec fn degree(s: Seq<IndexEdge>, v: usize) -> int
    decreases s.len(),
{
    if s.len() == 0 {
        0
    } else {
        degree(s.drop_last(), v) + incidence(s.last(), v)
    }
}

/// Every point meets an even number of edge ends: the condition for a bag
/// of edges to split into closed loops.
pub open spec fn even_degrees(s: Seq<IndexEdge>) -> bool {
    forall|v: usize| #[trigger] degree(s, v) % 2 == 0
}

/// An edge with its ends in ascending order, so that `(a, b)` and `(b, a)`
/// are the same undirected edge.
pub open spec fn undirected(e: IndexEdge) -> IndexEdge {
    if e.0 <= e.1 {
        e
    } else {
        (e.1, e.0)
    }
}

/// The bag of undirected edges of `s`.
pub open spec fn edge_bag(s: Seq<IndexEdge>) -> Multiset<IndexEdge> {
    s.map_values(|e: IndexEdge| undirected(e)).to_multiset()
}

/// The segments of a closed loop: each point to the next, and the last back
/// to the first.
pub open spec fn cycle_segments(l: Seq<usize>) -> Seq<IndexEdge> {
    Seq::new(l.len(), |j: int| (l[j], l[(j + 1) % (l.len() as int)]))
}

/// The segments of an open chain: each point to the next.
pub open spec fn path_segments(c: Seq<usize>) -> Seq<IndexEdge> {
    Seq::new((if c.len() == 0 { 0 } else { c.len() - 1 }) as nat, |j: int| (c[j], c[j + 1]))
}

/// The segments of all loops, loop after loop.
pub open spec fn all_segments(loops: Seq<Seq<usize>>) -> Seq<IndexEdge>
    decreases loops.len(),
{
    if loops.len() == 0 {
        Seq::empty()
    } else {
        all_segments(loops.drop_last()) + cycle_segments(loops.last())
    }
}

/// The point sequences of a list of loops.
pub open spec fn loops_view(loops: Seq<Vec<usize>>) -> Seq<Seq<usize>> {
    loops.map_values(|l: Vec<usize>| l@)
}

/// Why a bag of edges could not be distilled into loops.
#[derive(Clone, Copy, Debug, PartialEq, Eq, Structural)]
pub enum DistillError {
    /// A chain reached a point with no unused edge left at it.
    OpenChain,
}

proof fn lemma_degree_concat(a: Seq<IndexEdge>, b: Seq<IndexEdge>, v: usize)
    ensures
        degree(a + b, v) == degree(a, v) + degree(b, v),
    decreases b.len(),
{
    if b.len() == 0 {
        assert(a + b =~= a);
    } else {
        lemma_degree_concat(a, b.drop_last(), v);
        assert((a + b).drop_last() =~= a + b.drop_last());
    }
}

proof fn lemma_degree_single(e: IndexEdge, v: usize)
    ensures
        degree(seq![e], v) == incidence(e, v),
{
    assert(seq![e].drop_last() =~= Seq::<IndexEdge>::empty());
    assert(degree(Seq::<IndexEdge>::empty(), v) == 0);
}

proof fn lemma_degree_remove(s: Seq<IndexEdge>, i: int, v: usize)
    requires
        0 <= i < s.len(),
    ensures
        degree(s.remove(i), v) == degree(s, v) - incidence(s[i], v),
{
    let front = s.subrange(0, i);
    let back = s.subrange(i + 1, s.len() as int);
    let one = seq![s[i]];
    assert(s =~= front + (one + back));
    assert(s.remove(i) =~= front + back);
    lemma_degree_concat(front, one + back, v);
    lemma_degree_concat(one, back, v);
    lemma_degree_concat(front, back, v);
    lemma_degree_single(s[i], v);
}

proof fn lemma_path_parity(c: Seq<usize>, v: usize)
    requires
        c.len() >= 2,
    ensures
        (degree(path_segments(c), v) - (if c[0] == v { 1int } else { 0int }) - (if c.last() == v {
            1int
        } else {
            0int
        })) % 2 == 0,
    decreases c.len(),
{
    let p = path_segments(c);
    if c.len() == 2 {
        assert(p =~= seq![(c[0], c[1])]);
        lemma_degree_single((c[0], c[1]), v);
    } else {
        let d = c.drop_last();
        lemma_path_parity(d, v);
        assert(p.drop_last() =~= path_segments(d));
        assert(p.last() == (d.last(), c.last()));
        assert(degree(p, v) == degree(path_segments(d), v) + incidence((d.last(), c.last()), v));
    }
}

proof fn lemma_cycle_as_path(l: Seq<usize>)
    requires
        l.len() >= 1,
    ensures
        cycle_segments(l) == path_segments(l.push(l[0])),
{
    let c = l.push(l[0]);
    let n = l.len() as int;
    assert forall|j: int| 0 <= j < n implies #[trigger] cycle_segments(l)[j] == path_segments(c)[j] by {
        if j + 1 < n {
            lemma_small_mod((j + 1) as nat, n as nat);
        } else {
            lemma_mod_self_0(n);
        }
    }
    assert(cycle_segments(l) =~= path_segments(c));
}

proof fn lemma_cycle_even(l: Seq<usize>, v: usize)
    requires
        l.len() >= 1,
    ensures
        degree(cycle_segments(l), v) % 2 == 0,
{
    let c = l.push(l[0]);
    lemma_cycle_as_path(l);
    lemma_path_parity(c, v);
}

proof fn lemma_loops_even(loops: Seq<Seq<usize>>, v: usize)
    requires
        forall|k: int| 0 <= k < loops.len() ==> #[trigger] loops[k].len() >= 1,
    ensures
        degree(all_segments(loops), v) % 2 == 0,
    decreases loops.len(),
{
    if loops.len() > 0 {
        lemma_loops_even(loops.drop_last(), v);
        lemma_cycle_even(loops.last(), v);
        lemma_degree_concat(all_segments(loops.drop_last()), cycle_segments(loops.last()), v);
    }
}

proof fn lemma_bag_concat(a: Seq<IndexEdge>, b: Seq<IndexEdge>)
    ensures
        edge_bag(a + b) == edge_bag(a).add(edge_bag(b)),
{
    let f = |e: IndexEdge| undirected(e);
    assert((a + b).map_values(f) =~= a.map_values(f) + b.map_values(f));
    lemma_multiset_commutative(a.map_values(f), b.map_values(f));
}

proof fn lemma_bag_remove(s: Seq<IndexEdge>, i: int)
    requires
        0 <= i < s.len(),
    ensures
        edge_bag(s) == edge_bag(s.remove(i)).insert(undirected(s[i])),
{
    let f = |e: IndexEdge| undirected(e);
    let m = s.map_values(f);
    assert(s.remove(i).map_values(f) =~= m.remove(i));
    assert(m.remove(i).insert(i, m[i]) =~= m);
    to_multiset_insert(m.remove(i), i, m[i]);
}

proof fn lemma_bag_push(s: Seq<IndexEdge>, e: IndexEdge)
    ensures
        edge_bag(s.push(e)) == edge_bag(s).insert(undirected(e)),
{
    let f = |e: IndexEdge| undirected(e);
    assert(s.push(e).map_values(f) =~= s.map_values(f).push(undirected(e)));
    to_multiset_build(s.map_values(f), e);
    to_multiset_build(s.map_values(f), undirected(e));
}

/// Position of an edge of `rest` with an end at `t`, and its other end.
fn find_incident(rest: &Vec<IndexEdge>, t: usize) -> (r: Option<(usize, usize)>)
    ensures
        r matches Some((i, o)) ==> i < rest@.len() && (rest@[i as int] == (t, o) || rest@[i as int]
            == (o, t)),
        r is None ==> forall|k: int| 0 <= k < rest@.len() ==> incidence(#[trigger] rest@[k], t) == 0,
{
    let mut i: usize = 0;
    while i < rest.len()
        invariant
            i <= rest@.len(),
            forall|k: int| 0 <= k < i ==> incidence(#[trigger] rest@[k], t) == 0,
        decreases rest@.len() - i,
    {
        let (x, y) = rest[i];
        if x == t {
            return Some((i, y));
        } else if y == t {
            return Some((i, x));
        }
        i = i + 1;
    }
    None
}

/// Splits an unordered bag of edges into closed loops of points. Each edge
/// is used by exactly one loop segment, in either direction; this succeeds
/// exactly when every point meets an even number of edge ends.
pub fn distill_loops(edges: Vec<IndexEdge>) -> (r: Result<Vec<Vec<usize>>, DistillError>)
    ensures
        r is Ok <==> even_degrees(edges@),
        r matches Ok(loops) ==> {
            &&& forall|k: int| 0 <= k < loops@.len() ==> #[trigger] loops@[k]@.len() >= 1
            &&& edge_bag(all_segments(loops_view(loops@))) == edge_bag(edges@)
        },
{
    let ghost input = edges@;
    let mut rest = edges;
    let mut loops: Vec<Vec<usize>> = Vec::new();
    while rest.len() > 0
        invariant
            input == edges@,
            forall|k: int| 0 <= k < loops@.len() ==> #[trigger] loops@[k]@.len() >= 1,
            edge_bag(input) == edge_bag(rest@).add(edge_bag(all_segments(loops_view(loops@)))),
            forall|v: usize|
                degree(input, v) == degree(rest@, v) + degree(
                    all_segments(loops_view(loops@)),
                    v,
                ),
        decreases rest@.len(),
    {
        let ghost done = all_segments(loops_view(loops@));
        let ghost before = rest@;
        let e = rest.pop().unwrap();
        let mut chain: Vec<usize> = vec![e.0, e.1];
        proof {
            assert(rest@ =~= before.remove(before.len() - 1));
            lemma_bag_remove(before, before.len() - 1);
            assert(path_segments(chain@) =~= seq![e]);
            lemma_bag_push(Seq::empty(), e);
            assert(Seq::<IndexEdge>::empty().push(e) =~= seq![e]);
            assert(seq![e].drop_last() =~= Seq::<IndexEdge>::empty());
            assert(edge_bag(input) =~= edge_bag(rest@).add(edge_bag(done)).add(
                edge_bag(path_segments(chain@)),
            ));
            assert forall|v: usize|
                degree(input, v) == degree(rest@, v) + degree(done, v) + degree(
                    path_segments(chain@),
                    v,
                ) by {
                lemma_degree_remove(before, before.len() - 1, v);
                lemma_degree_single(e, v);
            }
        }
        while chain[0] != chain[chain.len() - 1]
            invariant
                chain@.len() >= 2,
                rest@.len() < before.len(),
                input == edges@,
                forall|k: int| 0 <= k < loops@.len() ==> #[trigger] loops@[k]@.len() >= 1,
                done == all_segments(loops_view(loops@)),
                edge_bag(input) == edge_bag(rest@).add(edge_bag(done)).add(
                    edge_bag(path_segments(chain@)),
                ),
                forall|v: usize|
                    degree(input, v) == degree(rest@, v) + degree(done, v) + degree(
                        path_segments(chain@),
                        v,
                    ),
            decreases rest@.len(),
        {
            let t = chain[chain.len() - 1];
            match find_incident(&rest, t) {
                None => {
                    proof {
                        let v = t;
                        assert forall|k: int| 0 <= k <= rest@.len() implies degree(
                            rest@.subrange(0, k),
                            v,
                        ) == 0 by {
                            lemma_prefix_degree_zero(rest@, v, k);
                        }
                        assert(rest@.subrange(0, rest@.len() as int) =~= rest@);
                        lemma_loops_even(loops_view(loops@), v);
                        lemma_path_parity(chain@, v);
                        assert(degree(input, v) % 2 != 0);
                        assert(!even_degrees(input));
                    }
                    return Err(DistillError::OpenChain);
                },
                Some((i, o)) => {
                    let ghost r0 = rest@;
                    let ghost c0 = chain@;
                    rest.remove(i);
                    chain.push(o);
                    proof {
                        lemma_bag_remove(r0, i as int);
                        assert(path_segments(chain@) =~= path_segments(c0).push((t, o)));
                        lemma_bag_push(path_segments(c0), (t, o));
                        assert(undirected((t, o)) == undirected(r0[i as int]));
                        assert(edge_bag(input) =~= edge_bag(rest@).add(edge_bag(done)).add(
                            edge_bag(path_segments(chain@)),
                        ));
                        assert forall|v: usize|
                            degree(input, v) == degree(rest@, v) + degree(done, v) + degree(
                                path_segments(chain@),
                                v,
                            ) by {
                            lemma_degree_remove(r0, i as int, v);
                            assert(path_segments(chain@).drop_last() =~= path_segments(c0));
                        }
                    }
                },
            }
        }
        let ghost closed = chain@;
        chain.pop();
        proof {
            assert(closed =~= chain@.push(chain@[0]));
            lemma_cycle_as_path(chain@);
            let lv = loops_view(loops@.push(chain));
            assert(lv.drop_last() =~= loops_view(loops@));
            assert(lv.last() == chain@);
            lemma_bag_concat(done, cycle_segments(chain@));
            assert(edge_bag(input) =~= edge_bag(rest@).add(edge_bag(all_segments(lv))));
            assert forall|v: usize|
                degree(input, v) == degree(rest@, v) + degree(all_segments(lv), v) by {
                lemma_degree_concat(done, cycle_segments(chain@), v);
            }
        }
        loops.push(chain);
    }
    proof {
        assert(rest@ =~= Seq::<IndexEdge>::empty());
        assert(edge_bag(rest@) =~= Multiset::empty());
        assert forall|v: usize| #[trigger] degree(input, v) % 2 == 0 by {
            lemma_loops_even(loops_view(loops@), v);
        }
    }
    Ok(loops)
}

proof fn lemma_prefix_degree_zero(s: Seq<IndexEdge>, v: usize, k: int)
    requires
        0 <= k <= s.len(),
        forall|j: int| 0 <= j < s.len() ==> incidence(#[trigger] s[j], v) == 0,
    ensures
        degree(s.subrange(0, k), v) == 0,
    decreases k,
{
    if k > 0 {
        lemma_prefix_degree_zero(s, v, k - 1);
        assert(s.subrange(0, k).drop_last() =~= s.subrange(0, k - 1));
    }
}

/// The segments of every loop, loop after loop: each point to the next,
/// and the last point of a loop back to its first.
pub fn loop_segments(loops: &Vec<Vec<usize>>) -> (r: Vec<IndexEdge>)
    ensures
        r@ == all_segments(loops_view(loops@)),
{
    let mut out: Vec<IndexEdge> = Vec::new();
    let mut k: usize = 0;
    while k < loops.len()
        invariant
            k <= loops@.len(),
            out@ == all_segments(loops_view(loops@.subrange(0, k as int))),
        decreases loops@.len() - k,
    {
        let l = &loops[k];
        let ghost before = out@;
        let n = l.len();
        let mut j: usize = 0;
        while j < n
            invariant
                n == l@.len(),
                j <= n,
                out@ == before + cycle_segments(l@).subrange(0, j as int),
            decreases n - j,
        {
            let next = if j + 1 < n { j + 1 } else { 0 };
            proof {
                if j + 1 < n {
                    lemma_small_mod((j + 1) as nat, n as nat);
                } else {
                    lemma_mod_self_0(n as int);
                }
            }
            out.push((l[j], l[next]));
            assert(out@ =~= before + cycle_segments(l@).subrange(0, j as int + 1));
            j = j + 1;
        }
        proof {
            let lv = loops_view(loops@.subrange(0, k as int + 1));
            assert(lv.drop_last() =~= loops_view(loops@.subrange(0, k as int)));
            assert(cycle_segments(l@).subrange(0, n as int) =~= cycle_segments(l@));
        }
        k = k + 1;
    }
    assert(loops@.subrange(0, loops@.len() as int) =~= loops@);
    out
}

/// Distilling the segments of any list of non-empty loops succeeds: every
/// point of such a list meets an even number of segment ends, so the
/// segments split again into closed loops with the same undirected
/// segments.
pub proof fn lemma_segments_redistill(loops: Seq<Seq<usize>>)
    requires
        forall|k: int| 0 <= k < loops.len() ==> #[trigger] loops[k].len() >= 1,
    ensures
        even_degrees(all_segments(loops)),
{
    assert forall|v: usize| #[trigger] degree(all_segments(loops), v) % 2 == 0 by {
        lemma_loops_even(loops, v);
    }
}

} // verus!
