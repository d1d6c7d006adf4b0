use vstd::prelude::*;
use crate::tern::Tern;

verus! {

/// The three set operations of constructive solid geometry.
#[derive(Clone, Copy, Debug, PartialEq, Eq, Structural)]
pub enum Boolean {
    Union,
    Intersection,
    Difference,
}

/// Whether a fragment of the first operand, whose midpoint classified as `c`
/// against the second operand, belongs to the result. The boundary counts
/// as inside ("hope").
pub open spec fn keeps_target_spec(op: Boolean, c: Tern) -> bool {
    let inside = c == Tern::Yes || c == Tern::Maybe;
    match op {
        Boolean::Intersection => inside,
        Boolean::Union | Boolean::Difference => !inside,
    }
}

/// Whether a fragment of the second operand, whose midpoint classified as
/// `c` against the first operand, belongs to the result. The boundary counts
/// as outside ("despair").
pub open spec fn keeps_tool_spec(op: Boolean, c: Tern) -> bool {
    let inside = c == Tern::Yes;
    match op {
        Boolean::Union => !inside,
        Boolean::Intersection | Boolean::Difference => inside,
    }
}

/// The items of `items` whose flag in `keep` is set, in their order.
pub open spec fn selected<T>(items: Seq<T>, keep: Seq<bool>) -> Seq<T>
    decreases items.len(),
{
    if items.len() == 0 {
        Seq::empty()
    } else {
        let rest = selected(items.drop_last(), keep);
        if keep[items.len() - 1] {
            rest.push(items.last())
        } else {
            rest
        }
    }
}

/// Faces of a solid boolean, from the parts of each operand that lie inside
/// and outside the other.
pub open spec fn assembled<T>(
    op: Boolean,
    a_inside: Seq<T>,
    a_outside: Seq<T>,
    b_inside: Seq<T>,
    b_outside: Seq<T>,
) -> Seq<T> {
    match op {
        Boolean::Union => a_outside + b_outside,
        Boolean::Intersection => a_inside + b_inside,
        Boolean::Difference => a_outside + b_inside,
    }
}

/// Keep rule for a fragment of the first operand of a face boolean.
pub fn keeps_target(op: Boolean, c: Tern) -> (r: bool)
    ensures
        r == keeps_target_spec(op, c),
{
    match op {
        Boolean::Intersection => c.hope(),
        Boolean::Union | Boolean::Difference => !c.hope(),
    }
}

/// Keep rule for a fragment of the second operand of a face boolean.
pub fn keeps_tool(op: Boolean, c: Tern) -> (r: bool)
    ensures
        r == keeps_tool_spec(op, c),
{
    match op {
        Boolean::Union => !c.despair(),
        Boolean::Intersection | Boolean::Difference => c.despair(),
    }
}

/// Keeps the items whose flag is set, in their order.
pub fn select<T>(items: Vec<T>, keep: &Vec<bool>) -> (r: Vec<T>)
    requires
        keep@.len() == items@.len(),
    ensures
        r@ == selected(items@, keep@),
{
    let ghost all = items@;
    let mut rest = items;
    let mut out: Vec<T> = Vec::new();
    let mut i: usize = 0;
    while i < keep.len()
        invariant
            keep@.len() == all.len(),
            i <= all.len(),
            rest@ == all.subrange(i as int, all.len() as int),
            out@ == selected(all.subrange(0, i as int), keep@),
        decreases all.len() - i,
    {
        let item = rest.remove(0);
        proof {
            let s = all.subrange(0, i as int + 1);
            assert(s.drop_last() =~= all.subrange(0, i as int));
        }
        if keep[i] {
            out.push(item);
        }
        i = i + 1;
    }
    assert(all.subrange(0, all.len() as int) =~= all);
    out
}

/// Concatenates the face lists that form the result of a solid boolean.
pub fn assemble<T>(
    op: Boolean,
    a_inside: Vec<T>,
    a_outside: Vec<T>,
    b_inside: Vec<T>,
    b_outside: Vec<T>,
) -> (r: Vec<T>)
    ensures
        r@ == assembled(op, a_inside@, a_outside@, b_inside@, b_outside@),
{
    let (mut first, mut second) = match op {
        Boolean::Union => (a_outside, b_outside),
        Boolean::Intersection => (a_inside, b_inside),
        Boolean::Difference => (a_outside, b_inside),
    };
    first.append(&mut second);
    first
}

/// Union and intersection split every fragment of either operand between
/// them: whatever its classification, a fragment is kept by exactly one of
/// the two operations, on the first operand's side and on the second's.
pub proof fn lemma_union_intersection_partition(c: Tern)
    ensures
        keeps_target_spec(Boolean::Union, c) != keeps_target_spec(Boolean::Intersection, c),
        keeps_tool_spec(Boolean::Union, c) != keeps_tool_spec(Boolean::Intersection, c),
{
}

/// A fragment that lies on the shared boundary of the two operands (it
/// classifies as on the boundary from either side) is kept by exactly one
/// side under union and under intersection, so that such fragments are
/// neither lost nor duplicated; under difference neither side keeps it.
pub proof fn lemma_shared_boundary_kept_once(op: Boolean)
    ensures
        op != Boolean::Difference ==> keeps_target_spec(op, Tern::Maybe) != keeps_tool_spec(
            op,
            Tern::Maybe,
        ),
        op == Boolean::Difference ==> !keeps_target_spec(op, Tern::Maybe) && !keeps_tool_spec(
            op,
            Tern::Maybe,
        ),
{
}

} // verus!
