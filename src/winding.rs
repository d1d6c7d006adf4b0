use vstd::prelude::*;
use crate::tern::Tern;

verus! {

/// Number of loops `j < upto`, other than `i`, whose containment test for
/// the first point of loop `i` said inside. `inside[j][i]` is the test of
/// loop `j` against loop `i`.
pub open spec fn enclosing_count(inside: Seq<Vec<Tern>>, i: int, upto: int) -> nat
    decreases upto,
{
    if upto <= 0 {
        0
    } else {
        enclosing_count(inside, i, upto - 1) + if upto - 1 != i && inside[upto - 1]@[i]
            == Tern::Yes {
            1nat
        } else {
            0nat
        }
    }
}

/// Some loop other than `i` found the first point of loop `i` on its
/// boundary, so the nesting of `i` cannot be told.
pub open spec fn touches(inside: Seq<Vec<Tern>>, i: int) -> bool {
    exists|j: int| 0 <= j < inside.len() && j != i && #[trigger] inside[j]@[i] == Tern::Maybe
}

/// A square table of containment tests between the loops of a face.
pub open spec fn square(inside: Seq<Vec<Tern>>) -> bool {
    forall|j: int| 0 <= j < inside.len() ==> #[trigger] inside[j]@.len() == inside.len()
}

/// Why the loops of a face could not be ordered by nesting.
#[derive(Clone, Copy, Debug, PartialEq, Eq, Structural)]
pub enum NestingError {
    /// The first point of this loop lies on the boundary of another loop.
    Touching(usize),
}

/// The nesting depth of each loop: how many other loops contain its first
/// point. Fails, naming the first such loop, when a loop's first point lies
/// on the boundary of another.
pub fn nesting_depths(inside: &Vec<Vec<Tern>>) -> (r: Result<Vec<usize>, NestingError>)
    requires
        square(inside@),
    ensures
        r matches Ok(d) ==> d@.len() == inside@.len() && forall|i: int|
            0 <= i < d@.len() ==> #[trigger] d@[i] as int == enclosing_count(
                inside@,
                i,
                inside@.len() as int,
            ),
        r is Ok <==> forall|i: int| 0 <= i < inside@.len() ==> !#[trigger] touches(inside@, i),
        r matches Err(NestingError::Touching(i)) ==> i < inside@.len() && touches(inside@, i as int)
            && forall|k: int| 0 <= k < i ==> !#[trigger] touches(inside@, k),
{
    let n = inside.len();
    let mut depths: Vec<usize> = Vec::new();
    let mut i: usize = 0;
    while i < n
        invariant
            n == inside@.len(),
            square(inside@),
            i <= n,
            depths@.len() == i,
            forall|k: int| 0 <= k < i ==> #[trigger] depths@[k] as int == enclosing_count(
                inside@,
                k,
                n as int,
            ),
            forall|k: int| 0 <= k < i ==> !#[trigger] touches(inside@, k),
        decreases n - i,
    {
        let mut count: usize = 0;
        let mut j: usize = 0;
        while j < n
            invariant
                n == inside@.len(),
                square(inside@),
                i < n,
                j <= n,
                count as int == enclosing_count(inside@, i as int, j as int),
                count <= j,
                forall|k: int| 0 <= k < i ==> !#[trigger] touches(inside@, k),
                forall|k: int| 0 <= k < j && k != i ==> inside@[k]@[i as int] != Tern::Maybe,
            decreases n - j,
        {
            if j != i {
                match inside[j][i] {
                    Tern::Yes => {
                        count = count + 1;
                    },
                    Tern::No => {},
                    Tern::Maybe => {
                        assert(touches(inside@, i as int));
                        return Err(NestingError::Touching(i));
                    },
                }
            }
            j = j + 1;
        }
        assert(!touches(inside@, i as int));
        depths.push(count);
        i = i + 1;
    }
    Ok(depths)
}

/// A copy of `v` in reverse order.
pub fn reversed<T: Copy>(v: &Vec<T>) -> (r: Vec<T>)
    ensures
        r@ == v@.reverse(),
{
    let mut out: Vec<T> = Vec::new();
    let mut k: usize = v.len();
    while k > 0
        invariant
            k <= v@.len(),
            out@ =~= v@.subrange(k as int, v@.len() as int).reverse(),
        decreases k,
    {
        k = k - 1;
        out.push(v[k]);
        assert(out@ =~= v@.subrange(k as int, v@.len() as int).reverse());
    }
    assert(v@.subrange(0, v@.len() as int) =~= v@);
    out
}

/// Whether a loop is kept in its direction: counter-clockwise loops at even
/// depth (outer boundaries) and clockwise loops at odd depth (holes).
pub open spec fn keeps_direction(ccw: bool, depth: int) -> bool {
    ccw == (depth % 2 == 0)
}

/// Makes each loop's direction agree with its nesting depth: a loop is
/// reversed exactly when it is counter-clockwise at odd depth or clockwise
/// at even depth.
pub fn orient_loops<T: Copy>(loops: Vec<Vec<T>>, ccw: &Vec<bool>, depths: &Vec<usize>) -> (r: Vec<
    Vec<T>,
>)
    requires
        ccw@.len() == loops@.len(),
        depths@.len() == loops@.len(),
    ensures
        r@.len() == loops@.len(),
        forall|i: int|
            0 <= i < r@.len() ==> #[trigger] r@[i]@ == if keeps_direction(
                ccw@[i],
                depths@[i] as int,
            ) {
                loops@[i]@
            } else {
                loops@[i]@.reverse()
            },
{
    let ghost all = loops@;
    let mut rest = loops;
    let mut out: Vec<Vec<T>> = Vec::new();
    let mut i: usize = 0;
    while i < ccw.len()
        invariant
            all == loops@,
            rest@ == all.subrange(i as int, all.len() as int),
            ccw@.len() == loops@.len(),
            depths@.len() == loops@.len(),
            i <= loops@.len(),
            out@.len() == i,
            forall|k: int|
                0 <= k < i ==> #[trigger] out@[k]@ == if keeps_direction(
                    ccw@[k],
                    depths@[k] as int,
                ) {
                    loops@[k]@
                } else {
                    loops@[k]@.reverse()
                },
        decreases loops@.len() - i,
    {
        let l = rest.remove(0);
        if ccw[i] == (depths[i] % 2 == 0) {
            out.push(l);
        } else {
            out.push(reversed(&l));
        }
        i = i + 1;
    }
    out
}

} // verus!
