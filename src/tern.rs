use vstd::prelude::*;

verus! {

/// The three-valued outcome of a containment test.
#[derive(Clone, Copy, Debug, PartialEq, Eq, Structural)]
pub enum Tern {
    /// Strictly inside.
    Yes,
    /// Strictly outside.
    No,
    /// On the boundary (coincident with an edge or a vertex).
    Maybe,
}

/// Parity of an integer sum: `true` when odd (Euclidean remainder).
pub open spec fn is_odd(x: int) -> bool {
    x % 2 == 1
}

/// Sum of a sequence of integers.
pub open spec fn sum(s: Seq<i64>) -> int
    decreases s.len(),
{
    if s.len() == 0 {
        0
    } else {
        sum(s.drop_last()) + s.last() as int
    }
}

impl Tern {
    /// Resolution that counts the boundary as inside.
    pub fn hope(self) -> (r: bool)
        ensures
            r <==> (self == Tern::Yes || self == Tern::Maybe),
    {
        match self {
            Tern::Yes | Tern::Maybe => true,
            Tern::No => false,
        }
    }

    /// Resolution that counts the boundary as outside.
    pub fn despair(self) -> (r: bool)
        ensures
            r <==> self == Tern::Yes,
    {
        match self {
            Tern::Yes => true,
            Tern::Maybe | Tern::No => false,
        }
    }

    /// Inside and outside swapped; the boundary stays the boundary.
    pub open spec fn negated(self) -> Tern {
        match self {
            Tern::Yes => Tern::No,
            Tern::Maybe => Tern::Maybe,
            Tern::No => Tern::Yes,
        }
    }

    /// Swaps inside and outside; the boundary stays the boundary.
    pub fn negate(self) -> (r: Tern)
        ensures
            r == self.negated(),
    {
        match self {
            Tern::Yes => Tern::No,
            Tern::Maybe => Tern::Maybe,
            Tern::No => Tern::Yes,
        }
    }

    /// Containment decided from a per-loop winding count about the query
    /// point: on the boundary when any segment passed through the point,
    /// otherwise inside exactly when the total count is odd.
    pub fn from_windings(on_boundary: bool, windings: &Vec<i64>) -> (r: Tern)
        ensures
            on_boundary ==> r == Tern::Maybe,
            !on_boundary ==> (r == Tern::Yes <==> is_odd(sum(windings@))),
            !on_boundary ==> (r == Tern::No <==> !is_odd(sum(windings@))),
    {
        if on_boundary {
            return Tern::Maybe;
        }
        let mut odd = false;
        let mut i: usize = 0;
        while i < windings.len()
            invariant
                i <= windings@.len(),
                odd <==> is_odd(sum(windings@.subrange(0, i as int))),
            decreases windings@.len() - i,
        {
            let w = windings[i];
            proof {
                let s = windings@.subrange(0, i as int + 1);
                assert(s.drop_last() =~= windings@.subrange(0, i as int));
            }
            if w % 2 != 0 {
                odd = !odd;
            }
            i = i + 1;
        }
        assert(windings@.subrange(0, windings@.len() as int) =~= windings@);
        if odd {
            Tern::Yes
        } else {
            Tern::No
        }
    }
}

impl std::ops::Not for Tern {
    type Output = Tern;

    fn not(self) -> (r: Tern)
        ensures
            r == self.negated(),
    {
        self.negate()
    }
}

impl vstd::std_specs::ops::NotSpecImpl for Tern {
    open spec fn obeys_not_spec() -> bool {
        true
    }

    open spec fn not_req(self) -> bool {
        true
    }

    open spec fn not_spec(self) -> Tern {
        self.negated()
    }
}

} // verus!
