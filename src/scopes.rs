use vstd::prelude::*;

verus! {

/// What a name is bound to in a scope: a variable, or the bookkeeping of a
/// function call in progress.
#[derive(Clone, Debug, PartialEq)]
pub enum Symbol<V, F> {
    Variable(V),
    Function(F),
}

/// The latest binding of `name` in one scope, as a list of bindings.
pub open spec fn binding_in<E>(frame: Seq<(String, E)>, name: Seq<char>) -> Option<E>
    decreases frame.len(),
{
    if frame.len() == 0 {
        None
    } else if frame.last().0@ == name {
        Some(frame.last().1)
    } else {
        binding_in(frame.drop_last(), name)
    }
}

/// One scope as a map from names to what they are bound to.
pub open spec fn scope_map<E>(frame: Seq<(String, E)>) -> Map<Seq<char>, E> {
    Map::new(|k: Seq<char>| binding_in(frame, k) is Some, |k: Seq<char>| binding_in(frame, k)->0)
}

/// The variable that `name` denotes: its binding in the innermost scope that
/// binds it as a variable.
pub open spec fn innermost_variable<V, F>(scopes: Seq<Map<Seq<char>, Symbol<V, F>>>, name: Seq<char>) -> Option<V>
    decreases scopes.len(),
{
    if scopes.len() == 0 {
        None
    } else if scopes.last().contains_key(name) && scopes.last()[name] is Variable {
        Some(scopes.last()[name]->Variable_0)
    } else {
        innermost_variable(scopes.drop_last(), name)
    }
}

/// The call record that `name` denotes: its binding in the innermost scope
/// that binds it as a function call.
pub open spec fn innermost_function<V, F>(scopes: Seq<Map<Seq<char>, Symbol<V, F>>>, name: Seq<char>) -> Option<F>
    decreases scopes.len(),
{
    if scopes.len() == 0 {
        None
    } else if scopes.last().contains_key(name) && scopes.last()[name] is Function {
        Some(scopes.last()[name]->Function_0)
    } else {
        innermost_function(scopes.drop_last(), name)
    }
}

/// The innermost scope that binds `name` as a function call, if any.
pub open spec fn innermost_function_scope<V, F>(scopes: Seq<Map<Seq<char>, Symbol<V, F>>>, name: Seq<char>) -> Option<int>
    decreases scopes.len(),
{
    if scopes.len() == 0 {
        None
    } else if scopes.last().contains_key(name) && scopes.last()[name] is Function {
        Some(scopes.len() - 1)
    } else {
        innermost_function_scope(scopes.drop_last(), name)
    }
}

/// A stack of scopes, innermost last.
///
/// Each scope is a list of name–binding pairs rather than a `HashMap`:
/// vstd specifies `HashMap` only for keys that obey its key model, which it
/// grants to primitive types; for `String` keys that fact would have to be
/// assumed, and nothing could be proved about lookups without it.
pub struct SymbolTable<V, F> {
    frames: Vec<Vec<(String, Symbol<V, F>)>>,
}

impl<V, F> View for SymbolTable<V, F> {
    type V = Seq<Map<Seq<char>, Symbol<V, F>>>;

    closed spec fn view(&self) -> Self::V {
        self.frames@.map_values(|f: Vec<(String, Symbol<V, F>)>| scope_map(f@))
    }
}

proof fn lemma_binding_push<E>(frame: Seq<(String, E)>, name: String, e: E)
    ensures
        scope_map(frame.push((name, e))) == scope_map(frame).insert(name@, e),
{
    let s = frame.push((name, e));
    assert(s.drop_last() =~= frame);
    assert(scope_map(s) =~= scope_map(frame).insert(name@, e));
}

proof fn lemma_binding_update<E>(frame: Seq<(String, E)>, k: int, name: String, e: E)
    requires
        0 <= k < frame.len(),
        frame[k].0@ == name@,
        forall|j: int| k < j < frame.len() ==> (#[trigger] frame[j]).0@ != name@,
    ensures
        forall|q: Seq<char>| #[trigger] binding_in(frame.update(k, (name, e)), q) == if q == name@ {
            Some(e)
        } else {
            binding_in(frame, q)
        },
    decreases frame.len(),
{
    let s = frame.update(k, (name, e));
    if k < frame.len() - 1 {
        lemma_binding_update(frame.drop_last(), k, name, e);
        assert(s.drop_last() =~= frame.drop_last().update(k, (name, e)));
        assert(frame[frame.len() - 1].0@ != name@);
    } else {
        assert(s.drop_last() =~= frame.drop_last());
    }
    assert forall|q: Seq<char>| #[trigger] binding_in(s, q) == if q == name@ {
        Some(e)
    } else {
        binding_in(frame, q)
    } by {
        if k < frame.len() - 1 {
            assert(binding_in(s.drop_last(), q) == if q == name@ {
                Some(e)
            } else {
                binding_in(frame.drop_last(), q)
            });
        }
    }
}

proof fn lemma_binding_found<E>(frame: Seq<(String, E)>, k: int, name: Seq<char>)
    requires
        0 <= k < frame.len(),
        frame[k].0@ == name,
        forall|j: int| k < j < frame.len() ==> (#[trigger] frame[j]).0@ != name,
    ensures
        binding_in(frame, name) == Some(frame[k].1),
    decreases frame.len(),
{
    if k < frame.len() - 1 {
        lemma_binding_found(frame.drop_last(), k, name);
    }
}

proof fn lemma_binding_absent<E>(frame: Seq<(String, E)>, name: Seq<char>)
    requires
        forall|j: int| 0 <= j < frame.len() ==> (#[trigger] frame[j]).0@ != name,
    ensures
        binding_in(frame, name) is None,
    decreases frame.len(),
{
    if frame.len() > 0 {
        lemma_binding_absent(frame.drop_last(), name);
    }
}

/// Position of the latest binding of `name` in a scope.
fn find_binding<E>(frame: &Vec<(String, E)>, name: &String) -> (r: Option<usize>)
    ensures
        r matches Some(k) ==> k < frame@.len() && frame@[k as int].0@ == name@ && binding_in(
            frame@,
            name@,
        ) == Some(frame@[k as int].1) && forall|j: int|
            k < j < frame@.len() ==> (#[trigger] frame@[j]).0@ != name@,
        r is None ==> binding_in(frame@, name@) is None,
{
    let mut k: usize = frame.len();
    while k > 0
        invariant
            k <= frame@.len(),
            forall|j: int| k <= j < frame@.len() ==> (#[trigger] frame@[j]).0@ != name@,
        decreases k,
    {
        k = k - 1;
        if frame[k].0 == *name {
            proof {
                lemma_binding_found(frame@, k as int, name@);
            }
            return Some(k);
        }
    }
    proof {
        lemma_binding_absent(frame@, name@);
    }
    None
}

/// Binds `name` to `e` in a scope, replacing its latest binding if any.
fn bind<E>(frame: &mut Vec<(String, E)>, name: String, e: E)
    ensures
        scope_map(final(frame)@) == scope_map(old(frame)@).insert(name@, e),
{
    match find_binding(frame, &name) {
        Some(k) => {
            let ghost before = frame@;
            let ghost key = name@;
            frame.set(k, (name, e));
            proof {
                assert(frame@[k as int].0@ == key);
                lemma_binding_update(before, k as int, frame@[k as int].0, e);
                assert(frame@ == before.update(k as int, (frame@[k as int].0, e)));
                assert(scope_map(frame@) =~= scope_map(before).insert(key, e));
            }
        },
        None => {
            let ghost before = frame@;
            let ghost n = name;
            frame.push((name, e));
            proof {
                lemma_binding_push(before, n, e);
            }
        },
    }
}

impl<V, F> SymbolTable<V, F> {
    /// A table with one empty, outermost scope.
    pub fn new() -> (r: Self)
        ensures
            r@ == seq![Map::<Seq<char>, Symbol<V, F>>::empty()],
    {
        let r = SymbolTable { frames: vec![Vec::new()] };
        proof {
            assert(scope_map(Seq::<(String, Symbol<V, F>)>::empty()) =~= Map::empty());
            assert(r@ =~= seq![Map::<Seq<char>, Symbol<V, F>>::empty()]);
        }
        r
    }

    pub fn depth(&self) -> (r: usize)
        ensures
            r == self@.len(),
    {
        self.frames.len()
    }

    /// Opens an empty innermost scope.
    pub fn push_scope(&mut self)
        ensures
            final(self)@ == old(self)@.push(Map::empty()),
    {
        self.frames.push(Vec::new());
        proof {
            assert(scope_map(Seq::<(String, Symbol<V, F>)>::empty()) =~= Map::empty());
            assert(self@ =~= old(self)@.push(Map::empty()));
        }
    }

    /// Closes the innermost scope, if there is one.
    pub fn pop_scope(&mut self)
        ensures
            final(self)@ == if old(self)@.len() == 0 {
                old(self)@
            } else {
                old(self)@.drop_last()
            },
    {
        self.frames.pop();
        assert(self@ =~= if old(self)@.len() == 0 {
            old(self)@
        } else {
            old(self)@.drop_last()
        });
    }

    /// Binds `name` in scope `k` (0 is the outermost).
    pub fn insert_at(&mut self, k: usize, name: String, e: Symbol<V, F>)
        ensures
            final(self)@ == if k < old(self)@.len() {
                old(self)@.update(k as int, old(self)@[k as int].insert(name@, e))
            } else {
                old(self)@
            },
    {
        if k < self.frames.len() {
            let ghost key = name@;
            let ghost ev = e;
            let mut frame = self.frames.remove(k);
            bind(&mut frame, name, e);
            self.frames.insert(k, frame);
            assert(self@ =~= old(self)@.update(k as int, old(self)@[k as int].insert(key, ev)));
        }
    }

    /// Binds `name` in the innermost scope, if there is one.
    pub fn insert_innermost(&mut self, name: String, e: Symbol<V, F>)
        ensures
            final(self)@ == if old(self)@.len() > 0 {
                old(self)@.update(old(self)@.len() - 1, old(self)@.last().insert(name@, e))
            } else {
                old(self)@
            },
    {
        let n = self.frames.len();
        if n > 0 {
            self.insert_at(n - 1, name, e);
        }
    }

    /// The variable that `name` denotes, looked up from the innermost scope
    /// outwards; bindings of function calls are passed over.
    pub fn get_var(&self, name: &String) -> (r: Option<&V>)
        ensures
            r matches Some(v) ==> innermost_variable(self@, name@) == Some(*v),
            r is None ==> innermost_variable(self@, name@) is None,
    {
        let mut k: usize = self.frames.len();
        assert(self@.subrange(0, k as int) =~= self@);
        while k > 0
            invariant
                k <= self@.len(),
                self@.len() == self.frames@.len(),
                innermost_variable(self@, name@) == innermost_variable(self@.subrange(0, k as int), name@),
            decreases k,
        {
            let ghost upto = self@.subrange(0, k as int);
            k = k - 1;
            proof {
                assert(upto.drop_last() =~= self@.subrange(0, k as int));
                assert(upto.last() == scope_map(self.frames@[k as int]@));
            }
            match find_binding(&self.frames[k], name) {
                Some(j) => match &self.frames[k][j].1 {
                    Symbol::Variable(v) => {
                        return Some(v);
                    },
                    Symbol::Function(_) => {},
                },
                None => {},
            }
        }
        assert(self@.subrange(0, 0) =~= Seq::<Map<Seq<char>, Symbol<V, F>>>::empty());
        None
    }

    /// The call record that `name` denotes, looked up from the innermost
    /// scope outwards; variable bindings are passed over.
    pub fn get_function(&self, name: &String) -> (r: Option<&F>)
        ensures
            r matches Some(f) ==> innermost_function(self@, name@) == Some(*f),
            r is None ==> innermost_function(self@, name@) is None,
    {
        let mut k: usize = self.frames.len();
        assert(self@.subrange(0, k as int) =~= self@);
        while k > 0
            invariant
                k <= self@.len(),
                self@.len() == self.frames@.len(),
                innermost_function(self@, name@) == innermost_function(self@.subrange(0, k as int), name@),
            decreases k,
        {
            let ghost upto = self@.subrange(0, k as int);
            k = k - 1;
            proof {
                assert(upto.drop_last() =~= self@.subrange(0, k as int));
                assert(upto.last() == scope_map(self.frames@[k as int]@));
            }
            match find_binding(&self.frames[k], name) {
                Some(j) => match &self.frames[k][j].1 {
                    Symbol::Function(f) => {
                        return Some(f);
                    },
                    Symbol::Variable(_) => {},
                },
                None => {},
            }
        }
        assert(self@.subrange(0, 0) =~= Seq::<Map<Seq<char>, Symbol<V, F>>>::empty());
        None
    }

    /// Rebinds `name` to the call record `f` in the innermost scope that
    /// binds it as a function call; returns whether there was one.
    pub fn set_function(&mut self, name: &String, f: F) -> (r: bool)
        ensures
            r == innermost_function_scope(old(self)@, name@) is Some,
            r ==> final(self)@ == old(self)@.update(
                innermost_function_scope(old(self)@, name@)->0,
                old(self)@[innermost_function_scope(old(self)@, name@)->0].insert(name@, Symbol::Function(f)),
            ),
            !r ==> final(self)@ == old(self)@,
    {
        let mut k: usize = self.frames.len();
        assert(self@.subrange(0, k as int) =~= self@);
        while k > 0
            invariant
                k <= self@.len(),
                self@.len() == self.frames@.len(),
                self@ == old(self)@,
                innermost_function_scope(self@, name@) == innermost_function_scope(self@.subrange(0, k as int), name@),
            decreases k,
        {
            let ghost upto = self@.subrange(0, k as int);
            k = k - 1;
            proof {
                assert(upto.drop_last() =~= self@.subrange(0, k as int));
                assert(upto.last() == scope_map(self.frames@[k as int]@));
            }
            let found = match find_binding(&self.frames[k], name) {
                Some(j) => match &self.frames[k][j].1 {
                    Symbol::Function(_) => true,
                    Symbol::Variable(_) => false,
                },
                None => false,
            };
            if found {
                self.insert_at(k, name.clone(), Symbol::Function(f));
                return true;
            }
        }
        assert(self@.subrange(0, 0) =~= Seq::<Map<Seq<char>, Symbol<V, F>>>::empty());
        false
    }
}

} // verus!
