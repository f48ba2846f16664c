//! The scope resolver: a chain of lexical scopes mapping names to
//! frame slots, consulted and mutated during code generation.
//!
//! Scopes live in an arena and are addressed by index; each holds an
//! optional parent index.  Lookup walks inner to outer and the first
//! match wins, so inner bindings shadow outer ones; a definition
//! only ever mutates the scope it is made in, never an ancestor.

use vstd::prelude::*;

verus! {

/// One lexical scope: its parent, and the names defined directly in
/// it, each with the frame slot that holds its value.  Later
/// bindings of the same name shadow earlier ones.
#[derive(Debug)]
pub struct Scope {
    pub parent: Option<usize>,
    pub bindings: Vec<(String, usize)>,
}

/// The mathematical shape of a scope.
#[verifier::ext_equal]
pub struct ScopeV {
    pub parent: Option<int>,
    pub bindings: Seq<(Seq<char>, int)>,
}

impl View for Scope {
    type V = ScopeV;

    open spec fn view(&self) -> ScopeV {
        ScopeV {
            parent: match self.parent {
                Some(p) => Some(p as int),
                None => None,
            },
            bindings: self.bindings@.map_values(|b: (String, usize)| (b.0@, b.1 as int)),
        }
    }
}

/// Scopes form a tree: every parent stands earlier in the arena.
pub open spec fn arena_wf(a: Seq<ScopeV>) -> bool {
    forall|i: int|
        0 <= i < a.len() ==> match #[trigger] a[i].parent {
            Some(p) => 0 <= p < i,
            None => true,
        }
}

/// The slot bound to a name in one scope's own bindings, the latest
/// binding winning.
pub open spec fn binding_lookup(bs: Seq<(Seq<char>, int)>, name: Seq<char>) -> Option<int>
    decreases bs.len(),
{
    if bs.len() == 0 {
        None
    } else if bs.last().0 == name {
        Some(bs.last().1)
    } else {
        binding_lookup(bs.drop_last(), name)
    }
}

/// The slot a name resolves to from scope `sid`: the scope's own
/// bindings first, then the parent chain outward.
pub open spec fn sp_lookup(a: Seq<ScopeV>, sid: int, name: Seq<char>) -> Option<int>
    decreases sid,
{
    if !(0 <= sid < a.len()) {
        None
    } else {
        match binding_lookup(a[sid].bindings, name) {
            Some(slot) => Some(slot),
            None => match a[sid].parent {
                Some(p) => if 0 <= p < sid {
                    sp_lookup(a, p, name)
                } else {
                    None
                },
                None => None,
            },
        }
    }
}

/// The arena of scopes of one compile unit.
#[derive(Debug)]
pub struct ScopeArena {
    pub scopes: Vec<Scope>,
}

impl View for ScopeArena {
    type V = Seq<ScopeV>;

    open spec fn view(&self) -> Seq<ScopeV> {
        self.scopes@.map_values(|s: Scope| s@)
    }
}

impl ScopeArena {
    /// An arena with no scopes yet.
    pub fn empty() -> (r: Self)
        ensures
            r@ =~= Seq::<ScopeV>::empty(),
    {
        ScopeArena { scopes: Vec::new() }
    }

    /// Creates a scope with the given parent and returns its index.
    pub fn new_scope(&mut self, parent: Option<usize>) -> (sid: usize)
        requires
            match parent {
                Some(p) => p < old(self)@.len(),
                None => true,
            },
        ensures
            sid == old(self)@.len(),
            final(self)@ =~~= old(self)@.push(
                ScopeV {
                    parent: match parent {
                        Some(p) => Some(p as int),
                        None => None,
                    },
                    bindings: Seq::empty(),
                },
            ),
            arena_wf(old(self)@) ==> arena_wf(final(self)@),
    {
        let sid = self.scopes.len();
        self.scopes.push(Scope { parent, bindings: Vec::new() });
        proof {
            assert(self@ =~~= old(self)@.push(
                ScopeV {
                    parent: match parent {
                        Some(p) => Some(p as int),
                        None => None,
                    },
                    bindings: Seq::empty(),
                },
            ));
            if arena_wf(old(self)@) {
                assert forall|i: int|
                    0 <= i < self@.len() implies match #[trigger] self@[i].parent {
                    Some(p) => 0 <= p < i,
                    None => true,
                } by {
                    if i < old(self)@.len() {
                        assert(self@[i] == old(self)@[i]);
                    }
                }
            }
        }
        sid
    }

    /// Binds a name to a slot in the given scope, and in it alone.
    pub fn add_variable(&mut self, sid: usize, name: String, slot: usize)
        requires
            sid < old(self)@.len(),
        ensures
            final(self)@ =~~= old(self)@.update(
                sid as int,
                ScopeV {
                    parent: old(self)@[sid as int].parent,
                    bindings: old(self)@[sid as int].bindings.push((name@, slot as int)),
                },
            ),
            arena_wf(old(self)@) ==> arena_wf(final(self)@),
    {
        let ghost pre = self@;
        self.scopes[sid].bindings.push((name, slot));
        proof {
            assert(self@ =~~= pre.update(
                sid as int,
                ScopeV {
                    parent: pre[sid as int].parent,
                    bindings: pre[sid as int].bindings.push((name@, slot as int)),
                },
            ));
            if arena_wf(pre) {
                assert forall|i: int|
                    0 <= i < self@.len() implies match #[trigger] self@[i].parent {
                    Some(p) => 0 <= p < i,
                    None => true,
                } by {
                    assert(self@[i].parent == pre[i].parent);
                }
            }
        }
    }

    /// The slot a name resolves to from the given scope, walking the
    /// parent chain outward; `None` when no scope binds it.
    pub fn get_variable(&self, sid: usize, name: &String) -> (r: Option<usize>)
        requires
            sid < self@.len(),
            arena_wf(self@),
        ensures
            match r {
                Some(slot) => sp_lookup(self@, sid as int, name@) == Some(slot as int),
                None => sp_lookup(self@, sid as int, name@) is None,
            },
        decreases sid,
    {
        let sc = &self.scopes[sid];
        let ghost bs = self@[sid as int].bindings;
        let mut k = sc.bindings.len();
        proof {
            assert(bs.take(bs.len() as int) =~= bs);
        }
        loop
            invariant
                k <= sc.bindings@.len(),
                sc@ == self@[sid as int],
                sid < self@.len(),
                arena_wf(self@),
                bs == self@[sid as int].bindings,
                bs.len() == sc.bindings@.len(),
                binding_lookup(bs, name@) == binding_lookup(bs.take(k as int), name@),
            ensures
                k == 0,
                binding_lookup(bs, name@) == binding_lookup(bs.take(k as int), name@),
            decreases k,
        {
            if k == 0 {
                break ;
            }
            k -= 1;
            let b = &sc.bindings[k];
            proof {
                assert(bs[k as int] == (b.0@, b.1 as int));
                assert(bs.take(k + 1).drop_last() =~= bs.take(k as int));
                assert(bs.take(k + 1).last() == bs[k as int]);
            }
            if b.0.eq(name) {
                proof {
                    assert(binding_lookup(bs.take(k + 1), name@) == Some(bs[k as int].1));
                }
                return Some(b.1);
            }
        }
        proof {
            assert(bs.take(0) =~= Seq::<(Seq<char>, int)>::empty());
            assert(binding_lookup(bs, name@) is None);
        }
        match sc.parent {
            Some(p) => {
                proof {
                    assert(self@[sid as int].parent == Some(p as int));
                }
                self.get_variable(p, name)
            },
            None => None,
        }
    }
}

} // verus!
