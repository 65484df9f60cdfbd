//! The model of the host runtime's global function registry: dispatch
//! entries keyed by function name, each holding an eligibility flag (only
//! internal, native functions may be hooked) and the handler currently
//! installed in the slot. Handlers are carried as opaque identifiers; the
//! host-facing layer owns the mapping between identifiers and native entry
//! points, so swapping a handler here models swapping the native pointer.
//!
//! Every mutation takes the table by exclusive reference, so the
//! lookup-then-swap sequence can never interleave with another mutation of
//! the same table; a host that shares one table across threads must wrap it
//! in a lock and hold that lock across each install or restore batch.

use vstd::prelude::*;
use vstd::pervasive::unreached;
use crate::assoc::{assoc_keys, assoc_map, unique_keys, lemma_assoc_update, lemma_assoc_index,
    lemma_assoc_dom_contains, lemma_assoc_dom_absent};
use crate::text::str_eq;

verus! {

/// A dispatch handler, as an opaque identifier.
pub type FunctionHandler = u64;

/// What one dispatch slot holds: whether the function is internal (native,
/// and so eligible for hooking) and its current handler.
pub ghost struct SlotV {
    pub internal: bool,
    pub handler: FunctionHandler,
}

/// One function's dispatch entry.
pub struct FunctionEntry {
    pub name: String,
    pub internal: bool,
    pub handler: FunctionHandler,
}

/// The function table: one dispatch slot per function name.
pub struct FunctionTable {
    entries: Vec<FunctionEntry>,
}

impl View for FunctionTable {
    type V = Map<Seq<char>, SlotV>;

    /// The mapping from function name to its dispatch slot.
    open spec fn view(&self) -> Map<Seq<char>, SlotV> {
        assoc_map(self.slots())
    }
}

impl FunctionTable {
    /// The entries as name/slot pairs, in storage order.
    pub closed spec fn slots(self) -> Seq<(Seq<char>, SlotV)> {
        self.entries@.map_values(
            |e: FunctionEntry| (e.name@, SlotV { internal: e.internal, handler: e.handler }),
        )
    }

    /// One slot per name.
    pub open spec fn wf(self) -> bool {
        unique_keys(self.slots())
    }

    /// An empty table.
    pub fn new() -> (r: Self)
        ensures
            r.wf(),
            r@ == Map::<Seq<char>, SlotV>::empty(),
    {
        let r = FunctionTable { entries: Vec::new() };
        proof {
            assert(r.slots().len() == 0);
        }
        r
    }

    /// The index of the entry for `name`, if the table holds one.
    fn position_of(&self, name: &str) -> (r: Option<usize>)
        ensures
            match r {
                Option::Some(i) => i < self.slots().len() && self.slots()[i as int].0 == name@,
                Option::None => forall|j: int|
                    0 <= j < self.slots().len() ==> #[trigger] self.slots()[j].0 != name@,
            },
    {
        let n = self.entries.len();
        let mut i: usize = 0;
        while i < n
            invariant
                i <= n,
                n == self.entries.len(),
                forall|j: int| 0 <= j < i ==> #[trigger] self.slots()[j].0 != name@,
            decreases n - i,
        {
            proof {
                assert(self.slots()[i as int].0 == self.entries@[i as int].name@);
            }
            if str_eq(self.entries[i].name.as_str(), name) {
                return Option::Some(i);
            }
            i = i + 1;
        }
        Option::None
    }

    /// Name-based lookup: whether the table holds an entry for `name`.
    pub fn contains_function(&self, name: &str) -> (r: bool)
        ensures
            r == self@.dom().contains(name@),
    {
        match self.position_of(name) {
            Option::Some(i) => {
                proof {
                    lemma_assoc_dom_contains(self.slots(), i as int);
                }
                true
            },
            Option::None => {
                proof {
                    lemma_assoc_dom_absent(self.slots(), name@);
                }
                false
            },
        }
    }

    /// Whether the entry for `name` is an internal (native) function; only
    /// such entries are eligible for hooking.
    pub fn is_internal_function(&self, name: &str) -> (r: bool)
        requires
            self.wf(),
            self@.dom().contains(name@),
        ensures
            r == self@[name@].internal,
    {
        match self.position_of(name) {
            Option::Some(i) => {
                proof {
                    lemma_assoc_index(self.slots(), i as int);
                }
                self.entries[i].internal
            },
            Option::None => {
                proof {
                    lemma_assoc_dom_absent(self.slots(), name@);
                }
                unreached()
            },
        }
    }

    /// The handler currently installed in the slot for `name`.
    pub fn get_handler(&self, name: &str) -> (r: FunctionHandler)
        requires
            self.wf(),
            self@.dom().contains(name@),
        ensures
            r == self@[name@].handler,
    {
        match self.position_of(name) {
            Option::Some(i) => {
                proof {
                    lemma_assoc_index(self.slots(), i as int);
                }
                self.entries[i].handler
            },
            Option::None => {
                proof {
                    lemma_assoc_dom_absent(self.slots(), name@);
                }
                unreached()
            },
        }
    }

    /// Write `handler` into the slot for `name`, leaving every other slot,
    /// the slot's name and its eligibility untouched.
    pub fn set_handler(&mut self, name: &str, handler: FunctionHandler)
        requires
            old(self).wf(),
            old(self)@.dom().contains(name@),
        ensures
            final(self).wf(),
            final(self)@ == old(self)@.insert(
                name@,
                SlotV { internal: old(self)@[name@].internal, handler },
            ),
    {
        let ghost os = self.slots();
        match self.position_of(name) {
            Option::Some(i) => {
                proof {
                    lemma_assoc_index(os, i as int);
                }
                let nm = self.entries[i].name.clone();
                let fl = self.entries[i].internal;
                self.entries[i] = FunctionEntry { name: nm, internal: fl, handler };
                proof {
                    let ns = self.slots();
                    assert(ns =~= os.update(
                        i as int,
                        (os[i as int].0, SlotV { internal: fl, handler }),
                    ));
                    lemma_assoc_update(os, i as int, SlotV { internal: fl, handler });
                    assert(assoc_keys(ns) =~= assoc_keys(os));
                }
            },
            Option::None => {
                proof {
                    lemma_assoc_dom_absent(os, name@);
                }
            },
        }
    }

    /// Insert or replace the dispatch entry for `name`; this is the host
    /// defining its functions before any hook touches the table.
    pub fn define_function(&mut self, name: String, internal: bool, handler: FunctionHandler)
        requires
            old(self).wf(),
        ensures
            final(self).wf(),
            final(self)@ == old(self)@.insert(name@, SlotV { internal, handler }),
    {
        let ghost os = self.slots();
        match self.position_of(name.as_str()) {
            Option::Some(i) => {
                self.entries[i] = FunctionEntry { name, internal, handler };
                proof {
                    let ns = self.slots();
                    assert(ns =~= os.update(i as int, (os[i as int].0, SlotV { internal, handler })));
                    lemma_assoc_update(os, i as int, SlotV { internal, handler });
                    assert(assoc_keys(ns) =~= assoc_keys(os));
                }
            },
            Option::None => {
                self.entries.push(FunctionEntry { name, internal, handler });
                proof {
                    let ns = self.slots();
                    assert(ns =~= os.push((name@, SlotV { internal, handler })));
                    assert(ns.drop_last() =~= os);
                    assert forall|x: int, y: int| 0 <= x < y < ns.len() implies ns[x].0 != ns[y].0 by {
                        if y < ns.len() - 1 {
                            assert(os[x].0 != os[y].0);
                        } else {
                            assert(os[x].0 != name@);
                        }
                    }
                }
            },
        }
    }
}

} // verus!
