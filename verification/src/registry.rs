//! The runtime hook registry: hook records keyed by target function name,
//! driving installation into and restoration of a [`FunctionTable`].
//!
//! Policies, applied consistently throughout:
//! - registering under a name that already has a record replaces the record
//!   (last write wins);
//! - installing a hook whose `previous_handler` is already captured is a
//!   guarded no-op, so a captured handler is always the table's true original
//!   and never a hook installed earlier;
//! - a failure to install one hook never aborts the batch and never rolls
//!   back hooks installed earlier in the same call: failures are collected
//!   into a report and the remaining hooks are still processed;
//! - restoration skips records with nothing captured; an installed record
//!   whose target name has vanished from the table is reported, never
//!   silently swallowed, and left untouched with its capture retained.

use vstd::prelude::*;
use crate::assoc::{assoc_keys, assoc_map, unique_keys, key_idx, lemma_key_idx, lemma_assoc_update,
    lemma_assoc_insert, lemma_assoc_remove, lemma_assoc_index, lemma_assoc_dom_absent};
use crate::table::{FunctionHandler, FunctionTable, SlotV};
use crate::text::str_eq;

verus! {

/// One hook record: the unique target name, the replacement handler, and the
/// original handler captured by a successful install (and only by one).
#[derive(Clone)]
pub struct ZendFunctionHook {
    pub hooked_function_name: String,
    pub handler: FunctionHandler,
    pub previous_handler: Option<FunctionHandler>,
}

/// The view of one hook record.
pub ghost struct HookV {
    pub name: Seq<char>,
    pub handler: FunctionHandler,
    pub previous: Option<FunctionHandler>,
}

impl View for ZendFunctionHook {
    type V = HookV;

    open spec fn view(&self) -> HookV {
        HookV {
            name: self.hooked_function_name@,
            handler: self.handler,
            previous: self.previous_handler,
        }
    }
}

/// Why installing one hook failed.
#[derive(Clone, Copy, PartialEq, Eq, Structural, Debug)]
pub enum HookErrorKind {
    /// The target name is absent from the function table.
    NotFound,
    /// The target resolved to a function that is not internal.
    NotEligible,
}

/// One failure reported by an install batch.
pub struct InstallFailure {
    pub function_name: String,
    pub kind: HookErrorKind,
}

/// The view of one reported failure.
pub ghost struct FailV {
    pub name: Seq<char>,
    pub kind: HookErrorKind,
}

impl View for InstallFailure {
    type V = FailV;

    open spec fn view(&self) -> FailV {
        FailV { name: self.function_name@, kind: self.kind }
    }
}

/// The per-worker hook registry.
pub struct HookRegistry {
    hooks: Vec<ZendFunctionHook>,
}

impl View for HookRegistry {
    type V = Map<Seq<char>, HookV>;

    /// The mapping from target function name to its hook record.
    open spec fn view(&self) -> Map<Seq<char>, HookV> {
        assoc_map(self.pairs())
    }
}

impl HookRegistry {
    /// The held records, in registration order.
    pub closed spec fn hooks_view(self) -> Seq<HookV> {
        self.hooks@.map_values(|h: ZendFunctionHook| h@)
    }

    /// The records as name-keyed pairs.
    pub open spec fn pairs(self) -> Seq<(Seq<char>, HookV)> {
        self.hooks_view().map_values(|h: HookV| (h.name, h))
    }

    /// One record per target name.
    pub open spec fn wf(self) -> bool {
        unique_keys(self.pairs())
    }

    /// An empty registry; worker contexts that recycle threads start each
    /// request from this state.
    pub fn new() -> (r: Self)
        ensures
            r.wf(),
            r@ == Map::<Seq<char>, HookV>::empty(),
            r.hooks_view() == Seq::<HookV>::empty(),
    {
        let r = HookRegistry { hooks: Vec::new() };
        proof {
            assert(r.hooks_view() =~= Seq::<HookV>::empty());
            assert(r.pairs().len() == 0);
        }
        r
    }

    /// The index of the record for `name`, if the registry holds one.
    fn position_of(&self, name: &str) -> (r: Option<usize>)
        ensures
            match r {
                Option::Some(i) => {
                    &&& i < self.pairs().len()
                    &&& self.pairs()[i as int].0 == name@
                    &&& forall|j: int| 0 <= j < i ==> #[trigger] self.pairs()[j].0 != name@
                },
                Option::None => forall|j: int|
                    0 <= j < self.pairs().len() ==> #[trigger] self.pairs()[j].0 != name@,
            },
    {
        let n = self.hooks.len();
        let mut i: usize = 0;
        while i < n
            invariant
                i <= n,
                n == self.hooks@.len(),
                forall|j: int| 0 <= j < i ==> #[trigger] self.pairs()[j].0 != name@,
            decreases n - i,
        {
            proof {
                assert(self.pairs()[i as int].0 == self.hooks@[i as int].hooked_function_name@);
            }
            if str_eq(self.hooks[i].hooked_function_name.as_str(), name) {
                return Option::Some(i);
            }
            i = i + 1;
        }
        Option::None
    }

    /// Insert or replace the record keyed by the hook's target name. No
    /// existence check against the live function table happens here; that is
    /// deferred to installation.
    pub fn add_function_hook(&mut self, hook: ZendFunctionHook)
        requires
            old(self).wf(),
        ensures
            final(self).wf(),
            final(self)@ == old(self)@.insert(hook@.name, hook@),
            ({
                let k = key_idx(old(self).pairs(), hook@.name);
                if k >= 0 {
                    final(self).hooks_view() == old(self).hooks_view().update(k, hook@)
                } else {
                    final(self).hooks_view() == old(self).hooks_view().push(hook@)
                }
            }),
    {
        let ghost op = self.pairs();
        let ghost hv = hook@;
        proof {
            lemma_key_idx(op, hv.name);
        }
        match self.position_of(hook.hooked_function_name.as_str()) {
            Option::Some(i) => {
                proof {
                    let k = key_idx(op, hv.name);
                    assert(k >= 0);
                    if k < i {
                        assert(op[k].0 == hv.name);
                    }
                    if i < k {
                        assert(op[i as int].0 == hv.name);
                    }
                    assert(k == i as int);
                }
                self.hooks[i] = hook;
                proof {
                    assert(self.hooks_view() =~= old(self).hooks_view().update(i as int, hv));
                    assert(self.pairs() =~= op.update(i as int, (op[i as int].0, hv)));
                    lemma_assoc_update(op, i as int, hv);
                    assert(assoc_keys(self.pairs()) =~= assoc_keys(op));
                }
            },
            Option::None => {
                proof {
                    let k = key_idx(op, hv.name);
                    if k >= 0 {
                        assert(op[k].0 == hv.name);
                    }
                    assert(k < 0);
                }
                self.hooks.push(hook);
                proof {
                    assert(self.hooks_view() =~= old(self).hooks_view().push(hv));
                    assert(self.pairs() =~= op.push((hv.name, hv)));
                    assert(self.pairs() =~= op.insert(op.len() as int, (hv.name, hv)));
                    lemma_assoc_insert(op, op.len() as int, hv.name, hv);
                    let np = self.pairs();
                    assert forall|x: int, y: int|
                        0 <= x < y < np.len() implies np[x].0 != np[y].0 by {
                        if y < np.len() - 1 {
                            assert(op[x].0 != op[y].0);
                        } else {
                            assert(op[x].0 != hv.name);
                        }
                    }
                }
            },
        }
    }

    /// A copy of the record for `function_name`, if the registry holds one.
    pub fn get_function_hook(&self, function_name: &str) -> (r: Option<ZendFunctionHook>)
        requires
            self.wf(),
        ensures
            match r {
                Option::Some(h) => self@.dom().contains(function_name@) && h@
                    == self@[function_name@],
                Option::None => !self@.dom().contains(function_name@),
            },
    {
        match self.position_of(function_name) {
            Option::Some(i) => {
                proof {
                    lemma_assoc_index(self.pairs(), i as int);
                }
                Option::Some(
                    ZendFunctionHook {
                        hooked_function_name: self.hooks[i].hooked_function_name.clone(),
                        handler: self.hooks[i].handler,
                        previous_handler: self.hooks[i].previous_handler,
                    },
                )
            },
            Option::None => {
                proof {
                    lemma_assoc_dom_absent(self.pairs(), function_name@);
                }
                Option::None
            },
        }
    }

    /// Drop the record for `function_name`, if any. If the hook is currently
    /// installed, restoring it first is the caller's obligation.
    pub fn remove_function_hook(&mut self, function_name: &str)
        requires
            old(self).wf(),
        ensures
            final(self).wf(),
            final(self)@ == old(self)@.remove(function_name@),
    {
        let ghost op = self.pairs();
        match self.position_of(function_name) {
            Option::Some(i) => {
                self.hooks.remove(i);
                proof {
                    assert(self.hooks_view() =~= old(self).hooks_view().remove(i as int));
                    assert(self.pairs() =~= op.remove(i as int));
                    lemma_assoc_remove(op, i as int);
                }
            },
            Option::None => {
                proof {
                    lemma_assoc_dom_absent(op, function_name@);
                    assert(assoc_map(op) =~= assoc_map(op).remove(function_name@));
                }
            },
        }
    }

    /// Drop every record without restoring anything: only for teardown paths
    /// where the underlying function table is itself being discarded.
    pub fn remove_all_function_hooks(&mut self)
        ensures
            final(self).wf(),
            final(self)@ == Map::<Seq<char>, HookV>::empty(),
            final(self).hooks_view() == Seq::<HookV>::empty(),
    {
        self.hooks.clear();
        proof {
            assert(self.hooks_view() =~= Seq::<HookV>::empty());
            assert(self.pairs().len() == 0);
        }
    }

    /// Install every registered hook, best effort: per hook, resolve the
    /// target in the table; report `NotFound` or `NotEligible` failures and
    /// keep going; on success capture the slot's current handler into
    /// `previous_handler` and then write the hook's handler into the slot.
    /// A hook that already holds a captured handler is skipped. The whole
    /// batch behaves exactly as `install_upto` says.
    pub fn setup_function_hooks(&mut self, table: &mut FunctionTable) -> (report: Vec<
        InstallFailure,
    >)
        requires
            old(self).wf(),
            old(table).wf(),
        ensures
            final(self).wf(),
            final(table).wf(),
            final(table)@ == install_upto(
                old(table)@,
                old(self).hooks_view(),
                old(self).hooks_view().len() as int,
            ).0,
            final(self).hooks_view() == install_upto(
                old(table)@,
                old(self).hooks_view(),
                old(self).hooks_view().len() as int,
            ).1,
            report@.map_values(|f: InstallFailure| f@) == install_upto(
                old(table)@,
                old(self).hooks_view(),
                old(self).hooks_view().len() as int,
            ).2,
    {
        let ghost t0 = old(table)@;
        let ghost hs0 = old(self).hooks_view();
        let mut report: Vec<InstallFailure> = Vec::new();
        let n = self.hooks.len();
        proof {
            assert(report@.map_values(|f: InstallFailure| f@) =~= Seq::<FailV>::empty());
        }
        let mut i: usize = 0;
        while i < n
            invariant
                i <= n,
                n == self.hooks@.len(),
                hs0.len() == n,
                self.wf(),
                table.wf(),
                table@ == install_upto(t0, hs0, i as int).0,
                self.hooks_view() == install_upto(t0, hs0, i as int).1,
                report@.map_values(|f: InstallFailure| f@) == install_upto(t0, hs0, i as int).2,
            decreases n - i,
        {
            let ghost pre = install_upto(t0, hs0, i as int);
            let ghost h = pre.1[i as int];
            let ghost st = install_step(pre.0, h);
            proof {
                assert(install_upto(t0, hs0, i + 1) == (
                    st.0,
                    pre.1.update(i as int, st.1),
                    match st.2 {
                        Option::Some(f) => pre.2.push(f),
                        Option::None => pre.2,
                    },
                ));
                assert(self.hooks@[i as int]@ == h);
            }
            if self.hooks[i].previous_handler.is_some() {
                proof {
                    assert(st == (pre.0, h, Option::<FailV>::None));
                    assert(pre.1.update(i as int, h) =~= pre.1);
                }
            } else if !table.contains_function(self.hooks[i].hooked_function_name.as_str()) {
                let failure = InstallFailure {
                    function_name: self.hooks[i].hooked_function_name.clone(),
                    kind: HookErrorKind::NotFound,
                };
                let ghost old_report = report@;
                report.push(failure);
                proof {
                    assert(st == (
                        pre.0,
                        h,
                        Option::Some(FailV { name: h.name, kind: HookErrorKind::NotFound }),
                    ));
                    assert(pre.1.update(i as int, h) =~= pre.1);
                    assert(report@.map_values(|f: InstallFailure| f@) =~= old_report.map_values(
                        |f: InstallFailure| f@,
                    ).push(FailV { name: h.name, kind: HookErrorKind::NotFound }));
                }
            } else if !table.is_internal_function(self.hooks[i].hooked_function_name.as_str()) {
                let failure = InstallFailure {
                    function_name: self.hooks[i].hooked_function_name.clone(),
                    kind: HookErrorKind::NotEligible,
                };
                let ghost old_report = report@;
                report.push(failure);
                proof {
                    assert(st == (
                        pre.0,
                        h,
                        Option::Some(FailV { name: h.name, kind: HookErrorKind::NotEligible }),
                    ));
                    assert(pre.1.update(i as int, h) =~= pre.1);
                    assert(report@.map_values(|f: InstallFailure| f@) =~= old_report.map_values(
                        |f: InstallFailure| f@,
                    ).push(FailV { name: h.name, kind: HookErrorKind::NotEligible }));
                }
            } else {
                let previous = table.get_handler(self.hooks[i].hooked_function_name.as_str());
                table.set_handler(self.hooks[i].hooked_function_name.as_str(), self.hooks[i].handler);
                self.hooks[i].previous_handler = Option::Some(previous);
                proof {
                    assert(st.0 == table@);
                    assert(st.1 == HookV {
                        name: h.name,
                        handler: h.handler,
                        previous: Option::Some(previous),
                    });
                    assert(self.hooks_view() =~= pre.1.update(i as int, st.1));
                    assert(assoc_keys(self.pairs()) =~= assoc_keys(
                        install_upto(t0, hs0, i as int).1.map_values(|hh: HookV| (hh.name, hh)),
                    ));
                    assert forall|x: int, y: int|
                        0 <= x < y < self.pairs().len() implies self.pairs()[x].0
                        != self.pairs()[y].0 by {
                        let opp = install_upto(t0, hs0, i as int).1.map_values(
                            |hh: HookV| (hh.name, hh),
                        );
                        assert(self.pairs()[x].0 == opp[x].0 && self.pairs()[y].0 == opp[y].0);
                    }
                }
            }
            i = i + 1;
        }
        report
    }

    /// Restore every installed hook, writing each captured handler back into
    /// its own table slot and clearing the capture. A record with nothing
    /// captured is skipped silently; an installed record whose target name
    /// is no longer in the table cannot be written back, so it is reported
    /// as `NotFound` and left untouched — the retained capture lets a later
    /// restore against a repaired table still act. A failure on one hook
    /// never aborts the batch. The whole batch behaves exactly as
    /// `restore_upto` says.
    pub fn remove_function_hooks(&mut self, table: &mut FunctionTable) -> (report: Vec<
        InstallFailure,
    >)
        requires
            old(self).wf(),
            old(table).wf(),
        ensures
            final(self).wf(),
            final(table).wf(),
            final(table)@ == restore_upto(
                old(table)@,
                old(self).hooks_view(),
                old(self).hooks_view().len() as int,
            ).0,
            final(self).hooks_view() == restore_upto(
                old(table)@,
                old(self).hooks_view(),
                old(self).hooks_view().len() as int,
            ).1,
            report@.map_values(|f: InstallFailure| f@) == restore_upto(
                old(table)@,
                old(self).hooks_view(),
                old(self).hooks_view().len() as int,
            ).2,
    {
        let ghost t0 = old(table)@;
        let ghost hs0 = old(self).hooks_view();
        let mut report: Vec<InstallFailure> = Vec::new();
        let n = self.hooks.len();
        proof {
            assert(report@.map_values(|f: InstallFailure| f@) =~= Seq::<FailV>::empty());
        }
        let mut i: usize = 0;
        while i < n
            invariant
                i <= n,
                n == self.hooks@.len(),
                hs0.len() == n,
                self.wf(),
                table.wf(),
                table@ == restore_upto(t0, hs0, i as int).0,
                self.hooks_view() == restore_upto(t0, hs0, i as int).1,
                report@.map_values(|f: InstallFailure| f@) == restore_upto(t0, hs0, i as int).2,
            decreases n - i,
        {
            let ghost pre = restore_upto(t0, hs0, i as int);
            let ghost h = pre.1[i as int];
            let ghost st = restore_step(pre.0, h);
            proof {
                assert(restore_upto(t0, hs0, i + 1) == (
                    st.0,
                    pre.1.update(i as int, st.1),
                    match st.2 {
                        Option::Some(f) => pre.2.push(f),
                        Option::None => pre.2,
                    },
                ));
                assert(self.hooks@[i as int]@ == h);
            }
            match self.hooks[i].previous_handler {
                Option::Some(p) => {
                    if table.contains_function(self.hooks[i].hooked_function_name.as_str()) {
                        table.set_handler(self.hooks[i].hooked_function_name.as_str(), p);
                        self.hooks[i].previous_handler = Option::None;
                        proof {
                            assert(st.0 == table@);
                            assert(st.1 == HookV {
                                name: h.name,
                                handler: h.handler,
                                previous: Option::None,
                            });
                            assert(self.hooks_view() =~= pre.1.update(i as int, st.1));
                            assert forall|x: int, y: int|
                                0 <= x < y < self.pairs().len() implies self.pairs()[x].0
                                != self.pairs()[y].0 by {
                                let opp = pre.1.map_values(|hh: HookV| (hh.name, hh));
                                assert(self.pairs()[x].0 == opp[x].0 && self.pairs()[y].0
                                    == opp[y].0);
                            }
                        }
                    } else {
                        let failure = InstallFailure {
                            function_name: self.hooks[i].hooked_function_name.clone(),
                            kind: HookErrorKind::NotFound,
                        };
                        let ghost old_report = report@;
                        report.push(failure);
                        proof {
                            assert(st == (
                                pre.0,
                                h,
                                Option::Some(FailV { name: h.name, kind: HookErrorKind::NotFound }),
                            ));
                            assert(pre.1.update(i as int, h) =~= pre.1);
                            assert(report@.map_values(|f: InstallFailure| f@)
                                =~= old_report.map_values(|f: InstallFailure| f@).push(
                                FailV { name: h.name, kind: HookErrorKind::NotFound },
                            ));
                        }
                    }
                },
                Option::None => {
                    proof {
                        assert(st == (pre.0, h, Option::<FailV>::None));
                        assert(pre.1.update(i as int, h) =~= pre.1);
                    }
                },
            }
            i = i + 1;
        }
        report
    }
}

/// How installing processes one hook against the table: skip a hook whose
/// previous handler is already captured; report a target absent from the
/// table as `NotFound`; report a non-internal target as `NotEligible`; and
/// otherwise capture the slot's handler and write the hook's own handler
/// into the slot.
pub open spec fn install_step(t: Map<Seq<char>, SlotV>, h: HookV) -> (
    Map<Seq<char>, SlotV>,
    HookV,
    Option<FailV>,
) {
    if h.previous is Some {
        (t, h, Option::None)
    } else if !t.dom().contains(h.name) {
        (t, h, Option::Some(FailV { name: h.name, kind: HookErrorKind::NotFound }))
    } else if !t[h.name].internal {
        (t, h, Option::Some(FailV { name: h.name, kind: HookErrorKind::NotEligible }))
    } else {
        (
            t.insert(h.name, SlotV { internal: true, handler: h.handler }),
            HookV { name: h.name, handler: h.handler, previous: Option::Some(t[h.name].handler) },
            Option::None,
        )
    }
}

/// The table, hook records and failure report after installing the first
/// `n` hooks in order.
pub open spec fn install_upto(t0: Map<Seq<char>, SlotV>, hs0: Seq<HookV>, n: int) -> (
    Map<Seq<char>, SlotV>,
    Seq<HookV>,
    Seq<FailV>,
)
    decreases n,
{
    if n <= 0 {
        (t0, hs0, Seq::<FailV>::empty())
    } else {
        let pre = install_upto(t0, hs0, n - 1);
        let st = install_step(pre.0, pre.1[n - 1]);
        (
            st.0,
            pre.1.update(n - 1, st.1),
            match st.2 {
                Option::Some(f) => pre.2.push(f),
                Option::None => pre.2,
            },
        )
    }
}

/// How restoring processes one hook: a captured handler is written back into
/// the slot for the hook's own name and the capture is cleared; a record
/// with nothing captured is skipped silently; an installed record whose
/// target name has vanished from the table is reported as `NotFound` and
/// left untouched, its capture retained.
pub open spec fn restore_step(t: Map<Seq<char>, SlotV>, h: HookV) -> (
    Map<Seq<char>, SlotV>,
    HookV,
    Option<FailV>,
) {
    match h.previous {
        Option::Some(p) => {
            if t.dom().contains(h.name) {
                (
                    t.insert(h.name, SlotV { internal: t[h.name].internal, handler: p }),
                    HookV { name: h.name, handler: h.handler, previous: Option::None },
                    Option::None,
                )
            } else {
                (t, h, Option::Some(FailV { name: h.name, kind: HookErrorKind::NotFound }))
            }
        },
        Option::None => (t, h, Option::None),
    }
}

/// The table, hook records and failure report after restoring the first `n`
/// hooks in order.
pub open spec fn restore_upto(t0: Map<Seq<char>, SlotV>, hs0: Seq<HookV>, n: int) -> (
    Map<Seq<char>, SlotV>,
    Seq<HookV>,
    Seq<FailV>,
)
    decreases n,
{
    if n <= 0 {
        (t0, hs0, Seq::<FailV>::empty())
    } else {
        let pre = restore_upto(t0, hs0, n - 1);
        let st = restore_step(pre.0, pre.1[n - 1]);
        (
            st.0,
            pre.1.update(n - 1, st.1),
            match st.2 {
                Option::Some(f) => pre.2.push(f),
                Option::None => pre.2,
            },
        )
    }
}

/// No two hook records target the same name.
pub open spec fn unique_hook_names(hs: Seq<HookV>) -> bool {
    forall|i: int, j: int| 0 <= i < j < hs.len() ==> hs[i].name != hs[j].name
}

} // verus!
