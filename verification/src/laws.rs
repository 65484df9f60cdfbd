//! Batch-level guarantees of the installer, proved against the transition
//! functions that `setup_function_hooks` and `remove_function_hooks` are
//! specified by: what one install batch does to each hook, and that an
//! install batch followed by a restore batch brings the table back to its
//! pre-install state.

use vstd::prelude::*;
use crate::table::SlotV;
use crate::registry::{HookV, FailV, HookErrorKind, install_step, install_upto, restore_step,
    restore_upto, unique_hook_names};

verus! {

/// Installing never adds or drops table slots, never renames a hook record
/// or changes its replacement handler, and leaves records beyond the
/// processed prefix untouched.
proof fn lemma_install_shape(t0: Map<Seq<char>, SlotV>, hs0: Seq<HookV>, n: int)
    requires
        0 <= n <= hs0.len(),
    ensures
        install_upto(t0, hs0, n).1.len() == hs0.len(),
        forall|j: int| n <= j < hs0.len() ==> install_upto(t0, hs0, n).1[j] == hs0[j],
        forall|j: int|
            0 <= j < hs0.len() ==> (#[trigger] install_upto(t0, hs0, n).1[j].name == hs0[j].name
                && install_upto(t0, hs0, n).1[j].handler == hs0[j].handler),
        install_upto(t0, hs0, n).0.dom() == t0.dom(),
    decreases n,
{
    if n > 0 {
        lemma_install_shape(t0, hs0, n - 1);
        let pre = install_upto(t0, hs0, n - 1);
        let st = install_step(pre.0, pre.1[n - 1]);
        assert(install_upto(t0, hs0, n).0.dom() =~= t0.dom());
    }
}

/// A name targeted by none of the first `n` hooks keeps its slot through an
/// install batch.
proof fn lemma_install_frame(t0: Map<Seq<char>, SlotV>, hs0: Seq<HookV>, n: int, k: Seq<char>)
    requires
        0 <= n <= hs0.len(),
        forall|j: int| 0 <= j < n ==> hs0[j].name != k,
    ensures
        t0.dom().contains(k) ==> install_upto(t0, hs0, n).0[k] == t0[k],
    decreases n,
{
    if n > 0 {
        lemma_install_frame(t0, hs0, n - 1, k);
        lemma_install_shape(t0, hs0, n - 1);
        assert(install_upto(t0, hs0, n - 1).1[n - 1].name == hs0[n - 1].name);
    }
}

/// Restoring never adds or drops table slots, never renames a hook record
/// or changes its replacement handler, and leaves records beyond the
/// processed prefix untouched.
proof fn lemma_restore_shape(t0: Map<Seq<char>, SlotV>, hs0: Seq<HookV>, n: int)
    requires
        0 <= n <= hs0.len(),
    ensures
        restore_upto(t0, hs0, n).1.len() == hs0.len(),
        forall|j: int| n <= j < hs0.len() ==> restore_upto(t0, hs0, n).1[j] == hs0[j],
        forall|j: int|
            0 <= j < hs0.len() ==> (#[trigger] restore_upto(t0, hs0, n).1[j].name == hs0[j].name
                && restore_upto(t0, hs0, n).1[j].handler == hs0[j].handler),
        restore_upto(t0, hs0, n).0.dom() == t0.dom(),
    decreases n,
{
    if n > 0 {
        lemma_restore_shape(t0, hs0, n - 1);
        let pre = restore_upto(t0, hs0, n - 1);
        let st = restore_step(pre.0, pre.1[n - 1]);
        assert(restore_upto(t0, hs0, n).0.dom() =~= t0.dom());
    }
}

/// Restoring a prefix reads only that prefix of the hook records.
proof fn lemma_restore_agree(
    t0: Map<Seq<char>, SlotV>,
    hs1: Seq<HookV>,
    hs2: Seq<HookV>,
    n: int,
)
    requires
        hs1.len() == hs2.len(),
        0 <= n <= hs1.len(),
        forall|j: int| 0 <= j < n ==> hs1[j] == hs2[j],
    ensures
        restore_upto(t0, hs1, n).0 == restore_upto(t0, hs2, n).0,
        forall|j: int|
            0 <= j < n ==> #[trigger] restore_upto(t0, hs1, n).1[j] == restore_upto(
                t0,
                hs2,
                n,
            ).1[j],
    decreases n,
{
    if n > 0 {
        lemma_restore_agree(t0, hs1, hs2, n - 1);
        lemma_restore_shape(t0, hs1, n - 1);
        lemma_restore_shape(t0, hs2, n - 1);
        assert(restore_upto(t0, hs1, n - 1).1[n - 1] == hs1[n - 1]);
        assert(restore_upto(t0, hs2, n - 1).1[n - 1] == hs2[n - 1]);
    }
}

/// A slot written under a name that none of the first `n` hooks targets
/// passes through a restore batch unchanged, and disturbs nothing else.
proof fn lemma_restore_insert_fresh(
    t0: Map<Seq<char>, SlotV>,
    hs0: Seq<HookV>,
    n: int,
    k: Seq<char>,
    v: SlotV,
)
    requires
        0 <= n <= hs0.len(),
        forall|j: int| 0 <= j < n ==> hs0[j].name != k,
    ensures
        restore_upto(t0.insert(k, v), hs0, n).0 == restore_upto(t0, hs0, n).0.insert(k, v),
        restore_upto(t0.insert(k, v), hs0, n).1 == restore_upto(t0, hs0, n).1,
    decreases n,
{
    if n == 0 {
    } else {
        lemma_restore_insert_fresh(t0, hs0, n - 1, k, v);
        let pre_a = restore_upto(t0.insert(k, v), hs0, n - 1);
        let pre_b = restore_upto(t0, hs0, n - 1);
        lemma_restore_shape(t0, hs0, n - 1);
        lemma_restore_shape(t0.insert(k, v), hs0, n - 1);
        let h = pre_b.1[n - 1];
        assert(h == hs0[n - 1]);
        assert(pre_a.1[n - 1] == h);
        assert(h.name != k);
        match h.previous {
            Option::Some(p) => {
                assert(pre_a.0.dom().contains(h.name) == pre_b.0.dom().contains(h.name));
                if pre_b.0.dom().contains(h.name) {
                    assert(pre_a.0[h.name] == pre_b.0[h.name]);
                    assert(pre_b.0.insert(
                        h.name,
                        SlotV { internal: pre_b.0[h.name].internal, handler: p },
                    ).insert(k, v) =~= pre_a.0.insert(
                        h.name,
                        SlotV { internal: pre_a.0[h.name].internal, handler: p },
                    ));
                }
            },
            Option::None => {
            },
        }
    }
}

proof fn lemma_round_trip_upto(t0: Map<Seq<char>, SlotV>, hs0: Seq<HookV>, n: int)
    requires
        unique_hook_names(hs0),
        forall|i: int| 0 <= i < hs0.len() ==> hs0[i].previous is None,
        0 <= n <= hs0.len(),
    ensures
        restore_upto(install_upto(t0, hs0, n).0, install_upto(t0, hs0, n).1, n).0 == t0,
    decreases n,
{
    if n > 0 {
        lemma_round_trip_upto(t0, hs0, n - 1);
        let pre_i = install_upto(t0, hs0, n - 1);
        lemma_install_shape(t0, hs0, n - 1);
        let h = pre_i.1[n - 1];
        assert(h == hs0[n - 1]);
        let st = install_step(pre_i.0, h);
        let ins_n = install_upto(t0, hs0, n);
        assert(forall|j: int| 0 <= j < n - 1 ==> #[trigger] hs0[j].name != hs0[n - 1].name);
        if !pre_i.0.dom().contains(h.name) || !pre_i.0[h.name].internal {
            assert(st.0 == pre_i.0 && st.1 == h);
            assert(pre_i.1.update(n - 1, h) =~= pre_i.1);
            assert(ins_n.0 == pre_i.0 && ins_n.1 == pre_i.1);
            let pre_r = restore_upto(pre_i.0, pre_i.1, n - 1);
            lemma_restore_shape(pre_i.0, pre_i.1, n - 1);
            assert(pre_r.1[n - 1] == h);
            assert(restore_step(pre_r.0, h) == (pre_r.0, h, Option::<FailV>::None));
        } else {
            let nm = h.name;
            lemma_install_frame(t0, hs0, n - 1, nm);
            assert(pre_i.0[nm] == t0[nm]);
            assert(t0.dom().contains(nm));
            let slot = SlotV { internal: true, handler: h.handler };
            assert(st.0 == pre_i.0.insert(nm, slot));
            let h2 = HookV {
                name: nm,
                handler: h.handler,
                previous: Option::Some(pre_i.0[nm].handler),
            };
            assert(st.1 == h2);
            let ins_hooks = pre_i.1.update(n - 1, h2);
            assert(ins_n.1 == ins_hooks);
            assert(forall|j: int| 0 <= j < n - 1 ==> #[trigger] ins_hooks[j] == pre_i.1[j]);
            let pre_r = restore_upto(st.0, ins_hooks, n - 1);
            lemma_restore_agree(st.0, ins_hooks, pre_i.1, n - 1);
            assert(forall|j: int| 0 <= j < n - 1 ==> #[trigger] pre_i.1[j].name == hs0[j].name);
            lemma_restore_insert_fresh(pre_i.0, pre_i.1, n - 1, nm, slot);
            assert(restore_upto(st.0, pre_i.1, n - 1).0 == restore_upto(
                pre_i.0,
                pre_i.1,
                n - 1,
            ).0.insert(nm, slot));
            assert(pre_r.0 == t0.insert(nm, slot));
            lemma_restore_shape(st.0, ins_hooks, n - 1);
            assert(ins_hooks.len() == hs0.len());
            assert(ins_hooks[n - 1] == h2);
            assert(pre_r.1[n - 1] == ins_hooks[n - 1]);
            assert(pre_r.0.dom().contains(nm));
            let written = SlotV { internal: pre_r.0[nm].internal, handler: pre_i.0[nm].handler };
            assert(restore_step(pre_r.0, h2).0 == pre_r.0.insert(nm, written));
            assert(written == t0[nm]);
            assert(t0.insert(nm, slot).insert(nm, t0[nm]) =~= t0);
        }
    }
}

/// Round trip: over a registry of uniquely named, not-yet-installed hooks,
/// one install batch followed immediately by one restore batch brings every
/// table slot back to its pre-install handler, leaving the table exactly as
/// it was.
pub proof fn lemma_install_restore_round_trip(t0: Map<Seq<char>, SlotV>, hs0: Seq<HookV>)
    requires
        unique_hook_names(hs0),
        forall|i: int| 0 <= i < hs0.len() ==> hs0[i].previous is None,
    ensures
        restore_upto(
            install_upto(t0, hs0, hs0.len() as int).0,
            install_upto(t0, hs0, hs0.len() as int).1,
            hs0.len() as int,
        ).0 == t0,
{
    lemma_round_trip_upto(t0, hs0, hs0.len() as int);
}

proof fn lemma_install_outcome_upto(t0: Map<Seq<char>, SlotV>, hs0: Seq<HookV>, i: int, n: int)
    requires
        unique_hook_names(hs0),
        0 <= i < n <= hs0.len(),
    ensures
        ({
            let r = install_upto(t0, hs0, n);
            let h = hs0[i];
            &&& (h.previous is Some ==> r.1[i] == h)
            &&& (h.previous is None && !t0.dom().contains(h.name) ==> r.1[i] == h
                && !r.0.dom().contains(h.name) && r.2.contains(
                FailV { name: h.name, kind: HookErrorKind::NotFound },
            ))
            &&& (h.previous is None && t0.dom().contains(h.name) && !t0[h.name].internal
                ==> r.1[i] == h && r.0[h.name] == t0[h.name] && r.2.contains(
                FailV { name: h.name, kind: HookErrorKind::NotEligible },
            ))
            &&& (h.previous is None && t0.dom().contains(h.name) && t0[h.name].internal
                ==> r.1[i] == (HookV {
                name: h.name,
                handler: h.handler,
                previous: Option::Some(t0[h.name].handler),
            }) && r.0[h.name] == (SlotV { internal: true, handler: h.handler }))
        }),
    decreases n,
{
    let h = hs0[i];
    if n == i + 1 {
        let pre = install_upto(t0, hs0, i);
        lemma_install_shape(t0, hs0, i);
        assert(pre.1[i] == h);
        assert(forall|j: int| 0 <= j < i ==> hs0[j].name != h.name);
        lemma_install_frame(t0, hs0, i, h.name);
        let st = install_step(pre.0, h);
        let r = install_upto(t0, hs0, n);
        assert(r.1[i] == st.1);
        match st.2 {
            Option::Some(f) => {
                assert(r.2[r.2.len() - 1] == f);
            },
            Option::None => {
            },
        }
    } else {
        lemma_install_outcome_upto(t0, hs0, i, n - 1);
        let pre = install_upto(t0, hs0, n - 1);
        lemma_install_shape(t0, hs0, n - 1);
        assert(pre.1[n - 1].name == hs0[n - 1].name);
        assert(hs0[n - 1].name != h.name);
        let st = install_step(pre.0, pre.1[n - 1]);
        let r = install_upto(t0, hs0, n);
        assert(r.1[i] == pre.1[i]);
        assert(r.0.dom().contains(h.name) == pre.0.dom().contains(h.name));
        if pre.0.dom().contains(h.name) {
            assert(r.0[h.name] == pre.0[h.name]);
        }
        if pre.2.contains(FailV { name: h.name, kind: HookErrorKind::NotFound }) {
            let idx = choose|idx: int|
                0 <= idx < pre.2.len() && pre.2[idx] == (FailV {
                    name: h.name,
                    kind: HookErrorKind::NotFound,
                });
            assert(r.2[idx] == pre.2[idx]);
        }
        if pre.2.contains(FailV { name: h.name, kind: HookErrorKind::NotEligible }) {
            let idx = choose|idx: int|
                0 <= idx < pre.2.len() && pre.2[idx] == (FailV {
                    name: h.name,
                    kind: HookErrorKind::NotEligible,
                });
            assert(r.2[idx] == pre.2[idx]);
        }
    }
}

/// What one install batch does to each hook of a uniquely named registry:
/// an already-installed hook is skipped; a hook whose target is absent is
/// reported `NotFound` with nothing captured and the table untouched at that
/// name; a hook whose target is not internal is reported `NotEligible` with
/// its slot untouched; and an eligible hook captures the slot's pre-batch
/// handler while its own handler is written into the slot. Failing hooks
/// never disturb the slots or records of other hooks.
pub proof fn lemma_install_outcome(t0: Map<Seq<char>, SlotV>, hs0: Seq<HookV>, i: int)
    requires
        unique_hook_names(hs0),
        0 <= i < hs0.len(),
    ensures
        ({
            let r = install_upto(t0, hs0, hs0.len() as int);
            let h = hs0[i];
            &&& (h.previous is Some ==> r.1[i] == h)
            &&& (h.previous is None && !t0.dom().contains(h.name) ==> r.1[i] == h
                && !r.0.dom().contains(h.name) && r.2.contains(
                FailV { name: h.name, kind: HookErrorKind::NotFound },
            ))
            &&& (h.previous is None && t0.dom().contains(h.name) && !t0[h.name].internal
                ==> r.1[i] == h && r.0[h.name] == t0[h.name] && r.2.contains(
                FailV { name: h.name, kind: HookErrorKind::NotEligible },
            ))
            &&& (h.previous is None && t0.dom().contains(h.name) && t0[h.name].internal
                ==> r.1[i] == (HookV {
                name: h.name,
                handler: h.handler,
                previous: Option::Some(t0[h.name].handler),
            }) && r.0[h.name] == (SlotV { internal: true, handler: h.handler }))
        }),
{
    lemma_install_outcome_upto(t0, hs0, i, hs0.len() as int);
}

/// `f` is explained by hook `i`: the hook was pending, targets the reported
/// name, and genuinely failed in the reported way against the pre-batch
/// table.
pub open spec fn report_entry_explained(
    t0: Map<Seq<char>, SlotV>,
    hs0: Seq<HookV>,
    i: int,
    f: FailV,
) -> bool {
    &&& hs0[i].previous is None
    &&& hs0[i].name == f.name
    &&& (f.kind == HookErrorKind::NotFound ==> !t0.dom().contains(f.name))
    &&& (f.kind == HookErrorKind::NotEligible ==> t0.dom().contains(f.name) && !t0[f.name].internal)
}

proof fn lemma_report_sound_upto(t0: Map<Seq<char>, SlotV>, hs0: Seq<HookV>, n: int, k: int)
    requires
        unique_hook_names(hs0),
        0 <= n <= hs0.len(),
        0 <= k < install_upto(t0, hs0, n).2.len(),
    ensures
        exists|i: int|
            0 <= i < n && #[trigger] report_entry_explained(t0, hs0, i, install_upto(
                t0,
                hs0,
                n,
            ).2[k]),
    decreases n,
{
    let r = install_upto(t0, hs0, n);
    let pre = install_upto(t0, hs0, n - 1);
    if n > 0 && k < pre.2.len() {
        lemma_report_sound_upto(t0, hs0, n - 1, k);
        let i = choose|i: int|
            0 <= i < n - 1 && #[trigger] report_entry_explained(t0, hs0, i, pre.2[k]);
        assert(r.2[k] == pre.2[k]);
        assert(report_entry_explained(t0, hs0, i, r.2[k]));
    } else {
        lemma_install_shape(t0, hs0, n - 1);
        let h = pre.1[n - 1];
        assert(h == hs0[n - 1]);
        assert(forall|j: int| 0 <= j < n - 1 ==> #[trigger] hs0[j].name != hs0[n - 1].name);
        lemma_install_frame(t0, hs0, n - 1, h.name);
        assert(report_entry_explained(t0, hs0, n - 1, r.2[k]));
    }
}

/// The report of one install batch never lies: each reported failure names
/// a pending hook of the batch, and its target really was absent from the
/// pre-batch table (`NotFound`) or present but not internal (`NotEligible`).
pub proof fn lemma_report_sound(t0: Map<Seq<char>, SlotV>, hs0: Seq<HookV>, k: int)
    requires
        unique_hook_names(hs0),
        0 <= k < install_upto(t0, hs0, hs0.len() as int).2.len(),
    ensures
        exists|i: int|
            0 <= i < hs0.len() && #[trigger] report_entry_explained(t0, hs0, i, install_upto(
                t0,
                hs0,
                hs0.len() as int,
            ).2[k]),
{
    lemma_report_sound_upto(t0, hs0, hs0.len() as int, k);
}

} // verus!
