//! The build-time hook aggregator. Independently declared hooks contribute
//! one registration snippet each, keyed by hook name; inserting under an
//! existing name replaces the prior snippet (last write wins). `finalize`
//! emits every held snippet joined in lexicographic name order, so the
//! emitted block does not depend on the order in which parallel build tasks
//! contributed their snippets.

use vstd::prelude::*;
use vstd::string::*;
use crate::text::{lex_lt, strictly_sorted, str_lt, str_eq, lemma_lex_asym, lemma_lex_trans,
    lemma_lex_connected};
use crate::assoc::{assoc_keys, assoc_map, unique_keys, lemma_assoc_update, lemma_assoc_insert,
    lemma_assoc_index, lemma_assoc_dom_contains, lemma_assoc_dom_absent, lemma_assoc_len};

verus! {

/// Build-invocation-scoped collection of registration snippets, stored
/// sorted by hook name.
pub struct HookAggregator {
    entries: Vec<(String, String)>,
}

impl View for HookAggregator {
    type V = Map<Seq<char>, Seq<char>>;

    /// The mapping from hook name to registered snippet.
    open spec fn view(&self) -> Map<Seq<char>, Seq<char>> {
        assoc_map(self.pairs())
    }
}

/// Sorted keys carry no duplicates.
pub proof fn lemma_sorted_unique<V>(s: Seq<(Seq<char>, V)>)
    requires
        strictly_sorted(assoc_keys(s)),
    ensures
        unique_keys(s),
{
    assert forall|i: int, j: int| 0 <= i < j < s.len() implies s[i].0 != s[j].0 by {
        assert(lex_lt(assoc_keys(s)[i], assoc_keys(s)[j]));
        lemma_lex_asym(s[i].0, s[j].0);
    }
}

impl HookAggregator {
    /// The held entries as pairs of views, in storage (sorted) order.
    pub closed spec fn pairs(self) -> Seq<(Seq<char>, Seq<char>)> {
        self.entries@.map_values(|e: (String, String)| (e.0@, e.1@))
    }

    /// The hook names, in emission order.
    pub open spec fn names(self) -> Seq<Seq<char>> {
        assoc_keys(self.pairs())
    }

    /// The snippets, in emission order.
    pub open spec fn snippets(self) -> Seq<Seq<char>> {
        self.pairs().map_values(|p: (Seq<char>, Seq<char>)| p.1)
    }

    /// Entries are strictly sorted by name.
    pub open spec fn wf(self) -> bool {
        strictly_sorted(self.names())
    }

    /// A fresh aggregator holds nothing: state never leaks across build
    /// invocations.
    pub fn new() -> (r: Self)
        ensures
            r.wf(),
            r@ == Map::<Seq<char>, Seq<char>>::empty(),
            r.names() == Seq::<Seq<char>>::empty(),
    {
        let r = HookAggregator { entries: Vec::new() };
        proof {
            assert(r.pairs().len() == 0);
            assert(r.names() =~= Seq::<Seq<char>>::empty());
        }
        r
    }

    /// Insert or replace the snippet registered under `name`.
    pub fn add(&mut self, name: String, snippet: String)
        requires
            old(self).wf(),
        ensures
            final(self).wf(),
            final(self)@ == old(self)@.insert(name@, snippet@),
    {
        let ghost op = self.pairs();
        let n = self.entries.len();
        let mut i: usize = 0;
        while i < n && str_lt(self.entries[i].0.as_str(), name.as_str())
            invariant
                i <= n,
                n == self.entries.len(),
                *self == *old(self),
                op == self.pairs(),
                op.len() == n,
                forall|j: int| 0 <= j < i ==> lex_lt(#[trigger] op[j].0, name@),
            decreases n - i,
        {
            proof {
                assert(op[i as int] == (self.entries@[i as int].0@, self.entries@[i as int].1@));
            }
            i = i + 1;
        }
        proof {
            lemma_sorted_unique(op);
        }
        if i < n && str_eq(self.entries[i].0.as_str(), name.as_str()) {
            self.entries[i] = (name, snippet);
            proof {
                let np = self.pairs();
                assert(np =~= op.update(i as int, (op[i as int].0, snippet@)));
                lemma_assoc_update(op, i as int, snippet@);
                assert(assoc_keys(np) =~= assoc_keys(op));
            }
            return ;
        }
        proof {
            if i < n {
                assert(!lex_lt(op[i as int].0, name@));
                assert(op[i as int].0 != name@);
                lemma_lex_connected(op[i as int].0, name@);
                assert(lex_lt(name@, op[i as int].0));
            }
            assert forall|j: int| 0 <= j < op.len() implies op[j].0 != name@ by {
                if j < i {
                    lemma_lex_asym(op[j].0, name@);
                } else {
                    assert(i < n);
                    if j > i {
                        assert(lex_lt(assoc_keys(op)[i as int], assoc_keys(op)[j]));
                        lemma_lex_trans(name@, op[i as int].0, op[j].0);
                    }
                    lemma_lex_asym(name@, op[j].0);
                }
            }
        }
        self.entries.insert(i, (name, snippet));
        proof {
            let np = self.pairs();
            assert(np =~= op.insert(i as int, (name@, snippet@)));
            lemma_assoc_insert(op, i as int, name@, snippet@);
            assert forall|x: int, y: int|
                0 <= x < y < np.len() implies lex_lt(np[x].0, np[y].0) by {
                if y < i {
                    assert(np[x] == op[x] && np[y] == op[y]);
                    assert(lex_lt(assoc_keys(op)[x], assoc_keys(op)[y]));
                } else if y == i {
                    assert(np[x] == op[x]);
                    assert(lex_lt(op[x].0, name@));
                } else if x < i {
                    assert(np[x] == op[x] && np[y] == op[y - 1]);
                    if y - 1 == i {
                        assert(lex_lt(op[x].0, name@));
                        lemma_lex_trans(op[x].0, name@, op[i as int].0);
                    } else {
                        assert(lex_lt(assoc_keys(op)[x], assoc_keys(op)[y - 1]));
                    }
                } else if x == i {
                    assert(np[x] == (name@, snippet@) && np[y] == op[y - 1]);
                    assert(lex_lt(name@, op[i as int].0));
                    if y - 1 > i {
                        assert(lex_lt(assoc_keys(op)[i as int], assoc_keys(op)[y - 1]));
                        lemma_lex_trans(name@, op[i as int].0, op[y - 1].0);
                    }
                } else {
                    assert(np[x] == op[x - 1] && np[y] == op[y - 1]);
                    assert(lex_lt(assoc_keys(op)[x - 1], assoc_keys(op)[y - 1]));
                }
            }
        }
    }

    /// The emitted block: every snippet in name order, separated by line
    /// breaks. The result is a pure function of the held entries, so calling
    /// this twice without an intervening `add` returns identical output.
    pub fn finalize(&self) -> (r: String)
        ensures
            r@ == joined(self.snippets()),
    {
        let mut out = String::new();
        let n = self.entries.len();
        let mut i: usize = 0;
        while i < n
            invariant
                i <= n,
                n == self.entries.len(),
                out@ == joined(self.snippets().take(i as int)),
            decreases n - i,
        {
            if i > 0 {
                out.append("\n");
            }
            out.append(self.entries[i].1.as_str());
            proof {
                let sn = self.snippets();
                assert(sn.take(i + 1).drop_last() =~= sn.take(i as int));
                assert(sn.take(i + 1).last() == sn[i as int]);
                assert(sn[i as int] == self.entries@[i as int].1@);
                if i == 0 {
                    assert(out@ =~= sn.take(1)[0]);
                }
            }
            i = i + 1;
        }
        proof {
            assert(self.snippets().take(n as int) =~= self.snippets());
        }
        out
    }
}

/// The snippets joined by line breaks: empty for no snippets, otherwise the
/// snippets in order with one `'\n'` between neighbours.
pub open spec fn joined(snips: Seq<Seq<char>>) -> Seq<char>
    decreases snips.len(),
{
    if snips.len() == 0 {
        Seq::empty()
    } else if snips.len() == 1 {
        snips[0]
    } else {
        joined(snips.drop_last()) + "\n"@ + snips.last()
    }
}

/// Two well-formed aggregators that hold the same name-to-snippet mapping
/// hold identical entry sequences: the sorted storage order is canonical, so
/// the mapping alone fixes the emitted block, independent of the order in
/// which entries were added.
pub proof fn lemma_emission_canonical(a1: HookAggregator, a2: HookAggregator)
    requires
        a1.wf(),
        a2.wf(),
        a1@ == a2@,
    ensures
        a1.pairs() == a2.pairs(),
        a1.snippets() == a2.snippets(),
        joined(a1.snippets()) == joined(a2.snippets()),
{
    lemma_sorted_canonical(a1.pairs(), a2.pairs());
    assert(a1.snippets() =~= a2.snippets());
}

proof fn lemma_sorted_canonical(s1: Seq<(Seq<char>, Seq<char>)>, s2: Seq<(Seq<char>, Seq<char>)>)
    requires
        strictly_sorted(assoc_keys(s1)),
        strictly_sorted(assoc_keys(s2)),
        assoc_map(s1) == assoc_map(s2),
    ensures
        s1 == s2,
    decreases s1.len(),
{
    lemma_sorted_unique(s1);
    lemma_sorted_unique(s2);
    if s1.len() == 0 {
        if s2.len() > 0 {
            lemma_assoc_dom_contains(s2, s2.len() - 1);
        }
        assert(s1 =~= s2);
    } else if s2.len() == 0 {
        lemma_assoc_dom_contains(s1, s1.len() - 1);
    } else {
        let k1 = s1.last().0;
        let k2 = s2.last().0;
        lemma_assoc_dom_contains(s1, s1.len() - 1);
        lemma_assoc_dom_contains(s2, s2.len() - 1);
        lemma_last_key(s1, k2);
        lemma_last_key(s2, k1);
        if k1 != k2 {
            lemma_lex_asym(k1, k2);
            assert(false);
        }
        assert(s1.last().1 == assoc_map(s1)[k1]);
        assert(s2.last().1 == assoc_map(s2)[k2]);
        assert(s1.last() == s2.last());
        assert(forall|j: int|
            0 <= j < s1.drop_last().len() ==> #[trigger] s1.drop_last()[j].0 != k1);
        assert(forall|j: int|
            0 <= j < s2.drop_last().len() ==> #[trigger] s2.drop_last()[j].0 != k2);
        lemma_assoc_dom_absent(s1.drop_last(), k1);
        lemma_assoc_dom_absent(s2.drop_last(), k2);
        assert(assoc_map(s1.drop_last()) =~= assoc_map(s1).remove(k1));
        assert(assoc_map(s2.drop_last()) =~= assoc_map(s2).remove(k2));
        lemma_sorted_drop_last(s1);
        lemma_sorted_drop_last(s2);
        lemma_sorted_canonical(s1.drop_last(), s2.drop_last());
        assert(s1 =~= s1.drop_last().push(s1.last()));
        assert(s2 =~= s2.drop_last().push(s2.last()));
    }
}

/// Dropping the last entry keeps the keys sorted.
proof fn lemma_sorted_drop_last(s: Seq<(Seq<char>, Seq<char>)>)
    requires
        strictly_sorted(assoc_keys(s)),
        s.len() > 0,
    ensures
        strictly_sorted(assoc_keys(s.drop_last())),
{
    let d = s.drop_last();
    assert forall|x: int, y: int|
        0 <= x < y < d.len() implies lex_lt(assoc_keys(d)[x], assoc_keys(d)[y]) by {
        assert(d[x] == s[x] && d[y] == s[y]);
        assert(lex_lt(assoc_keys(s)[x], assoc_keys(s)[y]));
    }
}

/// A key held somewhere in a sorted association sequence is either its last
/// key or strictly below it.
proof fn lemma_last_key(s: Seq<(Seq<char>, Seq<char>)>, k: Seq<char>)
    requires
        strictly_sorted(assoc_keys(s)),
        s.len() > 0,
        assoc_map(s).dom().contains(k),
    ensures
        k == s.last().0 || lex_lt(k, s.last().0),
{
    if forall|j: int| 0 <= j < s.len() ==> #[trigger] s[j].0 != k {
        lemma_assoc_dom_absent(s, k);
        assert(false);
    }
    let j = choose|j: int| 0 <= j < s.len() && #[trigger] s[j].0 == k;
    if j < s.len() - 1 {
        assert(lex_lt(assoc_keys(s)[j], assoc_keys(s)[s.len() - 1]));
    }
}

/// Under a well-formed aggregator, the number of emitted fragments equals
/// the number of distinct registered names.
pub proof fn lemma_entry_count(a: HookAggregator)
    requires
        a.wf(),
    ensures
        a@.dom().finite(),
        a.names().len() == a@.dom().len(),
        a.snippets().len() == a@.dom().len(),
{
    lemma_sorted_unique(a.pairs());
    lemma_assoc_len(a.pairs());
}

/// Adds under distinct names commute: the mapping reached by a set of adds
/// does not depend on the order in which build tasks performed them.
pub proof fn lemma_add_commutes(
    m: Map<Seq<char>, Seq<char>>,
    n1: Seq<char>,
    s1: Seq<char>,
    n2: Seq<char>,
    s2: Seq<char>,
)
    requires
        n1 != n2,
    ensures
        m.insert(n1, s1).insert(n2, s2) == m.insert(n2, s2).insert(n1, s1),
{
    assert(m.insert(n1, s1).insert(n2, s2) =~= m.insert(n2, s2).insert(n1, s1));
}

/// Every pair of one sequence is found, with the same snippet, in any
/// rearrangement of it.
proof fn lemma_assoc_transfer(
    ps1: Seq<(Seq<char>, Seq<char>)>,
    ps2: Seq<(Seq<char>, Seq<char>)>,
    k: Seq<char>,
)
    requires
        unique_keys(ps2),
        ps1.to_multiset() == ps2.to_multiset(),
        assoc_map(ps1).dom().contains(k),
    ensures
        assoc_map(ps2).dom().contains(k),
        assoc_map(ps2)[k] == assoc_map(ps1)[k],
{
    broadcast use vstd::seq_lib::group_to_multiset_ensures;

    if forall|j: int| 0 <= j < ps1.len() ==> #[trigger] ps1[j].0 != k {
        lemma_assoc_dom_absent(ps1, k);
        assert(false);
    }
    assert(exists|m: int|
        0 <= m < ps1.len() && #[trigger] ps1[m].0 == k && forall|l: int|
            m < l < ps1.len() ==> #[trigger] ps1[l].0 != k) by {
        let i = choose|i: int| 0 <= i < ps1.len() && #[trigger] ps1[i].0 == k;
        lemma_last_occurrence(ps1, k, i);
    }
    let i_last = choose|m: int|
        0 <= m < ps1.len() && #[trigger] ps1[m].0 == k && forall|l: int|
            m < l < ps1.len() ==> #[trigger] ps1[l].0 != k;
    lemma_assoc_value_at_last(ps1, i_last);
    let p = ps1[i_last];
    assert(ps1.contains(p));
    assert(ps1.to_multiset().count(p) > 0);
    assert(ps2.to_multiset().count(p) > 0);
    assert(ps2.contains(p));
    let j = choose|j: int| 0 <= j < ps2.len() && ps2[j] == p;
    lemma_assoc_index(ps2, j);
}

/// Beyond any occurrence of `k` there is a last one.
proof fn lemma_last_occurrence(ps: Seq<(Seq<char>, Seq<char>)>, k: Seq<char>, i: int)
    requires
        0 <= i < ps.len(),
        ps[i].0 == k,
    ensures
        exists|m: int|
            0 <= m < ps.len() && #[trigger] ps[m].0 == k && forall|l: int|
                m < l < ps.len() ==> #[trigger] ps[l].0 != k,
    decreases ps.len() - i,
{
    if forall|l: int| i < l < ps.len() ==> #[trigger] ps[l].0 != k {
        assert(ps[i].0 == k);
    } else {
        let l = choose|l: int| i < l < ps.len() && #[trigger] ps[l].0 == k;
        lemma_last_occurrence(ps, k, l);
    }
}

/// The denoted map sends a key to the snippet of its last occurrence.
proof fn lemma_assoc_value_at_last(ps: Seq<(Seq<char>, Seq<char>)>, i: int)
    requires
        0 <= i < ps.len(),
        forall|l: int| i < l < ps.len() ==> #[trigger] ps[l].0 != ps[i].0,
    ensures
        assoc_map(ps).dom().contains(ps[i].0),
        assoc_map(ps)[ps[i].0] == ps[i].1,
    decreases ps.len(),
{
    if i == ps.len() - 1 {
    } else {
        assert(forall|l: int|
            i < l < ps.drop_last().len() ==> #[trigger] ps.drop_last()[l].0 != ps.drop_last()[i].0);
        lemma_assoc_value_at_last(ps.drop_last(), i);
        assert(ps[i].0 != ps.last().0);
    }
}

/// Uniquely named contributions reach the same mapping whatever their
/// order: two add sequences holding the same name/snippet pairs, each name
/// once, denote equal mappings — and by `lemma_emission_canonical` equal
/// mappings fix the emitted block.
pub proof fn lemma_adds_order_independent(
    ps1: Seq<(Seq<char>, Seq<char>)>,
    ps2: Seq<(Seq<char>, Seq<char>)>,
)
    requires
        unique_keys(ps1),
        unique_keys(ps2),
        ps1.to_multiset() == ps2.to_multiset(),
    ensures
        assoc_map(ps1) == assoc_map(ps2),
{
    assert forall|k: Seq<char>| assoc_map(ps1).dom().contains(k) implies assoc_map(
        ps2,
    ).dom().contains(k) && assoc_map(ps2)[k] == assoc_map(ps1)[k] by {
        lemma_assoc_transfer(ps1, ps2, k);
    }
    assert forall|k: Seq<char>|
        assoc_map(ps1).dom().contains(k) <==> assoc_map(ps2).dom().contains(k) by {
        if assoc_map(ps1).dom().contains(k) {
            lemma_assoc_transfer(ps1, ps2, k);
        }
        if assoc_map(ps2).dom().contains(k) {
            lemma_assoc_transfer(ps2, ps1, k);
        }
    }
    assert(assoc_map(ps1).dom() =~= assoc_map(ps2).dom());
    assert(assoc_map(ps1) =~= assoc_map(ps2));
}

#[verifier::external_type_specification]
#[verifier::external_body]
pub struct ExTokenStream(proc_macro2::TokenStream);

/// Whether proc-macro2's own, portable lexer accepts this text. That lexer
/// is a pure function of the text; it is only a necessary condition for a
/// successful parse, because inside a macro expansion the host compiler's
/// lexer is consulted as well and may reject more.
pub uninterp spec fn token_text_well_formed(s: Seq<char>) -> bool;

/// Relies on syn::parse_str::<proc_macro2::TokenStream>: it consumes the
/// whole input, so it returns `Ok` exactly when the text lexes; and the text
/// is always validated by proc-macro2's portable lexer first, so success
/// implies that lexer accepts. Nothing more is claimed: inside a macro
/// expansion the host compiler's lexer also runs, and what it accepts
/// depends on the compiler version and edition, not on the text alone.
#[verifier::external_body]
fn parse_token_stream(s: &String) -> (r: Option<proc_macro2::TokenStream>)
    ensures
        r is Some ==> token_text_well_formed(s@),
{
    syn::parse_str::<proc_macro2::TokenStream>(s.as_str()).ok()
}

/// Parse the combined registration block into one token stream, ready to be
/// spliced into the host-facing bootstrap. A returned stream guarantees the
/// emitted text — finalize's exact string — lexes under the portable lexer;
/// `None` is a diagnostic for the front end.
pub fn generate_function_hooks(agg: &HookAggregator) -> (r: Option<proc_macro2::TokenStream>)
    ensures
        r is Some ==> token_text_well_formed(joined(agg.snippets())),
{
    let combined = agg.finalize();
    parse_token_stream(&combined)
}

} // verus!
