//! Laws of the assembler's bookkeeping, proved over the spec-level model:
//! how insertion into the ordered tables behaves, that a later ownership
//! line replaces rather than merges, and that phase flushing lags one
//! boundary event behind.

use vstd::prelude::*;
use crate::imap::{lookup, insert_entry};
use crate::strutil::{spec_trim, spec_tokens, spec_contains};
use crate::assemble::{
    StateV, init_state_v, spec_step, spec_apply_now, apply_sco_group, apply_unit_groups,
    paren_groups_from, groups_all_ok,
};
use crate::classify::LineV;
use crate::record::FatalError;

verus! {

/// A broadcast line whose payload carries the phase-boundary marker and no
/// higher-priority marker steps the assembler exactly as the boundary
/// transition does.
pub proof fn lemma_step_is_boundary(st: StateV, l: LineV)
    requires
        l.is_broadcast,
        !spec_contains(l.payload, "ORD"@),
        !spec_contains(l.payload, "SCO"@),
        spec_contains(l.payload, "NOW"@),
    ensures
        spec_step(st, l) == spec_apply_now(st, l.payload),
{
}

/// Looking a key up after an insertion finds the inserted value for that
/// key and leaves every other key unchanged.
pub proof fn lemma_lookup_insert<V>(es: Seq<(Seq<char>, V)>, k: Seq<char>, v: V, k2: Seq<char>)
    ensures
        lookup(insert_entry(es, k, v), k2) == (if k2 == k {
            Some(v)
        } else {
            lookup(es, k2)
        }),
    decreases es.len(),
{
    if es.len() == 0 {
        let one = insert_entry(es, k, v);
        assert(one[0] == (k, v));
        assert(one.drop_first() =~= Seq::<(Seq<char>, V)>::empty());
        assert(lookup(Seq::<(Seq<char>, V)>::empty(), k2) is None);
    } else if es[0].0 == k {
        let r = insert_entry(es, k, v);
        assert(r[0] == (k, v));
        assert(r.drop_first() =~= es.drop_first());
    } else {
        let r = insert_entry(es, k, v);
        assert(r[0] == es[0]);
        assert(r.drop_first() =~= insert_entry(es.drop_first(), k, v));
        lemma_lookup_insert(es.drop_first(), k, v, k2);
    }
}

/// Inserting a key that is not yet present grows the table by exactly one
/// entry.
pub proof fn lemma_insert_fresh_len<V>(es: Seq<(Seq<char>, V)>, k: Seq<char>, v: V)
    requires
        lookup(es, k) is None,
    ensures
        insert_entry(es, k, v).len() == es.len() + 1,
    decreases es.len(),
{
    if es.len() == 0 {
    } else if es[0].0 == k {
        assert(lookup(es, k) == Some(es[0].1));
    } else {
        lemma_insert_fresh_len(es.drop_first(), k, v);
    }
}

/// A later ownership group for a power fully replaces, not merges with,
/// the prior territory list stored for that power.
pub proof fn lemma_ownership_replaces(
    es: Seq<(Seq<char>, Seq<Seq<char>>)>,
    g1: Seq<char>,
    g2: Seq<char>,
)
    requires
        spec_tokens(spec_trim(g1)).len() > 0,
        spec_tokens(spec_trim(g2)).len() > 0,
        spec_tokens(spec_trim(g2))[0] == spec_tokens(spec_trim(g1))[0],
    ensures
        lookup(apply_sco_group(apply_sco_group(es, g1), g2), spec_tokens(spec_trim(g1))[0])
            == Some(spec_tokens(spec_trim(g2)).drop_first()),
{
    let p = spec_tokens(spec_trim(g1))[0];
    lemma_lookup_insert(
        apply_sco_group(es, g1),
        p,
        spec_tokens(spec_trim(g2)).drop_first(),
        p,
    );
}

/// A run of phase-boundary events only.
pub open spec fn run_boundaries(st: StateV, payloads: Seq<Seq<char>>) -> Result<
    StateV,
    FatalError,
>
    decreases payloads.len(),
{
    if payloads.len() == 0 {
        Ok(st)
    } else {
        match spec_apply_now(st, payloads[0]) {
            Ok(st2) => run_boundaries(st2, payloads.drop_first()),
            Err(e) => Err(e),
        }
    }
}

/// A phase-boundary payload whose groups are acceptable and establish the
/// identifier `id` whatever state they are applied to.
pub open spec fn boundary_sets_id(payload: Seq<char>, id: Seq<char>) -> bool {
    let gs = paren_groups_from(spec_trim(payload.skip(3)), 0);
    groups_all_ok(gs) && (forall|id0: Seq<char>, u0: Seq<(Seq<char>, Seq<Seq<char>>)>|
        (#[trigger] apply_unit_groups((id0, u0), gs)).0 == id)
}

proof fn lemma_boundary_chain(st: StateV, payloads: Seq<Seq<char>>, ids: Seq<Seq<char>>)
    requires
        payloads.len() == ids.len(),
        st.curr_phase.len() > 0,
        lookup(st.phases, st.curr_phase) is None,
        forall|m: int| 0 <= m < payloads.len() ==> boundary_sets_id(
            #[trigger] payloads[m],
            ids[m],
        ),
        forall|m: int| 0 <= m < ids.len() ==> (#[trigger] ids[m]).len() > 0,
        forall|m: int, j: int| 0 <= m < j < ids.len() ==> ids[m] != ids[j],
        forall|m: int| 0 <= m < ids.len() ==> #[trigger] ids[m] != st.curr_phase,
        forall|m: int| 0 <= m < ids.len() ==> lookup(st.phases, #[trigger] ids[m]) is None,
    ensures
        match run_boundaries(st, payloads) {
            Ok(stf) => stf.phases.len() == st.phases.len() + payloads.len(),
            Err(_) => false,
        },
    decreases payloads.len(),
{
    if payloads.len() == 0 {
    } else {
        let p0 = payloads[0];
        let gs = paren_groups_from(spec_trim(p0.skip(3)), 0);
        assert(boundary_sets_id(p0, ids[0]));
        let st2 = match spec_apply_now(st, p0) {
            Ok(s) => s,
            Err(_) => st,
        };
        assert(spec_apply_now(st, p0) == Ok::<StateV, FatalError>(st2));
        assert(st2.phases == insert_entry(st.phases, st.curr_phase, st.phase_now));
        lemma_insert_fresh_len(st.phases, st.curr_phase, st.phase_now);
        assert(st2.phases.len() == st.phases.len() + 1);
        assert(apply_unit_groups((st.curr_phase, st.curr_units), gs).0 == ids[0]);
        assert(st2.curr_phase == ids[0]);
        let ids2 = ids.drop_first();
        let ps2 = payloads.drop_first();
        assert forall|m: int| 0 <= m < ps2.len() implies boundary_sets_id(
            #[trigger] ps2[m],
            ids2[m],
        ) by {
            assert(ps2[m] == payloads[m + 1]);
            assert(ids2[m] == ids[m + 1]);
        }
        assert forall|m: int| 0 <= m < ids2.len() implies (#[trigger] ids2[m]).len() > 0 by {
            assert(ids2[m] == ids[m + 1]);
        }
        assert forall|m: int, j: int| 0 <= m < j < ids2.len() implies ids2[m] != ids2[j] by {
            assert(ids2[m] == ids[m + 1]);
            assert(ids2[j] == ids[j + 1]);
        }
        assert forall|m: int| 0 <= m < ids2.len() implies #[trigger] ids2[m] != st2.curr_phase by {
            assert(ids2[m] == ids[m + 1]);
        }
        assert forall|m: int| 0 <= m < ids2.len() implies lookup(
            st2.phases,
            #[trigger] ids2[m],
        ) is None by {
            assert(ids2[m] == ids[m + 1]);
            lemma_lookup_insert(st.phases, st.curr_phase, st.phase_now, ids[m + 1]);
        }
        lemma_lookup_insert(st.phases, st.curr_phase, st.phase_now, ids[0]);
        assert(lookup(st2.phases, st2.curr_phase) is None);
        lemma_boundary_chain(st2, ps2, ids2);
    }
}

/// Phase bookkeeping lags one boundary behind: starting from the initial
/// state, a run of N phase-boundary events whose payloads each establish a
/// fresh, nonempty phase identifier stores exactly N - 1 phases. The phase
/// accumulating when the run ends is never flushed; only the next boundary
/// event would insert it.
pub proof fn lemma_boundary_flush_lag(payloads: Seq<Seq<char>>, ids: Seq<Seq<char>>)
    requires
        payloads.len() == ids.len(),
        payloads.len() >= 1,
        init_state_v().phases.len() == 0,
        forall|m: int| 0 <= m < payloads.len() ==> boundary_sets_id(
            #[trigger] payloads[m],
            ids[m],
        ),
        forall|m: int| 0 <= m < ids.len() ==> (#[trigger] ids[m]).len() > 0,
        forall|m: int, j: int| 0 <= m < j < ids.len() ==> ids[m] != ids[j],
    ensures
        match run_boundaries(init_state_v(), payloads) {
            Ok(stf) => stf.phases.len() == payloads.len() - 1,
            Err(_) => false,
        },
{
    let st = init_state_v();
    let p0 = payloads[0];
    let gs = paren_groups_from(spec_trim(p0.skip(3)), 0);
    assert(boundary_sets_id(p0, ids[0]));
    let st1 = match spec_apply_now(st, p0) {
        Ok(s) => s,
        Err(_) => st,
    };
    assert(spec_apply_now(st, p0) == Ok::<StateV, FatalError>(st1));
    assert(st1.phases == st.phases);
    assert(apply_unit_groups((st.curr_phase, st.curr_units), gs).0 == ids[0]);
    assert(st1.curr_phase == ids[0]);
    let ids2 = ids.drop_first();
    let ps2 = payloads.drop_first();
    assert forall|m: int| 0 <= m < ps2.len() implies boundary_sets_id(
        #[trigger] ps2[m],
        ids2[m],
    ) by {
        assert(ps2[m] == payloads[m + 1]);
        assert(ids2[m] == ids[m + 1]);
    }
    assert forall|m: int| 0 <= m < ids2.len() implies (#[trigger] ids2[m]).len() > 0 by {
        assert(ids2[m] == ids[m + 1]);
    }
    assert forall|m: int, j: int| 0 <= m < j < ids2.len() implies ids2[m] != ids2[j] by {
        assert(ids2[m] == ids[m + 1]);
        assert(ids2[j] == ids[j + 1]);
    }
    assert forall|m: int| 0 <= m < ids2.len() implies #[trigger] ids2[m] != st1.curr_phase by {
        assert(ids2[m] == ids[m + 1]);
    }
    assert forall|m: int| 0 <= m < ids2.len() implies lookup(
        st1.phases,
        #[trigger] ids2[m],
    ) is None by {
        assert(st1.phases.len() == 0);
    }
    assert(lookup(st1.phases, st1.curr_phase) is None);
    lemma_boundary_chain(st1, ps2, ids2);
}

} // verus!
