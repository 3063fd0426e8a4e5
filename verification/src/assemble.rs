//! The phase/event assembler: a state machine over classified lines that
//! accumulates orders, ownership and unit tables, messages, status and
//! summary, and emits a finalized phase record at each phase boundary.

use vstd::prelude::*;
use indexmap::IndexMap;
use crate::strutil::{
    spec_trim, spec_contains, match_at, trim_str, contains_sub, starts_with_sub, is_upper,
    is_space, is_upper_char, is_space_char, first_at_from, find_char_from, spec_tokens, split_ws,
};
use crate::imap::{
    power_entries, dist_entries, lookup, insert_entry, dist_new, dist_insert, dist_get,
    dist_clone,
};
use crate::record::{
    Message, Phase, Game, MessageV, PhaseV, GameV, FatalError, message_view, messages_view,
    phase_view, phase_entries, game_view, ph_new, ph_insert, snapshot_phase,
};
use crate::classify::{ClassifiedLine, LineV, line_view, spec_classify, classify_line};

verus! {

/// Spec view of the assembler state carried across lines.
#[verifier::ext_equal]
pub struct StateV {
    pub phases: Seq<(Seq<char>, PhaseV)>,
    pub curr_scs: Seq<(Seq<char>, Seq<Seq<char>>)>,
    pub curr_units: Seq<(Seq<char>, Seq<Seq<char>>)>,
    pub moves: Seq<Seq<char>>,
    pub curr_phase: Seq<char>,
    pub phase_now: PhaseV,
    pub status: Seq<char>,
    pub summary: Seq<char>,
}

/// The running assembler state.
pub struct AssemblerState {
    pub phases: IndexMap<String, Phase>,
    pub curr_scs: IndexMap<String, Vec<String>>,
    pub curr_units: IndexMap<String, Vec<String>>,
    pub moves: Vec<String>,
    pub curr_phase: String,
    pub phase_now: Phase,
    pub status: String,
    pub summary: String,
}

pub open spec fn state_view(st: AssemblerState) -> StateV {
    StateV {
        phases: phase_entries(st.phases),
        curr_scs: dist_entries(st.curr_scs),
        curr_units: dist_entries(st.curr_units),
        moves: st.moves.deep_view(),
        curr_phase: st.curr_phase@,
        phase_now: phase_view(st.phase_now),
        status: st.status@,
        summary: st.summary@,
    }
}

/// The assembler's initial state: everything empty.
pub open spec fn init_state_v() -> StateV {
    StateV {
        phases: seq![],
        curr_scs: seq![],
        curr_units: seq![],
        moves: seq![],
        curr_phase: seq![],
        phase_now: PhaseV { messages: seq![], units: seq![], scs: seq![] },
        status: seq![],
        summary: seq![],
    }
}

pub fn init_assembler() -> (st: AssemblerState)
    ensures
        state_view(st) == init_state_v(),
{
    let st = AssemblerState {
        phases: ph_new(),
        curr_scs: dist_new(),
        curr_units: dist_new(),
        moves: Vec::new(),
        curr_phase: "".to_owned(),
        phase_now: Phase { messages: Vec::new(), units: dist_new(), scs: dist_new() },
        status: "".to_owned(),
        summary: "".to_owned(),
    };
    proof {
        reveal_strlit("");
        assert(state_view(st) =~= init_state_v());
    }
    st
}

/// The parenthesized ownership groups of a payload from position `i`: runs
/// of uppercase letters and spaces between a `(` and the first following
/// `)`, taken left to right without overlap.
pub open spec fn sco_groups_from(s: Seq<char>, i: int) -> Seq<Seq<char>>
    decreases s.len() - i,
{
    if i < 0 || i >= s.len() {
        seq![]
    } else if s[i] == '(' {
        let k = first_at_from(s, i + 1, ')');
        if k < s.len() && k > i + 1 && (forall|q: int|
            i + 1 <= q < k ==> is_upper(s[q]) || is_space(s[q])) {
            seq![s.subrange(i + 1, k)] + sco_groups_from(s, k + 1)
        } else {
            sco_groups_from(s, i + 1)
        }
    } else {
        sco_groups_from(s, i + 1)
    }
}

/// The parenthesized groups of a phase-boundary payload from position `i`:
/// everything between a `(` and the first following `)`, left to right; an
/// unclosed `(` ends the scan.
pub open spec fn paren_groups_from(s: Seq<char>, i: int) -> Seq<Seq<char>>
    decreases s.len() - i,
{
    if i < 0 || i >= s.len() {
        seq![]
    } else if s[i] == '(' {
        let k = first_at_from(s, i + 1, ')');
        if k < s.len() && k > i {
            seq![s.subrange(i + 1, k)] + paren_groups_from(s, k + 1)
        } else {
            seq![]
        }
    } else {
        paren_groups_from(s, i + 1)
    }
}

/// One ownership group applied to the ownership table: the first token is
/// the power code, the rest its owned territories, and the entry for that
/// power is replaced, not merged.
pub open spec fn apply_sco_group(
    es: Seq<(Seq<char>, Seq<Seq<char>>)>,
    g: Seq<char>,
) -> Seq<(Seq<char>, Seq<Seq<char>>)> {
    let toks = spec_tokens(spec_trim(g));
    if toks.len() == 0 {
        es
    } else {
        insert_entry(es, toks[0], toks.drop_first())
    }
}

pub open spec fn apply_sco_groups(
    es: Seq<(Seq<char>, Seq<Seq<char>>)>,
    gs: Seq<Seq<char>>,
) -> Seq<(Seq<char>, Seq<Seq<char>>)>
    decreases gs.len(),
{
    if gs.len() == 0 {
        es
    } else {
        apply_sco_groups(apply_sco_group(es, gs[0]), gs.drop_first())
    }
}

pub proof fn lemma_apply_sco_snoc(
    es: Seq<(Seq<char>, Seq<Seq<char>>)>,
    gs: Seq<Seq<char>>,
    g: Seq<char>,
)
    ensures
        apply_sco_groups(es, gs.push(g)) == apply_sco_group(apply_sco_groups(es, gs), g),
    decreases gs.len(),
{
    if gs.len() == 0 {
        assert(gs.push(g)[0] == g);
        assert(gs.push(g).drop_first() =~= Seq::<Seq<char>>::empty());
        let e1 = apply_sco_group(es, g);
        assert(apply_sco_groups(e1, Seq::<Seq<char>>::empty()) == e1);
        assert(apply_sco_groups(es, gs) == es);
    } else {
        assert(gs.push(g)[0] == gs[0]);
        assert(gs.push(g).drop_first() =~= gs.drop_first().push(g));
        lemma_apply_sco_snoc(apply_sco_group(es, gs[0]), gs.drop_first(), g);
        assert(apply_sco_groups(es, gs) == apply_sco_groups(
            apply_sco_group(es, gs[0]),
            gs.drop_first(),
        ));
    }
}

/// A phase-boundary group names a year (and so a phase identifier) when its
/// trimmed content contains the year marker.
pub open spec fn group_is_year(g: Seq<char>) -> bool {
    spec_contains(spec_trim(g), "19"@)
}

/// A group is acceptable when it is a year token or long enough to carry a
/// unit position.
pub open spec fn group_ok(g: Seq<char>) -> bool {
    group_is_year(g) || spec_trim(g).len() > 7
}

pub open spec fn groups_all_ok(gs: Seq<Seq<char>>) -> bool {
    forall|i: int| 0 <= i < gs.len() ==> group_ok(#[trigger] gs[i])
}

/// The power code of a unit group: its first three characters.
pub open spec fn unit_power(g: Seq<char>) -> Seq<char> {
    spec_trim(g).subrange(0, 3)
}

/// The unit descriptor of a unit group: the initial of the unit-type code,
/// a space, and the location code.
pub open spec fn unit_descriptor(g: Seq<char>) -> Seq<char> {
    let t = spec_trim(g);
    seq![t[4], ' '] + t.skip(7)
}

/// One phase-boundary group applied to the (phase identifier, unit table)
/// pair: a year group replaces the identifier; a unit group appends its
/// descriptor to the power's list.
pub open spec fn apply_unit_group(
    st: (Seq<char>, Seq<(Seq<char>, Seq<Seq<char>>)>),
    g: Seq<char>,
) -> (Seq<char>, Seq<(Seq<char>, Seq<Seq<char>>)>) {
    if group_is_year(g) {
        (spec_trim(g), st.1)
    } else {
        let p = unit_power(g);
        let cur = match lookup(st.1, p) {
            Some(v) => v,
            None => seq![],
        };
        (st.0, insert_entry(st.1, p, cur.push(unit_descriptor(g))))
    }
}

pub open spec fn apply_unit_groups(
    st: (Seq<char>, Seq<(Seq<char>, Seq<Seq<char>>)>),
    gs: Seq<Seq<char>>,
) -> (Seq<char>, Seq<(Seq<char>, Seq<Seq<char>>)>)
    decreases gs.len(),
{
    if gs.len() == 0 {
        st
    } else {
        apply_unit_groups(apply_unit_group(st, gs[0]), gs.drop_first())
    }
}

pub proof fn lemma_apply_unit_snoc(
    st: (Seq<char>, Seq<(Seq<char>, Seq<Seq<char>>)>),
    gs: Seq<Seq<char>>,
    g: Seq<char>,
)
    ensures
        apply_unit_groups(st, gs.push(g)) == apply_unit_group(apply_unit_groups(st, gs), g),
    decreases gs.len(),
{
    if gs.len() == 0 {
        assert(gs.push(g)[0] == g);
        assert(gs.push(g).drop_first() =~= Seq::<Seq<char>>::empty());
        let s1 = apply_unit_group(st, g);
        assert(apply_unit_groups(s1, Seq::<Seq<char>>::empty()) == s1);
        assert(apply_unit_groups(st, gs) == st);
    } else {
        assert(gs.push(g)[0] == gs[0]);
        assert(gs.push(g).drop_first() =~= gs.drop_first().push(g));
        lemma_apply_unit_snoc(apply_unit_group(st, gs[0]), gs.drop_first(), g);
        assert(apply_unit_groups(st, gs) == apply_unit_groups(
            apply_unit_group(st, gs[0]),
            gs.drop_first(),
        ));
    }
}

/// The phase-boundary transition. The previous phase (if one is named) is
/// flushed into the phase sequence under its identifier; the groups of the
/// payload then update the identifier and the unit table; finally the
/// in-progress phase's tables become snapshots of the running tables.
/// Messages are not reset. A non-year group too short to carry a unit
/// position is fatal, and the state is then unchanged.
pub open spec fn spec_apply_now(st: StateV, payload: Seq<char>) -> Result<StateV, FatalError> {
    let stripped = spec_trim(payload.skip(3));
    let gs = paren_groups_from(stripped, 0);
    if !groups_all_ok(gs) {
        Err(FatalError::ShortUnitGroup)
    } else {
        let phases1 = if st.curr_phase.len() > 0 {
            insert_entry(st.phases, st.curr_phase, st.phase_now)
        } else {
            st.phases
        };
        let idu = apply_unit_groups((st.curr_phase, st.curr_units), gs);
        Ok(
            StateV {
                phases: phases1,
                curr_scs: st.curr_scs,
                curr_units: idu.1,
                moves: st.moves,
                curr_phase: idu.0,
                phase_now: PhaseV {
                    messages: st.phase_now.messages,
                    units: idu.1,
                    scs: st.curr_scs,
                },
                status: st.status,
                summary: st.summary,
            },
        )
    }
}

/// One classified line applied to the assembler state, in the reference's
/// priority order. Broadcast payloads: orders are appended verbatim;
/// ownership groups replace entries of the ownership table; phase-boundary
/// payloads are handled by `spec_apply_now`; end-game and summary payloads
/// overwrite status and summary (last wins); anything else is ignored.
/// Directed payloads: only a client-to-server send is handled, appending a
/// message with the resolved sender, the recipient at the fixed offset, and
/// the content after it; a too-short send payload is fatal.
pub open spec fn spec_step(st: StateV, l: LineV) -> Result<StateV, FatalError> {
    if l.is_broadcast {
        if spec_contains(l.payload, "ORD"@) {
            Ok(StateV { moves: st.moves.push(l.payload), ..st })
        } else if spec_contains(l.payload, "SCO"@) {
            Ok(
                StateV {
                    curr_scs: apply_sco_groups(st.curr_scs, sco_groups_from(l.payload, 0)),
                    ..st
                },
            )
        } else if spec_contains(l.payload, "NOW"@) {
            spec_apply_now(st, l.payload)
        } else if spec_contains(l.payload, "SLO"@) || spec_contains(l.payload, "DRW"@) {
            Ok(StateV { status: l.payload, ..st })
        } else if spec_contains(l.payload, "SMR"@) {
            Ok(StateV { summary: l.payload, ..st })
        } else {
            Ok(st)
        }
    } else {
        if l.to_server && match_at(l.payload, "SND"@, 0) {
            if l.payload.len() <= 25 {
                Err(FatalError::ShortSendPayload)
            } else {
                Ok(
                    StateV {
                        phase_now: PhaseV {
                            messages: st.phase_now.messages.push(
                                MessageV {
                                    sender: l.origin,
                                    recipient: l.payload.subrange(19, 22),
                                    message: l.payload.skip(25),
                                },
                            ),
                            ..st.phase_now
                        },
                        ..st
                    },
                )
            }
        } else {
            Ok(st)
        }
    }
}

/// Scans a payload for ownership groups, as `sco_groups_from` describes.
fn sco_scan(s: &str) -> (r: Vec<String>)
    ensures
        r.deep_view() == sco_groups_from(s@, 0),
{
    let n: usize = s.unicode_len();
    let mut out: Vec<String> = Vec::new();
    let mut i: usize = 0;
    proof {
        assert(out.deep_view() + sco_groups_from(s@, 0) =~= sco_groups_from(s@, 0));
    }
    while i < n
        invariant
            0 <= i <= n,
            n == s@.len(),
            out.deep_view() + sco_groups_from(s@, i as int) == sco_groups_from(s@, 0),
        decreases n - i,
    {
        if s.get_char(i) == '(' {
            let k = find_char_from(s, i + 1, ')');
            if k < n && k > i + 1 {
                let mut m: usize = i + 1;
                let mut ok: bool = true;
                while m < k
                    invariant
                        i + 1 <= m <= k,
                        k <= n,
                        n == s@.len(),
                        ok ==> forall|q: int|
                            i + 1 <= q < m ==> is_upper(#[trigger] s@[q]) || is_space(s@[q]),
                        !ok ==> exists|q: int|
                            i + 1 <= q < k && !(is_upper(#[trigger] s@[q]) || is_space(s@[q])),
                    decreases k - m,
                {
                    let c = s.get_char(m);
                    if !(is_upper_char(c) || is_space_char(c)) {
                        ok = false;
                    }
                    m = m + 1;
                }
                if ok {
                    let ghost dv = out.deep_view();
                    let g = s.substring_char(i + 1, k);
                    out.push(g.to_owned());
                    proof {
                        assert(out.deep_view() =~= dv.push(s@.subrange(i + 1, k as int)));
                        assert(out.deep_view() + sco_groups_from(s@, k + 1) =~= dv
                            + sco_groups_from(s@, i as int));
                    }
                    i = k + 1;
                } else {
                    i = i + 1;
                }
            } else {
                i = i + 1;
            }
        } else {
            i = i + 1;
        }
    }
    proof {
        assert(out.deep_view() =~= out.deep_view() + sco_groups_from(s@, i as int));
    }
    out
}

/// Scans a stripped phase-boundary payload for parenthesized groups, as
/// `paren_groups_from` describes.
fn paren_scan(s: &str) -> (r: Vec<String>)
    ensures
        r.deep_view() == paren_groups_from(s@, 0),
{
    let n: usize = s.unicode_len();
    let mut out: Vec<String> = Vec::new();
    let mut i: usize = 0;
    proof {
        assert(out.deep_view() + paren_groups_from(s@, 0) =~= paren_groups_from(s@, 0));
    }
    while i < n
        invariant
            0 <= i <= n,
            n == s@.len(),
            out.deep_view() + paren_groups_from(s@, i as int) == paren_groups_from(s@, 0),
        decreases n - i,
    {
        if s.get_char(i) == '(' {
            let k = find_char_from(s, i + 1, ')');
            if k < n {
                let ghost dv = out.deep_view();
                let g = s.substring_char(i + 1, k);
                out.push(g.to_owned());
                proof {
                    assert(out.deep_view() =~= dv.push(s@.subrange(i + 1, k as int)));
                    assert(out.deep_view() + paren_groups_from(s@, k + 1) =~= dv
                        + paren_groups_from(s@, i as int));
                }
                i = k + 1;
            } else {
                proof {
                    assert(paren_groups_from(s@, i as int) =~= Seq::<Seq<char>>::empty());
                    assert(out.deep_view() =~= out.deep_view() + paren_groups_from(
                        s@,
                        i as int,
                    ));
                }
                return out;
            }
        } else {
            i = i + 1;
        }
    }
    proof {
        assert(out.deep_view() =~= out.deep_view() + paren_groups_from(s@, i as int));
    }
    out
}

/// Applies every ownership group of a payload to the ownership table.
fn apply_sco(scs: &mut IndexMap<String, Vec<String>>, payload: &str)
    ensures
        dist_entries(*final(scs)) == apply_sco_groups(
            dist_entries(*old(scs)),
            sco_groups_from(payload@, 0),
        ),
{
    let groups = sco_scan(payload);
    let gn = groups.len();
    let mut j: usize = 0;
    proof {
        assert(groups.deep_view().take(0) =~= Seq::<Seq<char>>::empty());
    }
    while j < gn
        invariant
            0 <= j <= gn,
            gn == groups@.len(),
            groups.deep_view() == sco_groups_from(payload@, 0),
            dist_entries(*scs) == apply_sco_groups(
                dist_entries(*old(scs)),
                groups.deep_view().take(j as int),
            ),
        decreases gn - j,
    {
        let ghost gs = groups.deep_view();
        let ghost before = dist_entries(*scs);
        proof {
            assert(gs[j as int] == groups@[j as int]@);
            assert(gs.take(j + 1) =~= gs.take(j as int).push(gs[j as int]));
            lemma_apply_sco_snoc(dist_entries(*old(scs)), gs.take(j as int), gs[j as int]);
        }
        let t = trim_str(groups[j].as_str());
        let toks = split_ws(t);
        if toks.len() > 0 {
            let key = toks[0].clone();
            let mut rest: Vec<String> = Vec::new();
            let tn = toks.len();
            let mut q: usize = 1;
            proof {
                assert(rest.deep_view() =~= toks.deep_view().subrange(1, 1));
            }
            while q < tn
                invariant
                    1 <= q <= tn,
                    tn == toks@.len(),
                    rest.deep_view() == toks.deep_view().subrange(1, q as int),
                decreases tn - q,
            {
                let ghost rv = rest.deep_view();
                rest.push(toks[q].clone());
                proof {
                    assert(rest.deep_view() =~= rv.push(toks.deep_view()[q as int]));
                    assert(toks.deep_view().subrange(1, q + 1) =~= toks.deep_view().subrange(
                        1,
                        q as int,
                    ).push(toks.deep_view()[q as int]));
                }
                q = q + 1;
            }
            proof {
                assert(toks.deep_view().subrange(1, tn as int) =~= toks.deep_view().drop_first());
                assert(key@ == toks.deep_view()[0]);
            }
            dist_insert(scs, key, rest);
            proof {
                assert(dist_entries(*scs) == apply_sco_group(before, gs[j as int]));
            }
        } else {
            proof {
                assert(dist_entries(*scs) == apply_sco_group(before, gs[j as int]));
            }
        }
        j = j + 1;
    }
    proof {
        assert(groups.deep_view().take(gn as int) =~= groups.deep_view());
    }
}

/// Performs the phase-boundary transition, as `spec_apply_now` describes.
fn apply_now_exec(st: &mut AssemblerState, payload: &str) -> (r: Result<(), FatalError>)
    requires
        spec_contains(payload@, "NOW"@),
    ensures
        match r {
            Ok(_) => spec_apply_now(state_view(*old(st)), payload@) == Ok::<
                StateV,
                FatalError,
            >(state_view(*final(st))),
            Err(e) => spec_apply_now(state_view(*old(st)), payload@) == Err::<
                StateV,
                FatalError,
            >(e) && state_view(*final(st)) == state_view(*old(st)),
        },
{
    proof {
        reveal_strlit("NOW");
        let wi = choose|wi: int| match_at(payload@, "NOW"@, wi);
        assert(payload@.len() >= 3);
    }
    let pn = payload.unicode_len();
    let stripped = trim_str(payload.substring_char(3, pn));
    proof {
        assert(payload@.subrange(3, pn as int) =~= payload@.skip(3));
    }
    let groups = paren_scan(stripped);
    let ghost gs = paren_groups_from(spec_trim(payload@.skip(3)), 0);
    proof {
        assert(groups.deep_view() == gs);
    }
    let gn = groups.len();
    let mut gi: usize = 0;
    while gi < gn
        invariant
            0 <= gi <= gn,
            gn == groups@.len(),
            groups.deep_view() == gs,
            gs == paren_groups_from(spec_trim(payload@.skip(3)), 0),
            *st == *old(st),
            forall|k: int| 0 <= k < gi ==> group_ok(#[trigger] groups.deep_view()[k]),
        decreases gn - gi,
    {
        proof {
            reveal_strlit("19");
            assert(groups.deep_view()[gi as int] == groups@[gi as int]@);
        }
        let t = trim_str(groups[gi].as_str());
        let year = contains_sub(t, "19");
        if !year && t.unicode_len() <= 7 {
            proof {
                assert(!group_ok(gs[gi as int]));
                assert(!groups_all_ok(gs));
            }
            return Err(FatalError::ShortUnitGroup);
        }
        gi = gi + 1;
    }
    proof {
        assert(groups_all_ok(gs));
    }
    let ghost st0 = state_view(*st);
    let cp_len = st.curr_phase.as_str().unicode_len();
    if cp_len > 0 {
        let snap = snapshot_phase(&st.phase_now);
        let key = st.curr_phase.clone();
        ph_insert(&mut st.phases, key, snap);
    }
    let ghost phases1 = phase_entries(st.phases);
    proof {
        assert(phases1 == if st0.curr_phase.len() > 0 {
            insert_entry(st0.phases, st0.curr_phase, st0.phase_now)
        } else {
            st0.phases
        });
    }
    let mut gj: usize = 0;
    while gj < gn
        invariant
            0 <= gj <= gn,
            gn == groups@.len(),
            groups.deep_view() == gs,
            groups_all_ok(gs),
            phase_entries(st.phases) == phases1,
            dist_entries(st.curr_scs) == st0.curr_scs,
            st.moves.deep_view() == st0.moves,
            phase_view(st.phase_now) == st0.phase_now,
            st.status@ == st0.status,
            st.summary@ == st0.summary,
            (st.curr_phase@, dist_entries(st.curr_units)) == apply_unit_groups(
                (st0.curr_phase, st0.curr_units),
                gs.take(gj as int),
            ),
        decreases gn - gj,
    {
        let ghost acc = (st.curr_phase@, dist_entries(st.curr_units));
        proof {
            reveal_strlit("19");
            assert(gs[gj as int] == groups@[gj as int]@);
            assert(gs.take(gj + 1) =~= gs.take(gj as int).push(gs[gj as int]));
            lemma_apply_unit_snoc((st0.curr_phase, st0.curr_units), gs.take(gj as int), gs[gj as int]);
        }
        let t = trim_str(groups[gj].as_str());
        if contains_sub(t, "19") {
            st.curr_phase = t.to_owned();
            proof {
                assert((st.curr_phase@, dist_entries(st.curr_units)) == apply_unit_group(
                    acc,
                    gs[gj as int],
                ));
            }
        } else {
            proof {
                assert(group_ok(gs[gj as int]));
                assert(t@.len() > 7);
            }
            let tn = t.unicode_len();
            let p3 = t.substring_char(0, 3);
            let d1 = t.substring_char(4, 5);
            let restloc = t.substring_char(7, tn);
            let mut d = d1.to_owned();
            d.append(" ");
            d.append(restloc);
            proof {
                reveal_strlit(" ");
                assert(d@ =~= unit_descriptor(gs[gj as int]));
                assert(p3@ =~= unit_power(gs[gj as int]));
            }
            match dist_get(&st.curr_units, p3) {
                Some(v) => {
                    let mut v = v;
                    let ghost vv = v.deep_view();
                    v.push(d);
                    proof {
                        assert(v.deep_view() =~= vv.push(unit_descriptor(gs[gj as int])));
                    }
                    dist_insert(&mut st.curr_units, p3.to_owned(), v);
                },
                None => {
                    let mut v: Vec<String> = Vec::new();
                    let ghost vv = v.deep_view();
                    v.push(d);
                    proof {
                        assert(vv =~= Seq::<Seq<char>>::empty());
                        assert(v.deep_view() =~= vv.push(unit_descriptor(gs[gj as int])));
                    }
                    dist_insert(&mut st.curr_units, p3.to_owned(), v);
                },
            }
            proof {
                assert((st.curr_phase@, dist_entries(st.curr_units)) == apply_unit_group(
                    acc,
                    gs[gj as int],
                ));
            }
        }
        gj = gj + 1;
    }
    proof {
        assert(gs.take(gn as int) =~= gs);
    }
    st.phase_now.units = dist_clone(&st.curr_units);
    st.phase_now.scs = dist_clone(&st.curr_scs);
    proof {
        let idu = apply_unit_groups((st0.curr_phase, st0.curr_units), gs);
        assert(state_view(*st) =~= StateV {
            phases: phases1,
            curr_scs: st0.curr_scs,
            curr_units: idu.1,
            moves: st0.moves,
            curr_phase: idu.0,
            phase_now: PhaseV { messages: st0.phase_now.messages, units: idu.1, scs: st0.curr_scs },
            status: st0.status,
            summary: st0.summary,
        });
    }
    Ok(())
}

/// Applies one classified line to the state, as `spec_step` describes. On
/// an error the state is unchanged.
pub fn step_line(st: &mut AssemblerState, c: &ClassifiedLine) -> (r: Result<(), FatalError>)
    ensures
        match r {
            Ok(_) => spec_step(state_view(*old(st)), line_view(*c)) == Ok::<
                StateV,
                FatalError,
            >(state_view(*final(st))),
            Err(e) => spec_step(state_view(*old(st)), line_view(*c)) == Err::<
                StateV,
                FatalError,
            >(e) && state_view(*final(st)) == state_view(*old(st)),
        },
{
    proof {
        reveal_strlit("ORD");
        reveal_strlit("SCO");
        reveal_strlit("NOW");
        reveal_strlit("SLO");
        reveal_strlit("DRW");
        reveal_strlit("SMR");
        reveal_strlit("SND");
    }
    let ghost st0 = state_view(*st);
    if c.is_broadcast {
        if contains_sub(c.payload.as_str(), "ORD") {
            let ghost mv = st.moves.deep_view();
            st.moves.push(c.payload.clone());
            proof {
                assert(st.moves.deep_view() =~= mv.push(c.payload@));
                assert(state_view(*st) =~= StateV { moves: st0.moves.push(c.payload@), ..st0 });
            }
            Ok(())
        } else if contains_sub(c.payload.as_str(), "SCO") {
            apply_sco(&mut st.curr_scs, c.payload.as_str());
            proof {
                assert(state_view(*st) =~= StateV {
                    curr_scs: apply_sco_groups(st0.curr_scs, sco_groups_from(c.payload@, 0)),
                    ..st0
                });
            }
            Ok(())
        } else if contains_sub(c.payload.as_str(), "NOW") {
            apply_now_exec(st, c.payload.as_str())
        } else if contains_sub(c.payload.as_str(), "SLO") || contains_sub(
            c.payload.as_str(),
            "DRW",
        ) {
            st.status = c.payload.clone();
            proof {
                assert(state_view(*st) =~= StateV { status: c.payload@, ..st0 });
            }
            Ok(())
        } else if contains_sub(c.payload.as_str(), "SMR") {
            st.summary = c.payload.clone();
            proof {
                assert(state_view(*st) =~= StateV { summary: c.payload@, ..st0 });
            }
            Ok(())
        } else {
            Ok(())
        }
    } else {
        let is_snd = starts_with_sub(c.payload.as_str(), "SND");
        if c.to_server && is_snd {
            let pn = c.payload.as_str().unicode_len();
            if pn <= 25 {
                return Err(FatalError::ShortSendPayload);
            }
            let recip = c.payload.as_str().substring_char(19, 22);
            let content = c.payload.as_str().substring_char(25, pn);
            let msg = Message {
                sender: c.origin.clone(),
                recipient: recip.to_owned(),
                message: content.to_owned(),
            };
            let ghost mv = messages_view(st.phase_now.messages@);
            let ghost msgv = MessageV {
                sender: c.origin@,
                recipient: c.payload@.subrange(19, 22),
                message: c.payload@.skip(25),
            };
            proof {
                assert(c.payload@.subrange(25, pn as int) =~= c.payload@.skip(25));
                assert(message_view(msg) == msgv);
            }
            st.phase_now.messages.push(msg);
            proof {
                assert(messages_view(st.phase_now.messages@) =~= mv.push(msgv));
                assert(state_view(*st) =~= StateV {
                    phase_now: PhaseV {
                        messages: st0.phase_now.messages.push(msgv),
                        ..st0.phase_now
                    },
                    ..st0
                });
            }
            Ok(())
        } else {
            Ok(())
        }
    }
}

/// The whole run: classify and apply each line in order, from the initial
/// state; the first fatal line aborts the run with its error.
pub open spec fn run_lines(
    lines: Seq<Seq<char>>,
    pm: Seq<(Seq<char>, Seq<char>)>,
    st: StateV,
) -> Result<StateV, FatalError>
    decreases lines.len(),
{
    if lines.len() == 0 {
        Ok(st)
    } else {
        match spec_classify(lines[0], pm) {
            Err(e) => Err(e),
            Ok(l) => match spec_step(st, l) {
                Err(e) => Err(e),
                Ok(st2) => run_lines(lines.drop_first(), pm, st2),
            },
        }
    }
}

/// Packaging of the final assembler state into the game record. The
/// in-progress phase is not flushed: only a phase-boundary event inserts a
/// phase.
pub open spec fn finalize_view(st: StateV) -> GameV {
    GameV { phases: st.phases, moves: st.moves, status: st.status, summary: st.summary }
}

/// The record built from a line sequence and a power registry.
pub open spec fn spec_run(
    lines: Seq<Seq<char>>,
    pm: Seq<(Seq<char>, Seq<char>)>,
) -> Result<GameV, FatalError> {
    match run_lines(lines, pm, init_state_v()) {
        Ok(st) => Ok(finalize_view(st)),
        Err(e) => Err(e),
    }
}

/// Builds the game record from the classified run over the input lines, as
/// `spec_run` describes.
pub fn construct_game(input: Vec<String>, power_map: &IndexMap<String, String>) -> (r: Result<
    Game,
    FatalError,
>)
    ensures
        match r {
            Ok(g) => spec_run(input.deep_view(), power_entries(*power_map)) == Ok::<
                GameV,
                FatalError,
            >(game_view(g)),
            Err(e) => spec_run(input.deep_view(), power_entries(*power_map)) == Err::<
                GameV,
                FatalError,
            >(e),
        },
{
    let mut st = init_assembler();
    let n = input.len();
    let mut i: usize = 0;
    proof {
        assert(input.deep_view().skip(0) =~= input.deep_view());
    }
    while i < n
        invariant
            0 <= i <= n,
            n == input@.len(),
            run_lines(
                input.deep_view().skip(i as int),
                power_entries(*power_map),
                state_view(st),
            ) == run_lines(input.deep_view(), power_entries(*power_map), init_state_v()),
        decreases n - i,
    {
        proof {
            assert(input.deep_view()[i as int] == input@[i as int]@);
            assert(input.deep_view().skip(i as int)[0] == input.deep_view()[i as int]);
            assert(input.deep_view().skip(i as int).drop_first() =~= input.deep_view().skip(
                i + 1,
            ));
        }
        let cr = classify_line(input[i].as_str(), power_map);
        match cr {
            Err(e) => {
                return Err(e);
            },
            Ok(c) => {
                let sr = step_line(&mut st, &c);
                match sr {
                    Err(e) => {
                        return Err(e);
                    },
                    Ok(_) => {},
                }
            },
        }
        i = i + 1;
    }
    proof {
        assert(input.deep_view().skip(n as int) =~= Seq::<Seq<char>>::empty());
    }
    let ghost stv = state_view(st);
    let g = Game { phases: st.phases, moves: st.moves, status: st.status, summary: st.summary };
    proof {
        assert(game_view(g) =~= finalize_view(stv));
    }
    Ok(g)
}

/// The whole per-transcript pipeline: preprocessing, the power registry
/// from the fixed prefix, and the assembler run over the remaining lines.
pub open spec fn spec_parse(ls: Seq<Seq<char>>) -> Result<GameV, FatalError> {
    let pp = crate::preprocess::spec_preprocess(ls);
    if pp.len() < crate::registry::REGISTRY_PREFIX as int {
        Err(FatalError::TruncatedRegistry)
    } else {
        spec_run(
            pp.skip(crate::registry::REGISTRY_PREFIX as int),
            crate::registry::spec_registry(pp.take(crate::registry::REGISTRY_PREFIX as int)),
        )
    }
}

/// Parses one transcript into its game record, as `spec_parse` describes:
/// preprocess the lines, build the registry from the fixed prefix (an input
/// with fewer preprocessed lines than the prefix is rejected), then run the
/// assembler over the rest.
pub fn parse_game_log(lines: Vec<String>) -> (r: Result<Game, FatalError>)
    ensures
        match r {
            Ok(g) => spec_parse(lines.deep_view()) == Ok::<GameV, FatalError>(game_view(g)),
            Err(e) => spec_parse(lines.deep_view()) == Err::<GameV, FatalError>(e),
        },
{
    let pp = crate::preprocess::preprocess_lines(lines);
    if pp.len() < crate::registry::REGISTRY_PREFIX {
        return Err(FatalError::TruncatedRegistry);
    }
    let (reg, rest) = crate::registry::build_power_registry(&pp);
    construct_game(rest, &reg)
}

} // verus!
