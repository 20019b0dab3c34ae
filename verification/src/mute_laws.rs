//! What the background mute promises over every call: it mutes only sessions in
//! the background, restores only the mutes it added, leaves a mute the user set
//! alone, respects a manual unmute until the next switch, and keeps the mutes of
//! closed programs to restore them later.
use vstd::prelude::*;
use crate::mute::{
    forget_ended_sessions, live_keys, owners_of, plan_sessions, plan_step, planned,
    app_mutes, recorded_owners, release_sessions, release_step, released, session_owner, wants_muted,
    AudioSession,
    MuteState, PlanState, ReleaseState,
};
use crate::identity::{
    app_matches, opt_string,
    law_name_ignores_ascii_case, law_path_ignores_ascii_case_and_slashes, with_backslashes,
    ManagedApplication,
};
use crate::text::ascii_lowered;

verus! {

/// No two sessions share a key.
pub open spec fn distinct_session_keys(sessions: Seq<AudioSession>) -> bool {
    forall|a: int, b: int|
        0 <= a < sessions.len() && 0 <= b < sessions.len() && a != b ==> sessions[a].key@
            != sessions[b].key@
}

/// Whether the mute of session `s` counts as ours at the start of a pass from
/// `st`: it is recorded, or its owner's mute is pending.
pub open spec fn ours_at_start(st: MuteState, sessions: Seq<AudioSession>, s: AudioSession) -> bool {
    st.muted.contains_key(s.key@) || forget_ended_sessions(st, live_keys(sessions)).pending.contains(
        session_owner(s),
    )
}

spec fn plan_start(st: MuteState, sessions: Seq<AudioSession>) -> PlanState {
    let f = forget_ended_sessions(st, live_keys(sessions));
    PlanState { muted: f.muted, overridden: f.overridden, mute: Seq::empty(), unmute: Seq::empty() }
}

spec fn same_key_status(a: PlanState, b: PlanState, k: Seq<char>) -> bool {
    &&& a.muted.contains_key(k) == b.muted.contains_key(k)
    &&& a.overridden.contains(k) == b.overridden.contains(k)
    &&& a.mute.contains(k) == b.mute.contains(k)
    &&& a.unmute.contains(k) == b.unmute.contains(k)
}

proof fn lemma_push_contains(s: Seq<Seq<char>>, x: Seq<char>, k: Seq<char>)
    ensures
        s.push(x).contains(k) == (s.contains(k) || x == k),
{
    if s.push(x).contains(k) && x != k {
        let j = choose|j: int| 0 <= j < s.push(x).len() && s.push(x)[j] == k;
        assert(s[j] == k);
    }
    if s.contains(k) {
        let j = choose|j: int| 0 <= j < s.len() && s[j] == k;
        assert(s.push(x)[j] == k);
    }
    assert(s.push(x)[s.len() as int] == x);
}

proof fn lemma_plan_unfold(
    start: PlanState,
    pending: Set<Seq<char>>,
    apps: Seq<ManagedApplication>,
    fg: Option<(Seq<char>, Option<Seq<char>>)>,
    ss: Seq<AudioSession>,
    j: int,
)
    requires
        0 <= j < ss.len(),
    ensures
        plan_sessions(start, pending, apps, fg, ss.take(j + 1)) == plan_step(
            plan_sessions(start, pending, apps, fg, ss.take(j)),
            pending,
            wants_muted(apps, fg, ss[j]),
            ss[j],
        ),
{
    assert(ss.take(j + 1).drop_last() =~= ss.take(j));
    assert(ss.take(j + 1).last() == ss[j]);
}

/// Sessions with another key leave what a pass knows of key `k` as it was.
proof fn lemma_plan_frame(
    start: PlanState,
    pending: Set<Seq<char>>,
    apps: Seq<ManagedApplication>,
    fg: Option<(Seq<char>, Option<Seq<char>>)>,
    ss: Seq<AudioSession>,
    k: Seq<char>,
    from: int,
    to: int,
)
    requires
        0 <= from <= to <= ss.len(),
        forall|j: int| from <= j < to ==> (#[trigger] ss[j]).key@ != k,
    ensures
        same_key_status(
            plan_sessions(start, pending, apps, fg, ss.take(from)),
            plan_sessions(start, pending, apps, fg, ss.take(to)),
            k,
        ),
    decreases to - from,
{
    if to > from {
        lemma_plan_frame(start, pending, apps, fg, ss, k, from, to - 1);
        lemma_plan_unfold(start, pending, apps, fg, ss, to - 1);
        let prev = plan_sessions(start, pending, apps, fg, ss.take(to - 1));
        let s = ss[to - 1];
        assert(s.key@ != k);
        lemma_push_contains(prev.mute, s.key@, k);
        lemma_push_contains(prev.unmute, s.key@, k);
    }
}

/// What a pass knows of the key of session `i` after the whole pass is what the
/// step for session `i` made of the start.
proof fn lemma_plan_at(
    start: PlanState,
    pending: Set<Seq<char>>,
    apps: Seq<ManagedApplication>,
    fg: Option<(Seq<char>, Option<Seq<char>>)>,
    ss: Seq<AudioSession>,
    i: int,
)
    requires
        distinct_session_keys(ss),
        0 <= i < ss.len(),
    ensures
        same_key_status(
            plan_step(
                plan_sessions(start, pending, apps, fg, ss.take(i)),
                pending,
                wants_muted(apps, fg, ss[i]),
                ss[i],
            ),
            plan_sessions(start, pending, apps, fg, ss),
            ss[i].key@,
        ),
        same_key_status(start, plan_sessions(start, pending, apps, fg, ss.take(i)), ss[i].key@),
{
    let k = ss[i].key@;
    assert(ss.take(0) =~= Seq::<AudioSession>::empty());
    lemma_plan_frame(start, pending, apps, fg, ss, k, 0, i);
    lemma_plan_unfold(start, pending, apps, fg, ss, i);
    lemma_plan_frame(start, pending, apps, fg, ss, k, i + 1, ss.len() as int);
    assert(ss.take(ss.len() as int) =~= ss);
}

/// Every key a pass adds to `mute` or `unmute` is the key of one of its sessions.
proof fn lemma_plan_keys_from_sessions(
    start: PlanState,
    pending: Set<Seq<char>>,
    apps: Seq<ManagedApplication>,
    fg: Option<(Seq<char>, Option<Seq<char>>)>,
    ss: Seq<AudioSession>,
    k: Seq<char>,
)
    requires
        plan_sessions(start, pending, apps, fg, ss).mute.contains(k) || plan_sessions(
            start,
            pending,
            apps,
            fg,
            ss,
        ).unmute.contains(k) || plan_sessions(start, pending, apps, fg, ss).muted.contains_key(k)
            || plan_sessions(start, pending, apps, fg, ss).overridden.contains(k),
    ensures
        start.mute.contains(k) || start.unmute.contains(k) || start.muted.contains_key(k)
            || start.overridden.contains(k) || exists|j: int|
            0 <= j < ss.len() && (#[trigger] ss[j]).key@ == k,
    decreases ss.len(),
{
    if ss.len() > 0 {
        let prev_ss = ss.drop_last();
        let prev = plan_sessions(start, pending, apps, fg, prev_ss);
        let s = ss.last();
        lemma_push_contains(prev.mute, s.key@, k);
        lemma_push_contains(prev.unmute, s.key@, k);
        if s.key@ == k {
            assert(ss[ss.len() - 1].key@ == k);
        } else {
            lemma_plan_keys_from_sessions(start, pending, apps, fg, prev_ss, k);
            if exists|j: int| 0 <= j < prev_ss.len() && (#[trigger] prev_ss[j]).key@ == k {
                let j = choose|j: int| 0 <= j < prev_ss.len() && (#[trigger] prev_ss[j]).key@ == k;
                assert(ss[j] == prev_ss[j]);
            }
        }
    }
}

/// Only the mutes it added are restored: every session a plan unmutes is muted
/// and was either recorded as muted here or belongs to a program whose mute is
/// pending. A mute the user set is therefore left as it is.
pub proof fn law_plan_restores_only_its_own(
    st: MuteState,
    apps: Seq<ManagedApplication>,
    fg: Option<(Seq<char>, Option<Seq<char>>)>,
    sessions: Seq<AudioSession>,
    k: Seq<char>,
)
    requires
        distinct_session_keys(sessions),
        planned(st, apps, fg, sessions).unmute.contains(k),
    ensures
        exists|i: int|
            0 <= i < sessions.len() && (#[trigger] sessions[i]).key@ == k && sessions[i].muted
                && ours_at_start(st, sessions, sessions[i]),
{
    let f = forget_ended_sessions(st, live_keys(sessions));
    let start = plan_start(st, sessions);
    assert(start.mute =~= Seq::<Seq<char>>::empty());
    assert(start.unmute =~= Seq::<Seq<char>>::empty());
    lemma_plan_keys_from_sessions(start, f.pending, apps, fg, sessions, k);
    if start.muted.contains_key(k) || start.overridden.contains(k) {
        assert(live_keys(sessions).contains(k));
    }
    let i = choose|i: int| 0 <= i < sessions.len() && (#[trigger] sessions[i]).key@ == k;
    lemma_plan_at(start, f.pending, apps, fg, sessions, i);
    assert(sessions[i].muted && ours_at_start(st, sessions, sessions[i]));
}

/// Only sessions in the background are muted: every session a plan mutes is
/// unmuted now, belongs to a managed application that mutes in the background
/// and is not in the foreground, and its mute is recorded so it can be restored.
pub proof fn law_plan_mutes_only_in_background(
    st: MuteState,
    apps: Seq<ManagedApplication>,
    fg: Option<(Seq<char>, Option<Seq<char>>)>,
    sessions: Seq<AudioSession>,
    k: Seq<char>,
)
    requires
        distinct_session_keys(sessions),
        planned(st, apps, fg, sessions).mute.contains(k),
    ensures
        exists|i: int|
            0 <= i < sessions.len() && (#[trigger] sessions[i]).key@ == k && !sessions[i].muted
                && wants_muted(apps, fg, sessions[i]),
        planned(st, apps, fg, sessions).state.muted.contains_key(k),
{
    let f = forget_ended_sessions(st, live_keys(sessions));
    let start = plan_start(st, sessions);
    assert(start.mute =~= Seq::<Seq<char>>::empty());
    assert(start.unmute =~= Seq::<Seq<char>>::empty());
    lemma_plan_keys_from_sessions(start, f.pending, apps, fg, sessions, k);
    if start.muted.contains_key(k) || start.overridden.contains(k) {
        assert(live_keys(sessions).contains(k));
    }
    let i = choose|i: int| 0 <= i < sessions.len() && (#[trigger] sessions[i]).key@ == k;
    lemma_plan_at(start, f.pending, apps, fg, sessions, i);
    assert(!sessions[i].muted && wants_muted(apps, fg, sessions[i]));
}

/// A session whose mute is ours is restored as soon as no managed application
/// asks for it to be muted, for example when its application comes to the
/// front or its background mute is turned off; it is then no longer recorded.
pub proof fn law_plan_restores_when_no_longer_wanted(
    st: MuteState,
    apps: Seq<ManagedApplication>,
    fg: Option<(Seq<char>, Option<Seq<char>>)>,
    sessions: Seq<AudioSession>,
    i: int,
)
    requires
        distinct_session_keys(sessions),
        0 <= i < sessions.len(),
        sessions[i].muted,
        !wants_muted(apps, fg, sessions[i]),
        ours_at_start(st, sessions, sessions[i]),
    ensures
        planned(st, apps, fg, sessions).unmute.contains(sessions[i].key@),
        !planned(st, apps, fg, sessions).state.muted.contains_key(sessions[i].key@),
{
    let f = forget_ended_sessions(st, live_keys(sessions));
    let start = plan_start(st, sessions);
    assert(live_keys(sessions).contains(sessions[i].key@));
    lemma_plan_at(start, f.pending, apps, fg, sessions, i);
    let prev = plan_sessions(start, f.pending, apps, fg, sessions.take(i));
    lemma_push_contains(prev.unmute, sessions[i].key@, sessions[i].key@);
}

/// A manual unmute is respected until the next switch: while an application
/// still asks for a session to be muted, a session the user unmuted after it
/// was muted here, or that was already overridden, is not muted again, and
/// stays overridden.
pub proof fn law_plan_respects_manual_unmute(
    st: MuteState,
    apps: Seq<ManagedApplication>,
    fg: Option<(Seq<char>, Option<Seq<char>>)>,
    sessions: Seq<AudioSession>,
    i: int,
)
    requires
        distinct_session_keys(sessions),
        0 <= i < sessions.len(),
        !sessions[i].muted,
        wants_muted(apps, fg, sessions[i]),
        st.muted.contains_key(sessions[i].key@) || st.overridden.contains(sessions[i].key@),
    ensures
        !planned(st, apps, fg, sessions).mute.contains(sessions[i].key@),
        planned(st, apps, fg, sessions).state.overridden.contains(sessions[i].key@),
{
    let f = forget_ended_sessions(st, live_keys(sessions));
    let start = plan_start(st, sessions);
    assert(live_keys(sessions).contains(sessions[i].key@));
    assert(start.mute =~= Seq::<Seq<char>>::empty());
    lemma_plan_at(start, f.pending, apps, fg, sessions, i);
}

/// An override ends with the switch: once no application asks for a session to
/// be muted, it is neither overridden nor recorded as muted.
pub proof fn law_plan_switch_ends_override(
    st: MuteState,
    apps: Seq<ManagedApplication>,
    fg: Option<(Seq<char>, Option<Seq<char>>)>,
    sessions: Seq<AudioSession>,
    i: int,
)
    requires
        distinct_session_keys(sessions),
        0 <= i < sessions.len(),
        !wants_muted(apps, fg, sessions[i]),
    ensures
        !planned(st, apps, fg, sessions).state.overridden.contains(sessions[i].key@),
        !planned(st, apps, fg, sessions).state.muted.contains_key(sessions[i].key@),
{
    let f = forget_ended_sessions(st, live_keys(sessions));
    let start = plan_start(st, sessions);
    lemma_plan_at(start, f.pending, apps, fg, sessions, i);
}

/// After a plan, only live sessions are recorded as muted or overridden.
pub proof fn law_plan_tracks_only_live_sessions(
    st: MuteState,
    apps: Seq<ManagedApplication>,
    fg: Option<(Seq<char>, Option<Seq<char>>)>,
    sessions: Seq<AudioSession>,
    k: Seq<char>,
)
    ensures
        planned(st, apps, fg, sessions).state.muted.contains_key(k) ==> live_keys(sessions).contains(
            k,
        ),
        planned(st, apps, fg, sessions).state.overridden.contains(k) ==> live_keys(
            sessions,
        ).contains(k),
{
    let f = forget_ended_sessions(st, live_keys(sessions));
    let start = plan_start(st, sessions);
    let r = planned(st, apps, fg, sessions).state;
    if r.muted.contains_key(k) || r.overridden.contains(k) {
        assert(start.mute =~= Seq::<Seq<char>>::empty());
        assert(start.unmute =~= Seq::<Seq<char>>::empty());
        lemma_plan_keys_from_sessions(start, f.pending, apps, fg, sessions, k);
        if exists|j: int| 0 <= j < sessions.len() && (#[trigger] sessions[j]).key@ == k {
            let j = choose|j: int| 0 <= j < sessions.len() && (#[trigger] sessions[j]).key@ == k;
            assert(live_keys(sessions).contains(k));
        }
    }
}

/// A program whose mute was recorded and whose sessions all ended keeps that
/// mute pending, so it is restored when the program's next session appears.
pub proof fn law_plan_keeps_closed_programs_pending(
    st: MuteState,
    apps: Seq<ManagedApplication>,
    fg: Option<(Seq<char>, Option<Seq<char>>)>,
    sessions: Seq<AudioSession>,
    k: Seq<char>,
)
    requires
        st.muted.contains_key(k),
        !live_keys(sessions).contains(k),
        !owners_of(sessions).contains(st.muted[k]),
    ensures
        planned(st, apps, fg, sessions).state.pending.contains(st.muted[k]),
{
    let f = forget_ended_sessions(st, live_keys(sessions));
    assert(crate::mute::ended_owners(st.muted, live_keys(sessions)).contains(st.muted[k]));
    assert(f.pending.contains(st.muted[k]));
}

spec fn release_start(st: MuteState, sessions: Seq<AudioSession>) -> ReleaseState {
    let f = forget_ended_sessions(st, live_keys(sessions));
    ReleaseState { muted: f.muted, released: Set::empty(), unmute: Seq::empty() }
}

proof fn lemma_release_unfold(
    start: ReleaseState,
    pending: Set<Seq<char>>,
    ss: Seq<AudioSession>,
    j: int,
)
    requires
        0 <= j < ss.len(),
    ensures
        release_sessions(start, pending, ss.take(j + 1)) == release_step(
            release_sessions(start, pending, ss.take(j)),
            pending,
            ss[j],
        ),
{
    assert(ss.take(j + 1).drop_last() =~= ss.take(j));
    assert(ss.take(j + 1).last() == ss[j]);
}

/// A release pass removes the key of every session it goes through, releases
/// only owners of its sessions, and unmutes only keys of its sessions.
proof fn lemma_release_shape(start: ReleaseState, pending: Set<Seq<char>>, ss: Seq<AudioSession>)
    ensures
        forall|k: Seq<char>| #[trigger]
            release_sessions(start, pending, ss).muted.contains_key(k) ==> start.muted.contains_key(
                k,
            ) && !live_keys(ss).contains(k),
        forall|o: Seq<char>| #[trigger]
            release_sessions(start, pending, ss).released.contains(o) ==> start.released.contains(
                o,
            ) || owners_of(ss).contains(o),
    decreases ss.len(),
{
    if ss.len() > 0 {
        let prev_ss = ss.drop_last();
        lemma_release_shape(start, pending, prev_ss);
        let r = release_sessions(start, pending, ss);
        let s = ss.last();
        let prev = release_sessions(start, pending, prev_ss);
        assert(r == release_step(prev, pending, s));
        assert(ss[ss.len() - 1] == s);
        assert forall|k: Seq<char>| #[trigger] r.muted.contains_key(k) implies start.muted.contains_key(
            k,
        ) && !live_keys(ss).contains(k) by {
            assert(k != s.key@);
            assert(prev.muted.contains_key(k));
            if live_keys(ss).contains(k) {
                let j = choose|j: int| 0 <= j < ss.len() && #[trigger] ss[j].key@ == k;
                assert(j < prev_ss.len());
                assert(prev_ss[j] == ss[j]);
                assert(live_keys(prev_ss).contains(k));
            }
        }
        assert forall|o: Seq<char>| #[trigger] r.released.contains(o) implies start.released.contains(
            o,
        ) || owners_of(ss).contains(o) by {
            if o == session_owner(s) {
                assert(session_owner(ss[ss.len() - 1]) == o);
            } else if prev.released.contains(o) &&  owners_of(prev_ss).contains(o) {
                let j = choose|j: int| 0 <= j < prev_ss.len() && session_owner(#[trigger] prev_ss[j]) == o;
                assert(ss[j] == prev_ss[j]);
            }
        }
    }
}

/// Releasing everything leaves no mute recorded and no override.
pub proof fn law_release_all_leaves_nothing_recorded(st: MuteState, sessions: Seq<AudioSession>)
    ensures
        released(st, sessions).state.muted.dom().is_empty(),
        released(st, sessions).state.overridden.is_empty(),
{
    let f = forget_ended_sessions(st, live_keys(sessions));
    let start = release_start(st, sessions);
    lemma_release_shape(start, f.pending, sessions);
    let r = released(st, sessions).state;
    assert(r.muted.dom() =~= Set::<Seq<char>>::empty());
}

/// Releasing everything unmutes every muted session whose mute is ours.
pub proof fn law_release_all_restores_its_own(st: MuteState, sessions: Seq<AudioSession>, i: int)
    requires
        distinct_session_keys(sessions),
        0 <= i < sessions.len(),
        sessions[i].muted,
        ours_at_start(st, sessions, sessions[i]),
    ensures
        released(st, sessions).unmute.contains(sessions[i].key@),
{
    let f = forget_ended_sessions(st, live_keys(sessions));
    let start = release_start(st, sessions);
    let k = sessions[i].key@;
    assert(live_keys(sessions).contains(k));
    lemma_release_frame(start, f.pending, sessions, k, 0, i);
    assert(sessions.take(0) =~= Seq::<AudioSession>::empty());
    lemma_release_unfold(start, f.pending, sessions, i);
    let prev = release_sessions(start, f.pending, sessions.take(i));
    lemma_push_contains(prev.unmute, k, k);
    lemma_release_frame(start, f.pending, sessions, k, i + 1, sessions.len() as int);
    assert(sessions.take(sessions.len() as int) =~= sessions);
}

/// Releasing everything unmutes only muted sessions whose mute is ours.
pub proof fn law_release_all_restores_only_its_own(
    st: MuteState,
    sessions: Seq<AudioSession>,
    k: Seq<char>,
)
    requires
        distinct_session_keys(sessions),
        released(st, sessions).unmute.contains(k),
    ensures
        exists|i: int|
            0 <= i < sessions.len() && (#[trigger] sessions[i]).key@ == k && sessions[i].muted
                && ours_at_start(st, sessions, sessions[i]),
{
    let f = forget_ended_sessions(st, live_keys(sessions));
    let start = release_start(st, sessions);
    let i = lemma_release_unmute_source(start, f.pending, sessions, k);
    assert(sessions.take(0) =~= Seq::<AudioSession>::empty());
    lemma_release_frame(start, f.pending, sessions, k, 0, i);
    assert(sessions[i].muted && ours_at_start(st, sessions, sessions[i]));
}

/// Releasing everything keeps pending the programs that have no live session:
/// they are restored when they next play sound.
pub proof fn law_release_all_keeps_closed_programs_pending(
    st: MuteState,
    sessions: Seq<AudioSession>,
    o: Seq<char>,
)
    requires
        forget_ended_sessions(st, live_keys(sessions)).pending.contains(o),
        !owners_of(sessions).contains(o),
    ensures
        released(st, sessions).state.pending.contains(o),
{
    let f = forget_ended_sessions(st, live_keys(sessions));
    let start = release_start(st, sessions);
    lemma_release_shape(start, f.pending, sessions);
}

proof fn lemma_release_frame(
    start: ReleaseState,
    pending: Set<Seq<char>>,
    ss: Seq<AudioSession>,
    k: Seq<char>,
    from: int,
    to: int,
)
    requires
        0 <= from <= to <= ss.len(),
        forall|j: int| from <= j < to ==> (#[trigger] ss[j]).key@ != k,
    ensures
        release_sessions(start, pending, ss.take(to)).muted.contains_key(k) == release_sessions(
            start,
            pending,
            ss.take(from),
        ).muted.contains_key(k),
        release_sessions(start, pending, ss.take(to)).unmute.contains(k) == release_sessions(
            start,
            pending,
            ss.take(from),
        ).unmute.contains(k),
    decreases to - from,
{
    if to > from {
        lemma_release_frame(start, pending, ss, k, from, to - 1);
        lemma_release_unfold(start, pending, ss, to - 1);
        let prev = release_sessions(start, pending, ss.take(to - 1));
        assert(ss[to - 1].key@ != k);
        lemma_push_contains(prev.unmute, ss[to - 1].key@, k);
    }
}

/// The session whose step put `k` into the unmute list of a release pass that
/// starts with an empty one.
proof fn lemma_release_unmute_source(
    start: ReleaseState,
    pending: Set<Seq<char>>,
    ss: Seq<AudioSession>,
    k: Seq<char>,
) -> (i: int)
    requires
        start.unmute.len() == 0,
        distinct_session_keys(ss),
        release_sessions(start, pending, ss).unmute.contains(k),
    ensures
        0 <= i < ss.len(),
        ss[i].key@ == k,
        ss[i].muted,
        release_sessions(start, pending, ss.take(i)).muted.contains_key(k) || pending.contains(
            session_owner(ss[i]),
        ),
    decreases ss.len(),
{
    let prev_ss = ss.drop_last();
    if ss.len() == 0 {
        assert(false);
        0
    } else {
        let prev = release_sessions(start, pending, prev_ss);
        let s = ss.last();
        lemma_push_contains(prev.unmute, s.key@, k);
        assert(ss.take(ss.len() - 1) =~= prev_ss);
        if prev.unmute.contains(k) {
            assert forall|a: int, b: int|
                0 <= a < prev_ss.len() && 0 <= b < prev_ss.len() && a != b implies prev_ss[a].key@
                != prev_ss[b].key@ by {
                assert(prev_ss[a] == ss[a] && prev_ss[b] == ss[b]);
            }
            let i = lemma_release_unmute_source(start, pending, prev_ss, k);
            assert(ss[i] == prev_ss[i]);
            assert(prev_ss.take(i) =~= ss.take(i));
            i
        } else {
            (ss.len() - 1) as int
        }
    }
}

/// Nothing is idle while some program's mute is ours: a background mute is idle
/// exactly when it has no owners.
pub proof fn law_idle_exactly_without_owners(st: MuteState)
    ensures
        (st.muted.dom().is_empty() && st.pending.is_empty()) == st.muted.values().union(
            st.pending,
        ).is_empty(),
{
    if !st.muted.dom().is_empty() {
        let k = st.muted.dom().choose();
        assert(st.muted.dom().contains(k));
        assert(st.muted.values().contains(st.muted[k]));
        assert(st.muted.values().union(st.pending).contains(st.muted[k]));
    }
    if !st.pending.is_empty() {
        let o = st.pending.choose();
        assert(st.pending.contains(o));
        assert(st.muted.values().union(st.pending).contains(o));
    }
    if st.muted.dom().is_empty() && st.pending.is_empty() {
        assert(st.muted.values() =~= Set::<Seq<char>>::empty());
        assert(st.muted.values().union(st.pending) =~= Set::<Seq<char>>::empty());
    }
}

/// Forgetting the sessions that ended keeps every owner: the owner of a muted
/// session that ended stays recorded, as pending.
pub proof fn law_forget_ended_keeps_owners(st: MuteState, live: Set<Seq<char>>)
    ensures
        recorded_owners(forget_ended_sessions(st, live)) == recorded_owners(st),
{
    let f = forget_ended_sessions(st, live);
    assert forall|o: Seq<char>| #[trigger] recorded_owners(f).contains(o) implies recorded_owners(
        st,
    ).contains(o) by {
        if f.muted.values().contains(o) {
            let k = choose|k: Seq<char>| #[trigger] f.muted.contains_key(k) && f.muted[k] == o;
            assert(st.muted.contains_key(k));
            assert(st.muted.values().contains(o));
        } else if crate::mute::ended_owners(st.muted, live).contains(o) {
            let k = choose|k: Seq<char>|
                #[trigger] st.muted.contains_key(k) && !live.contains(k) && st.muted[k] == o;
            assert(st.muted.values().contains(o));
        }
    }
    assert forall|o: Seq<char>| #[trigger] recorded_owners(st).contains(o) implies recorded_owners(
        f,
    ).contains(o) by {
        if st.muted.values().contains(o) {
            let k = choose|k: Seq<char>| #[trigger] st.muted.contains_key(k) && st.muted[k] == o;
            if live.contains(k) {
                assert(f.muted.contains_key(k));
                assert(f.muted.values().contains(o));
            } else {
                assert(crate::mute::ended_owners(st.muted, live).contains(o));
            }
        }
    }
    assert(recorded_owners(f) =~= recorded_owners(st));
}

/// A pass over sessions with distinct keys, starting with empty lists, lists
/// each key at most once, in at most one of `mute` and `unmute`, and only keys
/// of its sessions.
proof fn lemma_plan_lists(
    start: PlanState,
    pending: Set<Seq<char>>,
    apps: Seq<ManagedApplication>,
    fg: Option<(Seq<char>, Option<Seq<char>>)>,
    ss: Seq<AudioSession>,
)
    requires
        start.mute.len() == 0,
        start.unmute.len() == 0,
        distinct_session_keys(ss),
    ensures
        plan_sessions(start, pending, apps, fg, ss).mute.no_duplicates(),
        plan_sessions(start, pending, apps, fg, ss).unmute.no_duplicates(),
        forall|k: Seq<char>|
            #![trigger plan_sessions(start, pending, apps, fg, ss).mute.contains(k)]
            #![trigger plan_sessions(start, pending, apps, fg, ss).unmute.contains(k)]
            (plan_sessions(start, pending, apps, fg, ss).mute.contains(k) || plan_sessions(
                start,
                pending,
                apps,
                fg,
                ss,
            ).unmute.contains(k)) ==> live_keys(ss).contains(k) && !(plan_sessions(
                start,
                pending,
                apps,
                fg,
                ss,
            ).mute.contains(k) && plan_sessions(start, pending, apps, fg, ss).unmute.contains(k)),
    decreases ss.len(),
{
    let r = plan_sessions(start, pending, apps, fg, ss);
    if ss.len() == 0 {
        assert(r.mute.len() == 0 && r.unmute.len() == 0);
    } else {
        let prev_ss = ss.drop_last();
        assert forall|a: int, b: int|
            0 <= a < prev_ss.len() && 0 <= b < prev_ss.len() && a != b implies prev_ss[a].key@
            != prev_ss[b].key@ by {
            assert(prev_ss[a] == ss[a] && prev_ss[b] == ss[b]);
        }
        lemma_plan_lists(start, pending, apps, fg, prev_ss);
        let prev = plan_sessions(start, pending, apps, fg, prev_ss);
        let s = ss.last();
        let key = s.key@;
        assert(!live_keys(prev_ss).contains(key)) by {
            if live_keys(prev_ss).contains(key) {
                let j = choose|j: int| 0 <= j < prev_ss.len() && #[trigger] prev_ss[j].key@ == key;
                assert(ss[j] == prev_ss[j]);
                assert(ss[ss.len() - 1] == s);
            }
        }
        assert(!prev.mute.contains(key));
        assert(!prev.unmute.contains(key));
        assert(r == plan_step(prev, pending, wants_muted(apps, fg, s), s));
        lemma_push_no_duplicates(prev.mute, key);
        lemma_push_no_duplicates(prev.unmute, key);
        assert forall|k: Seq<char>|
            (r.mute.contains(k) || r.unmute.contains(k)) implies live_keys(ss).contains(k) && !(
            r.mute.contains(k) && r.unmute.contains(k)) by {
            lemma_push_contains(prev.mute, key, k);
            lemma_push_contains(prev.unmute, key, k);
            if k == key {
                assert(ss[ss.len() - 1].key@ == k);
            } else {
                let j = choose|j: int| 0 <= j < prev_ss.len() && #[trigger] prev_ss[j].key@ == k;
                assert(ss[j] == prev_ss[j]);
            }
        }
    }
}

proof fn lemma_push_no_duplicates(s: Seq<Seq<char>>, x: Seq<char>)
    requires
        s.no_duplicates(),
        !s.contains(x),
    ensures
        s.push(x).no_duplicates(),
{
    assert forall|a: int, b: int|
        0 <= a < s.push(x).len() && 0 <= b < s.push(x).len() && a != b implies s.push(x)[a]
        != s.push(x)[b] by {
        if a == s.len() {
            assert(s[b] == s.push(x)[b]);
        } else if b == s.len() {
            assert(s[a] == s.push(x)[a]);
        }
    }
}

/// For sessions with distinct keys, a plan names each session at most once, in
/// at most one of its lists: the sessions to mute and those to unmute are
/// disjoint and free of repeats, and are keys of the sessions.
pub proof fn law_plan_lists_disjoint_without_repeats(
    st: MuteState,
    apps: Seq<ManagedApplication>,
    fg: Option<(Seq<char>, Option<Seq<char>>)>,
    sessions: Seq<AudioSession>,
)
    requires
        distinct_session_keys(sessions),
    ensures
        planned(st, apps, fg, sessions).mute.no_duplicates(),
        planned(st, apps, fg, sessions).unmute.no_duplicates(),
        forall|k: Seq<char>|
            !(#[trigger] planned(st, apps, fg, sessions).mute.contains(k) && planned(
                st,
                apps,
                fg,
                sessions,
            ).unmute.contains(k)),
        forall|k: Seq<char>|
            #[trigger] planned(st, apps, fg, sessions).mute.contains(k) ==> live_keys(
                sessions,
            ).contains(k),
        forall|k: Seq<char>|
            #[trigger] planned(st, apps, fg, sessions).unmute.contains(k) ==> live_keys(
                sessions,
            ).contains(k),
{
    let f = forget_ended_sessions(st, live_keys(sessions));
    let start = plan_start(st, sessions);
    assert(start.mute =~= Seq::<Seq<char>>::empty());
    assert(start.unmute =~= Seq::<Seq<char>>::empty());
    lemma_plan_lists(start, f.pending, apps, fg, sessions);
}

/// Whether `o` owns one of `sessions` whose key is in `keys`.
pub open spec fn owns_one_of(sessions: Seq<AudioSession>, keys: Seq<Seq<char>>, o: Seq<char>) -> bool {
    exists|i: int|
        0 <= i < sessions.len() && keys.contains((#[trigger] sessions[i]).key@) && session_owner(
            sessions[i],
        ) == o
}

/// Every owner a pass records was recorded at its start, is pending, or owns a
/// session the pass mutes.
proof fn lemma_plan_owners(
    start: PlanState,
    pending: Set<Seq<char>>,
    apps: Seq<ManagedApplication>,
    fg: Option<(Seq<char>, Option<Seq<char>>)>,
    ss: Seq<AudioSession>,
)
    ensures
        forall|k: Seq<char>| #[trigger]
            plan_sessions(start, pending, apps, fg, ss).muted.contains_key(k) ==> start.muted.values().contains(
                plan_sessions(start, pending, apps, fg, ss).muted[k],
            ) || pending.contains(plan_sessions(start, pending, apps, fg, ss).muted[k]) || owns_one_of(
                ss,
                plan_sessions(start, pending, apps, fg, ss).mute,
                plan_sessions(start, pending, apps, fg, ss).muted[k],
            ),
    decreases ss.len(),
{
    if ss.len() > 0 {
        let prev_ss = ss.drop_last();
        lemma_plan_owners(start, pending, apps, fg, prev_ss);
        let prev = plan_sessions(start, pending, apps, fg, prev_ss);
        let r = plan_sessions(start, pending, apps, fg, ss);
        let s = ss.last();
        assert(r == plan_step(prev, pending, wants_muted(apps, fg, s), s));
        assert forall|k: Seq<char>| #[trigger] r.muted.contains_key(k) implies start.muted.values().contains(
            r.muted[k],
        ) || pending.contains(r.muted[k]) || owns_one_of(ss, r.mute, r.muted[k]) by {
            let o = r.muted[k];
            if k == s.key@ && !prev.muted.contains_key(k) {
                // newly inserted: either muted now (key pushed) or adopted (pending)
                lemma_push_contains(prev.mute, s.key@, s.key@);
                if !pending.contains(o) {
                    assert(r.mute.contains(s.key@));
                    assert(ss[ss.len() - 1] == s);
                    assert(owns_one_of(ss, r.mute, o));
                }
            } else {
                assert(prev.muted.contains_key(k));
                assert(prev.muted[k] == o);
                if owns_one_of(prev_ss, prev.mute, o) {
                    let j = choose|j: int|
                        0 <= j < prev_ss.len() && prev.mute.contains((#[trigger] prev_ss[j]).key@)
                            && session_owner(prev_ss[j]) == o;
                    assert(ss[j] == prev_ss[j]);
                    lemma_push_contains(prev.mute, s.key@, prev_ss[j].key@);
                    assert(r.mute.contains(ss[j].key@));
                }
            }
        }
    }
}

/// After a plan, every owner whose mute is ours was already ours, or owns a
/// session this plan mutes.
pub proof fn law_plan_owners_bounded(
    st: MuteState,
    apps: Seq<ManagedApplication>,
    fg: Option<(Seq<char>, Option<Seq<char>>)>,
    sessions: Seq<AudioSession>,
    o: Seq<char>,
)
    requires
        recorded_owners(planned(st, apps, fg, sessions).state).contains(o),
    ensures
        recorded_owners(st).contains(o) || owns_one_of(
            sessions,
            planned(st, apps, fg, sessions).mute,
            o,
        ),
{
    let f = forget_ended_sessions(st, live_keys(sessions));
    let start = plan_start(st, sessions);
    let r = plan_sessions(start, f.pending, apps, fg, sessions);
    law_forget_ended_keeps_owners(st, live_keys(sessions));
    lemma_plan_owners(start, f.pending, apps, fg, sessions);
    if r.muted.values().contains(o) {
        let k = choose|k: Seq<char>| #[trigger] r.muted.contains_key(k) && r.muted[k] == o;
        assert(r.muted.contains_key(k));
        if start.muted.values().contains(o) {
            assert(recorded_owners(f).contains(o));
        } else if f.pending.contains(o) {
            assert(recorded_owners(f).contains(o));
        }
    } else {
        assert(f.pending.contains(o));
        assert(recorded_owners(f).contains(o));
    }
}

/// Each session key names one program: a key recorded as muted in `st` and
/// live in `sessions` is recorded with that session's owner.
pub open spec fn keys_keep_owners(st: MuteState, sessions: Seq<AudioSession>) -> bool {
    forall|i: int|
        0 <= i < sessions.len() && st.muted.contains_key((#[trigger] sessions[i]).key@) ==> st.muted[sessions[i].key@]
            == session_owner(sessions[i])
}

/// A mute WindowWarden did not add is never undone: when each key names one
/// program, every session a plan unmutes is muted and its owner's mute was
/// ours before the plan.
pub proof fn law_plan_unmutes_only_recorded_owners(
    st: MuteState,
    apps: Seq<ManagedApplication>,
    fg: Option<(Seq<char>, Option<Seq<char>>)>,
    sessions: Seq<AudioSession>,
    k: Seq<char>,
)
    requires
        distinct_session_keys(sessions),
        keys_keep_owners(st, sessions),
        planned(st, apps, fg, sessions).unmute.contains(k),
    ensures
        exists|i: int|
            0 <= i < sessions.len() && (#[trigger] sessions[i]).key@ == k && sessions[i].muted
                && recorded_owners(st).contains(session_owner(sessions[i])),
{
    law_plan_restores_only_its_own(st, apps, fg, sessions, k);
    let i = choose|i: int|
        0 <= i < sessions.len() && (#[trigger] sessions[i]).key@ == k && sessions[i].muted
            && ours_at_start(st, sessions, sessions[i]);
    law_forget_ended_keeps_owners(st, live_keys(sessions));
    let f = forget_ended_sessions(st, live_keys(sessions));
    if st.muted.contains_key(k) {
        assert(st.muted[sessions[i].key@] == session_owner(sessions[i]));
        assert(st.muted.values().contains(session_owner(sessions[i])));
    } else {
        assert(f.pending.contains(session_owner(sessions[i])));
        assert(recorded_owners(f).contains(session_owner(sessions[i])));
    }
    assert(recorded_owners(st).contains(session_owner(sessions[i])));
}

/// A release pass releases the owner of every session it goes through whose
/// owner is pending, and never drops a released owner.
proof fn lemma_release_covers(start: ReleaseState, pending: Set<Seq<char>>, ss: Seq<AudioSession>)
    ensures
        forall|i: int|
            0 <= i < ss.len() && pending.contains(session_owner(#[trigger] ss[i])) ==> release_sessions(
                start,
                pending,
                ss,
            ).released.contains(session_owner(ss[i])),
        forall|o: Seq<char>|
            start.released.contains(o) ==> #[trigger] release_sessions(start, pending, ss).released.contains(o),
    decreases ss.len(),
{
    if ss.len() > 0 {
        let prev_ss = ss.drop_last();
        lemma_release_covers(start, pending, prev_ss);
        let prev = release_sessions(start, pending, prev_ss);
        let r = release_sessions(start, pending, ss);
        let s = ss.last();
        assert(r == release_step(prev, pending, s));
        assert forall|i: int|
            0 <= i < ss.len() && pending.contains(session_owner(#[trigger] ss[i])) implies r.released.contains(
            session_owner(ss[i]),
        ) by {
            if i < ss.len() - 1 {
                assert(ss[i] == prev_ss[i]);
            }
        }
    }
}

/// Releasing everything mutes nothing, unmutes only muted sessions whose
/// owner's mute was ours (when each key names one program), records no owner
/// that was not ours before, and leaves no live session's owner recorded.
pub proof fn law_release_all_settles_owners(st: MuteState, sessions: Seq<AudioSession>)
    requires
        distinct_session_keys(sessions),
    ensures
        released(st, sessions).mute.len() == 0,
        keys_keep_owners(st, sessions) ==> forall|k: Seq<char>|
            #[trigger] released(st, sessions).unmute.contains(k) ==> exists|i: int|
                0 <= i < sessions.len() && (#[trigger] sessions[i]).key@ == k && sessions[i].muted
                    && recorded_owners(st).contains(session_owner(sessions[i])),
        forall|o: Seq<char>|
            #[trigger] recorded_owners(released(st, sessions).state).contains(o) ==> recorded_owners(
                st,
            ).contains(o),
        forall|i: int|
            0 <= i < sessions.len() ==> !recorded_owners(released(st, sessions).state).contains(
                session_owner(#[trigger] sessions[i]),
            ),
{
    let f = forget_ended_sessions(st, live_keys(sessions));
    let start = release_start(st, sessions);
    let out = released(st, sessions).state;
    law_forget_ended_keeps_owners(st, live_keys(sessions));
    law_release_all_leaves_nothing_recorded(st, sessions);
    lemma_release_covers(start, f.pending, sessions);
    assert(out.muted.values() =~= Set::<Seq<char>>::empty()) by {
        assert forall|o: Seq<char>| !out.muted.values().contains(o) by {
            if out.muted.values().contains(o) {
                let k = choose|k: Seq<char>| #[trigger] out.muted.contains_key(k) && out.muted[k] == o;
                assert(out.muted.dom().contains(k));
            }
        }
    }
    assert forall|o: Seq<char>| #[trigger] recorded_owners(out).contains(o) implies recorded_owners(
        st,
    ).contains(o) by {
        assert(f.pending.contains(o));
        assert(recorded_owners(f).contains(o));
    }
    if keys_keep_owners(st, sessions) {
        assert forall|k: Seq<char>| #[trigger] released(st, sessions).unmute.contains(k) implies exists|i: int|
            0 <= i < sessions.len() && (#[trigger] sessions[i]).key@ == k && sessions[i].muted
                && recorded_owners(st).contains(session_owner(sessions[i])) by {
            law_release_all_restores_only_its_own(st, sessions, k);
            let i = choose|i: int|
                0 <= i < sessions.len() && (#[trigger] sessions[i]).key@ == k && sessions[i].muted
                    && ours_at_start(st, sessions, sessions[i]);
            if st.muted.contains_key(k) {
                assert(st.muted[sessions[i].key@] == session_owner(sessions[i]));
                assert(st.muted.values().contains(session_owner(sessions[i])));
            } else {
                assert(recorded_owners(f).contains(session_owner(sessions[i])));
            }
        }
    }
    assert forall|i: int| 0 <= i < sessions.len() implies !recorded_owners(out).contains(
        session_owner(#[trigger] sessions[i]),
    ) by {
        let o = session_owner(sessions[i]);
        if f.pending.contains(o) {
            assert(release_sessions(start, f.pending, sessions).released.contains(o));
        }
    }
}

/// A session's owner is its program alone: it does not depend on the session's
/// key or mute, nor on the case of ASCII letters, nor on `/` against `\` in a
/// path. Sessions without paths whose process names are equal but for ASCII
/// case have one owner, and so do sessions whose paths are.
pub proof fn law_owner_names_the_program(s: AudioSession, t: AudioSession)
    requires
        match (s.process_path, t.process_path) {
            (None, None) => ascii_lowered(s.process_name@) == ascii_lowered(t.process_name@),
            (Some(p), Some(q)) => ascii_lowered(with_backslashes(p@)) == ascii_lowered(
                with_backslashes(q@),
            ),
            _ => false,
        },
    ensures
        session_owner(s) == session_owner(t),
{
    match (s.process_path, t.process_path) {
        (None, None) => law_name_ignores_ascii_case(s.process_name@, t.process_name@),
        (Some(p), Some(q)) => law_path_ignores_ascii_case_and_slashes(p@, q@),
        _ => {},
    }
}

/// Whether a session is wanted muted is decided per application: some managed
/// application that mutes in the background is the session's program and is
/// not itself the foreground process. Which other applications are in front
/// does not matter.
pub proof fn law_wanted_muted_per_application(
    apps: Seq<ManagedApplication>,
    fg: Option<(Seq<char>, Option<Seq<char>>)>,
    s: AudioSession,
)
    ensures
        wants_muted(apps, fg, s) <==> exists|i: int|
            0 <= i < apps.len() && (#[trigger] apps[i]).mute_in_background && app_matches(
                apps[i],
                s.process_name@,
                opt_string(s.process_path),
            ) && !(match fg {
                Some((name, path)) => app_matches(apps[i], name, path),
                None => false,
            }),
{
}

/// Every session whose program is in the background is muted: a session that
/// is playing, that is neither recorded as muted here nor overridden, and whose
/// program some application mutes in the background while that application is
/// not the foreground process, is in the plan's mute list, whatever else the
/// plan or the state mutes (other sessions of the same program included).
pub proof fn law_plan_mutes_every_background_session(
    st: MuteState,
    apps: Seq<ManagedApplication>,
    fg: Option<(Seq<char>, Option<Seq<char>>)>,
    sessions: Seq<AudioSession>,
    i: int,
    a: int,
)
    requires
        distinct_session_keys(sessions),
        0 <= i < sessions.len(),
        !sessions[i].muted,
        !st.muted.contains_key(sessions[i].key@),
        !st.overridden.contains(sessions[i].key@),
        0 <= a < apps.len(),
        apps[a].mute_in_background,
        app_matches(apps[a], sessions[i].process_name@, opt_string(sessions[i].process_path)),
        !(match fg {
            Some((name, path)) => app_matches(apps[a], name, path),
            None => false,
        }),
    ensures
        planned(st, apps, fg, sessions).mute.contains(sessions[i].key@),
        planned(st, apps, fg, sessions).state.muted.contains_key(sessions[i].key@),
{
    let f = forget_ended_sessions(st, live_keys(sessions));
    let start = plan_start(st, sessions);
    assert(app_mutes(apps[a], fg, sessions[i]));
    assert(wants_muted(apps, fg, sessions[i]));
    assert(start.mute =~= Seq::<Seq<char>>::empty());
    lemma_plan_at(start, f.pending, apps, fg, sessions, i);
    let prev = plan_sessions(start, f.pending, apps, fg, sessions.take(i));
    lemma_push_contains(prev.mute, sessions[i].key@, sessions[i].key@);
}

} // verus!
