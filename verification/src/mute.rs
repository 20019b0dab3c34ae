//! Background mute: muting a managed application's audio sessions while another
//! window is in the foreground, and restoring only the mutes added here.
use vstd::prelude::*;
use crate::collections::{
    distinct_keys, distinct_texts, in_text_order, sorted_texts, keys_of, lemma_assoc_at, lemma_assoc_push,
    lemma_set_prefix, distinct, map_contains, map_insert, map_remove, set_contains, set_insert, set_remove,
    text_map, text_pairs, text_set, texts,
};
use crate::identity::{
    app_matches, normalize_name, normalize_path, normalized_name, normalized_path, opt_string,
    opt_text, ManagedApplication,
};

verus! {

/// An audio session as read from the system.
#[derive(Debug, PartialEq)]
pub struct AudioSession {
    /// The session's instance identifier.
    pub key: String,
    pub process_name: String,
    pub process_path: Option<String>,
    pub muted: bool,
}

impl Clone for AudioSession {
    fn clone(&self) -> (r: Self)
        ensures
            r == *self,
    {
        let process_path = match &self.process_path {
            Some(path) => Some(path.clone()),
            None => None,
        };
        AudioSession {
            key: self.key.clone(),
            process_name: self.process_name.clone(),
            process_path,
            muted: self.muted,
        }
    }
}

/// The program that owns a session: its normalized executable path when that is
/// known, else its normalized process name. Sessions come and go; the owner stays.
pub open spec fn session_owner(s: AudioSession) -> Seq<char> {
    match s.process_path {
        Some(p) => normalized_path(p@),
        None => normalized_name(s.process_name@),
    }
}

impl AudioSession {
    /// The program that owns this session.
    pub fn owner(&self) -> (r: String)
        ensures
            r@ == session_owner(*self),
    {
        match &self.process_path {
            Some(path) => normalize_path(path.as_str()),
            None => normalize_name(self.process_name.as_str()),
        }
    }
}

/// The sessions to mute and to unmute, by key.
#[derive(Debug, Default, PartialEq)]
pub struct MuteActions {
    pub mute: Vec<String>,
    pub unmute: Vec<String>,
}

/// What the actions ask of the session `key`: `Some(true)` to mute it,
/// `Some(false)` to unmute it, `None` to leave it. A key in both lists is muted.
pub open spec fn requested_mute(mute: Seq<Seq<char>>, unmute: Seq<Seq<char>>, key: Seq<char>) -> Option<bool> {
    if mute.contains(key) {
        Some(true)
    } else if unmute.contains(key) {
        Some(false)
    } else {
        None
    }
}

impl MuteActions {
    /// What these actions ask of the session `key`.
    pub fn requested(&self, key: &String) -> (r: Option<bool>)
        ensures
            r == requested_mute(texts(self.mute@), texts(self.unmute@), key@),
    {
        if set_contains(&self.mute, key) {
            Some(true)
        } else if set_contains(&self.unmute, key) {
            Some(false)
        } else {
            None
        }
    }
}

/// The state of a background mute.
#[verifier::ext_equal]
pub struct MuteState {
    /// Session key to owning program, for the sessions muted here and not yet restored.
    pub muted: Map<Seq<char>, Seq<char>>,
    /// Sessions the user unmuted while in the background; left alone until they
    /// come to the front.
    pub overridden: Set<Seq<char>>,
    /// Programs muted here whose sessions ended. Windows hands that mute to the
    /// program's next session, so it is restored or adopted when one appears.
    pub pending: Set<Seq<char>>,
}

/// The programs whose mutes are ours in `st`: those muted here and those
/// pending.
pub open spec fn recorded_owners(st: MuteState) -> Set<Seq<char>> {
    st.muted.values().union(st.pending)
}

/// The keys of the sessions that are live.
pub open spec fn live_keys(sessions: Seq<AudioSession>) -> Set<Seq<char>> {
    Set::new(|k: Seq<char>| exists|i: int| 0 <= i < sessions.len() && #[trigger] sessions[i].key@ == k)
}

/// The owners of the given sessions.
pub open spec fn owners_of(sessions: Seq<AudioSession>) -> Set<Seq<char>> {
    Set::new(
        |o: Seq<char>| exists|i: int| 0 <= i < sessions.len() && session_owner(#[trigger] sessions[i]) == o,
    )
}

/// The owners of the muted sessions whose keys are no longer live.
pub open spec fn ended_owners(muted: Map<Seq<char>, Seq<char>>, live: Set<Seq<char>>) -> Set<
    Seq<char>,
> {
    Set::new(
        |o: Seq<char>| exists|k: Seq<char>| #[trigger] muted.contains_key(k) && !live.contains(k) && muted[k] == o,
    )
}

/// The state once the sessions that ended are forgotten: their mutes become
/// pending for their owners, and their overrides are dropped.
pub open spec fn forget_ended_sessions(st: MuteState, live: Set<Seq<char>>) -> MuteState {
    MuteState {
        muted: st.muted.restrict(live),
        overridden: st.overridden.intersect(live),
        pending: st.pending.union(ended_owners(st.muted, live)),
    }
}

/// The text of the foreground process name and path.
pub open spec fn foreground_view(foreground: Option<(&str, Option<&str>)>) -> Option<
    (Seq<char>, Option<Seq<char>>),
> {
    match foreground {
        Some((name, path)) => Some((name@, opt_text(path))),
        None => None,
    }
}

/// Whether `app` is in the foreground.
pub open spec fn in_foreground(
    app: ManagedApplication,
    foreground: Option<(Seq<char>, Option<Seq<char>>)>,
) -> bool {
    match foreground {
        Some((name, path)) => app_matches(app, name, path),
        None => false,
    }
}

/// Whether `app` asks for the session `s` to be muted now: it mutes in the
/// background, it is the session's program, and it is not in the foreground.
pub open spec fn app_mutes(
    app: ManagedApplication,
    foreground: Option<(Seq<char>, Option<Seq<char>>)>,
    s: AudioSession,
) -> bool {
    &&& app.mute_in_background
    &&& app_matches(app, s.process_name@, opt_string(s.process_path))
    &&& !in_foreground(app, foreground)
}

/// Whether some managed application asks for the session `s` to be muted now.
pub open spec fn wants_muted(
    apps: Seq<ManagedApplication>,
    foreground: Option<(Seq<char>, Option<Seq<char>>)>,
    s: AudioSession,
) -> bool {
    exists|i: int| 0 <= i < apps.len() && app_mutes(#[trigger] apps[i], foreground, s)
}

/// The state of a planning pass over the sessions.
#[verifier::ext_equal]
pub struct PlanState {
    pub muted: Map<Seq<char>, Seq<char>>,
    pub overridden: Set<Seq<char>>,
    pub mute: Seq<Seq<char>>,
    pub unmute: Seq<Seq<char>>,
}

/// One session of a planning pass. A session that should be muted is muted
/// unless the user unmuted it here before or muted it already; a mute added
/// here that the user undid is remembered as an override; a session already
/// muted is adopted when its owner's mute is pending. A session that should not
/// be muted is unmuted when the mute is ours, either recorded here or pending
/// for its owner.
pub open spec fn plan_step(ps: PlanState, pending: Set<Seq<char>>, wants: bool, s: AudioSession) -> PlanState {
    let key = s.key@;
    let owner = session_owner(s);
    if wants {
        if ps.overridden.contains(key) {
            ps
        } else if ps.muted.contains_key(key) {
            if !s.muted {
                PlanState {
                    muted: ps.muted.remove(key),
                    overridden: ps.overridden.insert(key),
                    mute: ps.mute,
                    unmute: ps.unmute,
                }
            } else {
                ps
            }
        } else if !s.muted {
            PlanState {
                muted: ps.muted.insert(key, owner),
                overridden: ps.overridden,
                mute: ps.mute.push(key),
                unmute: ps.unmute,
            }
        } else if pending.contains(owner) {
            PlanState {
                muted: ps.muted.insert(key, owner),
                overridden: ps.overridden,
                mute: ps.mute,
                unmute: ps.unmute,
            }
        } else {
            ps
        }
    } else {
        let ours = ps.muted.contains_key(key);
        PlanState {
            muted: ps.muted.remove(key),
            overridden: ps.overridden.remove(key),
            mute: ps.mute,
            unmute: if (ours || pending.contains(owner)) && s.muted {
                ps.unmute.push(key)
            } else {
                ps.unmute
            },
        }
    }
}

/// A planning pass over `sessions`, in order.
pub open spec fn plan_sessions(
    start: PlanState,
    pending: Set<Seq<char>>,
    apps: Seq<ManagedApplication>,
    foreground: Option<(Seq<char>, Option<Seq<char>>)>,
    sessions: Seq<AudioSession>,
) -> PlanState
    decreases sessions.len(),
{
    if sessions.len() == 0 {
        start
    } else {
        plan_step(
            plan_sessions(start, pending, apps, foreground, sessions.drop_last()),
            pending,
            wants_muted(apps, foreground, sessions.last()),
            sessions.last(),
        )
    }
}

/// What a plan call leaves and answers.
#[verifier::ext_equal]
pub struct Outcome {
    pub state: MuteState,
    pub mute: Seq<Seq<char>>,
    pub unmute: Seq<Seq<char>>,
}

/// The outcome of planning from `st` for the live `sessions`: ended sessions are
/// forgotten first, the sessions are gone through in order, and the pending
/// owners that have a live session are settled.
pub open spec fn planned(
    st: MuteState,
    apps: Seq<ManagedApplication>,
    foreground: Option<(Seq<char>, Option<Seq<char>>)>,
    sessions: Seq<AudioSession>,
) -> Outcome {
    let f = forget_ended_sessions(st, live_keys(sessions));
    let start = PlanState {
        muted: f.muted,
        overridden: f.overridden,
        mute: Seq::empty(),
        unmute: Seq::empty(),
    };
    let r = plan_sessions(start, f.pending, apps, foreground, sessions);
    Outcome {
        state: MuteState {
            muted: r.muted,
            overridden: r.overridden,
            pending: f.pending.difference(owners_of(sessions)),
        },
        mute: r.mute,
        unmute: r.unmute,
    }
}

/// The state of a release pass over the sessions.
#[verifier::ext_equal]
pub struct ReleaseState {
    pub muted: Map<Seq<char>, Seq<char>>,
    pub released: Set<Seq<char>>,
    pub unmute: Seq<Seq<char>>,
}

/// One session of a release pass: a session whose mute is ours is unmuted when
/// it is muted, and its owner is released.
pub open spec fn release_step(rs: ReleaseState, pending: Set<Seq<char>>, s: AudioSession) -> ReleaseState {
    let key = s.key@;
    let owner = session_owner(s);
    let ours = rs.muted.contains_key(key) || pending.contains(owner);
    ReleaseState {
        muted: rs.muted.remove(key),
        released: if ours {
            rs.released.insert(owner)
        } else {
            rs.released
        },
        unmute: if ours && s.muted {
            rs.unmute.push(key)
        } else {
            rs.unmute
        },
    }
}

/// A release pass over `sessions`, in order.
pub open spec fn release_sessions(
    start: ReleaseState,
    pending: Set<Seq<char>>,
    sessions: Seq<AudioSession>,
) -> ReleaseState
    decreases sessions.len(),
{
    if sessions.len() == 0 {
        start
    } else {
        release_step(release_sessions(start, pending, sessions.drop_last()), pending, sessions.last())
    }
}

/// The outcome of releasing every mute added here, for the live `sessions`. The
/// owners that have no live session stay pending, to be restored later.
pub open spec fn released(st: MuteState, sessions: Seq<AudioSession>) -> Outcome {
    let f = forget_ended_sessions(st, live_keys(sessions));
    let start = ReleaseState { muted: f.muted, released: Set::empty(), unmute: Seq::empty() };
    let r = release_sessions(start, f.pending, sessions);
    Outcome {
        state: MuteState {
            muted: r.muted,
            overridden: Set::empty(),
            pending: f.pending.difference(r.released),
        },
        mute: Seq::empty(),
        unmute: r.unmute,
    }
}

/// Tracks the mutes WindowWarden added, so it only ever restores its own.
#[derive(Debug)]
pub struct BackgroundMute {
    muted: Vec<(String, String)>,
    overridden: Vec<String>,
    pending: Vec<String>,
}

impl View for BackgroundMute {
    type V = MuteState;

    closed spec fn view(&self) -> MuteState {
        MuteState {
            muted: text_map(self.muted@),
            overridden: text_set(self.overridden@),
            pending: text_set(self.pending@),
        }
    }
}

impl Default for BackgroundMute {
    fn default() -> (r: Self)
        ensures
            r@.muted == Map::<Seq<char>, Seq<char>>::empty(),
            r@.overridden == Set::<Seq<char>>::empty(),
            r@.pending == Set::<Seq<char>>::empty(),
    {
        let r = BackgroundMute { muted: Vec::new(), overridden: Vec::new(), pending: Vec::new() };
        assert(r@.muted =~= Map::<Seq<char>, Seq<char>>::empty());
        assert(r@.overridden =~= Set::<Seq<char>>::empty());
        assert(r@.pending =~= Set::<Seq<char>>::empty());
        r
    }
}

/// Whether some session has the key `key`.
fn live_contains(sessions: &[AudioSession], key: &String) -> (r: bool)
    ensures
        r == live_keys(sessions@).contains(key@),
{
    let mut i: usize = 0;
    while i < sessions.len()
        invariant
            i <= sessions@.len(),
            forall|j: int| 0 <= j < i ==> sessions@[j].key@ != key@,
        decreases sessions.len() - i,
    {
        if sessions[i].key == *key {
            return true;
        }
        i = i + 1;
    }
    false
}

proof fn lemma_prefix_lacks_key(v: Seq<(String, String)>, i: int)
    requires
        distinct_keys(v),
        0 <= i < v.len(),
    ensures
        distinct_keys(v.take(i)),
        !text_map(v.take(i)).contains_key(v[i].0@),
        text_pairs(v.take(i + 1)) == text_pairs(v.take(i)).push((v[i].0@, v[i].1@)),
{
    let all = keys_of(text_pairs(v));
    let pre = keys_of(text_pairs(v.take(i)));
    assert(pre =~= all.take(i));
    assert(all[i] == v[i].0@);
    if pre.contains(v[i].0@) {
        let j = choose|j: int| 0 <= j < pre.len() && pre[j] == v[i].0@;
        assert(all[j] == pre[j]);
    }
    assert(text_pairs(v.take(i + 1)) =~= text_pairs(v.take(i)).push((v[i].0@, v[i].1@)));
}

proof fn lemma_ended_owners_insert(
    m: Map<Seq<char>, Seq<char>>,
    k: Seq<char>,
    v: Seq<char>,
    live: Set<Seq<char>>,
)
    requires
        !m.contains_key(k),
    ensures
        ended_owners(m.insert(k, v), live) == (if live.contains(k) {
            ended_owners(m, live)
        } else {
            ended_owners(m, live).insert(v)
        }),
{
    let after = ended_owners(m.insert(k, v), live);
    let expected = if live.contains(k) {
        ended_owners(m, live)
    } else {
        ended_owners(m, live).insert(v)
    };
    assert forall|o: Seq<char>| #[trigger] after.contains(o) == expected.contains(o) by {
        if after.contains(o) {
            let k2 = choose|k2: Seq<char>|
                #[trigger] m.insert(k, v).contains_key(k2) && !live.contains(k2) && m.insert(k, v)[k2]
                    == o;
            if k2 != k {
                assert(m.contains_key(k2) && m[k2] == o);
            }
        }
        if ended_owners(m, live).contains(o) {
            let k2 = choose|k2: Seq<char>|
                #[trigger] m.contains_key(k2) && !live.contains(k2) && m[k2] == o;
            assert(m.insert(k, v).contains_key(k2) && m.insert(k, v)[k2] == o);
        }
        if !live.contains(k) && o == v {
            assert(m.insert(k, v).contains_key(k) && m.insert(k, v)[k] == v);
        }
    }
    assert(after =~= expected);
}

/// Forgets the sessions that ended: their mutes become pending for their owners,
/// and their overrides are dropped.
fn forget_ended(
    muted: &mut Vec<(String, String)>,
    overridden: &mut Vec<String>,
    pending: &mut Vec<String>,
    sessions: &[AudioSession],
)
    requires
        distinct_keys(old(muted)@),
        distinct_texts(old(overridden)@),
        distinct_texts(old(pending)@),
    ensures
        distinct_keys(final(muted)@),
        distinct_texts(final(overridden)@),
        distinct_texts(final(pending)@),
        (MuteState {
            muted: text_map(final(muted)@),
            overridden: text_set(final(overridden)@),
            pending: text_set(final(pending)@),
        }) == forget_ended_sessions(
            MuteState {
                muted: text_map(old(muted)@),
                overridden: text_set(old(overridden)@),
                pending: text_set(old(pending)@),
            },
            live_keys(sessions@),
        ),
{
    let ghost live = live_keys(sessions@);
    let ghost m0 = muted@;
    let ghost p0 = text_set(pending@);
    let mut kept: Vec<(String, String)> = Vec::new();
    let mut i: usize = 0;
    proof {
        assert(m0.take(0) =~= Seq::<(String, String)>::empty());
        assert(text_map(kept@) =~= text_map(m0.take(0)).restrict(live));
        assert(ended_owners(text_map(m0.take(0)), live) =~= Set::<Seq<char>>::empty());
        assert(text_set(pending@) =~= p0.union(ended_owners(text_map(m0.take(0)), live)));
    }
    while i < muted.len()
        invariant
            i <= m0.len(),
            muted@ == m0,
            distinct_keys(m0),
            distinct_keys(kept@),
            distinct_texts(pending@),
            text_map(kept@) == text_map(m0.take(i as int)).restrict(live),
            text_set(pending@) == p0.union(ended_owners(text_map(m0.take(i as int)), live)),
            live == live_keys(sessions@),
        decreases m0.len() - i,
    {
        let ghost before = text_map(m0.take(i as int));
        proof {
            lemma_prefix_lacks_key(m0, i as int);
            lemma_assoc_push(text_pairs(m0.take(i as int)), m0[i as int].0@, m0[i as int].1@);
        }
        let ghost after = text_map(m0.take(i + 1));
        assert(after == before.insert(m0[i as int].0@, m0[i as int].1@));
        let key = &muted[i].0;
        let owner = &muted[i].1;
        if live_contains(sessions, key) {
            map_insert(&mut kept, key.clone(), owner.clone());
            assert(text_map(kept@) =~= after.restrict(live));
            proof {
                lemma_ended_owners_insert(before, key@, owner@, live);
            }
        } else {
            set_insert(pending, owner.clone());
            assert(before.restrict(live) =~= after.restrict(live));
            proof {
                lemma_ended_owners_insert(before, key@, owner@, live);
            }
            assert(text_set(pending@) =~= p0.union(ended_owners(after, live)));
        }
        i = i + 1;
    }
    assert(m0.take(m0.len() as int) =~= m0);
    *muted = kept;
    let ghost o0 = overridden@;
    let mut kept_overrides: Vec<String> = Vec::new();
    let mut j: usize = 0;
    proof {
        assert(text_set(kept_overrides@) =~= text_set(o0.take(0)).intersect(live));
    }
    while j < overridden.len()
        invariant
            j <= o0.len(),
            overridden@ == o0,
            distinct_texts(kept_overrides@),
            text_set(kept_overrides@) == text_set(o0.take(j as int)).intersect(live),
            live == live_keys(sessions@),
        decreases o0.len() - j,
    {
        proof {
            lemma_set_prefix(o0, j as int);
        }
        let key = &overridden[j];
        if live_contains(sessions, key) {
            set_insert(&mut kept_overrides, key.clone());
            assert(text_set(kept_overrides@) =~= text_set(o0.take(j + 1)).intersect(live));
        } else {
            assert(text_set(kept_overrides@) =~= text_set(o0.take(j + 1)).intersect(live));
        }
        j = j + 1;
    }
    assert(o0.take(o0.len() as int) =~= o0);
    *overridden = kept_overrides;
}

/// Whether some managed application asks for `session` to be muted now.
fn wants_mute(
    apps: &[ManagedApplication],
    foreground: Option<(&str, Option<&str>)>,
    session: &AudioSession,
) -> (r: bool)
    ensures
        r == wants_muted(apps@, foreground_view(foreground), *session),
{
    let path: Option<&str> = match &session.process_path {
        Some(p) => Some(p.as_str()),
        None => None,
    };
    assert(opt_text(path) == opt_string(session.process_path));
    let mut i: usize = 0;
    while i < apps.len()
        invariant
            i <= apps@.len(),
            opt_text(path) == opt_string(session.process_path),
            forall|j: int|
                0 <= j < i ==> !app_mutes(#[trigger] apps@[j], foreground_view(foreground), *session),
        decreases apps.len() - i,
    {
        let app = &apps[i];
        if app.mute_in_background && app.matches(session.process_name.as_str(), path) {
            let in_front = match foreground {
                Some((name, foreground_path)) => app.matches(name, foreground_path),
                None => false,
            };
            if !in_front {
                assert(app_mutes(apps@[i as int], foreground_view(foreground), *session));
                return true;
            }
        }
        i = i + 1;
    }
    false
}

/// The state that the vectors of a planning pass stand for.
spec fn plan_view(
    muted: Seq<(String, String)>,
    overridden: Seq<String>,
    mute: Seq<String>,
    unmute: Seq<String>,
) -> PlanState {
    PlanState {
        muted: text_map(muted),
        overridden: text_set(overridden),
        mute: texts(mute),
        unmute: texts(unmute),
    }
}

proof fn lemma_owners_prefix(sessions: Seq<AudioSession>, i: int)
    requires
        0 <= i < sessions.len(),
    ensures
        owners_of(sessions.take(i + 1)) == owners_of(sessions.take(i)).insert(
            session_owner(sessions[i]),
        ),
{
    let a = sessions.take(i);
    let b = sessions.take(i + 1);
    assert forall|o: Seq<char>| #[trigger] owners_of(b).contains(o) == owners_of(a).insert(
        session_owner(sessions[i]),
    ).contains(o) by {
        if owners_of(b).contains(o) {
            let j = choose|j: int| 0 <= j < b.len() && session_owner(#[trigger] b[j]) == o;
            if j < i {
                assert(a[j] == b[j]);
            }
        }
        if owners_of(a).contains(o) {
            let j = choose|j: int| 0 <= j < a.len() && session_owner(#[trigger] a[j]) == o;
            assert(b[j] == a[j]);
        }
        assert(b[i] == sessions[i]);
    }
    assert(owners_of(b) =~= owners_of(a).insert(session_owner(sessions[i])));
}

impl BackgroundMute {
    #[verifier::type_invariant]
    spec fn well_formed(self) -> bool {
        &&& distinct_keys(self.muted@)
        &&& distinct_texts(self.overridden@)
        &&& distinct_texts(self.pending@)
    }

    /// A background mute that starts with the given owners' mutes pending, as
    /// recorded before WindowWarden last stopped.
    pub fn with_pending(owners: Vec<String>) -> (r: Self)
        ensures
            r@.muted == Map::<Seq<char>, Seq<char>>::empty(),
            r@.overridden == Set::<Seq<char>>::empty(),
            r@.pending == text_set(owners@),
    {
        let pending = distinct(&owners);
        let r = BackgroundMute { muted: Vec::new(), overridden: Vec::new(), pending };
        assert(r@.muted =~= Map::<Seq<char>, Seq<char>>::empty());
        assert(r@.overridden =~= Set::<Seq<char>>::empty());
        r
    }

    /// The programs whose mutes are ours: those muted here and those pending,
    /// each once, in increasing order.
    pub fn owners(&self) -> (r: Vec<String>)
        ensures
            distinct_texts(r@),
            in_text_order(texts(r@)),
            text_set(r@) == recorded_owners(self@),
    {
        proof {
            use_type_invariant(self);
        }
        let mut r: Vec<String> = Vec::new();
        let mut i: usize = 0;
        assert(self.muted@.take(0) =~= Seq::<(String, String)>::empty());
        assert(text_set(r@) =~= text_map(self.muted@.take(0)).values());
        while i < self.muted.len()
            invariant
                i <= self.muted@.len(),
                distinct_keys(self.muted@),
                distinct_texts(r@),
                text_set(r@) == text_map(self.muted@.take(i as int)).values(),
            decreases self.muted.len() - i,
        {
            let ghost before = text_map(self.muted@.take(i as int));
            proof {
                lemma_prefix_lacks_key(self.muted@, i as int);
                lemma_assoc_push(
                    text_pairs(self.muted@.take(i as int)),
                    self.muted@[i as int].0@,
                    self.muted@[i as int].1@,
                );
            }
            let owner = self.muted[i].1.clone();
            set_insert(&mut r, owner);
            proof {
                let k = self.muted@[i as int].0@;
                let after = before.insert(k, owner@);
                assert(text_map(self.muted@.take(i + 1)) == after);
                assert forall|o: Seq<char>| #[trigger] after.values().contains(o) == before.values().insert(
                    owner@,
                ).contains(o) by {
                    if after.values().contains(o) {
                        let k2 = choose|k2: Seq<char>| #[trigger] after.contains_key(k2) && after[k2] == o;
                        if k2 != k {
                            assert(before.contains_key(k2) && before[k2] == o);
                        }
                    }
                    if before.values().contains(o) {
                        let k2 = choose|k2: Seq<char>| #[trigger] before.contains_key(k2) && before[k2] == o;
                        assert(after.contains_key(k2) && after[k2] == o);
                    }
                    if o == owner@ {
                        assert(after.contains_key(k) && after[k] == o);
                    }
                }
                assert(text_set(r@) =~= after.values());
            }
            i = i + 1;
        }
        assert(self.muted@.take(self.muted@.len() as int) =~= self.muted@);
        let ghost values = text_set(r@);
        let mut j: usize = 0;
        assert(text_set(r@) =~= values.union(text_set(self.pending@.take(0))));
        while j < self.pending.len()
            invariant
                j <= self.pending@.len(),
                distinct_texts(r@),
                text_set(r@) == values.union(text_set(self.pending@.take(j as int))),
            decreases self.pending.len() - j,
        {
            proof {
                lemma_set_prefix(self.pending@, j as int);
            }
            set_insert(&mut r, self.pending[j].clone());
            assert(text_set(r@) =~= values.union(text_set(self.pending@.take(j + 1))));
            j = j + 1;
        }
        assert(self.pending@.take(self.pending@.len() as int) =~= self.pending@);
        sorted_texts(r)
    }

    /// Whether no mute of ours is outstanding.
    pub fn is_idle(&self) -> (r: bool)
        ensures
            r == (self@.muted.dom().is_empty() && self@.pending.is_empty()),
    {
        proof {
            use_type_invariant(self);
            if self.muted@.len() > 0 {
                lemma_assoc_at(text_pairs(self.muted@), 0);
                assert(self@.muted.dom().contains(self.muted@[0].0@));
            } else {
                assert(self@.muted.dom() =~= Set::<Seq<char>>::empty());
            }
            if self.pending@.len() > 0 {
                assert(texts(self.pending@)[0] == self.pending@[0]@);
                assert(self@.pending.contains(self.pending@[0]@));
            } else {
                assert(self@.pending =~= Set::<Seq<char>>::empty());
            }
        }
        self.muted.len() == 0 && self.pending.len() == 0
    }

    /// Decides, for the live `sessions` and the application in the foreground,
    /// which sessions to mute and which to unmute, and records the mutes it adds.
    pub fn plan(
        &mut self,
        apps: &[ManagedApplication],
        foreground: Option<(&str, Option<&str>)>,
        sessions: &[AudioSession],
    ) -> (r: MuteActions)
        ensures
            final(self)@ == planned(old(self)@, apps@, foreground_view(foreground), sessions@).state,
            texts(r.mute@) == planned(old(self)@, apps@, foreground_view(foreground), sessions@).mute,
            texts(r.unmute@) == planned(
                old(self)@,
                apps@,
                foreground_view(foreground),
                sessions@,
            ).unmute,
    {
        proof {
            use_type_invariant(&*self);
        }
        let ghost fg = foreground_view(foreground);
        let mut muted: Vec<(String, String)> = Vec::new();
        let mut overridden: Vec<String> = Vec::new();
        let mut pending: Vec<String> = Vec::new();
        std::mem::swap(&mut muted, &mut self.muted);
        std::mem::swap(&mut overridden, &mut self.overridden);
        std::mem::swap(&mut pending, &mut self.pending);
        forget_ended(&mut muted, &mut overridden, &mut pending, sessions);
        let ghost f = forget_ended_sessions(old(self)@, live_keys(sessions@));
        let ghost start = PlanState {
            muted: f.muted,
            overridden: f.overridden,
            mute: Seq::empty(),
            unmute: Seq::empty(),
        };
        let ghost pend = f.pending;
        let mut mute: Vec<String> = Vec::new();
        let mut unmute: Vec<String> = Vec::new();
        let mut seen: Vec<String> = Vec::new();
        let mut i: usize = 0;
        proof {
            assert(sessions@.take(0) =~= Seq::<AudioSession>::empty());
            assert(plan_view(muted@, overridden@, mute@, unmute@) =~= start);
            assert(text_set(seen@) =~= owners_of(sessions@.take(0)));
        }
        while i < sessions.len()
            invariant
                i <= sessions@.len(),
                fg == foreground_view(foreground),
                distinct_keys(muted@),
                distinct_texts(overridden@),
                distinct_texts(pending@),
                distinct_texts(seen@),
                text_set(pending@) == pend,
                plan_view(muted@, overridden@, mute@, unmute@) == plan_sessions(
                    start,
                    pend,
                    apps@,
                    fg,
                    sessions@.take(i as int),
                ),
                text_set(seen@) == owners_of(sessions@.take(i as int)),
            decreases sessions.len() - i,
        {
            let ghost before = plan_view(muted@, overridden@, mute@, unmute@);
            proof {
                assert(sessions@.take(i + 1).drop_last() =~= sessions@.take(i as int));
                assert(sessions@.take(i + 1).last() == sessions@[i as int]);
                lemma_owners_prefix(sessions@, i as int);
            }
            let session = &sessions[i];
            let owner = session.owner();
            let is_pending = set_contains(&pending, &owner);
            let wants = wants_mute(apps, foreground, session);
            let ghost expected = plan_step(before, pend, wants, *session);
            if wants {
                if set_contains(&overridden, &session.key) {
                } else if map_contains(&muted, &session.key) {
                    if !session.muted {
                        map_remove(&mut muted, &session.key);
                        set_insert(&mut overridden, session.key.clone());
                    }
                } else if !session.muted {
                    let ghost old_mute = mute@;
                    mute.push(session.key.clone());
                    assert(texts(mute@) =~= texts(old_mute).push(session.key@));
                    map_insert(&mut muted, session.key.clone(), owner.clone());
                } else if is_pending {
                    map_insert(&mut muted, session.key.clone(), owner.clone());
                }
            } else {
                set_remove(&mut overridden, &session.key);
                let ours = map_remove(&mut muted, &session.key);
                if (ours || is_pending) && session.muted {
                    let ghost old_unmute = unmute@;
                    unmute.push(session.key.clone());
                    assert(texts(unmute@) =~= texts(old_unmute).push(session.key@));
                }
            }
            assert(plan_view(muted@, overridden@, mute@, unmute@) =~= expected);
            set_insert(&mut seen, owner);
            i = i + 1;
        }
        assert(sessions@.take(sessions@.len() as int) =~= sessions@);
        let mut still_pending: Vec<String> = Vec::new();
        let mut j: usize = 0;
        assert(text_set(still_pending@) =~= text_set(pending@.take(0)).difference(owners_of(sessions@)));
        while j < pending.len()
            invariant
                j <= pending@.len(),
                distinct_texts(still_pending@),
                distinct_texts(seen@),
                text_set(seen@) == owners_of(sessions@),
                text_set(still_pending@) == text_set(pending@.take(j as int)).difference(
                    owners_of(sessions@),
                ),
            decreases pending.len() - j,
        {
            proof {
                lemma_set_prefix(pending@, j as int);
            }
            if !set_contains(&seen, &pending[j]) {
                set_insert(&mut still_pending, pending[j].clone());
            }
            assert(text_set(still_pending@) =~= text_set(pending@.take(j + 1)).difference(
                owners_of(sessions@),
            ));
            j = j + 1;
        }
        assert(pending@.take(pending@.len() as int) =~= pending@);
        self.muted = muted;
        self.overridden = overridden;
        self.pending = still_pending;
        assert(self@ =~= planned(old(self)@, apps@, fg, sessions@).state);
        MuteActions { mute, unmute }
    }
}

impl BackgroundMute {
    /// Restores every mute added here that belongs to a live session, and keeps
    /// the owners without a live session pending, to be restored later.
    pub fn release_all(&mut self, sessions: &[AudioSession]) -> (r: MuteActions)
        ensures
            final(self)@ == released(old(self)@, sessions@).state,
            texts(r.mute@) == released(old(self)@, sessions@).mute,
            texts(r.unmute@) == released(old(self)@, sessions@).unmute,
    {
        proof {
            use_type_invariant(&*self);
        }
        let mut muted: Vec<(String, String)> = Vec::new();
        let mut overridden: Vec<String> = Vec::new();
        let mut pending: Vec<String> = Vec::new();
        std::mem::swap(&mut muted, &mut self.muted);
        std::mem::swap(&mut overridden, &mut self.overridden);
        std::mem::swap(&mut pending, &mut self.pending);
        forget_ended(&mut muted, &mut overridden, &mut pending, sessions);
        let ghost f = forget_ended_sessions(old(self)@, live_keys(sessions@));
        let ghost start = ReleaseState {
            muted: f.muted,
            released: Set::empty(),
            unmute: Seq::empty(),
        };
        let ghost pend = f.pending;
        let mut unmute: Vec<String> = Vec::new();
        let mut released_owners: Vec<String> = Vec::new();
        let mut i: usize = 0;
        proof {
            assert(sessions@.take(0) =~= Seq::<AudioSession>::empty());
            assert(text_set(released_owners@) =~= Set::<Seq<char>>::empty());
        }
        while i < sessions.len()
            invariant
                i <= sessions@.len(),
                distinct_keys(muted@),
                distinct_texts(pending@),
                distinct_texts(released_owners@),
                text_set(pending@) == pend,
                (ReleaseState {
                    muted: text_map(muted@),
                    released: text_set(released_owners@),
                    unmute: texts(unmute@),
                }) == release_sessions(start, pend, sessions@.take(i as int)),
            decreases sessions.len() - i,
        {
            proof {
                assert(sessions@.take(i + 1).drop_last() =~= sessions@.take(i as int));
                assert(sessions@.take(i + 1).last() == sessions@[i as int]);
            }
            let session = &sessions[i];
            let owner = session.owner();
            let removed = map_remove(&mut muted, &session.key);
            let ours = removed || set_contains(&pending, &owner);
            if ours {
                if session.muted {
                    let ghost old_unmute = unmute@;
                    unmute.push(session.key.clone());
                    assert(texts(unmute@) =~= texts(old_unmute).push(session.key@));
                }
                set_insert(&mut released_owners, owner);
            }
            i = i + 1;
        }
        assert(sessions@.take(sessions@.len() as int) =~= sessions@);
        let ghost gone = text_set(released_owners@);
        let mut still_pending: Vec<String> = Vec::new();
        let mut j: usize = 0;
        assert(text_set(still_pending@) =~= text_set(pending@.take(0)).difference(gone));
        while j < pending.len()
            invariant
                j <= pending@.len(),
                distinct_texts(still_pending@),
                text_set(released_owners@) == gone,
                text_set(still_pending@) == text_set(pending@.take(j as int)).difference(gone),
            decreases pending.len() - j,
        {
            proof {
                lemma_set_prefix(pending@, j as int);
            }
            if !set_contains(&released_owners, &pending[j]) {
                set_insert(&mut still_pending, pending[j].clone());
            }
            assert(text_set(still_pending@) =~= text_set(pending@.take(j + 1)).difference(gone));
            j = j + 1;
        }
        assert(pending@.take(pending@.len() as int) =~= pending@);
        self.muted = muted;
        self.overridden = Vec::new();
        self.pending = still_pending;
        assert(self@ =~= released(old(self)@, sessions@).state);
        let mute: Vec<String> = Vec::new();
        assert(texts(mute@) =~= Seq::<Seq<char>>::empty());
        MuteActions { mute, unmute }
    }
}

} // verus!
