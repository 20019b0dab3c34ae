//! The decisions of the cursor lock. The caller reads the foreground window, the
//! identity of its process and the lock rectangle from the system, and clips or
//! releases the cursor as told; the lock decides which managed application is in
//! front and whether the cursor stays locked.
use vstd::prelude::*;
use vstd::string::*;
use crate::identity::{app_matches, opt_text, shown_name, opt_string, LockTarget, ManagedApplication};

verus! {

/// A rectangle on the screen, as Windows gives the cursor clip.
#[derive(Clone, Copy, Debug, PartialEq, Eq, Structural)]
pub struct Rect {
    pub left: i32,
    pub top: i32,
    pub right: i32,
    pub bottom: i32,
}

/// Whether two rectangles are the same: the cursor clip in force is the one wanted.
pub fn same_rect(left: Rect, right: Rect) -> (r: bool)
    ensures
        r == (left == right),
{
    left.left == right.left && left.top == right.top && left.right == right.right && left.bottom
        == right.bottom
}

/// Whether the cursor clip read back (`current`, none when it could not be
/// read) is the one wanted, `expected`. The caller sets the clip only when it is
/// not, and then reads it back to check again.
pub fn clip_in_force(current: Option<Rect>, expected: Rect) -> (r: bool)
    ensures
        r == (current == Some(expected)),
{
    match current {
        Some(actual) => same_rect(actual, expected),
        None => false,
    }
}

/// What the cursor lock is doing.
#[derive(Debug, PartialEq)]
pub enum LockStatus {
    Unlocked,
    /// Locked for the application with this display name.
    Locked(String),
}

/// The first of `apps` that is the process `name` at `path`.
pub open spec fn first_matching(
    apps: Seq<ManagedApplication>,
    name: Seq<char>,
    path: Option<Seq<char>>,
) -> Option<ManagedApplication>
    decreases apps.len(),
{
    if apps.len() == 0 {
        None
    } else if app_matches(apps[0], name, path) {
        Some(apps[0])
    } else {
        first_matching(apps.drop_first(), name, path)
    }
}

/// The managed application a cursor lock is for, given the foreground window:
/// none when there is no foreground window or its process is unknown, else the
/// first that matches the process, when it locks the cursor.
pub open spec fn foreground_application(
    apps: Seq<ManagedApplication>,
    foreground: usize,
    identity: Option<(Seq<char>, Option<Seq<char>>)>,
) -> Option<ManagedApplication> {
    if foreground == 0 {
        None
    } else {
        match identity {
            Some((name, path)) => match first_matching(apps, name, path) {
                Some(app) => if app.lock_cursor {
                    Some(app)
                } else {
                    None
                },
                None => None,
            },
            None => None,
        }
    }
}

/// What the cursor lock knows.
pub struct LockState {
    /// The foreground window the application was chosen for; 0 for none.
    pub foreground: usize,
    /// The managed application in front, if any.
    pub active: Option<ManagedApplication>,
    /// Whether the cursor clip in force was set here.
    pub owns_clip: bool,
}

/// Giving up the cursor clip: the answer tells whether the clip was set here
/// and must be cleared; afterwards none is held, and nothing else changes.
pub open spec fn unlocked(before: LockState, r: bool, after: LockState) -> bool {
    r == before.owns_clip && after == (LockState { owns_clip: false, ..before })
}

/// Settling the lock after trying to clip the cursor (`clipped` tells whether
/// the clip is in force): with an application in front and the clip in force
/// the cursor is locked for it and the clip is held; otherwise the lock gives
/// the clip up, telling whether it was set here.
pub open spec fn settled(before: LockState, clipped: bool, r: (LockStatus, bool), after: LockState) -> bool {
    match before.active {
        Some(app) => if clipped {
            &&& r.0 matches LockStatus::Locked(name) && name@ == shown_name(
                app.identity@,
                opt_string(app.name),
            )
            &&& !r.1
            &&& after == (LockState { owns_clip: true, ..before })
        } else {
            r.0 == LockStatus::Unlocked && unlocked(before, r.1, after)
        },
        None => r.0 == LockStatus::Unlocked && unlocked(before, r.1, after),
    }
}

/// Chooses the managed application in front and decides whether the cursor
/// stays locked.
#[derive(Debug)]
pub struct CursorLock {
    foreground: usize,
    active: Option<ManagedApplication>,
    owns_clip: bool,
}

impl View for CursorLock {
    type V = LockState;

    closed spec fn view(&self) -> LockState {
        LockState { foreground: self.foreground, active: self.active, owns_clip: self.owns_clip }
    }
}

impl Default for CursorLock {
    fn default() -> (r: Self)
        ensures
            r@.foreground == 0,
            r@.active is None,
            !r@.owns_clip,
    {
        CursorLock { foreground: 0, active: None, owns_clip: false }
    }
}

/// The first of `apps` that is the process `name` at `path`, copied.
fn find_application(apps: &[ManagedApplication], name: &str, path: Option<&str>) -> (r: Option<
    ManagedApplication,
>)
    ensures
        r == first_matching(apps@, name@, opt_text(path)),
{
    let mut i: usize = 0;
    assert(apps@.skip(0) =~= apps@);
    while i < apps.len()
        invariant
            i <= apps@.len(),
            first_matching(apps@, name@, opt_text(path)) == first_matching(
                apps@.skip(i as int),
                name@,
                opt_text(path),
            ),
        decreases apps.len() - i,
    {
        proof {
            assert(apps@.skip(i as int)[0] == apps@[i as int]);
            assert(apps@.skip(i as int).drop_first() =~= apps@.skip(i + 1));
        }
        if apps[i].matches(name, path) {
            return Some(apps[i].clone());
        }
        i = i + 1;
    }
    None
}

impl CursorLock {
    /// Whether the foreground window changed since the application was chosen,
    /// so that it must be chosen again.
    pub fn foreground_changed(&self, foreground: usize) -> (r: bool)
        ensures
            r == (foreground != self@.foreground),
    {
        foreground != self.foreground
    }

    /// Chooses the application for the foreground window `foreground` (0 for
    /// none), whose process is `identity` (its name and, when known, its path).
    pub fn select(
        &mut self,
        foreground: usize,
        identity: Option<(&str, Option<&str>)>,
        apps: &[ManagedApplication],
    )
        ensures
            final(self)@.foreground == foreground,
            final(self)@.active == foreground_application(
                apps@,
                foreground,
                match identity {
                    Some((name, path)) => Some((name@, opt_text(path))),
                    None => None,
                },
            ),
            final(self)@.owns_clip == old(self)@.owns_clip,
    {
        self.foreground = foreground;
        self.active = if foreground == 0 {
            None
        } else {
            match identity {
                Some((name, path)) => match find_application(apps, name, path) {
                    Some(app) => if app.lock_cursor {
                        Some(app)
                    } else {
                        None
                    },
                    None => None,
                },
                None => None,
            }
        };
    }

    /// The boundary to lock the cursor in, when a managed application that locks
    /// the cursor is in front.
    pub fn lock_target(&self) -> (r: Option<LockTarget>)
        ensures
            r == match self@.active {
                Some(app) => Some(app.target),
                None => None::<LockTarget>,
            },
    {
        match &self.active {
            Some(app) => Some(app.target),
            None => None,
        }
    }

    /// Gives up the cursor clip; tells whether it was set here and must be cleared.
    pub fn unlock(&mut self) -> (r: bool)
        ensures
            unlocked(old(self)@, r, final(self)@),
    {
        let owned = self.owns_clip;
        self.owns_clip = false;
        owned
    }

    /// Settles the lock once the caller tried to clip the cursor to the lock
    /// target (`clipped` tells whether the clip is in force). With an application
    /// in front and the clip in force the cursor is locked for it; otherwise it is
    /// unlocked. The second result tells whether a clip set here must be cleared.
    pub fn settle(&mut self, clipped: bool) -> (r: (LockStatus, bool))
        ensures
            settled(old(self)@, clipped, r, final(self)@),
    {
        match &self.active {
            Some(app) if clipped => {
                let name = String::from_str(app.display_name());
                self.owns_clip = true;
                (LockStatus::Locked(name), false)
            },
            _ => {
                let release = self.unlock();
                (LockStatus::Unlocked, release)
            },
        }
    }
}

/// The clip is cleared once: after the lock gives up its clip, giving it up
/// again clears nothing.
pub proof fn law_unlock_clears_once(a: LockState, r1: bool, b: LockState, r2: bool, c: LockState)
    requires
        unlocked(a, r1, b),
        unlocked(b, r2, c),
    ensures
        r1 == a.owns_clip,
        !r2,
        c == b,
{
}

/// The lock holds a clip exactly when it has just locked the cursor: settling
/// leaves a clip held if and only if it answers `Locked`, so a lock that never
/// answered `Locked` clears no clip, not even one another program set.
pub proof fn law_clip_held_only_when_locked(a: LockState, clipped: bool, r: (LockStatus, bool), b: LockState)
    requires
        settled(a, clipped, r, b),
    ensures
        b.owns_clip <==> (r.0 is Locked),
        r.1 ==> a.owns_clip && !b.owns_clip,
{
}

proof fn lemma_first_matching(apps: Seq<ManagedApplication>, name: Seq<char>, path: Option<Seq<char>>)
    ensures
        match first_matching(apps, name, path) {
            Some(app) => exists|i: int|
                0 <= i < apps.len() && #[trigger] apps[i] == app && app_matches(app, name, path)
                    && forall|j: int| 0 <= j < i ==> !app_matches(#[trigger] apps[j], name, path),
            None => forall|j: int| 0 <= j < apps.len() ==> !app_matches(#[trigger] apps[j], name, path),
        },
    decreases apps.len(),
{
    if apps.len() > 0 {
        let rest = apps.drop_first();
        lemma_first_matching(rest, name, path);
        if !app_matches(apps[0], name, path) {
            match first_matching(rest, name, path) {
                Some(app) => {
                    let i = choose|i: int|
                        0 <= i < rest.len() && #[trigger] rest[i] == app && app_matches(app, name, path)
                            && forall|j: int| 0 <= j < i ==> !app_matches(#[trigger] rest[j], name, path);
                    assert(apps[i + 1] == app);
                    assert forall|j: int| 0 <= j < i + 1 implies !app_matches(#[trigger] apps[j], name, path) by {
                        if j > 0 {
                            assert(apps[j] == rest[j - 1]);
                        }
                    }
                },
                None => {
                    assert forall|j: int| 0 <= j < apps.len() implies !app_matches(#[trigger] apps[j], name, path) by {
                        if j > 0 {
                            assert(apps[j] == rest[j - 1]);
                        }
                    }
                },
            }
        } else {
            assert(apps[0] == first_matching(apps, name, path)->0);
        }
    }
}

/// The cursor is locked only for an application that asked for it: the
/// application chosen for the foreground window is the first managed
/// application that is its process, and it is chosen only when it locks the
/// cursor. When that first match locks the cursor, it is chosen.
pub proof fn law_lock_only_for_lock_cursor(
    apps: Seq<ManagedApplication>,
    foreground: usize,
    identity: Option<(Seq<char>, Option<Seq<char>>)>,
)
    ensures
        foreground_application(apps, foreground, identity) matches Some(app) ==> {
            &&& app.lock_cursor
            &&& foreground != 0
            &&& identity matches Some((name, path)) && exists|i: int|
                0 <= i < apps.len() && #[trigger] apps[i] == app && app_matches(app, name, path)
                    && forall|j: int| 0 <= j < i ==> !app_matches(#[trigger] apps[j], name, path)
        },
        foreground != 0 ==> match identity {
            Some((name, path)) => forall|i: int|
                0 <= i < apps.len() && app_matches(#[trigger] apps[i], name, path) && apps[i].lock_cursor
                    && (forall|j: int| 0 <= j < i ==> !app_matches(#[trigger] apps[j], name, path))
                    ==> foreground_application(apps, foreground, identity) == Some(apps[i]),
            None => foreground_application(apps, foreground, identity) is None,
        },
        foreground == 0 ==> foreground_application(apps, foreground, identity) is None,
{
    if let Some((name, path)) = identity {
        lemma_first_matching(apps, name, path);
        assert forall|i: int|
            0 <= i < apps.len() && app_matches(#[trigger] apps[i], name, path) && apps[i].lock_cursor
                && (forall|j: int| 0 <= j < i ==> !app_matches(#[trigger] apps[j], name, path))
                implies first_matching(apps, name, path) == Some(apps[i]) by {
            match first_matching(apps, name, path) {
                Some(app) => {
                    let k = choose|k: int|
                        0 <= k < apps.len() && #[trigger] apps[k] == app && app_matches(app, name, path)
                            && forall|j: int| 0 <= j < k ==> !app_matches(#[trigger] apps[j], name, path);
                    if k < i {
                        assert(!app_matches(apps[k], name, path));
                    } else if k > i {
                        assert(!app_matches(apps[i], name, path));
                    }
                },
                None => {
                    assert(!app_matches(apps[i], name, path));
                },
            }
        }
    }
}

} // verus!
