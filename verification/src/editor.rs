//! Checking what the user entered for a managed application.
use vstd::prelude::*;
use crate::identity::{
    law_same_identity_by_kind, lemma_ascii_normalized_path, looks_like_path, with_backslashes, normalized_path, opt_string, same_identities,
    LockTarget, ManagedApplication,
};
use crate::text::{ascii_lowered, is_ascii_text, chars_of, string_from_chars, sub_chars, trim, trim_bounds};

verus! {

/// Why an entry cannot be saved.
#[derive(Clone, Copy, Debug, PartialEq, Eq, Structural)]
pub enum EntryProblem {
    /// No identity was entered.
    IdentityEmpty,
    /// Another managed application has the same identity.
    IdentityDuplicate,
}

/// `s` without leading double quotes.
pub open spec fn strip_quotes_start(s: Seq<char>) -> Seq<char>
    decreases s.len(),
{
    if s.len() > 0 && s[0] == '"' {
        strip_quotes_start(s.drop_first())
    } else {
        s
    }
}

/// `s` without trailing double quotes.
pub open spec fn strip_quotes_end(s: Seq<char>) -> Seq<char>
    decreases s.len(),
{
    if s.len() > 0 && s.last() == '"' {
        strip_quotes_end(s.drop_last())
    } else {
        s
    }
}

/// The identity an entered text stands for: trimmed, then without surrounding
/// double quotes, as a path copied from Explorer comes.
pub open spec fn entered_identity(raw: Seq<char>) -> Seq<char> {
    strip_quotes_end(strip_quotes_start(trim(raw)))
}

/// The display name an entered text stands for: none when it is blank.
pub open spec fn entered_name(raw: Seq<char>) -> Option<Seq<char>> {
    if trim(raw).len() == 0 {
        None
    } else {
        Some(trim(raw))
    }
}

/// Whether an application other than the one at `editing` has the identity `identity`.
pub open spec fn duplicates(
    apps: Seq<ManagedApplication>,
    editing: Option<usize>,
    identity: Seq<char>,
) -> bool {
    exists|i: int|
        0 <= i < apps.len() && editing != Some(i as usize) && same_identities(
            #[trigger] apps[i].identity@,
            identity,
        )
}

/// What keeps an entry from being saved, if anything: a blank identity, or one
/// that another application already has.
pub open spec fn entry_problem(
    apps: Seq<ManagedApplication>,
    editing: Option<usize>,
    identity: Seq<char>,
) -> Option<EntryProblem> {
    if entered_identity(identity).len() == 0 {
        Some(EntryProblem::IdentityEmpty)
    } else if duplicates(apps, editing, entered_identity(identity)) {
        Some(EntryProblem::IdentityDuplicate)
    } else {
        None
    }
}

/// Whether `app` is the application entered as `identity` and `name`, with lock
/// target `target` and the features chosen.
pub open spec fn is_entry(
    app: ManagedApplication,
    identity: Seq<char>,
    name: Seq<char>,
    target: LockTarget,
    lock_cursor: bool,
    mute_in_background: bool,
) -> bool {
    &&& app.identity@ == entered_identity(identity)
    &&& opt_string(app.name) == entered_name(name)
    &&& app.target == target
    &&& app.lock_cursor == lock_cursor
    &&& app.mute_in_background == mute_in_background
}

proof fn lemma_strip_start_skip(s: Seq<char>, i: int, end: int)
    requires
        0 <= i < end <= s.len(),
        s[i] == '"',
    ensures
        strip_quotes_start(s.subrange(i, end)) == strip_quotes_start(s.subrange(i + 1, end)),
{
    assert(s.subrange(i, end).drop_first() =~= s.subrange(i + 1, end));
}

proof fn lemma_strip_end_skip(s: Seq<char>, start: int, j: int)
    requires
        0 <= start < j <= s.len(),
        s[j - 1] == '"',
    ensures
        strip_quotes_end(s.subrange(start, j)) == strip_quotes_end(s.subrange(start, j - 1)),
{
    assert(s.subrange(start, j).drop_last() =~= s.subrange(start, j - 1));
}

/// The identity in an entered text.
fn identity_text(raw: &str) -> (r: Vec<char>)
    ensures
        r@ == entered_identity(raw@),
{
    let v = chars_of(raw);
    let (start, end) = trim_bounds(v.as_slice());
    let ghost t = v@.subrange(start as int, end as int);
    let mut s = start;
    assert(v@.subrange(start as int, end as int) == t);
    while s < end && v[s] == '"'
        invariant
            start <= s <= end <= v@.len(),
            t == v@.subrange(start as int, end as int),
            strip_quotes_start(t) == strip_quotes_start(v@.subrange(s as int, end as int)),
        decreases end - s,
    {
        proof {
            lemma_strip_start_skip(v@, s as int, end as int);
        }
        s = s + 1;
    }
    proof {
        let rest = v@.subrange(s as int, end as int);
        if rest.len() > 0 {
            assert(rest[0] == v@[s as int]);
        }
        assert(strip_quotes_start(rest) == rest);
    }
    let mut e = end;
    while e > s && v[e - 1] == '"'
        invariant
            start <= s <= e <= end <= v@.len(),
            strip_quotes_end(v@.subrange(s as int, end as int)) == strip_quotes_end(
                v@.subrange(s as int, e as int),
            ),
        decreases e - s,
    {
        proof {
            lemma_strip_end_skip(v@, s as int, e as int);
        }
        e = e - 1;
    }
    proof {
        let rest = v@.subrange(s as int, e as int);
        if rest.len() > 0 {
            assert(rest.last() == v@[e - 1]);
        }
        assert(strip_quotes_end(rest) == rest);
    }
    sub_chars(v.as_slice(), s, e)
}

/// Builds the application the user entered: identity `identity`, display name
/// `name`, lock target `target` and the chosen features. `editing` is the row of
/// the application being edited, if any, which may keep its own identity.
pub fn prepare_entry(
    apps: &[ManagedApplication],
    editing: Option<usize>,
    identity: &str,
    name: &str,
    target: LockTarget,
    lock_cursor: bool,
    mute_in_background: bool,
) -> (r: Result<ManagedApplication, EntryProblem>)
    ensures
        match entry_problem(apps@, editing, identity@) {
            Some(problem) => r == Err::<ManagedApplication, EntryProblem>(problem),
            None => r matches Ok(app) && is_entry(
                app,
                identity@,
                name@,
                target,
                lock_cursor,
                mute_in_background,
            ),
        },
{
    let id_chars = identity_text(identity);
    if id_chars.len() == 0 {
        return Err(EntryProblem::IdentityEmpty);
    }
    let id = string_from_chars(id_chars.as_slice());
    let mut i: usize = 0;
    while i < apps.len()
        invariant
            i <= apps@.len(),
            id@ == entered_identity(identity@),
            id@.len() > 0,
            forall|j: int|
                0 <= j < i ==> !(editing != Some(j as usize) && same_identities(
                    #[trigger] apps@[j].identity@,
                    id@,
                )),
        decreases apps.len() - i,
    {
        let other = match editing {
            Some(row) => row != i,
            None => true,
        };
        if other && apps[i].same_identity(id.as_str()) {
            proof {
                crate::identity::law_same_identity_symmetric(apps@[i as int].identity@, id@);
            }
            return Err(EntryProblem::IdentityDuplicate);
        }
        proof {
            crate::identity::law_same_identity_symmetric(apps@[i as int].identity@, id@);
        }
        i = i + 1;
    }
    let n = chars_of(name);
    let (start, end) = trim_bounds(n.as_slice());
    let display = if start < end {
        let kept = sub_chars(n.as_slice(), start, end);
        Some(string_from_chars(kept.as_slice()))
    } else {
        None
    };
    Ok(ManagedApplication { identity: id, target, name: display, lock_cursor, mute_in_background })
}

/// An entered path is a duplicate only of a managed path with the same
/// compared path form: when its form differs from that of every managed path,
/// it is accepted, whatever the file names.
pub proof fn law_new_path_is_not_a_duplicate(
    apps: Seq<ManagedApplication>,
    editing: Option<usize>,
    identity: Seq<char>,
)
    requires
        entered_identity(identity).len() > 0,
        looks_like_path(entered_identity(identity)),
        forall|i: int|
            0 <= i < apps.len() && looks_like_path((#[trigger] apps[i]).identity@) ==> normalized_path(
                apps[i].identity@,
            ) != normalized_path(entered_identity(identity)),
    ensures
        entry_problem(apps, editing, identity) is None,
{
    assert forall|i: int| 0 <= i < apps.len() implies !same_identities(
        #[trigger] apps[i].identity@,
        entered_identity(identity),
    ) by {
        law_same_identity_by_kind(apps[i].identity@, entered_identity(identity));
    }
}

/// For ASCII paths: an entered path is accepted when no managed ASCII path is
/// the same trimmed text but for the case of letters and `/` against `\`, so a
/// path in another folder is a different application even with the same file
/// name.
pub proof fn law_new_ascii_path_is_not_a_duplicate(
    apps: Seq<ManagedApplication>,
    editing: Option<usize>,
    identity: Seq<char>,
)
    requires
        entered_identity(identity).len() > 0,
        looks_like_path(entered_identity(identity)),
        is_ascii_text(entered_identity(identity)),
        forall|i: int|
            0 <= i < apps.len() && looks_like_path((#[trigger] apps[i]).identity@) ==> is_ascii_text(
                apps[i].identity@,
            ) && ascii_lowered(with_backslashes(trim(apps[i].identity@))) != ascii_lowered(
                with_backslashes(trim(entered_identity(identity))),
            ),
    ensures
        entry_problem(apps, editing, identity) is None,
{
    lemma_ascii_normalized_path(entered_identity(identity));
    assert forall|i: int|
        0 <= i < apps.len() && looks_like_path((#[trigger] apps[i]).identity@) implies normalized_path(
            apps[i].identity@,
        ) != normalized_path(entered_identity(identity)) by {
        lemma_ascii_normalized_path(apps[i].identity@);
    }
    law_new_path_is_not_a_duplicate(apps, editing, identity);
}

} // verus!
