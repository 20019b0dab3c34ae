//! Managed applications and how an application's identity is matched against a
//! running process.
//!
//! An identity that contains `\`, `/` or `:` is a path; any other identity is a
//! process name. Paths compare trimmed, with `/` read as `\`, and without regard
//! to case. Names compare by their last path component, without regard to case
//! and without a trailing `.exe`.
use vstd::prelude::*;
use vstd::string::*;
use crate::text::{trim_end, trim_start, ascii_lower_char, ascii_lowered, chars_of, is_ascii_text, is_white_space, lemma_ascii_lowered_facts, lemma_trim_map, lower_text, string_from_chars, sub_chars, to_lowercase, trim, trim_bounds, trimmed};

verus! {

/// The boundary a cursor lock keeps the cursor inside.
#[derive(Clone, Copy, Debug, Default, PartialEq, Eq, Structural)]
pub enum LockTarget {
    /// The client area of the foreground application window.
    #[default]
    Window,
    /// The monitor that shows the foreground application window.
    Monitor,
}

/// The position of a lock target in the list of choices.
pub open spec fn target_position(target: LockTarget) -> i32 {
    match target {
        LockTarget::Window => 0,
        LockTarget::Monitor => 1,
    }
}

/// The lock target at a position in the list of choices; any other position
/// selects the window.
pub open spec fn target_at(index: i32) -> LockTarget {
    if index == 1 {
        LockTarget::Monitor
    } else {
        LockTarget::Window
    }
}

impl LockTarget {
    /// The position of this target in the list of choices.
    pub fn index(self) -> (r: i32)
        ensures
            r == target_position(self),
    {
        match self {
            LockTarget::Window => 0,
            LockTarget::Monitor => 1,
        }
    }

    /// The target at a position in the list of choices.
    pub fn from_index(index: i32) -> (r: Self)
        ensures
            r == target_at(index),
    {
        if index == 1 {
            LockTarget::Monitor
        } else {
            LockTarget::Window
        }
    }
}

/// A lock target read back from its position is the same target.
pub proof fn law_target_index_round_trip(target: LockTarget)
    ensures
        target_at(target_position(target)) == target,
{
}

/// An application that WindowWarden applies features to.
#[derive(Debug)]
pub struct ManagedApplication {
    /// An executable path or a process name.
    pub identity: String,
    pub target: LockTarget,
    /// A name to show instead of the identity.
    pub name: Option<String>,
    pub lock_cursor: bool,
    pub mute_in_background: bool,
}

impl Clone for ManagedApplication {
    fn clone(&self) -> (r: Self)
        ensures
            r == *self,
    {
        let name = match &self.name {
            Some(name) => Some(name.clone()),
            None => None,
        };
        ManagedApplication {
            identity: self.identity.clone(),
            target: self.target,
            name,
            lock_cursor: self.lock_cursor,
            mute_in_background: self.mute_in_background,
        }
    }
}

/// The text of an optional string slice.
pub open spec fn opt_text(o: Option<&str>) -> Option<Seq<char>> {
    match o {
        Some(s) => Some(s@),
        None => None,
    }
}

/// The text of an optional string.
pub open spec fn opt_string(o: Option<String>) -> Option<Seq<char>> {
    match o {
        Some(s) => Some(s@),
        None => None,
    }
}

/// `\` and `/` separate path components.
pub open spec fn is_separator(c: char) -> bool {
    c == '\\' || c == '/'
}

/// An identity is a path when it holds a separator or a `:`.
pub open spec fn looks_like_path(s: Seq<char>) -> bool {
    exists|i: int| 0 <= i < s.len() && (is_separator(#[trigger] s[i]) || s[i] == ':')
}

/// `s` with every `/` replaced by `\`.
pub open spec fn with_backslashes(s: Seq<char>) -> Seq<char> {
    s.map_values(|c: char| if c == '/' { '\\' } else { c })
}

/// The form in which two paths are compared: trimmed, with `/` read as `\`,
/// in lower case as `str::to_lowercase` gives it (which is the same after the
/// ASCII capitals are made small first).
pub open spec fn normalized_path(s: Seq<char>) -> Seq<char> {
    lower_text(ascii_lowered(with_backslashes(trim(s))))
}

/// The part of `s` after its last separator (all of `s` when it has none).
pub open spec fn after_last_separator(s: Seq<char>) -> Seq<char>
    decreases s.len(),
{
    if s.len() == 0 {
        s
    } else if is_separator(s.last()) {
        Seq::empty()
    } else {
        after_last_separator(s.drop_last()).push(s.last())
    }
}

/// The text `.exe`.
pub open spec fn exe_suffix() -> Seq<char> {
    seq!['.', 'e', 'x', 'e']
}

/// `s` without a trailing `.exe`.
pub open spec fn without_exe(s: Seq<char>) -> Seq<char> {
    if s.len() >= 4 && s.subrange(s.len() - 4, s.len() as int) == exe_suffix() {
        s.subrange(0, s.len() - 4)
    } else {
        s
    }
}

/// The form in which two process names are compared: the trimmed last path
/// component, in lower case (as for paths), without a trailing `.exe`.
pub open spec fn normalized_name(s: Seq<char>) -> Seq<char> {
    without_exe(lower_text(ascii_lowered(after_last_separator(trim(s)))))
}

proof fn lemma_after_last_separator_map(s: Seq<char>, f: spec_fn(char) -> char)
    requires
        forall|c: char| #[trigger] is_separator(f(c)) == is_separator(c),
    ensures
        after_last_separator(s.map_values(f)) == after_last_separator(s).map_values(f),
    decreases s.len(),
{
    let m = s.map_values(f);
    if s.len() > 0 {
        assert(m.last() == f(s.last()));
        assert(m.drop_last() =~= s.drop_last().map_values(f));
        lemma_after_last_separator_map(s.drop_last(), f);
        if !is_separator(s.last()) {
            assert(after_last_separator(s.drop_last()).push(s.last()).map_values(f)
                =~= after_last_separator(s.drop_last()).map_values(f).push(f(s.last())));
        } else {
            assert(Seq::<char>::empty().map_values(f) =~= Seq::<char>::empty());
        }
    }
}

proof fn lemma_ascii_lower_char_kind(c: char)
    ensures
        is_white_space(ascii_lower_char(c)) == is_white_space(c),
        is_separator(ascii_lower_char(c)) == is_separator(c),
        is_white_space(if c == '/' { '\\' } else { c }) == is_white_space(c),
{
    if 'A' <= c <= 'Z' {
        assert((((c as u32) + 32) as char) as u32 == (c as u32) + 32);
    }
}

/// Process names equal but for the case of ASCII letters compare as the same
/// name.
pub proof fn law_name_ignores_ascii_case(a: Seq<char>, b: Seq<char>)
    requires
        ascii_lowered(a) == ascii_lowered(b),
    ensures
        normalized_name(a) == normalized_name(b),
{
    let f = |c: char| ascii_lower_char(c);
    assert forall|c: char| #[trigger] is_white_space(f(c)) == is_white_space(c) by {
        lemma_ascii_lower_char_kind(c);
    }
    assert forall|c: char| #[trigger] is_separator(f(c)) == is_separator(c) by {
        lemma_ascii_lower_char_kind(c);
    }
    lemma_trim_map(a, f);
    lemma_trim_map(b, f);
    lemma_after_last_separator_map(trim(a), f);
    lemma_after_last_separator_map(trim(b), f);
    assert(ascii_lowered(a) =~= a.map_values(f));
    assert(ascii_lowered(b) =~= b.map_values(f));
    assert(ascii_lowered(after_last_separator(trim(a))) =~= after_last_separator(trim(a)).map_values(f));
    assert(ascii_lowered(after_last_separator(trim(b))) =~= after_last_separator(trim(b)).map_values(f));
}

/// Paths equal but for the case of ASCII letters and `/` against `\` compare
/// as the same path.
pub proof fn law_path_ignores_ascii_case_and_slashes(a: Seq<char>, b: Seq<char>)
    requires
        ascii_lowered(with_backslashes(a)) == ascii_lowered(with_backslashes(b)),
    ensures
        normalized_path(a) == normalized_path(b),
{
    let g = |c: char| ascii_lower_char(if c == '/' { '\\' } else { c });
    assert forall|c: char| #[trigger] is_white_space(g(c)) == is_white_space(c) by {
        lemma_ascii_lower_char_kind(c);
        lemma_ascii_lower_char_kind(if c == '/' { '\\' } else { c });
    }
    lemma_trim_map(a, g);
    lemma_trim_map(b, g);
    assert(ascii_lowered(with_backslashes(a)) =~= a.map_values(g));
    assert(ascii_lowered(with_backslashes(b)) =~= b.map_values(g));
    assert(ascii_lowered(with_backslashes(trim(a))) =~= trim(a).map_values(g));
    assert(ascii_lowered(with_backslashes(trim(b))) =~= trim(b).map_values(g));
}

proof fn lemma_trim_keeps_ascii(s: Seq<char>)
    requires
        is_ascii_text(s),
    ensures
        is_ascii_text(trim(s)),
{
    lemma_trim_start_keeps_ascii(s);
    lemma_trim_end_keeps_ascii(trim_start(s));
}

proof fn lemma_trim_start_keeps_ascii(s: Seq<char>)
    requires
        is_ascii_text(s),
    ensures
        is_ascii_text(trim_start(s)),
    decreases s.len(),
{
    if s.len() > 0 && is_white_space(s[0]) {
        assert forall|i: int| 0 <= i < s.drop_first().len() implies (#[trigger] s.drop_first()[i] as u32) < 128 by {
            assert(s.drop_first()[i] == s[i + 1]);
        }
        lemma_trim_start_keeps_ascii(s.drop_first());
    }
}

proof fn lemma_trim_end_keeps_ascii(s: Seq<char>)
    requires
        is_ascii_text(s),
    ensures
        is_ascii_text(trim_end(s)),
    decreases s.len(),
{
    if s.len() > 0 && is_white_space(s.last()) {
        assert forall|i: int| 0 <= i < s.drop_last().len() implies (#[trigger] s.drop_last()[i] as u32) < 128 by {
            assert(s.drop_last()[i] == s[i]);
        }
        lemma_trim_end_keeps_ascii(s.drop_last());
    }
}

/// For an ASCII path, the compared form is the trimmed path with `/` read as
/// `\` and its capitals made small.
pub(crate) proof fn lemma_ascii_normalized_path(s: Seq<char>)
    requires
        is_ascii_text(s),
    ensures
        normalized_path(s) == ascii_lowered(with_backslashes(trim(s))),
{
    lemma_trim_keeps_ascii(s);
    let w = with_backslashes(trim(s));
    assert forall|i: int| 0 <= i < w.len() implies (#[trigger] w[i] as u32) < 128 by {
        assert((trim(s)[i] as u32) < 128);
    }
    lemma_ascii_lowered_facts(w);
    lemma_ascii_lowered_facts(ascii_lowered(w));
}

/// Whether an application with identity `identity` is the process named
/// `process_name`, whose executable is at `path` when that is known.
pub open spec fn identity_matches(
    identity: Seq<char>,
    process_name: Seq<char>,
    path: Option<Seq<char>>,
) -> bool {
    if looks_like_path(identity) {
        match path {
            Some(p) => normalized_path(identity) == normalized_path(p),
            None => normalized_name(identity) == normalized_name(process_name),
        }
    } else {
        normalized_name(identity) == normalized_name(process_name)
    }
}

/// Whether two identities name the same application: both paths and equal as
/// paths, or both names and equal as names.
pub open spec fn same_identities(a: Seq<char>, b: Seq<char>) -> bool {
    if looks_like_path(a) && looks_like_path(b) {
        normalized_path(a) == normalized_path(b)
    } else if !looks_like_path(a) && !looks_like_path(b) {
        normalized_name(a) == normalized_name(b)
    } else {
        false
    }
}

/// Two identities name the same application whichever is asked about the other.
pub proof fn law_same_identity_symmetric(a: Seq<char>, b: Seq<char>)
    ensures
        same_identities(a, b) == same_identities(b, a),
{
}

/// The name shown for an application: its trimmed display name, unless that is
/// missing or blank, in which case its identity.
pub open spec fn shown_name(identity: Seq<char>, name: Option<Seq<char>>) -> Seq<char> {
    match name {
        Some(n) => if trim(n).len() > 0 {
            trim(n)
        } else {
            identity
        },
        None => identity,
    }
}

/// Whether the application `app` is the process `process_name` at `path`.
pub open spec fn app_matches(
    app: ManagedApplication,
    process_name: Seq<char>,
    path: Option<Seq<char>>,
) -> bool {
    identity_matches(app.identity@, process_name, path)
}

/// Whether `value` is a path rather than a process name.
fn is_path(value: &str) -> (r: bool)
    ensures
        r == looks_like_path(value@),
{
    let v = chars_of(value);
    let mut i: usize = 0;
    while i < v.len()
        invariant
            i <= v@.len(),
            v@ == value@,
            forall|j: int| 0 <= j < i ==> !(is_separator(#[trigger] v@[j]) || v@[j] == ':'),
        decreases v.len() - i,
    {
        let c = v[i];
        if c == '\\' || c == '/' || c == ':' {
            return true;
        }
        i = i + 1;
    }
    false
}

/// The form of a path that paths are compared in.
pub(crate) fn normalize_path(value: &str) -> (r: String)
    ensures
        r@ == normalized_path(value@),
{
    let v = chars_of(value);
    let (start, end) = trim_bounds(v.as_slice());
    let ghost t = v@.subrange(start as int, end as int);
    let mut w: Vec<char> = Vec::new();
    let mut i = start;
    while i < end
        invariant
            start <= i <= end <= v@.len(),
            t == v@.subrange(start as int, end as int),
            w@ == with_backslashes(t).take(i - start),
        decreases end - i,
    {
        let c = v[i];
        if c == '/' {
            w.push('\\');
        } else {
            w.push(c);
        }
        i = i + 1;
        assert(w@ =~= with_backslashes(t).take(i - start));
    }
    assert(w@ =~= with_backslashes(t));
    let joined = string_from_chars(w.as_slice());
    let r = to_lowercase(joined.as_str());
    proof {
        lemma_ascii_lowered_facts(joined@);
    }
    r
}

proof fn lemma_after_last_separator_step(s: Seq<char>, k: int)
    requires
        0 < k <= s.len(),
        !is_separator(s[k - 1]),
    ensures
        after_last_separator(s.take(k)) == after_last_separator(s.take(k - 1)).push(s[k - 1]),
{
    assert(s.take(k).drop_last() =~= s.take(k - 1));
}

/// The form of a process name that names are compared in.
pub(crate) fn normalize_name(value: &str) -> (r: String)
    ensures
        r@ == normalized_name(value@),
{
    let v = chars_of(value);
    let (start, end) = trim_bounds(v.as_slice());
    let ghost t = v@.subrange(start as int, end as int);
    let mut k = end;
    assert(t.take(end - start) =~= t);
    while k > start && !(v[k - 1] == '\\' || v[k - 1] == '/')
        invariant
            start <= k <= end <= v@.len(),
            t == v@.subrange(start as int, end as int),
            after_last_separator(t) == after_last_separator(t.take(k - start)) + t.subrange(
                k - start,
                t.len() as int,
            ),
        decreases k - start,
    {
        proof {
            lemma_after_last_separator_step(t, k - start);
            assert(t.subrange(k - start - 1, t.len() as int) =~= seq![t[k - start - 1]]
                + t.subrange(k - start, t.len() as int));
            assert(after_last_separator(t.take(k - start - 1)).push(t[k - start - 1])
                + t.subrange(k - start, t.len() as int) =~= after_last_separator(
                t.take(k - start - 1),
            ) + t.subrange(k - start - 1, t.len() as int));
        }
        k = k - 1;
    }
    proof {
        let head = t.take(k - start);
        if k > start {
            assert(head.last() == v@[k - 1]);
        }
        assert(after_last_separator(head) =~= Seq::<char>::empty());
        assert(t.subrange(k - start, t.len() as int) =~= v@.subrange(k as int, end as int));
    }
    let file = sub_chars(v.as_slice(), k, end);
    let file_text = string_from_chars(file.as_slice());
    let lower = to_lowercase(file_text.as_str());
    proof {
        lemma_ascii_lowered_facts(file_text@);
    }
    let l = chars_of(lower.as_str());
    let n = l.len();
    if n >= 4 && l[n - 4] == '.' && l[n - 3] == 'e' && l[n - 2] == 'x' && l[n - 1] == 'e' {
        assert(l@.subrange(n - 4, n as int) =~= exe_suffix());
        let stem = sub_chars(l.as_slice(), 0, n - 4);
        string_from_chars(stem.as_slice())
    } else {
        proof {
            if n >= 4 && l@.subrange(n - 4, n as int) == exe_suffix() {
                assert(l@.subrange(n - 4, n as int)[0] == l@[n - 4]);
                assert(l@.subrange(n - 4, n as int)[1] == l@[n - 3]);
                assert(l@.subrange(n - 4, n as int)[2] == l@[n - 2]);
                assert(l@.subrange(n - 4, n as int)[3] == l@[n - 1]);
            }
        }
        lower
    }
}

impl ManagedApplication {
    /// Whether this application is the process `process_name`, whose executable
    /// is at `executable_path` when that is known. A path identity compares with
    /// the executable path, and with the process name when no path is known; a
    /// name identity compares with the process name.
    pub fn matches(&self, process_name: &str, executable_path: Option<&str>) -> (r: bool)
        ensures
            r == identity_matches(self.identity@, process_name@, opt_text(executable_path)),
    {
        if is_path(self.identity.as_str()) {
            return match executable_path {
                Some(path) => normalize_path(self.identity.as_str()) == normalize_path(path),
                None => normalize_name(self.identity.as_str()) == normalize_name(process_name),
            };
        }
        normalize_name(self.identity.as_str()) == normalize_name(process_name)
    }

    /// Whether `other` names this same application.
    pub fn same_identity(&self, other: &str) -> (r: bool)
        ensures
            r == same_identities(self.identity@, other@),
    {
        let mine = is_path(self.identity.as_str());
        let theirs = is_path(other);
        if mine && theirs {
            normalize_path(self.identity.as_str()) == normalize_path(other)
        } else if !mine && !theirs {
            normalize_name(self.identity.as_str()) == normalize_name(other)
        } else {
            false
        }
    }

    /// The name to show for this application.
    pub fn display_name(&self) -> (r: &str)
        ensures
            r@ == shown_name(self.identity@, opt_string(self.name)),
    {
        match &self.name {
            Some(name) => {
                let t = trimmed(name.as_str());
                if t.is_empty() {
                    self.identity.as_str()
                } else {
                    t
                }
            },
            None => self.identity.as_str(),
        }
    }
}

/// Two identities name the same application by their kind: two paths when
/// their compared path forms are equal, two process names when their compared
/// name forms are equal, and a path and a name never.
pub proof fn law_same_identity_by_kind(a: Seq<char>, b: Seq<char>)
    ensures
        looks_like_path(a) && looks_like_path(b) ==> (same_identities(a, b) == (normalized_path(a)
            == normalized_path(b))),
        !looks_like_path(a) && !looks_like_path(b) ==> (same_identities(a, b) == (normalized_name(a)
            == normalized_name(b))),
        looks_like_path(a) != looks_like_path(b) ==> !same_identities(a, b),
{
}

/// Two ASCII paths name the same application exactly when they are the same
/// trimmed text but for the case of letters and `/` against `\`: paths in
/// different folders are different applications, whatever their file names.
pub proof fn law_ascii_paths_same_exactly_when_texts_match(a: Seq<char>, b: Seq<char>)
    requires
        is_ascii_text(a),
        is_ascii_text(b),
        looks_like_path(a),
        looks_like_path(b),
    ensures
        same_identities(a, b) == (ascii_lowered(with_backslashes(trim(a))) == ascii_lowered(
            with_backslashes(trim(b)),
        )),
{
    lemma_ascii_normalized_path(a);
    lemma_ascii_normalized_path(b);
}

/// A path identity is matched by the process's executable path when it is
/// known (the process name then does not matter), and by the process name
/// otherwise; a name identity is matched by the process name alone (the path
/// then does not matter).
pub proof fn law_matching_by_kind(identity: Seq<char>, name: Seq<char>, path: Option<Seq<char>>)
    ensures
        looks_like_path(identity) && path is Some ==> (identity_matches(identity, name, path) == (
        normalized_path(identity) == normalized_path(path->0))),
        looks_like_path(identity) && path is None ==> (identity_matches(identity, name, path) == (
        normalized_name(identity) == normalized_name(name))),
        !looks_like_path(identity) ==> (identity_matches(identity, name, path) == (normalized_name(
            identity,
        ) == normalized_name(name))),
{
}

/// An ASCII path identity matches a process whose known ASCII executable path
/// is the same trimmed text but for the case of letters and `/` against `\`,
/// and no other.
pub proof fn law_ascii_path_matches_exactly_its_executable(identity: Seq<char>, name: Seq<char>, path: Seq<char>)
    requires
        looks_like_path(identity),
        is_ascii_text(identity),
        is_ascii_text(path),
    ensures
        identity_matches(identity, name, Some(path)) == (ascii_lowered(with_backslashes(trim(identity)))
            == ascii_lowered(with_backslashes(trim(path)))),
{
    lemma_ascii_normalized_path(identity);
    lemma_ascii_normalized_path(path);
}

} // verus!
