//! Running processes offered when an application is added.
use vstd::prelude::*;
use vstd::string::*;
use crate::identity::opt_string;
use crate::text::{
    ascii_lower_char, ascii_lowered, chars_of, is_ascii_text, lower_text, to_lowercase,
};

verus! {

/// The name of a process and, when it can be read, the path of its executable.
#[derive(Debug)]
pub struct ProcessIdentity {
    pub name: String,
    pub path: Option<String>,
}

/// A visible window's process, offered as an application to add.
#[derive(Debug)]
pub struct ProcessChoice {
    title: String,
    name: String,
    path: Option<String>,
}

/// The identity a choice stands for: its executable path when known, else its
/// process name.
pub open spec fn choice_identity(name: Seq<char>, path: Option<Seq<char>>) -> Seq<char> {
    match path {
        Some(p) => p,
        None => name,
    }
}

/// `<title> — <identity>`.
pub open spec fn choice_label(title: Seq<char>, identity: Seq<char>) -> Seq<char> {
    title + seq![' ', '\u{2014}', ' '] + identity
}

impl Clone for ProcessChoice {
    fn clone(&self) -> (r: Self)
        ensures
            r == *self,
    {
        let path = match &self.path {
            Some(path) => Some(path.clone()),
            None => None,
        };
        ProcessChoice { title: self.title.clone(), name: self.name.clone(), path }
    }
}

impl ProcessChoice {
    /// The window title of the choice.
    pub closed spec fn title_text(&self) -> Seq<char> {
        self.title@
    }

    /// The process name of the choice.
    pub closed spec fn name_text(&self) -> Seq<char> {
        self.name@
    }

    /// The executable path of the choice, when known.
    pub closed spec fn path_text(&self) -> Option<Seq<char>> {
        opt_string(self.path)
    }

    /// A choice for a window of the process `identity` whose text is `title`; a
    /// window without text is titled by the process name.
    pub fn new(title: String, identity: ProcessIdentity) -> (r: Self)
        ensures
            r.title_text() == (if title@.len() > 0 {
                title@
            } else {
                identity.name@
            }),
            r.name_text() == identity.name@,
            r.path_text() == opt_string(identity.path),
    {
        let title = if title.as_str().is_empty() {
            identity.name.clone()
        } else {
            title
        };
        ProcessChoice { title, name: identity.name, path: identity.path }
    }

    /// The identity to record for this choice.
    pub fn identity(&self) -> (r: String)
        ensures
            r@ == choice_identity(self.name_text(), self.path_text()),
    {
        match &self.path {
            Some(path) => path.clone(),
            None => self.name.clone(),
        }
    }

    /// The label shown in the list of running applications.
    pub fn label(&self) -> (r: String)
        ensures
            r@ == choice_label(self.title_text(), choice_identity(self.name_text(), self.path_text())),
    {
        let mut r = String::from_str(self.title.as_str());
        r.append(" \u{2014} ");
        let identity = self.identity();
        r.append(identity.as_str());
        proof {
            reveal_strlit(" \u{2014} ");
            assert(" \u{2014} "@ =~= seq![' ', '\u{2014}', ' ']);
            assert(r@ =~= choice_label(self.title_text(), choice_identity(self.name_text(), self.path_text())));
        }
        r
    }
}

/// Whether the text `a` comes before `b` in the order of `String`: by code
/// points, a proper prefix first.
pub open spec fn text_lt(a: Seq<char>, b: Seq<char>) -> bool
    decreases a.len(),
{
    if b.len() == 0 {
        false
    } else if a.len() == 0 {
        true
    } else if a[0] != b[0] {
        a[0] < b[0]
    } else {
        text_lt(a.drop_first(), b.drop_first())
    }
}

/// The code of `c`, with an ASCII capital letter made small.
pub open spec fn ascii_lower(c: char) -> u32 {
    let n = c as u32;
    if 65 <= n <= 90 {
        (n + 32) as u32
    } else {
        n
    }
}

/// Whether two texts are equal but for the case of ASCII letters
/// (`str::eq_ignore_ascii_case`).
pub open spec fn same_ignoring_ascii_case(a: Seq<char>, b: Seq<char>) -> bool {
    a.len() == b.len() && forall|i: int| 0 <= i < a.len() ==> ascii_lower(#[trigger] a[i]) == ascii_lower(b[i])
}

/// The key a choice is first sorted by: its identity in lower case.
pub open spec fn identity_key(c: ProcessChoice) -> Seq<char> {
    lower_text(choice_identity(c.name_text(), c.path_text()))
}

/// The key the choices are finally sorted by: the label in lower case.
pub open spec fn label_key(c: ProcessChoice) -> Seq<char> {
    lower_text(choice_label(c.title_text(), choice_identity(c.name_text(), c.path_text())))
}

/// `x` put into `sorted` after every element whose key is not greater.
pub open spec fn insert_by(
    sorted: Seq<ProcessChoice>,
    x: ProcessChoice,
    key: spec_fn(ProcessChoice) -> Seq<char>,
) -> Seq<ProcessChoice>
    decreases sorted.len(),
{
    if sorted.len() == 0 {
        seq![x]
    } else if text_lt(key(x), key(sorted.last())) {
        insert_by(sorted.drop_last(), x, key).push(sorted.last())
    } else {
        sorted.push(x)
    }
}

/// `s` sorted by `key`, keeping the order of elements with equal keys (what
/// `slice::sort_by_key` does).
pub open spec fn sorted_by(s: Seq<ProcessChoice>, key: spec_fn(ProcessChoice) -> Seq<char>) -> Seq<
    ProcessChoice,
>
    decreases s.len(),
{
    if s.len() == 0 {
        s
    } else {
        insert_by(sorted_by(s.drop_last(), key), s.last(), key)
    }
}

/// `s` without the elements whose identity equals, but for ASCII case, that of
/// the element kept before them (what `Vec::dedup_by` does with that test).
pub open spec fn without_repeats(s: Seq<ProcessChoice>) -> Seq<ProcessChoice>
    decreases s.len(),
{
    if s.len() == 0 {
        s
    } else {
        let kept = without_repeats(s.drop_last());
        if kept.len() > 0 && same_ignoring_ascii_case(
            choice_identity(s.last().name_text(), s.last().path_text()),
            choice_identity(kept.last().name_text(), kept.last().path_text()),
        ) {
            kept
        } else {
            kept.push(s.last())
        }
    }
}

/// The running applications as they are offered: sorted by identity, each
/// identity once, then sorted by label.
pub open spec fn arranged(s: Seq<ProcessChoice>) -> Seq<ProcessChoice> {
    sorted_by(without_repeats(sorted_by(s, |c: ProcessChoice| identity_key(c))), |c: ProcessChoice| label_key(c))
}

pub(crate) proof fn lemma_text_lt_irreflexive(a: Seq<char>)
    ensures
        !text_lt(a, a),
    decreases a.len(),
{
    if a.len() > 0 {
        lemma_text_lt_irreflexive(a.drop_first());
    }
}

pub(crate) proof fn lemma_text_lt_transitive(a: Seq<char>, b: Seq<char>, c: Seq<char>)
    requires
        text_lt(a, b),
        text_lt(b, c),
    ensures
        text_lt(a, c),
    decreases a.len(),
{
    if a.len() > 0 && b.len() > 0 && c.len() > 0 && a[0] == b[0] && b[0] == c[0] {
        lemma_text_lt_transitive(a.drop_first(), b.drop_first(), c.drop_first());
    }
}

pub(crate) proof fn lemma_text_lt_total(a: Seq<char>, b: Seq<char>)
    requires
        a != b,
    ensures
        text_lt(a, b) || text_lt(b, a),
    decreases a.len(),
{
    if a.len() > 0 && b.len() > 0 && a[0] == b[0] {
        if a.drop_first() == b.drop_first() {
            assert(a =~= seq![a[0]] + a.drop_first());
            assert(b =~= seq![b[0]] + b.drop_first());
        }
        lemma_text_lt_total(a.drop_first(), b.drop_first());
    } else if a.len() == 0 && b.len() == 0 {
        assert(a =~= b);
    }
}

proof fn lemma_text_le_transitive(a: Seq<char>, b: Seq<char>, c: Seq<char>)
    requires
        !text_lt(b, a),
        !text_lt(c, b),
    ensures
        !text_lt(c, a),
{
    if text_lt(c, a) {
        if a != b {
            lemma_text_lt_total(a, b);
            lemma_text_lt_transitive(c, a, b);
        }
    }
}

/// Whether `s` is in order of `key`: no element's key is less than that of an
/// element before it.
pub open spec fn in_key_order(s: Seq<ProcessChoice>, key: spec_fn(ProcessChoice) -> Seq<char>) -> bool {
    forall|i: int, j: int| 0 <= i < j < s.len() ==> !text_lt(key(#[trigger] s[j]), key(#[trigger] s[i]))
}

proof fn lemma_insert_by(s: Seq<ProcessChoice>, x: ProcessChoice, key: spec_fn(ProcessChoice) -> Seq<char>)
    requires
        in_key_order(s, key),
    ensures
        in_key_order(insert_by(s, x, key), key),
        insert_by(s, x, key).to_multiset() == s.to_multiset().insert(x),
        forall|i: int| 0 <= i < insert_by(s, x, key).len() ==> #[trigger] insert_by(s, x, key)[i] == x || s.contains(insert_by(s, x, key)[i]),
    decreases s.len(),
{
    broadcast use vstd::seq_lib::group_to_multiset_ensures;
    let r = insert_by(s, x, key);
    if s.len() == 0 {
        assert(seq![x] =~= Seq::<ProcessChoice>::empty().push(x));
    } else {
        let front = s.drop_last();
        let last = s.last();
        assert(s =~= front.push(last));
        assert forall|i: int, j: int| 0 <= i < j < front.len() implies !text_lt(key(#[trigger] front[j]), key(#[trigger] front[i])) by {
            assert(front[i] == s[i] && front[j] == s[j]);
        }
        if text_lt(key(x), key(last)) {
            lemma_insert_by(front, x, key);
            let inner = insert_by(front, x, key);
            assert forall|i: int, j: int| 0 <= i < j < r.len() implies !text_lt(key(#[trigger] r[j]), key(#[trigger] r[i])) by {
                if j == r.len() - 1 {
                    assert(r[j] == last);
                    assert(r[i] == inner[i]);
                    if inner[i] == x {
                        if text_lt(key(last), key(x)) {
                            lemma_text_lt_transitive(key(x), key(last), key(x));
                            lemma_text_lt_irreflexive(key(x));
                        }
                    } else {
                        assert(front.contains(inner[i]));
                        let k = choose|k: int| 0 <= k < front.len() && front[k] == inner[i];
                        assert(s[k] == front[k]);
                        assert(s[s.len() - 1] == last);
                    }
                } else {
                    assert(r[i] == inner[i] && r[j] == inner[j]);
                }
            }
            assert forall|i: int| 0 <= i < r.len() implies #[trigger] r[i] == x || s.contains(r[i]) by {
                if i == r.len() - 1 {
                    assert(s[s.len() - 1] == r[i]);
                } else {
                    assert(r[i] == inner[i]);
                    if inner[i] != x {
                        let k = choose|k: int| 0 <= k < front.len() && front[k] == inner[i];
                        assert(s[k] == front[k]);
                    }
                }
            }
        } else {
            assert forall|i: int, j: int| 0 <= i < j < r.len() implies !text_lt(key(#[trigger] r[j]), key(#[trigger] r[i])) by {
                if j == r.len() - 1 {
                    assert(r[j] == x);
                    assert(r[i] == s[i]);
                    if i < s.len() - 1 {
                        assert(!text_lt(key(s[s.len() - 1]), key(s[i])));
                        lemma_text_le_transitive(key(s[i]), key(last), key(x));
                    }
                } else {
                    assert(r[i] == s[i] && r[j] == s[j]);
                }
            }
            assert forall|i: int| 0 <= i < r.len() implies #[trigger] r[i] == x || s.contains(r[i]) by {
                if i < s.len() {
                    assert(r[i] == s[i]);
                }
            }
        }
    }
}

proof fn lemma_sorted_by(s: Seq<ProcessChoice>, key: spec_fn(ProcessChoice) -> Seq<char>)
    ensures
        in_key_order(sorted_by(s, key), key),
        sorted_by(s, key).to_multiset() == s.to_multiset(),
    decreases s.len(),
{
    broadcast use vstd::seq_lib::group_to_multiset_ensures;
    if s.len() > 0 {
        lemma_sorted_by(s.drop_last(), key);
        lemma_insert_by(sorted_by(s.drop_last(), key), s.last(), key);
        assert(s =~= s.drop_last().push(s.last()));
    }
}

proof fn lemma_without_repeats_from(s: Seq<ProcessChoice>)
    ensures
        forall|i: int| 0 <= i < without_repeats(s).len() ==> s.contains(#[trigger] without_repeats(s)[i]),
    decreases s.len(),
{
    if s.len() > 0 {
        let front = s.drop_last();
        lemma_without_repeats_from(front);
        let kept = without_repeats(front);
        assert forall|i: int| 0 <= i < without_repeats(s).len() implies s.contains(#[trigger] without_repeats(s)[i]) by {
            if i < kept.len() {
                assert(without_repeats(s)[i] == kept[i]);
                let k = choose|k: int| 0 <= k < front.len() && front[k] == kept[i];
                assert(s[k] == front[k]);
            } else {
                assert(without_repeats(s)[i] == s.last());
                assert(s[s.len() - 1] == s.last());
            }
        }
    }
}

/// Sorting keeps every choice, as often as it came: it only reorders them.
pub proof fn law_sorting_keeps_every_choice(s: Seq<ProcessChoice>, key: spec_fn(ProcessChoice) -> Seq<char>)
    ensures
        sorted_by(s, key).to_multiset() == s.to_multiset(),
{
    lemma_sorted_by(s, key);
}

/// The running applications are offered in the order of their labels, without
/// regard to case, and each of them is one of the choices found.
pub proof fn law_arranged_in_label_order(s: Seq<ProcessChoice>)
    ensures
        in_key_order(arranged(s), |c: ProcessChoice| label_key(c)),
        forall|i: int| 0 <= i < arranged(s).len() ==> s.contains(#[trigger] arranged(s)[i]),
{
    broadcast use vstd::seq_lib::group_to_multiset_ensures;
    let by_identity = sorted_by(s, |c: ProcessChoice| identity_key(c));
    let distinct = without_repeats(by_identity);
    lemma_sorted_by(s, |c: ProcessChoice| identity_key(c));
    lemma_without_repeats_from(by_identity);
    lemma_sorted_by(distinct, |c: ProcessChoice| label_key(c));
    let r = arranged(s);
    assert forall|i: int| 0 <= i < r.len() implies s.contains(#[trigger] r[i]) by {
        assert(r.to_multiset().count(r[i]) > 0);
        assert(distinct.to_multiset().count(r[i]) > 0);
        assert(distinct.contains(r[i]));
        let k = choose|k: int| 0 <= k < distinct.len() && distinct[k] == r[i];
        assert(by_identity.contains(distinct[k]));
        assert(by_identity.to_multiset().count(r[i]) > 0);
        assert(s.to_multiset().count(r[i]) > 0);
    }
}

/// No choice kept after dropping repeats has the identity, but for ASCII case,
/// of the choice just before it.
pub proof fn law_no_repeated_neighbours(s: Seq<ProcessChoice>)
    ensures
        forall|i: int| 0 < i < without_repeats(s).len() ==> !same_ignoring_ascii_case(
            choice_identity(#[trigger] without_repeats(s)[i].name_text(), without_repeats(s)[i].path_text()),
            choice_identity(without_repeats(s)[i - 1].name_text(), without_repeats(s)[i - 1].path_text()),
        ),
    decreases s.len(),
{
    if s.len() > 0 {
        let front = s.drop_last();
        law_no_repeated_neighbours(front);
        let kept = without_repeats(front);
        let r = without_repeats(s);
        assert forall|i: int| 0 < i < r.len() implies !same_ignoring_ascii_case(
            choice_identity(#[trigger] r[i].name_text(), r[i].path_text()),
            choice_identity(r[i - 1].name_text(), r[i - 1].path_text()),
        ) by {
            if i < kept.len() {
                assert(r[i] == kept[i] && r[i - 1] == kept[i - 1]);
            } else {
                assert(r[i - 1] == kept.last());
            }
        }
    }
}

/// The identity a choice stands for.
pub open spec fn identity_of(c: ProcessChoice) -> Seq<char> {
    choice_identity(c.name_text(), c.path_text())
}

/// Whether every choice among `s` has an ASCII identity.
pub open spec fn ascii_identities(s: Seq<ProcessChoice>) -> bool {
    forall|i: int| 0 <= i < s.len() ==> is_ascii_text(identity_of(#[trigger] s[i]))
}

proof fn lemma_ascii_lower_char_code(c: char)
    ensures
        ascii_lower(c) == ascii_lower_char(c) as u32,
{
    if 'A' <= c <= 'Z' {
        assert((((c as u32) + 32) as char) as u32 == (c as u32) + 32);
    }
}

/// Two texts are equal but for ASCII case exactly when their ASCII capitals
/// made small are equal.
proof fn lemma_same_ignoring_ascii_case(a: Seq<char>, b: Seq<char>)
    ensures
        same_ignoring_ascii_case(a, b) == (ascii_lowered(a) == ascii_lowered(b)),
{
    if same_ignoring_ascii_case(a, b) {
        assert forall|i: int| 0 <= i < a.len() implies ascii_lowered(a)[i] == ascii_lowered(b)[i] by {
            lemma_ascii_lower_char_code(a[i]);
            lemma_ascii_lower_char_code(b[i]);
            assert(ascii_lower(a[i]) == ascii_lower(b[i]));
        }
        assert(ascii_lowered(a) =~= ascii_lowered(b));
    }
    if ascii_lowered(a) == ascii_lowered(b) {
        assert(a.len() == ascii_lowered(a).len());
        assert forall|i: int| 0 <= i < a.len() implies ascii_lower(#[trigger] a[i]) == ascii_lower(b[i]) by {
            lemma_ascii_lower_char_code(a[i]);
            lemma_ascii_lower_char_code(b[i]);
            assert(ascii_lowered(a)[i] == ascii_lowered(b)[i]);
        }
    }
}

spec fn ordered_by_identity(t: Seq<ProcessChoice>) -> bool {
    forall|i: int, j: int| 0 <= i < j < t.len() ==> !text_lt(identity_key(#[trigger] t[j]), identity_key(#[trigger] t[i]))
}

/// Dropping repeats from choices in identity order, all with ASCII identities,
/// keeps one choice for each identity (ignoring ASCII case) and no more.
proof fn lemma_dedup_sorted(t: Seq<ProcessChoice>)
    requires
        ordered_by_identity(t),
        ascii_identities(t),
    ensures
        forall|i: int, j: int|
            0 <= i < j < without_repeats(t).len() ==> identity_key(#[trigger] without_repeats(t)[i])
                != identity_key(#[trigger] without_repeats(t)[j]),
        forall|i: int|
            0 <= i < t.len() ==> exists|j: int|
                0 <= j < without_repeats(t).len() && identity_key(#[trigger] without_repeats(t)[j])
                    == identity_key(#[trigger] t[i]),
        (without_repeats(t).len() > 0) == (t.len() > 0),
        t.len() > 0 ==> identity_key(without_repeats(t).last()) == identity_key(t.last()),
        forall|j: int| 0 <= j < without_repeats(t).len() ==> t.contains(#[trigger] without_repeats(t)[j]),
    decreases t.len(),
{
    let w = without_repeats(t);
    if t.len() > 0 {
        let front = t.drop_last();
        let x = t.last();
        assert forall|i: int, j: int| 0 <= i < j < front.len() implies !text_lt(
            identity_key(#[trigger] front[j]),
            identity_key(#[trigger] front[i]),
        ) by {
            assert(front[i] == t[i] && front[j] == t[j]);
        }
        assert forall|i: int| 0 <= i < front.len() implies is_ascii_text(identity_of(#[trigger] front[i])) by {
            assert(front[i] == t[i]);
        }
        lemma_dedup_sorted(front);
        let kept = without_repeats(front);
        assert(t[t.len() - 1] == x);
        assert(is_ascii_text(identity_of(x)));
        assert(identity_key(x) == ascii_lowered(identity_of(x)));
        if kept.len() > 0 && same_ignoring_ascii_case(identity_of(x), identity_of(kept.last())) {
            assert(w == kept);
            let l = kept.last();
            assert(front.contains(l)) by {
                assert(kept[kept.len() - 1] == l);
            }
            let m = choose|m: int| 0 <= m < front.len() && front[m] == l;
            assert(is_ascii_text(identity_of(front[m])));
            lemma_same_ignoring_ascii_case(identity_of(x), identity_of(l));
            assert(identity_key(l) == ascii_lowered(identity_of(l)));
            assert(identity_key(x) == identity_key(l));
            assert forall|i: int| 0 <= i < t.len() implies exists|j: int|
                0 <= j < w.len() && identity_key(#[trigger] w[j]) == identity_key(#[trigger] t[i]) by {
                if i < front.len() {
                    assert(t[i] == front[i]);
                } else {
                    assert(w[w.len() - 1] == l);
                }
            }
            assert forall|j: int| 0 <= j < w.len() implies t.contains(#[trigger] w[j]) by {
                let m2 = choose|m2: int| 0 <= m2 < front.len() && front[m2] == w[j];
                assert(t[m2] == front[m2]);
            }
        } else {
            assert(w == kept.push(x));
            assert forall|i: int, j: int| 0 <= i < j < w.len() implies identity_key(#[trigger] w[i])
                != identity_key(#[trigger] w[j]) by {
                if j < kept.len() {
                    assert(w[i] == kept[i] && w[j] == kept[j]);
                } else {
                    assert(w[j] == x);
                    assert(w[i] == kept[i]);
                    if identity_key(kept[i]) == identity_key(x) {
                        let y = kept[i];
                        let m = choose|m: int| 0 <= m < front.len() && front[m] == y;
                        let fl = front.last();
                        assert(front[front.len() - 1] == fl);
                        assert(t[t.len() - 2] == fl);
                        assert(!text_lt(identity_key(x), identity_key(fl)));
                        if m < front.len() - 1 {
                            assert(!text_lt(identity_key(fl), identity_key(front[m])));
                        }
                        if identity_key(fl) != identity_key(x) {
                            lemma_text_lt_total(identity_key(fl), identity_key(x));
                        }
                        let l = kept.last();
                        assert(identity_key(l) == identity_key(fl));
                        assert(front.contains(l)) by {
                            assert(kept[kept.len() - 1] == l);
                        }
                        let m3 = choose|m3: int| 0 <= m3 < front.len() && front[m3] == l;
                        assert(is_ascii_text(identity_of(front[m3])));
                        assert(identity_key(l) == ascii_lowered(identity_of(l)));
                        lemma_same_ignoring_ascii_case(identity_of(x), identity_of(l));
                        assert(false);
                    }
                }
            }
            assert forall|i: int| 0 <= i < t.len() implies exists|j: int|
                0 <= j < w.len() && identity_key(#[trigger] w[j]) == identity_key(#[trigger] t[i]) by {
                if i < front.len() {
                    assert(t[i] == front[i]);
                    let j = choose|j: int| 0 <= j < kept.len() && identity_key(#[trigger] kept[j]) == identity_key(front[i]);
                    assert(w[j] == kept[j]);
                } else {
                    assert(w[w.len() - 1] == x);
                }
            }
            assert forall|j: int| 0 <= j < w.len() implies t.contains(#[trigger] w[j]) by {
                if j < kept.len() {
                    assert(w[j] == kept[j]);
                    let m2 = choose|m2: int| 0 <= m2 < front.len() && front[m2] == w[j];
                    assert(t[m2] == front[m2]);
                } else {
                    assert(t[t.len() - 1] == w[j]);
                }
            }
        }
    }
}

spec fn distinct_identity_keys(s: Seq<ProcessChoice>) -> bool {
    forall|i: int, j: int| 0 <= i < j < s.len() ==> identity_key(#[trigger] s[i]) != identity_key(#[trigger] s[j])
}

proof fn lemma_insert_keeps_distinct(
    s: Seq<ProcessChoice>,
    x: ProcessChoice,
    key: spec_fn(ProcessChoice) -> Seq<char>,
)
    requires
        distinct_identity_keys(s),
        forall|i: int| 0 <= i < s.len() ==> identity_key(#[trigger] s[i]) != identity_key(x),
    ensures
        distinct_identity_keys(insert_by(s, x, key)),
        forall|i: int|
            0 <= i < insert_by(s, x, key).len() ==> #[trigger] insert_by(s, x, key)[i] == x || s.contains(
                insert_by(s, x, key)[i],
            ),
    decreases s.len(),
{
    let r = insert_by(s, x, key);
    if s.len() > 0 && text_lt(key(x), key(s.last())) {
        let front = s.drop_last();
        let last = s.last();
        assert forall|i: int, j: int| 0 <= i < j < front.len() implies identity_key(#[trigger] front[i])
            != identity_key(#[trigger] front[j]) by {
            assert(front[i] == s[i] && front[j] == s[j]);
        }
        assert forall|i: int| 0 <= i < front.len() implies identity_key(#[trigger] front[i]) != identity_key(x) by {
            assert(front[i] == s[i]);
        }
        lemma_insert_keeps_distinct(front, x, key);
        let inner = insert_by(front, x, key);
        assert(s[s.len() - 1] == last);
        assert forall|i: int, j: int| 0 <= i < j < r.len() implies identity_key(#[trigger] r[i])
            != identity_key(#[trigger] r[j]) by {
            if j == r.len() - 1 {
                assert(r[j] == last);
                assert(r[i] == inner[i]);
                if inner[i] != x {
                    let m = choose|m: int| 0 <= m < front.len() && front[m] == inner[i];
                    assert(s[m] == front[m]);
                }
            } else {
                assert(r[i] == inner[i] && r[j] == inner[j]);
            }
        }
        assert forall|i: int| 0 <= i < r.len() implies #[trigger] r[i] == x || s.contains(r[i]) by {
            if i == r.len() - 1 {
                assert(r[i] == s[s.len() - 1]);
            } else {
                assert(r[i] == inner[i]);
                if inner[i] != x {
                    let m = choose|m: int| 0 <= m < front.len() && front[m] == inner[i];
                    assert(s[m] == front[m]);
                }
            }
        }
    } else if s.len() > 0 {
        assert(r == s.push(x));
        assert forall|i: int| 0 <= i < r.len() implies #[trigger] r[i] == x || s.contains(r[i]) by {
            if i < s.len() {
                assert(r[i] == s[i]);
            }
        }
    } else {
        assert(r == seq![x]);
    }
}

proof fn lemma_sorted_keeps_distinct(w: Seq<ProcessChoice>, key: spec_fn(ProcessChoice) -> Seq<char>)
    requires
        distinct_identity_keys(w),
    ensures
        distinct_identity_keys(sorted_by(w, key)),
        forall|i: int| 0 <= i < sorted_by(w, key).len() ==> w.contains(#[trigger] sorted_by(w, key)[i]),
    decreases w.len(),
{
    if w.len() > 0 {
        let front = w.drop_last();
        let x = w.last();
        assert(w[w.len() - 1] == x);
        assert forall|i: int, j: int| 0 <= i < j < front.len() implies identity_key(#[trigger] front[i])
            != identity_key(#[trigger] front[j]) by {
            assert(front[i] == w[i] && front[j] == w[j]);
        }
        lemma_sorted_keeps_distinct(front, key);
        let inner = sorted_by(front, key);
        assert forall|i: int| 0 <= i < inner.len() implies identity_key(#[trigger] inner[i]) != identity_key(x) by {
            let m = choose|m: int| 0 <= m < front.len() && front[m] == inner[i];
            assert(w[m] == front[m]);
        }
        lemma_insert_keeps_distinct(inner, x, key);
        let r = sorted_by(w, key);
        assert forall|i: int| 0 <= i < r.len() implies w.contains(#[trigger] r[i]) by {
            if r[i] != x {
                let m = choose|m: int| 0 <= m < inner.len() && inner[m] == r[i];
                let m2 = choose|m2: int| 0 <= m2 < front.len() && front[m2] == inner[m];
                assert(w[m2] == front[m2]);
            }
        }
    }
}

/// Of running applications whose identities are ASCII, the list offered names
/// each identity once, without regard to ASCII case, and every identity found
/// is on it (as the same text but for ASCII case).
pub proof fn law_arranged_lists_each_identity_once(s: Seq<ProcessChoice>)
    requires
        ascii_identities(s),
    ensures
        forall|i: int, j: int|
            0 <= i < j < arranged(s).len() ==> !same_ignoring_ascii_case(
                identity_of(#[trigger] arranged(s)[i]),
                identity_of(#[trigger] arranged(s)[j]),
            ),
        forall|i: int|
            0 <= i < s.len() ==> exists|j: int|
                0 <= j < arranged(s).len() && same_ignoring_ascii_case(
                    identity_of(#[trigger] s[i]),
                    identity_of(#[trigger] arranged(s)[j]),
                ),
{
    broadcast use vstd::seq_lib::group_to_multiset_ensures;
    let t = sorted_by(s, |c: ProcessChoice| identity_key(c));
    lemma_sorted_by(s, |c: ProcessChoice| identity_key(c));
    assert forall|i: int, j: int| 0 <= i < j < t.len() implies !text_lt(
        identity_key(#[trigger] t[j]),
        identity_key(#[trigger] t[i]),
    ) by {
        assert(in_key_order(t, |c: ProcessChoice| identity_key(c)));
    }
    assert forall|i: int| 0 <= i < t.len() implies is_ascii_text(identity_of(#[trigger] t[i])) by {
        assert(t.to_multiset().count(t[i]) > 0);
        assert(s.to_multiset().count(t[i]) > 0);
        let m = choose|m: int| 0 <= m < s.len() && s[m] == t[i];
    }
    lemma_dedup_sorted(t);
    let w = without_repeats(t);
    lemma_sorted_keeps_distinct(w, |c: ProcessChoice| label_key(c));
    lemma_sorted_by(w, |c: ProcessChoice| label_key(c));
    let r = arranged(s);
    assert(r == sorted_by(w, |c: ProcessChoice| label_key(c)));
    assert forall|i: int| 0 <= i < r.len() implies is_ascii_text(identity_of(#[trigger] r[i])) by {
        let m = choose|m: int| 0 <= m < w.len() && w[m] == r[i];
        let m2 = choose|m2: int| 0 <= m2 < t.len() && t[m2] == w[m];
    }
    assert forall|i: int, j: int| 0 <= i < j < r.len() implies !same_ignoring_ascii_case(
        identity_of(#[trigger] r[i]),
        identity_of(#[trigger] r[j]),
    ) by {
        lemma_same_ignoring_ascii_case(identity_of(r[i]), identity_of(r[j]));
        assert(identity_key(r[i]) == ascii_lowered(identity_of(r[i])));
        assert(identity_key(r[j]) == ascii_lowered(identity_of(r[j])));
    }
    assert forall|i: int| 0 <= i < s.len() implies exists|j: int|
        0 <= j < r.len() && same_ignoring_ascii_case(
            identity_of(#[trigger] s[i]),
            identity_of(#[trigger] r[j]),
        ) by {
        assert(s.to_multiset().count(s[i]) > 0);
        assert(t.to_multiset().count(s[i]) > 0);
        let a = choose|a: int| 0 <= a < t.len() && t[a] == s[i];
        let b = choose|b: int| 0 <= b < w.len() && identity_key(#[trigger] w[b]) == identity_key(t[a]);
        assert(w.to_multiset().count(w[b]) > 0);
        assert(r.to_multiset().count(w[b]) > 0);
        let c = choose|c: int| 0 <= c < r.len() && r[c] == w[b];
        let m2 = choose|m2: int| 0 <= m2 < t.len() && t[m2] == w[b];
        assert(identity_key(s[i]) == ascii_lowered(identity_of(s[i])));
        assert(identity_key(r[c]) == ascii_lowered(identity_of(r[c])));
        lemma_same_ignoring_ascii_case(identity_of(s[i]), identity_of(r[c]));
    }
}

/// Whether a top-level window is offered in the list of running applications:
/// it is visible and belongs to a known process (0 stands for none) other than
/// WindowWarden itself (`own_pid`).
pub fn offers_window(visible: bool, pid: u32, own_pid: u32) -> (r: bool)
    ensures
        r == (visible && pid != 0 && pid != own_pid),
{
    visible && pid != 0 && pid != own_pid
}

/// Whether `a` comes before `b`.
pub(crate) fn less_than(a: &[char], b: &[char]) -> (r: bool)
    ensures
        r == text_lt(a@, b@),
{
    let mut i: usize = 0;
    assert(a@.skip(0) =~= a@);
    assert(b@.skip(0) =~= b@);
    while i < a.len() && i < b.len() && a[i] == b[i]
        invariant
            i <= a@.len(),
            i <= b@.len(),
            text_lt(a@, b@) == text_lt(a@.skip(i as int), b@.skip(i as int)),
        decreases a.len() - i,
    {
        proof {
            assert(a@.skip(i as int)[0] == a@[i as int]);
            assert(b@.skip(i as int)[0] == b@[i as int]);
            assert(a@.skip(i as int).drop_first() =~= a@.skip(i + 1));
            assert(b@.skip(i as int).drop_first() =~= b@.skip(i + 1));
        }
        i = i + 1;
    }
    proof {
        if i < a@.len() {
            assert(a@.skip(i as int)[0] == a@[i as int]);
        }
        if i < b@.len() {
            assert(b@.skip(i as int)[0] == b@[i as int]);
        }
    }
    if i == b.len() {
        false
    } else if i == a.len() {
        true
    } else {
        a[i] < b[i]
    }
}

/// Whether two characters are equal but for ASCII case.
fn same_char_ignoring_ascii_case(a: char, b: char) -> (r: bool)
    ensures
        r == (ascii_lower(a) == ascii_lower(b)),
{
    let na = a as u32;
    let nb = b as u32;
    let la = if 65 <= na && na <= 90 {
        na + 32
    } else {
        na
    };
    let lb = if 65 <= nb && nb <= 90 {
        nb + 32
    } else {
        nb
    };
    la == lb
}

/// Whether two texts are equal but for ASCII case.
fn eq_ignore_ascii_case(a: &[char], b: &[char]) -> (r: bool)
    ensures
        r == same_ignoring_ascii_case(a@, b@),
{
    if a.len() != b.len() {
        return false;
    }
    let mut i: usize = 0;
    while i < a.len()
        invariant
            i <= a@.len() == b@.len(),
            forall|j: int| 0 <= j < i ==> ascii_lower(#[trigger] a@[j]) == ascii_lower(b@[j]),
        decreases a.len() - i,
    {
        if !same_char_ignoring_ascii_case(a[i], b[i]) {
            return false;
        }
        i = i + 1;
    }
    true
}

proof fn lemma_insert_by_tail(
    sorted: Seq<ProcessChoice>,
    x: ProcessChoice,
    key: spec_fn(ProcessChoice) -> Seq<char>,
    p: int,
)
    requires
        0 <= p <= sorted.len(),
        forall|j: int| p <= j < sorted.len() ==> text_lt(key(x), key(#[trigger] sorted[j])),
    ensures
        insert_by(sorted, x, key) == insert_by(sorted.take(p), x, key) + sorted.skip(p),
    decreases sorted.len() - p,
{
    if p < sorted.len() {
        let shorter = sorted.drop_last();
        assert forall|j: int| p <= j < shorter.len() implies text_lt(key(x), key(#[trigger] shorter[j])) by {
            assert(shorter[j] == sorted[j]);
        }
        lemma_insert_by_tail(shorter, x, key, p);
        assert(shorter.take(p) =~= sorted.take(p));
        assert(sorted.last() == sorted[sorted.len() - 1]);
        assert((insert_by(sorted.take(p), x, key) + shorter.skip(p)).push(sorted.last())
            =~= insert_by(sorted.take(p), x, key) + sorted.skip(p));
    } else {
        assert(sorted.take(p) =~= sorted);
        assert(sorted.skip(p) =~= Seq::<ProcessChoice>::empty());
        assert(insert_by(sorted, x, key) + Seq::<ProcessChoice>::empty() =~= insert_by(sorted, x, key));
    }
}

/// Puts `x`, whose key is `k`, into the sorted `items` after every element
/// whose key is not greater; `keys` holds the keys of `items`.
fn insert_sorted(
    items: &mut Vec<ProcessChoice>,
    keys: &mut Vec<Vec<char>>,
    x: ProcessChoice,
    k: Vec<char>,
    Ghost(key): Ghost<spec_fn(ProcessChoice) -> Seq<char>>,
)
    requires
        old(items)@.len() == old(keys)@.len(),
        forall|i: int| 0 <= i < old(items)@.len() ==> (#[trigger] old(keys)@[i])@ == key(old(items)@[i]),
        k@ == key(x),
    ensures
        final(items)@ == insert_by(old(items)@, x, key),
        final(items)@.len() == final(keys)@.len(),
        forall|i: int| 0 <= i < final(items)@.len() ==> (#[trigger] final(keys)@[i])@ == key(final(items)@[i]),
{
    let ghost sorted = items@;
    let mut p = items.len();
    while p > 0 && less_than(k.as_slice(), keys[p - 1].as_slice())
        invariant
            p <= sorted.len() == items@.len() == keys@.len(),
            items@ == sorted,
            k@ == key(x),
            forall|i: int| 0 <= i < items@.len() ==> (#[trigger] keys@[i])@ == key(items@[i]),
            forall|j: int| p <= j < sorted.len() ==> text_lt(key(x), key(#[trigger] sorted[j])),
        decreases p,
    {
        p = p - 1;
    }
    proof {
        lemma_insert_by_tail(sorted, x, key, p as int);
        let head = sorted.take(p as int);
        if p > 0 {
            assert(head.last() == sorted[p - 1]);
            assert(!text_lt(key(x), key(head.last())));
            assert(insert_by(head, x, key) == head.push(x));
        } else {
            assert(insert_by(head, x, key) =~= seq![x]);
        }
        assert(sorted.insert(p as int, x) =~= head.push(x) + sorted.skip(p as int));
    }
    let ghost old_keys = keys@;
    items.insert(p, x);
    keys.insert(p, k);
    proof {
        assert forall|i: int| 0 <= i < items@.len() implies (#[trigger] keys@[i])@ == key(items@[i]) by {
            if i < p {
                assert(keys@[i] == old_keys[i]);
            } else if i > p {
                assert(keys@[i] == old_keys[i - 1]);
                assert(items@[i] == sorted[i - 1]);
            }
        }
    }
}

/// The lower-case identity of a choice, as characters.
fn identity_key_of(c: &ProcessChoice) -> (r: Vec<char>)
    ensures
        r@ == identity_key(*c),
{
    let identity = c.identity();
    chars_of(to_lowercase(identity.as_str()).as_str())
}

/// The lower-case label of a choice, as characters.
fn label_key_of(c: &ProcessChoice) -> (r: Vec<char>)
    ensures
        r@ == label_key(*c),
{
    let label = c.label();
    chars_of(to_lowercase(label.as_str()).as_str())
}

/// Sorts choices by their lower-case identity, keeping the order of equals.
fn sort_by_identity(choices: Vec<ProcessChoice>) -> (r: Vec<ProcessChoice>)
    ensures
        r@ == sorted_by(choices@, |c: ProcessChoice| identity_key(c)),
{
    let ghost key = |c: ProcessChoice| identity_key(c);
    let mut items: Vec<ProcessChoice> = Vec::new();
    let mut keys: Vec<Vec<char>> = Vec::new();
    let mut i: usize = 0;
    assert(choices@.take(0) =~= Seq::<ProcessChoice>::empty());
    while i < choices.len()
        invariant
            i <= choices@.len(),
            items@ == sorted_by(choices@.take(i as int), key),
            items@.len() == keys@.len(),
            forall|j: int| 0 <= j < items@.len() ==> (#[trigger] keys@[j])@ == key(items@[j]),
            key == (|c: ProcessChoice| identity_key(c)),
        decreases choices.len() - i,
    {
        let c = choices[i].clone();
        let k = identity_key_of(&c);
        assert(key(c) == identity_key(c));
        proof {
            assert(choices@.take(i + 1).drop_last() =~= choices@.take(i as int));
            assert(choices@.take(i + 1).last() == choices@[i as int]);
        }
        insert_sorted(&mut items, &mut keys, c, k, Ghost(key));
        i = i + 1;
    }
    assert(choices@.take(choices@.len() as int) =~= choices@);
    items
}

/// Sorts choices by their lower-case label, keeping the order of equals.
fn sort_by_label(choices: Vec<ProcessChoice>) -> (r: Vec<ProcessChoice>)
    ensures
        r@ == sorted_by(choices@, |c: ProcessChoice| label_key(c)),
{
    let ghost key = |c: ProcessChoice| label_key(c);
    let mut items: Vec<ProcessChoice> = Vec::new();
    let mut keys: Vec<Vec<char>> = Vec::new();
    let mut i: usize = 0;
    assert(choices@.take(0) =~= Seq::<ProcessChoice>::empty());
    while i < choices.len()
        invariant
            i <= choices@.len(),
            items@ == sorted_by(choices@.take(i as int), key),
            items@.len() == keys@.len(),
            forall|j: int| 0 <= j < items@.len() ==> (#[trigger] keys@[j])@ == key(items@[j]),
            key == (|c: ProcessChoice| label_key(c)),
        decreases choices.len() - i,
    {
        let c = choices[i].clone();
        let k = label_key_of(&c);
        assert(key(c) == label_key(c));
        proof {
            assert(choices@.take(i + 1).drop_last() =~= choices@.take(i as int));
            assert(choices@.take(i + 1).last() == choices@[i as int]);
        }
        insert_sorted(&mut items, &mut keys, c, k, Ghost(key));
        i = i + 1;
    }
    assert(choices@.take(choices@.len() as int) =~= choices@);
    items
}

/// Drops each choice whose identity equals, but for ASCII case, that of the
/// choice kept before it.
fn drop_repeats(choices: Vec<ProcessChoice>) -> (r: Vec<ProcessChoice>)
    ensures
        r@ == without_repeats(choices@),
{
    let mut kept: Vec<ProcessChoice> = Vec::new();
    let mut last_identity: Vec<char> = Vec::new();
    let mut i: usize = 0;
    assert(choices@.take(0) =~= Seq::<ProcessChoice>::empty());
    while i < choices.len()
        invariant
            i <= choices@.len(),
            kept@ == without_repeats(choices@.take(i as int)),
            kept@.len() > 0 ==> last_identity@ == choice_identity(
                kept@.last().name_text(),
                kept@.last().path_text(),
            ),
        decreases choices.len() - i,
    {
        proof {
            assert(choices@.take(i + 1).drop_last() =~= choices@.take(i as int));
            assert(choices@.take(i + 1).last() == choices@[i as int]);
        }
        let identity = chars_of(choices[i].identity().as_str());
        if kept.len() > 0 && eq_ignore_ascii_case(identity.as_slice(), last_identity.as_slice()) {
        } else {
            kept.push(choices[i].clone());
            last_identity = identity;
        }
        i = i + 1;
    }
    assert(choices@.take(choices@.len() as int) =~= choices@);
    kept
}

/// The running applications as they are offered: sorted by identity without
/// regard to case, each identity once, then sorted by label.
pub fn arrange_choices(choices: Vec<ProcessChoice>) -> (r: Vec<ProcessChoice>)
    ensures
        r@ == arranged(choices@),
{
    let by_identity = sort_by_identity(choices);
    let distinct = drop_repeats(by_identity);
    sort_by_label(distinct)
}

} // verus!
