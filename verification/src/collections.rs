//! Sets and maps of texts kept in vectors without duplicates.
//!
//! A set of texts is a `Vec<String>` in which no text occurs twice; its
//! meaning is the set of the texts it holds. A map from texts to texts is a
//! `Vec<(String, String)>` in which no key occurs twice; its meaning is the map
//! from each key to the value beside it.
//!
//! The background mute keeps its text-keyed maps and sets this way rather than
//! in `HashMap`, `HashSet` or `BTreeSet`. Verus does not refuse those types, but
//! vstd states what a `HashMap` or `HashSet` holds only for keys that satisfy
//! `obeys_key_model`, which it grants to primitive integers, `bool` and boxes of
//! them alone,
//! and what a `BTreeSet` holds only for keys whose order obeys its comparison
//! laws, which no vstd specification grants to `String`; granting either would
//! take an `assume`. Keyed by `String`, their contents could not be proved, so
//! these vectors carry their invariant (no key twice) and every operation here
//! states exactly what it does to the map or set they stand for.
use vstd::prelude::*;
use crate::processes::{
    less_than, lemma_text_lt_irreflexive, lemma_text_lt_total, lemma_text_lt_transitive, text_lt,
};
use crate::text::chars_of;

verus! {

/// The texts of a sequence of strings.
pub open spec fn texts(v: Seq<String>) -> Seq<Seq<char>> {
    v.map_values(|s: String| s@)
}

/// The set of texts a vector of strings holds.
pub open spec fn text_set(v: Seq<String>) -> Set<Seq<char>> {
    texts(v).to_set()
}

/// The texts of a sequence of pairs of strings.
pub open spec fn text_pairs(v: Seq<(String, String)>) -> Seq<(Seq<char>, Seq<char>)> {
    v.map_values(|p: (String, String)| (p.0@, p.1@))
}

/// The keys of a sequence of pairs.
pub open spec fn keys_of(s: Seq<(Seq<char>, Seq<char>)>) -> Seq<Seq<char>> {
    s.map_values(|p: (Seq<char>, Seq<char>)| p.0)
}

/// The map from each key of `s` to the value beside it.
pub open spec fn assoc(s: Seq<(Seq<char>, Seq<char>)>) -> Map<Seq<char>, Seq<char>> {
    Map::new(
        |k: Seq<char>| keys_of(s).contains(k),
        |k: Seq<char>| s[choose|i: int| 0 <= i < s.len() && s[i].0 == k].1,
    )
}

/// The map a vector of pairs of strings stands for.
pub open spec fn text_map(v: Seq<(String, String)>) -> Map<Seq<char>, Seq<char>> {
    assoc(text_pairs(v))
}

/// No key of `v` occurs twice.
pub open spec fn distinct_keys(v: Seq<(String, String)>) -> bool {
    keys_of(text_pairs(v)).no_duplicates()
}

/// No text of `v` occurs twice.
pub open spec fn distinct_texts(v: Seq<String>) -> bool {
    texts(v).no_duplicates()
}

pub proof fn lemma_assoc_at(s: Seq<(Seq<char>, Seq<char>)>, i: int)
    requires
        keys_of(s).no_duplicates(),
        0 <= i < s.len(),
    ensures
        assoc(s).contains_key(s[i].0),
        assoc(s)[s[i].0] == s[i].1,
{
    assert(keys_of(s)[i] == s[i].0);
    let j = choose|j: int| 0 <= j < s.len() && s[j].0 == s[i].0;
    assert(keys_of(s)[j] == s[j].0);
}

pub proof fn lemma_assoc_push(s: Seq<(Seq<char>, Seq<char>)>, k: Seq<char>, v: Seq<char>)
    requires
        keys_of(s).no_duplicates(),
        !assoc(s).contains_key(k),
    ensures
        keys_of(s.push((k, v))).no_duplicates(),
        assoc(s.push((k, v))) == assoc(s).insert(k, v),
{
    let t = s.push((k, v));
    assert(keys_of(t) =~= keys_of(s).push(k));
    assert forall|a: int, b: int|
        0 <= a < keys_of(t).len() && 0 <= b < keys_of(t).len() && a != b implies keys_of(t)[a]
        != keys_of(t)[b] by {
        if a < s.len() && b < s.len() {
            assert(keys_of(t)[a] == keys_of(s)[a]);
            assert(keys_of(t)[b] == keys_of(s)[b]);
        } else if a < s.len() {
            assert(keys_of(s)[a] == keys_of(t)[a]);
        } else {
            assert(keys_of(s)[b] == keys_of(t)[b]);
        }
    }
    assert forall|key: Seq<char>| #[trigger]
        assoc(t).contains_key(key) == assoc(s).insert(k, v).contains_key(key) by {
        if keys_of(s).contains(key) {
            let i = choose|i: int| 0 <= i < keys_of(s).len() && keys_of(s)[i] == key;
            assert(keys_of(t)[i] == key);
        }
        if keys_of(t).contains(key) && key != k {
            let i = choose|i: int| 0 <= i < keys_of(t).len() && keys_of(t)[i] == key;
            assert(keys_of(s)[i] == key);
        }
        assert(keys_of(t)[s.len() as int] == k);
    }
    assert forall|key: Seq<char>| #[trigger] assoc(t).contains_key(key) implies assoc(t)[key]
        == assoc(s).insert(k, v)[key] by {
        if key == k {
            lemma_assoc_at(t, s.len() as int);
        } else {
            let i = choose|i: int| 0 <= i < keys_of(t).len() && keys_of(t)[i] == key;
            assert(i < s.len());
            lemma_assoc_at(t, i);
            lemma_assoc_at(s, i);
        }
    }
    assert(assoc(t) =~= assoc(s).insert(k, v));
}

pub proof fn lemma_assoc_remove(s: Seq<(Seq<char>, Seq<char>)>, i: int)
    requires
        keys_of(s).no_duplicates(),
        0 <= i < s.len(),
    ensures
        keys_of(s.remove(i)).no_duplicates(),
        assoc(s.remove(i)) == assoc(s).remove(s[i].0),
{
    let t = s.remove(i);
    let k = s[i].0;
    assert(keys_of(t) =~= keys_of(s).remove(i));
    assert forall|a: int, b: int|
        0 <= a < keys_of(t).len() && 0 <= b < keys_of(t).len() && a != b implies keys_of(t)[a]
        != keys_of(t)[b] by {
        let a2 = if a < i { a } else { a + 1 };
        let b2 = if b < i { b } else { b + 1 };
        assert(keys_of(t)[a] == keys_of(s)[a2]);
        assert(keys_of(t)[b] == keys_of(s)[b2]);
    }
    assert forall|key: Seq<char>| #[trigger]
        assoc(t).contains_key(key) == assoc(s).remove(k).contains_key(key) by {
        if keys_of(t).contains(key) {
            let a = choose|a: int| 0 <= a < keys_of(t).len() && keys_of(t)[a] == key;
            let a2 = if a < i { a } else { a + 1 };
            assert(keys_of(s)[a2] == key);
            assert(keys_of(s)[i] == k);
        }
        if keys_of(s).contains(key) && key != k {
            let a = choose|a: int| 0 <= a < keys_of(s).len() && keys_of(s)[a] == key;
            assert(a != i);
            let a2 = if a < i { a } else { a - 1 };
            assert(keys_of(t)[a2] == key);
        }
    }
    assert forall|key: Seq<char>| #[trigger] assoc(t).contains_key(key) implies assoc(t)[key]
        == assoc(s).remove(k)[key] by {
        let a = choose|a: int| 0 <= a < keys_of(t).len() && keys_of(t)[a] == key;
        let a2 = if a < i { a } else { a + 1 };
        assert(t[a] == s[a2]);
        lemma_assoc_at(t, a);
        lemma_assoc_at(s, a2);
    }
    assert(assoc(t) =~= assoc(s).remove(k));
}

pub proof fn lemma_set_remove(s: Seq<Seq<char>>, i: int)
    requires
        s.no_duplicates(),
        0 <= i < s.len(),
    ensures
        s.remove(i).no_duplicates(),
        s.remove(i).to_set() == s.to_set().remove(s[i]),
{
    let t = s.remove(i);
    assert forall|a: int, b: int| 0 <= a < t.len() && 0 <= b < t.len() && a != b implies t[a]
        != t[b] by {
        let a2 = if a < i { a } else { a + 1 };
        let b2 = if b < i { b } else { b + 1 };
        assert(t[a] == s[a2]);
        assert(t[b] == s[b2]);
    }
    assert forall|x: Seq<char>| #[trigger] t.to_set().contains(x) == s.to_set().remove(
        s[i],
    ).contains(x) by {
        if t.contains(x) {
            let a = choose|a: int| 0 <= a < t.len() && t[a] == x;
            let a2 = if a < i { a } else { a + 1 };
            assert(s[a2] == x);
        }
        if s.contains(x) && x != s[i] {
            let a = choose|a: int| 0 <= a < s.len() && s[a] == x;
            let a2 = if a < i { a } else { a - 1 };
            assert(t[a2] == x);
        }
    }
    assert(t.to_set() =~= s.to_set().remove(s[i]));
}

pub proof fn lemma_set_push(s: Seq<Seq<char>>, x: Seq<char>)
    requires
        s.no_duplicates(),
        !s.contains(x),
    ensures
        s.push(x).no_duplicates(),
        s.push(x).to_set() == s.to_set().insert(x),
{
    let t = s.push(x);
    assert forall|a: int, b: int| 0 <= a < t.len() && 0 <= b < t.len() && a != b implies t[a]
        != t[b] by {
        if a < s.len() && b < s.len() {
            assert(t[a] == s[a] && t[b] == s[b]);
        } else if a < s.len() {
            assert(t[a] == s[a]);
        } else {
            assert(t[b] == s[b]);
        }
    }
    assert forall|y: Seq<char>| #[trigger] t.to_set().contains(y) == s.to_set().insert(
        x,
    ).contains(y) by {
        if s.contains(y) {
            let a = choose|a: int| 0 <= a < s.len() && s[a] == y;
            assert(t[a] == y);
        }
        if t.contains(y) && y != x {
            let a = choose|a: int| 0 <= a < t.len() && t[a] == y;
            assert(a < s.len());
            assert(s[a] == y);
        }
        assert(t[s.len() as int] == x);
    }
    assert(t.to_set() =~= s.to_set().insert(x));
}

/// The position of the entry for `key`, if there is one.
pub fn map_find(v: &Vec<(String, String)>, key: &String) -> (r: Option<usize>)
    ensures
        match r {
            Some(i) => i < v@.len() && v@[i as int].0@ == key@,
            None => !text_map(v@).contains_key(key@),
        },
{
    let mut i: usize = 0;
    while i < v.len()
        invariant
            i <= v@.len(),
            forall|j: int| 0 <= j < i ==> v@[j].0@ != key@,
        decreases v.len() - i,
    {
        if v[i].0 == *key {
            return Some(i);
        }
        i = i + 1;
    }
    proof {
        if keys_of(text_pairs(v@)).contains(key@) {
            let j = choose|j: int|
                0 <= j < keys_of(text_pairs(v@)).len() && keys_of(text_pairs(v@))[j] == key@;
            assert(keys_of(text_pairs(v@))[j] == v@[j].0@);
        }
    }
    None
}

/// Whether the map holds `key`.
pub fn map_contains(v: &Vec<(String, String)>, key: &String) -> (r: bool)
    requires
        distinct_keys(v@),
    ensures
        r == text_map(v@).contains_key(key@),
{
    match map_find(v, key) {
        Some(i) => {
            proof {
                lemma_assoc_at(text_pairs(v@), i as int);
            }
            true
        },
        None => false,
    }
}

/// Removes the entry for `key`; tells whether there was one.
pub fn map_remove(v: &mut Vec<(String, String)>, key: &String) -> (r: bool)
    requires
        distinct_keys(old(v)@),
    ensures
        distinct_keys(final(v)@),
        text_map(final(v)@) == text_map(old(v)@).remove(key@),
        r == text_map(old(v)@).contains_key(key@),
{
    match map_find(v, key) {
        Some(i) => {
            proof {
                lemma_assoc_at(text_pairs(v@), i as int);
                lemma_assoc_remove(text_pairs(v@), i as int);
            }
            let ghost before = v@;
            v.remove(i);
            proof {
                assert(text_pairs(v@) =~= text_pairs(before).remove(i as int));
            }
            true
        },
        None => {
            proof {
                assert(text_map(v@) =~= text_map(v@).remove(key@));
            }
            false
        },
    }
}

/// Adds an entry for a key that the map does not hold.
pub fn map_insert(v: &mut Vec<(String, String)>, key: String, value: String)
    requires
        distinct_keys(old(v)@),
        !text_map(old(v)@).contains_key(key@),
    ensures
        distinct_keys(final(v)@),
        text_map(final(v)@) == text_map(old(v)@).insert(key@, value@),
{
    proof {
        lemma_assoc_push(text_pairs(v@), key@, value@);
    }
    let ghost before = v@;
    v.push((key, value));
    proof {
        assert(text_pairs(v@) =~= text_pairs(before).push((key@, value@)));
    }
}

/// The position of `t` in the set, if it is there.
pub fn set_find(v: &Vec<String>, t: &String) -> (r: Option<usize>)
    ensures
        match r {
            Some(i) => i < v@.len() && v@[i as int]@ == t@,
            None => !text_set(v@).contains(t@),
        },
{
    let mut i: usize = 0;
    while i < v.len()
        invariant
            i <= v@.len(),
            forall|j: int| 0 <= j < i ==> v@[j]@ != t@,
        decreases v.len() - i,
    {
        if v[i] == *t {
            return Some(i);
        }
        i = i + 1;
    }
    proof {
        if texts(v@).contains(t@) {
            let j = choose|j: int| 0 <= j < texts(v@).len() && texts(v@)[j] == t@;
            assert(texts(v@)[j] == v@[j]@);
        }
    }
    None
}

/// Whether the set holds `t`.
pub fn set_contains(v: &Vec<String>, t: &String) -> (r: bool)
    ensures
        r == text_set(v@).contains(t@),
{
    match set_find(v, t) {
        Some(i) => {
            assert(texts(v@)[i as int] == t@);
            true
        },
        None => false,
    }
}

/// Adds `t` to the set.
pub fn set_insert(v: &mut Vec<String>, t: String)
    requires
        distinct_texts(old(v)@),
    ensures
        distinct_texts(final(v)@),
        text_set(final(v)@) == text_set(old(v)@).insert(t@),
{
    if set_contains(v, &t) {
        assert(text_set(v@) =~= text_set(v@).insert(t@));
    } else {
        proof {
            lemma_set_push(texts(v@), t@);
        }
        let ghost before = v@;
        v.push(t);
        assert(texts(v@) =~= texts(before).push(t@));
    }
}

/// Removes `t` from the set.
pub fn set_remove(v: &mut Vec<String>, t: &String)
    requires
        distinct_texts(old(v)@),
    ensures
        distinct_texts(final(v)@),
        text_set(final(v)@) == text_set(old(v)@).remove(t@),
{
    match set_find(v, t) {
        Some(i) => {
            proof {
                lemma_set_remove(texts(v@), i as int);
            }
            let ghost before = v@;
            v.remove(i);
            assert(texts(v@) =~= texts(before).remove(i as int));
        },
        None => {
            assert(text_set(v@) =~= text_set(v@).remove(t@));
        },
    }
}

pub proof fn lemma_set_prefix(v: Seq<String>, i: int)
    requires
        0 <= i < v.len(),
    ensures
        text_set(v.take(i + 1)) == text_set(v.take(i)).insert(v[i]@),
{
    assert(texts(v.take(i + 1)) =~= texts(v.take(i)).push(v[i]@));
    let a = texts(v.take(i));
    assert forall|x: Seq<char>| #[trigger] a.push(v[i]@).to_set().contains(x) == a.to_set().insert(
        v[i]@,
    ).contains(x) by {
        if a.push(v[i]@).contains(x) && x != v[i]@ {
            let j = choose|j: int| 0 <= j < a.push(v[i]@).len() && a.push(v[i]@)[j] == x;
            assert(a[j] == x);
        }
        if a.contains(x) {
            let j = choose|j: int| 0 <= j < a.len() && a[j] == x;
            assert(a.push(v[i]@)[j] == x);
        }
        assert(a.push(v[i]@)[a.len() as int] == v[i]@);
    }
    assert(text_set(v.take(i + 1)) =~= text_set(v.take(i)).insert(v[i]@));
}

/// The texts of `v`, each once, in the order they first occur.
pub fn distinct(v: &Vec<String>) -> (r: Vec<String>)
    ensures
        distinct_texts(r@),
        text_set(r@) == text_set(v@),
{
    let mut r: Vec<String> = Vec::new();
    let mut i: usize = 0;
    assert(text_set(r@) =~= text_set(v@.take(0)));
    while i < v.len()
        invariant
            i <= v@.len(),
            distinct_texts(r@),
            text_set(r@) == text_set(v@.take(i as int)),
        decreases v.len() - i,
    {
        proof {
            lemma_set_prefix(v@, i as int);
        }
        set_insert(&mut r, v[i].clone());
        i = i + 1;
    }
    assert(v@.take(v@.len() as int) =~= v@);
    r
}

/// Whether two vectors hold the same set of texts.
pub fn same_texts(a: &Vec<String>, b: &Vec<String>) -> (r: bool)
    ensures
        r == (text_set(a@) == text_set(b@)),
{
    let mut i: usize = 0;
    while i < a.len()
        invariant
            i <= a@.len(),
            forall|j: int| 0 <= j < i ==> text_set(b@).contains(#[trigger] a@[j]@),
        decreases a.len() - i,
    {
        if !set_contains(b, &a[i]) {
            assert(texts(a@)[i as int] == a@[i as int]@);
            assert(text_set(a@).contains(a@[i as int]@));
            return false;
        }
        i = i + 1;
    }
    let mut k: usize = 0;
    while k < b.len()
        invariant
            k <= b@.len(),
            forall|j: int| 0 <= j < k ==> text_set(a@).contains(#[trigger] b@[j]@),
        decreases b.len() - k,
    {
        if !set_contains(a, &b[k]) {
            assert(texts(b@)[k as int] == b@[k as int]@);
            assert(text_set(b@).contains(b@[k as int]@));
            return false;
        }
        k = k + 1;
    }
    assert(text_set(a@) =~= text_set(b@)) by {
        assert forall|t: Seq<char>| text_set(a@).contains(t) implies text_set(b@).contains(t) by {
            let j = choose|j: int| 0 <= j < texts(a@).len() && texts(a@)[j] == t;
            assert(texts(a@)[j] == a@[j]@);
        }
        assert forall|t: Seq<char>| text_set(b@).contains(t) implies text_set(a@).contains(t) by {
            let j = choose|j: int| 0 <= j < texts(b@).len() && texts(b@)[j] == t;
            assert(texts(b@)[j] == b@[j]@);
        }
    }
    true
}

/// Whether the texts of `s` are in strictly increasing order of `String`.
pub open spec fn in_text_order(s: Seq<Seq<char>>) -> bool {
    forall|i: int, j: int| 0 <= i < j < s.len() ==> text_lt(#[trigger] s[i], #[trigger] s[j])
}

/// The texts of `v`, which holds none twice, in increasing order of `String`
/// (the order of a `BTreeSet<String>`).
pub fn sorted_texts(v: Vec<String>) -> (r: Vec<String>)
    requires
        distinct_texts(v@),
    ensures
        text_set(r@) == text_set(v@),
        in_text_order(texts(r@)),
        distinct_texts(r@),
{
    let mut r: Vec<String> = Vec::new();
    let mut i: usize = 0;
    assert(text_set(r@) =~= text_set(v@.take(0)));
    while i < v.len()
        invariant
            i <= v@.len(),
            distinct_texts(v@),
            in_text_order(texts(r@)),
            text_set(r@) == text_set(v@.take(i as int)),
        decreases v.len() - i,
    {
        let x = v[i].clone();
        let xc = chars_of(x.as_str());
        proof {
            crate::collections::lemma_set_prefix(v@, i as int);
            assert(!text_set(v@.take(i as int)).contains(x@)) by {
                if text_set(v@.take(i as int)).contains(x@) {
                    let j = choose|j: int| 0 <= j < texts(v@.take(i as int)).len() && texts(v@.take(i as int))[j] == x@;
                    assert(texts(v@)[j] == texts(v@)[i as int]);
                }
            }
        }
        let mut pos: usize = 0;
        while pos < r.len() && !less_than(xc.as_slice(), chars_of(r[pos].as_str()).as_slice())
            invariant
                pos <= r@.len(),
                xc@ == x@,
                !text_set(r@).contains(x@),
                forall|m: int| 0 <= m < pos ==> text_lt(#[trigger] texts(r@)[m], x@),
            decreases r.len() - pos,
        {
            proof {
                assert(texts(r@)[pos as int] == r@[pos as int]@);
                assert(text_set(r@).contains(texts(r@)[pos as int]));
                lemma_text_lt_total(x@, texts(r@)[pos as int]);
            }
            pos = pos + 1;
        }
        let ghost before = texts(r@);
        proof {
            if pos < r@.len() {
                assert(text_lt(x@, before[pos as int]));
            }
        }
        r.insert(pos, x);
        proof {
            assert(texts(r@) =~= before.insert(pos as int, x@));
            let after = texts(r@);
            assert forall|a: int, b: int| 0 <= a < b < after.len() implies text_lt(
                #[trigger] after[a],
                #[trigger] after[b],
            ) by {
                if b < pos {
                    assert(after[a] == before[a] && after[b] == before[b]);
                } else if b == pos {
                    assert(after[a] == before[a]);
                } else if a == pos {
                    assert(after[b] == before[b - 1]);
                    if b - 1 > pos {
                        assert(text_lt(before[pos as int], before[b - 1]));
                        lemma_text_lt_transitive(x@, before[pos as int], before[b - 1]);
                    }
                } else if a < pos {
                    assert(after[a] == before[a] && after[b] == before[b - 1]);
                    if a < b - 1 {
                    } else {
                        assert(false);
                    }
                } else {
                    assert(after[a] == before[a - 1] && after[b] == before[b - 1]);
                }
            }
            assert(text_set(r@) =~= text_set(v@.take(i as int)).insert(x@)) by {
                assert forall|t: Seq<char>| text_set(r@).contains(t) == text_set(v@.take(i as int)).insert(
                    x@,
                ).contains(t) by {
                    if text_set(r@).contains(t) {
                        let j = choose|j: int| 0 <= j < after.len() && after[j] == t;
                        if j < pos {
                            assert(before[j] == t);
                            assert(text_set(v@.take(i as int)).contains(t));
                        } else if j > pos {
                            assert(before[j - 1] == t);
                            assert(text_set(v@.take(i as int)).contains(t));
                        }
                    }
                    if text_set(v@.take(i as int)).contains(t) && t != x@ {
                        assert(before.to_set().contains(t));
                        let j = choose|j: int| 0 <= j < before.len() && before[j] == t;
                        if j < pos {
                            assert(after[j] == t);
                        } else {
                            assert(after[j + 1] == t);
                        }
                    }
                    if t == x@ {
                        assert(after[pos as int] == x@);
                    }
                }
            }
        }
        i = i + 1;
    }
    assert(v@.take(v@.len() as int) =~= v@);
    proof {
        assert forall|a: int, b: int| 0 <= a < texts(r@).len() && 0 <= b < texts(r@).len() && a != b implies texts(r@)[a] != texts(r@)[b] by {
            if a < b {
                lemma_text_lt_irreflexive(texts(r@)[a]);
            } else {
                lemma_text_lt_irreflexive(texts(r@)[b]);
            }
        }
    }
    r
}

} // verus!
