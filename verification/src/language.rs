//! The interface language and the bundled translation it selects.
use vstd::prelude::*;
use crate::text::chars_of;

verus! {

/// The language setting.
#[derive(Clone, Copy, Debug, Default, PartialEq, Eq, Structural)]
pub enum Language {
    /// Follow the Windows display language.
    #[default]
    System,
    English,
    TraditionalChinese,
}

/// The position of a language in the list of choices.
pub open spec fn language_position(language: Language) -> i32 {
    match language {
        Language::System => 0,
        Language::English => 1,
        Language::TraditionalChinese => 2,
    }
}

/// The language at a position in the list of choices; any other position
/// follows the system.
pub open spec fn language_at(index: i32) -> Language {
    if index == 1 {
        Language::English
    } else if index == 2 {
        Language::TraditionalChinese
    } else {
        Language::System
    }
}

/// A language read back from its position is the same language.
pub proof fn law_language_index_round_trip(language: Language)
    ensures
        language_at(language_position(language)) == language,
{
}

/// The name of the Traditional Chinese translation, `zh-TW`.
pub open spec fn traditional_chinese() -> Seq<char> {
    seq!['z', 'h', '-', 'T', 'W']
}

/// The bundled translations, by folder name; English is the untranslated default.
pub open spec fn bundled_translations() -> Seq<Seq<char>> {
    seq![traditional_chinese()]
}

/// Whether `c` ends the language part of a locale name.
pub open spec fn ends_language(c: char) -> bool {
    c == '-' || c == '_' || c == '@'
}

/// The language part of a locale name: everything before the first `-`, `_` or `@`.
pub open spec fn language_part(s: Seq<char>) -> Seq<char>
    decreases s.len(),
{
    if s.len() == 0 {
        s
    } else if ends_language(s[0]) {
        Seq::empty()
    } else {
        seq![s[0]] + language_part(s.drop_first())
    }
}

/// The first of `names` equal to `locale`.
pub open spec fn first_exact(names: Seq<Seq<char>>, locale: Seq<char>) -> Option<Seq<char>>
    decreases names.len(),
{
    if names.len() == 0 {
        None
    } else if names[0] == locale {
        Some(names[0])
    } else {
        first_exact(names.drop_first(), locale)
    }
}

/// The first of `names` whose language part is that of `locale`.
pub open spec fn first_same_language(names: Seq<Seq<char>>, locale: Seq<char>) -> Option<
    Seq<char>,
>
    decreases names.len(),
{
    if names.len() == 0 {
        None
    } else if language_part(names[0]) == language_part(locale) {
        Some(names[0])
    } else {
        first_same_language(names.drop_first(), locale)
    }
}

/// The bundled translation for a locale, matched the way Slint matches it:
/// the exact name first, then the language part; empty (English) when none matches.
pub open spec fn bundled_for(locale: Seq<char>) -> Seq<char> {
    match first_exact(bundled_translations(), locale) {
        Some(name) => name,
        None => match first_same_language(bundled_translations(), locale) {
            Some(name) => name,
            None => Seq::empty(),
        },
    }
}

/// The translation a language setting selects, given the system locale.
pub open spec fn selected_translation(language: Language, locale: Option<Seq<char>>) -> Seq<char> {
    match language {
        Language::System => match locale {
            Some(l) => bundled_for(l),
            None => Seq::empty(),
        },
        Language::English => Seq::empty(),
        Language::TraditionalChinese => traditional_chinese(),
    }
}

/// Whether two character sequences are equal.
fn same_chars(a: &[char], b: &[char]) -> (r: bool)
    ensures
        r == (a@ == b@),
{
    if a.len() != b.len() {
        return false;
    }
    let mut i: usize = 0;
    while i < a.len()
        invariant
            i <= a@.len() == b@.len(),
            a@.take(i as int) == b@.take(i as int),
        decreases a.len() - i,
    {
        if a[i] != b[i] {
            return false;
        }
        i = i + 1;
        assert(a@.take(i as int) =~= a@.take(i - 1).push(a@[i - 1]));
        assert(b@.take(i as int) =~= b@.take(i - 1).push(b@[i - 1]));
    }
    assert(a@ =~= a@.take(i as int));
    assert(b@ =~= b@.take(i as int));
    true
}

proof fn lemma_language_part_prefix(s: Seq<char>, k: int)
    requires
        0 <= k <= s.len(),
        forall|j: int| 0 <= j < k ==> !ends_language(#[trigger] s[j]),
    ensures
        language_part(s) == s.take(k) + language_part(s.skip(k)),
    decreases k,
{
    if k > 0 {
        let rest = s.drop_first();
        assert forall|j: int| 0 <= j < k - 1 implies !ends_language(#[trigger] rest[j]) by {
            assert(rest[j] == s[j + 1]);
        }
        lemma_language_part_prefix(rest, k - 1);
        assert(rest.skip(k - 1) =~= s.skip(k));
        assert(s.take(k) =~= seq![s[0]] + rest.take(k - 1));
    } else {
        assert(s.skip(0) =~= s);
    }
}

/// The language part of a locale name.
fn language_of(locale: &[char]) -> (r: Vec<char>)
    ensures
        r@ == language_part(locale@),
{
    let mut r: Vec<char> = Vec::new();
    let mut i: usize = 0;
    while i < locale.len() && !(locale[i] == '-' || locale[i] == '_' || locale[i] == '@')
        invariant
            i <= locale@.len(),
            r@ == locale@.take(i as int),
            forall|j: int| 0 <= j < i ==> !ends_language(#[trigger] locale@[j]),
        decreases locale.len() - i,
    {
        r.push(locale[i]);
        i = i + 1;
        assert(r@ =~= locale@.take(i as int));
    }
    proof {
        lemma_language_part_prefix(locale@, i as int);
        let rest = locale@.skip(i as int);
        if rest.len() > 0 {
            assert(rest[0] == locale@[i as int]);
        }
        assert(language_part(rest) =~= Seq::<char>::empty());
        assert(r@ + Seq::<char>::empty() =~= r@);
    }
    r
}

/// The bundled translation for a locale name, where "" means English.
fn bundled_language(locale: &str) -> (r: &'static str)
    ensures
        r@ == bundled_for(locale@),
{
    let names: [&'static str; 1] = ["zh-TW"];
    proof {
        reveal_strlit("zh-TW");
        assert("zh-TW"@ =~= traditional_chinese());
        assert(names@.map_values(|n: &str| n@) =~= bundled_translations());
        assert(bundled_translations().skip(0) =~= bundled_translations());
    }
    let wanted = chars_of(locale);
    let mut i: usize = 0;
    while i < 1
        invariant
            i <= 1,
            wanted@ == locale@,
            names@.map_values(|n: &str| n@) == bundled_translations(),
            first_exact(bundled_translations(), locale@) == first_exact(
                bundled_translations().skip(i as int),
                locale@,
            ),
        decreases 1 - i,
    {
        let candidate = chars_of(names[i]);
        assert(names@[i as int]@ == bundled_translations()[i as int]);
        if same_chars(candidate.as_slice(), wanted.as_slice()) {
            return names[i];
        }
        assert(bundled_translations().skip(i as int).drop_first() =~= bundled_translations().skip(
            i + 1,
        ));
        i = i + 1;
    }
    let wanted_language = language_of(wanted.as_slice());
    let mut i: usize = 0;
    assert(bundled_translations().skip(0) =~= bundled_translations());
    while i < 1
        invariant
            i <= 1,
            wanted@ == locale@,
            wanted_language@ == language_part(locale@),
            names@.map_values(|n: &str| n@) == bundled_translations(),
            first_exact(bundled_translations(), locale@) == None::<Seq<char>>,
            first_same_language(bundled_translations(), locale@) == first_same_language(
                bundled_translations().skip(i as int),
                locale@,
            ),
        decreases 1 - i,
    {
        let candidate = chars_of(names[i]);
        assert(names@[i as int]@ == bundled_translations()[i as int]);
        let candidate_language = language_of(candidate.as_slice());
        if same_chars(candidate_language.as_slice(), wanted_language.as_slice()) {
            return names[i];
        }
        assert(bundled_translations().skip(i as int).drop_first() =~= bundled_translations().skip(
            i + 1,
        ));
        i = i + 1;
    }
    proof {
        reveal_strlit("");
    }
    ""
}

impl Language {
    /// The position of this language in the list of choices.
    pub fn index(self) -> (r: i32)
        ensures
            r == language_position(self),
    {
        match self {
            Language::System => 0,
            Language::English => 1,
            Language::TraditionalChinese => 2,
        }
    }

    /// The language at a position in the list of choices.
    pub fn from_index(index: i32) -> (r: Self)
        ensures
            r == language_at(index),
    {
        match index {
            1 => Language::English,
            2 => Language::TraditionalChinese,
            _ => Language::System,
        }
    }

    /// The bundled translation to select, where "" means English. The system
    /// setting follows `system_locale`, and English when it is unknown.
    pub fn translation(self, system_locale: Option<&str>) -> (r: &'static str)
        ensures
            r@ == selected_translation(self, crate::identity::opt_text(system_locale)),
    {
        match self {
            Language::System => match system_locale {
                Some(locale) => bundled_language(locale),
                None => {
                    proof {
                        reveal_strlit("");
                    }
                    ""
                },
            },
            Language::English => {
                proof {
                    reveal_strlit("");
                }
                ""
            },
            Language::TraditionalChinese => {
                proof {
                    reveal_strlit("zh-TW");
                    assert("zh-TW"@ =~= traditional_chinese());
                }
                "zh-TW"
            },
        }
    }
}

} // verus!
