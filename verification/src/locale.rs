//! Deciding whether the user interface language is Chinese, from what each
//! platform reports: the `AppleLanguages` preference list on macOS, the
//! locale variables on Linux, the UI language id on Windows.
use vstd::prelude::*;

use crate::text::{CharClass, chars_of, has_prefix, lowercase, lowercase_of, starts_with, strip, strip_chars};

verus! {

/// The lines of a text, split at each `'\n'`. A `'\r'` before a line break
/// stays in the line; the trimming applied to each line removes it.
pub open spec fn lines_of(s: Seq<char>) -> Seq<Seq<char>>
    decreases s.len(),
{
    if s.len() == 0 {
        seq![Seq::<char>::empty()]
    } else {
        let ls = lines_of(s.drop_last());
        if s.last() == '\n' {
            ls.push(Seq::<char>::empty())
        } else {
            ls.update(ls.len() - 1, ls.last().push(s.last()))
        }
    }
}

proof fn lemma_lines_nonempty(s: Seq<char>)
    ensures
        lines_of(s).len() >= 1,
    decreases s.len(),
{
    if s.len() > 0 {
        lemma_lines_nonempty(s.drop_last());
    }
}

/// An entry of the preference list: the line with white space, then quotes
/// and commas, trimmed from both ends.
pub open spec fn clean_entry(line: Seq<char>) -> Seq<char> {
    strip(strip(line, CharClass::WhiteSpace), CharClass::QuoteOrComma)
}

/// Lines that hold no language: empty ones and the list's brackets.
pub open spec fn is_list_punctuation(t: Seq<char>) -> bool {
    t.len() == 0 || t == seq!['('] || t == seq![')']
}

/// The first entry, in order, that is not list punctuation.
pub open spec fn first_entry(lines: Seq<Seq<char>>) -> Option<Seq<char>>
    decreases lines.len(),
{
    if lines.len() == 0 {
        None
    } else if is_list_punctuation(clean_entry(lines[0])) {
        first_entry(lines.drop_first())
    } else {
        Some(clean_entry(lines[0]))
    }
}

/// A language tag is Chinese when it starts with `zh`.
pub open spec fn tag_is_chinese(tag: Seq<char>) -> bool {
    starts_with(tag, seq!['z', 'h'])
}

/// The most preferred language in `defaults read -g AppleLanguages` output
/// (`(\n    "zh-Hans-CN",\n    en,\n)\n`) is Chinese; false for a list
/// without entries.
pub open spec fn apple_languages_chinese(text: Seq<char>) -> bool {
    match first_entry(lines_of(text)) {
        Some(t) => tag_is_chinese(t),
        None => false,
    }
}

/// The texts held by a list of character vectors.
pub open spec fn texts(ls: Seq<Vec<char>>) -> Seq<Seq<char>> {
    ls.map_values(|v: Vec<char>| v@)
}

/// The first line holding more than list punctuation gives the entry: the
/// lines before it are passed over and the lines after it are not looked at.
pub proof fn first_real_line_gives_entry(lines: Seq<Seq<char>>, i: int)
    requires
        0 <= i < lines.len(),
        !is_list_punctuation(clean_entry(lines[i])),
        forall|j: int| 0 <= j < i ==> is_list_punctuation(#[trigger] clean_entry(lines[j])),
    ensures
        first_entry(lines) == Some(clean_entry(lines[i])),
    decreases i,
{
    if i > 0 {
        let rest = lines.drop_first();
        assert(is_list_punctuation(clean_entry(lines[0])));
        assert forall|j: int| 0 <= j < i - 1 implies is_list_punctuation(
            #[trigger] clean_entry(rest[j]),
        ) by {
            assert(rest[j] == lines[j + 1]);
            assert(is_list_punctuation(clean_entry(lines[j + 1])));
        }
        first_real_line_gives_entry(rest, i - 1);
    }
}

/// Text made only of list punctuation holds no entry.
pub proof fn punctuation_only_gives_no_entry(lines: Seq<Seq<char>>)
    requires
        forall|j: int| 0 <= j < lines.len() ==> is_list_punctuation(#[trigger] clean_entry(lines[j])),
    ensures
        first_entry(lines) is None,
    decreases lines.len(),
{
    if lines.len() > 0 {
        let rest = lines.drop_first();
        assert(is_list_punctuation(clean_entry(lines[0])));
        assert forall|j: int| 0 <= j < rest.len() implies is_list_punctuation(
            #[trigger] clean_entry(rest[j]),
        ) by {
            assert(rest[j] == lines[j + 1]);
            assert(is_list_punctuation(clean_entry(lines[j + 1])));
        }
        punctuation_only_gives_no_entry(rest);
    }
}

fn split_lines(text: &Vec<char>) -> (lines: Vec<Vec<char>>)
    ensures
        texts(lines@) == lines_of(text@),
{
    let mut lines: Vec<Vec<char>> = Vec::new();
    let mut cur: Vec<char> = Vec::new();
    let mut i: usize = 0;
    while i < text.len()
        invariant
            i <= text.len(),
            texts(lines@) + seq![cur@] == lines_of(text@.take(i as int)),
        decreases text.len() - i,
    {
        let c = text[i];
        let ghost before = texts(lines@) + seq![cur@];
        proof {
            assert(text@.take(i + 1).drop_last() =~= text@.take(i as int));
            lemma_lines_nonempty(text@.take(i as int));
        }
        if c == '\n' {
            let done = cur;
            let ghost prev = lines@;
            lines.push(done);
            assert(texts(lines@) =~= texts(prev).push(done@));
            cur = Vec::new();
            assert(texts(lines@) + seq![cur@] =~= before.push(Seq::<char>::empty()));
        } else {
            cur.push(c);
            assert(texts(lines@) + seq![cur@] =~= before.update(
                before.len() - 1,
                before.last().push(c),
            ));
        }
        i = i + 1;
    }
    assert(text@.take(i as int) =~= text@);
    let ghost prev = lines@;
    lines.push(cur);
    assert(texts(lines@) =~= texts(prev) + seq![lines@.last()@]);
    lines
}

/// Whether the text is a bracket line `(` or `)`, or empty.
fn punctuation(t: &Vec<char>) -> (r: bool)
    ensures
        r == is_list_punctuation(t@),
{
    if t.len() == 0 {
        return true;
    }
    if t.len() == 1 && (t[0] == '(' || t[0] == ')') {
        assert(t@ =~= seq![t[0]]);
        return true;
    }
    if t.len() == 1 {
        assert(t@ != seq!['('] && t@ != seq![')']) by {
            if t@ == seq!['('] {
                assert(t@[0] == '(');
            }
            if t@ == seq![')'] {
                assert(t@[0] == ')');
            }
        }
    }
    false
}

/// Whether a language tag starts with `zh`.
pub fn locale_tag_is_chinese(tag: &str) -> (r: bool)
    ensures
        r == tag_is_chinese(tag@),
{
    let t = chars_of(tag);
    let zh = chars_of("zh");
    proof {
        reveal_strlit("zh");
        assert(zh@ =~= seq!['z', 'h']);
    }
    has_prefix(&t, &zh)
}

fn chars_are_chinese(t: &Vec<char>) -> (r: bool)
    ensures
        r == tag_is_chinese(t@),
{
    let zh = chars_of("zh");
    proof {
        reveal_strlit("zh");
        assert(zh@ =~= seq!['z', 'h']);
    }
    has_prefix(t, &zh)
}

/// Whether the first language in the macOS `AppleLanguages` preference list
/// (as `defaults read -g AppleLanguages` prints it) is Chinese.
pub fn apple_languages_prefer_chinese(output: &str) -> (r: bool)
    ensures
        r == apple_languages_chinese(output@),
{
    let text = chars_of(output);
    let lines = split_lines(&text);
    let ghost all = texts(lines@);
    assert(all.skip(0) =~= all);
    let mut k: usize = 0;
    while k < lines.len()
        invariant
            k <= lines.len(),
            all == texts(lines@),
            all == lines_of(output@),
            first_entry(all) == first_entry(all.skip(k as int)),
        decreases lines.len() - k,
    {
        let trimmed = strip_chars(&lines[k], &CharClass::WhiteSpace);
        let entry = strip_chars(&trimmed, &CharClass::QuoteOrComma);
        proof {
            assert(all.skip(k as int)[0] == lines[k as int]@);
            assert(all.skip(k as int).drop_first() =~= all.skip(k + 1));
        }
        if !punctuation(&entry) {
            return chars_are_chinese(&entry);
        }
        k = k + 1;
    }
    assert(all.skip(k as int) =~= Seq::<Seq<char>>::empty());
    false
}

/// The first locale variable that is set and not empty.
pub open spec fn first_locale(values: Seq<Option<String>>) -> Option<Seq<char>>
    decreases values.len(),
{
    if values.len() == 0 {
        None
    } else if values[0] is Some && values[0]->0@.len() > 0 {
        Some(values[0]->0@)
    } else {
        first_locale(values.drop_first())
    }
}

/// The first variable that is set and not empty decides: earlier ones that
/// are unset or empty are passed over, and later ones are not looked at.
pub proof fn first_set_locale_decides(values: Seq<Option<String>>, i: int)
    requires
        0 <= i < values.len(),
        values[i] is Some,
        values[i]->0@.len() > 0,
        forall|j: int| 0 <= j < i ==> !(values[j] is Some && values[j]->0@.len() > 0),
    ensures
        first_locale(values) == Some(values[i]->0@),
    decreases i,
{
    if i > 0 {
        let rest = values.drop_first();
        assert forall|j: int| 0 <= j < i - 1 implies !(rest[j] is Some && rest[j]->0@.len() > 0) by {
            assert(rest[j] == values[j + 1]);
        }
        first_set_locale_decides(rest, i - 1);
    }
}

/// Where no variable is set to a non-empty value, none decides.
pub proof fn no_set_locale_decides_nothing(values: Seq<Option<String>>)
    requires
        forall|j: int| 0 <= j < values.len() ==> !(values[j] is Some && values[j]->0@.len() > 0),
    ensures
        first_locale(values) is None,
    decreases values.len(),
{
    if values.len() > 0 {
        let rest = values.drop_first();
        assert forall|j: int| 0 <= j < rest.len() implies !(rest[j] is Some && rest[j]->0@.len()
            > 0) by {
            assert(rest[j] == values[j + 1]);
        }
        no_set_locale_decides_nothing(rest);
    }
}

/// An unset variable in front is passed over.
pub proof fn unset_locale_is_skipped(rest: Seq<Option<String>>)
    ensures
        first_locale(seq![None::<String>] + rest) == first_locale(rest),
{
    assert((seq![None::<String>] + rest).drop_first() =~= rest);
}

/// The locale variables, in the order they are consulted on Linux.
pub fn locale_variables() -> (names: Vec<&'static str>)
    ensures
        names@.len() == 3,
        names@[0]@ == seq!['L', 'C', '_', 'A', 'L', 'L'],
        names@[1]@ == seq!['L', 'C', '_', 'M', 'E', 'S', 'S', 'A', 'G', 'E', 'S'],
        names@[2]@ == seq!['L', 'A', 'N', 'G'],
{
    proof {
        reveal_strlit("LC_ALL");
        reveal_strlit("LC_MESSAGES");
        reveal_strlit("LANG");
    }
    let mut names: Vec<&'static str> = Vec::new();
    names.push("LC_ALL");
    names.push("LC_MESSAGES");
    names.push("LANG");
    assert("LC_ALL"@ =~= seq!['L', 'C', '_', 'A', 'L', 'L']);
    assert("LC_MESSAGES"@ =~= seq!['L', 'C', '_', 'M', 'E', 'S', 'S', 'A', 'G', 'E', 'S']);
    assert("LANG"@ =~= seq!['L', 'A', 'N', 'G']);
    names
}

/// Whether the locale is Chinese on Linux, given the values of the locale
/// variables in the order `locale_variables` lists them (`None` where one is
/// not set): the first non-empty value decides, lowercased, by its `zh`
/// prefix; without one the answer is no.
pub fn locale_prefers_chinese(values: &Vec<Option<String>>) -> (r: bool)
    ensures
        r == (match first_locale(values@) {
            Some(v) => tag_is_chinese(lowercase_of(v)),
            None => false,
        }),
{
    assert(values@.skip(0) =~= values@);
    let mut k: usize = 0;
    while k < values.len()
        invariant
            k <= values.len(),
            first_locale(values@) == first_locale(values@.skip(k as int)),
        decreases values.len() - k,
    {
        proof {
            assert(values@.skip(k as int)[0] == values@[k as int]);
            assert(values@.skip(k as int).drop_first() =~= values@.skip(k + 1));
        }
        match &values[k] {
            Some(v) => {
                if !v.as_str().is_empty() {
                    let lowered = lowercase(v.as_str());
                    return locale_tag_is_chinese(lowered.as_str());
                }
            },
            None => {},
        }
        k = k + 1;
    }
    assert(values@.skip(k as int) =~= Seq::<Option<String>>::empty());
    false
}

/// The primary language of a Windows `LANGID` (its low ten bits) is Chinese
/// (`LANG_CHINESE`, 4).
pub fn langid_is_chinese(langid: u16) -> (r: bool)
    ensures
        r == (langid % 1024 == 4),
{
    assert((langid & 0x3ff) == langid % 1024) by (bit_vector);
    (langid & 0x3ff) == 0x04
}

} // verus!
