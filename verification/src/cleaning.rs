//! Cleaning a file's base name down to the name of the show.
use crate::matching::{
    lowercase, pattern_compiles, pattern_remove_all, regex_compiles, regex_removed_all, to_lower,
};
use crate::text::{
    ascii_lower, ascii_lower_char, ascii_upper, lemma_trim_within, lemma_without_is_filter, is_ascii_text, is_trimmed, lemma_ascii_case_change, lemma_trim_idempotent, lemma_trim_is_trimmed, strip_chars, trim, trim_text, without,
};
use vstd::prelude::*;

verus! {

/// The patterns removed, in this order, from the lowercased base name: the
/// extension, bracketed and parenthesised parts, web sites, separators,
/// encodings, languages, subtitles, qualities, audio encodings, season
/// markers, whole `episode N` markers (before the shorter `ep` marker can
/// remove `ep` out of `episode`), episode numbers, `ep` markers, and stray
/// numbers.
pub open spec fn clean_patterns() -> Seq<Seq<char>> {
    seq![
        r"\.[^.]+$"@,
        r"\[[^]]*\]"@,
        r"\([^)]*\)"@,
        r"www\.[^.]*\.[^\s]+"@,
        r"(\+|\.|\(|\)|_)"@,
        r"[\w\.]{0,2}26\d"@,
        r"\d{1,2}.?bit[s]?"@,
        r"nvenc|hevc|bluray|(bd|hd|dvd|web)rip|xvid|hdlight"@,
        r"\W(vost(\D{1,2})?|vf\w{0,3})\W?"@,
        r"\W(true)?french|eng\W?"@,
        r"\W(multi\w{0,3}|sub\w{0,3})\W"@,
        r"(480|720|1080)\D"@,
        r"ac3|aac"@,
        r"[Ss]([0-9]+)[ ._-]*[Ee]([0-9]+)([^\\/]*)"@,
        r"[Ss]eason\s*\d+"@,
        r"episode[s]?(\W?\d{1,3}\W?)?"@,
        r"\W\-?\s?\d{1,3}\W"@,
        r"\Wep?\s*\d*"@,
        r"\W\d+"@,
    ]
}

/// The characters dropped after the patterns are removed.
pub open spec fn separator_chars() -> Seq<char> {
    seq![':', '\n', '-', '_']
}

/// Every pattern of the list compiles.
pub open spec fn all_compile(patterns: Seq<Seq<char>>) -> bool {
    forall|i: int| 0 <= i < patterns.len() ==> regex_compiles(#[trigger] patterns[i])
}

/// `text` with every match of each pattern removed, pattern after pattern.
pub open spec fn remove_each(patterns: Seq<Seq<char>>, text: Seq<char>) -> Seq<char>
    decreases patterns.len(),
{
    if patterns.len() == 0 {
        text
    } else {
        regex_removed_all(patterns.last(), remove_each(patterns.drop_last(), text))
    }
}

/// The show name that `clean_name` gives for a base name.
pub open spec fn cleaned(text: Seq<char>) -> Seq<char> {
    trim(
        lowercase(
            without(remove_each(clean_patterns(), lowercase(text)), separator_chars()),
        ),
    )
}

/// The pattern that `_clean_vost` removes.
pub open spec fn vost_pattern() -> Seq<char> {
    r"\W?(VOST\D{1,2}|VF\w{0,3})"@
}

fn clean_pattern_list() -> (v: Vec<&'static str>)
    ensures
        v@.len() == clean_patterns().len(),
        forall|i: int| 0 <= i < v@.len() ==> (#[trigger] v@[i])@ == clean_patterns()[i],
{
    let v = vec![
        r"\.[^.]+$",
        r"\[[^]]*\]",
        r"\([^)]*\)",
        r"www\.[^.]*\.[^\s]+",
        r"(\+|\.|\(|\)|_)",
        r"[\w\.]{0,2}26\d",
        r"\d{1,2}.?bit[s]?",
        r"nvenc|hevc|bluray|(bd|hd|dvd|web)rip|xvid|hdlight",
        r"\W(vost(\D{1,2})?|vf\w{0,3})\W?",
        r"\W(true)?french|eng\W?",
        r"\W(multi\w{0,3}|sub\w{0,3})\W",
        r"(480|720|1080)\D",
        r"ac3|aac",
        r"[Ss]([0-9]+)[ ._-]*[Ee]([0-9]+)([^\\/]*)",
        r"[Ss]eason\s*\d+",
        r"episode[s]?(\W?\d{1,3}\W?)?",
        r"\W\-?\s?\d{1,3}\W",
        r"\Wep?\s*\d*",
        r"\W\d+",
    ];
    assert(v@.map_values(|p: &str| p@) =~= clean_patterns());
    assert forall|i: int| 0 <= i < v@.len() implies (#[trigger] v@[i])@ == clean_patterns()[i] by {
        assert(v@.map_values(|p: &str| p@)[i] == v@[i]@);
    }
    v
}

/// Whether every cleaning pattern compiles.
pub fn clean_patterns_compile() -> (res: bool)
    ensures
        res == all_compile(clean_patterns()),
{
    let pats = clean_pattern_list();
    let mut i: usize = 0;
    while i < pats.len()
        invariant
            i <= pats@.len(),
            pats@.len() == clean_patterns().len(),
            forall|k: int| 0 <= k < pats@.len() ==> (#[trigger] pats@[k])@ == clean_patterns()[k],
            forall|k: int| 0 <= k < i ==> regex_compiles(#[trigger] clean_patterns()[k]),
        decreases pats@.len() - i,
    {
        if !pattern_compiles(pats[i]) {
            assert(!regex_compiles(clean_patterns()[i as int]));
            return false;
        }
        i = i + 1;
    }
    true
}

/// Cleans a file's base name down to the show's name: lowercases it, removes
/// each cleaning pattern in turn, drops the separators `:`, newline, `-`
/// and `_`, lowercases again and trims the surrounding whitespace.
///
/// For example `"Breaking Bad x264 season 1 ep 4"` gives `"breaking bad"`.
///
/// Every cleaning pattern must compile (`try_clean_name` tells when one does
/// not).
pub fn clean_name(text: &String) -> (res: String)
    requires
        all_compile(clean_patterns()),
    ensures
        res@ == cleaned(text@),
        is_trimmed(res@),
{
    let pats = clean_pattern_list();
    let mut t = to_lower(text.as_str());
    let ghost start = t@;
    let mut i: usize = 0;
    while i < pats.len()
        invariant
            i <= pats@.len(),
            pats@.len() == clean_patterns().len(),
            forall|k: int| 0 <= k < pats@.len() ==> (#[trigger] pats@[k])@ == clean_patterns()[k],
            all_compile(clean_patterns()),
            t@ == remove_each(clean_patterns().take(i as int), start),
        decreases pats@.len() - i,
    {
        assert(regex_compiles(clean_patterns()[i as int]));
        assert(clean_patterns().take(i + 1).drop_last() =~= clean_patterns().take(i as int));
        t = pattern_remove_all(pats[i], t.as_str());
        i = i + 1;
    }
    assert(clean_patterns().take(pats@.len() as int) =~= clean_patterns());
    let seps: [char; 4] = [':', '\n', '-', '_'];
    assert(seps@ =~= separator_chars());
    let stripped = strip_chars(t.as_str(), &seps);
    let lowered = to_lower(stripped.as_str());
    let res = trim_text(lowered.as_str());
    proof {
        lemma_trim_is_trimmed(lowered@);
    }
    res
}

/// `clean_name`, or `None` when one of its patterns does not compile.
pub fn try_clean_name(text: &String) -> (res: Option<String>)
    ensures
        res is Some <==> all_compile(clean_patterns()),
        res matches Some(r) ==> r@ == cleaned(text@),
{
    if clean_patterns_compile() {
        Some(clean_name(text))
    } else {
        None
    }
}

/// Removes the French subtitle and dubbing markers (`VOST..`, `VF...`, with
/// the non-word character before them) and lowercases the result.
pub fn _clean_vost(text: &str) -> (res: String)
    requires
        regex_compiles(vost_pattern()),
    ensures
        res@ == lowercase(regex_removed_all(vost_pattern(), text@)),
{
    let removed = pattern_remove_all(r"\W?(VOST\D{1,2}|VF\w{0,3})", text);
    to_lower(removed.as_str())
}

/// `_clean_vost`, or `None` when its pattern does not compile.
pub fn try_clean_vost(text: &str) -> (res: Option<String>)
    ensures
        res is Some <==> regex_compiles(vost_pattern()),
        res matches Some(r) ==> r@ == lowercase(regex_removed_all(vost_pattern(), text@)),
{
    if pattern_compiles(r"\W?(VOST\D{1,2}|VF\w{0,3})") {
        Some(_clean_vost(text))
    } else {
        None
    }
}

/// Two names that lowercase alike clean alike.
pub proof fn lemma_cleaning_ignores_case(a: Seq<char>, b: Seq<char>)
    requires
        lowercase(a) == lowercase(b),
    ensures
        cleaned(a) == cleaned(b),
{
}

/// For an ASCII name, changing the case of its letters does not change what
/// it cleans to.
pub proof fn lemma_cleaning_ignores_ascii_case(a: Seq<char>)
    requires
        is_ascii_text(a),
    ensures
        cleaned(ascii_upper(a)) == cleaned(a),
        cleaned(ascii_lower(a)) == cleaned(a),
{
    lemma_ascii_case_change(a);
}

/// The text left once the cleaning patterns are removed from the lowercased
/// name.
pub open spec fn pattern_free(text: Seq<char>) -> Seq<char> {
    remove_each(clean_patterns(), lowercase(text))
}

/// A separator dropped from the cleaned name: `:`, newline, `-` or `_`.
pub open spec fn is_separator(c: char) -> bool {
    c == ':' || c == '\n' || c == '-' || c == '_'
}

/// Cleaning drops the separators `:`, newline, `-` and `_` from what the
/// patterns leave, and nothing else: the cleaned name is the lowercased,
/// trimmed text of exactly the other characters, in order.
pub proof fn lemma_cleaning_drops_separators(text: Seq<char>)
    ensures
        cleaned(text) == trim(lowercase(pattern_free(text).filter(|c: char| !is_separator(c)))),
{
    let r = pattern_free(text);
    lemma_without_is_filter(r, separator_chars());
    let p1 = |c: char| !separator_chars().contains(c);
    let p2 = |c: char| !is_separator(c);
    assert forall|c: char| #[trigger] p1(c) == p2(c) by {
        let sep = separator_chars();
        if c == ':' {
            assert(sep[0] == c);
        } else if c == '\n' {
            assert(sep[1] == c);
        } else if c == '-' {
            assert(sep[2] == c);
        } else if c == '_' {
            assert(sep[3] == c);
        } else {
            assert forall|i: int| 0 <= i < sep.len() implies sep[i] != c by {}
        }
    }
    assert(p1 =~= p2);
}

/// When what the patterns leave is ASCII, the cleaned name holds none of the
/// separators `:`, newline, `-` and `_`.
pub proof fn lemma_cleaned_has_no_separator(text: Seq<char>)
    requires
        is_ascii_text(pattern_free(text)),
    ensures
        forall|i: int| 0 <= i < cleaned(text).len() ==> !is_separator(#[trigger] cleaned(text)[i]),
{
    lemma_cleaning_drops_separators(text);
    let pred = |c: char| !is_separator(c);
    let r = pattern_free(text);
    let f = r.filter(pred);
    broadcast use vstd::seq_lib::group_filter_ensures;
    assert(is_ascii_text(f)) by {
        assert forall|i: int| 0 <= i < f.len() implies (#[trigger] f[i]) <= '\x7f' by {
            assert(f.contains(f[i]));
            r.lemma_filter_contains_rev(pred, f[i]);
        }
    }
    let low = lowercase(f);
    assert(low == ascii_lower(f));
    assert forall|i: int| 0 <= i < low.len() implies !is_separator(#[trigger] low[i]) by {
        r.lemma_filter_pred(pred, i);
        assert(pred(f[i]));
        if 'A' <= f[i] && f[i] <= 'Z' {
            assert(ascii_lower_char(f[i]) as u32 == f[i] as u32 + 32);
        }
    }
    lemma_trim_within(low);
    assert forall|i: int| 0 <= i < cleaned(text).len() implies !is_separator(
        #[trigger] cleaned(text)[i],
    ) by {
        assert(low.contains(cleaned(text)[i]));
    }
}

/// A cleaned name has no whitespace at its ends, and cleaning it again
/// trims nothing more from it.
pub proof fn lemma_cleaned_is_trimmed(text: Seq<char>)
    ensures
        is_trimmed(cleaned(text)),
        trim(cleaned(text)) == cleaned(text),
{
    lemma_trim_is_trimmed(lowercase(without(remove_each(clean_patterns(), lowercase(text)), separator_chars())));
    lemma_trim_idempotent(lowercase(without(remove_each(clean_patterns(), lowercase(text)), separator_chars())));
}

} // verus!
