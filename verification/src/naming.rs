//! Writing the suggested name of an episode file, and the small decisions
//! around renaming: the extension of a file name, a number typed by the user,
//! and the user's consent.
use crate::text;
use vstd::prelude::*;

verus! {

/// The characters that are removed from a suggested name.
pub open spec fn illegal_chars() -> Seq<char> {
    seq!['<', '|', '>', ':', '/', '\\', '|', '?', '*', '(', ')']
}

/// The name `"{show} - S{season:02}E{episode:02} - {title}.{extension}"`
/// with every illegal character removed.
pub open spec fn episode_file_name(
    show: Seq<char>,
    season: u32,
    episode: u32,
    title: Seq<char>,
    extension: Seq<char>,
) -> Seq<char> {
    text::without(
        show + " - S"@ + text::decimal_pad2(season as nat) + "E"@ + text::decimal_pad2(
            episode as nat,
        ) + " - "@ + title + "."@ + extension,
        illegal_chars(),
    )
}

/// Writes the suggested name of an episode file:
/// `"{show} - S{season:02}E{episode:02} - {title}.{extension}"`, with the
/// characters `< | > : / \ ? * ( )` removed.
pub fn suggested_name(show: &str, season: u32, episode: u32, title: &str, extension: &str) -> (res:
    String)
    ensures
        res@ == episode_file_name(show@, season, episode, title@, extension@),
{
    let mut name = String::new();
    name.append(show);
    name.append(" - S");
    text::push_decimal_pad2(&mut name, season);
    name.append("E");
    text::push_decimal_pad2(&mut name, episode);
    name.append(" - ");
    name.append(title);
    name.append(".");
    name.append(extension);
    let bad: [char; 11] = ['<', '|', '>', ':', '/', '\\', '|', '?', '*', '(', ')'];
    assert(bad@ =~= illegal_chars());
    let res = text::strip_chars(name.as_str(), &bad);
    assert(name@ =~= show@ + " - S"@ + text::decimal_pad2(season as nat) + "E"@
        + text::decimal_pad2(episode as nat) + " - "@ + title@ + "."@ + extension@);
    res
}

/// A suggested name holds no illegal character.
pub proof fn lemma_suggested_name_is_legal(
    show: Seq<char>,
    season: u32,
    episode: u32,
    title: Seq<char>,
    extension: Seq<char>,
)
    ensures
        forall|i: int|
            0 <= i < episode_file_name(show, season, episode, title, extension).len()
                ==> !illegal_chars().contains(
                #[trigger] episode_file_name(show, season, episode, title, extension)[i],
            ),
{
    text::lemma_without_excludes(
        show + " - S"@ + text::decimal_pad2(season as nat) + "E"@ + text::decimal_pad2(
            episode as nat,
        ) + " - "@ + title + "."@ + extension,
        illegal_chars(),
    );
}

/// `f` is the writing of `n` that `{:02}` gives: decimal digits reading as
/// `n`, at least two of them, and no leading `0` beyond that padding.
pub open spec fn is_padded_decimal(f: Seq<char>, n: u32) -> bool {
    &&& f.len() >= 2
    &&& text::all_digits(f)
    &&& text::parse_u32_spec(f) == Some(n)
    &&& f.len() > 2 ==> f[0] != '0'
}

proof fn lemma_pad2_is_padded_decimal(n: u32)
    ensures
        is_padded_decimal(text::decimal_pad2(n as nat), n),
{
    text::lemma_decimal_pad2_digits(n);
    text::lemma_decimal_pad2_parses_back(n);
    text::lemma_decimal_shape(n as nat);
}

/// A text without illegal characters is left as it is by their removal.
proof fn lemma_clean_literal(s: Seq<char>)
    requires
        forall|i: int| 0 <= i < s.len() ==> !illegal_chars().contains(#[trigger] s[i]),
    ensures
        text::without(s, illegal_chars()) == s,
{
    text::lemma_without_keeps_clean(s, illegal_chars());
}

proof fn lemma_digits_are_legal(f: Seq<char>)
    requires
        text::all_digits(f),
    ensures
        text::without(f, illegal_chars()) == f,
{
    assert forall|i: int| 0 <= i < f.len() implies !illegal_chars().contains(#[trigger] f[i]) by {
        assert(text::is_digit(f[i]));
        let ill = illegal_chars();
        assert forall|k: int| 0 <= k < ill.len() implies ill[k] != f[i] by {}
    }
    lemma_clean_literal(f);
}

/// The suggested name is the show, ` - S`, the season written as `{:02}`
/// writes it, `E`, the episode written the same way, ` - `, the title, `.`
/// and the extension, with the illegal characters removed from the show,
/// the title and the extension only.
pub proof fn lemma_suggested_name_fields(
    show: Seq<char>,
    season: u32,
    episode: u32,
    title: Seq<char>,
    extension: Seq<char>,
)
    ensures
        exists|sf: Seq<char>, ef: Seq<char>|
            #![trigger is_padded_decimal(sf, season), is_padded_decimal(ef, episode)]
            is_padded_decimal(sf, season) && is_padded_decimal(ef, episode)
                && episode_file_name(show, season, episode, title, extension) == text::without(
                show,
                illegal_chars(),
            ) + seq![' ', '-', ' ', 'S'] + sf + seq!['E'] + ef + seq![' ', '-', ' '] + text::without(
                title,
                illegal_chars(),
            ) + seq!['.'] + text::without(extension, illegal_chars()),
{
    reveal_strlit(" - S");
    reveal_strlit("E");
    reveal_strlit(" - ");
    reveal_strlit(".");
    let ill = illegal_chars();
    let sf = text::decimal_pad2(season as nat);
    let ef = text::decimal_pad2(episode as nat);
    lemma_pad2_is_padded_decimal(season);
    lemma_pad2_is_padded_decimal(episode);
    let l1 = seq![' ', '-', ' ', 'S'];
    let l2 = seq!['E'];
    let l3 = seq![' ', '-', ' '];
    let l4 = seq!['.'];
    assert(" - S"@ =~= l1);
    assert("E"@ =~= l2);
    assert(" - "@ =~= l3);
    assert("."@ =~= l4);
    assert forall|i: int| 0 <= i < l1.len() implies !ill.contains(#[trigger] l1[i]) by {
        assert forall|k: int| 0 <= k < ill.len() implies ill[k] != l1[i] by {}
    }
    assert forall|i: int| 0 <= i < l2.len() implies !ill.contains(#[trigger] l2[i]) by {
        assert forall|k: int| 0 <= k < ill.len() implies ill[k] != l2[i] by {}
    }
    assert forall|i: int| 0 <= i < l3.len() implies !ill.contains(#[trigger] l3[i]) by {
        assert forall|k: int| 0 <= k < ill.len() implies ill[k] != l3[i] by {}
    }
    assert forall|i: int| 0 <= i < l4.len() implies !ill.contains(#[trigger] l4[i]) by {
        assert forall|k: int| 0 <= k < ill.len() implies ill[k] != l4[i] by {}
    }
    lemma_clean_literal(l1);
    lemma_clean_literal(l2);
    lemma_clean_literal(l3);
    lemma_clean_literal(l4);
    lemma_digits_are_legal(sf);
    lemma_digits_are_legal(ef);
    text::lemma_without_concat(show, l1, ill);
    text::lemma_without_concat(show + l1, sf, ill);
    text::lemma_without_concat(show + l1 + sf, l2, ill);
    text::lemma_without_concat(show + l1 + sf + l2, ef, ill);
    text::lemma_without_concat(show + l1 + sf + l2 + ef, l3, ill);
    text::lemma_without_concat(show + l1 + sf + l2 + ef + l3, title, ill);
    text::lemma_without_concat(show + l1 + sf + l2 + ef + l3 + title, l4, ill);
    text::lemma_without_concat(show + l1 + sf + l2 + ef + l3 + title + l4, extension, ill);
    assert(is_padded_decimal(sf, season) && is_padded_decimal(ef, episode));
}

/// The index of the last `.` of `name`, or -1 when there is none.
pub open spec fn last_dot(name: Seq<char>) -> int
    decreases name.len(),
{
    if name.len() == 0 {
        -1
    } else if name.last() == '.' {
        name.len() - 1
    } else {
        last_dot(name.drop_last())
    }
}

/// The extension of a file name, as `Path::extension` documents it: none for
/// `..`, none without an embedded `.`, none when the only `.` begins the
/// name, and otherwise the part after the final `.`.
pub open spec fn extension_of(name: Seq<char>) -> Option<Seq<char>> {
    if name == seq!['.', '.'] || last_dot(name) <= 0 {
        None
    } else {
        Some(name.skip(last_dot(name) + 1))
    }
}

proof fn lemma_last_dot_range(name: Seq<char>)
    ensures
        -1 <= last_dot(name) < name.len(),
        last_dot(name) >= 0 ==> name[last_dot(name)] == '.',
        forall|k: int| last_dot(name) < k < name.len() ==> name[k] != '.',
    decreases name.len(),
{
    if name.len() > 0 && name.last() != '.' {
        lemma_last_dot_range(name.drop_last());
        assert forall|k: int| last_dot(name) < k < name.len() implies name[k] != '.' by {
            if k < name.len() - 1 {
                assert(name.drop_last()[k] == name[k]);
            }
        }
    }
}

proof fn lemma_last_dot_of_dotless_suffix(a: Seq<char>, b: Seq<char>)
    requires
        !b.contains('.'),
    ensures
        last_dot(a + b) == last_dot(a),
    decreases b.len(),
{
    if b.len() == 0 {
        assert(a + b =~= a);
    } else {
        assert((a + b).drop_last() =~= a + b.drop_last());
        assert(b.last() == b[b.len() - 1]);
        assert(!b.drop_last().contains('.')) by {
            if b.drop_last().contains('.') {
                let k = choose|k: int| 0 <= k < b.drop_last().len() && b.drop_last()[k] == '.';
                assert(b[k] == '.');
            }
        }
        lemma_last_dot_of_dotless_suffix(a, b.drop_last());
    }
}

/// A name made of a non-empty stem, a `.` and a part without `.` (and that
/// is not `..`) has that part as its extension, whatever its characters.
pub proof fn lemma_extension_is_part_after_last_dot(stem: Seq<char>, ext: Seq<char>)
    requires
        stem.len() > 0,
        !ext.contains('.'),
        stem + seq!['.'] + ext != seq!['.', '.'],
    ensures
        extension_of(stem + seq!['.'] + ext) == Some(ext),
{
    let d = stem + seq!['.'];
    lemma_last_dot_of_dotless_suffix(d, ext);
    assert(d.drop_last() =~= stem);
    assert(last_dot(d) == stem.len());
    assert((d + ext).skip(stem.len() + 1int) =~= ext);
}

/// A name with no `.` after its first character has no extension.
pub proof fn lemma_no_extension_without_inner_dot(name: Seq<char>)
    requires
        forall|i: int| 0 < i < name.len() ==> name[i] != '.',
    ensures
        extension_of(name) is None,
{
    lemma_last_dot_range(name);
}

/// The extension of a file name (a name without `/`), as `Path::extension`
/// gives it.
pub fn file_name_extension(name: &str) -> (res: Option<String>)
    requires
        !name@.contains('/'),
    ensures
        res matches Some(e) ==> extension_of(name@) == Some(e@),
        res is None ==> extension_of(name@) is None,
{
    let n: usize = name.unicode_len();
    if n == 2 && name.get_char(0) == '.' && name.get_char(1) == '.' {
        assert(name@ =~= seq!['.', '.']);
        return None;
    }
    let mut j: usize = n;
    assert(name@.subrange(0, n as int) =~= name@);
    while j > 0 && name.get_char(j - 1) != '.'
        invariant
            n == name@.len(),
            j <= n,
            last_dot(name@) == last_dot(name@.subrange(0, j as int)),
        decreases j,
    {
        assert(name@.subrange(0, j as int).drop_last() =~= name@.subrange(0, j - 1));
        j = j - 1;
    }
    proof {
        assert(name@.subrange(0, n as int) =~= name@);
        if j > 0 {
            assert(name@.subrange(0, j as int).last() == '.');
        }
    }
    if j <= 1 {
        return None;
    }
    let mut ext = String::new();
    let mut k: usize = j;
    while k < n
        invariant
            n == name@.len(),
            j <= k <= n,
            ext@ =~= name@.subrange(j as int, k as int),
        decreases n - k,
    {
        text::push_char(&mut ext, name.get_char(k));
        k = k + 1;
    }
    assert(name@.skip(j as int) =~= name@.subrange(j as int, n as int));
    Some(ext)
}

/// Reads a number typed on a line: the line trimmed of surrounding
/// whitespace, read as `str::parse::<u32>` reads it.
pub fn parse_number_line(line: &str) -> (res: Option<u32>)
    ensures
        res == text::parse_u32_spec(text::trim(line@)),
{
    let t = text::trim_text(line);
    text::parse_u32(t.as_str())
}

/// Whether the user's answer consents to renaming: the answer, trimmed of
/// surrounding whitespace, is exactly `y`.
pub fn confirms_rename(answer: &str) -> (res: bool)
    ensures
        res == (text::trim(answer@) == seq!['y']),
{
    let t = text::trim_text(answer);
    let s = t.as_str();
    if s.unicode_len() == 1 && s.get_char(0) == 'y' {
        assert(s@ =~= seq!['y']);
        true
    } else {
        false
    }
}

/// A season or episode number written into a suggested name reads back,
/// with `str::parse::<u32>`, as the same number.
pub proof fn lemma_number_reads_back(n: u32)
    ensures
        text::parse_u32_spec(text::decimal_pad2(n as nat)) == Some(n),
        text::parse_u32_spec(text::trim(text::decimal_pad2(n as nat))) == Some(n),
{
    text::lemma_decimal_pad2_parses_back(n);
    text::lemma_decimal_pad2_digits(n);
    text::lemma_trimmed_fixed(text::decimal_pad2(n as nat));
}

} // verus!
