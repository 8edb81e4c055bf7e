//! Reading the season and episode numbers out of a file's base name.
use crate::cleaning;
use crate::matching;
use crate::text;
use vstd::prelude::*;

verus! {

/// The patterns that locate the numbers, tried in this order:
/// `S03E04`, `Season 1` (or `s1`), `- 13`, and `Episode 1` / `Ep 1`.
pub open spec fn info_patterns() -> Seq<Seq<char>> {
    seq![
        r"[Ss]([0-9]+)[ ._-]*[Ee]([0-9]+)"@,
        r"s([eai]+son\W?)?(\d{1,2})"@,
        r"[\-\s]?\W(\d{1,3})[\W\.]?"@,
        r"(episode[s]?\W|\Wep\W|\W)(\d{1,3})"@,
    ]
}

/// What the patterns find in a lowercased base name `t`, before any decision
/// is taken; `rest` is `t` with the first match of the season pattern
/// removed. Each group is the text of a capture group of the first match,
/// if any.
pub struct Findings {
    pub marker: bool,
    pub marker_season: Option<Seq<char>>,
    pub marker_episode: Option<Seq<char>>,
    pub season: bool,
    pub season_number: Option<Seq<char>>,
    pub rest_dash: bool,
    pub rest_dash_number: Option<Seq<char>>,
    pub rest_episode: bool,
    pub rest_episode_match: Option<Seq<char>>,
    pub dash: bool,
    pub dash_number: Option<Seq<char>>,
    pub episode: bool,
    pub episode_prefix: Option<Seq<char>>,
}

/// What the patterns find in the lowercased base name `t`: the `S..E..`
/// pattern with its season and episode groups, the season pattern with its
/// number group, the `- 13` pattern with its number group and the episode
/// pattern with its whole match in `rest`, and the `- 13` pattern with its
/// number group and the episode pattern with its first group in `t`.
pub open spec fn findings(t: Seq<char>) -> Findings {
    let p = info_patterns();
    let rest = matching::regex_removed_first(p[1], t);
    Findings {
        marker: matching::regex_matches(p[0], t),
        marker_season: matching::regex_group(p[0], t, 1),
        marker_episode: matching::regex_group(p[0], t, 2),
        season: matching::regex_matches(p[1], t),
        season_number: matching::regex_group(p[1], t, 2),
        rest_dash: matching::regex_matches(p[2], rest),
        rest_dash_number: matching::regex_group(p[2], rest, 1),
        rest_episode: matching::regex_matches(p[3], rest),
        rest_episode_match: matching::regex_group(p[3], rest, 0),
        dash: matching::regex_matches(p[2], t),
        dash_number: matching::regex_group(p[2], t, 1),
        episode: matching::regex_matches(p[3], t),
        episode_prefix: matching::regex_group(p[3], t, 1),
    }
}

/// The number that a group reads as with `str::parse::<u32>`; a missing
/// group reads as the empty text, which is no number.
pub open spec fn number_in(g: Option<Seq<char>>) -> Option<u32> {
    match g {
        Some(s) => text::parse_u32_spec(s),
        None => text::parse_u32_spec(Seq::<char>::empty()),
    }
}

/// The decision taken on the findings: `None` when a number that is read is
/// not a `u32`, otherwise the season and episode, if any. The `S..E..`
/// marker gives both numbers; otherwise a season marker gives the season and
/// the episode is read after it (0 when none is found); otherwise an episode
/// number alone gives season 1; otherwise nothing is found.
pub open spec fn decision(f: Findings) -> Option<Option<(u32, u32)>> {
    if f.marker {
        match (number_in(f.marker_season), number_in(f.marker_episode)) {
            (Some(s), Some(e)) => Some(Some((s, e))),
            _ => None,
        }
    } else if f.season {
        match number_in(f.season_number) {
            Some(s) => if f.rest_dash {
                match number_in(f.rest_dash_number) {
                    Some(e) => Some(Some((s, e))),
                    None => None,
                }
            } else if f.rest_episode {
                match number_in(f.rest_episode_match) {
                    Some(e) => Some(Some((s, e))),
                    None => None,
                }
            } else {
                Some(Some((s, 0)))
            },
            None => None,
        }
    } else if f.dash {
        match number_in(f.dash_number) {
            Some(e) => Some(Some((1, e))),
            None => None,
        }
    } else if f.episode {
        match number_in(f.episode_prefix) {
            Some(e) => Some(Some((1, e))),
            None => None,
        }
    } else {
        Some(None)
    }
}

/// What reading the numbers out of `text` comes to: `None` where the reading
/// cannot be completed (a pattern that does not compile, or a located number
/// that is not a `u32`), otherwise the decision on what the patterns find in
/// the lowercased text.
pub open spec fn info_outcome(text: Seq<char>) -> Option<Option<(u32, u32)>> {
    if !cleaning::all_compile(info_patterns()) {
        None
    } else {
        decision(findings(matching::lowercase(text)))
    }
}

/// A season and episode pair as the pair of its two numbers.
pub open spec fn as_pair(info: Option<[u32; 2]>) -> Option<(u32, u32)> {
    match info {
        Some(a) => Some((a[0], a[1])),
        None => None,
    }
}

fn info_pattern_list() -> (v: Vec<&'static str>)
    ensures
        v@.len() == info_patterns().len(),
        forall|i: int| 0 <= i < v@.len() ==> (#[trigger] v@[i])@ == info_patterns()[i],
{
    let v = vec![
        r"[Ss]([0-9]+)[ ._-]*[Ee]([0-9]+)",
        r"s([eai]+son\W?)?(\d{1,2})",
        r"[\-\s]?\W(\d{1,3})[\W\.]?",
        r"(episode[s]?\W|\Wep\W|\W)(\d{1,3})",
    ];
    assert(v@.map_values(|p: &str| p@) =~= info_patterns());
    assert forall|i: int| 0 <= i < v@.len() implies (#[trigger] v@[i])@ == info_patterns()[i] by {
        assert(v@.map_values(|p: &str| p@)[i] == v@[i]@);
    }
    v
}

/// What the patterns found in a lowercased base name, as the library hands
/// it to `decide_info` (see `Findings`).
pub struct InfoProbe {
    pub marker: bool,
    pub marker_season: Option<String>,
    pub marker_episode: Option<String>,
    pub season: bool,
    pub season_number: Option<String>,
    pub rest_dash: bool,
    pub rest_dash_number: Option<String>,
    pub rest_episode: bool,
    pub rest_episode_match: Option<String>,
    pub dash: bool,
    pub dash_number: Option<String>,
    pub episode: bool,
    pub episode_prefix: Option<String>,
}

/// The text of an optional group.
pub open spec fn group_view(g: Option<String>) -> Option<Seq<char>> {
    match g {
        Some(s) => Some(s@),
        None => None,
    }
}

impl View for InfoProbe {
    type V = Findings;

    open spec fn view(&self) -> Findings {
        Findings {
            marker: self.marker,
            marker_season: group_view(self.marker_season),
            marker_episode: group_view(self.marker_episode),
            season: self.season,
            season_number: group_view(self.season_number),
            rest_dash: self.rest_dash,
            rest_dash_number: group_view(self.rest_dash_number),
            rest_episode: self.rest_episode,
            rest_episode_match: group_view(self.rest_episode_match),
            dash: self.dash,
            dash_number: group_view(self.dash_number),
            episode: self.episode,
            episode_prefix: group_view(self.episode_prefix),
        }
    }
}

fn read_number(g: &Option<String>) -> (res: Option<u32>)
    ensures
        res == number_in(group_view(*g)),
{
    match g {
        Some(s) => text::parse_u32(s.as_str()),
        None => {
            // a missing group reads as the empty text, which `parse` refuses
            assert(text::parse_u32_spec(Seq::<char>::empty()) is None);
            None
        },
    }
}

/// Takes the decision on what the patterns found (see `decision`).
pub fn decide_info(p: &InfoProbe) -> (res: Option<Option<[u32; 2]>>)
    ensures
        res matches Some(o) ==> decision(p@) == Some(as_pair(o)),
        res is None ==> decision(p@) is None,
{
    if p.marker {
        match (read_number(&p.marker_season), read_number(&p.marker_episode)) {
            (Some(s), Some(e)) => Some(Some([s, e])),
            _ => None,
        }
    } else if p.season {
        match read_number(&p.season_number) {
            Some(s) => if p.rest_dash {
                match read_number(&p.rest_dash_number) {
                    Some(e) => Some(Some([s, e])),
                    None => None,
                }
            } else if p.rest_episode {
                match read_number(&p.rest_episode_match) {
                    Some(e) => Some(Some([s, e])),
                    None => None,
                }
            } else {
                Some(Some([s, 0]))
            },
            None => None,
        }
    } else if p.dash {
        match read_number(&p.dash_number) {
            Some(e) => Some(Some([1, e])),
            None => None,
        }
    } else if p.episode {
        match read_number(&p.episode_prefix) {
            Some(e) => Some(Some([1, e])),
            None => None,
        }
    } else {
        Some(None)
    }
}

/// Gathers what the patterns find in the lowercased name `t`.
fn probe(pats: &Vec<&'static str>, t: &str) -> (res: InfoProbe)
    requires
        pats@.len() == info_patterns().len(),
        forall|i: int| 0 <= i < pats@.len() ==> (#[trigger] pats@[i])@ == info_patterns()[i],
        cleaning::all_compile(info_patterns()),
    ensures
        res@ == findings(t@),
{
    assert(matching::regex_compiles(info_patterns()[0]));
    assert(matching::regex_compiles(info_patterns()[1]));
    assert(matching::regex_compiles(info_patterns()[2]));
    assert(matching::regex_compiles(info_patterns()[3]));
    let rest = matching::pattern_remove_first(pats[1], t);
    let rest = rest.as_str();
    InfoProbe {
        marker: matching::pattern_is_match(pats[0], t),
        marker_season: matching::pattern_group(pats[0], t, 1),
        marker_episode: matching::pattern_group(pats[0], t, 2),
        season: matching::pattern_is_match(pats[1], t),
        season_number: matching::pattern_group(pats[1], t, 2),
        rest_dash: matching::pattern_is_match(pats[2], rest),
        rest_dash_number: matching::pattern_group(pats[2], rest, 1),
        rest_episode: matching::pattern_is_match(pats[3], rest),
        rest_episode_match: matching::pattern_group(pats[3], rest, 0),
        dash: matching::pattern_is_match(pats[2], t),
        dash_number: matching::pattern_group(pats[2], t, 1),
        episode: matching::pattern_is_match(pats[3], t),
        episode_prefix: matching::pattern_group(pats[3], t, 1),
    }
}

fn read_info(text: &String) -> (res: Option<Option<[u32; 2]>>)
    ensures
        res matches Some(o) ==> info_outcome(text@) == Some(as_pair(o)),
        res is None ==> info_outcome(text@) is None,
{
    let pats = info_pattern_list();
    let mut i: usize = 0;
    while i < pats.len()
        invariant
            i <= pats@.len(),
            pats@.len() == info_patterns().len(),
            forall|k: int| 0 <= k < pats@.len() ==> (#[trigger] pats@[k])@ == info_patterns()[k],
            forall|k: int| 0 <= k < i ==> matching::regex_compiles(#[trigger] info_patterns()[k]),
        decreases pats@.len() - i,
    {
        if !matching::pattern_compiles(pats[i]) {
            assert(!matching::regex_compiles(info_patterns()[i as int]));
            return None;
        }
        i = i + 1;
    }
    assert(cleaning::all_compile(info_patterns()));
    let t = matching::to_lower(text.as_str());
    let p = probe(&pats, t.as_str());
    decide_info(&p)
}

/// Extracts the season and episode from a file's base name, as
/// `[season, episode]`, or `None` when no marker is found.
///
/// For example `"Breaking Bad x264 season 1 ep 4"` gives `[1, 4]`.
///
/// The reading must be one that can be completed: every pattern compiles
/// and every number read is a `u32` (`try_get_info` tells when it is not).
pub fn get_info(text: &String) -> (res: Option<[u32; 2]>)
    requires
        info_outcome(text@) is Some,
    ensures
        info_outcome(text@) == Some(as_pair(res)),
{
    match read_info(text) {
        Some(o) => o,
        None => None,
    }
}

/// `get_info`, or `None` where the reading cannot be completed (a pattern
/// that does not compile, or a located number that is not a `u32`).
pub fn try_get_info(text: &String) -> (res: Option<Option<[u32; 2]>>)
    ensures
        res is Some <==> info_outcome(text@) is Some,
        res matches Some(o) ==> info_outcome(text@) == Some(as_pair(o)),
{
    read_info(text)
}

/// Two names that lowercase alike give the same season and episode.
pub proof fn lemma_info_ignores_case(a: Seq<char>, b: Seq<char>)
    requires
        matching::lowercase(a) == matching::lowercase(b),
    ensures
        info_outcome(a) == info_outcome(b),
{
}

/// For an ASCII name, changing the case of its letters does not change the
/// season and episode read.
pub proof fn lemma_info_ignores_ascii_case(a: Seq<char>)
    requires
        text::is_ascii_text(a),
    ensures
        info_outcome(text::ascii_upper(a)) == info_outcome(a),
        info_outcome(text::ascii_lower(a)) == info_outcome(a),
{
    text::lemma_ascii_case_change(a);
}

/// The capture group that the season is read from (group 2 of the season
/// pattern) is its last group, `(\d{1,2})`: it takes one or two digits, so
/// a two-digit season after `season` is read whole. The episode read after
/// the season (group 1 of the `- 13` pattern, searched in the text with the
/// season marker removed) is `(\d{1,3})`: one to three digits.
pub proof fn lemma_number_groups()
    ensures
        ({
            let p = info_patterns()[1];
            &&& p.len() == 25
            &&& p.subrange(16, 25) == seq!['(', '\\', 'd', '{', '1', ',', '2', '}', ')']
            &&& p[1] == '('
            &&& forall|i: int| 0 <= i < 16 && i != 1 ==> p[i] != '('
        }),
        ({
            let p = info_patterns()[2];
            &&& p.len() == 25
            &&& p.subrange(9, 18) == seq!['(', '\\', 'd', '{', '1', ',', '3', '}', ')']
            &&& forall|i: int| 0 <= i < 25 && i != 9 ==> p[i] != '('
        }),
{
    reveal_strlit(r"s([eai]+son\W?)?(\d{1,2})");
    reveal_strlit(r"[\-\s]?\W(\d{1,3})[\W\.]?");
    let p1 = info_patterns()[1];
    let p2 = info_patterns()[2];
    assert(p1 =~= seq![
        's', '(', '[', 'e', 'a', 'i', ']', '+', 's', 'o', 'n', '\\', 'W', '?', ')', '?',
        '(', '\\', 'd', '{', '1', ',', '2', '}', ')',
    ]);
    assert(p2 =~= seq![
        '[', '\\', '-', '\\', 's', ']', '?', '\\', 'W',
        '(', '\\', 'd', '{', '1', ',', '3', '}', ')',
        '[', '\\', 'W', '\\', '.', ']', '?',
    ]);
    assert(p1.subrange(16, 25) =~= seq!['(', '\\', 'd', '{', '1', ',', '2', '}', ')']);
    assert(p2.subrange(9, 18) =~= seq!['(', '\\', 'd', '{', '1', ',', '3', '}', ')']);
}

/// When neither a `S..E..` marker nor a season marker is present, the season
/// read is 1.
pub proof fn lemma_season_defaults_to_one(text: Seq<char>, season: u32, episode: u32)
    requires
        info_outcome(text) == Some(Some((season, episode))),
        !matching::regex_matches(info_patterns()[0], matching::lowercase(text)),
        !matching::regex_matches(info_patterns()[1], matching::lowercase(text)),
    ensures
        season == 1,
{
}

/// When nothing at all is found, there is no season and episode.
pub proof fn lemma_nothing_found(text: Seq<char>)
    requires
        cleaning::all_compile(info_patterns()),
        forall|i: int| 0 <= i < 4 ==> !matching::regex_matches(#[trigger] info_patterns()[i], matching::lowercase(text)),
    ensures
        info_outcome(text) == Some(None::<(u32, u32)>),
{
    assert(!matching::regex_matches(info_patterns()[0], matching::lowercase(text)));
    assert(!matching::regex_matches(info_patterns()[1], matching::lowercase(text)));
    assert(!matching::regex_matches(info_patterns()[2], matching::lowercase(text)));
    assert(!matching::regex_matches(info_patterns()[3], matching::lowercase(text)));
}

} // verus!
