//! The plain settings records that the configuration screens exchange.
use crate::probe::opt_view;
use crate::text::{
    chars_of, find_last, is_white, last_index_of, lemma_last_index_of, lines, lines_spec,
    string_of_range, strings_view, trim, trim_spec, white,
};
use vstd::prelude::*;

verus! {

/// Whether the Feishu plugin is installed, and what the plugin list says of it.
#[derive(Clone, Debug, PartialEq, Eq)]
pub struct FeishuPluginStatus {
    pub installed: bool,
    pub version: Option<String>,
    pub plugin_name: Option<String>,
}

/// One agent of the multi-agent routing.
#[derive(Clone, Debug, PartialEq, Eq)]
pub struct AgentInfo {
    pub id: String,
    pub workspace: Option<String>,
    pub agent_dir: Option<String>,
    pub model: Option<String>,
    pub sandbox: Option<bool>,
}

/// When the agent's heartbeat fires and where it goes.
#[derive(Clone, Debug, PartialEq, Eq)]
pub struct HeartbeatConfig {
    pub every: Option<String>,
    pub target: Option<String>,
}

/// History compaction and context pruning.
#[derive(Clone, Debug, PartialEq, Eq)]
pub struct CompactionConfig {
    pub enabled: bool,
    pub threshold: Option<u32>,
    pub context_pruning: bool,
    pub max_context_messages: Option<u32>,
}

/// The agent's workspace settings.
#[derive(Clone, Debug, PartialEq, Eq)]
pub struct WorkspaceConfig {
    pub workspace: Option<String>,
    pub timezone: Option<String>,
    pub time_format: Option<String>,
    pub skip_bootstrap: bool,
    pub bootstrap_max_chars: Option<u32>,
}

/// The browser control settings.
#[derive(Clone, Debug, PartialEq, Eq)]
pub struct BrowserConfig {
    pub enabled: bool,
    pub color: Option<String>,
}

/// The web search settings.
#[derive(Clone, Debug, PartialEq, Eq)]
pub struct WebConfig {
    pub brave_api_key: Option<String>,
}

} // verus!

verus! {

/// The text in lower case, as `str::to_lowercase` gives it.
pub uninterp spec fn lower_of(s: Seq<char>) -> Seq<char>;

/// Relies on `str::to_lowercase`: the lower-case form depends on the text alone.
#[verifier::external_body]
fn lowercase(s: &str) -> (r: String)
    ensures
        r@ == lower_of(s@),
{
    s.to_lowercase()
}

/// `p` occurs in `s` at position `i`.
pub open spec fn occurs_at(s: Seq<char>, p: Seq<char>, i: int) -> bool {
    0 <= i && i + p.len() <= s.len() && s.subrange(i, i + p.len()) == p
}

/// `p` occurs somewhere in `s`.
pub open spec fn contains_spec(s: Seq<char>, p: Seq<char>) -> bool {
    exists|i: int| occurs_at(s, p, i)
}

fn occurs(s: &Vec<char>, p: &Vec<char>, i: usize) -> (r: bool)
    ensures
        r == occurs_at(s@, p@, i as int),
{
    let n = s.len();
    if i > n || p.len() > n - i {
        return false;
    }
    let mut j: usize = 0;
    while j < p.len()
        invariant
            n == s@.len(),
            i + p@.len() <= s@.len(),
            j <= p@.len(),
            forall|k: int| 0 <= k < j ==> s@[i + k] == p@[k],
        decreases p@.len() - j,
    {
        if s[i + j] != p[j] {
            assert(s@.subrange(i as int, i + p@.len())[j as int] != p@[j as int]);
            return false;
        }
        j += 1;
    }
    assert(s@.subrange(i as int, i + p@.len()) =~= p@);
    true
}

/// Whether `p` occurs in `s`.
pub fn contains(s: &str, p: &str) -> (r: bool)
    ensures
        r == contains_spec(s@, p@),
{
    let cs = chars_of(s);
    let pc = chars_of(p);
    if pc.len() == 0 {
        assert(occurs_at(s@, p@, 0)) by {
            assert(s@.subrange(0, 0) =~= p@);
        }
        return true;
    }
    if pc.len() > cs.len() {
        return false;
    }
    let n = cs.len();
    let last = n - pc.len();
    let mut i: usize = 0;
    while i <= last
        invariant
            cs@ == s@,
            pc@ == p@,
            pc@.len() >= 1,
            n == cs@.len(),
            last + pc@.len() == n,
            forall|k: int| 0 <= k < i ==> !occurs_at(s@, p@, k),
        decreases last + 1 - i,
    {
        if occurs(&cs, &pc, i) {
            return true;
        }
        i += 1;
    }
    assert forall|k: int| !occurs_at(s@, p@, k) by {
        if occurs_at(s@, p@, k) {
            assert(k < i);
        }
    }
    false
}

/// The first line whose lower-case form names the plugin.
pub open spec fn first_match(lowered: Seq<Seq<char>>) -> Option<int>
    decreases lowered.len(),
{
    if lowered.len() == 0 {
        None
    } else if contains_spec(lowered.last(), "feishu"@) && first_match(lowered.drop_last()) is None {
        Some(lowered.len() - 1)
    } else {
        first_match(lowered.drop_last())
    }
}

proof fn lemma_first_match_range(lowered: Seq<Seq<char>>)
    ensures
        first_match(lowered) matches Some(i) ==> 0 <= i < lowered.len(),
    decreases lowered.len(),
{
    if lowered.len() > 0 {
        lemma_first_match_range(lowered.drop_last());
    }
}

/// The position of the first line that names the plugin, given the lines in
/// lower case.
pub fn matching_line(lowered: &Vec<String>) -> (r: Option<usize>)
    ensures
        match first_match(strings_view(lowered@)) {
            Some(i) => r == Some(i as usize),
            None => r is None,
        },
{
    let ghost lv = strings_view(lowered@);
    let mut i: usize = 0;
    proof {
        lemma_first_match_range(lv);
    }
    assert(lv.subrange(0, 0) == Seq::<Seq<char>>::empty());
    while i < lowered.len()
        invariant
            lv == strings_view(lowered@),
            i <= lowered@.len(),
            first_match(lv.subrange(0, i as int)) is None,
        decreases lowered@.len() - i,
    {
        let ghost sub = lv.subrange(0, i + 1);
        assert(sub.drop_last() == lv.subrange(0, i as int));
        if contains(lowered[i].as_str(), "feishu") {
            proof {
                lemma_first_match_prefix(lv, i as int + 1);
            }
            return Some(i);
        }
        i += 1;
    }
    assert(lv.subrange(0, lv.len() as int) == lv);
    None
}

/// A match in a prefix whose shorter prefixes have none is the first match.
proof fn lemma_first_match_prefix(lv: Seq<Seq<char>>, n: int)
    requires
        0 < n <= lv.len(),
        first_match(lv.subrange(0, n - 1)) is None,
        contains_spec(lv[n - 1], "feishu"@),
    ensures
        first_match(lv) == Some(n - 1),
    decreases lv.len() - n,
{
    assert(lv.subrange(0, n).drop_last() == lv.subrange(0, n - 1));
    if n < lv.len() {
        assert(lv.subrange(0, n + 1).drop_last() == lv.subrange(0, n));
        lemma_first_match_extends(lv, n);
    } else {
        assert(lv.subrange(0, n) == lv);
    }
}

proof fn lemma_first_match_extends(lv: Seq<Seq<char>>, n: int)
    requires
        0 < n <= lv.len(),
        first_match(lv.subrange(0, n)) is Some,
    ensures
        first_match(lv) == first_match(lv.subrange(0, n)),
    decreases lv.len() - n,
{
    if n < lv.len() {
        assert(lv.subrange(0, n + 1).drop_last() == lv.subrange(0, n));
        lemma_first_match_extends(lv, n + 1);
    } else {
        assert(lv.subrange(0, n) == lv);
    }
}

/// Where the word that starts at `i` ends.
pub open spec fn word_end(s: Seq<char>, i: int) -> int
    decreases s.len() - i,
{
    if 0 <= i < s.len() && !is_white(s[i]) {
        word_end(s, i + 1)
    } else {
        i
    }
}

/// A word of `s` starts at `i`.
pub open spec fn word_start(s: Seq<char>, i: int) -> bool {
    0 <= i < s.len() && !is_white(s[i]) && (i == 0 || is_white(s[i - 1]))
}

/// The first word of `s` from position `i` on that begins with a decimal digit.
pub open spec fn digit_word_from(s: Seq<char>, i: int) -> Option<Seq<char>>
    decreases s.len() - i,
{
    if i < 0 || i >= s.len() {
        None
    } else if word_start(s, i) && '0' <= s[i] <= '9' {
        Some(s.subrange(i, word_end(s, i)))
    } else {
        digit_word_from(s, i + 1)
    }
}

proof fn lemma_word_end(s: Seq<char>, i: int)
    requires
        0 <= i <= s.len(),
    ensures
        i <= word_end(s, i) <= s.len(),
    decreases s.len() - i,
{
    if i < s.len() && !is_white(s[i]) {
        lemma_word_end(s, i + 1);
    }
}

fn digit_word(cs: &Vec<char>) -> (r: Option<String>)
    ensures
        match digit_word_from(cs@, 0) {
            Some(w) => r matches Some(x) && x@ == w,
            None => r is None,
        },
{
    let mut i: usize = 0;
    while i < cs.len()
        invariant
            i <= cs@.len(),
            digit_word_from(cs@, 0) == digit_word_from(cs@, i as int),
        decreases cs@.len() - i,
    {
        let start = !white(cs[i]) && (i == 0 || white(cs[i - 1]));
        if start && '0' <= cs[i] && cs[i] <= '9' {
            let mut j = i;
            proof {
                lemma_word_end(cs@, i as int);
            }
            while j < cs.len() && !white(cs[j])
                invariant
                    i <= j <= cs@.len(),
                    word_end(cs@, i as int) == word_end(cs@, j as int),
                decreases cs@.len() - j,
            {
                j += 1;
            }
            return Some(string_of_range(cs, i, j));
        }
        i += 1;
    }
    None
}

/// What a line of the plugin list says of the plugin: its version is what
/// follows the last `@` (trimmed) where the line holds one, else its first
/// word that begins with a digit; its name is the trimmed line.
pub open spec fn line_status(line: Seq<char>) -> (Option<Seq<char>>, Seq<char>) {
    let version = match last_index_of(line, '@') {
        Some(i) => Some(trim_spec(line.subrange(i + 1, line.len() as int))),
        None => digit_word_from(line, 0),
    };
    (version, trim_spec(line))
}

/// The status of the plugin given the line of the plugin list that names it.
pub fn status_from_line(line: &str) -> (r: FeishuPluginStatus)
    ensures
        r.installed,
        opt_view(r.version) == line_status(line@).0,
        opt_view(r.plugin_name) == Some(line_status(line@).1),
{
    let cs = chars_of(line);
    proof {
        lemma_last_index_of(cs@, '@');
        assert(cs@.subrange(0, cs@.len() as int) == cs@);
    }
    let version = match find_last(&cs, cs.len(), '@') {
        Some(i) => {
            let after = string_of_range(&cs, i + 1, cs.len());
            Some(trim(after.as_str()))
        },
        None => digit_word(&cs),
    };
    FeishuPluginStatus { installed: true, version, plugin_name: Some(trim(line)) }
}

/// The plugin's status from the output of the plugin list: installed where
/// some line names it, case aside, with what the first such line says.
pub open spec fn plugin_status_spec(output: Seq<char>) -> Option<(Option<Seq<char>>, Seq<char>)> {
    let ls = lines_spec(output);
    match first_match(ls.map_values(|l: Seq<char>| lower_of(l))) {
        Some(i) => Some(line_status(ls[i])),
        None => None,
    }
}

/// Reads the plugin's status from the output of the plugin list.
pub fn plugin_status(output: &str) -> (r: FeishuPluginStatus)
    ensures
        match plugin_status_spec(output@) {
            Some((version, name)) => r.installed && opt_view(r.version) == version && opt_view(
                r.plugin_name,
            ) == Some(name),
            None => !r.installed && r.version is None && r.plugin_name is None,
        },
{
    let ls = lines(output);
    let ghost lv = strings_view(ls@);
    let mut lowered: Vec<String> = Vec::new();
    let mut i: usize = 0;
    while i < ls.len()
        invariant
            lv == strings_view(ls@),
            i <= ls@.len(),
            strings_view(lowered@) == lv.subrange(0, i as int).map_values(|l: Seq<char>| lower_of(l)),
        decreases ls@.len() - i,
    {
        let ghost old_l = lowered@;
        let l = lowercase(ls[i].as_str());
        let ghost lw = l@;
        lowered.push(l);
        assert(strings_view(lowered@) =~= strings_view(old_l).push(lw));
        assert(strings_view(lowered@) =~= lv.subrange(0, i + 1).map_values(|l: Seq<char>| lower_of(l)));
        i += 1;
    }
    assert(lv.subrange(0, lv.len() as int) == lv);
    proof {
        lemma_first_match_range(strings_view(lowered@));
    }
    match matching_line(&lowered) {
        Some(k) => status_from_line(ls[k].as_str()),
        None => FeishuPluginStatus { installed: false, version: None, plugin_name: None },
    }
}

} // verus!
