//! The line grammar of the YAML proxy file and the index of the key/value
//! lines found under one top-level node.
//!
//! Two kinds of lines matter:
//! * a top-level node line, `^[^\s!@#$%^&*()+=~`"'<>?/\\{}|,.]+[:_-]*:$`
//!   (see [`REGEX_YAML_LEVEL_1_NODE`]);
//! * an indented key/value line, `^\s+(?:-\s+)?([^\s:]+): (\S.*)$`
//!   (see [`REGEX_YAML_KEY_VAL`]), whose key is the first group and value the second.
use vstd::prelude::*;

use crate::text::{char_is_white_space, chars_of, is_white_space, substring};

verus! {

broadcast use vstd::string::group_string_axioms;

/// The pattern of a top-level node line such as `proxies:`.
pub const REGEX_YAML_LEVEL_1_NODE: &'static str = r#"^[^\s!@#$%^&*()+=~`"'<>?/\\{}|,.]+[:_-]*:$"#;

/// The pattern of an indented `key: value` line; group 1 is the key, group 2 the value.
pub const REGEX_YAML_KEY_VAL: &'static str = r#"^\s+(?:-\s+)?([^\s:]+): (\S.*)$"#;

/// A character that may appear in a top-level node name: not white space and
/// not one of ``!@#$%^&*()+=~`"'<>?/\{}|,.``.
pub open spec fn is_node_char(c: char) -> bool {
    &&& !is_white_space(c)
    &&& c != '!' && c != '@' && c != '#' && c != '$' && c != '%' && c != '^' && c != '&'
    &&& c != '*' && c != '(' && c != ')' && c != '+' && c != '=' && c != '~' && c != '`'
    &&& c != '"' && c != '\'' && c != '<' && c != '>' && c != '?' && c != '/' && c != '\\'
    &&& c != '{' && c != '}' && c != '|' && c != ',' && c != '.'
}

/// The whole line matches [`REGEX_YAML_LEVEL_1_NODE`]: at least two node
/// characters, the last of which is `:` (`:`, `_` and `-` are node characters,
/// so the `[:_-]*` part adds nothing).
pub open spec fn is_level1_line(s: Seq<char>) -> bool {
    &&& s.len() >= 2
    &&& s.last() == ':'
    &&& forall|i: int| 0 <= i < s.len() ==> is_node_char(#[trigger] s[i])
}

/// The end of the run of white space that starts at `i`.
pub open spec fn ws_run_end(s: Seq<char>, i: int) -> int
    decreases s.len() - i,
{
    if 0 <= i < s.len() && is_white_space(s[i]) {
        ws_run_end(s, i + 1)
    } else {
        i
    }
}

/// A character of a key: neither white space nor `:`.
pub open spec fn is_key_char(c: char) -> bool {
    !is_white_space(c) && c != ':'
}

/// The end of the run of key characters that starts at `i`.
pub open spec fn key_run_end(s: Seq<char>, i: int) -> int
    decreases s.len() - i,
{
    if 0 <= i < s.len() && is_key_char(s[i]) {
        key_run_end(s, i + 1)
    } else {
        i
    }
}

/// No line feed from position `i` on.
pub open spec fn no_line_feed_from(s: Seq<char>, i: int) -> bool {
    forall|j: int| i <= j < s.len() ==> s[j] != '\n'
}

/// Where the key of a key/value line starts: after the leading white space and,
/// when a `-` followed by white space comes next, after those too.
pub open spec fn kv_key_start(s: Seq<char>) -> int {
    let w1 = ws_run_end(s, 0);
    if w1 < s.len() && s[w1] == '-' && ws_run_end(s, w1 + 1) > w1 + 1 {
        ws_run_end(s, w1 + 1)
    } else {
        w1
    }
}

/// The bounds `(start, end)` of the key when the whole line matches
/// [`REGEX_YAML_KEY_VAL`]; the value then starts at `end + 2`.
pub open spec fn kv_bounds(s: Seq<char>) -> Option<(int, int)> {
    let ks = kv_key_start(s);
    let ke = key_run_end(s, ks);
    if ws_run_end(s, 0) > 0 && ke > ks && ke + 2 < s.len() && s[ke] == ':' && s[ke + 1] == ' '
        && !is_white_space(s[ke + 2]) && no_line_feed_from(s, ke + 2) {
        Some((ks, ke))
    } else {
        None
    }
}

/// The key and value of a line that matches [`REGEX_YAML_KEY_VAL`].
pub open spec fn kv_parse(s: Seq<char>) -> Option<(Seq<char>, Seq<char>)> {
    match kv_bounds(s) {
        Some((ks, ke)) => Some((s.subrange(ks, ke), s.skip(ke + 2))),
        None => None,
    }
}

/// The first character that is not white space is `-` (a list item).
pub open spec fn is_dash_line(s: Seq<char>) -> bool {
    let w = ws_run_end(s, 0);
    w < s.len() && s[w] == '-'
}

proof fn lemma_ws_run_end(s: Seq<char>, i: int)
    requires
        0 <= i <= s.len(),
    ensures
        i <= ws_run_end(s, i) <= s.len(),
        forall|j: int| i <= j < ws_run_end(s, i) ==> is_white_space(#[trigger] s[j]),
        ws_run_end(s, i) < s.len() ==> !is_white_space(s[ws_run_end(s, i)]),
    decreases s.len() - i,
{
    if i < s.len() && is_white_space(s[i]) {
        lemma_ws_run_end(s, i + 1);
    }
}

proof fn lemma_key_run_end(s: Seq<char>, i: int)
    requires
        0 <= i <= s.len(),
    ensures
        i <= key_run_end(s, i) <= s.len(),
    decreases s.len() - i,
{
    if i < s.len() && is_key_char(s[i]) {
        lemma_key_run_end(s, i + 1);
    }
}

fn node_char(c: char) -> (b: bool)
    ensures
        b == is_node_char(c),
{
    !char_is_white_space(c) && c != '!' && c != '@' && c != '#' && c != '$' && c != '%' && c
        != '^' && c != '&' && c != '*' && c != '(' && c != ')' && c != '+' && c != '=' && c
        != '~' && c != '`' && c != '"' && c != '\'' && c != '<' && c != '>' && c != '?' && c
        != '/' && c != '\\' && c != '{' && c != '}' && c != '|' && c != ',' && c != '.'
}

/// Decides [`is_level1_line`].
pub fn level1_line(v: &Vec<char>) -> (b: bool)
    ensures
        b == is_level1_line(v@),
{
    if v.len() < 2 || v[v.len() - 1] != ':' {
        return false;
    }
    let mut i: usize = 0;
    while i < v.len()
        invariant
            i <= v.len(),
            forall|j: int| 0 <= j < i ==> is_node_char(#[trigger] v@[j]),
        decreases v.len() - i,
    {
        if !node_char(v[i]) {
            return false;
        }
        i = i + 1;
    }
    true
}

fn ws_end(v: &Vec<char>, i: usize) -> (r: usize)
    requires
        i <= v.len(),
    ensures
        r == ws_run_end(v@, i as int),
{
    let mut j = i;
    while j < v.len() && char_is_white_space(v[j])
        invariant
            i <= j <= v.len(),
            ws_run_end(v@, i as int) == ws_run_end(v@, j as int),
        decreases v.len() - j,
    {
        j = j + 1;
    }
    j
}

fn key_end(v: &Vec<char>, i: usize) -> (r: usize)
    requires
        i <= v.len(),
    ensures
        r == key_run_end(v@, i as int),
{
    let mut j = i;
    while j < v.len() && !char_is_white_space(v[j]) && v[j] != ':'
        invariant
            i <= j <= v.len(),
            key_run_end(v@, i as int) == key_run_end(v@, j as int),
        decreases v.len() - j,
    {
        j = j + 1;
    }
    j
}

/// Decides [`kv_bounds`].
pub fn key_val_bounds(v: &Vec<char>) -> (r: Option<(usize, usize)>)
    ensures
        r matches Some((ks, ke)) ==> kv_bounds(v@) == Some((ks as int, ke as int)),
        r matches Some((ks, ke)) ==> ks < ke && ke + 2 < v@.len(),
        r is None ==> kv_bounds(v@) is None,
{
    proof {
        lemma_ws_run_end(v@, 0);
    }
    let w1 = ws_end(v, 0);
    if w1 == 0 {
        return None;
    }
    let ks = if w1 < v.len() && v[w1] == '-' {
        proof {
            lemma_ws_run_end(v@, w1 + 1);
        }
        let w2 = ws_end(v, w1 + 1);
        if w2 > w1 + 1 {
            w2
        } else {
            w1
        }
    } else {
        w1
    };
    assert(ks == kv_key_start(v@));
    proof {
        lemma_ws_run_end(v@, w1 as int);
        if w1 < v.len() && v@[w1 as int] == '-' {
            lemma_ws_run_end(v@, w1 + 1);
        }
    }
    assert(ks <= v.len());
    proof {
        lemma_key_run_end(v@, ks as int);
    }
    let ke = key_end(v, ks);
    if !(ke > ks && ke < v.len() && v.len() - ke > 2 && v[ke] == ':' && v[ke + 1] == ' ' && !char_is_white_space(
        v[ke + 2],
    )) {
        return None;
    }
    let mut j = ke + 2;
    while j < v.len()
        invariant
            ke + 2 <= j <= v.len(),
            ks as int == kv_key_start(v@),
            ke as int == key_run_end(v@, ks as int),
            forall|t: int| ke + 2 <= t < j ==> v@[t] != '\n',
        decreases v.len() - j,
    {
        if v[j] == '\n' {
            return None;
        }
        j = j + 1;
    }
    Some((ks, ke))
}

/// Decides [`is_dash_line`].
pub fn dash_line(v: &Vec<char>) -> (b: bool)
    ensures
        b == is_dash_line(v@),
{
    let w = ws_end(v, 0);
    w < v.len() && v[w] == '-'
}

/// One recorded key/value line: the value's line number, the value and the whole line.
pub type YamlField = (nat, Seq<char>, Seq<char>);

/// The fields of each block, by block name and then by key.
pub type YamlIndex = Map<Seq<char>, Map<Seq<char>, YamlField>>;

/// `index` with `key` of block `block` set to `field`, the block being created when missing.
pub open spec fn index_insert(index: YamlIndex, block: Seq<char>, key: Seq<char>, field: YamlField) -> YamlIndex {
    let inner = if index.contains_key(block) {
        index[block]
    } else {
        Map::empty()
    };
    index.insert(block, inner.insert(key, field))
}

/// One recorded line of a [`YamlMap`].
pub struct YamlEntry {
    pub block: String,
    pub key: String,
    pub line: usize,
    pub value: String,
    pub text: String,
}

/// The index of the key/value lines under a top-level node: for each block
/// (named by the value of its `- name: ...` line, or the empty string before
/// the first one) and each key, the line number, the value and the whole line.
/// Entries are kept in the order they were recorded; a later entry for the
/// same block and key replaces an earlier one.
pub struct YamlMap {
    entries: Vec<YamlEntry>,
}

/// The index that a list of recorded entries stands for.
pub open spec fn entries_index(s: Seq<YamlEntry>) -> YamlIndex
    decreases s.len(),
{
    if s.len() == 0 {
        Map::empty()
    } else {
        let e = s.last();
        index_insert(entries_index(s.drop_last()), e.block@, e.key@, (e.line as nat, e.value@, e.text@))
    }
}

impl View for YamlMap {
    type V = YamlIndex;

    closed spec fn view(&self) -> YamlIndex {
        entries_index(self.entries@)
    }
}

/// The field that `index` holds for `block` and `key`, if any.
pub open spec fn index_get(index: YamlIndex, block: Seq<char>, key: Seq<char>) -> Option<YamlField> {
    if index.contains_key(block) && index[block].contains_key(key) {
        Some(index[block][key])
    } else {
        None
    }
}

proof fn lemma_entries_index_block(s: Seq<YamlEntry>, b: Seq<char>)
    ensures
        entries_index(s).contains_key(b) <==> exists|i: int| 0 <= i < s.len() && (#[trigger] s[i]).block@ == b,
    decreases s.len(),
{
    if s.len() > 0 {
        let t = s.drop_last();
        lemma_entries_index_block(t, b);
        if entries_index(t).contains_key(b) {
            let i = choose|i: int| 0 <= i < t.len() && (#[trigger] t[i]).block@ == b;
            assert(s[i] == t[i]);
        }
        if exists|i: int| 0 <= i < s.len() && (#[trigger] s[i]).block@ == b {
            let i = choose|i: int| 0 <= i < s.len() && (#[trigger] s[i]).block@ == b;
            if i < s.len() - 1 {
                assert(t[i] == s[i]);
            }
        }
    }
}

proof fn lemma_entries_index_get(s: Seq<YamlEntry>, b: Seq<char>, k: Seq<char>, n: int)
    requires
        0 <= n <= s.len(),
        forall|j: int| n <= j < s.len() ==> !((#[trigger] s[j]).block@ == b && s[j].key@ == k),
    ensures
        index_get(entries_index(s), b, k) == index_get(entries_index(s.take(n)), b, k),
    decreases s.len() - n,
{
    if n < s.len() {
        let t = s.drop_last();
        assert(s.take(n) =~= t.take(n));
        lemma_entries_index_get(t, b, k, n);
    } else {
        assert(s.take(n) =~= s);
    }
}

/// Every field of `index` lies on a line before line `n`.
pub open spec fn fields_below(index: YamlIndex, n: nat) -> bool {
    forall|b: Seq<char>, k: Seq<char>|
        index.contains_key(b) && #[trigger] index[b].contains_key(k) ==> index[b][k].0 < n
}

impl YamlMap {
    /// An empty index.
    pub fn new() -> (m: Self)
        ensures
            m@ == Map::<Seq<char>, Map<Seq<char>, YamlField>>::empty(),
    {
        YamlMap { entries: Vec::new() }
    }

    /// Records `key` of `block` with its line number, value and line.
    pub fn insert(&mut self, block: String, key: String, line: usize, value: String, text: String)
        ensures
            final(self)@ == index_insert(old(self)@, block@, key@, (line as nat, value@, text@)),
    {
        let e = YamlEntry { block, key, line, value, text };
        self.entries.push(e);
        assert(self.entries@.drop_last() =~= old(self).entries@);
    }

    /// Whether some field of `block` is recorded.
    pub fn contains_block(&self, block: &str) -> (r: bool)
        ensures
            r == self@.contains_key(block@),
    {
        let target = block.to_string();
        let mut i: usize = 0;
        while i < self.entries.len()
            invariant
                i <= self.entries.len(),
                target@ == block@,
                forall|j: int| 0 <= j < i ==> (#[trigger] self.entries@[j]).block@ != block@,
            decreases self.entries.len() - i,
        {
            if self.entries[i].block == target {
                proof {
                    lemma_entries_index_block(self.entries@, block@);
                    assert(self.entries@[i as int].block@ == block@);
                }
                return true;
            }
            i = i + 1;
        }
        proof {
            lemma_entries_index_block(self.entries@, block@);
        }
        false
    }

    /// The line number, value and line recorded for `key` of `block`.
    pub fn get(&self, block: &str, key: &str) -> (r: Option<(usize, String, String)>)
        ensures
            r matches Some((n, v, t)) ==> index_get(self@, block@, key@) == Some((n as nat, v@, t@)),
            r is None ==> index_get(self@, block@, key@) is None,
    {
        let tb = block.to_string();
        let tk = key.to_string();
        let mut i: usize = self.entries.len();
        while i > 0
            invariant
                i <= self.entries.len(),
                tb@ == block@,
                tk@ == key@,
                forall|j: int|
                    i <= j < self.entries.len() ==> !((#[trigger] self.entries@[j]).block@
                        == block@ && self.entries@[j].key@ == key@),
            decreases i,
        {
            let e = &self.entries[i - 1];
            if e.block == tb && e.key == tk {
                proof {
                    let s = self.entries@;
                    lemma_entries_index_get(s, block@, key@, i as int);
                    assert(s.take(i as int).drop_last() =~= s.take(i - 1));
                    assert(s.take(i as int).last() == s[i - 1]);
                }
                return Some((e.line, e.value.clone(), e.text.clone()));
            }
            i = i - 1;
        }
        proof {
            lemma_entries_index_get(self.entries@, block@, key@, 0);
            assert(self.entries@.take(0) =~= Seq::<YamlEntry>::empty());
        }
        None
    }
}

/// Where [`regex_yaml_locate_key`] stands after some lines: the index so far,
/// the current block name, whether the top-level node was found, and whether
/// the next top-level node ended the scan.
pub struct LocateState {
    pub index: YamlIndex,
    pub block: Seq<char>,
    pub matched: bool,
    pub stopped: bool,
}

/// The state after line `num`, whose characters are `line`.
pub open spec fn locate_step(st: LocateState, level1: Seq<char>, line: Seq<char>, num: nat) -> LocateState {
    if st.stopped {
        st
    } else if st.matched {
        if is_level1_line(line) {
            LocateState { index: st.index, block: st.block, matched: st.matched, stopped: true }
        } else {
            match kv_parse(line) {
                Some((key, value)) => if is_dash_line(line) {
                    LocateState { index: st.index, block: value, matched: st.matched, stopped: false }
                } else {
                    LocateState {
                        index: index_insert(st.index, st.block, key, (num, value, line)),
                        block: st.block,
                        matched: st.matched,
                        stopped: false,
                    }
                },
                None => st,
            }
        }
    } else if is_level1_line(line) && line == level1 {
        LocateState { index: st.index, block: st.block, matched: true, stopped: false }
    } else {
        st
    }
}

/// The state after the first `n` lines.
pub open spec fn locate_upto(level1: Seq<char>, lines: Seq<Seq<char>>, n: nat) -> LocateState
    decreases n,
{
    if n == 0 {
        LocateState { index: Map::empty(), block: Seq::empty(), matched: false, stopped: false }
    } else {
        locate_step(locate_upto(level1, lines, (n - 1) as nat), level1, lines[n - 1], (n - 1) as nat)
    }
}

/// The index of the key/value lines of the section that starts at the line
/// equal to `level1` (a top-level node line) and ends before the next
/// top-level node line. A line whose first non-blank character is `-` opens a
/// new block named by its value; every other key/value line is recorded under
/// the current block (the empty name before the first such line).
pub open spec fn locate_index(level1: Seq<char>, lines: Seq<Seq<char>>) -> YamlIndex {
    locate_upto(level1, lines, lines.len()).index
}

/// The characters of each line.
pub open spec fn lines_view(lines: Seq<String>) -> Seq<Seq<char>> {
    lines.map_values(|l: String| l@)
}

proof fn lemma_locate_stopped(level1: Seq<char>, lines: Seq<Seq<char>>, n: nat, m: nat)
    requires
        n <= m,
        locate_upto(level1, lines, n).stopped,
    ensures
        locate_upto(level1, lines, m) == locate_upto(level1, lines, n),
    decreases m - n,
{
    if n < m {
        lemma_locate_stopped(level1, lines, n, (m - 1) as nat);
    }
}

/// Finds the section under the top-level node `level_1_node` and indexes its
/// key/value lines by block and key (see [`locate_index`]).
pub fn regex_yaml_locate_key(level_1_node: &str, lines: &Vec<String>) -> (r: YamlMap)
    ensures
        r@ == locate_index(level_1_node@, lines_view(lines@)),
        fields_below(r@, lines@.len()),
{
    let ghost lv = lines_view(lines@);
    let mut data = YamlMap::new();
    let mut block_no = String::new();
    let mut matched = false;
    let mut done = false;
    let target = level_1_node.to_string();
    let mut num: usize = 0;
    while num < lines.len() && !done
        invariant
            num <= lines.len(),
            lv == lines_view(lines@),
            target@ == level_1_node@,
            locate_upto(level_1_node@, lv, num as nat).index == data@,
            locate_upto(level_1_node@, lv, num as nat).block == block_no@,
            locate_upto(level_1_node@, lv, num as nat).matched == matched,
            locate_upto(level_1_node@, lv, num as nat).stopped == done,
        decreases lines.len() - num,
    {
        let line = &lines[num];
        let v = chars_of(line.as_str());
        assert(lv[num as int] == line@);
        if matched {
            if level1_line(&v) {
                done = true;
            } else {
                match key_val_bounds(&v) {
                    Some((ks, ke)) => {
                        assert(ke + 2 < v.len());
                        let value = substring(line.as_str(), ke + 2, v.len());
                        assert(value@ =~= line@.skip(ke + 2));
                        if dash_line(&v) {
                            block_no = value;
                        } else {
                            let key = substring(line.as_str(), ks, ke);
                            data.insert(block_no.clone(), key, num, value, line.clone());
                        }
                    },
                    None => {},
                }
            }
        } else if level1_line(&v) && *line == target {
            matched = true;
        }
        num = num + 1;
    }
    proof {
        if done {
            lemma_locate_stopped(level_1_node@, lv, num as nat, lv.len());
        }
        lemma_locate_sound(level_1_node@, lv, lv.len());
    }
    data
}

/// Line `h` is the top-level node line `level1`, and no other top-level node
/// line comes after it up to line `num`.
pub open spec fn section_contains(level1: Seq<char>, lines: Seq<Seq<char>>, h: int, num: int) -> bool {
    &&& 0 <= h < num < lines.len()
    &&& lines[h] == level1
    &&& is_level1_line(lines[h])
    &&& forall|j: int| h < j <= num ==> !is_level1_line(#[trigger] lines[j])
}

/// `field` is what line `field.0` says of `key`: that line is a key/value line,
/// not a list item, inside the section of `level1`.
pub open spec fn field_from_section(level1: Seq<char>, lines: Seq<Seq<char>>, key: Seq<char>, field: YamlField) -> bool {
    &&& field.0 < lines.len()
    &&& field.2 == lines[field.0 as int]
    &&& kv_parse(field.2) == Some((key, field.1))
    &&& !is_dash_line(field.2)
    &&& exists|h: int| section_contains(level1, lines, h, field.0 as int)
}

spec fn locate_sound(level1: Seq<char>, lines: Seq<Seq<char>>, n: nat) -> bool {
    let st = locate_upto(level1, lines, n);
    &&& forall|b: Seq<char>, k: Seq<char>|
        st.index.contains_key(b) && #[trigger] st.index[b].contains_key(k) ==> {
            &&& field_from_section(level1, lines, k, st.index[b][k])
            &&& st.index[b][k].0 < n
        }
    &&& st.matched && !st.stopped ==> exists|h: int|
        0 <= h < n && lines[h] == level1 && is_level1_line(lines[h]) && forall|j: int|
            h < j < n ==> !is_level1_line(#[trigger] lines[j])
}

proof fn lemma_locate_sound(level1: Seq<char>, lines: Seq<Seq<char>>, n: nat)
    requires
        n <= lines.len(),
    ensures
        locate_sound(level1, lines, n),
    decreases n,
{
    if n > 0 {
        let m = (n - 1) as nat;
        lemma_locate_sound(level1, lines, m);
        let pre = locate_upto(level1, lines, m);
        let post = locate_upto(level1, lines, n);
        let line = lines[m as int];
        assert(post == locate_step(pre, level1, line, m));
        if !pre.stopped && pre.matched && !is_level1_line(line) {
            let h = choose|h: int|
                0 <= h < m && lines[h] == level1 && is_level1_line(lines[h]) && forall|j: int|
                    h < j < m ==> !is_level1_line(#[trigger] lines[j]);
            assert forall|j: int| h < j < n implies !is_level1_line(#[trigger] lines[j]) by {
                if j < m {
                } else {
                    assert(j == m);
                }
            }
            if let Some((key, value)) = kv_parse(line) {
                if !is_dash_line(line) {
                    assert(section_contains(level1, lines, h, m as int));
                    assert forall|b: Seq<char>, k: Seq<char>|
                        post.index.contains_key(b) && #[trigger] post.index[b].contains_key(k) implies {
                            &&& field_from_section(level1, lines, k, post.index[b][k])
                            &&& post.index[b][k].0 < n
                        } by {
                        if b == pre.block && k == key {
                            assert(post.index[b][k] == (m, value, line));
                        } else if b == pre.block {
                            assert(pre.index.contains_key(b));
                            assert(post.index[b][k] == pre.index[b][k]);
                        } else {
                            assert(post.index[b] == pre.index[b]);
                        }
                    }
                }
            }
        } else if !pre.stopped && !pre.matched && is_level1_line(line) && line == level1 {
            assert(lines[m as int] == level1);
        }
    }
}

/// Every field that [`regex_yaml_locate_key`] records comes from a key/value
/// line, not a list item, that lies inside the section of `level1`: after the
/// line equal to `level1` and before any later top-level node line. The field
/// holds that line's number, its value and the line itself.
pub proof fn lemma_locate_fields_come_from_section(
    level1: Seq<char>,
    lines: Seq<Seq<char>>,
    block: Seq<char>,
    key: Seq<char>,
)
    requires
        index_get(locate_index(level1, lines), block, key) is Some,
    ensures
        field_from_section(level1, lines, key, index_get(locate_index(level1, lines), block, key)->0),
{
    lemma_locate_sound(level1, lines, lines.len());
    let idx = locate_index(level1, lines);
    assert(idx[block].contains_key(key));
}

/// Reading back a field just recorded gives it; every other field reads as before.
pub proof fn lemma_index_insert_get(
    index: YamlIndex,
    block: Seq<char>,
    key: Seq<char>,
    field: YamlField,
    other_block: Seq<char>,
    other_key: Seq<char>,
)
    ensures
        index_get(index_insert(index, block, key, field), block, key) == Some(field),
        !(other_block == block && other_key == key) ==> index_get(
            index_insert(index, block, key, field),
            other_block,
            other_key,
        ) == index_get(index, other_block, other_key),
{
}

/// No line before line `n` is the top-level node line `level1`.
pub open spec fn no_header_before(level1: Seq<char>, lines: Seq<Seq<char>>, n: int) -> bool {
    forall|i: int| 0 <= i < n ==> !(#[trigger] lines[i] == level1 && is_level1_line(lines[i]))
}

proof fn lemma_locate_initial(level1: Seq<char>, lines: Seq<Seq<char>>, n: nat)
    requires
        n <= lines.len(),
        no_header_before(level1, lines, n as int),
    ensures
        locate_upto(level1, lines, n) == (LocateState {
            index: Map::empty(),
            block: Seq::empty(),
            matched: false,
            stopped: false,
        }),
    decreases n,
{
    if n > 0 {
        lemma_locate_initial(level1, lines, (n - 1) as nat);
        assert(!(lines[n - 1] == level1 && is_level1_line(lines[n - 1])));
    }
}

proof fn lemma_locate_same_run(level1: Seq<char>, a: Seq<Seq<char>>, b: Seq<Seq<char>>, k: nat, m: nat)
    requires
        k <= m <= a.len(),
        m <= b.len(),
        locate_upto(level1, a, k) == locate_upto(level1, b, k),
        forall|i: int| k <= i < m ==> a[i] == b[i],
    ensures
        locate_upto(level1, a, m) == locate_upto(level1, b, m),
    decreases m - k,
{
    if k < m {
        lemma_locate_same_run(level1, a, b, k, (m - 1) as nat);
        assert(a[m - 1] == b[m - 1]);
    }
}

proof fn lemma_locate_in_section(level1: Seq<char>, lines: Seq<Seq<char>>, start: int, k: nat)
    requires
        0 <= start < k <= lines.len(),
        lines[start] == level1,
        is_level1_line(lines[start]),
        no_header_before(level1, lines, start),
        forall|j: int| start < j < k ==> !is_level1_line(#[trigger] lines[j]),
    ensures
        locate_upto(level1, lines, k).matched,
        !locate_upto(level1, lines, k).stopped,
    decreases k,
{
    if k == start + 1 {
        lemma_locate_initial(level1, lines, start as nat);
    } else {
        lemma_locate_in_section(level1, lines, start, (k - 1) as nat);
        assert(!is_level1_line(lines[k - 1]));
    }
}

/// The index depends only on the section: when the top-level node line
/// `level1` first occurs at line `start` of both `lines` and `lines2`, and the
/// two agree from there up to and including the top-level node line `end`
/// that ends the section, the lines before `start` and after `end` do not matter.
pub proof fn lemma_locate_ignores_lines_outside_section(
    level1: Seq<char>,
    lines: Seq<Seq<char>>,
    lines2: Seq<Seq<char>>,
    start: int,
    end: int,
)
    requires
        0 <= start < end < lines.len(),
        end < lines2.len(),
        lines[start] == level1,
        is_level1_line(lines[start]),
        no_header_before(level1, lines, start),
        no_header_before(level1, lines2, start),
        is_level1_line(lines[end]),
        forall|j: int| start < j < end ==> !is_level1_line(#[trigger] lines[j]),
        forall|i: int| start <= i <= end ==> #[trigger] lines2[i] == lines[i],
    ensures
        locate_index(level1, lines) == locate_index(level1, lines2),
{
    lemma_locate_initial(level1, lines, start as nat);
    lemma_locate_initial(level1, lines2, start as nat);
    lemma_locate_same_run(level1, lines, lines2, start as nat, (end + 1) as nat);
    lemma_locate_in_section(level1, lines, start, end as nat);
    assert(locate_upto(level1, lines, (end + 1) as nat).stopped);
    lemma_locate_stopped(level1, lines, (end + 1) as nat, lines.len());
    lemma_locate_stopped(level1, lines2, (end + 1) as nat, lines2.len());
}

/// When the section is not ended by another top-level node line, only the
/// lines from the first occurrence `start` of the node line on matter: two
/// line lists of the same length that agree from `start` on, with no node line
/// before it, give the same index (also when neither holds the node line).
pub proof fn lemma_locate_ignores_lines_before_section(
    level1: Seq<char>,
    lines: Seq<Seq<char>>,
    lines2: Seq<Seq<char>>,
    start: int,
)
    requires
        0 <= start <= lines.len(),
        lines2.len() == lines.len(),
        no_header_before(level1, lines, start),
        no_header_before(level1, lines2, start),
        forall|i: int| start <= i < lines.len() ==> #[trigger] lines2[i] == lines[i],
    ensures
        locate_index(level1, lines) == locate_index(level1, lines2),
{
    lemma_locate_initial(level1, lines, start as nat);
    lemma_locate_initial(level1, lines2, start as nat);
    lemma_locate_same_run(level1, lines, lines2, start as nat, lines.len());
}

proof fn lemma_locate_block_after_item(
    level1: Seq<char>,
    lines: Seq<Seq<char>>,
    start: int,
    d: int,
    k: nat,
    name: Seq<char>,
)
    requires
        0 <= start < d < k <= lines.len(),
        lines[start] == level1,
        is_level1_line(lines[start]),
        no_header_before(level1, lines, start),
        forall|j: int| start < j < k ==> !is_level1_line(#[trigger] lines[j]),
        is_dash_line(lines[d]),
        kv_parse(lines[d]) matches Some((_, v)) && v == name,
        forall|x: int| d < x < k ==> !(is_dash_line(#[trigger] lines[x]) && kv_parse(lines[x]) is Some),
    ensures
        locate_upto(level1, lines, k).block == name,
        locate_upto(level1, lines, k).matched,
        !locate_upto(level1, lines, k).stopped,
    decreases k,
{
    lemma_locate_in_section(level1, lines, start, k);
    if k == d + 1 {
        lemma_locate_in_section(level1, lines, start, d as nat);
    } else {
        lemma_locate_block_after_item(level1, lines, start, d, (k - 1) as nat, name);
        assert(!is_level1_line(lines[k - 1]));
        assert(!(is_dash_line(lines[k - 1]) && kv_parse(lines[k - 1]) is Some));
    }
}

proof fn lemma_locate_keeps_field(level1: Seq<char>, lines: Seq<Seq<char>>, n: nat, m: nat, block: Seq<char>, key: Seq<char>)
    requires
        n <= m <= lines.len(),
        index_get(locate_upto(level1, lines, n).index, block, key) is Some,
    ensures
        index_get(locate_upto(level1, lines, m).index, block, key) is Some,
    decreases m - n,
{
    if n < m {
        lemma_locate_keeps_field(level1, lines, n, (m - 1) as nat, block, key);
        let pre = locate_upto(level1, lines, (m - 1) as nat);
        let post = locate_upto(level1, lines, m);
        assert(pre.index.contains_key(block) && pre.index[block].contains_key(key));
        if post.index != pre.index {
            assert(post.index.contains_key(block));
            assert(post.index[block].contains_key(key));
        }
    }
}

/// A list item `- k: V` of the section opens the block named by its whole
/// value `V`: a later key/value line of the section that is not a list item,
/// with no other list item or top-level node line between, is indexed under
/// block `V` and its own key.
pub proof fn lemma_locate_block_named_by_item_value(
    level1: Seq<char>,
    lines: Seq<Seq<char>>,
    start: int,
    d: int,
    j: int,
)
    requires
        0 <= start < d < j < lines.len(),
        lines[start] == level1,
        is_level1_line(lines[start]),
        no_header_before(level1, lines, start),
        forall|x: int| start < x <= j ==> !is_level1_line(#[trigger] lines[x]),
        is_dash_line(lines[d]),
        kv_parse(lines[d]) is Some,
        forall|x: int| d < x < j ==> !(is_dash_line(#[trigger] lines[x]) && kv_parse(lines[x]) is Some),
        kv_parse(lines[j]) is Some,
        !is_dash_line(lines[j]),
    ensures
        index_get(
            locate_index(level1, lines),
            (kv_parse(lines[d])->0).1,
            (kv_parse(lines[j])->0).0,
        ) is Some,
{
    let name = (kv_parse(lines[d])->0).1;
    let key = (kv_parse(lines[j])->0).0;
    lemma_locate_block_after_item(level1, lines, start, d, j as nat, name);
    let pre = locate_upto(level1, lines, j as nat);
    let post = locate_upto(level1, lines, (j + 1) as nat);
    assert(post.index == index_insert(pre.index, name, key, (j as nat, (kv_parse(lines[j])->0).1, lines[j])));
    lemma_locate_keeps_field(level1, lines, (j + 1) as nat, lines.len(), name, key);
}

} // verus!
