//! Compiled regular expressions (through the `regex` crate) and the rewriting
//! of the value of one `key: value` line.
use vstd::prelude::*;

use crate::error::{PassageError, PassageErrorView};
use crate::text::{decimal, decimal_string, substring};

verus! {

broadcast use vstd::string::group_string_axioms;

#[verifier::external_type_specification]
#[verifier::external_body]
pub struct ExRegex(regex::Regex);

#[verifier::external_type_specification]
#[verifier::external_body]
pub struct ExRegexError(regex::Error);

/// Whether `regex::Regex::new` accepts `pattern` (it may also refuse a valid
/// pattern whose automaton would exceed the default size limit).
pub uninterp spec fn regex_compiles(pattern: Seq<char>) -> bool;

/// What `regex::Regex::captures` finds in `text` with the regex of `pattern`:
/// `None` when there is no match, otherwise one entry per capture group,
/// `None` for a group that did not take part and otherwise the text before the
/// group's match and the match itself.
pub uninterp spec fn regex_captures(pattern: Seq<char>, text: Seq<char>) -> Option<
    Seq<Option<(Seq<char>, Seq<char>)>>,
>;

/// A regular expression compiled by the `regex` crate, together with the
/// pattern it was compiled from. Only [`regex_new`] builds one.
pub struct CompiledRegex {
    pattern: String,
    regex: regex::Regex,
}

impl View for CompiledRegex {
    type V = Seq<char>;

    /// The pattern the expression was compiled from.
    closed spec fn view(&self) -> Seq<char> {
        self.pattern@
    }
}

/// The abstract value of the groups returned by [`captures`].
pub open spec fn groups_view(g: Seq<Option<(String, String)>>) -> Seq<Option<(Seq<char>, Seq<char>)>> {
    g.map_values(
        |o: Option<(String, String)>|
            match o {
                Some((b, m)) => Some((b@, m@)),
                None => None,
            },
    )
}

/// Calls `regex::Regex::new(pattern)`. Claims that it succeeds exactly when
/// `regex_compiles(pattern)`, a function of the pattern alone, and that the
/// result is paired with that pattern.
#[verifier::external_body]
fn compile_regex(pattern: &str) -> (r: Result<CompiledRegex, regex::Error>)
    ensures
        r is Ok <==> regex_compiles(pattern@),
        r matches Ok(c) ==> c@ == pattern@,
{
    match regex::Regex::new(pattern) {
        Ok(regex) => Ok(CompiledRegex { pattern: pattern.to_string(), regex }),
        Err(e) => Err(e),
    }
}

/// Calls `regex::Regex::captures(text)` and turns each group's `Match` into
/// the text before it and its text (`&text[..m.start()]`, `m.as_str()`).
/// Claims that the outcome is `regex_captures(pattern, text)`, a function of
/// the pattern and the text alone; and, from the documentation of `Captures`
/// and `Match`, that group 0 is always present and that each present group's
/// text follows the text before it at the start of `text`.
#[verifier::external_body]
fn captures(re: &CompiledRegex, text: &str) -> (r: Option<Vec<Option<(String, String)>>>)
    ensures
        r is Some <==> regex_captures(re@, text@) is Some,
        r matches Some(g) ==> groups_view(g@) == regex_captures(re@, text@)->0,
        r matches Some(g) ==> g@.len() >= 1 && g@[0] is Some,
        r matches Some(g) ==> forall|i: int|
            0 <= i < g@.len() ==> (#[trigger] g@[i] matches Some((b, m)) ==> b@.len() + m@.len()
                <= text@.len() && b@ + m@ == text@.take((b@.len() + m@.len()) as int)),
{
    re.regex.captures(text).map(
        |caps|
            caps.iter().map(
                |g| g.map(|m| (text[..m.start()].to_string(), m.as_str().to_string())),
            ).collect(),
    )
}

/// Compiles `txt` as a regular expression.
pub fn regex_new(txt: &str) -> (r: Result<CompiledRegex, PassageError>)
    ensures
        r is Ok <==> regex_compiles(txt@),
        r matches Ok(c) ==> c@ == txt@,
        r matches Err(e) ==> e@ == PassageErrorView::RegexCompile(txt@),
{
    match compile_regex(txt) {
        Ok(c) => Ok(c),
        Err(_) => Err(PassageError::RegexCompile(txt.to_string())),
    }
}

/// A new value for a YAML line: a number, written as is, or a string, written in double quotes.
#[derive(Debug)]
pub enum YamlValue {
    Num(usize),
    Str(String),
}

/// The abstract value of a [`YamlValue`].
pub enum YamlValueView {
    Num(nat),
    Str(Seq<char>),
}

impl View for YamlValue {
    type V = YamlValueView;

    open spec fn view(&self) -> YamlValueView {
        match self {
            YamlValue::Num(n) => YamlValueView::Num(*n as nat),
            YamlValue::Str(s) => YamlValueView::Str(s@),
        }
    }
}

/// How a value is written into a line.
pub open spec fn value_text(v: YamlValueView) -> Seq<char> {
    match v {
        YamlValueView::Num(n) => decimal(n),
        YamlValueView::Str(s) => seq!['"'] + s + seq!['"'],
    }
}

/// The line `line` (number `num`) with everything from the start of group 2
/// of the regex of `pattern` replaced by the text of `value`, or why that fails.
pub open spec fn modify_line(pattern: Seq<char>, line: Seq<char>, num: nat, value: YamlValueView) -> Result<
    Seq<char>,
    PassageErrorView,
> {
    match regex_captures(pattern, line) {
        None => Err(PassageErrorView::NoMatch(num)),
        Some(g) => if g.len() > 2 && g[2] is Some {
            Ok((g[2]->0).0 + value_text(value))
        } else {
            Err(PassageErrorView::NoValueGroup(num))
        },
    }
}

/// The text of a value, as it is written into a line.
fn value_string(value: &YamlValue) -> (r: String)
    ensures
        r@ == value_text(value@),
{
    match value {
        YamlValue::Num(n) => decimal_string(*n as u64),
        YamlValue::Str(s) => {
            let mut r = String::from_str("\"");
            r.append(s.as_str());
            r.append("\"");
            proof {
                reveal_strlit("\"");
            }
            r
        },
    }
}

/// Rewrites line `targets.0` of `lines`: the part from the start of the second
/// capture group of `reg` on is replaced by the value `targets.1` (a number as
/// is, a string in double quotes). Fails, leaving `lines` alone, when the line
/// does not match or the match has no second group.
pub fn regex_modify_key_val_node(
    lines: &mut Vec<String>,
    targets: (usize, YamlValue),
    reg: &CompiledRegex,
) -> (r: Result<(), PassageError>)
    requires
        targets.0 < old(lines)@.len(),
    ensures
        final(lines)@.len() == old(lines)@.len(),
        match modify_line(reg@, old(lines)@[targets.0 as int]@, targets.0 as nat, targets.1@) {
            Ok(new_line) => r is Ok && final(lines)@[targets.0 as int]@ == new_line && forall|i: int|
                0 <= i < old(lines)@.len() && i != targets.0 ==> #[trigger] final(lines)@[i]
                    == old(lines)@[i],
            Err(e) => r matches Err(err) && err@ == e && final(lines)@ == old(lines)@,
        },
        r is Ok ==> exists|k: int|
            0 <= k <= old(lines)@[targets.0 as int]@.len() && #[trigger] final(lines)@[targets.0 as int]@
                == old(lines)@[targets.0 as int]@.take(k) + value_text(targets.1@),
{
    let (num, value) = targets;
    let caps = captures(reg, lines[num].as_str());
    match caps {
        None => Err(PassageError::NoMatch(num)),
        Some(g) => {
            if g.len() > 2 {
                match &g[2] {
                    Some((before, _)) => {
                        let ghost old_line = lines@[num as int]@;
                        proof {
                            assert(groups_view(g@)[2] == Some((before@, (g@[2]->0).1@)));
                            let m = (g@[2]->0).1@;
                            assert(before@ + m == old_line.take((before@.len() + m.len()) as int));
                            assert forall|i: int| 0 <= i < before@.len() implies before@[i]
                                == old_line[i] by {
                                assert((before@ + m)[i] == before@[i]);
                            }
                            assert(before@ =~= old_line.take(before@.len() as int));
                        }
                        let mut new_line = substring(before.as_str(), 0, before.unicode_len());
                        assert(new_line@ =~= before@);
                        let text = value_string(&value);
                        new_line.append(text.as_str());
                        lines.set(num, new_line);
                        assert(lines@[num as int]@ == old_line.take(before@.len() as int) + value_text(
                            value@,
                        ));
                        assert(0 <= before@.len() <= old_line.len());
                        Ok(())
                    },
                    None => {
                        proof {
                            assert(groups_view(g@)[2] is None);
                        }
                        Err(PassageError::NoValueGroup(num))
                    },
                }
            } else {
                Err(PassageError::NoValueGroup(num))
            }
        },
    }
}

/// A successful rewrite of a line keeps the text that precedes the second
/// capture group of the regex and writes the value after it: a string between
/// double quotes, a number in decimal.
pub proof fn lemma_modify_writes_value(pattern: Seq<char>, line: Seq<char>, num: nat, value: YamlValueView)
    requires
        modify_line(pattern, line, num, value) is Ok,
    ensures
        regex_captures(pattern, line) is Some,
        regex_captures(pattern, line)->0.len() > 2,
        regex_captures(pattern, line)->0[2] is Some,
        ({
            let before = (regex_captures(pattern, line)->0[2]->0).0;
            let written = modify_line(pattern, line, num, value)->Ok_0;
            match value {
                YamlValueView::Str(s) => written == before + seq!['"'] + s + seq!['"'],
                YamlValueView::Num(n) => written == before + decimal(n),
            }
        }),
{
    if let YamlValueView::Str(s) = value {
        let before = (regex_captures(pattern, line)->0[2]->0).0;
        assert(before + (seq!['"'] + s + seq!['"']) =~= before + seq!['"'] + s + seq!['"']);
    }
}

} // verus!
