//! Writing the settings of one collected server into the lines of the proxy
//! section of a YAML file.
use vstd::prelude::*;

use crate::error::{PassageError, PassageErrorView};
use crate::regex_edit::{
    CompiledRegex, YamlValue, YamlValueView, modify_line, regex_captures, regex_modify_key_val_node,
    value_text,
};
use crate::text::{decimal, ends_with};
use crate::serv_info::{ServInfo, ServInfoView, server_count};
use crate::yaml::{YamlField, YamlMap, index_get, YamlIndex};

verus! {

broadcast use vstd::string::group_string_axioms;

/// The keys written for a server of the kind of `serv`, in the order they are written.
pub open spec fn written_keys(serv: ServInfoView) -> Seq<Seq<char>> {
    match serv {
        ServInfoView::Mieru(_) => seq!["server"@, "port"@, "password"@, "username"@],
        ServInfoView::Hysteria2(_) => seq!["server"@, "port"@, "password"@],
    }
}

/// The values written for server `no` of `serv`, in the order of [`written_keys`].
pub open spec fn written_values(serv: ServInfoView, no: nat) -> Seq<YamlValueView> {
    match serv {
        ServInfoView::Mieru(v) => seq![
            YamlValueView::Str(v[no as int].0),
            YamlValueView::Num(v[no as int].1 as nat),
            YamlValueView::Str(v[no as int].3),
            YamlValueView::Str(v[no as int].2),
        ],
        ServInfoView::Hysteria2(v) => seq![
            YamlValueView::Str(v[no as int].0),
            YamlValueView::Num(v[no as int].1 as nat),
            YamlValueView::Str(v[no as int].2),
        ],
    }
}

/// The first of `keys` from position `i` on that `fields` lacks.
pub open spec fn first_missing(fields: Map<Seq<char>, YamlField>, keys: Seq<Seq<char>>, i: nat) -> Option<Seq<char>>
    decreases keys.len() - i,
{
    if i >= keys.len() {
        None
    } else if !fields.contains_key(keys[i as int]) {
        Some(keys[i as int])
    } else {
        first_missing(fields, keys, i + 1)
    }
}

/// Rewrites, from position `i` on, the line of each key with its value, in
/// order, stopping at the first line that cannot be rewritten.
pub open spec fn apply_from(
    lines: Seq<Seq<char>>,
    fields: Map<Seq<char>, YamlField>,
    keys: Seq<Seq<char>>,
    values: Seq<YamlValueView>,
    pattern: Seq<char>,
    i: nat,
) -> (Seq<Seq<char>>, Result<(), PassageErrorView>)
    decreases keys.len() - i,
{
    if i >= keys.len() {
        (lines, Ok(()))
    } else {
        let num = fields[keys[i as int]].0;
        match modify_line(pattern, lines[num as int], num, values[i as int]) {
            Ok(new_line) => apply_from(
                lines.update(num as int, new_line),
                fields,
                keys,
                values,
                pattern,
                i + 1,
            ),
            Err(e) => (lines, Err(e)),
        }
    }
}

/// Each field that is written for a server of the kind of `serv`, when block
/// `name` of `index` has it, lies on a line before line `n`.
pub open spec fn written_fields_below(index: YamlIndex, serv: ServInfoView, name: Seq<char>, n: nat) -> bool {
    forall|i: int|
        0 <= i < written_keys(serv).len() ==> (#[trigger] index_get(index, name, written_keys(serv)[i])
            matches Some(f) ==> f.0 < n)
}

/// The lines and the result after writing server `no` of `serv` into the
/// fields of block `name` of `index`, with the value of each line located by
/// the regular expression of `pattern`.
pub open spec fn write_outcome(
    lines: Seq<Seq<char>>,
    index: YamlIndex,
    serv: ServInfoView,
    name: Seq<char>,
    no: nat,
    pattern: Seq<char>,
) -> (Seq<Seq<char>>, Result<(), PassageErrorView>) {
    if !index.contains_key(name) {
        (lines, Err(PassageErrorView::MissingBlock(name)))
    } else {
        match first_missing(index[name], written_keys(serv), 0) {
            Some(k) => (lines, Err(PassageErrorView::MissingField(k))),
            None => if no >= server_count(serv) {
                (lines, Err(PassageErrorView::MissingEntry(no)))
            } else {
                apply_from(lines, index[name], written_keys(serv), written_values(serv, no), pattern, 0)
            },
        }
    }
}

proof fn lemma_first_missing_none(fields: Map<Seq<char>, YamlField>, keys: Seq<Seq<char>>, i: nat, j: int)
    requires
        first_missing(fields, keys, i) is None,
        i <= j < keys.len(),
    ensures
        fields.contains_key(keys[j]),
    decreases j - i,
{
    if i < j {
        lemma_first_missing_none(fields, keys, i + 1, j);
    }
}

/// The keys written for a server of the kind of `targets`, in the order they are written.
pub fn written_key_names(targets: &ServInfo) -> (v: Vec<&'static str>)
    ensures
        v@.map_values(|k: &str| k@) == written_keys(targets@),
{
    let v = match targets {
        ServInfo::Mieru(_) => vec!["server", "port", "password", "username"],
        ServInfo::Hysteria2(_) => vec!["server", "port", "password"],
    };
    assert(v@.map_values(|k: &str| k@) =~= written_keys(targets@));
    v
}

/// Whether each field written for a server of the kind of `targets` that
/// block `name` of `map` holds lies on a line before line `n`, as
/// [`write_to_data`] needs.
pub fn written_lines_below(map: &YamlMap, targets: &ServInfo, name: &String, n: usize) -> (r: bool)
    ensures
        r == written_fields_below(map@, targets@, name@, n as nat),
{
    let keys = written_key_names(targets);
    let ghost keys_view = written_keys(targets@);
    let mut i: usize = 0;
    while i < keys.len()
        invariant
            i <= keys.len(),
            keys@.map_values(|k: &str| k@) == keys_view,
            keys_view == written_keys(targets@),
            forall|j: int|
                0 <= j < i ==> (#[trigger] index_get(map@, name@, keys_view[j]) matches Some(f)
                    ==> f.0 < n),
        decreases keys.len() - i,
    {
        assert(keys[i as int]@ == keys_view[i as int]);
        match map.get(name.as_str(), keys[i]) {
            Some((num, _, _)) => {
                if num >= n {
                    return false;
                }
            },
            None => {},
        }
        i = i + 1;
    }
    true
}

/// Writes server `no` of `targets` into the lines of the fields of block `name`
/// of `map`: its server, port and password, and for Mieru also its user name.
/// Fails before writing anything when the block, one of its fields or the
/// server is missing; a line that cannot be rewritten stops the writing, the
/// lines rewritten before it staying rewritten.
pub fn write_to_data(
    lines: &mut Vec<String>,
    map: &YamlMap,
    targets: ServInfo,
    name: &String,
    no: usize,
    re: &CompiledRegex,
) -> (r: Result<(), PassageError>)
    requires
        written_fields_below(map@, targets@, name@, old(lines)@.len() as nat),
    ensures
        final(lines)@.map_values(|l: String| l@) == write_outcome(
            old(lines)@.map_values(|l: String| l@),
            map@,
            targets@,
            name@,
            no as nat,
            re@,
        ).0,
        match r {
            Ok(()) => write_outcome(
                old(lines)@.map_values(|l: String| l@),
                map@,
                targets@,
                name@,
                no as nat,
                re@,
            ).1 is Ok,
            Err(e) => write_outcome(
                old(lines)@.map_values(|l: String| l@),
                map@,
                targets@,
                name@,
                no as nat,
                re@,
            ).1 == Err::<(), PassageErrorView>(e@),
        },
{
    let ghost lv0 = old(lines)@.map_values(|l: String| l@);
    let ghost serv = targets@;
    if !map.contains_block(name.as_str()) {
        return Err(PassageError::MissingBlock(name.clone()));
    }
    let keys = written_key_names(&targets);
    let ghost fields = map@[name@];
    let ghost keys_view = written_keys(serv);
    let mut nums: Vec<usize> = Vec::new();
    let mut i: usize = 0;
    while i < keys.len()
        invariant
            i <= keys.len(),
            keys@.map_values(|k: &str| k@) == keys_view,
            keys_view == written_keys(serv),
            fields == map@[name@],
            map@.contains_key(name@),
            nums@.len() == i,
            forall|j: int| 0 <= j < i ==> fields.contains_key(keys_view[j]),
            forall|j: int| 0 <= j < i ==> #[trigger] nums@[j] == fields[keys_view[j]].0,
            first_missing(fields, keys_view, 0) == first_missing(fields, keys_view, i as nat),
            lines@ == old(lines)@,
            lv0 == old(lines)@.map_values(|l: String| l@),
            serv == targets@,
        decreases keys.len() - i,
    {
        assert(keys[i as int]@ == keys_view[i as int]);
        match map.get(name.as_str(), keys[i]) {
            Some((n, _, _)) => {
                nums.push(n);
            },
            None => {
                assert(!fields.contains_key(keys_view[i as int]));
                assert(first_missing(fields, keys_view, i as nat) == Some(keys_view[i as int]));
                return Err(PassageError::MissingField(keys[i].to_string()));
            },
        }
        i = i + 1;
    }
    assert(first_missing(fields, keys_view, 0) is None);
    let mut values: Vec<YamlValue> = match &targets {
        ServInfo::Mieru(info) => {
            if no >= info.len() {
                return Err(PassageError::MissingEntry(no));
            }
            let m = &info[no];
            vec![
                YamlValue::Str(m.server.clone()),
                YamlValue::Num(m.port as usize),
                YamlValue::Str(m.password.clone()),
                YamlValue::Str(m.username.clone()),
            ]
        },
        ServInfo::Hysteria2(info) => {
            if no >= info.len() {
                return Err(PassageError::MissingEntry(no));
            }
            let h = &info[no];
            vec![
                YamlValue::Str(h.server.clone()),
                YamlValue::Num(h.port as usize),
                YamlValue::Str(h.password.clone()),
            ]
        },
    };
    let ghost vals_view = written_values(serv, no as nat);
    assert(values@.map_values(|v: YamlValue| v@) =~= vals_view);
    assert forall|j: int| 0 <= j < keys_view.len() implies fields[#[trigger] keys_view[j]].0
        < lines@.len() by {
        assert(index_get(map@, name@, written_keys(serv)[j]) == Some(fields[keys_view[j]]));
    }
    let mut k: usize = 0;
    while k < nums.len()
        invariant
            k <= nums.len(),
            nums@.len() == keys_view.len(),
            keys_view.len() == vals_view.len(),
            values@.len() == nums@.len() - k,
            forall|j: int| 0 <= j < values@.len() ==> (#[trigger] values@[j])@ == vals_view[j + k],
            forall|j: int| 0 <= j < keys_view.len() ==> fields.contains_key(keys_view[j]),
            forall|j: int| 0 <= j < keys_view.len() ==> #[trigger] nums@[j] == fields[keys_view[j]].0,
            forall|j: int| 0 <= j < keys_view.len() ==> fields[#[trigger] keys_view[j]].0 < lines@.len(),
            map@.contains_key(name@),
            fields == map@[name@],
            first_missing(fields, keys_view, 0) is None,
            (no as nat) < server_count(serv),
            serv == targets@,
            keys_view == written_keys(serv),
            vals_view == written_values(serv, no as nat),
            lv0 == old(lines)@.map_values(|l: String| l@),
            apply_from(lv0, fields, keys_view, vals_view, re@, 0) == apply_from(
                lines@.map_values(|l: String| l@),
                fields,
                keys_view,
                vals_view,
                re@,
                k as nat,
            ),
        decreases nums.len() - k,
    {
        let num = nums[k];
        assert(fields.contains_key(keys_view[k as int]));
        assert(num < lines.len());
        let value = values.remove(0);
        let ghost before = lines@.map_values(|l: String| l@);
        let res = regex_modify_key_val_node(lines, (num, value), re);
        match res {
            Ok(()) => {
                assert(lines@.map_values(|l: String| l@) =~= before.update(
                    num as int,
                    lines@[num as int]@,
                ));
            },
            Err(e) => {
                assert(lines@.map_values(|l: String| l@) =~= before);
                return Err(e);
            },
        }
        k = k + 1;
        assert forall|j: int| 0 <= j < values@.len() implies (#[trigger] values@[j])@
            == vals_view[j + k] by {}
    }
    Ok(())
}

proof fn lemma_apply_from_frame(
    lines: Seq<Seq<char>>,
    fields: Map<Seq<char>, YamlField>,
    keys: Seq<Seq<char>>,
    values: Seq<YamlValueView>,
    pattern: Seq<char>,
    i: nat,
    j: int,
)
    requires
        0 <= j < lines.len(),
        forall|x: int| i <= x < keys.len() ==> fields.contains_key(#[trigger] keys[x]),
        forall|x: int| i <= x < keys.len() ==> fields[#[trigger] keys[x]].0 < lines.len(),
        forall|x: int| i <= x < keys.len() ==> fields[#[trigger] keys[x]].0 != j,
    ensures
        apply_from(lines, fields, keys, values, pattern, i).0.len() == lines.len(),
        apply_from(lines, fields, keys, values, pattern, i).0[j] == lines[j],
    decreases keys.len() - i,
{
    if i < keys.len() {
        let num = fields[keys[i as int]].0;
        if let Ok(new_line) = modify_line(pattern, lines[num as int], num, values[i as int]) {
            lemma_apply_from_frame(
                lines.update(num as int, new_line),
                fields,
                keys,
                values,
                pattern,
                i + 1,
                j,
            );
        }
    }
}

/// Writing a server's settings keeps the number of lines and changes no line
/// other than those that hold the written fields of the block.
pub proof fn lemma_write_touches_only_field_lines(
    lines: Seq<Seq<char>>,
    index: YamlIndex,
    serv: ServInfoView,
    name: Seq<char>,
    no: nat,
    pattern: Seq<char>,
    j: int,
)
    requires
        written_fields_below(index, serv, name, lines.len()),
        0 <= j < lines.len(),
        forall|k: Seq<char>|
            written_keys(serv).contains(k) && index.contains_key(name) && #[trigger] index[name].contains_key(k)
                ==> index[name][k].0 != j,
    ensures
        write_outcome(lines, index, serv, name, no, pattern).0.len() == lines.len(),
        write_outcome(lines, index, serv, name, no, pattern).0[j] == lines[j],
{
    if index.contains_key(name) && first_missing(index[name], written_keys(serv), 0) is None
        && no < server_count(serv) {
        let keys = written_keys(serv);
        assert forall|x: int| 0 <= x < keys.len() implies index[name].contains_key(#[trigger] keys[x]) by {
            lemma_first_missing_none(index[name], keys, 0, x);
        }
        assert forall|x: int| 0 <= x < keys.len() implies index[name][#[trigger] keys[x]].0 != j by {
            assert(keys.contains(keys[x]));
        }
        assert forall|x: int| 0 <= x < keys.len() implies index[name][#[trigger] keys[x]].0
            < lines.len() by {
            assert(index_get(index, name, keys[x]) == Some(index[name][keys[x]]));
        }
        lemma_apply_from_frame(lines, index[name], keys, written_values(serv, no), pattern, 0, j);
    }
}

proof fn lemma_apply_from_writes(
    lines: Seq<Seq<char>>,
    fields: Map<Seq<char>, YamlField>,
    keys: Seq<Seq<char>>,
    values: Seq<YamlValueView>,
    pattern: Seq<char>,
    i: nat,
    x: int,
)
    requires
        apply_from(lines, fields, keys, values, pattern, i).1 is Ok,
        i <= x < keys.len(),
        forall|y: int| i <= y < keys.len() ==> fields.contains_key(#[trigger] keys[y]),
        forall|y: int| i <= y < keys.len() ==> fields[#[trigger] keys[y]].0 < lines.len(),
        forall|y: int, z: int|
            i <= y < keys.len() && i <= z < keys.len() && y != z ==> fields[#[trigger] keys[y]].0
                != fields[#[trigger] keys[z]].0,
    ensures
        exists|b: Seq<char>|
            apply_from(lines, fields, keys, values, pattern, i).0[fields[keys[x]].0 as int] == b
                + value_text(values[x]),
    decreases keys.len() - i,
{
    let num = fields[keys[i as int]].0;
    if let Ok(new_line) = modify_line(pattern, lines[num as int], num, values[i as int]) {
        let l2 = lines.update(num as int, new_line);
        if x == i {
            assert forall|y: int| i + 1 <= y < keys.len() implies fields[#[trigger] keys[y]].0
                != num by {
                assert(fields[keys[y]].0 != fields[keys[i as int]].0);
            }
            lemma_apply_from_frame(l2, fields, keys, values, pattern, i + 1, num as int);
            let b = (regex_captures(pattern, lines[num as int])->0[2]->0).0;
            assert(apply_from(lines, fields, keys, values, pattern, i).0[num as int] == b + value_text(
                values[x],
            ));
        } else {
            lemma_apply_from_writes(l2, fields, keys, values, pattern, i + 1, x);
        }
    }
}

proof fn lemma_ends_with_concat(b: Seq<char>, suffix: Seq<char>)
    ensures
        ends_with(b + suffix, suffix),
{
    assert((b + suffix).subrange(b.len() as int, (b + suffix).len() as int) =~= suffix);
}

/// The fields written for a server of the kind of `serv` are all in block
/// `name` of `index`, on pairwise distinct lines.
pub open spec fn distinct_written_lines(index: YamlIndex, serv: ServInfoView, name: Seq<char>) -> bool {
    let f = index[name];
    &&& index.contains_key(name)
    &&& f.contains_key("server"@) && f.contains_key("port"@) && f.contains_key("password"@)
    &&& f["server"@].0 != f["port"@].0 && f["server"@].0 != f["password"@].0 && f["port"@].0
        != f["password"@].0
    &&& serv is Mieru ==> {
        &&& f.contains_key("username"@)
        &&& f["username"@].0 != f["server"@].0 && f["username"@].0 != f["port"@].0
            && f["username"@].0 != f["password"@].0
    }
}

/// A successful write of server `no` writes the settings of that very server:
/// the `server` line ends with its address in double quotes, the `port` line
/// with its port in decimal, the `password` line with its password in double
/// quotes and, for Mieru, the `username` line with its user name in double quotes.
pub proof fn lemma_write_writes_server_no(
    lines: Seq<Seq<char>>,
    index: YamlIndex,
    serv: ServInfoView,
    name: Seq<char>,
    no: nat,
    pattern: Seq<char>,
)
    requires
        written_fields_below(index, serv, name, lines.len()),
        distinct_written_lines(index, serv, name),
        write_outcome(lines, index, serv, name, no, pattern).1 is Ok,
    ensures
        ({
            let out = write_outcome(lines, index, serv, name, no, pattern).0;
            let f = index[name];
            match serv {
                ServInfoView::Hysteria2(v) => {
                    &&& no < v.len()
                    &&& ends_with(out[f["server"@].0 as int], seq!['"'] + v[no as int].0 + seq!['"'])
                    &&& ends_with(out[f["port"@].0 as int], decimal(v[no as int].1 as nat))
                    &&& ends_with(out[f["password"@].0 as int], seq!['"'] + v[no as int].2 + seq!['"'])
                },
                ServInfoView::Mieru(v) => {
                    &&& no < v.len()
                    &&& ends_with(out[f["server"@].0 as int], seq!['"'] + v[no as int].0 + seq!['"'])
                    &&& ends_with(out[f["port"@].0 as int], decimal(v[no as int].1 as nat))
                    &&& ends_with(out[f["username"@].0 as int], seq!['"'] + v[no as int].2 + seq!['"'])
                    &&& ends_with(out[f["password"@].0 as int], seq!['"'] + v[no as int].3 + seq!['"'])
                },
            }
        }),
{
    let keys = written_keys(serv);
    let values = written_values(serv, no);
    let f = index[name];
    assert(first_missing(f, keys, 0) is None);
    assert forall|y: int| 0 <= y < keys.len() implies f.contains_key(#[trigger] keys[y]) by {
        lemma_first_missing_none(f, keys, 0, y);
    }
    assert forall|y: int| 0 <= y < keys.len() implies f[#[trigger] keys[y]].0 < lines.len() by {
        assert(index_get(index, name, keys[y]) == Some(f[keys[y]]));
    }
    assert forall|y: int, z: int|
        0 <= y < keys.len() && 0 <= z < keys.len() && y != z implies f[#[trigger] keys[y]].0
        != f[#[trigger] keys[z]].0 by {
    }
    let out = apply_from(lines, f, keys, values, pattern, 0).0;
    assert forall|x: int| 0 <= x < keys.len() implies ends_with(
        out[f[#[trigger] keys[x]].0 as int],
        value_text(values[x]),
    ) by {
        lemma_apply_from_writes(lines, f, keys, values, pattern, 0, x);
        let b = choose|b: Seq<char>| out[f[keys[x]].0 as int] == b + value_text(values[x]);
        lemma_ends_with_concat(b, value_text(values[x]));
    }
    assert(ends_with(out[f[keys[0]].0 as int], value_text(values[0])));
    assert(ends_with(out[f[keys[1]].0 as int], value_text(values[1])));
    assert(ends_with(out[f[keys[2]].0 as int], value_text(values[2])));
    if serv is Mieru {
        assert(ends_with(out[f[keys[3]].0 as int], value_text(values[3])));
    }
}

} // verus!
