//! The flat task-file text format: records separated by a line that is
//! exactly `---`, each record a fixed-order set of `key: value` lines.
//! Serialization and parsing are both here, with the round trip proved.

use vstd::prelude::*;
use vstd::string::{StrSliceExecFns, StringExecFns};

use crate::decimal::{spec_dec, spec_parse_u16, u64_to_dec};
use crate::task::{task_views, Task, TaskView};

verus! {

/// Unicode whitespace, the set trimming removes.
pub open spec fn is_wspace(c: char) -> bool {
    c == ' ' || c == '\t' || c == '\n' || c == '\u{000B}' || c == '\u{000C}' || c == '\r' || c
        == '\u{0085}' || c == '\u{00A0}' || c == '\u{1680}' || c == '\u{2000}' || c == '\u{2001}'
        || c == '\u{2002}' || c == '\u{2003}' || c == '\u{2004}' || c == '\u{2005}' || c
        == '\u{2006}' || c == '\u{2007}' || c == '\u{2008}' || c == '\u{2009}' || c == '\u{200A}'
        || c == '\u{2028}' || c == '\u{2029}' || c == '\u{202F}' || c == '\u{205F}' || c
        == '\u{3000}'
}

pub open spec fn spec_trim_left(s: Seq<char>) -> Seq<char>
    decreases s.len(),
{
    if s.len() > 0 && is_wspace(s[0]) {
        spec_trim_left(s.drop_first())
    } else {
        s
    }
}

pub open spec fn spec_trim_right(s: Seq<char>) -> Seq<char>
    decreases s.len(),
{
    if s.len() > 0 && is_wspace(s.last()) {
        spec_trim_right(s.drop_last())
    } else {
        s
    }
}

/// `s` without leading and trailing whitespace.
pub open spec fn spec_trim(s: Seq<char>) -> Seq<char> {
    spec_trim_right(spec_trim_left(s))
}

/// A line split at its first `:`, if it has one: what stands before it and
/// what follows it, both untrimmed.
pub open spec fn spec_split_colon(line: Seq<char>) -> Option<(Seq<char>, Seq<char>)>
    decreases line.len(),
{
    if line.len() == 0 {
        None
    } else if line[0] == ':' {
        Some((Seq::empty(), line.drop_first()))
    } else {
        match spec_split_colon(line.drop_first()) {
            Some(kv) => Some((seq![line[0]] + kv.0, kv.1)),
            None => None,
        }
    }
}

/// The record separator, as a whole line.
pub open spec fn delim_line() -> Seq<char> {
    seq!['-', '-', '-']
}

pub open spec fn nl() -> Seq<char> {
    seq!['\n']
}

/// `s` split at every newline; always at least one (possibly empty) line.
pub open spec fn spec_lines(s: Seq<char>) -> Seq<Seq<char>>
    decreases s.len(),
{
    if s.len() == 0 {
        seq![Seq::<char>::empty()]
    } else if s[0] == '\n' {
        seq![Seq::<char>::empty()] + spec_lines(s.drop_first())
    } else {
        let rest = spec_lines(s.drop_first());
        seq![seq![s[0]] + rest[0]] + rest.drop_first()
    }
}

/// A group of lines with no text in it: nothing but whitespace.
pub open spec fn blank_group(g: Seq<Seq<char>>) -> bool {
    forall|i: int| 0 <= i < g.len() ==> spec_trim(#[trigger] g[i]).len() == 0
}

/// A finished group becomes a record unless it is blank.
pub open spec fn flush_group(cur: Seq<Seq<char>>) -> Seq<Seq<Seq<char>>> {
    if blank_group(cur) {
        Seq::empty()
    } else {
        seq![cur]
    }
}

/// Group `lines` into records: separator lines close the group being
/// gathered (`cur`), and whitespace-only groups are dropped.
pub open spec fn spec_records(lines: Seq<Seq<char>>, cur: Seq<Seq<char>>) -> Seq<Seq<Seq<char>>>
    decreases lines.len(),
{
    if lines.len() == 0 {
        flush_group(cur)
    } else if lines[0] == delim_line() {
        flush_group(cur) + spec_records(lines.drop_first(), Seq::empty())
    } else {
        spec_records(lines.drop_first(), cur.push(lines[0]))
    }
}

/// The value a record holds under `name`: the first line whose trimmed key
/// is `name` yields its trimmed value; lines without a `:` or with another
/// key carry nothing.
pub open spec fn spec_field_value(g: Seq<Seq<char>>, name: Seq<char>) -> Option<Seq<char>>
    decreases g.len(),
{
    if g.len() == 0 {
        None
    } else {
        match spec_split_colon(g[0]) {
            Some(kv) => if spec_trim(kv.0) == name {
                Some(spec_trim(kv.1))
            } else {
                spec_field_value(g.drop_first(), name)
            },
            None => spec_field_value(g.drop_first(), name),
        }
    }
}

/// `true` parses to true; anything else (including `false`) to false.
pub open spec fn spec_parse_bool(s: Seq<char>) -> bool {
    s == seq!['t', 'r', 'u', 'e']
}

pub open spec fn spec_bool_str(b: bool) -> Seq<char> {
    if b {
        seq!['t', 'r', 'u', 'e']
    } else {
        seq!['f', 'a', 'l', 's', 'e']
    }
}

/// A task from its record's lines, each field looked up under its own key;
/// a missing or unparsable field falls back to its zero value rather than
/// failing the load.
pub open spec fn spec_group_task(g: Seq<Seq<char>>) -> TaskView {
    TaskView {
        title: match spec_field_value(g, title_name()) {
            Some(t) => t,
            None => Seq::empty(),
        },
        pomodoros_expected: match spec_field_value(g, expected_name()) {
            Some(s) => spec_parse_u16(s),
            None => 0u16,
        },
        pomodoros_completed: match spec_field_value(g, count_name()) {
            Some(s) => spec_parse_u16(s),
            None => 0u16,
        },
        completed: match spec_field_value(g, completed_name()) {
            Some(s) => spec_parse_bool(s),
            None => false,
        },
    }
}

/// What loading a task file yields.
pub open spec fn spec_parse(s: Seq<char>) -> Seq<TaskView> {
    spec_records(spec_lines(s), Seq::empty()).map_values(|g: Seq<Seq<char>>| spec_group_task(g))
}

pub open spec fn colon_sp() -> Seq<char> {
    seq![':', ' ']
}

/// One `key: value` line.
pub open spec fn field_line(name: Seq<char>, value: Seq<char>) -> Seq<char> {
    name + colon_sp() + value
}

pub open spec fn title_name() -> Seq<char> {
    seq!['t', 'i', 't', 'l', 'e']
}

pub open spec fn expected_name() -> Seq<char> {
    seq!['p', 'o', 'm', 'o', 'd', 'o', 'r', 'o', 's', '_', 'e', 'x', 'p', 'e', 'c', 't', 'e', 'd']
}

pub open spec fn count_name() -> Seq<char> {
    seq![
        'p',
        'o',
        'm',
        'o',
        'd',
        'o',
        'r',
        'o',
        's',
        '_',
        'c',
        'o',
        'm',
        'p',
        'l',
        'e',
        't',
        'e',
        'd',
    ]
}

pub open spec fn completed_name() -> Seq<char> {
    seq!['c', 'o', 'm', 'p', 'l', 'e', 't', 'e', 'd']
}

/// The four lines a saved record is made of, after its separator.
pub open spec fn record_lines(t: TaskView) -> Seq<Seq<char>> {
    seq![
        field_line(title_name(), t.title),
        field_line(expected_name(), spec_dec(t.pomodoros_expected as nat)),
        field_line(count_name(), spec_dec(t.pomodoros_completed as nat)),
        field_line(completed_name(), spec_bool_str(t.completed)),
    ]
}

/// The saved text of one task: its separator line, then its four field
/// lines, each newline-terminated.
pub open spec fn spec_record(t: TaskView) -> Seq<char> {
    delim_line() + nl() + field_line(title_name(), t.title) + nl() + field_line(
        expected_name(),
        spec_dec(t.pomodoros_expected as nat),
    ) + nl() + field_line(count_name(), spec_dec(t.pomodoros_completed as nat)) + nl() + field_line(
        completed_name(),
        spec_bool_str(t.completed),
    ) + nl()
}

/// The saved text of a whole task list: every record in order, and the
/// trailing separator that is written even for an empty list.
pub open spec fn spec_serialize(ts: Seq<TaskView>) -> Seq<char>
    decreases ts.len(),
{
    if ts.len() == 0 {
        delim_line()
    } else {
        spec_record(ts[0]) + spec_serialize(ts.drop_first())
    }
}

/// A title the format can carry: no newline, and no whitespace at either
/// end (the loader trims values, so a padded title would come back
/// stripped).
pub open spec fn clean_title(s: Seq<char>) -> bool {
    &&& forall|i: int| 0 <= i < s.len() ==> #[trigger] s[i] != '\n'
    &&& s.len() > 0 ==> !is_wspace(s[0]) && !is_wspace(s.last())
}

fn bool_str(b: bool) -> (s: &'static str)
    ensures
        s@ == spec_bool_str(b),
{
    if b {
        proof {
            reveal_strlit("true");
            assert("true"@ =~= spec_bool_str(true));
        }
        "true"
    } else {
        proof {
            reveal_strlit("false");
            assert("false"@ =~= spec_bool_str(false));
        }
        "false"
    }
}

/// The saved text of one task.
fn record_string(t: &Task) -> (r: String)
    ensures
        r@ == spec_record(t@),
{
    proof {
        reveal_strlit("---\ntitle: ");
        assert("---\ntitle: "@ =~= delim_line() + nl() + title_name() + colon_sp());
        reveal_strlit("\npomodoros_expected: ");
        assert("\npomodoros_expected: "@ =~= nl() + expected_name() + colon_sp());
        reveal_strlit("\npomodoros_completed: ");
        assert("\npomodoros_completed: "@ =~= nl() + count_name() + colon_sp());
        reveal_strlit("\ncompleted: ");
        assert("\ncompleted: "@ =~= nl() + completed_name() + colon_sp());
        reveal_strlit("\n");
        assert("\n"@ =~= nl());
    }
    let mut r = "---\ntitle: ".to_owned();
    r.append(t.title.as_str());
    r.append("\npomodoros_expected: ");
    let expected = u64_to_dec(t.pomodoros_expected as u64);
    r.append(expected.as_str());
    r.append("\npomodoros_completed: ");
    let count = u64_to_dec(t.pomodoros_completed as u64);
    r.append(count.as_str());
    r.append("\ncompleted: ");
    r.append(bool_str(t.completed));
    r.append("\n");
    proof {
        assert(r@ =~= spec_record(t@));
    }
    r
}

/// Serialize the whole task list in save order, with the trailing
/// separator.
pub fn serialize_tasks(tasks: &Vec<Task>) -> (s: String)
    ensures
        s@ == spec_serialize(task_views(tasks@)),
{
    let ghost views = task_views(tasks@);
    let mut s = String::new();
    proof {
        assert(views.skip(0) =~= views);
        assert(s@ + spec_serialize(views) =~= spec_serialize(views));
    }
    let mut i: usize = 0;
    while i < tasks.len()
        invariant
            0 <= i <= tasks@.len(),
            views == task_views(tasks@),
            spec_serialize(views) == s@ + spec_serialize(views.skip(i as int)),
        decreases tasks@.len() - i,
    {
        let rec = record_string(&tasks[i]);
        proof {
            assert(views.skip(i as int).len() > 0);
            assert(views.skip(i as int)[0] == tasks@[i as int]@);
            assert(views.skip(i as int).drop_first() =~= views.skip(i + 1));
            assert(spec_serialize(views.skip(i as int)) == spec_record(tasks@[i as int]@)
                + spec_serialize(views.skip(i + 1)));
        }
        s.append(rec.as_str());
        proof {
            assert(spec_serialize(views) =~= s@ + spec_serialize(views.skip(i + 1)));
        }
        i = i + 1;
    }
    proof {
        reveal_strlit("---");
        assert("---"@ =~= delim_line());
        assert(views.skip(tasks@.len() as int) =~= Seq::<TaskView>::empty());
    }
    s.append("---");
    proof {
        assert(s@ =~= spec_serialize(views));
    }
    s
}

/// Index pairs into a character buffer, each well within bounds.
pub open spec fn ranges_ok(rs: Seq<(usize, usize)>, n: nat) -> bool {
    forall|k: int| 0 <= k < rs.len() ==> (#[trigger] rs[k]).0 <= rs[k].1 <= n
}

/// The pieces of text the index pairs point at.
pub open spec fn ranges_to_seqs(rs: Seq<(usize, usize)>, s: Seq<char>) -> Seq<Seq<char>> {
    rs.map_values(|r: (usize, usize)| s.subrange(r.0 as int, r.1 as int))
}

/// Every line of `s` always yields at least one line.
proof fn lemma_spec_lines_nonempty(s: Seq<char>)
    ensures
        spec_lines(s).len() >= 1,
    decreases s.len(),
{
    if s.len() == 0 {
    } else {
        lemma_spec_lines_nonempty(s.drop_first())
    }
}

fn wspace_char(c: char) -> (r: bool)
    ensures
        r == is_wspace(c),
{
    c == ' ' || c == '\t' || c == '\n' || c == '\u{000B}' || c == '\u{000C}' || c == '\r' || c
        == '\u{0085}' || c == '\u{00A0}' || c == '\u{1680}' || c == '\u{2000}' || c == '\u{2001}'
        || c == '\u{2002}' || c == '\u{2003}' || c == '\u{2004}' || c == '\u{2005}' || c
        == '\u{2006}' || c == '\u{2007}' || c == '\u{2008}' || c == '\u{2009}' || c == '\u{200A}'
        || c == '\u{2028}' || c == '\u{2029}' || c == '\u{202F}' || c == '\u{205F}' || c
        == '\u{3000}'
}

/// The characters of `s`, one by one.
fn to_char_vec(s: &str) -> (v: Vec<char>)
    ensures
        v@ == s@,
{
    let n = s.unicode_len();
    let mut v: Vec<char> = Vec::new();
    let mut i: usize = 0;
    while i < n
        invariant
            i <= n == s@.len(),
            v@ == s@.subrange(0, i as int),
        decreases n - i,
    {
        v.push(s.get_char(i));
        proof {
            assert(v@ =~= s@.subrange(0, i + 1));
        }
        i = i + 1;
    }
    proof {
        assert(s@.subrange(0, n as int) =~= s@);
    }
    v
}

/// Narrow `[from, to)` to its whitespace-trimmed middle.
fn trim_range(v: &Vec<char>, from: usize, to: usize) -> (r: (usize, usize))
    requires
        from <= to <= v@.len(),
    ensures
        from <= r.0 <= r.1 <= to,
        v@.subrange(r.0 as int, r.1 as int) == spec_trim(v@.subrange(from as int, to as int)),
{
    let mut a = from;
    while a < to && wspace_char(v[a])
        invariant
            from <= a <= to <= v@.len(),
            spec_trim_left(v@.subrange(from as int, to as int)) == spec_trim_left(
                v@.subrange(a as int, to as int),
            ),
        decreases to - a,
    {
        proof {
            assert(v@.subrange(a as int, to as int).drop_first() =~= v@.subrange(a + 1, to as int));
        }
        a = a + 1;
    }
    proof {
        assert(spec_trim_left(v@.subrange(a as int, to as int)) == v@.subrange(a as int, to as int));
    }
    let mut b = to;
    while b > a && wspace_char(v[b - 1])
        invariant
            from <= a <= b <= to <= v@.len(),
            spec_trim_right(v@.subrange(a as int, to as int)) == spec_trim_right(
                v@.subrange(a as int, b as int),
            ),
        decreases b,
    {
        proof {
            assert(v@.subrange(a as int, b as int).drop_last() =~= v@.subrange(a as int, b - 1));
        }
        b = b - 1;
    }
    proof {
        assert(spec_trim_right(v@.subrange(a as int, b as int)) == v@.subrange(a as int, b as int));
    }
    (a, b)
}

/// Where the first `:` of `[from, to)` stands, splitting key from value.
fn find_colon(v: &Vec<char>, from: usize, to: usize) -> (r: Option<usize>)
    requires
        from <= to <= v@.len(),
    ensures
        match r {
            Some(c) => from <= c < to && spec_split_colon(v@.subrange(from as int, to as int))
                == Some(
                (v@.subrange(from as int, c as int), v@.subrange(c + 1, to as int)),
            ),
            None => spec_split_colon(v@.subrange(from as int, to as int)) is None,
        },
{
    let mut i = from;
    while i < to
        invariant
            from <= i <= to <= v@.len(),
            (match spec_split_colon(v@.subrange(i as int, to as int)) {
                Some(kv) => spec_split_colon(v@.subrange(from as int, to as int)) == Some(
                    (v@.subrange(from as int, i as int) + kv.0, kv.1),
                ),
                None => spec_split_colon(v@.subrange(from as int, to as int)) is None,
            }),
        decreases to - i,
    {
        proof {
            assert(v@.subrange(i as int, to as int).drop_first() =~= v@.subrange(i + 1, to as int));
        }
        if v[i] == ':' {
            proof {
                assert(spec_split_colon(v@.subrange(i as int, to as int)) == Some(
                    (Seq::<char>::empty(), v@.subrange(i + 1, to as int)),
                ));
                assert(v@.subrange(from as int, i as int) + Seq::<char>::empty() =~= v@.subrange(
                    from as int,
                    i as int,
                ));
            }
            return Some(i);
        }
        proof {
            let inner = spec_split_colon(v@.subrange(i + 1, to as int));
            match inner {
                Some(kv) => {
                    assert(spec_split_colon(v@.subrange(i as int, to as int)) == Some(
                        (seq![v@[i as int]] + kv.0, kv.1),
                    ));
                    assert(v@.subrange(from as int, i as int) + (seq![v@[i as int]] + kv.0)
                        =~= v@.subrange(from as int, i + 1) + kv.0);
                },
                None => {},
            }
        }
        i = i + 1;
    }
    None
}

/// Whether `[from, to)` reads exactly `name`.
fn range_matches(v: &Vec<char>, from: usize, to: usize, name: &str) -> (r: bool)
    requires
        from <= to <= v@.len(),
    ensures
        r == (v@.subrange(from as int, to as int) == name@),
{
    let n = name.unicode_len();
    if to - from != n {
        proof {
            assert(v@.subrange(from as int, to as int).len() != name@.len());
        }
        return false;
    }
    let mut i: usize = 0;
    while i < n
        invariant
            0 <= i <= n == name@.len(),
            from <= to <= v@.len(),
            to - from == n,
            forall|j: int|
                0 <= j < i ==> v@.subrange(from as int, to as int)[j] == #[trigger] name@[j],
        decreases n - i,
    {
        if v[from + i] != name.get_char(i) {
            proof {
                assert(v@.subrange(from as int, to as int)[i as int] != name@[i as int]);
            }
            return false;
        }
        proof {
            assert(v@.subrange(from as int, to as int)[i as int] == name@[i as int]);
        }
        i = i + 1;
    }
    proof {
        assert(v@.subrange(from as int, to as int) =~= name@);
    }
    true
}

/// Whether `[from, to)` is exactly the record separator `---`.
fn is_delim_range(v: &Vec<char>, from: usize, to: usize) -> (r: bool)
    requires
        from <= to <= v@.len(),
    ensures
        r == (v@.subrange(from as int, to as int) == delim_line()),
{
    let ghost s = v@.subrange(from as int, to as int);
    if to - from != 3 {
        proof {
            assert(s.len() != 3 && delim_line().len() == 3);
        }
        return false;
    }
    let r = v[from] == '-' && v[from + 1] == '-' && v[from + 2] == '-';
    proof {
        assert(s[0] == v@[from as int] && s[1] == v@[from + 1] && s[2] == v@[from + 2]);
        if r {
            assert(s =~= delim_line());
        }
    }
    r
}

/// Whether `[from, to)` reads exactly `true`.
fn parse_bool_range(v: &Vec<char>, from: usize, to: usize) -> (r: bool)
    requires
        from <= to <= v@.len(),
    ensures
        r == spec_parse_bool(v@.subrange(from as int, to as int)),
{
    let ghost s = v@.subrange(from as int, to as int);
    if to - from != 4 {
        proof {
            assert(s.len() != 4 && seq!['t', 'r', 'u', 'e'].len() == 4);
        }
        return false;
    }
    let r = v[from] == 't' && v[from + 1] == 'r' && v[from + 2] == 'u' && v[from + 3] == 'e';
    proof {
        assert(s[0] == v@[from as int] && s[1] == v@[from + 1] && s[2] == v@[from + 2] && s[3]
            == v@[from + 3]);
        if r {
            assert(s =~= seq!['t', 'r', 'u', 'e']);
        }
    }
    r
}

/// The lines a piece of text is made of, as index pairs.
fn split_lines(v: &Vec<char>) -> (lines: Vec<(usize, usize)>)
    ensures
        ranges_ok(lines@, v@.len()),
        ranges_to_seqs(lines@, v@) == spec_lines(v@),
{
    let n = v.len();
    let mut lines: Vec<(usize, usize)> = Vec::new();
    let mut start: usize = 0;
    let mut i: usize = 0;
    proof {
        lemma_spec_lines_nonempty(v@);
        assert(v@.subrange(0, n as int) =~= v@);
        assert(v@.subrange(0, 0) =~= Seq::<char>::empty());
        assert(cons_partial(Seq::<char>::empty(), spec_lines(v@)) =~= spec_lines(v@)) by {
            assert(Seq::<char>::empty() + spec_lines(v@)[0] =~= spec_lines(v@)[0]);
            assert(seq![spec_lines(v@)[0]] + spec_lines(v@).drop_first() =~= spec_lines(v@));
        }
        assert(ranges_to_seqs(lines@, v@) =~= Seq::<Seq<char>>::empty());
        assert(ranges_to_seqs(lines@, v@) + spec_lines(v@) =~= spec_lines(v@));
    }
    while i < n
        invariant
            0 <= start <= i <= n == v@.len(),
            ranges_ok(lines@, v@.len()),
            forall|k: int| start <= k < i ==> v@[k] != '\n',
            spec_lines(v@) == ranges_to_seqs(lines@, v@) + cons_partial(
                v@.subrange(start as int, i as int),
                spec_lines(v@.subrange(i as int, n as int)),
            ),
        decreases n - i,
    {
        let ghost p = v@.subrange(start as int, i as int);
        let ghost rest = spec_lines(v@.subrange(i + 1, n as int));
        proof {
            lemma_spec_lines_nonempty(v@.subrange(i + 1, n as int));
            assert(v@.subrange(i as int, n as int)[0] == v@[i as int]);
            assert(v@.subrange(i as int, n as int).drop_first() =~= v@.subrange(i + 1, n as int));
        }
        if v[i] == '\n' {
            proof {
                assert(spec_lines(v@.subrange(i as int, n as int)) == seq![Seq::<char>::empty()]
                    + rest);
                assert(cons_partial(p, seq![Seq::<char>::empty()] + rest) =~= seq![p] + rest) by {
                    assert((seq![Seq::<char>::empty()] + rest)[0] =~= Seq::<char>::empty());
                    assert((seq![Seq::<char>::empty()] + rest).drop_first() =~= rest);
                    assert(p + Seq::<char>::empty() =~= p);
                }
            }
            lines.push((start, i));
            start = i + 1;
            proof {
                assert(ranges_to_seqs(lines@, v@) =~= ranges_to_seqs(lines@.drop_last(), v@)
                    + seq![p]);
                assert(v@.subrange(start as int, i + 1) =~= Seq::<char>::empty());
                assert(cons_partial(Seq::<char>::empty(), rest) =~= rest) by {
                    assert(Seq::<char>::empty() + rest[0] =~= rest[0]);
                    assert(seq![rest[0]] + rest.drop_first() =~= rest);
                }
                assert(spec_lines(v@) =~= ranges_to_seqs(lines@, v@) + cons_partial(
                    v@.subrange(start as int, i + 1),
                    spec_lines(v@.subrange(i + 1, n as int)),
                ));
            }
        } else {
            proof {
                let whole = spec_lines(v@.subrange(i as int, n as int));
                assert(whole == seq![seq![v@[i as int]] + rest[0]] + rest.drop_first());
                assert(cons_partial(p, whole) =~= cons_partial(
                    v@.subrange(start as int, i + 1),
                    rest,
                )) by {
                    assert(whole[0] == seq![v@[i as int]] + rest[0]);
                    assert(whole.drop_first() =~= rest.drop_first());
                    assert(p + (seq![v@[i as int]] + rest[0]) =~= (p + seq![v@[i as int]])
                        + rest[0]);
                    assert(p + seq![v@[i as int]] =~= v@.subrange(start as int, i + 1));
                }
            }
        }
        i = i + 1;
    }
    proof {
        assert(v@.subrange(n as int, n as int) =~= Seq::<char>::empty());
        assert(spec_lines(v@.subrange(n as int, n as int)) == seq![Seq::<char>::empty()]);
        let p = v@.subrange(start as int, n as int);
        assert(cons_partial(p, seq![Seq::<char>::empty()]) =~= seq![p]) by {
            assert(p + Seq::<char>::empty() =~= p);
            assert(seq![p + Seq::<char>::empty()].drop_first() =~= Seq::<Seq<char>>::empty());
        }
    }
    lines.push((start, n));
    proof {
        assert(ranges_to_seqs(lines@, v@) =~= spec_lines(v@));
    }
    lines
}

/// A line list with an unfinished first line still to be prepended.
pub open spec fn cons_partial(p: Seq<char>, ls: Seq<Seq<char>>) -> Seq<Seq<char>>
    recommends
        ls.len() >= 1,
{
    seq![p + ls[0]] + ls.drop_first()
}

/// The trimmed value a record holds under `name`, as a range into `v`.
fn field_value(v: &Vec<char>, grp: &Vec<(usize, usize)>, name: &str) -> (r: Option<(usize, usize)>)
    requires
        ranges_ok(grp@, v@.len()),
    ensures
        (match r {
            Some(val) => val.0 <= val.1 <= v@.len() && spec_field_value(
                ranges_to_seqs(grp@, v@),
                name@,
            ) == Some(v@.subrange(val.0 as int, val.1 as int)),
            None => spec_field_value(ranges_to_seqs(grp@, v@), name@) is None,
        }),
{
    let ghost g = ranges_to_seqs(grp@, v@);
    let mut k: usize = 0;
    proof {
        assert(g.skip(0) =~= g);
    }
    while k < grp.len()
        invariant
            0 <= k <= grp@.len(),
            ranges_ok(grp@, v@.len()),
            g == ranges_to_seqs(grp@, v@),
            spec_field_value(g, name@) == spec_field_value(g.skip(k as int), name@),
        decreases grp@.len() - k,
    {
        let pair = grp[k];
        proof {
            assert(g.skip(k as int)[0] == g[k as int]);
            assert(g.skip(k as int).drop_first() =~= g.skip(k + 1));
        }
        match find_colon(v, pair.0, pair.1) {
            Some(c) => {
                let key = trim_range(v, pair.0, c);
                if range_matches(v, key.0, key.1, name) {
                    let val = trim_range(v, c + 1, pair.1);
                    proof {
                        assert(spec_field_value(g.skip(k as int), name@) == Some(
                            spec_trim(v@.subrange(c + 1, pair.1 as int)),
                        ));
                    }
                    return Some(val);
                }
            },
            None => {},
        }
        k = k + 1;
    }
    proof {
        assert(g.skip(grp@.len() as int) =~= Seq::<Seq<char>>::empty());
    }
    None
}

/// One gathered record turned into a task, unless the group is blank.
fn parse_record(content: &str, v: &Vec<char>, grp: &Vec<(usize, usize)>) -> (t: Option<Task>)
    requires
        content@ == v@,
        ranges_ok(grp@, v@.len()),
    ensures
        (match t {
            Some(task) => !blank_group(ranges_to_seqs(grp@, v@)) && task@ == spec_group_task(
                ranges_to_seqs(grp@, v@),
            ),
            None => blank_group(ranges_to_seqs(grp@, v@)),
        }),
{
    let ghost g = ranges_to_seqs(grp@, v@);
    let mut blank = true;
    let mut k: usize = 0;
    while k < grp.len()
        invariant
            0 <= k <= grp@.len(),
            ranges_ok(grp@, v@.len()),
            g == ranges_to_seqs(grp@, v@),
            blank == (forall|j: int| 0 <= j < k ==> spec_trim(#[trigger] g[j]).len() == 0),
        decreases grp@.len() - k,
    {
        let pair = grp[k];
        let trimmed = trim_range(v, pair.0, pair.1);
        if trimmed.1 > trimmed.0 {
            blank = false;
        }
        proof {
            assert(spec_trim(g[k as int]).len() == trimmed.1 - trimmed.0);
        }
        k = k + 1;
    }
    if blank {
        return None;
    }
    let title: String = match field_value(v, grp, "title") {
        Some(pair) => content.substring_char(pair.0, pair.1).to_owned(),
        None => String::new(),
    };
    let expected: u16 = match field_value(v, grp, "pomodoros_expected") {
        Some(pair) => crate::decimal::parse_u16_chars(v, pair.0, pair.1),
        None => 0,
    };
    let count: u16 = match field_value(v, grp, "pomodoros_completed") {
        Some(pair) => crate::decimal::parse_u16_chars(v, pair.0, pair.1),
        None => 0,
    };
    let completed: bool = match field_value(v, grp, "completed") {
        Some(pair) => parse_bool_range(v, pair.0, pair.1),
        None => false,
    };
    proof {
        reveal_strlit("title");
        assert("title"@ =~= title_name());
        reveal_strlit("pomodoros_expected");
        assert("pomodoros_expected"@ =~= expected_name());
        reveal_strlit("pomodoros_completed");
        assert("pomodoros_completed"@ =~= count_name());
        reveal_strlit("completed");
        assert("completed"@ =~= completed_name());
    }
    let task = Task { title, pomodoros_expected: expected, pomodoros_completed: count, completed };
    proof {
        assert(task@ =~= spec_group_task(g));
    }
    Some(task)
}

/// Records grouped and turned into tasks.
pub open spec fn records_tasks(lines: Seq<Seq<char>>, cur: Seq<Seq<char>>) -> Seq<TaskView> {
    spec_records(lines, cur).map_values(|g: Seq<Seq<char>>| spec_group_task(g))
}

/// Load a task list from the file text. Malformed fields fall back to
/// their zero values; whitespace-only stretches between separators are
/// skipped; nothing makes the load fail.
pub fn parse_tasks(content: &str) -> (tasks: Vec<Task>)
    ensures
        task_views(tasks@) == spec_parse(content@),
{
    let v = to_char_vec(content);
    let lines = split_lines(&v);
    let ghost lseq = ranges_to_seqs(lines@, v@);
    let mut tasks: Vec<Task> = Vec::new();
    let mut cur: Vec<(usize, usize)> = Vec::new();
    let mut li: usize = 0;
    proof {
        assert(lseq.skip(0) =~= lseq);
        assert(task_views(tasks@) =~= Seq::<TaskView>::empty());
        assert(ranges_to_seqs(cur@, v@) =~= Seq::<Seq<char>>::empty());
    }
    while li < lines.len()
        invariant
            content@ == v@,
            0 <= li <= lines@.len(),
            ranges_ok(lines@, v@.len()),
            ranges_ok(cur@, v@.len()),
            lseq == ranges_to_seqs(lines@, v@),
            records_tasks(lseq, Seq::empty()) == task_views(tasks@) + records_tasks(
                lseq.skip(li as int),
                ranges_to_seqs(cur@, v@),
            ),
        decreases lines@.len() - li,
    {
        let pair = lines[li];
        let ghost gcur = ranges_to_seqs(cur@, v@);
        proof {
            assert(lseq.skip(li as int)[0] == lseq[li as int]);
            assert(lseq.skip(li as int).drop_first() =~= lseq.skip(li + 1));
        }
        if is_delim_range(&v, pair.0, pair.1) {
            proof {
                assert(spec_records(lseq.skip(li as int), gcur) == flush_group(gcur)
                    + spec_records(lseq.skip(li + 1), Seq::empty()));
                assert(records_tasks(lseq.skip(li as int), gcur) =~= flush_group(gcur).map_values(
                    |g: Seq<Seq<char>>| spec_group_task(g),
                ) + records_tasks(lseq.skip(li + 1), Seq::empty()));
            }
            match parse_record(content, &v, &cur) {
                Some(task) => {
                    proof {
                        assert(flush_group(gcur) == seq![gcur]);
                        assert(flush_group(gcur).map_values(|g: Seq<Seq<char>>| spec_group_task(g))
                            =~= seq![spec_group_task(gcur)]);
                    }
                    tasks.push(task);
                    proof {
                        assert(task_views(tasks@) =~= task_views(tasks@.drop_last()) + seq![
                            spec_group_task(gcur),
                        ]);
                    }
                },
                None => {
                    proof {
                        assert(flush_group(gcur) == Seq::<Seq<Seq<char>>>::empty());
                        assert(flush_group(gcur).map_values(|g: Seq<Seq<char>>| spec_group_task(g))
                            =~= Seq::<TaskView>::empty());
                    }
                },
            }
            cur = Vec::new();
            proof {
                assert(ranges_to_seqs(cur@, v@) =~= Seq::<Seq<char>>::empty());
                assert(records_tasks(lseq, Seq::empty()) =~= task_views(tasks@) + records_tasks(
                    lseq.skip(li + 1),
                    ranges_to_seqs(cur@, v@),
                ));
            }
        } else {
            cur.push(pair);
            proof {
                assert(ranges_to_seqs(cur@, v@) =~= gcur.push(lseq[li as int]));
                assert(spec_records(lseq.skip(li as int), gcur) == spec_records(
                    lseq.skip(li + 1),
                    gcur.push(lseq[li as int]),
                ));
            }
        }
        li = li + 1;
    }
    let ghost gcur = ranges_to_seqs(cur@, v@);
    proof {
        assert(lseq.skip(lines@.len() as int) =~= Seq::<Seq<char>>::empty());
        assert(spec_records(lseq.skip(lines@.len() as int), gcur) == flush_group(gcur));
    }
    match parse_record(content, &v, &cur) {
        Some(task) => {
            proof {
                assert(flush_group(gcur) == seq![gcur]);
                assert(flush_group(gcur).map_values(|g: Seq<Seq<char>>| spec_group_task(g)) =~= seq![
                    spec_group_task(gcur),
                ]);
            }
            tasks.push(task);
            proof {
                assert(task_views(tasks@) =~= task_views(tasks@.drop_last()) + seq![
                    spec_group_task(gcur),
                ]);
                assert(task_views(tasks@) =~= records_tasks(lseq, Seq::empty()));
            }
        },
        None => {
            proof {
                assert(flush_group(gcur) == Seq::<Seq<Seq<char>>>::empty());
                assert(flush_group(gcur).map_values(|g: Seq<Seq<char>>| spec_group_task(g)) =~= Seq::<
                    TaskView,
                >::empty());
                assert(task_views(tasks@) =~= records_tasks(lseq, Seq::empty()));
            }
        },
    }
    proof {
        assert(task_views(tasks@) =~= spec_parse(content@));
    }
    tasks
}

pub open spec fn no_nl(s: Seq<char>) -> bool {
    forall|i: int| 0 <= i < s.len() ==> #[trigger] s[i] != '\n'
}

pub open spec fn no_colon(s: Seq<char>) -> bool {
    forall|i: int| 0 <= i < s.len() ==> #[trigger] s[i] != ':'
}

/// A value that comes back from the loader exactly as saved: trimming
/// leaves it alone.
pub open spec fn trim_stable(s: Seq<char>) -> bool {
    s.len() == 0 || (!is_wspace(s[0]) && !is_wspace(s.last()))
}

/// Text without a newline is a single line.
proof fn lemma_lines_single(a: Seq<char>)
    requires
        no_nl(a),
    ensures
        spec_lines(a) == seq![a],
    decreases a.len(),
{
    if a.len() == 0 {
        assert(a =~= Seq::<char>::empty());
        assert(spec_lines(a) =~= seq![a]);
    } else {
        lemma_lines_single(a.drop_first());
        let rest = spec_lines(a.drop_first());
        assert(rest[0] == a.drop_first());
        assert(seq![a[0]] + a.drop_first() =~= a);
        assert(spec_lines(a) =~= seq![a]);
    }
}

/// Splitting at the first newline: the newline-free front is the first
/// line, the rest splits on its own.
proof fn lemma_lines_append(a: Seq<char>, r: Seq<char>)
    requires
        no_nl(a),
    ensures
        spec_lines(a + nl() + r) == seq![a] + spec_lines(r),
    decreases a.len(),
{
    let s = a + nl() + r;
    if a.len() == 0 {
        assert(s[0] == '\n');
        assert(s.drop_first() =~= r);
        assert(spec_lines(s) == seq![Seq::<char>::empty()] + spec_lines(r));
        assert(Seq::<char>::empty() =~= a);
        assert(spec_lines(s) =~= seq![a] + spec_lines(r));
    } else {
        assert(s[0] == a[0] && a[0] != '\n');
        assert(s.drop_first() =~= a.drop_first() + nl() + r);
        lemma_lines_append(a.drop_first(), r);
        let rest = spec_lines(s.drop_first());
        assert(rest == seq![a.drop_first()] + spec_lines(r));
        assert(rest[0] == a.drop_first());
        assert(rest.drop_first() =~= spec_lines(r));
        assert(seq![s[0]] + a.drop_first() =~= a);
        assert(spec_lines(s) =~= seq![a] + spec_lines(r));
    }
}

/// The line list a saved task list splits into: each task's separator and
/// four field lines, then the trailing separator.
pub open spec fn task_lines(ts: Seq<TaskView>) -> Seq<Seq<char>>
    decreases ts.len(),
{
    if ts.len() == 0 {
        seq![delim_line()]
    } else {
        seq![delim_line()] + record_lines(ts[0]) + task_lines(ts.drop_first())
    }
}

/// The groups the loader gathers from a saved task list: one per task.
pub open spec fn task_groups(ts: Seq<TaskView>) -> Seq<Seq<Seq<char>>>
    decreases ts.len(),
{
    if ts.len() == 0 {
        Seq::empty()
    } else {
        seq![record_lines(ts[0])] + task_groups(ts.drop_first())
    }
}

/// The format's fixed names contain no colon, no newline and no
/// whitespace at either end, start with a letter, and differ pairwise in
/// length.
proof fn lemma_names_plain()
    ensures
        no_colon(title_name()) && no_nl(title_name()) && title_name()[0] == 't',
        no_colon(expected_name()) && no_nl(expected_name()) && expected_name()[0] == 'p',
        no_colon(count_name()) && no_nl(count_name()) && count_name()[0] == 'p',
        no_colon(completed_name()) && no_nl(completed_name()) && completed_name()[0] == 'c',
        no_nl(spec_bool_str(true)) && no_nl(spec_bool_str(false)),
        trim_stable(spec_bool_str(true)) && trim_stable(spec_bool_str(false)),
        trim_stable(title_name()) && trim_stable(expected_name()),
        trim_stable(count_name()) && trim_stable(completed_name()),
        title_name().len() == 5 && expected_name().len() == 18,
        count_name().len() == 19 && completed_name().len() == 9,
{
}

/// A saved field line has no newline as long as its value has none.
proof fn lemma_field_line_no_nl(name: Seq<char>, value: Seq<char>)
    requires
        no_nl(name),
        no_nl(value),
    ensures
        no_nl(field_line(name, value)),
{
    let l = field_line(name, value);
    assert forall|i: int| 0 <= i < l.len() implies #[trigger] l[i] != '\n' by {
        if i < name.len() {
            assert(l[i] == name[i]);
        } else if i < name.len() + 2 {
            assert(l[i] == colon_sp()[i - name.len()]);
        } else {
            assert(l[i] == value[i - name.len() - 2]);
        }
    }
}

/// Digit strings carry no newline and trim to themselves.
proof fn lemma_dec_plain(n: nat)
    ensures
        no_nl(spec_dec(n)),
        trim_stable(spec_dec(n)),
{
    crate::decimal::lemma_dec_props(n);
    assert(crate::decimal::is_digit(spec_dec(n)[0]));
    assert(crate::decimal::is_digit(spec_dec(n).last()));
    assert forall|i: int| 0 <= i < spec_dec(n).len() implies #[trigger] spec_dec(n)[i] != '\n' by {
        assert(crate::decimal::is_digit(spec_dec(n)[i]));
    }
}

/// The saved text of one record splits into its separator line and its
/// four field lines.
proof fn lemma_record_splits(t: TaskView, rest: Seq<char>)
    requires
        clean_title(t.title),
    ensures
        spec_lines(spec_record(t) + rest) == seq![delim_line()] + record_lines(t) + spec_lines(
            rest,
        ),
{
    lemma_names_plain();
    let l1 = field_line(title_name(), t.title);
    let l2 = field_line(expected_name(), spec_dec(t.pomodoros_expected as nat));
    let l3 = field_line(count_name(), spec_dec(t.pomodoros_completed as nat));
    let l4 = field_line(completed_name(), spec_bool_str(t.completed));
    lemma_dec_plain(t.pomodoros_expected as nat);
    lemma_dec_plain(t.pomodoros_completed as nat);
    assert(no_nl(t.title));
    lemma_field_line_no_nl(title_name(), t.title);
    lemma_field_line_no_nl(expected_name(), spec_dec(t.pomodoros_expected as nat));
    lemma_field_line_no_nl(count_name(), spec_dec(t.pomodoros_completed as nat));
    lemma_field_line_no_nl(completed_name(), spec_bool_str(t.completed));
    let x4 = l4 + nl() + rest;
    let x3 = l3 + nl() + x4;
    let x2 = l2 + nl() + x3;
    let x1 = l1 + nl() + x2;
    assert(spec_record(t) + rest =~= delim_line() + nl() + x1);
    assert(no_nl(delim_line()));
    lemma_lines_append(delim_line(), x1);
    lemma_lines_append(l1, x2);
    lemma_lines_append(l2, x3);
    lemma_lines_append(l3, x4);
    lemma_lines_append(l4, rest);
    assert(spec_lines(spec_record(t) + rest) =~= seq![delim_line()] + record_lines(t)
        + spec_lines(rest));
}

/// The saved text of a task list splits into exactly its task lines.
proof fn lemma_serialize_lines(ts: Seq<TaskView>)
    requires
        forall|i: int| 0 <= i < ts.len() ==> clean_title(#[trigger] ts[i].title),
    ensures
        spec_lines(spec_serialize(ts)) == task_lines(ts),
    decreases ts.len(),
{
    if ts.len() == 0 {
        lemma_names_plain();
        assert(no_nl(delim_line()));
        lemma_lines_single(delim_line());
    } else {
        lemma_serialize_lines(ts.drop_first());
        lemma_record_splits(ts[0], spec_serialize(ts.drop_first()));
        assert(task_lines(ts) =~= seq![delim_line()] + record_lines(ts[0]) + task_lines(
            ts.drop_first(),
        ));
    }
}

/// Gathering walks straight over lines that are not separators.
proof fn lemma_records_gather(g: Seq<Seq<char>>, rest: Seq<Seq<char>>, cur: Seq<Seq<char>>)
    requires
        forall|i: int| 0 <= i < g.len() ==> #[trigger] g[i] != delim_line(),
    ensures
        spec_records(g + rest, cur) == spec_records(rest, cur + g),
    decreases g.len(),
{
    if g.len() == 0 {
        assert(g + rest =~= rest);
        assert(cur + g =~= cur);
    } else {
        let s = g + rest;
        assert(s[0] == g[0]);
        assert(s.drop_first() =~= g.drop_first() + rest);
        lemma_records_gather(g.drop_first(), rest, cur.push(g[0]));
        assert(cur.push(g[0]) + g.drop_first() =~= cur + g);
    }
}

/// Trimming never loses a non-whitespace first character.
proof fn lemma_trim_right_keeps_head(s: Seq<char>)
    requires
        s.len() > 0,
        !is_wspace(s[0]),
    ensures
        spec_trim_right(s).len() > 0,
    decreases s.len(),
{
    if is_wspace(s.last()) {
        assert(s.len() != 1);
        assert(s.drop_last()[0] == s[0]);
        lemma_trim_right_keeps_head(s.drop_last());
    }
}

/// A saved field line is never whitespace-only: its key starts it with a
/// letter.
proof fn lemma_field_line_nonblank(name: Seq<char>, value: Seq<char>)
    requires
        name.len() > 0,
        !is_wspace(name[0]),
    ensures
        spec_trim(field_line(name, value)).len() > 0,
{
    let l = field_line(name, value);
    assert(l[0] == name[0]);
    assert(spec_trim_left(l) == l);
    lemma_trim_right_keeps_head(l);
}

/// A saved record's four lines: none is a separator, and the group is not
/// blank.
proof fn lemma_record_lines_shape(t: TaskView)
    ensures
        forall|i: int|
            0 <= i < record_lines(t).len() ==> #[trigger] record_lines(t)[i] != delim_line(),
        !blank_group(record_lines(t)),
{
    lemma_names_plain();
    let g = record_lines(t);
    assert forall|i: int| 0 <= i < g.len() implies #[trigger] g[i] != delim_line() by {
        assert(delim_line()[0] == '-');
        if i == 0 {
            assert(g[i][0] == 't');
        } else if i == 1 {
            assert(g[i][0] == 'p');
        } else if i == 2 {
            assert(g[i][0] == 'p');
        } else {
            assert(g[i][0] == 'c');
        }
    }
    lemma_field_line_nonblank(title_name(), t.title);
    assert(spec_trim(g[0]).len() > 0);
}

/// Grouping the saved lines yields one group per task (after whatever
/// group was already being gathered).
proof fn lemma_records_of_task_lines(ts: Seq<TaskView>, cur: Seq<Seq<char>>)
    ensures
        spec_records(task_lines(ts), cur) == flush_group(cur) + task_groups(ts),
    decreases ts.len(),
{
    if ts.len() == 0 {
        let e = Seq::<Seq<char>>::empty();
        assert(task_lines(ts)[0] == delim_line());
        assert(task_lines(ts).drop_first() =~= e);
        assert(blank_group(e));
        assert(spec_records(e, e) =~= Seq::<Seq<Seq<char>>>::empty());
        assert(spec_records(task_lines(ts), cur) == flush_group(cur) + spec_records(e, e));
        assert(flush_group(cur) + Seq::<Seq<Seq<char>>>::empty() =~= flush_group(cur));
        assert(spec_records(task_lines(ts), cur) =~= flush_group(cur) + task_groups(ts));
    } else {
        let t = ts[0];
        let g = record_lines(t);
        assert(task_lines(ts) == seq![delim_line()] + g + task_lines(ts.drop_first()));
        assert(task_lines(ts)[0] == delim_line());
        assert(task_lines(ts).drop_first() =~= g + task_lines(ts.drop_first()));
        lemma_record_lines_shape(t);
        lemma_records_gather(g, task_lines(ts.drop_first()), Seq::empty());
        assert(Seq::<Seq<char>>::empty() + g =~= g);
        lemma_records_of_task_lines(ts.drop_first(), g);
        assert(flush_group(g) == seq![g]);
        assert(spec_records(task_lines(ts), cur) == flush_group(cur) + spec_records(
            task_lines(ts).drop_first(),
            Seq::empty(),
        ));
        assert(spec_records(task_lines(ts).drop_first(), Seq::empty()) == spec_records(
            g + task_lines(ts.drop_first()),
            Seq::empty(),
        ));
        assert(spec_records(g + task_lines(ts.drop_first()), Seq::empty()) == spec_records(
            task_lines(ts.drop_first()),
            g,
        ));
        assert(spec_records(task_lines(ts.drop_first()), g) == seq![g] + task_groups(
            ts.drop_first(),
        ));
        assert(task_groups(ts) == seq![g] + task_groups(ts.drop_first()));
        assert(spec_records(task_lines(ts), cur) =~= flush_group(cur) + task_groups(ts));
    }
}

/// Splitting a line whose key holds no colon: the key before the `:` of
/// the `key: ` prefix, and everything after it.
proof fn lemma_split_colon_skip(name: Seq<char>, rest: Seq<char>)
    requires
        no_colon(name),
    ensures
        spec_split_colon(name + seq![':'] + rest) == Some((name, rest)),
    decreases name.len(),
{
    let s = name + seq![':'] + rest;
    if name.len() == 0 {
        assert(s[0] == ':');
        assert(s.drop_first() =~= rest);
        assert(Seq::<char>::empty() =~= name);
    } else {
        assert(s[0] == name[0] && name[0] != ':');
        assert(s.drop_first() =~= name.drop_first() + seq![':'] + rest);
        lemma_split_colon_skip(name.drop_first(), rest);
        assert(spec_split_colon(s) == Some((seq![name[0]] + name.drop_first(), rest)));
        assert(seq![name[0]] + name.drop_first() =~= name);
    }
}

/// A trim-stable piece of text trims to itself.
proof fn lemma_trim_id(s: Seq<char>)
    requires
        trim_stable(s),
    ensures
        spec_trim(s) == s,
{
    if s.len() == 0 {
        assert(spec_trim_left(s) == s);
        assert(spec_trim_right(s) == s);
    } else {
        assert(!is_wspace(s[0]));
        assert(spec_trim_left(s) == s);
        assert(!is_wspace(s.last()));
        assert(spec_trim_right(s) == s);
    }
}

/// A trim-stable value padded with the single space the format writes
/// comes back unchanged.
proof fn lemma_trim_padded(value: Seq<char>)
    requires
        trim_stable(value),
    ensures
        spec_trim(seq![' '] + value) == value,
{
    let s = seq![' '] + value;
    assert(is_wspace(s[0]));
    assert(s.drop_first() =~= value);
    assert(spec_trim_left(s) == spec_trim_left(value));
    if value.len() == 0 {
        assert(spec_trim_left(value) == value);
        assert(spec_trim_right(value) == value);
    } else {
        assert(!is_wspace(value[0]));
        assert(spec_trim_left(value) == value);
        assert(!is_wspace(value.last()));
        assert(spec_trim_right(value) == value);
    }
}

/// What a saved field line splits and trims into: exactly the key and the
/// value written.
proof fn lemma_field_line_value(name: Seq<char>, value: Seq<char>)
    requires
        no_colon(name),
        trim_stable(name),
        trim_stable(value),
    ensures
        spec_split_colon(field_line(name, value)) == Some((name, seq![' '] + value)),
        spec_trim(name) == name,
        spec_trim(seq![' '] + value) == value,
{
    assert(field_line(name, value) =~= name + seq![':'] + (seq![' '] + value));
    lemma_split_colon_skip(name, seq![' '] + value);
    lemma_trim_id(name);
    lemma_trim_padded(value);
}

/// The four field values a saved record yields back, each under its own
/// key.
proof fn lemma_record_fields(t: TaskView)
    requires
        clean_title(t.title),
    ensures
        spec_field_value(record_lines(t), title_name()) == Some(t.title),
        spec_field_value(record_lines(t), expected_name()) == Some(
            spec_dec(t.pomodoros_expected as nat),
        ),
        spec_field_value(record_lines(t), count_name()) == Some(
            spec_dec(t.pomodoros_completed as nat),
        ),
        spec_field_value(record_lines(t), completed_name()) == Some(spec_bool_str(t.completed)),
{
    lemma_names_plain();
    lemma_dec_plain(t.pomodoros_expected as nat);
    lemma_dec_plain(t.pomodoros_completed as nat);
    let g = record_lines(t);
    assert(trim_stable(t.title));
    lemma_field_line_value(title_name(), t.title);
    lemma_field_line_value(expected_name(), spec_dec(t.pomodoros_expected as nat));
    lemma_field_line_value(count_name(), spec_dec(t.pomodoros_completed as nat));
    lemma_field_line_value(completed_name(), spec_bool_str(t.completed));
    let g1 = g.drop_first();
    let g2 = g1.drop_first();
    let g3 = g2.drop_first();
    assert(g1 =~= seq![g[1], g[2], g[3]]);
    assert(g2 =~= seq![g[2], g[3]]);
    assert(g3 =~= seq![g[3]]);
    assert(g1[0] == g[1] && g2[0] == g[2] && g3[0] == g[3]);
    assert(spec_field_value(g, title_name()) == Some(t.title));
    assert(spec_field_value(g1, expected_name()) == Some(spec_dec(t.pomodoros_expected as nat)));
    assert(spec_field_value(g, expected_name()) == spec_field_value(g1, expected_name()));
    assert(spec_field_value(g2, count_name()) == Some(spec_dec(t.pomodoros_completed as nat)));
    assert(spec_field_value(g1, count_name()) == spec_field_value(g2, count_name()));
    assert(spec_field_value(g, count_name()) == spec_field_value(g1, count_name()));
    assert(spec_field_value(g3, completed_name()) == Some(spec_bool_str(t.completed)));
    assert(spec_field_value(g2, completed_name()) == spec_field_value(g3, completed_name()));
    assert(spec_field_value(g1, completed_name()) == spec_field_value(g2, completed_name()));
    assert(spec_field_value(g, completed_name()) == spec_field_value(g1, completed_name()));
}

/// Reading back a saved record gives the task it came from.
proof fn lemma_group_task(t: TaskView)
    requires
        clean_title(t.title),
    ensures
        spec_group_task(record_lines(t)) == t,
{
    lemma_record_fields(t);
    crate::decimal::lemma_parse_of_dec(t.pomodoros_expected as nat);
    crate::decimal::lemma_parse_of_dec(t.pomodoros_completed as nat);
    if t.completed {
        assert(spec_parse_bool(spec_bool_str(true)));
    } else {
        assert(spec_bool_str(false).len() == 5);
        assert(!spec_parse_bool(spec_bool_str(false)));
    }
    assert(spec_group_task(record_lines(t)) =~= t);
}

/// One gathered group per task, in order.
proof fn lemma_task_groups_index(ts: Seq<TaskView>)
    ensures
        task_groups(ts).len() == ts.len(),
        forall|i: int|
            0 <= i < ts.len() ==> #[trigger] task_groups(ts)[i] == record_lines(ts[i]),
    decreases ts.len(),
{
    if ts.len() == 0 {
    } else {
        lemma_task_groups_index(ts.drop_first());
        assert forall|i: int| 0 <= i < ts.len() implies #[trigger] task_groups(ts)[i]
            == record_lines(ts[i]) by {
            if i > 0 {
                assert(task_groups(ts)[i] == task_groups(ts.drop_first())[i - 1]);
                assert(ts.drop_first()[i - 1] == ts[i]);
            }
        }
    }
}

/// The save format round-trips: saving any task list and loading the text
/// back yields field-for-field the same tasks, provided every title is one
/// the format can carry (no newline, no leading or trailing whitespace).
/// This holds for the empty list too, whose saved form is the bare
/// trailing separator.
pub proof fn lemma_save_load_round_trip(ts: Seq<TaskView>)
    requires
        forall|i: int| 0 <= i < ts.len() ==> clean_title(#[trigger] ts[i].title),
    ensures
        spec_parse(spec_serialize(ts)) == ts,
{
    lemma_serialize_lines(ts);
    lemma_records_of_task_lines(ts, Seq::empty());
    assert(blank_group(Seq::<Seq<char>>::empty()));
    assert(flush_group(Seq::<Seq<char>>::empty()) + task_groups(ts) =~= task_groups(ts));
    lemma_task_groups_index(ts);
    let parsed = spec_parse(spec_serialize(ts));
    assert(parsed.len() == ts.len());
    assert forall|i: int| 0 <= i < ts.len() implies parsed[i] == ts[i] by {
        assert(parsed[i] == spec_group_task(task_groups(ts)[i]));
        lemma_group_task(ts[i]);
    }
    assert(parsed =~= ts);
}

} // verus!
