//! The on-disk form of the task collection: a JSON array of records,
//! each `{"name":"...","closed":true|false}`, in display order.
//!
//! The writer emits one canonical text per collection; the reader
//! accepts exactly that canonical text and answers `None` for
//! anything else, so a missing or malformed persistence file makes a
//! session start from the empty collection instead of failing.

use crate::tasks::{chars_to_string, TaskItem, TaskView};
use vstd::prelude::*;
use vstd::string::StrSliceExecFns;

verus! {

/// The escaped form of one character inside a JSON string: quote and
/// backslash take a backslash prefix; every other character stands
/// as itself.
pub open spec fn escape_char(c: char) -> Seq<char> {
    if c == '"' || c == '\\' {
        seq!['\\', c]
    } else {
        seq![c]
    }
}

/// The escaped form of a whole name.
pub open spec fn escape(s: Seq<char>) -> Seq<char>
    decreases s.len(),
{
    if s.len() == 0 {
        Seq::empty()
    } else {
        escape_char(s[0]) + escape(s.drop_first())
    }
}

/// The opening of a record, up to and including the name's opening
/// quote.
pub open spec fn lit_name() -> Seq<char> {
    seq!['{', '"', 'n', 'a', 'm', 'e', '"', ':', '"']
}

/// The middle of a record, between the name's closing quote and the
/// closed flag.
pub open spec fn lit_sep() -> Seq<char> {
    seq![',', '"', 'c', 'l', 'o', 's', 'e', 'd', '"', ':']
}

/// The closed flag, encoded.
pub open spec fn encode_bool(b: bool) -> Seq<char> {
    if b {
        seq!['t', 'r', 'u', 'e']
    } else {
        seq!['f', 'a', 'l', 's', 'e']
    }
}

/// One record, encoded: `{"name":"<escaped>","closed":<flag>}`.
pub open spec fn encode_task(t: TaskView) -> Seq<char> {
    lit_name() + escape(t.name) + seq!['"'] + lit_sep() + encode_bool(t.closed) + seq!['}']
}

/// The records, encoded and comma-separated.
pub open spec fn encode_items(ts: Seq<TaskView>) -> Seq<char>
    decreases ts.len(),
{
    if ts.len() == 0 {
        Seq::empty()
    } else if ts.len() == 1 {
        encode_task(ts[0])
    } else {
        encode_task(ts[0]) + seq![','] + encode_items(ts.drop_first())
    }
}

/// The whole collection, encoded: a JSON array of records.
pub open spec fn encode_spec(ts: Seq<TaskView>) -> Seq<char> {
    seq!['['] + encode_items(ts) + seq![']']
}

/// Escaping one more character appends its escaped form.
proof fn lemma_escape_push(t: Seq<char>, c: char)
    ensures
        escape(t.push(c)) == escape(t) + escape_char(c),
    decreases t.len(),
{
    if t.len() == 0 {
        assert(t.push(c)[0] == c);
        assert(t.push(c).drop_first() =~= Seq::<char>::empty());
        assert(escape(Seq::<char>::empty()) == Seq::<char>::empty());
        assert(escape(t.push(c)) == escape_char(c) + Seq::<char>::empty());
        assert(escape(t.push(c)) =~= escape(t) + escape_char(c));
    } else {
        lemma_escape_push(t.drop_first(), c);
        assert(t.push(c)[0] == t[0]);
        assert(t.push(c).drop_first() =~= t.drop_first().push(c));
        assert(escape(t.push(c)) == escape_char(t[0]) + escape(t.drop_first().push(c)));
        assert(escape(t) == escape_char(t[0]) + escape(t.drop_first()));
        assert(escape(t.push(c)) =~= escape(t) + escape_char(c));
    }
}

/// Encoding one more record appends its encoding, after a comma when
/// it is not the first.
proof fn lemma_items_push(ts: Seq<TaskView>, t: TaskView)
    ensures
        ts.len() == 0 ==> encode_items(ts.push(t)) == encode_task(t),
        ts.len() > 0 ==> encode_items(ts.push(t)) == encode_items(ts) + seq![','] + encode_task(
            t,
        ),
    decreases ts.len(),
{
    if ts.len() == 0 {
        assert(ts.push(t)[0] == t);
        assert(encode_items(ts.push(t)) == encode_task(t));
    } else {
        lemma_items_push(ts.drop_first(), t);
        assert(ts.push(t).drop_first() =~= ts.drop_first().push(t));
        assert(ts.push(t)[0] == ts[0]);
        assert(encode_items(ts.push(t)) =~= encode_items(ts) + seq![','] + encode_task(t));
    }
}

/// The characters of `s`, one vector entry each.
fn str_to_chars(s: &str) -> (v: Vec<char>)
    ensures
        v@ == s@,
{
    let n = s.unicode_len();
    let mut v: Vec<char> = Vec::new();
    let mut i: usize = 0;
    while i < n
        invariant
            n == s@.len(),
            i <= n,
            v@ == s@.take(i as int),
        decreases n - i,
    {
        let c = s.get_char(i);
        v.push(c);
        proof {
            assert(v@ =~= s@.take(i as int + 1));
        }
        i = i + 1;
    }
    proof {
        assert(s@.take(n as int) =~= s@);
    }
    v
}

/// Append the escaped form of `name` to `out`.
fn push_escaped(out: &mut Vec<char>, name: &str)
    ensures
        final(out)@ == old(out)@ + escape(name@),
{
    let n = name.unicode_len();
    let mut i: usize = 0;
    while i < n
        invariant
            n == name@.len(),
            i <= n,
            out@ == old(out)@ + escape(name@.take(i as int)),
        decreases n - i,
    {
        let c = name.get_char(i);
        proof {
            lemma_escape_push(name@.take(i as int), c);
            assert(name@.take(i as int).push(c) =~= name@.take(i as int + 1));
        }
        if c == '"' || c == '\\' {
            out.push('\\');
            out.push(c);
        } else {
            out.push(c);
        }
        proof {
            assert(out@ =~= old(out)@ + escape(name@.take(i as int + 1)));
        }
        i = i + 1;
    }
    proof {
        assert(name@.take(n as int) =~= name@);
    }
}

/// Append the opening of a record to `out`.
fn push_lit_name(out: &mut Vec<char>)
    ensures
        final(out)@ == old(out)@ + lit_name(),
{
    out.push('{');
    out.push('"');
    out.push('n');
    out.push('a');
    out.push('m');
    out.push('e');
    out.push('"');
    out.push(':');
    out.push('"');
    proof {
        assert(out@ =~= old(out)@ + lit_name());
    }
}

/// Append the middle of a record to `out`.
fn push_lit_sep(out: &mut Vec<char>)
    ensures
        final(out)@ == old(out)@ + lit_sep(),
{
    out.push(',');
    out.push('"');
    out.push('c');
    out.push('l');
    out.push('o');
    out.push('s');
    out.push('e');
    out.push('d');
    out.push('"');
    out.push(':');
    proof {
        assert(out@ =~= old(out)@ + lit_sep());
    }
}

/// Append an encoded closed flag to `out`.
fn push_bool(out: &mut Vec<char>, b: bool)
    ensures
        final(out)@ == old(out)@ + encode_bool(b),
{
    if b {
        out.push('t');
        out.push('r');
        out.push('u');
        out.push('e');
    } else {
        out.push('f');
        out.push('a');
        out.push('l');
        out.push('s');
        out.push('e');
    }
    proof {
        assert(out@ =~= old(out)@ + encode_bool(b));
    }
}

/// Append the encoding of one record to `out`.
fn push_task(out: &mut Vec<char>, t: &TaskItem)
    ensures
        final(out)@ == old(out)@ + encode_task(t@),
{
    push_lit_name(out);
    push_escaped(out, t.name.as_str());
    out.push('"');
    push_lit_sep(out);
    push_bool(out, t.closed);
    out.push('}');
    proof {
        assert(out@ =~= old(out)@ + encode_task(t@));
    }
}

/// The collection, encoded as the persistence file's text.
pub fn encode_tasks(tasks: &Vec<TaskItem>) -> (r: String)
    ensures
        r@ == encode_spec(tasks.deep_view()),
{
    let mut out: Vec<char> = Vec::new();
    out.push('[');
    let n = tasks.len();
    let mut i: usize = 0;
    while i < n
        invariant
            n == tasks@.len(),
            i <= n,
            out@ == seq!['['] + encode_items(tasks.deep_view().take(i as int)),
        decreases n - i,
    {
        if i > 0 {
            out.push(',');
        }
        push_task(&mut out, &tasks[i]);
        proof {
            let dv = tasks.deep_view();
            lemma_items_push(dv.take(i as int), dv[i as int]);
            assert(dv.take(i as int).push(dv[i as int]) =~= dv.take(i as int + 1));
            assert(out@ =~= seq!['['] + encode_items(dv.take(i as int + 1)));
        }
        i = i + 1;
    }
    out.push(']');
    proof {
        assert(tasks.deep_view().take(n as int) =~= tasks.deep_view());
        assert(out@ =~= encode_spec(tasks.deep_view()));
    }
    chars_to_string(&out)
}

/// Whether `pat` occurs in `s` at position `i`.
pub open spec fn has_at(s: Seq<char>, i: int, pat: Seq<char>) -> bool {
    &&& 0 <= i
    &&& i + pat.len() <= s.len()
    &&& forall|k: int| 0 <= k < pat.len() ==> s[i + k] == #[trigger] pat[k]
}

/// The body of a JSON string read from position `i` up to and over
/// its closing quote: the characters it stands for, and the position
/// just past the quote. Only the two escapes the writer emits are
/// understood.
pub open spec fn parse_string(s: Seq<char>, i: int) -> Option<(Seq<char>, int)>
    decreases s.len() - i,
{
    if i < 0 || i >= s.len() {
        None
    } else if s[i] == '"' {
        Some((Seq::empty(), i + 1))
    } else if s[i] == '\\' {
        if i + 2 <= s.len() && (s[i + 1] == '"' || s[i + 1] == '\\') {
            match parse_string(s, i + 2) {
                Some(r) => Some((seq![s[i + 1]] + r.0, r.1)),
                None => None,
            }
        } else {
            None
        }
    } else {
        match parse_string(s, i + 1) {
            Some(r) => Some((seq![s[i]] + r.0, r.1)),
            None => None,
        }
    }
}

/// A closed flag read from position `i`.
pub open spec fn parse_bool(s: Seq<char>, i: int) -> Option<(bool, int)> {
    if i >= 0 && i + 4 <= s.len() && s[i] == 't' && s[i + 1] == 'r' && s[i + 2] == 'u' && s[i + 3]
        == 'e' {
        Some((true, i + 4))
    } else if i >= 0 && i + 5 <= s.len() && s[i] == 'f' && s[i + 1] == 'a' && s[i + 2] == 'l' && s[i
        + 3] == 's' && s[i + 4] == 'e' {
        Some((false, i + 5))
    } else {
        None
    }
}

/// One record read from position `i`: the strict shape
/// `{"name":"<string>","closed":<flag>}`.
pub open spec fn parse_task(s: Seq<char>, i: int) -> Option<(TaskView, int)> {
    if has_at(s, i, lit_name()) {
        match parse_string(s, i + 9) {
            Some(nr) => if has_at(s, nr.1, lit_sep()) {
                match parse_bool(s, nr.1 + 10) {
                    Some(br) => if br.1 < s.len() && s[br.1] == '}' {
                        Some(((TaskView { name: nr.0, closed: br.0 }), br.1 + 1))
                    } else {
                        None
                    },
                    None => None,
                }
            } else {
                None
            },
            None => None,
        }
    } else {
        None
    }
}

/// A non-empty, comma-separated run of records read from position `i`.
pub open spec fn parse_items(s: Seq<char>, i: int) -> Option<(Seq<TaskView>, int)>
    decreases s.len() - i,
{
    match parse_task(s, i) {
        Some(tr) => if i < tr.1 && tr.1 < s.len() && s[tr.1] == ',' {
            match parse_items(s, tr.1 + 1) {
                Some(rr) => Some((seq![tr.0] + rr.0, rr.1)),
                None => None,
            }
        } else if i < tr.1 {
            Some((seq![tr.0], tr.1))
        } else {
            None
        },
        None => None,
    }
}

/// The persisted collection: a JSON array of records filling the
/// whole text, or nothing.
pub open spec fn parse_tasks(s: Seq<char>) -> Option<Seq<TaskView>> {
    if s.len() >= 1 && s[0] == '[' {
        if s.len() == 2 && s[1] == ']' {
            Some(Seq::empty())
        } else {
            match parse_items(s, 1) {
                Some(p) => if p.1 + 1 == s.len() && s[p.1] == ']' {
                    Some(p.0)
                } else {
                    None
                },
                None => None,
            }
        }
    } else {
        None
    }
}

/// Instantiate `has_at` at one offset.
proof fn lemma_has_at_index(s: Seq<char>, i: int, pat: Seq<char>, k: int)
    requires
        has_at(s, i, pat),
        0 <= k < pat.len(),
    ensures
        s[i + k] == pat[k],
{
}

/// A match of a concatenation splits into matches of its parts.
proof fn lemma_has_at_split(s: Seq<char>, i: int, a: Seq<char>, b: Seq<char>)
    requires
        has_at(s, i, a + b),
    ensures
        has_at(s, i, a),
        has_at(s, i + a.len(), b),
{
    assert forall|k: int| 0 <= k < a.len() implies s[i + k] == #[trigger] a[k] by {
        lemma_has_at_index(s, i, a + b, k);
        assert((a + b)[k] == a[k]);
    }
    assert forall|k: int| 0 <= k < b.len() implies s[i + a.len() + k] == #[trigger] b[k] by {
        lemma_has_at_index(s, i, a + b, a.len() + k);
        assert((a + b)[a.len() + k] == b[k]);
    }
}

/// The reader inverts the writer on one escaped name: from the start
/// of its escaped form, it stops exactly at the closing quote and
/// hands the name back.
proof fn lemma_parse_string_of_escape(s: Seq<char>, i: int, name: Seq<char>)
    requires
        has_at(s, i, escape(name)),
        i + escape(name).len() < s.len(),
        s[i + escape(name).len()] == '"',
    ensures
        parse_string(s, i) == Some((name, i + escape(name).len() + 1)),
    decreases name.len(),
{
    if name.len() == 0 {
        assert(escape(name).len() == 0);
        assert(s[i] == '"');
        assert(Seq::<char>::empty() =~= name);
    } else {
        let c = name[0];
        let rest = name.drop_first();
        assert(escape(name) == escape_char(c) + escape(rest));
        lemma_has_at_split(s, i, escape_char(c), escape(rest));
        if c == '"' || c == '\\' {
            assert(escape_char(c) == seq!['\\', c]);
            lemma_has_at_index(s, i, escape_char(c), 0);
            lemma_has_at_index(s, i, escape_char(c), 1);
            assert(s[i] == '\\');
            assert(s[i + 1] == c);
            lemma_parse_string_of_escape(s, i + 2, rest);
            assert(seq![s[i + 1]] + rest =~= name);
            assert(parse_string(s, i) == Some((name, i + escape(name).len() + 1)));
        } else {
            assert(escape_char(c) == seq![c]);
            lemma_has_at_index(s, i, escape_char(c), 0);
            assert(s[i] == c);
            lemma_parse_string_of_escape(s, i + 1, rest);
            assert(seq![s[i]] + rest =~= name);
            assert(parse_string(s, i) == Some((name, i + escape(name).len() + 1)));
        }
    }
}

/// The reader inverts the writer on one record.
proof fn lemma_parse_task_of_encode(s: Seq<char>, i: int, t: TaskView)
    requires
        has_at(s, i, encode_task(t)),
    ensures
        parse_task(s, i) == Some((t, i + encode_task(t).len())),
{
    let a = lit_name();
    let e = escape(t.name);
    let q = seq!['"'];
    let sp = lit_sep();
    let bl = encode_bool(t.closed);
    let rb = seq!['}'];
    assert(encode_task(t) == a + e + q + sp + bl + rb);
    lemma_has_at_split(s, i, a + e + q + sp + bl, rb);
    lemma_has_at_split(s, i, a + e + q + sp, bl);
    lemma_has_at_split(s, i, a + e + q, sp);
    lemma_has_at_split(s, i, a + e, q);
    lemma_has_at_split(s, i, a, e);
    let p2 = i + 9 + e.len();
    let p3 = p2 + 1;
    let p4 = p3 + 10;
    let p5 = p4 + bl.len();
    lemma_has_at_index(s, p2, q, 0);
    lemma_has_at_index(s, p5, rb, 0);
    assert(s[p2] == '"');
    assert(s[p5] == '}');
    lemma_parse_string_of_escape(s, i + 9, t.name);
    assert(parse_string(s, i + 9) == Some((t.name, p3)));
    if t.closed {
        lemma_has_at_index(s, p4, bl, 0);
        lemma_has_at_index(s, p4, bl, 1);
        lemma_has_at_index(s, p4, bl, 2);
        lemma_has_at_index(s, p4, bl, 3);
        assert(parse_bool(s, p4) == Some((true, p5)));
    } else {
        lemma_has_at_index(s, p4, bl, 0);
        lemma_has_at_index(s, p4, bl, 1);
        lemma_has_at_index(s, p4, bl, 2);
        lemma_has_at_index(s, p4, bl, 3);
        lemma_has_at_index(s, p4, bl, 4);
        assert(s[p4] == 'f');
        assert(parse_bool(s, p4) == Some((false, p5)));
    }
    assert(t == (TaskView { name: t.name, closed: t.closed }));
    assert(parse_task(s, i) == Some((t, i + encode_task(t).len())));
}

/// The reader inverts the writer on a non-empty run of records that
/// ends where the closing bracket stands.
proof fn lemma_parse_items_of_encode(s: Seq<char>, i: int, ts: Seq<TaskView>)
    requires
        ts.len() >= 1,
        has_at(s, i, encode_items(ts)),
        i + encode_items(ts).len() < s.len(),
        s[i + encode_items(ts).len()] == ']',
    ensures
        parse_items(s, i) == Some((ts, i + encode_items(ts).len())),
    decreases ts.len(),
{
    let t0 = ts[0];
    if ts.len() == 1 {
        assert(encode_items(ts) == encode_task(t0));
        lemma_parse_task_of_encode(s, i, t0);
        let j = i + encode_task(t0).len();
        assert(encode_task(t0).len() > 0);
        assert(s[j] == ']');
        assert(seq![t0] =~= ts);
        assert(parse_items(s, i) == Some((ts, j)));
    } else {
        assert(encode_items(ts) == encode_task(t0) + seq![','] + encode_items(ts.drop_first()));
        lemma_has_at_split(s, i, encode_task(t0) + seq![','], encode_items(ts.drop_first()));
        lemma_has_at_split(s, i, encode_task(t0), seq![',']);
        lemma_parse_task_of_encode(s, i, t0);
        let j = i + encode_task(t0).len();
        lemma_has_at_index(s, j, seq![','], 0);
        assert(s[j] == ',');
        assert(encode_task(t0).len() > 0);
        lemma_parse_items_of_encode(s, j + 1, ts.drop_first());
        assert(seq![t0] + ts.drop_first() =~= ts);
        assert(parse_items(s, i) == Some((ts, i + encode_items(ts).len())));
    }
}

/// Round trip: reading back what the writer produced yields exactly
/// the collection that was written — the same names, flags and order.
pub proof fn lemma_round_trip(ts: Seq<TaskView>)
    ensures
        parse_tasks(encode_spec(ts)) == Some(ts),
{
    let s = encode_spec(ts);
    let items = encode_items(ts);
    assert(s == seq!['['] + items + seq![']']);
    assert(s[0] == '[');
    assert(s.len() == items.len() + 2);
    assert(s[1 + items.len() as int] == ']');
    if ts.len() == 0 {
        assert(items.len() == 0);
        assert(s[1] == ']');
        assert(Seq::<TaskView>::empty() =~= ts);
    } else {
        assert(encode_task(ts[0]).len() > 0);
        assert(items.len() > 0);
        assert(has_at(s, 1, items)) by {
            assert forall|k: int| 0 <= k < items.len() implies s[1 + k] == #[trigger] items[k] by {
                assert(s[1 + k] == (seq!['['] + items)[1 + k]);
            }
        }
        lemma_parse_items_of_encode(s, 1, ts);
        assert(parse_tasks(s) == Some(ts));
    }
}

/// Whether `pat` occurs in `v` at position `i`, decided by walking it.
fn match_at(v: &Vec<char>, i: usize, pat: &Vec<char>) -> (b: bool)
    ensures
        b == has_at(v@, i as int, pat@),
{
    let vn = v.len();
    if i > vn || vn - i < pat.len() {
        return false;
    }
    let n = pat.len();
    let mut k: usize = 0;
    while k < n
        invariant
            n == pat@.len(),
            vn == v@.len(),
            i + n <= vn,
            k <= n,
            forall|m: int| 0 <= m < k ==> v@[i + m] == #[trigger] pat@[m],
        decreases n - k,
    {
        if v[i + k] != pat[k] {
            proof {
                assert(has_at(v@, i as int, pat@) ==> v@[i as int + k as int] == pat@[k as int]);
            }
            return false;
        }
        k = k + 1;
    }
    true
}

/// The opening literal of a record, as a vector to match against.
fn lit_name_vec() -> (v: Vec<char>)
    ensures
        v@ == lit_name(),
{
    let mut v: Vec<char> = Vec::new();
    v.push('{');
    v.push('"');
    v.push('n');
    v.push('a');
    v.push('m');
    v.push('e');
    v.push('"');
    v.push(':');
    v.push('"');
    proof {
        assert(v@ =~= lit_name());
    }
    v
}

/// The middle literal of a record, as a vector to match against.
fn lit_sep_vec() -> (v: Vec<char>)
    ensures
        v@ == lit_sep(),
{
    let mut v: Vec<char> = Vec::new();
    v.push(',');
    v.push('"');
    v.push('c');
    v.push('l');
    v.push('o');
    v.push('s');
    v.push('e');
    v.push('d');
    v.push('"');
    v.push(':');
    proof {
        assert(v@ =~= lit_sep());
    }
    v
}

/// Read a JSON string body, mirroring `parse_string`.
fn parse_string_exec(v: &Vec<char>, i: usize) -> (r: Option<(Vec<char>, usize)>)
    ensures
        match r {
            Some(p) => parse_string(v@, i as int) == Some((p.0@, p.1 as int)),
            None => parse_string(v@, i as int) is None,
        },
    decreases v@.len() - i,
{
    if i >= v.len() {
        return None;
    }
    let c = v[i];
    if c == '"' {
        Some((Vec::new(), i + 1))
    } else if c == '\\' {
        if v.len() - i >= 2 {
            let d = v[i + 1];
            if d == '"' || d == '\\' {
                match parse_string_exec(v, i + 2) {
                    Some((rest, j)) => {
                        let mut w: Vec<char> = Vec::new();
                        w.push(d);
                        let mut rest_moved = rest;
                        w.append(&mut rest_moved);
                        Some((w, j))
                    },
                    None => None,
                }
            } else {
                None
            }
        } else {
            None
        }
    } else {
        match parse_string_exec(v, i + 1) {
            Some((rest, j)) => {
                let mut w: Vec<char> = Vec::new();
                w.push(c);
                let mut rest_moved = rest;
                w.append(&mut rest_moved);
                Some((w, j))
            },
            None => None,
        }
    }
}

/// Read a closed flag, mirroring `parse_bool`.
fn parse_bool_exec(v: &Vec<char>, i: usize) -> (r: Option<(bool, usize)>)
    ensures
        match r {
            Some(p) => parse_bool(v@, i as int) == Some((p.0, p.1 as int)),
            None => parse_bool(v@, i as int) is None,
        },
{
    if i < v.len() && v.len() - i >= 4 && v[i] == 't' && v[i + 1] == 'r' && v[i + 2] == 'u' && v[i
        + 3] == 'e' {
        Some((true, i + 4))
    } else if i < v.len() && v.len() - i >= 5 && v[i] == 'f' && v[i + 1] == 'a' && v[i + 2] == 'l'
        && v[i + 3] == 's' && v[i + 4] == 'e' {
        Some((false, i + 5))
    } else {
        None
    }
}

/// Read one record, mirroring `parse_task`.
fn parse_task_exec(v: &Vec<char>, i: usize) -> (r: Option<(TaskItem, usize)>)
    ensures
        match r {
            Some(p) => parse_task(v@, i as int) == Some((p.0@, p.1 as int)),
            None => parse_task(v@, i as int) is None,
        },
{
    let vn = v.len();
    let ln = lit_name_vec();
    if !match_at(v, i, &ln) {
        return None;
    }
    proof {
        assert(i + 9 <= vn);
    }
    match parse_string_exec(v, i + 9) {
        None => None,
        Some((name_chars, j)) => {
            let ls = lit_sep_vec();
            if !match_at(v, j, &ls) {
                return None;
            }
            proof {
                assert(j + 10 <= vn);
            }
            match parse_bool_exec(v, j + 10) {
                None => None,
                Some((b, k)) => {
                    if k < v.len() {
                        let cc = v[k];
                        if cc == '}' {
                            let item = TaskItem { name: chars_to_string(&name_chars), closed: b };
                            Some((item, k + 1))
                        } else {
                            None
                        }
                    } else {
                        None
                    }
                },
            }
        },
    }
}

/// Read a run of records, mirroring `parse_items`.
fn parse_items_exec(v: &Vec<char>, i: usize) -> (r: Option<(Vec<TaskItem>, usize)>)
    ensures
        match r {
            Some(p) => parse_items(v@, i as int) == Some((p.0.deep_view(), p.1 as int)),
            None => parse_items(v@, i as int) is None,
        },
    decreases v@.len() - i,
{
    match parse_task_exec(v, i) {
        None => None,
        Some((item, j)) => {
            if i < j && j < v.len() {
                let c = v[j];
                if c == ',' {
                    match parse_items_exec(v, j + 1) {
                        None => None,
                        Some((rest, k)) => {
                            let ghost rest_deep = rest.deep_view();
                            let ghost rest_view = rest@;
                            let mut w: Vec<TaskItem> = Vec::new();
                            w.push(item);
                            let mut rest_moved = rest;
                            w.append(&mut rest_moved);
                            proof {
                                assert forall|m: int| 0 <= m < w@.len() implies w.deep_view()[m]
                                    == (seq![item@] + rest_deep)[m] by {
                                    if m > 0 {
                                        assert(w@[m] == rest_view[m - 1]);
                                        assert(rest_deep[m - 1] == rest_view[m - 1].deep_view());
                                    }
                                }
                                assert(w.deep_view() =~= seq![item@] + rest_deep);
                            }
                            Some((w, k))
                        },
                    }
                } else {
                    let mut w: Vec<TaskItem> = Vec::new();
                    w.push(item);
                    proof {
                        assert(w.deep_view() =~= seq![item@]);
                    }
                    Some((w, j))
                }
            } else if i < j {
                let mut w: Vec<TaskItem> = Vec::new();
                w.push(item);
                proof {
                    assert(w.deep_view() =~= seq![item@]);
                }
                Some((w, j))
            } else {
                None
            }
        },
    }
}

/// Decode the persistence file's text. `None` when the text is not
/// the canonical encoding this module writes.
pub fn decode_tasks(s: &str) -> (r: Option<Vec<TaskItem>>)
    ensures
        match r {
            Some(v) => parse_tasks(s@) == Some(v.deep_view()),
            None => parse_tasks(s@) is None,
        },
{
    let v = str_to_chars(s);
    if v.len() == 0 {
        return None;
    }
    let c0 = v[0];
    if c0 != '[' {
        return None;
    }
    let empty_array = if v.len() == 2 {
        let c1 = v[1];
        c1 == ']'
    } else {
        false
    };
    if empty_array {
        let w: Vec<TaskItem> = Vec::new();
        proof {
            assert(w.deep_view() =~= Seq::<TaskView>::empty());
        }
        return Some(w);
    }
    match parse_items_exec(&v, 1) {
        None => None,
        Some((items, j)) => {
            if j < v.len() && j + 1 == v.len() {
                let cj = v[j];
                if cj == ']' {
                    Some(items)
                } else {
                    None
                }
            } else {
                None
            }
        },
    }
}

/// The collection to start a session with, given what the
/// persistence file held: its decoded contents, or the empty
/// collection when the file was missing (`None`) or malformed.
pub fn load_tasks(contents: Option<&str>) -> (r: Vec<TaskItem>)
    ensures
        match contents {
            Some(s) => match parse_tasks(s@) {
                Some(ts) => r.deep_view() == ts,
                None => r.deep_view() == Seq::<TaskView>::empty(),
            },
            None => r.deep_view() == Seq::<TaskView>::empty(),
        },
{
    let empty_ok: Vec<TaskItem> = Vec::new();
    proof {
        assert(empty_ok.deep_view() =~= Seq::<TaskView>::empty());
    }
    match contents {
        Some(s) => match decode_tasks(s) {
            Some(v) => v,
            None => empty_ok,
        },
        None => empty_ok,
    }
}

} // verus!
