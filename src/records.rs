//! Splitting a frame into `key=value` records.
use crate::text::{chars_of, first_index, index_of, lemma_first_index_bounds};
use vstd::prelude::*;
use vstd::string::StrSliceExecFns;

verus! {

/// One variable assignment read from the shell's environment dump.
#[derive(Debug)]
pub struct EnvRecord {
    pub key: String,
    pub value: String,
}

impl View for EnvRecord {
    type V = (Seq<char>, Seq<char>);

    open spec fn view(&self) -> (Seq<char>, Seq<char>) {
        (self.key@, self.value@)
    }
}

/// The abstract value of a sequence of records.
pub open spec fn views(rs: Seq<EnvRecord>) -> Seq<(Seq<char>, Seq<char>)> {
    rs.map_values(|r: EnvRecord| r@)
}

/// A line split at its first `=` into key and value; a line without `=`
/// gives no record.
pub open spec fn record_of(line: Seq<char>) -> Option<(Seq<char>, Seq<char>)> {
    let p = first_index(line, '=', 0);
    if p < line.len() {
        Some((line.subrange(0, p), line.subrange(p + 1, line.len() as int)))
    } else {
        None
    }
}

/// The records of the lines of `text` that start at or after `start`, in order.
pub open spec fn records_from(text: Seq<char>, start: int) -> Seq<(Seq<char>, Seq<char>)>
    decreases text.len() + 1 - start,
    via records_from_decreases
{
    if start < 0 || start >= text.len() {
        Seq::empty()
    } else {
        let e = first_index(text, '\n', start);
        let rest = records_from(text, e + 1);
        match record_of(text.subrange(start, e)) {
            Some(r) => seq![r] + rest,
            None => rest,
        }
    }
}

#[via_fn]
proof fn records_from_decreases(text: Seq<char>, start: int) {
    if 0 <= start < text.len() {
        lemma_first_index_bounds(text, '\n', start);
    }
}

/// The records of all lines of `text`, in order, duplicates kept.
pub open spec fn records_of(text: Seq<char>) -> Seq<(Seq<char>, Seq<char>)> {
    records_from(text, 0)
}

proof fn lemma_first_index_skip(s: Seq<char>, c: char, from: int, to: int)
    requires
        0 <= from <= to <= s.len(),
        forall|k: int| from <= k < to ==> s[k] != c,
    ensures
        first_index(s, c, from) == first_index(s, c, to),
    decreases to - from,
{
    if from < to {
        lemma_first_index_skip(s, c, from + 1, to);
    }
}

proof fn lemma_first_index_shift(p: Seq<char>, s: Seq<char>, c: char, k: int)
    requires
        0 <= k,
    ensures
        first_index(p + s, c, p.len() + k) == p.len() + first_index(s, c, k),
    decreases s.len() - k,
{
    if k < s.len() {
        assert((p + s)[p.len() + k] == s[k]);
        lemma_first_index_shift(p, s, c, k + 1);
    }
}

proof fn lemma_first_index_prefix(a: Seq<char>, b: Seq<char>, c: char, from: int)
    requires
        0 <= from < a.len(),
        a.last() == c,
    ensures
        first_index(a + b, c, from) == first_index(a, c, from),
        first_index(a, c, from) < a.len(),
    decreases a.len() - from,
{
    assert((a + b)[from] == a[from]);
    if a[from] != c {
        lemma_first_index_prefix(a, b, c, from + 1);
    }
}

proof fn lemma_records_from_shift(p: Seq<char>, s: Seq<char>, k: int)
    requires
        0 <= k,
    ensures
        records_from(p + s, p.len() + k) == records_from(s, k),
    decreases s.len() + 1 - k,
{
    if k < s.len() {
        let t = p + s;
        lemma_first_index_shift(p, s, '\n', k);
        lemma_first_index_bounds(s, '\n', k);
        let e = first_index(s, '\n', k);
        assert(t.subrange(p.len() + k, p.len() + e) =~= s.subrange(k, e));
        lemma_records_from_shift(p, s, e + 1);
    }
}

proof fn lemma_records_from_concat(a: Seq<char>, b: Seq<char>, start: int)
    requires
        0 <= start <= a.len(),
        a.len() == 0 || a.last() == '\n',
    ensures
        records_from(a + b, start) == records_from(a, start) + records_from(b, 0),
    decreases a.len() - start,
{
    if start == a.len() {
        lemma_records_from_shift(a, b, 0);
        assert(records_from(a, start) + records_from(b, 0) =~= records_from(b, 0));
    } else {
        lemma_first_index_prefix(a, b, '\n', start);
        lemma_first_index_bounds(a, '\n', start);
        let e = first_index(a, '\n', start);
        assert((a + b).subrange(start, e) =~= a.subrange(start, e));
        lemma_records_from_concat(a, b, e + 1);
        let rest = records_from(a, e + 1);
        match record_of(a.subrange(start, e)) {
            Some(r) => {
                assert(seq![r] + rest + records_from(b, 0) =~= seq![r] + (rest + records_from(
                    b,
                    0,
                )));
            },
            None => {},
        }
    }
}

/// The records of text that ends a line, followed by more text, are the
/// records of each part in turn.
pub proof fn lemma_records_of_concat(a: Seq<char>, b: Seq<char>)
    requires
        a.len() == 0 || a.last() == '\n',
    ensures
        records_of(a + b) == records_of(a) + records_of(b),
{
    lemma_records_from_concat(a, b, 0);
}

/// A line without `=` gives no record and leaves the lines around it to
/// give theirs.
pub proof fn lemma_malformed_line_skipped(before: Seq<char>, line: Seq<char>, after: Seq<char>)
    requires
        before.len() == 0 || before.last() == '\n',
        forall|k: int| 0 <= k < line.len() ==> line[k] != '=' && line[k] != '\n',
    ensures
        records_of(before + (line.push('\n') + after)) == records_of(before) + records_of(after),
{
    let l = line.push('\n');
    lemma_records_of_concat(before, l + after);
    lemma_records_of_concat(l, after);
    lemma_first_index_skip(l, '\n', 0, line.len() as int);
    assert(l.subrange(0, line.len() as int) =~= line);
    lemma_first_index_skip(line, '=', 0, line.len() as int);
    assert(records_from(l, line.len() as int + 1) =~= Seq::empty());
    assert(records_of(l) =~= Seq::empty());
    assert(records_of(l) + records_of(after) =~= records_of(after));
}

/// Splits `text` into lines and each non-empty line at its first `=`;
/// lines without `=` are skipped.
pub fn parse_records(text: &str) -> (r: Vec<EnvRecord>)
    ensures
        views(r@) == records_of(text@),
{
    let cs = chars_of(text);
    let n: usize = cs.len();
    let mut out: Vec<EnvRecord> = Vec::new();
    let mut start: usize = 0;
    while start < n
        invariant
            n == cs@.len(),
            cs@ == text@,
            start <= n,
            records_of(cs@) == views(out@) + records_from(cs@, start as int),
        decreases n - start,
    {
        let e = index_of(&cs, '\n', start);
        proof {
            lemma_first_index_bounds(cs@, '\n', start as int);
        }
        let mut line: Vec<char> = Vec::new();
        let mut k: usize = start;
        while k < e
            invariant
                start <= k <= e <= n,
                n == cs@.len(),
                line@ == cs@.subrange(start as int, k as int),
            decreases e - k,
        {
            line.push(cs[k]);
            k = k + 1;
            assert(line@ =~= cs@.subrange(start as int, k as int));
        }
        let p = index_of(&line, '=', 0);
        proof {
            lemma_first_index_bounds(line@, '=', 0);
        }
        let ghost before = views(out@);
        if p < line.len() {
            let key = text.substring_char(start, start + p).to_owned();
            let value = text.substring_char(start + p + 1, e).to_owned();
            assert(key@ =~= line@.subrange(0, p as int));
            assert(value@ =~= line@.subrange(p + 1, line@.len() as int));
            out.push(EnvRecord { key, value });
            assert(views(out@) =~= before + seq![(key@, value@)]);
        }
        assert(records_of(cs@) =~= views(out@) + records_from(cs@, e + 1));
        if e < n {
            start = e + 1;
        } else {
            start = n;
        }
    }
    assert(views(out@) + records_from(cs@, start as int) =~= views(out@));
    out
}

} // verus!
