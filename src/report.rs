//! The status report: records sorted, filtered to those with messages (or
//! all of them), each row marked when its queue is a dead-letter target.

use vstd::prelude::*;
use crate::record::{QueueRecord, zero_text};
use crate::text::{
    last_segment,
    last_segment_of,
    lemma_text_lt_irreflexive,
    lemma_text_lt_total,
    lemma_text_lt_transitive,
    text_less,
    text_lt,
};

verus! {

/// Strict lexicographic order on records: identifier, then available,
/// delayed, not visible, and dead-letter short name.
pub open spec fn record_lt(a: QueueRecord, b: QueueRecord) -> bool {
    text_lt(a.identifier@, b.identifier@) || (a.identifier@ == b.identifier@ && (text_lt(
        a.available@,
        b.available@,
    ) || (a.available@ == b.available@ && (text_lt(a.delayed@, b.delayed@) || (a.delayed@
        == b.delayed@ && (text_lt(a.not_visible@, b.not_visible@) || (a.not_visible@
        == b.not_visible@ && text_lt(a.dead_letter_short_name@, b.dead_letter_short_name@))))))))
}

/// The two records agree on every field.
pub open spec fn same_fields(a: QueueRecord, b: QueueRecord) -> bool {
    &&& a.identifier@ == b.identifier@
    &&& a.available@ == b.available@
    &&& a.delayed@ == b.delayed@
    &&& a.not_visible@ == b.not_visible@
    &&& a.dead_letter_short_name@ == b.dead_letter_short_name@
}

/// `a` does not come after `b` in the record order.
pub open spec fn record_le(a: QueueRecord, b: QueueRecord) -> bool {
    !record_lt(b, a)
}

/// Ascending in the record order.
pub open spec fn is_sorted(s: Seq<QueueRecord>) -> bool {
    forall|i: int, j: int| 0 <= i < j < s.len() ==> record_le(#[trigger] s[i], #[trigger] s[j])
}

proof fn lemma_record_lt_irreflexive(a: QueueRecord)
    ensures
        !record_lt(a, a),
{
    lemma_text_lt_irreflexive(a.identifier@);
    lemma_text_lt_irreflexive(a.available@);
    lemma_text_lt_irreflexive(a.delayed@);
    lemma_text_lt_irreflexive(a.not_visible@);
    lemma_text_lt_irreflexive(a.dead_letter_short_name@);
}

proof fn lemma_record_lt_total(a: QueueRecord, b: QueueRecord)
    ensures
        record_lt(a, b) || same_fields(a, b) || record_lt(b, a),
{
    lemma_text_lt_total(a.identifier@, b.identifier@);
    lemma_text_lt_total(a.available@, b.available@);
    lemma_text_lt_total(a.delayed@, b.delayed@);
    lemma_text_lt_total(a.not_visible@, b.not_visible@);
    lemma_text_lt_total(a.dead_letter_short_name@, b.dead_letter_short_name@);
}

proof fn lemma_record_lt_transitive(a: QueueRecord, b: QueueRecord, c: QueueRecord)
    requires
        record_lt(a, b),
        record_lt(b, c),
    ensures
        record_lt(a, c),
{
    if text_lt(a.identifier@, b.identifier@) && text_lt(b.identifier@, c.identifier@) {
        lemma_text_lt_transitive(a.identifier@, b.identifier@, c.identifier@);
    }
    if text_lt(a.available@, b.available@) && text_lt(b.available@, c.available@) {
        lemma_text_lt_transitive(a.available@, b.available@, c.available@);
    }
    if text_lt(a.delayed@, b.delayed@) && text_lt(b.delayed@, c.delayed@) {
        lemma_text_lt_transitive(a.delayed@, b.delayed@, c.delayed@);
    }
    if text_lt(a.not_visible@, b.not_visible@) && text_lt(b.not_visible@, c.not_visible@) {
        lemma_text_lt_transitive(a.not_visible@, b.not_visible@, c.not_visible@);
    }
    if text_lt(a.dead_letter_short_name@, b.dead_letter_short_name@) && text_lt(
        b.dead_letter_short_name@,
        c.dead_letter_short_name@,
    ) {
        lemma_text_lt_transitive(a.dead_letter_short_name@, b.dead_letter_short_name@, c.dead_letter_short_name@);
    }
}

proof fn lemma_record_lt_le(a: QueueRecord, b: QueueRecord, c: QueueRecord)
    requires
        record_lt(a, b),
        record_le(b, c),
    ensures
        record_lt(a, c),
{
    lemma_record_lt_total(b, c);
    if record_lt(b, c) {
        lemma_record_lt_transitive(a, b, c);
    }
}

proof fn lemma_record_le_transitive(a: QueueRecord, b: QueueRecord, c: QueueRecord)
    requires
        record_le(a, b),
        record_le(b, c),
    ensures
        record_le(a, c),
{
    if record_lt(c, a) {
        lemma_record_lt_le(c, a, b);
        lemma_record_lt_irreflexive(b);
        lemma_record_lt_transitive(c, b, c);
        lemma_record_lt_irreflexive(c);
    }
}

proof fn lemma_record_lt_weaken(a: QueueRecord, b: QueueRecord)
    requires
        record_lt(a, b),
    ensures
        record_le(a, b),
{
    if record_lt(b, a) {
        lemma_record_lt_transitive(a, b, a);
        lemma_record_lt_irreflexive(a);
    }
}

/// Records sorted by the record order come in ascending order of identifier.
pub proof fn lemma_sorted_identifiers_ascending(s: Seq<QueueRecord>)
    requires
        is_sorted(s),
    ensures
        forall|i: int, j: int| 0 <= i < j < s.len() ==> !text_lt(#[trigger] s[j].identifier@, #[trigger] s[i].identifier@),
{
}

/// `record_lt` computed.
pub fn record_less(a: &QueueRecord, b: &QueueRecord) -> (r: bool)
    ensures
        r == record_lt(*a, *b),
{
    if text_less(a.identifier.as_str(), b.identifier.as_str()) {
        return true;
    }
    if a.identifier != b.identifier {
        return false;
    }
    if text_less(a.available.as_str(), b.available.as_str()) {
        return true;
    }
    if a.available != b.available {
        return false;
    }
    if text_less(a.delayed.as_str(), b.delayed.as_str()) {
        return true;
    }
    if a.delayed != b.delayed {
        return false;
    }
    if text_less(a.not_visible.as_str(), b.not_visible.as_str()) {
        return true;
    }
    if a.not_visible != b.not_visible {
        return false;
    }
    text_less(a.dead_letter_short_name.as_str(), b.dead_letter_short_name.as_str())
}

/// Sorts records into ascending record order; the result holds the same
/// records.
pub fn sort_records(records: Vec<QueueRecord>) -> (r: Vec<QueueRecord>)
    ensures
        is_sorted(r@),
        r@.to_multiset() == records@.to_multiset(),
{
    broadcast use vstd::seq_lib::group_to_multiset_ensures, vstd::multiset::group_multiset_axioms;
    let ghost all = records@;
    let mut rest = records;
    let mut out: Vec<QueueRecord> = Vec::new();
    while rest.len() > 0
        invariant
            is_sorted(out@),
            out@.to_multiset().add(rest@.to_multiset()) == all.to_multiset(),
        decreases rest@.len(),
    {
        let ghost rest_before = rest@;
        let x = match rest.pop() {
            Some(x) => x,
            None => {
                return out;
            },
        };
        assert(rest_before =~= rest@.push(x));
        let mut pos: usize = 0;
        while pos < out.len() && !record_less(&x, &out[pos])
            invariant
                pos <= out@.len(),
                forall|k: int| 0 <= k < pos ==> record_le(#[trigger] out@[k], x),
            decreases out@.len() - pos,
        {
            pos = pos + 1;
        }
        let ghost before = out@;
        proof {
            assert forall|k: int| pos <= k < before.len() implies record_lt(x, #[trigger] before[k]) by {
                if k > pos {
                    lemma_record_lt_le(x, before[pos as int], before[k]);
                }
            }
        }
        out.insert(pos, x);
        proof {
            let n = out@;
            assert(n =~= before.insert(pos as int, x));
            assert forall|i: int, j: int| 0 <= i < j < n.len() implies record_le(#[trigger] n[i], #[trigger] n[j]) by {
                if j < pos {
                } else if i < pos && j == pos {
                } else if i < pos {
                    assert(n[j] == before[j - 1]);
                    assert(record_lt(x, before[j - 1]));
                    lemma_record_lt_weaken(x, n[j]);
                    lemma_record_le_transitive(n[i], x, n[j]);
                } else if i == pos {
                    assert(record_lt(x, before[j - 1]));
                    lemma_record_lt_total(x, before[j - 1]);
                    if record_lt(before[j - 1], x) {
                        lemma_record_lt_transitive(x, before[j - 1], x);
                        lemma_record_lt_irreflexive(x);
                    }
                } else {
                    assert(n[i] == before[i - 1] && n[j] == before[j - 1]);
                }
            }
            vstd::seq_lib::to_multiset_insert(before, pos as int, x);
            rest@.to_multiset_ensures();
            assert(rest_before.to_multiset() == rest@.to_multiset().insert(x));
            assert(n.to_multiset() == before.to_multiset().insert(x));
            assert(n.to_multiset().add(rest@.to_multiset()) =~= before.to_multiset().add(rest_before.to_multiset()));
        }
    }
    assert(rest@ =~= Seq::<QueueRecord>::empty());
    out
}

/// One row of the report.
#[derive(Clone, Debug, PartialEq, Eq)]
pub struct ReportRow {
    pub available: String,
    pub delayed: String,
    pub not_visible: String,
    /// The last `/`-separated segment of the queue's identifier.
    pub name: String,
    /// The queue is the dead-letter target of some gathered queue.
    pub emphasized: bool,
}

impl View for ReportRow {
    type V = (Seq<char>, Seq<char>, Seq<char>, Seq<char>, bool);

    open spec fn view(&self) -> Self::V {
        (self.available@, self.delayed@, self.not_visible@, self.name@, self.emphasized)
    }
}

/// The name a queue is shown under: the last segment of its identifier.
pub open spec fn display_name(r: QueueRecord) -> Seq<char> {
    last_segment(r.identifier@, '/')
}

/// Some record of `all` names `name` as its dead-letter target.
pub open spec fn is_dead_letter_target(all: Seq<QueueRecord>, name: Seq<char>) -> bool {
    exists|j: int| 0 <= j < all.len() && (#[trigger] all[j]).dead_letter_short_name@ == name
}

/// A record is shown when all are asked for, or when a counter is not "0".
pub open spec fn is_shown(r: QueueRecord, show_all: bool) -> bool {
    show_all || r.available@ != zero_text() || r.delayed@ != zero_text() || r.not_visible@ != zero_text()
}

/// The row of record `r`, among the records `all`.
pub open spec fn row_of(r: QueueRecord, all: Seq<QueueRecord>) -> (Seq<char>, Seq<char>, Seq<char>, Seq<char>, bool) {
    (r.available@, r.delayed@, r.not_visible@, display_name(r), is_dead_letter_target(all, display_name(r)))
}

/// The rows of the shown records of `s`, in the order of `s`, emphasis
/// judged against `all`.
pub open spec fn rows_of(s: Seq<QueueRecord>, all: Seq<QueueRecord>, show_all: bool) -> Seq<(Seq<char>, Seq<char>, Seq<char>, Seq<char>, bool)>
    decreases s.len(),
{
    if s.len() == 0 {
        Seq::empty()
    } else if is_shown(s.last(), show_all) {
        rows_of(s.drop_last(), all, show_all).push(row_of(s.last(), all))
    } else {
        rows_of(s.drop_last(), all, show_all)
    }
}

fn is_zero(c: &String) -> (r: bool)
    ensures
        r == (c@ == zero_text()),
{
    let s = c.as_str();
    if s.unicode_len() != 1 {
        return false;
    }
    assert(s@.len() == 1 ==> (s@ == zero_text() <==> s@[0] == '0')) by {
        if s@.len() == 1 && s@[0] == '0' {
            assert(s@ =~= zero_text());
        }
    }
    s.get_char(0) == '0'
}

/// Whether some record of `all` names `name` as its dead-letter target.
pub fn names_dead_letter_target(all: &Vec<QueueRecord>, name: &String) -> (r: bool)
    ensures
        r == is_dead_letter_target(all@, name@),
{
    let mut j: usize = 0;
    while j < all.len()
        invariant
            j <= all@.len(),
            forall|k: int| 0 <= k < j ==> (#[trigger] all@[k]).dead_letter_short_name@ != name@,
        decreases all@.len() - j,
    {
        if all[j].dead_letter_short_name == *name {
            return true;
        }
        j = j + 1;
    }
    false
}

/// The rows for `records`, taken in the given order: those shown (all of
/// them when `show_all`, else those with a counter other than "0"), each
/// emphasized when its name is the dead-letter target of one of `records`.
pub fn report_rows(records: &Vec<QueueRecord>, show_all: bool) -> (r: Vec<ReportRow>)
    ensures
        r@.map_values(|x: ReportRow| x@) == rows_of(records@, records@, show_all),
{
    let mut rows: Vec<ReportRow> = Vec::new();
    let mut i: usize = 0;
    while i < records.len()
        invariant
            i <= records@.len(),
            rows@.map_values(|x: ReportRow| x@) == rows_of(records@.subrange(0, i as int), records@, show_all),
        decreases records@.len() - i,
    {
        let rec = &records[i];
        let ghost pre = records@.subrange(0, i + 1);
        assert(pre.drop_last() =~= records@.subrange(0, i as int));
        assert(pre.last() == *rec);
        let shown = show_all || !is_zero(&rec.available) || !is_zero(&rec.delayed) || !is_zero(&rec.not_visible);
        if shown {
            let name = last_segment_of(rec.identifier.as_str(), '/');
            let emphasized = names_dead_letter_target(records, &name);
            let row = ReportRow {
                available: rec.available.clone(),
                delayed: rec.delayed.clone(),
                not_visible: rec.not_visible.clone(),
                name,
                emphasized,
            };
            let ghost before = rows@;
            rows.push(row);
            assert(rows@.map_values(|x: ReportRow| x@) =~= before.map_values(|x: ReportRow| x@).push(row@));
        }
        i = i + 1;
    }
    assert(records@.subrange(0, records@.len() as int) =~= records@);
    rows
}

/// The report over `records`: they are sorted into record order, and the
/// rows of the shown ones are returned in that order. An empty result means
/// that nothing is to be reported.
pub fn report(records: Vec<QueueRecord>, show_all: bool) -> (r: Vec<ReportRow>)
    ensures
        exists|s: Seq<QueueRecord>|
            is_sorted(s) && s.to_multiset() == records@.to_multiset() && r@.map_values(|x: ReportRow| x@)
                == rows_of(s, s, show_all),
{
    let sorted = sort_records(records);
    let rows = report_rows(&sorted, show_all);
    assert(is_sorted(sorted@) && sorted@.to_multiset() == records@.to_multiset() && rows@.map_values(|x: ReportRow| x@)
                == rows_of(sorted@, sorted@, show_all));
    rows
}

} // verus!
