//! The session lister's core: reading the multiplexer's listing lines into
//! records and ranking them.
//!
//! A listing line carries three whitespace-separated fields: an
//! attached flag (`0` when the session is attached, `1` when not), the
//! last-attached timestamp (`0` when never attached), and the session name.
//! Malformed fields degrade: an unreadable flag counts as attached, an
//! unreadable timestamp as `0`. Records with an empty name, and the record
//! of the current session itself, are dropped.
//!
//! The ranking is a total preorder: sessions not attached anywhere come
//! first, attached ones last; within a class, the more recently attached
//! session comes first. Ties keep their listing order.

use vstd::prelude::*;
use crate::bytes::{is_ws, seq_views, copy_range, ws_byte};
use crate::digits::{parse_u64_spec, parse_u64};
use crate::lines::{lines_spec, split_lines};

verus! {

/// The first position at or after `i` holding something other than
/// whitespace, or the length.
pub open spec fn skip_ws(s: Seq<u8>, i: int) -> int
    decreases s.len() - i when 0 <= i <= s.len()
{
    if i >= s.len() {
        s.len() as int
    } else if is_ws(s[i]) {
        skip_ws(s, i + 1)
    } else {
        i
    }
}

/// The first position at or after `i` holding whitespace, or the length.
pub open spec fn scan_token(s: Seq<u8>, i: int) -> int
    decreases s.len() - i when 0 <= i <= s.len()
{
    if i >= s.len() {
        s.len() as int
    } else if is_ws(s[i]) {
        i
    } else {
        scan_token(s, i + 1)
    }
}

pub proof fn lemma_skip_ws(s: Seq<u8>, i: int)
    requires
        0 <= i <= s.len(),
    ensures
        i <= skip_ws(s, i) <= s.len(),
        skip_ws(s, i) < s.len() ==> !is_ws(s[skip_ws(s, i)]),
    decreases s.len() - i,
{
    if i < s.len() && is_ws(s[i]) {
        lemma_skip_ws(s, i + 1);
    }
}

pub proof fn lemma_scan_token(s: Seq<u8>, i: int)
    requires
        0 <= i <= s.len(),
    ensures
        i <= scan_token(s, i) <= s.len(),
        forall|k: int| i <= k < scan_token(s, i) ==> !is_ws(s[k]),
    decreases s.len() - i,
{
    if i < s.len() && !is_ws(s[i]) {
        lemma_scan_token(s, i + 1);
    }
}

/// Bounds of the attached-flag field.
pub open spec fn field0_start(line: Seq<u8>) -> int {
    skip_ws(line, 0)
}

pub open spec fn field0_end(line: Seq<u8>) -> int {
    scan_token(line, field0_start(line))
}

/// Bounds of the timestamp field.
pub open spec fn field1_start(line: Seq<u8>) -> int {
    skip_ws(line, field0_end(line))
}

pub open spec fn field1_end(line: Seq<u8>) -> int {
    scan_token(line, field1_start(line))
}

/// Bounds of the name field.
pub open spec fn field2_start(line: Seq<u8>) -> int {
    skip_ws(line, field1_end(line))
}

pub open spec fn field2_end(line: Seq<u8>) -> int {
    scan_token(line, field2_start(line))
}

/// The attached-flag field; empty where the line runs out first.
pub open spec fn field0(line: Seq<u8>) -> Seq<u8> {
    line.subrange(field0_start(line), field0_end(line))
}

/// The timestamp field; empty where the line runs out first.
pub open spec fn field1(line: Seq<u8>) -> Seq<u8> {
    line.subrange(field1_start(line), field1_end(line))
}

/// The name field; empty where the line runs out first.
pub open spec fn field2(line: Seq<u8>) -> Seq<u8> {
    line.subrange(field2_start(line), field2_end(line))
}

/// The mathematical shape of one session record.
pub struct RecordModel {
    pub attached: bool,
    pub last_attached: u64,
    pub name: Seq<u8>,
}

/// One session as the listing reports it.
pub struct SessionRecord {
    /// Whether some client is attached to the session. On the wire `0`
    /// means attached and `1` means not; any unreadable flag counts as
    /// attached, which ranks the session last.
    pub attached: bool,
    /// When the session was last attached; `0` where it never was or the
    /// field is unreadable.
    pub last_attached: u64,
    /// The session's name: the line's third field.
    pub name: Vec<u8>,
}

impl View for SessionRecord {
    type V = RecordModel;

    open spec fn view(&self) -> RecordModel {
        RecordModel { attached: self.attached, last_attached: self.last_attached, name: self.name@ }
    }
}

/// What reading one listing line yields: the flag field must read exactly
/// as the not-attached marker `1` for the session to count as unattached;
/// a timestamp that does not read as a number counts as `0`; the name is
/// the third field as it stands.
pub open spec fn parse_line_spec(line: Seq<u8>) -> RecordModel {
    RecordModel {
        attached: parse_u64_spec(field0(line)) != Some(1u64),
        last_attached: match parse_u64_spec(field1(line)) {
            Some(v) => v,
            None => 0,
        },
        name: field2(line),
    }
}

/// Finds the next field: skips whitespace from `from`, then runs to the
/// field's end.
fn next_field(line: &Vec<u8>, from: usize) -> (r: (usize, usize))
    requires
        from <= line.len(),
    ensures
        r.0 == skip_ws(line@, from as int),
        r.1 == scan_token(line@, r.0 as int),
        from <= r.0 <= r.1 <= line.len(),
{
    let mut a = from;
    while a < line.len() && ws_byte(line[a])
        invariant
            from <= a <= line.len(),
            skip_ws(line@, from as int) == skip_ws(line@, a as int),
        decreases line.len() - a,
    {
        a = a + 1;
    }
    let mut b = a;
    while b < line.len() && !ws_byte(line[b])
        invariant
            a <= b <= line.len(),
            scan_token(line@, a as int) == scan_token(line@, b as int),
        decreases line.len() - b,
    {
        b = b + 1;
    }
    (a, b)
}

/// Reads one listing line into a record, fields defaulting as
/// `parse_line_spec` says.
pub fn parse_session_line(line: &Vec<u8>) -> (r: SessionRecord)
    ensures
        r@ == parse_line_spec(line@),
{
    let (a0, b0) = next_field(line, 0);
    let (a1, b1) = next_field(line, b0);
    let (a2, b2) = next_field(line, b1);
    let t0 = copy_range(line, a0, b0);
    let t1 = copy_range(line, a1, b1);
    let name = copy_range(line, a2, b2);
    let attached = match parse_u64(&t0) {
        Some(v) => v != 1,
        None => true,
    };
    let last_attached = match parse_u64(&t1) {
        Some(v) => v,
        None => 0,
    };
    SessionRecord { attached, last_attached, name }
}

/// The attachment class a record ranks in: unattached sessions form the
/// front class, attached ones the back class.
pub open spec fn rank_class(r: RecordModel) -> int {
    if r.attached {
        1
    } else {
        0
    }
}

/// The ranking's total preorder: `a` may stand at or before `b`.
/// Unattached precedes attached; within a class, the higher last-attached
/// timestamp precedes the lower.
pub open spec fn precedes_eq(a: RecordModel, b: RecordModel) -> bool {
    ||| rank_class(a) < rank_class(b)
    ||| (rank_class(a) == rank_class(b) && a.last_attached >= b.last_attached)
}

/// A sequence ordered by the ranking.
pub open spec fn is_ranked(s: Seq<RecordModel>) -> bool {
    forall|i: int, j: int| 0 <= i < j < s.len() ==> precedes_eq(#[trigger] s[i], #[trigger] s[j])
}

/// Where an insertion places a record: after every already-placed record
/// that may stand at or before it, so records the order cannot part keep
/// their listing order.
pub open spec fn insert_ranked(r: RecordModel, s: Seq<RecordModel>) -> Seq<RecordModel>
    decreases s.len(),
{
    if s.len() > 0 && precedes_eq(s[0], r) {
        seq![s[0]] + insert_ranked(r, s.drop_first())
    } else {
        seq![r] + s
    }
}

/// The ranked order of a record sequence: each record inserted in turn.
pub open spec fn sort_spec(s: Seq<RecordModel>) -> Seq<RecordModel>
    decreases s.len(),
{
    if s.len() == 0 {
        Seq::empty()
    } else {
        insert_ranked(s.last(), sort_spec(s.drop_last()))
    }
}

/// The preorder is total: two records always compare one way or the other.
pub proof fn lemma_precedes_total(a: RecordModel, b: RecordModel)
    ensures
        precedes_eq(a, b) || precedes_eq(b, a),
{
}

/// Every record of an insertion's result satisfies what the inserted
/// record and every prior record satisfy.
proof fn lemma_insert_ranked_all(r: RecordModel, s: Seq<RecordModel>, p: spec_fn(RecordModel) -> bool)
    requires
        p(r),
        forall|k: int| 0 <= k < s.len() ==> p(#[trigger] s[k]),
    ensures
        insert_ranked(r, s).len() == s.len() + 1,
        forall|k: int| 0 <= k < s.len() + 1 ==> p(#[trigger] insert_ranked(r, s)[k]),
    decreases s.len(),
{
    if s.len() > 0 && precedes_eq(s[0], r) {
        assert(forall|k: int| 0 <= k < s.drop_first().len() ==> p(#[trigger] s.drop_first()[k]));
        lemma_insert_ranked_all(r, s.drop_first(), p);
        let t = insert_ranked(r, s);
        assert(forall|k: int| 1 <= k < t.len() ==> t[k] == insert_ranked(r, s.drop_first())[k - 1]);
    }
}

/// Inserting into a ranked sequence keeps it ranked.
proof fn lemma_insert_ranked_sorted(r: RecordModel, s: Seq<RecordModel>)
    requires
        is_ranked(s),
    ensures
        is_ranked(insert_ranked(r, s)),
    decreases s.len(),
{
    let t = insert_ranked(r, s);
    if s.len() > 0 && precedes_eq(s[0], r) {
        let rest = s.drop_first();
        assert(forall|i: int, j: int|
            0 <= i < j < rest.len() ==> precedes_eq(#[trigger] rest[i], #[trigger] rest[j]));
        lemma_insert_ranked_sorted(r, rest);
        let inner = insert_ranked(r, rest);
        lemma_insert_ranked_all(r, rest, |x: RecordModel| precedes_eq(s[0], x));
        assert(forall|k: int| 1 <= k < t.len() ==> t[k] == inner[k - 1]);
        assert(t[0] == s[0]);
    } else {
        assert(t == seq![r] + s);
        assert(forall|k: int| 0 <= k < s.len() ==> precedes_eq(r, #[trigger] s[k])) by {
            if s.len() > 0 {
                assert(precedes_eq(r, s[0]));
                assert(forall|k: int| 1 <= k < s.len() ==> precedes_eq(s[0], #[trigger] s[k]));
            }
        }
        assert(forall|k: int| 1 <= k < t.len() ==> t[k] == s[k - 1]);
    }
}

/// An insertion adds exactly the inserted record.
proof fn lemma_insert_ranked_multiset(r: RecordModel, s: Seq<RecordModel>)
    ensures
        insert_ranked(r, s).to_multiset() == s.to_multiset().insert(r),
    decreases s.len(),
{
    broadcast use vstd::seq_lib::group_to_multiset_ensures;

    let t = insert_ranked(r, s);
    if s.len() > 0 && precedes_eq(s[0], r) {
        lemma_insert_ranked_multiset(r, s.drop_first());
        let inner = insert_ranked(r, s.drop_first());
        assert(t =~= seq![s[0]] + inner);
        lemma_cons_to_multiset(s[0], inner);
        lemma_cons_to_multiset(s[0], s.drop_first());
        assert(s =~= seq![s[0]] + s.drop_first());
        assert(t.to_multiset() =~= s.to_multiset().insert(r));
    } else {
        assert(t == seq![r] + s);
        lemma_cons_to_multiset(r, s);
    }
}

/// Prepending one record inserts it into the sequence's multiset.
proof fn lemma_cons_to_multiset(a: RecordModel, t: Seq<RecordModel>)
    ensures
        (seq![a] + t).to_multiset() == t.to_multiset().insert(a),
{
    broadcast use vstd::seq_lib::group_to_multiset_ensures;

    let u = seq![a] + t;
    assert(u.remove(0) =~= t);
    assert(u.to_multiset().remove(a) =~= t.to_multiset());
    assert(u.contains(a)) by {
        assert(u[0] == a);
    }
    assert(u.to_multiset().count(a) > 0);
    assert(u.to_multiset() =~= t.to_multiset().insert(a)) by {
        assert(forall|x: RecordModel|
            u.to_multiset().count(x) == #[trigger] t.to_multiset().insert(a).count(x)) by {
            assert(forall|x: RecordModel| #[trigger] u.to_multiset().remove(a).count(x) == if x == a {
                u.to_multiset().count(a) - 1
            } else {
                u.to_multiset().count(x) as int
            });
        }
    }
}

/// The ranked order is ranked, and holds exactly the records it was given.
pub proof fn lemma_sort_spec_ranked(s: Seq<RecordModel>)
    ensures
        is_ranked(sort_spec(s)),
        sort_spec(s).to_multiset() == s.to_multiset(),
        sort_spec(s).len() == s.len(),
    decreases s.len(),
{
    broadcast use vstd::seq_lib::group_to_multiset_ensures;

    if s.len() > 0 {
        lemma_sort_spec_ranked(s.drop_last());
        lemma_insert_ranked_sorted(s.last(), sort_spec(s.drop_last()));
        lemma_insert_ranked_multiset(s.last(), sort_spec(s.drop_last()));
        assert(s =~= s.drop_last().push(s.last()));
        assert(s.drop_last().push(s.last()).to_multiset() == s.drop_last().to_multiset().insert(
            s.last(),
        ));
        lemma_insert_ranked_all(s.last(), sort_spec(s.drop_last()), |x: RecordModel| true);
    }
}

/// Every record of the ranked order satisfies what every given record
/// satisfies.
pub proof fn lemma_sort_spec_all(s: Seq<RecordModel>, p: spec_fn(RecordModel) -> bool)
    requires
        forall|k: int| 0 <= k < s.len() ==> p(#[trigger] s[k]),
    ensures
        sort_spec(s).len() == s.len(),
        forall|k: int| 0 <= k < s.len() ==> p(#[trigger] sort_spec(s)[k]),
    decreases s.len(),
{
    if s.len() > 0 {
        assert(forall|k: int| 0 <= k < s.drop_last().len() ==> p(#[trigger] s.drop_last()[k]));
        lemma_sort_spec_all(s.drop_last(), p);
        lemma_insert_ranked_all(s.last(), sort_spec(s.drop_last()), p);
    }
}

/// Whether a record stays in the list ranked for `current`: its name is
/// neither empty nor the current session's own.
pub open spec fn keep_record(r: RecordModel, current: Seq<u8>) -> bool {
    r.name.len() > 0 && r.name != current
}

/// The records the listing lines yield, in listing order, the dropped
/// ones left out.
pub open spec fn records_of(ls: Seq<Seq<u8>>, current: Seq<u8>) -> Seq<RecordModel>
    decreases ls.len(),
{
    if ls.len() == 0 {
        Seq::empty()
    } else {
        let front = records_of(ls.drop_last(), current);
        let r = parse_line_spec(ls.last());
        if keep_record(r, current) {
            front.push(r)
        } else {
            front
        }
    }
}

/// The ranked records of a raw listing.
pub open spec fn ranked_records(listing: Seq<u8>, current: Seq<u8>) -> Seq<RecordModel> {
    sort_spec(records_of(lines_spec(listing), current))
}

/// The names of a record sequence, in its order.
pub open spec fn names_of(rs: Seq<RecordModel>) -> Seq<Seq<u8>> {
    rs.map_values(|r: RecordModel| r.name)
}

/// What the session lister returns for a raw listing: the ranked names.
pub open spec fn ranked_names(listing: Seq<u8>, current: Seq<u8>) -> Seq<Seq<u8>> {
    names_of(ranked_records(listing, current))
}

/// The views of a vector of records.
pub open spec fn record_views(v: Seq<SessionRecord>) -> Seq<RecordModel> {
    v.map_values(|r: SessionRecord| r@)
}

/// Whether `a` may stand at or before `b` in the ranked list.
pub fn record_precedes_eq(a: &SessionRecord, b: &SessionRecord) -> (r: bool)
    ensures
        r == precedes_eq(a@, b@),
{
    if !a.attached && b.attached {
        true
    } else if a.attached == b.attached {
        a.last_attached >= b.last_attached
    } else {
        false
    }
}

/// An insertion at the scanned position is the specified insertion.
proof fn lemma_insert_ranked_at(r: RecordModel, s: Seq<RecordModel>, i: int)
    requires
        0 <= i <= s.len(),
        forall|k: int| 0 <= k < i ==> precedes_eq(#[trigger] s[k], r),
        i < s.len() ==> !precedes_eq(s[i], r),
    ensures
        insert_ranked(r, s) == s.insert(i, r),
    decreases i,
{
    if i == 0 {
        if s.len() > 0 {
            assert(!precedes_eq(s[0], r));
        }
        assert(insert_ranked(r, s) == seq![r] + s);
        assert(seq![r] + s =~= s.insert(0, r));
    } else {
        let rest = s.drop_first();
        assert(forall|k: int| 0 <= k < i - 1 ==> precedes_eq(#[trigger] rest[k], r));
        assert(i - 1 < rest.len() ==> !precedes_eq(rest[i - 1], r));
        lemma_insert_ranked_at(r, rest, i - 1);
        assert(insert_ranked(r, s) == seq![s[0]] + rest.insert(i - 1, r));
        assert(seq![s[0]] + rest.insert(i - 1, r) =~= s.insert(i, r));
    }
}

/// Inserts a record into an already ranked vector, at the place the
/// ranking gives it.
fn insert_record(v: &mut Vec<SessionRecord>, r: SessionRecord)
    ensures
        record_views(final(v)@) == insert_ranked(r@, record_views(old(v)@)),
{
    let ghost s = record_views(v@);
    let mut i: usize = 0;
    while i < v.len() && record_precedes_eq(&v[i], &r)
        invariant
            i <= v.len(),
            s == record_views(v@),
            forall|k: int| 0 <= k < i ==> precedes_eq(#[trigger] s[k], r@),
        decreases v.len() - i,
    {
        i = i + 1;
    }
    proof {
        lemma_insert_ranked_at(r@, s, i as int);
    }
    v.insert(i, r);
    assert(record_views(v@) =~= s.insert(i as int, r@));
}

/// The ranked names of every other session, given the raw listing and the
/// current session's name: parses each line, drops empty names and the
/// current session, and orders the rest by the ranking.
pub fn ranked_session_list(listing: &Vec<u8>, current: &Vec<u8>) -> (names: Vec<Vec<u8>>)
    ensures
        seq_views(names@) == ranked_names(listing@, current@),
{
    let ls = split_lines(listing);
    let mut recs: Vec<SessionRecord> = Vec::new();
    let mut i: usize = 0;
    while i < ls.len()
        invariant
            i <= ls.len(),
            seq_views(ls@) == lines_spec(listing@),
            record_views(recs@) == records_of(seq_views(ls@).take(i as int), current@),
        decreases ls.len() - i,
    {
        let r = parse_session_line(&ls[i]);
        let ghost before = record_views(recs@);
        if r.name.len() > 0 && !crate::bytes::eq_bytes(&r.name, current) {
            recs.push(r);
            assert(record_views(recs@) =~= before.push(r@));
        }
        i = i + 1;
        proof {
            let lv = seq_views(ls@);
            assert(lv.take(i as int).drop_last() =~= lv.take(i as int - 1));
            assert(lv.take(i as int).last() == lv[i as int - 1]);
        }
    }
    assert(seq_views(ls@).take(ls@.len() as int) =~= seq_views(ls@));
    let ghost all = record_views(recs@);
    let mut sorted: Vec<SessionRecord> = Vec::new();
    let ghost mut taken: int = 0;
    let mut rest = recs;
    while rest.len() > 0
        invariant
            0 <= taken <= all.len(),
            record_views(rest@) == all.skip(taken),
            record_views(sorted@) == sort_spec(all.take(taken)),
        decreases rest.len(),
    {
        proof {
            assert(record_views(rest@).len() == rest@.len());
            assert(all.skip(taken).len() == all.len() - taken);
            assert(taken < all.len());
        }
        let ghost prior = rest@;
        let r = rest.remove(0);
        proof {
            assert(rest@ == prior.remove(0));
            assert(r == prior[0]);
            assert(record_views(prior)[0] == prior[0]@);
            assert(all.skip(taken)[0] == all[taken]);
            assert(r@ == all[taken]);
            assert forall|k: int| 0 <= k < rest@.len() implies record_views(rest@)[k] == all.skip(
                taken + 1,
            )[k] by {
                assert(rest@[k] == prior[k + 1]);
                assert(record_views(prior)[k + 1] == prior[k + 1]@);
                assert(all.skip(taken)[k + 1] == all[taken + 1 + k]);
            }
            assert(record_views(rest@) =~= all.skip(taken + 1));
            assert(all.take(taken + 1).drop_last() =~= all.take(taken));
            assert(all.take(taken + 1).last() == all[taken]);
        }
        insert_record(&mut sorted, r);
        proof {
            assert(record_views(sorted@) == insert_ranked(all[taken], sort_spec(all.take(taken))));
            assert(record_views(sorted@) == sort_spec(all.take(taken + 1)));
            taken = taken + 1;
        }
    }
    assert(all.take(all.len() as int) =~= all);
    let mut names: Vec<Vec<u8>> = Vec::new();
    let ghost ranked = record_views(sorted@);
    let ghost mut named: int = 0;
    let mut rest2 = sorted;
    while rest2.len() > 0
        invariant
            0 <= named <= ranked.len(),
            record_views(rest2@) == ranked.skip(named),
            seq_views(names@) == names_of(ranked.take(named)),
        decreases rest2.len(),
    {
        proof {
            assert(record_views(rest2@).len() == rest2@.len());
            assert(ranked.skip(named).len() == ranked.len() - named);
            assert(named < ranked.len());
        }
        let ghost prior = rest2@;
        let r = rest2.remove(0);
        proof {
            assert(record_views(prior)[0] == prior[0]@);
            assert(ranked.skip(named)[0] == ranked[named]);
            assert(r@ == ranked[named]);
            assert forall|k: int| 0 <= k < rest2@.len() implies record_views(rest2@)[k]
                == ranked.skip(named + 1)[k] by {
                assert(rest2@[k] == prior[k + 1]);
                assert(record_views(prior)[k + 1] == prior[k + 1]@);
                assert(ranked.skip(named)[k + 1] == ranked[named + 1 + k]);
            }
            assert(record_views(rest2@) =~= ranked.skip(named + 1));
        }
        let ghost prior_names = seq_views(names@);
        names.push(r.name);
        proof {
            assert(seq_views(names@) =~= prior_names.push(r.name@));
            named = named + 1;
            assert(seq_views(names@) =~= names_of(ranked.take(named)));
        }
    }
    proof {
        assert(ranked.take(ranked.len() as int) =~= ranked);
        assert(seq_views(names@) == names_of(ranked));
    }
    names
}

/// A name free of whitespace, as every name field is.
pub open spec fn clean_name(r: RecordModel) -> bool {
    forall|j: int| 0 <= j < r.name.len() ==> !is_ws(#[trigger] r.name[j])
}

/// The name field of a line holds no whitespace byte.
pub proof fn lemma_field2_clean(line: Seq<u8>)
    ensures
        0 <= field2_start(line) <= field2_end(line) <= line.len(),
        clean_name(parse_line_spec(line)),
{
    lemma_skip_ws(line, 0);
    lemma_scan_token(line, field0_start(line));
    lemma_skip_ws(line, field0_end(line));
    lemma_scan_token(line, field1_start(line));
    lemma_skip_ws(line, field1_end(line));
    lemma_scan_token(line, field2_start(line));
    assert(forall|j: int|
        0 <= j < field2(line).len() ==> field2(line)[j] == line[field2_start(line) + j]);
}

/// Every record the listing keeps has a non-empty, whitespace-free name
/// other than the current session's.
pub proof fn lemma_records_of_kept(ls: Seq<Seq<u8>>, current: Seq<u8>)
    ensures
        forall|k: int|
            0 <= k < records_of(ls, current).len() ==> keep_record(
                #[trigger] records_of(ls, current)[k],
                current,
            ) && clean_name(records_of(ls, current)[k]),
    decreases ls.len(),
{
    if ls.len() > 0 {
        lemma_records_of_kept(ls.drop_last(), current);
        lemma_field2_clean(ls.last());
        let front = records_of(ls.drop_last(), current);
        let r = parse_line_spec(ls.last());
        let whole = records_of(ls, current);
        if keep_record(r, current) {
            assert(whole == front.push(r));
            assert forall|k: int|
                0 <= k < whole.len() implies keep_record(#[trigger] whole[k], current)
                && clean_name(whole[k]) by {
                if k < front.len() {
                    assert(whole[k] == front[k]);
                } else {
                    assert(whole[k] == r);
                }
            }
        }
    }
}

/// The ranking is a total order on the kept records: not-attached sessions
/// all precede attached ones; within a class the later-attached session
/// precedes the earlier; and the ranked list holds exactly the kept
/// records. Which of two records the order cannot part comes first is not
/// fixed by the order itself.
pub proof fn lemma_ranking_total_order(listing: Seq<u8>, current: Seq<u8>)
    ensures
        is_ranked(ranked_records(listing, current)),
        forall|i: int, j: int|
            0 <= i < j < ranked_records(listing, current).len() ==> ((#[trigger] ranked_records(
                listing,
                current,
            )[i]).attached ==> (#[trigger] ranked_records(listing, current)[j]).attached),
        forall|i: int, j: int|
            0 <= i < j < ranked_records(listing, current).len() ==> ((#[trigger] ranked_records(
                listing,
                current,
            )[i]).attached == (#[trigger] ranked_records(listing, current)[j]).attached
                ==> ranked_records(listing, current)[i].last_attached >= ranked_records(
                listing,
                current,
            )[j].last_attached),
        ranked_records(listing, current).to_multiset() == records_of(
            lines_spec(listing),
            current,
        ).to_multiset(),
{
    lemma_sort_spec_ranked(records_of(lines_spec(listing), current));
}

/// The current session's name never stands in its own ranked list,
/// whatever its record reports.
pub proof fn lemma_current_excluded(listing: Seq<u8>, current: Seq<u8>)
    ensures
        forall|k: int|
            0 <= k < ranked_names(listing, current).len() ==> #[trigger] ranked_names(
                listing,
                current,
            )[k] != current,
{
    let rs = records_of(lines_spec(listing), current);
    lemma_records_of_kept(lines_spec(listing), current);
    lemma_sort_spec_all(rs, |r: RecordModel| keep_record(r, current));
}

/// A record with an empty name is dropped, whatever its other fields.
pub proof fn lemma_empty_names_dropped(listing: Seq<u8>, current: Seq<u8>)
    ensures
        forall|k: int|
            0 <= k < ranked_names(listing, current).len() ==> (#[trigger] ranked_names(
                listing,
                current,
            )[k]).len() > 0,
{
    let rs = records_of(lines_spec(listing), current);
    lemma_records_of_kept(lines_spec(listing), current);
    lemma_sort_spec_all(rs, |r: RecordModel| keep_record(r, current));
}

/// Malformed fields default as the listing contract says: a flag that does
/// not read as the not-attached marker counts as attached, and a
/// timestamp that does not read as a number counts as zero, the oldest.
pub proof fn lemma_malformed_defaults(line: Seq<u8>)
    ensures
        parse_u64_spec(field0(line)) is None ==> parse_line_spec(line).attached,
        parse_u64_spec(field1(line)) is None ==> parse_line_spec(line).last_attached == 0,
{
}

/// Printing a ranked list one name per line and reading the lines back
/// gives the same list: the reload output round-trips for an unchanged
/// session set.
pub proof fn lemma_reload_round_trip(listing: Seq<u8>, current: Seq<u8>)
    ensures
        lines_spec(crate::lines::render_spec(ranked_names(listing, current))) == ranked_names(
            listing,
            current,
        ),
{
    let rs = records_of(lines_spec(listing), current);
    let p = |r: RecordModel| keep_record(r, current) && clean_name(r);
    lemma_records_of_kept(lines_spec(listing), current);
    lemma_sort_spec_all(rs, p);
    let sorted = sort_spec(rs);
    let names = names_of(sorted);
    assert forall|k: int| 0 <= k < names.len() implies names[k].len() > 0 && forall|j: int|
        0 <= j < names[k].len() ==> names[k][j] != crate::bytes::NL && names[k][j]
        != crate::bytes::CR by {
        assert(p(sorted[k]));
        assert forall|j: int|
            0 <= j < names[k].len() implies names[k][j] != crate::bytes::NL && names[k][j]
            != crate::bytes::CR by {
            assert(!is_ws(sorted[k].name[j]));
        }
    }
    crate::lines::lemma_render_round_trip(names);
}

} // verus!
