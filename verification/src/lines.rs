//! The line protocol: splitting a subprocess's raw output into lines and
//! rendering a list of names back into that shape.
//!
//! Splitting follows the usual text convention: lines end at a line feed,
//! an optional final line may lack one, and a carriage return standing
//! immediately before a line feed belongs to the terminator, not the line.

use vstd::prelude::*;
use crate::bytes::{is_ws, seq_views, lemma_seq_views_push, copy_range, ws_byte, NL, CR};

verus! {

/// The first position at or after `i` holding a line feed, or the length.
pub open spec fn find_nl(s: Seq<u8>, i: int) -> int
    decreases s.len() - i when 0 <= i <= s.len()
{
    if i >= s.len() {
        s.len() as int
    } else if s[i] == NL {
        i
    } else {
        find_nl(s, i + 1)
    }
}

pub proof fn lemma_find_nl(s: Seq<u8>, i: int)
    requires
        0 <= i <= s.len(),
    ensures
        i <= find_nl(s, i) <= s.len(),
        find_nl(s, i) < s.len() ==> s[find_nl(s, i)] == NL,
        forall|k: int| i <= k < find_nl(s, i) ==> s[k] != NL,
    decreases s.len() - i,
{
    if i < s.len() && s[i] != NL {
        lemma_find_nl(s, i + 1);
    }
}

/// A line with its terminator's carriage return, if any, taken off.
pub open spec fn strip_cr(t: Seq<u8>) -> Seq<u8> {
    if t.len() > 0 && t[t.len() - 1] == CR {
        t.drop_last()
    } else {
        t
    }
}

/// The lines of `s`: split at line feeds, the final terminator optional,
/// a carriage return before a line feed stripped.
pub open spec fn lines_spec(s: Seq<u8>) -> Seq<Seq<u8>>
    decreases s.len() via lines_spec_decreases
{
    if s.len() == 0 {
        Seq::empty()
    } else {
        let i = find_nl(s, 0);
        if i == s.len() {
            seq![s]
        } else {
            seq![strip_cr(s.subrange(0, i))] + lines_spec(s.subrange(i + 1, s.len() as int))
        }
    }
}

#[via_fn]
proof fn lines_spec_decreases(s: Seq<u8>) {
    if s.len() > 0 {
        lemma_find_nl(s, 0);
    }
}

/// How `lines_spec` consumes one terminated line from the front.
pub proof fn lemma_lines_step(s: Seq<u8>, i: int)
    requires
        0 <= i < s.len(),
        s[i] == NL,
        forall|k: int| 0 <= k < i ==> s[k] != NL,
    ensures
        lines_spec(s) == seq![strip_cr(s.subrange(0, i))] + lines_spec(
            s.subrange(i + 1, s.len() as int),
        ),
{
    lemma_find_nl_exact(s, 0, i);
}

proof fn lemma_find_nl_exact(s: Seq<u8>, i: int, j: int)
    requires
        0 <= i <= j < s.len(),
        s[j] == NL,
        forall|k: int| i <= k < j ==> s[k] != NL,
    ensures
        find_nl(s, i) == j,
    decreases j - i,
{
    if i < j {
        lemma_find_nl_exact(s, i + 1, j);
    }
}

/// Splits raw subprocess output into its lines.
pub fn split_lines(s: &Vec<u8>) -> (r: Vec<Vec<u8>>)
    ensures
        seq_views(r@) == lines_spec(s@),
{
    let mut r: Vec<Vec<u8>> = Vec::new();
    let mut start: usize = 0;
    let mut i: usize = 0;
    proof {
        assert(s@.subrange(0, s.len() as int) =~= s@);
        assert(seq_views(r@) + lines_spec(s@) =~= lines_spec(s@));
    }
    while i < s.len()
        invariant
            start <= i <= s.len(),
            forall|k: int| start <= k < i ==> s@[k] != NL,
            lines_spec(s@) == seq_views(r@) + lines_spec(s@.subrange(start as int, s.len() as int)),
        decreases s.len() - i,
    {
        if s[i] == NL {
            let mut line = copy_range(s, start, i);
            if line.len() > 0 && line[line.len() - 1] == CR {
                line.pop();
            }
            assert(line@ == strip_cr(s@.subrange(start as int, i as int)));
            proof {
                let tail = s@.subrange(start as int, s.len() as int);
                assert(tail[i - start] == NL);
                assert(forall|k: int| 0 <= k < i - start ==> tail[k] != NL);
                lemma_lines_step(tail, i - start);
                assert(tail.subrange(0, i - start) =~= s@.subrange(start as int, i as int));
                assert(tail.subrange(i - start + 1, tail.len() as int) =~= s@.subrange(
                    i as int + 1,
                    s.len() as int,
                ));
                lemma_seq_views_push(r@, line);
                assert(seq_views(r@.push(line)) + lines_spec(
                    s@.subrange(i as int + 1, s.len() as int),
                ) =~= seq_views(r@) + lines_spec(s@.subrange(start as int, s.len() as int)));
            }
            r.push(line);
            start = i + 1;
        }
        i = i + 1;
    }
    if start < s.len() {
        let line = copy_range(s, start, s.len());
        proof {
            let tail = s@.subrange(start as int, s.len() as int);
            lemma_find_nl(tail, 0);
            assert(find_nl(tail, 0) == tail.len()) by {
                if find_nl(tail, 0) < tail.len() {
                    assert(s@[start + find_nl(tail, 0)] == NL);
                }
            }
            assert(lines_spec(tail) == seq![tail]);
            lemma_seq_views_push(r@, line);
            assert(seq_views(r@.push(line)) =~= seq_views(r@) + lines_spec(
                s@.subrange(start as int, s.len() as int),
            ));
        }
        r.push(line);
    } else {
        proof {
            assert(s@.subrange(start as int, s.len() as int).len() == 0);
            assert(seq_views(r@) =~= seq_views(r@) + lines_spec(
                s@.subrange(start as int, s.len() as int),
            ));
        }
    }
    r
}

/// One name per line, each line feed terminated: the shape both the
/// selector's candidate feed and the reload output take.
pub open spec fn render_spec(names: Seq<Seq<u8>>) -> Seq<u8>
    decreases names.len(),
{
    if names.len() == 0 {
        Seq::empty()
    } else {
        render_spec(names.drop_last()) + names.last() + seq![NL]
    }
}

/// Renders a list of names, one per line, each terminated by a line feed.
pub fn render_list(names: &Vec<Vec<u8>>) -> (out: Vec<u8>)
    ensures
        out@ == render_spec(seq_views(names@)),
{
    let mut out: Vec<u8> = Vec::new();
    let mut i: usize = 0;
    while i < names.len()
        invariant
            i <= names.len(),
            out@ == render_spec(seq_views(names@).take(i as int)),
        decreases names.len() - i,
    {
        let mut j: usize = 0;
        let name = &names[i];
        while j < name.len()
            invariant
                j <= name.len(),
                name@ == names@[i as int]@,
                i < names.len(),
                out@ == render_spec(seq_views(names@).take(i as int)) + name@.take(j as int),
            decreases name.len() - j,
        {
            out.push(name[j]);
            j = j + 1;
        }
        out.push(NL);
        i = i + 1;
        proof {
            let vs = seq_views(names@);
            assert(vs.take(i as int).drop_last() =~= vs.take(i as int - 1));
            assert(vs.take(i as int).last() == vs[i as int - 1]);
            assert(name@.take(name@.len() as int) =~= name@);
            assert(out@ =~= render_spec(vs.take(i as int - 1)) + vs[i as int - 1] + seq![NL]);
        }
    }
    proof {
        assert(seq_views(names@).take(names@.len() as int) =~= seq_views(names@));
    }
    out
}

/// A rendered list of line-free, carriage-return-free names reads back as
/// exactly the names it was made from: the shape of the reload output is
/// lossless for the names the ranking produces.
pub proof fn lemma_render_round_trip(names: Seq<Seq<u8>>)
    requires
        forall|k: int|
            0 <= k < names.len() ==> names[k].len() > 0 && forall|j: int|
                0 <= j < names[k].len() ==> names[k][j] != NL && names[k][j] != CR,
    ensures
        lines_spec(render_spec(names)) == names,
    decreases names.len(),
{
    if names.len() == 0 {
        assert(lines_spec(render_spec(names)) =~= names);
    } else {
        let front = names.drop_last();
        lemma_render_round_trip(front);
        let s = render_spec(names);
        let pre = render_spec(front);
        let last = names.last();
        assert(s == pre + last + seq![NL]);
        lemma_render_ends_terminated(front);
        lemma_render_splits(pre, last);
        assert(lines_spec(s) =~= front.push(last));
        assert(names =~= front.push(last));
    }
}

/// A rendered buffer is empty or ends with a line feed.
proof fn lemma_render_ends_terminated(names: Seq<Seq<u8>>)
    ensures
        render_spec(names).len() == 0 || render_spec(names).last() == NL,
{
    if names.len() > 0 {
        let r = render_spec(names);
        assert(r.last() == NL);
    }
}

/// Appending one terminated, feed-free line to a fully terminated buffer
/// appends one line to its reading.
proof fn lemma_render_splits(pre: Seq<u8>, last: Seq<u8>)
    requires
        last.len() > 0,
        forall|j: int| 0 <= j < last.len() ==> last[j] != NL && last[j] != CR,
        pre.len() == 0 || pre.last() == NL,
    ensures
        lines_spec(pre + last + seq![NL]) == lines_spec(pre).push(last),
    decreases pre.len(),
{
    let s = pre + last + seq![NL];
    if pre.len() == 0 {
        assert(forall|k: int| 0 <= k < last.len() ==> s[k] != NL);
        assert(s[last.len() as int] == NL);
        lemma_lines_step(s, last.len() as int);
        assert(s.subrange(0, last.len() as int) =~= last);
        assert(strip_cr(last) == last);
        assert(s.subrange(last.len() as int + 1, s.len() as int) =~= Seq::<u8>::empty());
        assert(lines_spec(s) =~= lines_spec(pre).push(last));
    } else {
        lemma_find_nl(pre, 0);
        let i = find_nl(pre, 0);
        if i == pre.len() {
            // Impossible: `pre` ends with a line feed, so the search finds one.
            assert(pre[pre.len() - 1] == NL);
            assert(false);
        } else {
            assert(forall|k: int| 0 <= k < i ==> s[k] != NL);
            assert(s[i] == NL);
            lemma_lines_step(s, i);
            lemma_lines_step(pre, i);
            assert(s.subrange(0, i) =~= pre.subrange(0, i));
            let pre_tail = pre.subrange(i + 1, pre.len() as int);
            assert(s.subrange(i + 1, s.len() as int) =~= pre_tail + last + seq![NL]);
            lemma_render_splits(pre_tail, last);
            assert(lines_spec(s) =~= lines_spec(pre).push(last));
        }
    }
}

} // verus!
