//! The reader's protocol semantics as a mathematical machine.
//!
//! `scan_step` gives the stanza state machine's transition for one line;
//! `correlate` gives the matching of completed blocks against pending
//! correlation records; `line_step` and `run` combine the two into the
//! semantics of a whole session drained from the output stream. The
//! executable reader is proved against these functions, and the engine's
//! laws are stated and proved about them.

use vstd::prelude::*;

use crate::command_stream::SeqRs;
use crate::command_stream::grammar::{begins_block, ends_block, join_lines, terminator_num};

verus! {

/// One transition of the stanza state machine.
///
/// The state is the open block accumulator: `None` while scanning, the
/// accumulated lines while a block is open. The result carries the new
/// state, the completed block (sequence number and text), if this line
/// terminated one, and whether the line was a terminator whose mandatory
/// sequence number could not be decoded.
pub open spec fn scan_step(block: Option<Seq<Seq<char>>>, line: Seq<char>) -> (
    Option<Seq<Seq<char>>>,
    Option<(u64, Seq<char>)>,
    bool,
) {
    match block {
        None => if begins_block(line) {
            (Some(Seq::empty()), None, false)
        } else {
            (None, None, false)
        },
        Some(ls) => if !ends_block(line) {
            (Some(ls.push(line)), None, false)
        } else {
            match terminator_num(line) {
                Some(n) => (None, Some((n, join_lines(ls))), false),
                None => (None, None, true),
            }
        },
    }
}

/// The position of the first pending correlation record carrying sequence
/// number `n`.
pub open spec fn find_record<R, D>(p: Seq<SeqRs<R, D>>, n: u64) -> Option<int>
    decreases p.len(),
{
    if p.len() == 0 {
        None
    } else if p[0].0 == n {
        Some(0)
    } else {
        match find_record(p.skip(1), n) {
            Some(j) => Some(j + 1),
            None => None,
        }
    }
}

/// `find_record` returns exactly the position of the first record carrying
/// `n`: if no record before `j` carries it and `j` is its position (or the
/// end), that settles the search.
pub proof fn lemma_find_record_at<R, D>(p: Seq<SeqRs<R, D>>, n: u64, j: int)
    requires
        0 <= j <= p.len(),
        forall|k: int| 0 <= k < j ==> p[k].0 != n,
        j == p.len() || p[j].0 == n,
    ensures
        find_record(p, n) == (if j == p.len() {
            None::<int>
        } else {
            Some(j)
        }),
    decreases p.len(),
{
    if p.len() == 0 {
    } else if j == 0 {
    } else {
        assert(forall|k: int| 0 <= k < j - 1 ==> p.skip(1)[k] == p[k + 1]);
        lemma_find_record_at(p.skip(1), n, j - 1);
    }
}

/// A successful search returns a position inside the sequence whose record
/// carries the searched-for number.
pub proof fn lemma_find_record_some<R, D>(p: Seq<SeqRs<R, D>>, n: u64)
    ensures
        find_record(p, n) matches Some(j) ==> 0 <= j < p.len() && p[j].0 == n,
    decreases p.len(),
{
    if p.len() > 0 && p[0].0 != n {
        lemma_find_record_some(p.skip(1), n);
    }
}

/// The outcome of matching completed blocks against pending records.
pub struct Corr<R, D> {
    /// The matches made, in block order: each completed block paired with
    /// the first pending record carrying its sequence number.
    pub matched: Seq<((u64, Seq<char>), SeqRs<R, D>)>,
    /// The records still pending afterwards, in their original order.
    pub pending: Seq<SeqRs<R, D>>,
    /// The sequence number of the first completed block with no pending
    /// record — a protocol-correlation fault — if there was one.
    pub fault: Option<u64>,
    /// The blocks left unprocessed, from the faulting one on.
    pub rest: Seq<(u64, Seq<char>)>,
}

/// Matches completed blocks, in order, against the pending records: each
/// block removes the first pending record with its sequence number; a block
/// with no such record is a fault that stops the matching.
pub open spec fn correlate<R, D>(blocks: Seq<(u64, Seq<char>)>, pending: Seq<SeqRs<R, D>>) -> Corr<
    R,
    D,
>
    decreases blocks.len(),
{
    if blocks.len() == 0 {
        Corr { matched: Seq::empty(), pending, fault: None, rest: Seq::empty() }
    } else {
        let b = blocks[0];
        match find_record(pending, b.0) {
            None => Corr { matched: Seq::empty(), pending, fault: Some(b.0), rest: blocks },
            Some(j) => {
                let tail = correlate(blocks.skip(1), pending.remove(j));
                Corr {
                    matched: seq![(b, pending[j])] + tail.matched,
                    pending: tail.pending,
                    fault: tail.fault,
                    rest: tail.rest,
                }
            },
        }
    }
}

/// The state of a whole reader session over one stream of lines.
pub struct SessionState<R, D> {
    /// The open block accumulator.
    pub block: Option<Seq<Seq<char>>>,
    /// The correlation records not yet consumed by a completed block.
    pub pending: Seq<SeqRs<R, D>>,
    /// The matches made so far, in completion order: each completed block
    /// paired with the record it consumed.
    pub matched: Seq<((u64, Seq<char>), SeqRs<R, D>)>,
    /// How many blocks were dropped for want of a decodable sequence number.
    pub dropped: nat,
    /// The sequence number of the first block with no pending record, once
    /// one has been seen; from then on the session is faulted and frozen.
    pub fault: Option<u64>,
}

/// A session that has processed nothing: scanning, with all records pending.
pub open spec fn init_state<R, D>(records: Seq<SeqRs<R, D>>) -> SessionState<R, D> {
    SessionState {
        block: None,
        pending: records,
        matched: Seq::empty(),
        dropped: 0,
        fault: None,
    }
}

/// One line of session semantics: the stanza transition, followed — when a
/// block completed — by matching it against the pending records.
pub open spec fn line_step<R, D>(s: SessionState<R, D>, line: Seq<char>) -> SessionState<R, D> {
    if s.fault is Some {
        s
    } else {
        let t = scan_step(s.block, line);
        if t.2 {
            SessionState { block: t.0, dropped: s.dropped + 1, ..s }
        } else {
            match t.1 {
                None => SessionState { block: t.0, ..s },
                Some(d) => match find_record(s.pending, d.0) {
                    None => SessionState { block: t.0, fault: Some(d.0), ..s },
                    Some(j) => SessionState {
                        block: t.0,
                        pending: s.pending.remove(j),
                        matched: s.matched.push((d, s.pending[j])),
                        ..s
                    },
                },
            }
        }
    }
}

/// The session semantics of a stream of lines, processed in order.
pub open spec fn run<R, D>(s: SessionState<R, D>, lines: Seq<Seq<char>>) -> SessionState<R, D>
    decreases lines.len(),
{
    if lines.len() == 0 {
        s
    } else {
        run(line_step(s, lines[0]), lines.skip(1))
    }
}

/// Running one more line is one more step.
pub proof fn lemma_run_snoc<R, D>(s: SessionState<R, D>, lines: Seq<Seq<char>>, l: Seq<char>)
    ensures
        run(s, lines.push(l)) == line_step(run(s, lines), l),
    decreases lines.len(),
{
    if lines.len() == 0 {
        assert(lines.push(l).skip(1) =~= Seq::<Seq<char>>::empty());
        assert(lines.push(l)[0] == l);
        assert(run(s, lines.push(l)) == run(line_step(s, l), lines.push(l).skip(1)));
        assert(run(s, lines) == s);
    } else {
        assert(lines.push(l)[0] == lines[0]);
        assert(lines.push(l).skip(1) =~= lines.skip(1).push(l));
        assert(run(s, lines.push(l)) == run(line_step(s, lines[0]), lines.skip(1).push(l)));
        assert(run(s, lines) == run(line_step(s, lines[0]), lines.skip(1)));
        lemma_run_snoc(line_step(s, lines[0]), lines.skip(1), l);
    }
}

/// Running a concatenation is running its parts in order.
pub proof fn lemma_run_append<R, D>(
    s: SessionState<R, D>,
    l1: Seq<Seq<char>>,
    l2: Seq<Seq<char>>,
)
    ensures
        run(s, l1 + l2) == run(run(s, l1), l2),
    decreases l1.len(),
{
    if l1.len() == 0 {
        assert(l1 + l2 =~= l2);
    } else {
        assert((l1 + l2)[0] == l1[0]);
        assert((l1 + l2).skip(1) =~= l1.skip(1) + l2);
        lemma_run_append(line_step(s, l1[0]), l1.skip(1), l2);
    }
}

/// A faulted session is frozen: further lines change nothing.
pub proof fn lemma_run_faulted<R, D>(s: SessionState<R, D>, lines: Seq<Seq<char>>)
    requires
        s.fault is Some,
    ensures
        run(s, lines) == s,
    decreases lines.len(),
{
    if lines.len() > 0 {
        lemma_run_faulted(s, lines.skip(1));
    }
}

/// An idle notification is a no-op: a line arriving while scanning that does
/// not open a block — a recognized non-`begin` notification stanza or any
/// unrecognized line — leaves the whole session state unchanged: no block
/// opens, no pending record is touched, and no response text is affected.
pub proof fn lemma_idle_notification<R, D>(
    s: SessionState<R, D>,
    line: Seq<char>,
    rest: Seq<Seq<char>>,
)
    requires
        s.block is None,
        !begins_block(line),
    ensures
        line_step(s, line) == s,
        run(s, seq![line] + rest) == run(s, rest),
{
    assert((seq![line] + rest)[0] == line);
    assert((seq![line] + rest).skip(1) =~= rest);
}

/// No cross-talk: every match a session ever makes pairs a completed block
/// with a correlation record carrying the same sequence number, so a
/// response is only ever delivered to the reply destination tied to the
/// command that produced it.
pub proof fn lemma_no_cross_talk<R, D>(s: SessionState<R, D>, lines: Seq<Seq<char>>)
    requires
        forall|k: int|
            0 <= k < s.matched.len() ==> (#[trigger] s.matched[k]).0.0 == s.matched[k].1.0,
    ensures
        forall|k: int|
            0 <= k < run(s, lines).matched.len() ==> (#[trigger] run(s, lines).matched[k]).0.0
                == run(s, lines).matched[k].1.0,
    decreases lines.len(),
{
    if lines.len() > 0 {
        let s1 = line_step(s, lines[0]);
        if s.fault is None {
            let t = scan_step(s.block, lines[0]);
            if !t.2 && t.1 is Some {
                lemma_find_record_some(s.pending, t.1->Some_0.0);
            }
        }
        lemma_no_cross_talk(s1, lines.skip(1));
    }
}

/// The lines of a well-formed echo: for each command, a block-opening line,
/// one payload line, and a terminator line, in submission order.
pub open spec fn echo_lines(triples: Seq<(Seq<char>, Seq<char>, Seq<char>)>) -> Seq<Seq<char>>
    decreases triples.len(),
{
    if triples.len() == 0 {
        Seq::empty()
    } else {
        seq![triples[0].0, triples[0].1, triples[0].2] + echo_lines(triples.skip(1))
    }
}

proof fn lemma_echo_run<R, D>(
    s: SessionState<R, D>,
    triples: Seq<(Seq<char>, Seq<char>, Seq<char>)>,
)
    requires
        s.block is None,
        s.fault is None,
        triples.len() <= s.pending.len(),
        forall|i: int|
            0 <= i < triples.len() ==> {
                &&& begins_block((#[trigger] triples[i]).0)
                &&& !ends_block(triples[i].1)
                &&& ends_block(triples[i].2)
                &&& terminator_num(triples[i].2) == Some(s.pending[i].0)
            },
    ensures
        ({
            let fin = run(s, echo_lines(triples));
            &&& fin.block is None
            &&& fin.fault is None
            &&& fin.dropped == s.dropped
            &&& fin.pending == s.pending.skip(triples.len() as int)
            &&& fin.matched == s.matched + Seq::new(
                triples.len() as nat,
                |i: int| ((s.pending[i].0, triples[i].1), s.pending[i]),
            )
        }),
    decreases triples.len(),
{
    if triples.len() == 0 {
        assert(run(s, echo_lines(triples)) == s);
        assert(s.pending.skip(0) =~= s.pending);
        assert(s.matched + Seq::new(
            0,
            |i: int| ((s.pending[i].0, triples[i].1), s.pending[i]),
        ) =~= s.matched);
    } else {
        let t = triples[0];
        let l3 = seq![t.0, t.1, t.2];
        let el2 = echo_lines(triples.skip(1));
        lemma_run_append(s, l3, el2);
        let s1 = line_step(s, t.0);
        let s2 = line_step(s1, t.1);
        let s3 = line_step(s2, t.2);
        assert(l3.skip(1) =~= seq![t.1, t.2]);
        assert(seq![t.1, t.2].skip(1) =~= seq![t.2]);
        assert(seq![t.2].skip(1) =~= Seq::<Seq<char>>::empty());
        assert(run(s, l3) == run(s1, seq![t.1, t.2]));
        assert(run(s1, seq![t.1, t.2]) == run(s2, seq![t.2]));
        assert(run(s2, seq![t.2]) == run(s3, Seq::<Seq<char>>::empty()));
        assert(run(s, l3) == s3);
        assert(s1.block == Some(Seq::<Seq<char>>::empty()));
        assert(Seq::<Seq<char>>::empty().push(t.1) =~= seq![t.1]);
        assert(s2.block == Some(seq![t.1]));
        assert(join_lines(seq![t.1]) == t.1);
        assert(find_record(s.pending, s.pending[0].0) == Some(0int));
        assert(s3.block is None);
        assert(s3.fault is None);
        assert(s3.dropped == s.dropped);
        assert(s3.pending == s.pending.remove(0));
        assert(s3.matched == s.matched.push(((s.pending[0].0, t.1), s.pending[0])));
        assert(s.pending.remove(0) =~= s.pending.skip(1));
        assert(forall|i: int|
            0 <= i < triples.skip(1).len() ==> #[trigger] triples.skip(1)[i] == triples[i + 1]);
        assert(forall|i: int|
            0 <= i < s.pending.skip(1).len() ==> #[trigger] s.pending.skip(1)[i] == s.pending[i
                + 1]);
        lemma_echo_run(s3, triples.skip(1));
        let fin = run(s3, el2);
        assert(fin.pending =~= s.pending.skip(triples.len() as int));
        assert(fin.matched =~= s.matched + Seq::new(
            triples.len() as nat,
            |i: int| ((s.pending[i].0, triples[i].1), s.pending[i]),
        ));
    }
}

/// Round trip: when the subprocess echoes, for each submitted command in
/// submission order, a well-formed block — a `%begin` line, the command's
/// payload line, and a terminator carrying that command's sequence number —
/// the session ends with no fault, nothing dropped and nothing pending, and
/// the match for each command carries exactly that command's payload text
/// and exactly that command's own correlation record.
pub proof fn lemma_round_trip<R, D>(
    records: Seq<SeqRs<R, D>>,
    triples: Seq<(Seq<char>, Seq<char>, Seq<char>)>,
)
    requires
        triples.len() == records.len(),
        forall|i: int|
            0 <= i < triples.len() ==> {
                &&& begins_block((#[trigger] triples[i]).0)
                &&& !ends_block(triples[i].1)
                &&& ends_block(triples[i].2)
                &&& terminator_num(triples[i].2) == Some(records[i].0)
            },
    ensures
        ({
            let fin = run(init_state(records), echo_lines(triples));
            &&& fin.fault is None
            &&& fin.dropped == 0
            &&& fin.pending == Seq::<SeqRs<R, D>>::empty()
            &&& fin.matched.len() == records.len()
            &&& (forall|i: int|
                0 <= i < records.len() ==> #[trigger] fin.matched[i] == (
                    (records[i].0, triples[i].1),
                    records[i],
                ))
        }),
{
    lemma_echo_run(init_state(records), triples);
    let fin = run(init_state(records), echo_lines(triples));
    assert(records.skip(records.len() as int) =~= Seq::<SeqRs<R, D>>::empty());
    assert(fin.matched =~= Seq::new(
        triples.len() as nat,
        |i: int| ((records[i].0, triples[i].1), records[i]),
    ));
}

/// The records a session has consumed, in match order.
pub open spec fn matched_records<R, D>(s: SessionState<R, D>) -> Seq<SeqRs<R, D>> {
    s.matched.map_values(|m: ((u64, Seq<char>), SeqRs<R, D>)| m.1)
}

/// No reply is silently lost: at every point of a session, the records
/// consumed by a delivery and the records still pending are together exactly
/// the records the session started with. In particular, when the stream
/// closes — even in the middle of a block — every record whose block never
/// completed is still pending, to be surfaced as a cancellation rather than
/// a hang.
pub proof fn lemma_records_conserved<R, D>(s: SessionState<R, D>, lines: Seq<Seq<char>>)
    ensures
        matched_records(run(s, lines)).to_multiset().add(run(s, lines).pending.to_multiset())
            == matched_records(s).to_multiset().add(s.pending.to_multiset()),
    decreases lines.len(),
{
    broadcast use vstd::seq_lib::group_to_multiset_ensures;

    if lines.len() > 0 {
        let s1 = line_step(s, lines[0]);
        if s.fault is None {
            let t = scan_step(s.block, lines[0]);
            if !t.2 && t.1 is Some {
                let d = t.1->Some_0;
                match find_record(s.pending, d.0) {
                    None => {},
                    Some(j) => {
                        lemma_find_record_some(s.pending, d.0);
                        assert(matched_records(s1) =~= matched_records(s).push(s.pending[j]));
                        assert(matched_records(s1).to_multiset() =~= matched_records(
                            s,
                        ).to_multiset().insert(s.pending[j]));
                        assert(s1.pending.to_multiset() =~= s.pending.to_multiset().remove(
                            s.pending[j],
                        ));
                        assert(matched_records(s1).to_multiset().add(s1.pending.to_multiset())
                            =~= matched_records(s).to_multiset().add(s.pending.to_multiset()));
                    },
                }
            }
        }
        lemma_records_conserved(s1, lines.skip(1));
    }
}

} // verus!
