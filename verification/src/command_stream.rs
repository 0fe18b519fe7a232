//! The stream writer and the stanza-based stream parser/reader.
//!
//! The writer assigns monotonically increasing sequence numbers, builds one
//! correlation record per submitted command, and frames each command's wire
//! form as one newline-terminated line. The reader turns the output stream's
//! lines into completed output blocks and matches each block's sequence
//! number against the pending correlation records.

use vstd::prelude::*;

pub mod grammar;
pub mod session;

use crate::Pair;
use crate::command::{Response, TmuxCommand};
use crate::command_stream::grammar::{begins_block, ends_block, terminator_num};

verus! {

/// The position of the first pending record carrying sequence number `n`.
fn find_pending<R, D>(pending: &Vec<SeqRs<R, D>>, n: u64) -> (r: Option<usize>)
    ensures
        r matches Some(j) ==> j < pending@.len() && session::find_record(pending@, n) == Some(
            j as int,
        ),
        r is None ==> session::find_record(pending@, n) is None,
{
    let mut j: usize = 0;
    while j < pending.len()
        invariant
            0 <= j <= pending@.len(),
            forall|k: int| 0 <= k < j ==> pending@[k].0 != n,
        decreases pending@.len() - j,
    {
        if pending[j].0 == n {
            proof {
                session::lemma_find_record_at(pending@, n, j as int);
            }
            return Some(j);
        }
        j = j + 1;
    }
    proof {
        session::lemma_find_record_at(pending@, n, pending@.len() as int);
    }
    None
}

/// A protocol decoding or correlation fault.
#[derive(Clone, Copy, Debug, PartialEq, Eq, Structural)]
pub enum ProtocolError {
    /// A terminator line arrived without a usable sequence number; the
    /// number is mandatory once a block is open, so the block is
    /// undeliverable and is dropped.
    MissingSequence,
    /// A completed block declared a sequence number with no pending
    /// correlation record: a command-to-response ordering or loss bug,
    /// fatal to the session.
    UnmatchedSequence(u64),
}

/// A correlation record: the sequence number assigned to one submitted
/// command, the empty response shell that command built, and the reply
/// destination for that one caller.
pub struct SeqRs<R, D>(pub u64, pub R, pub D);

/// A completed raw output block: its declared sequence number and the
/// accumulated text between its `%begin` and its terminator.
pub struct RawResponse {
    pub num: u64,
    pub output: String,
}

/// The stream parser's state: the open output block, if one is, and the
/// completed raw blocks still awaiting a matching correlation record.
pub struct Reader {
    /// `None` while scanning; the accumulated block lines while a block is
    /// open.
    pub maybe_output: Option<Vec<String>>,
    /// Completed blocks pending correlation.
    pub results: Vec<RawResponse>,
}

impl Reader {
    /// The open block accumulator, viewed mathematically.
    pub open spec fn block(&self) -> Option<Seq<Seq<char>>> {
        match self.maybe_output {
            Some(ls) => Some(ls.deep_view()),
            None => None,
        }
    }

    /// The completed blocks pending correlation: sequence number and text,
    /// in completion order.
    pub open spec fn blocks(&self) -> Seq<(u64, Seq<char>)> {
        Seq::new(self.results@.len(), |i: int| (self.results@[i].num, self.results@[i].output@))
    }

    /// A fresh parser: scanning, with nothing pending.
    pub fn new() -> (r: Reader)
        ensures
            r.block() is None,
            r.blocks() == Seq::<(u64, Seq<char>)>::empty(),
    {
        let r = Reader { maybe_output: None, results: Vec::new() };
        proof {
            assert(r.blocks() =~= Seq::<(u64, Seq<char>)>::empty());
        }
        r
    }

    /// Handles one line while scanning (no block open). A `%begin` stanza
    /// opens an empty block accumulator; every other line — a recognized
    /// notification stanza or not — is a no-op, reserved for future event
    /// delivery.
    pub fn capture_notification(&mut self, line: String)
        requires
            old(self).block() is None,
        ensures
            final(self).results == old(self).results,
            begins_block(line@) ==> final(self).block() == Some(Seq::<Seq<char>>::empty()),
            !begins_block(line@) ==> *final(self) == *old(self),
    {
        if grammar::stanza_keyword_is(line.as_str(), "begin") {
            proof {
                reveal_strlit("begin");
            }
            // The begin line's optional arguments are parsed and discarded:
            // the terminator's sequence number is the authoritative one.
            let rest = line.as_str().substring_char(6, line.as_str().unicode_len());
            let _args = grammar::get_args(rest);
            let empty: Vec<String> = Vec::new();
            proof {
                assert(empty.deep_view() =~= Seq::<Seq<char>>::empty());
            }
            self.maybe_output = Some(empty);
        } else if grammar::stanza_keyword_is(line.as_str(), "exit") {
            // recognized notification; reserved for future event delivery
        } else if grammar::stanza_keyword_is(line.as_str(), "layout-change") {
        } else if grammar::stanza_keyword_is(line.as_str(), "output") {
        } else if grammar::stanza_keyword_is(line.as_str(), "session-changed") {
        } else if grammar::stanza_keyword_is(line.as_str(), "session-renamed") {
        } else if grammar::stanza_keyword_is(line.as_str(), "sessions-changed") {
        } else if grammar::stanza_keyword_is(line.as_str(), "unlinked-window-add") {
        } else if grammar::stanza_keyword_is(line.as_str(), "window-add") {
        } else if grammar::stanza_keyword_is(line.as_str(), "window-close") {
        } else if grammar::stanza_keyword_is(line.as_str(), "window-renamed") {
        } else {
            // not a recognized stanza: silently ignored while scanning
        }
    }

    /// Records one completed block: the accumulated text under the sequence
    /// number the terminator line declares. A terminator without a usable
    /// sequence number is a protocol-decode error and the block is dropped.
    pub fn capture_end(&mut self, block: String, line: &str) -> (r: Result<(), ProtocolError>)
        requires
            ends_block(line@),
        ensures
            final(self).maybe_output == old(self).maybe_output,
            terminator_num(line@) matches Some(n) ==> {
                &&& r is Ok
                &&& final(self).blocks() == old(self).blocks().push((n, block@))
            },
            terminator_num(line@) is None ==> {
                &&& r == Err::<(), ProtocolError>(ProtocolError::MissingSequence)
                &&& *final(self) == *old(self)
            },
    {
        match grammar::terminator_sequence(line) {
            Some(n) => {
                self.results.push(RawResponse { num: n, output: block });
                proof {
                    assert(final(self).blocks() =~= old(self).blocks().push((n, block@)));
                }
                Ok(())
            },
            None => Err(ProtocolError::MissingSequence),
        }
    }

    /// Handles one line while a block is open. A non-terminator line is
    /// appended verbatim to the block; a terminator completes the block and
    /// returns the state to scanning.
    pub fn capture_output_block(&mut self, line: String) -> (r: Result<(), ProtocolError>)
        requires
            old(self).block() is Some,
        ensures
            ({
                let s = session::scan_step(old(self).block(), line@);
                &&& final(self).block() == s.0
                &&& final(self).blocks() == (match s.1 {
                    Some(d) => old(self).blocks().push(d),
                    None => old(self).blocks(),
                })
                &&& (s.2 ==> r == Err::<(), ProtocolError>(ProtocolError::MissingSequence))
                &&& (!s.2 ==> r is Ok)
            }),
    {
        let terminated = grammar::starts_with(line.as_str(), "%end") || grammar::starts_with(
            line.as_str(),
            "%error",
        );
        if !terminated {
            match &mut self.maybe_output {
                Some(v) => {
                    let ghost prev = v.deep_view();
                    v.push(line);
                    proof {
                        assert(v.deep_view() =~= prev.push(v@.last()@));
                    }
                },
                None => {},
            }
            Ok(())
        } else {
            let ls = self.maybe_output.take();
            match ls {
                Some(v) => {
                    let text = grammar::join(&v);
                    self.capture_end(text, line.as_str())
                },
                None => Ok(()),
            }
        }
    }

    /// Handles one line of the output stream, in whichever state the parser
    /// is: scanning dispatches to `capture_notification`, an open block to
    /// `capture_output_block`.
    pub fn process_line(&mut self, line: String) -> (r: Result<(), ProtocolError>)
        ensures
            ({
                let s = session::scan_step(old(self).block(), line@);
                &&& final(self).block() == s.0
                &&& final(self).blocks() == (match s.1 {
                    Some(d) => old(self).blocks().push(d),
                    None => old(self).blocks(),
                })
                &&& (s.2 ==> r == Err::<(), ProtocolError>(ProtocolError::MissingSequence))
                &&& (!s.2 ==> r is Ok)
            }),
    {
        let scanning = match &self.maybe_output {
            None => true,
            Some(_) => false,
        };
        if scanning {
            self.capture_notification(line);
            Ok(())
        } else {
            self.capture_output_block(line)
        }
    }

    /// Matches the completed blocks, in completion order, against the
    /// pending correlation records: each block consumes the first pending
    /// record carrying its sequence number, its response is populated with
    /// the block's text, and the populated response is handed out paired
    /// with that record's reply destination. A block with no pending record
    /// is a fatal protocol-correlation error; matching stops there.
    pub fn match_blocks<R: Response, D>(&mut self, pending: &mut Vec<SeqRs<R, D>>) -> (r: (
        Vec<(D, R)>,
        Option<ProtocolError>,
    ))
        ensures
            ({
                let c = session::correlate(old(self).blocks(), old(pending)@);
                &&& final(self).block() == old(self).block()
                &&& final(self).blocks() == c.rest
                &&& final(pending)@ == c.pending
                &&& (c.fault is None ==> r.1 is None)
                &&& (c.fault matches Some(n) ==> r.1 == Some(ProtocolError::UnmatchedSequence(n)))
                &&& r.0@.len() == c.matched.len()
                &&& (forall|i: int|
                    0 <= i < c.matched.len() ==> {
                        &&& (#[trigger] r.0@[i]).0 == c.matched[i].1.2
                        &&& r.0@[i].1.filled_with(c.matched[i].0.1)
                    })
            }),
    {
        let mut delivered: Vec<(D, R)> = Vec::new();
        let ghost b0 = self.blocks();
        let ghost p0 = pending@;
        let ghost mut dm: Seq<((u64, Seq<char>), SeqRs<R, D>)> = Seq::empty();
        while self.results.len() > 0
            invariant
                self.maybe_output == old(self).maybe_output,
                b0 == old(self).blocks(),
                p0 == old(pending)@,
                session::correlate(b0, p0).matched == dm + session::correlate(
                    self.blocks(),
                    pending@,
                ).matched,
                session::correlate(b0, p0).pending == session::correlate(
                    self.blocks(),
                    pending@,
                ).pending,
                session::correlate(b0, p0).fault == session::correlate(
                    self.blocks(),
                    pending@,
                ).fault,
                session::correlate(b0, p0).rest == session::correlate(
                    self.blocks(),
                    pending@,
                ).rest,
                delivered@.len() == dm.len(),
                forall|i: int|
                    0 <= i < dm.len() ==> {
                        &&& (#[trigger] delivered@[i]).0 == dm[i].1.2
                        &&& delivered@[i].1.filled_with(dm[i].0.1)
                    },
            decreases self.results@.len(),
        {
            let n = self.results[0].num;
            match find_pending(pending, n) {
                None => {
                    proof {
                        assert(self.blocks()[0] == (n, self.results@[0].output@));
                        let ccur = session::correlate(self.blocks(), pending@);
                        assert(ccur.fault == Some(n));
                        assert(dm + ccur.matched =~= dm);
                    }
                    return (delivered, Some(ProtocolError::UnmatchedSequence(n)));
                },
                Some(j) => {
                    let ghost bcur = self.blocks();
                    let ghost pcur = pending@;
                    let blk = self.results.remove(0);
                    let rec = pending.remove(j);
                    let SeqRs(_num, mut resp, dest) = rec;
                    resp.consume(&blk.output);
                    delivered.push((dest, resp));
                    proof {
                        assert(bcur[0] == (n, blk.output@));
                        assert(self.blocks() =~= bcur.skip(1));
                        assert(pending@ == pcur.remove(j as int));
                        dm = dm.push((bcur[0], pcur[j as int]));
                        assert(dm + session::correlate(self.blocks(), pending@).matched =~= dm.drop_last() + (seq![(bcur[0], pcur[j as int])] + session::correlate(bcur.skip(1), pcur.remove(j as int)).matched));
                    }
                },
            }
        }
        proof {
            assert(self.blocks() =~= Seq::<(u64, Seq<char>)>::empty());
            assert(dm + session::correlate(self.blocks(), pending@).matched =~= dm);
        }
        (delivered, None)
    }
}

/// One outbound line: a command's wire form with the newline framing the
/// transmitter appends.
pub open spec fn framed(wire: Seq<char>) -> Seq<char> {
    wire + seq!['\n']
}

/// The whole outbound byte stream for a sequence of submissions: each
/// command's framed wire form, in submission order.
pub open spec fn wire_stream<C: TmuxCommand, D>(pairs: Seq<Pair<C, D>>) -> Seq<char>
    decreases pairs.len(),
{
    if pairs.len() == 0 {
        Seq::empty()
    } else {
        wire_stream(pairs.drop_last()) + framed(pairs.last().0.wire_spec())
    }
}

/// Dispatches one submission: assigns the next sequence number, builds the
/// command's empty response shell, and frames the command's wire form as one
/// newline-terminated line. The correlation record must be enqueued before
/// the line is transmitted.
pub fn dispatch<C: TmuxCommand, D>(seq: u64, pair: Pair<C, D>) -> (r: (SeqRs<C::Out, D>, String))
    requires
        seq < u64::MAX,
    ensures
        r.0.0 == seq + 1,
        r.0.1.blank(),
        r.0.2 == pair.1,
        r.1@ == framed(pair.0.wire_spec()),
{
    let Pair(cmd, dest) = pair;
    let resp = cmd.build_response();
    let mut line = cmd.wire_format().to_owned();
    line.append("\n");
    proof {
        reveal_strlit("\n");
        assert(line@ =~= framed(cmd.wire_spec()));
    }
    (SeqRs(seq + 1, resp, dest), line)
}

/// Consumes the submitted commands, in submission order: sequence numbers
/// are assigned 1, 2, ... in order, one correlation record is produced per
/// command — to be enqueued strictly before its bytes are transmitted — and
/// the returned stream text is each command's framed wire form in the same
/// order.
pub fn write<C: TmuxCommand, D>(pairs: Vec<Pair<C, D>>) -> (r: (Vec<SeqRs<C::Out, D>>, String))
    ensures
        r.0@.len() == pairs@.len(),
        forall|i: int|
            0 <= i < pairs@.len() ==> {
                &&& (#[trigger] r.0@[i]).0 == i + 1
                &&& r.0@[i].1.blank()
                &&& r.0@[i].2 == pairs@[i].1
            },
        r.1@ == wire_stream(pairs@),
{
    let ghost p0 = pairs@;
    proof {
        assert(p0.len() == pairs.len());
        assert(p0.len() <= usize::MAX);
    }
    let mut pairs = pairs;
    let mut recs: Vec<SeqRs<C::Out, D>> = Vec::new();
    let mut stream = String::new();
    let mut seq: u64 = 0;
    proof {
        assert(p0.take(0) =~= Seq::<Pair<C, D>>::empty());
    }
    while pairs.len() > 0
        invariant
            p0.len() <= usize::MAX,
            recs@.len() + pairs@.len() == p0.len(),
            pairs@ == p0.skip(recs@.len() as int),
            seq == recs@.len(),
            forall|i: int|
                0 <= i < recs@.len() ==> {
                    &&& (#[trigger] recs@[i]).0 == i + 1
                    &&& recs@[i].1.blank()
                    &&& recs@[i].2 == p0[i].1
                },
            stream@ == wire_stream(p0.take(recs@.len() as int)),
        decreases pairs@.len(),
    {
        let ghost k = recs@.len() as int;
        proof {
            assert(usize::MAX <= u64::MAX);
            assert(pairs@[0] == p0[k]);
        }
        let pair = pairs.remove(0);
        let (rec, line) = dispatch(seq, pair);
        seq = seq + 1;
        recs.push(rec);
        stream.append(line.as_str());
        proof {
            assert(pairs@ =~= p0.skip(k + 1));
            assert(p0.take(k + 1).drop_last() =~= p0.take(k));
            assert(p0.take(k + 1).last() == p0[k]);
        }
    }
    proof {
        assert(p0.take(recs@.len() as int) =~= p0);
    }
    (recs, stream)
}

/// Everything a fully drained output stream produced, relative to the
/// correlation records the writer had enqueued.
pub struct ReadOutcome<R, D> {
    /// Each populated response paired with its reply destination, in block
    /// completion order.
    pub delivered: Vec<(D, R)>,
    /// The records never fulfilled: their callers must see a cancellation,
    /// not a silent hang.
    pub cancelled: Vec<SeqRs<R, D>>,
    /// How many blocks were dropped because their terminator carried no
    /// decodable sequence number.
    pub dropped_blocks: usize,
    /// The fatal correlation fault that stopped the session, if one did.
    pub fault: Option<ProtocolError>,
}

/// Drains one whole output stream, given as its lines in arrival order,
/// against the correlation records the writer enqueued, in order. Stanzas
/// are parsed, blocks are accumulated and completed, and each completed
/// block populates and delivers the response of the record carrying its
/// sequence number. The stream ends at the end of `lines` (the subprocess
/// closed it); records still pending then are returned as cancelled.
#[verifier::loop_isolation(false)]
pub fn read<R: Response, D>(lines: Vec<String>, records: Vec<SeqRs<R, D>>) -> (out: ReadOutcome<
    R,
    D,
>)
    ensures
        ({
            let fin = session::run(session::init_state(records@), lines.deep_view());
            &&& (out.fault is Some <==> fin.fault is Some)
            &&& (fin.fault matches Some(n) ==> out.fault == Some(ProtocolError::UnmatchedSequence(n)))
            &&& out.dropped_blocks == fin.dropped
            &&& out.cancelled@ == fin.pending
            &&& out.delivered@.len() == fin.matched.len()
            &&& (forall|i: int|
                0 <= i < fin.matched.len() ==> {
                    &&& (#[trigger] out.delivered@[i]).0 == fin.matched[i].1.2
                    &&& out.delivered@[i].1.filled_with(fin.matched[i].0.1)
                })
        }),
{
    let ghost l0 = lines.deep_view();
    let ghost r0 = records@;
    let mut rdr = Reader::new();
    let mut pending = records;
    let mut delivered: Vec<(D, R)> = Vec::new();
    let mut dropped: usize = 0;
    let mut i: usize = 0;
    proof {
        assert(l0.take(0) =~= Seq::<Seq<char>>::empty());
    }
    while i < lines.len()
        invariant
            0 <= i <= lines@.len(),
            l0 == lines.deep_view(),
            l0.len() == lines@.len(),
            dropped <= i,
            ({
                let st = session::run(session::init_state(r0), l0.take(i as int));
                &&& st.fault is None
                &&& rdr.block() == st.block
                &&& rdr.blocks() == Seq::<(u64, Seq<char>)>::empty()
                &&& pending@ == st.pending
                &&& dropped == st.dropped
                &&& delivered@.len() == st.matched.len()
                &&& (forall|k: int|
                    0 <= k < st.matched.len() ==> {
                        &&& (#[trigger] delivered@[k]).0 == st.matched[k].1.2
                        &&& delivered@[k].1.filled_with(st.matched[k].0.1)
                    })
            }),
        decreases lines@.len() - i,
    {
        let ghost st = session::run(session::init_state(r0), l0.take(i as int));
        let line = lines[i].clone();
        proof {
            assert(line@ == l0[i as int]);
            assert(l0.take(i as int + 1) =~= l0.take(i as int).push(l0[i as int]));
            session::lemma_run_snoc(session::init_state(r0), l0.take(i as int), l0[i as int]);
        }
        let ghost t = session::scan_step(st.block, l0[i as int]);
        let res = rdr.process_line(line);
        if res.is_err() {
            dropped = dropped + 1;
        }
        let ghost bs = rdr.blocks();
        let ghost pprev = pending@;
        let (mut newly, mfault) = rdr.match_blocks(&mut pending);
        let ghost nv = newly@;
        let ghost dprev = delivered@;
        delivered.append(&mut newly);
        proof {
            let st1 = session::line_step(st, l0[i as int]);
            let c = session::correlate(bs, pprev);
            if t.2 || t.1 is None {
                assert(bs =~= Seq::<(u64, Seq<char>)>::empty());
                assert(delivered@ =~= dprev);
            } else {
                let d = t.1->Some_0;
                assert(bs =~= Seq::<(u64, Seq<char>)>::empty().push(d));
                assert(bs.skip(1) =~= Seq::<(u64, Seq<char>)>::empty());
                assert(bs[0] == d);
                match session::find_record(pprev, d.0) {
                    None => {
                        assert(c.fault == Some(d.0));
                        assert(c.matched =~= Seq::<((u64, Seq<char>), SeqRs<R, D>)>::empty());
                        assert(delivered@ =~= dprev);
                        assert(st1.fault == Some(d.0));
                    },
                    Some(j) => {
                        let tail = session::correlate(bs.skip(1), pprev.remove(j));
                        assert(c.matched =~= seq![(d, pprev[j])] + tail.matched);
                        assert(c.matched =~= seq![(d, pprev[j])]);
                        assert(st1.matched == st.matched.push((d, pprev[j])));
                        assert(delivered@ == dprev + nv);
                        assert(nv.len() == 1);
                        assert forall|k: int| 0 <= k < st1.matched.len() implies {
                            &&& (#[trigger] delivered@[k]).0 == st1.matched[k].1.2
                            &&& delivered@[k].1.filled_with(st1.matched[k].0.1)
                        } by {
                            if k < st.matched.len() {
                                assert(delivered@[k] == dprev[k]);
                            } else {
                                assert(delivered@[k] == nv[0]);
                                assert(st1.matched[k] == (d, pprev[j]));
                                assert(c.matched[0] == (d, pprev[j]));
                            }
                        }
                    },
                }
            }
        }
        match mfault {
            Some(f) => {
                proof {
                    let stf = session::line_step(st, l0[i as int]);
                    assert(stf.fault is Some);
                    session::lemma_run_faulted(stf, l0.skip(i as int + 1));
                    assert(l0 =~= l0.take(i as int + 1) + l0.skip(i as int + 1));
                    session::lemma_run_append(
                        session::init_state(r0),
                        l0.take(i as int + 1),
                        l0.skip(i as int + 1),
                    );
                    assert(stf.matched == st.matched);
                    assert(delivered@ =~= dprev);
                }
                return ReadOutcome {
                    delivered,
                    cancelled: pending,
                    dropped_blocks: dropped,
                    fault: Some(f),
                };
            },
            None => {},
        }
        i = i + 1;
    }
    proof {
        assert(l0.take(lines@.len() as int) =~= l0);
    }
    ReadOutcome { delivered, cancelled: pending, dropped_blocks: dropped, fault: None }
}

} // verus!
