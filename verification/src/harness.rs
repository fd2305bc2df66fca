//! The capture harness: terminal state machine, boundary detector and
//! snapshot gating, driven byte by byte.
//!
//! This is the computational half of the reader loop: a chunk of bytes read
//! from the terminal goes in, the outputs of the commands completed while
//! processing it come out, in order. The read itself, the thread that loops
//! over it and the channel that carries the outputs live outside the
//! library.

use vstd::prelude::*;

use crate::boundary::Detector;
use crate::boundary::DetectorView;
use crate::boundary::detect_step;
use crate::boundary::emit_view;
use crate::terminal::SnapView;
use crate::terminal::Snapshot;
use crate::terminal::TermView;
use crate::terminal::Terminal;
use crate::terminal::term_step;

verus! {

/// Mathematical state of the harness: the terminal, the detector, and the
/// snapshot recorded after the previous byte.
pub ghost struct HarnessView {
    pub term: TermView,
    pub det: DetectorView,
    pub last: SnapView,
}

impl HarnessView {
    /// The state of a fresh harness for a given prompt marker.
    pub open spec fn init(prompt: Seq<u8>) -> HarnessView {
        HarnessView {
            term: TermView::init(),
            det: DetectorView::init(prompt),
            last: TermView::init().snap(),
        }
    }

    /// The terminal stays well formed.
    pub open spec fn wf(self) -> bool {
        self.term.wf()
    }
}

/// Result of one harness step: the new state and the completed command
/// output emitted, if any.
pub ghost struct HarnessOutcome {
    pub h: HarnessView,
    pub emit: Option<Seq<u8>>,
}

/// One harness step on one byte: advance the terminal; if the snapshot did
/// not change, skip the detector as nothing observable happened; otherwise
/// run the detector against the new terminal state and record the new
/// snapshot.
pub open spec fn harness_step(h: HarnessView, b: u8) -> HarnessOutcome {
    let t2 = term_step(h.term, b);
    if t2.snap() == h.last {
        HarnessOutcome { h: HarnessView { term: t2, det: h.det, last: h.last }, emit: None }
    } else {
        let d = detect_step(h.det, t2, h.last);
        HarnessOutcome {
            h: HarnessView { term: t2, det: d.det, last: t2.snap() },
            emit: d.emit,
        }
    }
}

/// Result of feeding a whole chunk: the final state and every output
/// emitted along the way, in order.
pub ghost struct ChunkOutcome {
    pub h: HarnessView,
    pub emits: Seq<Seq<u8>>,
}

/// The harness run over a whole byte sequence, collecting emissions in
/// order.
pub open spec fn harness_run(h: HarnessView, s: Seq<u8>) -> ChunkOutcome
    decreases s.len(),
{
    if s.len() == 0 {
        ChunkOutcome { h, emits: Seq::empty() }
    } else {
        let prev = harness_run(h, s.drop_last());
        let step = harness_step(prev.h, s.last());
        ChunkOutcome {
            h: step.h,
            emits: match step.emit {
                Some(out) => prev.emits.push(out),
                None => prev.emits,
            },
        }
    }
}

/// One step keeps the harness well formed.
pub proof fn lemma_harness_step_wf(h: HarnessView, b: u8)
    requires
        h.wf(),
    ensures
        harness_step(h, b).h.wf(),
{
    crate::terminal::lemma_term_step_wf(h.term, b);
}

/// A whole run keeps the harness well formed.
pub proof fn lemma_harness_run_wf(h: HarnessView, s: Seq<u8>)
    requires
        h.wf(),
    ensures
        harness_run(h, s).h.wf(),
    decreases s.len(),
{
    if s.len() > 0 {
        lemma_harness_run_wf(h, s.drop_last());
        lemma_harness_step_wf(harness_run(h, s.drop_last()).h, s.last());
    }
}

/// Extending the fed prefix by one byte is one step of the harness.
pub proof fn lemma_harness_run_step(h: HarnessView, s: Seq<u8>, i: int)
    requires
        0 <= i < s.len(),
    ensures
        harness_run(h, s.take(i + 1)).h == harness_step(harness_run(h, s.take(i)).h, s[i]).h,
        harness_run(h, s.take(i + 1)).emits == (match harness_step(
            harness_run(h, s.take(i)).h,
            s[i],
        ).emit {
            Some(out) => harness_run(h, s.take(i)).emits.push(out),
            None => harness_run(h, s.take(i)).emits,
        }),
{
    assert(s.take(i + 1).drop_last() =~= s.take(i));
    assert(s.take(i + 1).last() == s[i]);
}

/// Feeding a concatenation is feeding the parts one after the other, with
/// the emissions concatenated in order.
pub proof fn lemma_harness_run_concat(h: HarnessView, a: Seq<u8>, b: Seq<u8>)
    ensures
        harness_run(h, a + b).h == harness_run(harness_run(h, a).h, b).h,
        harness_run(h, a + b).emits == harness_run(h, a).emits + harness_run(
            harness_run(h, a).h,
            b,
        ).emits,
    decreases b.len(),
{
    if b.len() == 0 {
        assert(a + b =~= a);
        assert(harness_run(h, a).emits + harness_run(harness_run(h, a).h, b).emits =~~=
            harness_run(h, a).emits);
    } else {
        lemma_harness_run_concat(h, a, b.drop_last());
        assert((a + b).drop_last() =~= a + b.drop_last());
        assert((a + b).last() == b.last());
        let mid = harness_run(h, a);
        let pre = harness_run(mid.h, b.drop_last());
        let step = harness_step(pre.h, b.last());
        match step.emit {
            Some(out) => {
                assert(mid.emits + pre.emits.push(out) =~~= (mid.emits + pre.emits).push(out));
            },
            None => {},
        }
    }
}

/// The capture harness: a terminal, a boundary detector, and the snapshot
/// taken after the previous byte.
pub struct Harness {
    term: Terminal,
    det: Detector,
    last: Snapshot,
}

impl View for Harness {
    type V = HarnessView;

    closed spec fn view(&self) -> HarnessView {
        HarnessView { term: self.term@, det: self.det@, last: self.last@ }
    }
}

impl Harness {
    /// A fresh harness for a given prompt marker.
    pub fn new(prompt: Vec<u8>) -> (h: Harness)
        ensures
            h@ == HarnessView::init(prompt@),
            h@.wf(),
    {
        let term = Terminal::new();
        let last = term.snapshot();
        Harness { term, det: Detector::new(prompt), last }
    }

    /// The terminal state reconstructed so far.
    pub fn terminal(&self) -> (t: &Terminal)
        ensures
            t@ == self@.term,
    {
        &self.term
    }

    /// Whether the startup prompt has been seen yet.
    pub fn startup_seen(&self) -> (r: bool)
        ensures
            r == (self@.det.state is Tracking),
    {
        self.det.startup_seen()
    }

    /// Advance the harness by one byte; on a post-startup boundary, the
    /// completed command output comes back.
    pub fn process_byte(&mut self, b: u8) -> (emit: Option<Vec<u8>>)
        requires
            old(self)@.wf(),
        ensures
            final(self)@ == harness_step(old(self)@, b).h,
            emit_view(emit) == harness_step(old(self)@, b).emit,
            final(self)@.wf(),
    {
        let ghost pre = self@;
        self.term.process_byte(b);
        let now = self.term.snapshot();
        if now == self.last {
            proof {
                assert(now@ == pre.last);
            }
            None
        } else {
            proof {
                assert(now@ != pre.last);
            }
            let prev = self.last;
            self.last = now;
            self.det.observe(&self.term, prev)
        }
    }

    /// Feed a whole chunk of bytes; the outputs of the commands completed
    /// while processing it come back, in order.
    pub fn process_chunk(&mut self, buf: &[u8]) -> (out: Vec<Vec<u8>>)
        requires
            old(self)@.wf(),
        ensures
            final(self)@ == harness_run(old(self)@, buf@).h,
            out.deep_view() == harness_run(old(self)@, buf@).emits,
            final(self)@.wf(),
    {
        let ghost pre = self@;
        let mut out: Vec<Vec<u8>> = Vec::new();
        let mut i: usize = 0;
        while i < buf.len()
            invariant
                i <= buf.len(),
                pre.wf(),
                self@ == harness_run(pre, buf@.take(i as int)).h,
                out.deep_view() == harness_run(pre, buf@.take(i as int)).emits,
                self@.wf(),
            decreases buf.len() - i,
        {
            proof {
                lemma_harness_run_step(pre, buf@, i as int);
            }
            let emitted = self.process_byte(buf[i]);
            match emitted {
                Some(one) => {
                    out.push(one);
                    proof {
                        assert(out.deep_view() =~~= harness_run(pre, buf@.take(i + 1)).emits);
                    }
                },
                None => {},
            }
            i += 1;
        }
        assert(buf@.take(buf.len() as int) =~= buf@);
        out
    }
}

} // verus!
