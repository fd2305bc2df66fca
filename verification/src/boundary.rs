//! Prompt-boundary detection.
//!
//! Watches terminal snapshots and decides when a command has finished: the
//! current line equals the prompt marker and the scrollback has grown since
//! the last boundary. Finalized lines that are not echoed prompt-plus-command
//! lines accumulate as the output of the command in flight; a boundary emits
//! them joined by line feeds. The first prompt sighting marks shell startup
//! and emits nothing.
//!
//! The prompt marker is a sentinel: a command whose own output is a line
//! exactly equal to the marker causes a false boundary. Callers must pick a
//! marker no command run through the session can produce.

use vstd::prelude::*;

use crate::terminal::LINE_FEED;
use crate::terminal::clone_bytes;
use crate::terminal::SnapView;
use crate::terminal::Snapshot;
use crate::terminal::TermView;
use crate::terminal::Terminal;

verus! {

/// Where the detector stands: before the first prompt sighting, or tracking
/// with the scrollback length recorded at the last boundary.
#[derive(Clone, Copy, PartialEq, Eq, Structural, Debug)]
pub enum BoundaryState {
    /// The shell has not yet shown its first prompt.
    AwaitingFirstPrompt,
    /// The first prompt has been seen; the payload is the scrollback length
    /// at the most recent boundary.
    Tracking(usize),
}

/// Mathematical counterpart of `BoundaryState`, with an unbounded counter.
pub ghost enum BoundaryView {
    Awaiting,
    Tracking(nat),
}

/// Mathematical state of the detector: the prompt marker, the boundary
/// state, and the finalized lines accumulated since the last boundary.
pub ghost struct DetectorView {
    pub prompt: Seq<u8>,
    pub state: BoundaryView,
    pub pending: Seq<Seq<u8>>,
}

impl DetectorView {
    /// The state of a fresh detector for a given prompt marker.
    pub open spec fn init(prompt: Seq<u8>) -> DetectorView {
        DetectorView { prompt, state: BoundaryView::Awaiting, pending: Seq::empty() }
    }
}

/// Whether one byte sequence begins with another.
pub open spec fn starts_with(s: Seq<u8>, p: Seq<u8>) -> bool {
    p.len() <= s.len() && s.take(p.len() as int) == p
}

/// Lines joined by a single line feed between neighbours.
pub open spec fn join_lines(ls: Seq<Seq<u8>>) -> Seq<u8>
    decreases ls.len(),
{
    if ls.len() == 0 {
        Seq::empty()
    } else if ls.len() == 1 {
        ls[0]
    } else {
        join_lines(ls.drop_last()) + seq![LINE_FEED] + ls.last()
    }
}

/// Whether the prompt marker on the current line counts as a boundary:
/// always for the very first sighting, afterwards only once the scrollback
/// has grown past the last boundary.
pub open spec fn boundary_ready(st: BoundaryView, scrollback_len: nat) -> bool {
    match st {
        BoundaryView::Awaiting => true,
        BoundaryView::Tracking(n) => scrollback_len > n,
    }
}

/// Result of one detector update: the new detector state and the completed
/// command output emitted, if any.
pub ghost struct DetectOutcome {
    pub det: DetectorView,
    pub emit: Option<Seq<u8>>,
}

/// One detector update against a terminal state, given the snapshot taken
/// before the byte that caused the update.
///
/// A boundary (current line equal to the prompt, and ready) records the new
/// scrollback length; the first one emits nothing, later ones emit the
/// pending lines joined by line feeds and clear them. Otherwise, if a line
/// was just finalized and the first prompt has been seen, that line joins
/// the pending output unless it starts with the prompt marker, which marks
/// it as an echoed command line.
pub open spec fn detect_step(d: DetectorView, t: TermView, prev: SnapView) -> DetectOutcome {
    if t.line == d.prompt && boundary_ready(d.state, t.scrollback.len()) {
        match d.state {
            BoundaryView::Awaiting => DetectOutcome {
                det: DetectorView {
                    prompt: d.prompt,
                    state: BoundaryView::Tracking(t.scrollback.len()),
                    pending: d.pending,
                },
                emit: None,
            },
            BoundaryView::Tracking(_) => DetectOutcome {
                det: DetectorView {
                    prompt: d.prompt,
                    state: BoundaryView::Tracking(t.scrollback.len()),
                    pending: Seq::empty(),
                },
                emit: Some(join_lines(d.pending)),
            },
        }
    } else if t.scrollback.len() > prev.scrollback_len && d.state is Tracking {
        if !starts_with(t.scrollback.last(), d.prompt) {
            DetectOutcome {
                det: DetectorView {
                    prompt: d.prompt,
                    state: d.state,
                    pending: d.pending.push(t.scrollback.last()),
                },
                emit: None,
            }
        } else {
            DetectOutcome { det: d, emit: None }
        }
    } else {
        DetectOutcome { det: d, emit: None }
    }
}

/// The view of an optional emitted output.
pub open spec fn emit_view(e: Option<Vec<u8>>) -> Option<Seq<u8>> {
    match e {
        Some(v) => Some(v@),
        None => None,
    }
}

/// Whether two byte slices hold the same bytes.
pub fn bytes_eq(a: &[u8], b: &[u8]) -> (r: bool)
    ensures
        r == (a@ == b@),
{
    if a.len() != b.len() {
        proof {
            assert(a@ != b@);
        }
        return false;
    }
    let mut i: usize = 0;
    while i < a.len()
        invariant
            a.len() == b.len(),
            i <= a.len(),
            forall|j: int| 0 <= j < i ==> a@[j] == b@[j],
        decreases a.len() - i,
    {
        if a[i] != b[i] {
            proof {
                assert(a@ != b@);
            }
            return false;
        }
        i += 1;
    }
    proof {
        assert(a@ =~= b@);
    }
    true
}

/// Whether a byte slice begins with another.
pub fn bytes_start_with(s: &[u8], p: &[u8]) -> (r: bool)
    ensures
        r == starts_with(s@, p@),
{
    if p.len() > s.len() {
        proof {
            assert(!starts_with(s@, p@));
        }
        return false;
    }
    let mut i: usize = 0;
    while i < p.len()
        invariant
            p.len() <= s.len(),
            i <= p.len(),
            forall|j: int| 0 <= j < i ==> s@[j] == p@[j],
        decreases p.len() - i,
    {
        if s[i] != p[i] {
            proof {
                assert(s@.take(p@.len() as int)[i as int] != p@[i as int]);
            }
            return false;
        }
        i += 1;
    }
    proof {
        assert(s@.take(p@.len() as int) =~= p@);
    }
    true
}

/// Pending lines joined by a single line feed between neighbours.
pub fn join_pending(ls: &Vec<Vec<u8>>) -> (r: Vec<u8>)
    ensures
        r@ == join_lines(ls.deep_view()),
{
    let mut r: Vec<u8> = Vec::new();
    let mut i: usize = 0;
    while i < ls.len()
        invariant
            i <= ls.len(),
            r@ == join_lines(ls.deep_view().take(i as int)),
        decreases ls.len() - i,
    {
        if i > 0 {
            r.push(LINE_FEED);
        }
        let line = &ls[i];
        let mut j: usize = 0;
        while j < line.len()
            invariant
                i < ls.len(),
                j <= line.len(),
                line@ == ls.deep_view()[i as int],
                i > 0 ==> r@ == join_lines(ls.deep_view().take(i as int)) + seq![LINE_FEED]
                    + line@.take(j as int),
                i == 0 ==> r@ == join_lines(ls.deep_view().take(i as int)) + line@.take(j as int),
            decreases line.len() - j,
        {
            r.push(line[j]);
            j += 1;
        }
        proof {
            let dv = ls.deep_view();
            assert(line@.take(line@.len() as int) =~= line@);
            assert(dv.take(i + 1).drop_last() =~= dv.take(i as int));
            assert(dv.take(i + 1).last() == dv[i as int]);
            if i == 0 {
                assert(join_lines(dv.take(1)) == dv[0]);
                assert(r@ =~= join_lines(dv.take(1)));
            } else {
                assert(join_lines(dv.take(i + 1)) == join_lines(dv.take(i as int))
                    + seq![LINE_FEED] + dv[i as int]);
                assert(r@ =~= join_lines(dv.take(i + 1)));
            }
        }
        i += 1;
    }
    proof {
        assert(ls.deep_view().take(ls.len() as int) =~= ls.deep_view());
    }
    r
}

/// The prompt-boundary detector.
pub struct Detector {
    prompt: Vec<u8>,
    state: BoundaryState,
    pending: Vec<Vec<u8>>,
}

impl View for Detector {
    type V = DetectorView;

    closed spec fn view(&self) -> DetectorView {
        DetectorView {
            prompt: self.prompt@,
            state: match self.state {
                BoundaryState::AwaitingFirstPrompt => BoundaryView::Awaiting,
                BoundaryState::Tracking(n) => BoundaryView::Tracking(n as nat),
            },
            pending: self.pending.deep_view(),
        }
    }
}

impl Detector {
    /// A fresh detector for a prompt marker, awaiting the first prompt.
    pub fn new(prompt: Vec<u8>) -> (d: Detector)
        ensures
            d@ == DetectorView::init(prompt@),
    {
        let d = Detector { prompt, state: BoundaryState::AwaitingFirstPrompt, pending: Vec::new() };
        proof {
            assert(d@.pending =~~= DetectorView::init(d@.prompt).pending);
        }
        d
    }

    /// The prompt marker this detector watches for.
    pub fn prompt(&self) -> (p: &Vec<u8>)
        ensures
            p@ == self@.prompt,
    {
        &self.prompt
    }

    /// Whether the first prompt has been seen yet.
    pub fn startup_seen(&self) -> (r: bool)
        ensures
            r == (self@.state is Tracking),
    {
        match self.state {
            BoundaryState::AwaitingFirstPrompt => false,
            BoundaryState::Tracking(_) => true,
        }
    }

    /// One detector update against the terminal, given the snapshot taken
    /// before the byte that changed it. Returns the completed command
    /// output on a post-startup boundary, and nothing otherwise.
    pub fn observe(&mut self, term: &Terminal, prev: Snapshot) -> (emit: Option<Vec<u8>>)
        ensures
            final(self)@ == detect_step(old(self)@, term@, prev@).det,
            emit_view(emit) == detect_step(old(self)@, term@, prev@).emit,
    {
        let ghost pre = self@;
        let ghost outcome = detect_step(pre, term@, prev@);
        let at_prompt = bytes_eq(term.line().as_slice(), self.prompt.as_slice());
        let sb_len = term.scrollback_len();
        let ready = match self.state {
            BoundaryState::AwaitingFirstPrompt => true,
            BoundaryState::Tracking(n) => sb_len > n,
        };
        if at_prompt && ready {
            match self.state {
                BoundaryState::AwaitingFirstPrompt => {
                    self.state = BoundaryState::Tracking(sb_len);
                    None
                },
                BoundaryState::Tracking(_) => {
                    let out = join_pending(&self.pending);
                    self.state = BoundaryState::Tracking(sb_len);
                    self.pending = Vec::new();
                    proof {
                        assert(self@.pending =~~= outcome.det.pending);
                    }
                    Some(out)
                },
            }
        } else if sb_len > prev.scrollback_len && matches!(self.state, BoundaryState::Tracking(_)) {
            let newest = term.last_scrollback();
            if !bytes_start_with(newest.as_slice(), self.prompt.as_slice()) {
                let kept = clone_bytes(newest);
                self.pending.push(kept);
                proof {
                    assert(self@.pending =~~= outcome.det.pending);
                }
                None
            } else {
                None
            }
        } else {
            None
        }
    }
}

} // verus!
