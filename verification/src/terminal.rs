//! Line-oriented terminal state machine.
//!
//! Consumes one byte at a time and maintains a current editable line with a
//! cursor, plus an append-only scrollback of finalized lines. Only the
//! control bytes that affect line reconstruction (line feed, carriage
//! return, backspace) are interpreted; tab is kept as an ordinary inserted
//! character and every other control byte is discarded.

use vstd::prelude::*;

verus! {

/// Line feed, the byte that finalizes the current line.
pub const LINE_FEED: u8 = 10;

/// Carriage return, the byte that moves the cursor to column zero.
pub const CARRIAGE_RETURN: u8 = 13;

/// Backspace, the byte that deletes the character before the cursor.
pub const BACKSPACE: u8 = 8;

/// Horizontal tab, kept as an ordinary inserted character.
pub const TAB: u8 = 9;

/// What a single input byte means to the line reconstruction.
#[derive(Clone, Copy, PartialEq, Eq, Structural, Debug)]
pub enum ByteClass {
    /// An ordinary character: written at the cursor position.
    Printable,
    /// Finalizes the current line into scrollback.
    LineFeed,
    /// Moves the cursor back to column zero.
    CarriageReturn,
    /// Deletes the character before the cursor.
    Backspace,
    /// Any other control byte: accepted and discarded.
    Ignored,
}

/// Classification of a byte: printable ASCII (and tab) is written to the
/// line, three control bytes are interpreted, everything else is ignored.
pub open spec fn byte_class(b: u8) -> ByteClass {
    if b == LINE_FEED {
        ByteClass::LineFeed
    } else if b == CARRIAGE_RETURN {
        ByteClass::CarriageReturn
    } else if b == BACKSPACE {
        ByteClass::Backspace
    } else if b == TAB || (0x20 <= b && b <= 0x7e) {
        ByteClass::Printable
    } else {
        ByteClass::Ignored
    }
}

/// Executable byte classification.
pub fn classify(b: u8) -> (c: ByteClass)
    ensures
        c == byte_class(b),
{
    if b == LINE_FEED {
        ByteClass::LineFeed
    } else if b == CARRIAGE_RETURN {
        ByteClass::CarriageReturn
    } else if b == BACKSPACE {
        ByteClass::Backspace
    } else if b == TAB || (0x20 <= b && b <= 0x7e) {
        ByteClass::Printable
    } else {
        ByteClass::Ignored
    }
}

/// Mathematical state of the terminal: the current line, the cursor offset
/// into it, and the finalized lines in order.
pub ghost struct TermView {
    pub line: Seq<u8>,
    pub cursor: nat,
    pub scrollback: Seq<Seq<u8>>,
}

/// Mathematical snapshot: the pair of lengths used for cheap change
/// detection.
pub ghost struct SnapView {
    pub line_len: nat,
    pub scrollback_len: nat,
}

impl TermView {
    /// The cursor never runs past the end of the current line.
    pub open spec fn wf(self) -> bool {
        self.cursor <= self.line.len()
    }

    /// The state of a freshly created terminal: everything empty.
    pub open spec fn init() -> TermView {
        TermView { line: Seq::empty(), cursor: 0, scrollback: Seq::empty() }
    }

    /// The observable-change snapshot of this state.
    pub open spec fn snap(self) -> SnapView {
        SnapView { line_len: self.line.len(), scrollback_len: self.scrollback.len() }
    }
}

/// One step of the terminal state machine on one input byte.
///
/// A printable byte overwrites the character at the cursor (or appends at
/// the end of the line) and advances the cursor; a line feed moves the
/// current line into scrollback and empties it; a carriage return rewinds
/// the cursor without erasing, so later printable bytes overwrite the
/// prefix while the unwritten suffix survives; a backspace removes the
/// character before the cursor; every other byte leaves the state alone.
pub open spec fn term_step(t: TermView, b: u8) -> TermView {
    match byte_class(b) {
        ByteClass::Printable => TermView {
            line: if t.cursor < t.line.len() {
                t.line.update(t.cursor as int, b)
            } else {
                t.line.push(b)
            },
            cursor: t.cursor + 1,
            scrollback: t.scrollback,
        },
        ByteClass::LineFeed => TermView {
            line: Seq::empty(),
            cursor: 0,
            scrollback: t.scrollback.push(t.line),
        },
        ByteClass::CarriageReturn => TermView { line: t.line, cursor: 0, scrollback: t.scrollback },
        ByteClass::Backspace => if t.cursor > 0 {
            TermView {
                line: t.line.remove(t.cursor - 1),
                cursor: (t.cursor - 1) as nat,
                scrollback: t.scrollback,
            }
        } else {
            t
        },
        ByteClass::Ignored => t,
    }
}

/// The terminal state reached by feeding a whole byte sequence, in order.
pub open spec fn term_run(t: TermView, s: Seq<u8>) -> TermView
    decreases s.len(),
{
    if s.len() == 0 {
        t
    } else {
        term_step(term_run(t, s.drop_last()), s.last())
    }
}

/// One step keeps the machine well formed.
pub proof fn lemma_term_step_wf(t: TermView, b: u8)
    requires
        t.wf(),
    ensures
        term_step(t, b).wf(),
{
}

/// A whole run keeps the machine well formed.
pub proof fn lemma_term_run_wf(t: TermView, s: Seq<u8>)
    requires
        t.wf(),
    ensures
        term_run(t, s).wf(),
    decreases s.len(),
{
    if s.len() > 0 {
        lemma_term_run_wf(t, s.drop_last());
        lemma_term_step_wf(term_run(t, s.drop_last()), s.last());
    }
}

/// Scrollback is append-only: no byte ever removes or rewrites a
/// finalized line.
pub proof fn lemma_scrollback_append_only(t: TermView, b: u8)
    ensures
        t.scrollback.is_prefix_of(term_step(t, b).scrollback),
{
    if byte_class(b) is LineFeed {
        assert(t.scrollback.push(t.line).take(t.scrollback.len() as int) =~= t.scrollback);
    } else {
        assert(t.scrollback.take(t.scrollback.len() as int) =~= t.scrollback);
    }
}

/// Scrollback never shrinks over a whole run.
pub proof fn lemma_scrollback_never_shrinks(t: TermView, s: Seq<u8>)
    ensures
        t.scrollback.is_prefix_of(term_run(t, s).scrollback),
    decreases s.len(),
{
    if s.len() == 0 {
        assert(t.scrollback.take(t.scrollback.len() as int) =~= t.scrollback);
    } else {
        lemma_scrollback_never_shrinks(t, s.drop_last());
        let mid = term_run(t, s.drop_last());
        lemma_scrollback_append_only(mid, s.last());
        assert(term_run(t, s).scrollback.take(t.scrollback.len() as int) =~=
            t.scrollback);
    }
}

/// Extending the fed prefix by one byte is one step of the machine.
pub proof fn lemma_term_run_step(t: TermView, s: Seq<u8>, i: int)
    requires
        0 <= i < s.len(),
    ensures
        term_run(t, s.take(i + 1)) == term_step(term_run(t, s.take(i)), s[i]),
{
    assert(s.take(i + 1).drop_last() =~= s.take(i));
    assert(s.take(i + 1).last() == s[i]);
}

/// A byte sequence split on line feeds: the finished lines, in order, and
/// the trailing text after the last line feed.
pub ghost struct SplitText {
    pub lines: Seq<Seq<u8>>,
    pub rest: Seq<u8>,
}

/// Splitting a byte sequence on line feeds: each line feed finishes a line,
/// every other byte extends the trailing text.
pub open spec fn split_text(s: Seq<u8>) -> SplitText
    decreases s.len(),
{
    if s.len() == 0 {
        SplitText { lines: Seq::empty(), rest: Seq::empty() }
    } else {
        let p = split_text(s.drop_last());
        if s.last() == LINE_FEED {
            SplitText { lines: p.lines.push(p.rest), rest: Seq::empty() }
        } else {
            SplitText { lines: p.lines, rest: p.rest.push(s.last()) }
        }
    }
}

/// Whether a byte stream is plain text: printable characters and line
/// feeds only, with no cursor movement.
pub open spec fn plain_text(s: Seq<u8>) -> bool {
    forall|i: int| 0 <= i < s.len() ==> byte_class(s[i]) is Printable || s[i] == LINE_FEED
}

/// Feeding plain text into a fresh terminal reconstructs exactly the split
/// of that text on line feeds: the scrollback is the finished lines in
/// order, and the current line is the trailing text. In particular, for a
/// stream terminated by a line feed, the scrollback is the whole stream
/// split on line feeds.
pub proof fn lemma_plain_text_reconstruction(s: Seq<u8>)
    requires
        plain_text(s),
    ensures
        term_run(TermView::init(), s).scrollback == split_text(s).lines,
        term_run(TermView::init(), s).line == split_text(s).rest,
        term_run(TermView::init(), s).cursor == split_text(s).rest.len(),
    decreases s.len(),
{
    if s.len() == 0 {
    } else {
        assert(plain_text(s.drop_last())) by {
            assert(forall|i: int|
                0 <= i < s.drop_last().len() ==> s.drop_last()[i] == s[i]);
        }
        lemma_plain_text_reconstruction(s.drop_last());
        let t = term_run(TermView::init(), s.drop_last());
        let b = s.last();
        if b == LINE_FEED {
            assert(term_run(TermView::init(), s).scrollback =~~= split_text(s).lines);
        } else {
            assert(byte_class(b) is Printable);
            assert(term_run(TermView::init(), s).line =~= split_text(s).rest);
        }
    }
}

/// Executable snapshot: the two lengths a change check compares.
#[derive(Clone, Copy, PartialEq, Eq, Structural, Debug)]
pub struct Snapshot {
    pub line_len: usize,
    pub scrollback_len: usize,
}

impl View for Snapshot {
    type V = SnapView;

    open spec fn view(&self) -> SnapView {
        SnapView { line_len: self.line_len as nat, scrollback_len: self.scrollback_len as nat }
    }
}

/// The terminal state machine: current line, cursor, scrollback.
pub struct Terminal {
    current_line: Vec<u8>,
    cursor: usize,
    scrollback: Vec<Vec<u8>>,
}

impl View for Terminal {
    type V = TermView;

    closed spec fn view(&self) -> TermView {
        TermView {
            line: self.current_line@,
            cursor: self.cursor as nat,
            scrollback: self.scrollback.deep_view(),
        }
    }
}

/// A byte-for-byte copy of a byte vector.
pub(crate) fn clone_bytes(v: &Vec<u8>) -> (r: Vec<u8>)
    ensures
        r@ == v@,
{
    let mut r: Vec<u8> = Vec::new();
    let mut i: usize = 0;
    while i < v.len()
        invariant
            i <= v.len(),
            r@ == v@.take(i as int),
        decreases v.len() - i,
    {
        r.push(v[i]);
        i += 1;
    }
    assert(v@.take(v.len() as int) =~= v@);
    r
}

impl Terminal {
    /// A fresh terminal: empty line, cursor at zero, empty scrollback.
    pub fn new() -> (t: Terminal)
        ensures
            t@ == TermView::init(),
            t@.wf(),
    {
        let t = Terminal { current_line: Vec::new(), cursor: 0, scrollback: Vec::new() };
        proof {
            assert(t@.line =~= TermView::init().line);
            assert(t@.scrollback =~= TermView::init().scrollback);
        }
        t
    }

    /// The current observable-change snapshot.
    pub fn snapshot(&self) -> (s: Snapshot)
        ensures
            s@ == self@.snap(),
    {
        Snapshot { line_len: self.current_line.len(), scrollback_len: self.scrollback.len() }
    }

    /// The current, not yet finalized line.
    pub fn line(&self) -> (l: &Vec<u8>)
        ensures
            l@ == self@.line,
    {
        &self.current_line
    }

    /// How many lines have been finalized so far.
    pub fn scrollback_len(&self) -> (n: usize)
        ensures
            n == self@.scrollback.len(),
    {
        self.scrollback.len()
    }

    /// The most recently finalized line.
    pub fn last_scrollback(&self) -> (l: &Vec<u8>)
        requires
            self@.scrollback.len() > 0,
        ensures
            l@ == self@.scrollback.last(),
    {
        &self.scrollback[self.scrollback.len() - 1]
    }

    /// A finalized line by position, oldest first.
    pub fn scrollback_at(&self, i: usize) -> (l: &Vec<u8>)
        requires
            i < self@.scrollback.len(),
        ensures
            l@ == self@.scrollback[i as int],
    {
        &self.scrollback[i]
    }

    /// Advance the machine by one input byte.
    pub fn process_byte(&mut self, b: u8)
        requires
            old(self)@.wf(),
        ensures
            final(self)@ == term_step(old(self)@, b),
            final(self)@.wf(),
    {
        let ghost pre = self@;
        match classify(b) {
            ByteClass::Printable => {
                if self.cursor < self.current_line.len() {
                    self.current_line[self.cursor] = b;
                    self.cursor += 1;
                } else {
                    self.current_line.push(b);
                    self.cursor = self.current_line.len();
                }
                proof {
                    assert(self@.scrollback =~~= term_step(pre, b).scrollback);
                }
            },
            ByteClass::LineFeed => {
                let finished = clone_bytes(&self.current_line);
                self.scrollback.push(finished);
                self.current_line.clear();
                self.cursor = 0;
                proof {
                    assert(self@.line =~= term_step(pre, b).line);
                    assert(self@.scrollback =~~= term_step(pre, b).scrollback);
                }
            },
            ByteClass::CarriageReturn => {
                self.cursor = 0;
                proof {
                    assert(self@.scrollback =~~= term_step(pre, b).scrollback);
                }
            },
            ByteClass::Backspace => {
                if self.cursor > 0 {
                    self.cursor -= 1;
                    self.current_line.remove(self.cursor);
                }
                proof {
                    assert(self@.scrollback =~~= term_step(pre, b).scrollback);
                }
            },
            ByteClass::Ignored => {
                proof {
                    assert(self@.scrollback =~~= term_step(pre, b).scrollback);
                }
            },
        }
        assert(self@ =~~= term_step(pre, b));
    }

    /// Feed a whole chunk of bytes, in order.
    pub fn feed(&mut self, buf: &[u8])
        requires
            old(self)@.wf(),
        ensures
            final(self)@ == term_run(old(self)@, buf@),
            final(self)@.wf(),
    {
        let ghost pre = self@;
        let mut i: usize = 0;
        while i < buf.len()
            invariant
                i <= buf.len(),
                pre.wf(),
                self@ == term_run(pre, buf@.take(i as int)),
                self@.wf(),
            decreases buf.len() - i,
        {
            proof {
                lemma_term_run_step(pre, buf@, i as int);
            }
            self.process_byte(buf[i]);
            i += 1;
        }
        assert(buf@.take(buf.len() as int) =~= buf@);
    }
}

} // verus!
