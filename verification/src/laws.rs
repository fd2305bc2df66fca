//! Laws of the capture protocol.
//!
//! These lemmas state, over the mathematical harness model, what the
//! harness delivers for a whole session: feeding the byte stream of a
//! strictly sequential sequence of commands yields exactly one result per
//! command, in issue order, each equal to that command's own output lines
//! joined by line feeds, with the echoed prompt-plus-command lines left
//! out and nothing emitted for the startup prompt.

use vstd::prelude::*;

use crate::boundary::BoundaryView;
use crate::boundary::boundary_ready;
use crate::boundary::detect_step;
use crate::boundary::join_lines;
use crate::boundary::starts_with;
use crate::harness::HarnessView;
use crate::harness::harness_run;
use crate::harness::harness_step;
use crate::harness::lemma_harness_run_concat;
use crate::terminal::ByteClass;
use crate::terminal::LINE_FEED;
use crate::terminal::byte_class;
use crate::terminal::term_step;

verus! {

/// Whether every byte of a sequence is printable.
pub open spec fn all_printable(s: Seq<u8>) -> bool {
    forall|i: int| 0 <= i < s.len() ==> byte_class(s[i]) is Printable
}

/// The harness state found right after a boundary: the prompt is on the
/// current line, the boundary counter equals the scrollback length, no
/// output is pending, and the snapshot is current.
pub open spec fn ready(h: HarnessView) -> bool {
    &&& h.wf()
    &&& h.det.prompt.len() > 0
    &&& h.term.line == h.det.prompt
    &&& h.term.cursor == h.term.line.len()
    &&& h.det.state == BoundaryView::Tracking(h.term.scrollback.len())
    &&& h.det.pending.len() == 0
    &&& h.last == h.term.snap()
}

/// Feeding printable bytes that never complete the prompt marker extends
/// the current line and nothing else: the scrollback, the detector and the
/// pending output stay as they were, and nothing is emitted.
pub proof fn lemma_feed_printable_quiet(h: HarnessView, s: Seq<u8>)
    requires
        h.wf(),
        h.term.cursor == h.term.line.len(),
        h.last == h.term.snap(),
        all_printable(s),
        forall|k: int| 1 <= k <= s.len() ==> h.term.line + #[trigger] s.take(k) != h.det.prompt,
    ensures
        harness_run(h, s).h.term.line == h.term.line + s,
        harness_run(h, s).h.term.cursor == h.term.line.len() + s.len(),
        harness_run(h, s).h.term.scrollback == h.term.scrollback,
        harness_run(h, s).h.det == h.det,
        harness_run(h, s).h.last == harness_run(h, s).h.term.snap(),
        harness_run(h, s).emits == Seq::<Seq<u8>>::empty(),
    decreases s.len(),
{
    if s.len() == 0 {
        assert(h.term.line + s =~= h.term.line);
    } else {
        let sp = s.drop_last();
        assert(all_printable(sp)) by {
            assert(forall|i: int| 0 <= i < sp.len() ==> sp[i] == s[i]);
        }
        assert(forall|k: int|
            1 <= k <= sp.len() ==> h.term.line + #[trigger] sp.take(k) != h.det.prompt) by {
            assert(forall|k: int| 1 <= k <= sp.len() ==> sp.take(k) =~= s.take(k));
        }
        lemma_feed_printable_quiet(h, sp);
        let h1 = harness_run(h, sp).h;
        let b = s.last();
        let t2 = term_step(h1.term, b);
        assert(byte_class(b) is Printable);
        assert(t2.line =~= h.term.line + s) by {
            assert(s.take(s.len() as int) =~= s);
            assert(h.term.line + sp =~= (h.term.line + s).drop_last());
        }
        assert(t2.snap() != h1.last);
        assert(t2.line != h1.det.prompt) by {
            assert(s.take(s.len() as int) =~= s);
        }
        assert(t2.scrollback.len() == h1.last.scrollback_len);
        assert(detect_step(h1.det, t2, h1.last).det == h1.det);
        assert(harness_run(h, s).emits =~~= Seq::<Seq<u8>>::empty());
    }
}

/// Feeding one line feed finalizes the current line into scrollback. With
/// the first prompt already seen, the finalized line joins the pending
/// output unless it starts with the prompt marker; nothing is emitted
/// either way, since the now-empty current line cannot equal the nonempty
/// prompt marker.
pub proof fn lemma_feed_linefeed(h: HarnessView)
    requires
        h.wf(),
        h.det.prompt.len() > 0,
        h.last == h.term.snap(),
        h.det.state is Tracking,
    ensures
        harness_run(h, seq![LINE_FEED]).h.term.line == Seq::<u8>::empty(),
        harness_run(h, seq![LINE_FEED]).h.term.cursor == 0,
        harness_run(h, seq![LINE_FEED]).h.term.scrollback == h.term.scrollback.push(h.term.line),
        harness_run(h, seq![LINE_FEED]).h.det.prompt == h.det.prompt,
        harness_run(h, seq![LINE_FEED]).h.det.state == h.det.state,
        harness_run(h, seq![LINE_FEED]).h.det.pending == (if starts_with(h.term.line, h.det.prompt) {
            h.det.pending
        } else {
            h.det.pending.push(h.term.line)
        }),
        harness_run(h, seq![LINE_FEED]).h.last == harness_run(h, seq![LINE_FEED]).h.term.snap(),
        harness_run(h, seq![LINE_FEED]).emits == Seq::<Seq<u8>>::empty(),
{
    let s = seq![LINE_FEED];
    assert(s.drop_last() =~= Seq::<u8>::empty());
    assert(harness_run(h, s.drop_last()).h == h);
    assert(s.last() == LINE_FEED);
    let t2 = term_step(h.term, LINE_FEED);
    assert(byte_class(LINE_FEED) is LineFeed);
    assert(t2.snap() != h.last);
    assert(t2.line != h.det.prompt);
    assert(t2.scrollback.len() > h.last.scrollback_len);
    assert(t2.scrollback.last() == h.term.line);
    assert(harness_run(h, s).emits =~~= Seq::<Seq<u8>>::empty());
}

/// The startup law: feeding a fresh harness the first appearance of the
/// prompt marker emits nothing. It marks shell startup, not a completed
/// command, and leaves the harness ready for the first command.
pub proof fn lemma_startup(prompt: Seq<u8>)
    requires
        prompt.len() > 0,
        all_printable(prompt),
    ensures
        harness_run(HarnessView::init(prompt), prompt).emits == Seq::<Seq<u8>>::empty(),
        ready(harness_run(HarnessView::init(prompt), prompt).h),
        harness_run(HarnessView::init(prompt), prompt).h.det.prompt == prompt,
        harness_run(HarnessView::init(prompt), prompt).h.term.scrollback == Seq::<Seq<u8>>::empty(),
{
    let h = HarnessView::init(prompt);
    let sp = prompt.drop_last();
    assert(all_printable(sp)) by {
        assert(forall|i: int| 0 <= i < sp.len() ==> sp[i] == prompt[i]);
    }
    assert(forall|k: int|
        1 <= k <= sp.len() ==> h.term.line + #[trigger] sp.take(k) != h.det.prompt) by {
        assert(forall|k: int|
            1 <= k <= sp.len() ==> (h.term.line + #[trigger] sp.take(k)).len() == k);
    }
    lemma_feed_printable_quiet(h, sp);
    let h1 = harness_run(h, sp).h;
    let b = prompt.last();
    let t2 = term_step(h1.term, b);
    assert(byte_class(b) is Printable) by {
        assert(prompt[prompt.len() - 1] == prompt.last());
    }
    assert(h1.term.line =~= sp) by {
        assert(h.term.line + sp =~= sp);
    }
    assert(t2.line =~= prompt);
    assert(t2.snap() != h1.last);
    assert(boundary_ready(h1.det.state, t2.scrollback.len()));
    assert(prompt.drop_last() =~= sp);
    assert(harness_run(h, prompt).h == harness_step(h1, b).h);
    assert(harness_run(h, prompt).emits =~~= Seq::<Seq<u8>>::empty());
}

/// One finalized output line: from an empty current line, feeding the
/// line's printable bytes and a line feed appends it to scrollback and to
/// the pending output, and emits nothing, provided the line does not start
/// with the prompt marker.
pub proof fn lemma_feed_output_line(h: HarnessView, l: Seq<u8>)
    requires
        h.wf(),
        h.det.prompt.len() > 0,
        h.term.line.len() == 0,
        h.term.cursor == 0,
        h.last == h.term.snap(),
        h.det.state is Tracking,
        all_printable(l),
        !starts_with(l, h.det.prompt),
    ensures
        harness_run(h, l + seq![LINE_FEED]).h.term.line == Seq::<u8>::empty(),
        harness_run(h, l + seq![LINE_FEED]).h.term.cursor == 0,
        harness_run(h, l + seq![LINE_FEED]).h.term.scrollback == h.term.scrollback.push(l),
        harness_run(h, l + seq![LINE_FEED]).h.det.prompt == h.det.prompt,
        harness_run(h, l + seq![LINE_FEED]).h.det.state == h.det.state,
        harness_run(h, l + seq![LINE_FEED]).h.det.pending == h.det.pending.push(l),
        harness_run(h, l + seq![LINE_FEED]).h.last == harness_run(
            h,
            l + seq![LINE_FEED],
        ).h.term.snap(),
        harness_run(h, l + seq![LINE_FEED]).emits == Seq::<Seq<u8>>::empty(),
{
    assert(forall|k: int|
        1 <= k <= l.len() ==> h.term.line + #[trigger] l.take(k) != h.det.prompt) by {
        assert forall|k: int| 1 <= k <= l.len() implies h.term.line + #[trigger] l.take(k)
            != h.det.prompt by {
            let ext = h.term.line + l.take(k);
            assert(ext =~= l.take(k));
            if ext == h.det.prompt {
                assert(k == h.det.prompt.len());
                assert(l.take(h.det.prompt.len() as int) == h.det.prompt);
                assert(starts_with(l, h.det.prompt));
            }
        }
    }
    lemma_feed_printable_quiet(h, l);
    let h1 = harness_run(h, l).h;
    assert(h1.term.line =~= l) by {
        assert(h.term.line + l =~= l);
    }
    lemma_feed_linefeed(h1);
    lemma_harness_run_concat(h, l, seq![LINE_FEED]);
    assert(!starts_with(h1.term.line, h1.det.prompt));
    assert(harness_run(h, l + seq![LINE_FEED]).h.det.pending == h.det.pending.push(l));
    assert(harness_run(h, l + seq![LINE_FEED]).emits =~~= Seq::<Seq<u8>>::empty());
}

/// The byte stream of a run of finalized lines: each line's bytes followed
/// by a line feed, in order.
pub open spec fn lines_bytes(ls: Seq<Seq<u8>>) -> Seq<u8>
    decreases ls.len(),
{
    if ls.len() == 0 {
        Seq::empty()
    } else {
        lines_bytes(ls.drop_last()) + ls.last() + seq![LINE_FEED]
    }
}

/// Whether every line of a run is printable and is not an echoed
/// prompt-plus-command line.
pub open spec fn plain_output(ls: Seq<Seq<u8>>, prompt: Seq<u8>) -> bool {
    forall|i: int|
        0 <= i < ls.len() ==> all_printable(#[trigger] ls[i]) && !starts_with(ls[i], prompt)
}

/// A whole run of finalized output lines: all of them move into scrollback
/// and into the pending output, in order, and nothing is emitted.
pub proof fn lemma_feed_output_lines(h: HarnessView, ls: Seq<Seq<u8>>)
    requires
        h.wf(),
        h.det.prompt.len() > 0,
        h.term.line.len() == 0,
        h.term.cursor == 0,
        h.last == h.term.snap(),
        h.det.state is Tracking,
        plain_output(ls, h.det.prompt),
    ensures
        harness_run(h, lines_bytes(ls)).h.term.line == Seq::<u8>::empty(),
        harness_run(h, lines_bytes(ls)).h.term.cursor == 0,
        harness_run(h, lines_bytes(ls)).h.term.scrollback == h.term.scrollback + ls,
        harness_run(h, lines_bytes(ls)).h.det.prompt == h.det.prompt,
        harness_run(h, lines_bytes(ls)).h.det.state == h.det.state,
        harness_run(h, lines_bytes(ls)).h.det.pending == h.det.pending + ls,
        harness_run(h, lines_bytes(ls)).h.last == harness_run(h, lines_bytes(ls)).h.term.snap(),
        harness_run(h, lines_bytes(ls)).emits == Seq::<Seq<u8>>::empty(),
    decreases ls.len(),
{
    if ls.len() == 0 {
        assert(lines_bytes(ls) =~= Seq::<u8>::empty());
        assert(harness_run(h, lines_bytes(ls)).h == h);
        assert(h.term.scrollback + ls =~~= h.term.scrollback);
        assert(h.det.pending + ls =~~= h.det.pending);
    } else {
        let lp = ls.drop_last();
        assert(plain_output(lp, h.det.prompt)) by {
            assert(forall|i: int| 0 <= i < lp.len() ==> lp[i] == ls[i]);
        }
        lemma_feed_output_lines(h, lp);
        let h1 = harness_run(h, lines_bytes(lp)).h;
        lemma_feed_output_line(h1, ls.last());
        lemma_harness_run_concat(h, lines_bytes(lp), ls.last() + seq![LINE_FEED]);
        assert(lines_bytes(lp) + (ls.last() + seq![LINE_FEED]) =~= lines_bytes(ls));
        assert(harness_run(h, lines_bytes(ls)).h.term.scrollback =~~= h.term.scrollback + ls);
        assert(harness_run(h, lines_bytes(ls)).h.det.pending =~~= h.det.pending + ls);
        assert(harness_run(h, lines_bytes(ls)).emits =~~= Seq::<Seq<u8>>::empty());
    }
}

/// The prompt reappears after at least one line was finalized since the
/// last boundary: this is a boundary. The pending lines are emitted as one
/// completed command output, joined by line feeds, and the harness is
/// ready again.
pub proof fn lemma_feed_prompt_boundary(h: HarnessView)
    requires
        h.wf(),
        h.det.prompt.len() > 0,
        all_printable(h.det.prompt),
        h.term.line.len() == 0,
        h.term.cursor == 0,
        h.last == h.term.snap(),
        h.det.state matches BoundaryView::Tracking(n) && n < h.term.scrollback.len(),
    ensures
        harness_run(h, h.det.prompt).emits == seq![join_lines(h.det.pending)],
        ready(harness_run(h, h.det.prompt).h),
        harness_run(h, h.det.prompt).h.det.prompt == h.det.prompt,
        harness_run(h, h.det.prompt).h.term.scrollback == h.term.scrollback,
{
    let prompt = h.det.prompt;
    let sp = prompt.drop_last();
    assert(all_printable(sp)) by {
        assert(forall|i: int| 0 <= i < sp.len() ==> sp[i] == prompt[i]);
    }
    assert(forall|k: int|
        1 <= k <= sp.len() ==> h.term.line + #[trigger] sp.take(k) != h.det.prompt) by {
        assert(forall|k: int|
            1 <= k <= sp.len() ==> (h.term.line + #[trigger] sp.take(k)).len() == k);
    }
    lemma_feed_printable_quiet(h, sp);
    let h1 = harness_run(h, sp).h;
    let b = prompt.last();
    let t2 = term_step(h1.term, b);
    assert(byte_class(b) is Printable) by {
        assert(prompt[prompt.len() - 1] == prompt.last());
    }
    assert(h1.term.line =~= sp) by {
        assert(h.term.line + sp =~= sp);
    }
    assert(t2.line =~= prompt);
    assert(t2.snap() != h1.last);
    assert(boundary_ready(h1.det.state, t2.scrollback.len()));
    assert(prompt.drop_last() =~= sp);
    assert(harness_run(h, prompt).h == harness_step(h1, b).h);
    assert(harness_run(h, prompt).emits =~~= seq![join_lines(h.det.pending)]);
}

/// One command as the shell writes it back to the terminal: the echoed
/// command characters finishing the echoed prompt-plus-command line, the
/// command's own output lines, and the reappearing prompt marker.
pub open spec fn command_bytes(cmd: Seq<u8>, outputs: Seq<Seq<u8>>, prompt: Seq<u8>) -> Seq<u8> {
    cmd + seq![LINE_FEED] + lines_bytes(outputs) + prompt
}

/// Whether a command and its output lines are within the harness's
/// contract: all printable, and no output line starting with the prompt
/// marker (a command must not produce output that looks like the prompt).
pub open spec fn good_command(cmd: Seq<u8>, outputs: Seq<Seq<u8>>, prompt: Seq<u8>) -> bool {
    all_printable(cmd) && plain_output(outputs, prompt)
}

/// The single-command law: from a ready harness, one command's byte
/// stream emits exactly one result, equal to the command's own output
/// lines joined by line feeds. The echoed prompt-plus-command line is left
/// out, and the harness is ready for the next command.
pub proof fn lemma_one_command(h: HarnessView, cmd: Seq<u8>, outputs: Seq<Seq<u8>>)
    requires
        ready(h),
        all_printable(h.det.prompt),
        good_command(cmd, outputs, h.det.prompt),
    ensures
        harness_run(h, command_bytes(cmd, outputs, h.det.prompt)).emits == seq![
            join_lines(outputs),
        ],
        ready(harness_run(h, command_bytes(cmd, outputs, h.det.prompt)).h),
        harness_run(h, command_bytes(cmd, outputs, h.det.prompt)).h.det.prompt == h.det.prompt,
{
    let prompt = h.det.prompt;
    // The echoed command characters extend the prompt line, which stays
    // longer than the prompt marker and so never completes it again.
    assert(forall|k: int|
        1 <= k <= cmd.len() ==> h.term.line + #[trigger] cmd.take(k) != prompt) by {
        assert(forall|k: int|
            1 <= k <= cmd.len() ==> (h.term.line + #[trigger] cmd.take(k)).len() == prompt.len()
                + k);
    }
    lemma_feed_printable_quiet(h, cmd);
    let h1 = harness_run(h, cmd).h;
    // The line feed finalizes the echoed line, which starts with the
    // prompt marker and is therefore not collected as output.
    assert(starts_with(h1.term.line, prompt)) by {
        assert((prompt + cmd).take(prompt.len() as int) =~= prompt);
    }
    lemma_feed_linefeed(h1);
    lemma_harness_run_concat(h, cmd, seq![LINE_FEED]);
    assert(cmd + seq![LINE_FEED] =~= (cmd + seq![LINE_FEED]));
    let s1 = cmd + seq![LINE_FEED];
    let h2 = harness_run(h, s1).h;
    assert(h2.det.pending == h.det.pending);
    assert(h2.det.pending =~~= Seq::<Seq<u8>>::empty());
    assert(h2.term.scrollback == h.term.scrollback.push(h.term.line + cmd));
    // The output lines accumulate as pending output.
    lemma_feed_output_lines(h2, outputs);
    lemma_harness_run_concat(h, s1, lines_bytes(outputs));
    let s2 = s1 + lines_bytes(outputs);
    let h3 = harness_run(h, s2).h;
    assert(h3.det.pending =~~= outputs);
    // The reappearing prompt is a boundary: the pending lines come out as
    // the one completed result.
    assert(h3.det.state matches BoundaryView::Tracking(n) && n < h3.term.scrollback.len());
    lemma_feed_prompt_boundary(h3);
    lemma_harness_run_concat(h, s2, prompt);
    assert(s2 + prompt =~= command_bytes(cmd, outputs, prompt));
    assert(harness_run(h, command_bytes(cmd, outputs, prompt)).emits =~~= seq![
        join_lines(outputs),
    ]);
    assert(join_lines(h3.det.pending) == join_lines(outputs));
}

/// One scripted command: what is typed, and the output lines the shell
/// writes back for it.
pub ghost struct CommandScript {
    pub cmd: Seq<u8>,
    pub outputs: Seq<Seq<u8>>,
}

/// The byte stream of a whole scripted session after startup, command by
/// command.
pub open spec fn session_bytes(script: Seq<CommandScript>, prompt: Seq<u8>) -> Seq<u8>
    decreases script.len(),
{
    if script.len() == 0 {
        Seq::empty()
    } else {
        session_bytes(script.drop_last(), prompt) + command_bytes(
            script.last().cmd,
            script.last().outputs,
            prompt,
        )
    }
}

/// The results owed for a scripted session: one per command, in issue
/// order, each the command's own output lines joined by line feeds.
pub open spec fn session_results(script: Seq<CommandScript>) -> Seq<Seq<u8>> {
    Seq::new(script.len(), |i: int| join_lines(script[i].outputs))
}

/// Whether every command of a script is within the harness's contract.
pub open spec fn good_script(script: Seq<CommandScript>, prompt: Seq<u8>) -> bool {
    forall|i: int|
        0 <= i < script.len() ==> good_command(
            (#[trigger] script[i]).cmd,
            script[i].outputs,
            prompt,
        )
}

/// The session law: from a ready harness, a script of N commands run
/// strictly in sequence yields exactly N results, delivered in issue
/// order, each equal to that command's own output lines joined by line
/// feeds and nothing else's.
pub proof fn lemma_session(h: HarnessView, script: Seq<CommandScript>)
    requires
        ready(h),
        all_printable(h.det.prompt),
        good_script(script, h.det.prompt),
    ensures
        harness_run(h, session_bytes(script, h.det.prompt)).emits == session_results(script),
        ready(harness_run(h, session_bytes(script, h.det.prompt)).h),
        harness_run(h, session_bytes(script, h.det.prompt)).h.det.prompt == h.det.prompt,
    decreases script.len(),
{
    let prompt = h.det.prompt;
    if script.len() == 0 {
        assert(session_bytes(script, prompt) =~= Seq::<u8>::empty());
        assert(harness_run(h, session_bytes(script, prompt)).h == h);
        assert(harness_run(h, session_bytes(script, prompt)).emits =~~= session_results(script));
    } else {
        let sp = script.drop_last();
        assert(good_script(sp, prompt)) by {
            assert(forall|i: int| 0 <= i < sp.len() ==> sp[i] == script[i]);
        }
        lemma_session(h, sp);
        let h1 = harness_run(h, session_bytes(sp, prompt)).h;
        lemma_one_command(h1, script.last().cmd, script.last().outputs);
        lemma_harness_run_concat(
            h,
            session_bytes(sp, prompt),
            command_bytes(script.last().cmd, script.last().outputs, prompt),
        );
        assert(harness_run(h, session_bytes(script, prompt)).emits =~~= session_results(script))
            by {
            assert(forall|i: int| 0 <= i < sp.len() ==> sp[i] == script[i]);
        }
    }
}

} // verus!
