use testshell::boundary::bytes_eq;
use testshell::boundary::bytes_start_with;
use testshell::harness::Harness;

#[test]
fn startup_prompt_emits_nothing_then_command_emits_only_its_output() {
    let mut h = Harness::new(b"P> ".to_vec());
    let startup = h.process_chunk(b"P> ");
    assert_eq!(startup.len(), 0);
    assert!(h.startup_seen());
    let out = h.process_chunk(b"echo hi\nhi\nP> ");
    assert_eq!(out.len(), 1);
    assert_eq!(out[0].as_slice(), b"hi");
}

#[test]
fn sequential_commands_yield_results_in_issue_order() {
    let mut h = Harness::new(b"==> ".to_vec());
    assert_eq!(h.process_chunk(b"==> ").len(), 0);
    let mut results: Vec<Vec<u8>> = Vec::new();
    results.extend(h.process_chunk(b"cd /tmp\n==> "));
    results.extend(h.process_chunk(b"echo foo\nfoo\n==> "));
    results.extend(h.process_chunk(b"echo -e \"foo\\nbar\\nbaz\" | tac\nbaz\nbar\nfoo\n==> "));
    assert_eq!(results.len(), 3);
    assert_eq!(results[0].as_slice(), b"");
    assert_eq!(results[1].as_slice(), b"foo");
    assert_eq!(results[2].as_slice(), b"baz\nbar\nfoo");
}

#[test]
fn results_are_the_same_however_the_bytes_are_chunked() {
    let stream: &[u8] = b"==> echo foo\nfoo\n==> echo bar\nbar\n==> ";
    let mut whole = Harness::new(b"==> ".to_vec());
    let expect = whole.process_chunk(stream);
    let mut split = Harness::new(b"==> ".to_vec());
    let mut got: Vec<Vec<u8>> = Vec::new();
    for piece in stream.chunks(3) {
        got.extend(split.process_chunk(piece));
    }
    assert_eq!(expect, got);
    assert_eq!(got.len(), 2);
    assert_eq!(got[0].as_slice(), b"foo");
    assert_eq!(got[1].as_slice(), b"bar");
}

#[test]
fn retyped_prompt_without_new_output_is_not_a_boundary() {
    let mut h = Harness::new(b"P> ".to_vec());
    h.process_chunk(b"P> ");
    h.process_chunk(b"echo hi\nhi\nP> ");
    // Backspace over the trailing space and retype it: the prompt line is
    // complete again, but the scrollback has not grown since the boundary.
    let out = h.process_chunk(&[8, b' ']);
    assert_eq!(out.len(), 0);
}

#[test]
fn echoed_command_lines_are_left_out_of_the_output() {
    let mut h = Harness::new(b"$ ".to_vec());
    h.process_chunk(b"$ ");
    let out = h.process_chunk(b"printf 'a\\nb\\n'\na\nb\n$ ");
    assert_eq!(out.len(), 1);
    assert_eq!(out[0].as_slice(), b"a\nb");
}

#[test]
fn no_output_before_the_first_prompt_is_collected() {
    let mut h = Harness::new(b"P> ".to_vec());
    // A banner printed before the first prompt belongs to no command.
    let out = h.process_chunk(b"welcome\nP> ");
    assert_eq!(out.len(), 0);
    let out = h.process_chunk(b"echo hi\nhi\nP> ");
    assert_eq!(out.len(), 1);
    assert_eq!(out[0].as_slice(), b"hi");
}

#[test]
fn byte_comparisons() {
    assert!(bytes_eq(b"abc", b"abc"));
    assert!(!bytes_eq(b"abc", b"abd"));
    assert!(!bytes_eq(b"abc", b"ab"));
    assert!(bytes_start_with(b"P> echo", b"P> "));
    assert!(bytes_start_with(b"abc", b""));
    assert!(!bytes_start_with(b"P>", b"P> "));
    assert!(!bytes_start_with(b"xP> ", b"P> "));
}
