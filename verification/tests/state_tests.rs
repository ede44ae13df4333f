use algo::state::{line_has_marker, split_lines, state, ContextLine, State};

fn pending_source() -> Vec<u8> {
    b"fn main() {\n    // work in progress\n    // I AM NOT DONE\n    todo();\n    more();\n}\n"
        .to_vec()
}

fn done_source() -> Vec<u8> {
    b"fn main() {\n    // work in progress\n    done();\n}\n".to_vec()
}

fn window_of(st: &State) -> &Vec<ContextLine> {
    match st {
        State::Pending(ctx) => ctx,
        State::Done => panic!("expected a pending source"),
    }
}

#[test]
fn marker_makes_the_source_pending_with_its_line_number() {
    let st = state(&pending_source());
    let ctx = window_of(&st);
    // the marker sits on line 3; the window runs two lines either side
    let numbers: Vec<usize> = ctx.iter().map(|c| c.number).collect();
    assert_eq!(numbers, [1, 2, 3, 4, 5]);
    for line in ctx.iter() {
        assert_eq!(line.important, line.number == 3);
    }
    assert_eq!(ctx[2].line, b"    // I AM NOT DONE".to_vec());
    assert_eq!(ctx[0].line, b"fn main() {".to_vec());
}

#[test]
fn removing_the_marker_makes_the_source_done() {
    assert!(matches!(state(&done_source()), State::Done));
}

#[test]
fn the_scan_is_idempotent_on_an_unchanged_source() {
    let src = pending_source();
    let first = state(&src);
    let second = state(&src);
    let (a, b) = (window_of(&first), window_of(&second));
    assert_eq!(a.len(), b.len());
    for (x, y) in a.iter().zip(b.iter()) {
        assert_eq!(x.line, y.line);
        assert_eq!(x.number, y.number);
        assert_eq!(x.important, y.important);
    }
    assert!(matches!(state(&done_source()), State::Done));
    assert!(matches!(state(&done_source()), State::Done));
}

#[test]
fn marker_on_the_first_line_clips_the_window_at_the_top() {
    let src = b"// I AM NOT DONE\nfn main() {}\nlast\n".to_vec();
    let ctx = state(&src);
    let ctx = window_of(&ctx);
    let numbers: Vec<usize> = ctx.iter().map(|c| c.number).collect();
    assert_eq!(numbers, [1, 2, 3]);
    assert!(ctx[0].important);
}

#[test]
fn marker_on_the_last_line_clips_the_window_at_the_bottom() {
    let src = b"one\ntwo\nthree\nfour\n// I AM NOT DONE".to_vec();
    let ctx = state(&src);
    let ctx = window_of(&ctx);
    let numbers: Vec<usize> = ctx.iter().map(|c| c.number).collect();
    assert_eq!(numbers, [3, 4, 5]);
    assert!(ctx[2].important);
}

#[test]
fn the_first_marker_line_wins() {
    let src = b"a\n// I AM NOT DONE\nb\n// I AM NOT DONE\nc\n".to_vec();
    let ctx = state(&src);
    let ctx = window_of(&ctx);
    for line in ctx.iter() {
        assert_eq!(line.important, line.number == 2);
    }
}

#[test]
fn an_empty_source_is_done() {
    assert!(matches!(state(&Vec::new()), State::Done));
}

#[test]
fn marker_detection_is_exact() {
    assert!(line_has_marker(&b"  // I AM NOT DONE  ".to_vec()));
    assert!(!line_has_marker(&b"// I AM NOT DON".to_vec()));
    assert!(!line_has_marker(&b"I AM NOT DONE".to_vec()));
    assert!(!line_has_marker(&b"".to_vec()));
}

#[test]
fn lines_split_on_line_feeds() {
    let lines = split_lines(&b"a\nbb\n\nccc".to_vec());
    let texts: Vec<Vec<u8>> = lines;
    assert_eq!(
        texts,
        vec![b"a".to_vec(), b"bb".to_vec(), b"".to_vec(), b"ccc".to_vec()],
    );
}
