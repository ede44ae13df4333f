//! The completion marker scan: an exercise's source is re-read on every check
//! and scanned for the literal not-done marker.  Without the marker the
//! exercise is `Done`; with it, a window of the surrounding lines is
//! returned so the user can find what is left to do.

use vstd::prelude::*;

verus! {

/// Byte value of a line feed, the line separator the scan splits on.
pub const NEWLINE: u8 = 10;

/// One displayed line of the context window around the marker.
pub struct ContextLine {
    pub line: Vec<u8>,
    pub number: usize,
    pub important: bool,
}

/// What the completion scan decides for one source file.
pub enum State {
    Done,
    Pending(Vec<ContextLine>),
}

/// The not-done marker, byte for byte: the text `// I AM NOT DONE`.
pub open spec fn marker() -> Seq<u8> {
    seq![
        '/' as u8, '/' as u8, ' ' as u8,
        'I' as u8, ' ' as u8,
        'A' as u8, 'M' as u8, ' ' as u8,
        'N' as u8, 'O' as u8, 'T' as u8, ' ' as u8,
        'D' as u8, 'O' as u8, 'N' as u8, 'E' as u8,
    ]
}

/// The marker occurs in `s` starting at byte `i`.
pub open spec fn marker_at(s: Seq<u8>, i: int) -> bool {
    &&& 0 <= i
    &&& i + marker().len() <= s.len()
    &&& s.subrange(i, i + marker().len() as int) == marker()
}

/// The marker occurs somewhere in `s`.
pub open spec fn has_marker(s: Seq<u8>) -> bool {
    exists|i: int| marker_at(s, i)
}

/// Index of the first line feed in `s`, or `s.len()` when there is none.
pub open spec fn first_newline(s: Seq<u8>) -> nat
    decreases s.len(),
{
    if s.len() == 0 {
        0
    } else if s[0] == NEWLINE {
        0
    } else {
        1 + first_newline(s.skip(1))
    }
}

/// `first_newline` is pinned down by its characteristic properties.
proof fn lemma_first_newline_is(s: Seq<u8>, m: nat)
    requires
        m <= s.len(),
        forall|j: int| 0 <= j < m ==> s[j] != NEWLINE,
        m < s.len() ==> s[m as int] == NEWLINE,
    ensures
        first_newline(s) == m,
    decreases s.len(),
{
    if m == 0 {
    } else {
        assert(s[0] != NEWLINE);
        assert forall|j: int| 0 <= j < m - 1 implies s.skip(1)[j] != NEWLINE by {
            assert(s.skip(1)[j] == s[j + 1]);
        }
        if m < s.len() {
            assert(s.skip(1)[m - 1] == s[m as int]);
        }
        lemma_first_newline_is(s.skip(1), (m - 1) as nat);
    }
}

/// The lines of a source text: maximal runs of bytes between line feeds.
/// A text without any line feed is a single line; each line feed ends a
/// line, and what follows the last line feed is the final line (so a
/// trailing line feed yields an empty final line).
pub open spec fn spec_lines(s: Seq<u8>) -> Seq<Seq<u8>>
    decreases s.len(),
{
    let k = first_newline(s);
    if k >= s.len() {
        seq![s]
    } else {
        seq![s.take(k as int)] + spec_lines(s.skip(k + 1 as int))
    }
}

/// Index (0-based) of the first line that contains the marker, or the
/// number of lines when no line does.
pub open spec fn first_pending(lines: Seq<Seq<u8>>) -> nat
    decreases lines.len(),
{
    if lines.len() == 0 {
        0
    } else if has_marker(lines[0]) {
        0
    } else {
        1 + first_pending(lines.skip(1))
    }
}

proof fn lemma_first_pending_is(lines: Seq<Seq<u8>>, m: nat)
    requires
        m <= lines.len(),
        forall|j: int| 0 <= j < m ==> !has_marker(lines[j]),
        m < lines.len() ==> has_marker(lines[m as int]),
    ensures
        first_pending(lines) == m,
    decreases lines.len(),
{
    if m == 0 {
    } else {
        assert(!has_marker(lines[0]));
        assert forall|j: int| 0 <= j < m - 1 implies !has_marker(lines.skip(1)[j]) by {
            assert(lines.skip(1)[j] == lines[j + 1]);
        }
        if m < lines.len() {
            assert(lines.skip(1)[m - 1] == lines[m as int]);
        }
        lemma_first_pending_is(lines.skip(1), (m - 1) as nat);
    }
}

/// First line number of the context window around marker line `ml`
/// (line numbers are 1-based; the window reaches two lines back).
pub open spec fn window_lo(ml: int) -> int {
    if ml >= 3 {
        ml - 2
    } else {
        1
    }
}

/// Last line number of the context window, two lines past the marker
/// but never past the end of the file.
pub open spec fn window_hi(ml: int, n_lines: int) -> int {
    if ml + 2 <= n_lines {
        ml + 2
    } else {
        n_lines
    }
}

/// The context window for marker line `ml` of `lines`: consecutive line
/// numbers from `window_lo` to `window_hi`, each with the text of that
/// line, the marker's own line flagged as important.
pub open spec fn is_context_window(ctx: Seq<ContextLine>, lines: Seq<Seq<u8>>, ml: int) -> bool {
    let lo = window_lo(ml);
    let hi = window_hi(ml, lines.len() as int);
    &&& ctx.len() == hi - lo + 1
    &&& forall|t: int| 0 <= t < ctx.len() ==> {
        &&& (#[trigger] ctx[t]).number == lo + t
        &&& ctx[t].line@ == lines[lo + t - 1]
        &&& ctx[t].important == (lo + t == ml)
    }
}

/// What the completion scan says of a source text, as a predicate:
/// `Done` exactly when no line holds the marker, otherwise `Pending`
/// with the context window of the first line that does.
pub open spec fn is_state_of(st: State, source: Seq<u8>) -> bool {
    let lines = spec_lines(source);
    match st {
        State::Done => forall|j: int| 0 <= j < lines.len() ==> !has_marker(lines[j]),
        State::Pending(ctx) => {
            let ml = first_pending(lines) + 1 as int;
            &&& 1 <= ml <= lines.len()
            &&& has_marker(lines[ml - 1])
            &&& forall|j: int| 0 <= j < ml - 1 ==> !has_marker(lines[j])
            &&& is_context_window(ctx@, lines, ml)
        },
    }
}

/// The scan's answer is a function of the source text alone: any two
/// answers for one source agree, `Done` with `Done`, windows line for
/// line — so re-checking an unchanged file returns the identical
/// result.
pub proof fn lemma_state_deterministic(st1: State, st2: State, source: Seq<u8>)
    requires
        is_state_of(st1, source),
        is_state_of(st2, source),
    ensures
        match (st1, st2) {
            (State::Done, State::Done) => true,
            (State::Pending(c1), State::Pending(c2)) => {
                &&& c1@.len() == c2@.len()
                &&& forall|t: int| 0 <= t < c1@.len() ==> {
                    &&& (#[trigger] c1@[t]).number == (#[trigger] c2@[t]).number
                    &&& c1@[t].line@ == c2@[t].line@
                    &&& c1@[t].important == c2@[t].important
                }
            },
            _ => false,
        },
{
    let lines = spec_lines(source);
    match (st1, st2) {
        (State::Done, State::Pending(_)) => {
            assert(false);
        },
        (State::Pending(_), State::Done) => {
            assert(false);
        },
        _ => {},
    }
}

/// The marker, as a value the searches below can walk.
fn marker_bytes() -> (m: Vec<u8>)
    ensures
        m@ == marker(),
{
    let mut m: Vec<u8> = Vec::new();
    m.push('/' as u8);
    m.push('/' as u8);
    m.push(' ' as u8);
    m.push('I' as u8);
    m.push(' ' as u8);
    m.push('A' as u8);
    m.push('M' as u8);
    m.push(' ' as u8);
    m.push('N' as u8);
    m.push('O' as u8);
    m.push('T' as u8);
    m.push(' ' as u8);
    m.push('D' as u8);
    m.push('O' as u8);
    m.push('N' as u8);
    m.push('E' as u8);
    proof {
        assert(m@ =~= marker());
    }
    m
}

/// Whether one line contains the not-done marker.
pub fn line_has_marker(line: &Vec<u8>) -> (r: bool)
    ensures
        r == has_marker(line@),
{
    let m = marker_bytes();
    if line.len() < m.len() {
        proof {
            assert(!has_marker(line@)) by {
                if has_marker(line@) {
                    let i = choose|i: int| marker_at(line@, i);
                }
            }
        }
        return false;
    }
    let mut i: usize = 0;
    while i <= line.len() - m.len()
        invariant
            m@ == marker(),
            m@.len() <= line@.len(),
            i <= line@.len() - m@.len() + 1,
            forall|j: int| 0 <= j < i ==> !marker_at(line@, j),
        decreases line@.len() - i,
    {
        let mut t: usize = 0;
        while t < m.len() && line[i + t] == m[t]
            invariant
                m@ == marker(),
                line@.len() <= usize::MAX,
                i + m@.len() <= line@.len(),
                t <= m@.len(),
                forall|u: int| 0 <= u < t ==> line@[i + u] == m@[u],
            decreases m@.len() - t,
        {
            t += 1;
        }
        if t == m.len() {
            proof {
                assert(line@.subrange(i as int, i + marker().len() as int) =~= marker());
                assert(marker_at(line@, i as int));
            }
            return true;
        }
        proof {
            assert(!marker_at(line@, i as int)) by {
                if marker_at(line@, i as int) {
                    assert(line@.subrange(i as int, i + marker().len() as int)[t as int]
                        == marker()[t as int]);
                }
            }
        }
        i += 1;
    }
    proof {
        assert(!has_marker(line@)) by {
            if has_marker(line@) {
                let j = choose|j: int| marker_at(line@, j);
            }
        }
    }
    false
}

/// A copy of the byte range `[from, to)` of `s`.
fn copy_range(s: &Vec<u8>, from: usize, to: usize) -> (r: Vec<u8>)
    requires
        from <= to <= s@.len(),
    ensures
        r@ == s@.subrange(from as int, to as int),
{
    let mut r: Vec<u8> = Vec::new();
    let mut i = from;
    while i < to
        invariant
            from <= i <= to <= s@.len(),
            r@ == s@.subrange(from as int, i as int),
        decreases to - i,
    {
        r.push(s[i]);
        proof {
            assert(r@ =~= s@.subrange(from as int, i + 1));
        }
        i += 1;
    }
    r
}

/// The source split into lines, each line a copy of its bytes.
pub fn split_lines(source: &Vec<u8>) -> (lines: Vec<Vec<u8>>)
    ensures
        lines@.len() == spec_lines(source@).len(),
        forall|t: int| 0 <= t < lines@.len() ==> (#[trigger] lines@[t])@ == spec_lines(source@)[t],
{
    let lines = split_lines_from(source, 0);
    proof {
        assert(source@.skip(0) =~= source@);
    }
    lines
}

/// The lines of the tail of `source` that starts at byte `from`.
fn split_lines_from(source: &Vec<u8>, from: usize) -> (lines: Vec<Vec<u8>>)
    requires
        from <= source@.len(),
    ensures
        lines@.len() == spec_lines(source@.skip(from as int)).len(),
        forall|t: int|
            0 <= t < lines@.len() ==> (#[trigger] lines@[t])@ == spec_lines(
                source@.skip(from as int),
            )[t],
    decreases source@.len() - from,
{
    let ghost tail = source@.skip(from as int);
    let mut k = from;
    while k < source.len() && source[k] != NEWLINE
        invariant
            from <= k <= source@.len(),
            forall|j: int| from <= j < k ==> source@[j] != NEWLINE,
        decreases source@.len() - k,
    {
        k += 1;
    }
    proof {
        assert forall|j: int| 0 <= j < k - from implies tail[j] != NEWLINE by {
            assert(tail[j] == source@[from + j]);
        }
        if k < source@.len() {
            assert(tail[k - from] == source@[k as int]);
        }
        lemma_first_newline_is(tail, (k - from) as nat);
    }
    let line = copy_range(source, from, k);
    proof {
        assert(line@ =~= tail.take(k - from));
    }
    if k == source.len() {
        let mut lines: Vec<Vec<u8>> = Vec::new();
        proof {
            assert(line@ =~= tail);
        }
        lines.push(line);
        lines
    } else {
        let mut lines = split_lines_from(source, k + 1);
        proof {
            assert(source@.skip(k + 1) =~= tail.skip(k - from + 1));
        }
        lines.insert(0, line);
        lines
    }
}

/// Work out what a source text's completion state is: `Done` when no
/// line holds the not-done marker, otherwise `Pending` with the lines
/// around the first marker line, the marker's line flagged.
pub fn state(source: &Vec<u8>) -> (st: State)
    ensures
        is_state_of(st, source@),
{
    let ghost all_lines = spec_lines(source@);
    let lines = split_lines(source);
    let mut i: usize = 0;
    while i < lines.len()
        invariant
            all_lines == spec_lines(source@),
            i <= lines@.len(),
            lines@.len() == all_lines.len(),
            forall|t: int| 0 <= t < lines@.len() ==> (#[trigger] lines@[t])@ == all_lines[t],
            forall|j: int| 0 <= j < i ==> !has_marker(all_lines[j]),
        decreases lines@.len() - i,
    {
        if line_has_marker(&lines[i]) {
            proof {
                lemma_first_pending_is(all_lines, i as nat);
            }
            // 1-based number of the marker's line, and the window edges
            let ml = i + 1;
            let lo = if ml >= 3 {
                ml - 2
            } else {
                1
            };
            let hi = if lines.len() - ml >= 2 {
                ml + 2
            } else {
                lines.len()
            };
            let count = hi - lo + 1;
            let mut ctx: Vec<ContextLine> = Vec::new();
            let mut u: usize = 0;
            while u < count
                invariant
                    all_lines == spec_lines(source@),
                    first_pending(all_lines) == i,
                    i + 1 == ml,
                    lines@.len() == all_lines.len(),
                    forall|w: int|
                        0 <= w < lines@.len() ==> (#[trigger] lines@[w])@ == all_lines[w],
                    1 <= lo,
                    lo <= ml <= hi <= lines@.len(),
                    u <= count,
                    count == hi - lo + 1,
                    lo == window_lo(ml as int),
                    hi == window_hi(ml as int, all_lines.len() as int),
                    ctx@.len() == u,
                    forall|w: int| 0 <= w < ctx@.len() ==> {
                        &&& (#[trigger] ctx@[w]).number == lo + w
                        &&& ctx@[w].line@ == all_lines[lo + w - 1]
                        &&& ctx@[w].important == (lo + w == ml as int)
                    },
                decreases count - u,
            {
                let t = lo + u;
                let text = copy_range(&lines[t - 1], 0, lines[t - 1].len());
                proof {
                    assert(text@ =~= lines@[t - 1]@);
                }
                ctx.push(ContextLine { line: text, number: t, important: t == ml });
                u += 1;
            }
            return State::Pending(ctx);
        }
        i += 1;
    }
    State::Done
}

} // verus!
