//! The scanner: extracts query chunk bodies `@{ ... }` from a raw message,
//! left to right, tracking brace nesting inside a chunk.

use vstd::prelude::*;

verus! {

/// The scanner's state after reading a prefix of the message.
pub struct ScanState {
    /// The chunk bodies emitted so far, in order.
    pub chunks: Seq<Seq<char>>,
    /// Whether the scanner is inside a chunk.
    pub inside: bool,
    /// The brace nesting depth inside the current chunk; zero outside.
    pub depth: int,
    /// Whether the previous character, outside a chunk, was `@`.
    pub prev_at: bool,
    /// The body of the chunk being read.
    pub body: Seq<char>,
}

/// The scanner's initial state.
pub open spec fn scan_init() -> ScanState {
    ScanState {
        chunks: Seq::empty(),
        inside: false,
        depth: 0,
        prev_at: false,
        body: Seq::empty(),
    }
}

/// One step of the scanner on the next character.
pub open spec fn scan_step(st: ScanState, c: char) -> ScanState {
    if !st.inside {
        if st.prev_at && c == '{' {
            ScanState { inside: true, depth: 1, prev_at: false, body: Seq::empty(), ..st }
        } else {
            ScanState { prev_at: c == '@', ..st }
        }
    } else {
        if c == '{' {
            ScanState { depth: st.depth + 1, body: st.body.push(c), ..st }
        } else if c == '}' {
            if st.depth == 1 {
                ScanState {
                    chunks: st.chunks.push(st.body),
                    inside: false,
                    depth: 0,
                    prev_at: false,
                    body: Seq::empty(),
                    ..st
                }
            } else {
                ScanState { depth: st.depth - 1, body: st.body.push(c), ..st }
            }
        } else {
            ScanState { body: st.body.push(c), ..st }
        }
    }
}

/// The scanner's state after the whole message.
pub open spec fn scan_fold(s: Seq<char>) -> ScanState
    decreases s.len(),
{
    if s.len() == 0 {
        scan_init()
    } else {
        scan_step(scan_fold(s.drop_last()), s.last())
    }
}

/// The chunk bodies of a message, in order. A chunk left open at the end of
/// the message is not emitted.
pub open spec fn scan_chunks(s: Seq<char>) -> Seq<Seq<char>> {
    scan_fold(s).chunks
}

/// Extract the chunk bodies of a message, left to right.
pub fn scan(s: &[char]) -> (r: Vec<Vec<char>>)
    ensures
        r.deep_view() == scan_chunks(s@),
{
    let mut chunks: Vec<Vec<char>> = Vec::new();
    let mut inside: bool = false;
    let mut depth: usize = 0;
    let mut prev_at: bool = false;
    let mut body: Vec<char> = Vec::new();
    let mut i: usize = 0;
    while i < s.len()
        invariant
            0 <= i <= s@.len(),
            depth <= i,
            inside ==> depth >= 1,
            chunks.deep_view() == scan_fold(s@.take(i as int)).chunks,
            inside == scan_fold(s@.take(i as int)).inside,
            depth as int == scan_fold(s@.take(i as int)).depth,
            prev_at == scan_fold(s@.take(i as int)).prev_at,
            body@ == scan_fold(s@.take(i as int)).body,
        decreases s@.len() - i,
    {
        let c = s[i];
        let ghost st = scan_fold(s@.take(i as int));
        let ghost dv = chunks.deep_view();
        proof {
            assert(s@.take(i as int + 1).drop_last() =~= s@.take(i as int));
            assert(s@.take(i as int + 1).last() == s@[i as int]);
            assert(scan_fold(s@.take(i as int + 1)) == scan_step(st, s@[i as int]));
        }
        if !inside {
            if prev_at && c == '{' {
                inside = true;
                depth = 1;
                prev_at = false;
                body = Vec::new();
            } else {
                prev_at = c == '@';
            }
        } else {
            if c == '{' {
                depth = depth + 1;
                body.push(c);
            } else if c == '}' {
                if depth == 1 {
                    chunks.push(body);
                    body = Vec::new();
                    inside = false;
                    depth = 0;
                    prev_at = false;
                    proof {
                        assert(chunks.deep_view() =~~= dv.push(st.body));
                    }
                } else {
                    depth = depth - 1;
                    body.push(c);
                }
            } else {
                body.push(c);
            }
        }
        i += 1;
    }
    proof {
        assert(s@.take(s@.len() as int) == s@);
    }
    chunks
}

} // verus!
