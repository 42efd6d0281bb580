//! Cutting a document into overlapping windows of characters.
use vstd::prelude::*;
use crate::text::{chars_of, text_between};

verus! {

/// A window of a document's text, with the positions of its first character and of the one after
/// its last.
#[derive(Debug, Clone, PartialEq)]
pub struct Chunk {
    pub text: String,
    pub start: u32,
    pub end: u32,
}

/// What a chunk holds.
pub struct Window {
    pub text: Seq<char>,
    pub start: u32,
    pub end: u32,
}

impl View for Chunk {
    type V = Window;

    open spec fn view(&self) -> Window {
        Window { text: self.text@, start: self.start, end: self.end }
    }
}

/// What a list of chunks holds.
pub open spec fn windows(chunks: Seq<Chunk>) -> Seq<Window> {
    chunks.map_values(|c: Chunk| c@)
}

/// How far each window starts behind the one before it: `size - overlap`, and at least one.
pub open spec fn stride(size: nat, overlap: nat) -> nat {
    if size > overlap {
        (size - overlap) as nat
    } else {
        1
    }
}

/// Where a window of `size` characters that starts at `start` ends in a text of `len`.
pub open spec fn window_end(len: nat, start: nat, size: nat) -> nat {
    if start + size < len {
        start + size
    } else {
        len
    }
}

/// The window of `size` characters of `s` that starts at `start`. Positions are kept modulo
/// two to the power of thirty-two.
pub open spec fn window(s: Seq<char>, start: nat, size: nat) -> Window {
    let end = window_end(s.len(), start, size);
    Window { text: s.subrange(start as int, end as int), start: start as u32, end: end as u32 }
}

/// The windows of `s` from position `start` on, `step` apart, up to the first that reaches the end.
pub open spec fn windows_from(s: Seq<char>, start: nat, size: nat, step: nat) -> Seq<Window>
    decreases
            if start < s.len() {
                s.len() - start
            } else {
                0
            },
{
    if start >= s.len() || step == 0 {
        Seq::empty()
    } else if start + size >= s.len() {
        seq![window(s, start, size)]
    } else {
        seq![window(s, start, size)] + windows_from(s, start + step, size, step)
    }
}

/// The windows that a text is cut into. A text of at most `size` characters is one window, an empty
/// text too where windows have characters at all.
pub open spec fn chunked(s: Seq<char>, size: nat, overlap: nat) -> Seq<Window> {
    if s.len() == 0 && size > 0 {
        seq![window(s, 0, size)]
    } else {
        windows_from(s, 0, size, stride(size, overlap))
    }
}

/// Cuts `text` into windows of `size` characters, each of which starts `size - overlap` behind the
/// one before. The last may be shorter; a text of at most `size` characters gives one window.
pub fn chunk_text(text: &str, size: usize, overlap: usize) -> (r: Vec<Chunk>)
    ensures
        windows(r@) == chunked(text@, size as nat, overlap as nat),
{
    let chars = chars_of(text);
    let len = chars.len();
    let step: usize = if size > overlap {
        size - overlap
    } else {
        1
    };
    let mut out: Vec<Chunk> = Vec::new();
    if len == 0 && size > 0 {
        out.push(Chunk { text: text_between(&chars, 0, 0), start: 0, end: 0 });
        assert(windows(out@) == chunked(text@, size as nat, overlap as nat));
        return out;
    }
    let mut start: usize = 0;
    assert(windows(out@) + chunked(text@, size as nat, overlap as nat) == chunked(
        text@,
        size as nat,
        overlap as nat,
    ));
    while start < len
        invariant
            start <= len == chars@.len(),
            chars@ == text@,
            step == stride(size as nat, overlap as nat),
            windows(out@) + windows_from(text@, start as nat, size as nat, step as nat) == chunked(
                text@,
                size as nat,
                overlap as nat,
            ),
        decreases len - start,
    {
        let end: usize = if size < len - start {
            start + size
        } else {
            len
        };
        let ghost before = windows(out@);
        let ghost rest = windows_from(text@, (start + step) as nat, size as nat, step as nat);
        out.push(Chunk { text: text_between(&chars, start, end), start: start as u32, end: end as u32 });
        let ghost w = window(text@, start as nat, size as nat);
        assert(windows(out@) == before.push(w));
        if end == len {
            assert(before.push(w) == before + seq![w]);
            return out;
        }
        assert(before.push(w) + rest == before + (seq![w] + rest));
        start += step;
    }
    assert(windows(out@) + Seq::<Window>::empty() == windows(out@));
    out
}

/// Whether the window numbered `k` of `ws` is the one that starts `k * step` behind `start`, inside
/// the text if that has characters, and ends before the text does unless it is the last, or has no characters.
pub open spec fn stands(
    s: Seq<char>,
    start: nat,
    size: nat,
    step: nat,
    ws: Seq<Window>,
    k: int,
) -> bool {
    let at = start + k * step;
    &&& start <= at
    &&& at < s.len() || (at == 0 && s.len() == 0)
    &&& ws[k] == window(s, at as nat, size)
    &&& k < ws.len() - 1 ==> at + size < s.len()
    &&& k == ws.len() - 1 && size > 0 ==> at + size >= s.len()
}

/// The windows stand `stride` apart: the one numbered `k`, counted from zero, starts at
/// `k * stride`, inside the text if that has characters. All but the last end before the text
/// does, and so does the last only where windows have no characters.
pub proof fn windows_stand_a_stride_apart(s: Seq<char>, size: nat, overlap: nat)
    ensures
        forall|k: int|
            0 <= k < chunked(s, size, overlap).len() ==> #[trigger] stands(
                s,
                0,
                size,
                stride(size, overlap),
                chunked(s, size, overlap),
                k,
            ),
        s.len() > 0 ==> chunked(s, size, overlap).len() > 0,
{
    lemma_windows_from(s, 0, size, stride(size, overlap));
}

proof fn lemma_windows_from(s: Seq<char>, start: nat, size: nat, step: nat)
    requires
        step >= 1,
        step <= size || step == 1,
    ensures
        forall|k: int|
            0 <= k < windows_from(s, start, size, step).len() ==> #[trigger] stands(
                s,
                start,
                size,
                step,
                windows_from(s, start, size, step),
                k,
            ),
        start < s.len() ==> windows_from(s, start, size, step).len() > 0,
    decreases
            if start < s.len() {
                s.len() - start
            } else {
                0
            },
{
    let ws = windows_from(s, start, size, step);
    let rest = windows_from(s, start + step, size, step);
    if start < s.len() && start + size < s.len() {
        lemma_windows_from(s, start + step, size, step);
        assert(ws == seq![window(s, start, size)] + rest);
    }
    assert forall|k: int| 0 <= k < ws.len() implies #[trigger] stands(s, start, size, step, ws, k) by {
        if k > 0 {
            assert(stands(s, start + step, size, step, rest, k - 1));
            assert(step + (k - 1) * step == k * step) by (nonlinear_arith);
        } else {
            assert(k * step == 0) by (nonlinear_arith)
                requires
                    k == 0,
            ;
        }
    }
}

/// Where windows have characters at all, every character of the text lies in one of them.
pub proof fn windows_cover_the_text(s: Seq<char>, size: nat, overlap: nat, p: int)
    requires
        size > 0,
        0 <= p < s.len(),
    ensures
        exists|k: int|
            0 <= k < chunked(s, size, overlap).len() && #[trigger] (k * stride(size, overlap)) <= p
                < window_end(s.len(), (k * stride(size, overlap)) as nat, size),
{
    let step = stride(size, overlap) as int;
    let ws = chunked(s, size, overlap);
    windows_stand_a_stride_apart(s, size, overlap);
    assert(stands(s, 0, size, step as nat, ws, ws.len() - 1));
    let q = p / step;
    vstd::arithmetic::div_mod::lemma_fundamental_div_mod(p, step);
    assert(q * step <= p < q * step + step) by (nonlinear_arith)
        requires
            p == step * q + p % step,
            0 <= p % step < step,
    ;
    assert(q >= 0) by (nonlinear_arith)
        requires
            q * step + step > p,
            p >= 0,
            step >= 1,
    ;
    if q < ws.len() {
        assert(stands(s, 0, size, step as nat, ws, q));
        assert(q * stride(size, overlap) <= p);
    } else {
        let last = ws.len() - 1;
        assert(last * step <= q * step) by (nonlinear_arith)
            requires
                last <= q,
                step >= 1,
        ;
        assert(last * stride(size, overlap) <= p);
    }
}

/// Where windows have characters at all, a text of at most `size` characters is cut into one
/// window, which holds all of it.
pub proof fn short_text_is_one_window(s: Seq<char>, size: nat, overlap: nat)
    requires
        size > 0,
        s.len() <= size,
    ensures
        chunked(s, size, overlap) == seq![
            (Window { text: s, start: 0, end: s.len() as u32 }),
        ],
{
    assert(s.subrange(0, s.len() as int) == s);
}

} // verus!
