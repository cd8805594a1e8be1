use vstd::prelude::*;

use crate::bytes::{append_bytes, clone_bytes, subrange_vec};
use crate::color::Rgb;
use crate::gradient::Gradient;
use crate::revindex::RevisionIndex;

verus! {

/// The position of the first space byte in a line, or the line's length
/// when it holds no space.
pub open spec fn space_idx(s: Seq<u8>) -> int
    decreases s.len(),
{
    if s.len() == 0 {
        0
    } else if s[0] == 32u8 {
        0
    } else {
        1 + space_idx(s.skip(1))
    }
}

/// Everything before the first space: the raw abbreviated identifier.
pub open spec fn hash_raw_of(line: Seq<u8>) -> Seq<u8> {
    line.take(space_idx(line))
}

/// The first space and everything after it, kept verbatim for output; empty
/// when the line holds no space.
pub open spec fn remainder_of(line: Seq<u8>) -> Seq<u8> {
    line.skip(space_idx(line))
}

/// Any position that is in bounds, preceded by no space, and at a space
/// unless at the end, is `space_idx`.
proof fn lemma_space_idx_is(s: Seq<u8>, i: int)
    requires
        0 <= i <= s.len(),
        forall|j: int| 0 <= j < i ==> s[j] != 32u8,
        i < s.len() ==> s[i] == 32u8,
    ensures
        space_idx(s) == i,
    decreases s.len(),
{
    if s.len() == 0 {
    } else if s[0] == 32u8 {
        assert(i == 0);
    } else {
        let t = s.skip(1);
        assert(forall|j: int| 0 <= j < t.len() ==> t[j] == s[j + 1]);
        lemma_space_idx_is(t, i - 1);
    }
}

/// Splits an annotation line at its first space into the raw identifier and
/// the remainder (space included); a line without a space is all identifier.
pub fn split_annotation(line: &Vec<u8>) -> (r: (Vec<u8>, Vec<u8>))
    ensures
        r.0@ == hash_raw_of(line@),
        r.1@ == remainder_of(line@),
{
    let mut i: usize = 0;
    while i < line.len() && line[i] != 32u8
        invariant
            i <= line@.len(),
            forall|j: int| 0 <= j < i ==> line@[j] != 32u8,
        decreases line@.len() - i,
    {
        i = i + 1;
    }
    proof {
        lemma_space_idx_is(line@, i as int);
    }
    let hash_raw = subrange_vec(line, 0, i);
    let remainder = subrange_vec(line, i, line.len());
    proof {
        assert(hash_raw@ =~= hash_raw_of(line@));
        assert(remainder@ =~= remainder_of(line@));
    }
    (hash_raw, remainder)
}

/// The identifier as looked up: a one-byte-or-shorter identifier is kept; a
/// longer one either loses a leading boundary marker (`^`) or, without one,
/// its trailing overhang byte.
pub open spec fn normalize_spec(h: Seq<u8>) -> Seq<u8> {
    if h.len() <= 1 {
        h
    } else if h[0] == 94u8 {
        h.skip(1)
    } else {
        h.take(h.len() - 1)
    }
}

/// Normalizes a raw abbreviated identifier for lookup.
pub fn normalize_hash(h: &Vec<u8>) -> (r: Vec<u8>)
    ensures
        r@ == normalize_spec(h@),
{
    if h.len() <= 1 {
        clone_bytes(h)
    } else if h[0] == 94u8 {
        let r = subrange_vec(h, 1, h.len());
        proof {
            assert(r@ =~= normalize_spec(h@));
        }
        r
    } else {
        let r = subrange_vec(h, 0, h.len() - 1);
        proof {
            assert(r@ =~= normalize_spec(h@));
        }
        r
    }
}

/// The all-zero identifier denoting an uncommitted local change.
pub open spec fn sentinel() -> Seq<u8> {
    Seq::new(12, |i: int| 48u8)
}

/// Whether a normalized identifier is the uncommitted-change sentinel.
pub fn is_sentinel(h: &Vec<u8>) -> (r: bool)
    ensures
        r == (h@ == sentinel()),
{
    if h.len() != 12 {
        return false;
    }
    let mut i: usize = 0;
    while i < h.len()
        invariant
            h@.len() == 12,
            i <= 12,
            forall|j: int| 0 <= j < i ==> h@[j] == 48u8,
        decreases h@.len() - i,
    {
        if h[i] != 48u8 {
            return false;
        }
        i = i + 1;
    }
    proof {
        assert(h@ =~= sentinel());
    }
    true
}

/// The rank an identifier resolves to against an index with `size` distinct
/// entries: the sentinel is pinned to rank 0, a known identifier keeps its
/// rank, and an unknown one counts as newest (the last rank, or 0 when the
/// index is empty).
pub open spec fn resolve_rank_spec(m: Map<Seq<u8>, int>, size: int, h: Seq<u8>) -> int {
    if h == sentinel() {
        0
    } else if m.contains_key(h) {
        m[h]
    } else if size == 0 {
        0
    } else {
        size - 1
    }
}

/// Resolves a normalized identifier to its rank.
pub fn resolve_rank(idx: &RevisionIndex, hash: &Vec<u8>) -> (r: usize)
    ensures
        r as int == resolve_rank_spec(idx@, idx@.dom().len() as int, hash@),
{
    if is_sentinel(hash) {
        return 0;
    }
    match idx.lookup(hash) {
        Some(v) => v,
        None => {
            let n = idx.size();
            if n == 0 {
                0
            } else {
                n - 1
            }
        },
    }
}

/// The sentinel always resolves to rank 0, whatever the index holds: a line
/// whose normalized identifier is the sentinel gets the gradient's first
/// color as its background.
pub proof fn lemma_sentinel_rank(g: Gradient, m: Map<Seq<u8>, int>, size: int, ann: Seq<u8>)
    requires
        normalize_spec(hash_raw_of(ann)) == sentinel(),
    ensures
        resolve_rank_spec(m, size, sentinel()) == 0,
        back_color_spec(g, m, size, ann) == g.at_spec(0),
{
}

/// An identifier bound in the index, other than the sentinel, resolves to
/// its own rank: the line's background color is the gradient at that rank.
pub proof fn lemma_present_hash_color(g: Gradient, m: Map<Seq<u8>, int>, size: int, ann: Seq<u8>)
    requires
        m.contains_key(normalize_spec(hash_raw_of(ann))),
        normalize_spec(hash_raw_of(ann)) != sentinel(),
    ensures
        resolve_rank_spec(m, size, normalize_spec(hash_raw_of(ann))) == m[normalize_spec(
            hash_raw_of(ann),
        )],
        back_color_spec(g, m, size, ann) == g.at_spec(m[normalize_spec(hash_raw_of(ann))]),
{
}

/// An identifier absent from a nonempty index, other than the sentinel,
/// resolves to the last rank, as if it were newer than every listed
/// revision.
pub proof fn lemma_absent_hash_rank(g: Gradient, m: Map<Seq<u8>, int>, size: int, ann: Seq<u8>)
    requires
        !m.contains_key(normalize_spec(hash_raw_of(ann))),
        normalize_spec(hash_raw_of(ann)) != sentinel(),
        size > 0,
    ensures
        resolve_rank_spec(m, size, normalize_spec(hash_raw_of(ann))) == size - 1,
        back_color_spec(g, m, size, ann) == g.at_spec(size - 1),
{
}

/// The shortest decimal digit string of a nonnegative number.
pub open spec fn dec_seq(v: int) -> Seq<u8>
    decreases v,
{
    if v < 10 {
        seq![(48 + v) as u8]
    } else {
        dec_seq(v / 10).push((48 + v % 10) as u8)
    }
}

/// Appends the decimal digits of a channel value.
fn push_decimal(out: &mut Vec<u8>, v: u8)
    ensures
        final(out)@ == old(out)@ + dec_seq(v as int),
{
    let ghost o0 = out@;
    if v >= 100 {
        out.push(48 + v / 100);
    }
    if v >= 10 {
        out.push(48 + (v / 10) % 10);
    }
    out.push(48 + v % 10);
    proof {
        let vi = v as int;
        if vi >= 100 {
            vstd::arithmetic::div_mod::lemma_div_denominator(vi, 10, 10);
            assert((vi / 10) / 10 == vi / 100);
            assert(dec_seq(vi / 100) =~= seq![(48 + vi / 100) as u8]);
            assert(dec_seq(vi / 10) =~= seq![(48 + vi / 100) as u8, (48 + (vi / 10) % 10) as u8]);
            assert(dec_seq(vi) =~= seq![
                (48 + vi / 100) as u8,
                (48 + (vi / 10) % 10) as u8,
                (48 + vi % 10) as u8,
            ]);
        } else if vi >= 10 {
            vstd::arithmetic::div_mod::lemma_small_mod((vi / 10) as nat, 10);
            assert(dec_seq(vi / 10) =~= seq![(48 + vi / 10) as u8]);
            assert(dec_seq(vi) =~= seq![(48 + (vi / 10) % 10) as u8, (48 + vi % 10) as u8]);
        }
        assert(out@ =~= o0 + dec_seq(vi));
    }
}

/// The truecolor escape sequence selecting `c`; `mode` is the digit byte
/// after the bracket: `3` selects the foreground, `4` the background.
pub open spec fn esc_seq(mode: u8, c: Rgb) -> Seq<u8> {
    seq![27u8, 91u8, mode, 56u8, 59u8, 50u8, 59u8] + dec_seq(c.r as int) + seq![59u8] + dec_seq(
        c.g as int,
    ) + seq![59u8] + dec_seq(c.b as int) + seq![109u8]
}

/// The escape sequence resetting all styling.
pub open spec fn reset_seq() -> Seq<u8> {
    seq![27u8, 91u8, 48u8, 109u8]
}

/// The border glyph, a vertical bar, in its byte encoding.
pub open spec fn border_seq() -> Seq<u8> {
    seq![226u8, 148u8, 130u8]
}

/// Appends the truecolor escape sequence selecting `c`.
fn push_color_esc(out: &mut Vec<u8>, mode: u8, c: &Rgb)
    ensures
        final(out)@ == old(out)@ + esc_seq(mode, *c),
{
    let ghost o0 = out@;
    out.push(27);
    out.push(91);
    out.push(mode);
    out.push(56);
    out.push(59);
    out.push(50);
    out.push(59);
    push_decimal(out, c.r);
    out.push(59);
    push_decimal(out, c.g);
    out.push(59);
    push_decimal(out, c.b);
    out.push(109);
    proof {
        assert(out@ =~= o0 + esc_seq(mode, *c));
    }
}

/// The background color an annotation line gets: its identifier, normalized,
/// resolved to a rank and looked up in the gradient.
pub open spec fn back_color_spec(g: Gradient, m: Map<Seq<u8>, int>, size: int, ann: Seq<u8>) -> Rgb {
    g.at_spec(resolve_rank_spec(m, size, normalize_spec(hash_raw_of(ann))))
}

/// One fused output line: border, foreground and background escapes, the
/// normalized identifier with the remainder of the annotation line, a style
/// reset, the border again, and the pre-rendered text line.
pub open spec fn fused_line_spec(fore: Rgb, back: Rgb, ann: Seq<u8>, text: Seq<u8>) -> Seq<u8> {
    border_seq() + esc_seq(51u8, fore) + esc_seq(52u8, back) + normalize_spec(hash_raw_of(ann))
        + remainder_of(ann) + reset_seq() + border_seq() + text
}

/// Fuses one annotation line with its pre-rendered text line.
pub fn fuse_line(fore: &Rgb, grad: &Gradient, idx: &RevisionIndex, ann: &Vec<u8>, text: &Vec<u8>) -> (out: Vec<u8>)
    ensures
        out@ == fused_line_spec(
            *fore,
            back_color_spec(*grad, idx@, idx@.dom().len() as int, ann@),
            ann@,
            text@,
        ),
{
    let (hash_raw, remainder) = split_annotation(ann);
    let hash = normalize_hash(&hash_raw);
    let rank = resolve_rank(idx, &hash);
    let back = grad.at(rank);
    let mut out: Vec<u8> = Vec::new();
    out.push(226);
    out.push(148);
    out.push(130);
    push_color_esc(&mut out, 51, fore);
    push_color_esc(&mut out, 52, &back);
    append_bytes(&mut out, &hash);
    append_bytes(&mut out, &remainder);
    out.push(27);
    out.push(91);
    out.push(48);
    out.push(109);
    out.push(226);
    out.push(148);
    out.push(130);
    append_bytes(&mut out, text);
    proof {
        assert(out@ =~= fused_line_spec(
            *fore,
            back_color_spec(*grad, idx@, idx@.dom().len() as int, ann@),
            ann@,
            text@,
        ));
    }
    out
}

/// What a whole fusion run produced: the fused lines, and whether the run
/// was cut short because the pre-rendered stream ran out first.
pub struct FuseOutcome {
    pub lines: Vec<Vec<u8>>,
    pub aborted: bool,
}

/// Fuses every annotation line with the text line at the same position, in
/// order. When the text stream is shorter, fusion stops at its end and the
/// outcome is marked aborted; the lines fused so far are kept.
pub fn fuse_lines(
    fore: &Rgb,
    grad: &Gradient,
    idx: &RevisionIndex,
    ann_lines: &Vec<Vec<u8>>,
    text_lines: &Vec<Vec<u8>>,
) -> (r: FuseOutcome)
    ensures
        r.lines@.len() == if ann_lines@.len() <= text_lines@.len() {
            ann_lines@.len() as int
        } else {
            text_lines@.len() as int
        },
        forall|i: int|
            0 <= i < r.lines@.len() ==> r.lines@[i]@ == fused_line_spec(
                *fore,
                back_color_spec(*grad, idx@, idx@.dom().len() as int, ann_lines@[i]@),
                ann_lines@[i]@,
                text_lines@[i]@,
            ),
        r.aborted == (ann_lines@.len() > text_lines@.len()),
{
    let mut lines: Vec<Vec<u8>> = Vec::new();
    let mut i: usize = 0;
    while i < ann_lines.len()
        invariant
            i <= ann_lines@.len(),
            i <= text_lines@.len(),
            lines@.len() == i,
            forall|j: int|
                0 <= j < i ==> lines@[j]@ == fused_line_spec(
                    *fore,
                    back_color_spec(*grad, idx@, idx@.dom().len() as int, ann_lines@[j]@),
                    ann_lines@[j]@,
                    text_lines@[j]@,
                ),
        decreases ann_lines@.len() - i,
    {
        if i >= text_lines.len() {
            return FuseOutcome { lines, aborted: true };
        }
        let fused = fuse_line(fore, grad, idx, &ann_lines[i], &text_lines[i]);
        lines.push(fused);
        i = i + 1;
    }
    FuseOutcome { lines, aborted: false }
}

} // verus!
