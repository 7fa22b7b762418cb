//! The alignment result: a score plus the chain of anchors the traceback
//! collected, and the builder that accumulates those anchors while the
//! traceback walks from the terminal cell to the origin.
//!
//! Anchors are stored in walk order (terminal first, the `START` sentinel
//! last); display order is the reverse with the sentinel dropped.

use vstd::prelude::*;

use vstd::string::StringSliceAdditionalSpecFns;

use crate::element::{Op, Score};
use crate::matrix::Idx;

verus! {

/// The symbol written into an aligned sequence where the other sequence
/// consumed a position.
pub const GAP: char = '_';

/// One aligned column: the matrix position it was taken from, the operation
/// that produced it, and the subject and reference symbols shown there (a
/// gap symbol on the side that consumed nothing).
#[derive(Debug, PartialEq, Clone, Copy)]
pub struct Anchor {
    pub idx: Idx,
    pub op: Op,
    pub s: u8,
    pub r: u8,
}

/// The sentinel anchor closing every anchor chain.
pub open spec fn start_anchor() -> Anchor {
    Anchor { idx: (0usize, 0usize), op: Op::START, s: 0, r: 0 }
}

/// The anchor the builder records when it takes operation `op` at position
/// `(i, j)`: the consumed symbols, with the gap symbol on the unconsumed
/// side.
pub open spec fn anchor_at(op: Op, i: int, j: int, s: Seq<u8>, r: Seq<u8>) -> Anchor {
    match op {
        Op::MATCH => Anchor { idx: (i as usize, j as usize), op, s: s[i - 1], r: r[j - 1] },
        Op::DELETE => Anchor { idx: (i as usize, j as usize), op, s: GAP as u8, r: r[j - 1] },
        Op::INSERT => Anchor { idx: (i as usize, j as usize), op, s: s[i - 1], r: GAP as u8 },
        Op::START => Anchor { idx: (i as usize, j as usize), op, s: 0, r: 0 },
    }
}

impl Anchor {
    fn from(idx: Idx, op: Op, s: char, r: char) -> (a: Anchor)
        ensures
            a == (Anchor { idx, op, s: (s as u8), r: (r as u8) }),
    {
        Anchor { idx, op, s: s as u8, r: r as u8 }
    }
}

/// The anchors in display order: walk order reversed, without the `START`
/// sentinel.
pub open spec fn display_anchors(anchors: Seq<Anchor>) -> Seq<Anchor> {
    if anchors.len() >= 1 {
        anchors.reverse().skip(1)
    } else {
        Seq::empty()
    }
}

/// The aligned subject line, as bytes, in display order.
pub open spec fn aligned_subject_of(anchors: Seq<Anchor>) -> Seq<u8> {
    display_anchors(anchors).map_values(|a: Anchor| a.s)
}

/// The aligned reference line, as bytes, in display order.
pub open spec fn aligned_reference_of(anchors: Seq<Anchor>) -> Seq<u8> {
    display_anchors(anchors).map_values(|a: Anchor| a.r)
}

/// An aligned line with every gap symbol removed.
pub open spec fn strip_gaps(s: Seq<u8>) -> Seq<u8> {
    s.filter(|b: u8| b != GAP as u8)
}

/// The column shown for anchor `a`: subject symbol, marker (`match_symbol`
/// where the two symbols agree, blank otherwise), reference symbol.
pub open spec fn pair_of(a: Anchor, match_symbol: char) -> (char, char, char) {
    (a.s as char, if a.s == a.r { match_symbol } else { ' ' }, a.r as char)
}

/// All display columns of an anchor chain.
pub open spec fn spec_pairs(anchors: Seq<Anchor>, match_symbol: char) -> Seq<(char, char, char)> {
    display_anchors(anchors).map_values(|a: Anchor| pair_of(a, match_symbol))
}

/// Prepending one walk step to an anchor chain appends its column in
/// display order.
pub proof fn lemma_display_unfold(a: Anchor, q: Seq<Anchor>)
    requires
        q.len() >= 1,
    ensures
        display_anchors(seq![a] + q) == display_anchors(q) + seq![a],
{
    let p = seq![a] + q;
    assert forall|k: int| 0 <= k < p.len() - 1 implies p.reverse().skip(1)[k] == (display_anchors(
        q,
    ) + seq![a])[k] by {
        assert(p.reverse().skip(1)[k] == p.reverse()[k + 1]);
        assert(p.reverse()[k + 1] == p[p.len() - 2 - k]);
        if k < q.len() - 1 {
            assert(p[p.len() - 2 - k] == q[q.len() - 2 - k]);
            assert(display_anchors(q)[k] == q.reverse()[k + 1]);
        } else {
            assert(p[p.len() - 2 - k] == a);
        }
    }
    assert(display_anchors(seq![a] + q) =~= display_anchors(q) + seq![a]);
}

/// Prepending one walk step appends its subject symbol to the aligned
/// subject line and its reference symbol to the aligned reference line.
pub proof fn lemma_aligned_unfold(a: Anchor, q: Seq<Anchor>)
    requires
        q.len() >= 1,
    ensures
        aligned_subject_of(seq![a] + q) == aligned_subject_of(q).push(a.s),
        aligned_reference_of(seq![a] + q) == aligned_reference_of(q).push(a.r),
{
    lemma_display_unfold(a, q);
    assert(aligned_subject_of(seq![a] + q) =~= aligned_subject_of(q).push(a.s));
    assert(aligned_reference_of(seq![a] + q) =~= aligned_reference_of(q).push(a.r));
}

/// Stripping gaps commutes with appending one symbol: a gap symbol
/// disappears, any other symbol stays.
pub proof fn lemma_strip_gaps_push(s: Seq<u8>, b: u8)
    ensures
        b != GAP as u8 ==> strip_gaps(s.push(b)) == strip_gaps(s).push(b),
        b == GAP as u8 ==> strip_gaps(s.push(b)) == strip_gaps(s),
{
    reveal(Seq::filter);
    assert(s.push(b).drop_last() =~= s);
    assert(s.push(b).last() == b);
}

/// Relies on `String::push`: appends exactly the given character.
pub assume_specification[ String::push ](s: &mut String, ch: char)
    ensures
        final(s)@ == old(s)@.push(ch),
;

/// The final alignment: the optimal score and the anchor chain in walk
/// order. Owns its data; independent of the matrix it was read from.
#[derive(Debug, PartialEq)]
pub struct Alignment {
    pub score: Score,
    pub anchors: Vec<Anchor>,
}

impl Alignment {
    /// The columns of the alignment in display order, using `match_symbol`
    /// as the marker for agreeing symbols.
    pub fn pairs(&self, match_symbol: char) -> (v: Vec<(char, char, char)>)
        ensures
            v@ == spec_pairs(self.anchors@, match_symbol),
    {
        let len = self.anchors.len();
        let mut v: Vec<(char, char, char)> = Vec::new();
        if len == 0 {
            proof {
                assert(v@ =~= spec_pairs(self.anchors@, match_symbol));
            }
            return v;
        }
        let mut k: usize = 0;
        while k < len - 1
            invariant
                1 <= len == self.anchors@.len(),
                k <= len - 1,
                v@.len() == k,
                forall|t: int|
                    0 <= t < k ==> #[trigger] v@[t] == pair_of(
                        self.anchors@[len - 2 - t],
                        match_symbol,
                    ),
            decreases len - 1 - k,
        {
            let a = &self.anchors[len - 2 - k];
            let marker = if a.s == a.r {
                match_symbol
            } else {
                ' '
            };
            v.push((a.s as char, marker, a.r as char));
            k += 1;
        }
        proof {
            assert(v@ =~= spec_pairs(self.anchors@, match_symbol)) by {
                assert forall|t: int| 0 <= t < v@.len() implies v@[t] == spec_pairs(
                    self.anchors@,
                    match_symbol,
                )[t] by {
                    assert(display_anchors(self.anchors@)[t] == self.anchors@[len - 2 - t]);
                }
            }
        }
        v
    }

    /// The three display lines: aligned subject, markers, aligned reference.
    pub fn aligned_sequences(&self) -> (r: (String, String, String))
        ensures
            r.0@ == spec_pairs(self.anchors@, '|').map_values(|p: (char, char, char)| p.0),
            r.1@ == spec_pairs(self.anchors@, '|').map_values(|p: (char, char, char)| p.1),
            r.2@ == spec_pairs(self.anchors@, '|').map_values(|p: (char, char, char)| p.2),
    {
        let pairs = self.pairs('|');
        let mut subject_line = String::new();
        let mut marker_line = String::new();
        let mut reference_line = String::new();
        let mut k: usize = 0;
        while k < pairs.len()
            invariant
                k <= pairs@.len(),
                subject_line@ == pairs@.take(k as int).map_values(|p: (char, char, char)| p.0),
                marker_line@ == pairs@.take(k as int).map_values(|p: (char, char, char)| p.1),
                reference_line@ == pairs@.take(k as int).map_values(|p: (char, char, char)| p.2),
            decreases pairs@.len() - k,
        {
            let p = pairs[k];
            subject_line.push(p.0);
            marker_line.push(p.1);
            reference_line.push(p.2);
            proof {
                assert(pairs@.take(k + 1) =~= pairs@.take(k as int).push(pairs@[k as int]));
                assert(subject_line@ =~= pairs@.take(k + 1).map_values(
                    |p: (char, char, char)| p.0,
                ));
                assert(marker_line@ =~= pairs@.take(k + 1).map_values(
                    |p: (char, char, char)| p.1,
                ));
                assert(reference_line@ =~= pairs@.take(k + 1).map_values(
                    |p: (char, char, char)| p.2,
                ));
            }
            k += 1;
        }
        proof {
            assert(pairs@.take(pairs@.len() as int) =~= pairs@);
        }
        (subject_line, marker_line, reference_line)
    }
}

/// Accumulates anchors while the traceback walks the matrix backwards; each
/// taken operation appends the anchor for the current position.
pub struct AlignmentBuilder<'a> {
    anchors: Vec<Anchor>,
    subject: &'a [u8],
    reference: &'a [u8],
}

impl<'a> AlignmentBuilder<'a> {
    /// The anchors recorded so far, in walk order.
    pub closed spec fn anchors_view(self) -> Seq<Anchor> {
        self.anchors@
    }

    pub closed spec fn subject_view(self) -> Seq<u8> {
        self.subject@
    }

    pub closed spec fn reference_view(self) -> Seq<u8> {
        self.reference@
    }

    pub fn new(subject: &'a [u8], reference: &'a [u8]) -> (b: AlignmentBuilder<'a>)
        requires
            subject@.len() + reference@.len() <= usize::MAX,
        ensures
            b.anchors_view() == Seq::<Anchor>::empty(),
            b.subject_view() == subject@,
            b.reference_view() == reference@,
    {
        AlignmentBuilder {
            anchors: Vec::with_capacity(subject.len() + reference.len()),
            subject,
            reference,
        }
    }

    /// Records the anchor for taking operation `op` at position `idx`.
    pub fn take(&mut self, op: Op, idx: Idx)
        requires
            op != Op::DELETE && op != Op::START ==> 1 <= idx.0
                <= old(self).subject_view().len(),
            op != Op::INSERT && op != Op::START ==> 1 <= idx.1
                <= old(self).reference_view().len(),
        ensures
            final(self).anchors_view() == old(self).anchors_view().push(
                anchor_at(
                    op,
                    idx.0 as int,
                    idx.1 as int,
                    old(self).subject_view(),
                    old(self).reference_view(),
                ),
            ),
            final(self).subject_view() == old(self).subject_view(),
            final(self).reference_view() == old(self).reference_view(),
    {
        let anchor: Anchor = match op {
            Op::MATCH => Anchor {
                idx,
                op,
                s: self.subject[idx.0 - 1],
                r: self.reference[idx.1 - 1],
            },
            Op::DELETE => Anchor { idx, op, s: GAP as u8, r: self.reference[idx.1 - 1] },
            Op::INSERT => Anchor { idx, op, s: self.subject[idx.0 - 1], r: GAP as u8 },
            Op::START => Anchor { idx, op, s: 0, r: 0 },
        };
        self.anchors.push(anchor);
    }

    /// Consumes the builder, pairing the collected anchors with the score
    /// read from the terminal cell.
    pub fn build(self, score: Score) -> (al: Alignment)
        ensures
            al.score == score,
            al.anchors@ == self.anchors_view(),
    {
        Alignment { score, anchors: self.anchors }
    }
}

/// Count of symbol-consuming (non-gap) positions among the first `k`
/// characters of an aligned line.
pub open spec fn nongap_prefix(s: Seq<char>, k: int) -> int {
    s.take(k).filter(|c: char| c != GAP).len() as int
}

/// The anchor display column `k` of a gapped pair of aligned lines stands
/// for: the consumed-symbol counts up to and including this column, the
/// operation its symbols spell, and the symbols themselves as bytes.
pub open spec fn column_anchor(s: Seq<char>, r: Seq<char>, k: int) -> Anchor {
    Anchor {
        idx: ((nongap_prefix(s, k + 1) as usize), (nongap_prefix(r, k + 1) as usize)),
        op: spec_op(s[k], r[k]),
        s: (s[k] as u8),
        r: (r[k] as u8),
    }
}

/// The anchor chain, in walk order, that a gapped pair of aligned lines
/// stands for.
pub open spec fn spec_to_anchors(s: Seq<char>, r: Seq<char>) -> Seq<Anchor> {
    (seq![start_anchor()] + Seq::new(s.len(), |k: int| column_anchor(s, r, k))).reverse()
}

/// Position counters for rebuilding anchors from gapped lines: each
/// counter advances only when its line shows a symbol, not a gap.
struct IdxIncrementer {
    s_inc: usize,
    r_inc: usize,
}

impl IdxIncrementer {
    fn with(&mut self, s: char, r: char) -> (idx: Idx)
        requires
            old(self).s_inc < usize::MAX,
            old(self).r_inc < usize::MAX,
        ensures
            final(self).s_inc == if s != GAP {
                old(self).s_inc + 1
            } else {
                old(self).s_inc as int
            },
            final(self).r_inc == if r != GAP {
                old(self).r_inc + 1
            } else {
                old(self).r_inc as int
            },
            idx == (final(self).s_inc, final(self).r_inc),
    {
        (Self::with_char(&mut self.s_inc, s), Self::with_char(&mut self.r_inc, r))
    }

    fn with_char(i: &mut usize, c: char) -> (r: usize)
        requires
            *old(i) < usize::MAX,
        ensures
            *final(i) == if c != GAP {
                *old(i) + 1
            } else {
                *old(i) as int
            },
            r == *final(i),
    {
        if c != GAP {
            *i += 1;
        }
        *i
    }
}

/// The display-order anchors of a gapped pair of aligned lines, rebuilt
/// column by column.
fn from_strings(subject: &str, reference: &str) -> (v: Vec<Anchor>)
    requires
        subject.is_ascii(),
        reference.is_ascii(),
        subject@.len() == reference@.len(),
    ensures
        v@.len() == subject@.len(),
        forall|k: int|
            0 <= k < subject@.len() ==> #[trigger] v@[k] == column_anchor(
                subject@,
                reference@,
                k,
            ),
{
    broadcast use vstd::utf8::is_ascii_chars_encode_utf8;

    let sb = subject.as_bytes();
    let rb = reference.as_bytes();
    let n = sb.len();
    let mut v: Vec<Anchor> = Vec::new();
    let mut inc = IdxIncrementer { s_inc: 0, r_inc: 0 };
    proof {
        reveal(Seq::filter);
        assert(subject@.take(0) =~= Seq::<char>::empty());
        assert(reference@.take(0) =~= Seq::<char>::empty());
    }
    let mut k: usize = 0;
    while k < n
        invariant
            subject.is_ascii(),
            reference.is_ascii(),
            n == subject@.len(),
            n == reference@.len(),
            sb@ == subject.spec_bytes(),
            rb@ == reference.spec_bytes(),
            sb@.len() == n,
            rb@.len() == n,
            forall|t: int| 0 <= t < n ==> subject@[t] as u8 == #[trigger] sb@[t],
            forall|t: int| 0 <= t < n ==> reference@[t] as u8 == #[trigger] rb@[t],
            k <= n,
            inc.s_inc == nongap_prefix(subject@, k as int),
            inc.r_inc == nongap_prefix(reference@, k as int),
            inc.s_inc <= k,
            inc.r_inc <= k,
            v@.len() == k,
            forall|t: int|
                0 <= t < k ==> #[trigger] v@[t] == column_anchor(subject@, reference@, t),
        decreases n - k,
    {
        let s_byte = sb[k];
        let r_byte = rb[k];
        let s_char = s_byte as char;
        let r_char = r_byte as char;
        proof {
            vstd::utf8::is_ascii_chars_nat_bound(subject@);
            vstd::utf8::is_ascii_chars_nat_bound(reference@);
            assert(s_char == subject@[k as int]);
            assert(r_char == reference@[k as int]);
        }
        let idx = inc.with(s_char, r_char);
        let column_op = op(s_char, r_char);
        v.push(Anchor::from(idx, column_op, s_char, r_char));
        proof {
            reveal(Seq::filter);
            let su = subject@;
            let re = reference@;
            assert(su.take(k + 1).drop_last() =~= su.take(k as int));
            assert(re.take(k + 1).drop_last() =~= re.take(k as int));
            assert(su.take(k + 1).last() == su[k as int]);
            assert(re.take(k + 1).last() == re[k as int]);
            assert(inc.s_inc == nongap_prefix(su, k + 1));
            assert(inc.r_inc == nongap_prefix(re, k + 1));
            assert(v@[k as int] == column_anchor(su, re, k as int));
        }
        k += 1;
    }
    v
}

/// The anchors a gapped pair of aligned lines stands for, in walk order:
/// the display columns reversed, with the `START` sentinel closing the
/// chain.
pub fn to_anchors(subject: &str, reference: &str) -> (v: Vec<Anchor>)
    requires
        subject.is_ascii(),
        reference.is_ascii(),
        subject@.len() == reference@.len(),
    ensures
        v@ == spec_to_anchors(subject@, reference@),
{
    let columns = from_strings(subject, reference);
    let n = columns.len();
    let mut v: Vec<Anchor> = Vec::new();
    let mut k: usize = 0;
    while k < n
        invariant
            n == columns@.len(),
            n == subject@.len(),
            forall|t: int|
                0 <= t < n ==> #[trigger] columns@[t] == column_anchor(subject@, reference@, t),
            k <= n,
            v@.len() == k,
            forall|t: int| 0 <= t < k ==> #[trigger] v@[t] == columns@[n - 1 - t],
        decreases n - k,
    {
        v.push(columns[n - 1 - k]);
        k += 1;
    }
    v.push(Anchor { idx: (0, 0), op: Op::START, s: 0, r: 0 });
    proof {
        let spec = spec_to_anchors(subject@, reference@);
        assert forall|t: int| 0 <= t < v@.len() implies v@[t] == spec[t] by {
            let p = seq![start_anchor()] + Seq::new(
                subject@.len(),
                |x: int| column_anchor(subject@, reference@, x),
            );
            assert(spec[t] == p[p.len() - 1 - t]);
        }
        assert(v@ =~= spec);
    }
    v
}

impl Alignment {
    /// The alignment a pair of gapped ASCII lines of equal length spells
    /// out, paired with the given score.
    pub fn from(subject: &str, reference: &str, score: Score) -> (al: Alignment)
        requires
            subject.is_ascii(),
            reference.is_ascii(),
            subject@.len() == reference@.len(),
        ensures
            al.score == score,
            al.anchors@ == spec_to_anchors(subject@, reference@),
    {
        Alignment { score, anchors: to_anchors(subject, reference) }
    }
}

/// The operation a display column stands for, read off its two symbols: a
/// gap in the subject is a deletion, a gap in the reference an insertion,
/// anything else a match or substitution.
pub open spec fn spec_op(s: char, r: char) -> Op {
    if s == GAP {
        Op::DELETE
    } else if r == GAP {
        Op::INSERT
    } else {
        Op::MATCH
    }
}

pub fn op(s: char, r: char) -> (o: Op)
    ensures
        o == spec_op(s, r),
{
    if s == GAP {
        Op::DELETE
    } else if r == GAP {
        Op::INSERT
    } else {
        Op::MATCH
    }
}

} // verus!
