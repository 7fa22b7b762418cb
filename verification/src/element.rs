//! Scored matrix cells: an operation tag paired with a score, and the
//! three-state cell used by the affine-gap variant of the matrix.

use vstd::prelude::*;

verus! {

/// Alignment scores are plain integers; a scoring configuration chooses the
/// units (e.g. match = 1, mismatch = -1).
pub type Score = i64;

/// Sentinel score standing for "no path may end in this state": low enough
/// that no accumulated path score over admissible inputs ever reaches it.
pub const NEG_INF: Score = -0x2000_0000_0000_0000;

/// The scored state every fresh cell starts from: score zero at `START`.
pub open spec fn origin_scored() -> ScoredOp {
    ScoredOp { op: Op::START, score: 0 }
}

/// The "unreachable state" sentinel as a spec value.
pub open spec fn inf_scored() -> ScoredOp {
    ScoredOp { op: Op::START, score: NEG_INF }
}

/// A fresh cell: all three states at the origin value.
pub open spec fn origin_cell() -> Triple {
    Triple { m: origin_scored(), x: origin_scored(), y: origin_scored() }
}

/// The operation that produced a cell's score, also the backpointer used by
/// the traceback: `MATCH` consumes one symbol of both sequences, `INSERT`
/// consumes a subject symbol (gap in the reference), `DELETE` consumes a
/// reference symbol (gap in the subject), `START` marks the origin.
#[derive(Debug, PartialEq, Eq, Structural, Clone, Copy)]
pub enum Op {
    START,
    INSERT,
    MATCH,
    DELETE,
}

/// One scored state: the score together with the operation that produced it.
#[derive(Debug, PartialEq, Eq, Structural, Clone, Copy)]
pub struct ScoredOp {
    pub op: Op,
    pub score: Score,
}

impl ScoredOp {
    pub fn from(op: Op, score: Score) -> (r: ScoredOp)
        ensures
            r == (ScoredOp { op, score }),
    {
        ScoredOp { op, score }
    }

    /// The "unreachable state" sentinel.
    pub fn inf() -> (r: ScoredOp)
        ensures
            r == inf_scored(),
    {
        ScoredOp { op: Op::START, score: NEG_INF }
    }

    /// The score of a path that extends this state by one step of cost `rhs`.
    pub fn add(self, rhs: Score) -> (r: Score)
        requires
            i64::MIN <= self.score + rhs <= i64::MAX,
        ensures
            r == self.score + rhs,
    {
        self.score + rhs
    }
}

impl Default for ScoredOp {
    /// The origin state: score zero, produced by `START`.
    fn default() -> (r: Self)
        ensures
            r == origin_scored(),
    {
        ScoredOp { op: Op::START, score: 0 }
    }
}

/// A matrix cell. The simple recurrence only reads and writes `m`; the
/// affine-gap recurrence keeps the two gap states `x` (inside a run of
/// insertions) and `y` (inside a run of deletions) as well.
#[derive(Debug, PartialEq, Eq, Structural, Clone, Copy)]
pub struct Triple {
    pub m: ScoredOp,
    pub x: ScoredOp,
    pub y: ScoredOp,
}

impl Triple {
    pub fn from(m: ScoredOp, x: ScoredOp, y: ScoredOp) -> (r: Triple)
        ensures
            r == (Triple { m, x, y }),
    {
        Triple { m, x, y }
    }
}

impl Default for Triple {
    /// A fresh cell: all three states at the origin value.
    fn default() -> (r: Self)
        ensures
            r == origin_cell(),
    {
        Triple {
            m: ScoredOp { op: Op::START, score: 0 },
            x: ScoredOp { op: Op::START, score: 0 },
            y: ScoredOp { op: Op::START, score: 0 },
        }
    }
}

} // verus!
