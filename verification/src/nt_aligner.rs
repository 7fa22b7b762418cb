//! The global aligner: scoring configuration, the Needleman-Wunsch
//! recurrence as a specification, the verified matrix fill, and the
//! traceback that reconstructs the aligned sequences.
//!
//! Conventions, fixed once and used everywhere: rows index the subject,
//! columns the reference; an `INSERT` consumes a subject symbol and writes a
//! gap into the aligned reference (one step up), a `DELETE` consumes a
//! reference symbol and writes a gap into the aligned subject (one step
//! left). Ties are broken substitution first, then insertion, then deletion.
//! Every gap position is charged its side's opening penalty; the
//! configuration carries extension penalties for affine-gap scoring
//! schemes, but the recurrence here is the single-penalty one.

use vstd::prelude::*;

use crate::alignment::{
    aligned_reference_of, aligned_subject_of, anchor_at, display_anchors, lemma_aligned_unfold,
    lemma_strip_gaps_push, start_anchor, strip_gaps, Alignment, AlignmentBuilder, Anchor, GAP,
};
use crate::element::{inf_scored, Op, Score, ScoredOp, Triple};
use crate::matrix::{grid, prev_idx, Idx, Matrix};
use crate::matrix;

verus! {

/// Largest magnitude a single configured score may have. Keeps every
/// accumulated path score far inside `i64` and above the sentinel.
pub const MAX_SCORE_MAG: Score = 0x1_0000_0000;

/// Largest sequence length the aligner accepts.
pub const MAX_SEQ_LEN: usize = 0x10_0000;

/// Uniform nucleotide scoring: one score for a match, one penalty for a
/// mismatch, and per-sequence gap opening and extension penalties.
#[derive(Debug, Clone, Copy)]
pub struct NtAlignmentConfig {
    pub match_score: Score,
    pub mismatch_penalty: Score,
    pub subject_gap_opening_penalty: Score,
    pub reference_gap_opening_penalty: Score,
    pub subject_gap_extension_penalty: Score,
    pub reference_gap_extension_penalty: Score,
}

impl NtAlignmentConfig {
    /// Every configured score is small enough that no accumulated path
    /// score over admissible sequence lengths can overflow.
    pub open spec fn valid(self) -> bool {
        &&& -MAX_SCORE_MAG <= self.match_score <= MAX_SCORE_MAG
        &&& -MAX_SCORE_MAG <= self.mismatch_penalty <= MAX_SCORE_MAG
        &&& -MAX_SCORE_MAG <= self.subject_gap_opening_penalty <= MAX_SCORE_MAG
        &&& -MAX_SCORE_MAG <= self.reference_gap_opening_penalty <= MAX_SCORE_MAG
        &&& -MAX_SCORE_MAG <= self.subject_gap_extension_penalty <= MAX_SCORE_MAG
        &&& -MAX_SCORE_MAG <= self.reference_gap_extension_penalty <= MAX_SCORE_MAG
    }

    /// Runtime check for [`NtAlignmentConfig::valid`], for callers that
    /// receive their scores from outside.
    pub fn is_valid(&self) -> (b: bool)
        ensures
            b == self.valid(),
    {
        self.match_score >= -MAX_SCORE_MAG && self.match_score <= MAX_SCORE_MAG
            && self.mismatch_penalty >= -MAX_SCORE_MAG && self.mismatch_penalty <= MAX_SCORE_MAG
            && self.subject_gap_opening_penalty >= -MAX_SCORE_MAG
            && self.subject_gap_opening_penalty <= MAX_SCORE_MAG
            && self.reference_gap_opening_penalty >= -MAX_SCORE_MAG
            && self.reference_gap_opening_penalty <= MAX_SCORE_MAG
            && self.subject_gap_extension_penalty >= -MAX_SCORE_MAG
            && self.subject_gap_extension_penalty <= MAX_SCORE_MAG
            && self.reference_gap_extension_penalty >= -MAX_SCORE_MAG
            && self.reference_gap_extension_penalty <= MAX_SCORE_MAG
    }

    pub fn get_substitution_score(&self, _pos: (usize, usize), s: u8, r: u8) -> (sc: Score)
        ensures
            sc == spec_substitution_score(*self, s, r),
    {
        if s == r {
            self.match_score
        } else {
            self.mismatch_penalty
        }
    }

    pub fn get_subject_gap_opening_penalty(&self, _pos: usize) -> (sc: Score)
        ensures
            sc == self.subject_gap_opening_penalty,
    {
        self.subject_gap_opening_penalty
    }

    pub fn get_reference_gap_opening_penalty(&self, _pos: usize) -> (sc: Score)
        ensures
            sc == self.reference_gap_opening_penalty,
    {
        self.reference_gap_opening_penalty
    }

    pub fn get_subject_gap_extension_penalty(&self, _pos: usize) -> (sc: Score)
        ensures
            sc == self.subject_gap_extension_penalty,
    {
        self.subject_gap_extension_penalty
    }

    pub fn get_reference_gap_extension_penalty(&self, _pos: usize) -> (sc: Score)
        ensures
            sc == self.reference_gap_extension_penalty,
    {
        self.reference_gap_extension_penalty
    }
}

/// The score for aligning subject symbol `s` against reference symbol `r`.
pub open spec fn spec_substitution_score(cfg: NtAlignmentConfig, s: u8, r: u8) -> int {
    if s == r {
        cfg.match_score as int
    } else {
        cfg.mismatch_penalty as int
    }
}

pub open spec fn max2(a: int, b: int) -> int {
    if a >= b {
        a
    } else {
        b
    }
}

/// The Needleman-Wunsch recurrence. `cell_score(cfg, s, r, i, j)` is the
/// optimal score for aligning the first `i` subject symbols against the
/// first `j` reference symbols: zero at the origin, accumulated gap opening
/// penalties along the boundary, and in the interior the best of extending
/// the diagonal (substitution), the cell above (insertion), or the cell to
/// the left (deletion).
pub open spec fn cell_score(cfg: NtAlignmentConfig, s: Seq<u8>, r: Seq<u8>, i: int, j: int) -> int
    decreases vstd::math::max(i, 0) + vstd::math::max(j, 0),
{
    if i <= 0 && j <= 0 {
        0
    } else if i <= 0 {
        cell_score(cfg, s, r, 0, j - 1) + cfg.subject_gap_opening_penalty
    } else if j <= 0 {
        cell_score(cfg, s, r, i - 1, 0) + cfg.reference_gap_opening_penalty
    } else {
        max2(
            cell_score(cfg, s, r, i - 1, j - 1) + spec_substitution_score(cfg, s[i - 1], r[j - 1]),
            max2(
                cell_score(cfg, s, r, i - 1, j) + cfg.reference_gap_opening_penalty,
                cell_score(cfg, s, r, i, j - 1) + cfg.subject_gap_opening_penalty,
            ),
        )
    }
}

/// The operation tag stored beside `cell_score`: which recurrence branch
/// produced the cell's value, ties broken substitution, then insertion,
/// then deletion.
pub open spec fn cell_op(cfg: NtAlignmentConfig, s: Seq<u8>, r: Seq<u8>, i: int, j: int) -> Op {
    if i <= 0 && j <= 0 {
        Op::START
    } else if i <= 0 {
        Op::DELETE
    } else if j <= 0 {
        Op::INSERT
    } else {
        let sub = cell_score(cfg, s, r, i - 1, j - 1) + spec_substitution_score(
            cfg,
            s[i - 1],
            r[j - 1],
        );
        let ins = cell_score(cfg, s, r, i - 1, j) + cfg.reference_gap_opening_penalty;
        let del = cell_score(cfg, s, r, i, j - 1) + cfg.subject_gap_opening_penalty;
        if sub >= ins && sub >= del {
            Op::MATCH
        } else if ins >= del {
            Op::INSERT
        } else {
            Op::DELETE
        }
    }
}

/// Every reachable cell score is bounded by the path length times the
/// largest configured magnitude.
pub proof fn lemma_cell_score_bound(
    cfg: NtAlignmentConfig,
    s: Seq<u8>,
    r: Seq<u8>,
    i: int,
    j: int,
)
    requires
        cfg.valid(),
        0 <= i,
        0 <= j,
    ensures
        -((i + j) * MAX_SCORE_MAG) <= cell_score(cfg, s, r, i, j) <= (i + j) * MAX_SCORE_MAG,
    decreases i + j,
{
    if i == 0 && j == 0 {
    } else if i == 0 {
        lemma_cell_score_bound(cfg, s, r, 0, j - 1);
    } else if j == 0 {
        lemma_cell_score_bound(cfg, s, r, i - 1, 0);
    } else {
        lemma_cell_score_bound(cfg, s, r, i - 1, j - 1);
        lemma_cell_score_bound(cfg, s, r, i - 1, j);
        lemma_cell_score_bound(cfg, s, r, i, j - 1);
    }
}

/// The accumulated top-row boundary score: `j` subject-gap openings.
pub open spec fn top_score(cfg: NtAlignmentConfig, j: int) -> int
    decreases j,
{
    if j <= 0 {
        0
    } else {
        top_score(cfg, j - 1) + cfg.subject_gap_opening_penalty
    }
}

/// The accumulated left-column boundary score: `i` reference-gap openings.
pub open spec fn left_score(cfg: NtAlignmentConfig, i: int) -> int
    decreases i,
{
    if i <= 0 {
        0
    } else {
        left_score(cfg, i - 1) + cfg.reference_gap_opening_penalty
    }
}

/// On the top row the recurrence accumulates exactly the boundary scores.
pub proof fn lemma_top_score_is_cell_score(
    cfg: NtAlignmentConfig,
    s: Seq<u8>,
    r: Seq<u8>,
    j: int,
)
    requires
        0 <= j,
    ensures
        cell_score(cfg, s, r, 0, j) == top_score(cfg, j),
    decreases j,
{
    if j > 0 {
        lemma_top_score_is_cell_score(cfg, s, r, j - 1);
    }
}

/// On the left column the recurrence accumulates exactly the boundary
/// scores.
pub proof fn lemma_left_score_is_cell_score(
    cfg: NtAlignmentConfig,
    s: Seq<u8>,
    r: Seq<u8>,
    i: int,
)
    requires
        0 <= i,
    ensures
        cell_score(cfg, s, r, i, 0) == left_score(cfg, i),
    decreases i,
{
    if i > 0 {
        lemma_left_score_is_cell_score(cfg, s, r, i - 1);
    }
}

/// The candidate chosen by [`select`]: the best of the three scores, ties
/// broken substitution, then insertion, then deletion.
pub open spec fn spec_select(sub: Score, ins: Score, del: Score) -> ScoredOp {
    if sub >= ins && sub >= del {
        ScoredOp { op: Op::MATCH, score: sub }
    } else if ins >= del {
        ScoredOp { op: Op::INSERT, score: ins }
    } else {
        ScoredOp { op: Op::DELETE, score: del }
    }
}

fn select(substitution_score: Score, insertion_score: Score, deletion_score: Score) -> (e:
    ScoredOp)
    ensures
        e == spec_select(substitution_score, insertion_score, deletion_score),
{
    if substitution_score >= insertion_score && substitution_score >= deletion_score {
        substitution(substitution_score)
    } else if insertion_score >= deletion_score {
        insertion(insertion_score)
    } else {
        deletion(deletion_score)
    }
}

pub fn insertion(score: Score) -> (e: ScoredOp)
    ensures
        e == (ScoredOp { op: Op::INSERT, score }),
{
    ScoredOp::from(Op::INSERT, score)
}

pub fn deletion(score: Score) -> (e: ScoredOp)
    ensures
        e == (ScoredOp { op: Op::DELETE, score }),
{
    ScoredOp::from(Op::DELETE, score)
}

pub fn substitution(score: Score) -> (e: ScoredOp)
    ensures
        e == (ScoredOp { op: Op::MATCH, score }),
{
    ScoredOp::from(Op::MATCH, score)
}

/// The shape of a written boundary cell: the tag and accumulated score in
/// the `m` state, both affine gap states at the unreachable sentinel.
pub open spec fn boundary_cell(op: Op, sc: int, t: Triple) -> bool {
    t.m.op == op && t.m.score == sc && t.x == inf_scored() && t.y
        == inf_scored()
}

/// The global aligner over a nucleotide scoring configuration.
pub struct GlobalNtAligner {
    pub config: NtAlignmentConfig,
}

impl From<NtAlignmentConfig> for GlobalNtAligner {
    fn from(config: NtAlignmentConfig) -> (a: GlobalNtAligner) {
        GlobalNtAligner { config }
    }
}

impl vstd::std_specs::convert::FromSpecImpl<NtAlignmentConfig> for GlobalNtAligner {
    open spec fn obeys_from_spec() -> bool {
        true
    }

    open spec fn from_spec(config: NtAlignmentConfig) -> GlobalNtAligner {
        GlobalNtAligner { config }
    }
}

impl GlobalNtAligner {
    /// Writes the top boundary row: cell `(0, j)` receives the `j`-fold
    /// accumulated subject-gap opening penalty, tagged `DELETE`, with both
    /// affine gap states at the unreachable sentinel. Every other cell is
    /// left in place.
    pub fn fill_top_row(&self, mtx: &mut Matrix)
        requires
            self.config.valid(),
            grid(*old(mtx)).len() >= 1,
            grid(*old(mtx))[0].len() >= 1,
            grid(*old(mtx))[0].len() <= MAX_SEQ_LEN + 1,
        ensures
            grid(*final(mtx)).len() == grid(*old(mtx)).len(),
            forall|i: int|
                1 <= i < grid(*old(mtx)).len() ==> #[trigger] grid(*final(mtx))[i] == grid(
                    *old(mtx),
                )[i],
            grid(*final(mtx))[0].len() == grid(*old(mtx))[0].len(),
            grid(*final(mtx))[0][0] == grid(*old(mtx))[0][0],
            forall|j: int|
                1 <= j < grid(*old(mtx))[0].len() ==> boundary_cell(
                    Op::DELETE,
                    top_score(self.config, j),
                    #[trigger] grid(*final(mtx))[0][j],
                ),
    {
        let cols = mtx.cols();
        let mut score: Score = 0;
        let mut j: usize = 1;
        while j < cols
            invariant
                self.config.valid(),
                1 <= j <= cols,
                cols == grid(*old(mtx))[0].len(),
                cols <= MAX_SEQ_LEN + 1,
                score == top_score(self.config, j - 1),
                -((j - 1) * MAX_SCORE_MAG) <= score <= (j - 1) * MAX_SCORE_MAG,
                grid(*mtx).len() == grid(*old(mtx)).len() >= 1,
                forall|i: int|
                    1 <= i < grid(*old(mtx)).len() ==> #[trigger] grid(*mtx)[i] == grid(
                        *old(mtx),
                    )[i],
                grid(*mtx)[0].len() == cols,
                grid(*mtx)[0][0] == grid(*old(mtx))[0][0],
                forall|c: int|
                    1 <= c < j ==> boundary_cell(
                        Op::DELETE,
                        top_score(self.config, c),
                        #[trigger] grid(*mtx)[0][c],
                    ),
                forall|c: int|
                    j <= c < cols ==> #[trigger] grid(*mtx)[0][c] == grid(*old(mtx))[0][c],
            decreases cols - j,
        {
            score = score + self.config.get_subject_gap_opening_penalty(j);
            mtx.set((0, j), Triple::from(deletion(score), ScoredOp::inf(), ScoredOp::inf()));
            j += 1;
        }
    }

    /// Writes the left boundary column: cell `(i, 0)` receives the `i`-fold
    /// accumulated reference-gap opening penalty, tagged `INSERT`, with both
    /// affine gap states at the unreachable sentinel. Every other cell is
    /// left in place.
    pub fn fill_left_column(&self, mtx: &mut Matrix)
        requires
            self.config.valid(),
            grid(*old(mtx)).len() >= 1,
            grid(*old(mtx)).len() <= MAX_SEQ_LEN + 1,
            forall|i: int|
                0 <= i < grid(*old(mtx)).len() ==> #[trigger] grid(*old(mtx))[i].len() >= 1,
        ensures
            grid(*final(mtx)).len() == grid(*old(mtx)).len(),
            forall|i: int|
                0 <= i < grid(*old(mtx)).len() ==> #[trigger] grid(*final(mtx))[i].len() == grid(
                    *old(mtx),
                )[i].len(),
            grid(*final(mtx))[0] == grid(*old(mtx))[0],
            forall|i: int, j: int|
                1 <= i < grid(*old(mtx)).len() && 1 <= j < grid(*old(mtx))[i].len()
                    ==> #[trigger] grid(*final(mtx))[i][j] == grid(*old(mtx))[i][j],
            forall|i: int|
                1 <= i < grid(*old(mtx)).len() ==> boundary_cell(
                    Op::INSERT,
                    left_score(self.config, i),
                    #[trigger] grid(*final(mtx))[i][0],
                ),
    {
        let rows = mtx.rows();
        let mut score: Score = 0;
        let mut i: usize = 1;
        while i < rows
            invariant
                self.config.valid(),
                1 <= i <= rows,
                rows == grid(*old(mtx)).len(),
                rows <= MAX_SEQ_LEN + 1,
                forall|r: int| 0 <= r < rows ==> #[trigger] grid(*old(mtx))[r].len() >= 1,
                score == left_score(self.config, i - 1),
                -((i - 1) * MAX_SCORE_MAG) <= score <= (i - 1) * MAX_SCORE_MAG,
                grid(*mtx).len() == rows,
                forall|r: int|
                    0 <= r < rows ==> #[trigger] grid(*mtx)[r].len() == grid(*old(mtx))[r].len(),
                grid(*mtx)[0] == grid(*old(mtx))[0],
                forall|r: int, c: int|
                    1 <= r < rows && 1 <= c < grid(*old(mtx))[r].len() ==> #[trigger] grid(
                        *mtx,
                    )[r][c] == grid(*old(mtx))[r][c],
                forall|r: int|
                    1 <= r < i ==> boundary_cell(
                        Op::INSERT,
                        left_score(self.config, r),
                        #[trigger] grid(*mtx)[r][0],
                    ),
                forall|r: int| i <= r < rows ==> #[trigger] grid(*mtx)[r][0] == grid(*old(mtx))[r][0],
            decreases rows - i,
        {
            score = score + self.config.get_reference_gap_opening_penalty(i);
            proof {
                assert(grid(*mtx)[i as int].len() == grid(*old(mtx))[i as int].len());
            }
            let ghost g0 = grid(*mtx);
            mtx.set((i, 0), Triple::from(insertion(score), ScoredOp::inf(), ScoredOp::inf()));
            proof {
                assert(grid(*mtx) == g0.update(
                    i as int,
                    g0[i as int].update(0, grid(*mtx)[i as int][0]),
                ));
                assert forall|r: int| 0 <= r < rows implies #[trigger] grid(*mtx)[r].len() == grid(
                    *old(mtx),
                )[r].len() by {
                    assert(grid(*mtx)[r].len() == g0[r].len());
                }
            }
            i += 1;
        }
    }
}

/// The `m` states of a grid hold exactly the recurrence's values and tags
/// for aligning `s` against `r`.
pub open spec fn m_filled(
    g: Seq<Seq<Triple>>,
    cfg: NtAlignmentConfig,
    s: Seq<u8>,
    r: Seq<u8>,
) -> bool {
    &&& g.len() == s.len() + 1
    &&& forall|i: int| 0 <= i < g.len() ==> #[trigger] g[i].len() == r.len() + 1
    &&& forall|i: int, j: int|
        0 <= i <= s.len() && 0 <= j <= r.len() ==> (#[trigger] g[i][j]).m.op == cell_op(
            cfg,
            s,
            r,
            i,
            j,
        ) && g[i][j].m.score == cell_score(cfg, s, r, i, j)
}

impl GlobalNtAligner {
    /// Fills the interior of the matrix in one forward sweep: every cell
    /// `(i, j)` with `i, j >= 1` receives the best of its three candidate
    /// extensions in its `m` state, with its affine gap states left as they
    /// were. Requires the boundary `m` scores to already hold the
    /// recurrence's boundary values.
    pub fn fill(&self, mtx: &mut Matrix, subject: &[u8], reference: &[u8])
        requires
            self.config.valid(),
            subject@.len() <= MAX_SEQ_LEN,
            reference@.len() <= MAX_SEQ_LEN,
            grid(*old(mtx)).len() == subject@.len() + 1,
            forall|i: int|
                0 <= i < grid(*old(mtx)).len() ==> #[trigger] grid(*old(mtx))[i].len()
                    == reference@.len() + 1,
            forall|j: int|
                0 <= j <= reference@.len() ==> (#[trigger] grid(*old(mtx))[0][j]).m.score
                    == cell_score(self.config, subject@, reference@, 0, j),
            forall|i: int|
                0 <= i <= subject@.len() ==> (#[trigger] grid(*old(mtx))[i][0]).m.score
                    == cell_score(self.config, subject@, reference@, i, 0),
        ensures
            grid(*final(mtx)).len() == grid(*old(mtx)).len(),
            forall|i: int|
                0 <= i < grid(*old(mtx)).len() ==> #[trigger] grid(*final(mtx))[i].len() == grid(
                    *old(mtx),
                )[i].len(),
            forall|i: int, j: int|
                0 <= i <= subject@.len() && 0 <= j <= reference@.len() && (i == 0 || j == 0)
                    ==> #[trigger] grid(*final(mtx))[i][j] == grid(*old(mtx))[i][j],
            forall|i: int, j: int|
                1 <= i <= subject@.len() && 1 <= j <= reference@.len() ==> (#[trigger] grid(
                    *final(mtx),
                )[i][j]).m.op == cell_op(self.config, subject@, reference@, i, j)
                    && grid(*final(mtx))[i][j].m.score == cell_score(
                    self.config,
                    subject@,
                    reference@,
                    i,
                    j,
                ) && grid(*final(mtx))[i][j].x == grid(*old(mtx))[i][j].x && grid(
                    *final(mtx),
                )[i][j].y == grid(*old(mtx))[i][j].y,
    {
        let rows = mtx.rows();
        let cols = mtx.cols();
        let ghost cfg = self.config;
        let ghost su = subject@;
        let ghost re = reference@;
        let mut row: usize = 1;
        while row < rows
            invariant
                cfg == self.config,
                su == subject@,
                re == reference@,
                cfg.valid(),
                su.len() <= MAX_SEQ_LEN,
                re.len() <= MAX_SEQ_LEN,
                1 <= row <= rows,
                rows == su.len() + 1,
                cols == re.len() + 1,
                grid(*mtx).len() == rows,
                grid(*old(mtx)).len() == rows,
                forall|i: int|
                    0 <= i < rows ==> #[trigger] grid(*old(mtx))[i].len() == cols,
                forall|i: int| 0 <= i < rows ==> #[trigger] grid(*mtx)[i].len() == cols,
                forall|j: int|
                    0 <= j < cols ==> (#[trigger] grid(*old(mtx))[0][j]).m.score == cell_score(
                        cfg,
                        su,
                        re,
                        0,
                        j,
                    ),
                forall|i: int|
                    0 <= i < rows ==> (#[trigger] grid(*old(mtx))[i][0]).m.score == cell_score(
                        cfg,
                        su,
                        re,
                        i,
                        0,
                    ),
                forall|i: int, j: int|
                    0 <= i < rows && 0 <= j < cols && (i == 0 || j == 0) ==> #[trigger] grid(
                        *mtx,
                    )[i][j] == grid(*old(mtx))[i][j],
                forall|i: int, j: int|
                    1 <= i < row && 1 <= j < cols ==> (#[trigger] grid(*mtx)[i][j]).m.op
                        == cell_op(cfg, su, re, i, j) && grid(*mtx)[i][j].m.score == cell_score(
                        cfg,
                        su,
                        re,
                        i,
                        j,
                    ) && grid(*mtx)[i][j].x == grid(*old(mtx))[i][j].x && grid(*mtx)[i][j].y
                        == grid(*old(mtx))[i][j].y,
                forall|i: int, j: int|
                    row <= i < rows && 1 <= j < cols ==> #[trigger] grid(*mtx)[i][j] == grid(
                        *old(mtx),
                    )[i][j],
            decreases rows - row,
        {
            let s = subject[row - 1];
            let mut col: usize = 1;
            while col < cols
                invariant
                    cfg == self.config,
                    su == subject@,
                    re == reference@,
                    cfg.valid(),
                    su.len() <= MAX_SEQ_LEN,
                    re.len() <= MAX_SEQ_LEN,
                    1 <= row < rows,
                    1 <= col <= cols,
                    rows == su.len() + 1,
                    cols == re.len() + 1,
                    s == su[row - 1],
                    grid(*mtx).len() == rows,
                    grid(*old(mtx)).len() == rows,
                    forall|i: int|
                        0 <= i < rows ==> #[trigger] grid(*old(mtx))[i].len() == cols,
                    forall|i: int| 0 <= i < rows ==> #[trigger] grid(*mtx)[i].len() == cols,
                    forall|j: int|
                        0 <= j < cols ==> (#[trigger] grid(*old(mtx))[0][j]).m.score == cell_score(
                            cfg,
                            su,
                            re,
                            0,
                            j,
                        ),
                    forall|i: int|
                        0 <= i < rows ==> (#[trigger] grid(*old(mtx))[i][0]).m.score == cell_score(
                            cfg,
                            su,
                            re,
                            i,
                            0,
                        ),
                    forall|i: int, j: int|
                        0 <= i < rows && 0 <= j < cols && (i == 0 || j == 0) ==> #[trigger] grid(
                            *mtx,
                        )[i][j] == grid(*old(mtx))[i][j],
                    forall|i: int, j: int|
                        1 <= i < row && 1 <= j < cols ==> (#[trigger] grid(*mtx)[i][j]).m.op
                            == cell_op(cfg, su, re, i, j) && grid(*mtx)[i][j].m.score
                            == cell_score(cfg, su, re, i, j) && grid(*mtx)[i][j].x == grid(
                            *old(mtx),
                        )[i][j].x && grid(*mtx)[i][j].y == grid(*old(mtx))[i][j].y,
                    forall|j: int|
                        1 <= j < col ==> (#[trigger] grid(*mtx)[row as int][j]).m.op == cell_op(
                            cfg,
                            su,
                            re,
                            row as int,
                            j,
                        ) && grid(*mtx)[row as int][j].m.score == cell_score(
                            cfg,
                            su,
                            re,
                            row as int,
                            j,
                        ) && grid(*mtx)[row as int][j].x == grid(*old(mtx))[row as int][j].x
                            && grid(*mtx)[row as int][j].y == grid(*old(mtx))[row as int][j].y,
                    forall|j: int|
                        col <= j < cols ==> #[trigger] grid(*mtx)[row as int][j] == grid(
                            *old(mtx),
                        )[row as int][j],
                    forall|i: int, j: int|
                        row < i < rows && 1 <= j < cols ==> #[trigger] grid(*mtx)[i][j] == grid(
                            *old(mtx),
                        )[i][j],
                decreases cols - col,
            {
                let r = reference[col - 1];
                let diag = mtx.get((row - 1, col - 1));
                let up = mtx.get((row - 1, col));
                let left = mtx.get((row, col - 1));
                proof {
                    let i = row as int;
                    let j = col as int;
                    assert(diag.m.score == cell_score(cfg, su, re, i - 1, j - 1));
                    assert(up.m.score == cell_score(cfg, su, re, i - 1, j));
                    assert(left.m.score == cell_score(cfg, su, re, i, j - 1));
                    lemma_cell_score_bound(cfg, su, re, i - 1, j - 1);
                    lemma_cell_score_bound(cfg, su, re, i - 1, j);
                    lemma_cell_score_bound(cfg, su, re, i, j - 1);
                }
                let m = select(
                    diag.m.add(self.config.get_substitution_score((row, col), s, r)),
                    up.m.add(self.config.get_reference_gap_opening_penalty(row)),
                    left.m.add(self.config.get_subject_gap_opening_penalty(col)),
                );
                let cur = mtx.get((row, col));
                let ghost g0 = grid(*mtx);
                mtx.set((row, col), Triple::from(m, cur.x, cur.y));
                proof {
                    let i = row as int;
                    let j = col as int;
                    assert forall|t: int| 0 <= t < rows implies #[trigger] grid(*mtx)[t].len()
                        == cols by {
                        assert(grid(*mtx)[t].len() == g0[t].len());
                    }
                    assert(grid(*mtx)[i][j].m == m);
                    assert(m.op == cell_op(cfg, su, re, i, j) && m.score == cell_score(
                        cfg,
                        su,
                        re,
                        i,
                        j,
                    ));
                }
                col += 1;
            }
            row += 1;
        }
    }
}

/// The anchors the traceback collects from cell `(i, j)` back to the
/// origin, in walk order: the anchor for the operation stored at `(i, j)`,
/// then the chain from the cell that operation came from, ending with the
/// `START` sentinel at the origin.
pub open spec fn path_anchors(
    cfg: NtAlignmentConfig,
    s: Seq<u8>,
    r: Seq<u8>,
    i: int,
    j: int,
) -> Seq<Anchor>
    decreases vstd::math::max(i, 0) + vstd::math::max(j, 0),
{
    if i <= 0 && j <= 0 {
        seq![start_anchor()]
    } else {
        let op = cell_op(cfg, s, r, i, j);
        let prev = prev_idx(op, i, j);
        seq![anchor_at(op, i, j, s, r)] + path_anchors(cfg, s, r, prev.0, prev.1)
    }
}

impl GlobalNtAligner {
    /// The terminal cell of a global alignment: the bottom-right corner.
    pub fn end_idx(&self, mtx: &Matrix) -> (idx: Idx)
        requires
            grid(*mtx).len() >= 1,
            grid(*mtx)[0].len() >= 1,
        ensures
            idx.0 == grid(*mtx).len() - 1,
            idx.1 == grid(*mtx)[0].len() - 1,
    {
        (mtx.rows() - 1, mtx.cols() - 1)
    }

    /// Walks the stored operation tags from the terminal cell back to the
    /// origin, collecting one anchor per step, and pairs them with the
    /// terminal cell's score. The returned score is exactly the score that
    /// stood in the terminal cell when the walk began: the traceback only
    /// reconstructs sequences, it never alters the score.
    pub fn trace_back(
        &self,
        mtx: &Matrix,
        end_index: Idx,
        subject: &[u8],
        reference: &[u8],
    ) -> (al: Alignment)
        requires
            m_filled(grid(*mtx), self.config, subject@, reference@),
            end_index.0 == subject@.len(),
            end_index.1 == reference@.len(),
            subject@.len() + reference@.len() <= usize::MAX,
        ensures
            al.anchors@ == path_anchors(
                self.config,
                subject@,
                reference@,
                subject@.len() as int,
                reference@.len() as int,
            ),
            al.score == grid(*mtx)[end_index.0 as int][end_index.1 as int].m.score,
            al.score == cell_score(
                self.config,
                subject@,
                reference@,
                subject@.len() as int,
                reference@.len() as int,
            ),
    {
        let ghost cfg = self.config;
        let ghost su = subject@;
        let ghost re = reference@;
        let mut builder = AlignmentBuilder::new(subject, reference);
        let mut cursor = end_index;
        while cursor.0 != 0 || cursor.1 != 0
            invariant
                cfg == self.config,
                su == subject@,
                re == reference@,
                m_filled(grid(*mtx), cfg, su, re),
                cursor.0 <= su.len(),
                cursor.1 <= re.len(),
                builder.subject_view() == su,
                builder.reference_view() == re,
                path_anchors(cfg, su, re, su.len() as int, re.len() as int)
                    == builder.anchors_view() + path_anchors(
                    cfg,
                    su,
                    re,
                    cursor.0 as int,
                    cursor.1 as int,
                ),
            decreases cursor.0 + cursor.1,
        {
            let element = mtx.get(cursor).m;
            proof {
                let i = cursor.0 as int;
                let j = cursor.1 as int;
                assert(element.op == cell_op(cfg, su, re, i, j));
                assert(element.op != Op::START);
            }
            let ghost before = builder.anchors_view();
            let ghost ci = cursor.0 as int;
            let ghost cj = cursor.1 as int;
            builder.take(element.op, cursor);
            cursor = matrix::move_back(&element, cursor);
            proof {
                let op = cell_op(cfg, su, re, ci, cj);
                assert(path_anchors(cfg, su, re, ci, cj) == seq![anchor_at(op, ci, cj, su, re)]
                    + path_anchors(cfg, su, re, cursor.0 as int, cursor.1 as int));
                assert(builder.anchors_view() + path_anchors(
                    cfg,
                    su,
                    re,
                    cursor.0 as int,
                    cursor.1 as int,
                ) =~= (before + path_anchors(cfg, su, re, ci, cj)));
            }
        }
        let ghost before = builder.anchors_view();
        builder.take(Op::START, cursor);
        proof {
            assert(anchor_at(Op::START, 0, 0, su, re) == start_anchor());
            assert(builder.anchors_view() =~= before + path_anchors(cfg, su, re, 0, 0));
            assert(builder.anchors_view() == path_anchors(
                cfg,
                su,
                re,
                su.len() as int,
                re.len() as int,
            ));
        }
        builder.build(mtx.get(end_index).m.score)
    }

    /// Aligns `subject` against `reference`: one matrix, one boundary fill,
    /// one interior sweep, one traceback. The resulting score is exactly
    /// the recurrence's value at the terminal cell, and the anchors are
    /// exactly the traceback chain from that cell.
    pub fn align(&self, subject: &[u8], reference: &[u8]) -> (al: Alignment)
        requires
            self.config.valid(),
            subject@.len() <= MAX_SEQ_LEN,
            reference@.len() <= MAX_SEQ_LEN,
        ensures
            al.score == cell_score(
                self.config,
                subject@,
                reference@,
                subject@.len() as int,
                reference@.len() as int,
            ),
            al.anchors@ == path_anchors(
                self.config,
                subject@,
                reference@,
                subject@.len() as int,
                reference@.len() as int,
            ),
    {
        let ghost cfg = self.config;
        let ghost su = subject@;
        let ghost re = reference@;
        let rows = subject.len() + 1;
        let cols = reference.len() + 1;
        proof {
            assert(rows * cols <= 0x1000_0000_0000) by (nonlinear_arith)
                requires
                    rows <= 0x10_0001,
                    cols <= 0x10_0001,
            ;
        }
        let mut mtx = matrix::of(rows, cols);
        self.fill_top_row(&mut mtx);
        self.fill_left_column(&mut mtx);
        proof {
            assert forall|j: int| 0 <= j < cols implies (#[trigger] grid(mtx)[0][j]).m.score
                == cell_score(cfg, su, re, 0, j) by {
                lemma_top_score_is_cell_score(cfg, su, re, j);
            }
            assert forall|i: int| 0 <= i < rows implies (#[trigger] grid(mtx)[i][0]).m.score
                == cell_score(cfg, su, re, i, 0) by {
                lemma_left_score_is_cell_score(cfg, su, re, i);
            }
        }
        self.fill(&mut mtx, subject, reference);
        proof {
            assert forall|i: int, j: int|
                0 <= i <= su.len() && 0 <= j <= re.len() implies (#[trigger] grid(
                mtx,
            )[i][j]).m.op == cell_op(cfg, su, re, i, j) && grid(mtx)[i][j].m.score == cell_score(
                cfg,
                su,
                re,
                i,
                j,
            ) by {
                if i == 0 && j == 0 {
                } else if i == 0 {
                    lemma_top_score_is_cell_score(cfg, su, re, j);
                } else if j == 0 {
                    lemma_left_score_is_cell_score(cfg, su, re, i);
                }
            }
            assert(m_filled(grid(mtx), cfg, su, re));
        }
        let end_index = self.end_idx(&mtx);
        self.trace_back(&mtx, end_index, subject, reference)
    }
}

/// Round trip, by induction over the traceback walk: the chain from
/// `(i, j)` carries one anchor per aligned column plus the sentinel, and
/// its two aligned lines strip back to exactly the consumed prefixes of
/// the inputs.
proof fn lemma_path_round_trip(cfg: NtAlignmentConfig, s: Seq<u8>, r: Seq<u8>, i: int, j: int)
    requires
        0 <= i <= s.len(),
        0 <= j <= r.len(),
        forall|k: int| 0 <= k < s.len() ==> s[k] != GAP as u8,
        forall|k: int| 0 <= k < r.len() ==> r[k] != GAP as u8,
    ensures
        path_anchors(cfg, s, r, i, j).len() >= 1,
        aligned_subject_of(path_anchors(cfg, s, r, i, j)).len() == path_anchors(
            cfg,
            s,
            r,
            i,
            j,
        ).len() - 1,
        aligned_reference_of(path_anchors(cfg, s, r, i, j)).len() == path_anchors(
            cfg,
            s,
            r,
            i,
            j,
        ).len() - 1,
        strip_gaps(aligned_subject_of(path_anchors(cfg, s, r, i, j))) == s.take(i),
        strip_gaps(aligned_reference_of(path_anchors(cfg, s, r, i, j))) == r.take(j),
    decreases i + j,
{
    let p = path_anchors(cfg, s, r, i, j);
    if i == 0 && j == 0 {
        assert(display_anchors(p) =~= Seq::<Anchor>::empty());
        assert(aligned_subject_of(p) =~= Seq::<u8>::empty());
        assert(aligned_reference_of(p) =~= Seq::<u8>::empty());
        reveal(Seq::filter);
        assert(s.take(0) =~= Seq::<u8>::empty());
        assert(r.take(0) =~= Seq::<u8>::empty());
    } else {
        let op = cell_op(cfg, s, r, i, j);
        let prev = prev_idx(op, i, j);
        let q = path_anchors(cfg, s, r, prev.0, prev.1);
        let a = anchor_at(op, i, j, s, r);
        assert(op != Op::START);
        assert(op == Op::MATCH || op == Op::INSERT ==> i >= 1);
        assert(op == Op::MATCH || op == Op::DELETE ==> j >= 1);
        lemma_path_round_trip(cfg, s, r, prev.0, prev.1);
        lemma_aligned_unfold(a, q);
        lemma_strip_gaps_push(aligned_subject_of(q), a.s);
        lemma_strip_gaps_push(aligned_reference_of(q), a.r);
        match op {
            Op::MATCH => {
                assert(a.s == s[i - 1] && a.r == r[j - 1]);
                assert(s.take(i) =~= s.take(i - 1).push(s[i - 1]));
                assert(r.take(j) =~= r.take(j - 1).push(r[j - 1]));
            },
            Op::INSERT => {
                assert(a.s == s[i - 1] && a.r == GAP as u8);
                assert(s.take(i) =~= s.take(i - 1).push(s[i - 1]));
            },
            Op::DELETE => {
                assert(a.s == GAP as u8 && a.r == r[j - 1]);
                assert(r.take(j) =~= r.take(j - 1).push(r[j - 1]));
            },
            Op::START => {
                assert(false);
            },
        }
    }
}

/// Round-trip law: over inputs free of the gap symbol, stripping the gap
/// symbol from each aligned line of the traceback chain reconstructs the
/// original subject and reference exactly, and the two aligned lines have
/// equal length.
pub proof fn lemma_round_trip(cfg: NtAlignmentConfig, s: Seq<u8>, r: Seq<u8>)
    requires
        forall|k: int| 0 <= k < s.len() ==> s[k] != GAP as u8,
        forall|k: int| 0 <= k < r.len() ==> r[k] != GAP as u8,
    ensures
        strip_gaps(
            aligned_subject_of(path_anchors(cfg, s, r, s.len() as int, r.len() as int)),
        ) == s,
        strip_gaps(
            aligned_reference_of(path_anchors(cfg, s, r, s.len() as int, r.len() as int)),
        ) == r,
        aligned_subject_of(path_anchors(cfg, s, r, s.len() as int, r.len() as int)).len()
            == aligned_reference_of(path_anchors(cfg, s, r, s.len() as int, r.len() as int)).len(),
{
    lemma_path_round_trip(cfg, s, r, s.len() as int, r.len() as int);
    assert(s.take(s.len() as int) =~= s);
    assert(r.take(r.len() as int) =~= r);
}

/// How many subject symbols an edit script consumes: one per match and
/// one per insertion.
pub open spec fn ops_subject_len(ops: Seq<Op>) -> int
    decreases ops.len(),
{
    if ops.len() == 0 {
        0
    } else {
        ops_subject_len(ops.drop_last()) + (match ops.last() {
            Op::MATCH => 1int,
            Op::INSERT => 1int,
            _ => 0int,
        })
    }
}

/// How many reference symbols an edit script consumes: one per match and
/// one per deletion.
pub open spec fn ops_reference_len(ops: Seq<Op>) -> int
    decreases ops.len(),
{
    if ops.len() == 0 {
        0
    } else {
        ops_reference_len(ops.drop_last()) + (match ops.last() {
            Op::MATCH => 1int,
            Op::DELETE => 1int,
            _ => 0int,
        })
    }
}

/// An edit script that globally aligns the first `i` subject symbols
/// against the first `j` reference symbols: match, insert and delete steps
/// only, consuming both prefixes in full.
pub open spec fn is_alignment_ops(ops: Seq<Op>, i: int, j: int) -> bool {
    &&& forall|k: int| 0 <= k < ops.len() ==> ops[k] != Op::START
    &&& ops_subject_len(ops) == i
    &&& ops_reference_len(ops) == j
}

/// The score an edit script earns: each match step scores its two symbols,
/// each insertion a reference-gap opening, each deletion a subject-gap
/// opening.
pub open spec fn ops_score(cfg: NtAlignmentConfig, s: Seq<u8>, r: Seq<u8>, ops: Seq<Op>) -> int
    decreases ops.len(),
{
    if ops.len() == 0 {
        0
    } else {
        let rest = ops.drop_last();
        ops_score(cfg, s, r, rest) + (match ops.last() {
            Op::MATCH => spec_substitution_score(
                cfg,
                s[ops_subject_len(rest)],
                r[ops_reference_len(rest)],
            ),
            Op::INSERT => cfg.reference_gap_opening_penalty as int,
            Op::DELETE => cfg.subject_gap_opening_penalty as int,
            Op::START => 0,
        })
    }
}

/// An edit script never consumes a negative number of symbols.
proof fn lemma_ops_lens_nonneg(ops: Seq<Op>)
    ensures
        ops_subject_len(ops) >= 0,
        ops_reference_len(ops) >= 0,
    decreases ops.len(),
{
    if ops.len() > 0 {
        lemma_ops_lens_nonneg(ops.drop_last());
    }
}

/// Optimality, one direction: no edit script that globally aligns the two
/// prefixes scores more than the recurrence's value for their cell.
pub proof fn lemma_no_script_beats_cell_score(
    cfg: NtAlignmentConfig,
    s: Seq<u8>,
    r: Seq<u8>,
    ops: Seq<Op>,
    i: int,
    j: int,
)
    requires
        is_alignment_ops(ops, i, j),
        0 <= i <= s.len(),
        0 <= j <= r.len(),
    ensures
        ops_score(cfg, s, r, ops) <= cell_score(cfg, s, r, i, j),
    decreases ops.len(),
{
    if ops.len() == 0 {
    } else {
        let rest = ops.drop_last();
        lemma_ops_lens_nonneg(rest);
        assert(forall|k: int| 0 <= k < rest.len() ==> rest[k] == ops[k]);
        match ops.last() {
            Op::MATCH => {
                lemma_no_script_beats_cell_score(cfg, s, r, rest, i - 1, j - 1);
            },
            Op::INSERT => {
                lemma_no_script_beats_cell_score(cfg, s, r, rest, i - 1, j);
            },
            Op::DELETE => {
                lemma_no_script_beats_cell_score(cfg, s, r, rest, i, j - 1);
            },
            Op::START => {
                assert(ops[ops.len() - 1] != Op::START);
            },
        }
    }
}

/// The edit script the traceback reads off the stored operation tags, in
/// forward order.
pub open spec fn best_ops(cfg: NtAlignmentConfig, s: Seq<u8>, r: Seq<u8>, i: int, j: int) -> Seq<
    Op,
>
    decreases vstd::math::max(i, 0) + vstd::math::max(j, 0),
{
    if i <= 0 && j <= 0 {
        Seq::empty()
    } else {
        let op = cell_op(cfg, s, r, i, j);
        let prev = prev_idx(op, i, j);
        best_ops(cfg, s, r, prev.0, prev.1).push(op)
    }
}

/// Optimality, the other direction: the traceback's own edit script is a
/// global alignment of the two prefixes and earns exactly the recurrence's
/// value, so together with [`lemma_no_script_beats_cell_score`] every cell
/// holds the best score achievable by any path from the origin.
pub proof fn lemma_best_ops_achieves_cell_score(
    cfg: NtAlignmentConfig,
    s: Seq<u8>,
    r: Seq<u8>,
    i: int,
    j: int,
)
    requires
        0 <= i <= s.len(),
        0 <= j <= r.len(),
    ensures
        is_alignment_ops(best_ops(cfg, s, r, i, j), i, j),
        ops_score(cfg, s, r, best_ops(cfg, s, r, i, j)) == cell_score(cfg, s, r, i, j),
    decreases i + j,
{
    if i == 0 && j == 0 {
    } else {
        let op = cell_op(cfg, s, r, i, j);
        let prev = prev_idx(op, i, j);
        assert(op != Op::START);
        lemma_best_ops_achieves_cell_score(cfg, s, r, prev.0, prev.1);
        let base = best_ops(cfg, s, r, prev.0, prev.1);
        let ops = best_ops(cfg, s, r, i, j);
        assert(ops == base.push(op));
        assert(ops.drop_last() =~= base);
        assert(forall|k: int| 0 <= k < base.len() ==> base[k] == ops[k]);
    }
}

/// Against itself, no cell can beat staying on the diagonal: a cell
/// `i - j` rows below the diagonal scores at most `j` matches plus that
/// many reference-gap openings, and symmetrically above it.
proof fn lemma_self_score_upper(cfg: NtAlignmentConfig, s: Seq<u8>, i: int, j: int)
    requires
        cfg.mismatch_penalty <= cfg.match_score,
        cfg.subject_gap_opening_penalty + cfg.reference_gap_opening_penalty <= cfg.match_score,
        0 <= i <= s.len(),
        0 <= j <= s.len(),
    ensures
        i >= j ==> cell_score(cfg, s, s, i, j) <= j * cfg.match_score + (i - j)
            * cfg.reference_gap_opening_penalty,
        j >= i ==> cell_score(cfg, s, s, i, j) <= i * cfg.match_score + (j - i)
            * cfg.subject_gap_opening_penalty,
    decreases i + j,
{
    let m = cfg.match_score as int;
    let rg = cfg.reference_gap_opening_penalty as int;
    let sg = cfg.subject_gap_opening_penalty as int;
    if i == 0 && j == 0 {
    } else if i == 0 {
        lemma_self_score_upper(cfg, s, 0, j - 1);
        assert((j - 1) * sg + sg == j * sg) by (nonlinear_arith);
        assert(0 * m == 0) by (nonlinear_arith);
    } else if j == 0 {
        lemma_self_score_upper(cfg, s, i - 1, 0);
        assert((i - 1) * rg + rg == i * rg) by (nonlinear_arith);
        assert(0 * m == 0) by (nonlinear_arith);
    } else {
        lemma_self_score_upper(cfg, s, i - 1, j - 1);
        lemma_self_score_upper(cfg, s, i - 1, j);
        lemma_self_score_upper(cfg, s, i, j - 1);
        let sub = cell_score(cfg, s, s, i - 1, j - 1) + spec_substitution_score(
            cfg,
            s[i - 1],
            s[j - 1],
        );
        let ins = cell_score(cfg, s, s, i - 1, j) + rg;
        let del = cell_score(cfg, s, s, i, j - 1) + sg;
        assert(cell_score(cfg, s, s, i, j) == max2(sub, max2(ins, del)));
        assert(spec_substitution_score(cfg, s[i - 1], s[j - 1]) <= m);
        if i >= j {
            assert(cell_score(cfg, s, s, i - 1, j - 1) <= (j - 1) * m + (i - j) * rg) by {
                assert(((i - 1) - (j - 1)) * rg == (i - j) * rg) by (nonlinear_arith);
            }
            assert(sub <= j * m + (i - j) * rg) by {
                assert((j - 1) * m + m == j * m) by (nonlinear_arith);
            }
            if i - 1 >= j {
                assert(ins <= j * m + (i - j) * rg) by {
                    assert((i - 1 - j) * rg + rg == (i - j) * rg) by (nonlinear_arith);
                }
            } else {
                assert(i == j);
                assert(cell_score(cfg, s, s, i - 1, j) <= (i - 1) * m + (j - i + 1) * sg) by {
                    assert((j - (i - 1)) * sg == (j - i + 1) * sg) by (nonlinear_arith);
                }
                assert(ins <= j * m + (i - j) * rg) by {
                    assert((j - i + 1) * sg == (j - i) * sg + sg) by (nonlinear_arith);
                    assert(i == j ==> (j - i) * sg == 0 && (i - j) * rg == 0 && i * m == j * m)
                        by (nonlinear_arith);
                    assert((i - 1) * m + m == i * m) by (nonlinear_arith);
                }
            }
            assert(cell_score(cfg, s, s, i, j - 1) <= (j - 1) * m + (i - j + 1) * rg) by {
                assert((i - (j - 1)) * rg == (i - j + 1) * rg) by (nonlinear_arith);
            }
            assert(del <= j * m + (i - j) * rg) by {
                assert((i - j + 1) * rg == (i - j) * rg + rg) by (nonlinear_arith);
                assert((j - 1) * m + m == j * m) by (nonlinear_arith);
            }
            assert(cell_score(cfg, s, s, i, j) <= j * m + (i - j) * rg);
        }
        if j >= i {
            assert(cell_score(cfg, s, s, i - 1, j - 1) <= (i - 1) * m + (j - i) * sg) by {
                assert(((j - 1) - (i - 1)) * sg == (j - i) * sg) by (nonlinear_arith);
            }
            assert(sub <= i * m + (j - i) * sg) by {
                assert((i - 1) * m + m == i * m) by (nonlinear_arith);
            }
            if j - 1 >= i {
                assert(del <= i * m + (j - i) * sg) by {
                    assert((j - 1 - i) * sg + sg == (j - i) * sg) by (nonlinear_arith);
                }
            } else {
                assert(j == i);
                assert(cell_score(cfg, s, s, i, j - 1) <= (j - 1) * m + (i - j + 1) * rg) by {
                    assert((i - (j - 1)) * rg == (i - j + 1) * rg) by (nonlinear_arith);
                }
                assert(del <= i * m + (j - i) * sg) by {
                    assert((i - j + 1) * rg == (i - j) * rg + rg) by (nonlinear_arith);
                    assert(j == i ==> (i - j) * rg == 0 && (j - i) * sg == 0 && j * m == i * m)
                        by (nonlinear_arith);
                    assert((j - 1) * m + m == j * m) by (nonlinear_arith);
                }
            }
            assert(cell_score(cfg, s, s, i - 1, j) <= (i - 1) * m + (j - i + 1) * sg) by {
                assert((j - (i - 1)) * sg == (j - i + 1) * sg) by (nonlinear_arith);
            }
            assert(ins <= i * m + (j - i) * sg) by {
                assert((j - i + 1) * sg == (j - i) * sg + sg) by (nonlinear_arith);
                assert((i - 1) * m + m == i * m) by (nonlinear_arith);
            }
            assert(cell_score(cfg, s, s, i, j) <= i * m + (j - i) * sg);
        }
    }
}

/// Aligning a sequence against itself: the diagonal cell `(i, i)` holds
/// exactly `i` matches, tagged as a match.
proof fn lemma_self_diag(cfg: NtAlignmentConfig, s: Seq<u8>, i: int)
    requires
        cfg.mismatch_penalty <= cfg.match_score,
        cfg.subject_gap_opening_penalty + cfg.reference_gap_opening_penalty <= cfg.match_score,
        0 <= i <= s.len(),
    ensures
        cell_score(cfg, s, s, i, i) == i * cfg.match_score,
        i >= 1 ==> cell_op(cfg, s, s, i, i) == Op::MATCH,
    decreases i,
{
    let m = cfg.match_score as int;
    let rg = cfg.reference_gap_opening_penalty as int;
    let sg = cfg.subject_gap_opening_penalty as int;
    if i == 0 {
        assert(0 * m == 0) by (nonlinear_arith);
    } else {
        lemma_self_diag(cfg, s, i - 1);
        lemma_self_score_upper(cfg, s, i - 1, i);
        lemma_self_score_upper(cfg, s, i, i - 1);
        assert((i - 1) * m + m == i * m) by (nonlinear_arith);
        assert(1 * rg == rg) by (nonlinear_arith);
        assert(1 * sg == sg) by (nonlinear_arith);
    }
}

/// On the diagonal of a self-alignment the traceback emits one match per
/// symbol, so both aligned lines reproduce the consumed prefix.
proof fn lemma_self_path(cfg: NtAlignmentConfig, s: Seq<u8>, i: int)
    requires
        cfg.mismatch_penalty <= cfg.match_score,
        cfg.subject_gap_opening_penalty + cfg.reference_gap_opening_penalty <= cfg.match_score,
        0 <= i <= s.len(),
    ensures
        aligned_subject_of(path_anchors(cfg, s, s, i, i)) == s.take(i),
        aligned_reference_of(path_anchors(cfg, s, s, i, i)) == s.take(i),
    decreases i,
{
    let p = path_anchors(cfg, s, s, i, i);
    if i == 0 {
        assert(display_anchors(p) =~= Seq::<Anchor>::empty());
        assert(aligned_subject_of(p) =~= Seq::<u8>::empty());
        assert(aligned_reference_of(p) =~= Seq::<u8>::empty());
        assert(s.take(0) =~= Seq::<u8>::empty());
    } else {
        lemma_self_diag(cfg, s, i);
        let op = cell_op(cfg, s, s, i, i);
        assert(op == Op::MATCH);
        let q = path_anchors(cfg, s, s, i - 1, i - 1);
        let a = anchor_at(op, i, i, s, s);
        lemma_self_path(cfg, s, i - 1);
        lemma_aligned_unfold(a, q);
        assert(a.s == s[i - 1] && a.r == s[i - 1]);
        assert(s.take(i) =~= s.take(i - 1).push(s[i - 1]));
    }
}

/// Self-alignment law: under a scheme where a match is worth at least a
/// mismatch and at least the two gap openings together, aligning a
/// sequence against itself scores the match score once per symbol, and
/// both aligned lines are the sequence itself.
pub proof fn lemma_self_alignment(cfg: NtAlignmentConfig, s: Seq<u8>)
    requires
        cfg.mismatch_penalty <= cfg.match_score,
        cfg.subject_gap_opening_penalty + cfg.reference_gap_opening_penalty <= cfg.match_score,
    ensures
        cell_score(cfg, s, s, s.len() as int, s.len() as int) == s.len() * cfg.match_score,
        aligned_subject_of(path_anchors(cfg, s, s, s.len() as int, s.len() as int)) == s,
        aligned_reference_of(path_anchors(cfg, s, s, s.len() as int, s.len() as int)) == s,
{
    lemma_self_diag(cfg, s, s.len() as int);
    lemma_self_path(cfg, s, s.len() as int);
    assert(s.take(s.len() as int) =~= s);
}

} // verus!
