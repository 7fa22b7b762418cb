use seqognize::alignment::Alignment;
use seqognize::element::{Op, ScoredOp, Triple};
use seqognize::matrix;
use seqognize::nt_aligner::{deletion, insertion, substitution, GlobalNtAligner, NtAlignmentConfig};

fn aligner() -> GlobalNtAligner {
    GlobalNtAligner {
        config: NtAlignmentConfig {
            match_score: 1,
            mismatch_penalty: -1,
            subject_gap_opening_penalty: -1,
            reference_gap_opening_penalty: -1,
            subject_gap_extension_penalty: -1,
            reference_gap_extension_penalty: -1,
        },
    }
}

fn with_inf(m: ScoredOp) -> Triple {
    Triple::from(m, ScoredOp::inf(), ScoredOp::inf())
}

fn with_zeros(m: ScoredOp) -> Triple {
    Triple::from(m, ScoredOp::default(), ScoredOp::default())
}

#[test]
fn test_fill_top_row() {
    let mut mtx = matrix::of(2, 3);
    aligner().fill_top_row(&mut mtx);
    assert_eq!(mtx.get((0, 0)), Triple::default());
    for i in 1..3 {
        assert_eq!(mtx.get((0, i)), with_inf(deletion(-(i as i64))));
    }
}

#[test]
fn test_fill_left_column() {
    let mut mtx = matrix::of(3, 2);
    aligner().fill_left_column(&mut mtx);
    assert_eq!(mtx.get((0, 0)), Triple::default());
    for i in 1..3 {
        assert_eq!(mtx.get((i, 0)), with_inf(insertion(-(i as i64))));
    }
}

#[test]
fn test_fill_with_match() {
    let mut mtx = matrix::from_elements(&vec![
        vec![Triple::default(), with_inf(deletion(-1))],
        vec![with_inf(insertion(-1)), with_zeros(substitution(0))],
    ]);
    aligner().fill(&mut mtx, b"A", b"A");
    assert_eq!(mtx.get((1, 1)), with_zeros(substitution(1)));
}

#[test]
fn test_trace_back_snp() {
    let mtx = matrix::from_elements(&vec![
        vec![Triple::default(), with_inf(deletion(-1))],
        vec![with_inf(insertion(-1)), with_zeros(substitution(1))],
    ]);
    assert_eq!(
        aligner().trace_back(&mtx, (1, 1), b"A", b"A"),
        Alignment::from("A", "A", 1)
    );
}

#[test]
fn test_trace_back_insertion() {
    let mtx = matrix::from_elements(&vec![
        vec![Triple::default()],
        vec![with_inf(insertion(-1))],
    ]);
    assert_eq!(
        aligner().trace_back(&mtx, (1, 0), &[b'A'], &[]),
        Alignment::from("A", "_", -1)
    );
}

#[test]
fn test_trace_back_deletion() {
    let mtx = matrix::from_elements(&vec![vec![Triple::default(), with_inf(deletion(-1))]]);
    assert_eq!(
        aligner().trace_back(&mtx, (0, 1), &[], &[b'A']),
        Alignment::from("_", "A", -1)
    );
}

#[test]
fn test_match() {
    assert_eq!(
        aligner().align(b"AGCT", b"AGCT"),
        Alignment::from("AGCT", "AGCT", 4)
    )
}

#[test]
fn test_mismatch() {
    assert_eq!(
        aligner().align(b"AGAT", b"AGCT"),
        Alignment::from("AGAT", "AGCT", 2)
    )
}

#[test]
fn test_insertion() {
    assert_eq!(
        aligner().align(b"AGCT", b"AGT"),
        Alignment::from("AGCT", "AG_T", 2)
    )
}

#[test]
fn test_deletion() {
    assert_eq!(
        aligner().align(b"AGT", b"AGCT"),
        Alignment::from("AG_T", "AGCT", 2)
    )
}

#[test]
fn test_double_insertion() {
    assert_eq!(
        aligner().align(b"AGCT", b"AT"),
        Alignment::from("AGCT", "A__T", 0)
    )
}

#[test]
fn test_double_deletion() {
    assert_eq!(
        aligner().align(b"AT", b"AGCT"),
        Alignment::from("A__T", "AGCT", 0)
    )
}

#[test]
fn test_leading_insertion() {
    assert_eq!(
        aligner().align(b"AGCT", b"GCT"),
        Alignment::from("AGCT", "_GCT", 2)
    )
}

#[test]
fn test_leading_deletion() {
    assert_eq!(
        aligner().align(b"GCT", b"AGCT"),
        Alignment::from("_GCT", "AGCT", 2)
    )
}

#[test]
fn test_trailing_insertion() {
    assert_eq!(
        aligner().align(b"AGCT", b"AGC"),
        Alignment::from("AGCT", "AGC_", 2)
    )
}

#[test]
fn test_trailing_deletion() {
    assert_eq!(
        aligner().align(b"AGC", b"AGCT"),
        Alignment::from("AGC_", "AGCT", 2)
    )
}

#[test]
fn test_two_insertions() {
    assert_eq!(
        aligner().align(b"AGCT", b"GT"),
        Alignment::from("AGCT", "_G_T", 0)
    )
}

#[test]
fn test_two_deletions() {
    assert_eq!(
        aligner().align(b"AC", b"AGCT"),
        Alignment::from("A_C_", "AGCT", 0)
    )
}

#[test]
fn test_empty_subject() {
    assert_eq!(
        aligner().align(b"", b"AGCT"),
        Alignment::from("____", "AGCT", -4)
    )
}

#[test]
fn test_empty_reference() {
    assert_eq!(
        aligner().align(b"AGCT", b""),
        Alignment::from("AGCT", "____", -4)
    )
}

#[test]
fn test_both_empty() {
    let alignment = aligner().align(b"", b"");
    assert_eq!(alignment.score, 0);
    let lines = alignment.aligned_sequences();
    assert_eq!(lines.0, "");
    assert_eq!(lines.2, "");
}

#[test]
fn test_self_alignment_scores_match_per_symbol() {
    let alignment = aligner().align(b"GATTACA", b"GATTACA");
    assert_eq!(alignment.score, 7);
    let lines = alignment.aligned_sequences();
    assert_eq!(lines.0, "GATTACA");
    assert_eq!(lines.1, "|||||||");
    assert_eq!(lines.2, "GATTACA");
}

#[test]
fn test_round_trip_strips_gaps() {
    let alignment = aligner().align(b"AGCT", b"AGT");
    let lines = alignment.aligned_sequences();
    assert_eq!(lines.0.len(), lines.2.len());
    let subject: String = lines.0.chars().filter(|c| *c != '_').collect();
    let reference: String = lines.2.chars().filter(|c| *c != '_').collect();
    assert_eq!(subject, "AGCT");
    assert_eq!(reference, "AGT");
}

#[test]
fn test_score_equals_terminal_cell() {
    let al = aligner();
    let mut mtx = matrix::of(4, 5);
    al.fill_top_row(&mut mtx);
    al.fill_left_column(&mut mtx);
    al.fill(&mut mtx, b"AGT", b"AGCT");
    let end = al.end_idx(&mtx);
    assert_eq!(end, (3, 4));
    let alignment = al.trace_back(&mtx, end, b"AGT", b"AGCT");
    assert_eq!(alignment.score, mtx.get(end).m.score);
}

#[test]
fn test_horizontal_lines_mark_mismatch() {
    let alignment = aligner().align(b"AGAT", b"AGCT");
    let lines = alignment.aligned_sequences();
    assert_eq!(lines.0, "AGAT");
    assert_eq!(lines.1, "|| |");
    assert_eq!(lines.2, "AGCT");
}

#[test]
fn test_vertical_pairs() {
    let alignment = aligner().align(b"AGCT", b"AGT");
    let pairs = alignment.pairs('-');
    assert_eq!(
        pairs,
        vec![
            ('A', '-', 'A'),
            ('G', '-', 'G'),
            ('C', ' ', '_'),
            ('T', '-', 'T'),
        ]
    );
}
