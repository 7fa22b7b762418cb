use seqognize::alignment::{op, to_anchors, Alignment, AlignmentBuilder, Anchor, GAP};
use seqognize::alignment_mtx::{element, max_score, Element, Mtx, Pointer};
use seqognize::alignment_mtx;
use seqognize::element::Op;
use seqognize::iterators::{accumulate, SeqIterator};
use seqognize::matrix::{move_back, of, Matrix};
use seqognize::nt_aligner::{GlobalNtAligner, NtAlignmentConfig};

fn config() -> NtAlignmentConfig {
    NtAlignmentConfig {
        match_score: 1,
        mismatch_penalty: -1,
        subject_gap_opening_penalty: -1,
        reference_gap_opening_penalty: -1,
        subject_gap_extension_penalty: -1,
        reference_gap_extension_penalty: -1,
    }
}

#[test]
fn test_get_substitution_score() {
    assert_eq!(config().get_substitution_score((0, 0), b'a', b'a'), 1);
    assert_eq!(config().get_substitution_score((0, 0), b'a', b'b'), -1);
}

#[test]
fn test_get_subject_gap_penalty() {
    assert_eq!(
        config().get_subject_gap_opening_penalty(0),
        config().get_reference_gap_extension_penalty(0)
    )
}

#[test]
fn test_get_reference_gap_penalty() {
    assert_eq!(
        config().get_reference_gap_opening_penalty(0),
        config().get_reference_gap_extension_penalty(0)
    )
}

#[test]
fn test_element() {
    let score = 0;
    let pointer: Pointer = Pointer::LEFT;
    let el = Element { score, pointer };
    assert_eq!(el, Element { score: 0, pointer: Pointer::LEFT });
    assert_eq!(el.add(1), Element { score: 1, pointer: Pointer::LEFT });
    assert_eq!(el.sub(1), Element { score: -1, pointer: Pointer::LEFT });
}

#[test]
fn test_dimensions() {
    let mtx = alignment_mtx::of(3, 2);
    assert_eq!(mtx.num_rows(), 3);
    assert_eq!(mtx.num_columns(), 2);
}

#[test]
fn test_max_score_picks_highest() {
    let lowest = element(-3, Pointer::LEFT);
    let highest = element(7, Pointer::UP);
    let middle = element(2, Pointer::SUBST);
    let elements = [&lowest, &highest, &middle];
    assert_eq!(max_score(&elements), Some(&highest));
    let empty: [&Element; 0] = [];
    assert_eq!(max_score(&empty), None);
}

#[test]
fn test_max_score_last_of_ties() {
    let first = element(5, Pointer::LEFT);
    let second = element(5, Pointer::UP);
    let elements = [&first, &second];
    assert_eq!(max_score(&elements), Some(&second));
}

#[test]
fn test_scored_pointer_grid_round_trip() {
    let rows = vec![
        vec![element(0, Pointer::SUBST), element(-1, Pointer::LEFT)],
        vec![element(-1, Pointer::UP), element(1, Pointer::SUBST)],
    ];
    let mtx = alignment_mtx::from_elements(&rows);
    assert_eq!(mtx.get(0, 1), element(-1, Pointer::LEFT));
    assert_eq!(mtx.get(1, 1), element(1, Pointer::SUBST));
}

#[test]
fn test_op() {
    assert_eq!(op('_', 'A'), Op::DELETE);
    assert_eq!(op('A', '_'), Op::INSERT);
    assert_eq!(op('A', 'A'), Op::MATCH);
    assert_eq!(op('A', 'C'), Op::MATCH);
}

#[test]
fn test_gap_symbol() {
    assert_eq!(GAP, '_');
}

#[test]
fn test_to_anchors_orders_walk_backwards() {
    let anchors = to_anchors("AC", "A_");
    assert_eq!(
        anchors,
        vec![
            Anchor { idx: (2, 1), op: Op::INSERT, s: b'C', r: b'_' },
            Anchor { idx: (1, 1), op: Op::MATCH, s: b'A', r: b'A' },
            Anchor { idx: (0, 0), op: Op::START, s: 0, r: 0 },
        ]
    );
}

#[test]
fn test_alignment_from_keeps_score() {
    let alignment = Alignment::from("AG", "AG", 2);
    assert_eq!(alignment.score, 2);
    assert_eq!(alignment.anchors.len(), 3);
}

#[test]
fn test_builder_take_and_build() {
    let subject = b"AG";
    let reference = b"AG";
    let mut builder = AlignmentBuilder::new(subject, reference);
    builder.take(Op::MATCH, (2, 2));
    builder.take(Op::MATCH, (1, 1));
    builder.take(Op::START, (0, 0));
    let alignment = builder.build(2);
    assert_eq!(alignment, Alignment::from("AG", "AG", 2));
}

#[test]
fn test_move_back() {
    let m = seqognize::nt_aligner::substitution(3);
    let i = seqognize::nt_aligner::insertion(3);
    let d = seqognize::nt_aligner::deletion(3);
    assert_eq!(move_back(&m, (2, 2)), (1, 1));
    assert_eq!(move_back(&i, (2, 2)), (1, 2));
    assert_eq!(move_back(&d, (2, 2)), (2, 1));
}

#[test]
fn test_cell_grid_from_elements() {
    let d = seqognize::element::Triple::default();
    let rows = vec![vec![d, d, d], vec![d, d, d]];
    let mtx: Matrix = seqognize::matrix::from_elements(&rows);
    assert_eq!(mtx.rows(), 2);
    assert_eq!(mtx.cols(), 3);
    assert_eq!(mtx.get((1, 2)), d);
}

#[test]
fn test_of_fills_with_origin_cells() {
    let mtx = of(2, 2);
    assert_eq!(mtx.get((1, 1)), seqognize::element::Triple::default());
}

#[test]
fn test_config_validity() {
    assert!(config().is_valid());
    let skewed = NtAlignmentConfig { match_score: i64::MAX, ..config() };
    assert!(!skewed.is_valid());
}

#[test]
fn test_aligner_from_config() {
    let aligner = GlobalNtAligner::from(config());
    assert_eq!(aligner.config.match_score, 1);
}

#[test]
fn test_seq_iterator_next_byte() {
    let mut it = SeqIterator::from("AGC");
    assert_eq!(it.next_byte(), b'A');
    assert_eq!(it.next_byte(), b'G');
    assert_eq!(it.next_byte(), b'C');
}

#[test]
fn test_seq_iterator_next_char() {
    let mut it = seqognize::seq_iterator::SeqIterator::from("AGC");
    assert_eq!(it.next_char(), 'A');
    assert_eq!(it.next_char(), 'G');
}

#[test]
fn test_accumulate() {
    let sums = accumulate(4, |_n| -1);
    assert_eq!(sums, vec![0, -1, -2, -3, -4]);
}

#[test]
fn test_accumulate_empty() {
    let sums = accumulate(0, |_n| 5);
    assert_eq!(sums, vec![0]);
}
