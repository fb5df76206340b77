use synteny_plot::{
    pixel_run, project_alignments, project_record, scaled_extent, strand_color, AlignmentRecord,
    Color, CumulativeOffsetIndex, PixelWrite, ProjectionError, ScaffoldSizeTable,
};

fn table(rows: &[(&str, u64)]) -> ScaffoldSizeTable {
    ScaffoldSizeTable::from_rows(rows.iter().map(|(n, l)| (n.to_string(), *l)).collect())
}

fn record(t: &str, t_start: u64, q: &str, q_start: u64, aln_len: u64, strand: char) -> AlignmentRecord {
    AlignmentRecord {
        q_seqid: q.to_string(),
        q_len: 0,
        q_start,
        q_end: q_start + aln_len,
        strand,
        t_seqid: t.to_string(),
        t_len: 0,
        t_start,
        t_end: t_start + aln_len,
        n_match: aln_len,
        aln_len,
        map_q: 60,
    }
}

#[test]
fn example_forward_alignment_from_origin() {
    let mut target = CumulativeOffsetIndex::new(table(&[("chr1", 500), ("chr2", 300)]));
    let mut query = CumulativeOffsetIndex::new(table(&[("chrA", 1000)]));
    let w = project_record(&record("chr1", 0, "chrA", 0, 1200, '+'), &mut target, &mut query).unwrap();
    assert_eq!(target.offset(&"chr1".to_string()), Some(0));
    assert_eq!(query.offset(&"chrA".to_string()), Some(0));
    assert_eq!(w.len(), 1200);
    for (i, p) in w.iter().enumerate() {
        let i = i as u64;
        assert_eq!(*p, PixelWrite { x: i / 100, y: i / 100, color: Color::Red });
    }
    assert_eq!(w[0], PixelWrite { x: 0, y: 0, color: Color::Red });
    assert_eq!(w[1199], PixelWrite { x: 11, y: 11, color: Color::Red });
}

#[test]
fn short_alignment_draws_nothing() {
    let mut target = CumulativeOffsetIndex::new(table(&[("chr1", 500)]));
    let mut query = CumulativeOffsetIndex::new(table(&[("chrA", 1000)]));
    let w = project_record(&record("chr1", 0, "chrA", 0, 999, '+'), &mut target, &mut query).unwrap();
    assert!(w.is_empty());
    assert_eq!(target.total(), 0);
    assert_eq!(query.total(), 0);
    // unknown scaffolds are not even looked up for a short record
    let w = project_record(&record("nope", 0, "nope", 0, 0, '-'), &mut target, &mut query).unwrap();
    assert!(w.is_empty());
}

#[test]
fn strand_selects_colour() {
    assert_eq!(strand_color('+'), Color::Red);
    assert_eq!(strand_color('-'), Color::Blue);
    assert_eq!(strand_color('.'), Color::Yellow);
    assert_eq!(strand_color('x'), Color::Yellow);
    for (s, c) in [('+', Color::Red), ('-', Color::Blue), ('?', Color::Yellow)] {
        let mut target = CumulativeOffsetIndex::new(table(&[("t", 5000)]));
        let mut query = CumulativeOffsetIndex::new(table(&[("q", 5000)]));
        let w = project_record(&record("t", 10, "q", 20, 1000, s), &mut target, &mut query).unwrap();
        assert_eq!(w.len(), 1000);
        assert!(w.iter().all(|p| p.color == c));
    }
}

#[test]
fn record_uses_offsets_and_starts() {
    let mut target = CumulativeOffsetIndex::new(table(&[("chr1", 500), ("chr2", 300)]));
    let mut query = CumulativeOffsetIndex::new(table(&[("qa", 250), ("qb", 4000)]));
    assert_eq!(target.resolve(&"chr2".to_string()), Ok(0));
    assert_eq!(query.resolve(&"qa".to_string()), Ok(0));
    let w = project_record(&record("chr1", 150, "qb", 50, 1000, '-'), &mut target, &mut query).unwrap();
    // target offset 300, query offset 250
    assert_eq!(w[0], PixelWrite { x: 4, y: 3, color: Color::Blue });
    assert_eq!(w[999], PixelWrite { x: 14, y: 12, color: Color::Blue });
}

#[test]
fn unknown_scaffold_aborts_projection() {
    let mut target = CumulativeOffsetIndex::new(table(&[("chr1", 500)]));
    let mut query = CumulativeOffsetIndex::new(table(&[("chrA", 1000)]));
    let r = project_record(&record("chr9", 0, "chrA", 0, 1500, '+'), &mut target, &mut query);
    assert_eq!(r, Err(ProjectionError::UnknownScaffold));
    assert_eq!(target.total(), 0);
    assert_eq!(query.total(), 0);
    let r = project_record(&record("chr1", 0, "chrZ", 0, 1500, '+'), &mut target, &mut query);
    assert_eq!(r, Err(ProjectionError::UnknownScaffold));
    assert_eq!(target.total(), 500);
    assert_eq!(query.total(), 0);
}

#[test]
fn coordinate_overflow_is_refused() {
    let mut target = CumulativeOffsetIndex::new(table(&[("t", 10)]));
    let mut query = CumulativeOffsetIndex::new(table(&[("q", 10)]));
    let r = project_record(&record("t", u64::MAX - 500, "q", 0, 1000, '+'), &mut target, &mut query);
    assert_eq!(r, Err(ProjectionError::Overflow));
}

#[test]
fn stream_projection_in_first_seen_order() {
    let recs = vec![
        record("chr2", 0, "qa", 0, 1000, '+'),
        record("chr1", 0, "qa", 100, 500, '-'),
        record("chr1", 0, "qb", 0, 1000, '-'),
    ];
    let w = project_alignments(&recs, table(&[("chr1", 500), ("chr2", 300)]), table(&[("qa", 200), ("qb", 100)])).unwrap();
    assert_eq!(w.len(), 2000);
    assert_eq!(w[0], PixelWrite { x: 0, y: 0, color: Color::Red });
    // chr1 starts after chr2 (300), qb after qa (200)
    assert_eq!(w[1000], PixelWrite { x: 3, y: 2, color: Color::Blue });
    assert_eq!(w[1999], PixelWrite { x: 12, y: 11, color: Color::Blue });
}

#[test]
fn stream_projection_stops_at_unknown_scaffold() {
    let recs = vec![record("chr1", 0, "qa", 0, 1000, '+'), record("chrX", 0, "qa", 0, 1000, '+')];
    let r = project_alignments(&recs, table(&[("chr1", 500)]), table(&[("qa", 200)]));
    assert_eq!(r, Err(ProjectionError::UnknownScaffold));
    let r = project_alignments(&Vec::new(), table(&[]), table(&[]));
    assert_eq!(r, Ok(Vec::new()));
}

#[test]
fn pixel_run_scales_down() {
    let w = pixel_run(95, 1, 10, Color::Yellow);
    assert_eq!(w.len(), 10);
    assert_eq!(w[4], PixelWrite { x: 0, y: 0, color: Color::Yellow });
    assert_eq!(w[5], PixelWrite { x: 1, y: 0, color: Color::Yellow });
    assert!(pixel_run(0, 0, 0, Color::Red).is_empty());
}

#[test]
fn scaled_extent_divides_total() {
    assert_eq!(scaled_extent(&table(&[("a", 250), ("b", 1049)])), 12);
    assert_eq!(scaled_extent(&table(&[])), 0);
}
