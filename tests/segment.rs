use nvdb_rs::error::DbError;
use nvdb_rs::flush::{FlushProgress, FlushStep};
use nvdb_rs::knn::KNNIndex;
use nvdb_rs::metrics::Metric;
use nvdb_rs::segment::{decode_ids, decode_values, Metadata, SegmentReader, SegmentWriter};

fn bits(v: &[f32]) -> Vec<u32> {
    v.iter().map(|x| x.to_bits()).collect()
}

fn euclidean(a: &[f32], b: &[f32]) -> f32 {
    -a.iter().zip(b).map(|(x, y)| (x - y) * (x - y)).sum::<f32>().sqrt()
}

fn written() -> SegmentWriter {
    let mut writer = SegmentWriter::new("test_segment", 3, Metric::Euclidean);
    writer.push(1, &bits(&[1.0, 2.0, 3.0])).unwrap();
    writer.push(2, &bits(&[4.0, 5.0, 6.0])).unwrap();
    writer.push(3, &bits(&[7.0, 8.0, 9.0])).unwrap();
    writer
}

fn read_back(writer: &SegmentWriter) -> SegmentReader {
    SegmentReader::open(writer.metadata().unwrap(), writer.id_bytes(), writer.vector_bytes())
}

#[test]
fn test_segment() {
    let writer = written();
    let reader = read_back(&writer);
    let index = reader.load_index().expect("failed to load index");
    assert_eq!(index.len(), 3);
    assert_eq!(index.dims(), 3);
    let stored: [[f32; 3]; 3] = [[1.0, 2.0, 3.0], [4.0, 5.0, 6.0], [7.0, 8.0, 9.0]];
    for (n, q) in stored.iter().enumerate() {
        let scores: Vec<u32> = stored.iter().map(|v| euclidean(q, v).to_bits()).collect();
        assert_eq!(index.search(&bits(q), &scores, 1).unwrap()[0].0, n as u64 + 1);
    }
}

#[test]
fn id_and_vector_bytes_are_little_endian() {
    let mut writer = SegmentWriter::new("s", 1, Metric::Cosine);
    writer.push(0x0102_0304_0506_0708, &bits(&[1.0])).unwrap();
    assert_eq!(writer.id_bytes(), vec![8, 7, 6, 5, 4, 3, 2, 1]);
    assert_eq!(writer.vector_bytes(), vec![0x00, 0x00, 0x80, 0x3F]);
    assert_eq!(decode_ids(&writer.id_bytes()), Some(vec![0x0102_0304_0506_0708]));
    assert_eq!(decode_values(&writer.vector_bytes()), Some(bits(&[1.0])));
}

#[test]
fn decoding_rejects_a_partial_word() {
    assert_eq!(decode_ids(&vec![1, 0, 0, 0, 0, 0, 0, 0, 9, 9]), None);
    assert_eq!(decode_values(&vec![2, 0, 0, 0, 9]), None);
    assert_eq!(decode_ids(&vec![]), Some(vec![]));
}

#[test]
fn load_rejects_trailing_bytes() {
    let writer = written();
    let mut ids = writer.id_bytes();
    ids.push(0);
    let r = SegmentReader::open(writer.metadata().unwrap(), ids, writer.vector_bytes());
    assert_eq!(r.load_index().err(), Some(DbError::DataCorruption));
    let mut vectors = writer.vector_bytes();
    vectors.extend([0, 0]);
    let r = SegmentReader::open(writer.metadata().unwrap(), writer.id_bytes(), vectors);
    assert_eq!(r.load_index().err(), Some(DbError::DataCorruption));
}

#[test]
fn writer_names_and_metadata() {
    let writer = written();
    assert_eq!(writer.name(), "test_segment");
    assert_eq!(writer.tmp_name(), "test_segment.tmp");
    let m = writer.metadata().unwrap();
    assert_eq!((m.count, m.dim, m.metric.as_str()), (3, 3, "Euclidean"));
}

#[test]
fn push_rejects_wrong_length() {
    let mut writer = SegmentWriter::new("s", 2, Metric::Cosine);
    assert_eq!(writer.push(1, &bits(&[1.0])), Err(DbError::PreconditionViolation));
    assert_eq!(writer.id_bytes(), Vec::<u8>::new());
}

#[test]
fn index_hands_its_entries_to_a_fresh_segment() {
    let index = KNNIndex::new(2, Metric::DotProduct, vec![9, 8], vec![bits(&[1.0, 2.0]), bits(&[3.0, 4.0])]).unwrap();
    let writer = index.write_to_segment();
    let name = writer.name();
    assert_eq!(name.len(), 36);
    for (i, c) in name.chars().enumerate() {
        if [8, 13, 18, 23].contains(&i) {
            assert_eq!(c, '-');
        } else {
            assert!(c.is_ascii_digit() || ('a'..='f').contains(&c));
        }
    }
    assert_eq!(writer.tmp_name(), format!("{}.tmp", writer.name()));
    assert_eq!(decode_ids(&writer.id_bytes()), Some(vec![9, 8]));
    assert_eq!(decode_values(&writer.vector_bytes()), Some(bits(&[1.0, 2.0, 3.0, 4.0])));
    let m = writer.metadata().unwrap();
    assert_eq!((m.count, m.dim, m.metric.as_str()), (2, 2, "DotProduct"));
    assert_ne!(index.write_to_segment().name(), writer.name());
}

#[test]
fn load_rejects_count_mismatches() {
    let writer = written();
    let meta = |count: u32| Metadata { count, dim: 3, metric: "Euclidean".to_string() };
    let r = SegmentReader::open(meta(2), writer.id_bytes(), writer.vector_bytes());
    assert_eq!(r.load_index().err(), Some(DbError::DataCorruption));
    let mut short = writer.vector_bytes();
    short.truncate(short.len() - 4);
    let r = SegmentReader::open(meta(3), writer.id_bytes(), short);
    assert_eq!(r.load_index().err(), Some(DbError::DataCorruption));
}

#[test]
fn load_rejects_unknown_metric() {
    let writer = written();
    let m = Metadata { count: 3, dim: 3, metric: "Manhattan".to_string() };
    let r = SegmentReader::open(m, writer.id_bytes(), writer.vector_bytes());
    assert_eq!(r.meta().err(), Some(DbError::DataCorruption));
    assert_eq!(r.load_index().err(), Some(DbError::DataCorruption));
}

#[test]
fn empty_segment_loads_empty_index() {
    let writer = SegmentWriter::new("e", 0, Metric::Cosine);
    let index = read_back(&writer).load_index().unwrap();
    assert_eq!((index.len(), index.dims()), (0, 0));
}

#[test]
fn commit_runs_steps_in_order() {
    let mut p = FlushProgress::new();
    let mut seen = Vec::new();
    while let Some(step) = p.next_step() {
        assert_eq!(p.is_visible(), seen.contains(&FlushStep::Rename));
        seen.push(step);
        p.record(true);
    }
    assert!(p.is_committed());
    assert_eq!(seen.len(), 9);
    assert_eq!(seen[0], FlushStep::CreateWorkDir);
    assert_eq!(seen[6], FlushStep::SyncMeta);
    assert_eq!(seen[7], FlushStep::Rename);
    assert_eq!(seen[8], FlushStep::SyncRoot);
}

#[test]
fn failed_step_aborts_commit() {
    let mut p = FlushProgress::new();
    for _ in 0..6 {
        p.record(true);
    }
    assert_eq!(p.next_step(), Some(FlushStep::SyncMeta));
    p.record(false);
    assert_eq!(p.next_step(), None);
    assert!(!p.is_committed());
    assert!(!p.is_visible());
}

#[test]
fn failure_after_rename_leaves_segment_visible() {
    let mut p = FlushProgress::new();
    for _ in 0..8 {
        p.record(true);
    }
    assert_eq!(p.next_step(), Some(FlushStep::SyncRoot));
    p.record(false);
    assert!(p.is_visible());
    assert!(!p.is_committed());
}
