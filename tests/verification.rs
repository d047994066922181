use chunkvault::ingest::ChunkRecord;
use chunkvault::integrity::{chunk_digest, chunk_digests, report_mismatches, verify_chunks};
use chunkvault::split::split_into_chunks;

fn rows_for(payloads: &[Vec<u8>]) -> Vec<ChunkRecord> {
    payloads
        .iter()
        .enumerate()
        .map(|(i, p)| ChunkRecord {
            file_id: 1,
            index: i,
            message_id: format!("m{}", i),
            url: format!("u{}", i),
            digest: chunk_digest(p),
        })
        .collect()
}

#[test]
fn digest_of_known_inputs() {
    assert_eq!(
        chunk_digest(&b"abc".to_vec()),
        "ba7816bf8f01cfea414140de5dae2223b00361a396177a9cb410ff61f20015ad"
    );
    assert_eq!(
        chunk_digest(&Vec::new()),
        "e3b0c44298fc1c149afbf4c8996fb92427ae41e4649b934ca495991b7852b855"
    );
}

#[test]
fn digests_follow_chunk_order() {
    let chunks = split_into_chunks(&b"abcdef".to_vec(), 3).unwrap();
    let d = chunk_digests(&chunks);
    assert_eq!(d.len(), 2);
    assert_eq!(d[0], chunk_digest(&b"abc".to_vec()));
    assert_eq!(d[1], chunk_digest(&b"def".to_vec()));
}

#[test]
fn verify_reports_tampered_payload_only() {
    let mut payloads: Vec<Vec<u8>> = (0..5).map(|i| vec![i as u8; 10 + i]).collect();
    let rows = rows_for(&payloads);
    assert!(verify_chunks(&rows, &payloads).all_match);
    payloads[3][4] ^= 0x01;
    let report = verify_chunks(&rows, &payloads);
    assert_eq!(report.mismatched, vec![3]);
    assert!(!report.all_match);
}

#[test]
fn verify_reports_tampered_digest_only() {
    let payloads: Vec<Vec<u8>> = (0..4).map(|i| vec![7u8; i + 1]).collect();
    let mut rows = rows_for(&payloads);
    let mut d = rows[1].digest.clone().into_bytes();
    d[0] = if d[0] == b'0' { b'1' } else { b'0' };
    rows[1].digest = String::from_utf8(d).unwrap();
    let report = verify_chunks(&rows, &payloads);
    assert_eq!(report.mismatched, vec![1]);
    assert!(!report.all_match);
}

#[test]
fn verify_reports_every_mismatch_in_order() {
    let payloads: Vec<Vec<u8>> = (0..4).map(|i| vec![i as u8; 3]).collect();
    let mut rows = rows_for(&payloads);
    rows[0].digest = "bad".to_string();
    rows[2].digest = String::new();
    let report = verify_chunks(&rows, &payloads);
    assert_eq!(report.mismatched, vec![0, 2]);
}

#[test]
fn report_mismatches_compares_positionwise() {
    let idx = vec![4usize, 5, 6];
    let stored = vec!["a".to_string(), "b".to_string(), "c".to_string()];
    let computed = vec!["a".to_string(), "x".to_string(), "c".to_string()];
    assert_eq!(report_mismatches(&idx, &stored, &computed), vec![5]);
    assert!(report_mismatches(&idx, &stored, &stored).is_empty());
}
