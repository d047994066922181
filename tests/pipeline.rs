use chunkvault::catalog::{Catalog, CatalogError, FileRecord};
use chunkvault::export::{download_urls, is_stdout_sentinel, proxied_url, ExportError};
use chunkvault::ingest::{plan_chunk_rows, ChunkRecord, IngestError, UploadedChunk};
use chunkvault::integrity::{chunk_digests, verify_chunks};
use chunkvault::retry::{next_step, AttemptOutcome, Locator, RetryAction, RetryState};
use chunkvault::split::{split_into_chunks, Chunk};
use std::collections::HashMap;

const S: usize = 8;
const PROXY: &str = "http://proxy.local";

fn bytes(n: usize, seed: u8) -> Vec<u8> {
    (0..n).map(|i| (i as u8).wrapping_mul(7).wrapping_add(seed)).collect()
}

/// A remote store that keeps every upload under a URL of its own.
struct FakeRemote {
    blobs: HashMap<String, Vec<u8>>,
    uploads: usize,
}

impl FakeRemote {
    fn new() -> Self {
        FakeRemote { blobs: HashMap::new(), uploads: 0 }
    }

    fn upload(&mut self, payload: &[u8]) -> Locator {
        self.uploads += 1;
        let url = format!("https://cdn.example/att/{}", self.uploads);
        self.blobs.insert(url.clone(), payload.to_vec());
        Locator { message_id: format!("msg-{}", self.uploads), url }
    }

    fn fetch(&self, proxied: &str) -> Vec<u8> {
        let prefix = format!("{}/?", PROXY);
        let url = proxied.strip_prefix(&prefix).expect("proxied form");
        self.blobs[url].clone()
    }
}

/// Uploads in reverse index order, to stand for out-of-order completion.
fn upload_all(remote: &mut FakeRemote, chunks: &[Chunk], digests: &[String]) -> Vec<UploadedChunk> {
    let mut results = Vec::new();
    for c in chunks.iter().rev() {
        let locator = remote.upload(&c.payload);
        results.push(UploadedChunk { index: c.index, locator, digest: digests[c.index].clone() });
    }
    results
}

fn ingest(catalog: &mut Catalog, remote: &mut FakeRemote, name: &str, data: &[u8], s: usize) -> i64 {
    let data = data.to_vec();
    let chunks = split_into_chunks(&data, s).unwrap();
    let digests = chunk_digests(&chunks);
    let id = catalog
        .create_file(name.to_string(), data.len() as u64, s as u64, "2024-01-01T00:00:00+00:00".to_string())
        .unwrap();
    let results = upload_all(remote, &chunks, &digests);
    let rows = plan_chunk_rows(id, chunks.len(), results).unwrap();
    catalog.record_chunks(id, rows).unwrap();
    id
}

fn export(catalog: &Catalog, remote: &FakeRemote, id: i64) -> Vec<u8> {
    let rows = catalog.chunks_of(id).unwrap();
    let urls = download_urls(PROXY, rows).unwrap();
    let mut out = Vec::new();
    for u in urls {
        out.extend_from_slice(&remote.fetch(&u));
    }
    out
}

fn uploaded(index: usize) -> UploadedChunk {
    UploadedChunk {
        index,
        locator: Locator { message_id: format!("m{}", index), url: format!("u{}", index) },
        digest: format!("d{}", index),
    }
}

#[test]
fn round_trip_for_edge_sizes() {
    let mut catalog = Catalog::new();
    let mut remote = FakeRemote::new();
    for (k, n) in [0usize, 1, S, S + 1, 10 * S + 7].iter().enumerate() {
        let data = bytes(*n, k as u8);
        let id = ingest(&mut catalog, &mut remote, "f.bin", &data, S);
        assert_eq!(export(&catalog, &remote, id), data);
    }
}

#[test]
fn catalog_rows_contiguous_after_out_of_order_uploads() {
    let mut catalog = Catalog::new();
    let mut remote = FakeRemote::new();
    let id = ingest(&mut catalog, &mut remote, "g.bin", &bytes(10 * S + 7, 3), S);
    let rows = catalog.chunks_of(id).unwrap();
    assert_eq!(rows.len(), 11);
    for (i, r) in rows.iter().enumerate() {
        assert_eq!(r.index, i);
        assert_eq!(r.file_id, id);
    }
    // the last chunk was uploaded first
    assert_eq!(rows[10].url, "https://cdn.example/att/1");
    assert_eq!(rows[10].message_id, "msg-1");
}

#[test]
fn listing_three_files_ascending() {
    let mut catalog = Catalog::new();
    let mut remote = FakeRemote::new();
    let a = ingest(&mut catalog, &mut remote, "a", &bytes(5, 1), 4);
    let b = ingest(&mut catalog, &mut remote, "b", &bytes(17, 2), 8);
    let c = ingest(&mut catalog, &mut remote, "c", &bytes(0, 3), 3);
    let list = catalog.list();
    assert_eq!(list.len(), 3);
    assert!(a < b && b < c);
    assert_eq!(list[0].id, a);
    assert_eq!(list[1].id, b);
    assert_eq!(list[2].id, c);
    assert_eq!((list[0].filesize, list[0].chunk_size), (5, 4));
    assert_eq!((list[1].filesize, list[1].chunk_size), (17, 8));
    assert_eq!((list[2].filesize, list[2].chunk_size), (0, 3));
    assert_eq!(list[1].filename, "b");
}

#[test]
fn plan_orders_shuffled_results() {
    let results = vec![uploaded(2), uploaded(0), uploaded(3), uploaded(1)];
    let rows = plan_chunk_rows(7, 4, results).unwrap();
    let idx: Vec<usize> = rows.iter().map(|r| r.index).collect();
    assert_eq!(idx, vec![0, 1, 2, 3]);
    assert_eq!(rows[2].url, "u2");
    assert_eq!(rows[2].message_id, "m2");
    assert_eq!(rows[2].digest, "d2");
    assert!(rows.iter().all(|r| r.file_id == 7));
}

#[test]
fn plan_refuses_missing_chunk() {
    let results = vec![uploaded(0), uploaded(2)];
    assert!(matches!(plan_chunk_rows(1, 3, results), Err(IngestError::IncompleteUpload)));
}

#[test]
fn plan_refuses_duplicate_chunk() {
    let results = vec![uploaded(0), uploaded(1), uploaded(1)];
    assert!(matches!(plan_chunk_rows(1, 3, results), Err(IngestError::IncompleteUpload)));
    let results = vec![uploaded(0), uploaded(0)];
    assert!(matches!(plan_chunk_rows(1, 2, results), Err(IngestError::IncompleteUpload)));
}

#[test]
fn plan_refuses_index_out_of_range() {
    let results = vec![uploaded(0), uploaded(5)];
    assert!(matches!(plan_chunk_rows(1, 2, results), Err(IngestError::IncompleteUpload)));
}

#[test]
fn plan_refuses_file_with_no_uploaded_chunk() {
    assert!(matches!(plan_chunk_rows(1, 3, Vec::new()), Err(IngestError::NoChunksUploaded)));
}

#[test]
fn plan_empty_file_has_no_rows() {
    let rows = plan_chunk_rows(1, 0, Vec::new()).unwrap();
    assert!(rows.is_empty());
}

#[test]
fn rate_limited_endpoint_yields_one_row() {
    let k = 4;
    let mut script: Vec<AttemptOutcome> = (0..k).map(|_| AttemptOutcome::RateLimited).collect();
    script.push(AttemptOutcome::Uploaded { message_id: "m".to_string(), url: "u".to_string() });
    let mut state = RetryState::new();
    let mut waits = 0;
    let mut results = Vec::new();
    for (attempt, outcome) in script.into_iter().enumerate() {
        let (next, action) = next_step(state, outcome, 5 + attempt as u64);
        state = next;
        match action {
            RetryAction::Wait { secs } => {
                assert!((5..=15).contains(&secs));
                waits += 1;
            }
            RetryAction::Done(locator) => {
                results.push(UploadedChunk { index: 0, locator, digest: "d".to_string() });
                break;
            }
            RetryAction::Fail(_) => panic!("unexpected failure"),
        }
    }
    assert_eq!(waits, k);
    let rows = plan_chunk_rows(3, 1, results).unwrap();
    assert_eq!(rows.len(), 1);
    assert_eq!(rows[0].url, "u");
}

#[test]
fn exhausted_chunk_leaves_no_row() {
    let mut state = RetryState::new();
    let mut failed = false;
    for _ in 0..5 {
        let (next, action) = next_step(state, AttemptOutcome::TransportError, 5);
        state = next;
        if let RetryAction::Fail(_) = action {
            failed = true;
        }
    }
    assert!(failed);
    // the other two chunks of the file made it; the file is refused as a whole
    let results = vec![uploaded(0), uploaded(2)];
    assert!(matches!(plan_chunk_rows(1, 3, results), Err(IngestError::IncompleteUpload)));
}

#[test]
fn proxied_url_form() {
    assert_eq!(proxied_url("http://p:8080", "https://cdn/x?ex=1"), "http://p:8080/?https://cdn/x?ex=1");
    assert_eq!(proxied_url("", ""), "/?");
}

#[test]
fn download_urls_follow_catalog_order() {
    let rows = plan_chunk_rows(1, 2, vec![uploaded(1), uploaded(0)]).unwrap();
    let urls = download_urls("http://p", &rows).unwrap();
    assert_eq!(urls, vec!["http://p/?u0".to_string(), "http://p/?u1".to_string()]);
}

#[test]
fn download_urls_refuse_gap() {
    let rows = vec![
        ChunkRecord { file_id: 1, index: 0, message_id: "a".into(), url: "x".into(), digest: "d".into() },
        ChunkRecord { file_id: 1, index: 2, message_id: "b".into(), url: "y".into(), digest: "d".into() },
    ];
    assert!(matches!(download_urls("http://p", &rows), Err(ExportError::CorruptCatalog)));
}

#[test]
fn stdout_sentinel() {
    assert!(is_stdout_sentinel("-"));
    assert!(!is_stdout_sentinel("--"));
    assert!(!is_stdout_sentinel("out.bin"));
    assert!(!is_stdout_sentinel(""));
}

#[test]
fn catalog_unknown_file_not_found() {
    let catalog = Catalog::new();
    assert!(matches!(catalog.chunks_of(42), Err(CatalogError::NotFound)));
    assert!(matches!(catalog.file(42), Err(CatalogError::NotFound)));
}

#[test]
fn catalog_rows_written_once() {
    let mut catalog = Catalog::new();
    let id = catalog.create_file("x".into(), 3, 2, "t".into()).unwrap();
    let rows = plan_chunk_rows(id, 2, vec![uploaded(0), uploaded(1)]).unwrap();
    assert!(catalog.record_chunks(id, rows).is_ok());
    let again = plan_chunk_rows(id, 2, vec![uploaded(0), uploaded(1)]).unwrap();
    assert!(matches!(catalog.record_chunks(id, again), Err(CatalogError::AlreadyCatalogued)));
    let other = plan_chunk_rows(99, 1, vec![uploaded(0)]).unwrap();
    assert!(matches!(catalog.record_chunks(99, other), Err(CatalogError::NotFound)));
}

#[test]
fn catalog_refuses_rows_of_another_file() {
    let mut catalog = Catalog::new();
    let id = catalog.create_file("x".into(), 3, 2, "t".into()).unwrap();
    let rows = plan_chunk_rows(id + 1, 1, vec![uploaded(0)]).unwrap();
    assert!(matches!(catalog.record_chunks(id, rows), Err(CatalogError::InvalidRows)));
    assert_eq!(catalog.chunks_of(id).unwrap().len(), 0);
}

#[test]
fn verify_after_ingest_all_match() {
    let mut catalog = Catalog::new();
    let mut remote = FakeRemote::new();
    let data = bytes(3 * S + 2, 9);
    let id = ingest(&mut catalog, &mut remote, "v", &data, S);
    let chunks = split_into_chunks(&data, S).unwrap();
    let payloads: Vec<Vec<u8>> = chunks.into_iter().map(|c| c.payload).collect();
    let report = verify_chunks(catalog.chunks_of(id).unwrap(), &payloads);
    assert!(report.all_match);
    assert!(report.mismatched.is_empty());
}

#[test]
fn catalog_ids_follow_one_another() {
    let mut catalog = Catalog::new();
    let a = catalog.create_file("a".into(), 0, 1, "t".into()).unwrap();
    let b = catalog.create_file("b".into(), 0, 1, "t".into()).unwrap();
    assert_eq!(a, 1);
    assert_eq!(b, 2);
}

#[test]
fn catalog_restore_keeps_identifiers() {
    let mut catalog = Catalog::new();
    let rec = |id: i64| FileRecord { id, filename: "r".into(), filesize: 4, chunk_size: 2, created_at: "t".into() };
    assert!(catalog.restore_file(rec(5)).is_ok());
    assert!(matches!(catalog.restore_file(rec(5)), Err(CatalogError::IdNotIncreasing)));
    assert!(matches!(catalog.restore_file(rec(3)), Err(CatalogError::IdNotIncreasing)));
    assert!(matches!(catalog.restore_file(rec(i64::MAX)), Err(CatalogError::IdNotIncreasing)));
    assert_eq!(catalog.create_file("n".into(), 0, 1, "t".into()).unwrap(), 6);
    let ids: Vec<i64> = catalog.list().iter().map(|f| f.id).collect();
    assert_eq!(ids, vec![5, 6]);
}

#[test]
fn catalog_refuses_too_few_rows_for_file_size() {
    let mut catalog = Catalog::new();
    // 10 chunks of 2 bytes
    let id = catalog.create_file("x".into(), 20, 2, "t".into()).unwrap();
    let one = plan_chunk_rows(id, 1, vec![uploaded(0)]).unwrap();
    assert!(matches!(catalog.record_chunks(id, one), Err(CatalogError::InvalidRows)));
    let results: Vec<UploadedChunk> = (0..10).map(uploaded).collect();
    let all = plan_chunk_rows(id, 10, results).unwrap();
    assert!(catalog.record_chunks(id, all).is_ok());
    assert_eq!(catalog.chunks_of(id).unwrap().len(), 10);
}

#[test]
fn catalog_refuses_rows_when_chunk_size_zero() {
    let mut catalog = Catalog::new();
    let id = catalog.create_file("z".into(), 0, 0, "t".into()).unwrap();
    assert!(matches!(catalog.record_chunks(id, Vec::new()), Err(CatalogError::InvalidRows)));
}
