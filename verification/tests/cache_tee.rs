//! The tee streaming cache: the dual-sink copy with divergent failure
//! handling, the cache ledger, and the subprocess lifecycle ledger.

use crate_proxy::cache::{construct_download_path, download_url, plan_download, CacheDir, DownloadPlan};
use crate_proxy::response::parse;
use crate_proxy::subprocess::ProcessHandle;
use crate_proxy::tee::{copy_tee, ByteSink, CopyError, OptionalTee};
use crate_proxy::translate::translate;

fn chunks(parts: &[&[u8]]) -> Vec<Vec<u8>> {
    parts.iter().map(|p| p.to_vec()).collect()
}

#[test]
fn both_sinks_receive_identical_bytes() {
    let mut tee = OptionalTee::new(ByteSink::new(), ByteSink::new());
    let r = copy_tee(&chunks(&[b"abc", b"", b"defg", b"h"]), &mut tee);
    assert!(r.is_ok());
    assert_eq!(tee.important.data, b"abcdefgh".to_vec());
    assert_eq!(tee.optional.as_ref().map(|s| s.data.clone()), Some(b"abcdefgh".to_vec()));
}

#[test]
fn secondary_failure_partway_leaves_the_client_unaffected() {
    // the cache sink dies after one chunk: the client still gets every
    // byte and the copy still succeeds
    let mut tee = OptionalTee::new(ByteSink::new(), ByteSink::failing_after(1));
    let r = copy_tee(&chunks(&[b"abc", b"def", b"gh"]), &mut tee);
    assert!(r.is_ok());
    assert_eq!(tee.important.data, b"abcdefgh".to_vec());
    // the secondary took its one chunk and was then dropped for good
    assert!(tee.optional.is_none());

    // an identical copy with no failure delivers the same client bytes
    let mut witness = OptionalTee::new(ByteSink::new(), ByteSink::new());
    let rw = copy_tee(&chunks(&[b"abc", b"def", b"gh"]), &mut witness);
    assert!(rw.is_ok());
    assert_eq!(witness.important.data, tee.important.data);
}

#[test]
fn secondary_failure_on_the_first_chunk() {
    let mut tee = OptionalTee::new(ByteSink::new(), ByteSink::failing_after(0));
    let r = copy_tee(&chunks(&[b"abc", b"def"]), &mut tee);
    assert!(r.is_ok());
    assert_eq!(tee.important.data, b"abcdef".to_vec());
    assert!(tee.optional.is_none());
}

#[test]
fn primary_failure_aborts_the_copy() {
    let mut tee = OptionalTee::new(ByteSink::failing_after(2), ByteSink::new());
    let r = copy_tee(&chunks(&[b"ab", b"cd", b"ef", b"gh"]), &mut tee);
    assert_eq!(r.unwrap_err(), CopyError::PrimarySinkFailed);
    // the client got the chunks before the failure, and nothing after
    assert_eq!(tee.important.data, b"abcd".to_vec());
    // the secondary was still attempted for the aborting chunk, in
    // order: client first, cache second, then the abort
    assert_eq!(tee.optional.as_ref().map(|s| s.data.clone()), Some(b"abcdef".to_vec()));
}

#[test]
fn tee_write_reports_the_primary_outcome_only() {
    let mut tee = OptionalTee::new(ByteSink::new(), ByteSink::failing_after(0));
    // the secondary fails at once; the write still succeeds
    assert!(tee.write(b"xy"));
    assert!(tee.optional.is_none());
    assert_eq!(tee.important.data, b"xy".to_vec());
}

#[test]
fn cache_paths_are_deterministic() {
    assert_eq!(
        construct_download_path("/tmp/crate_cache", "serde", "1.0.0"),
        "/tmp/crate_cache/serde/1.0.0/download"
    );
    assert_eq!(
        download_url("serde", "1.0.0"),
        "https://crates.io/api/v1/crates/serde/1.0.0/download"
    );
}

#[test]
fn plan_serves_cached_without_network() {
    match plan_download("/c", "a", "0.1", true) {
        DownloadPlan::ServeCached { path } => assert_eq!(path, "/c/a/0.1/download"),
        DownloadPlan::FetchAndCache { .. } => panic!("a cached key must not fetch"),
    }
}

#[test]
fn plan_fetches_on_miss() {
    match plan_download("/c", "a", "0.1", false) {
        DownloadPlan::FetchAndCache { url, path, .. } => {
            assert_eq!(url, "https://crates.io/api/v1/crates/a/0.1/download");
            assert_eq!(path, "/c/a/0.1/download");
        }
        DownloadPlan::ServeCached { .. } => panic!("a miss must fetch"),
    }
}

#[test]
fn first_get_fetches_once_second_get_fetches_zero_times() {
    let mut cache = CacheDir::new();
    let name = "serde".to_string();
    let version = "1.0.0".to_string();
    let upstream = b"artifact bytes".to_vec();

    let first = cache.serve(&name, &version, &upstream, true);
    assert!(first.fetched);
    assert_eq!(first.body, upstream);

    // the second GET is served from the entry: zero fetches, the same
    // bytes — even if upstream would now say something else
    let changed_upstream = b"different now".to_vec();
    let second = cache.serve(&name, &version, &changed_upstream, true);
    assert!(!second.fetched);
    assert_eq!(second.body, upstream);
}

#[test]
fn distinct_keys_have_distinct_entries() {
    let mut cache = CacheDir::new();
    let n1 = "serde".to_string();
    let n2 = "rand".to_string();
    let v1 = "1.0.0".to_string();
    let first = cache.serve(&n1, &v1, &b"one".to_vec(), true);
    let second = cache.serve(&n2, &v1, &b"two".to_vec(), true);
    assert!(first.fetched);
    assert!(second.fetched);
    assert_eq!(cache.serve(&n1, &v1, &b"x".to_vec(), true).body, b"one".to_vec());
    assert_eq!(cache.serve(&n2, &v1, &b"x".to_vec(), true).body, b"two".to_vec());
}

#[test]
fn partial_cache_write_leaves_no_entry() {
    let mut cache = CacheDir::new();
    let name = "serde".to_string();
    let version = "1.0.0".to_string();

    // the cache-file sink failed partway: the client still got the
    // bytes, but nothing is recorded
    let first = cache.serve(&name, &version, &b"bytes".to_vec(), false);
    assert!(first.fetched);
    assert_eq!(first.body, b"bytes".to_vec());

    // so the next GET fetches again, and can complete this time
    let second = cache.serve(&name, &version, &b"bytes".to_vec(), true);
    assert!(second.fetched);
    let third = cache.serve(&name, &version, &b"other".to_vec(), true);
    assert!(!third.fetched);
    assert_eq!(third.body, b"bytes".to_vec());
}

#[test]
fn plans_write_to_a_temp_path_first() {
    match plan_download("/c", "a", "0.1", false) {
        DownloadPlan::FetchAndCache { temp_path, path, .. } => {
            assert_eq!(temp_path, "/c/a/0.1/download.partial");
            assert_eq!(path, "/c/a/0.1/download");
        }
        DownloadPlan::ServeCached { .. } => panic!("a miss must fetch"),
    }
}

#[test]
fn handle_is_released_exactly_once() {
    let mut h = ProcessHandle::new();
    assert!(!h.is_released());
    assert_eq!(h.status(), None);
    h.release(0);
    assert!(h.is_released());
    assert_eq!(h.status(), Some(0));
}

#[test]
fn nonzero_exit_after_valid_output_still_parses() {
    // the backend wrote a fully valid block and body, then exited 1:
    // the parse and the translation stand; the status is only observed
    let output = b"Content-Type: text/plain\nStatus: 200 OK\n\npayload";
    let mut resp = parse(output).expect("valid output parses");
    let mut h = ProcessHandle::new();
    h.release(1);
    assert_eq!(h.status(), Some(1));
    let d = translate(&resp).expect("translation unaffected by exit status");
    assert_eq!(d.status, 200);
    assert_eq!(resp.body().as_slice(), b"payload");
}
