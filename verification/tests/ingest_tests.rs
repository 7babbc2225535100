//! Tests of the ingestion kernels: sync decisions, the backward traversal,
//! metrics counters, and spool data assembly.

use spool::ingest::{
    ingest_block, read_spool_data, sync_needed, ProcessedBlock, ResyncState, SegmentWrite,
};
use spool::metrics::{
    inc_sn_api_status_total, inc_spool_mining_attempts_total,
    inc_spool_mining_challenges_solved_total, inc_total_segments_written,
    inc_total_segments_written_batch, inc_total_spools_written, inc_total_spools_written_batch,
    record_metrics, set_current_mining_iteration, Metrics, Process, RpcRequestStatus,
};
use spool::packing::{build_pack_memory, packx_unpack};
use spool::spool_ops::pad_segment;
use spool::store::SpoolStore;

fn addr(tag: u8) -> [u8; 32] {
    let mut a = [0u8; 32];
    a[0] = tag;
    a
}

#[test]
fn sync_needed_counts_segments() {
    let mut store = SpoolStore::new();
    let a = addr(1);
    assert!(sync_needed(&store, &a, 2));
    store.put_segment(&a, 0, &[1u8; 145]);
    assert!(sync_needed(&store, &a, 2));
    store.put_segment(&a, 1, &[2u8; 145]);
    assert!(!sync_needed(&store, &a, 2));
}

#[test]
fn resync_traversal_visits_once() {
    let mut st = ResyncState::new(100);
    assert_eq!(st.next_slot(), Some(100));
    // a backward link queues; a zero link ends the chain; a link equal to
    // its own slot queues (and is drained as visited); a forward link is
    // rejected
    assert!(st.push_parent(100, 60));
    assert!(st.push_parent(100, 60));
    assert!(st.push_parent(100, 0));
    assert!(st.push_parent(100, 100));
    assert!(!st.push_parent(100, 101));
    assert_eq!(st.next_slot(), Some(60));
    // the queued copy of 100 and the second 60 are drained silently
    assert_eq!(st.next_slot(), None);
}

#[test]
fn read_spool_data_assembles_and_reports_missing() {
    let mut store = SpoolStore::new();
    let miner = addr(2);
    let spool = addr(3);
    let table = packx::build_one_bump(&miner, 0);
    let seg0 = pad_segment(b"segment zero");
    let seg2 = pad_segment(b"segment two");
    let sol0 = packx::solve_one_bump(&seg0, 0, &table, 0).unwrap().to_bytes();
    let sol2 = packx::solve_one_bump(&seg2, 0, &table, 0).unwrap().to_bytes();
    store.put_segment(&spool, 0, &sol0);
    store.put_segment(&spool, 2, &sol2);

    let (data, missing) = read_spool_data(&store, &miner, &spool, 3);
    assert_eq!(data.len(), 3 * 128);
    assert_eq!(&data[0..128], &packx_unpack(&miner, &sol0));
    assert_eq!(&data[0..128], &seg0);
    assert!(data[128..256].iter().all(|&b| b == 0));
    assert_eq!(&data[256..384], &seg2);
    assert_eq!(missing, vec![1]);
}

#[test]
fn ingest_block_packs_and_maps() {
    let mut store = SpoolStore::new();
    let miner = addr(4);
    let spool = addr(5);
    let other = addr(6);
    let mem = build_pack_memory(&miner);
    let mut state = ResyncState::new(500);
    assert_eq!(state.next_slot(), Some(500));

    let block = ProcessedBlock {
        slot: 500,
        segment_writes: vec![
            SegmentWrite {
                address: spool,
                segment_number: 0,
                prev_slot: 400,
                data: b"first segment".to_vec(),
            },
            SegmentWrite {
                address: other,
                segment_number: 0,
                prev_slot: 300,
                data: b"someone else's".to_vec(),
            },
            SegmentWrite {
                address: spool,
                segment_number: 5000,
                prev_slot: 350,
                data: b"far ahead".to_vec(),
            },
        ],
        finalized_spools: vec![(spool, 2)],
    };
    let packed = ingest_block(&mut store, &mut state, &mem, &miner, &spool, &block, 1);
    assert_eq!(packed, 2);
    assert_eq!(store.get_spool_address(2).unwrap(), spool);
    // the target spool's writes were packed and unpack back to their bytes
    let sol = store.get_segment(&spool, 0).unwrap();
    assert_eq!(packx_unpack(&miner, &sol), pad_segment(b"first segment"));
    // the far-ahead write too: the canopy was resized to fit its sector
    let far = store.get_segment(&spool, 5000).unwrap();
    assert_eq!(packx_unpack(&miner, &far), pad_segment(b"far ahead"));
    // the other spool's write was left alone
    assert!(store.get_segment(&other, 0).is_err());
    // both backward links were queued, newest on top
    assert_eq!(state.next_slot(), Some(350));
    assert_eq!(state.next_slot(), Some(400));
}

#[test]
fn metrics_counters_count() {
    let mut m = Metrics::new();
    inc_spool_mining_attempts_total(&mut m);
    inc_spool_mining_attempts_total(&mut m);
    inc_spool_mining_challenges_solved_total(&mut m);
    set_current_mining_iteration(&mut m, 42);
    inc_total_spools_written(&mut m);
    inc_total_spools_written_batch(&mut m, 4);
    inc_total_segments_written(&mut m);
    inc_total_segments_written_batch(&mut m, 9);
    inc_sn_api_status_total(&mut m, &RpcRequestStatus::Accepted);
    record_metrics(&mut m, &RpcRequestStatus::Failed(0x20));
    assert_eq!(m.mining_attempts, 2);
    assert_eq!(m.mining_challenges_solved, 1);
    assert_eq!(m.current_mining_iteration, 42);
    assert_eq!(m.total_spools_written, 5);
    assert_eq!(m.total_segments_written, 10);
    assert_eq!(m.rpc_requests_ok, 1);
    assert_eq!(m.rpc_requests_err, 1);

    assert_eq!(Process::Archive.metrics_port(), 8875);
    assert_eq!(Process::Mine.metrics_port(), 8874);
    assert_eq!(Process::Web.metrics_port(), 8873);
}
