use chunkgen::key::ChunkKey;
use chunkgen::registry::PendingRegistry;
use chunkgen::scheduler::ChunkGenerator;
use chunkgen::scheduler::GenerationOutcome;

type Gen = ChunkGenerator<String, u32, u64>;

fn balanced(g: &Gen) -> bool {
    let m = g.metrics();
    m.requested == m.served + m.canceled + g.pending_chunks().len() as u64
}

#[test]
fn registry_request_dedup() {
    let mut reg = PendingRegistry::new();
    let k = ChunkKey::new(1, 2);
    assert!(reg.request(k));
    assert!(!reg.request(k));
    assert!(reg.contains(k));
    assert!(!reg.contains(ChunkKey::new(2, 1)));
}

#[test]
fn registry_cancel_then_request() {
    let mut reg = PendingRegistry::new();
    let k = ChunkKey::new(-4, 7);
    assert!(reg.request(k));
    assert!(reg.cancel(k));
    assert!(!reg.contains(k));
    assert!(reg.request(k));
}

#[test]
fn registry_token_shared_with_job() {
    let mut reg = PendingRegistry::new();
    let k = ChunkKey::new(0, 1);
    assert!(reg.request(k));
    let job_side = reg.token(k).unwrap();
    assert!(!job_side.is_set());
    assert!(reg.cancel(k));
    assert!(job_side.is_set());
    assert!(reg.token(k).is_none());
}

#[test]
fn poll_empty_returns_none_repeatedly() {
    let mut g: Gen = ChunkGenerator::new();
    for _ in 0..3 {
        assert!(matches!(g.recv_new_chunk(), Ok(None)));
    }
    let m = g.metrics();
    assert_eq!(m.requested, 0);
    assert_eq!(m.served, 0);
    assert_eq!(m.canceled, 0);
}

#[test]
fn duplicate_request_single_delivery() {
    let mut g: Gen = ChunkGenerator::new();
    let a = ChunkKey::new(0, 0);
    let h1 = g.generate_chunk(Some(7), a);
    assert!(h1.is_some());
    let h2 = g.generate_chunk(Some(8), a);
    assert!(h2.is_none());
    assert!(balanced(&g));
    h1.unwrap().succeed("chunk-a".to_string(), 42);
    match g.recv_new_chunk() {
        Ok(Some((k, GenerationOutcome::Success(c, s)))) => {
            assert_eq!(k, a);
            assert_eq!(c, "chunk-a");
            assert_eq!(s, 42);
        },
        _ => panic!("expected exactly one result for the key"),
    }
    assert!(matches!(g.recv_new_chunk(), Ok(None)));
    let m = g.metrics();
    assert_eq!(m.requested, 1);
    assert_eq!(m.served, 1);
    assert_eq!(m.canceled, 0);
    assert!(balanced(&g));
}

#[test]
fn cancel_excludes_key_and_discards_result() {
    let mut g: Gen = ChunkGenerator::new();
    let b = ChunkKey::new(5, -3);
    let h = g.generate_chunk(None, b).unwrap();
    assert!(g.pending_chunks().contains(&b));
    assert!(!h.should_cancel());
    g.cancel_if_pending(b);
    assert!(!g.pending_chunks().contains(&b));
    assert!(h.should_cancel());
    h.fail();
    assert!(matches!(g.recv_new_chunk(), Ok(None)));
    let m = g.metrics();
    assert_eq!(m.requested, 1);
    assert_eq!(m.served, 0);
    assert_eq!(m.canceled, 1);
    assert!(balanced(&g));
}

#[test]
fn cancel_missing_key_is_a_no_op() {
    let mut g: Gen = ChunkGenerator::new();
    g.cancel_if_pending(ChunkKey::new(3, 3));
    let m = g.metrics();
    assert_eq!(m.canceled, 0);
}

#[test]
fn cancel_all_counts_cleared_entries() {
    let mut g: Gen = ChunkGenerator::new();
    let mut handles = Vec::new();
    for x in 0..4 {
        handles.push(g.generate_chunk(None, ChunkKey::new(x, -x)).unwrap());
    }
    assert_eq!(g.pending_chunks().len(), 4);
    assert!(balanced(&g));
    g.cancel_all();
    assert!(g.pending_chunks().is_empty());
    let m = g.metrics();
    assert_eq!(m.requested, 4);
    assert_eq!(m.served, 0);
    assert_eq!(m.canceled, 4);
    assert!(balanced(&g));
    for h in &handles {
        assert!(h.should_cancel());
    }
    // every stale result is discarded
    for h in handles {
        h.fail();
    }
    assert!(matches!(g.recv_new_chunk(), Ok(None)));
    assert_eq!(g.metrics().served, 0);
}

#[test]
fn cancel_then_request_again_delivers_fresh_result() {
    let mut g: Gen = ChunkGenerator::new();
    let b = ChunkKey::new(9, 9);
    let h1 = g.generate_chunk(Some(1), b).unwrap();
    g.cancel_if_pending(b);
    // the stale result arrives while the key is not wanted: discarded
    h1.succeed("stale".to_string(), 0);
    assert!(matches!(g.recv_new_chunk(), Ok(None)));
    // a request made right after the cancel is accepted immediately
    let h2 = g.generate_chunk(Some(2), b);
    assert!(h2.is_some());
    h2.unwrap().succeed("fresh".to_string(), 1);
    match g.recv_new_chunk() {
        Ok(Some((k, GenerationOutcome::Success(c, _)))) => {
            assert_eq!(k, b);
            assert_eq!(c, "fresh");
        },
        _ => panic!("expected the resubmitted job's result"),
    }
    let m = g.metrics();
    assert_eq!(m.requested, 2);
    assert_eq!(m.served, 1);
    assert_eq!(m.canceled, 1);
    assert!(balanced(&g));
}

#[test]
fn failure_outcome_carries_requester() {
    let mut g: Gen = ChunkGenerator::new();
    let k = ChunkKey::new(-1, -1);
    let h = g.generate_chunk(Some(77), k).unwrap();
    h.fail();
    match g.recv_new_chunk() {
        Ok(Some((kk, GenerationOutcome::Failure(who)))) => {
            assert_eq!(kk, k);
            assert_eq!(who, Some(77));
        },
        _ => panic!("expected the failure to be delivered as data"),
    }
}

#[test]
fn pending_keys_snapshot_in_insertion_order() {
    let mut g: Gen = ChunkGenerator::new();
    let keys = [ChunkKey::new(1, 0), ChunkKey::new(2, 0), ChunkKey::new(3, 0)];
    let mut handles = Vec::new();
    for k in keys {
        handles.push(g.generate_chunk(None, k).unwrap());
    }
    assert_eq!(g.pending_chunks(), keys.to_vec());
    g.cancel_if_pending(keys[1]);
    let after = g.pending_chunks();
    assert_eq!(after, vec![keys[0], keys[2]]);
}

#[test]
fn results_across_keys_arrive_in_completion_order() {
    let mut g: Gen = ChunkGenerator::new();
    let a = ChunkKey::new(10, 0);
    let b = ChunkKey::new(20, 0);
    let ha = g.generate_chunk(None, a).unwrap();
    let hb = g.generate_chunk(None, b).unwrap();
    // b finishes first
    hb.succeed("b".to_string(), 0);
    ha.succeed("a".to_string(), 0);
    match g.recv_new_chunk() {
        Ok(Some((k, _))) => assert_eq!(k, b),
        _ => panic!("expected b first"),
    }
    match g.recv_new_chunk() {
        Ok(Some((k, _))) => assert_eq!(k, a),
        _ => panic!("expected a second"),
    }
    assert!(matches!(g.recv_new_chunk(), Ok(None)));
    assert_eq!(g.metrics().served, 2);
}
