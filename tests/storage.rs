use storage::asset::{asset_list, assets_of, commit_batch, delete_asset, query_asset, CommitBatchArgs};
use storage::chunk::{chunk_ids_check, delete_expired_chunks, upload_chunk, ChunkArgs, EXPIRY_LIMIT};
use storage::http::{
    create_token, http_request, http_request_streaming_callback, CreateStrategyArgs, HttpRequest,
    StreamingStrategy,
};
use storage::identity::Identity;
use storage::scaler::{active_shard, add_shard, on_probe, storage_list, ScalerStep, StorageList};
use storage::state::{init, is_full, update_storage, State, StorageError};
use storage::utils::{asset_id_extractor, parse_asset_id, url_generator};

fn alice() -> Identity {
    Identity::new(vec![1, 2, 3])
}

fn bob() -> Identity {
    Identity::new(vec![9, 9])
}

fn anonymous() -> Identity {
    Identity::new(vec![4])
}

fn shard() -> State {
    State::new(Identity::new(vec![]), false, 1000)
}

fn upload(state: &mut State, who: Identity, order: u32, content: &[u8], checksum: u32, now: u64) -> u128 {
    let arg = ChunkArgs { order, content: content.to_vec(), checksum };
    upload_chunk(state, arg, who, now).unwrap()
}

fn commit_args(ids: Vec<u128>, checksum: u32) -> CommitBatchArgs {
    CommitBatchArgs {
        chunk_ids: ids,
        checksum,
        file_name: "report.pdf".to_string(),
        file_type: "application/pdf".to_string(),
    }
}

fn get(state: &State, url: &str) -> storage::http::HttpResponse {
    let request = HttpRequest {
        method: "GET".to_string(),
        url: url.to_string(),
        headers: vec![],
        body: vec![],
    };
    http_request(state, &request)
}

#[test]
fn chunk_ids_start_at_zero_and_increase() {
    let mut s = shard();
    assert_eq!(upload(&mut s, alice(), 0, b"a", 1, 10), 0);
    assert_eq!(upload(&mut s, bob(), 0, b"b", 1, 10), 1);
    assert_eq!(upload(&mut s, alice(), 1, b"c", 1, 10), 2);
    assert_eq!(s.chunk_count, 3);
}

#[test]
fn anonymous_upload_is_refused() {
    let mut s = shard();
    let arg = ChunkArgs { order: 0, content: vec![1], checksum: 1 };
    assert_eq!(upload_chunk(&mut s, arg, anonymous(), 5), Err(StorageError::AnonymousCaller));
    assert_eq!(s.chunk_count, 0);
    assert!(s.chunk_list.is_empty());
}

#[test]
fn ids_are_not_reused_after_removal() {
    let mut s = shard();
    let a = upload(&mut s, alice(), 0, b"x", 3, 0);
    let id = commit_batch(&mut s, commit_args(vec![a], 3), alice(), 1).unwrap();
    assert_eq!(id, 0);
    assert_eq!(delete_asset(&mut s, id, &alice()), Ok(true));
    let b = upload(&mut s, alice(), 0, b"y", 4, 2);
    assert_eq!(b, 1);
    let id2 = commit_batch(&mut s, commit_args(vec![b], 4), alice(), 3).unwrap();
    assert_eq!(id2, 1);
    let c = upload(&mut s, alice(), 0, b"z", 4, 4);
    delete_expired_chunks(&mut s, 4 + EXPIRY_LIMIT + 1);
    assert!(s.chunk_list.is_empty());
    assert_eq!(upload(&mut s, alice(), 0, b"w", 4, 5), c + 1);
}

#[test]
fn commit_orders_chunks_by_declared_order() {
    let mut s = shard();
    let k_c: u32 = 399_999_990;
    let k_a: u32 = 7;
    let k_b: u32 = 11;
    let c = upload(&mut s, alice(), 2, b"CCC", k_c, 1);
    let a = upload(&mut s, alice(), 0, b"A", k_a, 1);
    let b = upload(&mut s, alice(), 1, b"BB", k_b, 1);
    let sum = ((k_a as u64 + k_b as u64 + k_c as u64) % 400_000_000) as u32;
    assert_eq!(sum, 8);
    let id = commit_batch(&mut s, commit_args(vec![b, c, a], sum), alice(), 2).unwrap();
    let asset = &s.asset_list[0];
    assert_eq!(asset.asset_id, id);
    assert_eq!(asset.chunks, vec![b"A".to_vec(), b"BB".to_vec(), b"CCC".to_vec()]);
    assert_eq!(asset.owned_by, alice());
    assert_eq!(asset.uploaded_at, 2);
    assert_eq!(asset.url, "http://aaaaa-aa.localhost:8080/asset/0");
    assert!(s.chunk_list.is_empty());
}

#[test]
fn commit_with_any_listing_order_gives_same_pieces() {
    for ids_order in [[0usize, 1, 2], [2, 1, 0], [1, 2, 0]] {
        let mut s = shard();
        let ids = [
            upload(&mut s, alice(), 2, b"C", 3, 1),
            upload(&mut s, alice(), 0, b"A", 1, 1),
            upload(&mut s, alice(), 1, b"B", 2, 1),
        ];
        let listed: Vec<u128> = ids_order.iter().map(|&i| ids[i]).collect();
        commit_batch(&mut s, commit_args(listed, 6), alice(), 2).unwrap();
        assert_eq!(s.asset_list[0].chunks, vec![b"A".to_vec(), b"B".to_vec(), b"C".to_vec()]);
    }
}

#[test]
fn checksum_mismatch_keeps_every_chunk() {
    let mut s = shard();
    let a = upload(&mut s, alice(), 0, b"A", 5, 1);
    let b = upload(&mut s, alice(), 1, b"B", 6, 1);
    let r = commit_batch(&mut s, commit_args(vec![a, b], 12), alice(), 2);
    assert_eq!(r, Err(StorageError::ChecksumMismatch { declared: 12, computed: 11 }));
    assert_eq!(s.chunk_list.len(), 2);
    assert!(chunk_ids_check(&s, vec![a, b]).is_empty());
    assert!(s.asset_list.is_empty());
    assert_eq!(s.asset_count, 0);
    assert_eq!(commit_batch(&mut s, commit_args(vec![a, b], 11), alice(), 3), Ok(0));
}

#[test]
fn checksum_is_taken_modulo() {
    let mut s = shard();
    let a = upload(&mut s, alice(), 0, b"A", u32::MAX, 1);
    let b = upload(&mut s, alice(), 1, b"B", u32::MAX, 1);
    let expected = ((u32::MAX as u64 * 2) % 400_000_000) as u32;
    assert_eq!(commit_batch(&mut s, commit_args(vec![a, b], expected), alice(), 2), Ok(0));
}

#[test]
fn commit_with_foreign_chunk_fails_entirely() {
    let mut s = shard();
    let a = upload(&mut s, alice(), 0, b"A", 1, 1);
    let b = upload(&mut s, bob(), 1, b"B", 1, 1);
    let r = commit_batch(&mut s, commit_args(vec![a, b], 2), alice(), 2);
    assert_eq!(r, Err(StorageError::ChunksNotOwned(vec![b])));
    assert_eq!(s.chunk_list.len(), 2);
    assert!(chunk_ids_check(&s, vec![a, b]).is_empty());
    assert!(s.asset_list.is_empty());
}

#[test]
fn commit_errors_come_in_priority_order() {
    let mut s = shard();
    assert_eq!(commit_batch(&mut s, commit_args(vec![], 0), alice(), 1), Err(StorageError::NoIdsProvided));
    let a = upload(&mut s, alice(), 0, b"A", 1, 1);
    let b = upload(&mut s, bob(), 0, b"B", 1, 1);
    assert_eq!(commit_batch(&mut s, commit_args(vec![a, a], 2), alice(), 1), Err(StorageError::DuplicateIds));
    assert_eq!(commit_batch(&mut s, commit_args(vec![b, 77], 1), alice(), 1), Err(StorageError::NoChunksFound));
    assert_eq!(
        commit_batch(&mut s, commit_args(vec![a, b, 77, 78], 1), alice(), 1),
        Err(StorageError::ChunksNotFound(vec![77, 78]))
    );
    assert_eq!(s.chunk_list.len(), 2);
}

#[test]
fn chunk_ids_check_reports_missing_ids() {
    let mut s = shard();
    let a = upload(&mut s, alice(), 0, b"A", 1, 1);
    assert_eq!(chunk_ids_check(&s, vec![a, 5, a, 6]), vec![5, 6]);
    assert!(chunk_ids_check(&s, vec![a]).is_empty());
}

#[test]
fn missing_asset_gives_not_found() {
    let s = shard();
    let r = get(&s, "/asset/42");
    assert_eq!(r.status_code, 404);
    assert_eq!(r.body, b"Asset Not Found".to_vec());
    assert!(r.headers.is_empty());
    assert!(r.streaming_strategy.is_none());
}

#[test]
fn malformed_path_gives_bad_request() {
    let s = shard();
    let r = get(&s, "/asset/abc");
    assert_eq!(r.status_code, 400);
    assert_eq!(r.body, b"Invalid Asset Id".to_vec());
    assert!(r.streaming_strategy.is_none());
}

#[test]
fn single_chunk_asset_has_no_token() {
    let mut s = shard();
    let a = upload(&mut s, alice(), 0, b"only", 9, 1);
    let id = commit_batch(&mut s, commit_args(vec![a], 9), alice(), 2).unwrap();
    let r = get(&s, &format!("/asset/{id}"));
    assert_eq!(r.status_code, 200);
    assert_eq!(r.body, b"only".to_vec());
    assert!(r.streaming_strategy.is_none());
    assert_eq!(r.headers.len(), 4);
    assert_eq!(r.headers[0].0, "Content-Type");
    assert_eq!(r.headers[0].1, "application/pdf");
    assert_eq!(r.headers[2].0, "Content-Disposition");
    assert_eq!(r.headers[2].1, "attachment; filename=report.pdf");
}

#[test]
fn three_chunk_asset_streams_in_order() {
    let mut s = shard();
    let ids = vec![
        upload(&mut s, alice(), 0, b"one", 1, 1),
        upload(&mut s, alice(), 1, b"two", 1, 1),
        upload(&mut s, alice(), 2, b"three", 1, 1),
    ];
    let id = commit_batch(&mut s, commit_args(ids, 3), alice(), 2).unwrap();
    let r = get(&s, &format!("https://x.example/asset/{id}?download=1"));
    assert_eq!(r.status_code, 200);
    assert_eq!(r.body, b"one".to_vec());
    let token = match r.streaming_strategy {
        Some(StreamingStrategy::Callback { token, callback }) => {
            assert_eq!(callback.method, "http_request_streaming_callback");
            assert_eq!(callback.canister, s.canister_id);
            token
        }
        None => panic!("expected a continuation"),
    };
    assert_eq!(token.asset_id, id);
    assert_eq!(token.chunk_index, 1);
    assert_eq!(token.chunk_size, 3);
    assert_eq!(token.content_encoding, "gzip");
    let second = http_request_streaming_callback(&s, &token).unwrap();
    assert_eq!(second.body, b"two".to_vec());
    let next = second.token.unwrap();
    assert_eq!(next.chunk_index, 2);
    let third = http_request_streaming_callback(&s, &next).unwrap();
    assert_eq!(third.body, b"three".to_vec());
    assert!(third.token.is_none());
}

#[test]
fn callback_for_unknown_asset_gives_nothing() {
    let s = shard();
    let token = create_token(CreateStrategyArgs { asset_id: 3, chunk_index: 0, chunk_size: 2 }).unwrap();
    assert!(http_request_streaming_callback(&s, &token).is_none());
}

#[test]
fn token_stops_at_the_last_piece() {
    assert!(create_token(CreateStrategyArgs { asset_id: 1, chunk_index: 0, chunk_size: 1 }).is_none());
    assert!(create_token(CreateStrategyArgs { asset_id: 1, chunk_index: 4, chunk_size: 3 }).is_none());
    assert!(create_token(CreateStrategyArgs { asset_id: 1, chunk_index: u32::MAX, chunk_size: u32::MAX })
        .is_none());
    let t = create_token(CreateStrategyArgs { asset_id: 1, chunk_index: 1, chunk_size: 3 }).unwrap();
    assert_eq!((t.asset_id, t.chunk_index, t.chunk_size), (1, 2, 3));
}

#[test]
fn routing_reuses_shard_until_full() {
    let mut list: StorageList = vec![Identity::new(vec![1])];
    for _ in 0..3 {
        match on_probe(&list, false) {
            ScalerStep::Reuse(addr) => assert_eq!(addr, Identity::new(vec![1])),
            ScalerStep::Provision(_) => panic!("shard is not full"),
        }
    }
    assert_eq!(list.len(), 1);
    match on_probe(&list, true) {
        ScalerStep::Provision(flag) => assert!(!flag),
        ScalerStep::Reuse(_) => panic!("shard is full"),
    }
    let fresh = add_shard(&mut list, Identity::new(vec![2]));
    assert_eq!(fresh, Identity::new(vec![2]));
    assert_eq!(storage_list(&list), vec![Identity::new(vec![1]), Identity::new(vec![2])]);
    assert_eq!(active_shard(&list), Some(Identity::new(vec![2])));
    assert_eq!(active_shard(&vec![]), None);
}

#[test]
fn sweep_removes_only_expired_chunks() {
    let mut s = shard();
    let old = upload(&mut s, alice(), 0, b"old", 1, 0);
    let edge = upload(&mut s, alice(), 0, b"edge", 1, 100);
    let fresh = upload(&mut s, alice(), 0, b"new", 1, 200);
    let kept = upload(&mut s, alice(), 0, b"asset", 5, 0);
    commit_batch(&mut s, commit_args(vec![kept], 5), alice(), 0).unwrap();
    delete_expired_chunks(&mut s, 100 + EXPIRY_LIMIT);
    assert_eq!(chunk_ids_check(&s, vec![old, edge, fresh]), vec![old]);
    assert_eq!(s.asset_list.len(), 1);
    delete_expired_chunks(&mut s, 0);
    assert_eq!(s.chunk_list.len(), 2);
}

#[test]
fn delete_asset_checks_caller() {
    let mut s = shard();
    let a = upload(&mut s, alice(), 0, b"A", 1, 1);
    let id = commit_batch(&mut s, commit_args(vec![a], 1), alice(), 2).unwrap();
    assert_eq!(delete_asset(&mut s, id, &anonymous()), Err(StorageError::AnonymousCaller));
    assert_eq!(delete_asset(&mut s, id + 1, &alice()), Err(StorageError::InvalidAssetId));
    assert_eq!(delete_asset(&mut s, id, &bob()), Err(StorageError::UnauthorizedOwner));
    assert_eq!(s.asset_list.len(), 1);
    assert_eq!(delete_asset(&mut s, id, &alice()), Ok(true));
    assert!(s.asset_list.is_empty());
    assert!(query_asset(&s, id).is_none());
}

#[test]
fn asset_queries_return_metadata() {
    let mut s = shard();
    let a = upload(&mut s, alice(), 0, b"A", 1, 1);
    let b = upload(&mut s, bob(), 0, b"B", 1, 1);
    let ia = commit_batch(&mut s, commit_args(vec![a], 1), alice(), 2).unwrap();
    let ib = commit_batch(&mut s, commit_args(vec![b], 1), bob(), 3).unwrap();
    let q = query_asset(&s, ia).unwrap();
    assert_eq!(q.file_name, "report.pdf");
    assert_eq!(q.file_type, "application/pdf");
    assert_eq!(q.owned_by, alice());
    assert_eq!(q.uploaded_at, 2);
    assert!(query_asset(&s, 99).is_none());
    let mine = assets_of(&s, &alice());
    assert_eq!(mine.len(), 1);
    assert!(mine.contains_key(&ia));
    let all = asset_list(&s);
    assert_eq!(all.len(), 2);
    assert_eq!(all[&ib].url, "http://aaaaa-aa.localhost:8080/asset/1");
}

#[test]
fn url_follows_environment() {
    let canister = Identity::new(vec![4]);
    assert_eq!(url_generator(true, &canister, 17), "https://2vxsx-fae.raw.ic0.app/asset/17");
    assert_eq!(url_generator(false, &canister, 0), "http://2vxsx-fae.localhost:8080/asset/0");
    let mut s = State::new(canister, false, 10);
    init(&mut s, true);
    let a = upload(&mut s, alice(), 0, b"A", 1, 1);
    commit_batch(&mut s, commit_args(vec![a], 1), alice(), 2).unwrap();
    assert_eq!(s.asset_list[0].url, "https://2vxsx-fae.raw.ic0.app/asset/0");
}

#[test]
fn asset_id_is_read_from_last_segment() {
    assert_eq!(asset_id_extractor("/asset/42"), Some(42));
    assert_eq!(asset_id_extractor("/asset/42?token=1"), Some(42));
    assert_eq!(asset_id_extractor("/asset/42?next=/3"), Some(3));
    assert_eq!(asset_id_extractor("/asset/ 7 "), Some(7));
    assert_eq!(asset_id_extractor("15"), Some(15));
    assert_eq!(asset_id_extractor("/asset/"), None);
    assert_eq!(asset_id_extractor("/asset/4x"), None);
    assert_eq!(asset_id_extractor("/asset/-1"), None);
}

#[test]
fn decimal_ids_are_parsed_exactly() {
    assert_eq!(parse_asset_id("+5"), Some(5));
    assert_eq!(parse_asset_id("+"), None);
    assert_eq!(parse_asset_id(""), None);
    assert_eq!(parse_asset_id("007"), Some(7));
    assert_eq!(parse_asset_id("340282366920938463463374607431768211455"), Some(u128::MAX));
    assert_eq!(parse_asset_id("340282366920938463463374607431768211456"), None);
}

#[test]
fn capacity_reading_decides_fullness() {
    let mut s = shard();
    assert!(!is_full(&s));
    update_storage(&mut s, 999);
    assert!(!is_full(&s));
    update_storage(&mut s, 1000);
    assert!(is_full(&s));
    assert_eq!(s.used_storage, 1000);
}
