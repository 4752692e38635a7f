use xdcc_fetch::transfer::TransferEngine;

#[test]
fn partial_reads_reconstruct_the_stream_in_order() {
    let chunks: Vec<&[u8]> = vec![b"abc", b"defg", b"hij"];
    let size: u64 = 10;
    let mut engine = TransferEngine::new(size);
    let mut sink: Vec<u8> = Vec::new();
    for c in chunks.iter() {
        assert!(c.len() as u64 <= engine.remaining());
        engine.ingest(c, &mut sink);
    }
    assert!(engine.is_done());
    assert_eq!(sink.len() as u64, size);
    assert_eq!(sink, b"abcdefghij".to_vec());
}

#[test]
fn transfer_is_not_done_before_declared_size() {
    let mut engine = TransferEngine::new(5);
    let mut sink: Vec<u8> = Vec::new();
    engine.ingest(b"ab", &mut sink);
    assert!(!engine.is_done());
    assert_eq!(engine.remaining(), 3);
    engine.ingest(b"cde", &mut sink);
    assert!(engine.is_done());
    assert_eq!(sink, b"abcde".to_vec());
}

#[test]
fn chunk_limit_never_overshoots_declared_size() {
    let mut engine = TransferEngine::new(5000);
    assert_eq!(engine.chunk_limit(), 4096);
    engine.record_chunk(4096);
    assert_eq!(engine.chunk_limit(), 904);
    engine.record_chunk(904);
    assert_eq!(engine.chunk_limit(), 0);
    assert!(engine.is_done());
}

#[test]
fn empty_transfer_is_done_immediately() {
    let engine = TransferEngine::new(0);
    assert!(engine.is_done());
    assert_eq!(engine.chunk_limit(), 0);
}
