use p2p_fileshare::chunk::{Chunk, FileChunks};
use p2p_fileshare::protocol::{
    decode_announce, decode_request, decode_response, encode_announce, encode_request,
    encode_response_err, encode_response_ok, AnnounceFile, ChunkRequest,
};
use p2p_fileshare::registry::{AdvertisedFile, PeerId, PeerRegistry};
use p2p_fileshare::transfer::SharedCatalog;
use p2p_fileshare::Error;

fn peer(host: u32, port: u16) -> PeerId {
    PeerId { host, port }
}

fn advert(name: &str) -> AdvertisedFile {
    AdvertisedFile {
        filename: String::from(name),
        chunk_size: 65536,
        total_length: 150000,
        total_chunks: 3,
    }
}

#[test]
fn request_codec_round_trip() {
    let name = b"file.txt".to_vec();
    let bytes = encode_request(&name, 7);
    let req = decode_request(&bytes).unwrap();
    assert_eq!(req.name, name);
    assert_eq!(req.index, 7);
}

#[test]
fn request_codec_rejects_malformed() {
    assert!(decode_request(&Vec::new()).is_none());
    assert!(decode_request(&vec![5u8]).is_none());
    let mut bytes = encode_request(&b"a".to_vec(), 1);
    bytes.pop();
    assert!(decode_request(&bytes).is_none());
    bytes.push(0);
    bytes.push(0);
    assert!(decode_request(&bytes).is_none());
}

#[test]
fn response_codec_round_trips_chunk() {
    let chunk = Chunk { index: 2, data: vec![1, 2, 3, 4, 5] };
    let bytes = encode_response_ok(&chunk);
    match decode_response(&bytes).unwrap() {
        Ok(c) => {
            assert_eq!(c.index, 2);
            assert_eq!(c.data, vec![1, 2, 3, 4, 5]);
        },
        Err(_) => panic!("expected a chunk"),
    }
}

#[test]
fn response_codec_round_trips_errors() {
    for e in [Error::NotFound, Error::OutOfRange, Error::IoError] {
        let bytes = encode_response_err(e);
        assert_eq!(bytes.len(), 1);
        match decode_response(&bytes).unwrap() {
            Ok(_) => panic!("expected an error"),
            Err(got) => assert_eq!(got, e),
        }
    }
    assert!(decode_response(&Vec::new()).is_none());
    assert!(decode_response(&vec![9u8]).is_none());
    assert!(decode_response(&vec![0u8, 1, 2]).is_none());
}

#[test]
fn announce_codec_round_trip() {
    let files = vec![
        AnnounceFile {
            name: b"a.bin".to_vec(),
            chunk_size: 65536,
            total_length: 150000,
            total_chunks: 3,
        },
        AnnounceFile { name: b"b".to_vec(), chunk_size: 4, total_length: 10, total_chunks: 3 },
    ];
    let bytes = encode_announce(6000, &files);
    let (port, got) = decode_announce(&bytes).unwrap();
    assert_eq!(port, 6000);
    assert_eq!(got.len(), 2);
    assert_eq!(got[0].name, b"a.bin".to_vec());
    assert_eq!(got[0].chunk_size, 65536);
    assert_eq!(got[0].total_length, 150000);
    assert_eq!(got[0].total_chunks, 3);
    assert_eq!(got[1].name, b"b".to_vec());
}

#[test]
fn announce_codec_rejects_malformed() {
    assert!(decode_announce(&Vec::new()).is_none());
    assert!(decode_announce(&vec![0u8, 0, 0]).is_none());
    let files = vec![AnnounceFile {
        name: b"a".to_vec(),
        chunk_size: 1,
        total_length: 1,
        total_chunks: 1,
    }];
    let mut bytes = encode_announce(6000, &files);
    bytes.pop();
    assert!(decode_announce(&bytes).is_none());
    bytes.push(0);
    bytes.push(0);
    assert!(decode_announce(&bytes).is_none());
}

#[test]
fn registry_upsert_refreshes_single_entry() {
    let mut reg = PeerRegistry::new();
    reg.upsert(peer(1, 6001), 6000, vec![advert("a.bin")], 100);
    reg.upsert(peer(1, 6001), 7000, vec![advert("a.bin"), advert("b.bin")], 150);
    assert_eq!(reg.len(), 1);
    let entry = reg.get(0);
    assert_eq!(entry.tcp_port, 7000);
    assert_eq!(entry.last_seen, 150);
    assert_eq!(entry.advertised_files.len(), 2);
}

#[test]
fn find_peers_matches_exact_name() {
    let mut reg = PeerRegistry::new();
    reg.upsert(peer(1, 6001), 6000, vec![advert("a.bin")], 100);
    reg.upsert(peer(2, 6001), 6000, vec![advert("b.bin")], 100);
    let found = reg.find_peers(&String::from("a.bin"));
    assert_eq!(found, vec![peer(1, 6001)]);
    let none = reg.find_peers(&String::from("c.bin"));
    assert!(none.is_empty());
}

#[test]
fn stale_peer_evicted_after_sweep() {
    let mut reg = PeerRegistry::new();
    reg.upsert(peer(1, 6001), 6000, vec![advert("a.bin")], 100);
    reg.upsert(peer(2, 6001), 6000, vec![advert("a.bin")], 400);
    // staleness_ttl of 300: the first peer was last seen 301 ticks ago.
    reg.sweep(401, 300);
    let found = reg.find_peers(&String::from("a.bin"));
    assert_eq!(found, vec![peer(2, 6001)]);
    assert_eq!(reg.len(), 1);
}

#[test]
fn fresh_peer_survives_sweep() {
    let mut reg = PeerRegistry::new();
    reg.upsert(peer(1, 6001), 6000, vec![advert("a.bin")], 100);
    reg.sweep(400, 300);
    assert_eq!(reg.len(), 1);
}

#[test]
fn handle_request_serves_shared_chunk() {
    let data: Vec<u8> = (0..100u32).map(|i| i as u8).collect();
    let mut catalog = SharedCatalog::new();
    catalog.share(b"a.bin".to_vec(), FileChunks::new(data.clone(), 40));
    let req = ChunkRequest { name: b"a.bin".to_vec(), index: 2 };
    let chunk = catalog.handle_request(&req).unwrap();
    assert_eq!(chunk.index, 2);
    assert_eq!(chunk.data, data[80..100].to_vec());
}

#[test]
fn handle_request_not_found_and_out_of_range() {
    let mut catalog = SharedCatalog::new();
    catalog.share(b"a.bin".to_vec(), FileChunks::new(vec![0u8; 100], 40));
    let missing = ChunkRequest { name: b"b.bin".to_vec(), index: 0 };
    assert!(matches!(catalog.handle_request(&missing), Err(Error::NotFound)));
    let past_end = ChunkRequest { name: b"a.bin".to_vec(), index: 3 };
    assert!(matches!(catalog.handle_request(&past_end), Err(Error::OutOfRange)));
}

#[test]
fn end_to_end_over_the_wire() {
    // A serving peer shares a 150000-byte file; a fetching peer asks for
    // all three chunks through the wire codec and rebuilds the file.
    let data: Vec<u8> = (0..150000usize).map(|i| (i % 251) as u8).collect();
    let mut catalog = SharedCatalog::new();
    catalog.share(b"big.bin".to_vec(), FileChunks::new(data.clone(), 65536));
    let mut state = p2p_fileshare::download::DownloadState::new(3, 65536, 150000);
    for idx in 0..3u64 {
        let wire_req = encode_request(&b"big.bin".to_vec(), idx);
        let req = decode_request(&wire_req).unwrap();
        let wire_resp = match catalog.handle_request(&req) {
            Ok(chunk) => encode_response_ok(&chunk),
            Err(e) => encode_response_err(e),
        };
        let chunk = decode_response(&wire_resp).unwrap().unwrap();
        if idx == 2 {
            assert_eq!(chunk.data.len(), 18928);
        }
        assert!(p2p_fileshare::orchestrator::chunk_acceptable(&state, idx, &chunk));
        state.write_chunk(chunk);
    }
    assert!(state.is_complete());
    let out = state.finalize();
    assert_eq!(out.len(), 150000);
    assert_eq!(out, data);
}
