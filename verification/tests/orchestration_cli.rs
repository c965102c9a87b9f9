use p2p_fileshare::cli::{parse_args, Mode};
use p2p_fileshare::orchestrator::{
    next_attempt, next_phase, resolve_peers, select_peer, start_download, DownloadPhase,
};
use p2p_fileshare::registry::{AdvertisedFile, PeerId, PeerRegistry};
use p2p_fileshare::Error;

fn argv(parts: &[&str]) -> Vec<String> {
    parts.iter().map(|s| String::from(*s)).collect()
}

#[test]
fn phases_advance_in_order() {
    let mut p = DownloadPhase::Resolving;
    for expected in [
        DownloadPhase::FetchingMetadata,
        DownloadPhase::Downloading,
        DownloadPhase::Finalizing,
        DownloadPhase::Done,
    ] {
        p = next_phase(p, true);
        assert_eq!(p, expected);
    }
    assert_eq!(next_phase(p, false), DownloadPhase::Done);
}

#[test]
fn any_active_phase_can_fail() {
    for p in [
        DownloadPhase::Resolving,
        DownloadPhase::FetchingMetadata,
        DownloadPhase::Downloading,
        DownloadPhase::Finalizing,
        DownloadPhase::Failed,
    ] {
        assert_eq!(next_phase(p, false), DownloadPhase::Failed);
    }
}

#[test]
fn resolving_with_no_peers_fails() {
    let reg = PeerRegistry::new();
    assert!(matches!(
        resolve_peers(&reg, &String::from("a.bin")),
        Err(Error::NoPeersFound)
    ));
}

#[test]
fn resolving_finds_advertising_peer() {
    let mut reg = PeerRegistry::new();
    reg.upsert(
        PeerId { host: 9, port: 6001 },
        6000,
        vec![AdvertisedFile {
            filename: String::from("a.bin"),
            chunk_size: 4,
            total_length: 10,
            total_chunks: 3,
        }],
        5,
    );
    let peers = resolve_peers(&reg, &String::from("a.bin")).unwrap();
    assert_eq!(peers, vec![PeerId { host: 9, port: 6001 }]);
}

#[test]
fn start_download_derives_geometry() {
    let state = start_download(65536, 150000).unwrap();
    assert_eq!(state.total_chunks(), 3);
    assert_eq!(state.chunk_size(), 65536);
    assert_eq!(state.total_length(), 150000);
    assert!(matches!(start_download(0, 10), Err(Error::MetadataUnavailable)));
}

#[test]
fn select_peer_skips_degraded_round_robin() {
    let peers = vec![
        PeerId { host: 1, port: 1 },
        PeerId { host: 2, port: 1 },
        PeerId { host: 3, port: 1 },
    ];
    let degraded = vec![false, true, false];
    assert_eq!(select_peer(&peers, &degraded, 1), Some(2));
    assert_eq!(select_peer(&peers, &degraded, 2), Some(2));
    assert_eq!(select_peer(&peers, &degraded, 0), Some(0));
    let all_down = vec![true, true, true];
    assert_eq!(select_peer(&peers, &all_down, 0), None);
}

#[test]
fn retry_budget_exhaustion_names_the_chunk() {
    assert_eq!(next_attempt(0, 3, 7), Ok(1));
    assert_eq!(next_attempt(2, 3, 7), Ok(3));
    assert_eq!(next_attempt(3, 3, 7), Err(Error::ChunkUnavailable(7)));
}

#[test]
fn parse_args_defaults() {
    let cfg = parse_args(&argv(&["p2p", "announce"])).unwrap();
    assert!(matches!(cfg.mode, Mode::Announce));
    assert_eq!(cfg.udp_port, 6001);
    assert_eq!(cfg.tcp_port, 6000);
    assert_eq!(cfg.chunk_size, 65536);
}

#[test]
fn parse_args_flags_and_subcommands() {
    let cfg = parse_args(&argv(&[
        "p2p",
        "--udp-port",
        "7001",
        "--tcp-port",
        "7000",
        "--chunk-size",
        "1024",
        "share",
        "movie.mkv",
    ]))
    .unwrap();
    assert_eq!(cfg.udp_port, 7001);
    assert_eq!(cfg.tcp_port, 7000);
    assert_eq!(cfg.chunk_size, 1024);
    match cfg.mode {
        Mode::Share { file } => assert_eq!(file, "movie.mkv"),
        _ => panic!("expected share"),
    }

    let cfg = parse_args(&argv(&["p2p", "get", "movie.mkv", "--out-dir", "/tmp"])).unwrap();
    match cfg.mode {
        Mode::Get { filename, out_dir } => {
            assert_eq!(filename, "movie.mkv");
            assert_eq!(out_dir, "/tmp");
        },
        _ => panic!("expected get"),
    }

    let cfg = parse_args(&argv(&["p2p", "get", "movie.mkv"])).unwrap();
    match cfg.mode {
        Mode::Get { out_dir, .. } => assert_eq!(out_dir, "."),
        _ => panic!("expected get"),
    }

    let cfg = parse_args(&argv(&["p2p", "peers"])).unwrap();
    assert!(matches!(cfg.mode, Mode::Peers));
}

#[test]
fn parse_args_peers_defaults() {
    let cfg = parse_args(&argv(&["p2p-fileshare", "peers"])).unwrap();
    assert!(matches!(cfg.mode, Mode::Peers));
    assert_eq!(cfg.udp_port, 6001);
    assert_eq!(cfg.tcp_port, 6000);
    assert_eq!(cfg.chunk_size, 65536);
}

#[test]
fn parse_args_flag_overrides_its_default_alone() {
    let cfg = parse_args(&argv(&["p2p-fileshare", "--chunk-size", "1024", "get", "a.bin"]))
        .unwrap();
    assert_eq!(cfg.chunk_size, 1024);
    assert_eq!(cfg.udp_port, 6001);
    assert_eq!(cfg.tcp_port, 6000);
    match cfg.mode {
        Mode::Get { filename, out_dir } => {
            assert_eq!(filename, "a.bin");
            assert_eq!(out_dir, ".");
        },
        _ => panic!("expected get"),
    }
}

#[test]
fn parse_args_rejects_bad_input() {
    assert!(parse_args(&argv(&["p2p"])).is_none());
    assert!(parse_args(&argv(&[])).is_none());
    assert!(parse_args(&argv(&["p2p", "frobnicate"])).is_none());
    assert!(parse_args(&argv(&["p2p", "--udp-port", "announce"])).is_none());
    assert!(parse_args(&argv(&["p2p", "--udp-port", "65536", "announce"])).is_none());
    assert!(parse_args(&argv(&["p2p", "--chunk-size", "0", "announce"])).is_none());
    assert!(parse_args(&argv(&["p2p", "--chunk-size", "99999999999999999999", "announce"]))
        .is_none());
    assert!(parse_args(&argv(&["p2p", "share"])).is_none());
    assert!(parse_args(&argv(&["p2p", "announce", "extra"])).is_none());
    assert!(parse_args(&argv(&["p2p", "get"])).is_none());
}
