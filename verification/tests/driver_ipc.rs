use knob::driver_ipc::{
    encode_shm_config, encode_shm_header, find_knob_plugin, fourcc, frame_sample_index,
    parse_driver_status, producer_chunk, shm_name, shm_total_size, DriverStatus, IpcError,
    PluginCandidate, KNOB_IPC_MAGIC, KNOB_SHM_NAME_MAX, PRODUCER_CHUNK_FRAMES, RING_FRAMES,
    SHM_CONFIG_SIZE, SHM_HEADER_SIZE,
};

#[test]
fn fourcc_is_big_endian() {
    assert_eq!(fourcc(*b"Kibp"), 0x4B69_6270);
    assert_eq!(fourcc(*b"plg#"), u32::from_be_bytes(*b"plg#"));
    assert_eq!(fourcc(*b"piid"), u32::from_be_bytes(*b"piid"));
}

#[test]
fn total_size_is_header_plus_ring() {
    assert_eq!(shm_total_size(), 48 + 16_384 * 2 * 4);
    assert_eq!(shm_total_size(), 131_120);
}

#[test]
fn header_layout() {
    let h = encode_shm_header();
    assert_eq!(h.len(), SHM_HEADER_SIZE);
    assert_eq!(&h[0..4], &KNOB_IPC_MAGIC.to_le_bytes());
    assert_eq!(&h[0..4], b"BONK");
    assert_eq!(&h[4..8], &1u32.to_le_bytes());
    assert_eq!(&h[8..12], &48_000u32.to_le_bytes());
    assert_eq!(&h[12..16], &2u32.to_le_bytes());
    assert_eq!(&h[16..20], &16_384u32.to_le_bytes());
    assert!(h[20..].iter().all(|&b| b == 0));
}

#[test]
fn config_for_disconnect_is_empty() {
    assert_eq!(encode_shm_config(None), Ok(Vec::new()));
}

#[test]
fn config_layout() {
    let cfg = encode_shm_config(Some(b"/knob.4242")).unwrap();
    assert_eq!(cfg.len(), SHM_CONFIG_SIZE);
    assert_eq!(&cfg[0..4], &KNOB_IPC_MAGIC.to_le_bytes());
    assert_eq!(&cfg[4..8], &1u32.to_le_bytes());
    assert_eq!(&cfg[8..18], b"/knob.4242");
    assert!(cfg[18..].iter().all(|&b| b == 0));
}

#[test]
fn config_name_limit() {
    let longest = vec![b'a'; KNOB_SHM_NAME_MAX - 1];
    let cfg = encode_shm_config(Some(&longest)).unwrap();
    assert_eq!(cfg.len(), SHM_CONFIG_SIZE);
    assert_eq!(cfg[SHM_CONFIG_SIZE - 1], 0);
    let too_long = vec![b'a'; KNOB_SHM_NAME_MAX];
    assert_eq!(encode_shm_config(Some(&too_long)), Err(IpcError::NameTooLong));
}

#[test]
fn shm_name_is_prefix_and_pid() {
    assert_eq!(shm_name(4242), b"/knob.4242".to_vec());
    assert_eq!(shm_name(0), b"/knob.0".to_vec());
    assert_eq!(shm_name(u32::MAX), b"/knob.4294967295".to_vec());
    assert_eq!(shm_name(10), format!("/knob.{}", 10).into_bytes());
    assert!(encode_shm_config(Some(&shm_name(u32::MAX))).is_ok());
}

#[test]
fn status_too_short() {
    assert_eq!(parse_driver_status(&[]), Err(IpcError::StatusTooShort { len: 0 }));
    assert_eq!(parse_driver_status(&[0u8; 19]), Err(IpcError::StatusTooShort { len: 19 }));
}

#[test]
fn status_fields() {
    let mut b = Vec::new();
    b.extend_from_slice(&1u32.to_le_bytes());
    b.extend_from_slice(&7i32.to_le_bytes());
    b.extend_from_slice(&(-2i32).to_le_bytes());
    b.extend_from_slice(&72u32.to_le_bytes());
    b.extend_from_slice(&0x0102_0304u32.to_le_bytes());
    b.push(0xff);
    assert_eq!(
        parse_driver_status(&b),
        Ok(DriverStatus {
            override_active: 1,
            last_stage: 7,
            last_errno: -2,
            last_config_len: 72,
            xrun_count: 0x0102_0304,
        })
    );
}

#[test]
fn producer_fills_free_room() {
    assert_eq!(producer_chunk(0, 0), PRODUCER_CHUNK_FRAMES);
    assert_eq!(producer_chunk(16_000, 0), 384);
    assert_eq!(producer_chunk(16_384, 0), 0);
    assert_eq!(producer_chunk(20_000, 3_000), 0);
    assert_eq!(producer_chunk(20_000, 19_000), 1024);
    assert_eq!(producer_chunk(u64::MAX, u64::MAX - 16_000), 384);
}

#[test]
fn producer_never_overruns_reader() {
    let mut produced: u64 = 0;
    let read: u64 = 100;
    for _ in 0..100 {
        let chunk = producer_chunk(produced.max(read), read);
        produced = produced.max(read) + chunk;
        assert!(produced - read <= RING_FRAMES as u64);
    }
    assert_eq!(produced - read, RING_FRAMES as u64);
}

#[test]
fn frame_slots_wrap() {
    assert_eq!(frame_sample_index(0), 0);
    assert_eq!(frame_sample_index(1), 2);
    assert_eq!(frame_sample_index(16_383), 32_766);
    assert_eq!(frame_sample_index(16_384), 0);
    assert_eq!(frame_sample_index(16_385), 2);
}

#[test]
fn plugin_lookup() {
    let cands = vec![
        PluginCandidate { id: 1, bundle_id: None },
        PluginCandidate { id: 2, bundle_id: Some("com.apple.audio.CoreAudio".to_string()) },
        PluginCandidate { id: 3, bundle_id: Some("com.duosonic62.knob.driver".to_string()) },
        PluginCandidate { id: 4, bundle_id: Some("com.duosonic62.knob.driver".to_string()) },
    ];
    assert_eq!(find_knob_plugin(&cands), Some(3));
    assert_eq!(find_knob_plugin(&cands[..2].to_vec()), None);
    assert_eq!(find_knob_plugin(&Vec::new()), None);
}
