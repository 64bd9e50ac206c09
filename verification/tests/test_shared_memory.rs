use pipewire_volume_mixer_daemon::cache::{AppInfo, AudioCache, SinkInfo};
use pipewire_volume_mixer_daemon::codec::{
    decode_snapshot, encode_snapshot, SHM_SIZE, WireApp, WireSink, WireSnapshot,
};
use pipewire_volume_mixer_daemon::publisher::snapshot_to_wire;

#[test]
fn test_binary_format() {
    // Test the binary format encoding/decoding
    let test_string = "Hello, World!";
    let mut buffer = Vec::new();

    // Write length (4 bytes)
    buffer.extend_from_slice(&(test_string.len() as u32).to_le_bytes());
    // Write string
    buffer.extend_from_slice(test_string.as_bytes());

    // Read it back
    let len = u32::from_le_bytes([buffer[0], buffer[1], buffer[2], buffer[3]]) as usize;
    let string = String::from_utf8(buffer[4..4 + len].to_vec()).unwrap();

    assert_eq!(string, test_string);
}

#[test]
fn test_shared_memory_size_limits() {
    // Test that our data structures fit within the 64KB limit
    let mut cache = AudioCache::new();

    // Maximum realistic scenario:
    // - 10 sinks (3 virtual + 7 physical)
    // - 50 apps
    // Each sink: ~100 bytes
    // Each app: ~200 bytes
    // Total: ~11KB, well within 64KB limit

    for i in 0..10 {
        cache.update_sink(
            format!("Sink_{i}"),
            SinkInfo {
                id: i,
                name: format!("TestSink_{i}"),
                volume: 0.5f32.to_bits(),
                muted: false,
            },
        );
    }

    for i in 0..50 {
        cache.update_app(
            format!("App_{i}"),
            AppInfo {
                display_name: format!("Application_{i}"),
                binary_name: format!("app_{i}"),
                current_sink: "Game".to_string(),
                active: true,
                sink_input_ids: vec![i * 2, i * 2 + 1],
                inactive_since: None,
            },
        );
    }

    let snapshot = cache.get_snapshot();

    // Rough size estimation
    let estimated_size = snapshot.sinks.len() * 100 + snapshot.apps.len() * 200 + 32; // header
    assert!(
        estimated_size < SHM_SIZE,
        "Estimated size {estimated_size} exceeds shared memory limit {SHM_SIZE}"
    );

    // And the real encoding fits too
    let wire = snapshot_to_wire(&snapshot, 12345);
    let bytes = encode_snapshot(&wire).expect("snapshot must fit the region");
    assert!(bytes.len() <= SHM_SIZE);
}

#[test]
fn test_round_trip_named_sinks() {
    // Three buses at exact volumes round-trip through the wire layout
    let mut cache = AudioCache::new();
    cache.update_sink(
        "Game".to_string(),
        SinkInfo { id: 1, name: "Game".to_string(), volume: 0.75f32.to_bits(), muted: false },
    );
    cache.update_sink(
        "Chat".to_string(),
        SinkInfo { id: 2, name: "Chat".to_string(), volume: 0.5f32.to_bits(), muted: true },
    );
    cache.update_sink(
        "Media".to_string(),
        SinkInfo { id: 3, name: "Media".to_string(), volume: 1.0f32.to_bits(), muted: false },
    );
    cache.update_app(
        "Firefox".to_string(),
        AppInfo {
            display_name: "Firefox".to_string(),
            binary_name: "firefox".to_string(),
            current_sink: "Media".to_string(),
            active: true,
            sink_input_ids: vec![7],
            inactive_since: None,
        },
    );

    let snapshot = cache.get_snapshot();
    let wire = snapshot_to_wire(&snapshot, 777);
    let bytes = encode_snapshot(&wire).expect("snapshot must fit the region");
    let back = decode_snapshot(&bytes).expect("own encoding must decode");

    assert_eq!(back.generation, snapshot.generation);
    assert_eq!(back.timestamp_ms, 777);
    assert_eq!(back.sinks.len(), 3);
    assert_eq!(back.apps.len(), 1);

    let volume_of = |name: &str| -> (u32, bool) {
        let s = back
            .sinks
            .iter()
            .find(|s| s.name == name.as_bytes())
            .expect("sink must survive the round trip");
        (s.volume, s.muted)
    };
    assert_eq!(volume_of("Game"), (0.75f32.to_bits(), false));
    assert_eq!(volume_of("Chat"), (0.5f32.to_bits(), true));
    assert_eq!(volume_of("Media"), (1.0f32.to_bits(), false));

    assert_eq!(back.apps[0].name, b"Firefox".to_vec());
    assert_eq!(back.apps[0].current_sink, b"Media".to_vec());
    assert!(back.apps[0].active);
}

#[test]
fn test_round_trip_capacity() {
    // N=13 sinks and M=50 apps fit under 64 KiB and round-trip exactly
    let mut sinks = Vec::new();
    for i in 0..13u32 {
        sinks.push(WireSink {
            name: format!("Sink_{i}").into_bytes(),
            id: i,
            volume: 0.25f32.to_bits(),
            muted: i % 2 == 0,
        });
    }
    let mut apps = Vec::new();
    for i in 0..50u32 {
        apps.push(WireApp {
            name: format!("Application {i}").into_bytes(),
            current_sink: "Game".to_string().into_bytes(),
            active: i % 3 != 0,
        });
    }
    let wire = WireSnapshot { generation: 42, timestamp_ms: 99999, sinks, apps };
    let bytes = encode_snapshot(&wire).expect("snapshot must fit the region");
    assert!(bytes.len() <= SHM_SIZE);
    let back = decode_snapshot(&bytes).expect("own encoding must decode");
    assert_eq!(back.generation, 42);
    assert_eq!(back.timestamp_ms, 99999);
    assert_eq!(back.sinks.len(), 13);
    assert_eq!(back.apps.len(), 50);
    for i in 0..13usize {
        assert_eq!(back.sinks[i].name, wire.sinks[i].name);
        assert_eq!(back.sinks[i].id, wire.sinks[i].id);
        assert_eq!(back.sinks[i].volume, wire.sinks[i].volume);
        assert_eq!(back.sinks[i].muted, wire.sinks[i].muted);
    }
    for i in 0..50usize {
        assert_eq!(back.apps[i].name, wire.apps[i].name);
        assert_eq!(back.apps[i].current_sink, wire.apps[i].current_sink);
        assert_eq!(back.apps[i].active, wire.apps[i].active);
    }
}

#[test]
fn test_encode_rejects_oversized() {
    // A single application with enormous names repeated past the region
    // size must be refused, not written
    let mut apps = Vec::new();
    for i in 0..300u32 {
        apps.push(WireApp {
            name: format!("{:a<250}", i).into_bytes(),
            current_sink: "Game".to_string().into_bytes(),
            active: true,
        });
    }
    let wire = WireSnapshot { generation: 1, timestamp_ms: 0, sinks: Vec::new(), apps };
    assert!(encode_snapshot(&wire).is_none());
}

#[test]
fn test_encode_rejects_long_name() {
    // A name past the one-byte length prefix must be refused
    let wire = WireSnapshot {
        generation: 1,
        timestamp_ms: 0,
        sinks: vec![WireSink {
            name: vec![b'x'; 300],
            id: 1,
            volume: 0,
            muted: false,
        }],
        apps: Vec::new(),
    };
    assert!(encode_snapshot(&wire).is_none());
}

#[test]
fn test_decode_rejects_garbage() {
    assert!(decode_snapshot(&vec![]).is_none());
    assert!(decode_snapshot(&vec![0u8; 10]).is_none());
    // Wrong format version
    let mut bytes = vec![0u8; 40];
    bytes[0] = 9;
    assert!(decode_snapshot(&bytes).is_none());
}
