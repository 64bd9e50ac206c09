use pipewire_volume_mixer_daemon::bridge::{
    apply_update, classify_node, stream_display_key, CacheUpdate, NodeClassification, NodeInfo,
    NodeProps, NodeRegistry,
};
use pipewire_volume_mixer_daemon::cache::{AppInfo, AudioCache, SinkInfo};
use pipewire_volume_mixer_daemon::publisher::{
    PublisherState, FAST_INTERVAL_MS, SLOW_INTERVAL_MS,
};
use pipewire_volume_mixer_daemon::routing::{RouteBegin, RouteError};
use std::sync::{Arc, Mutex};

fn sample_app(sink: &str, ids: Vec<u32>) -> AppInfo {
    AppInfo {
        display_name: "Spotify".to_string(),
        binary_name: "spotify".to_string(),
        current_sink: sink.to_string(),
        active: !ids.is_empty(),
        sink_input_ids: ids,
        inactive_since: None,
    }
}

#[test]
fn test_attach_is_idempotent() {
    // Attaching the same stream identifier twice must not duplicate it
    let mut cache = AudioCache::new();
    for _ in 0..2 {
        apply_update(
            &mut cache,
            CacheUpdate::AddSinkInputToApp {
                app_name: "Firefox".to_string(),
                sink_input_id: 42,
                current_sink: "Media".to_string(),
            },
            0,
        );
    }
    let app = cache.apps.get("Firefox").unwrap().clone();
    assert_eq!(app.sink_input_ids, vec![42]);
    assert!(app.active);
    assert_eq!(app.inactive_since, None);
    // The create path lowercases the display name into the binary name
    assert_eq!(app.binary_name, "firefox");
}

#[test]
fn test_detach_marks_inactive() {
    let mut cache = AudioCache::new();
    cache.update_app("Spotify".to_string(), sample_app("Media", vec![7]));
    apply_update(&mut cache, CacheUpdate::MarkAppInactive { sink_input_id: 7 }, 123456);
    let app = cache.apps.get("Spotify").unwrap().clone();
    assert!(!app.active);
    assert!(app.sink_input_ids.is_empty());
    assert_eq!(app.inactive_since, Some(123456));
}

#[test]
fn test_detach_keeps_other_streams() {
    let mut cache = AudioCache::new();
    cache.update_app("Spotify".to_string(), sample_app("Media", vec![7, 8]));
    apply_update(&mut cache, CacheUpdate::MarkAppInactive { sink_input_id: 7 }, 5);
    let app = cache.apps.get("Spotify").unwrap().clone();
    assert!(app.active);
    assert_eq!(app.sink_input_ids, vec![8]);
    assert_eq!(app.inactive_since, None);
}

#[test]
fn test_check_routing_rule_returns_action() {
    let mut cache = AudioCache::new();
    cache.set_routing_rule("Spotify".to_string(), "Media".to_string());
    let action = apply_update(
        &mut cache,
        CacheUpdate::CheckRoutingRule { app_name: "Spotify".to_string(), sink_input_id: 9 },
        0,
    );
    let action = action.expect("a standing rule must produce a move");
    assert_eq!(action.app_name, "Spotify");
    assert_eq!(action.sink_input_id, 9);
    assert_eq!(action.target_sink, "Media");

    let none = apply_update(
        &mut cache,
        CacheUpdate::CheckRoutingRule { app_name: "Unknown".to_string(), sink_input_id: 9 },
        0,
    );
    assert!(none.is_none());
}

#[test]
fn test_eviction_spares_ruled_apps() {
    // An inactive application with a standing routing rule survives the sweep
    let mut cache = AudioCache::new();
    let mut app = sample_app("Media", vec![]);
    app.active = false;
    app.inactive_since = Some(0);
    cache.update_app("Spotify".to_string(), app.clone());
    cache.update_app(
        "Doomed".to_string(),
        AppInfo { display_name: "Doomed".to_string(), ..app },
    );
    cache.set_routing_rule("Spotify".to_string(), "Media".to_string());
    let removed = cache.cleanup_inactive_apps(300, 400_000);
    assert_eq!(removed, 1);
    assert!(cache.apps.contains_key("Spotify"));
    assert!(!cache.apps.contains_key("Doomed"));
}

#[test]
fn test_route_with_no_streams_records_rule_only() {
    // A route request for an application with no live streams succeeds,
    // records the rule, and leaves the current sink untouched
    let mut cache = AudioCache::new();
    cache.update_sink(
        "Media".to_string(),
        SinkInfo { id: 1, name: "Media".to_string(), volume: 0, muted: false },
    );
    let mut app = sample_app("Game", vec![]);
    app.active = false;
    cache.update_app("Spotify".to_string(), app);

    let r = cache.route_begin(&"Spotify".to_string(), &"Media".to_string(), vec![]);
    assert!(matches!(r, Ok(RouteBegin::RuleOnly)));
    assert_eq!(
        cache.routing_rules.get("Spotify").map(|r| r.clone()),
        Some("Media".to_string())
    );
    assert_eq!(cache.apps.get("Spotify").unwrap().current_sink, "Game");
}

#[test]
fn test_route_unknown_sink() {
    // A misspelled sink fails the request and leaves the cache
    // untouched: no rule is recorded, the app keeps its state
    let mut cache = AudioCache::new();
    cache.update_app("Spotify".to_string(), sample_app("Game", vec![4]));
    let generation = cache.get_generation();
    let r = cache.route_begin(&"Spotify".to_string(), &"Nowhere".to_string(), vec![4]);
    assert!(matches!(r, Err(RouteError::UnknownSink)));
    assert!(cache.routing_rules.get("Spotify").is_none());
    assert_eq!(cache.apps.get("Spotify").unwrap().sink_input_ids, vec![4]);
    assert_eq!(cache.get_generation(), generation);
}

#[test]
fn test_stream_display_key() {
    // A binary found in the process listing names the stream, capitalized;
    // otherwise the backend's reported name stands
    assert_eq!(stream_display_key(Some("firefox"), "AudioStream"), "Firefox");
    assert_eq!(stream_display_key(None, "Spotify"), "Spotify");
}

#[test]
fn test_node_registry_correlation() {
    // The detach path reuses exactly the serial the attach recorded
    let mut registry = NodeRegistry::new();
    registry.record(60, NodeInfo { app_name: "Spotify".to_string(), serial_id: 77 });
    let info = registry.take_removed(60).expect("the recorded node comes back out");
    assert_eq!(info.app_name, "Spotify");
    assert_eq!(info.serial_id, 77);
    assert!(registry.take_removed(60).is_none());
}

#[test]
fn test_route_commit_trusts_observation() {
    // The observed sink, not the requested one, lands in the cache
    let mut cache = AudioCache::new();
    cache.update_app("Spotify".to_string(), sample_app("Game", vec![4]));
    let stuck = cache.route_commit(
        &"Spotify".to_string(),
        &"Media".to_string(),
        Some("Game".to_string()), // the backend put it back
    );
    assert!(!stuck);
    assert_eq!(cache.apps.get("Spotify").unwrap().current_sink, "Game");
    assert_eq!(
        cache.remembered_apps.get("Spotify").map(|r| r.clone()),
        Some("Game".to_string())
    );

    let stuck = cache.route_commit(&"Spotify".to_string(), &"Media".to_string(), None);
    assert!(stuck);
    assert_eq!(cache.apps.get("Spotify").unwrap().current_sink, "Media");
}

#[test]
fn test_volume_and_mute_cached() {
    let mut cache = AudioCache::new();
    cache.update_sink(
        "Game".to_string(),
        SinkInfo { id: 31, name: "Game".to_string(), volume: 0, muted: false },
    );
    let id = cache.set_sink_volume_cached(&"Game".to_string(), 0.5f32.to_bits());
    assert_eq!(id, Some(31));
    assert_eq!(cache.sinks.get("Game").unwrap().volume, 0.5f32.to_bits());
    let id = cache.set_sink_mute_cached(&"Game".to_string(), true);
    assert_eq!(id, Some(31));
    assert!(cache.sinks.get("Game").unwrap().muted);
    assert!(cache.set_sink_volume_cached(&"Missing".to_string(), 0).is_none());
}

#[test]
fn test_publisher_staleness_self_heals() {
    // No successful publish past the threshold: the tick recreates the
    // region and then cannot skip for an unchanged generation
    let mut st = PublisherState::new(0);
    st.note_publish_ok(1000, 5); // generation 5 published at t=1s
    assert!(!st.needs_recreate(30_000));
    assert!(!st.should_publish(5)); // unchanged generation skips
    assert!(st.needs_recreate(31_001)); // stale after the threshold
    st.note_recreated_stale(31_001);
    assert!(st.should_publish(5)); // full re-publish despite unchanged generation
    st.note_publish_ok(31_002, 5);
    assert!(!st.should_publish(5));
}

#[test]
fn test_publisher_adaptive_interval() {
    let mut st = PublisherState::new(0);
    assert_eq!(st.interval_ms(), FAST_INTERVAL_MS);
    for i in 1..=10u64 {
        let freshen = st.note_idle();
        assert!(!freshen, "no freshness write in the first {i} idle ticks");
    }
    assert_eq!(st.interval_ms(), SLOW_INTERVAL_MS);
    let mut freshened = false;
    for _ in 11..=100u64 {
        freshened = st.note_idle();
    }
    assert!(freshened, "the hundredth idle tick refreshes the region");
    st.note_publish_ok(5000, 7);
    assert_eq!(st.interval_ms(), FAST_INTERVAL_MS);
}

#[test]
fn test_publisher_failure_recreate() {
    let mut st = PublisherState::new(0);
    assert!(!st.note_publish_err());
    assert!(!st.note_publish_err());
    assert!(!st.note_publish_err());
    assert!(st.note_publish_err()); // the fourth failure in a row recreates
    st.note_recreated_after_failures(77);
    assert!(!st.note_publish_err());
}

#[test]
fn test_concurrent_bus_upserts() {
    // Ten concurrent writers, a hundred independent-key upserts each:
    // all entries present, no panic, no deadlock
    let cache = Arc::new(Mutex::new(AudioCache::new()));
    let rt = tokio::runtime::Builder::new_multi_thread().worker_threads(4).build().unwrap();
    rt.block_on(async {
        let mut handles = Vec::new();
        for i in 0..10u32 {
            let cache = cache.clone();
            handles.push(tokio::spawn(async move {
                for j in 0..100u32 {
                    let mut guard = cache.lock().unwrap();
                    guard.update_sink(
                        format!("Sink_{i}_{j}"),
                        SinkInfo {
                            id: i * 100 + j,
                            name: format!("Sink_{i}"),
                            volume: 0.5f32.to_bits(),
                            muted: false,
                        },
                    );
                }
            }));
        }
        for h in handles {
            h.await.unwrap();
        }
    });
    let guard = cache.lock().unwrap();
    assert!(guard.sinks.len() >= 900);
    assert!(guard.get_generation() >= 1000);
}

#[test]
fn test_classify_node() {
    let sink_names = vec!["Game".to_string(), "Chat".to_string(), "Media".to_string()];
    let sink = NodeProps {
        id: 51,
        node_name: "Game".to_string(),
        media_class: "Audio/Sink".to_string(),
        media_name: None,
        application_name: None,
        node_description: None,
        object_serial: None,
    };
    match classify_node(&sink, &sink_names) {
        NodeClassification::VirtualSink { name, id } => {
            assert_eq!(name, "Game");
            assert_eq!(id, 51);
        }
        other => panic!("expected a virtual sink, got {other:?}"),
    }

    let stream = NodeProps {
        id: 60,
        node_name: "spotify".to_string(),
        media_class: "Stream/Output/Audio".to_string(),
        media_name: None,
        application_name: Some("Spotify".to_string()),
        node_description: None,
        object_serial: Some("77".to_string()),
    };
    match classify_node(&stream, &sink_names) {
        NodeClassification::OutputStream { app_name, serial_id } => {
            assert_eq!(app_name, "Spotify");
            assert_eq!(serial_id, 77); // the object serial, not the id
        }
        other => panic!("expected an output stream, got {other:?}"),
    }

    let loopback = NodeProps {
        id: 61,
        node_name: "Game_to_Speaker".to_string(),
        media_class: "Stream/Output/Audio".to_string(),
        media_name: None,
        application_name: Some("Loop".to_string()),
        node_description: None,
        object_serial: None,
    };
    assert!(matches!(classify_node(&loopback, &sink_names), NodeClassification::Ignored));

    let other_sink = NodeProps {
        id: 62,
        node_name: "alsa_output.pci".to_string(),
        media_class: "Audio/Sink".to_string(),
        media_name: None,
        application_name: None,
        node_description: None,
        object_serial: None,
    };
    assert!(matches!(classify_node(&other_sink, &sink_names), NodeClassification::Ignored));
}
