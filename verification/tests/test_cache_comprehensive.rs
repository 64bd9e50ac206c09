use pipewire_volume_mixer_daemon::cache::{AppInfo, AudioCache, SinkInfo};
use std::time::Instant;

// Performance constants - adjust if tests fail on slower systems
const MAX_CACHE_UPDATE_TIME_MS: u128 = 1; // Cache updates should be sub-millisecond
const MAX_SNAPSHOT_TIME_MS: u128 = 5; // Snapshots should be very fast
const STRESS_TEST_ITERATIONS: usize = 10000;

#[test]
fn test_cache_performance_single_update() {
    let mut cache = AudioCache::new();

    let sink = SinkInfo { id: 1, name: "Test".to_string(), volume: 0.5f32.to_bits(), muted: false };

    let start = Instant::now();
    cache.update_sink("Test".to_string(), sink);
    let duration = start.elapsed();

    assert!(
        duration.as_millis() <= MAX_CACHE_UPDATE_TIME_MS,
        "Cache update took {}ms, expected <{}ms",
        duration.as_millis(),
        MAX_CACHE_UPDATE_TIME_MS
    );
}

#[test]
fn test_cache_performance_bulk_updates() {
    let mut cache = AudioCache::new();

    let start = Instant::now();
    for i in 0..STRESS_TEST_ITERATIONS {
        let sink = SinkInfo {
            id: i as u32,
            name: format!("Sink_{i}"),
            volume: 0.5f32.to_bits(),
            muted: false,
        };
        cache.update_sink(format!("Sink_{i}"), sink);
    }
    let duration = start.elapsed();

    let avg_time_us = duration.as_micros() / STRESS_TEST_ITERATIONS as u128;
    assert!(avg_time_us < 100, "Average update time {avg_time_us}\u{3bc}s is too high (should be <100\u{3bc}s)");
}

#[test]
fn test_snapshot_performance() {
    let mut cache = AudioCache::new();

    // Populate cache with realistic data
    for i in 0..50 {
        cache.update_sink(
            format!("Sink_{i}"),
            SinkInfo { id: i, name: format!("Sink_{i}"), volume: 0.5f32.to_bits(), muted: false },
        );
    }

    for i in 0..20 {
        cache.update_app(
            format!("App_{i}"),
            AppInfo {
                display_name: format!("App_{i}"),
                binary_name: format!("app_{i}"),
                current_sink: "Game".to_string(),
                active: true,
                sink_input_ids: vec![i * 2, i * 2 + 1],
                inactive_since: None,
            },
        );
    }

    let start = Instant::now();
    let _snapshot = cache.get_snapshot();
    let duration = start.elapsed();

    assert!(
        duration.as_millis() <= MAX_SNAPSHOT_TIME_MS,
        "Snapshot took {}ms, expected <{}ms",
        duration.as_millis(),
        MAX_SNAPSHOT_TIME_MS
    );
}

#[test]
fn test_memory_cleanup() {
    let mut cache = AudioCache::new();

    // Add inactive apps, all of which went inactive at instant zero
    for i in 0..100 {
        cache.update_app(
            format!("InactiveApp_{i}"),
            AppInfo {
                display_name: format!("InactiveApp_{i}"),
                binary_name: format!("inactive_{i}"),
                current_sink: "Game".to_string(),
                active: false,
                sink_input_ids: vec![],
                inactive_since: Some(0), // 400s old at the sweep below
            },
        );
    }

    // Add active apps that should be kept
    for i in 0..10 {
        cache.update_app(
            format!("ActiveApp_{i}"),
            AppInfo {
                display_name: format!("ActiveApp_{i}"),
                binary_name: format!("active_{i}"),
                current_sink: "Media".to_string(),
                active: true,
                sink_input_ids: vec![i],
                inactive_since: None,
            },
        );
    }

    let initial_count = cache.apps.len();
    let removed = cache.cleanup_inactive_apps(300, 400_000); // 5 minute TTL, 400s later
    let final_count = cache.apps.len();

    assert_eq!(removed, 100, "Should have removed all 100 inactive apps");
    assert_eq!(final_count, 10, "Should only have 10 active apps remaining");
    assert_eq!(initial_count - removed, final_count);
}

#[test]
fn test_routing_rules_persistence() {
    let mut cache = AudioCache::new();

    // Add routing rules
    cache.routing_rules.insert("Firefox".to_string(), "Media".to_string());
    cache.routing_rules.insert("Discord".to_string(), "Chat".to_string());
    cache.routing_rules.insert("Elite Dangerous".to_string(), "Game".to_string());

    // Add corresponding apps
    cache.update_app(
        "Firefox".to_string(),
        AppInfo {
            display_name: "Firefox".to_string(),
            binary_name: "firefox".to_string(),
            current_sink: "Media".to_string(),
            active: true,
            sink_input_ids: vec![1],
            inactive_since: None,
        },
    );

    // Verify routing rules are accessible
    assert_eq!(cache.routing_rules.get("Firefox").map(|r| r.clone()), Some("Media".to_string()));
    assert_eq!(cache.routing_rules.get("Discord").map(|r| r.clone()), Some("Chat".to_string()));
    assert_eq!(
        cache.routing_rules.get("Elite Dangerous").map(|r| r.clone()),
        Some("Game".to_string())
    );
}

#[test]
fn test_cache_with_special_characters() {
    let mut cache = AudioCache::new();

    // Test with various special characters that might appear in app names
    let test_names = vec![
        "App with spaces",
        "App-with-dashes",
        "App_with_underscores",
        "App.with.dots",
        "App(with)parens",
        "App[with]brackets",
        "App'with'quotes",
        "\u{65e5}\u{672c}\u{8a9e}\u{30a2}\u{30d7}\u{30ea}", // Japanese
        "\u{41f}\u{440}\u{438}\u{43b}\u{43e}\u{436}\u{435}\u{43d}\u{438}\u{435}", // Russian
        "\u{1f3ae} Game App", // Emoji
    ];

    for name in test_names {
        cache.update_app(
            name.to_string(),
            AppInfo {
                display_name: name.to_string(),
                binary_name: "test".to_string(),
                current_sink: "Game".to_string(),
                active: true,
                sink_input_ids: vec![1],
                inactive_since: None,
            },
        );

        assert!(cache.apps.contains_key(name), "Failed to store app with name: {name}");
    }
}

#[test]
fn test_wine_app_detection() {
    let mut cache = AudioCache::new();

    // Test that Wine apps are properly handled
    let wine_apps = vec![
        ("Elite Dangerous", "wine64-preloader", "Elite Dangerous"), // Should use app name
        ("", "wine64-preloader", "Wine64-preloader"),               // Should capitalize binary
        ("wine", "notepad.exe", "Notepad"), // Should use cleaned binary name
        ("WINE", "game.exe", "Game"),       // Should use cleaned binary name
    ];

    for (_app_name, binary_name, expected_display) in wine_apps {
        cache.update_app(
            expected_display.to_string(),
            AppInfo {
                display_name: expected_display.to_string(),
                binary_name: binary_name.to_string(),
                current_sink: "Game".to_string(),
                active: true,
                sink_input_ids: vec![1],
                inactive_since: None,
            },
        );

        let app = cache.apps.get(expected_display).unwrap();
        assert_eq!(app.display_name, expected_display);
    }
}

#[test]
fn test_cache_memory_usage() {
    let mut cache = AudioCache::new();

    // Add a large number of entries to test memory usage
    for i in 0..1000 {
        cache.update_sink(
            format!("Sink_{i}"),
            SinkInfo {
                id: i as u32,
                name: format!("Very_Long_Sink_Name_To_Test_Memory_Usage_{i}"),
                volume: 0.5f32.to_bits(),
                muted: false,
            },
        );

        cache.update_app(
            format!("App_{i}"),
            AppInfo {
                display_name: format!("Very_Long_App_Display_Name_To_Test_Memory_{i}"),
                binary_name: format!("very_long_binary_name_to_test_memory_{i}"),
                current_sink: format!("Sink_{}", i % 10),
                active: i % 2 == 0,
                sink_input_ids: vec![i as u32 * 2, i as u32 * 2 + 1],
                inactive_since: if i % 2 == 1 { Some(1) } else { None },
            },
        );
    }

    // Get snapshot and ensure it doesn't take too long even with many entries
    let start = Instant::now();
    let snapshot = cache.get_snapshot();
    let duration = start.elapsed();

    assert_eq!(snapshot.sinks.len(), 1000);
    assert_eq!(snapshot.apps.len(), 1000);
    assert!(
        duration.as_millis() < 50,
        "Snapshot of 1000 entries took {}ms, should be <50ms",
        duration.as_millis()
    );
}
