use pipewire_volume_mixer_daemon::app_name_detector::AppNameConfig;
use pipewire_volume_mixer_daemon::config::{AppMappings, Config};
use pipewire_volume_mixer_daemon::introspect::{
    find_actual_sink_id, find_binary_for_input, find_loopback_input_id, find_sink_id_short,
    find_sink_name_long, match_sink_inputs, parse_wpctl_volume,
};
use pipewire_volume_mixer_daemon::ipc::{frame_response, parse_command, Command};

#[test]
fn test_command_parsing() {
    match parse_command(b"ROUTE Firefox Media") {
        Ok(Command::Route { app_name, sink_name }) => {
            assert_eq!(app_name, b"Firefox".to_vec());
            assert_eq!(sink_name, b"Media".to_vec());
        }
        other => panic!("expected a route command, got {other:?}"),
    }
    match parse_command(b"SET_VOLUME Game 0.5") {
        Ok(Command::SetVolume { sink_name, volume_permille, volume_token }) => {
            assert_eq!(sink_name, b"Game".to_vec());
            assert_eq!(volume_permille, 500);
            assert_eq!(volume_token, b"0.5".to_vec());
        }
        other => panic!("expected a volume command, got {other:?}"),
    }
    match parse_command(b"SET_VOLUME Game 1.0") {
        Ok(Command::SetVolume { volume_permille, .. }) => assert_eq!(volume_permille, 1000),
        other => panic!("expected a volume command, got {other:?}"),
    }
    match parse_command(b"MUTE Chat true") {
        Ok(Command::Mute { sink_name, muted }) => {
            assert_eq!(sink_name, b"Chat".to_vec());
            assert!(muted);
        }
        other => panic!("expected a mute command, got {other:?}"),
    }
    match parse_command(b"MUTE Chat false") {
        Ok(Command::Mute { muted, .. }) => assert!(!muted),
        other => panic!("expected a mute command, got {other:?}"),
    }
    assert!(matches!(parse_command(b"RELOAD_CONFIG"), Ok(Command::ReloadConfig)));
}

#[test]
fn test_command_parsing_errors() {
    assert_eq!(parse_command(b"").unwrap_err(), b"Empty command".to_vec());
    assert_eq!(
        parse_command(b"ROUTE Firefox").unwrap_err(),
        b"Usage: ROUTE <app_name> <sink_name>".to_vec()
    );
    assert_eq!(
        parse_command(b"SET_VOLUME Game").unwrap_err(),
        b"Usage: SET_VOLUME <sink_name> <volume>".to_vec()
    );
    assert_eq!(
        parse_command(b"SET_VOLUME Game invalid").unwrap_err(),
        b"Invalid volume value".to_vec()
    );
    assert_eq!(
        parse_command(b"SET_VOLUME Game 2.0").unwrap_err(),
        b"Volume must be between 0.0 and 1.0".to_vec()
    );
    assert_eq!(
        parse_command(b"SET_VOLUME Game -0.5").unwrap_err(),
        b"Volume must be between 0.0 and 1.0".to_vec()
    );
    assert_eq!(
        parse_command(b"MUTE Chat maybe").unwrap_err(),
        b"Invalid mute value".to_vec()
    );
    assert_eq!(
        parse_command(b"MUTE Chat").unwrap_err(),
        b"Usage: MUTE <sink_name> <true|false>".to_vec()
    );
    assert_eq!(
        parse_command(b"UNKNOWN").unwrap_err(),
        b"Unknown command: UNKNOWN".to_vec()
    );
}

#[test]
fn test_response_framing() {
    assert_eq!(frame_response(Ok(b"done".to_vec())), b"OK done\n".to_vec());
    assert_eq!(frame_response(Err(b"nope".to_vec())), b"ERROR nope\n".to_vec());
}

const SINK_INPUTS: &str = "Sink Input #42\n\
\tDriver: protocol-native.c\n\
\tSink: 53\n\
\tProperties:\n\
\t\tapplication.name = \"Firefox\"\n\
\t\tapplication.process.binary = \"/usr/bin/firefox-bin\"\n\
Sink Input #43\n\
\tSink: 51\n\
\tProperties:\n\
\t\tapplication.name = \"WEBRTC VoiceEngine\"\n\
\t\tapplication.process.binary = \"/opt/discord/Discord\"\n\
Sink Input #44\n\
\tSink: 51\n\
\tProperties:\n\
\t\tnode.name = \"Game_to_Speaker\"\n";

#[test]
fn test_match_sink_inputs() {
    // Direct binary-name and application-name matches, ASCII case folded
    assert_eq!(match_sink_inputs(SINK_INPUTS.as_bytes(), b"firefox"), vec![42]);
    assert_eq!(match_sink_inputs(SINK_INPUTS.as_bytes(), b"Firefox"), vec![42]);
    // The generic WEBRTC stream is attributed through its binary
    assert_eq!(match_sink_inputs(SINK_INPUTS.as_bytes(), b"discord"), vec![43]);
    assert_eq!(match_sink_inputs(SINK_INPUTS.as_bytes(), b"teamspeak"), Vec::<u32>::new());
}

#[test]
fn test_find_actual_sink() {
    assert_eq!(find_actual_sink_id(SINK_INPUTS.as_bytes(), 42), Some(53));
    assert_eq!(find_actual_sink_id(SINK_INPUTS.as_bytes(), 43), Some(51));
    assert_eq!(find_actual_sink_id(SINK_INPUTS.as_bytes(), 99), None);
}

#[test]
fn test_find_binary_for_input() {
    assert_eq!(find_binary_for_input(SINK_INPUTS.as_bytes(), 42), Some(b"firefox".to_vec()));
    assert_eq!(find_binary_for_input(SINK_INPUTS.as_bytes(), 43), Some(b"Discord".to_vec()));
    assert_eq!(find_binary_for_input(SINK_INPUTS.as_bytes(), 99), None);
}

#[test]
fn test_find_loopback_input() {
    assert_eq!(find_loopback_input_id(SINK_INPUTS.as_bytes(), b"Game"), Some(44));
    assert_eq!(find_loopback_input_id(SINK_INPUTS.as_bytes(), b"Chat"), None);
}

#[test]
fn test_find_sink_id_short() {
    let short = b"51\tGame\tPipeWire\ts16le 2ch\tRUNNING\n52\tChat\tPipeWire\ts16le 2ch\tIDLE\n";
    assert_eq!(find_sink_id_short(short, b"Game"), Some(51));
    assert_eq!(find_sink_id_short(short, b"Chat"), Some(52));
    assert_eq!(find_sink_id_short(short, b"Media"), None);
}

#[test]
fn test_find_sink_name_long() {
    let long = b"Sink #51\n\tState: RUNNING\n\tName: Game\nSink #52\n\tName: Chat\n";
    assert_eq!(find_sink_name_long(long, 51), Some(b"Game".to_vec()));
    assert_eq!(find_sink_name_long(long, 52), Some(b"Chat".to_vec()));
    assert_eq!(find_sink_name_long(long, 53), None);
}

#[test]
fn test_parse_wpctl_volume() {
    let (token, muted) = parse_wpctl_volume(b"Volume: 0.75").unwrap();
    assert_eq!(token, b"0.75".to_vec());
    assert!(!muted);
    let (token, muted) = parse_wpctl_volume(b"Volume: 0.40 [MUTED]").unwrap();
    assert_eq!(token, b"0.40".to_vec());
    assert!(muted);
    assert!(parse_wpctl_volume(b"no volume here").is_none());
}

#[test]
fn test_config_defaults() {
    let config = Config::default();
    assert_eq!(config.cache.update_interval_ms, 100);
    assert_eq!(config.cache.max_remembered_apps, 50);
    assert!(config.routing.enable_auto_routing);
    assert_eq!(config.routing.default_sink, "Game");
    assert_eq!(config.virtual_sinks.len(), 3);
    assert_eq!(config.virtual_sinks[0].name, "Game");
    assert_eq!(config.virtual_sinks[1].name, "Chat");
    assert_eq!(config.virtual_sinks[2].name, "Media");
    let detector = AppNameConfig::default();
    assert_eq!(detector.max_parent_depth, 3);
}

#[test]
fn test_app_mappings() {
    let mut mappings = AppMappings::new();
    mappings.update_and_save("Firefox".to_string(), "Media".to_string());
    mappings.update_and_save("Discord".to_string(), "Chat".to_string());
    mappings.update_and_save("Firefox".to_string(), "Game".to_string());
    assert_eq!(mappings.get("Firefox"), Some(&"Game".to_string()));
    assert_eq!(mappings.get("Discord"), Some(&"Chat".to_string()));
    assert_eq!(mappings.get("Spotify"), None);
    assert_eq!(mappings.version, 3);
    assert_eq!(mappings.mappings.len(), 2);

    mappings.update_and_save("Spotify".to_string(), "Media".to_string());
    mappings.cleanup(2);
    assert_eq!(mappings.mappings.len(), 2);
    // The oldest mapping went first
    assert_eq!(mappings.get("Discord"), None);
    assert_eq!(mappings.get("Spotify"), Some(&"Media".to_string()));

    assert_eq!(
        AppMappings::config_file("/home/u/.config/pipewire-volume-mixer"),
        "/home/u/.config/pipewire-volume-mixer/app-mappings.toml"
    );
}
