use pipewire_volume_mixer_daemon::app_name_detector::{
    capitalize_first_letter, extract_binary_name, is_generic_app_name, parse_parent_pid,
    AppNameConfig,
};

#[test]
fn test_extract_binary_name() {
    assert_eq!(extract_binary_name("/usr/bin/firefox"), "firefox");
    assert_eq!(extract_binary_name("/opt/discord/Discord"), "Discord");
    assert_eq!(extract_binary_name("wine64-preloader"), "wine64-preloader");
    assert_eq!(extract_binary_name("/usr/bin/firefox-bin"), "firefox");
    assert_eq!(extract_binary_name("C:\\Program Files\\App.exe"), "App");
}

#[test]
fn test_should_use_fallback() {
    let config = AppNameConfig::default();

    assert!(config.should_use_fallback("steam_app_359320"));
    assert!(config.should_use_fallback("steam_app_1234"));
    assert!(!config.should_use_fallback("Discord"));
    assert!(!config.should_use_fallback("Firefox"));
}

#[test]
fn test_determine_display_name_app_name_priority() {
    let config = AppNameConfig::default();

    assert_eq!(
        config.determine_display_name("Firefox", Some("/usr/bin/firefox"), None),
        "Firefox"
    );
}

#[test]
fn test_determine_display_name_binary_fallback() {
    let config = AppNameConfig::default();

    assert_eq!(
        config.determine_display_name("WEBRTC VoiceEngine", Some("/usr/bin/discord"), None),
        "Discord"
    );
}

#[test]
fn test_determine_display_name_wine() {
    let config = AppNameConfig::default();

    // Wine should be skipped, Elite Dangerous should be used
    assert_eq!(
        config.determine_display_name("Elite Dangerous", Some("/usr/bin/wine64-preloader"), None),
        "Elite Dangerous"
    );
}

#[test]
fn test_determine_display_name_window_title() {
    let config = AppNameConfig::default();

    // A resolved window title wins over everything else
    assert_eq!(
        config.determine_display_name(
            "WEBRTC VoiceEngine",
            Some("/usr/bin/discord"),
            Some("Discord".to_string())
        ),
        "Discord"
    );
}

#[test]
fn test_is_generic_app_name() {
    assert!(is_generic_app_name("WEBRTC VoiceEngine"));
    assert!(is_generic_app_name("WebRTC Audio"));
    assert!(is_generic_app_name("wine64-preloader"));
    assert!(is_generic_app_name("wine-preloader"));
    assert!(!is_generic_app_name("Discord"));
    assert!(!is_generic_app_name("Firefox"));
    assert!(!is_generic_app_name("Elite Dangerous"));
}

#[test]
fn test_capitalize_first_letter() {
    assert_eq!(capitalize_first_letter("firefox"), "Firefox");
    assert_eq!(capitalize_first_letter("discord"), "Discord");
    assert_eq!(capitalize_first_letter(""), "");
    assert_eq!(capitalize_first_letter("A"), "A");
    assert_eq!(capitalize_first_letter("\u{e9}lite"), "\u{c9}lite");
}

#[test]
fn test_accept_window_title() {
    let config = AppNameConfig::default();

    assert!(config.accept_window_title("Firefox"));
    assert!(!config.accept_window_title(""));
    assert!(!config.accept_window_title("Default IME"));
    assert!(!config.accept_window_title("Wine System Tray"));
    assert!(!config.accept_window_title("XdndCollectionWindowImp"));
}

#[test]
fn test_parse_parent_pid() {
    assert_eq!(parse_parent_pid(b" 5678\n"), Some(5678));
    assert_eq!(parse_parent_pid(b"5678"), Some(5678));
    assert_eq!(parse_parent_pid(b"1\n"), None); // init is filtered out
    assert_eq!(parse_parent_pid(b"garbage"), None);
    assert_eq!(parse_parent_pid(b""), None);
}
