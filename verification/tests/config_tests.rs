use gaia::config::{parse_conf, parse_decimal_micro, Config};

#[test]
fn test_parse_conf() {
    let text = r#"
# comment
LATITUDE=42.36
LONGITUDE="-72.52"
CONFIDENCE=0.75
RECS_DIR=/data
RTSP_STREAMS="rtsp://cam1,rtsp://cam2"
CAPTURE_LISTEN_ADDR=0.0.0.0:9090
"#;
    let map = parse_conf(text);
    assert_eq!(map.get("LATITUDE").unwrap().as_str(), "42.36");
    assert_eq!(map.get("LONGITUDE").unwrap().as_str(), "-72.52");
    assert_eq!(map.get("CAPTURE_LISTEN_ADDR").unwrap().as_str(), "0.0.0.0:9090");
}

#[test]
fn test_config_stream_data_dir() {
    let text = "RECS_DIR=/tmp/test\n";
    let map = parse_conf(text);
    let config = Config::from_pairs(&map);
    assert_eq!(config.stream_data_dir(), "/tmp/test/StreamData");
}

#[test]
fn test_config_defaults() {
    let map = parse_conf("");
    let config = Config::from_pairs(&map);
    assert_eq!(config.latitude_micro, -1_000_000);
    assert_eq!(config.longitude_micro, -1_000_000);
    assert_eq!(config.confidence_micro, 700_000);
    assert_eq!(config.sensitivity_micro, 1_250_000);
    assert_eq!(config.recording_length, 15);
    assert_eq!(config.recs_dir, "/data");
    assert_eq!(config.extracted_dir, "/data/Extracted");
    assert_eq!(config.capture_server_url, "http://capture:8089");
    assert_eq!(config.poll_interval_secs, 5);
    assert_eq!(config.database_lang, "en");
    assert_eq!(config.db_path, "/data/birds.db");
    assert!(!config.raw_spectrogram);
    assert!(config.rtsp_streams.is_empty());
}

#[test]
fn test_config_parsed_values() {
    let text = "LATITUDE=42.36\nCONFIDENCE=0.7\nOVERLAP=1.5\nRAW_SPECTROGRAM=TRUE\nRTSP_STREAMS=\"rtsp://cam1, rtsp://cam2 ,\"\nSENSITIVITY=1.25\nPRIVACY_THRESHOLD=10\n";
    let map = parse_conf(text);
    let config = Config::from_pairs(&map);
    assert_eq!(config.latitude_micro, 42_360_000);
    assert_eq!(config.confidence_micro, 700_000);
    assert_eq!(config.overlap_micro, 1_500_000);
    assert!(config.raw_spectrogram);
    assert_eq!(config.rtsp_streams.len(), 2);
    assert_eq!(config.rtsp_streams[0], "rtsp://cam1");
    assert_eq!(config.rtsp_streams[1], "rtsp://cam2");
    assert_eq!(config.sensitivity_micro, 1_250_000);
    assert_eq!(config.sensitivity_milli(), 1250);
    assert_eq!(config.privacy_threshold_micro, 10_000_000);
}

#[test]
fn test_parse_decimal_micro_forms() {
    assert_eq!(parse_decimal_micro("0"), Some(0));
    assert_eq!(parse_decimal_micro("1"), Some(1_000_000));
    assert_eq!(parse_decimal_micro("-1.0"), Some(-1_000_000));
    assert_eq!(parse_decimal_micro("0.03"), Some(30_000));
    assert_eq!(parse_decimal_micro("42.360001"), Some(42_360_001));
    assert_eq!(parse_decimal_micro(""), None);
    assert_eq!(parse_decimal_micro("-"), None);
    assert_eq!(parse_decimal_micro("1.2345678"), None);
    assert_eq!(parse_decimal_micro("abc"), None);
}
