use arrow_exporter::config::{default_fsync, Compression, Config, StorageType};
use arrow_exporter::ipc::IpcCodec;
use arrow_exporter::template::DEFAULT_OBJECT_PATH_TEMPLATE;
use serde_json::Value;

type LocalConfig = Config<String, u32>;

fn config_from_text(text: &str) -> Result<LocalConfig, String> {
    let value: Value = serde_json::from_str(text).expect("parse JSON");
    let base_uri = value["storage"]["file"]["base_uri"]
        .as_str()
        .expect("base URI")
        .to_string();
    assert!(value["retry"].is_null());
    Config::from_settings(
        StorageType::File { base_uri },
        None,
        value.get("fsync").and_then(|fsync| fsync.as_bool()),
        value.get("compression").and_then(|name| name.as_str()),
        value
            .get("object_path_template")
            .and_then(|template| template.as_str()),
    )
}

/// Scenario: Local Arrow exporter configuration omits the fsync setting.
/// Guarantees: Durable local publication is enabled by default.
#[test]
fn local_fsync_defaults_to_true() {
    let config = config_from_text(
        r#"{"storage": {"file": {"base_uri": "/tmp/arrow-files"}}, "retry": null}"#,
    )
    .expect("deserialize config");

    assert!(config.fsync);
    assert_eq!(config.compression, Compression::Zstd);
    assert_eq!(
        config.object_path_template.as_str(),
        DEFAULT_OBJECT_PATH_TEMPLATE
    );
}

/// Scenario: An operator explicitly disables local fsync.
/// Guarantees: Configuration preserves the requested non-durable local mode.
#[test]
fn local_fsync_can_be_disabled() {
    let config = config_from_text(
        r#"{"storage": {"file": {"base_uri": "/tmp/arrow-files"}}, "retry": null, "fsync": false}"#,
    )
    .expect("deserialize config");

    assert!(!config.fsync);
}

/// Scenario: An operator disables Arrow IPC buffer compression.
/// Guarantees: The `none` setting selects uncompressed Arrow IPC output.
#[test]
fn arrow_ipc_compression_can_be_disabled() {
    let config = config_from_text(
        r#"{"storage": {"file": {"base_uri": "/tmp/arrow-files"}}, "retry": null, "compression": "none"}"#,
    )
    .expect("deserialize config");

    assert_eq!(config.compression, Compression::Uncompressed);
}

/// Scenario: An operator configures an unsupported Arrow IPC compression codec.
/// Guarantees: Configuration accepts only `zstd` and `none`.
#[test]
fn rejects_unsupported_arrow_ipc_compression() {
    let result = config_from_text(
        r#"{"storage": {"file": {"base_uri": "/tmp/arrow-files"}}, "retry": null, "compression": "gzip"}"#,
    );

    assert!(result.is_err());
    assert_eq!(
        result.err(),
        Some("unknown variant `gzip`, expected `none` or `zstd`".to_string())
    );
}

/// Scenario: An operator configures all supported object path placeholders.
/// Guarantees: Valid deterministic partition and identity fields are accepted.
#[test]
fn accepts_supported_object_path_placeholders() {
    let config = config_from_text(
        r#"{
            "storage": {"file": {"base_uri": "/tmp/arrow-files"}},
            "retry": null,
            "object_path_template": "[year]-[month]-[day]/hour=[hour]/minute=[minute]/signal=[signal]/payload=[payload]/[pdata_id].arrow"
        }"#,
    )
    .expect("deserialize config");

    assert!(config.object_path_template.as_str().contains("[minute]"));
}

#[test]
fn settings_that_are_made_are_kept() {
    let config: LocalConfig = Config::from_settings(
        StorageType::Cloud("bucket".to_string()),
        Some(5),
        Some(true),
        Some("zstd"),
        Some("[pdata_id].arrow"),
    )
    .expect("create config");

    assert_eq!(config.storage, StorageType::Cloud("bucket".to_string()));
    assert_eq!(config.retry, Some(5));
    assert!(config.fsync);
    assert_eq!(config.compression, Compression::Zstd);
    assert_eq!(config.object_path_template.as_str(), "[pdata_id].arrow");
}

#[test]
fn settings_with_a_bad_template_are_rejected() {
    let result: Result<LocalConfig, String> = Config::from_settings(
        StorageType::Cloud("bucket".to_string()),
        None,
        None,
        None,
        Some("objects"),
    );

    assert_eq!(
        result.err(),
        Some("object path template must end with .arrow".to_string())
    );
}

#[test]
fn compression_names_its_codec() {
    assert_eq!(Compression::default(), Compression::Zstd);
    assert_eq!(Compression::Zstd.ipc_type(), Some(IpcCodec::Zstd));
    assert_eq!(Compression::Uncompressed.ipc_type(), None);
    assert_eq!(Compression::from_setting("zstd"), Some(Compression::Zstd));
    assert_eq!(
        Compression::from_setting("none"),
        Some(Compression::Uncompressed)
    );
    assert_eq!(Compression::from_setting("Zstd"), None);
    assert!(default_fsync());
}
