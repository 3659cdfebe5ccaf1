use parsley::docker::image::{
    deserialize_duration, serialize_duration, ConfigExtension, DurationNanos, HealthcheckConfig,
    ImageConfiguration, ImageConfigurationExtension, OciConfig, OciHistory, OciImageConfiguration,
    RootFs,
};
use parsley::error::ParsleyError;
use parsley::util::json::Json;

fn obj(entries: Vec<(&str, Json)>) -> Json {
    Json::Obj(entries.into_iter().map(|(k, v)| (k.to_string(), v)).collect())
}

fn text(s: &str) -> Json {
    Json::Text(s.to_string())
}

fn strings(items: Vec<&str>) -> Vec<String> {
    items.into_iter().map(|s| s.to_string()).collect()
}

fn config() -> ImageConfiguration {
    ImageConfiguration {
        oci_spec: OciImageConfiguration {
            created: Some("2023-08-16T06:40:57.929475525Z".to_string()),
            author: Some("author".to_string()),
            architecture: "arm64".to_string(),
            os: "linux".to_string(),
            os_version: Some("6.1".to_string()),
            os_features: Some(strings(vec!["win32k"])),
            variant: Some("v8".to_string()),
            config: Some(OciConfig {
                user: Some("1001".to_string()),
                exposed_ports: Some(strings(vec!["5432/tcp"])),
                env: Some(strings(vec![
                    "PATH=/usr/local/sbin:/usr/local/bin:/usr/sbin:/usr/bin:/sbin:/bin",
                    "PG_MAJOR=15",
                ])),
                entrypoint: Some(strings(vec!["docker-entrypoint.sh"])),
                cmd: Some(strings(vec!["postgres"])),
                volumes: Some(strings(vec!["/var/lib/postgresql/data"])),
                working_dir: Some("/postgres".to_string()),
                labels: Some(vec![("maintainer".to_string(), "someone".to_string())]),
                stop_signal: Some("SIGINT".to_string()),
            }),
            rootfs: Some(RootFs {
                typ: "layers".to_string(),
                diff_ids: strings(vec![
                    "sha256:1c3daa06574284614db07a23682ab6d1c344f09f8093ee10e5de4152a51677a1",
                    "sha256:310729fcb068da6941441d9627a3d8979e7dbd015c220324331e34af28b7e20c",
                ]),
            }),
            history: Some(vec![
                OciHistory {
                    created: Some("2023-08-15T23:39:57.178505081Z".to_string()),
                    author: None,
                    created_by: Some("/bin/sh -c #(nop) ADD file:bc58 in / ".to_string()),
                    comment: None,
                    empty_layer: None,
                },
                OciHistory {
                    created: Some("2023-08-15T23:39:57.574431303Z".to_string()),
                    author: None,
                    created_by: Some("/bin/sh -c #(nop)  CMD [\"bash\"]".to_string()),
                    comment: None,
                    empty_layer: Some(true),
                },
            ]),
        },
        docker_oci_extension: Some(ImageConfigurationExtension {
            config: Some(ConfigExtension {
                memory: Some(2048),
                memory_swap: Some(4096),
                cpu_shares: Some(8),
                args_escaped: false,
                health_check: Some(HealthcheckConfig {
                    test: Some(strings(vec![
                        "CMD-SHELL",
                        "/usr/bin/check-health localhost",
                    ])),
                    interval: Some(DurationNanos::from_nanos(30000000000)),
                    timeout: Some(DurationNanos::from_nanos(10000000000)),
                    start_interval: Some(DurationNanos::from_nanos(3000000000)),
                    retries: Some(3),
                }),
                on_build: Some(strings(vec!["a", "b"])),
                shell: Some(strings(vec!["/bin/bash", "-o", "pipefail", "-c"])),
            }),
        }),
    }
}

#[test]
fn test() {
    if {
        let x = true;
        x
    } {}
}

#[test]
fn roundtrip_through_text() {
    let cfg = config();
    let encoded = cfg.to_json().expect("Failed to serialize");
    let decoded = ImageConfiguration::from_str(&encoded)
        .expect("Could not deserialize from serialization");
    assert_eq!(cfg, decoded, "Deserialized config from serialized config is different");
}

#[test]
fn decode_layered_payload() {
    let payload = "{\"architecture\":\"arm64\",\"os\":\"linux\",\
                   \"config\":{\"User\":\"1001\",\"Memory\":2048,\"MemorySwap\":4096,\
                   \"ArgsEscaped\":false,\
                   \"Healthcheck\":{\"Test\":[\"CMD-SHELL\",\"x\"],\"Interval\":30000000000}}}";
    let decoded = ImageConfiguration::from_str(payload).expect("Could not deserialize");
    assert_eq!(decoded.oci_spec.architecture, "arm64");
    assert_eq!(decoded.oci_spec.os, "linux");
    let base_config = decoded.oci_spec.config.as_ref().expect("base config");
    assert_eq!(base_config.user, Some("1001".to_string()));
    let ext = decoded.docker_oci_extension.as_ref().expect("extension");
    let ext_config = ext.config.as_ref().expect("extension config");
    assert_eq!(ext_config.memory, Some(2048));
    assert_eq!(ext_config.memory_swap, Some(4096));
    assert!(!ext_config.args_escaped);
    let hc = ext_config.health_check.as_ref().expect("health check");
    assert_eq!(hc.test, Some(strings(vec!["CMD-SHELL", "x"])));
    assert_eq!(hc.interval, Some(DurationNanos::from_nanos(30000000000)));
    assert_eq!(hc.timeout, None);
}

#[test]
fn extension_absence_fidelity() {
    let payload = "{\"architecture\":\"arm64\",\"os\":\"linux\",\"config\":{\"User\":\"1001\"}}";
    let decoded = ImageConfiguration::from_str(payload).expect("Could not deserialize");
    assert!(decoded.docker_oci_extension.is_none());
    let encoded = decoded.to_json().expect("Failed to serialize");
    assert!(!encoded.contains("ArgsEscaped"));
    let redecoded = ImageConfiguration::from_str(&encoded)
        .expect("Could not deserialize from serialization");
    assert_eq!(decoded, redecoded);
}

#[test]
fn duration_thirty_seconds_roundtrip() {
    let thirty = DurationNanos::from_secs(30);
    assert_eq!(thirty.as_nanos(), 30000000000);
    let encoded = serialize_duration(&Some(thirty)).expect("duration encodes");
    assert_eq!(encoded, Json::UInt(30000000000));
    let decoded = deserialize_duration(&encoded).expect("duration decodes");
    assert_eq!(decoded, thirty);
}

#[test]
fn duration_missing_key_is_absent_not_zero() {
    let hc = HealthcheckConfig::from_tree(&obj(vec![(
        "Test",
        Json::Arr(vec![text("CMD-SHELL")]),
    )]))
    .expect("health check decodes");
    assert_eq!(hc.interval, None);
    assert_eq!(hc.retries, None);
}

#[test]
fn absent_duration_is_unencodable() {
    let err = serialize_duration(&None).expect_err("absent duration cannot encode");
    assert!(matches!(err, ParsleyError::UnencodableField(_)));
}

#[test]
fn base_schema_failure_still_leaves_extension_readable() {
    let payload = "{\"config\":{\"Memory\":2048,\
                   \"Healthcheck\":{\"Test\":[\"CMD-SHELL\",\"x\"],\"Interval\":30000000000}}}";
    let err = ImageConfiguration::from_str(payload).expect_err("base schema must fail");
    assert!(matches!(err, ParsleyError::BaseSchemaInvalid(_)));
    let tree = obj(vec![(
        "config",
        obj(vec![
            ("Memory", Json::UInt(2048)),
            (
                "Healthcheck",
                obj(vec![
                    ("Test", Json::Arr(vec![text("CMD-SHELL"), text("x")])),
                    ("Interval", Json::UInt(30000000000)),
                ]),
            ),
        ]),
    )]);
    let ext = ImageConfigurationExtension::from_tree(&tree)
        .expect("extension layer parses")
        .expect("extension layer is present");
    let ext_config = ext.config.expect("extension config");
    assert_eq!(ext_config.memory, Some(2048));
    let hc = ext_config.health_check.expect("health check");
    assert_eq!(hc.interval, Some(DurationNanos::from_nanos(30000000000)));
}

#[test]
fn unknown_fields_with_any_numbers_are_ignored() {
    let payload = "{\"architecture\":\"arm64\",\"os\":\"linux\",\"x\":-1,\"y\":1.5,\"z\":1e400}";
    let decoded = ImageConfiguration::from_str(payload).expect("unknown numeric fields decode");
    assert_eq!(decoded.oci_spec.architecture, "arm64");
    assert!(decoded.docker_oci_extension.is_none());
    let encoded = decoded.to_json().expect("encodes");
    let redecoded = ImageConfiguration::from_str(&encoded).expect("re-decodes");
    assert_eq!(decoded, redecoded);
}

#[test]
fn fractional_extension_field_is_an_extension_error() {
    let payload = "{\"architecture\":\"arm64\",\"os\":\"linux\",\"config\":{\"Memory\":1.5}}";
    let err = ImageConfiguration::from_str(payload).expect_err("fractional Memory must fail");
    assert!(matches!(err, ParsleyError::ExtensionSchemaInvalid(_)));
}

#[test]
fn negative_base_field_is_a_base_error() {
    let payload = "{\"architecture\":-1,\"os\":\"linux\"}";
    let err = ImageConfiguration::from_str(payload).expect_err("numeric architecture must fail");
    assert!(matches!(err, ParsleyError::BaseSchemaInvalid(_)));
}

#[test]
fn malformed_payload_is_reported() {
    let err = ImageConfiguration::from_str("{not json").expect_err("parse must fail");
    assert!(matches!(err, ParsleyError::MalformedPayload(_)));
}

#[test]
fn missing_required_base_field_is_reported() {
    let err = ImageConfiguration::from_str("{\"architecture\":\"arm64\"}")
        .expect_err("missing os must fail");
    assert!(matches!(err, ParsleyError::BaseSchemaInvalid(_)));
}

#[test]
fn illtyped_extension_field_is_reported() {
    let payload = "{\"architecture\":\"arm64\",\"os\":\"linux\",\
                   \"config\":{\"Memory\":\"lots\"}}";
    let err = ImageConfiguration::from_str(payload).expect_err("ill-typed extension must fail");
    assert!(matches!(err, ParsleyError::ExtensionSchemaInvalid(_)));
}

#[test]
fn decode_from_bytes_matches_decode_from_text() {
    let payload = "{\"architecture\":\"arm64\",\"os\":\"linux\"}";
    let from_text = ImageConfiguration::from_str(payload).expect("text decodes");
    let from_bytes = ImageConfiguration::from_slice(payload.as_bytes()).expect("bytes decode");
    assert_eq!(from_text, from_bytes);
}

#[test]
fn empty_collections_stay_distinct_from_absent_ones() {
    let cfg = ImageConfiguration {
        oci_spec: OciImageConfiguration {
            created: None,
            author: None,
            architecture: "amd64".to_string(),
            os: "linux".to_string(),
            os_version: None,
            os_features: None,
            variant: None,
            config: Some(OciConfig {
                user: None,
                exposed_ports: None,
                env: None,
                entrypoint: None,
                cmd: None,
                volumes: None,
                working_dir: None,
                labels: None,
                stop_signal: None,
            }),
            rootfs: None,
            history: None,
        },
        docker_oci_extension: Some(ImageConfigurationExtension {
            config: Some(ConfigExtension {
                memory: None,
                memory_swap: None,
                cpu_shares: None,
                args_escaped: true,
                health_check: None,
                on_build: Some(vec![]),
                shell: None,
            }),
        }),
    };
    let encoded = cfg.to_json().expect("encodes");
    let decoded = ImageConfiguration::from_str(&encoded).expect("decodes");
    let ext_config = decoded
        .docker_oci_extension
        .expect("extension present")
        .config
        .expect("extension config");
    assert_eq!(ext_config.on_build, Some(vec![]));
    assert_eq!(ext_config.shell, None);
    assert!(ext_config.args_escaped);
}
