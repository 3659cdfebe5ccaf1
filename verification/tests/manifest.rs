use parsley::docker::image::{Descriptor, ImageManifest, ManifestItem};
use parsley::error::ParsleyError;

fn strings(items: Vec<&str>) -> Vec<String> {
    items.into_iter().map(|s| s.to_string()).collect()
}

#[test]
fn manifest_decodes_every_entry() {
    let payload = "[{\"Config\":\"ee56d70b.json\",\
                    \"RepoTags\":[\"postgres:15.4\"],\
                    \"Layers\":[\"3b05/layer.tar\",\"454d/layer.tar\"]}]";
    let manifest = ImageManifest::from_str(payload).expect("Could not deserialize");
    assert_eq!(
        manifest,
        ImageManifest(vec![ManifestItem {
            config: "ee56d70b.json".to_string(),
            repo_tags: strings(vec!["postgres:15.4"]),
            layers: strings(vec!["3b05/layer.tar", "454d/layer.tar"]),
            parent: None,
            layer_sources: None,
        }]),
        "Deserialized manifest does not match expected one"
    );
}

#[test]
fn manifest_reads_optional_fields() {
    let payload = "[{\"Config\":\"c.json\",\"RepoTags\":[],\"Layers\":[],\
                    \"Parent\":\"p\",\
                    \"LayerSources\":{\"sha256:aa\":{\"mediaType\":\"tar\",\
                    \"digest\":\"sha256:aa\",\"size\":7}}}]";
    let manifest = ImageManifest::from_slice(payload.as_bytes()).expect("Could not deserialize");
    let item = &manifest.0[0];
    assert_eq!(item.parent, Some("p".to_string()));
    assert_eq!(
        item.layer_sources,
        Some(vec![(
            "sha256:aa".to_string(),
            Descriptor {
                media_type: "tar".to_string(),
                digest: "sha256:aa".to_string(),
                size: 7,
            },
        )])
    );
}

#[test]
fn manifest_missing_required_field_fails() {
    let payload = "[{\"RepoTags\":[],\"Layers\":[]}]";
    let err = ImageManifest::from_str(payload).expect_err("missing Config must fail");
    assert!(matches!(err, ParsleyError::BaseSchemaInvalid(_)));
}

#[test]
fn manifest_must_be_an_array() {
    let err = ImageManifest::from_str("{}").expect_err("an object is not a manifest");
    assert!(matches!(err, ParsleyError::BaseSchemaInvalid(_)));
}

#[test]
fn manifest_malformed_text_fails() {
    let err = ImageManifest::from_str("[").expect_err("parse must fail");
    assert!(matches!(err, ParsleyError::MalformedPayload(_)));
}
