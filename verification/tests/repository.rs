use parsley::docker::distribution::{Repositories, Repository};
use parsley::error::ParsleyError;

#[test]
fn repository_deserialize() {
    let payload = "{\"postgres\":{\"15.4\":\"3b0531\",\"latest\":\"3b0531\"},\
                   \"redis\":{\"7\":\"9a00c1\"}}";
    let repositories =
        Repositories::from_str(payload).expect("Could not deserialize from text");
    assert_eq!(
        repositories,
        Repositories(vec![
            (
                "postgres".to_string(),
                Repository(vec![
                    ("15.4".to_string(), "3b0531".to_string()),
                    ("latest".to_string(), "3b0531".to_string()),
                ]),
            ),
            (
                "redis".to_string(),
                Repository(vec![("7".to_string(), "9a00c1".to_string())]),
            ),
        ])
    );
}

#[test]
fn repository_from_bytes_matches_from_text() {
    let payload = "{\"postgres\":{\"15.4\":\"3b0531\"}}";
    let from_text = Repositories::from_str(payload).expect("text decodes");
    let from_bytes = Repositories::from_slice(payload.as_bytes()).expect("bytes decode");
    assert_eq!(from_text, from_bytes);
}

#[test]
fn repository_with_non_string_digest_fails() {
    let err = Repositories::from_str("{\"postgres\":{\"15.4\":7}}")
        .expect_err("a numeric digest must fail");
    assert!(matches!(err, ParsleyError::BaseSchemaInvalid(_)));
}

#[test]
fn repository_malformed_text_fails() {
    let err = Repositories::from_str("not json").expect_err("parse must fail");
    assert!(matches!(err, ParsleyError::MalformedPayload(_)));
}
