use parsley::util::json::{merge, Json};

fn obj(entries: Vec<(&str, Json)>) -> Json {
    Json::Obj(entries.into_iter().map(|(k, v)| (k.to_string(), v)).collect())
}

fn text(s: &str) -> Json {
    Json::Text(s.to_string())
}

#[test]
fn merge_simple() {
    let mut base = obj(vec![("k1", text("v1")), ("k2", text("v2"))]);
    let overlay = obj(vec![("k2", text("v3"))]);
    merge(&mut base, overlay);
    assert_eq!(base, obj(vec![("k1", text("v1")), ("k2", text("v3"))]));
}

#[test]
fn merge_nested() {
    let mut base = obj(vec![("k1", text("v1")), ("k2", text("v2"))]);
    let overlay = obj(vec![("k2", obj(vec![("k3", text("v3"))]))]);
    merge(&mut base, overlay);
    assert_eq!(
        base,
        obj(vec![("k1", text("v1")), ("k2", obj(vec![("k3", text("v3"))]))])
    );
}

#[test]
fn merge_empty_overlay_changes_nothing() {
    let mut base = obj(vec![("a", Json::UInt(1)), ("b", obj(vec![("c", Json::Bool(true))]))]);
    let expected = obj(vec![("a", Json::UInt(1)), ("b", obj(vec![("c", Json::Bool(true))]))]);
    merge(&mut base, obj(vec![]));
    assert_eq!(base, expected);
}

#[test]
fn merge_null_never_deletes() {
    let mut base = obj(vec![("a", Json::UInt(1))]);
    let overlay = obj(vec![("a", Json::Null)]);
    merge(&mut base, overlay);
    assert_eq!(base, obj(vec![("a", Json::UInt(1))]));
}

#[test]
fn merge_overlay_wins_on_conflict() {
    let mut base = obj(vec![("a", Json::UInt(1))]);
    let overlay = obj(vec![("a", Json::UInt(2))]);
    merge(&mut base, overlay);
    assert_eq!(base, obj(vec![("a", Json::UInt(2))]));
}

#[test]
fn merge_deep_nesting_combines_sibling_keys() {
    let mut base = obj(vec![("a", obj(vec![("b", Json::UInt(1))]))]);
    let overlay = obj(vec![("a", obj(vec![("c", Json::UInt(2))]))]);
    merge(&mut base, overlay);
    assert_eq!(
        base,
        obj(vec![("a", obj(vec![("b", Json::UInt(1)), ("c", Json::UInt(2))]))])
    );
}

#[test]
fn merge_arrays_replace_rather_than_concatenate() {
    let mut base = obj(vec![("a", Json::Arr(vec![Json::UInt(1), Json::UInt(2)]))]);
    let overlay = obj(vec![("a", Json::Arr(vec![Json::UInt(3)]))]);
    merge(&mut base, overlay);
    assert_eq!(base, obj(vec![("a", Json::Arr(vec![Json::UInt(3)]))]));
}

#[test]
fn merge_treats_opaque_numbers_as_scalars() {
    let mut base = obj(vec![("a", Json::Num("-1.5".to_string()))]);
    let overlay = obj(vec![("a", Json::Num("2e10".to_string()))]);
    merge(&mut base, overlay);
    assert_eq!(base, obj(vec![("a", Json::Num("2e10".to_string()))]));
}

#[test]
fn merge_fresh_keys_are_appended() {
    let mut base = obj(vec![("a", Json::UInt(1))]);
    let overlay = obj(vec![("b", Json::UInt(2)), ("c", Json::Null)]);
    merge(&mut base, overlay);
    assert_eq!(base, obj(vec![("a", Json::UInt(1)), ("b", Json::UInt(2))]));
}
