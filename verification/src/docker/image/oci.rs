//! The base schema layer of an image configuration: the OCI image
//! configuration fields, modelled as plain values.
//!
//! The base layer requires only the top-level `architecture` and `os`
//! fields; everything else is optional.  Its `config` object shares its JSON
//! region with the extension layer's fields, which is why the composite
//! codec merges the two layers' trees.

use vstd::prelude::*;
use crate::error::{ParsleyError, ParsleyResult};
use crate::util::codec::{
    as_bool, as_text, as_text_list, as_text_map, as_key_set, decode_bool, decode_key_set,
    decode_text, decode_text_list, decode_text_map, encode_key_set, encode_text_list,
    encode_text_map, fields_entries, key_absent, key_set, keys_distinct,
    lemma_fields_entries_get, lemma_fields_entries_wf, lemma_key_set_roundtrip,
    lemma_keys_distinct_forall, lemma_text_list_roundtrip, lemma_text_map_roundtrip, opt_field,
    push_field, text_list, text_map,
};
use crate::util::json::{
    arr_view, depth_le, entries_view, get_entry, get_field, get_raw, jview, Json, JsonView,
    lemma_arr_view_index, lemma_arr_view_len, lemma_depth_le_mono, lemma_jview_variant, num_free,
    tree_unique,
};

verus! {

/// The `config` object of the base schema: the process-level settings the
/// OCI specification defines.  Exposed ports and volumes are sets of names,
/// encoded as objects whose keys carry empty objects; labels are a string
/// map.
#[derive(Debug, PartialEq, Eq)]
pub struct OciConfig {
    pub user: Option<String>,
    pub exposed_ports: Option<Vec<String>>,
    pub env: Option<Vec<String>>,
    pub entrypoint: Option<Vec<String>>,
    pub cmd: Option<Vec<String>>,
    pub volumes: Option<Vec<String>>,
    pub working_dir: Option<String>,
    pub labels: Option<Vec<(String, String)>>,
    pub stop_signal: Option<String>,
}

/// Mathematical model of [`OciConfig`].
#[verifier::ext_equal]
pub struct OciConfigView {
    pub user: Option<Seq<char>>,
    pub exposed_ports: Option<Seq<Seq<char>>>,
    pub env: Option<Seq<Seq<char>>>,
    pub entrypoint: Option<Seq<Seq<char>>>,
    pub cmd: Option<Seq<Seq<char>>>,
    pub volumes: Option<Seq<Seq<char>>>,
    pub working_dir: Option<Seq<char>>,
    pub labels: Option<Seq<(Seq<char>, Seq<char>)>>,
    pub stop_signal: Option<Seq<char>>,
}

impl View for OciConfig {
    type V = OciConfigView;

    open spec fn view(&self) -> OciConfigView {
        OciConfigView {
            user: self.user.deep_view(),
            exposed_ports: self.exposed_ports.deep_view(),
            env: self.env.deep_view(),
            entrypoint: self.entrypoint.deep_view(),
            cmd: self.cmd.deep_view(),
            volumes: self.volumes.deep_view(),
            working_dir: self.working_dir.deep_view(),
            labels: self.labels.deep_view(),
            stop_signal: self.stop_signal.deep_view(),
        }
    }
}

/// The name sets and the label map must not repeat a name, or the rendered
/// object would bind a key twice.
pub open spec fn oci_config_wf(c: OciConfigView) -> bool {
    &&& match c.exposed_ports {
        None => true,
        Some(ks) => forall|i: int, j: int| 0 <= i < j < ks.len() ==> ks[i] != ks[j],
    }
    &&& match c.volumes {
        None => true,
        Some(ks) => forall|i: int, j: int| 0 <= i < j < ks.len() ==> ks[i] != ks[j],
    }
    &&& match c.labels {
        None => true,
        Some(ps) => forall|i: int, j: int|
            0 <= i < j < ps.len() ==> (#[trigger] ps[i]).0 != (#[trigger] ps[j]).0,
    }
}

/// The fields of the base schema's `config` object, in encoding order.
pub open spec fn oci_config_fields(c: OciConfigView) -> Seq<(Seq<char>, Option<JsonView>)> {
    seq![
        ("User"@, match c.user {
            None => None,
            Some(s) => Some(JsonView::Text(s)),
        }),
        ("ExposedPorts"@, match c.exposed_ports {
            None => None,
            Some(ks) => Some(key_set(ks)),
        }),
        ("Env"@, match c.env {
            None => None,
            Some(t) => Some(text_list(t)),
        }),
        ("Entrypoint"@, match c.entrypoint {
            None => None,
            Some(t) => Some(text_list(t)),
        }),
        ("Cmd"@, match c.cmd {
            None => None,
            Some(t) => Some(text_list(t)),
        }),
        ("Volumes"@, match c.volumes {
            None => None,
            Some(ks) => Some(key_set(ks)),
        }),
        ("WorkingDir"@, match c.working_dir {
            None => None,
            Some(s) => Some(JsonView::Text(s)),
        }),
        ("Labels"@, match c.labels {
            None => None,
            Some(ps) => Some(text_map(ps)),
        }),
        ("StopSignal"@, match c.stop_signal {
            None => None,
            Some(s) => Some(JsonView::Text(s)),
        }),
    ]
}

/// The tree the base `config` object renders to.
pub open spec fn oci_config_tree(c: OciConfigView) -> JsonView {
    JsonView::Obj(fields_entries(oci_config_fields(c)))
}

/// The base schema's reading of the shared `config` object's entries.
pub open spec fn oci_config_of(m: Seq<(Seq<char>, JsonView)>) -> Option<OciConfigView> {
    let user = opt_field(m, "User"@, |x: JsonView| as_text(x));
    let exposed_ports = opt_field(m, "ExposedPorts"@, |x: JsonView| as_key_set(x));
    let env = opt_field(m, "Env"@, |x: JsonView| as_text_list(x));
    let entrypoint = opt_field(m, "Entrypoint"@, |x: JsonView| as_text_list(x));
    let cmd = opt_field(m, "Cmd"@, |x: JsonView| as_text_list(x));
    let volumes = opt_field(m, "Volumes"@, |x: JsonView| as_key_set(x));
    let working_dir = opt_field(m, "WorkingDir"@, |x: JsonView| as_text(x));
    let labels = opt_field(m, "Labels"@, |x: JsonView| as_text_map(x));
    let stop_signal = opt_field(m, "StopSignal"@, |x: JsonView| as_text(x));
    if user is Some && exposed_ports is Some && env is Some && entrypoint is Some && cmd is Some
        && volumes is Some && working_dir is Some && labels is Some && stop_signal is Some {
        Some(
            OciConfigView {
                user: user->0,
                exposed_ports: exposed_ports->0,
                env: env->0,
                entrypoint: entrypoint->0,
                cmd: cmd->0,
                volumes: volumes->0,
                working_dir: working_dir->0,
                labels: labels->0,
                stop_signal: stop_signal->0,
            },
        )
    } else {
        None
    }
}

/// Decoding an encoded base `config` object gives it back, and the rendered
/// object binds pairwise-distinct keys.
pub proof fn lemma_oci_config_roundtrip(c: OciConfigView)
    requires
        oci_config_wf(c),
    ensures
        oci_config_of(fields_entries(oci_config_fields(c))) == Some(c),
        tree_unique(oci_config_tree(c)),
        depth_le(oci_config_tree(c), 3),
        num_free(oci_config_tree(c)),
        keys_distinct(oci_config_fields(c)),
{
    reveal_strlit("User");
    reveal_strlit("ExposedPorts");
    reveal_strlit("Env");
    reveal_strlit("Entrypoint");
    reveal_strlit("Cmd");
    reveal_strlit("Volumes");
    reveal_strlit("WorkingDir");
    reveal_strlit("Labels");
    reveal_strlit("StopSignal");
    let fs = oci_config_fields(c);
    let m = fields_entries(fs);
    assert(("Env"@)[0] == 'E' && ("Cmd"@)[0] == 'C');
    assert(("Entrypoint"@)[0] == 'E' && ("WorkingDir"@)[0] == 'W' && ("StopSignal"@)[0] == 'S');
    assert(fs.len() == 9);
    assert(fs[0].0 == "User"@);
    assert(fs.drop_first()[0].0 == "ExposedPorts"@);
    assert(fs.drop_first().drop_first()[0].0 == "Env"@);
    assert(fs.drop_first().drop_first().drop_first()[0].0 == "Entrypoint"@);
    assert(fs.drop_first().drop_first().drop_first().drop_first()[0].0 == "Cmd"@);
    assert(fs.drop_first().drop_first().drop_first().drop_first().drop_first()[0].0 == "Volumes"@);
    assert(fs.drop_first().drop_first().drop_first().drop_first().drop_first().drop_first()[0].0
        == "WorkingDir"@);
    assert(fs.drop_first().drop_first().drop_first().drop_first().drop_first().drop_first().drop_first()[0].0
        == "Labels"@);
    assert(fs.drop_first().drop_first().drop_first().drop_first().drop_first().drop_first().drop_first().drop_first()[0].0
        == "StopSignal"@);
    assert(keys_distinct(fs)) by {
        reveal_with_fuel(keys_distinct, 11);
        reveal_with_fuel(key_absent, 11);
    }
    lemma_keys_distinct_forall(fs);
    assert forall|i: int| 0 <= i < fs.len() implies get_raw(m, fs[i].0) == fs[i].1 by {
        lemma_fields_entries_get(fs, i);
    }
    if c.exposed_ports is Some {
        lemma_key_set_roundtrip(c.exposed_ports->0);
    }
    if c.env is Some {
        lemma_text_list_roundtrip(c.env->0);
    }
    if c.entrypoint is Some {
        lemma_text_list_roundtrip(c.entrypoint->0);
    }
    if c.cmd is Some {
        lemma_text_list_roundtrip(c.cmd->0);
    }
    if c.volumes is Some {
        lemma_key_set_roundtrip(c.volumes->0);
    }
    if c.labels is Some {
        lemma_text_map_roundtrip(c.labels->0);
    }
    assert(oci_config_of(m)->0 =~= c);
    lemma_fields_entries_wf(fs);
    assert forall|a: int| 0 <= a < m.len() implies tree_unique((#[trigger] m[a]).1) && depth_le(
        (#[trigger] m[a]).1,
        2,
    ) && num_free((#[trigger] m[a]).1) by {
        let i = choose|i: int| 0 <= i < fs.len() && fs[i].1 == Some(m[a].1) && fs[i].0 == m[a].0;
        if i == 1 {
            lemma_key_set_roundtrip(c.exposed_ports->0);
        } else if i == 2 {
            lemma_text_list_roundtrip(c.env->0);
        } else if i == 3 {
            lemma_text_list_roundtrip(c.entrypoint->0);
        } else if i == 4 {
            lemma_text_list_roundtrip(c.cmd->0);
        } else if i == 5 {
            lemma_key_set_roundtrip(c.volumes->0);
        } else if i == 7 {
            lemma_text_map_roundtrip(c.labels->0);
        } else {
            assert(m[a].1 is Text);
        }
    }
}

impl OciConfig {
    /// Render the base `config` object, absent fields omitted.
    #[verifier::rlimit(100)]
    pub fn to_tree(&self) -> (r: Json)
        ensures
            r@ == oci_config_tree(self@),
    {
        let mut out: Vec<(String, Json)> = Vec::new();
        let ghost fs0: Seq<(Seq<char>, Option<JsonView>)> = Seq::empty();
        proof {
            assert(entries_view(out@) =~= fields_entries(fs0));
        }
        let ju = match &self.user {
            Some(s) => Some(Json::Text(s.clone())),
            None => None,
        };
        let Ghost(fs1) = push_field(&mut out, Ghost(fs0), "User".to_owned(), ju);
        let jp = match &self.exposed_ports {
            Some(ks) => Some(encode_key_set(ks)),
            None => None,
        };
        let Ghost(fs2) = push_field(&mut out, Ghost(fs1), "ExposedPorts".to_owned(), jp);
        let je = match &self.env {
            Some(t) => Some(encode_text_list(t)),
            None => None,
        };
        let Ghost(fs3) = push_field(&mut out, Ghost(fs2), "Env".to_owned(), je);
        let jn = match &self.entrypoint {
            Some(t) => Some(encode_text_list(t)),
            None => None,
        };
        let Ghost(fs4) = push_field(&mut out, Ghost(fs3), "Entrypoint".to_owned(), jn);
        let jc = match &self.cmd {
            Some(t) => Some(encode_text_list(t)),
            None => None,
        };
        let Ghost(fs5) = push_field(&mut out, Ghost(fs4), "Cmd".to_owned(), jc);
        let jv = match &self.volumes {
            Some(ks) => Some(encode_key_set(ks)),
            None => None,
        };
        let Ghost(fs6) = push_field(&mut out, Ghost(fs5), "Volumes".to_owned(), jv);
        let jw = match &self.working_dir {
            Some(s) => Some(Json::Text(s.clone())),
            None => None,
        };
        let Ghost(fs7) = push_field(&mut out, Ghost(fs6), "WorkingDir".to_owned(), jw);
        let jl = match &self.labels {
            Some(ps) => Some(encode_text_map(ps)),
            None => None,
        };
        let Ghost(fs8) = push_field(&mut out, Ghost(fs7), "Labels".to_owned(), jl);
        let jq = match &self.stop_signal {
            Some(s) => Some(Json::Text(s.clone())),
            None => None,
        };
        let Ghost(fs9) = push_field(&mut out, Ghost(fs8), "StopSignal".to_owned(), jq);
        proof {
            assert(fs9 =~= oci_config_fields(self@));
            assert(entries_view(out@) == fields_entries(oci_config_fields(self@)));
        }
        Json::Obj(out)
    }

    /// The base schema's reading of the shared `config` object's entries.
    pub fn from_entries(entries: &Vec<(String, Json)>) -> (r: ParsleyResult<OciConfig>)
        ensures
            match r {
                Ok(c) => oci_config_of(entries_view(entries@)) == Some(c@),
                Err(e) => oci_config_of(entries_view(entries@)) is None && e is BaseSchemaInvalid,
            },
    {
        let ghost m = entries_view(entries@);
        let user = match get_field(entries, &"User".to_owned()) {
            None => None,
            Some(j) => match decode_text(j) {
                Some(s) => Some(s),
                None => {
                    return Err(
                        ParsleyError::BaseSchemaInvalid(
                            "config field User must be a string".to_owned(),
                        ),
                    );
                },
            },
        };
        let exposed_ports = match get_field(entries, &"ExposedPorts".to_owned()) {
            None => None,
            Some(j) => match decode_key_set(j) {
                Some(ks) => Some(ks),
                None => {
                    return Err(
                        ParsleyError::BaseSchemaInvalid(
                            "config field ExposedPorts must be an object".to_owned(),
                        ),
                    );
                },
            },
        };
        let env = match get_field(entries, &"Env".to_owned()) {
            None => None,
            Some(j) => match decode_text_list(j) {
                Some(t) => Some(t),
                None => {
                    return Err(
                        ParsleyError::BaseSchemaInvalid(
                            "config field Env must be an array of strings".to_owned(),
                        ),
                    );
                },
            },
        };
        let entrypoint = match get_field(entries, &"Entrypoint".to_owned()) {
            None => None,
            Some(j) => match decode_text_list(j) {
                Some(t) => Some(t),
                None => {
                    return Err(
                        ParsleyError::BaseSchemaInvalid(
                            "config field Entrypoint must be an array of strings".to_owned(),
                        ),
                    );
                },
            },
        };
        let cmd = match get_field(entries, &"Cmd".to_owned()) {
            None => None,
            Some(j) => match decode_text_list(j) {
                Some(t) => Some(t),
                None => {
                    return Err(
                        ParsleyError::BaseSchemaInvalid(
                            "config field Cmd must be an array of strings".to_owned(),
                        ),
                    );
                },
            },
        };
        let volumes = match get_field(entries, &"Volumes".to_owned()) {
            None => None,
            Some(j) => match decode_key_set(j) {
                Some(ks) => Some(ks),
                None => {
                    return Err(
                        ParsleyError::BaseSchemaInvalid(
                            "config field Volumes must be an object".to_owned(),
                        ),
                    );
                },
            },
        };
        let working_dir = match get_field(entries, &"WorkingDir".to_owned()) {
            None => None,
            Some(j) => match decode_text(j) {
                Some(s) => Some(s),
                None => {
                    return Err(
                        ParsleyError::BaseSchemaInvalid(
                            "config field WorkingDir must be a string".to_owned(),
                        ),
                    );
                },
            },
        };
        let labels = match get_field(entries, &"Labels".to_owned()) {
            None => None,
            Some(j) => match decode_text_map(j) {
                Some(ps) => Some(ps),
                None => {
                    return Err(
                        ParsleyError::BaseSchemaInvalid(
                            "config field Labels must be an object of strings".to_owned(),
                        ),
                    );
                },
            },
        };
        let stop_signal = match get_field(entries, &"StopSignal".to_owned()) {
            None => None,
            Some(j) => match decode_text(j) {
                Some(s) => Some(s),
                None => {
                    return Err(
                        ParsleyError::BaseSchemaInvalid(
                            "config field StopSignal must be a string".to_owned(),
                        ),
                    );
                },
            },
        };
        let c = OciConfig {
            user,
            exposed_ports,
            env,
            entrypoint,
            cmd,
            volumes,
            working_dir,
            labels,
            stop_signal,
        };
        proof {
            assert(oci_config_of(m)->0 =~= c@);
        }
        Ok(c)
    }
}

/// The root filesystem of the base schema: a type tag and the layer digests.
/// Both fields are required once the `rootfs` key is present.
#[derive(Debug, PartialEq, Eq)]
pub struct RootFs {
    pub typ: String,
    pub diff_ids: Vec<String>,
}

/// Mathematical model of [`RootFs`].
#[verifier::ext_equal]
pub struct RootFsView {
    pub typ: Seq<char>,
    pub diff_ids: Seq<Seq<char>>,
}

impl View for RootFs {
    type V = RootFsView;

    open spec fn view(&self) -> RootFsView {
        RootFsView { typ: self.typ@, diff_ids: self.diff_ids.deep_view() }
    }
}

/// The fields of an encoded root filesystem.
pub open spec fn rootfs_fields(r: RootFsView) -> Seq<(Seq<char>, Option<JsonView>)> {
    seq![
        ("type"@, Some(JsonView::Text(r.typ))),
        ("diff_ids"@, Some(text_list(r.diff_ids))),
    ]
}

/// The tree an encoded root filesystem renders to.
pub open spec fn rootfs_tree(r: RootFsView) -> JsonView {
    JsonView::Obj(fields_entries(rootfs_fields(r)))
}

/// The root filesystem a tree decodes to: both fields are required.
pub open spec fn rootfs_of(v: JsonView) -> Option<RootFsView> {
    match v {
        JsonView::Obj(m) => {
            let typ = match get_entry(m, "type"@) {
                None => None,
                Some(x) => as_text(x),
            };
            let diff_ids = match get_entry(m, "diff_ids"@) {
                None => None,
                Some(x) => as_text_list(x),
            };
            if typ is Some && diff_ids is Some {
                Some(RootFsView { typ: typ->0, diff_ids: diff_ids->0 })
            } else {
                None
            }
        },
        _ => None,
    }
}

/// Decoding an encoded root filesystem gives it back.
pub proof fn lemma_rootfs_roundtrip(r: RootFsView)
    ensures
        rootfs_of(rootfs_tree(r)) == Some(r),
        tree_unique(rootfs_tree(r)),
        depth_le(rootfs_tree(r), 3),
        num_free(rootfs_tree(r)),
        keys_distinct(rootfs_fields(r)),
{
    reveal_strlit("type");
    reveal_strlit("diff_ids");
    let fs = rootfs_fields(r);
    let m = fields_entries(fs);
    assert(fs.len() == 2);
    assert(fs[0].0 == "type"@);
    assert(fs.drop_first()[0].0 == "diff_ids"@);
    assert(keys_distinct(fs)) by {
        reveal_with_fuel(keys_distinct, 4);
        reveal_with_fuel(key_absent, 4);
    }
    lemma_keys_distinct_forall(fs);
    assert forall|i: int| 0 <= i < fs.len() implies get_raw(m, fs[i].0) == fs[i].1 by {
        lemma_fields_entries_get(fs, i);
    }
    lemma_text_list_roundtrip(r.diff_ids);
    assert(rootfs_of(rootfs_tree(r))->0 =~= r);
    lemma_fields_entries_wf(fs);
    assert forall|a: int| 0 <= a < m.len() implies tree_unique((#[trigger] m[a]).1) && depth_le(
        (#[trigger] m[a]).1,
        2,
    ) && num_free((#[trigger] m[a]).1) by {
        let i = choose|i: int| 0 <= i < fs.len() && fs[i].1 == Some(m[a].1) && fs[i].0 == m[a].0;
        if i == 1 {
            lemma_text_list_roundtrip(r.diff_ids);
        } else {
            assert(m[a].1 is Text);
        }
    }
}

impl RootFs {
    /// Render the root filesystem as a JSON object.
    pub fn to_tree(&self) -> (r: Json)
        ensures
            r@ == rootfs_tree(self@),
    {
        let mut out: Vec<(String, Json)> = Vec::new();
        let ghost fs0: Seq<(Seq<char>, Option<JsonView>)> = Seq::empty();
        proof {
            assert(entries_view(out@) =~= fields_entries(fs0));
        }
        let Ghost(fs1) = push_field(
            &mut out,
            Ghost(fs0),
            "type".to_owned(),
            Some(Json::Text(self.typ.clone())),
        );
        let Ghost(fs2) = push_field(
            &mut out,
            Ghost(fs1),
            "diff_ids".to_owned(),
            Some(encode_text_list(&self.diff_ids)),
        );
        proof {
            assert(fs2 =~= rootfs_fields(self@));
            assert(entries_view(out@) == fields_entries(rootfs_fields(self@)));
        }
        Json::Obj(out)
    }

    /// Read a root filesystem out of a JSON tree.
    pub fn from_tree(v: &Json) -> (r: ParsleyResult<RootFs>)
        ensures
            match r {
                Ok(f) => rootfs_of(v@) == Some(f@),
                Err(e) => rootfs_of(v@) is None && e is BaseSchemaInvalid,
            },
    {
        proof {
            lemma_jview_variant(*v);
        }
        let entries = match v {
            Json::Obj(m) => m,
            _ => {
                return Err(
                    ParsleyError::BaseSchemaInvalid("rootfs must be a JSON object".to_owned()),
                );
            },
        };
        let typ = match get_field(entries, &"type".to_owned()) {
            None => {
                return Err(
                    ParsleyError::BaseSchemaInvalid("rootfs field type is required".to_owned()),
                );
            },
            Some(j) => match decode_text(j) {
                Some(s) => s,
                None => {
                    return Err(
                        ParsleyError::BaseSchemaInvalid(
                            "rootfs field type must be a string".to_owned(),
                        ),
                    );
                },
            },
        };
        let diff_ids = match get_field(entries, &"diff_ids".to_owned()) {
            None => {
                return Err(
                    ParsleyError::BaseSchemaInvalid(
                        "rootfs field diff_ids is required".to_owned(),
                    ),
                );
            },
            Some(j) => match decode_text_list(j) {
                Some(t) => t,
                None => {
                    return Err(
                        ParsleyError::BaseSchemaInvalid(
                            "rootfs field diff_ids must be an array of strings".to_owned(),
                        ),
                    );
                },
            },
        };
        let f = RootFs { typ, diff_ids };
        proof {
            assert(rootfs_of(v@)->0 =~= f@);
        }
        Ok(f)
    }
}

/// One entry of the base schema's build history.  Every field is optional.
#[derive(Debug, PartialEq, Eq)]
pub struct OciHistory {
    pub created: Option<String>,
    pub author: Option<String>,
    pub created_by: Option<String>,
    pub comment: Option<String>,
    pub empty_layer: Option<bool>,
}

/// Mathematical model of [`OciHistory`].
#[verifier::ext_equal]
pub struct OciHistoryView {
    pub created: Option<Seq<char>>,
    pub author: Option<Seq<char>>,
    pub created_by: Option<Seq<char>>,
    pub comment: Option<Seq<char>>,
    pub empty_layer: Option<bool>,
}

impl View for OciHistory {
    type V = OciHistoryView;

    open spec fn view(&self) -> OciHistoryView {
        OciHistoryView {
            created: self.created.deep_view(),
            author: self.author.deep_view(),
            created_by: self.created_by.deep_view(),
            comment: self.comment.deep_view(),
            empty_layer: self.empty_layer,
        }
    }
}

/// The fields of one encoded history entry.
pub open spec fn history_fields(h: OciHistoryView) -> Seq<(Seq<char>, Option<JsonView>)> {
    seq![
        ("created"@, match h.created {
            None => None,
            Some(s) => Some(JsonView::Text(s)),
        }),
        ("author"@, match h.author {
            None => None,
            Some(s) => Some(JsonView::Text(s)),
        }),
        ("created_by"@, match h.created_by {
            None => None,
            Some(s) => Some(JsonView::Text(s)),
        }),
        ("comment"@, match h.comment {
            None => None,
            Some(s) => Some(JsonView::Text(s)),
        }),
        ("empty_layer"@, match h.empty_layer {
            None => None,
            Some(b) => Some(JsonView::Bool(b)),
        }),
    ]
}

/// The tree one encoded history entry renders to.
pub open spec fn history_tree(h: OciHistoryView) -> JsonView {
    JsonView::Obj(fields_entries(history_fields(h)))
}

/// The history entry a tree decodes to.
pub open spec fn history_item_of(v: JsonView) -> Option<OciHistoryView> {
    match v {
        JsonView::Obj(m) => {
            let created = opt_field(m, "created"@, |x: JsonView| as_text(x));
            let author = opt_field(m, "author"@, |x: JsonView| as_text(x));
            let created_by = opt_field(m, "created_by"@, |x: JsonView| as_text(x));
            let comment = opt_field(m, "comment"@, |x: JsonView| as_text(x));
            let empty_layer = opt_field(m, "empty_layer"@, |x: JsonView| as_bool(x));
            if created is Some && author is Some && created_by is Some && comment is Some
                && empty_layer is Some {
                Some(
                    OciHistoryView {
                        created: created->0,
                        author: author->0,
                        created_by: created_by->0,
                        comment: comment->0,
                        empty_layer: empty_layer->0,
                    },
                )
            } else {
                None
            }
        },
        _ => None,
    }
}

/// The trees a history list renders to.
pub open spec fn history_trees(hs: Seq<OciHistoryView>) -> Seq<JsonView> {
    hs.map_values(|h: OciHistoryView| history_tree(h))
}

/// The history list a tree sequence decodes to: every element must decode.
pub open spec fn history_list_of(a: Seq<JsonView>) -> Option<Seq<OciHistoryView>>
    decreases a.len(),
{
    if a.len() == 0 {
        Some(Seq::empty())
    } else {
        match history_item_of(a[0]) {
            None => None,
            Some(h) => match history_list_of(a.drop_first()) {
                None => None,
                Some(t) => Some(seq![h] + t),
            },
        }
    }
}

/// Decoding one encoded history entry gives it back.
pub proof fn lemma_history_item_roundtrip(h: OciHistoryView)
    ensures
        history_item_of(history_tree(h)) == Some(h),
        tree_unique(history_tree(h)),
        depth_le(history_tree(h), 2),
        num_free(history_tree(h)),
        keys_distinct(history_fields(h)),
{
    reveal_strlit("created");
    reveal_strlit("author");
    reveal_strlit("created_by");
    reveal_strlit("comment");
    reveal_strlit("empty_layer");
    let fs = history_fields(h);
    let m = fields_entries(fs);
    assert(("created"@)[1] == 'r' && ("comment"@)[1] == 'o');
    assert(fs.len() == 5);
    assert(fs[0].0 == "created"@);
    assert(fs.drop_first()[0].0 == "author"@);
    assert(fs.drop_first().drop_first()[0].0 == "created_by"@);
    assert(fs.drop_first().drop_first().drop_first()[0].0 == "comment"@);
    assert(fs.drop_first().drop_first().drop_first().drop_first()[0].0 == "empty_layer"@);
    assert(keys_distinct(fs)) by {
        reveal_with_fuel(keys_distinct, 7);
        reveal_with_fuel(key_absent, 7);
    }
    lemma_keys_distinct_forall(fs);
    assert forall|i: int| 0 <= i < fs.len() implies get_raw(m, fs[i].0) == fs[i].1 by {
        lemma_fields_entries_get(fs, i);
    }
    assert(history_item_of(history_tree(h))->0 =~= h);
    lemma_fields_entries_wf(fs);
    assert forall|a: int| 0 <= a < m.len() implies tree_unique((#[trigger] m[a]).1) && depth_le(
        (#[trigger] m[a]).1,
        1,
    ) && num_free((#[trigger] m[a]).1) by {
        let i = choose|i: int| 0 <= i < fs.len() && fs[i].1 == Some(m[a].1) && fs[i].0 == m[a].0;
        assert(m[a].1 is Text || m[a].1 is Bool);
    }
}

/// Decoding an encoded history list gives it back, element by element.
pub proof fn lemma_history_list_roundtrip(hs: Seq<OciHistoryView>)
    ensures
        history_list_of(history_trees(hs)) == Some(hs),
        forall|i: int|
            0 <= i < history_trees(hs).len() ==> tree_unique(#[trigger] history_trees(hs)[i])
                && depth_le(history_trees(hs)[i], 2) && num_free(history_trees(hs)[i]),
    decreases hs.len(),
{
    let a = history_trees(hs);
    assert(a.len() == hs.len());
    if hs.len() == 0 {
        assert(history_list_of(a) == Some(Seq::<OciHistoryView>::empty()));
        assert(Seq::<OciHistoryView>::empty() =~= hs);
    } else {
        lemma_history_item_roundtrip(hs[0]);
        assert(a[0] == history_tree(hs[0]));
        assert(a.drop_first() =~= history_trees(hs.drop_first()));
        lemma_history_list_roundtrip(hs.drop_first());
        assert(seq![hs[0]] + hs.drop_first() =~= hs);
        assert forall|i: int| 0 <= i < a.len() implies tree_unique(#[trigger] a[i]) && depth_le(
            a[i],
            2,
        ) && num_free(a[i]) by {
            lemma_history_item_roundtrip(hs[i]);
        }
    }
}

/// When every element of a tree sequence decodes to the matching entry of a
/// history list, the whole sequence decodes to that list.
pub proof fn lemma_history_list_pointwise(a: Seq<JsonView>, hs: Seq<OciHistoryView>)
    requires
        a.len() == hs.len(),
        forall|j: int| 0 <= j < a.len() ==> history_item_of(#[trigger] a[j]) == Some(hs[j]),
    ensures
        history_list_of(a) == Some(hs),
    decreases a.len(),
{
    if a.len() > 0 {
        assert forall|j: int| 0 <= j < a.drop_first().len() implies history_item_of(
            #[trigger] a.drop_first()[j],
        ) == Some(hs.drop_first()[j]) by {
            assert(a.drop_first()[j] == a[j + 1]);
            assert(hs.drop_first()[j] == hs[j + 1]);
        }
        lemma_history_list_pointwise(a.drop_first(), hs.drop_first());
        assert(seq![hs[0]] + hs.drop_first() =~= hs);
    }
}

/// One undecodable element makes the whole tree sequence undecodable.
pub proof fn lemma_history_list_fails(a: Seq<JsonView>, i: int)
    requires
        0 <= i < a.len(),
        history_item_of(a[i]) is None,
    ensures
        history_list_of(a) is None,
    decreases a.len(),
{
    if a.len() > 0 && history_item_of(a[0]) is Some {
        assert(a.drop_first()[i - 1] == a[i]);
        lemma_history_list_fails(a.drop_first(), i - 1);
    }
}

impl OciHistory {
    /// Render one history entry as a JSON object.
    pub fn to_tree(&self) -> (r: Json)
        ensures
            r@ == history_tree(self@),
    {
        let mut out: Vec<(String, Json)> = Vec::new();
        let ghost fs0: Seq<(Seq<char>, Option<JsonView>)> = Seq::empty();
        proof {
            assert(entries_view(out@) =~= fields_entries(fs0));
        }
        let jc = match &self.created {
            Some(s) => Some(Json::Text(s.clone())),
            None => None,
        };
        let Ghost(fs1) = push_field(&mut out, Ghost(fs0), "created".to_owned(), jc);
        let ja = match &self.author {
            Some(s) => Some(Json::Text(s.clone())),
            None => None,
        };
        let Ghost(fs2) = push_field(&mut out, Ghost(fs1), "author".to_owned(), ja);
        let jb = match &self.created_by {
            Some(s) => Some(Json::Text(s.clone())),
            None => None,
        };
        let Ghost(fs3) = push_field(&mut out, Ghost(fs2), "created_by".to_owned(), jb);
        let jm = match &self.comment {
            Some(s) => Some(Json::Text(s.clone())),
            None => None,
        };
        let Ghost(fs4) = push_field(&mut out, Ghost(fs3), "comment".to_owned(), jm);
        let je = match &self.empty_layer {
            Some(b) => Some(Json::Bool(*b)),
            None => None,
        };
        let Ghost(fs5) = push_field(&mut out, Ghost(fs4), "empty_layer".to_owned(), je);
        proof {
            assert(fs5 =~= history_fields(self@));
            assert(entries_view(out@) == fields_entries(history_fields(self@)));
        }
        Json::Obj(out)
    }

    /// Read one history entry out of a JSON tree.
    pub fn from_tree(v: &Json) -> (r: ParsleyResult<OciHistory>)
        ensures
            match r {
                Ok(h) => history_item_of(v@) == Some(h@),
                Err(e) => history_item_of(v@) is None && e is BaseSchemaInvalid,
            },
    {
        proof {
            lemma_jview_variant(*v);
        }
        let entries = match v {
            Json::Obj(m) => m,
            _ => {
                return Err(
                    ParsleyError::BaseSchemaInvalid(
                        "a history entry must be a JSON object".to_owned(),
                    ),
                );
            },
        };
        let created = match get_field(entries, &"created".to_owned()) {
            None => None,
            Some(j) => match decode_text(j) {
                Some(s) => Some(s),
                None => {
                    return Err(
                        ParsleyError::BaseSchemaInvalid(
                            "history field created must be a string".to_owned(),
                        ),
                    );
                },
            },
        };
        let author = match get_field(entries, &"author".to_owned()) {
            None => None,
            Some(j) => match decode_text(j) {
                Some(s) => Some(s),
                None => {
                    return Err(
                        ParsleyError::BaseSchemaInvalid(
                            "history field author must be a string".to_owned(),
                        ),
                    );
                },
            },
        };
        let created_by = match get_field(entries, &"created_by".to_owned()) {
            None => None,
            Some(j) => match decode_text(j) {
                Some(s) => Some(s),
                None => {
                    return Err(
                        ParsleyError::BaseSchemaInvalid(
                            "history field created_by must be a string".to_owned(),
                        ),
                    );
                },
            },
        };
        let comment = match get_field(entries, &"comment".to_owned()) {
            None => None,
            Some(j) => match decode_text(j) {
                Some(s) => Some(s),
                None => {
                    return Err(
                        ParsleyError::BaseSchemaInvalid(
                            "history field comment must be a string".to_owned(),
                        ),
                    );
                },
            },
        };
        let empty_layer = match get_field(entries, &"empty_layer".to_owned()) {
            None => None,
            Some(j) => match decode_bool(j) {
                Some(b) => Some(b),
                None => {
                    return Err(
                        ParsleyError::BaseSchemaInvalid(
                            "history field empty_layer must be a boolean".to_owned(),
                        ),
                    );
                },
            },
        };
        let h = OciHistory { created, author, created_by, comment, empty_layer };
        proof {
            assert(history_item_of(v@)->0 =~= h@);
        }
        Ok(h)
    }
}

/// The views of a history list.
pub open spec fn hist_views(s: Seq<OciHistory>) -> Seq<OciHistoryView> {
    s.map_values(|h: OciHistory| h@)
}

/// Render a history list as a JSON array of objects.
pub(crate) fn encode_history_list(hs: &Vec<OciHistory>) -> (r: Json)
    ensures
        r@ == JsonView::Arr(history_trees(hist_views(hs@))),
{
    let mut out: Vec<Json> = Vec::new();
    let mut i: usize = 0;
    while i < hs.len()
        invariant
            0 <= i <= hs@.len(),
            out@.len() == i,
            forall|j: int| 0 <= j < i ==> jview(#[trigger] out@[j]) == history_tree(hs@[j]@),
        decreases hs@.len() - i,
    {
        out.push(hs[i].to_tree());
        i = i + 1;
    }
    proof {
        lemma_arr_view_len(out@);
        assert forall|j: int| 0 <= j < out@.len() implies #[trigger] arr_view(out@)[j]
            == history_trees(hist_views(hs@))[j] by {
            lemma_arr_view_index(out@, j);
        }
        assert(arr_view(out@) =~= history_trees(hist_views(hs@)));
    }
    Json::Arr(out)
}

/// Read a history list out of a JSON array, every element of which must be
/// a well-formed history entry.
pub(crate) fn decode_history_list(v: &Json) -> (r: ParsleyResult<Vec<OciHistory>>)
    ensures
        match r {
            Ok(hs) => v@ matches JsonView::Arr(a) && history_list_of(a) == Some(hist_views(hs@)),
            Err(e) => e is BaseSchemaInvalid && match v@ {
                JsonView::Arr(a) => history_list_of(a) is None,
                _ => true,
            },
        },
{
    proof {
        lemma_jview_variant(*v);
    }
    let items = match v {
        Json::Arr(a) => a,
        _ => {
            return Err(
                ParsleyError::BaseSchemaInvalid("history must be a JSON array".to_owned()),
            );
        },
    };
    let ghost av = arr_view(items@);
    proof {
        lemma_arr_view_len(items@);
    }
    let mut out: Vec<OciHistory> = Vec::new();
    let mut i: usize = 0;
    while i < items.len()
        invariant
            0 <= i <= items@.len(),
            av == arr_view(items@),
            av.len() == items@.len(),
            v@ == JsonView::Arr(av),
            out@.len() == i,
            forall|j: int| 0 <= j < i ==> history_item_of(#[trigger] av[j]) == Some(out@[j]@),
        decreases items@.len() - i,
    {
        proof {
            lemma_arr_view_index(items@, i as int);
        }
        match OciHistory::from_tree(&items[i]) {
            Ok(h) => {
                out.push(h);
            },
            Err(e) => {
                proof {
                    lemma_history_list_fails(av, i as int);
                }
                return Err(e);
            },
        }
        i = i + 1;
    }
    proof {
        lemma_history_list_pointwise(av, hist_views(out@));
    }
    Ok(out)
}

/// The base schema layer of an image configuration.  Only `architecture`
/// and `os` are required; the other fields are optional and omitted when
/// absent.
#[derive(Debug, PartialEq, Eq)]
pub struct OciImageConfiguration {
    pub created: Option<String>,
    pub author: Option<String>,
    pub architecture: String,
    pub os: String,
    pub os_version: Option<String>,
    pub os_features: Option<Vec<String>>,
    pub variant: Option<String>,
    pub config: Option<OciConfig>,
    pub rootfs: Option<RootFs>,
    pub history: Option<Vec<OciHistory>>,
}

/// Mathematical model of [`OciImageConfiguration`].
#[verifier::ext_equal]
pub struct OciImageConfigurationView {
    pub created: Option<Seq<char>>,
    pub author: Option<Seq<char>>,
    pub architecture: Seq<char>,
    pub os: Seq<char>,
    pub os_version: Option<Seq<char>>,
    pub os_features: Option<Seq<Seq<char>>>,
    pub variant: Option<Seq<char>>,
    pub config: Option<OciConfigView>,
    pub rootfs: Option<RootFsView>,
    pub history: Option<Seq<OciHistoryView>>,
}

impl View for OciImageConfiguration {
    type V = OciImageConfigurationView;

    open spec fn view(&self) -> OciImageConfigurationView {
        OciImageConfigurationView {
            created: self.created.deep_view(),
            author: self.author.deep_view(),
            architecture: self.architecture@,
            os: self.os@,
            os_version: self.os_version.deep_view(),
            os_features: self.os_features.deep_view(),
            variant: self.variant.deep_view(),
            config: match self.config {
                None => None,
                Some(c) => Some(c@),
            },
            rootfs: match self.rootfs {
                None => None,
                Some(f) => Some(f@),
            },
            history: match self.history {
                None => None,
                Some(hs) => Some(hist_views(hs@)),
            },
        }
    }
}

/// The base layer's name sets and label map must not repeat a name.
pub open spec fn base_wf(v: OciImageConfigurationView) -> bool {
    match v.config {
        None => true,
        Some(c) => oci_config_wf(c),
    }
}

/// The top-level fields of the base layer, in encoding order.
pub open spec fn base_fields(v: OciImageConfigurationView) -> Seq<(Seq<char>, Option<JsonView>)> {
    seq![
        ("created"@, match v.created {
            None => None,
            Some(s) => Some(JsonView::Text(s)),
        }),
        ("author"@, match v.author {
            None => None,
            Some(s) => Some(JsonView::Text(s)),
        }),
        ("architecture"@, Some(JsonView::Text(v.architecture))),
        ("os"@, Some(JsonView::Text(v.os))),
        ("os.version"@, match v.os_version {
            None => None,
            Some(s) => Some(JsonView::Text(s)),
        }),
        ("os.features"@, match v.os_features {
            None => None,
            Some(t) => Some(text_list(t)),
        }),
        ("variant"@, match v.variant {
            None => None,
            Some(s) => Some(JsonView::Text(s)),
        }),
        ("config"@, match v.config {
            None => None,
            Some(c) => Some(oci_config_tree(c)),
        }),
        ("rootfs"@, match v.rootfs {
            None => None,
            Some(f) => Some(rootfs_tree(f)),
        }),
        ("history"@, match v.history {
            None => None,
            Some(hs) => Some(JsonView::Arr(history_trees(hs))),
        }),
    ]
}

/// The tree the base layer renders to.
pub open spec fn base_tree(v: OciImageConfigurationView) -> JsonView {
    JsonView::Obj(fields_entries(base_fields(v)))
}

/// The base layer's reading of a whole payload tree: required fields must be
/// present and well typed, optional fields may be absent, unknown fields are
/// ignored.
pub open spec fn base_of_tree(t: JsonView) -> Option<OciImageConfigurationView> {
    match t {
        JsonView::Obj(m) => {
            let created = opt_field(m, "created"@, |x: JsonView| as_text(x));
            let author = opt_field(m, "author"@, |x: JsonView| as_text(x));
            let architecture = match get_entry(m, "architecture"@) {
                None => None,
                Some(x) => as_text(x),
            };
            let os = match get_entry(m, "os"@) {
                None => None,
                Some(x) => as_text(x),
            };
            let os_version = opt_field(m, "os.version"@, |x: JsonView| as_text(x));
            let os_features = opt_field(m, "os.features"@, |x: JsonView| as_text_list(x));
            let variant = opt_field(m, "variant"@, |x: JsonView| as_text(x));
            let config = match get_entry(m, "config"@) {
                None => Some(None),
                Some(JsonView::Obj(cm)) => match oci_config_of(cm) {
                    None => None,
                    Some(c) => Some(Some(c)),
                },
                Some(_) => None,
            };
            let rootfs = match get_entry(m, "rootfs"@) {
                None => Some(None),
                Some(x) => match rootfs_of(x) {
                    None => None,
                    Some(f) => Some(Some(f)),
                },
            };
            let history = match get_entry(m, "history"@) {
                None => Some(None),
                Some(JsonView::Arr(a)) => match history_list_of(a) {
                    None => None,
                    Some(hs) => Some(Some(hs)),
                },
                Some(_) => None,
            };
            if created is Some && author is Some && architecture is Some && os is Some
                && os_version is Some && os_features is Some && variant is Some && config is Some
                && rootfs is Some && history is Some {
                Some(
                    OciImageConfigurationView {
                        created: created->0,
                        author: author->0,
                        architecture: architecture->0,
                        os: os->0,
                        os_version: os_version->0,
                        os_features: os_features->0,
                        variant: variant->0,
                        config: config->0,
                        rootfs: rootfs->0,
                        history: history->0,
                    },
                )
            } else {
                None
            }
        },
        _ => None,
    }
}

/// Decoding an encoded base layer gives it back, and the rendered tree binds
/// pairwise-distinct keys throughout.
pub proof fn lemma_base_roundtrip(v: OciImageConfigurationView)
    requires
        base_wf(v),
    ensures
        base_of_tree(base_tree(v)) == Some(v),
        tree_unique(base_tree(v)),
        depth_le(base_tree(v), 4),
        num_free(base_tree(v)),
        keys_distinct(base_fields(v)),
{
    reveal_strlit("created");
    reveal_strlit("author");
    reveal_strlit("architecture");
    reveal_strlit("os");
    reveal_strlit("os.version");
    reveal_strlit("os.features");
    reveal_strlit("variant");
    reveal_strlit("config");
    reveal_strlit("rootfs");
    reveal_strlit("history");
    let fs = base_fields(v);
    let m = fields_entries(fs);
    assert(("created"@)[0] == 'c' && ("variant"@)[0] == 'v' && ("history"@)[0] == 'h');
    assert(("author"@)[0] == 'a' && ("config"@)[0] == 'c' && ("rootfs"@)[0] == 'r');
    assert(("config"@)[1] == 'o' && ("created"@)[1] == 'r');
    assert(fs.len() == 10);
    assert(fs[0].0 == "created"@);
    assert(fs.drop_first()[0].0 == "author"@);
    assert(fs.drop_first().drop_first()[0].0 == "architecture"@);
    assert(fs.drop_first().drop_first().drop_first()[0].0 == "os"@);
    assert(fs.drop_first().drop_first().drop_first().drop_first()[0].0 == "os.version"@);
    assert(fs.drop_first().drop_first().drop_first().drop_first().drop_first()[0].0
        == "os.features"@);
    assert(fs.drop_first().drop_first().drop_first().drop_first().drop_first().drop_first()[0].0
        == "variant"@);
    assert(fs.drop_first().drop_first().drop_first().drop_first().drop_first().drop_first().drop_first()[0].0
        == "config"@);
    assert(fs.drop_first().drop_first().drop_first().drop_first().drop_first().drop_first().drop_first().drop_first()[0].0
        == "rootfs"@);
    assert(fs.drop_first().drop_first().drop_first().drop_first().drop_first().drop_first().drop_first().drop_first().drop_first()[0].0
        == "history"@);
    assert(keys_distinct(fs)) by {
        reveal_with_fuel(keys_distinct, 12);
        reveal_with_fuel(key_absent, 12);
    }
    lemma_keys_distinct_forall(fs);
    assert forall|i: int| 0 <= i < fs.len() implies get_raw(m, fs[i].0) == fs[i].1 by {
        lemma_fields_entries_get(fs, i);
    }
    if v.os_features is Some {
        lemma_text_list_roundtrip(v.os_features->0);
    }
    if v.config is Some {
        lemma_oci_config_roundtrip(v.config->0);
    }
    if v.rootfs is Some {
        lemma_rootfs_roundtrip(v.rootfs->0);
    }
    if v.history is Some {
        lemma_history_list_roundtrip(v.history->0);
    }
    assert(base_of_tree(base_tree(v))->0 =~= v);
    lemma_fields_entries_wf(fs);
    assert forall|a: int| 0 <= a < m.len() implies tree_unique((#[trigger] m[a]).1) && depth_le(
        (#[trigger] m[a]).1,
        3,
    ) && num_free((#[trigger] m[a]).1) by {
        let i = choose|i: int| 0 <= i < fs.len() && fs[i].1 == Some(m[a].1) && fs[i].0 == m[a].0;
        if i == 5 {
            lemma_text_list_roundtrip(v.os_features->0);
            lemma_depth_le_mono(m[a].1, 2, 3);
        } else if i == 7 {
            lemma_oci_config_roundtrip(v.config->0);
        } else if i == 8 {
            lemma_rootfs_roundtrip(v.rootfs->0);
        } else if i == 9 {
            lemma_history_list_roundtrip(v.history->0);
            assert(depth_le(m[a].1, 3));
        } else {
            assert(m[a].1 is Text);
        }
    }
}

impl OciImageConfiguration {
    /// Render the base layer as its JSON tree.
    pub fn to_tree(&self) -> (r: Json)
        ensures
            r@ == base_tree(self@),
    {
        let mut out: Vec<(String, Json)> = Vec::new();
        let ghost fs0: Seq<(Seq<char>, Option<JsonView>)> = Seq::empty();
        proof {
            assert(entries_view(out@) =~= fields_entries(fs0));
        }
        let jc = match &self.created {
            Some(s) => Some(Json::Text(s.clone())),
            None => None,
        };
        let Ghost(fs1) = push_field(&mut out, Ghost(fs0), "created".to_owned(), jc);
        let ja = match &self.author {
            Some(s) => Some(Json::Text(s.clone())),
            None => None,
        };
        let Ghost(fs2) = push_field(&mut out, Ghost(fs1), "author".to_owned(), ja);
        let Ghost(fs3) = push_field(
            &mut out,
            Ghost(fs2),
            "architecture".to_owned(),
            Some(Json::Text(self.architecture.clone())),
        );
        let Ghost(fs4) = push_field(
            &mut out,
            Ghost(fs3),
            "os".to_owned(),
            Some(Json::Text(self.os.clone())),
        );
        let jov = match &self.os_version {
            Some(s) => Some(Json::Text(s.clone())),
            None => None,
        };
        let Ghost(fs5) = push_field(&mut out, Ghost(fs4), "os.version".to_owned(), jov);
        let jof = match &self.os_features {
            Some(t) => Some(encode_text_list(t)),
            None => None,
        };
        let Ghost(fs6) = push_field(&mut out, Ghost(fs5), "os.features".to_owned(), jof);
        let jv = match &self.variant {
            Some(s) => Some(Json::Text(s.clone())),
            None => None,
        };
        let Ghost(fs7) = push_field(&mut out, Ghost(fs6), "variant".to_owned(), jv);
        let jf = match &self.config {
            Some(c) => Some(c.to_tree()),
            None => None,
        };
        let Ghost(fs8) = push_field(&mut out, Ghost(fs7), "config".to_owned(), jf);
        let jr = match &self.rootfs {
            Some(f) => Some(f.to_tree()),
            None => None,
        };
        let Ghost(fs9) = push_field(&mut out, Ghost(fs8), "rootfs".to_owned(), jr);
        let jh = match &self.history {
            Some(hs) => Some(encode_history_list(hs)),
            None => None,
        };
        let Ghost(fs10) = push_field(&mut out, Ghost(fs9), "history".to_owned(), jh);
        proof {
            assert(fs10 =~= base_fields(self@));
            assert(entries_view(out@) == fields_entries(base_fields(self@)));
        }
        Json::Obj(out)
    }

    /// The base layer's reading of a whole payload tree.  A missing or
    /// mistyped required field, or a mistyped optional one, is a base-schema
    /// error; unknown fields are ignored.
    pub fn from_tree(t: &Json) -> (r: ParsleyResult<OciImageConfiguration>)
        ensures
            match r {
                Ok(v) => base_of_tree(t@) == Some(v@),
                Err(e) => base_of_tree(t@) is None && e is BaseSchemaInvalid,
            },
    {
        proof {
            lemma_jview_variant(*t);
        }
        let entries = match t {
            Json::Obj(m) => m,
            _ => {
                return Err(
                    ParsleyError::BaseSchemaInvalid(
                        "an image configuration must be a JSON object".to_owned(),
                    ),
                );
            },
        };
        let created = match get_field(entries, &"created".to_owned()) {
            None => None,
            Some(j) => match decode_text(j) {
                Some(s) => Some(s),
                None => {
                    return Err(
                        ParsleyError::BaseSchemaInvalid(
                            "field created must be a string".to_owned(),
                        ),
                    );
                },
            },
        };
        let author = match get_field(entries, &"author".to_owned()) {
            None => None,
            Some(j) => match decode_text(j) {
                Some(s) => Some(s),
                None => {
                    return Err(
                        ParsleyError::BaseSchemaInvalid(
                            "field author must be a string".to_owned(),
                        ),
                    );
                },
            },
        };
        let architecture = match get_field(entries, &"architecture".to_owned()) {
            None => {
                return Err(
                    ParsleyError::BaseSchemaInvalid(
                        "field architecture is required".to_owned(),
                    ),
                );
            },
            Some(j) => match decode_text(j) {
                Some(s) => s,
                None => {
                    return Err(
                        ParsleyError::BaseSchemaInvalid(
                            "field architecture must be a string".to_owned(),
                        ),
                    );
                },
            },
        };
        let os = match get_field(entries, &"os".to_owned()) {
            None => {
                return Err(ParsleyError::BaseSchemaInvalid("field os is required".to_owned()));
            },
            Some(j) => match decode_text(j) {
                Some(s) => s,
                None => {
                    return Err(
                        ParsleyError::BaseSchemaInvalid("field os must be a string".to_owned()),
                    );
                },
            },
        };
        let os_version = match get_field(entries, &"os.version".to_owned()) {
            None => None,
            Some(j) => match decode_text(j) {
                Some(s) => Some(s),
                None => {
                    return Err(
                        ParsleyError::BaseSchemaInvalid(
                            "field os.version must be a string".to_owned(),
                        ),
                    );
                },
            },
        };
        let os_features = match get_field(entries, &"os.features".to_owned()) {
            None => None,
            Some(j) => match decode_text_list(j) {
                Some(t) => Some(t),
                None => {
                    return Err(
                        ParsleyError::BaseSchemaInvalid(
                            "field os.features must be an array of strings".to_owned(),
                        ),
                    );
                },
            },
        };
        let variant = match get_field(entries, &"variant".to_owned()) {
            None => None,
            Some(j) => match decode_text(j) {
                Some(s) => Some(s),
                None => {
                    return Err(
                        ParsleyError::BaseSchemaInvalid(
                            "field variant must be a string".to_owned(),
                        ),
                    );
                },
            },
        };
        let config = match get_field(entries, &"config".to_owned()) {
            None => None,
            Some(j) => {
                proof {
                    lemma_jview_variant(*j);
                }
                match j {
                    Json::Obj(cm) => match OciConfig::from_entries(cm) {
                        Ok(c) => Some(c),
                        Err(e) => {
                            return Err(e);
                        },
                    },
                    _ => {
                        return Err(
                            ParsleyError::BaseSchemaInvalid(
                                "field config must be a JSON object".to_owned(),
                            ),
                        );
                    },
                }
            },
        };
        let rootfs = match get_field(entries, &"rootfs".to_owned()) {
            None => None,
            Some(j) => match RootFs::from_tree(j) {
                Ok(f) => Some(f),
                Err(e) => {
                    return Err(e);
                },
            },
        };
        let history = match get_field(entries, &"history".to_owned()) {
            None => None,
            Some(j) => {
                proof {
                    lemma_jview_variant(*j);
                }
                match j {
                    Json::Arr(_) => match decode_history_list(j) {
                        Ok(hs) => Some(hs),
                        Err(e) => {
                            return Err(e);
                        },
                    },
                    _ => {
                        return Err(
                            ParsleyError::BaseSchemaInvalid(
                                "field history must be a JSON array".to_owned(),
                            ),
                        );
                    },
                }
            },
        };
        let v = OciImageConfiguration {
            created,
            author,
            architecture,
            os,
            os_version,
            os_features,
            variant,
            config,
            rootfs,
            history,
        };
        proof {
            assert(base_of_tree(t@)->0 =~= v@);
        }
        Ok(v)
    }
}

} // verus!
