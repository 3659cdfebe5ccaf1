//! The layered image-configuration codec.
//!
//! One JSON object carries two schema layers at once: the base OCI image
//! configuration and the Docker-specific extension.  Decoding projects the
//! same tree through both layers independently; encoding renders each layer
//! to a tree and merges the extension onto the base, extension fields winning
//! on conflict and extension nulls never erasing base fields.

use vstd::prelude::*;
use vstd::string::StringSliceAdditionalSpecFns;
use crate::error::{ParsleyError, ParsleyResult};
use crate::util::codec::{
    as_bool, as_text_list, as_u16, as_u32, as_u64, decode_bool, decode_text_list, decode_u16,
    decode_u32, decode_u64, fields_entries, key_absent, keys_distinct, lemma_fields_entries_absent,
    lemma_fields_entries_get, lemma_fields_entries_wf, lemma_key_absent_forall,
    lemma_keys_distinct_forall, lemma_text_list_roundtrip, opt_field, push_field, text_list,
};
use crate::util::json::{
    contains_key, depth_le, entries_view, get_entry, get_field, get_raw, index_of_key, Json,
    JsonView, lemma_depth_le_mono, lemma_get_raw_append, lemma_get_raw_update,
    lemma_index_of_key_props, lemma_jview_variant, lemma_merge_entries_disjoint,
    lemma_merge_entries_single_existing, merge, merge_entries, merge_view, num_free, tree_unique,
};
use crate::docker::image::oci::{
    base_fields, base_of_tree, base_tree, base_wf, lemma_base_roundtrip, lemma_oci_config_roundtrip,
    oci_config_fields, oci_config_of, oci_config_tree, OciConfigView, OciImageConfiguration,
    OciImageConfigurationView,
};
use crate::util::text::{json_of_bytes, json_of_text, parse_bytes, render_tree, rendered, text_bytes};

verus! {

/// A non-negative time interval held as a whole number of nanoseconds: the
/// exact precision of the wire encoding, which is an integer nanosecond
/// count.
#[derive(Debug, Clone, Copy, PartialEq, Eq, Structural)]
pub struct DurationNanos {
    pub nanos: u64,
}

impl DurationNanos {
    /// The interval of `n` nanoseconds.
    pub fn from_nanos(n: u64) -> (d: Self)
        ensures
            d.nanos == n,
    {
        DurationNanos { nanos: n }
    }

    /// The interval of `s` whole seconds.
    pub fn from_secs(s: u64) -> (d: Self)
        requires
            s <= 18_446_744_073,
        ensures
            d.nanos == s * 1_000_000_000,
    {
        DurationNanos { nanos: s * 1_000_000_000 }
    }

    /// The interval's length in nanoseconds.
    pub fn as_nanos(&self) -> (n: u64)
        ensures
            n == self.nanos,
    {
        self.nanos
    }
}

/// The nanosecond count of an optional duration.
pub open spec fn dur_view(o: Option<DurationNanos>) -> Option<u64> {
    match o {
        None => None,
        Some(d) => Some(d.nanos),
    }
}

/// Encode an optional duration as its integer nanosecond count.  An absent
/// duration has no representation in the output encoding, so it is an encode
/// error; only decoding tolerates absence.
pub fn serialize_duration(duration: &Option<DurationNanos>) -> (r: ParsleyResult<Json>)
    ensures
        match r {
            Ok(j) => duration matches Some(d) && j@ == JsonView::UInt(d.nanos),
            Err(e) => duration is None && e is UnencodableField,
        },
{
    match duration {
        Some(d) => Ok(Json::UInt(d.nanos)),
        None => Err(
            ParsleyError::UnencodableField("a required duration value is absent".to_owned()),
        ),
    }
}

/// Decode a duration from its integer nanosecond encoding.  Key absence is
/// the caller's concern: this reads a value that is present.
pub fn deserialize_duration(v: &Json) -> (r: ParsleyResult<DurationNanos>)
    ensures
        match r {
            Ok(d) => as_u64(v@) == Some(d.nanos),
            Err(e) => as_u64(v@) is None && e is ExtensionSchemaInvalid,
        },
{
    match decode_u64(v) {
        Some(n) => Ok(DurationNanos { nanos: n }),
        None => Err(
            ParsleyError::ExtensionSchemaInvalid(
                "a duration must be an unsigned integer count of nanoseconds".to_owned(),
            ),
        ),
    }
}

/// Health-check settings of the extension layer.  Every field is optional
/// and an absent field is encoded by omitting its key.
#[derive(Debug, PartialEq, Eq)]
pub struct HealthcheckConfig {
    pub test: Option<Vec<String>>,
    pub interval: Option<DurationNanos>,
    pub timeout: Option<DurationNanos>,
    pub start_interval: Option<DurationNanos>,
    pub retries: Option<u32>,
}

/// Mathematical model of [`HealthcheckConfig`].
#[verifier::ext_equal]
pub struct HealthcheckConfigView {
    pub test: Option<Seq<Seq<char>>>,
    pub interval: Option<u64>,
    pub timeout: Option<u64>,
    pub start_interval: Option<u64>,
    pub retries: Option<u32>,
}

impl View for HealthcheckConfig {
    type V = HealthcheckConfigView;

    open spec fn view(&self) -> HealthcheckConfigView {
        HealthcheckConfigView {
            test: self.test.deep_view(),
            interval: dur_view(self.interval),
            timeout: dur_view(self.timeout),
            start_interval: dur_view(self.start_interval),
            retries: self.retries,
        }
    }
}

/// The fields of an encoded health check, in encoding order.
pub open spec fn healthcheck_fields(h: HealthcheckConfigView) -> Seq<
    (Seq<char>, Option<JsonView>),
> {
    seq![
        ("Test"@, match h.test {
            None => None,
            Some(t) => Some(text_list(t)),
        }),
        ("Interval"@, match h.interval {
            None => None,
            Some(n) => Some(JsonView::UInt(n)),
        }),
        ("Timeout"@, match h.timeout {
            None => None,
            Some(n) => Some(JsonView::UInt(n)),
        }),
        ("StartInterval"@, match h.start_interval {
            None => None,
            Some(n) => Some(JsonView::UInt(n)),
        }),
        ("Retries"@, match h.retries {
            None => None,
            Some(n) => Some(JsonView::UInt(n as u64)),
        }),
    ]
}

/// The tree an encoded health check renders to.
pub open spec fn healthcheck_tree(h: HealthcheckConfigView) -> JsonView {
    JsonView::Obj(fields_entries(healthcheck_fields(h)))
}

/// The health check a tree decodes to, when every present field is well
/// typed.
pub open spec fn healthcheck_of(v: JsonView) -> Option<HealthcheckConfigView> {
    match v {
        JsonView::Obj(m) => {
            let test = opt_field(m, "Test"@, |x: JsonView| as_text_list(x));
            let interval = opt_field(m, "Interval"@, |x: JsonView| as_u64(x));
            let timeout = opt_field(m, "Timeout"@, |x: JsonView| as_u64(x));
            let start_interval = opt_field(m, "StartInterval"@, |x: JsonView| as_u64(x));
            let retries = opt_field(m, "Retries"@, |x: JsonView| as_u32(x));
            if test is Some && interval is Some && timeout is Some && start_interval is Some
                && retries is Some {
                Some(
                    HealthcheckConfigView {
                        test: test->0,
                        interval: interval->0,
                        timeout: timeout->0,
                        start_interval: start_interval->0,
                        retries: retries->0,
                    },
                )
            } else {
                None
            }
        },
        _ => None,
    }
}

/// Decoding an encoded health check gives it back, and its tree binds
/// pairwise-distinct keys.
pub proof fn lemma_healthcheck_roundtrip(h: HealthcheckConfigView)
    ensures
        healthcheck_of(healthcheck_tree(h)) == Some(h),
        tree_unique(healthcheck_tree(h)),
        depth_le(healthcheck_tree(h), 3),
        num_free(healthcheck_tree(h)),
{
    reveal_strlit("Test");
    reveal_strlit("Interval");
    reveal_strlit("Timeout");
    reveal_strlit("StartInterval");
    reveal_strlit("Retries");
    let fs = healthcheck_fields(h);
    let m = fields_entries(fs);
    assert(("Timeout"@)[0] == 'T' && ("Retries"@)[0] == 'R');
    assert(fs.len() == 5);
    assert(fs[0].0 == "Test"@);
    assert(fs.drop_first()[0].0 == "Interval"@);
    assert(fs.drop_first().drop_first()[0].0 == "Timeout"@);
    assert(fs.drop_first().drop_first().drop_first()[0].0 == "StartInterval"@);
    assert(fs.drop_first().drop_first().drop_first().drop_first()[0].0 == "Retries"@);
    assert(keys_distinct(fs)) by {
        reveal_with_fuel(keys_distinct, 7);
        reveal_with_fuel(key_absent, 7);
    }
    lemma_keys_distinct_forall(fs);
    assert forall|i: int| 0 <= i < fs.len() implies get_raw(m, fs[i].0) == fs[i].1 by {
        lemma_fields_entries_get(fs, i);
    }
    if h.test is Some {
        lemma_text_list_roundtrip(h.test->0);
    }
    assert(healthcheck_of(healthcheck_tree(h))->0 =~= h);
    lemma_fields_entries_wf(fs);
    assert forall|a: int| 0 <= a < m.len() implies tree_unique((#[trigger] m[a]).1) && depth_le(
        (#[trigger] m[a]).1,
        2,
    ) && num_free((#[trigger] m[a]).1) by {
        let i = choose|i: int| 0 <= i < fs.len() && fs[i].1 == Some(m[a].1) && fs[i].0 == m[a].0;
        if i == 0 {
            lemma_text_list_roundtrip(h.test->0);
        } else {
            assert(m[a].1 is UInt);
        }
    }
}

impl HealthcheckConfig {
    /// Render this health check as a JSON object, absent fields omitted.
    pub fn to_tree(&self) -> (r: Json)
        ensures
            r@ == healthcheck_tree(self@),
    {
        let mut out: Vec<(String, Json)> = Vec::new();
        let ghost fs0: Seq<(Seq<char>, Option<JsonView>)> = Seq::empty();
        proof {
            assert(entries_view(out@) =~= fields_entries(fs0));
        }
        let jt = match &self.test {
            Some(t) => Some(crate::util::codec::encode_text_list(t)),
            None => None,
        };
        let Ghost(fs1) = push_field(&mut out, Ghost(fs0), "Test".to_owned(), jt);
        let ji = match &self.interval {
            Some(d) => Some(Json::UInt(d.nanos)),
            None => None,
        };
        let Ghost(fs2) = push_field(&mut out, Ghost(fs1), "Interval".to_owned(), ji);
        let jo = match &self.timeout {
            Some(d) => Some(Json::UInt(d.nanos)),
            None => None,
        };
        let Ghost(fs3) = push_field(&mut out, Ghost(fs2), "Timeout".to_owned(), jo);
        let js = match &self.start_interval {
            Some(d) => Some(Json::UInt(d.nanos)),
            None => None,
        };
        let Ghost(fs4) = push_field(&mut out, Ghost(fs3), "StartInterval".to_owned(), js);
        let jr = match &self.retries {
            Some(n) => Some(Json::UInt(*n as u64)),
            None => None,
        };
        let Ghost(fs5) = push_field(&mut out, Ghost(fs4), "Retries".to_owned(), jr);
        proof {
            assert(fs5 =~= healthcheck_fields(self@));
            assert(entries_view(out@) == fields_entries(healthcheck_fields(self@)));
        }
        Json::Obj(out)
    }

    /// Read a health check out of a JSON tree.  A missing key yields an
    /// absent field; a present but ill-typed field is an extension-schema
    /// error.
    pub fn from_tree(v: &Json) -> (r: ParsleyResult<HealthcheckConfig>)
        ensures
            match r {
                Ok(h) => healthcheck_of(v@) == Some(h@),
                Err(e) => healthcheck_of(v@) is None && e is ExtensionSchemaInvalid,
            },
    {
        proof {
            lemma_jview_variant(*v);
        }
        let entries = match v {
            Json::Obj(m) => m,
            _ => {
                return Err(
                    ParsleyError::ExtensionSchemaInvalid(
                        "a health check must be a JSON object".to_owned(),
                    ),
                );
            },
        };
        let test = match get_field(entries, &"Test".to_owned()) {
            None => None,
            Some(j) => match decode_text_list(j) {
                Some(t) => Some(t),
                None => {
                    return Err(
                        ParsleyError::ExtensionSchemaInvalid(
                            "health-check field Test must be an array of strings".to_owned(),
                        ),
                    );
                },
            },
        };
        let interval = match get_field(entries, &"Interval".to_owned()) {
            None => None,
            Some(j) => match deserialize_duration(j) {
                Ok(d) => Some(d),
                Err(e) => {
                    return Err(e);
                },
            },
        };
        let timeout = match get_field(entries, &"Timeout".to_owned()) {
            None => None,
            Some(j) => match deserialize_duration(j) {
                Ok(d) => Some(d),
                Err(e) => {
                    return Err(e);
                },
            },
        };
        let start_interval = match get_field(entries, &"StartInterval".to_owned()) {
            None => None,
            Some(j) => match deserialize_duration(j) {
                Ok(d) => Some(d),
                Err(e) => {
                    return Err(e);
                },
            },
        };
        let retries = match get_field(entries, &"Retries".to_owned()) {
            None => None,
            Some(j) => match decode_u32(j) {
                Some(n) => Some(n),
                None => {
                    return Err(
                        ParsleyError::ExtensionSchemaInvalid(
                            "health-check field Retries must be an unsigned 32-bit integer"
                                .to_owned(),
                        ),
                    );
                },
            },
        };
        let h = HealthcheckConfig { test, interval, timeout, start_interval, retries };
        proof {
            assert(healthcheck_of(v@)->0 =~= h@);
        }
        Ok(h)
    }
}

/// Extra settings Docker layers into the shared `config` object, beside the
/// base schema's own `config` fields.
#[derive(Debug, PartialEq, Eq)]
pub struct ConfigExtension {
    pub memory: Option<u64>,
    pub memory_swap: Option<u64>,
    pub cpu_shares: Option<u16>,
    pub args_escaped: bool,
    pub health_check: Option<HealthcheckConfig>,
    pub on_build: Option<Vec<String>>,
    pub shell: Option<Vec<String>>,
}

/// Mathematical model of [`ConfigExtension`].
#[verifier::ext_equal]
pub struct ConfigExtensionView {
    pub memory: Option<u64>,
    pub memory_swap: Option<u64>,
    pub cpu_shares: Option<u16>,
    pub args_escaped: bool,
    pub health_check: Option<HealthcheckConfigView>,
    pub on_build: Option<Seq<Seq<char>>>,
    pub shell: Option<Seq<Seq<char>>>,
}

impl View for ConfigExtension {
    type V = ConfigExtensionView;

    open spec fn view(&self) -> ConfigExtensionView {
        ConfigExtensionView {
            memory: self.memory,
            memory_swap: self.memory_swap,
            cpu_shares: self.cpu_shares,
            args_escaped: self.args_escaped,
            health_check: match self.health_check {
                None => None,
                Some(h) => Some(h@),
            },
            on_build: self.on_build.deep_view(),
            shell: self.shell.deep_view(),
        }
    }
}

/// The fields the extension contributes to the shared `config` object.
/// `ArgsEscaped` is a plain boolean, not an optional one, so it is always
/// written.
pub open spec fn config_extension_fields(c: ConfigExtensionView) -> Seq<
    (Seq<char>, Option<JsonView>),
> {
    seq![
        ("Memory"@, match c.memory {
            None => None,
            Some(n) => Some(JsonView::UInt(n)),
        }),
        ("MemorySwap"@, match c.memory_swap {
            None => None,
            Some(n) => Some(JsonView::UInt(n)),
        }),
        ("CpuShares"@, match c.cpu_shares {
            None => None,
            Some(n) => Some(JsonView::UInt(n as u64)),
        }),
        ("ArgsEscaped"@, Some(JsonView::Bool(c.args_escaped))),
        ("Healthcheck"@, match c.health_check {
            None => None,
            Some(h) => Some(healthcheck_tree(h)),
        }),
        ("OnBuild"@, match c.on_build {
            None => None,
            Some(t) => Some(text_list(t)),
        }),
        ("Shell"@, match c.shell {
            None => None,
            Some(t) => Some(text_list(t)),
        }),
    ]
}

/// The tree the extension's `config` contribution renders to.
pub open spec fn config_extension_tree(c: ConfigExtensionView) -> JsonView {
    JsonView::Obj(fields_entries(config_extension_fields(c)))
}

/// Whether the shared `config` object holds at least one extension-specific
/// key.  Only then does the extension layer count as present: a payload
/// without extension keys must decode to a logically absent extension, so
/// that re-encoding adds nothing.
pub open spec fn extension_keys_present(m: Seq<(Seq<char>, JsonView)>) -> bool {
    ||| get_entry(m, "Memory"@) is Some
    ||| get_entry(m, "MemorySwap"@) is Some
    ||| get_entry(m, "CpuShares"@) is Some
    ||| get_entry(m, "ArgsEscaped"@) is Some
    ||| get_entry(m, "Healthcheck"@) is Some
    ||| get_entry(m, "OnBuild"@) is Some
    ||| get_entry(m, "Shell"@) is Some
}

/// The extension's reading of the shared `config` object: `Some(None)` when
/// no extension key is present, `Some(Some(..))` when present and well
/// typed, `None` when an extension field is present but ill typed.
pub open spec fn config_extension_of(m: Seq<(Seq<char>, JsonView)>) -> Option<
    Option<ConfigExtensionView>,
> {
    if !extension_keys_present(m) {
        Some(None)
    } else {
        let memory = opt_field(m, "Memory"@, |x: JsonView| as_u64(x));
        let memory_swap = opt_field(m, "MemorySwap"@, |x: JsonView| as_u64(x));
        let cpu_shares = opt_field(m, "CpuShares"@, |x: JsonView| as_u16(x));
        let args_escaped = match get_entry(m, "ArgsEscaped"@) {
            None => Some(false),
            Some(v) => as_bool(v),
        };
        let health_check = opt_field(m, "Healthcheck"@, |x: JsonView| healthcheck_of(x));
        let on_build = opt_field(m, "OnBuild"@, |x: JsonView| as_text_list(x));
        let shell = opt_field(m, "Shell"@, |x: JsonView| as_text_list(x));
        if memory is Some && memory_swap is Some && cpu_shares is Some && args_escaped is Some
            && health_check is Some && on_build is Some && shell is Some {
            Some(
                Some(
                    ConfigExtensionView {
                        memory: memory->0,
                        memory_swap: memory_swap->0,
                        cpu_shares: cpu_shares->0,
                        args_escaped: args_escaped->0,
                        health_check: health_check->0,
                        on_build: on_build->0,
                        shell: shell->0,
                    },
                ),
            )
        } else {
            None
        }
    }
}

/// Decoding the extension's encoded `config` contribution gives it back
/// (the always-written `ArgsEscaped` key marks the extension as present),
/// and the contribution binds pairwise-distinct keys and non-null values.
pub proof fn lemma_config_extension_roundtrip(c: ConfigExtensionView)
    ensures
        config_extension_of(fields_entries(config_extension_fields(c))) == Some(Some(c)),
        tree_unique(config_extension_tree(c)),
        depth_le(config_extension_tree(c), 4),
        num_free(config_extension_tree(c)),
        keys_distinct(config_extension_fields(c)),
{
    reveal_strlit("Memory");
    reveal_strlit("MemorySwap");
    reveal_strlit("CpuShares");
    reveal_strlit("ArgsEscaped");
    reveal_strlit("Healthcheck");
    reveal_strlit("OnBuild");
    reveal_strlit("Shell");
    let fs = config_extension_fields(c);
    let m = fields_entries(fs);
    assert(("ArgsEscaped"@)[0] == 'A' && ("Healthcheck"@)[0] == 'H');
    assert(fs.len() == 7);
    assert(fs[0].0 == "Memory"@);
    assert(fs.drop_first()[0].0 == "MemorySwap"@);
    assert(fs.drop_first().drop_first()[0].0 == "CpuShares"@);
    assert(fs.drop_first().drop_first().drop_first()[0].0 == "ArgsEscaped"@);
    assert(fs.drop_first().drop_first().drop_first().drop_first()[0].0 == "Healthcheck"@);
    assert(fs.drop_first().drop_first().drop_first().drop_first().drop_first()[0].0 == "OnBuild"@);
    assert(fs.drop_first().drop_first().drop_first().drop_first().drop_first().drop_first()[0].0
        == "Shell"@);
    assert(keys_distinct(fs)) by {
        reveal_with_fuel(keys_distinct, 9);
        reveal_with_fuel(key_absent, 9);
    }
    lemma_keys_distinct_forall(fs);
    assert forall|i: int| 0 <= i < fs.len() implies get_raw(m, fs[i].0) == fs[i].1 by {
        lemma_fields_entries_get(fs, i);
    }
    if c.health_check is Some {
        lemma_healthcheck_roundtrip(c.health_check->0);
    }
    if c.on_build is Some {
        lemma_text_list_roundtrip(c.on_build->0);
    }
    if c.shell is Some {
        lemma_text_list_roundtrip(c.shell->0);
    }
    assert(get_entry(m, "ArgsEscaped"@) is Some);
    assert(extension_keys_present(m));
    assert(config_extension_of(m)->0->0 =~= c);
    lemma_fields_entries_wf(fs);
    assert forall|a: int| 0 <= a < m.len() implies tree_unique((#[trigger] m[a]).1) && depth_le(
        (#[trigger] m[a]).1,
        3,
    ) && num_free((#[trigger] m[a]).1) by {
        let i = choose|i: int| 0 <= i < fs.len() && fs[i].1 == Some(m[a].1) && fs[i].0 == m[a].0;
        if i == 4 {
            lemma_healthcheck_subtree_unique(c);
        } else if i == 5 {
            lemma_text_list_roundtrip(c.on_build->0);
            lemma_depth_le_mono(m[a].1, 2, 3);
        } else if i == 6 {
            lemma_text_list_roundtrip(c.shell->0);
            lemma_depth_le_mono(m[a].1, 2, 3);
        } else {
            assert(m[a].1 is UInt || m[a].1 is Bool);
        }
    }
}

/// The health-check subtree of an encoded extension binds distinct keys and
/// nests within three levels.
proof fn lemma_healthcheck_subtree_unique(c: ConfigExtensionView)
    requires
        c.health_check is Some,
    ensures
        tree_unique(healthcheck_tree(c.health_check->0)),
        depth_le(healthcheck_tree(c.health_check->0), 3),
        num_free(healthcheck_tree(c.health_check->0)),
{
    lemma_healthcheck_roundtrip(c.health_check->0);
}

impl ConfigExtension {
    /// Render the extension's `config` contribution as a JSON object.
    #[verifier::rlimit(50)]
    pub fn to_tree(&self) -> (r: Json)
        ensures
            r@ == config_extension_tree(self@),
    {
        let mut out: Vec<(String, Json)> = Vec::new();
        let ghost fs0: Seq<(Seq<char>, Option<JsonView>)> = Seq::empty();
        proof {
            assert(entries_view(out@) =~= fields_entries(fs0));
        }
        let jm = match &self.memory {
            Some(n) => Some(Json::UInt(*n)),
            None => None,
        };
        let Ghost(fs1) = push_field(&mut out, Ghost(fs0), "Memory".to_owned(), jm);
        let jw = match &self.memory_swap {
            Some(n) => Some(Json::UInt(*n)),
            None => None,
        };
        let Ghost(fs2) = push_field(&mut out, Ghost(fs1), "MemorySwap".to_owned(), jw);
        let jc = match &self.cpu_shares {
            Some(n) => Some(Json::UInt(*n as u64)),
            None => None,
        };
        let Ghost(fs3) = push_field(&mut out, Ghost(fs2), "CpuShares".to_owned(), jc);
        let Ghost(fs4) = push_field(
            &mut out,
            Ghost(fs3),
            "ArgsEscaped".to_owned(),
            Some(Json::Bool(self.args_escaped)),
        );
        let jh = match &self.health_check {
            Some(h) => Some(h.to_tree()),
            None => None,
        };
        let Ghost(fs5) = push_field(&mut out, Ghost(fs4), "Healthcheck".to_owned(), jh);
        let jo = match &self.on_build {
            Some(t) => Some(crate::util::codec::encode_text_list(t)),
            None => None,
        };
        let Ghost(fs6) = push_field(&mut out, Ghost(fs5), "OnBuild".to_owned(), jo);
        let js = match &self.shell {
            Some(t) => Some(crate::util::codec::encode_text_list(t)),
            None => None,
        };
        let Ghost(fs7) = push_field(&mut out, Ghost(fs6), "Shell".to_owned(), js);
        proof {
            assert(fs7 =~= config_extension_fields(self@));
            assert(entries_view(out@) == fields_entries(config_extension_fields(self@)));
        }
        Json::Obj(out)
    }

    /// The extension's reading of the shared `config` object's entries:
    /// `Ok(None)` when no extension-specific key is present.
    pub fn from_entries(entries: &Vec<(String, Json)>) -> (r: ParsleyResult<
        Option<ConfigExtension>,
    >)
        ensures
            match r {
                Ok(None) => config_extension_of(entries_view(entries@)) == Some(
                    None::<ConfigExtensionView>,
                ),
                Ok(Some(c)) => config_extension_of(entries_view(entries@)) == Some(Some(c@)),
                Err(e) => config_extension_of(entries_view(entries@)) is None
                    && e is ExtensionSchemaInvalid,
            },
    {
        let ghost m = entries_view(entries@);
        let f_memory = get_field(entries, &"Memory".to_owned());
        let f_memory_swap = get_field(entries, &"MemorySwap".to_owned());
        let f_cpu_shares = get_field(entries, &"CpuShares".to_owned());
        let f_args_escaped = get_field(entries, &"ArgsEscaped".to_owned());
        let f_health_check = get_field(entries, &"Healthcheck".to_owned());
        let f_on_build = get_field(entries, &"OnBuild".to_owned());
        let f_shell = get_field(entries, &"Shell".to_owned());
        if f_memory.is_none() && f_memory_swap.is_none() && f_cpu_shares.is_none()
            && f_args_escaped.is_none() && f_health_check.is_none() && f_on_build.is_none()
            && f_shell.is_none() {
            assert(!extension_keys_present(m));
            return Ok(None);
        }
        assert(extension_keys_present(m));
        let memory = match f_memory {
            None => None,
            Some(j) => match decode_u64(j) {
                Some(n) => Some(n),
                None => {
                    return Err(
                        ParsleyError::ExtensionSchemaInvalid(
                            "extension field Memory must be an unsigned 64-bit integer".to_owned(),
                        ),
                    );
                },
            },
        };
        let memory_swap = match f_memory_swap {
            None => None,
            Some(j) => match decode_u64(j) {
                Some(n) => Some(n),
                None => {
                    return Err(
                        ParsleyError::ExtensionSchemaInvalid(
                            "extension field MemorySwap must be an unsigned 64-bit integer"
                                .to_owned(),
                        ),
                    );
                },
            },
        };
        let cpu_shares = match f_cpu_shares {
            None => None,
            Some(j) => match decode_u16(j) {
                Some(n) => Some(n),
                None => {
                    return Err(
                        ParsleyError::ExtensionSchemaInvalid(
                            "extension field CpuShares must be an unsigned 16-bit integer"
                                .to_owned(),
                        ),
                    );
                },
            },
        };
        let args_escaped = match f_args_escaped {
            None => false,
            Some(j) => match decode_bool(j) {
                Some(b) => b,
                None => {
                    return Err(
                        ParsleyError::ExtensionSchemaInvalid(
                            "extension field ArgsEscaped must be a boolean".to_owned(),
                        ),
                    );
                },
            },
        };
        let health_check = match f_health_check {
            None => None,
            Some(j) => match HealthcheckConfig::from_tree(j) {
                Ok(h) => Some(h),
                Err(e) => {
                    return Err(e);
                },
            },
        };
        let on_build = match f_on_build {
            None => None,
            Some(j) => match decode_text_list(j) {
                Some(t) => Some(t),
                None => {
                    return Err(
                        ParsleyError::ExtensionSchemaInvalid(
                            "extension field OnBuild must be an array of strings".to_owned(),
                        ),
                    );
                },
            },
        };
        let shell = match f_shell {
            None => None,
            Some(j) => match decode_text_list(j) {
                Some(t) => Some(t),
                None => {
                    return Err(
                        ParsleyError::ExtensionSchemaInvalid(
                            "extension field Shell must be an array of strings".to_owned(),
                        ),
                    );
                },
            },
        };
        let c = ConfigExtension {
            memory,
            memory_swap,
            cpu_shares,
            args_escaped,
            health_check,
            on_build,
            shell,
        };
        proof {
            assert(config_extension_of(m)->0->0 =~= c@);
        }
        Ok(Some(c))
    }
}

/// The Docker extension layer of an image configuration.  Its single field
/// carries the extension's contribution to the shared `config` object, and
/// is absent when the payload holds no extension-specific key.
#[derive(Debug, PartialEq, Eq)]
pub struct ImageConfigurationExtension {
    pub config: Option<ConfigExtension>,
}

/// Mathematical model of [`ImageConfigurationExtension`].
#[verifier::ext_equal]
pub struct ImageConfigurationExtensionView {
    pub config: Option<ConfigExtensionView>,
}

impl View for ImageConfigurationExtension {
    type V = ImageConfigurationExtensionView;

    open spec fn view(&self) -> ImageConfigurationExtensionView {
        ImageConfigurationExtensionView {
            config: match self.config {
                None => None,
                Some(c) => Some(c@),
            },
        }
    }
}

/// The extension's single top-level field.
pub open spec fn extension_fields(e: ImageConfigurationExtensionView) -> Seq<
    (Seq<char>, Option<JsonView>),
> {
    seq![
        ("config"@, match e.config {
            None => None,
            Some(c) => Some(config_extension_tree(c)),
        }),
    ]
}

/// The overlay tree the extension layer renders to.
pub open spec fn extension_tree(e: ImageConfigurationExtensionView) -> JsonView {
    JsonView::Obj(fields_entries(extension_fields(e)))
}

/// The extension layer's reading of a whole payload tree: `Some(None)` when
/// the payload holds no extension-specific key, `Some(Some(..))` when the
/// extension is present and well typed, `None` when an extension field is
/// present but ill typed.
pub open spec fn extension_of_tree(t: JsonView) -> Option<
    Option<ImageConfigurationExtensionView>,
> {
    match t {
        JsonView::Obj(m) => match get_entry(m, "config"@) {
            None => Some(None),
            Some(JsonView::Obj(cm)) => match config_extension_of(cm) {
                None => None,
                Some(None) => Some(None),
                Some(Some(c)) => Some(
                    Some(ImageConfigurationExtensionView { config: Some(c) }),
                ),
            },
            Some(_) => None,
        },
        _ => None,
    }
}

impl ImageConfigurationExtension {
    /// Render the extension layer as the overlay tree that is merged onto
    /// the base layer's tree.
    pub fn to_tree(&self) -> (r: Json)
        ensures
            r@ == extension_tree(self@),
    {
        let mut out: Vec<(String, Json)> = Vec::new();
        let ghost fs0: Seq<(Seq<char>, Option<JsonView>)> = Seq::empty();
        proof {
            assert(entries_view(out@) =~= fields_entries(fs0));
        }
        let jc = match &self.config {
            Some(c) => Some(c.to_tree()),
            None => None,
        };
        let Ghost(fs1) = push_field(&mut out, Ghost(fs0), "config".to_owned(), jc);
        proof {
            assert(fs1 =~= extension_fields(self@));
            assert(entries_view(out@) == fields_entries(extension_fields(self@)));
        }
        Json::Obj(out)
    }

    /// The extension layer's reading of a whole payload tree.  `Ok(None)`
    /// means the extension is logically absent: the payload held no
    /// extension-specific key.
    pub fn from_tree(t: &Json) -> (r: ParsleyResult<Option<ImageConfigurationExtension>>)
        ensures
            match r {
                Ok(None) => extension_of_tree(t@) == Some(
                    None::<ImageConfigurationExtensionView>,
                ),
                Ok(Some(e)) => extension_of_tree(t@) == Some(Some(e@)),
                Err(e) => extension_of_tree(t@) is None && e is ExtensionSchemaInvalid,
            },
    {
        proof {
            lemma_jview_variant(*t);
        }
        let entries = match t {
            Json::Obj(m) => m,
            _ => {
                return Err(
                    ParsleyError::ExtensionSchemaInvalid(
                        "an image configuration must be a JSON object".to_owned(),
                    ),
                );
            },
        };
        let cfg = match get_field(entries, &"config".to_owned()) {
            None => {
                return Ok(None);
            },
            Some(j) => j,
        };
        proof {
            lemma_jview_variant(*cfg);
        }
        let centries = match cfg {
            Json::Obj(m) => m,
            _ => {
                return Err(
                    ParsleyError::ExtensionSchemaInvalid(
                        "the config field must be a JSON object".to_owned(),
                    ),
                );
            },
        };
        match ConfigExtension::from_entries(centries) {
            Ok(None) => Ok(None),
            Ok(Some(c)) => Ok(Some(ImageConfigurationExtension { config: Some(c) })),
            Err(e) => Err(e),
        }
    }
}

/// A Docker image configuration: one JSON object read through two schema
/// layers at once.  The base part follows the OCI image specification; the
/// extension part is optional and logically absent when the payload holds no
/// extension-specific key.
#[derive(Debug, PartialEq, Eq)]
pub struct ImageConfiguration {
    pub oci_spec: OciImageConfiguration,
    pub docker_oci_extension: Option<ImageConfigurationExtension>,
}

/// Mathematical model of [`ImageConfiguration`].
#[verifier::ext_equal]
pub struct ImageConfigurationView {
    pub oci_spec: OciImageConfigurationView,
    pub docker_oci_extension: Option<ImageConfigurationExtensionView>,
}

impl View for ImageConfiguration {
    type V = ImageConfigurationView;

    open spec fn view(&self) -> ImageConfigurationView {
        ImageConfigurationView {
            oci_spec: self.oci_spec@,
            docker_oci_extension: match self.docker_oci_extension {
                None => None,
                Some(e) => Some(e@),
            },
        }
    }
}

/// The overlay tree of the extension part: an empty object when the
/// extension is absent, so that the merge is a no-op.
pub open spec fn composite_overlay(e: Option<ImageConfigurationExtensionView>) -> JsonView {
    match e {
        None => JsonView::Obj(Seq::empty()),
        Some(x) => extension_tree(x),
    }
}

/// The single merged tree a composite encodes to: the extension tree merged
/// onto the base tree, extension fields winning on conflict.
pub open spec fn composite_tree(c: ImageConfigurationView) -> JsonView {
    merge_view(base_tree(c.oci_spec), composite_overlay(c.docker_oci_extension))
}

/// A composite that encoding can represent faithfully: the base layer's name
/// sets repeat no name, a present extension carries its `config` part (an
/// extension with every field absent is represented as logically absent),
/// and when the extension contributes to the shared `config` object the base
/// layer has a `config` object for it to land in.
pub open spec fn image_configuration_wf(c: ImageConfigurationView) -> bool {
    &&& base_wf(c.oci_spec)
    &&& match c.docker_oci_extension {
        None => true,
        Some(e) => e.config is Some && c.oci_spec.config is Some,
    }
}

/// No extension-specific key occurs among an encoded base `config` object's
/// entries: the two layers claim disjoint keys inside the shared object.
proof fn lemma_ext_keys_absent_from_base_config(bc: OciConfigView)
    ensures
        get_raw(fields_entries(oci_config_fields(bc)), "Memory"@) is None,
        get_raw(fields_entries(oci_config_fields(bc)), "MemorySwap"@) is None,
        get_raw(fields_entries(oci_config_fields(bc)), "CpuShares"@) is None,
        get_raw(fields_entries(oci_config_fields(bc)), "ArgsEscaped"@) is None,
        get_raw(fields_entries(oci_config_fields(bc)), "Healthcheck"@) is None,
        get_raw(fields_entries(oci_config_fields(bc)), "OnBuild"@) is None,
        get_raw(fields_entries(oci_config_fields(bc)), "Shell"@) is None,
{
    reveal_strlit("User");
    reveal_strlit("ExposedPorts");
    reveal_strlit("Env");
    reveal_strlit("Entrypoint");
    reveal_strlit("Cmd");
    reveal_strlit("Volumes");
    reveal_strlit("WorkingDir");
    reveal_strlit("Labels");
    reveal_strlit("StopSignal");
    reveal_strlit("Memory");
    reveal_strlit("MemorySwap");
    reveal_strlit("CpuShares");
    reveal_strlit("ArgsEscaped");
    reveal_strlit("Healthcheck");
    reveal_strlit("OnBuild");
    reveal_strlit("Shell");
    let fs = oci_config_fields(bc);
    assert(("Memory"@)[0] == 'M' && ("Labels"@)[0] == 'L');
    assert(("MemorySwap"@)[0] == 'M' && ("Entrypoint"@)[0] == 'E' && ("WorkingDir"@)[0] == 'W'
        && ("StopSignal"@)[0] == 'S');
    assert(("OnBuild"@)[0] == 'O' && ("Volumes"@)[0] == 'V');
    assert(fs.len() == 9);
    assert(fs[0].0 == "User"@);
    assert(fs.drop_first()[0].0 == "ExposedPorts"@);
    assert(fs.drop_first().drop_first()[0].0 == "Env"@);
    assert(fs.drop_first().drop_first().drop_first()[0].0 == "Entrypoint"@);
    assert(fs.drop_first().drop_first().drop_first().drop_first()[0].0 == "Cmd"@);
    assert(fs.drop_first().drop_first().drop_first().drop_first().drop_first()[0].0 == "Volumes"@);
    assert(fs.drop_first().drop_first().drop_first().drop_first().drop_first().drop_first()[0].0
        == "WorkingDir"@);
    assert(fs.drop_first().drop_first().drop_first().drop_first().drop_first().drop_first().drop_first()[0].0
        == "Labels"@);
    assert(fs.drop_first().drop_first().drop_first().drop_first().drop_first().drop_first().drop_first().drop_first()[0].0
        == "StopSignal"@);
    assert(key_absent("Memory"@, fs)) by {
        reveal_with_fuel(key_absent, 11);
    }
    assert(key_absent("MemorySwap"@, fs)) by {
        reveal_with_fuel(key_absent, 11);
    }
    assert(key_absent("CpuShares"@, fs)) by {
        reveal_with_fuel(key_absent, 11);
    }
    assert(key_absent("ArgsEscaped"@, fs)) by {
        reveal_with_fuel(key_absent, 11);
    }
    assert(key_absent("Healthcheck"@, fs)) by {
        reveal_with_fuel(key_absent, 11);
    }
    assert(key_absent("OnBuild"@, fs)) by {
        reveal_with_fuel(key_absent, 11);
    }
    assert(key_absent("Shell"@, fs)) by {
        reveal_with_fuel(key_absent, 11);
    }
    lemma_key_absent_forall("Memory"@, fs);
    lemma_fields_entries_absent(fs, "Memory"@);
    lemma_key_absent_forall("MemorySwap"@, fs);
    lemma_fields_entries_absent(fs, "MemorySwap"@);
    lemma_key_absent_forall("CpuShares"@, fs);
    lemma_fields_entries_absent(fs, "CpuShares"@);
    lemma_key_absent_forall("ArgsEscaped"@, fs);
    lemma_fields_entries_absent(fs, "ArgsEscaped"@);
    lemma_key_absent_forall("Healthcheck"@, fs);
    lemma_fields_entries_absent(fs, "Healthcheck"@);
    lemma_key_absent_forall("OnBuild"@, fs);
    lemma_fields_entries_absent(fs, "OnBuild"@);
    lemma_key_absent_forall("Shell"@, fs);
    lemma_fields_entries_absent(fs, "Shell"@);
}

/// No base-schema key occurs among the extension's encoded `config` entries.
proof fn lemma_base_keys_absent_from_ext_config(ce: ConfigExtensionView)
    ensures
        get_raw(fields_entries(config_extension_fields(ce)), "User"@) is None,
        get_raw(fields_entries(config_extension_fields(ce)), "ExposedPorts"@) is None,
        get_raw(fields_entries(config_extension_fields(ce)), "Env"@) is None,
        get_raw(fields_entries(config_extension_fields(ce)), "Entrypoint"@) is None,
        get_raw(fields_entries(config_extension_fields(ce)), "Cmd"@) is None,
        get_raw(fields_entries(config_extension_fields(ce)), "Volumes"@) is None,
        get_raw(fields_entries(config_extension_fields(ce)), "WorkingDir"@) is None,
        get_raw(fields_entries(config_extension_fields(ce)), "Labels"@) is None,
        get_raw(fields_entries(config_extension_fields(ce)), "StopSignal"@) is None,
{
    reveal_strlit("User");
    reveal_strlit("ExposedPorts");
    reveal_strlit("Env");
    reveal_strlit("Entrypoint");
    reveal_strlit("Cmd");
    reveal_strlit("Volumes");
    reveal_strlit("WorkingDir");
    reveal_strlit("Labels");
    reveal_strlit("StopSignal");
    reveal_strlit("Memory");
    reveal_strlit("MemorySwap");
    reveal_strlit("CpuShares");
    reveal_strlit("ArgsEscaped");
    reveal_strlit("Healthcheck");
    reveal_strlit("OnBuild");
    reveal_strlit("Shell");
    let fs = config_extension_fields(ce);
    assert(("Memory"@)[0] == 'M' && ("Labels"@)[0] == 'L');
    assert(("MemorySwap"@)[0] == 'M' && ("Entrypoint"@)[0] == 'E' && ("WorkingDir"@)[0] == 'W'
        && ("StopSignal"@)[0] == 'S');
    assert(("OnBuild"@)[0] == 'O' && ("Volumes"@)[0] == 'V');
    assert(fs.len() == 7);
    assert(fs[0].0 == "Memory"@);
    assert(fs.drop_first()[0].0 == "MemorySwap"@);
    assert(fs.drop_first().drop_first()[0].0 == "CpuShares"@);
    assert(fs.drop_first().drop_first().drop_first()[0].0 == "ArgsEscaped"@);
    assert(fs.drop_first().drop_first().drop_first().drop_first()[0].0 == "Healthcheck"@);
    assert(fs.drop_first().drop_first().drop_first().drop_first().drop_first()[0].0 == "OnBuild"@);
    assert(fs.drop_first().drop_first().drop_first().drop_first().drop_first().drop_first()[0].0
        == "Shell"@);
    assert(key_absent("User"@, fs)) by {
        reveal_with_fuel(key_absent, 9);
    }
    assert(key_absent("ExposedPorts"@, fs)) by {
        reveal_with_fuel(key_absent, 9);
    }
    assert(key_absent("Env"@, fs)) by {
        reveal_with_fuel(key_absent, 9);
    }
    assert(key_absent("Entrypoint"@, fs)) by {
        reveal_with_fuel(key_absent, 9);
    }
    assert(key_absent("Cmd"@, fs)) by {
        reveal_with_fuel(key_absent, 9);
    }
    assert(key_absent("Volumes"@, fs)) by {
        reveal_with_fuel(key_absent, 9);
    }
    assert(key_absent("WorkingDir"@, fs)) by {
        reveal_with_fuel(key_absent, 9);
    }
    assert(key_absent("Labels"@, fs)) by {
        reveal_with_fuel(key_absent, 9);
    }
    assert(key_absent("StopSignal"@, fs)) by {
        reveal_with_fuel(key_absent, 9);
    }
    lemma_key_absent_forall("User"@, fs);
    lemma_fields_entries_absent(fs, "User"@);
    lemma_key_absent_forall("ExposedPorts"@, fs);
    lemma_fields_entries_absent(fs, "ExposedPorts"@);
    lemma_key_absent_forall("Env"@, fs);
    lemma_fields_entries_absent(fs, "Env"@);
    lemma_key_absent_forall("Entrypoint"@, fs);
    lemma_fields_entries_absent(fs, "Entrypoint"@);
    lemma_key_absent_forall("Cmd"@, fs);
    lemma_fields_entries_absent(fs, "Cmd"@);
    lemma_key_absent_forall("Volumes"@, fs);
    lemma_fields_entries_absent(fs, "Volumes"@);
    lemma_key_absent_forall("WorkingDir"@, fs);
    lemma_fields_entries_absent(fs, "WorkingDir"@);
    lemma_key_absent_forall("Labels"@, fs);
    lemma_fields_entries_absent(fs, "Labels"@);
    lemma_key_absent_forall("StopSignal"@, fs);
    lemma_fields_entries_absent(fs, "StopSignal"@);
}

/// Round trip of the layered codec at the tree level: decoding the merged
/// tree of any well-formed composite through each schema layer gives back
/// exactly that composite's parts, and the merged tree binds pairwise
/// distinct keys and nests well within the parser's recursion limit, so its
/// rendered text parses back to it.
#[verifier::rlimit(100)]
pub proof fn lemma_image_configuration_roundtrip(c: ImageConfigurationView)
    requires
        image_configuration_wf(c),
    ensures
        base_of_tree(composite_tree(c)) == Some(c.oci_spec),
        extension_of_tree(composite_tree(c)) == Some(c.docker_oci_extension),
        tree_unique(composite_tree(c)),
        depth_le(composite_tree(c), 100),
        num_free(composite_tree(c)),
{
    reveal_strlit("config");
    let bv = c.oci_spec;
    lemma_base_roundtrip(bv);
    let bm = fields_entries(base_fields(bv));
    let bt = base_tree(bv);
    lemma_keys_distinct_forall(base_fields(bv));
    lemma_fields_entries_get(base_fields(bv), 7);
    assert(base_fields(bv)[7].0 == "config"@);
    match c.docker_oci_extension {
        None => {
            assert(merge_entries(bm, Seq::<(Seq<char>, JsonView)>::empty()) == bm);
            assert(composite_tree(c) == bt);
            if bv.config is Some {
                let bc = bv.config->0;
                lemma_ext_keys_absent_from_base_config(bc);
                assert(get_raw(bm, "config"@) == Some(oci_config_tree(bc)));
                assert(!extension_keys_present(fields_entries(oci_config_fields(bc))));
                assert(extension_of_tree(bt) == Some(None::<ImageConfigurationExtensionView>));
            } else {
                assert(get_raw(bm, "config"@) is None);
                assert(extension_of_tree(bt) == Some(None::<ImageConfigurationExtensionView>));
            }
            lemma_depth_le_mono(bt, 4, 100);
        },
        Some(e) => {
            let ce = e.config->0;
            let bc = bv.config->0;
            let bcm = fields_entries(oci_config_fields(bc));
            let cem = fields_entries(config_extension_fields(ce));
            lemma_config_extension_roundtrip(ce);
            lemma_oci_config_roundtrip(bc);
            lemma_ext_keys_absent_from_base_config(bc);
            lemma_base_keys_absent_from_ext_config(ce);
            // The overlay is the single shared field.
            let ov = fields_entries(extension_fields(e));
            assert(ov =~= seq![("config"@, config_extension_tree(ce))]) by {
                reveal_with_fuel(fields_entries, 3);
            }
            assert(get_raw(bm, "config"@) == Some(oci_config_tree(bc)));
            assert(contains_key(bm, "config"@));
            lemma_merge_entries_single_existing(bm, "config"@, config_extension_tree(ce));
            lemma_index_of_key_props(bm, "config"@);
            let idx = index_of_key(bm, "config"@);
            assert(bm[idx].1 == oci_config_tree(bc));
            // Inside the shared object the two layers' keys are disjoint, so
            // the merge is concatenation.
            lemma_keys_distinct_forall(config_extension_fields(ce));
            crate::util::codec::lemma_fields_entries_wf(config_extension_fields(ce));
            assert forall|a: int| 0 <= a < cem.len() implies !contains_key(
                bcm,
                (#[trigger] cem[a]).0,
            ) && cem[a].1 != JsonView::Null by {
                let i = choose|i: int|
                    0 <= i < config_extension_fields(ce).len() && config_extension_fields(ce)[i].1
                        == Some(cem[a].1) && config_extension_fields(ce)[i].0 == cem[a].0;
                if i == 3 {
                    assert(cem[a].1 is Bool);
                } else if i == 4 {
                    assert(cem[a].1 is Obj);
                } else if i == 5 || i == 6 {
                    assert(cem[a].1 is Arr);
                } else {
                    assert(cem[a].1 is UInt);
                }
            }
            lemma_merge_entries_disjoint(bcm, cem);
            let mergedc = JsonView::Obj(bcm + cem);
            assert(merge_view(oci_config_tree(bc), config_extension_tree(ce)) == mergedc);
            let mm = bm.update(idx, (bm[idx].0, mergedc));
            assert(composite_tree(c) == JsonView::Obj(mm));
            // Lookups over the merged entries.
            assert forall|q: Seq<char>| true implies #[trigger] get_raw(mm, q) == if q == "config"@ {
                Some(mergedc)
            } else {
                get_raw(bm, q)
            } by {
                lemma_get_raw_update(bm, idx, mergedc, q);
            }
            // Inside the shared object, each layer still reads its own keys.
            assert forall|q: Seq<char>| true implies #[trigger] get_raw(bcm + cem, q) == match get_raw(
                bcm,
                q,
            ) {
                Some(v) => Some(v),
                None => get_raw(cem, q),
            } by {
                lemma_get_raw_append(bcm, cem, q);
            }
            assert(oci_config_of(bcm + cem) == oci_config_of(bcm)) by {
                assert(get_raw(bcm + cem, "User"@) == get_raw(bcm, "User"@));
                assert(get_raw(bcm + cem, "ExposedPorts"@) == get_raw(bcm, "ExposedPorts"@));
                assert(get_raw(bcm + cem, "Env"@) == get_raw(bcm, "Env"@));
                assert(get_raw(bcm + cem, "Entrypoint"@) == get_raw(bcm, "Entrypoint"@));
                assert(get_raw(bcm + cem, "Cmd"@) == get_raw(bcm, "Cmd"@));
                assert(get_raw(bcm + cem, "Volumes"@) == get_raw(bcm, "Volumes"@));
                assert(get_raw(bcm + cem, "WorkingDir"@) == get_raw(bcm, "WorkingDir"@));
                assert(get_raw(bcm + cem, "Labels"@) == get_raw(bcm, "Labels"@));
                assert(get_raw(bcm + cem, "StopSignal"@) == get_raw(bcm, "StopSignal"@));
            }
            assert(config_extension_of(bcm + cem) == config_extension_of(cem)) by {
                assert(get_raw(bcm + cem, "Memory"@) == get_raw(cem, "Memory"@));
                assert(get_raw(bcm + cem, "MemorySwap"@) == get_raw(cem, "MemorySwap"@));
                assert(get_raw(bcm + cem, "CpuShares"@) == get_raw(cem, "CpuShares"@));
                assert(get_raw(bcm + cem, "ArgsEscaped"@) == get_raw(cem, "ArgsEscaped"@));
                assert(get_raw(bcm + cem, "Healthcheck"@) == get_raw(cem, "Healthcheck"@));
                assert(get_raw(bcm + cem, "OnBuild"@) == get_raw(cem, "OnBuild"@));
                assert(get_raw(bcm + cem, "Shell"@) == get_raw(cem, "Shell"@));
            }
            // The base layer reads the merged tree as before.
            reveal_strlit("created");
            reveal_strlit("author");
            reveal_strlit("architecture");
            reveal_strlit("os");
            reveal_strlit("os.version");
            reveal_strlit("os.features");
            reveal_strlit("variant");
            reveal_strlit("rootfs");
            reveal_strlit("history");
            assert(("created"@)[0] == 'c' && ("variant"@)[0] == 'v' && ("history"@)[0] == 'h');
            assert(("author"@)[0] == 'a' && ("config"@)[0] == 'c' && ("rootfs"@)[0] == 'r');
            assert(("config"@)[1] == 'o' && ("created"@)[1] == 'r');
            assert(get_raw(mm, "created"@) == get_raw(bm, "created"@));
            assert(get_raw(mm, "author"@) == get_raw(bm, "author"@));
            assert(get_raw(mm, "architecture"@) == get_raw(bm, "architecture"@));
            assert(get_raw(mm, "os"@) == get_raw(bm, "os"@));
            assert(get_raw(mm, "os.version"@) == get_raw(bm, "os.version"@));
            assert(get_raw(mm, "os.features"@) == get_raw(bm, "os.features"@));
            assert(get_raw(mm, "variant"@) == get_raw(bm, "variant"@));
            assert(get_raw(mm, "rootfs"@) == get_raw(bm, "rootfs"@));
            assert(get_raw(mm, "history"@) == get_raw(bm, "history"@));
            assert(get_raw(mm, "config"@) == Some(mergedc));
            assert(base_of_tree(JsonView::Obj(mm))->0 =~= bv);
            assert(base_of_tree(composite_tree(c)) == Some(bv));
            // The extension layer reads the merged tree as its own.
            assert(extension_keys_present(bcm + cem));
            assert(config_extension_of(bcm + cem) == Some(Some(ce)));
            assert(extension_of_tree(JsonView::Obj(mm))->0->0 =~= e);
            assert(extension_of_tree(composite_tree(c)) == Some(Some(e)));
            // Distinct keys survive the merge.
            assert(tree_unique(bt));
            assert(tree_unique(config_extension_tree(ce)));
            assert(tree_unique(oci_config_tree(bc)));
            assert forall|a: int, b: int| 0 <= a < b < mm.len() implies (#[trigger] mm[a]).0 != (
            #[trigger] mm[b]).0 by {
                assert(mm[a].0 == bm[a].0 && mm[b].0 == bm[b].0);
            }
            assert forall|a: int, b: int| 0 <= a < b < (bcm + cem).len() implies (#[trigger] (bcm
                + cem)[a]).0 != (#[trigger] (bcm + cem)[b]).0 by {
                if a < bcm.len() && b >= bcm.len() {
                    assert((bcm + cem)[a] == bcm[a]);
                    assert((bcm + cem)[b] == cem[b - bcm.len()]);
                    assert(contains_key(bcm, bcm[a].0)) by {
                        lemma_get_raw_by_first(bcm, a);
                    }
                } else if b < bcm.len() {
                    assert((bcm + cem)[a] == bcm[a] && (bcm + cem)[b] == bcm[b]);
                } else {
                    assert((bcm + cem)[a] == cem[a - bcm.len()] && (bcm + cem)[b] == cem[b
                        - bcm.len()]);
                }
            }
            assert forall|a: int| 0 <= a < (bcm + cem).len() implies tree_unique(
                (#[trigger] (bcm + cem)[a]).1,
            ) by {
                if a < bcm.len() {
                    assert((bcm + cem)[a] == bcm[a]);
                } else {
                    assert((bcm + cem)[a] == cem[a - bcm.len()]);
                }
            }
            assert(tree_unique(mergedc));
            assert forall|a: int| 0 <= a < mm.len() implies tree_unique((#[trigger] mm[a]).1) by {
                if a != idx {
                    assert(mm[a] == bm[a]);
                }
            }
            assert(tree_unique(JsonView::Obj(mm)));
            // The merged tree nests within the renderer's depth bound.
            assert forall|a: int| 0 <= a < (bcm + cem).len() implies depth_le(
                (#[trigger] (bcm + cem)[a]).1,
                3,
            ) by {
                if a < bcm.len() {
                    assert((bcm + cem)[a] == bcm[a]);
                    lemma_depth_le_mono(bcm[a].1, 2, 3);
                } else {
                    assert((bcm + cem)[a] == cem[a - bcm.len()]);
                }
            }
            assert(depth_le(mergedc, 4));
            assert forall|a: int| 0 <= a < mm.len() implies depth_le((#[trigger] mm[a]).1, 4) by {
                if a != idx {
                    assert(mm[a] == bm[a]);
                    lemma_depth_le_mono(bm[a].1, 3, 4);
                }
            }
            assert(depth_le(JsonView::Obj(mm), 5));
            lemma_depth_le_mono(JsonView::Obj(mm), 5, 100);
            assert forall|a: int| 0 <= a < (bcm + cem).len() implies num_free(
                (#[trigger] (bcm + cem)[a]).1,
            ) by {
                if a < bcm.len() {
                    assert((bcm + cem)[a] == bcm[a]);
                } else {
                    assert((bcm + cem)[a] == cem[a - bcm.len()]);
                }
            }
            assert(num_free(mergedc));
            assert forall|a: int| 0 <= a < mm.len() implies num_free((#[trigger] mm[a]).1) by {
                if a != idx {
                    assert(mm[a] == bm[a]);
                }
            }
            assert(num_free(JsonView::Obj(mm)));
        },
    }
}

/// A key that occurs at some position is bound: the first binding exists.
proof fn lemma_get_raw_by_first(m: Seq<(Seq<char>, JsonView)>, i: int)
    requires
        0 <= i < m.len(),
    ensures
        contains_key(m, m[i].0),
    decreases m.len(),
{
    if m.len() > 0 && m[0].0 != m[i].0 {
        assert(m.drop_first()[i - 1] == m[i]);
        lemma_get_raw_by_first(m.drop_first(), i - 1);
    }
}

/// Merging the extension tree of an absent extension changes nothing: the
/// encoded form of a composite without extension is exactly the base tree,
/// and decoding it reports the extension as absent.  No empty extension
/// object is ever written.
pub proof fn lemma_extension_absence_fidelity(c: ImageConfigurationView)
    requires
        image_configuration_wf(c),
        c.docker_oci_extension is None,
    ensures
        composite_tree(c) == base_tree(c.oci_spec),
        extension_of_tree(base_tree(c.oci_spec)) == Some(
            None::<ImageConfigurationExtensionView>,
        ),
        base_of_tree(base_tree(c.oci_spec)) == Some(c.oci_spec),
{
    lemma_image_configuration_roundtrip(c);
    let bm = fields_entries(base_fields(c.oci_spec));
    assert(merge_entries(bm, Seq::<(Seq<char>, JsonView)>::empty()) == bm);
}

impl ImageConfiguration {
    /// Render the composite as its single merged JSON tree: the base tree
    /// with the extension tree merged on, extension fields winning.
    pub fn to_tree(&self) -> (r: Json)
        ensures
            r@ == composite_tree(self@),
    {
        let mut base = self.oci_spec.to_tree();
        let overlay = match &self.docker_oci_extension {
            Some(e) => e.to_tree(),
            None => {
                let empty: Vec<(String, Json)> = Vec::new();
                proof {
                    assert(entries_view(empty@) =~= Seq::<(Seq<char>, JsonView)>::empty());
                }
                Json::Obj(empty)
            },
        };
        merge(&mut base, overlay);
        base
    }

    /// Project one JSON tree through both schema layers: the base layer must
    /// accept it, and the extension layer is read independently from the
    /// same tree.
    pub fn from_tree(t: &Json) -> (r: ParsleyResult<ImageConfiguration>)
        ensures
            match r {
                Ok(c) => base_of_tree(t@) == Some(c@.oci_spec) && extension_of_tree(t@) == Some(
                    c@.docker_oci_extension,
                ),
                Err(e) => {
                    &&& (e is BaseSchemaInvalid || e is ExtensionSchemaInvalid)
                    &&& (e is BaseSchemaInvalid ==> base_of_tree(t@) is None)
                    &&& (e is ExtensionSchemaInvalid ==> base_of_tree(t@) is Some
                        && extension_of_tree(t@) is None)
                },
            },
    {
        let oci_spec = match OciImageConfiguration::from_tree(t) {
            Ok(v) => v,
            Err(e) => {
                return Err(e);
            },
        };
        let docker_oci_extension = match ImageConfigurationExtension::from_tree(t) {
            Ok(e) => e,
            Err(e) => {
                return Err(e);
            },
        };
        Ok(ImageConfiguration { oci_spec, docker_oci_extension })
    }

    /// Decode an image configuration from JSON text.  The text and its
    /// UTF-8 bytes denote the same tree, so this entry point and
    /// [`Self::from_slice`] are equivalent decoders of one payload.
    pub fn from_str(s: &str) -> (r: ParsleyResult<ImageConfiguration>)
        ensures
            json_of_bytes(s.spec_bytes()) == json_of_text(s@),
            match r {
                Ok(c) => json_of_text(s@) matches Some(t) && base_of_tree(t) == Some(c@.oci_spec)
                    && extension_of_tree(t) == Some(c@.docker_oci_extension) && tree_unique(t),
                Err(e) => {
                    &&& (e is MalformedPayload <==> json_of_text(s@) is None)
                    &&& (e is BaseSchemaInvalid ==> (json_of_text(s@) matches Some(t)
                        && base_of_tree(t) is None))
                    &&& (e is ExtensionSchemaInvalid ==> (json_of_text(s@) matches Some(t)
                        && base_of_tree(t) is Some && extension_of_tree(t) is None))
                    &&& (e is MalformedPayload || e is BaseSchemaInvalid
                        || e is ExtensionSchemaInvalid)
                },
            },
    {
        match parse_bytes(text_bytes(s)) {
            Ok(t) => Self::from_tree(&t),
            Err(msg) => Err(ParsleyError::MalformedPayload(msg)),
        }
    }

    /// Decode an image configuration from JSON bytes.
    pub fn from_slice(v: &[u8]) -> (r: ParsleyResult<ImageConfiguration>)
        ensures
            match r {
                Ok(c) => json_of_bytes(v@) matches Some(t) && base_of_tree(t) == Some(c@.oci_spec)
                    && extension_of_tree(t) == Some(c@.docker_oci_extension) && tree_unique(t),
                Err(e) => {
                    &&& (e is MalformedPayload <==> json_of_bytes(v@) is None)
                    &&& (e is BaseSchemaInvalid ==> (json_of_bytes(v@) matches Some(t)
                        && base_of_tree(t) is None))
                    &&& (e is ExtensionSchemaInvalid ==> (json_of_bytes(v@) matches Some(t)
                        && base_of_tree(t) is Some && extension_of_tree(t) is None))
                    &&& (e is MalformedPayload || e is BaseSchemaInvalid
                        || e is ExtensionSchemaInvalid)
                },
            },
    {
        match parse_bytes(v) {
            Ok(t) => Self::from_tree(&t),
            Err(msg) => Err(ParsleyError::MalformedPayload(msg)),
        }
    }

    /// Encode the composite as JSON text: the two layers rendered into one
    /// merged object.  For a well-formed composite the text parses back to
    /// exactly the merged tree, which is what the round-trip law rests on.
    pub fn to_json(&self) -> (r: ParsleyResult<String>)
        ensures
            match r {
                Ok(s) => s@ == rendered(composite_tree(self@)) && (image_configuration_wf(self@)
                    ==> json_of_text(s@) == Some(composite_tree(self@))),
                Err(_) => false,
            },
    {
        let t = self.to_tree();
        proof {
            if image_configuration_wf(self@) {
                lemma_image_configuration_roundtrip(self@);
            }
        }
        Ok(render_tree(&t))
    }
}

} // verus!
