//! The image manifest: an array of metadata entries naming the configuration
//! file, the repository tags and the layers of an image.
//!
//! This module offers a decode-only surface by design: the manifest is a
//! plain passthrough structure with no layered-schema logic of its own, so
//! the crate reads it and leaves writing it to its producers.

use vstd::prelude::*;
use vstd::string::StringSliceAdditionalSpecFns;
use crate::error::{ParsleyError, ParsleyResult};
use crate::util::codec::{
    as_text, as_text_list, as_u64, decode_text, decode_text_list, decode_u64, opt_field,
};
use crate::util::json::{
    arr_view, entries_view, get_entry, get_field, Json, JsonView, lemma_arr_view_index,
    lemma_arr_view_len, lemma_entries_view_index, lemma_entries_view_len, lemma_jview_variant,
    tree_unique,
};
use crate::util::text::{json_of_bytes, json_of_text, parse_bytes, text_bytes};

verus! {

/// A content descriptor attached to a layer source: its media type, digest
/// and size in bytes.
#[derive(Debug, PartialEq, Eq)]
pub struct Descriptor {
    pub media_type: String,
    pub digest: String,
    pub size: u64,
}

/// Mathematical model of [`Descriptor`].
#[verifier::ext_equal]
pub struct DescriptorView {
    pub media_type: Seq<char>,
    pub digest: Seq<char>,
    pub size: u64,
}

impl View for Descriptor {
    type V = DescriptorView;

    open spec fn view(&self) -> DescriptorView {
        DescriptorView { media_type: self.media_type@, digest: self.digest@, size: self.size }
    }
}

/// The descriptor a tree decodes to: all three fields are required.
pub open spec fn descriptor_of(v: JsonView) -> Option<DescriptorView> {
    match v {
        JsonView::Obj(m) => {
            let media_type = match get_entry(m, "mediaType"@) {
                None => None,
                Some(x) => as_text(x),
            };
            let digest = match get_entry(m, "digest"@) {
                None => None,
                Some(x) => as_text(x),
            };
            let size = match get_entry(m, "size"@) {
                None => None,
                Some(x) => as_u64(x),
            };
            if media_type is Some && digest is Some && size is Some {
                Some(
                    DescriptorView {
                        media_type: media_type->0,
                        digest: digest->0,
                        size: size->0,
                    },
                )
            } else {
                None
            }
        },
        _ => None,
    }
}

impl Descriptor {
    /// Read a descriptor out of a JSON tree.
    pub fn from_tree(v: &Json) -> (r: ParsleyResult<Descriptor>)
        ensures
            match r {
                Ok(d) => descriptor_of(v@) == Some(d@),
                Err(e) => descriptor_of(v@) is None && e is BaseSchemaInvalid,
            },
    {
        proof {
            lemma_jview_variant(*v);
        }
        let entries = match v {
            Json::Obj(m) => m,
            _ => {
                return Err(
                    ParsleyError::BaseSchemaInvalid(
                        "a descriptor must be a JSON object".to_owned(),
                    ),
                );
            },
        };
        let media_type = match get_field(entries, &"mediaType".to_owned()) {
            None => {
                return Err(
                    ParsleyError::BaseSchemaInvalid(
                        "descriptor field mediaType is required".to_owned(),
                    ),
                );
            },
            Some(j) => match decode_text(j) {
                Some(s) => s,
                None => {
                    return Err(
                        ParsleyError::BaseSchemaInvalid(
                            "descriptor field mediaType must be a string".to_owned(),
                        ),
                    );
                },
            },
        };
        let digest = match get_field(entries, &"digest".to_owned()) {
            None => {
                return Err(
                    ParsleyError::BaseSchemaInvalid(
                        "descriptor field digest is required".to_owned(),
                    ),
                );
            },
            Some(j) => match decode_text(j) {
                Some(s) => s,
                None => {
                    return Err(
                        ParsleyError::BaseSchemaInvalid(
                            "descriptor field digest must be a string".to_owned(),
                        ),
                    );
                },
            },
        };
        let size = match get_field(entries, &"size".to_owned()) {
            None => {
                return Err(
                    ParsleyError::BaseSchemaInvalid(
                        "descriptor field size is required".to_owned(),
                    ),
                );
            },
            Some(j) => match decode_u64(j) {
                Some(n) => n,
                None => {
                    return Err(
                        ParsleyError::BaseSchemaInvalid(
                            "descriptor field size must be an unsigned integer".to_owned(),
                        ),
                    );
                },
            },
        };
        let d = Descriptor { media_type, digest, size };
        proof {
            assert(descriptor_of(v@)->0 =~= d@);
        }
        Ok(d)
    }
}

/// The descriptor map a JSON object decodes to: every value must be a
/// well-formed descriptor.
pub open spec fn descriptor_map_of(m: Seq<(Seq<char>, JsonView)>) -> Option<
    Seq<(Seq<char>, DescriptorView)>,
>
    decreases m.len(),
{
    if m.len() == 0 {
        Some(Seq::empty())
    } else {
        match descriptor_of(m[0].1) {
            None => None,
            Some(d) => match descriptor_map_of(m.drop_first()) {
                None => None,
                Some(t) => Some(seq![(m[0].0, d)] + t),
            },
        }
    }
}

/// When every value decodes to the matching descriptor, the whole object
/// decodes to that map.
proof fn lemma_descriptor_map_pointwise(
    m: Seq<(Seq<char>, JsonView)>,
    ds: Seq<(Seq<char>, DescriptorView)>,
)
    requires
        m.len() == ds.len(),
        forall|j: int|
            0 <= j < m.len() ==> descriptor_of((#[trigger] m[j]).1) == Some(ds[j].1) && m[j].0
                == ds[j].0,
    ensures
        descriptor_map_of(m) == Some(ds),
    decreases m.len(),
{
    if m.len() > 0 {
        assert forall|j: int|
            0 <= j < m.drop_first().len() implies descriptor_of(
            (#[trigger] m.drop_first()[j]).1,
        ) == Some(ds.drop_first()[j].1) && m.drop_first()[j].0 == ds.drop_first()[j].0 by {
            assert(m.drop_first()[j] == m[j + 1]);
            assert(ds.drop_first()[j] == ds[j + 1]);
        }
        lemma_descriptor_map_pointwise(m.drop_first(), ds.drop_first());
        assert(seq![(m[0].0, ds[0].1)] + ds.drop_first() =~= ds);
    }
}

/// One undecodable value makes the whole object undecodable.
proof fn lemma_descriptor_map_fails(m: Seq<(Seq<char>, JsonView)>, i: int)
    requires
        0 <= i < m.len(),
        descriptor_of(m[i].1) is None,
    ensures
        descriptor_map_of(m) is None,
    decreases m.len(),
{
    if m.len() > 0 && descriptor_of(m[0].1) is Some {
        assert(m.drop_first()[i - 1] == m[i]);
        lemma_descriptor_map_fails(m.drop_first(), i - 1);
    }
}

/// The views of a descriptor-map list.
pub open spec fn descriptor_pairs_view(s: Seq<(String, Descriptor)>) -> Seq<
    (Seq<char>, DescriptorView),
> {
    s.map_values(|p: (String, Descriptor)| (p.0@, p.1@))
}

/// Read a descriptor map out of a JSON tree.
pub(crate) fn decode_descriptor_map(v: &Json) -> (r: ParsleyResult<Vec<(String, Descriptor)>>)
    ensures
        match r {
            Ok(ds) => v@ matches JsonView::Obj(m) && descriptor_map_of(m) == Some(
                descriptor_pairs_view(ds@),
            ),
            Err(e) => e is BaseSchemaInvalid && match v@ {
                JsonView::Obj(m) => descriptor_map_of(m) is None,
                _ => true,
            },
        },
{
    proof {
        lemma_jview_variant(*v);
    }
    let entries = match v {
        Json::Obj(m) => m,
        _ => {
            return Err(
                ParsleyError::BaseSchemaInvalid("layer sources must be a JSON object".to_owned()),
            );
        },
    };
    let ghost mv = entries_view(entries@);
    proof {
        lemma_entries_view_len(entries@);
    }
    let mut out: Vec<(String, Descriptor)> = Vec::new();
    let mut i: usize = 0;
    while i < entries.len()
        invariant
            0 <= i <= entries@.len(),
            mv == entries_view(entries@),
            mv.len() == entries@.len(),
            v@ == JsonView::Obj(mv),
            out@.len() == i,
            forall|j: int|
                0 <= j < i ==> descriptor_of((#[trigger] mv[j]).1) == Some(out@[j].1@) && mv[j].0
                    == out@[j].0@,
        decreases entries@.len() - i,
    {
        proof {
            lemma_entries_view_index(entries@, i as int);
        }
        match Descriptor::from_tree(&entries[i].1) {
            Ok(d) => {
                out.push((entries[i].0.clone(), d));
            },
            Err(e) => {
                proof {
                    lemma_descriptor_map_fails(mv, i as int);
                }
                return Err(e);
            },
        }
        i = i + 1;
    }
    proof {
        lemma_descriptor_map_pointwise(mv, descriptor_pairs_view(out@));
    }
    Ok(out)
}

/// One entry of the image manifest: where the configuration file lives, the
/// repository tags, the layers, and optionally the parent image and the
/// layer sources.
#[derive(Debug, PartialEq, Eq)]
pub struct ManifestItem {
    pub config: String,
    pub repo_tags: Vec<String>,
    pub layers: Vec<String>,
    pub parent: Option<String>,
    pub layer_sources: Option<Vec<(String, Descriptor)>>,
}

/// Mathematical model of [`ManifestItem`].
#[verifier::ext_equal]
pub struct ManifestItemView {
    pub config: Seq<char>,
    pub repo_tags: Seq<Seq<char>>,
    pub layers: Seq<Seq<char>>,
    pub parent: Option<Seq<char>>,
    pub layer_sources: Option<Seq<(Seq<char>, DescriptorView)>>,
}

impl View for ManifestItem {
    type V = ManifestItemView;

    open spec fn view(&self) -> ManifestItemView {
        ManifestItemView {
            config: self.config@,
            repo_tags: self.repo_tags.deep_view(),
            layers: self.layers.deep_view(),
            parent: self.parent.deep_view(),
            layer_sources: match self.layer_sources {
                None => None,
                Some(ds) => Some(descriptor_pairs_view(ds@)),
            },
        }
    }
}

/// The manifest item a tree decodes to: `Config`, `RepoTags` and `Layers`
/// are required, `Parent` and `LayerSources` optional.
pub open spec fn manifest_item_of(v: JsonView) -> Option<ManifestItemView> {
    match v {
        JsonView::Obj(m) => {
            let config = match get_entry(m, "Config"@) {
                None => None,
                Some(x) => as_text(x),
            };
            let repo_tags = match get_entry(m, "RepoTags"@) {
                None => None,
                Some(x) => as_text_list(x),
            };
            let layers = match get_entry(m, "Layers"@) {
                None => None,
                Some(x) => as_text_list(x),
            };
            let parent = opt_field(m, "Parent"@, |x: JsonView| as_text(x));
            let layer_sources = match get_entry(m, "LayerSources"@) {
                None => Some(None),
                Some(JsonView::Obj(dm)) => match descriptor_map_of(dm) {
                    None => None,
                    Some(ds) => Some(Some(ds)),
                },
                Some(_) => None,
            };
            if config is Some && repo_tags is Some && layers is Some && parent is Some
                && layer_sources is Some {
                Some(
                    ManifestItemView {
                        config: config->0,
                        repo_tags: repo_tags->0,
                        layers: layers->0,
                        parent: parent->0,
                        layer_sources: layer_sources->0,
                    },
                )
            } else {
                None
            }
        },
        _ => None,
    }
}

impl ManifestItem {
    /// Read one manifest entry out of a JSON tree.
    pub fn from_tree(v: &Json) -> (r: ParsleyResult<ManifestItem>)
        ensures
            match r {
                Ok(item) => manifest_item_of(v@) == Some(item@),
                Err(e) => manifest_item_of(v@) is None && e is BaseSchemaInvalid,
            },
    {
        proof {
            lemma_jview_variant(*v);
        }
        let entries = match v {
            Json::Obj(m) => m,
            _ => {
                return Err(
                    ParsleyError::BaseSchemaInvalid(
                        "a manifest entry must be a JSON object".to_owned(),
                    ),
                );
            },
        };
        let config = match get_field(entries, &"Config".to_owned()) {
            None => {
                return Err(
                    ParsleyError::BaseSchemaInvalid(
                        "manifest field Config is required".to_owned(),
                    ),
                );
            },
            Some(j) => match decode_text(j) {
                Some(s) => s,
                None => {
                    return Err(
                        ParsleyError::BaseSchemaInvalid(
                            "manifest field Config must be a string".to_owned(),
                        ),
                    );
                },
            },
        };
        let repo_tags = match get_field(entries, &"RepoTags".to_owned()) {
            None => {
                return Err(
                    ParsleyError::BaseSchemaInvalid(
                        "manifest field RepoTags is required".to_owned(),
                    ),
                );
            },
            Some(j) => match decode_text_list(j) {
                Some(t) => t,
                None => {
                    return Err(
                        ParsleyError::BaseSchemaInvalid(
                            "manifest field RepoTags must be an array of strings".to_owned(),
                        ),
                    );
                },
            },
        };
        let layers = match get_field(entries, &"Layers".to_owned()) {
            None => {
                return Err(
                    ParsleyError::BaseSchemaInvalid(
                        "manifest field Layers is required".to_owned(),
                    ),
                );
            },
            Some(j) => match decode_text_list(j) {
                Some(t) => t,
                None => {
                    return Err(
                        ParsleyError::BaseSchemaInvalid(
                            "manifest field Layers must be an array of strings".to_owned(),
                        ),
                    );
                },
            },
        };
        let parent = match get_field(entries, &"Parent".to_owned()) {
            None => None,
            Some(j) => match decode_text(j) {
                Some(s) => Some(s),
                None => {
                    return Err(
                        ParsleyError::BaseSchemaInvalid(
                            "manifest field Parent must be a string".to_owned(),
                        ),
                    );
                },
            },
        };
        let layer_sources = match get_field(entries, &"LayerSources".to_owned()) {
            None => None,
            Some(j) => match decode_descriptor_map(j) {
                Ok(ds) => Some(ds),
                Err(e) => {
                    return Err(e);
                },
            },
        };
        let item = ManifestItem { config, repo_tags, layers, parent, layer_sources };
        proof {
            assert(manifest_item_of(v@)->0 =~= item@);
        }
        Ok(item)
    }
}

/// The manifest list a tree sequence decodes to: every element must decode.
pub open spec fn manifest_list_of(a: Seq<JsonView>) -> Option<Seq<ManifestItemView>>
    decreases a.len(),
{
    if a.len() == 0 {
        Some(Seq::empty())
    } else {
        match manifest_item_of(a[0]) {
            None => None,
            Some(item) => match manifest_list_of(a.drop_first()) {
                None => None,
                Some(t) => Some(seq![item] + t),
            },
        }
    }
}

/// When every element decodes to the matching item, the whole array decodes
/// to that list.
proof fn lemma_manifest_list_pointwise(a: Seq<JsonView>, items: Seq<ManifestItemView>)
    requires
        a.len() == items.len(),
        forall|j: int| 0 <= j < a.len() ==> manifest_item_of(#[trigger] a[j]) == Some(items[j]),
    ensures
        manifest_list_of(a) == Some(items),
    decreases a.len(),
{
    if a.len() > 0 {
        assert forall|j: int|
            0 <= j < a.drop_first().len() implies manifest_item_of(
            #[trigger] a.drop_first()[j],
        ) == Some(items.drop_first()[j]) by {
            assert(a.drop_first()[j] == a[j + 1]);
            assert(items.drop_first()[j] == items[j + 1]);
        }
        lemma_manifest_list_pointwise(a.drop_first(), items.drop_first());
        assert(seq![items[0]] + items.drop_first() =~= items);
    }
}

/// One undecodable element makes the whole array undecodable.
proof fn lemma_manifest_list_fails(a: Seq<JsonView>, i: int)
    requires
        0 <= i < a.len(),
        manifest_item_of(a[i]) is None,
    ensures
        manifest_list_of(a) is None,
    decreases a.len(),
{
    if a.len() > 0 && manifest_item_of(a[0]) is Some {
        assert(a.drop_first()[i - 1] == a[i]);
        lemma_manifest_list_fails(a.drop_first(), i - 1);
    }
}

/// The views of a manifest-item list.
pub open spec fn manifest_items_view(s: Seq<ManifestItem>) -> Seq<ManifestItemView> {
    s.map_values(|item: ManifestItem| item@)
}

/// The whole image manifest: a JSON array of metadata entries.
#[derive(Debug, PartialEq, Eq)]
pub struct ImageManifest(pub Vec<ManifestItem>);

/// Mathematical model of [`ImageManifest`]: the item views in order.
impl View for ImageManifest {
    type V = Seq<ManifestItemView>;

    open spec fn view(&self) -> Seq<ManifestItemView> {
        manifest_items_view(self.0@)
    }
}

/// The manifest a whole payload tree decodes to.
pub open spec fn manifest_of_tree(t: JsonView) -> Option<Seq<ManifestItemView>> {
    match t {
        JsonView::Arr(a) => manifest_list_of(a),
        _ => None,
    }
}

impl ImageManifest {
    /// Read a manifest out of a JSON tree: the tree must be an array of
    /// well-formed manifest entries.
    pub fn from_tree(t: &Json) -> (r: ParsleyResult<ImageManifest>)
        ensures
            match r {
                Ok(m) => manifest_of_tree(t@) == Some(m@),
                Err(e) => manifest_of_tree(t@) is None && e is BaseSchemaInvalid,
            },
    {
        proof {
            lemma_jview_variant(*t);
        }
        let items = match t {
            Json::Arr(a) => a,
            _ => {
                return Err(
                    ParsleyError::BaseSchemaInvalid("a manifest must be a JSON array".to_owned()),
                );
            },
        };
        let ghost av = arr_view(items@);
        proof {
            lemma_arr_view_len(items@);
        }
        let mut out: Vec<ManifestItem> = Vec::new();
        let mut i: usize = 0;
        while i < items.len()
            invariant
                0 <= i <= items@.len(),
                av == arr_view(items@),
                av.len() == items@.len(),
                t@ == JsonView::Arr(av),
                out@.len() == i,
                forall|j: int| 0 <= j < i ==> manifest_item_of(#[trigger] av[j]) == Some(out@[j]@),
            decreases items@.len() - i,
        {
            proof {
                lemma_arr_view_index(items@, i as int);
            }
            match ManifestItem::from_tree(&items[i]) {
                Ok(item) => {
                    out.push(item);
                },
                Err(e) => {
                    proof {
                        lemma_manifest_list_fails(av, i as int);
                    }
                    return Err(e);
                },
            }
            i = i + 1;
        }
        proof {
            lemma_manifest_list_pointwise(av, manifest_items_view(out@));
        }
        Ok(ImageManifest(out))
    }

    /// Decode an image manifest from JSON text.  The text and its UTF-8
    /// bytes denote the same tree, so this entry point and
    /// [`Self::from_slice`] are equivalent decoders of one payload.
    pub fn from_str(s: &str) -> (r: ParsleyResult<ImageManifest>)
        ensures
            json_of_bytes(s.spec_bytes()) == json_of_text(s@),
            match r {
                Ok(m) => json_of_text(s@) matches Some(t) && manifest_of_tree(t) == Some(m@)
                    && tree_unique(t),
                Err(e) => {
                    &&& (e is MalformedPayload <==> json_of_text(s@) is None)
                    &&& (e is BaseSchemaInvalid ==> (json_of_text(s@) matches Some(t)
                        && manifest_of_tree(t) is None))
                    &&& (e is MalformedPayload || e is BaseSchemaInvalid)
                },
            },
    {
        match parse_bytes(text_bytes(s)) {
            Ok(t) => Self::from_tree(&t),
            Err(msg) => Err(ParsleyError::MalformedPayload(msg)),
        }
    }

    /// Decode an image manifest from JSON bytes.
    pub fn from_slice(v: &[u8]) -> (r: ParsleyResult<ImageManifest>)
        ensures
            match r {
                Ok(m) => json_of_bytes(v@) matches Some(t) && manifest_of_tree(t) == Some(m@)
                    && tree_unique(t),
                Err(e) => {
                    &&& (e is MalformedPayload <==> json_of_bytes(v@) is None)
                    &&& (e is BaseSchemaInvalid ==> (json_of_bytes(v@) matches Some(t)
                        && manifest_of_tree(t) is None))
                    &&& (e is MalformedPayload || e is BaseSchemaInvalid)
                },
            },
    {
        match parse_bytes(v) {
            Ok(t) => Self::from_tree(&t),
            Err(msg) => Err(ParsleyError::MalformedPayload(msg)),
        }
    }
}

} // verus!
