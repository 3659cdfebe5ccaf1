//! The repository index: image names mapped to tags, tags mapped to layer
//! digests.
//!
//! This module offers a decode-only surface by design: the index is a plain
//! passthrough structure with no layered-schema logic of its own, so the
//! crate reads it and leaves writing it to its producers.

use vstd::prelude::*;
use vstd::string::StringSliceAdditionalSpecFns;
use crate::error::{ParsleyError, ParsleyResult};
use crate::util::codec::{as_text_map, decode_text_map};
use crate::util::json::{
    entries_view, Json, JsonView, lemma_entries_view_index, lemma_entries_view_len,
    lemma_jview_variant, tree_unique,
};
use crate::util::text::{json_of_bytes, json_of_text, parse_bytes, text_bytes};

verus! {

/// Map from image tag to layer digest.
#[derive(Debug, PartialEq, Eq)]
pub struct Repository(pub Vec<(String, String)>);

/// Mathematical model of [`Repository`]: the tag/digest pairs in order.
impl View for Repository {
    type V = Seq<(Seq<char>, Seq<char>)>;

    open spec fn view(&self) -> Seq<(Seq<char>, Seq<char>)> {
        self.0.deep_view()
    }
}

/// Map from image name to its repository of tags.
#[derive(Debug, PartialEq, Eq)]
pub struct Repositories(pub Vec<(String, Repository)>);

/// The views of a name/repository list.
pub open spec fn repository_pairs_view(s: Seq<(String, Repository)>) -> Seq<
    (Seq<char>, Seq<(Seq<char>, Seq<char>)>),
> {
    s.map_values(|p: (String, Repository)| (p.0@, p.1@))
}

/// Mathematical model of [`Repositories`]: the name/repository pairs in
/// order.
impl View for Repositories {
    type V = Seq<(Seq<char>, Seq<(Seq<char>, Seq<char>)>)>;

    open spec fn view(&self) -> Seq<(Seq<char>, Seq<(Seq<char>, Seq<char>)>)> {
        repository_pairs_view(self.0@)
    }
}

/// The repository map an object's entries decode to: every value must be an
/// object of strings.
pub open spec fn repositories_of_entries(m: Seq<(Seq<char>, JsonView)>) -> Option<
    Seq<(Seq<char>, Seq<(Seq<char>, Seq<char>)>)>,
>
    decreases m.len(),
{
    if m.len() == 0 {
        Some(Seq::empty())
    } else {
        match as_text_map(m[0].1) {
            None => None,
            Some(tags) => match repositories_of_entries(m.drop_first()) {
                None => None,
                Some(t) => Some(seq![(m[0].0, tags)] + t),
            },
        }
    }
}

/// The repository index a whole payload tree decodes to.
pub open spec fn repositories_of_tree(t: JsonView) -> Option<
    Seq<(Seq<char>, Seq<(Seq<char>, Seq<char>)>)>,
> {
    match t {
        JsonView::Obj(m) => repositories_of_entries(m),
        _ => None,
    }
}

/// When every value decodes to the matching tag map, the whole object
/// decodes to that index.
proof fn lemma_repositories_pointwise(
    m: Seq<(Seq<char>, JsonView)>,
    rs: Seq<(Seq<char>, Seq<(Seq<char>, Seq<char>)>)>,
)
    requires
        m.len() == rs.len(),
        forall|j: int|
            0 <= j < m.len() ==> as_text_map((#[trigger] m[j]).1) == Some(rs[j].1) && m[j].0
                == rs[j].0,
    ensures
        repositories_of_entries(m) == Some(rs),
    decreases m.len(),
{
    if m.len() > 0 {
        assert forall|j: int|
            0 <= j < m.drop_first().len() implies as_text_map(
            (#[trigger] m.drop_first()[j]).1,
        ) == Some(rs.drop_first()[j].1) && m.drop_first()[j].0 == rs.drop_first()[j].0 by {
            assert(m.drop_first()[j] == m[j + 1]);
            assert(rs.drop_first()[j] == rs[j + 1]);
        }
        lemma_repositories_pointwise(m.drop_first(), rs.drop_first());
        assert(seq![(m[0].0, rs[0].1)] + rs.drop_first() =~= rs);
    }
}

/// One undecodable value makes the whole object undecodable.
proof fn lemma_repositories_fails(m: Seq<(Seq<char>, JsonView)>, i: int)
    requires
        0 <= i < m.len(),
        as_text_map(m[i].1) is None,
    ensures
        repositories_of_entries(m) is None,
    decreases m.len(),
{
    if m.len() > 0 && as_text_map(m[0].1) is Some {
        assert(m.drop_first()[i - 1] == m[i]);
        lemma_repositories_fails(m.drop_first(), i - 1);
    }
}

impl Repositories {
    /// Read a repository index out of a JSON tree: an object whose values
    /// are objects of strings.
    pub fn from_tree(t: &Json) -> (r: ParsleyResult<Repositories>)
        ensures
            match r {
                Ok(rs) => repositories_of_tree(t@) == Some(rs@),
                Err(e) => repositories_of_tree(t@) is None && e is BaseSchemaInvalid,
            },
    {
        proof {
            lemma_jview_variant(*t);
        }
        let entries = match t {
            Json::Obj(m) => m,
            _ => {
                return Err(
                    ParsleyError::BaseSchemaInvalid(
                        "a repository index must be a JSON object".to_owned(),
                    ),
                );
            },
        };
        let ghost mv = entries_view(entries@);
        proof {
            lemma_entries_view_len(entries@);
        }
        let mut out: Vec<(String, Repository)> = Vec::new();
        let mut i: usize = 0;
        while i < entries.len()
            invariant
                0 <= i <= entries@.len(),
                mv == entries_view(entries@),
                mv.len() == entries@.len(),
                t@ == JsonView::Obj(mv),
                out@.len() == i,
                forall|j: int|
                    0 <= j < i ==> as_text_map((#[trigger] mv[j]).1) == Some(out@[j].1@)
                        && mv[j].0 == out@[j].0@,
            decreases entries@.len() - i,
        {
            proof {
                lemma_entries_view_index(entries@, i as int);
            }
            match decode_text_map(&entries[i].1) {
                Some(tags) => {
                    out.push((entries[i].0.clone(), Repository(tags)));
                },
                None => {
                    proof {
                        lemma_repositories_fails(mv, i as int);
                    }
                    return Err(
                        ParsleyError::BaseSchemaInvalid(
                            "each repository must be an object of strings".to_owned(),
                        ),
                    );
                },
            }
            i = i + 1;
        }
        proof {
            lemma_repositories_pointwise(mv, repository_pairs_view(out@));
        }
        Ok(Repositories(out))
    }

    /// Decode a repository index from JSON text.  The text and its UTF-8
    /// bytes denote the same tree, so this entry point and
    /// [`Self::from_slice`] are equivalent decoders of one payload.
    pub fn from_str(s: &str) -> (r: ParsleyResult<Repositories>)
        ensures
            json_of_bytes(s.spec_bytes()) == json_of_text(s@),
            match r {
                Ok(rs) => json_of_text(s@) matches Some(t) && repositories_of_tree(t) == Some(
                    rs@,
                ) && tree_unique(t),
                Err(e) => {
                    &&& (e is MalformedPayload <==> json_of_text(s@) is None)
                    &&& (e is BaseSchemaInvalid ==> (json_of_text(s@) matches Some(t)
                        && repositories_of_tree(t) is None))
                    &&& (e is MalformedPayload || e is BaseSchemaInvalid)
                },
            },
    {
        match parse_bytes(text_bytes(s)) {
            Ok(t) => Self::from_tree(&t),
            Err(msg) => Err(ParsleyError::MalformedPayload(msg)),
        }
    }

    /// Decode a repository index from JSON bytes.
    pub fn from_slice(v: &[u8]) -> (r: ParsleyResult<Repositories>)
        ensures
            match r {
                Ok(rs) => json_of_bytes(v@) matches Some(t) && repositories_of_tree(t) == Some(
                    rs@,
                ) && tree_unique(t),
                Err(e) => {
                    &&& (e is MalformedPayload <==> json_of_bytes(v@) is None)
                    &&& (e is BaseSchemaInvalid ==> (json_of_bytes(v@) matches Some(t)
                        && repositories_of_tree(t) is None))
                    &&& (e is MalformedPayload || e is BaseSchemaInvalid)
                },
            },
    {
        match parse_bytes(v) {
            Ok(t) => Self::from_tree(&t),
            Err(msg) => Err(ParsleyError::MalformedPayload(msg)),
        }
    }
}

} // verus!
