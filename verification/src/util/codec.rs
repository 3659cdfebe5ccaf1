//! Shared building blocks for the schema codecs.
//!
//! A schema object is described as a sequence of fields, each a key paired
//! with an optional encoded value; [`fields_entries`] turns that description
//! into the entry sequence of a JSON object, and the lemmas here say how
//! lookups behave over it.  The typed readers (`as_*`) and their executable
//! counterparts project scalar, list and map values back out of a tree.

use vstd::prelude::*;
use crate::util::json::{
    Json, JsonView, entries_view, arr_view, jview, get_raw, get_entry, tree_unique, depth_le,
    lemma_get_raw_append, lemma_entries_view_len, lemma_entries_view_index, lemma_arr_view_len,
    lemma_arr_view_index, lemma_jview_variant, num_free,
};

verus! {

/// A JSON array of strings.
pub open spec fn text_list(ss: Seq<Seq<char>>) -> JsonView {
    JsonView::Arr(ss.map_values(|s: Seq<char>| JsonView::Text(s)))
}

/// A JSON object mapping string keys to string values.
pub open spec fn text_map(ps: Seq<(Seq<char>, Seq<char>)>) -> JsonView {
    JsonView::Obj(ps.map_values(|p: (Seq<char>, Seq<char>)| (p.0, JsonView::Text(p.1))))
}

/// A JSON object whose keys carry empty objects: the set-of-names form used
/// for exposed ports and volumes.
pub open spec fn key_set(ks: Seq<Seq<char>>) -> JsonView {
    JsonView::Obj(
        ks.map_values(|k: Seq<char>| (k, JsonView::Obj(Seq::<(Seq<char>, JsonView)>::empty()))),
    )
}

/// The entries contributed by one field: none when the value is absent.
pub open spec fn opt_seg(k: Seq<char>, v: Option<JsonView>) -> Seq<(Seq<char>, JsonView)> {
    match v {
        None => Seq::empty(),
        Some(j) => seq![(k, j)],
    }
}

/// The entry sequence of an object described by a field list.
pub open spec fn fields_entries(fs: Seq<(Seq<char>, Option<JsonView>)>) -> Seq<
    (Seq<char>, JsonView),
>
    decreases fs.len(),
{
    if fs.len() == 0 {
        Seq::empty()
    } else {
        opt_seg(fs[0].0, fs[0].1) + fields_entries(fs.drop_first())
    }
}

/// No field of the list binds key `k` (in a form that unfolds field by
/// field over a concrete list).
pub open spec fn key_absent(k: Seq<char>, fs: Seq<(Seq<char>, Option<JsonView>)>) -> bool
    decreases fs.len(),
{
    fs.len() == 0 || (fs[0].0 != k && key_absent(k, fs.drop_first()))
}

/// The field keys are pairwise distinct (in a form that unfolds field by
/// field over a concrete list).
pub open spec fn keys_distinct(fs: Seq<(Seq<char>, Option<JsonView>)>) -> bool
    decreases fs.len(),
{
    fs.len() == 0 || (key_absent(fs[0].0, fs.drop_first()) && keys_distinct(fs.drop_first()))
}

/// The quantified reading of [`key_absent`].
pub proof fn lemma_key_absent_forall(k: Seq<char>, fs: Seq<(Seq<char>, Option<JsonView>)>)
    requires
        key_absent(k, fs),
    ensures
        forall|j: int| 0 <= j < fs.len() ==> (#[trigger] fs[j]).0 != k,
    decreases fs.len(),
{
    if fs.len() > 0 {
        lemma_key_absent_forall(k, fs.drop_first());
        assert forall|j: int| 0 <= j < fs.len() implies (#[trigger] fs[j]).0 != k by {
            if j > 0 {
                assert(fs.drop_first()[j - 1] == fs[j]);
            }
        }
    }
}

/// The quantified reading of [`keys_distinct`].
pub proof fn lemma_keys_distinct_forall(fs: Seq<(Seq<char>, Option<JsonView>)>)
    requires
        keys_distinct(fs),
    ensures
        forall|i: int, j: int| 0 <= i < j < fs.len() ==> (#[trigger] fs[i]).0 != (#[trigger] fs[j]).0,
    decreases fs.len(),
{
    if fs.len() > 0 {
        lemma_key_absent_forall(fs[0].0, fs.drop_first());
        lemma_keys_distinct_forall(fs.drop_first());
        assert forall|i: int, j: int| 0 <= i < j < fs.len() implies (#[trigger] fs[i]).0 != (
        #[trigger] fs[j]).0 by {
            assert(fs.drop_first()[j - 1] == fs[j]);
            if i > 0 {
                assert(fs.drop_first()[i - 1] == fs[i]);
            }
        }
    }
}

/// What a lookup of one field's own key over its segment returns.
pub proof fn lemma_get_raw_opt_seg(k0: Seq<char>, v: Option<JsonView>, k: Seq<char>)
    ensures
        get_raw(opt_seg(k0, v), k) == if k == k0 {
            v
        } else {
            None::<JsonView>
        },
{
    match v {
        None => {},
        Some(j) => {
            assert(seq![(k0, j)].drop_first() =~= Seq::<(Seq<char>, JsonView)>::empty());
            assert(get_raw(Seq::<(Seq<char>, JsonView)>::empty(), k) is None);
        },
    }
}

/// A key bound by no field of the list is absent from the object.
pub proof fn lemma_fields_entries_absent(fs: Seq<(Seq<char>, Option<JsonView>)>, k: Seq<char>)
    requires
        forall|j: int| 0 <= j < fs.len() ==> (#[trigger] fs[j]).0 != k,
    ensures
        get_raw(fields_entries(fs), k) is None,
    decreases fs.len(),
{
    if fs.len() > 0 {
        lemma_get_raw_opt_seg(fs[0].0, fs[0].1, k);
        lemma_fields_entries_absent(fs.drop_first(), k);
        lemma_get_raw_append(opt_seg(fs[0].0, fs[0].1), fields_entries(fs.drop_first()), k);
    }
}

/// A lookup of a field's key returns exactly that field's optional value,
/// provided no other field claims the same key.
pub proof fn lemma_fields_entries_get(fs: Seq<(Seq<char>, Option<JsonView>)>, i: int)
    requires
        0 <= i < fs.len(),
        forall|j: int| 0 <= j < fs.len() && j != i ==> (#[trigger] fs[j]).0 != fs[i].0,
    ensures
        get_raw(fields_entries(fs), fs[i].0) == fs[i].1,
    decreases fs.len(),
{
    let k = fs[i].0;
    lemma_get_raw_opt_seg(fs[0].0, fs[0].1, k);
    lemma_get_raw_append(opt_seg(fs[0].0, fs[0].1), fields_entries(fs.drop_first()), k);
    if i == 0 {
        if fs[0].1 is None {
            assert forall|j: int| 0 <= j < fs.drop_first().len() implies (#[trigger] fs.drop_first()[j]).0
                != k by {
                assert(fs.drop_first()[j] == fs[j + 1]);
            }
            lemma_fields_entries_absent(fs.drop_first(), k);
        }
    } else {
        assert forall|j: int|
            0 <= j < fs.drop_first().len() && j != i - 1 implies (#[trigger] fs.drop_first()[j]).0
            != fs.drop_first()[i - 1].0 by {
            assert(fs.drop_first()[j] == fs[j + 1]);
            assert(fs.drop_first()[i - 1] == fs[i]);
        }
        lemma_fields_entries_get(fs.drop_first(), i - 1);
        assert(fs.drop_first()[i - 1] == fs[i]);
    }
}

/// An object built from pairwise-distinct field keys and non-null values has
/// pairwise-distinct keys itself, and every entry carries some field's value.
pub proof fn lemma_fields_entries_wf(fs: Seq<(Seq<char>, Option<JsonView>)>)
    requires
        forall|i: int, j: int| 0 <= i < j < fs.len() ==> (#[trigger] fs[i]).0 != (#[trigger] fs[j]).0,
    ensures
        forall|a: int|
            0 <= a < fields_entries(fs).len() ==> exists|i: int|
                0 <= i < fs.len() && fs[i].1 == Some((#[trigger] fields_entries(fs)[a]).1) && fs[i].0
                    == fields_entries(fs)[a].0,
        forall|a: int, b: int|
            0 <= a < b < fields_entries(fs).len() ==> (#[trigger] fields_entries(fs)[a]).0 != (
            #[trigger] fields_entries(fs)[b]).0,
    decreases fs.len(),
{
    if fs.len() > 0 {
        let head = opt_seg(fs[0].0, fs[0].1);
        let rest = fs.drop_first();
        assert forall|i: int, j: int| 0 <= i < j < rest.len() implies (#[trigger] rest[i]).0 != (
        #[trigger] rest[j]).0 by {
            assert(rest[i] == fs[i + 1]);
            assert(rest[j] == fs[j + 1]);
        }
        lemma_fields_entries_wf(rest);
        let whole = fields_entries(fs);
        assert(whole == head + fields_entries(rest));
        assert forall|a: int| 0 <= a < whole.len() implies exists|i: int|
            0 <= i < fs.len() && fs[i].1 == Some((#[trigger] whole[a]).1) && fs[i].0 == whole[a].0 by {
            if a < head.len() {
                assert(whole[a] == head[a]);
                assert(fs[0].1 == Some(whole[a].1) && fs[0].0 == whole[a].0);
            } else {
                let ar = a - head.len();
                assert(whole[a] == fields_entries(rest)[ar]);
                let i0 = choose|i0: int|
                    0 <= i0 < rest.len() && rest[i0].1 == Some(fields_entries(rest)[ar].1)
                        && rest[i0].0 == fields_entries(rest)[ar].0;
                assert(rest[i0] == fs[i0 + 1]);
                assert(fs[i0 + 1].1 == Some(whole[a].1) && fs[i0 + 1].0 == whole[a].0);
            }
        }
        assert forall|a: int, b: int| 0 <= a < b < whole.len() implies (#[trigger] whole[a]).0 != (
        #[trigger] whole[b]).0 by {
            if a < head.len() {
                assert(whole[a] == head[a]);
                assert(fs[0].0 == whole[a].0);
                if b >= head.len() {
                    let br = b - head.len();
                    assert(whole[b] == fields_entries(rest)[br]);
                    let i0 = choose|i0: int|
                        0 <= i0 < rest.len() && rest[i0].1 == Some(fields_entries(rest)[br].1)
                            && rest[i0].0 == fields_entries(rest)[br].0;
                    assert(rest[i0] == fs[i0 + 1]);
                    assert(fs[0].0 != fs[i0 + 1].0);
                }
            } else {
                let ar = a - head.len();
                let br = b - head.len();
                assert(whole[a] == fields_entries(rest)[ar]);
                assert(whole[b] == fields_entries(rest)[br]);
            }
        }
    }
}

/// Appending one more field to the description appends its segment to the
/// object's entries.
pub proof fn lemma_fields_entries_snoc(
    fs: Seq<(Seq<char>, Option<JsonView>)>,
    e: (Seq<char>, Option<JsonView>),
)
    ensures
        fields_entries(fs.push(e)) == fields_entries(fs) + opt_seg(e.0, e.1),
    decreases fs.len(),
{
    if fs.len() == 0 {
        assert(fs.push(e)[0] == e);
        assert(fs.push(e).drop_first() =~= Seq::<(Seq<char>, Option<JsonView>)>::empty());
        assert(fields_entries(Seq::<(Seq<char>, Option<JsonView>)>::empty()) =~= Seq::<
            (Seq<char>, JsonView),
        >::empty());
        assert(fields_entries(fs.push(e)) =~= fields_entries(fs) + opt_seg(e.0, e.1));
    } else {
        assert(fs.push(e)[0] == fs[0]);
        assert(fs.push(e).drop_first() =~= fs.drop_first().push(e));
        lemma_fields_entries_snoc(fs.drop_first(), e);
        assert(opt_seg(fs[0].0, fs[0].1) + (fields_entries(fs.drop_first()) + opt_seg(e.0, e.1))
            =~= (opt_seg(fs[0].0, fs[0].1) + fields_entries(fs.drop_first())) + opt_seg(e.0, e.1));
    }
}

/// Append one optional field to an object under construction: nothing when
/// the value is absent, one entry when it is present.  The ghost field list
/// records the object's description so far.
pub(crate) fn push_field(
    out: &mut Vec<(String, Json)>,
    Ghost(fs): Ghost<Seq<(Seq<char>, Option<JsonView>)>>,
    k: String,
    v: Option<Json>,
) -> (res: Ghost<Seq<(Seq<char>, Option<JsonView>)>>)
    requires
        entries_view(old(out)@) == fields_entries(fs),
    ensures
        res@ == fs.push(
            (
                k@,
                match v {
                    None => None,
                    Some(j) => Some(j@),
                },
            ),
        ),
        entries_view(final(out)@) == fields_entries(res@),
{
    let ghost kk = k@;
    let ghost vv: Option<JsonView> = match v {
        None => None,
        Some(ref j) => Some(j@),
    };
    proof {
        lemma_fields_entries_snoc(fs, (kk, vv));
    }
    match v {
        None => {
            proof {
                assert(fields_entries(fs) + opt_seg(kk, vv) =~= fields_entries(fs));
            }
        },
        Some(j) => {
            let ghost e = (k, j);
            let ghost prev = out@;
            out.push((k, j));
            proof {
                crate::util::json::lemma_entries_view_push(prev, e);
                assert(entries_view(out@) =~= fields_entries(fs) + opt_seg(kk, vv));
            }
        },
    }
    Ghost(fs.push((kk, vv)))
}

/// The string carried by a text value.
pub open spec fn as_text(v: JsonView) -> Option<Seq<char>> {
    match v {
        JsonView::Text(s) => Some(s),
        _ => None,
    }
}

/// The integer carried by a numeric value.
pub open spec fn as_u64(v: JsonView) -> Option<u64> {
    match v {
        JsonView::UInt(n) => Some(n),
        _ => None,
    }
}

/// The integer carried by a numeric value, when it fits 32 bits.
pub open spec fn as_u32(v: JsonView) -> Option<u32> {
    match v {
        JsonView::UInt(n) => if n <= u32::MAX {
            Some(n as u32)
        } else {
            None
        },
        _ => None,
    }
}

/// The integer carried by a numeric value, when it fits 16 bits.
pub open spec fn as_u16(v: JsonView) -> Option<u16> {
    match v {
        JsonView::UInt(n) => if n <= u16::MAX {
            Some(n as u16)
        } else {
            None
        },
        _ => None,
    }
}

/// The boolean carried by a boolean value.
pub open spec fn as_bool(v: JsonView) -> Option<bool> {
    match v {
        JsonView::Bool(b) => Some(b),
        _ => None,
    }
}

/// The strings of an array all of whose elements are text.
pub open spec fn as_text_list(v: JsonView) -> Option<Seq<Seq<char>>> {
    match v {
        JsonView::Arr(a) => if forall|i: int| 0 <= i < a.len() ==> (#[trigger] a[i]) is Text {
            Some(a.map_values(|x: JsonView| x->Text_0))
        } else {
            None
        },
        _ => None,
    }
}

/// The key/value pairs of an object all of whose values are text.
pub open spec fn as_text_map(v: JsonView) -> Option<Seq<(Seq<char>, Seq<char>)>> {
    match v {
        JsonView::Obj(m) => if forall|i: int| 0 <= i < m.len() ==> (#[trigger] m[i]).1 is Text {
            Some(m.map_values(|p: (Seq<char>, JsonView)| (p.0, p.1->Text_0)))
        } else {
            None
        },
        _ => None,
    }
}

/// The keys of an object, its values ignored: the set-of-names reading.
pub open spec fn as_key_set(v: JsonView) -> Option<Seq<Seq<char>>> {
    match v {
        JsonView::Obj(m) => Some(m.map_values(|p: (Seq<char>, JsonView)| p.0)),
        _ => None,
    }
}

/// Reading an optional field of an object: absent is fine, a present value
/// must satisfy the typed reader.
pub open spec fn opt_field<A>(
    m: Seq<(Seq<char>, JsonView)>,
    k: Seq<char>,
    f: spec_fn(JsonView) -> Option<A>,
) -> Option<Option<A>> {
    match get_entry(m, k) {
        None => Some(None),
        Some(v) => match f(v) {
            None => None,
            Some(a) => Some(Some(a)),
        },
    }
}

/// Round trip of the string-array form.
pub proof fn lemma_text_list_roundtrip(ss: Seq<Seq<char>>)
    ensures
        as_text_list(text_list(ss)) == Some(ss),
        tree_unique(text_list(ss)),
        depth_le(text_list(ss), 2),
        num_free(text_list(ss)),
{
    let a = ss.map_values(|s: Seq<char>| JsonView::Text(s));
    assert(forall|i: int| 0 <= i < a.len() ==> (#[trigger] a[i]) is Text);
    assert(a.map_values(|x: JsonView| x->Text_0) =~= ss);
    assert forall|i: int| 0 <= i < a.len() implies tree_unique(#[trigger] a[i]) && depth_le(
        #[trigger] a[i],
        1,
    ) && num_free(#[trigger] a[i]) by {
        assert(a[i] is Text);
    }
}

/// Round trip of the string-map form.
pub proof fn lemma_text_map_roundtrip(ps: Seq<(Seq<char>, Seq<char>)>)
    requires
        forall|i: int, j: int| 0 <= i < j < ps.len() ==> (#[trigger] ps[i]).0 != (#[trigger] ps[j]).0,
    ensures
        as_text_map(text_map(ps)) == Some(ps),
        tree_unique(text_map(ps)),
        depth_le(text_map(ps), 2),
        num_free(text_map(ps)),
{
    let m = ps.map_values(|p: (Seq<char>, Seq<char>)| (p.0, JsonView::Text(p.1)));
    assert(forall|i: int| 0 <= i < m.len() ==> (#[trigger] m[i]).1 is Text);
    assert(m.map_values(|p: (Seq<char>, JsonView)| (p.0, p.1->Text_0)) =~= ps);
    assert forall|i: int| 0 <= i < m.len() implies tree_unique((#[trigger] m[i]).1) && depth_le(
        (#[trigger] m[i]).1,
        1,
    ) && num_free((#[trigger] m[i]).1) by {
        assert(m[i].1 is Text);
    }
}

/// Round trip of the set-of-names form.
pub proof fn lemma_key_set_roundtrip(ks: Seq<Seq<char>>)
    requires
        forall|i: int, j: int| 0 <= i < j < ks.len() ==> ks[i] != ks[j],
    ensures
        as_key_set(key_set(ks)) == Some(ks),
        tree_unique(key_set(ks)),
        depth_le(key_set(ks), 2),
        num_free(key_set(ks)),
{
    let m = ks.map_values(
        |k: Seq<char>| (k, JsonView::Obj(Seq::<(Seq<char>, JsonView)>::empty())),
    );
    assert(m.map_values(|p: (Seq<char>, JsonView)| p.0) =~= ks);
    assert forall|i: int| 0 <= i < m.len() implies tree_unique((#[trigger] m[i]).1) && depth_le(
        (#[trigger] m[i]).1,
        1,
    ) && num_free((#[trigger] m[i]).1) by {
        assert(m[i].1 == JsonView::Obj(Seq::<(Seq<char>, JsonView)>::empty()));
        assert(tree_unique(JsonView::Obj(Seq::<(Seq<char>, JsonView)>::empty())));
        assert(depth_le(JsonView::Obj(Seq::<(Seq<char>, JsonView)>::empty()), 1));
        assert(num_free(JsonView::Obj(Seq::<(Seq<char>, JsonView)>::empty())));
    }
}

/// Executable form of [`as_text`], returning an owned string.
pub(crate) fn decode_text(v: &Json) -> (r: Option<String>)
    ensures
        r.deep_view() == as_text(v@),
{
    proof {
        lemma_jview_variant(*v);
    }
    match v {
        Json::Text(s) => Some(s.clone()),
        _ => None,
    }
}

/// Executable form of [`as_u64`].
pub(crate) fn decode_u64(v: &Json) -> (r: Option<u64>)
    ensures
        r == as_u64(v@),
{
    proof {
        lemma_jview_variant(*v);
    }
    match v {
        Json::UInt(n) => Some(*n),
        _ => None,
    }
}

/// Executable form of [`as_u32`].
pub(crate) fn decode_u32(v: &Json) -> (r: Option<u32>)
    ensures
        r == as_u32(v@),
{
    proof {
        lemma_jview_variant(*v);
    }
    match v {
        Json::UInt(n) => if *n <= u32::MAX as u64 {
            Some(*n as u32)
        } else {
            None
        },
        _ => None,
    }
}

/// Executable form of [`as_u16`].
pub(crate) fn decode_u16(v: &Json) -> (r: Option<u16>)
    ensures
        r == as_u16(v@),
{
    proof {
        lemma_jview_variant(*v);
    }
    match v {
        Json::UInt(n) => if *n <= u16::MAX as u64 {
            Some(*n as u16)
        } else {
            None
        },
        _ => None,
    }
}

/// Executable form of [`as_bool`].
pub(crate) fn decode_bool(v: &Json) -> (r: Option<bool>)
    ensures
        r == as_bool(v@),
{
    proof {
        lemma_jview_variant(*v);
    }
    match v {
        Json::Bool(b) => Some(*b),
        _ => None,
    }
}

/// Executable form of [`as_text_list`].
pub(crate) fn decode_text_list(v: &Json) -> (r: Option<Vec<String>>)
    ensures
        match r {
            Some(xs) => as_text_list(v@) == Some(xs.deep_view()),
            None => as_text_list(v@) is None,
        },
{
    proof {
        lemma_jview_variant(*v);
    }
    match v {
        Json::Arr(a) => {
            let ghost av = arr_view(a@);
            proof {
                lemma_arr_view_len(a@);
            }
            let mut out: Vec<String> = Vec::new();
            let mut i: usize = 0;
            while i < a.len()
                invariant
                    0 <= i <= a@.len(),
                    av == arr_view(a@),
                    av.len() == a@.len(),
                    v@ == JsonView::Arr(av),
                    out@.len() == i,
                    forall|j: int|
                        0 <= j < i ==> (#[trigger] av[j]) is Text && out@[j]@ == av[j]->Text_0,
                decreases a@.len() - i,
            {
                proof {
                    lemma_arr_view_index(a@, i as int);
                    lemma_jview_variant(a@[i as int]);
                }
                match &a[i] {
                    Json::Text(s) => {
                        out.push(s.clone());
                    },
                    _ => {
                        proof {
                            assert(!(av[i as int] is Text));
                            assert(exists|j: int|
                                0 <= j < av.len() && !((#[trigger] av[j]) is Text)) by {
                                assert(!(av[i as int] is Text));
                            }
                            assert(v@ == JsonView::Arr(av));
                            assert(as_text_list(v@) is None);
                        }
                        return None;
                    },
                }
                i = i + 1;
            }
            proof {
                assert(forall|j: int| 0 <= j < av.len() ==> (#[trigger] av[j]) is Text);
                assert(out.deep_view() =~= av.map_values(|x: JsonView| x->Text_0));
            }
            Some(out)
        },
        _ => None,
    }
}

/// Executable form of [`as_text_map`], returning owned pairs.
pub(crate) fn decode_text_map(v: &Json) -> (r: Option<Vec<(String, String)>>)
    ensures
        match r {
            Some(ps) => as_text_map(v@) == Some(ps.deep_view()),
            None => as_text_map(v@) is None,
        },
{
    proof {
        lemma_jview_variant(*v);
    }
    match v {
        Json::Obj(m) => {
            let ghost mv = entries_view(m@);
            proof {
                lemma_entries_view_len(m@);
            }
            let mut out: Vec<(String, String)> = Vec::new();
            let mut i: usize = 0;
            while i < m.len()
                invariant
                    0 <= i <= m@.len(),
                    mv == entries_view(m@),
                    mv.len() == m@.len(),
                    v@ == JsonView::Obj(mv),
                    out@.len() == i,
                    forall|j: int|
                        0 <= j < i ==> (#[trigger] mv[j]).1 is Text && out@[j].0@ == mv[j].0
                            && out@[j].1@ == mv[j].1->Text_0,
                decreases m@.len() - i,
            {
                proof {
                    lemma_entries_view_index(m@, i as int);
                    lemma_jview_variant(m@[i as int].1);
                }
                match &m[i].1 {
                    Json::Text(s) => {
                        out.push((m[i].0.clone(), s.clone()));
                    },
                    _ => {
                        proof {
                            assert(!(mv[i as int].1 is Text));
                            assert(exists|j: int|
                                0 <= j < mv.len() && !((#[trigger] mv[j]).1 is Text)) by {
                                assert(!(mv[i as int].1 is Text));
                            }
                            assert(v@ == JsonView::Obj(mv));
                            assert(as_text_map(v@) is None);
                        }
                        return None;
                    },
                }
                i = i + 1;
            }
            proof {
                assert(forall|j: int| 0 <= j < mv.len() ==> (#[trigger] mv[j]).1 is Text);
                assert(out.deep_view() =~= mv.map_values(
                    |p: (Seq<char>, JsonView)| (p.0, p.1->Text_0),
                ));
            }
            Some(out)
        },
        _ => None,
    }
}

/// Executable form of [`as_key_set`], returning the owned key names.
pub(crate) fn decode_key_set(v: &Json) -> (r: Option<Vec<String>>)
    ensures
        match r {
            Some(ks) => as_key_set(v@) == Some(ks.deep_view()),
            None => as_key_set(v@) is None,
        },
{
    proof {
        lemma_jview_variant(*v);
    }
    match v {
        Json::Obj(m) => {
            let ghost mv = entries_view(m@);
            proof {
                lemma_entries_view_len(m@);
            }
            let mut out: Vec<String> = Vec::new();
            let mut i: usize = 0;
            while i < m.len()
                invariant
                    0 <= i <= m@.len(),
                    mv == entries_view(m@),
                    mv.len() == m@.len(),
                    out@.len() == i,
                    forall|j: int| 0 <= j < i ==> out@[j]@ == (#[trigger] mv[j]).0,
                decreases m@.len() - i,
            {
                proof {
                    lemma_entries_view_index(m@, i as int);
                }
                out.push(m[i].0.clone());
                i = i + 1;
            }
            proof {
                assert(out.deep_view() =~= mv.map_values(|p: (Seq<char>, JsonView)| p.0));
            }
            Some(out)
        },
        _ => None,
    }
}

/// Render a string list as a JSON array of text values.
pub(crate) fn encode_text_list(xs: &Vec<String>) -> (r: Json)
    ensures
        r@ == text_list(xs.deep_view()),
{
    let mut out: Vec<Json> = Vec::new();
    let mut i: usize = 0;
    while i < xs.len()
        invariant
            0 <= i <= xs@.len(),
            out@.len() == i,
            forall|j: int| 0 <= j < i ==> jview(#[trigger] out@[j]) == JsonView::Text(xs@[j]@),
        decreases xs@.len() - i,
    {
        out.push(Json::Text(xs[i].clone()));
        i = i + 1;
    }
    proof {
        lemma_arr_view_len(out@);
        assert forall|j: int| 0 <= j < out@.len() implies #[trigger] arr_view(out@)[j]
            == JsonView::Text(xs.deep_view()[j]) by {
            lemma_arr_view_index(out@, j);
        }
        assert(arr_view(out@) =~= xs.deep_view().map_values(|s: Seq<char>| JsonView::Text(s)));
    }
    Json::Arr(out)
}

/// Render string pairs as a JSON object of text values.
pub(crate) fn encode_text_map(ps: &Vec<(String, String)>) -> (r: Json)
    ensures
        r@ == text_map(ps.deep_view()),
{
    let mut out: Vec<(String, Json)> = Vec::new();
    let mut i: usize = 0;
    while i < ps.len()
        invariant
            0 <= i <= ps@.len(),
            out@.len() == i,
            forall|j: int|
                0 <= j < i ==> (#[trigger] out@[j]).0@ == ps@[j].0@ && jview(out@[j].1)
                    == JsonView::Text(ps@[j].1@),
        decreases ps@.len() - i,
    {
        out.push((ps[i].0.clone(), Json::Text(ps[i].1.clone())));
        i = i + 1;
    }
    proof {
        lemma_entries_view_len(out@);
        assert forall|j: int| 0 <= j < out@.len() implies #[trigger] entries_view(out@)[j] == (
        ps.deep_view()[j].0, JsonView::Text(ps.deep_view()[j].1)) by {
            lemma_entries_view_index(out@, j);
        }
        assert(entries_view(out@) =~= ps.deep_view().map_values(
            |p: (Seq<char>, Seq<char>)| (p.0, JsonView::Text(p.1)),
        ));
    }
    Json::Obj(out)
}

/// Render a name list as a JSON object of empty objects.
pub(crate) fn encode_key_set(ks: &Vec<String>) -> (r: Json)
    ensures
        r@ == key_set(ks.deep_view()),
{
    let mut out: Vec<(String, Json)> = Vec::new();
    let mut i: usize = 0;
    while i < ks.len()
        invariant
            0 <= i <= ks@.len(),
            out@.len() == i,
            forall|j: int|
                0 <= j < i ==> (#[trigger] out@[j]).0@ == ks@[j]@ && jview(out@[j].1)
                    == JsonView::Obj(Seq::<(Seq<char>, JsonView)>::empty()),
        decreases ks@.len() - i,
    {
        let entries: Vec<(String, Json)> = Vec::new();
        proof {
            assert(entries_view(entries@) =~= Seq::<(Seq<char>, JsonView)>::empty());
        }
        out.push((ks[i].clone(), Json::Obj(entries)));
        i = i + 1;
    }
    proof {
        lemma_entries_view_len(out@);
        assert forall|j: int| 0 <= j < out@.len() implies #[trigger] entries_view(out@)[j] == (
        ks.deep_view()[j], JsonView::Obj(Seq::<(Seq<char>, JsonView)>::empty())) by {
            lemma_entries_view_index(out@, j);
        }
        assert(entries_view(out@) =~= ks.deep_view().map_values(
            |k: Seq<char>| (k, JsonView::Obj(Seq::<(Seq<char>, JsonView)>::empty())),
        ));
    }
    Json::Obj(out)
}

} // verus!
