//! A generic JSON tree value and the recursive, null-aware merge primitive.
//!
//! The tree is the transient form every codec in this crate works on: typed
//! schema values are projected out of a tree on decode and rendered into a
//! tree on encode.  Scalars are booleans, unsigned 64-bit integers and text;
//! a number outside the unsigned 64-bit range is carried opaquely as its
//! decimal token, so any valid payload survives a decode.  Objects are
//! ordered association lists of key/value pairs.

use vstd::prelude::*;

verus! {

/// Mathematical model of a JSON tree: what every contract in the crate
/// speaks of.  Objects are ordered sequences of key/value pairs.
#[verifier::ext_equal]
pub enum JsonView {
    Null,
    Bool(bool),
    UInt(u64),
    Num(Seq<char>),
    Text(Seq<char>),
    Arr(Seq<JsonView>),
    Obj(Seq<(Seq<char>, JsonView)>),
}

/// Executable JSON tree.  Its view is a [`JsonView`].
#[derive(Debug, PartialEq, Eq)]
pub enum Json {
    Null,
    Bool(bool),
    UInt(u64),
    /// A number that is not an unsigned 64-bit integer, held as its decimal
    /// token.  No schema field reads it, but it passes through a decode and
    /// a merge untouched.
    Num(String),
    Text(String),
    Arr(Vec<Json>),
    Obj(Vec<(String, Json)>),
}

/// Deep view of an entry sequence: keys become character sequences, values
/// become their tree views.
pub open spec fn entries_view(s: Seq<(String, Json)>) -> Seq<(Seq<char>, JsonView)>
    decreases s,
    via entries_view_dec
{
    if s.len() == 0 {
        Seq::empty()
    } else {
        entries_view(s.drop_last()).push((s.last().0@, jview(s.last().1)))
    }
}

#[via_fn]
proof fn entries_view_dec(s: Seq<(String, Json)>) {
    if s.len() > 0 {
        assert(decreases_to!(s => s[s.len() - 1]));
        assert(decreases_to!(s[s.len() - 1] => s[s.len() - 1].1));
        assert(decreases_to!(s => s.drop_last()));
    }
}

/// Deep view of a sequence of trees.
pub open spec fn arr_view(s: Seq<Json>) -> Seq<JsonView>
    decreases s,
{
    if s.len() == 0 {
        Seq::empty()
    } else {
        arr_view(s.drop_last()).push(jview(s.last()))
    }
}

/// Deep view of an executable JSON tree.
pub open spec fn jview(j: Json) -> JsonView
    decreases j,
    via jview_dec
{
    match j {
        Json::Null => JsonView::Null,
        Json::Bool(b) => JsonView::Bool(b),
        Json::UInt(n) => JsonView::UInt(n),
        Json::Num(s) => JsonView::Num(s@),
        Json::Text(s) => JsonView::Text(s@),
        Json::Arr(v) => JsonView::Arr(arr_view(v@)),
        Json::Obj(m) => JsonView::Obj(entries_view(m@)),
    }
}

#[via_fn]
proof fn jview_dec(j: Json) {
    match j {
        Json::Arr(v) => {
            assert(decreases_to!(j => v));
            assert(decreases_to!(v => v@));
            assert(decreases_to!(j => v@));
        },
        Json::Obj(m) => {
            assert(decreases_to!(j => m));
            assert(decreases_to!(m => m@));
            assert(decreases_to!(j => m@));
        },
        _ => {},
    }
}

/// Pointwise characterisation of [`entries_view`].
pub broadcast proof fn lemma_entries_view_len(s: Seq<(String, Json)>)
    ensures
        (#[trigger] entries_view(s)).len() == s.len(),
    decreases s,
{
    if s.len() > 0 {
        lemma_entries_view_len(s.drop_last());
    }
}

/// Each viewed entry is the view of the entry at the same position.
pub broadcast proof fn lemma_entries_view_index(s: Seq<(String, Json)>, i: int)
    requires
        0 <= i < s.len(),
    ensures
        #[trigger] entries_view(s)[i] == (s[i].0@, jview(s[i].1)),
    decreases s,
{
    lemma_entries_view_len(s);
    if s.len() > 0 && i < s.len() - 1 {
        lemma_entries_view_index(s.drop_last(), i);
    }
}

/// Pointwise characterisation of [`arr_view`].
pub broadcast proof fn lemma_arr_view_len(s: Seq<Json>)
    ensures
        (#[trigger] arr_view(s)).len() == s.len(),
    decreases s,
{
    if s.len() > 0 {
        lemma_arr_view_len(s.drop_last());
    }
}

/// Each viewed element is the view of the element at the same position.
pub broadcast proof fn lemma_arr_view_index(s: Seq<Json>, i: int)
    requires
        0 <= i < s.len(),
    ensures
        #[trigger] arr_view(s)[i] == jview(s[i]),
    decreases s,
{
    lemma_arr_view_len(s);
    if s.len() > 0 && i < s.len() - 1 {
        lemma_arr_view_index(s.drop_last(), i);
    }
}

impl View for Json {
    type V = JsonView;

    open spec fn view(&self) -> JsonView {
        jview(*self)
    }
}

/// First value bound to key `k` in an entry sequence, if any.
pub open spec fn get_raw(m: Seq<(Seq<char>, JsonView)>, k: Seq<char>) -> Option<JsonView>
    decreases m.len(),
{
    if m.len() == 0 {
        None
    } else if m[0].0 == k {
        Some(m[0].1)
    } else {
        get_raw(m.drop_first(), k)
    }
}

/// First value bound to `k`, an explicit null reading as absent.
pub open spec fn get_entry(m: Seq<(Seq<char>, JsonView)>, k: Seq<char>) -> Option<JsonView> {
    match get_raw(m, k) {
        Some(JsonView::Null) => None,
        r => r,
    }
}

/// Whether some entry binds key `k`.
pub open spec fn contains_key(m: Seq<(Seq<char>, JsonView)>, k: Seq<char>) -> bool {
    get_raw(m, k) is Some
}

/// Position of the first entry binding `k` (meaningful only when one exists).
pub open spec fn index_of_key(m: Seq<(Seq<char>, JsonView)>, k: Seq<char>) -> int
    decreases m.len(),
{
    if m.len() == 0 {
        0
    } else if m[0].0 == k {
        0
    } else {
        1 + index_of_key(m.drop_first(), k)
    }
}

/// One step of the object merge: fold entry `e` of the overlay into `m1`.
/// A null overlay value is skipped; an existing key is merged in place;
/// a fresh key is appended.
pub open spec fn merge_step(
    m1: Seq<(Seq<char>, JsonView)>,
    e: (Seq<char>, JsonView),
) -> Seq<(Seq<char>, JsonView)>
    decreases e,
{
    if e.1 == JsonView::Null {
        m1
    } else if contains_key(m1, e.0) {
        let i = index_of_key(m1, e.0);
        m1.update(i, (m1[i].0, merge_view(m1[i].1, e.1)))
    } else {
        m1.push(e)
    }
}

/// Fold every overlay entry into the base entry sequence, left to right.
pub open spec fn merge_entries(
    m1: Seq<(Seq<char>, JsonView)>,
    m2: Seq<(Seq<char>, JsonView)>,
) -> Seq<(Seq<char>, JsonView)>
    decreases m2,
{
    if m2.len() == 0 {
        m1
    } else {
        merge_entries(merge_step(m1, m2[0]), m2.drop_first())
    }
}

/// Recursive, null-aware merge of two JSON trees.  When both sides are
/// objects the overlay's entries are folded into the base; in every other
/// combination the overlay replaces the base outright.
pub open spec fn merge_view(base: JsonView, overlay: JsonView) -> JsonView
    decreases overlay,
{
    match (base, overlay) {
        (JsonView::Obj(m1), JsonView::Obj(m2)) => JsonView::Obj(merge_entries(m1, m2)),
        (_, b) => b,
    }
}

/// All objects anywhere in the tree bind pairwise-distinct keys.
pub open spec fn tree_unique(t: JsonView) -> bool
    decreases t,
{
    match t {
        JsonView::Arr(a) => forall|i: int| 0 <= i < a.len() ==> tree_unique(#[trigger] a[i]),
        JsonView::Obj(m) => (forall|i: int, j: int|
            0 <= i < j < m.len() ==> (#[trigger] m[i]).0 != (#[trigger] m[j]).0) && (forall|i: int|
            0 <= i < m.len() ==> tree_unique((#[trigger] m[i]).1)),
        _ => true,
    }
}

/// No opaque number token occurs anywhere in the tree.  Every tree an
/// encoder of this crate produces satisfies this; only decoded payloads can
/// carry such tokens.
pub open spec fn num_free(t: JsonView) -> bool
    decreases t,
{
    match t {
        JsonView::Num(_) => false,
        JsonView::Arr(a) => forall|i: int| 0 <= i < a.len() ==> num_free(#[trigger] a[i]),
        JsonView::Obj(m) => forall|i: int| 0 <= i < m.len() ==> num_free((#[trigger] m[i]).1),
        _ => true,
    }
}

/// The tree nests no deeper than `d` levels, leaves counting as one level.
pub open spec fn depth_le(t: JsonView, d: int) -> bool
    decreases t,
{
    match t {
        JsonView::Arr(a) => d >= 1 && forall|i: int|
            0 <= i < a.len() ==> depth_le(#[trigger] a[i], d - 1),
        JsonView::Obj(m) => d >= 1 && forall|i: int|
            0 <= i < m.len() ==> depth_le((#[trigger] m[i]).1, d - 1),
        _ => d >= 1,
    }
}

/// A depth bound weakens upward.
pub proof fn lemma_depth_le_mono(t: JsonView, d: int, e: int)
    requires
        depth_le(t, d),
        d <= e,
    ensures
        depth_le(t, e),
    decreases t,
{
    match t {
        JsonView::Arr(a) => {
            assert forall|i: int| 0 <= i < a.len() implies depth_le(#[trigger] a[i], e - 1) by {
                lemma_depth_le_mono(a[i], d - 1, e - 1);
            }
        },
        JsonView::Obj(m) => {
            assert forall|i: int| 0 <= i < m.len() implies depth_le((#[trigger] m[i]).1, e - 1) by {
                lemma_depth_le_mono(m[i].1, d - 1, e - 1);
            }
        },
        _ => {},
    }
}

/// A tree and its view are always the same variant.
pub proof fn lemma_jview_variant(j: Json)
    ensures
        jview(j) is Null <==> j is Null,
        jview(j) is Bool <==> j is Bool,
        jview(j) is UInt <==> j is UInt,
        jview(j) is Num <==> j is Num,
        jview(j) is Text <==> j is Text,
        jview(j) is Arr <==> j is Arr,
        jview(j) is Obj <==> j is Obj,
{
    match j {
        Json::Null => {},
        Json::Bool(_) => {},
        Json::UInt(_) => {},
        Json::Num(_) => {},
        Json::Text(_) => {},
        Json::Arr(_) => {},
        Json::Obj(_) => {},
    }
}

impl Json {
    /// Whether this tree is the JSON null value.
    pub fn is_null(&self) -> (b: bool)
        ensures
            b == (self@ is Null),
    {
        match self {
            Json::Null => true,
            Json::Bool(_) => false,
            Json::UInt(_) => false,
            Json::Num(_) => false,
            Json::Text(_) => false,
            Json::Arr(_) => false,
            Json::Obj(_) => false,
        }
    }
}

/// Position of the first entry whose key equals `k`, if any.
fn find_key(entries: &Vec<(String, Json)>, k: &String) -> (r: Option<usize>)
    ensures
        match r {
            Some(i) => contains_key(entries_view(entries@), k@)
                && i == index_of_key(entries_view(entries@), k@)
                && 0 <= i < entries@.len(),
            None => !contains_key(entries_view(entries@), k@),
        },
{
    let ghost m = entries_view(entries@);
    proof {
        lemma_entries_view_len(entries@);
    }
    let mut i: usize = 0;
    while i < entries.len()
        invariant
            0 <= i <= entries@.len(),
            m == entries_view(entries@),
            m.len() == entries@.len(),
            forall|j: int| 0 <= j < i ==> m[j].0 != k@,
        decreases entries@.len() - i,
    {
        proof {
            lemma_entries_view_index(entries@, i as int);
        }
        if entries[i].0 == *k {
            proof {
                lemma_key_prefix_skip(m, k@, i as int);
                assert(m[i as int].0 == k@);
                assert(m.skip(i as int)[0] == m[i as int]);
                assert(get_raw(m.skip(i as int), k@) == Some(m[i as int].1));
                assert(index_of_key(m.skip(i as int), k@) == 0);
            }
            return Some(i);
        }
        i = i + 1;
    }
    proof {
        lemma_key_prefix_skip(m, k@, i as int);
        assert(m.skip(i as int) =~= Seq::empty());
    }
    None
}

/// First value bound to key `k` in an object's entries, unless it is null:
/// the executable form of [`get_entry`].
pub(crate) fn get_field<'a>(entries: &'a Vec<(String, Json)>, k: &String) -> (r: Option<
    &'a Json,
>)
    ensures
        match r {
            Some(j) => get_entry(entries_view(entries@), k@) == Some(j@) && !(j@ is Null),
            None => get_entry(entries_view(entries@), k@) is None,
        },
{
    let ghost m = entries_view(entries@);
    match find_key(entries, k) {
        Some(i) => {
            proof {
                lemma_index_of_key_props(m, k@);
                lemma_entries_view_len(entries@);
                lemma_entries_view_index(entries@, i as int);
            }
            let j = &entries[i].1;
            if j.is_null() {
                None
            } else {
                Some(j)
            }
        },
        None => None,
    }
}

/// When no entry before position `i` binds `k`, the lookup functions agree
/// with their values on the suffix starting at `i`.
proof fn lemma_key_prefix_skip(m: Seq<(Seq<char>, JsonView)>, k: Seq<char>, i: int)
    requires
        0 <= i <= m.len(),
        forall|j: int| 0 <= j < i ==> m[j].0 != k,
    ensures
        get_raw(m, k) == get_raw(m.skip(i), k),
        index_of_key(m, k) == i + index_of_key(m.skip(i), k),
    decreases i,
{
    if i > 0 {
        assert(m[0].0 != k);
        assert(m.drop_first().skip(i - 1) =~= m.skip(i));
        lemma_key_prefix_skip(m.drop_first(), k, i - 1);
    } else {
        assert(m.skip(0) =~= m);
    }
}

/// Entry sequences viewed after a push.
pub proof fn lemma_entries_view_push(s: Seq<(String, Json)>, e: (String, Json))
    ensures
        entries_view(s.push(e)) =~= entries_view(s).push((e.0@, e.1@)),
{
    broadcast use lemma_entries_view_len, lemma_entries_view_index;

}

/// Entry sequences viewed after an update.
proof fn lemma_entries_view_update(s: Seq<(String, Json)>, i: int, e: (String, Json))
    requires
        0 <= i < s.len(),
    ensures
        entries_view(s.update(i, e)) =~= entries_view(s).update(i, (e.0@, e.1@)),
{
    broadcast use lemma_entries_view_len, lemma_entries_view_index;

}

/// Removing and re-inserting at the same position is an update.
proof fn lemma_remove_insert_is_update<A>(s: Seq<A>, i: int, e: A)
    requires
        0 <= i < s.len(),
    ensures
        s.remove(i).insert(i, e) =~= s.update(i, e),
{
}

/// Lookup distributes over concatenation, the left part winning.
pub proof fn lemma_get_raw_append(
    m1: Seq<(Seq<char>, JsonView)>,
    m2: Seq<(Seq<char>, JsonView)>,
    k: Seq<char>,
)
    ensures
        get_raw(m1 + m2, k) == match get_raw(m1, k) {
            Some(v) => Some(v),
            None => get_raw(m2, k),
        },
    decreases m1.len(),
{
    if m1.len() == 0 {
        assert(m1 + m2 =~= m2);
    } else {
        assert((m1 + m2)[0] == m1[0]);
        assert((m1 + m2).len() > 0);
        assert((m1 + m2).drop_first() =~= m1.drop_first() + m2);
        lemma_get_raw_append(m1.drop_first(), m2, k);
    }
}

/// What the position returned by [`index_of_key`] satisfies when the key is
/// present.
pub proof fn lemma_index_of_key_props(m: Seq<(Seq<char>, JsonView)>, k: Seq<char>)
    requires
        contains_key(m, k),
    ensures
        0 <= index_of_key(m, k) < m.len(),
        m[index_of_key(m, k)].0 == k,
        forall|j: int| 0 <= j < index_of_key(m, k) ==> m[j].0 != k,
        get_raw(m, k) == Some(m[index_of_key(m, k)].1),
    decreases m.len(),
{
    if m.len() > 0 && m[0].0 != k {
        lemma_index_of_key_props(m.drop_first(), k);
        assert forall|j: int| 0 <= j < index_of_key(m, k) implies m[j].0 != k by {
            if j > 0 {
                assert(m.drop_first()[j - 1] == m[j]);
            }
        }
    }
}

/// Lookup after updating the first entry that binds some key: a lookup of
/// that key sees the new value, every other lookup is unchanged.
pub proof fn lemma_get_raw_update(
    m: Seq<(Seq<char>, JsonView)>,
    i: int,
    nv: JsonView,
    q: Seq<char>,
)
    requires
        0 <= i < m.len(),
        forall|j: int| 0 <= j < i ==> m[j].0 != m[i].0,
    ensures
        get_raw(m.update(i, (m[i].0, nv)), q) == if q == m[i].0 {
            Some(nv)
        } else {
            get_raw(m, q)
        },
    decreases i,
{
    let mu = m.update(i, (m[i].0, nv));
    if i == 0 {
        assert(mu[0] == (m[0].0, nv));
        if q != m[0].0 {
            assert(mu.drop_first() =~= m.drop_first());
        }
    } else {
        assert(mu[0] == m[0]);
        assert(mu.drop_first() =~= m.drop_first().update(i - 1, (m[i].0, nv)));
        assert(m.drop_first()[i - 1] == m[i]);
        lemma_get_raw_update(m.drop_first(), i - 1, nv, q);
    }
}

/// Folding overlay entries whose keys are fresh, pairwise distinct and whose
/// values are non-null is plain concatenation.
pub proof fn lemma_merge_entries_disjoint(
    m1: Seq<(Seq<char>, JsonView)>,
    m2: Seq<(Seq<char>, JsonView)>,
)
    requires
        forall|i: int|
            0 <= i < m2.len() ==> !contains_key(m1, (#[trigger] m2[i]).0) && m2[i].1
                != JsonView::Null,
        forall|i: int, j: int| 0 <= i < j < m2.len() ==> (#[trigger] m2[i]).0 != (#[trigger] m2[j]).0,
    ensures
        merge_entries(m1, m2) == m1 + m2,
    decreases m2.len(),
{
    if m2.len() == 0 {
        assert(m1 + m2 =~= m1);
    } else {
        let e = m2[0];
        assert(!contains_key(m1, e.0) && e.1 != JsonView::Null);
        assert(merge_step(m1, e) == m1.push(e));
        assert forall|i: int| 0 <= i < m2.drop_first().len() implies !contains_key(
            m1.push(e),
            (#[trigger] m2.drop_first()[i]).0,
        ) && m2.drop_first()[i].1 != JsonView::Null by {
            assert(m2.drop_first()[i] == m2[i + 1]);
            assert(m1.push(e) =~= m1 + seq![e]);
            lemma_get_raw_append(m1, seq![e], m2[i + 1].0);
            assert(m2[i + 1].0 != e.0);
            assert(seq![e].drop_first() =~= Seq::<(Seq<char>, JsonView)>::empty());
            assert(get_raw(Seq::<(Seq<char>, JsonView)>::empty(), m2[i + 1].0) is None);
            assert(get_raw(seq![e], m2[i + 1].0) is None);
        }
        lemma_merge_entries_disjoint(m1.push(e), m2.drop_first());
        assert(m1.push(e) + m2.drop_first() =~= m1 + m2);
    }
}

/// Folding a single overlay entry whose key is already bound: the first
/// binding of that key is merged in place and nothing else moves.
pub proof fn lemma_merge_entries_single_existing(
    m1: Seq<(Seq<char>, JsonView)>,
    k: Seq<char>,
    v: JsonView,
)
    requires
        contains_key(m1, k),
        v != JsonView::Null,
    ensures
        merge_entries(m1, seq![(k, v)]) == m1.update(
            index_of_key(m1, k),
            (m1[index_of_key(m1, k)].0, merge_view(m1[index_of_key(m1, k)].1, v)),
        ),
    decreases m1.len(),
{
    let s = seq![(k, v)];
    assert(s[0] == (k, v));
    assert(s.drop_first() =~= Seq::empty());
    assert(merge_entries(m1, s) == merge_entries(merge_step(m1, (k, v)), s.drop_first()));
}

/// Merge the overlay entries `src` into `entries`, left to right, following
/// the object branch of [`merge_view`].
fn merge_into_entries(entries: &mut Vec<(String, Json)>, src: Vec<(String, Json)>)
    ensures
        entries_view(final(entries)@) == merge_entries(entries_view(old(entries)@), entries_view(src@)),
    decreases src@,
{
    broadcast use lemma_entries_view_len, lemma_entries_view_index;

    let mut src = src;
    if src.len() == 0 {
        assert(entries_view(src@) =~= Seq::empty());
        return ;
    }
    let ghost src0 = src@;
    let ghost m1 = entries_view(entries@);
    let (k, v) = src.remove(0);
    assert(src@ =~= src0.drop_first());
    proof {
        assert(decreases_to!(src0 => src0[0]));
        assert(decreases_to!(src0[0] => src0[0].1));
        assert(decreases_to!(src0 => src0[0].1));
        assert(decreases_to!(src0 => src0.subrange(1, src0.len() as int)));
    }
    if v.is_null() {
        assert(entries_view(src0)[0].1 == JsonView::Null);
        assert(merge_step(m1, entries_view(src0)[0]) == m1);
    } else {
        assert(entries_view(src0)[0].1 != JsonView::Null);
        match find_key(entries, &k) {
            Some(i) => {
                let ghost s_before = entries@;
                let (k0, oldv) = entries.remove(i);
                let newv = merge_owned(oldv, v);
                entries.insert(i, (k0, newv));
                proof {
                    assert(entries@ =~= s_before.remove(i as int).insert(i as int, (k0, newv)));
                    lemma_remove_insert_is_update(s_before, i as int, (k0, newv));
                    lemma_entries_view_update(s_before, i as int, (k0, newv));
                    assert(entries_view(entries@) =~= merge_step(m1, entries_view(src0)[0]));
                }
            },
            None => {
                let ghost s_before = entries@;
                entries.push((k, v));
                proof {
                    lemma_entries_view_push(s_before, (k, v));
                    assert(entries_view(entries@) =~= merge_step(m1, entries_view(src0)[0]));
                }
            },
        }
    }
    merge_into_entries(entries, src);
    proof {
        assert(entries_view(src0).drop_first() =~= entries_view(src0.drop_first()));
    }
}

/// Merge `overlay` into `base` by value.
fn merge_owned(base: Json, overlay: Json) -> (r: Json)
    ensures
        r@ == merge_view(base@, overlay@),
    decreases overlay,
{
    let ghost overlay0 = overlay;
    match (base, overlay) {
        (Json::Obj(entries), Json::Obj(src)) => {
            let mut entries = entries;
            proof {
                assert(decreases_to!(overlay0 => src));
                assert(decreases_to!(src => src@));
            }
            merge_into_entries(&mut entries, src);
            Json::Obj(entries)
        },
        (_, b) => b,
    }
}

/// Recursive, null-aware merge of `json2` into `json1`, in place.
///
/// When both trees are objects, every non-null entry of `json2` is folded
/// into `json1`: an existing key is merged recursively in place, a fresh key
/// is appended, and a null overlay value is skipped entirely (null expresses
/// "no opinion", never a deletion).  In every other combination of kinds,
/// including array against array, `json2` simply replaces `json1`.
pub fn merge(json1: &mut Json, json2: Json)
    ensures
        final(json1)@ == merge_view(old(json1)@, json2@),
{
    let mut taken = Json::Null;
    core::mem::swap(json1, &mut taken);
    let merged = merge_owned(taken, json2);
    *json1 = merged;
}

/// Merging an overlay that is an empty object, or whose every entry is
/// null, leaves an object base unchanged.
pub proof fn lemma_merge_absent_overlay(base: JsonView, overlay: JsonView)
    requires
        base is Obj,
        overlay is Obj,
        forall|i: int|
            0 <= i < overlay->Obj_0.len() ==> (#[trigger] overlay->Obj_0[i]).1 == JsonView::Null,
    ensures
        merge_view(base, overlay) == base,
{
    lemma_merge_entries_all_null(base->Obj_0, overlay->Obj_0);
}

proof fn lemma_merge_entries_all_null(
    m1: Seq<(Seq<char>, JsonView)>,
    m2: Seq<(Seq<char>, JsonView)>,
)
    requires
        forall|i: int| 0 <= i < m2.len() ==> (#[trigger] m2[i]).1 == JsonView::Null,
    ensures
        merge_entries(m1, m2) == m1,
    decreases m2,
{
    if m2.len() > 0 {
        assert(m2[0].1 == JsonView::Null);
        assert(merge_step(m1, m2[0]) == m1);
        lemma_merge_entries_all_null(m1, m2.drop_first());
        assert(merge_entries(m1, m2) == merge_entries(merge_step(m1, m2[0]), m2.drop_first()));
    }
}

} // verus!
