//! The printer's status: the deep merge of status updates into the raw
//! state, the state that the front end starts from, and the fields that an
//! update sets.
use vstd::prelude::*;

use crate::config::parser::{find_key, lemma_find_key, upsert};
use crate::json::{get_field, json_number, json_str, obj_get, Json, JsonV};
use crate::text::{owned, str_eq};

verus! {

/// The entries of an object, as the contracts see them.
pub open spec fn entries_view(e: Seq<(String, Json)>) -> Seq<(Seq<char>, JsonV)> {
    Seq::new(e.len(), |i: int| (e[i].0@, e[i].1.view_of()))
}

/// The value of the first entry named `k`.
pub open spec fn entries_get(e: Seq<(Seq<char>, JsonV)>, k: Seq<char>) -> Option<JsonV> {
    match find_key(e, k) {
        Some(i) => Some(e[i].1),
        None => None,
    }
}

/// The value of the last entry named `k`.
pub open spec fn last_entry(e: Seq<(Seq<char>, JsonV)>, k: Seq<char>) -> Option<JsonV>
    decreases e.len(),
{
    if e.len() == 0 {
        None
    } else if e.last().0 == k {
        Some(e.last().1)
    } else {
        last_entry(e.drop_last(), k)
    }
}

/// `d` with `s` merged into it: where both are objects, each entry of `s`
/// in order either merges into the entry of `d` of that name (an object
/// value, into an empty object where `d` has none) or replaces it (any
/// other value); otherwise `d` unchanged.
pub open spec fn merge_v(d: JsonV, s: JsonV) -> JsonV
    decreases s,
{
    match d {
        JsonV::Object(de) => match s {
            JsonV::Object(se) => JsonV::Object(merge_entries(de, se)),
            _ => d,
        },
        _ => d,
    }
}

/// The entries `de` with the entries `se` merged into them, in order.
pub open spec fn merge_entries(de: Seq<(Seq<char>, JsonV)>, se: Seq<(Seq<char>, JsonV)>) -> Seq<
    (Seq<char>, JsonV),
>
    decreases se,
{
    if se.len() == 0 {
        de
    } else {
        let prev = merge_entries(de, se.drop_last());
        let k = se[se.len() - 1].0;
        let v = se[se.len() - 1].1;
        if v is Object {
            let d1 = if find_key(prev, k) is None {
                prev.push((k, JsonV::Object(Seq::empty())))
            } else {
                prev
            };
            match find_key(d1, k) {
                Some(i) => d1.update(i, (k, merge_v(d1[i].1, v))),
                None => d1,
            }
        } else {
            upsert(prev, k, v)
        }
    }
}

proof fn lemma_object_view(e: Vec<(String, Json)>)
    ensures
        Json::Object(e).view_of() == JsonV::Object(entries_view(e@)),
{
    if let JsonV::Object(x) = Json::Object(e).view_of() {
        assert(x =~= entries_view(e@));
    }
}

/// An empty object.
pub fn empty_object() -> (res: Json)
    ensures
        res.view_of() == JsonV::Object(Seq::empty()),
{
    let e: Vec<(String, Json)> = Vec::new();
    proof {
        lemma_object_view(e);
    }
    assert(entries_view(e@) =~= Seq::<(Seq<char>, JsonV)>::empty());
    Json::Object(e)
}

fn find_entry(e: &Vec<(String, Json)>, k: &str) -> (res: Option<usize>)
    ensures
        match res {
            Some(i) => i < e.len() && find_key(entries_view(e@), k@) == Some(i as int),
            None => find_key(entries_view(e@), k@) is None,
        },
{
    proof {
        lemma_find_key(entries_view(e@), k@);
    }
    let mut i: usize = 0;
    while i < e.len()
        invariant
            i <= e.len(),
            forall|j: int| 0 <= j < i ==> entries_view(e@)[j].0 != k@,
        decreases e.len() - i,
    {
        if str_eq(e[i].0.as_str(), k) {
            assert(entries_view(e@)[i as int].0 == k@);
            proof {
                lemma_find_key(entries_view(e@), k@);
            }
            return Some(i);
        }
        i = i + 1;
    }
    None
}

/// `dest` with `src` merged into it (see [`merge_v`]).
pub fn merged(dest: Json, src: &Json) -> (res: Json)
    ensures
        res.view_of() == merge_v(dest.view_of(), src.view_of()),
    decreases src,
{
    match dest {
        Json::Object(entries) => match src {
            Json::Object(se) => {
                let mut entries = entries;
                let ghost de = entries_view(entries@);
                let ghost sev = entries_view(se@);
                proof {
                    lemma_object_view(entries);
                    lemma_object_view(*se);
                }
                let mut i: usize = 0;
                while i < se.len()
                    invariant
                        i <= se.len(),
                        sev == entries_view(se@),
                        src.view_of() == JsonV::Object(sev),
                        forall|j: int| 0 <= j < se.len() ==> decreases_to!(*src => #[trigger] se@[j].1),
                        entries_view(entries@) == merge_entries(de, sev.subrange(0, i as int)),
                    decreases se.len() - i,
                {
                    let ghost prev = entries_view(entries@);
                    let ghost cur = sev.subrange(0, i + 1);
                    assert(cur.drop_last() =~= sev.subrange(0, i as int));
                    assert(cur[cur.len() - 1] == sev[i as int]);
                    let k = se[i].0.as_str();
                    let v = &se[i].1;
                    match v {
                        Json::Object(_) => {
                            let idx = match find_entry(&entries, k) {
                                Some(j) => j,
                                None => {
                                    entries.push((owned(k), empty_object()));
                                    assert(entries_view(entries@) =~= prev.push(
                                        (k@, JsonV::Object(Seq::empty())),
                                    ));
                                    entries.len() - 1
                                },
                            };
                            let ghost d1 = entries_view(entries@);
                            proof {
                                lemma_find_key(prev, k@);
                                lemma_find_key(d1, k@);
                            }
                            assert(find_key(d1, k@) == Some(idx as int));
                            let (kk, old) = entries.remove(idx);
                            assert(decreases_to!(*src => se@[i as int].1));
                            let nv = merged(old, v);
                            entries.insert(idx, (kk, nv));
                            assert(entries_view(entries@) =~= d1.update(
                                idx as int,
                                (k@, merge_v(d1[idx as int].1, v.view_of())),
                            ));
                        },
                        _ => {
                            let nv = v.duplicate();
                            match find_entry(&entries, k) {
                                Some(j) => {
                                    entries.set(j, (owned(k), nv));
                                },
                                None => {
                                    entries.push((owned(k), nv));
                                },
                            }
                            assert(entries_view(entries@) =~= upsert(prev, k@, v.view_of()));
                        },
                    }
                    assert(entries_view(entries@) == merge_entries(de, cur));
                    i = i + 1;
                }
                assert(sev.subrange(0, i as int) =~= sev);
                proof {
                    lemma_object_view(entries);
                }
                Json::Object(entries)
            },
            _ => Json::Object(entries),
        },
        other => other,
    }
}

/// Merges `src` into `dest` (see [`merge_v`]).
pub fn merge_json(dest: &mut Json, src: &Json)
    ensures
        final(dest).view_of() == merge_v(old(dest).view_of(), src.view_of()),
{
    let mut d = Json::Null;
    std::mem::swap(dest, &mut d);
    *dest = merged(d, src);
}

// ---------------------------------------------------------------------------
// Laws of the merge
proof fn lemma_find_key_update<X>(p: Seq<(Seq<char>, X)>, i: int, x: X, k2: Seq<char>)
    requires
        0 <= i < p.len(),
    ensures
        find_key(p.update(i, (p[i].0, x)), k2) == find_key(p, k2),
    decreases p.len(),
{
    let t = p.update(i, (p[i].0, x));
    if i == p.len() - 1 {
        assert(t.drop_last() =~= p.drop_last());
    } else {
        assert(t.drop_last() =~= p.drop_last().update(i, (p[i].0, x)));
        lemma_find_key_update(p.drop_last(), i, x, k2);
    }
}

proof fn lemma_find_key_push<X>(p: Seq<(Seq<char>, X)>, e: (Seq<char>, X), k2: Seq<char>)
    ensures
        find_key(p.push(e), k2) == (match find_key(p, k2) {
            Some(i) => Some(i),
            None => if e.0 == k2 {
                Some(p.len() as int)
            } else {
                None
            },
        }),
{
    assert(p.push(e).drop_last() =~= p);
}

/// Reading an entry after an insert under `k`: the value inserted for `k`,
/// the value before for every other key.
pub proof fn lemma_upsert_get(p: Seq<(Seq<char>, JsonV)>, k: Seq<char>, v: JsonV, k2: Seq<char>)
    ensures
        entries_get(upsert(p, k, v), k2) == if k2 == k {
            Some(v)
        } else {
            entries_get(p, k2)
        },
{
    lemma_find_key(p, k);
    match find_key(p, k) {
        Some(i) => {
            assert(p.update(i, (k, v)) =~= p.update(i, (p[i].0, v)));
            lemma_find_key_update(p, i, v, k2);
            lemma_find_key(p, k2);
        },
        None => {
            lemma_find_key_push(p, (k, v), k2);
            lemma_find_key(p, k2);
        },
    }
}

proof fn lemma_merge_step_get(prev: Seq<(Seq<char>, JsonV)>, se: Seq<(Seq<char>, JsonV)>, de: Seq<(Seq<char>, JsonV)>, k2: Seq<char>)
    requires
        se.len() > 0,
        prev == merge_entries(de, se.drop_last()),
    ensures
        se.last().0 != k2 ==> entries_get(merge_entries(de, se), k2) == entries_get(prev, k2),
        se.last().0 == k2 ==> entries_get(merge_entries(de, se), k2) is Some,
        se.last().0 == k2 && !(se.last().1 is Object) ==> entries_get(merge_entries(de, se), k2)
            == Some(se.last().1),
{
    let k = se.last().0;
    let v = se.last().1;
    if v is Object {
        let d1 = if find_key(prev, k) is None {
            prev.push((k, JsonV::Object(Seq::empty())))
        } else {
            prev
        };
        lemma_find_key(prev, k);
        lemma_find_key_push(prev, (k, JsonV::Object(Seq::empty())), k2);
        lemma_find_key_push(prev, (k, JsonV::Object(Seq::empty())), k);
        lemma_find_key(d1, k);
        let i = find_key(d1, k)->0;
        lemma_find_key_update(d1, i, merge_v(d1[i].1, v), k2);
        assert(d1.update(i, (k, merge_v(d1[i].1, v))) =~= d1.update(i, (d1[i].0, merge_v(d1[i].1, v))));
        lemma_find_key(d1, k2);
        lemma_find_key(prev, k2);
    } else {
        lemma_upsert_get(prev, k, v, k2);
    }
}

/// Merging keeps every entry of the destination.
pub proof fn law_merge_keeps_keys(de: Seq<(Seq<char>, JsonV)>, se: Seq<(Seq<char>, JsonV)>, k: Seq<char>)
    requires
        entries_get(de, k) is Some,
    ensures
        entries_get(merge_entries(de, se), k) is Some,
    decreases se.len(),
{
    if se.len() > 0 {
        law_merge_keeps_keys(de, se.drop_last(), k);
        lemma_merge_step_get(merge_entries(de, se.drop_last()), se, de, k);
    }
}

/// Merging leaves every entry that the source does not name as it was.
pub proof fn law_merge_untouched(de: Seq<(Seq<char>, JsonV)>, se: Seq<(Seq<char>, JsonV)>, k: Seq<char>)
    requires
        forall|j: int| 0 <= j < se.len() ==> se[j].0 != k,
    ensures
        entries_get(merge_entries(de, se), k) == entries_get(de, k),
    decreases se.len(),
{
    if se.len() > 0 {
        law_merge_untouched(de, se.drop_last(), k);
        lemma_merge_step_get(merge_entries(de, se.drop_last()), se, de, k);
    }
}

/// Merging sets every entry whose last value in the source is not an
/// object to that value.
pub proof fn law_merge_source_wins(de: Seq<(Seq<char>, JsonV)>, se: Seq<(Seq<char>, JsonV)>, k: Seq<char>)
    requires
        last_entry(se, k) is Some,
        !(last_entry(se, k)->0 is Object),
    ensures
        entries_get(merge_entries(de, se), k) == last_entry(se, k),
    decreases se.len(),
{
    if se.len() > 0 {
        if se.last().0 != k {
            law_merge_source_wins(de, se.drop_last(), k);
        }
        lemma_merge_step_get(merge_entries(de, se.drop_last()), se, de, k);
    }
}

/// Where either side is not an object, the merge leaves the destination.
pub proof fn law_merge_non_objects(d: JsonV, s: JsonV)
    requires
        !(d is Object) || !(s is Object),
    ensures
        merge_v(d, s) == d,
{
}

proof fn lemma_merge_last_object(de: Seq<(Seq<char>, JsonV)>, se: Seq<(Seq<char>, JsonV)>)
    requires
        se.len() > 0,
        se.last().1 is Object,
    ensures
        entries_get(merge_entries(de, se), se.last().0) == Some(
            merge_v(
                match entries_get(merge_entries(de, se.drop_last()), se.last().0) {
                    Some(x) => x,
                    None => JsonV::Object(Seq::empty()),
                },
                se.last().1,
            ),
        ),
{
    let prev = merge_entries(de, se.drop_last());
    let k = se.last().0;
    let v = se.last().1;
    let e0 = (k, JsonV::Object(Seq::<(Seq<char>, JsonV)>::empty()));
    let d1 = if find_key(prev, k) is None {
        prev.push(e0)
    } else {
        prev
    };
    lemma_find_key(prev, k);
    lemma_find_key_push(prev, e0, k);
    lemma_find_key(d1, k);
    let i = find_key(d1, k)->0;
    let nv = merge_v(d1[i].1, v);
    assert(d1.update(i, (k, nv)) =~= d1.update(i, (d1[i].0, nv)));
    lemma_find_key_update(d1, i, nv, k);
}

/// The value held under `k` after the entries `se` act on `o`: only the
/// entries named `k` act, an object merging into the value (into an empty
/// object where there is none), any other value replacing it.
spec fn fold_key(o: Option<JsonV>, se: Seq<(Seq<char>, JsonV)>, k: Seq<char>) -> Option<JsonV>
    decreases se.len(),
{
    if se.len() == 0 {
        o
    } else {
        let p = fold_key(o, se.drop_last(), k);
        if se.last().0 != k {
            p
        } else if se.last().1 is Object {
            Some(merge_v(or_empty(p), se.last().1))
        } else {
            Some(se.last().1)
        }
    }
}

spec fn or_empty(o: Option<JsonV>) -> JsonV {
    match o {
        Some(x) => x,
        None => JsonV::Object(Seq::empty()),
    }
}

/// The entries of the objects that `se` holds under `k`, one after another.
spec fn cat_key(se: Seq<(Seq<char>, JsonV)>, k: Seq<char>) -> Seq<(Seq<char>, JsonV)>
    decreases se.len(),
{
    if se.len() == 0 {
        Seq::empty()
    } else {
        let p = cat_key(se.drop_last(), k);
        if se.last().0 == k {
            match se.last().1 {
                JsonV::Object(e) => p + e,
                _ => p,
            }
        } else {
            p
        }
    }
}

spec fn names_key(se: Seq<(Seq<char>, JsonV)>, k: Seq<char>) -> bool {
    exists|j: int| 0 <= j < se.len() && se[j].0 == k
}

spec fn has_plain(se: Seq<(Seq<char>, JsonV)>, k: Seq<char>) -> bool {
    exists|j: int| 0 <= j < se.len() && se[j].0 == k && !(se[j].1 is Object)
}

/// Whether objects nest at most `n` deep within `v`.
spec fn bounded(v: JsonV, n: nat) -> bool
    decreases n,
{
    match v {
        JsonV::Object(e) => if n == 0 {
            e.len() == 0
        } else {
            forall|i: int| #![trigger e[i]] 0 <= i < e.len() ==> bounded(e[i].1, (n - 1) as nat)
        },
        _ => true,
    }
}

proof fn lemma_bounded_mono(v: JsonV, n: nat, m: nat)
    requires
        bounded(v, n),
        n <= m,
    ensures
        bounded(v, m),
    decreases n,
{
    if let JsonV::Object(e) = v {
        if m > 0 {
            assert forall|i: int| #![trigger e[i]] 0 <= i < e.len() implies bounded(
                e[i].1,
                (m - 1) as nat,
            ) by {
                lemma_bounded_mono(e[i].1, (n - 1) as nat, (m - 1) as nat);
            }
        }
    }
}

proof fn lemma_bound_of(v: JsonV) -> (n: nat)
    ensures
        bounded(v, n),
    decreases v,
{
    match v {
        JsonV::Object(e) => {
            let m = lemma_bound_entries(e);
            assert forall|i: int| 0 <= i < e.len() implies #[trigger] bounded(e[i].1, m) by {
                assert(e[i] == e[i]);
            }
            m + 1
        },
        _ => 0,
    }
}

proof fn lemma_bound_entries(e: Seq<(Seq<char>, JsonV)>) -> (n: nat)
    ensures
        forall|i: int| 0 <= i < e.len() ==> bounded(#[trigger] e[i].1, n),
    decreases e,
{
    if e.len() == 0 {
        0
    } else {
        let a = lemma_bound_entries(e.drop_last());
        assert(decreases_to!(e => e[e.len() - 1]));
        let b = lemma_bound_of(e[e.len() - 1].1);
        let m = if a < b {
            b
        } else {
            a
        };
        assert forall|i: int| 0 <= i < e.len() implies bounded(#[trigger] e[i].1, m) by {
            if i < e.len() - 1 {
                assert(e.drop_last()[i] == e[i]);
                lemma_bounded_mono(e[i].1, a, m);
            } else {
                lemma_bounded_mono(e[i].1, b, m);
            }
        }
        m
    }
}

/// What merging leaves under a key: the entries named `k` acting in turn.
proof fn lemma_merge_fold(de: Seq<(Seq<char>, JsonV)>, se: Seq<(Seq<char>, JsonV)>, k: Seq<char>)
    ensures
        entries_get(merge_entries(de, se), k) == fold_key(entries_get(de, k), se, k),
    decreases se.len(),
{
    if se.len() > 0 {
        lemma_merge_fold(de, se.drop_last(), k);
        lemma_merge_step_get(merge_entries(de, se.drop_last()), se, de, k);
        if se.last().0 == k && se.last().1 is Object {
            lemma_merge_last_object(de, se);
        }
    }
}

proof fn lemma_fold_some(o: Option<JsonV>, se: Seq<(Seq<char>, JsonV)>, k: Seq<char>, j: int)
    requires
        0 <= j < se.len(),
        se[j].0 == k,
    ensures
        fold_key(o, se, k) is Some,
    decreases se.len(),
{
    if j < se.len() - 1 {
        assert(se.drop_last()[j] == se[j]);
        lemma_fold_some(o, se.drop_last(), k, j);
    }
}

/// Merging two sources one after the other is merging their entries
/// together.
proof fn lemma_merge_concat(de: Seq<(Seq<char>, JsonV)>, a: Seq<(Seq<char>, JsonV)>, b: Seq<(Seq<char>, JsonV)>)
    ensures
        merge_entries(merge_entries(de, a), b) == merge_entries(de, a + b),
    decreases b.len(),
{
    if b.len() == 0 {
        assert(a + b =~= a);
    } else {
        lemma_merge_concat(de, a, b.drop_last());
        assert((a + b).drop_last() =~= a + b.drop_last());
        assert((a + b).last() == b.last());
    }
}

proof fn lemma_fold_plain(o1: Option<JsonV>, o2: Option<JsonV>, se: Seq<(Seq<char>, JsonV)>, k: Seq<char>)
    requires
        has_plain(se, k),
    ensures
        fold_key(o1, se, k) == fold_key(o2, se, k),
    decreases se.len(),
{
    let j = choose|j: int| 0 <= j < se.len() && se[j].0 == k && !(se[j].1 is Object);
    if j < se.len() - 1 {
        assert(se.drop_last()[j] == se[j]);
        lemma_fold_plain(o1, o2, se.drop_last(), k);
    }
}

proof fn lemma_fold_objects(o: Option<JsonV>, se: Seq<(Seq<char>, JsonV)>, k: Seq<char>)
    requires
        !has_plain(se, k),
    ensures
        fold_key(o, se, k) == if names_key(se, k) {
            Some(merge_v(or_empty(o), JsonV::Object(cat_key(se, k))))
        } else {
            o
        },
    decreases se.len(),
{
    if se.len() > 0 {
        let pre = se.drop_last();
        assert forall|j: int| 0 <= j < pre.len() implies pre[j] == se[j] by {}
        lemma_fold_objects(o, pre, k);
        if se.last().0 == k {
            let w = se.last().1;
            let we = w->Object_0;
            assert(se[se.len() - 1] == se.last());
            if names_key(pre, k) {
                match or_empty(o) {
                    JsonV::Object(ye) => lemma_merge_concat(ye, cat_key(pre, k), we),
                    _ => {},
                }
            } else {
                assert(cat_key(pre, k) =~= Seq::<(Seq<char>, JsonV)>::empty()) by {
                    lemma_cat_empty(pre, k);
                }
                assert(cat_key(pre, k) + we =~= we);
            }
        } else {
            if names_key(se, k) {
                let j = choose|j: int| 0 <= j < se.len() && se[j].0 == k;
                assert(j < se.len() - 1);
                assert(pre[j] == se[j]);
            }
            if names_key(pre, k) {
                let j = choose|j: int| 0 <= j < pre.len() && pre[j].0 == k;
                assert(pre[j] == se[j]);
            }
        }
    }
}

proof fn lemma_cat_empty(se: Seq<(Seq<char>, JsonV)>, k: Seq<char>)
    requires
        !names_key(se, k),
    ensures
        cat_key(se, k) == Seq::<(Seq<char>, JsonV)>::empty(),
    decreases se.len(),
{
    if se.len() > 0 {
        let pre = se.drop_last();
        assert forall|j: int| 0 <= j < pre.len() implies pre[j] == se[j] by {}
        assert(se[se.len() - 1] == se.last());
        lemma_cat_empty(pre, k);
    }
}

proof fn lemma_cat_bounded(se: Seq<(Seq<char>, JsonV)>, k: Seq<char>, m: nat)
    requires
        forall|i: int| 0 <= i < se.len() ==> bounded(#[trigger] se[i].1, m),
    ensures
        bounded(JsonV::Object(cat_key(se, k)), m),
    decreases se.len(),
{
    if se.len() > 0 {
        let pre = se.drop_last();
        assert forall|i: int| 0 <= i < pre.len() implies bounded(#[trigger] pre[i].1, m) by {
            assert(pre[i] == se[i]);
        }
        lemma_cat_bounded(pre, k, m);
        let a = cat_key(pre, k);
        assert(bounded(se[se.len() - 1].1, m));
        if se.last().0 == k {
            if let JsonV::Object(we) = se.last().1 {
                if m == 0 {
                    assert(a + we =~= Seq::<(Seq<char>, JsonV)>::empty());
                } else {
                    assert(JsonV::Object(a)->Object_0 == a);
                    assert(JsonV::Object(a + we)->Object_0 == a + we);
                    assert forall|i: int|
                        #![trigger (a + we)[i]]
                        0 <= i < (a + we).len() implies bounded((a + we)[i].1, (m - 1) as nat) by {
                        if i < a.len() {
                            assert((a + we)[i] == a[i]);
                        } else {
                            assert((a + we)[i] == we[i - a.len()]);
                        }
                    }
                }
            }
        }
    }
}

/// Merging with the same entries again leaves what a first merge left,
/// where every value under one key merged twice gives what it gave once.
proof fn lemma_fold_twice(o: Option<JsonV>, se: Seq<(Seq<char>, JsonV)>, k: Seq<char>)
    requires
        forall|x: JsonV|
            #[trigger] merge_v(merge_v(x, JsonV::Object(cat_key(se, k))), JsonV::Object(cat_key(se, k)))
                == merge_v(x, JsonV::Object(cat_key(se, k))),
    ensures
        fold_key(o, se, k) is Some ==> fold_key(fold_key(o, se, k), se, k) == fold_key(o, se, k),
{
    if has_plain(se, k) {
        lemma_fold_plain(o, fold_key(o, se, k), se, k);
    } else {
        lemma_fold_objects(o, se, k);
        lemma_fold_objects(fold_key(o, se, k), se, k);
        let c = JsonV::Object(cat_key(se, k));
        if names_key(se, k) {
            assert(merge_v(merge_v(or_empty(o), c), c) == merge_v(or_empty(o), c));
        }
    }
}

proof fn lemma_same_keys_find<X, Y>(p: Seq<(Seq<char>, X)>, q: Seq<(Seq<char>, Y)>, k: Seq<char>)
    requires
        p.len() == q.len(),
        forall|i: int| 0 <= i < p.len() ==> #[trigger] p[i].0 == q[i].0,
    ensures
        find_key(p, k) == find_key(q, k),
{
    lemma_find_key(p, k);
    lemma_find_key(q, k);
    match find_key(p, k) {
        Some(i) => {
            assert(q[i].0 == k);
            match find_key(q, k) {
                Some(i2) => {
                    if i2 < i {
                        assert(p[i2].0 == q[i2].0);
                    } else if i < i2 {
                        assert(p[i].0 == q[i].0);
                    }
                },
                None => {},
            }
        },
        None => {
            match find_key(q, k) {
                Some(i2) => {
                    assert(p[i2].0 == q[i2].0);
                },
                None => {},
            }
        },
    }
}

/// Merging entries whose keys all stand in the destination changes only the
/// value at the first position of each such key.
proof fn lemma_merge_in_place(de: Seq<(Seq<char>, JsonV)>, se: Seq<(Seq<char>, JsonV)>)
    requires
        forall|j: int| 0 <= j < se.len() ==> find_key(de, #[trigger] se[j].0) is Some,
    ensures
        merge_entries(de, se).len() == de.len(),
        forall|p: int| 0 <= p < de.len() ==> #[trigger] merge_entries(de, se)[p].0 == de[p].0,
        forall|p: int|
            0 <= p < de.len() && find_key(de, de[p].0) != Some(p) ==> #[trigger] merge_entries(
                de,
                se,
            )[p] == de[p],
    decreases se.len(),
{
    if se.len() > 0 {
        let pre = se.drop_last();
        assert forall|j: int| 0 <= j < pre.len() implies find_key(de, #[trigger] pre[j].0) is Some by {
            assert(pre[j] == se[j]);
        }
        lemma_merge_in_place(de, pre);
        let prev = merge_entries(de, pre);
        let k = se.last().0;
        let v = se.last().1;
        assert(se[se.len() - 1] == se.last());
        lemma_same_keys_find(prev, de, k);
        lemma_find_key(de, k);
        let i = find_key(de, k)->0;
        let r = merge_entries(de, se);
        if v is Object {
            assert(r == prev.update(i, (k, merge_v(prev[i].1, v))));
        } else {
            assert(r == prev.update(i, (k, v)));
        }
        assert forall|p: int|
            0 <= p < de.len() && find_key(de, de[p].0) != Some(p) implies #[trigger] r[p]
            == de[p] by {
            if p == i {
                assert(de[p].0 == k);
            }
        }
    }
}

/// The law over a bound on how deep the source's objects nest.
proof fn lemma_merge_twice(d: JsonV, s: JsonV, n: nat)
    requires
        bounded(s, n),
    ensures
        merge_v(merge_v(d, s), s) == merge_v(d, s),
    decreases n,
{
    match d {
        JsonV::Object(de) => match s {
            JsonV::Object(se) => {
                let big = merge_entries(de, se);
                if n == 0 {
                    assert(big == de);
                } else {
                    assert forall|i: int| 0 <= i < se.len() implies bounded(
                        #[trigger] se[i].1,
                        (n - 1) as nat,
                    ) by {
                        assert(se[i] == se[i]);
                    }
                    assert forall|j: int| 0 <= j < se.len() implies find_key(
                        big,
                        #[trigger] se[j].0,
                    ) is Some by {
                        lemma_merge_fold(de, se, se[j].0);
                        lemma_fold_some(entries_get(de, se[j].0), se, se[j].0, j);
                    }
                    lemma_merge_in_place(big, se);
                    let second = merge_entries(big, se);
                    assert forall|p: int| 0 <= p < big.len() implies #[trigger] second[p]
                        == big[p] by {
                        let k = big[p].0;
                        if find_key(big, k) == Some(p) {
                            lemma_same_keys_find(second, big, k);
                            lemma_merge_fold(de, se, k);
                            lemma_merge_fold(big, se, k);
                            lemma_cat_bounded(se, k, (n - 1) as nat);
                            let c = JsonV::Object(cat_key(se, k));
                            assert forall|x: JsonV| #[trigger] merge_v(merge_v(x, c), c) == merge_v(
                                x,
                                c,
                            ) by {
                                lemma_merge_twice(x, c, (n - 1) as nat);
                            }
                            lemma_fold_twice(entries_get(de, k), se, k);
                        }
                    }
                    assert(second =~= big);
                }
            },
            _ => {},
        },
        _ => {},
    }
}

/// Merging the same source a second time changes nothing.
pub proof fn law_merge_idempotent(d: JsonV, s: JsonV)
    ensures
        merge_v(merge_v(d, s), s) == merge_v(d, s),
{
    let n = lemma_bound_of(s);
    lemma_merge_twice(d, s, n);
}

// ---------------------------------------------------------------------------
// The starting state
fn count_object(n: &str) -> (res: Json)
    ensures
        res.view_of() == JsonV::Object(seq![("count"@, JsonV::Number(n@))]),
{
    let mut e: Vec<(String, Json)> = Vec::new();
    e.push((owned("count"), json_number(n)));
    proof {
        lemma_object_view(e);
    }
    assert(entries_view(e@) =~= seq![("count"@, JsonV::Number(n@))]);
    Json::Object(e)
}

/// The raw state that the front end starts from, before any update.
pub open spec fn initial_raw_state_v() -> JsonV {
    JsonV::Object(
        seq![
            ("interpreter_state"@, JsonV::Str("idle"@)),
            ("temperature_devices"@, JsonV::Object(seq![("count"@, JsonV::Number("1"@))])),
            ("extruders"@, JsonV::Object(seq![("count"@, JsonV::Number("1"@))])),
            ("fans"@, JsonV::Object(seq![("count"@, JsonV::Number("1"@))])),
            ("leds"@, JsonV::Object(seq![("count"@, JsonV::Number("0"@))])),
            ("output_pins"@, JsonV::Object(seq![("count"@, JsonV::Number("0"@))])),
            ("pwm_tools"@, JsonV::Object(seq![("count"@, JsonV::Number("0"@))])),
            ("config_sections"@, JsonV::Array(Seq::empty())),
        ],
    )
}

/// The raw state that the front end starts from (see [`initial_raw_state_v`]).
pub fn initial_raw_state() -> (res: Json)
    ensures
        res.view_of() == initial_raw_state_v(),
{
    let mut e: Vec<(String, Json)> = Vec::new();
    e.push((owned("interpreter_state"), json_str("idle")));
    e.push((owned("temperature_devices"), count_object("1")));
    e.push((owned("extruders"), count_object("1")));
    e.push((owned("fans"), count_object("1")));
    e.push((owned("leds"), count_object("0")));
    e.push((owned("output_pins"), count_object("0")));
    e.push((owned("pwm_tools"), count_object("0")));
    let empty: Vec<Json> = Vec::new();
    let arr = Json::Array(empty);
    assert(arr.view_of() =~= JsonV::Array(Seq::empty())) by {
        if let JsonV::Array(x) = arr.view_of() {
            assert(x =~= Seq::<JsonV>::empty());
        }
    }
    e.push((owned("config_sections"), arr));
    proof {
        lemma_object_view(e);
    }
    let res = Json::Object(e);
    assert(entries_view(e@) =~= match initial_raw_state_v() {
        JsonV::Object(x) => x,
        _ => Seq::empty(),
    });
    res
}

// ---------------------------------------------------------------------------
// What an update sets
/// The number text at `a.b` of `v`, where both levels are objects and the
/// value is a number.
pub open spec fn number_at(v: JsonV, a: Seq<char>, b: Seq<char>) -> Option<Seq<char>> {
    match obj_get(v, a) {
        Some(x) => match obj_get(x, b) {
            Some(JsonV::Number(t)) => Some(t),
            _ => None,
        },
        None => None,
    }
}

/// The string at `a.b` of `v`, where both levels are objects and the value
/// is a string.
pub open spec fn string_at(v: JsonV, a: Seq<char>, b: Seq<char>) -> Option<Seq<char>> {
    match obj_get(v, a) {
        Some(x) => match obj_get(x, b) {
            Some(JsonV::Str(t)) => Some(t),
            _ => None,
        },
        None => None,
    }
}

/// The fields that a status update gives: the number texts and strings at
/// the places where the front end reads them.
pub struct StatusUpdate {
    pub extruder_temperature: Option<String>,
    pub extruder_target: Option<String>,
    pub bed_temperature: Option<String>,
    pub bed_target: Option<String>,
    pub fan_speed: Option<String>,
    pub print_progress: Option<String>,
    pub print_filename: Option<String>,
    pub print_state: Option<String>,
    pub sdcard_progress: Option<String>,
}

fn number_field(v: &Json, a: &str, b: &str) -> (res: Option<String>)
    ensures
        match res {
            Some(t) => number_at(v.view_of(), a@, b@) == Some(t@),
            None => number_at(v.view_of(), a@, b@) is None,
        },
{
    match get_field(v, a) {
        Some(x) => match get_field(x, b) {
            Some(Json::Number(t)) => Some(t.clone()),
            _ => None,
        },
        None => None,
    }
}

fn string_field(v: &Json, a: &str, b: &str) -> (res: Option<String>)
    ensures
        match res {
            Some(t) => string_at(v.view_of(), a@, b@) == Some(t@),
            None => string_at(v.view_of(), a@, b@) is None,
        },
{
    match get_field(v, a) {
        Some(x) => match get_field(x, b) {
            Some(Json::Str(t)) => Some(t.clone()),
            _ => None,
        },
        None => None,
    }
}

impl StatusUpdate {
    pub open spec fn matches_update(self, v: JsonV) -> bool {
        &&& opt_eq(self.extruder_temperature, number_at(v, "extruder"@, "temperature"@))
        &&& opt_eq(self.extruder_target, number_at(v, "extruder"@, "target"@))
        &&& opt_eq(self.bed_temperature, number_at(v, "heater_bed"@, "temperature"@))
        &&& opt_eq(self.bed_target, number_at(v, "heater_bed"@, "target"@))
        &&& opt_eq(self.fan_speed, number_at(v, "fan"@, "speed"@))
        &&& opt_eq(self.print_progress, number_at(v, "print_stats"@, "progress"@))
        &&& opt_eq(self.print_filename, string_at(v, "print_stats"@, "filename"@))
        &&& opt_eq(self.print_state, string_at(v, "print_stats"@, "state"@))
        &&& opt_eq(self.sdcard_progress, number_at(v, "virtual_sdcard"@, "progress"@))
    }
}

/// Whether `field` reports the number held at `a.b` of `v`: its text where
/// `v`'s object `a` holds a number under `b`, nothing otherwise.
pub open spec fn reports_number(field: Option<String>, v: JsonV, a: Seq<char>, b: Seq<char>) -> bool {
    &&& obj_get(v, a) is None ==> field is None
    &&& forall|x: JsonV|
        #[trigger] obj_get(v, a) == Some(x) ==> match obj_get(x, b) {
            Some(JsonV::Number(t)) => field matches Some(f) && f@ == t,
            _ => field is None,
        }
}

/// Whether `field` reports the string held at `a.b` of `v`.
pub open spec fn reports_string(field: Option<String>, v: JsonV, a: Seq<char>, b: Seq<char>) -> bool {
    &&& obj_get(v, a) is None ==> field is None
    &&& forall|x: JsonV|
        #[trigger] obj_get(v, a) == Some(x) ==> match obj_get(x, b) {
            Some(JsonV::Str(t)) => field matches Some(f) && f@ == t,
            _ => field is None,
        }
}

/// Each field of a status update reads its own place of the update: the
/// extruder's and the bed's `temperature` and `target`, the fan's `speed`,
/// the print's `progress`, `filename` and `state`, the SD card's
/// `progress`, whatever else those objects hold.
pub proof fn law_status_fields(r: StatusUpdate, v: JsonV)
    requires
        r.matches_update(v),
    ensures
        reports_number(r.extruder_temperature, v, "extruder"@, "temperature"@),
        reports_number(r.extruder_target, v, "extruder"@, "target"@),
        reports_number(r.bed_temperature, v, "heater_bed"@, "temperature"@),
        reports_number(r.bed_target, v, "heater_bed"@, "target"@),
        reports_number(r.fan_speed, v, "fan"@, "speed"@),
        reports_number(r.print_progress, v, "print_stats"@, "progress"@),
        reports_string(r.print_filename, v, "print_stats"@, "filename"@),
        reports_string(r.print_state, v, "print_stats"@, "state"@),
        reports_number(r.sdcard_progress, v, "virtual_sdcard"@, "progress"@),
{
}

/// Whether an optional string views as `s`.
pub open spec fn opt_eq(r: Option<String>, s: Option<Seq<char>>) -> bool {
    match r {
        Some(x) => s == Some(x@),
        None => s is None,
    }
}

/// The fields that the status update `update` gives (see [`StatusUpdate`]).
pub fn status_update(update: &Json) -> (res: StatusUpdate)
    ensures
        res.matches_update(update.view_of()),
{
    StatusUpdate {
        extruder_temperature: number_field(update, "extruder", "temperature"),
        extruder_target: number_field(update, "extruder", "target"),
        bed_temperature: number_field(update, "heater_bed", "temperature"),
        bed_target: number_field(update, "heater_bed", "target"),
        fan_speed: number_field(update, "fan", "speed"),
        print_progress: number_field(update, "print_stats", "progress"),
        print_filename: string_field(update, "print_stats", "filename"),
        print_state: string_field(update, "print_stats", "state"),
        sdcard_progress: number_field(update, "virtual_sdcard", "progress"),
    }
}

} // verus!
