//! The JSON tree and its canonicalization: recursively sorting object
//! keys so that equal documents render identically.

use vstd::prelude::*;

verus! {

/// A JSON document as a plain tree. Numbers keep the decimal rendering
/// the parser produced; objects keep their entries in order of
/// appearance, so a freshly parsed or hand-built tree may be unsorted.
#[derive(Debug, PartialEq, Eq)]
pub enum JsonValue {
    Null,
    Bool(bool),
    Num(String),
    Str(String),
    Arr(Vec<JsonValue>),
    Obj(Vec<(String, JsonValue)>),
}

/// The mathematical model of a JSON tree.
#[verifier::ext_equal]
pub enum JVal {
    Null,
    Bool(bool),
    Num(Seq<char>),
    Str(Seq<char>),
    Arr(Seq<JVal>),
    Obj(Seq<(Seq<char>, JVal)>),
}

/// The model of an array's element list.
pub open spec fn elems_view(a: Seq<JsonValue>) -> Seq<JVal>
    decreases a,
{
    if a.len() == 0 {
        Seq::empty()
    } else {
        seq![a[0]@] + elems_view(a.subrange(1, a.len() as int))
    }
}

/// The model of an object's entry list.
pub open spec fn entries_view(m: Seq<(String, JsonValue)>) -> Seq<(Seq<char>, JVal)>
    decreases m,
{
    if m.len() == 0 {
        Seq::empty()
    } else {
        seq![(m[0].0@, m[0].1@)] + entries_view(m.subrange(1, m.len() as int))
    }
}

impl View for JsonValue {
    type V = JVal;

    open spec fn view(&self) -> JVal
        decreases self,
    {
        match self {
            JsonValue::Null => JVal::Null,
            JsonValue::Bool(b) => JVal::Bool(*b),
            JsonValue::Num(s) => JVal::Num(s@),
            JsonValue::Str(s) => JVal::Str(s@),
            JsonValue::Arr(a) => JVal::Arr(elems_view(a@)),
            JsonValue::Obj(m) => JVal::Obj(entries_view(m@)),
        }
    }
}

/// `elems_view` is the pointwise view of the elements.
pub proof fn lemma_elems_view(a: Seq<JsonValue>)
    ensures
        elems_view(a).len() == a.len(),
        forall|i: int| 0 <= i < a.len() ==> elems_view(a)[i] == a[i]@,
    decreases a.len(),
{
    if a.len() > 0 {
        let sub = a.subrange(1, a.len() as int);
        lemma_elems_view(sub);
        assert(elems_view(a) == seq![a[0]@] + elems_view(sub));
        assert forall|i: int| 0 <= i < a.len() implies elems_view(a)[i] == a[i]@ by {
            if i >= 1 {
                assert(elems_view(sub)[i - 1] == sub[i - 1]@);
                assert(sub[i - 1] == a[i]);
            }
        }
    }
}

/// `entries_view` is the pointwise view of the entries.
pub proof fn lemma_entries_view(m: Seq<(String, JsonValue)>)
    ensures
        entries_view(m).len() == m.len(),
        forall|i: int| 0 <= i < m.len() ==> entries_view(m)[i] == (m[i].0@, m[i].1@),
    decreases m.len(),
{
    if m.len() > 0 {
        let sub = m.subrange(1, m.len() as int);
        lemma_entries_view(sub);
        assert(entries_view(m) == seq![(m[0].0@, m[0].1@)] + entries_view(sub));
        assert forall|i: int| 0 <= i < m.len() implies entries_view(m)[i] == (m[i].0@, m[i].1@) by {
            if i >= 1 {
                assert(entries_view(sub)[i - 1] == (sub[i - 1].0@, sub[i - 1].1@));
                assert(sub[i - 1] == m[i]);
            }
        }
    }
}

/// Lexicographic order on strings by character code point, the order
/// `sort` on `String` keys uses.
pub open spec fn str_le(a: Seq<char>, b: Seq<char>) -> bool
    decreases a.len(),
{
    if a.len() == 0 {
        true
    } else if b.len() == 0 {
        false
    } else if a[0] == b[0] {
        str_le(a.skip(1), b.skip(1))
    } else {
        (a[0] as int) < (b[0] as int)
    }
}

/// `str_le` is reflexive.
pub proof fn lemma_str_le_refl(a: Seq<char>)
    ensures
        str_le(a, a),
    decreases a.len(),
{
    if a.len() > 0 {
        lemma_str_le_refl(a.skip(1));
    }
}

/// `str_le` is total.
pub proof fn lemma_str_le_total(a: Seq<char>, b: Seq<char>)
    ensures
        str_le(a, b) || str_le(b, a),
    decreases a.len(),
{
    if a.len() > 0 && b.len() > 0 {
        if a[0] == b[0] {
            lemma_str_le_total(a.skip(1), b.skip(1));
        } else {
            assert((a[0] as int) != (b[0] as int));
        }
    }
}

/// `str_le` is transitive.
pub proof fn lemma_str_le_trans(a: Seq<char>, b: Seq<char>, c: Seq<char>)
    requires
        str_le(a, b),
        str_le(b, c),
    ensures
        str_le(a, c),
    decreases a.len(),
{
    if a.len() > 0 && b.len() > 0 && c.len() > 0 && a[0] == b[0] && b[0] == c[0] {
        lemma_str_le_trans(a.skip(1), b.skip(1), c.skip(1));
    }
}

/// `str_le` is antisymmetric.
pub proof fn lemma_str_le_antisym(a: Seq<char>, b: Seq<char>)
    requires
        str_le(a, b),
        str_le(b, a),
    ensures
        a == b,
    decreases a.len(),
{
    if a.len() == 0 {
        assert(a =~= b);
    } else if a[0] == b[0] {
        lemma_str_le_antisym(a.skip(1), b.skip(1));
        assert(a =~= seq![a[0]] + a.skip(1));
        assert(b =~= seq![b[0]] + b.skip(1));
    } else {
        assert((a[0] as int) < (b[0] as int));
        assert((b[0] as int) < (a[0] as int));
    }
}

/// Compares two strings in the order of `str_le`.
pub fn str_le_exec(a: &str, b: &str) -> (r: bool)
    ensures
        r == str_le(a@, b@),
{
    let alen: usize = a.unicode_len();
    let blen: usize = b.unicode_len();
    let mut i: usize = 0;
    proof {
        assert(a@.skip(0) =~= a@);
        assert(b@.skip(0) =~= b@);
    }
    loop
        invariant
            alen == a@.len(),
            blen == b@.len(),
            0 <= i <= alen,
            i <= blen,
            str_le(a@, b@) == str_le(a@.skip(i as int), b@.skip(i as int)),
        decreases alen - i,
    {
        if i == alen {
            return true;
        }
        if i == blen {
            proof {
                assert(a@.skip(i as int).len() > 0);
            }
            return false;
        }
        let ca = a.get_char(i);
        let cb = b.get_char(i);
        if ca != cb {
            proof {
                assert(a@.skip(i as int)[0] == a@[i as int]);
                assert(b@.skip(i as int)[0] == b@[i as int]);
            }
            return (ca as u32) < (cb as u32);
        }
        proof {
            assert(a@.skip(i as int).skip(1) =~= a@.skip(i + 1));
            assert(b@.skip(i as int).skip(1) =~= b@.skip(i + 1));
        }
        i = i + 1;
    }
}

/// Inserts an entry into an entry list that is sorted by key, after
/// every entry whose key is less than or equal, so equal keys keep
/// their order of arrival.
pub open spec fn insert_sorted(
    e: (Seq<char>, JVal),
    s: Seq<(Seq<char>, JVal)>,
) -> Seq<(Seq<char>, JVal)>
    decreases s.len(),
{
    if s.len() == 0 {
        seq![e]
    } else if str_le(s[0].0, e.0) {
        seq![s[0]] + insert_sorted(e, s.subrange(1, s.len() as int))
    } else {
        seq![e] + s
    }
}

/// Insertion sort of an entry list by key.
pub open spec fn sort_entries(s: Seq<(Seq<char>, JVal)>) -> Seq<(Seq<char>, JVal)>
    decreases s.len(),
{
    if s.len() == 0 {
        s
    } else {
        insert_sorted(s.last(), sort_entries(s.drop_last()))
    }
}

/// An entry list is sorted when keys never decrease.
pub open spec fn sorted_entries(s: Seq<(Seq<char>, JVal)>) -> bool {
    forall|i: int, j: int| 0 <= i < j < s.len() ==> str_le(s[i].0, s[j].0)
}

/// No two entries of the list share a key.
pub open spec fn unique_keys(s: Seq<(Seq<char>, JVal)>) -> bool {
    forall|i: int, j: int| 0 <= i < j < s.len() ==> s[i].0 != s[j].0
}

/// Some entry of the list has the key `k`.
pub open spec fn has_key(s: Seq<(Seq<char>, JVal)>, k: Seq<char>) -> bool {
    exists|i: int| 0 <= i < s.len() && s[i].0 == k
}

/// A key occurs in a concatenation exactly when it occurs in one half.
pub proof fn lemma_has_key_concat(s1: Seq<(Seq<char>, JVal)>, s2: Seq<(Seq<char>, JVal)>, k: Seq<char>)
    ensures
        has_key(s1 + s2, k) <==> (has_key(s1, k) || has_key(s2, k)),
{
    if has_key(s1 + s2, k) {
        let i = choose|i: int| 0 <= i < (s1 + s2).len() && (s1 + s2)[i].0 == k;
        if i < s1.len() {
            assert(s1[i].0 == k);
        } else {
            assert(s2[i - s1.len()].0 == k);
        }
    }
    if has_key(s1, k) {
        let i = choose|i: int| 0 <= i < s1.len() && s1[i].0 == k;
        assert((s1 + s2)[i].0 == k);
    }
    if has_key(s2, k) {
        let i = choose|i: int| 0 <= i < s2.len() && s2[i].0 == k;
        assert((s1 + s2)[s1.len() + i].0 == k);
    }
}

/// Inserting adds the inserted key and keeps the others.
pub proof fn lemma_insert_sorted_keys(e: (Seq<char>, JVal), s: Seq<(Seq<char>, JVal)>, k: Seq<char>)
    ensures
        has_key(insert_sorted(e, s), k) <==> (k == e.0 || has_key(s, k)),
    decreases s.len(),
{
    if s.len() == 0 {
        assert(seq![e][0].0 == e.0);
        if k == e.0 {
            assert(has_key(seq![e], k));
        }
    } else if str_le(s[0].0, e.0) {
        let tail = s.subrange(1, s.len() as int);
        lemma_insert_sorted_keys(e, tail, k);
        lemma_has_key_concat(seq![s[0]], insert_sorted(e, tail), k);
        lemma_has_key_concat(seq![s[0]], tail, k);
        assert(s =~= seq![s[0]] + tail);
        assert(seq![s[0]][0].0 == s[0].0);
        if s[0].0 == k {
            assert(has_key(seq![s[0]], k));
        }
    } else {
        lemma_has_key_concat(seq![e], s, k);
        assert(seq![e][0].0 == e.0);
        if k == e.0 {
            assert(has_key(seq![e], k));
        }
    }
}

/// Inserting into a sorted list keeps it sorted, grows it by one, and
/// adds exactly the inserted entry to its contents.
pub proof fn lemma_insert_sorted_props(e: (Seq<char>, JVal), s: Seq<(Seq<char>, JVal)>)
    requires
        sorted_entries(s),
    ensures
        sorted_entries(insert_sorted(e, s)),
        insert_sorted(e, s).len() == s.len() + 1,
        insert_sorted(e, s).to_multiset() == s.to_multiset().insert(e),
    decreases s.len(),
{
    broadcast use vstd::seq_lib::group_to_multiset_ensures;
    broadcast use vstd::multiset::group_multiset_axioms;

    if s.len() == 0 {
        assert(seq![e] =~= Seq::<(Seq<char>, JVal)>::empty().push(e));
        assert(insert_sorted(e, s).to_multiset() =~= s.to_multiset().insert(e));
    } else if str_le(s[0].0, e.0) {
        let tail = s.subrange(1, s.len() as int);
        assert(sorted_entries(tail)) by {
            assert(forall|i: int, j: int|
                0 <= i < j < tail.len() ==> tail[i] == s[i + 1] && tail[j] == s[j + 1]);
        }
        lemma_insert_sorted_props(e, tail);
        let ins = insert_sorted(e, tail);
        let whole = seq![s[0]] + ins;
        assert(insert_sorted(e, s) == whole);
        // every entry of the inserted tail is at or above the head
        assert forall|k: int| 0 <= k < ins.len() implies str_le(s[0].0, ins[k].0) by {
            assert(ins.contains(ins[k]));
            assert(ins.to_multiset().count(ins[k]) > 0);
            if ins[k] == e {
                assert(str_le(s[0].0, e.0));
            } else {
                assert(tail.to_multiset().count(ins[k]) > 0);
                assert(tail.contains(ins[k]));
                let t = choose|t: int| 0 <= t < tail.len() && tail[t] == ins[k];
                assert(s[t + 1] == tail[t]);
                assert(str_le(s[0].0, s[t + 1].0));
            }
        }
        assert forall|i: int, j: int| 0 <= i < j < whole.len() implies str_le(
            whole[i].0,
            whole[j].0,
        ) by {
            if i > 0 {
                assert(whole[i] == ins[i - 1] && whole[j] == ins[j - 1]);
            } else {
                assert(whole[j] == ins[j - 1]);
            }
        }
        // contents: s = [s[0]] + tail, so both sides add the head and e
        vstd::seq_lib::lemma_multiset_commutative(seq![s[0]], ins);
        vstd::seq_lib::lemma_multiset_commutative(seq![s[0]], tail);
        assert(s =~= seq![s[0]] + tail);
        assert(whole.to_multiset() =~= s.to_multiset().insert(e));
    } else {
        let whole = seq![e] + s;
        assert(insert_sorted(e, s) == whole);
        proof_str_le_head(e, s);
        assert forall|i: int, j: int| 0 <= i < j < whole.len() implies str_le(
            whole[i].0,
            whole[j].0,
        ) by {
            if i > 0 {
                assert(whole[i] == s[i - 1] && whole[j] == s[j - 1]);
            } else {
                assert(whole[j] == s[j - 1]);
            }
        }
        vstd::seq_lib::lemma_multiset_commutative(seq![e], s);
        assert(seq![e] =~= Seq::<(Seq<char>, JVal)>::empty().push(e));
        assert(whole.to_multiset() =~= s.to_multiset().insert(e));
    }
}

/// When the head of a sorted list is above `e`, so is the whole list.
proof fn proof_str_le_head(e: (Seq<char>, JVal), s: Seq<(Seq<char>, JVal)>)
    requires
        sorted_entries(s),
        s.len() > 0,
        !str_le(s[0].0, e.0),
    ensures
        forall|k: int| 0 <= k < s.len() ==> str_le(e.0, s[k].0),
{
    assert forall|k: int| 0 <= k < s.len() implies str_le(e.0, s[k].0) by {
        lemma_str_le_total(s[0].0, e.0);
        if k > 0 {
            lemma_str_le_trans(e.0, s[0].0, s[k].0);
        }
    }
}

/// Sorting sorts, keeps the length, and keeps the contents.
pub proof fn lemma_sort_entries_props(s: Seq<(Seq<char>, JVal)>)
    ensures
        sorted_entries(sort_entries(s)),
        sort_entries(s).len() == s.len(),
        sort_entries(s).to_multiset() == s.to_multiset(),
    decreases s.len(),
{
    broadcast use vstd::seq_lib::group_to_multiset_ensures;
    broadcast use vstd::multiset::group_multiset_axioms;

    if s.len() > 0 {
        lemma_sort_entries_props(s.drop_last());
        lemma_insert_sorted_props(s.last(), sort_entries(s.drop_last()));
        assert(s =~= s.drop_last().push(s.last()));
        assert(sort_entries(s).to_multiset() =~= s.to_multiset());
    }
}

/// Sorting and inserting neither add nor lose keys.
pub proof fn lemma_sort_entries_keys(s: Seq<(Seq<char>, JVal)>, k: Seq<char>)
    ensures
        has_key(sort_entries(s), k) <==> has_key(s, k),
    decreases s.len(),
{
    if s.len() > 0 {
        lemma_sort_entries_keys(s.drop_last(), k);
        lemma_insert_sorted_keys(s.last(), sort_entries(s.drop_last()), k);
        lemma_has_key_concat(s.drop_last(), seq![s.last()], k);
        assert(s =~= s.drop_last() + seq![s.last()]);
        assert(seq![s.last()][0].0 == s.last().0);
        if s.last().0 == k {
            assert(has_key(seq![s.last()], k));
        }
    }
}

/// Inserting an entry whose key is fresh keeps the keys unique.
pub proof fn lemma_insert_sorted_unique(e: (Seq<char>, JVal), s: Seq<(Seq<char>, JVal)>)
    requires
        unique_keys(s),
        !has_key(s, e.0),
    ensures
        unique_keys(insert_sorted(e, s)),
    decreases s.len(),
{
    if s.len() == 0 {
    } else if str_le(s[0].0, e.0) {
        let tail = s.subrange(1, s.len() as int);
        assert(forall|i: int| 0 <= i < tail.len() ==> tail[i] == s[i + 1]);
        assert(!has_key(tail, e.0)) by {
            if has_key(tail, e.0) {
                let t = choose|t: int| 0 <= t < tail.len() && tail[t].0 == e.0;
                assert(s[t + 1].0 == e.0);
            }
        }
        lemma_insert_sorted_unique(e, tail);
        let ins = insert_sorted(e, tail);
        let whole = seq![s[0]] + ins;
        assert forall|i: int, j: int| 0 <= i < j < whole.len() implies whole[i].0 != whole[j].0 by {
            if i == 0 {
                assert(whole[j] == ins[j - 1]);
                lemma_insert_sorted_keys(e, tail, s[0].0);
                if ins[j - 1].0 == s[0].0 {
                    assert(ins.contains(ins[j - 1]));
                    assert(has_key(ins, s[0].0));
                }
            } else {
                assert(whole[i] == ins[i - 1] && whole[j] == ins[j - 1]);
            }
        }
    } else {
        let whole = seq![e] + s;
        assert forall|i: int, j: int| 0 <= i < j < whole.len() implies whole[i].0 != whole[j].0 by {
            if i == 0 {
                assert(whole[j] == s[j - 1]);
                if s[j - 1].0 == e.0 {
                    assert(has_key(s, e.0));
                }
            } else {
                assert(whole[i] == s[i - 1] && whole[j] == s[j - 1]);
            }
        }
    }
}

/// Sorting keeps keys unique.
pub proof fn lemma_sort_entries_unique(s: Seq<(Seq<char>, JVal)>)
    requires
        unique_keys(s),
    ensures
        unique_keys(sort_entries(s)),
    decreases s.len(),
{
    if s.len() > 0 {
        let front = s.drop_last();
        assert(forall|i: int| 0 <= i < front.len() ==> front[i] == s[i]);
        lemma_sort_entries_unique(front);
        assert(!has_key(front, s.last().0)) by {
            if has_key(front, s.last().0) {
                let t = choose|t: int| 0 <= t < front.len() && front[t].0 == s.last().0;
                assert(s[t].0 == s[s.len() - 1].0);
            }
        }
        lemma_sort_entries_keys(front, s.last().0);
        lemma_insert_sorted_unique(s.last(), sort_entries(front));
    }
}

/// Inserting an entry at or above every key appends it.
pub proof fn lemma_insert_sorted_end(e: (Seq<char>, JVal), s: Seq<(Seq<char>, JVal)>)
    requires
        forall|k: int| 0 <= k < s.len() ==> str_le(s[k].0, e.0),
    ensures
        insert_sorted(e, s) == s.push(e),
    decreases s.len(),
{
    if s.len() == 0 {
        assert(seq![e] =~= s.push(e));
    } else {
        let tail = s.subrange(1, s.len() as int);
        assert(forall|i: int| 0 <= i < tail.len() ==> tail[i] == s[i + 1]);
        lemma_insert_sorted_end(e, tail);
        assert(seq![s[0]] + tail.push(e) =~= s.push(e));
    }
}

/// Sorting a sorted list changes nothing.
pub proof fn lemma_sort_entries_id(s: Seq<(Seq<char>, JVal)>)
    requires
        sorted_entries(s),
    ensures
        sort_entries(s) == s,
    decreases s.len(),
{
    if s.len() > 0 {
        let front = s.drop_last();
        assert(forall|i: int| 0 <= i < front.len() ==> front[i] == s[i]);
        lemma_sort_entries_id(front);
        lemma_insert_sorted_end(s.last(), front);
        assert(front.push(s.last()) =~= s);
    }
}

/// The recursive insertion lands at the first position whose key is
/// above the inserted one.
pub proof fn lemma_insert_sorted_at(e: (Seq<char>, JVal), s: Seq<(Seq<char>, JVal)>, p: int)
    requires
        0 <= p <= s.len(),
        forall|k: int| 0 <= k < p ==> str_le(s[k].0, e.0),
        p < s.len() ==> !str_le(s[p].0, e.0),
    ensures
        insert_sorted(e, s) == s.insert(p, e),
    decreases s.len(),
{
    if s.len() == 0 {
        assert(seq![e] =~= s.insert(0, e));
    } else if p == 0 {
        assert(seq![e] + s =~= s.insert(0, e));
    } else {
        let tail = s.subrange(1, s.len() as int);
        assert(forall|i: int| 0 <= i < tail.len() ==> tail[i] == s[i + 1]);
        lemma_insert_sorted_at(e, tail, p - 1);
        assert(seq![s[0]] + tail.insert(p - 1, e) =~= s.insert(p, e));
    }
}

/// Two sorted entry lists with the same contents and pairwise distinct
/// keys are equal.
pub proof fn lemma_sorted_unique_entries(x: Seq<(Seq<char>, JVal)>, y: Seq<(Seq<char>, JVal)>)
    requires
        sorted_entries(x),
        sorted_entries(y),
        unique_keys(x),
        x.to_multiset() == y.to_multiset(),
    ensures
        x == y,
    decreases x.len(),
{
    broadcast use vstd::seq_lib::group_to_multiset_ensures;
    broadcast use vstd::multiset::group_multiset_axioms;

    if x.len() == 0 || y.len() == 0 {
        assert(x.len() == x.to_multiset().len());
        assert(y.len() == y.to_multiset().len());
        assert(x =~= y);
    } else {
        assert(x.contains(x[0]));
        assert(y.contains(y[0]));
        assert(x.to_multiset().count(y[0]) > 0);
        assert(x.contains(y[0]));
        let i = choose|i: int| 0 <= i < x.len() && x[i] == y[0];
        assert(y.to_multiset().count(x[0]) > 0);
        assert(y.contains(x[0]));
        let j = choose|j: int| 0 <= j < y.len() && y[j] == x[0];
        assert(str_le(x[0].0, x[i].0)) by {
            if i == 0 {
                lemma_str_le_refl(x[0].0);
            }
        }
        assert(str_le(y[0].0, y[j].0)) by {
            if j == 0 {
                lemma_str_le_refl(y[0].0);
            }
        }
        lemma_str_le_antisym(x[0].0, y[0].0);
        // keys are unique in x, so the entry of x carrying this key is x[0]
        assert(x[i].0 == x[0].0);
        if i > 0 {
            assert(x[0].0 != x[i].0);
        }
        assert(x[0] == y[0]);
        assert(x.drop_first() =~= x.remove(0));
        assert(y.drop_first() =~= y.remove(0));
        assert(x.remove(0).to_multiset() =~= x.to_multiset().remove(x[0]));
        assert(y.remove(0).to_multiset() =~= y.to_multiset().remove(y[0]));
        assert(forall|k: int| 0 <= k < x.drop_first().len() ==> x.drop_first()[k] == x[k + 1]);
        assert(forall|k: int| 0 <= k < y.drop_first().len() ==> y.drop_first()[k] == y[k + 1]);
        lemma_sorted_unique_entries(x.drop_first(), y.drop_first());
        assert(x =~= seq![x[0]] + x.drop_first());
        assert(y =~= seq![y[0]] + y.drop_first());
    }
}

/// Canonicalization of a JSON tree: scalars are unchanged, arrays keep
/// their order with each element canonicalized, objects additionally
/// get their entries sorted by key.
pub open spec fn sort_val(v: JVal) -> JVal
    decreases v,
{
    match v {
        JVal::Arr(a) => JVal::Arr(sort_elems(a)),
        JVal::Obj(m) => JVal::Obj(sort_entries(sort_vals(m))),
        _ => v,
    }
}

/// Canonicalizes each element of an array.
pub open spec fn sort_elems(a: Seq<JVal>) -> Seq<JVal>
    decreases a,
{
    if a.len() == 0 {
        Seq::empty()
    } else {
        seq![sort_val(a[0])] + sort_elems(a.subrange(1, a.len() as int))
    }
}

/// Canonicalizes the value of each entry, keys and order untouched.
pub open spec fn sort_vals(m: Seq<(Seq<char>, JVal)>) -> Seq<(Seq<char>, JVal)>
    decreases m,
{
    if m.len() == 0 {
        Seq::empty()
    } else {
        seq![(m[0].0, sort_val(m[0].1))] + sort_vals(m.subrange(1, m.len() as int))
    }
}

/// `sort_elems` canonicalizes pointwise.
pub proof fn lemma_sort_elems(a: Seq<JVal>)
    ensures
        sort_elems(a).len() == a.len(),
        forall|i: int| 0 <= i < a.len() ==> sort_elems(a)[i] == sort_val(a[i]),
    decreases a.len(),
{
    if a.len() > 0 {
        let sub = a.subrange(1, a.len() as int);
        lemma_sort_elems(sub);
        assert forall|i: int| 0 <= i < a.len() implies sort_elems(a)[i] == sort_val(a[i]) by {
            if i >= 1 {
                assert(sort_elems(sub)[i - 1] == sort_val(sub[i - 1]));
                assert(sub[i - 1] == a[i]);
            }
        }
    }
}

/// `sort_vals` canonicalizes the values pointwise.
pub proof fn lemma_sort_vals(m: Seq<(Seq<char>, JVal)>)
    ensures
        sort_vals(m).len() == m.len(),
        forall|i: int| 0 <= i < m.len() ==> sort_vals(m)[i] == (m[i].0, sort_val(m[i].1)),
    decreases m.len(),
{
    if m.len() > 0 {
        let sub = m.subrange(1, m.len() as int);
        lemma_sort_vals(sub);
        assert forall|i: int| 0 <= i < m.len() implies sort_vals(m)[i] == (
            m[i].0,
            sort_val(m[i].1),
        ) by {
            if i >= 1 {
                assert(sort_vals(sub)[i - 1] == (sub[i - 1].0, sort_val(sub[i - 1].1)));
                assert(sub[i - 1] == m[i]);
            }
        }
    }
}

/// A tree is canonical when every object in it is sorted by key.
pub open spec fn canonical(v: JVal) -> bool
    decreases v,
{
    match v {
        JVal::Arr(a) => forall|i: int| 0 <= i < a.len() ==> canonical(#[trigger] a[i]),
        JVal::Obj(m) => sorted_entries(m) && forall|i: int|
            0 <= i < m.len() ==> canonical(#[trigger] m[i].1),
        _ => true,
    }
}

/// All entry values of a list are canonical.
pub open spec fn vals_canonical(s: Seq<(Seq<char>, JVal)>) -> bool {
    forall|i: int| 0 <= i < s.len() ==> canonical(#[trigger] s[i].1)
}

/// Inserting a canonical-valued entry keeps every value canonical.
pub proof fn lemma_insert_vals_canonical(e: (Seq<char>, JVal), s: Seq<(Seq<char>, JVal)>)
    requires
        vals_canonical(s),
        canonical(e.1),
    ensures
        vals_canonical(insert_sorted(e, s)),
    decreases s.len(),
{
    if s.len() == 0 {
    } else if str_le(s[0].0, e.0) {
        let tail = s.subrange(1, s.len() as int);
        assert(forall|i: int| 0 <= i < tail.len() ==> tail[i] == s[i + 1]);
        lemma_insert_vals_canonical(e, tail);
        let ins = insert_sorted(e, tail);
        let whole = seq![s[0]] + ins;
        assert forall|i: int| 0 <= i < whole.len() implies canonical(whole[i].1) by {
            if i > 0 {
                assert(whole[i] == ins[i - 1]);
            }
        }
    } else {
        let whole = seq![e] + s;
        assert forall|i: int| 0 <= i < whole.len() implies canonical(whole[i].1) by {
            if i > 0 {
                assert(whole[i] == s[i - 1]);
            }
        }
    }
}

/// Sorting entries keeps every value canonical.
pub proof fn lemma_sort_entries_vals_canonical(s: Seq<(Seq<char>, JVal)>)
    requires
        vals_canonical(s),
    ensures
        vals_canonical(sort_entries(s)),
    decreases s.len(),
{
    if s.len() > 0 {
        let front = s.drop_last();
        assert(forall|i: int| 0 <= i < front.len() ==> front[i] == s[i]);
        lemma_sort_entries_vals_canonical(front);
        lemma_insert_vals_canonical(s.last(), sort_entries(front));
    }
}

/// Canonicalization produces a canonical tree.
pub proof fn lemma_sort_val_canonical(v: JVal)
    ensures
        canonical(sort_val(v)),
    decreases v,
{
    match v {
        JVal::Arr(a) => {
            lemma_sort_elems(a);
            assert forall|i: int| 0 <= i < sort_elems(a).len() implies canonical(
                #[trigger] sort_elems(a)[i],
            ) by {
                lemma_sort_val_canonical(a[i]);
            }
        },
        JVal::Obj(m) => {
            lemma_sort_vals(m);
            let w = sort_vals(m);
            assert forall|i: int| 0 <= i < w.len() implies canonical(#[trigger] w[i].1) by {
                lemma_sort_val_canonical(m[i].1);
            }
            lemma_sort_entries_props(w);
            lemma_sort_entries_vals_canonical(w);
        },
        _ => {},
    }
}

/// A canonical tree is a fixed point of canonicalization.
pub proof fn lemma_canonical_sort_id(v: JVal)
    requires
        canonical(v),
    ensures
        sort_val(v) == v,
    decreases v,
{
    match v {
        JVal::Arr(a) => {
            lemma_sort_elems(a);
            assert forall|i: int| 0 <= i < a.len() implies sort_elems(a)[i] == a[i] by {
                lemma_canonical_sort_id(a[i]);
            }
            assert(sort_elems(a) =~= a);
        },
        JVal::Obj(m) => {
            lemma_sort_vals(m);
            assert forall|i: int| 0 <= i < m.len() implies sort_vals(m)[i] == m[i] by {
                lemma_canonical_sort_id(m[i].1);
            }
            assert(sort_vals(m) =~= m);
            lemma_sort_entries_id(m);
        },
        _ => {},
    }
}

/// Canonicalization is idempotent.
pub proof fn lemma_sort_idempotent(v: JVal)
    ensures
        sort_val(sort_val(v)) == sort_val(v),
{
    lemma_sort_val_canonical(v);
    lemma_canonical_sort_id(sort_val(v));
}

/// Canonicalizing values commutes with removing an entry.
proof fn lemma_sort_vals_remove(m: Seq<(Seq<char>, JVal)>, j: int)
    requires
        0 <= j < m.len(),
    ensures
        sort_vals(m.remove(j)) == sort_vals(m).remove(j),
{
    lemma_sort_vals(m);
    lemma_sort_vals(m.remove(j));
    assert(sort_vals(m.remove(j)) =~= sort_vals(m).remove(j)) by {
        assert(forall|i: int| 0 <= i < j ==> m.remove(j)[i] == m[i]);
        assert(forall|i: int| j <= i < m.len() - 1 ==> m.remove(j)[i] == m[i + 1]);
        assert(forall|i: int| 0 <= i < j ==> sort_vals(m).remove(j)[i] == sort_vals(m)[i]);
        assert(forall|i: int|
            j <= i < m.len() - 1 ==> sort_vals(m).remove(j)[i] == sort_vals(m)[i + 1]);
    }
}

/// Entry lists with the same contents canonicalize to lists with the
/// same contents.
proof fn lemma_sort_vals_perm(m1: Seq<(Seq<char>, JVal)>, m2: Seq<(Seq<char>, JVal)>)
    requires
        m1.to_multiset() == m2.to_multiset(),
    ensures
        sort_vals(m1).to_multiset() == sort_vals(m2).to_multiset(),
    decreases m1.len(),
{
    broadcast use vstd::seq_lib::group_to_multiset_ensures;
    broadcast use vstd::multiset::group_multiset_axioms;

    lemma_sort_vals(m1);
    lemma_sort_vals(m2);
    if m1.len() == 0 {
        assert(m1.len() == m1.to_multiset().len());
        assert(m2.len() == m2.to_multiset().len());
        assert(sort_vals(m1) =~= sort_vals(m2));
    } else {
        assert(m1.contains(m1[0]));
        assert(m2.to_multiset().count(m1[0]) > 0);
        assert(m2.contains(m1[0]));
        let j = choose|j: int| 0 <= j < m2.len() && m2[j] == m1[0];
        let r1 = m1.remove(0);
        let r2 = m2.remove(j);
        assert(r1.to_multiset() =~= m1.to_multiset().remove(m1[0]));
        assert(r2.to_multiset() =~= m2.to_multiset().remove(m2[j]));
        lemma_sort_vals_perm(r1, r2);
        lemma_sort_vals_remove(m1, 0);
        lemma_sort_vals_remove(m2, j);
        let w1 = sort_vals(m1);
        let w2 = sort_vals(m2);
        assert(w1[0] == w2[j]);
        assert(w1.remove(0).to_multiset() =~= w1.to_multiset().remove(w1[0]));
        assert(w2.remove(j).to_multiset() =~= w2.to_multiset().remove(w2[j]));
        assert(w1.contains(w1[0]));
        assert(w2.contains(w2[j]));
        assert(w1.to_multiset() =~= w2.to_multiset()) by {
            assert(w1.to_multiset().remove(w1[0]) =~= w2.to_multiset().remove(w1[0]));
            assert(w1.to_multiset().count(w1[0]) > 0);
            assert(w2.to_multiset().count(w1[0]) > 0);
            assert forall|y: (Seq<char>, JVal)| true implies w1.to_multiset().count(y)
                == w2.to_multiset().count(y) by {
                assert(w1.to_multiset().remove(w1[0]).count(y) == w2.to_multiset().remove(
                    w1[0],
                ).count(y));
            }
        }
    }
}

/// Keys survive `sort_vals` unchanged.
proof fn lemma_sort_vals_unique(m: Seq<(Seq<char>, JVal)>)
    requires
        unique_keys(m),
    ensures
        unique_keys(sort_vals(m)),
{
    lemma_sort_vals(m);
    assert forall|i: int, j: int| 0 <= i < j < sort_vals(m).len() implies sort_vals(m)[i].0
        != sort_vals(m)[j].0 by {
        assert(sort_vals(m)[i].0 == m[i].0);
        assert(sort_vals(m)[j].0 == m[j].0);
    }
}

/// Canonicalization is order-independent on objects: two objects that
/// hold the same entries, with no key repeated, canonicalize to the
/// same tree whatever order their entries arrived in.
pub proof fn lemma_sort_obj_order_independent(
    m1: Seq<(Seq<char>, JVal)>,
    m2: Seq<(Seq<char>, JVal)>,
)
    requires
        m1.to_multiset() == m2.to_multiset(),
        unique_keys(m1),
    ensures
        sort_val(JVal::Obj(m1)) == sort_val(JVal::Obj(m2)),
{
    lemma_sort_vals_perm(m1, m2);
    lemma_sort_vals_unique(m1);
    lemma_sort_entries_props(sort_vals(m1));
    lemma_sort_entries_props(sort_vals(m2));
    lemma_sort_entries_unique(sort_vals(m1));
    lemma_sorted_unique_entries(sort_entries(sort_vals(m1)), sort_entries(sort_vals(m2)));
}

/// Canonicalizes a JSON tree for display: every object's entries are
/// re-inserted in key order, recursively; arrays keep their order and
/// scalars are unchanged.
#[verifier::loop_isolation(false)]
pub fn sort_json(v: &JsonValue) -> (r: JsonValue)
    ensures
        r@ == sort_val(v@),
    decreases *v,
{
    match v {
        JsonValue::Null => JsonValue::Null,
        JsonValue::Bool(b) => JsonValue::Bool(*b),
        JsonValue::Num(s) => JsonValue::Num(s.clone()),
        JsonValue::Str(s) => JsonValue::Str(s.clone()),
        JsonValue::Arr(a) => {
            let mut out: Vec<JsonValue> = Vec::new();
            let mut i: usize = 0;
            while i < a.len()
                invariant
                    i <= a.len(),
                    out@.len() == i,
                    forall|j: int| 0 <= j < i ==> out@[j]@ == sort_val(#[trigger] a@[j]@),
                decreases a.len() - i,
            {
                proof {
                    assert(decreases_to!(*v => v->Arr_0));
                    assert(decreases_to!(v->Arr_0 => v->Arr_0@));
                    assert(decreases_to!(v->Arr_0@ => v->Arr_0@[i as int]));
                    assert(a@ == v->Arr_0@);
                    assert(decreases_to!(*v => a@[i as int]));
                }
                let sv = sort_json(&a[i]);
                out.push(sv);
                i = i + 1;
            }
            proof {
                lemma_elems_view(out@);
                lemma_elems_view(a@);
                lemma_sort_elems(elems_view(a@));
                assert(elems_view(out@) =~= sort_elems(elems_view(a@)));
            }
            JsonValue::Arr(out)
        },
        JsonValue::Obj(m) => {
            // canonicalize each value, keeping the entry order
            let mut w: Vec<(String, JsonValue)> = Vec::new();
            let mut i: usize = 0;
            while i < m.len()
                invariant
                    i <= m.len(),
                    w@.len() == i,
                    forall|j: int|
                        0 <= j < i ==> (#[trigger] w@[j]).0@ == m@[j].0@ && w@[j].1@ == sort_val(
                            m@[j].1@,
                        ),
                decreases m.len() - i,
            {
                proof {
                    assert(decreases_to!(*v => v->Obj_0));
                    assert(decreases_to!(v->Obj_0 => v->Obj_0@));
                    assert(decreases_to!(v->Obj_0@ => v->Obj_0@[i as int]));
                    assert(decreases_to!(v->Obj_0@[i as int] => v->Obj_0@[i as int].1));
                    assert(m@ == v->Obj_0@);
                    assert(decreases_to!(*v => m@[i as int].1));
                }
                let key = m[i].0.clone();
                let sv = sort_json(&m[i].1);
                w.push((key, sv));
                i = i + 1;
            }
            proof {
                lemma_entries_view(w@);
                lemma_entries_view(m@);
                lemma_sort_vals(entries_view(m@));
                assert(entries_view(w@) =~= sort_vals(entries_view(m@)));
            }
            let ghost w0: Seq<(Seq<char>, JVal)> = entries_view(w@);
            // insertion sort by key
            let mut out: Vec<(String, JsonValue)> = Vec::new();
            proof {
                assert(w0.skip(0) =~= w0);
                assert(w0.take(0) =~= Seq::<(Seq<char>, JVal)>::empty());
            }
            while w.len() > 0
                invariant
                    w@.len() <= w0.len(),
                    entries_view(w@) == w0.skip(w0.len() - w@.len()),
                    entries_view(out@) == sort_entries(w0.take(w0.len() - w@.len())),
                decreases w@.len(),
            {
                let ghost k: int = w0.len() - w@.len();
                let ghost out_pre = entries_view(out@);
                let ghost w_pre = w@;
                let e = w.remove(0);
                let ghost ev = (e.0@, e.1@);
                proof {
                    lemma_entries_view(w_pre);
                    lemma_entries_view(w@);
                    assert(entries_view(w@) =~= entries_view(w_pre).skip(1));
                    assert(e == w_pre[0]);
                    assert(entries_view(w_pre)[0] == (w_pre[0].0@, w_pre[0].1@));
                    assert(w0.skip(k)[0] == w0[k]);
                    assert(ev == w0[k]);
                    assert(entries_view(w_pre).skip(1) =~= w0.skip(k + 1));
                }
                let mut p: usize = 0;
                while p < out.len() && str_le_exec(out[p].0.as_str(), e.0.as_str())
                    invariant
                        p <= out@.len(),
                        forall|q: int| 0 <= q < p ==> str_le((#[trigger] out@[q]).0@, e.0@),
                    decreases out@.len() - p,
                {
                    p = p + 1;
                }
                proof {
                    lemma_entries_view(out@);
                    assert(forall|q: int|
                        0 <= q < out_pre.len() ==> (#[trigger] out_pre[q]).0 == out@[q].0@);
                    lemma_insert_sorted_at(ev, out_pre, p as int);
                }
                out.insert(p, e);
                proof {
                    lemma_entries_view(out@);
                    assert(entries_view(out@) =~= out_pre.insert(p as int, ev));
                    assert(w0.take(k + 1).drop_last() =~= w0.take(k));
                    assert(w0.take(k + 1).last() == w0[k]);
                    assert(sort_entries(w0.take(k + 1)) == insert_sorted(
                        w0[k],
                        sort_entries(w0.take(k)),
                    ));
                }
            }
            proof {
                assert(w0.take(w0.len() as int) =~= w0);
            }
            JsonValue::Obj(out)
        },
    }
}

/// One step of a path into a JSON tree: into an object under a key, or
/// into an array at an index.
pub enum PathStep {
    InKey(Seq<char>),
    AtIndex(int),
}

/// Every path of `s`, one more step in front.
pub open spec fn deepen(
    step: PathStep,
    s: Seq<(Seq<PathStep>, JVal)>,
) -> Seq<(Seq<PathStep>, JVal)> {
    s.map_values(|pv: (Seq<PathStep>, JVal)| (seq![step] + pv.0, pv.1))
}

/// The (path, value) pairs of a tree's leaves: each scalar under the
/// steps that lead to it.
pub open spec fn leaf_seq(v: JVal) -> Seq<(Seq<PathStep>, JVal)>
    decreases v,
{
    match v {
        JVal::Arr(a) => arr_leaf_seq(a),
        JVal::Obj(m) => obj_leaf_seq(m),
        _ => seq![(Seq::empty(), v)],
    }
}

/// The leaves of an array's elements, each under its index.
pub open spec fn arr_leaf_seq(a: Seq<JVal>) -> Seq<(Seq<PathStep>, JVal)>
    decreases a,
{
    if a.len() == 0 {
        Seq::empty()
    } else {
        arr_leaf_seq(a.subrange(0, a.len() - 1)) + deepen(
            PathStep::AtIndex(a.len() - 1),
            leaf_seq(a[a.len() - 1]),
        )
    }
}

/// The leaves of an object's entry values, each under its key.
pub open spec fn obj_leaf_seq(m: Seq<(Seq<char>, JVal)>) -> Seq<(Seq<PathStep>, JVal)>
    decreases m,
{
    if m.len() == 0 {
        Seq::empty()
    } else {
        obj_leaf_seq(m.subrange(0, m.len() - 1)) + deepen(
            PathStep::InKey(m[m.len() - 1].0),
            leaf_seq(m[m.len() - 1].1),
        )
    }
}

/// Deepening keeps the contents: lists of leaves with the same contents
/// still have the same contents one step deeper.
proof fn lemma_deepen_perm(
    step: PathStep,
    s1: Seq<(Seq<PathStep>, JVal)>,
    s2: Seq<(Seq<PathStep>, JVal)>,
)
    requires
        s1.to_multiset() == s2.to_multiset(),
    ensures
        deepen(step, s1).to_multiset() == deepen(step, s2).to_multiset(),
    decreases s1.len(),
{
    broadcast use vstd::seq_lib::group_to_multiset_ensures;
    broadcast use vstd::multiset::group_multiset_axioms;

    if s1.len() == 0 {
        assert(s1.len() == s1.to_multiset().len());
        assert(s2.len() == s2.to_multiset().len());
        assert(deepen(step, s1) =~= deepen(step, s2));
    } else {
        assert(s1.contains(s1[0]));
        assert(s2.to_multiset().count(s1[0]) > 0);
        assert(s2.contains(s1[0]));
        let j = choose|j: int| 0 <= j < s2.len() && s2[j] == s1[0];
        let r1 = s1.remove(0);
        let r2 = s2.remove(j);
        assert(r1.to_multiset() =~= s1.to_multiset().remove(s1[0]));
        assert(r2.to_multiset() =~= s2.to_multiset().remove(s2[j]));
        lemma_deepen_perm(step, r1, r2);
        assert(deepen(step, r1) =~= deepen(step, s1).remove(0));
        assert(deepen(step, r2) =~= deepen(step, s2).remove(j));
        let d1 = deepen(step, s1);
        let d2 = deepen(step, s2);
        assert(d1[0] == d2[j]);
        assert(d1.remove(0).to_multiset() =~= d1.to_multiset().remove(d1[0]));
        assert(d2.remove(j).to_multiset() =~= d2.to_multiset().remove(d2[j]));
        assert(d1.contains(d1[0]));
        assert(d2.contains(d2[j]));
        assert(d1.to_multiset() =~= d2.to_multiset()) by {
            assert(d1.to_multiset().remove(d1[0]) =~= d2.to_multiset().remove(d1[0]));
            assert(d1.to_multiset().count(d1[0]) > 0);
            assert(d2.to_multiset().count(d1[0]) > 0);
            assert forall|y: (Seq<PathStep>, JVal)| true implies d1.to_multiset().count(y)
                == d2.to_multiset().count(y) by {
                assert(d1.to_multiset().remove(d1[0]).count(y) == d2.to_multiset().remove(
                    d1[0],
                ).count(y));
            }
        }
    }
}

/// Removing one entry takes exactly its contribution out of an
/// object's leaves.
proof fn lemma_obj_leaf_seq_remove(m: Seq<(Seq<char>, JVal)>, j: int)
    requires
        0 <= j < m.len(),
    ensures
        obj_leaf_seq(m).to_multiset() == obj_leaf_seq(m.remove(j)).to_multiset().add(
            deepen(PathStep::InKey(m[j].0), leaf_seq(m[j].1)).to_multiset(),
        ),
    decreases m.len(),
{
    broadcast use vstd::multiset::group_multiset_axioms;

    let front = m.subrange(0, m.len() - 1);
    let last_contrib = deepen(PathStep::InKey(m[m.len() - 1].0), leaf_seq(m[m.len() - 1].1));
    vstd::seq_lib::lemma_multiset_commutative(obj_leaf_seq(front), last_contrib);
    if j == m.len() - 1 {
        assert(m.remove(j) =~= front);
    } else {
        let removed = m.remove(j);
        assert(removed.subrange(0, removed.len() - 1) =~= front.remove(j));
        assert(removed[removed.len() - 1] == m[m.len() - 1]);
        lemma_obj_leaf_seq_remove(front, j);
        assert(front[j] == m[j]);
        vstd::seq_lib::lemma_multiset_commutative(
            obj_leaf_seq(front.remove(j)),
            deepen(PathStep::InKey(removed[removed.len() - 1].0), leaf_seq(removed[removed.len() - 1].1)),
        );
        let a = obj_leaf_seq(front.remove(j)).to_multiset();
        let cj = deepen(PathStep::InKey(m[j].0), leaf_seq(m[j].1)).to_multiset();
        let cl = last_contrib.to_multiset();
        assert(obj_leaf_seq(m).to_multiset() =~= a.add(cj).add(cl));
        assert(obj_leaf_seq(removed).to_multiset() =~= a.add(cl));
        assert(a.add(cj).add(cl) =~= a.add(cl).add(cj));
    }
}

/// Entry lists with the same contents have leaves with the same
/// contents.
proof fn lemma_obj_leaf_seq_perm(x: Seq<(Seq<char>, JVal)>, y: Seq<(Seq<char>, JVal)>)
    requires
        x.to_multiset() == y.to_multiset(),
    ensures
        obj_leaf_seq(x).to_multiset() == obj_leaf_seq(y).to_multiset(),
    decreases x.len(),
{
    broadcast use vstd::seq_lib::group_to_multiset_ensures;
    broadcast use vstd::multiset::group_multiset_axioms;

    if x.len() == 0 {
        assert(x.len() == x.to_multiset().len());
        assert(y.len() == y.to_multiset().len());
        assert(obj_leaf_seq(x) =~= obj_leaf_seq(y));
    } else {
        let e = x[x.len() - 1];
        assert(x.contains(e));
        assert(y.to_multiset().count(e) > 0);
        assert(y.contains(e));
        let j = choose|j: int| 0 <= j < y.len() && y[j] == e;
        let front = x.subrange(0, x.len() - 1);
        assert(x =~= front.push(e));
        assert(front.push(e).to_multiset() =~= front.to_multiset().insert(e));
        assert(y.remove(j).to_multiset() =~= y.to_multiset().remove(y[j]));
        assert(front.to_multiset() =~= y.remove(j).to_multiset()) by {
            assert forall|z: (Seq<char>, JVal)| true implies front.to_multiset().count(z)
                == y.remove(j).to_multiset().count(z) by {
                assert(front.to_multiset().insert(e).count(z) == y.to_multiset().count(z));
            }
        }
        lemma_obj_leaf_seq_perm(front, y.remove(j));
        lemma_obj_leaf_seq_remove(y, j);
        vstd::seq_lib::lemma_multiset_commutative(
            obj_leaf_seq(front),
            deepen(PathStep::InKey(e.0), leaf_seq(e.1)),
        );
    }
}

/// Element lists whose leaves agree pointwise have the same array
/// leaves.
proof fn lemma_arr_leaf_pointwise(a: Seq<JVal>, b: Seq<JVal>)
    requires
        a.len() == b.len(),
        forall|i: int|
            0 <= i < a.len() ==> leaf_seq(#[trigger] b[i]).to_multiset() == leaf_seq(
                a[i],
            ).to_multiset(),
    ensures
        arr_leaf_seq(b).to_multiset() == arr_leaf_seq(a).to_multiset(),
    decreases a.len(),
{
    broadcast use vstd::multiset::group_multiset_axioms;

    if a.len() > 0 {
        let fa = a.subrange(0, a.len() - 1);
        let fb = b.subrange(0, b.len() - 1);
        assert(forall|i: int| 0 <= i < fa.len() ==> fa[i] == a[i] && fb[i] == b[i]);
        lemma_arr_leaf_pointwise(fa, fb);
        lemma_deepen_perm(
            PathStep::AtIndex(a.len() - 1),
            leaf_seq(a[a.len() - 1]),
            leaf_seq(b[b.len() - 1]),
        );
        vstd::seq_lib::lemma_multiset_commutative(
            arr_leaf_seq(fa),
            deepen(PathStep::AtIndex(a.len() - 1), leaf_seq(a[a.len() - 1])),
        );
        vstd::seq_lib::lemma_multiset_commutative(
            arr_leaf_seq(fb),
            deepen(PathStep::AtIndex(b.len() - 1), leaf_seq(b[b.len() - 1])),
        );
        assert(arr_leaf_seq(b).to_multiset() =~= arr_leaf_seq(a).to_multiset());
    }
}

/// Entry lists with the same keys whose values' leaves agree pointwise
/// have the same object leaves.
proof fn lemma_obj_leaf_pointwise(m: Seq<(Seq<char>, JVal)>, w: Seq<(Seq<char>, JVal)>)
    requires
        m.len() == w.len(),
        forall|i: int| 0 <= i < m.len() ==> (#[trigger] w[i]).0 == m[i].0,
        forall|i: int|
            0 <= i < m.len() ==> leaf_seq((#[trigger] w[i]).1).to_multiset() == leaf_seq(
                m[i].1,
            ).to_multiset(),
    ensures
        obj_leaf_seq(w).to_multiset() == obj_leaf_seq(m).to_multiset(),
    decreases m.len(),
{
    broadcast use vstd::multiset::group_multiset_axioms;

    if m.len() > 0 {
        let fm = m.subrange(0, m.len() - 1);
        let fw = w.subrange(0, w.len() - 1);
        assert(forall|i: int| 0 <= i < fm.len() ==> fm[i] == m[i] && fw[i] == w[i]);
        lemma_obj_leaf_pointwise(fm, fw);
        lemma_deepen_perm(
            PathStep::InKey(m[m.len() - 1].0),
            leaf_seq(m[m.len() - 1].1),
            leaf_seq(w[w.len() - 1].1),
        );
        vstd::seq_lib::lemma_multiset_commutative(
            obj_leaf_seq(fm),
            deepen(PathStep::InKey(m[m.len() - 1].0), leaf_seq(m[m.len() - 1].1)),
        );
        vstd::seq_lib::lemma_multiset_commutative(
            obj_leaf_seq(fw),
            deepen(PathStep::InKey(w[w.len() - 1].0), leaf_seq(w[w.len() - 1].1)),
        );
        assert(obj_leaf_seq(w).to_multiset() =~= obj_leaf_seq(m).to_multiset());
    }
}

/// Canonicalization preserves structure and values: the multiset of
/// (path, value) leaf pairs of the canonicalized tree is that of the
/// original; only the order of object keys changes.
pub proof fn lemma_sort_preserves_leaves(v: JVal)
    ensures
        leaf_seq(sort_val(v)).to_multiset() == leaf_seq(v).to_multiset(),
    decreases v,
{
    match v {
        JVal::Arr(a) => {
            lemma_sort_elems(a);
            assert forall|i: int| 0 <= i < a.len() implies leaf_seq(
                #[trigger] sort_elems(a)[i],
            ).to_multiset() == leaf_seq(a[i]).to_multiset() by {
                lemma_sort_preserves_leaves(a[i]);
            }
            lemma_arr_leaf_pointwise(a, sort_elems(a));
        },
        JVal::Obj(m) => {
            let w = sort_vals(m);
            lemma_sort_vals(m);
            assert forall|i: int| 0 <= i < m.len() implies leaf_seq(
                (#[trigger] w[i]).1,
            ).to_multiset() == leaf_seq(m[i].1).to_multiset() by {
                assert(w[i] == (m[i].0, sort_val(m[i].1)));
                lemma_sort_preserves_leaves(m[i].1);
            }
            lemma_obj_leaf_pointwise(m, w);
            lemma_sort_entries_props(w);
            lemma_obj_leaf_seq_perm(w, sort_entries(w));
        },
        _ => {},
    }
}

} // verus!
