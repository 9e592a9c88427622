//! Text helpers: character access, key lookup and substring search.

use vstd::prelude::*;
use vstd::string::*;

verus! {

/// `needle` occurs in `hay` starting at character position `i`.
pub open spec fn occurs_at(hay: Seq<char>, needle: Seq<char>, i: int) -> bool {
    &&& 0 <= i
    &&& i + needle.len() <= hay.len()
    &&& hay.subrange(i, i + needle.len()) == needle
}

/// `needle` occurs somewhere in `hay` as a contiguous run of characters.
pub open spec fn contains_text(hay: Seq<char>, needle: Seq<char>) -> bool {
    exists|i: int| occurs_at(hay, needle, i)
}

/// Some element of `keys` reads `key`.
pub open spec fn has_key(keys: Seq<String>, key: Seq<char>) -> bool {
    exists|i: int| 0 <= i < keys.len() && (#[trigger] keys[i])@ == key
}

/// A position of `key` in `keys`; meaningful where `has_key` holds.
pub open spec fn key_index(keys: Seq<String>, key: Seq<char>) -> int {
    choose|i: int| 0 <= i < keys.len() && (#[trigger] keys[i])@ == key
}

/// No two positions of `keys` read the same.
pub open spec fn distinct_keys(keys: Seq<String>) -> bool {
    forall|i: int, j: int|
        0 <= i < keys.len() && 0 <= j < keys.len() && (#[trigger] keys[i])@ == (#[trigger] keys[j])@
            ==> i == j
}

/// In a list without repetition, the position of a key is the one place
/// where it stands.
pub proof fn lemma_key_index_unique(keys: Seq<String>, i: int)
    requires
        distinct_keys(keys),
        0 <= i < keys.len(),
    ensures
        has_key(keys, keys[i]@),
        key_index(keys, keys[i]@) == i,
{
    let k = keys[i]@;
    assert(0 <= i < keys.len() && keys[i]@ == k);
    let j = key_index(keys, k);
    assert(0 <= j < keys.len() && keys[j]@ == k);
}

/// The finite map that two parallel lists spell out: `keys[i]` is bound to
/// `vals[i]`.
pub open spec fn assoc<T>(keys: Seq<String>, vals: Seq<T>) -> Map<Seq<char>, T> {
    Map::new(|k: Seq<char>| has_key(keys, k), |k: Seq<char>| vals[key_index(keys, k)])
}

/// Reading the map at a listed key gives the value that stands beside it.
pub proof fn lemma_assoc_at<T>(keys: Seq<String>, vals: Seq<T>, i: int)
    requires
        distinct_keys(keys),
        keys.len() == vals.len(),
        0 <= i < keys.len(),
    ensures
        assoc(keys, vals).dom().contains(keys[i]@),
        assoc(keys, vals)[keys[i]@] == vals[i],
{
    lemma_key_index_unique(keys, i);
}

/// Replacing the value at one position rebinds that position's key and
/// nothing else.
pub proof fn lemma_assoc_update<T>(keys: Seq<String>, vals: Seq<T>, i: int, v: T)
    requires
        distinct_keys(keys),
        keys.len() == vals.len(),
        0 <= i < keys.len(),
    ensures
        assoc(keys, vals.update(i, v)) == assoc(keys, vals).insert(keys[i]@, v),
{
    lemma_key_index_unique(keys, i);
    let a = assoc(keys, vals.update(i, v));
    let b = assoc(keys, vals).insert(keys[i]@, v);
    assert forall|k: Seq<char>| a.dom().contains(k) <==> b.dom().contains(k) by {}
    assert forall|k: Seq<char>| #[trigger] a.dom().contains(k) implies a[k] == b[k] by {
        let j = key_index(keys, k);
        assert(0 <= j < keys.len() && keys[j]@ == k);
        if k != keys[i]@ {
            assert(j != i);
        }
    }
    assert(a =~= b);
}

/// Appending a key that was not listed binds it and leaves the rest alone.
pub proof fn lemma_assoc_push<T>(keys: Seq<String>, vals: Seq<T>, key: String, v: T)
    requires
        distinct_keys(keys),
        keys.len() == vals.len(),
        !has_key(keys, key@),
    ensures
        distinct_keys(keys.push(key)),
        assoc(keys.push(key), vals.push(v)) == assoc(keys, vals).insert(key@, v),
{
    let keys2 = keys.push(key);
    let vals2 = vals.push(v);
    assert forall|i: int, j: int|
        0 <= i < keys2.len() && 0 <= j < keys2.len() && (#[trigger] keys2[i])@ == (
        #[trigger] keys2[j])@ implies i == j by {
        if i < keys.len() && j < keys.len() {
            assert(keys[i]@ == keys[j]@);
        } else if i < keys.len() {
            assert(keys[i]@ == key@);
        } else if j < keys.len() {
            assert(keys[j]@ == key@);
        }
    }
    let a = assoc(keys2, vals2);
    let b = assoc(keys, vals).insert(key@, v);
    assert forall|k: Seq<char>| a.dom().contains(k) <==> b.dom().contains(k) by {
        if has_key(keys2, k) {
            let j = key_index(keys2, k);
            if j < keys.len() {
                assert(keys[j]@ == k);
            }
        }
        if has_key(keys, k) {
            let j = key_index(keys, k);
            assert(keys2[j]@ == k);
        }
        if k == key@ {
            assert(keys2[keys.len() as int]@ == k);
        }
    }
    assert forall|k: Seq<char>| #[trigger] a.dom().contains(k) implies a[k] == b[k] by {
        let j = key_index(keys2, k);
        assert(0 <= j < keys2.len() && keys2[j]@ == k);
        if k == key@ {
            assert(keys2[keys.len() as int]@ == k);
            assert(j == keys.len());
        } else {
            assert(j < keys.len());
            assert(keys[j]@ == k);
            let j0 = key_index(keys, k);
            assert(0 <= j0 < keys.len() && keys[j0]@ == k);
            assert(keys2[j0]@ == k);
            assert(j0 == j);
        }
    }
    assert(a =~= b);
}

/// The characters of `s`, in order.
pub fn chars_of(s: &str) -> (r: Vec<char>)
    ensures
        r@ == s@,
{
    let n: usize = s.unicode_len();
    let mut r: Vec<char> = Vec::new();
    let mut i: usize = 0;
    while i < n
        invariant
            n == s@.len(),
            i <= n,
            r@ == s@.subrange(0, i as int),
        decreases n - i,
    {
        let c = s.get_char(i);
        r.push(c);
        i += 1;
        assert(r@ =~= s@.subrange(0, i as int));
    }
    assert(s@.subrange(0, n as int) =~= s@);
    r
}

/// Whether `needle` stands in `hay` at position `at`.
pub fn matches_at(hay: &Vec<char>, needle: &Vec<char>, at: usize) -> (r: bool)
    requires
        at + needle@.len() <= hay@.len(),
    ensures
        r == occurs_at(hay@, needle@, at as int),
{
    let m: usize = needle.len();
    let total: usize = hay.len();
    let mut j: usize = 0;
    while j < m
        invariant
            m == needle@.len(),
            total == hay@.len(),
            j <= m,
            at + m <= hay@.len(),
            forall|k: int| 0 <= k < j ==> hay@[at + k] == needle@[k],
        decreases m - j,
    {
        if hay[at + j] != needle[j] {
            proof {
                let w = hay@.subrange(at as int, at + m);
                assert(w[j as int] == hay@[at + j]);
            }
            return false;
        }
        j += 1;
    }
    assert(hay@.subrange(at as int, at + m) =~= needle@);
    true
}

/// Substring test: whether `needle` occurs in `hay`.
pub fn contains(hay: &str, needle: &str) -> (r: bool)
    ensures
        r == contains_text(hay@, needle@),
{
    let h = chars_of(hay);
    let n = chars_of(needle);
    if n.len() > h.len() {
        return false;
    }
    let last: usize = h.len() - n.len();
    let mut i: usize = 0;
    while i < last
        invariant
            h@ == hay@,
            n@ == needle@,
            n@.len() <= h@.len(),
            last == h@.len() - n@.len(),
            i <= last,
            forall|k: int| 0 <= k < i ==> !occurs_at(h@, n@, k),
        decreases last - i,
    {
        if matches_at(&h, &n, i) {
            return true;
        }
        i += 1;
    }
    matches_at(&h, &n, last)
}

/// Position of `key` in `keys`, if it is there.
pub fn find_key(keys: &Vec<String>, key: &str) -> (r: Option<usize>)
    ensures
        match r {
            Some(i) => i < keys@.len() && keys@[i as int]@ == key@,
            None => !has_key(keys@, key@),
        },
{
    let probe = String::from_str(key);
    let mut i: usize = 0;
    while i < keys.len()
        invariant
            probe@ == key@,
            i <= keys@.len(),
            forall|k: int| 0 <= k < i ==> (#[trigger] keys@[k])@ != key@,
        decreases keys@.len() - i,
    {
        if keys[i] == probe {
            return Some(i);
        }
        i += 1;
    }
    None
}

} // verus!
