//! Looking a name up in a list of names.

use vstd::prelude::*;

verus! {

/// The first place at or after `from` where `key` stands in `keys`, or
/// the length of `keys` where it stands in none.
pub open spec fn index_of(keys: Seq<String>, key: Seq<char>, from: int) -> int
    decreases keys.len() - from,
{
    if from < 0 || from >= keys.len() {
        keys.len() as int
    } else if keys[from]@ == key {
        from
    } else {
        index_of(keys, key, from + 1)
    }
}

/// The place that is found lies at or after `from`; where it lies within
/// `keys`, the key stands there.
pub proof fn lemma_index_found(keys: Seq<String>, key: Seq<char>, from: int)
    requires
        0 <= from <= keys.len(),
    ensures
        from <= index_of(keys, key, from) <= keys.len(),
        index_of(keys, key, from) < keys.len() ==> keys[index_of(keys, key, from)]@ == key,
    decreases keys.len() - from,
{
    if from < keys.len() && keys[from]@ != key {
        lemma_index_found(keys, key, from + 1);
    }
}

/// A key that is pushed stands where it stood before, or at the end where
/// it stood nowhere; the other keys stand where they stood.
pub proof fn lemma_index_after_push(keys: Seq<String>, pushed: String, key: Seq<char>)
    ensures
        index_of(keys, key, 0) < keys.len() ==> index_of(keys.push(pushed), key, 0) == index_of(
            keys,
            key,
            0,
        ),
        index_of(keys, key, 0) >= keys.len() && pushed@ == key ==> index_of(
            keys.push(pushed),
            key,
            0,
        ) == keys.len(),
        index_of(keys, key, 0) >= keys.len() && pushed@ != key ==> index_of(
            keys.push(pushed),
            key,
            0,
        ) == keys.len() + 1,
{
    lemma_index_after_push_from(keys, pushed, key, 0);
}

proof fn lemma_index_after_push_from(keys: Seq<String>, pushed: String, key: Seq<char>, from: int)
    requires
        0 <= from <= keys.len(),
    ensures
        index_of(keys, key, from) < keys.len() ==> index_of(keys.push(pushed), key, from)
            == index_of(keys, key, from),
        index_of(keys, key, from) >= keys.len() && pushed@ == key ==> index_of(
            keys.push(pushed),
            key,
            from,
        ) == keys.len(),
        index_of(keys, key, from) >= keys.len() && pushed@ != key ==> index_of(
            keys.push(pushed),
            key,
            from,
        ) == keys.len() + 1,
        from <= index_of(keys, key, from) <= keys.len(),
    decreases keys.len() - from,
{
    let grown = keys.push(pushed);
    if from < keys.len() {
        assert(grown[from] == keys[from]);
        if keys[from]@ != key {
            lemma_index_after_push_from(keys, pushed, key, from + 1);
        }
    } else {
        assert(grown[from] == pushed);
        assert(index_of(grown, key, from + 1) == grown.len());
    }
}

/// No name stands in `keys` twice.
pub open spec fn distinct(keys: Seq<String>) -> bool {
    forall|i: int, j: int| 0 <= i < j < keys.len() ==> (#[trigger] keys[i])@ != (#[trigger] keys[j])@
}

/// A key that is found nowhere at or after `from` stands at none of these
/// places.
pub proof fn lemma_index_absent(keys: Seq<String>, key: Seq<char>, from: int)
    requires
        0 <= from <= keys.len(),
        index_of(keys, key, from) >= keys.len(),
    ensures
        forall|i: int| from <= i < keys.len() ==> (#[trigger] keys[i])@ != key,
    decreases keys.len() - from,
{
    if from < keys.len() {
        lemma_index_absent(keys, key, from + 1);
    }
}

/// Names that are distinct stay so when a name is pushed that stood
/// nowhere among them.
pub proof fn lemma_distinct_push(keys: Seq<String>, pushed: String)
    requires
        distinct(keys),
        index_of(keys, pushed@, 0) >= keys.len(),
    ensures
        distinct(keys.push(pushed)),
{
    lemma_index_absent(keys, pushed@, 0);
    let grown = keys.push(pushed);
    assert forall|i: int, j: int| 0 <= i < j < grown.len() implies (#[trigger] grown[i])@ != (
    #[trigger] grown[j])@ by {
        assert(grown[i] == keys[i]);
        if j < keys.len() {
            assert(grown[j] == keys[j]);
        }
    }
}

/// Where `key` stands in `keys`: the first place, or nothing.
pub fn find_key(keys: &Vec<String>, key: &str) -> (r: Option<usize>)
    ensures
        match r {
            Some(i) => i == index_of(keys@, key@, 0) && i < keys@.len(),
            None => index_of(keys@, key@, 0) >= keys@.len(),
        },
{
    let wanted = key.to_owned();
    let mut i: usize = 0;
    while i < keys.len()
        invariant
            i <= keys@.len(),
            wanted@ == key@,
            index_of(keys@, key@, 0) == index_of(keys@, key@, i as int),
        decreases keys@.len() - i,
    {
        if keys[i] == wanted {
            return Some(i);
        }
        i = i + 1;
    }
    None
}

} // verus!
