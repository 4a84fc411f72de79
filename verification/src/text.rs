//! Text comparison (exact and ASCII case-insensitive), the first position
//! of a key in a sequence of names, and lists of names looked up by text.

use vstd::prelude::*;
use vstd::string::StringSliceAdditionalSpecFns;

verus! {

/// Whether two texts are equal.
pub fn same_text(a: &str, b: &str) -> (r: bool)
    ensures
        r == (a@ == b@),
{
    a.to_owned() == b.to_owned()
}

/// A byte with ASCII upper-case letters mapped to lower case.
pub open spec fn ascii_lower(b: u8) -> u8 {
    if 65 <= b <= 90 {
        (b + 32) as u8
    } else {
        b
    }
}

/// Two byte strings are equal once ASCII letters are folded to lower case.
pub open spec fn same_ignoring_ascii_case(a: Seq<u8>, b: Seq<u8>) -> bool {
    a.len() == b.len() && forall|i: int| 0 <= i < a.len() ==> ascii_lower(#[trigger] a[i]) == ascii_lower(b[i])
}

fn ascii_lower_exec(b: u8) -> (r: u8)
    ensures
        r == ascii_lower(b),
{
    if 65 <= b && b <= 90 {
        b + 32
    } else {
        b
    }
}

/// Whether two texts are equal when ASCII letters are compared without
/// regard to case (other characters must match exactly).
pub fn eq_ignore_ascii_case(a: &str, b: &str) -> (r: bool)
    ensures
        r == same_ignoring_ascii_case(a.spec_bytes(), b.spec_bytes()),
{
    let x = a.as_bytes();
    let y = b.as_bytes();
    if x.len() != y.len() {
        return false;
    }
    let mut i: usize = 0;
    while i < x.len()
        invariant
            x@ == a.spec_bytes(),
            y@ == b.spec_bytes(),
            x@.len() == y@.len(),
            i <= x@.len(),
            forall|j: int| 0 <= j < i ==> ascii_lower(#[trigger] x@[j]) == ascii_lower(y@[j]),
        decreases x@.len() - i,
    {
        if ascii_lower_exec(x[i]) != ascii_lower_exec(y[i]) {
            return false;
        }
        i = i + 1;
    }
    true
}

/// `i` is the first position of key `k` in `keys`, or `keys.len()` when
/// `k` does not occur.
pub open spec fn is_first_index(keys: Seq<Seq<char>>, k: Seq<char>, i: int) -> bool {
    &&& 0 <= i <= keys.len()
    &&& forall|j: int| 0 <= j < i ==> #[trigger] keys[j] != k
    &&& i < keys.len() ==> keys[i] == k
}

/// The first position of key `k` in `keys`, or `keys.len()` when absent.
pub open spec fn first_index(keys: Seq<Seq<char>>, k: Seq<char>) -> int {
    choose|i: int| is_first_index(keys, k, i)
}

/// Adding `k` to keys that do not hold it keeps them free of repeats.
pub(crate) proof fn lemma_push_absent(keys: Seq<Seq<char>>, k: Seq<char>)
    requires
        keys.no_duplicates(),
        is_first_index(keys, k, keys.len() as int),
    ensures
        keys.push(k).no_duplicates(),
{
    let ks = keys.push(k);
    assert forall|i: int, j: int| 0 <= i < ks.len() && 0 <= j < ks.len() && i != j implies ks[i] != ks[j] by {
        if j == keys.len() {
            assert(keys[i] != k);
        } else if i == keys.len() {
            assert(keys[j] != k);
        } else {
            assert(keys[i] != keys[j]);
        }
    }
}

/// The texts of a list of names.
pub open spec fn names_view(names: Seq<String>) -> Seq<Seq<char>> {
    names.map_values(|n: String| n@)
}

/// The position of `name` in `names`, if it occurs (its first position).
pub fn find_name(names: &Vec<String>, name: &str) -> (r: Option<usize>)
    ensures
        match r {
            Some(k) => k == first_index(names_view(names@), name@) && k < names@.len(),
            None => first_index(names_view(names@), name@) == names@.len(),
        },
{
    let ghost keys = names_view(names@);
    let mut i: usize = 0;
    while i < names.len()
        invariant
            i <= names@.len(),
            keys == names_view(names@),
            forall|j: int| 0 <= j < i ==> #[trigger] keys[j] != name@,
        decreases names@.len() - i,
    {
        assert(keys[i as int] == names@[i as int]@);
        if same_text(names[i].as_str(), name) {
            proof {
                lemma_first_index_unique(keys, name@, i as int);
            }
            return Some(i);
        }
        i = i + 1;
    }
    proof {
        lemma_first_index_unique(keys, name@, i as int);
    }
    None
}

/// The position of `name` in `names`, appending it first when it does not
/// occur; names free of repeats stay so.
pub fn slot_for(names: &mut Vec<String>, name: &str) -> (i: usize)
    ensures
        ({
            let keys = names_view(old(names)@);
            let at = first_index(keys, name@);
            if at < keys.len() {
                &&& final(names)@ == old(names)@
                &&& i == at
            } else {
                &&& names_view(final(names)@) == keys.push(name@)
                &&& i == keys.len()
            }
        }),
        names_view(old(names)@).no_duplicates() ==> names_view(final(names)@).no_duplicates(),
{
    proof {
        lemma_first_index_exists(names_view(names@), name@);
    }
    let found = find_name(names, name);
    let ghost keys = names_view(names@);
    if let Some(k) = found {
        k
    } else {
        names.push(name.to_owned());
        proof {
            assert(names_view(names@) =~= keys.push(name@));
            if keys.no_duplicates() {
                lemma_push_absent(keys, name@);
            }
        }
        names.len() - 1
    }
}

pub(crate) proof fn lemma_first_index_unique(keys: Seq<Seq<char>>, k: Seq<char>, i: int)
    requires
        is_first_index(keys, k, i),
    ensures
        first_index(keys, k) == i,
{
    let c = first_index(keys, k);
    assert(is_first_index(keys, k, c));
    if c < i {
        assert(keys[c] != k);
    } else if i < c {
        assert(keys[i] != k);
    }
}

pub(crate) proof fn lemma_first_index_exists_from(keys: Seq<Seq<char>>, k: Seq<char>, i: int)
    requires
        0 <= i <= keys.len(),
        forall|j: int| 0 <= j < i ==> #[trigger] keys[j] != k,
    ensures
        is_first_index(keys, k, first_index(keys, k)),
    decreases keys.len() - i,
{
    if i == keys.len() || keys[i] == k {
        lemma_first_index_unique(keys, k, i);
    } else {
        lemma_first_index_exists_from(keys, k, i + 1);
    }
}

pub(crate) proof fn lemma_first_index_exists(keys: Seq<Seq<char>>, k: Seq<char>)
    ensures
        is_first_index(keys, k, first_index(keys, k)),
{
    lemma_first_index_exists_from(keys, k, 0);
}

pub(crate) proof fn lemma_first_index_push(keys: Seq<Seq<char>>, x: Seq<char>, k: Seq<char>)
    ensures
        first_index(keys.push(x), k) == if first_index(keys, k) < keys.len() {
            first_index(keys, k)
        } else if x == k {
            keys.len() as int
        } else {
            keys.len() + 1int
        },
{
    lemma_first_index_exists(keys, k);
    let i = first_index(keys, k);
    let ks = keys.push(x);
    if i < keys.len() {
        assert(is_first_index(ks, k, i));
        lemma_first_index_unique(ks, k, i);
    } else if x == k {
        assert(is_first_index(ks, k, keys.len() as int));
        lemma_first_index_unique(ks, k, keys.len() as int);
    } else {
        assert(is_first_index(ks, k, keys.len() + 1int));
        lemma_first_index_unique(ks, k, keys.len() + 1int);
    }
}

} // verus!
