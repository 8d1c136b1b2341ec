//! Names and the positions that they resolve to.

use vstd::prelude::*;
use vstd::string::*;
use crate::search::{first_where, lemma_first_where, lemma_first_where_is};
use crate::text::str_equal;

verus! {

/// Whether the name at a position is `name`.
pub open spec fn is_name(names: Seq<Seq<char>>, name: Seq<char>) -> spec_fn(int) -> bool {
    |i: int| names[i] == name
}

/// The position of the first of `names` that is `name`, or the length of
/// `names` when none is.
pub open spec fn name_index(names: Seq<Seq<char>>, name: Seq<char>) -> int {
    first_where(names.len() as int, is_name(names, name))
}

/// Whether `name` is one of `names`.
pub open spec fn resolves(names: Seq<Seq<char>>, name: Seq<char>) -> bool {
    name_index(names, name) < names.len()
}

/// The position of the first of `names` that repeats an earlier one, or the
/// length of `names` when no name occurs twice.
pub open spec fn first_duplicate(names: Seq<Seq<char>>) -> int {
    first_where(names.len() as int, repeats(names))
}

/// Whether the name at a position occurs before it too.
pub open spec fn repeats(names: Seq<Seq<char>>) -> spec_fn(int) -> bool {
    |j: int| name_index(names, names[j]) < j
}

/// Whether no name occurs twice.
pub open spec fn unique(names: Seq<Seq<char>>) -> bool {
    first_duplicate(names) == names.len()
}

pub proof fn lemma_name_index(names: Seq<Seq<char>>, name: Seq<char>)
    ensures
        0 <= name_index(names, name) <= names.len(),
        resolves(names, name) ==> names[name_index(names, name)] == name,
        forall|i: int| 0 <= i < name_index(names, name) ==> #[trigger] names[i] != name,
        !resolves(names, name) ==> forall|i: int| 0 <= i < names.len() ==> #[trigger] names[i] != name,
{
    let p = is_name(names, name);
    lemma_first_where(names.len() as int, p);
    assert forall|i: int| 0 <= i < name_index(names, name) implies #[trigger] names[i] != name by {
        assert(!p(i));
    }
}

pub proof fn lemma_name_index_is(names: Seq<Seq<char>>, name: Seq<char>, at: int)
    requires
        0 <= at <= names.len(),
        at < names.len() ==> names[at] == name,
        forall|i: int| 0 <= i < at ==> #[trigger] names[i] != name,
    ensures
        name_index(names, name) == at,
{
    let p = is_name(names, name);
    assert forall|i: int| 0 <= i < at implies !#[trigger] p(i) by {
        assert(names[i] != name);
    }
    lemma_first_where_is(names.len() as int, p, at);
}

/// In a list without repeats a name stands at one position only.
pub proof fn lemma_unique_names(names: Seq<Seq<char>>, i: int)
    requires
        unique(names),
        0 <= i < names.len(),
    ensures
        name_index(names, names[i]) == i,
{
    let dup = repeats(names);
    lemma_first_where(names.len() as int, dup);
    lemma_name_index(names, names[i]);
    assert(!dup(i));
}

/// The texts of a list of names.
pub open spec fn texts(names: Seq<&str>) -> Seq<Seq<char>> {
    Seq::new(names.len(), |i: int| names[i]@)
}

/// The position of `name` among `names`.
pub(crate) fn find_name(names: &Vec<&str>, name: &str) -> (at: usize)
    ensures
        at == name_index(texts(names@), name@),
        at <= names@.len(),
{
    let mut i: usize = 0;
    while i < names.len()
        invariant
            i <= names@.len(),
            forall|k: int| 0 <= k < i ==> #[trigger] texts(names@)[k] != name@,
        decreases names@.len() - i,
    {
        if str_equal(names[i], name) {
            proof {
                lemma_name_index_is(texts(names@), name@, i as int);
            }
            return i;
        }
        i += 1;
    }
    proof {
        lemma_name_index_is(texts(names@), name@, i as int);
    }
    i
}

/// The position of the first name that repeats an earlier one.
pub(crate) fn find_duplicate(names: &Vec<&str>) -> (at: usize)
    ensures
        at == first_duplicate(texts(names@)),
        at <= names@.len(),
{
    let ghost all = texts(names@);
    let ghost dup = repeats(all);
    let mut j: usize = 0;
    while j < names.len()
        invariant
            j <= names@.len(),
            all == texts(names@),
            dup == repeats(all),
            forall|k: int| 0 <= k < j ==> !#[trigger] dup(k),
        decreases names@.len() - j,
    {
        let first: usize = find_name(names, names[j]);
        proof {
            lemma_name_index(all, all[j as int]);
        }
        if first < j {
            proof {
                assert(dup(j as int));
                lemma_first_where_is(all.len() as int, dup, j as int);
            }
            return j;
        }
        j += 1;
    }
    proof {
        lemma_first_where_is(all.len() as int, dup, j as int);
    }
    j
}

} // verus!
