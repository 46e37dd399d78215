//! Kebab-case normalization of header names.
//!
//! The conversion itself is done by the `convert_case` crate. The contracts
//! refer to its result by name and build on nothing else about it.

use crate::mapping::{as_map, collected, distinct_keys, has_key, key_index, Pair};
use crate::mapping::{lemma_as_map_keys, lemma_as_map_values, lemma_collected, lemma_collected_distinct};
use crate::mapping::lemma_last_value;
use convert_case::{Case, Casing};
use vstd::prelude::*;

verus! {

/// The kebab-case form of a text: what `convert_case` makes of it when asked
/// for `Case::Kebab` (words split at separators and case changes, joined by
/// hyphens, in lower case).
pub uninterp spec fn kebab_case(text: Seq<char>) -> Seq<char>;

/// Whether a text is in kebab-case already, that is, whether converting it
/// gives the text back.
pub open spec fn is_kebab_case(text: Seq<char>) -> bool {
    kebab_case(text) == text
}

/// Whether a text is the kebab-case form of some text.
pub open spec fn kebab_form(text: Seq<char>) -> bool {
    exists|raw: Seq<char>| #[trigger] kebab_case(raw) == text
}

/// The pairs with every key replaced by its kebab-case form. Values and
/// order stay as they are.
pub open spec fn with_kebab_keys(pairs: Seq<Pair>) -> Seq<Pair> {
    Seq::new(pairs.len(), |i: int| (kebab_case(pairs[i].0), pairs[i].1))
}

/// The header pairs a request stores for the given ones: the keys in
/// kebab-case, and of two pairs whose keys have the same kebab-case form only
/// the later value, at the place of the earlier pair.
pub open spec fn normalized(pairs: Seq<Pair>) -> Seq<Pair> {
    collected(with_kebab_keys(pairs))
}

/// Whether a stored pair comes from one of the given pairs: its key is the
/// kebab-case form of that pair's key, and its value is that pair's value.
pub open spec fn stored_from(pairs: Seq<Pair>, stored: Pair) -> bool {
    exists|i: int|
        0 <= i < pairs.len() && kebab_case((#[trigger] pairs[i]).0) == stored.0 && pairs[i].1
            == stored.1
}

/// Converts a text to kebab-case by `convert_case`'s `Casing::to_case` with
/// `Case::Kebab`. Trusted: the result is the one that `kebab_case` names.
#[verifier::external_body]
pub(crate) fn to_kebab(text: &str) -> (kebab: String)
    ensures
        kebab@ == kebab_case(text@),
{
    text.to_case(Case::Kebab)
}

/// Whether a text is in kebab-case already.
pub fn is_kebab(text: &str) -> (yes: bool)
    ensures
        yes == is_kebab_case(text@),
{
    let kebab = to_kebab(text);
    let given = text.to_owned();
    kebab == given
}

/// Every given key is stored under its kebab-case form. No key is stored
/// twice, and every stored key is a kebab-case form.
pub proof fn lemma_normalized_keys(pairs: Seq<Pair>)
    ensures
        distinct_keys(normalized(pairs)),
        forall|i: int|
            0 <= i < pairs.len() ==> has_key(normalized(pairs), kebab_case((#[trigger] pairs[i]).0)),
        forall|j: int|
            0 <= j < normalized(pairs).len() ==> kebab_form((#[trigger] normalized(pairs)[j]).0),
{
    let renamed = with_kebab_keys(pairs);
    let stored = normalized(pairs);
    lemma_collected(renamed);
    lemma_as_map_keys(renamed);
    lemma_as_map_keys(stored);
    assert forall|i: int| 0 <= i < pairs.len() implies has_key(
        stored,
        kebab_case((#[trigger] pairs[i]).0),
    ) by {
        assert(renamed[i].0 == kebab_case(pairs[i].0));
        assert(has_key(renamed, kebab_case(pairs[i].0)));
        assert(as_map(renamed).contains_key(kebab_case(pairs[i].0)));
    }
    assert forall|j: int| 0 <= j < stored.len() implies kebab_form((#[trigger] stored[j]).0) by {
        let key = stored[j].0;
        assert(has_key(stored, key));
        assert(as_map(stored).contains_key(key));
        assert(has_key(renamed, key));
        let i = key_index(renamed, key);
        assert(kebab_case(pairs[i].0) == key);
    }
}

/// Values are stored unchanged: every stored pair has the value of a given
/// pair and, as its key, the kebab-case form of that pair's key. Where no
/// two given keys share a kebab-case form, every given value is stored under
/// the kebab-case form of its key, in the given order.
pub proof fn lemma_normalized_values(pairs: Seq<Pair>)
    ensures
        forall|j: int|
            0 <= j < normalized(pairs).len() ==> stored_from(pairs, #[trigger] normalized(pairs)[j]),
        distinct_keys(with_kebab_keys(pairs)) ==> normalized(pairs) == with_kebab_keys(pairs),
        distinct_keys(with_kebab_keys(pairs)) ==> forall|i: int|
            0 <= i < pairs.len() ==> as_map(normalized(pairs)).contains_key(
                kebab_case((#[trigger] pairs[i]).0),
            ) && as_map(normalized(pairs))[kebab_case(pairs[i].0)] == pairs[i].1,
{
    let renamed = with_kebab_keys(pairs);
    let stored = normalized(pairs);
    lemma_collected(renamed);
    lemma_as_map_values(stored);
    lemma_last_value(renamed);
    assert forall|j: int| 0 <= j < stored.len() implies stored_from(pairs, #[trigger] stored[j]) by {
        let key = stored[j].0;
        assert(as_map(stored).contains_key(key) && as_map(stored)[key] == stored[j].1);
        let i = choose|i: int|
            0 <= i < renamed.len() && (#[trigger] renamed[i]).0 == key && renamed[i].1 == as_map(
                renamed,
            )[key];
        assert(kebab_case(pairs[i].0) == stored[j].0 && pairs[i].1 == stored[j].1);
    }
    if distinct_keys(renamed) {
        lemma_collected_distinct(renamed);
        lemma_as_map_values(renamed);
        assert forall|i: int| 0 <= i < pairs.len() implies as_map(stored).contains_key(
            kebab_case((#[trigger] pairs[i]).0),
        ) && as_map(stored)[kebab_case(pairs[i].0)] == pairs[i].1 by {
            assert(renamed[i].0 == kebab_case(pairs[i].0));
            assert(as_map(renamed)[renamed[i].0] == renamed[i].1);
        }
    }
}

/// Normalization leaves headers alone that are normalized already: where
/// every key is in kebab-case and no key occurs twice, the stored pairs are
/// the given ones.
pub proof fn lemma_normalized_idempotent(pairs: Seq<Pair>)
    requires
        distinct_keys(pairs),
        forall|i: int| 0 <= i < pairs.len() ==> is_kebab_case((#[trigger] pairs[i]).0),
    ensures
        normalized(pairs) == pairs,
{
    assert(with_kebab_keys(pairs) =~= pairs);
    lemma_collected_distinct(pairs);
}

} // verus!
