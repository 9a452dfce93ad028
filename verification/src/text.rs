//! String helpers shared by the other modules.
//!
//! Two of std's string functions have no specification that the verifier
//! knows, so each is wrapped here and its contract is assumed.

use vstd::prelude::*;
use vstd::string::StringExecFns;

verus! {

/// The lowercase form that `str::to_lowercase` gives a string.
pub uninterp spec fn lowercase_of(s: Seq<char>) -> Seq<char>;

/// The string that `str::replace` builds from `s` when every match of `from`
/// is replaced by `to`.
pub uninterp spec fn replaced(s: Seq<char>, from: Seq<char>, to: Seq<char>) -> Seq<char>;

/// Wraps `str::to_lowercase`. Assumed: the result depends on the characters of
/// `s` alone. What Unicode says the lowercase form is, is not restated here.
#[verifier::external_body]
pub(crate) fn to_lowercase(s: &str) -> (r: String)
    ensures
        r@ == lowercase_of(s@),
{
    s.to_lowercase()
}

/// Wraps `str::replace`. Assumed: the result depends on the characters of the
/// three strings alone.
#[verifier::external_body]
pub(crate) fn replace_all(s: &str, from: &str, to: &str) -> (r: String)
    ensures
        r@ == replaced(s@, from@, to@),
{
    s.replace(from, to)
}

/// Whether two string slices hold the same characters.
pub(crate) fn str_eq(a: &str, b: &str) -> (r: bool)
    ensures
        r == (a@ == b@),
{
    let left = a.to_owned();
    let right = b.to_owned();
    left == right
}

/// A fresh `String` with the characters of `s`.
pub(crate) fn owned(s: &str) -> (r: String)
    ensures
        r@ == s@,
{
    String::from_str(s)
}

/// The characters of an optional string.
pub open spec fn text_view(text: Option<String>) -> Option<Seq<char>> {
    match text {
        Some(s) => Some(s@),
        None => None,
    }
}

/// Whether no string occurs twice in `items`.
pub open spec fn distinct(items: Seq<Seq<char>>) -> bool {
    forall|i: int, j: int| 0 <= i < j < items.len() ==> items[i] != items[j]
}

/// A place of `key` in `items`, where there is one. Where no string occurs
/// twice, it is the place of `key`.
pub open spec fn position_of(items: Seq<Seq<char>>, key: Seq<char>) -> int {
    choose|i: int| 0 <= i < items.len() && items[i] == key
}

/// In a list without repeats, the place of an item is where it stands.
pub proof fn lemma_position_of(items: Seq<Seq<char>>, i: int)
    requires
        distinct(items),
        0 <= i < items.len(),
    ensures
        position_of(items, items[i]) == i,
{
    let p = position_of(items, items[i]);
    assert(0 <= p < items.len() && items[p] == items[i]);
    if p < i {
        assert(items[p] != items[i]);
    } else if i < p {
        assert(items[i] != items[p]);
    }
}

/// The first place of `key` in `items`, if it occurs there.
pub(crate) fn position(items: &Vec<String>, key: &str) -> (r: Option<usize>)
    ensures
        match r {
            Some(i) => i < items@.len() && items@[i as int]@ == key@ && forall|j: int|
                0 <= j < i ==> items@[j]@ != key@,
            None => !items.deep_view().contains(key@),
        },
{
    let mut i: usize = 0;
    while i < items.len()
        invariant
            i <= items@.len(),
            forall|j: int| 0 <= j < i ==> items@[j]@ != key@,
        decreases items@.len() - i,
    {
        if str_eq(items[i].as_str(), key) {
            return Some(i);
        }
        i += 1;
    }
    assert forall|j: int| 0 <= j < items.deep_view().len() implies items.deep_view()[j] != key@ by {}
    None
}

/// Takes `key` out of a list in which no string occurs twice. The strings that
/// stay keep their order.
pub(crate) fn remove_text(items: &mut Vec<String>, key: &str)
    requires
        distinct(old(items).deep_view()),
    ensures
        distinct(final(items).deep_view()),
        forall|s: Seq<char>|
            final(items).deep_view().contains(s) <==> old(items).deep_view().contains(s) && s
                != key@,
{
    let ghost before = items.deep_view();
    match position(items, key) {
        Some(i) => {
            assert(before[i as int] == key@);
            items.remove(i);
            proof {
                let after = items.deep_view();
                assert(after =~= before.remove(i as int));
                assert forall|a: int, b: int| 0 <= a < b < after.len() implies after[a]
                    != after[b] by {
                    let x = if a < i { a } else { a + 1 };
                    let y = if b < i { b } else { b + 1 };
                    assert(before[x] != before[y]);
                }
                assert forall|s: Seq<char>| after.contains(s) implies before.contains(s) && s
                    != key@ by {
                    let j = choose|j: int| 0 <= j < after.len() && after[j] == s;
                    if j < i {
                        assert(before[j] == s);
                        assert(before[j] != before[i as int]);
                    } else {
                        assert(before[j + 1] == s);
                        assert(before[i as int] != before[j + 1]);
                    }
                }
                assert forall|s: Seq<char>| before.contains(s) && s != key@ implies after.contains(
                    s,
                ) by {
                    let j = choose|j: int| 0 <= j < before.len() && before[j] == s;
                    if j < i {
                        assert(after[j] == s);
                    } else {
                        assert(after[j - 1] == s);
                    }
                }
            }
        },
        None => {},
    }
}

/// A copy of a list of strings.
pub(crate) fn clone_strings(items: &Vec<String>) -> (r: Vec<String>)
    ensures
        r@ == items@,
        r.deep_view() == items.deep_view(),
{
    let mut copies: Vec<String> = Vec::new();
    let mut i: usize = 0;
    while i < items.len()
        invariant
            i <= items@.len(),
            copies@.len() == i,
            forall|j: int| 0 <= j < i ==> copies@[j] == items@[j],
        decreases items@.len() - i,
    {
        copies.push(items[i].clone());
        i += 1;
    }
    assert(copies@ =~= items@);
    assert(copies.deep_view() =~= items.deep_view());
    copies
}

/// A copy of an optional string.
pub(crate) fn clone_optional_text(text: &Option<String>) -> (r: Option<String>)
    ensures
        r == *text,
{
    match text {
        Some(s) => Some(s.clone()),
        None => None,
    }
}

} // verus!
