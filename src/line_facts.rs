use vstd::prelude::*;
use crate::line::{
    find_from, first_token_end, has_value, is_space, lemma_find_from_occurs, skip_space, splice,
    token_end, update_line_spec, value_end, value_of, value_start,
};

verus! {

pub proof fn lemma_skip_space_bounds(s: Seq<u8>, i: int)
    requires
        0 <= i <= s.len(),
    ensures
        i <= skip_space(s, i) <= s.len(),
        forall|j: int| i <= j < skip_space(s, i) ==> is_space(#[trigger] s[j]),
        skip_space(s, i) < s.len() ==> !is_space(s[skip_space(s, i)]),
    decreases s.len() - i,
{
    if i < s.len() && is_space(s[i]) {
        lemma_skip_space_bounds(s, i + 1);
    }
}

pub proof fn lemma_token_end_bounds(s: Seq<u8>, i: int)
    requires
        0 <= i <= s.len(),
    ensures
        i <= token_end(s, i) <= s.len(),
        forall|j: int| i <= j < token_end(s, i) ==> !is_space(#[trigger] s[j]),
        token_end(s, i) < s.len() ==> is_space(s[token_end(s, i)]),
    decreases s.len() - i,
{
    if i < s.len() && !is_space(s[i]) {
        lemma_token_end_bounds(s, i + 1);
    }
}

/// A run of spaces from `i` to `e` that ends at a non-space or the end is
/// what `skip_space` skips.
pub proof fn lemma_skip_space_is(s: Seq<u8>, i: int, e: int)
    requires
        0 <= i <= e <= s.len(),
        forall|j: int| i <= j < e ==> is_space(#[trigger] s[j]),
        e == s.len() || !is_space(s[e]),
    ensures
        skip_space(s, i) == e,
    decreases e - i,
{
    if i < e {
        lemma_skip_space_is(s, i + 1, e);
    }
}

/// A run of non-spaces from `i` to `e` that ends at a space or the end is
/// one token.
pub proof fn lemma_token_end_is(s: Seq<u8>, i: int, e: int)
    requires
        0 <= i <= e <= s.len(),
        forall|j: int| i <= j < e ==> !is_space(#[trigger] s[j]),
        e == s.len() || is_space(s[e]),
    ensures
        token_end(s, i) == e,
    decreases e - i,
{
    if i < e {
        lemma_token_end_is(s, i + 1, e);
    }
}

/// Where the line has a value, its positions are in order.
pub proof fn lemma_value_positions(l: Seq<u8>)
    requires
        has_value(l),
    ensures
        0 <= skip_space(l, 0) <= first_token_end(l) < value_start(l) < value_end(l) <= l.len(),
        forall|j: int| first_token_end(l) <= j < value_start(l) ==> is_space(#[trigger] l[j]),
        forall|j: int| value_start(l) <= j < value_end(l) ==> !is_space(#[trigger] l[j]),
        value_end(l) < l.len() ==> is_space(l[value_end(l)]),
        forall|j: int| skip_space(l, 0) <= j < first_token_end(l) ==> !is_space(#[trigger] l[j]),
        forall|j: int| 0 <= j < skip_space(l, 0) ==> is_space(#[trigger] l[j]),
{
    lemma_skip_space_bounds(l, 0);
    let a0 = skip_space(l, 0);
    lemma_token_end_bounds(l, a0);
    let e0 = first_token_end(l);
    lemma_skip_space_bounds(l, e0);
    let a1 = value_start(l);
    lemma_token_end_bounds(l, a1);
    if e0 == a1 {
        assert(is_space(l[e0]));
    }
}

/// The first occurrence of a line's value is the value token itself.
pub open spec fn value_found_in_place(l: Seq<u8>) -> bool {
    find_from(l, value_of(l), 0) == Some(value_start(l))
}

/// A value to write: not empty, and without white space.
pub open spec fn is_plain_value(v: Seq<u8>) -> bool {
    v.len() > 0 && forall|j: int| 0 <= j < v.len() ==> !is_space(#[trigger] v[j])
}

/// A line without a line feed.
pub open spec fn no_line_feed(l: Seq<u8>) -> bool {
    forall|j: int| 0 <= j < l.len() ==> #[trigger] l[j] != 10u8
}

/// A line whose value stands where it is found is, after its value is set,
/// a line whose value is the new value, with everything before it kept.
pub proof fn lemma_update_in_place(l: Seq<u8>, v: Seq<u8>)
    requires
        has_value(l),
        value_found_in_place(l),
        is_plain_value(v),
    ensures
        update_line_spec(l, v) matches Some(n) && has_value(n) && value_of(n) == v
            && n.subrange(0, value_start(l)) == l.subrange(0, value_start(l))
            && value_start(n) == value_start(l) && update_line_spec(n, v) == Some(n),
{
    lemma_value_positions(l);
    let a0 = skip_space(l, 0);
    let e0 = first_token_end(l);
    let a1 = value_start(l);
    let e1 = value_end(l);
    let n = splice(l, a1, e1 - a1, v);
    assert(update_line_spec(l, v) == Some(n));
    assert(n.len() == a1 + v.len() + (l.len() - e1));
    assert forall|j: int| 0 <= j < a1 implies #[trigger] n[j] == l[j] by {}
    assert forall|j: int| 0 <= j < v.len() implies #[trigger] n[a1 + j] == v[j] by {}
    assert forall|j: int| e1 <= j < l.len() implies #[trigger] n[a1 + v.len() + (j - e1)] == l[j] by {}
    lemma_skip_space_bounds(l, 0);
    assert(n[a0] == l[a0]);
    lemma_skip_space_is(n, 0, a0);
    lemma_token_end_is(n, a0, e0);
    assert(!is_space(n[a1])) by {
        assert(n[a1 + 0] == v[0]);
    }
    lemma_skip_space_is(n, e0, a1);
    let e = a1 + v.len();
    if e < n.len() {
        assert(n[a1 + v.len() + (e1 - e1)] == l[e1]);
    }
    assert forall|j: int| a1 <= j < e implies !is_space(#[trigger] n[j]) by {
        assert(n[a1 + (j - a1)] == v[j - a1]);
    }
    lemma_token_end_is(n, a1, e);
    assert(value_of(n) =~= v);
    assert(n.subrange(0, a1) =~= l.subrange(0, a1));
    match find_from(n, v, 0) {
        Some(f) => {
            lemma_find_from_occurs(n, v, 0);
            assert(splice(n, f, v.len() as int, v) =~= n);
        },
        None => {},
    }
}

} // verus!
