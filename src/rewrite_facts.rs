use vstd::prelude::*;
use crate::line::{
    find_from, first_token_end, has_value, is_space, lemma_find_from_occurs, skip_space, token_end,
    update_line_spec, value_of, value_start,
};
use crate::line_facts::{
    is_plain_value, lemma_skip_space_is, lemma_token_end_bounds, lemma_update_in_place,
    lemma_value_positions, no_line_feed, value_found_in_place,
};
use crate::preset::{Preset, screen_left_spec, screen_mode_spec};
use crate::rewrite::{
    all_rewritable, begins_with, is_candidate, join_lines, lemma_line_end_bounds, left_key,
    line_end, lines_from, mode_key, rewrite_line_spec, rewrite_text_spec, rewritten_lines,
    split_lines,
};

verus! {

proof fn lemma_lines_from_shape(t: Seq<u8>, i: int)
    requires
        0 <= i <= t.len(),
    ensures
        lines_from(t, i).len() >= 1,
        forall|j: int| 0 <= j < lines_from(t, i).len() ==> no_line_feed(#[trigger] lines_from(t, i)[j]),
    decreases t.len() - i,
{
    lemma_line_end_bounds(t, i);
    let k = line_end(t, i);
    let first = t.subrange(i, k);
    assert(no_line_feed(first)) by {
        assert forall|j: int| 0 <= j < first.len() implies #[trigger] first[j] != 10u8 by {
            assert(first[j] == t[i + j]);
        }
    }
    if k < t.len() {
        lemma_lines_from_shape(t, k + 1);
        let rest = lines_from(t, k + 1);
        assert forall|j: int| 0 <= j < lines_from(t, i).len() implies no_line_feed(
            #[trigger] lines_from(t, i)[j],
        ) by {
            if j > 0 {
                assert(lines_from(t, i)[j] == rest[j - 1]);
            }
        }
    }
}

proof fn lemma_join_prepend(a: Seq<u8>, ls: Seq<Seq<u8>>)
    requires
        ls.len() >= 1,
    ensures
        join_lines(seq![a] + ls) == a + seq![10u8] + join_lines(ls),
    decreases ls.len(),
{
    let all = seq![a] + ls;
    if ls.len() == 1 {
        assert(all.drop_last() =~= seq![a]);
        assert(all.last() == ls[0]);
        assert(join_lines(seq![a]) == a);
    } else {
        assert(all.drop_last() =~= seq![a] + ls.drop_last());
        lemma_join_prepend(a, ls.drop_last());
        assert(join_lines(all) =~= a + seq![10u8] + join_lines(ls));
    }
}

proof fn lemma_join_lines_from(t: Seq<u8>, i: int)
    requires
        0 <= i <= t.len(),
    ensures
        join_lines(lines_from(t, i)) == t.subrange(i, t.len() as int),
    decreases t.len() - i,
{
    lemma_line_end_bounds(t, i);
    let k = line_end(t, i);
    if k < t.len() {
        lemma_join_lines_from(t, k + 1);
        lemma_lines_from_shape(t, k + 1);
        lemma_join_prepend(t.subrange(i, k), lines_from(t, k + 1));
        assert(t.subrange(i, k) + seq![10u8] + t.subrange(k + 1, t.len() as int) =~= t.subrange(
            i,
            t.len() as int,
        ));
    }
}

proof fn lemma_line_end_shift(c: Seq<u8>, b: Seq<u8>, j: int)
    requires
        0 <= j <= b.len(),
    ensures
        line_end(c + b, c.len() + j) == c.len() + line_end(b, j),
    decreases b.len() - j,
{
    if j < b.len() && b[j] != 10u8 {
        assert((c + b)[c.len() + j] == b[j]);
        lemma_line_end_shift(c, b, j + 1);
    } else if j < b.len() {
        assert((c + b)[c.len() + j] == b[j]);
    }
}

proof fn lemma_lines_from_shift(c: Seq<u8>, b: Seq<u8>, j: int)
    requires
        0 <= j <= b.len(),
    ensures
        lines_from(c + b, c.len() + j) == lines_from(b, j),
    decreases b.len() - j,
{
    lemma_line_end_shift(c, b, j);
    lemma_line_end_bounds(b, j);
    let k = line_end(b, j);
    assert((c + b).subrange(c.len() + j, c.len() + k) =~= b.subrange(j, k));
    if k < b.len() {
        lemma_lines_from_shift(c, b, k + 1);
    }
}

proof fn lemma_line_end_first(a: Seq<u8>, rest: Seq<u8>, i: int)
    requires
        no_line_feed(a),
        0 <= i <= a.len(),
    ensures
        line_end(a + seq![10u8] + rest, i) == a.len(),
    decreases a.len() - i,
{
    let t = a + seq![10u8] + rest;
    if i < a.len() {
        assert(t[i] == a[i]);
        lemma_line_end_first(a, rest, i + 1);
    } else {
        assert(t[i] == 10u8);
    }
}

/// Lines without line feeds, joined and split again, come back as they were.
pub proof fn lemma_split_join(ls: Seq<Seq<u8>>)
    requires
        ls.len() >= 1,
        forall|j: int| 0 <= j < ls.len() ==> no_line_feed(#[trigger] ls[j]),
    ensures
        split_lines(join_lines(ls)) == ls,
    decreases ls.len(),
{
    if ls.len() == 1 {
        let a = ls[0];
        assert(no_line_feed(ls[0]));
        lemma_line_end_bounds(a, 0);
        if line_end(a, 0) < a.len() {
            assert(a[line_end(a, 0)] != 10u8);
        }
        assert(a.subrange(0, a.len() as int) =~= a);
        assert(split_lines(a) =~= ls);
    } else {
        let a = ls[0];
        let r = ls.drop_first();
        assert(ls =~= seq![a] + r);
        assert forall|j: int| 0 <= j < r.len() implies no_line_feed(#[trigger] r[j]) by {
            assert(r[j] == ls[j + 1]);
        }
        lemma_split_join(r);
        lemma_join_prepend(a, r);
        let jr = join_lines(r);
        let c = a + seq![10u8];
        let t = c + jr;
        assert(join_lines(ls) == t);
        assert(no_line_feed(ls[0]));
        lemma_line_end_first(a, jr, 0);
        assert(a + seq![10u8] + jr == t);
        lemma_lines_from_shift(c, jr, 0);
        assert(t.subrange(0, a.len() as int) =~= a);
        assert(split_lines(t) =~= seq![a] + split_lines(jr));
    }
}

proof fn lemma_keys()
    ensures
        left_key().len() == 10,
        mode_key().len() == 10,
        forall|j: int| 0 <= j < 10 ==> !is_space(#[trigger] left_key()[j]),
        forall|j: int| 0 <= j < 10 ==> !is_space(#[trigger] mode_key()[j]),
        left_key()[6] != mode_key()[6],
{
}

proof fn lemma_preset_values(p: Preset)
    ensures
        is_plain_value(screen_left_spec(p)),
        is_plain_value(screen_mode_spec(p)),
        no_line_feed(screen_left_spec(p)),
        no_line_feed(screen_mode_spec(p)),
{
}

/// A line that begins with a key has a first token at least as long as it.
proof fn lemma_key_token(l: Seq<u8>, key: Seq<u8>)
    requires
        key.len() == 10,
        forall|j: int| 0 <= j < 10 ==> !is_space(#[trigger] key[j]),
        begins_with(l, key),
    ensures
        skip_space(l, 0) == 0,
        first_token_end(l) >= 10,
{
    assert(l[0] == l.subrange(0, 10)[0]);
    lemma_skip_space_is(l, 0, 0);
    lemma_token_end_bounds(l, 0);
    let te = token_end(l, 0);
    if te < 10 {
        assert(l[te] == l.subrange(0, 10)[te]);
    }
}

proof fn lemma_update_no_line_feed(l: Seq<u8>, v: Seq<u8>)
    requires
        no_line_feed(l),
        no_line_feed(v),
    ensures
        update_line_spec(l, v) matches Some(n) ==> no_line_feed(n),
{
    if has_value(l) {
        lemma_find_from_occurs(l, value_of(l), 0);
        match find_from(l, value_of(l), 0) {
            Some(f) => {
                let n = update_line_spec(l, v)->Some_0;
                let w = value_of(l).len() as int;
                assert forall|j: int| 0 <= j < n.len() implies #[trigger] n[j] != 10u8 by {
                    if j < f {
                        assert(n[j] == l[j]);
                    } else if j < f + v.len() {
                        assert(n[j] == v[j - f]);
                    } else {
                        assert(n[j] == l[j - v.len() + w]);
                    }
                }
            },
            None => {},
        }
    }
}

proof fn lemma_rewritten_shape(ls: Seq<Seq<u8>>, p: Preset)
    requires
        ls.len() >= 1,
        forall|j: int| 0 <= j < ls.len() ==> no_line_feed(#[trigger] ls[j]),
    ensures
        rewritten_lines(ls, p).len() == ls.len(),
        forall|j: int|
            0 <= j < ls.len() ==> no_line_feed(#[trigger] rewritten_lines(ls, p)[j]),
{
    lemma_preset_values(p);
    assert forall|j: int| 0 <= j < ls.len() implies no_line_feed(
        #[trigger] rewritten_lines(ls, p)[j],
    ) by {
        assert(no_line_feed(ls[j]));
        lemma_update_no_line_feed(ls[j], screen_left_spec(p));
        lemma_update_no_line_feed(ls[j], screen_mode_spec(p));
    }
}

/// Splitting a text into lines and joining them again gives the text back,
/// and a rewrite changes only lines that begin with `ScreenLeft` or
/// `ScreenMode`: the rewritten text has as many lines, in the same order,
/// and every other line is byte for byte what it was.
pub proof fn lemma_non_target_lines_kept(t: Seq<u8>, p: Preset)
    ensures
        join_lines(split_lines(t)) == t,
        rewrite_text_spec(t, p) matches Some(o) ==> {
            let before = split_lines(t);
            let after = split_lines(o);
            &&& after.len() == before.len()
            &&& forall|j: int|
                0 <= j < before.len() && !is_candidate(#[trigger] before[j]) ==> after[j]
                    == before[j]
            &&& forall|j: int|
                0 <= j < before.len() ==> Some(#[trigger] after[j]) == rewrite_line_spec(
                    before[j],
                    p,
                )
        },
{
    lemma_join_lines_from(t, 0);
    assert(t.subrange(0, t.len() as int) =~= t);
    let ls = split_lines(t);
    lemma_lines_from_shape(t, 0);
    if let Some(o) = rewrite_text_spec(t, p) {
        lemma_rewritten_shape(ls, p);
        lemma_split_join(rewritten_lines(ls, p));
        assert forall|j: int| 0 <= j < ls.len() implies Some(
            #[trigger] split_lines(o)[j],
        ) == rewrite_line_spec(ls[j], p) by {
            assert(rewrite_line_spec(ls[j], p) is Some);
        }
    }
}

proof fn lemma_line_idempotent(l: Seq<u8>, p: Preset)
    requires
        is_candidate(l) && has_value(l) ==> value_found_in_place(l),
    ensures
        rewrite_line_spec(l, p) matches Some(n) ==> rewrite_line_spec(n, p) == Some(n),
{
    lemma_keys();
    lemma_preset_values(p);
    if p != Preset::Unchanged && has_value(l) {
        let key = if begins_with(l, left_key()) {
            left_key()
        } else {
            mode_key()
        };
        let v = if begins_with(l, left_key()) {
            screen_left_spec(p)
        } else {
            screen_mode_spec(p)
        };
        if is_candidate(l) {
            lemma_key_token(l, key);
            lemma_value_positions(l);
            lemma_update_in_place(l, v);
            let n = update_line_spec(l, v)->Some_0;
            let a1 = value_start(l);
            assert(n.subrange(0, 10) =~= l.subrange(0, 10)) by {
                assert forall|j: int| 0 <= j < 10 implies n[j] == l[j] by {
                    assert(n.subrange(0, a1)[j] == l.subrange(0, a1)[j]);
                }
            }
            assert(begins_with(n, left_key()) == begins_with(l, left_key()));
            assert(begins_with(n, mode_key()) == begins_with(l, mode_key()));
        }
    }
}

/// Rewriting a text a second time under the same preset changes nothing,
/// for texts in which the value of each line that begins with a key is
/// first found at its own place in that line.
pub proof fn lemma_rewrite_idempotent(t: Seq<u8>, p: Preset)
    requires
        forall|j: int|
            0 <= j < split_lines(t).len() && is_candidate(#[trigger] split_lines(t)[j]) && has_value(
                split_lines(t)[j],
            ) ==> value_found_in_place(split_lines(t)[j]),
    ensures
        rewrite_text_spec(t, p) matches Some(o) ==> rewrite_text_spec(o, p) == Some(o),
{
    let ls = split_lines(t);
    lemma_lines_from_shape(t, 0);
    if let Some(o) = rewrite_text_spec(t, p) {
        let ls2 = rewritten_lines(ls, p);
        lemma_rewritten_shape(ls, p);
        lemma_split_join(ls2);
        assert forall|j: int| 0 <= j < ls2.len() implies #[trigger] rewrite_line_spec(ls2[j], p)
            == Some(ls2[j]) by {
            assert(rewrite_line_spec(ls[j], p) is Some);
            lemma_line_idempotent(ls[j], p);
        }
        assert(all_rewritable(ls2, p));
        assert(rewritten_lines(ls2, p) =~= ls2);
    }
}

/// The rewritten text depends on the text and the preset alone.
pub proof fn lemma_rewrite_deterministic(t1: Seq<u8>, t2: Seq<u8>, p: Preset)
    requires
        t1 == t2,
    ensures
        rewrite_text_spec(t1, p) == rewrite_text_spec(t2, p),
{
}

/// For a line that starts with its first token, the key is matched as a
/// prefix of that token: a token such as `ScreenLeftOffset` counts as
/// `ScreenLeft`, and a token that does not start with a key never does.
pub proof fn lemma_key_prefix(l: Seq<u8>)
    requires
        l.len() > 0,
        !is_space(l[0]),
    ensures
        begins_with(l, left_key()) <==> begins_with(l.subrange(0, first_token_end(l)), left_key()),
        begins_with(l, mode_key()) <==> begins_with(l.subrange(0, first_token_end(l)), mode_key()),
{
    lemma_keys();
    lemma_skip_space_is(l, 0, 0);
    lemma_token_end_bounds(l, 0);
    let te = first_token_end(l);
    let tok = l.subrange(0, te);
    if begins_with(l, left_key()) {
        lemma_key_token(l, left_key());
    }
    if begins_with(l, mode_key()) {
        lemma_key_token(l, mode_key());
    }
    if te >= 10 {
        assert(tok.subrange(0, 10) =~= l.subrange(0, 10));
    }
}

} // verus!
