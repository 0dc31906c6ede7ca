use vstd::prelude::*;
use crate::line::{MissingValue, update_line, update_line_spec, occurs_at, occurs_at_exec};
use crate::preset::{Preset, screen_left_spec, screen_mode_spec};

verus! {

/// The text `ScreenLeft`.
pub open spec fn left_key() -> Seq<u8> {
    seq![83u8, 99, 114, 101, 101, 110, 76, 101, 102, 116]
}

/// The text `ScreenMode`.
pub open spec fn mode_key() -> Seq<u8> {
    seq![83u8, 99, 114, 101, 101, 110, 77, 111, 100, 101]
}

/// Whether line `l` begins with `key`.
pub open spec fn begins_with(l: Seq<u8>, key: Seq<u8>) -> bool {
    occurs_at(l, key, 0)
}

/// A line that a preset rewrites: one that begins with either key.
pub open spec fn is_candidate(l: Seq<u8>) -> bool {
    begins_with(l, left_key()) || begins_with(l, mode_key())
}

/// One line after `p` is applied: `ScreenLeft` lines take the preset's left
/// value, `ScreenMode` lines its mode value, and every other line stays.
pub open spec fn rewrite_line_spec(l: Seq<u8>, p: Preset) -> Option<Seq<u8>> {
    if p == Preset::Unchanged {
        Some(l)
    } else if begins_with(l, left_key()) {
        update_line_spec(l, screen_left_spec(p))
    } else if begins_with(l, mode_key()) {
        update_line_spec(l, screen_mode_spec(p))
    } else {
        Some(l)
    }
}

/// The end of the line that starts at `i`: the next line feed, or the end.
pub open spec fn line_end(t: Seq<u8>, i: int) -> int
    decreases t.len() - i,
{
    if i < 0 || i >= t.len() || t[i] == 10u8 {
        i
    } else {
        line_end(t, i + 1)
    }
}

/// The lines of `t` from offset `i` on, split at each line feed.
pub open spec fn lines_from(t: Seq<u8>, i: int) -> Seq<Seq<u8>>
    decreases t.len() - i,
    when 0 <= i <= t.len()
    via lines_from_decreases
{
    let k = line_end(t, i);
    if k < t.len() {
        seq![t.subrange(i, k)] + lines_from(t, k + 1)
    } else {
        seq![t.subrange(i, k)]
    }
}

#[via_fn]
proof fn lines_from_decreases(t: Seq<u8>, i: int) {
    lemma_line_end_bounds(t, i);
}

/// The lines of `t`; a text without a line feed is one line, and a final
/// line feed is followed by an empty line.
pub open spec fn split_lines(t: Seq<u8>) -> Seq<Seq<u8>> {
    lines_from(t, 0)
}

/// Lines put back together with a line feed between each two.
pub open spec fn join_lines(ls: Seq<Seq<u8>>) -> Seq<u8>
    decreases ls.len(),
{
    if ls.len() == 0 {
        seq![]
    } else if ls.len() == 1 {
        ls[0]
    } else {
        join_lines(ls.drop_last()) + seq![10u8] + ls.last()
    }
}

/// Whether every line of `ls` can take preset `p`.
pub open spec fn all_rewritable(ls: Seq<Seq<u8>>, p: Preset) -> bool {
    forall|j: int| 0 <= j < ls.len() ==> (#[trigger] rewrite_line_spec(ls[j], p)) is Some
}

/// Each line of `ls` after `p` is applied.
pub open spec fn rewritten_lines(ls: Seq<Seq<u8>>, p: Preset) -> Seq<Seq<u8>> {
    ls.map_values(
        |l: Seq<u8>|
            match rewrite_line_spec(l, p) {
                Some(n) => n,
                None => l,
            },
    )
}

/// A whole configuration text after `p` is applied line by line; `None`
/// when a candidate line has no value.
pub open spec fn rewrite_text_spec(t: Seq<u8>, p: Preset) -> Option<Seq<u8>> {
    let ls = split_lines(t);
    if all_rewritable(ls, p) {
        Some(join_lines(rewritten_lines(ls, p)))
    } else {
        None
    }
}

pub proof fn lemma_line_end_bounds(t: Seq<u8>, i: int)
    requires
        0 <= i <= t.len(),
    ensures
        i <= line_end(t, i) <= t.len(),
        line_end(t, i) < t.len() ==> t[line_end(t, i)] == 10u8,
        forall|j: int| i <= j < line_end(t, i) ==> t[j] != 10u8,
    decreases t.len() - i,
{
    if i < t.len() && t[i] != 10u8 {
        lemma_line_end_bounds(t, i + 1);
    }
}

fn line_end_exec(t: &[u8], start: usize) -> (r: usize)
    requires
        start <= t@.len(),
    ensures
        r as int == line_end(t@, start as int),
        start <= r <= t@.len(),
{
    let mut i = start;
    while i < t.len() && t[i] != 10u8
        invariant
            start <= i <= t@.len(),
            line_end(t@, start as int) == line_end(t@, i as int),
        decreases t@.len() - i,
    {
        i = i + 1;
    }
    i
}

fn copy_of(s: &[u8]) -> (r: Vec<u8>)
    ensures
        r@ == s@,
{
    let mut out: Vec<u8> = Vec::new();
    let mut k: usize = 0;
    while k < s.len()
        invariant
            k <= s@.len(),
            out@ == s@.subrange(0, k as int),
        decreases s@.len() - k,
    {
        out.push(s[k]);
        k = k + 1;
        assert(out@ =~= s@.subrange(0, k as int));
    }
    assert(s@.subrange(0, s@.len() as int) =~= s@);
    out
}

fn left_key_exec() -> (r: Vec<u8>)
    ensures
        r@ == left_key(),
{
    let r = vec![83u8, 99, 114, 101, 101, 110, 76, 101, 102, 116];
    assert(r@ =~= left_key());
    r
}

fn mode_key_exec() -> (r: Vec<u8>)
    ensures
        r@ == mode_key(),
{
    let r = vec![83u8, 99, 114, 101, 101, 110, 77, 111, 100, 101];
    assert(r@ =~= mode_key());
    r
}

/// Applies preset `p` to one line of the configuration file.
pub fn rewrite_line(line: &[u8], p: Preset) -> (r: Result<Vec<u8>, MissingValue>)
    ensures
        r matches Ok(l) ==> rewrite_line_spec(line@, p) == Some(l@),
        r is Err <==> rewrite_line_spec(line@, p) is None,
{
    if p == Preset::Unchanged {
        return Ok(copy_of(line));
    }
    let left = left_key_exec();
    if occurs_at_exec(line, left.as_slice(), 0) {
        let v = p.screen_left();
        return update_line(line, v.as_slice());
    }
    let mode = mode_key_exec();
    if occurs_at_exec(line, mode.as_slice(), 0) {
        let v = p.screen_mode();
        return update_line(line, v.as_slice());
    }
    Ok(copy_of(line))
}

proof fn lemma_join_push(ls: Seq<Seq<u8>>, x: Seq<u8>)
    requires
        ls.len() > 0,
    ensures
        join_lines(ls.push(x)) == join_lines(ls) + seq![10u8] + x,
{
    assert(ls.push(x).drop_last() =~= ls);
}

/// Applies preset `p` to a whole configuration text: the text is split at
/// each line feed, every line that begins with `ScreenLeft` or `ScreenMode`
/// has its value replaced by the preset's, and the lines are joined again,
/// so that every other byte keeps its place. Fails when such a line has no
/// value.
pub fn rewrite_config(text: &[u8], p: Preset) -> (r: Result<Vec<u8>, MissingValue>)
    ensures
        r matches Ok(o) ==> rewrite_text_spec(text@, p) == Some(o@),
        r is Err <==> rewrite_text_spec(text@, p) is None,
{
    let mut out: Vec<u8> = Vec::new();
    let mut i: usize = 0;
    let ghost mut done: Seq<Seq<u8>> = seq![];
    loop
        invariant
            0 <= i <= text@.len(),
            split_lines(text@) == done + lines_from(text@, i as int),
            all_rewritable(done, p),
            out@ == join_lines(rewritten_lines(done, p)),
            i > 0 <==> done.len() > 0,
        decreases text@.len() - i,
    {
        let k = line_end_exec(text, i);
        proof {
            lemma_line_end_bounds(text@, i as int);
        }
        let line = vstd::slice::slice_subrange(text, i, k);
        let ghost rest = lines_from(text@, i as int);
        assert(rest[0] == line@);
        assert((done + rest)[done.len() as int] == line@);
        match rewrite_line(line, p) {
            Err(e) => {
                assert(!all_rewritable(split_lines(text@), p)) by {
                    let j = done.len() as int;
                    assert(rewrite_line_spec(split_lines(text@)[j], p) is None);
                }
                return Err(e);
            },
            Ok(nl) => {
                let ghost before = done;
                if i > 0 {
                    out.push(10u8);
                }
                let mut m: usize = 0;
                let ghost base = out@;
                while m < nl.len()
                    invariant
                        m <= nl@.len(),
                        out@ == base + nl@.subrange(0, m as int),
                    decreases nl@.len() - m,
                {
                    out.push(nl[m]);
                    m = m + 1;
                    assert(out@ =~= base + nl@.subrange(0, m as int));
                }
                assert(nl@.subrange(0, nl@.len() as int) =~= nl@);
                proof {
                    done = done.push(line@);
                    assert(rewritten_lines(done, p) =~= rewritten_lines(before, p).push(nl@));
                    if before.len() > 0 {
                        lemma_join_push(rewritten_lines(before, p), nl@);
                    } else {
                        assert(rewritten_lines(done, p) =~= seq![nl@]);
                    }
                    assert forall|j: int| 0 <= j < done.len() implies (#[trigger] rewrite_line_spec(
                        done[j],
                        p,
                    )) is Some by {
                        if j < before.len() {
                            assert(done[j] == before[j]);
                        }
                    }
                }
                if k == text.len() {
                    assert(split_lines(text@) =~= done);
                    return Ok(out);
                }
                assert(split_lines(text@) =~= done + lines_from(text@, k + 1));
                i = k + 1;
            },
        }
    }
}

} // verus!
