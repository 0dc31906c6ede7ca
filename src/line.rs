use vstd::prelude::*;

verus! {

/// ASCII whitespace: space, tab, line feed, form feed, carriage return.
pub open spec fn is_space(b: u8) -> bool {
    b == 32u8 || b == 9u8 || b == 10u8 || b == 12u8 || b == 13u8
}

/// The first index at or after `i` that is not whitespace (or the end).
pub open spec fn skip_space(s: Seq<u8>, i: int) -> int
    decreases s.len() - i,
{
    if i < 0 || i >= s.len() || !is_space(s[i]) {
        i
    } else {
        skip_space(s, i + 1)
    }
}

/// The first index at or after `i` that is whitespace (or the end).
pub open spec fn token_end(s: Seq<u8>, i: int) -> int
    decreases s.len() - i,
{
    if i < 0 || i >= s.len() || is_space(s[i]) {
        i
    } else {
        token_end(s, i + 1)
    }
}

/// Where the first whitespace-delimited token of `s` ends.
pub open spec fn first_token_end(s: Seq<u8>) -> int {
    token_end(s, skip_space(s, 0))
}

/// Where the second whitespace-delimited token of `s` starts.
pub open spec fn value_start(s: Seq<u8>) -> int {
    skip_space(s, first_token_end(s))
}

/// Where the second whitespace-delimited token of `s` ends.
pub open spec fn value_end(s: Seq<u8>) -> int {
    token_end(s, value_start(s))
}

/// A line has a value when it holds at least two tokens.
pub open spec fn has_value(s: Seq<u8>) -> bool {
    value_start(s) < s.len()
}

/// The second token of `s`, its current value.
pub open spec fn value_of(s: Seq<u8>) -> Seq<u8> {
    s.subrange(value_start(s), value_end(s))
}

/// Whether `pat` occurs in `s` starting at `i`.
pub open spec fn occurs_at(s: Seq<u8>, pat: Seq<u8>, i: int) -> bool {
    0 <= i && i + pat.len() <= s.len() && s.subrange(i, i + pat.len()) == pat
}

/// The first position at or after `i` where `pat` occurs in `s`.
pub open spec fn find_from(s: Seq<u8>, pat: Seq<u8>, i: int) -> Option<int>
    decreases s.len() + 1 - i,
{
    if i < 0 || i + pat.len() > s.len() {
        None
    } else if occurs_at(s, pat, i) {
        Some(i)
    } else {
        find_from(s, pat, i + 1)
    }
}

/// `s` with the occurrence of `pat` at `i` replaced by `new`.
pub open spec fn splice(s: Seq<u8>, i: int, old_len: int, new: Seq<u8>) -> Seq<u8> {
    s.subrange(0, i) + new + s.subrange(i + old_len, s.len() as int)
}

/// A line with its value set to `new`: the first occurrence of the current
/// value within the line is replaced. `None` when the line has no value.
pub open spec fn update_line_spec(line: Seq<u8>, new: Seq<u8>) -> Option<Seq<u8>> {
    if !has_value(line) {
        None
    } else {
        let v = value_of(line);
        match find_from(line, v, 0) {
            Some(i) => Some(splice(line, i, v.len() as int, new)),
            None => Some(line),
        }
    }
}

/// A line with fewer than two whitespace-delimited tokens.
#[derive(Clone, Copy, Debug, PartialEq, Eq, Structural)]
pub struct MissingValue;

fn skip_space_exec(s: &[u8], start: usize) -> (r: usize)
    requires
        start <= s@.len(),
    ensures
        r as int == skip_space(s@, start as int),
        start <= r <= s@.len(),
{
    let mut i = start;
    while i < s.len() && is_space_exec(s[i])
        invariant
            start <= i <= s@.len(),
            skip_space(s@, start as int) == skip_space(s@, i as int),
        decreases s@.len() - i,
    {
        i = i + 1;
    }
    i
}

fn token_end_exec(s: &[u8], start: usize) -> (r: usize)
    requires
        start <= s@.len(),
    ensures
        r as int == token_end(s@, start as int),
        start <= r <= s@.len(),
{
    let mut i = start;
    while i < s.len() && !is_space_exec(s[i])
        invariant
            start <= i <= s@.len(),
            token_end(s@, start as int) == token_end(s@, i as int),
        decreases s@.len() - i,
    {
        i = i + 1;
    }
    i
}

fn is_space_exec(b: u8) -> (r: bool)
    ensures
        r == is_space(b),
{
    b == 32u8 || b == 9u8 || b == 10u8 || b == 12u8 || b == 13u8
}

/// Whether `pat` occurs in `s` at `i`.
pub fn occurs_at_exec(s: &[u8], pat: &[u8], i: usize) -> (r: bool)
    ensures
        r == occurs_at(s@, pat@, i as int),
{
    if i > s.len() || pat.len() > s.len() - i {
        return false;
    }
    let mut k: usize = 0;
    while k < pat.len()
        invariant
            i + pat@.len() <= s@.len(),
            s@.len() == s.len(),
            k <= pat@.len(),
            forall|j: int| 0 <= j < k ==> s@[i + j] == pat@[j],
        decreases pat@.len() - k,
    {
        if s[i + k] != pat[k] {
            assert(s@.subrange(i as int, i + pat@.len())[k as int] != pat@[k as int]);
            return false;
        }
        k = k + 1;
    }
    assert(s@.subrange(i as int, i + pat@.len()) =~= pat@);
    true
}

/// The first position where `pat` occurs in `s`.
pub fn find_first(s: &[u8], pat: &[u8]) -> (r: Option<usize>)
    ensures
        r matches Some(i) ==> find_from(s@, pat@, 0) == Some(i as int),
        r is None ==> find_from(s@, pat@, 0) is None,
{
    if pat.len() > s.len() {
        return None;
    }
    let last = s.len() - pat.len();
    let mut i: usize = 0;
    loop
        invariant
            pat@.len() <= s@.len(),
            last == s@.len() - pat@.len(),
            i <= last,
            find_from(s@, pat@, 0) == find_from(s@, pat@, i as int),
        decreases last - i,
    {
        if occurs_at_exec(s, pat, i) {
            return Some(i);
        }
        if i == last {
            assert(find_from(s@, pat@, i + 1) is None);
            return None;
        }
        i = i + 1;
    }
}

fn push_all(out: &mut Vec<u8>, src: &[u8], from: usize, to: usize)
    requires
        from <= to <= src@.len(),
    ensures
        final(out)@ == old(out)@ + src@.subrange(from as int, to as int),
{
    let mut k = from;
    while k < to
        invariant
            from <= k <= to <= src@.len(),
            out@ == old(out)@ + src@.subrange(from as int, k as int),
        decreases to - k,
    {
        out.push(src[k]);
        k = k + 1;
        assert(out@ =~= old(out)@ + src@.subrange(from as int, k as int));
    }
}

/// Sets the value of a `<Key> <Value>` line to `new_val`: the second
/// whitespace-delimited token is located and its first occurrence in the
/// line is replaced, so that spacing and trailing text are kept as they are.
pub fn update_line(line: &[u8], new_val: &[u8]) -> (r: Result<Vec<u8>, MissingValue>)
    ensures
        r matches Ok(l) ==> update_line_spec(line@, new_val@) == Some(l@),
        r is Err <==> update_line_spec(line@, new_val@) is None,
{
    let first_start = skip_space_exec(line, 0);
    let first_end = token_end_exec(line, first_start);
    let start = skip_space_exec(line, first_end);
    if start >= line.len() {
        return Err(MissingValue);
    }
    let end = token_end_exec(line, start);
    let val = vstd::slice::slice_subrange(line, start, end);
    let mut out: Vec<u8> = Vec::new();
    match find_first(line, val) {
        Some(i) => {
            proof {
                lemma_find_from_occurs(line@, val@, 0);
            }
            push_all(&mut out, line, 0, i);
            push_all(&mut out, new_val, 0, new_val.len());
            push_all(&mut out, line, i + val.len(), line.len());
            assert(new_val@.subrange(0, new_val@.len() as int) =~= new_val@);
        },
        None => {
            push_all(&mut out, line, 0, line.len());
            assert(line@.subrange(0, line@.len() as int) =~= line@);
        },
    }
    Ok(out)
}

/// What `find_from` returns is an occurrence.
pub proof fn lemma_find_from_occurs(s: Seq<u8>, pat: Seq<u8>, i: int)
    ensures
        find_from(s, pat, i) matches Some(k) ==> occurs_at(s, pat, k) && i <= k,
    decreases s.len() + 1 - i,
{
    if i < 0 || i + pat.len() > s.len() {
    } else if occurs_at(s, pat, i) {
    } else {
        lemma_find_from_occurs(s, pat, i + 1);
    }
}

} // verus!
