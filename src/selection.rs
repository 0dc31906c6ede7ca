use vstd::prelude::*;
use crate::preset::Preset;
use vstd::string::StringSliceAdditionalSpecFns;
use vstd::utf8::encode_utf8;

verus! {

/// What `str::trim` returns for a text.
pub uninterp spec fn trim_of(s: Seq<char>) -> Seq<char>;

/// Relies on `str::trim`: leading and trailing white space is removed, and
/// the result depends on the characters alone.
#[verifier::external_body]
fn trim(s: &str) -> (r: &str)
    ensures
        r@ == trim_of(s@),
{
    s.trim()
}

/// The outcome of one answer at the preset prompt.
#[derive(Clone, Copy, Debug, PartialEq, Eq, Structural)]
pub enum Selection {
    /// A preset was picked; an empty answer picks `Unchanged`.
    Chosen(Preset),
    /// The answer was not understood and the menu is shown again.
    AskAgain,
}

pub open spec fn is_digit(b: u8) -> bool {
    48u8 <= b <= 57u8
}

/// Whether every byte of `ds` is a decimal digit.
pub open spec fn all_digits(ds: Seq<u8>) -> bool {
    forall|j: int| 0 <= j < ds.len() ==> is_digit(#[trigger] ds[j])
}

/// The number written by the first `n` decimal digits of `ds`.
pub open spec fn digits_value(ds: Seq<u8>, n: int) -> int
    decreases n,
{
    if n <= 0 {
        0
    } else {
        digits_value(ds, n - 1) * 10 + (ds[n - 1] - 48)
    }
}

/// The preset for a number of the menu.
pub open spec fn preset_for(v: int) -> Selection {
    if v == 0 {
        Selection::Chosen(Preset::FullscreenRight)
    } else if v == 1 {
        Selection::Chosen(Preset::WindowedRight)
    } else if v == 2 {
        Selection::Chosen(Preset::WindowedLeft)
    } else {
        Selection::AskAgain
    }
}

/// What an already trimmed answer selects: empty keeps the prior settings;
/// an optional sign followed by decimal digits is read as a number, which
/// selects a preset when it is 0, 1 or 2; anything else asks again.
pub open spec fn selection_of(b: Seq<u8>) -> Selection {
    if b.len() == 0 {
        Selection::Chosen(Preset::Unchanged)
    } else {
        let neg = b[0] == 45u8;
        let signed = neg || b[0] == 43u8;
        let ds = if signed {
            b.drop_first()
        } else {
            b
        };
        if ds.len() == 0 || !all_digits(ds) {
            Selection::AskAgain
        } else {
            let v = digits_value(ds, ds.len() as int);
            preset_for(if neg {
                -v
            } else {
                v
            })
        }
    }
}

proof fn lemma_digits_value_nonneg(ds: Seq<u8>, n: int)
    requires
        n <= ds.len(),
        forall|j: int| 0 <= j < ds.len() ==> is_digit(#[trigger] ds[j]),
    ensures
        digits_value(ds, n) >= 0,
    decreases n,
{
    if n > 0 {
        lemma_digits_value_nonneg(ds, n - 1);
    }
}

/// Reads an answer that has already been trimmed.
pub fn selection_from_trimmed(t: &str) -> (r: Selection)
    ensures
        r == selection_of(t.spec_bytes()),
{
    let b = t.as_bytes();
    if b.len() == 0 {
        return Selection::Chosen(Preset::Unchanged);
    }
    let neg = b[0] == 45u8;
    let start: usize = if neg || b[0] == 43u8 {
        1
    } else {
        0
    };
    let ghost ds = if start == 1 {
        b@.drop_first()
    } else {
        b@
    };
    if start >= b.len() {
        return Selection::AskAgain;
    }
    // the value read so far, capped at 3: every larger value asks again
    let mut v: u8 = 0;
    let mut k: usize = start;
    while k < b.len()
        invariant
            start <= k <= b@.len(),
            start == 0 || start == 1,
            b@.len() > 0,
            b@ == t.spec_bytes(),
            start == 1 <==> (b@[0] == 45u8 || b@[0] == 43u8),
            neg == (b@[0] == 45u8),
            ds == b@.subrange(start as int, b@.len() as int),
            forall|j: int| 0 <= j < k - start ==> is_digit(#[trigger] ds[j]),
            v <= 3,
            v == 3 ==> digits_value(ds, k - start) >= 3,
            v < 3 ==> v == digits_value(ds, k - start),
            digits_value(ds, k - start) >= 0,
        decreases b@.len() - k,
    {
        let c = b[k];
        if !(48u8 <= c && c <= 57u8) {
            assert(ds[k - start] == c);
            assert(!is_digit(ds[k - start]));
            assert(!all_digits(ds));
            proof {
                if start == 1 {
                    assert(ds =~= b@.drop_first());
                } else {
                    assert(ds =~= b@);
                }
            }
            return Selection::AskAgain;
        }
        let ghost prev = digits_value(ds, k - start);
        assert(ds[k - start] == c);
        assert(digits_value(ds, k + 1 - start) == prev * 10 + (c - 48));
        if v < 3 {
            let w: u8 = v * 10 + (c - 48);
            v = if w > 3 {
                3
            } else {
                w
            };
        } else {
            assert(prev * 10 + (c - 48) >= 3) by (nonlinear_arith)
                requires
                    prev >= 3,
                    c >= 48,
            ;
        }
        k = k + 1;
    }
    proof {
        assert(ds.len() == b@.len() - start);
        if start == 1 {
            assert(ds =~= b@.drop_first());
        } else {
            assert(ds =~= b@);
        }
    }
    if v == 0 {
        Selection::Chosen(Preset::FullscreenRight)
    } else if neg || v == 3 {
        Selection::AskAgain
    } else if v == 1 {
        Selection::Chosen(Preset::WindowedRight)
    } else {
        Selection::Chosen(Preset::WindowedLeft)
    }
}

/// Reads one answer at the preset prompt: surrounding white space is
/// trimmed and the rest is read as `selection_of` says.
pub fn selection_from_input(input: &str) -> (r: Selection)
    ensures
        r == selection_of(encode_utf8(trim_of(input@))),
{
    let t = trim(input);
    selection_from_trimmed(t)
}

} // verus!
