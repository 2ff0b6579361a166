use vstd::prelude::*;

verus! {

use vstd::std_specs::iter::IteratorSpec;

/// Saturation of a mathematical total into a `u64`: totals accumulated by the
/// scanner never wrap, they clamp at `u64::MAX`.
pub open spec fn sat64(x: nat) -> u64 {
    if x > u64::MAX {
        u64::MAX
    } else {
        x as u64
    }
}

/// Saturating addition on `u64`; the scanner's accumulators use it so that a
/// pathological tree cannot make the totals wrap.
pub fn sat_add(a: u64, b: u64) -> (r: u64)
    ensures
        r == sat64(a as nat + b as nat),
{
    if a <= u64::MAX - b {
        a + b
    } else {
        u64::MAX
    }
}

/// Folding saturating additions is the same as saturating the whole sum.
pub proof fn lemma_sat_add_fold(a: nat, b: nat)
    ensures
        sat64(sat64(a) as nat + sat64(b) as nat) == sat64(a + b),
{
}

/// Saturation is monotone.
pub proof fn lemma_sat_mono(a: nat, b: nat)
    requires
        a <= b,
    ensures
        sat64(a) <= sat64(b),
{
}

/// A saturating sum of lower bounds stays below the saturated total.
pub proof fn lemma_sat_add_le(a: u64, b: u64, x: nat, y: nat)
    requires
        a as nat <= sat64(x),
        b as nat <= sat64(y),
    ensures
        sat64(a as nat + b as nat) <= sat64(x + y),
{
}

/// The characters of a string slice, as a vector, recovered through the
/// standard `chars` iterator.
pub fn str_to_chars(s: &str) -> (v: Vec<char>)
    ensures
        v@ == s@,
{
    broadcast use vstd::string::axiom_spec_iter, vstd::string::next_postcondition;

    let mut it = s.chars();
    let mut v: Vec<char> = Vec::new();
    loop
        invariant
            it.obeys_prophetic_iter_laws(),
            it.decrease() is Some,
            v@ + IteratorSpec::remaining(&it) == s@,
        decreases it.decrease()->0,
    {
        match it.next() {
            Some(c) => {
                v.push(c);
            },
            None => {
                proof {
                    assert(v@ =~= s@);
                }
                return v;
            },
        }
    }
}

/// Relies on `String`'s `FromIterator<char>` impl: collecting characters
/// yields the string with exactly those characters, in order.
#[verifier::external_body]
pub fn chars_to_string(v: &Vec<char>) -> (s: String)
    ensures
        s@ == v@,
{
    v.iter().collect()
}

/// Character-for-character comparison of a vector of characters with a
/// string slice.
pub fn chars_eq(a: &Vec<char>, s: &str) -> (r: bool)
    ensures
        r == (a@ == s@),
{
    let b = str_to_chars(s);
    if a.len() != b.len() {
        proof {
            assert(a@.len() != b@.len());
        }
        return false;
    }
    let mut i: usize = 0;
    while i < a.len()
        invariant
            a@.len() == b@.len(),
            i <= a.len(),
            b@ == s@,
            forall|j: int| 0 <= j < i ==> a@[j] == b@[j],
        decreases a.len() - i,
    {
        if a[i] != b[i] {
            return false;
        }
        i += 1;
    }
    proof {
        assert(a@ =~= s@);
    }
    true
}

/// ASCII lowercasing of one character; anything outside `A`..`Z` is kept.
pub open spec fn to_lower_char(c: char) -> char {
    if 'A' <= c && c <= 'Z' {
        (((c as u8) + 32) as char)
    } else {
        c
    }
}

/// ASCII lowercasing of a character sequence.
pub open spec fn lower_chars(s: Seq<char>) -> Seq<char> {
    s.map_values(|c: char| to_lower_char(c))
}

/// Lowercase a vector of characters, ASCII-wise.
pub fn lower_vec(v: &Vec<char>) -> (r: Vec<char>)
    ensures
        r@ == lower_chars(v@),
{
    let mut out: Vec<char> = Vec::new();
    let mut i: usize = 0;
    while i < v.len()
        invariant
            i <= v.len(),
            out@.len() == i,
            forall|j: int| 0 <= j < i ==> out@[j] == to_lower_char(v@[j]),
        decreases v.len() - i,
    {
        let c = v[i];
        if 'A' <= c && c <= 'Z' {
            out.push(((c as u8) + 32) as char);
        } else {
            out.push(c);
        }
        i += 1;
    }
    proof {
        assert(out@ =~= lower_chars(v@));
    }
    out
}

} // verus!
