//! Character normalization and validation for user-friendly addresses.
//!
//! Addresses are written in a 32-symbol Base32-like alphabet that leaves
//! out visually ambiguous letters.  The *relaxed form* collapses a few
//! easily confused characters onto the digit they resemble, so that a
//! loosely typed prefix still matches the address it was meant for.

use vstd::prelude::*;

verus! {

/// Canonical representative of one character in the relaxed form:
/// `O→0, I→1, Z→2, E→3, A→4, S→5, G→6, T→7, L→1`; every other character
/// is its own representative.
pub open spec fn relax_char(c: char) -> char {
    if c == 'O' {
        '0'
    } else if c == 'I' {
        '1'
    } else if c == 'Z' {
        '2'
    } else if c == 'E' {
        '3'
    } else if c == 'A' {
        '4'
    } else if c == 'S' {
        '5'
    } else if c == 'G' {
        '6'
    } else if c == 'T' {
        '7'
    } else if c == 'L' {
        '1'
    } else {
        c
    }
}

/// The relaxed form of a whole string: `relax_char` applied at every
/// position independently.
pub open spec fn relax_seq(s: Seq<char>) -> Seq<char> {
    s.map_values(|c: char| relax_char(c))
}

/// Membership in the 32-symbol address alphabet
/// `0123456789ABCDEFGHJKLMNPQRSTUVXY`.
pub open spec fn char_in_alphabet(c: char) -> bool {
    c == '0' || c == '1' || c == '2' || c == '3' || c == '4' || c == '5' || c == '6'
        || c == '7' || c == '8' || c == '9' || c == 'A' || c == 'B' || c == 'C' || c == 'D'
        || c == 'E' || c == 'F' || c == 'G' || c == 'H' || c == 'J' || c == 'K' || c == 'L'
        || c == 'M' || c == 'N' || c == 'P' || c == 'Q' || c == 'R' || c == 'S' || c == 'T'
        || c == 'U' || c == 'V' || c == 'X' || c == 'Y'
}

/// Every character of the string is drawn from the address alphabet.
pub open spec fn seq_in_alphabet(s: Seq<char>) -> bool {
    forall|i: int| 0 <= i < s.len() ==> char_in_alphabet(s[i])
}

/// Relies on `String: FromIterator<char>` (via `Iterator::collect`): the
/// resulting string holds exactly the given characters, in order.
#[verifier::external_body]
pub(crate) fn collect_string(v: Vec<char>) -> (r: String)
    ensures
        r@ == v@,
{
    v.into_iter().collect()
}

/// The characters of a string slice, in order, as a vector.
pub(crate) fn str_chars(s: &str) -> (r: Vec<char>)
    ensures
        r@ == s@,
{
    let n: usize = s.unicode_len();
    let mut v: Vec<char> = Vec::new();
    let mut i: usize = 0;
    while i < n
        invariant
            i <= n,
            n == s@.len(),
            v@ =~= s@.subrange(0, i as int),
        decreases n - i,
    {
        v.push(s.get_char(i));
        proof {
            assert(v@ =~= s@.subrange(0, i + 1));
        }
        i = i + 1;
    }
    proof {
        assert(v@ =~= s@);
    }
    v
}

fn relax_one(c: char) -> (r: char)
    ensures
        r == relax_char(c),
{
    if c == 'O' {
        '0'
    } else if c == 'I' {
        '1'
    } else if c == 'Z' {
        '2'
    } else if c == 'E' {
        '3'
    } else if c == 'A' {
        '4'
    } else if c == 'S' {
        '5'
    } else if c == 'G' {
        '6'
    } else if c == 'T' {
        '7'
    } else if c == 'L' {
        '1'
    } else {
        c
    }
}

fn in_alphabet(c: char) -> (r: bool)
    ensures
        r == char_in_alphabet(c),
{
    c == '0' || c == '1' || c == '2' || c == '3' || c == '4' || c == '5' || c == '6'
        || c == '7' || c == '8' || c == '9' || c == 'A' || c == 'B' || c == 'C' || c == 'D'
        || c == 'E' || c == 'F' || c == 'G' || c == 'H' || c == 'J' || c == 'K' || c == 'L'
        || c == 'M' || c == 'N' || c == 'P' || c == 'Q' || c == 'R' || c == 'S' || c == 'T'
        || c == 'U' || c == 'V' || c == 'X' || c == 'Y'
}

/// Normalization and validation of address-like strings.
pub trait NimiqAddressString: Sized {
    /// The characters of the value, as contracts speak of them.
    spec fn chars_view(&self) -> Seq<char>;

    /// The relaxed comparison form of the value.
    fn to_relaxed_form(&self) -> (r: Self)
        ensures
            r.chars_view() == relax_seq(self.chars_view()),
    ;

    /// Whether every character of the value is drawn from the
    /// 32-symbol address alphabet.
    fn is_valid(&self) -> (r: bool)
        ensures
            r == seq_in_alphabet(self.chars_view()),
    ;
}

impl NimiqAddressString for String {
    open spec fn chars_view(&self) -> Seq<char> {
        self@
    }

    fn to_relaxed_form(&self) -> (r: String)
        ensures
            r@ == relax_seq(self@),
    {
        let cs = str_chars(self.as_str());
        let mut out: Vec<char> = Vec::new();
        let mut i: usize = 0;
        while i < cs.len()
            invariant
                i <= cs@.len(),
                cs@ == self@,
                out@.len() == i,
                forall|j: int| 0 <= j < i ==> out@[j] == relax_char(cs@[j]),
            decreases cs@.len() - i,
        {
            let c = cs[i];
            out.push(relax_one(c));
            i = i + 1;
        }
        proof {
            assert(out@ =~= relax_seq(self@));
        }
        collect_string(out)
    }

    fn is_valid(&self) -> (r: bool)
        ensures
            r == seq_in_alphabet(self@),
    {
        let cs = str_chars(self.as_str());
        let mut i: usize = 0;
        while i < cs.len()
            invariant
                i <= cs@.len(),
                cs@ == self@,
                forall|j: int| 0 <= j < i ==> char_in_alphabet(cs@[j]),
            decreases cs@.len() - i,
        {
            let c = cs[i];
            if !in_alphabet(c) {
                return false;
            }
            i = i + 1;
        }
        true
    }
}

/// Relaxing is idempotent: the relaxed form is a fixed point of
/// `relax_seq`, so normalizing an already normalized string changes
/// nothing.
pub proof fn lemma_relax_idempotent(s: Seq<char>)
    ensures
        relax_seq(relax_seq(s)) == relax_seq(s),
{
    assert forall|i: int| 0 <= i < s.len() implies relax_seq(relax_seq(s))[i] == relax_seq(s)[i] by {
        assert(relax_char(relax_char(s[i])) == relax_char(s[i]));
    }
    assert(relax_seq(relax_seq(s)) =~= relax_seq(s));
}

/// Relaxing is total and length-preserving: the relaxed form of any
/// string has exactly the length of the input.
pub proof fn lemma_relax_length(s: Seq<char>)
    ensures
        relax_seq(s).len() == s.len(),
{
}

} // verus!
