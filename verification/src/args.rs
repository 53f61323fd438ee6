//! Search configuration: the target prefix, the match policy flags,
//! the per-worker round budget and the worker count, together with the
//! parsing and validation that turn raw option strings into a
//! configuration.

use crate::address::{relax_seq, seq_in_alphabet, str_chars, NimiqAddressString};
use crate::DEFAULT_PATH;
use vstd::prelude::*;

verus! {

/// What `str::to_uppercase` returns for a string: its Unicode
/// uppercase form.
pub uninterp spec fn upper_of(s: Seq<char>) -> Seq<char>;

/// The characters that count as whitespace when a numeric option is
/// trimmed: the Unicode `White_Space` set.
pub open spec fn is_space(c: char) -> bool {
    c == '\u{9}' || c == '\u{A}' || c == '\u{B}' || c == '\u{C}' || c == '\u{D}' || c == ' '
        || c == '\u{85}' || c == '\u{A0}' || c == '\u{1680}' || c == '\u{2000}' || c == '\u{2001}'
        || c == '\u{2002}' || c == '\u{2003}' || c == '\u{2004}' || c == '\u{2005}'
        || c == '\u{2006}' || c == '\u{2007}' || c == '\u{2008}' || c == '\u{2009}'
        || c == '\u{200A}' || c == '\u{2028}' || c == '\u{2029}' || c == '\u{202F}'
        || c == '\u{205F}' || c == '\u{3000}'
}

pub open spec fn trim_start_ws(s: Seq<char>) -> Seq<char>
    decreases s.len(),
{
    if s.len() > 0 && is_space(s[0]) {
        trim_start_ws(s.drop_first())
    } else {
        s
    }
}

pub open spec fn trim_end_ws(s: Seq<char>) -> Seq<char>
    decreases s.len(),
{
    if s.len() > 0 && is_space(s.last()) {
        trim_end_ws(s.drop_last())
    } else {
        s
    }
}

/// The string with leading and trailing whitespace removed.
pub open spec fn trim_ws(s: Seq<char>) -> Seq<char> {
    trim_end_ws(trim_start_ws(s))
}

/// An ASCII decimal digit.
pub open spec fn is_digit(c: char) -> bool {
    48 <= c as u32 && c as u32 <= 57
}

pub open spec fn digit_val(c: char) -> nat {
    (c as u32 - 48) as nat
}

/// The value of a digit string read in base ten.
pub open spec fn digits_val(s: Seq<char>) -> nat
    decreases s.len(),
{
    if s.len() == 0 {
        0
    } else {
        digits_val(s.drop_last()) * 10 + digit_val(s.last())
    }
}

/// The string without one optional leading plus sign.
pub open spec fn strip_sign(s: Seq<char>) -> Seq<char> {
    if s.len() > 0 && s[0] == '+' {
        s.drop_first()
    } else {
        s
    }
}

pub open spec fn all_digits(s: Seq<char>) -> bool {
    forall|i: int| 0 <= i < s.len() ==> is_digit(s[i])
}

/// The string is a decimal numeral that fits in `usize`: an optional
/// plus sign, then at least one digit, with a value no more than
/// `usize::MAX`.
pub open spec fn is_usize_decimal(s: Seq<char>) -> bool {
    let d = strip_sign(s);
    d.len() > 0 && all_digits(d) && digits_val(d) <= usize::MAX
}

/// The numeric value of such a numeral.
pub open spec fn usize_decimal_val(s: Seq<char>) -> nat {
    digits_val(strip_sign(s))
}

/// The immutable search configuration, fixed before any worker starts.
#[derive(Clone)]
pub struct Options {
    /// Exact comparison on the raw alphabet instead of relaxed forms.
    pub strict: bool,
    /// Accept the prefix anywhere in the address, not only anchored.
    pub contains: bool,
    /// Emit a throughput observation every thousand rounds.
    pub verbose: bool,
    /// The target prefix, uppercased at parse time.
    pub prefix: String,
    /// The key-derivation path handed to the deriver.
    pub derivation_path: String,
    /// The per-worker round budget, if any.
    pub max_rounds: Option<usize>,
    /// The number of workers to spawn, at least one, if given.
    pub num_threads: Option<usize>,
}

/// Why a raw option set was rejected.
#[derive(Clone, Copy, Debug, PartialEq, Eq, Structural)]
pub enum ArgumentError {
    PrefixMissing,
    InvalidRounds,
    InvalidThreads,
}

fn is_space_exec(c: char) -> (r: bool)
    ensures
        r == is_space(c),
{
    c == '\u{9}' || c == '\u{A}' || c == '\u{B}' || c == '\u{C}' || c == '\u{D}' || c == ' '
        || c == '\u{85}' || c == '\u{A0}' || c == '\u{1680}' || c == '\u{2000}' || c == '\u{2001}'
        || c == '\u{2002}' || c == '\u{2003}' || c == '\u{2004}' || c == '\u{2005}'
        || c == '\u{2006}' || c == '\u{2007}' || c == '\u{2008}' || c == '\u{2009}'
        || c == '\u{200A}' || c == '\u{2028}' || c == '\u{2029}' || c == '\u{202F}'
        || c == '\u{205F}' || c == '\u{3000}'
}

/// The trimmed middle of `v`: starting and ending indices of
/// `trim_ws(v@)` inside `v`.
fn trim_bounds(v: &Vec<char>) -> (r: (usize, usize))
    ensures
        r.0 <= r.1 <= v@.len(),
        v@.subrange(r.0 as int, r.1 as int) == trim_ws(v@),
{
    let n = v.len();
    proof {
        assert(v@.subrange(0, n as int) =~= v@);
    }
    let mut start: usize = 0;
    while start < n && is_space_exec(v[start])
        invariant
            n == v@.len(),
            start <= n,
            trim_start_ws(v@) == trim_start_ws(v@.subrange(start as int, n as int)),
        decreases n - start,
    {
        proof {
            let s = v@.subrange(start as int, n as int);
            assert(s.drop_first() =~= v@.subrange(start + 1, n as int));
        }
        start = start + 1;
    }
    proof {
        let s = v@.subrange(start as int, n as int);
        if start < n {
            assert(trim_start_ws(s) == s);
        } else {
            assert(s =~= Seq::<char>::empty());
            assert(trim_start_ws(s) == s);
        }
    }
    let mut end: usize = n;
    while end > start && is_space_exec(v[end - 1])
        invariant
            n == v@.len(),
            start <= end <= n,
            trim_start_ws(v@) == v@.subrange(start as int, n as int),
            trim_end_ws(v@.subrange(start as int, n as int)) == trim_end_ws(
                v@.subrange(start as int, end as int),
            ),
        decreases end,
    {
        proof {
            let s = v@.subrange(start as int, end as int);
            assert(s.last() == v@[end - 1]);
            assert(s.drop_last() =~= v@.subrange(start as int, end - 1));
        }
        end = end - 1;
    }
    proof {
        let s = v@.subrange(start as int, end as int);
        if end > start {
            assert(s.last() == v@[end - 1]);
            assert(trim_end_ws(s) == s);
        } else {
            assert(s =~= Seq::<char>::empty());
            assert(trim_end_ws(s) == s);
        }
    }
    (start, end)
}

/// Parses the digits of `v` between `start` and `end` as a decimal
/// `usize`, after an optional plus sign.
fn parse_usize_range(v: &Vec<char>, start: usize, end: usize) -> (r: Option<usize>)
    requires
        start <= end <= v@.len(),
    ensures
        ({
            let s = v@.subrange(start as int, end as int);
            match r {
                Some(x) => is_usize_decimal(s) && x as nat == usize_decimal_val(s),
                None => !is_usize_decimal(s),
            }
        }),
{
    let ghost s = v@.subrange(start as int, end as int);
    let mut idx: usize = start;
    if start < end && v[start] == '+' {
        idx = start + 1;
    }
    let ghost d = v@.subrange(idx as int, end as int);
    proof {
        assert(strip_sign(s) =~= d);
    }
    if idx == end {
        return None;
    }
    let mut acc: usize = 0;
    let mut i: usize = idx;
    while i < end
        invariant
            start <= idx <= i <= end <= v@.len(),
            s == v@.subrange(start as int, end as int),
            d == v@.subrange(idx as int, end as int),
            strip_sign(s) == d,
            all_digits(d.subrange(0, i - idx)),
            acc as nat == digits_val(d.subrange(0, i - idx)),
        decreases end - i,
    {
        let ghost k = i - idx;
        let c = v[i];
        let u = c as u32;
        proof {
            assert(d[k] == c);
        }
        if !(48 <= u && u <= 57) {
            proof {
                assert(!is_digit(d[k]));
                assert(!all_digits(d));
            }
            return None;
        }
        let dv = (u - 48) as usize;
        proof {
            assert(d.subrange(0, k + 1).drop_last() =~= d.subrange(0, k));
            assert(d.subrange(0, k + 1).last() == d[k]);
            assert(digits_val(d.subrange(0, k + 1)) == digits_val(d.subrange(0, k)) * 10
                + digit_val(d[k]));
        }
        let step = match acc.checked_mul(10) {
            Some(a) => a.checked_add(dv),
            None => None,
        };
        proof {
            assert(is_digit(d[k]));
            assert(dv as nat == digit_val(d[k]));
        }
        match step {
            Some(b) => {
                acc = b;
            },
            None => {
                proof {
                    assert(digits_val(d.subrange(0, k + 1)) > usize::MAX);
                    lemma_digits_val_prefix_le(d, k + 1);
                }
                return None;
            },
        }
        proof {
            assert forall|j: int| 0 <= j < k + 1 implies #[trigger] is_digit(
                d.subrange(0, k + 1)[j],
            ) by {
                assert(d.subrange(0, k + 1)[j] == d[j]);
                if j < k {
                    assert(d.subrange(0, k)[j] == d[j]);
                }
            }
            assert(all_digits(d.subrange(0, k + 1)));
        }
        i = i + 1;
    }
    proof {
        assert(d.subrange(0, d.len() as int) =~= d);
    }
    Some(acc)
}

/// A digit string's value only grows as digits are appended.
proof fn lemma_digits_val_prefix_le(s: Seq<char>, k: int)
    requires
        0 <= k <= s.len(),
    ensures
        digits_val(s.subrange(0, k)) <= digits_val(s),
    decreases s.len() - k,
{
    if k == s.len() {
        assert(s.subrange(0, k) =~= s);
    } else {
        lemma_digits_val_prefix_le(s, k + 1);
        assert(s.subrange(0, k + 1).drop_last() =~= s.subrange(0, k));
        assert(digits_val(s.subrange(0, k + 1)) == digits_val(s.subrange(0, k)) * 10 + digit_val(
            s.subrange(0, k + 1).last(),
        ));
    }
}

/// Relies on `str::to_uppercase`: the result is the Unicode uppercase
/// mapping of the characters, a function of them alone; an empty
/// string stays empty.
#[verifier::external_body]
fn uppercase(s: &str) -> (r: String)
    ensures
        r@ == upper_of(s@),
        s@.len() == 0 ==> r@.len() == 0,
{
    s.to_uppercase()
}

impl Options {
    /// Parses one optional numeric option: missing is accepted as
    /// absent; a present value must be a decimal `usize` after
    /// trimming, else the given error is returned.
    pub fn parse_option(value: Option<&str>, error: ArgumentError) -> (r: Result<
        Option<usize>,
        ArgumentError,
    >)
        ensures
            ({
                match value {
                    None => r == Ok::<Option<usize>, ArgumentError>(None::<usize>),
                    Some(s) => if is_usize_decimal(trim_ws(s@)) {
                        r matches Ok(o) && (o matches Some(x) && x as nat == usize_decimal_val(
                            trim_ws(s@),
                        ))
                    } else {
                        r == Err::<Option<usize>, ArgumentError>(error)
                    },
                }
            }),
    {
        match value {
            None => Ok(None),
            Some(s) => {
                let cs = str_chars(s);
                let (start, end) = trim_bounds(&cs);
                match parse_usize_range(&cs, start, end) {
                    Some(x) => Ok(Some(x)),
                    None => Err(error),
                }
            },
        }
    }

    /// Passes one optional string option through, owned.
    pub fn parse_option_string(value: Option<&str>) -> (r: Option<String>)
        ensures
            value is None <==> r is None,
            value matches Some(s) ==> r matches Some(x) && x@ == s@,
    {
        match value {
            None => None,
            Some(s) => Some(s.to_owned()),
        }
    }

    /// Builds the configuration from raw option values: the prefix is
    /// required and uppercased; the numeric options must parse, and an
    /// explicit worker count must be at least one; a missing
    /// derivation path falls back to the default.
    pub fn parse(
        prefix: Option<&str>,
        derivation_path: Option<&str>,
        max_rounds: Option<&str>,
        num_threads: Option<&str>,
        strict: bool,
        contains: bool,
        verbose: bool,
    ) -> (r: Result<Options, ArgumentError>)
        ensures
            ({
                let prefix_ok = prefix matches Some(p) && p@.len() > 0;
                let rounds_ok = match max_rounds {
                    None => true,
                    Some(s) => is_usize_decimal(trim_ws(s@)),
                };
                let threads_ok = match num_threads {
                    None => true,
                    Some(s) => is_usize_decimal(trim_ws(s@)) && usize_decimal_val(trim_ws(s@))
                        >= 1,
                };
                match r {
                    Ok(o) => prefix_ok && rounds_ok && threads_ok && o.strict == strict
                        && o.contains == contains && o.verbose == verbose && (match prefix {
                        Some(p) => o.prefix@ == upper_of(p@),
                        None => false,
                    }) && (match derivation_path {
                        Some(d) => o.derivation_path@ == d@,
                        None => o.derivation_path@ == DEFAULT_PATH@,
                    }) && (match max_rounds {
                        None => o.max_rounds is None,
                        Some(s) => o.max_rounds matches Some(x) && x as nat == usize_decimal_val(
                            trim_ws(s@),
                        ),
                    }) && (match num_threads {
                        None => o.num_threads is None,
                        Some(s) => o.num_threads matches Some(x) && x as nat == usize_decimal_val(
                            trim_ws(s@),
                        ),
                    }),
                    Err(e) => (!prefix_ok || !rounds_ok || !threads_ok) && e == (if !prefix_ok {
                        ArgumentError::PrefixMissing
                    } else if !rounds_ok {
                        ArgumentError::InvalidRounds
                    } else {
                        ArgumentError::InvalidThreads
                    }),
                }
            }),
    {
        let raw_prefix = match prefix {
            None => {
                return Err(ArgumentError::PrefixMissing);
            },
            Some(p) => p,
        };
        if raw_prefix.unicode_len() == 0 {
            return Err(ArgumentError::PrefixMissing);
        }
        let upper = uppercase(raw_prefix);
        let max_rounds = match Self::parse_option(max_rounds, ArgumentError::InvalidRounds) {
            Ok(v) => v,
            Err(e) => {
                return Err(e);
            },
        };
        let num_threads = match Self::parse_option(num_threads, ArgumentError::InvalidThreads) {
            Ok(Some(0)) => {
                return Err(ArgumentError::InvalidThreads);
            },
            Ok(v) => v,
            Err(e) => {
                return Err(e);
            },
        };
        let derivation_path = match Self::parse_option_string(derivation_path) {
            Some(d) => d,
            None => DEFAULT_PATH.to_owned(),
        };
        Ok(
            Options {
                strict,
                contains,
                verbose,
                prefix: upper,
                derivation_path,
                max_rounds,
                num_threads,
            },
        )
    }

    /// Relaxes the prefix unless strict matching is on, and accepts the
    /// configuration only if the resulting target is drawn entirely
    /// from the address alphabet.
    pub fn prepare(self) -> (r: Option<Options>)
        ensures
            ({
                let target = if self.strict {
                    self.prefix@
                } else {
                    relax_seq(self.prefix@)
                };
                match r {
                    Some(o) => seq_in_alphabet(target) && o.prefix@ == target && o.strict
                        == self.strict && o.contains == self.contains && o.verbose == self.verbose
                        && o.derivation_path@ == self.derivation_path@ && o.max_rounds
                        == self.max_rounds && o.num_threads == self.num_threads,
                    None => !seq_in_alphabet(target),
                }
            }),
    {
        let Options { prefix, derivation_path, max_rounds, num_threads, strict, contains, verbose } =
            self;
        let target = if strict {
            prefix
        } else {
            prefix.to_relaxed_form()
        };
        if target.is_valid() {
            Some(
                Options {
                    strict,
                    contains,
                    verbose,
                    prefix: target,
                    derivation_path,
                    max_rounds,
                    num_threads,
                },
            )
        } else {
            None
        }
    }
}

} // verus!
