//! The worker loop: enumerate candidates from a starting entropy,
//! derive each candidate's display address, normalize it and test it
//! against the target prefix, until a match is found, the round budget
//! runs out, or another worker raises the shared cancellation flag.

use crate::address::{collect_string, relax_seq, str_chars, NimiqAddressString};
use crate::args::Options;
use crate::entropy::{
    add_to_entropy, entropy_next, lemma_entropy_next_additive, lemma_entropy_next_zero, Entropy,
};
use crate::matching::{is_match, spec_is_match, MatchMode};
use core::sync::atomic::{AtomicBool, Ordering};
use std::io::Write;
use vstd::prelude::*;

verus! {

/// The user-friendly display address (with its grouping spaces) that
/// the derivation pipeline assigns to an entropy value under a path.
pub uninterp spec fn derived_address(e: Seq<u8>, path: Seq<char>) -> Seq<char>;

/// The mnemonic phrase that the derivation pipeline assigns to an
/// entropy value.
pub uninterp spec fn derived_mnemonic(e: Seq<u8>) -> Seq<char>;

/// Whether the derivation pipeline accepts an entropy value and path:
/// its success, like its result, is a deterministic function of the
/// two arguments alone (the path either passes validation or does
/// not).
pub uninterp spec fn derive_ok(e: Seq<u8>, path: Seq<char>) -> bool;

/// Relies on `nimiq_mnemonic`'s derivation pipeline —
/// `Entropy::to_mnemonic`, `Mnemonic::to_master_key`,
/// `ExtendedPrivateKey::derive_path`, `to_address`,
/// `Address::to_user_friendly_address` — every step a deterministic
/// function of the entropy bytes and the path; `derive_path` returns
/// `None` on a path it refuses, and the seed or key computation may
/// also fail; either way the outcome is a function of the entropy
/// bytes and the path alone, so success is named `derive_ok`.
#[verifier::external_body]
fn derive_display_address(e: &Entropy, path: &str) -> (r: Option<String>)
    requires
        e.wf(),
    ensures
        r is Some <==> derive_ok(e@, path@),
        r matches Some(a) ==> a@ == derived_address(e@, path@),
{
    let mut buf = [0u8; 32];
    buf.copy_from_slice(e.as_bytes());
    let m = nimiq_mnemonic::Entropy::from(buf).to_mnemonic(nimiq_mnemonic::WORDLIST_EN);
    let master = nimiq_mnemonic::key_derivation::ToExtendedPrivateKey::to_master_key(&m, None)
        .ok()?;
    let key = master.derive_path(path)?;
    Some(key.to_address().to_user_friendly_address())
}

/// Relies on `nimiq_mnemonic::Entropy::to_mnemonic` and the phrase
/// rendering of `Mnemonic`: the 24-word phrase is a deterministic
/// function of the entropy bytes alone.
#[verifier::external_body]
fn derive_mnemonic_phrase(e: &Entropy) -> (r: String)
    requires
        e.wf(),
    ensures
        r@ == derived_mnemonic(e@),
{
    let mut buf = [0u8; 32];
    buf.copy_from_slice(e.as_bytes());
    nimiq_mnemonic::Entropy::from(buf).to_mnemonic(nimiq_mnemonic::WORDLIST_EN).to_string()
}

/// Relies on `writeln` to standard output: telemetry only, never read
/// back.
#[verifier::external_body]
fn report_progress(thread_num: usize, rounds: usize) {
    let _ = writeln!(
        std::io::stdout(),
        "Thread {}: {} addresses processed",
        thread_num,
        rounds,
    );
}

/// Derives the display address and mnemonic phrase of one candidate;
/// `None` means the derivation pipeline refused the path, which is
/// fatal for the whole search.
pub fn derive_candidate(e: &Entropy, path: &str) -> (r: Option<(String, String)>)
    requires
        e.wf(),
    ensures
        r is Some <==> derive_ok(e@, path@),
        r matches Some(p) ==> p.0@ == derived_address(e@, path@) && p.1@ == derived_mnemonic(e@),
{
    match derive_display_address(e, path) {
        Some(a) => Some((a, derive_mnemonic_phrase(e))),
        None => None,
    }
}

/// The string with every space removed.
pub open spec fn remove_spaces(s: Seq<char>) -> Seq<char>
    decreases s.len(),
{
    if s.len() == 0 {
        Seq::empty()
    } else if s[0] == ' ' {
        remove_spaces(s.drop_first())
    } else {
        seq![s[0]] + remove_spaces(s.drop_first())
    }
}

/// Removes the grouping spaces of a user-friendly address.
pub fn strip_spaces(s: &str) -> (r: String)
    ensures
        r@ == remove_spaces(s@),
{
    let cs = str_chars(s);
    let mut out: Vec<char> = Vec::new();
    proof {
        assert(s@.subrange(0, s@.len() as int) =~= s@);
        assert(out@ + remove_spaces(s@) =~= remove_spaces(s@));
    }
    let mut i: usize = 0;
    while i < cs.len()
        invariant
            i <= cs@.len(),
            cs@ == s@,
            remove_spaces(s@) == out@ + remove_spaces(s@.subrange(i as int, s@.len() as int)),
        decreases cs@.len() - i,
    {
        let ghost tail = s@.subrange(i as int, s@.len() as int);
        proof {
            assert(tail.drop_first() =~= s@.subrange(i + 1, s@.len() as int));
            assert(tail[0] == s@[i as int]);
        }
        let c = cs[i];
        if c != ' ' {
            let ghost before = out@;
            out.push(c);
            proof {
                assert(remove_spaces(tail) == seq![c] + remove_spaces(tail.drop_first()));
                assert(before + remove_spaces(tail) =~= out@ + remove_spaces(tail.drop_first()));
            }
        } else {
            proof {
                assert(remove_spaces(tail) == remove_spaces(tail.drop_first()));
            }
        }
        i = i + 1;
    }
    proof {
        assert(s@.subrange(i as int, s@.len() as int) =~= Seq::<char>::empty());
        assert(out@ + remove_spaces(Seq::<char>::empty()) =~= out@);
    }
    collect_string(out)
}

/// A successful find: the winning entropy, its display address and its
/// mnemonic phrase.
pub struct MatchResult {
    pub entropy: Entropy,
    pub address: String,
    pub mnemonic: String,
}

/// How one worker's loop ended.
pub enum SearchOutcome {
    /// A candidate matched; the shared flag was raised.
    Matched(MatchResult),
    /// The per-worker round budget ran out with no match.
    Exhausted,
    /// The shared flag was already raised: another worker won.
    Cancelled,
    /// The derivation pipeline failed, which is fatal for the run.
    DeriveFailed,
}

/// The form in which a candidate address is compared against the
/// target: grouping spaces removed and, unless strict, relaxed.
pub open spec fn comparison_form(addr: Seq<char>, strict: bool) -> Seq<char> {
    if strict {
        remove_spaces(addr)
    } else {
        relax_seq(remove_spaces(addr))
    }
}

/// The match mode selected by the `contains` flag.
pub open spec fn chosen_mode(contains: bool) -> MatchMode {
    if contains {
        MatchMode::Substring
    } else {
        MatchMode::Anchored
    }
}

/// The number of rounds a worker may spend: the configured budget, or
/// the round counter's full range when none is set.
pub open spec fn budget_of(max_rounds: Option<usize>) -> nat {
    match max_rounds {
        Some(b) => b as nat,
        None => usize::MAX as nat,
    }
}

/// The candidate at distance `k` from `start` derives to an address
/// that satisfies the configured match policy.
pub open spec fn candidate_matches(start: Seq<u8>, k: nat, args: Options) -> bool {
    spec_is_match(
        comparison_form(
            derived_address(entropy_next(start, k), args.derivation_path@),
            args.strict,
        ),
        args.prefix@,
        chosen_mode(args.contains),
    )
}

/// One worker: enumerates candidates from `entropy` in steps of one,
/// deriving and testing each, until a match, an exhausted budget, a
/// raised flag, or a derivation failure.  A reported match is the
/// first candidate from the start whose derived address satisfies the
/// configured policy against the stored target prefix; an exhausted
/// budget means every candidate within it was derived and missed; a
/// derivation failure names a candidate the pipeline refused.  A
/// worker without an explicit budget stops only when its round counter
/// runs out, which no machine reaches in practice.
pub fn search_addresses(
    thread_num: usize,
    args: &Options,
    entropy: Entropy,
    solution_found: &AtomicBool,
) -> (r: SearchOutcome)
    requires
        entropy.wf(),
    ensures
        ({
            match r {
                SearchOutcome::Matched(m) => m.entropy.wf() && m.address@ == derived_address(
                    m.entropy@,
                    args.derivation_path@,
                ) && m.mnemonic@ == derived_mnemonic(m.entropy@) && spec_is_match(
                    comparison_form(m.address@, args.strict),
                    args.prefix@,
                    chosen_mode(args.contains),
                ) && (exists|k: nat|
                    k < budget_of(args.max_rounds) && m.entropy@ == entropy_next(entropy@, k)
                        && (forall|j: nat| j < k ==> !candidate_matches(entropy@, j, *args))
                        && (forall|j: nat| j < k ==> #[trigger] derive_ok(
                        entropy_next(entropy@, j),
                        args.derivation_path@,
                    ))),
                SearchOutcome::Exhausted => (forall|k: nat|
                    k < budget_of(args.max_rounds) ==> #[trigger] derive_ok(
                        entropy_next(entropy@, k),
                        args.derivation_path@,
                    )) && (forall|k: nat|
                    k < budget_of(args.max_rounds) ==> !candidate_matches(entropy@, k, *args)),
                SearchOutcome::Cancelled => true,
                SearchOutcome::DeriveFailed => exists|k: nat|
                    k < budget_of(args.max_rounds) && !derive_ok(
                        entropy_next(entropy@, k),
                        args.derivation_path@,
                    ),
            }
        }),
{
    let mut cur = entropy;
    let ghost mut g: nat = 0;
    proof {
        lemma_entropy_next_zero(entropy@);
    }
    let budget: usize = match args.max_rounds {
        Some(max) => max,
        None => usize::MAX,
    };
    let mut rounds: usize = 0;
    while rounds < budget
        invariant
            cur.wf(),
            entropy@.len() == 32,
            cur@ == entropy_next(entropy@, g),
            rounds <= budget,
            g == rounds as nat,
            budget as nat == budget_of(args.max_rounds),
            forall|j: nat| j < g ==> #[trigger] derive_ok(
                entropy_next(entropy@, j),
                args.derivation_path@,
            ),
            forall|j: nat| j < g ==> !candidate_matches(entropy@, j, *args),
        decreases budget - rounds,
    {
        // Early return if another worker was faster.
        if solution_found.load(Ordering::Acquire) {
            return SearchOutcome::Cancelled;
        }
        let address = match derive_display_address(&cur, args.derivation_path.as_str()) {
            Some(a) => a,
            None => {
                proof {
                    assert(g < budget_of(args.max_rounds) && !derive_ok(
                        entropy_next(entropy@, g),
                        args.derivation_path@,
                    ));
                }
                return SearchOutcome::DeriveFailed;
            },
        };
        let stripped = strip_spaces(address.as_str());
        let compare = if args.strict {
            stripped
        } else {
            stripped.to_relaxed_form()
        };
        let mode = if args.contains {
            MatchMode::Substring
        } else {
            MatchMode::Anchored
        };
        if is_match(compare.as_str(), args.prefix.as_str(), mode) {
            solution_found.store(true, Ordering::Release);
            let mnemonic = derive_mnemonic_phrase(&cur);
            proof {
                assert(g < budget_of(args.max_rounds) && cur@ == entropy_next(entropy@, g) && (
                forall|j: nat| j < g ==> !candidate_matches(entropy@, j, *args)) && (forall|j: nat|
                    j < g ==> #[trigger] derive_ok(entropy_next(entropy@, j), args.derivation_path@)));
            }
            return SearchOutcome::Matched(MatchResult { entropy: cur, address, mnemonic });
        }
        rounds = rounds + 1;
        let next = add_to_entropy(&cur, 1);
        proof {
            lemma_entropy_next_additive(entropy@, g, 1);
            assert(!candidate_matches(entropy@, g, *args));
            g = g + 1;
            assert forall|j: nat| j < g implies !candidate_matches(entropy@, j, *args) by {
                if j < g - 1 {
                    assert(!candidate_matches(entropy@, j, *args));
                }
            }
        }
        cur = next;
        if args.verbose && rounds % 1000 == 0 {
            report_progress(thread_num, rounds);
        }
    }
    SearchOutcome::Exhausted
}

} // verus!
