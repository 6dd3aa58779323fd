//! Reading the command lines and settings of the benchmark's tools.
//!
//! The tools themselves read the process arguments and environment and do
//! their work; what each argument means is decided here.

use vstd::prelude::*;
use crate::roster::{joined_ids, all_versions};
use crate::text::{chars_of, digits_value, is_digit, push_char, push_text, string_views, text_eq};
use crate::versions::PolicyVersion;

verus! {

// ---------------------------------------------------------------------------
// Unsigned decimals
// ---------------------------------------------------------------------------

/// `text` without a leading `+`.
pub open spec fn digit_run(text: Seq<char>) -> Seq<char> {
    if text.len() > 0 && text[0] == '+' {
        text.drop_first()
    } else {
        text
    }
}

/// Whether every character is an ASCII digit.
pub open spec fn all_digits(run: Seq<char>) -> bool {
    forall|i: int| 0 <= i < run.len() ==> #[trigger] is_digit(run[i])
}

/// The digits of an unsigned decimal: an optional `+`, then one or more
/// ASCII digits and nothing else.
pub open spec fn unsigned_digits(text: Seq<char>) -> Option<Seq<char>> {
    if digit_run(text).len() > 0 && all_digits(digit_run(text)) {
        Some(digit_run(text))
    } else {
        None
    }
}

/// The value of an unsigned decimal no greater than `max`.
pub open spec fn parsed_unsigned(text: Seq<char>, max: int) -> Option<int> {
    match unsigned_digits(text) {
        Some(digits) => if digits_value(digits) <= max {
            Some(digits_value(digits) as int)
        } else {
            None
        },
        None => None,
    }
}

/// Parses a `u32`, with std's description of the failure.
///
/// Trusted: calls `str::parse::<u32>`. Its documentation says the text must
/// be an optional `+` followed by only digits, and that a value out of range
/// is an error; the contract claims exactly that. The text of the error is
/// std's and is not stated.
#[verifier::external_body]
fn parse_u32(text: &str) -> (parsed: Result<u32, String>)
    ensures
        match parsed {
            Ok(value) => parsed_unsigned(text@, u32::MAX as int) == Some(value as int),
            Err(_) => parsed_unsigned(text@, u32::MAX as int) is None,
        },
{
    match text.parse::<u32>() {
        Ok(value) => Ok(value),
        Err(error) => Err(error.to_string()),
    }
}

/// Appending digits never lowers a digit run's value.
proof fn lemma_digits_value_prefix(digits: Seq<char>, n: int)
    requires
        0 <= n <= digits.len(),
        forall|k: int| 0 <= k < digits.len() ==> #[trigger] is_digit(digits[k]),
    ensures
        digits_value(digits.take(n)) <= digits_value(digits),
    decreases digits.len() - n,
{
    if n < digits.len() {
        lemma_digits_value_prefix(digits, n + 1);
        crate::text::lemma_digits_value_grows(digits.take(n), digits[n]);
        assert(digits.take(n + 1) =~= digits.take(n).push(digits[n]));
    } else {
        assert(digits.take(n) =~= digits);
    }
}

/// The value of an ASCII digit.
fn digit_value(c: char) -> (d: Option<u64>)
    ensures
        d is Some <==> is_digit(c),
        d matches Some(v) ==> v == c as nat - '0' as nat,
{
    if '0' <= c && c <= '9' {
        Some((c as u32 - '0' as u32) as u64)
    } else {
        None
    }
}

/// A text whose digit run holds a non-digit, or spells a value above `max`,
/// is not an unsigned decimal up to `max`.
proof fn lemma_not_unsigned(text: Seq<char>, digits: Seq<char>, n: int, max: int)
    requires
        digits == digit_run(text),
        0 <= n <= digits.len(),
        (n < digits.len() && !is_digit(digits[n])) || (
        (forall|k: int| 0 <= k < n ==> #[trigger] is_digit(digits[k])) && digits_value(digits.take(n)) > max),
    ensures
        parsed_unsigned(text, max) is None,
{
    if all_digits(digits) && !(n < digits.len() && !is_digit(digits[n])) {
        lemma_digits_value_prefix(digits, n);
    }
}


/// Parses a `u64`: an optional `+`, then one or more ASCII digits, with a
/// value no greater than `u64::MAX`.
fn parse_u64(text: &str) -> (parsed: Option<u64>)
    ensures
        match parsed {
            Some(value) => parsed_unsigned(text@, u64::MAX as int) == Some(value as int),
            None => parsed_unsigned(text@, u64::MAX as int) is None,
        },
{
    let chars = chars_of(text);
    let start: usize = if chars.len() > 0 && chars[0] == '+' {
        1
    } else {
        0
    };
    let ghost digits = text@.skip(start as int);
    proof {
        if start == 1 {
            assert(text@.drop_first() =~= digits);
        } else {
            assert(text@ =~= digits);
        }
    }
    if start >= chars.len() {
        return None;
    }
    let mut value: u64 = 0;
    let mut i: usize = start;
    assert(digits.take(0) =~= Seq::<char>::empty());
    while i < chars.len()
        invariant
            start <= i <= chars@.len(),
            chars@ == text@,
            digits == text@.skip(start as int),
            digits.len() > 0,
            digits == digit_run(text@),
            forall|k: int| 0 <= k < i - start ==> #[trigger] is_digit(digits[k]),
            value == digits_value(digits.take(i - start)),
        decreases chars@.len() - i,
    {
        let c = chars[i];
        let d = match digit_value(c) {
            Some(d) => d,
            None => {
                proof {
                    lemma_not_unsigned(text@, digits, i - start, u64::MAX as int);
                }
                return None;
            },
        };
        proof {
            crate::text::lemma_digits_value_grows(digits.take(i - start), c);
            assert(digits.take(i - start + 1) =~= digits.take(i - start).push(c));
        }
        let grown = match value.checked_mul(10) {
            Some(tens) => tens.checked_add(d),
            None => None,
        };
        match grown {
            Some(next) => {
                value = next;
            },
            None => {
                proof {
                    lemma_not_unsigned(text@, digits, i - start + 1, u64::MAX as int);
                }
                return None;
            },
        }
        i = i + 1;
    }
    assert(digits.take(i - start) =~= digits);
    Some(value)
}

// ---------------------------------------------------------------------------
// Prefixes
// ---------------------------------------------------------------------------

/// Whether `prefix` begins `text`.
pub open spec fn begins_with(text: Seq<char>, prefix: Seq<char>) -> bool {
    prefix.len() <= text.len() && text.take(prefix.len() as int) == prefix
}

/// The rest of `text` after `prefix`, if `prefix` begins it.
fn after_prefix(text: &str, prefix: &str) -> (rest: Option<String>)
    ensures
        match rest {
            Some(rest) => begins_with(text@, prefix@) && rest@ == text@.skip(prefix@.len() as int),
            None => !begins_with(text@, prefix@),
        },
{
    let chars = chars_of(text);
    let head = chars_of(prefix);
    if head.len() > chars.len() {
        return None;
    }
    let mut i: usize = 0;
    while i < head.len()
        invariant
            head@.len() <= chars@.len(),
            i <= head@.len(),
            chars@ == text@,
            head@ == prefix@,
            forall|k: int| 0 <= k < i ==> chars@[k] == head@[k],
        decreases head@.len() - i,
    {
        if chars[i] != head[i] {
            assert(text@.take(prefix@.len() as int)[i as int] != prefix@[i as int]);
            return None;
        }
        i = i + 1;
    }
    assert(text@.take(prefix@.len() as int) =~= prefix@);
    let mut rest = String::new();
    let mut j: usize = head.len();
    while j < chars.len()
        invariant
            head@.len() <= j <= chars@.len(),
            chars@ == text@,
            head@ == prefix@,
            rest@ == text@.subrange(prefix@.len() as int, j as int),
        decreases chars@.len() - j,
    {
        push_char(&mut rest, chars[j]);
        assert(rest@ =~= text@.subrange(prefix@.len() as int, j + 1));
        j = j + 1;
    }
    assert(text@.subrange(prefix@.len() as int, text@.len() as int) =~= text@.skip(prefix@.len() as int));
    Some(rest)
}

// ---------------------------------------------------------------------------
// The deck hill-climb
// ---------------------------------------------------------------------------

/// The hill-climb's usage line.
pub fn usage() -> (text: &'static str)
    ensures
        text@ == "usage: rav-deck-hillclimb [SEED_PAIRS] [CANDIDATE_ID] [--elo PATH]"@,
{
    "usage: rav-deck-hillclimb [SEED_PAIRS] [CANDIDATE_ID] [--elo PATH]"
}

/// What the hill-climb was asked to do.
#[derive(Clone, Debug, PartialEq, Eq)]
pub struct HillclimbOptions {
    /// Seed pairs per matchup.
    pub pairs: u32,
    /// The one candidate to score, when named.
    pub requested: Option<String>,
    /// The Elo ledger to append to, when given.
    pub elo_path: Option<String>,
}

/// A hill-climb command line: a request for help, or options to run with.
#[derive(Clone, Debug, PartialEq, Eq)]
pub enum HillclimbCommand {
    Help,
    Run(HillclimbOptions),
}

/// How far scanning a hill-climb command line got.
pub enum Scan {
    /// Help was asked for before any error.
    Help,
    /// Every argument was read: the positionals and the ledger path.
    Done(Seq<Seq<char>>, Option<Seq<char>>),
    /// An argument was refused, with this message.
    Fail(Seq<char>),
}

pub open spec fn missing_ledger_message() -> Seq<char> {
    "--elo requires a ledger path"@
}

pub open spec fn unknown_option_message(argument: Seq<char>) -> Seq<char> {
    "unknown option `"@ + argument + "`"@
}

/// Reads the arguments from position `i` on, given the positionals and the
/// ledger path read so far. `--elo` takes the next argument as the path;
/// `--elo=PATH` carries it; any other argument starting with `-` is refused;
/// the rest are positionals.
pub open spec fn scan_hillclimb(
    args: Seq<Seq<char>>,
    i: int,
    positionals: Seq<Seq<char>>,
    elo: Option<Seq<char>>,
) -> Scan
    decreases args.len() - i,
{
    if i < 0 || i >= args.len() {
        Scan::Done(positionals, elo)
    } else {
        let argument = args[i];
        if argument == "--help"@ || argument == "-h"@ {
            Scan::Help
        } else if argument == "--elo"@ {
            if i + 1 < args.len() {
                scan_hillclimb(args, i + 2, positionals, Some(args[i + 1]))
            } else {
                Scan::Fail(missing_ledger_message())
            }
        } else if begins_with(argument, "--elo="@) {
            let path = argument.skip(6);
            if path.len() == 0 {
                Scan::Fail(missing_ledger_message())
            } else {
                scan_hillclimb(args, i + 1, positionals, Some(path))
            }
        } else if argument.len() > 0 && argument[0] == '-' {
            Scan::Fail(unknown_option_message(argument))
        } else {
            scan_hillclimb(args, i + 1, positionals.push(argument), elo)
        }
    }
}

pub open spec fn pair_count_prefix(value: Seq<char>) -> Seq<char> {
    "invalid seed-pair count `"@ + value + "`: "@
}

/// Whether `command` is what the hill-climb command line `args` asks for:
/// help when asked before any error; otherwise at most two positionals, the
/// first a seed-pair count (ten when absent) and the second a candidate id.
/// A refused count's message names the count, then gives std's reason.
pub open spec fn hillclimb_outcome(args: Seq<Seq<char>>, command: Result<HillclimbCommand, String>) -> bool {
    match scan_hillclimb(args, 0, Seq::empty(), None) {
        Scan::Help => command == Ok::<HillclimbCommand, String>(HillclimbCommand::Help),
        Scan::Fail(message) => command is Err && command->Err_0@ == message,
        Scan::Done(positionals, elo) => if positionals.len() > 2 {
            command is Err && command->Err_0@ == "too many positional arguments"@
        } else {
            let count = if positionals.len() > 0 {
                parsed_unsigned(positionals[0], u32::MAX as int)
            } else {
                Some(10int)
            };
            match count {
                None => command is Err && begins_with(
                    command->Err_0@,
                    pair_count_prefix(positionals[0]),
                ),
                Some(pairs) => match command {
                    Ok(HillclimbCommand::Run(options)) => {
                        &&& options.pairs == pairs
                        &&& match options.requested {
                            Some(id) => positionals.len() == 2 && id@ == positionals[1],
                            None => positionals.len() < 2,
                        }
                        &&& match options.elo_path {
                            Some(path) => elo == Some(path@),
                            None => elo is None,
                        }
                    },
                    _ => false,
                },
            }
        },
    }
}

/// Reads the hill-climb's command line, without the program name.
pub fn parse_hillclimb_options(args: &Vec<String>) -> (command: Result<HillclimbCommand, String>)
    ensures
        hillclimb_outcome(string_views(args@), command),
{
    let ghost views = string_views(args@);
    let mut positionals: Vec<String> = Vec::new();
    let mut elo_path: Option<String> = None;
    let mut i: usize = 0;
    assert(string_views(positionals@) =~= Seq::<Seq<char>>::empty());
    while i < args.len()
        invariant
            i <= args@.len(),
            views == string_views(args@),
            scan_hillclimb(views, 0, Seq::empty(), None) == scan_hillclimb(
                views,
                i as int,
                string_views(positionals@),
                match elo_path {
                    Some(path) => Some(path@),
                    None => None,
                },
            ),
        decreases args@.len() - i,
    {
        let argument = &args[i];
        assert(views[i as int] == argument@);
        if text_eq(argument.as_str(), "--help") || text_eq(argument.as_str(), "-h") {
            return Ok(HillclimbCommand::Help);
        }
        if text_eq(argument.as_str(), "--elo") {
            if i + 1 < args.len() {
                assert(views[i + 1] == args@[i + 1]@);
                elo_path = Some(args[i + 1].clone());
                i = i + 2;
            } else {
                return Err("--elo requires a ledger path".to_owned());
            }
        } else {
            match after_prefix(argument.as_str(), "--elo=") {
                Some(path) => {
                    proof {
                        reveal_strlit("--elo=");
                    }
                    if path.as_str().is_empty() {
                        return Err("--elo requires a ledger path".to_owned());
                    }
                    elo_path = Some(path);
                    i = i + 1;
                },
                None => {
                    let chars = chars_of(argument.as_str());
                    if chars.len() > 0 && chars[0] == '-' {
                        let mut message = String::new();
                        push_text(&mut message, "unknown option `");
                        push_text(&mut message, argument.as_str());
                        push_text(&mut message, "`");
                        return Err(message);
                    }
                    let ghost before = positionals@;
                    positionals.push(argument.clone());
                    assert(string_views(positionals@) =~= string_views(before).push(argument@));
                    i = i + 1;
                },
            }
        }
    }
    let ghost scanned = string_views(positionals@);
    if positionals.len() > 2 {
        return Err("too many positional arguments".to_owned());
    }
    let pairs = if positionals.len() > 0 {
        match parse_u32(positionals[0].as_str()) {
            Ok(pairs) => pairs,
            Err(error) => {
                let mut message = String::new();
                push_text(&mut message, "invalid seed-pair count `");
                push_text(&mut message, positionals[0].as_str());
                push_text(&mut message, "`: ");
                let ghost head = message@;
                push_text(&mut message, error.as_str());
                assert(message@.take(head.len() as int) =~= head);
                return Err(message);
            },
        }
    } else {
        10
    };
    let requested = if positionals.len() == 2 {
        Some(positionals[1].clone())
    } else {
        None
    };
    Ok(HillclimbCommand::Run(HillclimbOptions { pairs, requested, elo_path }))
}

// ---------------------------------------------------------------------------
// The policy ladder
// ---------------------------------------------------------------------------

/// The ledger path a ladder command line names: the last `--elo PATH` or
/// `--elo=PATH` among the first `i` arguments, or the first refusal.
pub open spec fn scan_elo(args: Seq<Seq<char>>, i: int, path: Option<Seq<char>>) -> Result<Option<Seq<char>>, Seq<char>>
    decreases args.len() - i,
{
    if i < 0 || i >= args.len() {
        Ok(path)
    } else {
        let argument = args[i];
        if argument == "--elo"@ {
            if i + 1 < args.len() {
                scan_elo(args, i + 2, Some(args[i + 1]))
            } else {
                Err(missing_ledger_message())
            }
        } else if begins_with(argument, "--elo="@) {
            let value = argument.skip(6);
            if value.len() == 0 {
                Err(missing_ledger_message())
            } else {
                scan_elo(args, i + 1, Some(value))
            }
        } else {
            scan_elo(args, i + 1, path)
        }
    }
}

/// The Elo ledger path the ladder's command line names, without the
/// program name; other arguments are left to the ladder.
pub fn elo_path(args: &Vec<String>) -> (path: Result<Option<String>, String>)
    ensures
        match path {
            Ok(Some(path)) => scan_elo(string_views(args@), 0, None) == Ok::<Option<Seq<char>>, Seq<char>>(Some(path@)),
            Ok(None) => scan_elo(string_views(args@), 0, None) == Ok::<Option<Seq<char>>, Seq<char>>(None),
            Err(message) => scan_elo(string_views(args@), 0, None) == Err::<Option<Seq<char>>, Seq<char>>(message@),
        },
{
    let ghost views = string_views(args@);
    let mut path: Option<String> = None;
    let mut index: usize = 0;
    while index < args.len()
        invariant
            index <= args@.len() + 1,
            views == string_views(args@),
            scan_elo(views, 0, None) == scan_elo(
                views,
                index as int,
                match path {
                    Some(path) => Some(path@),
                    None => None,
                },
            ),
        decreases args@.len() + 1 - index,
    {
        let argument = &args[index];
        assert(views[index as int] == argument@);
        if text_eq(argument.as_str(), "--elo") {
            if index + 1 < args.len() {
                assert(views[index + 1] == args@[index + 1]@);
                path = Some(args[index + 1].clone());
                index = index + 2;
            } else {
                return Err("--elo requires a ledger path".to_owned());
            }
        } else {
            match after_prefix(argument.as_str(), "--elo=") {
                Some(value) => {
                    proof {
                        reveal_strlit("--elo=");
                    }
                    if value.as_str().is_empty() {
                        return Err("--elo requires a ledger path".to_owned());
                    }
                    path = Some(value);
                },
                None => {},
            }
            index = index + 1;
        }
    }
    Ok(path)
}

pub open spec fn unknown_version_message(name: Seq<char>) -> Seq<char> {
    "unknown policy version `"@ + name + "`; known: "@ + joined_ids(all_versions())
}

/// The challenger and incumbent a ladder command line names as its second
/// and third arguments, without the program name: nothing when it names
/// fewer than two, and a refusal naming the first unknown generation.
pub open spec fn named_pair_view(args: Seq<Seq<char>>) -> Result<Option<(PolicyVersion, PolicyVersion)>, Seq<char>> {
    if args.len() < 3 {
        Ok(None)
    } else {
        match PolicyVersion::parse_view(args[1]) {
            None => Err(unknown_version_message(args[1])),
            Some(challenger) => match PolicyVersion::parse_view(args[2]) {
                None => Err(unknown_version_message(args[2])),
                Some(incumbent) => Ok(Some((challenger, incumbent))),
            },
        }
    }
}

/// The refusal for an unknown generation name.
fn unknown_version(name: &str) -> (message: String)
    ensures
        message@ == unknown_version_message(name@),
{
    let mut message = String::new();
    push_text(&mut message, "unknown policy version `");
    push_text(&mut message, name);
    push_text(&mut message, "`; known: ");
    let ghost start = message@;
    let all = PolicyVersion::ALL;
    let mut i: usize = 0;
    while i < all.len()
        invariant
            i <= 8,
            all@ == all_versions(),
            message@ == start + joined_ids(all_versions().take(i as int)),
        decreases 8 - i,
    {
        if i > 0 {
            push_char(&mut message, ' ');
        }
        push_text(&mut message, all[i].id());
        proof {
            let prefix = all_versions().take(i as int + 1);
            assert(prefix.drop_last() =~= all_versions().take(i as int));
        }
        i = i + 1;
    }
    assert(all_versions().take(8) =~= all_versions());
    message
}

/// The explicit challenger and incumbent, when both were named.
pub fn named_pair(args: &Vec<String>) -> (pair: Result<Option<(PolicyVersion, PolicyVersion)>, String>)
    ensures
        match pair {
            Ok(named) => named_pair_view(string_views(args@)) == Ok::<
                Option<(PolicyVersion, PolicyVersion)>,
                Seq<char>,
            >(named),
            Err(message) => named_pair_view(string_views(args@)) == Err::<
                Option<(PolicyVersion, PolicyVersion)>,
                Seq<char>,
            >(message@),
        },
{
    if args.len() < 3 {
        return Ok(None);
    }
    assert(string_views(args@)[1] == args@[1]@ && string_views(args@)[2] == args@[2]@);
    let challenger = match PolicyVersion::parse(args[1].as_str()) {
        Some(version) => version,
        None => {
            return Err(unknown_version(args[1].as_str()));
        },
    };
    let incumbent = match PolicyVersion::parse(args[2].as_str()) {
        Some(version) => version,
        None => {
            return Err(unknown_version(args[2].as_str()));
        },
    };
    Ok(Some((challenger, incumbent)))
}

/// The ladder's seed-pair count: its first argument when that is a `u32`,
/// else twenty-five.
pub fn ladder_pair_count(first: Option<&str>) -> (pairs: u32)
    ensures
        pairs == match first {
            Some(value) => match parsed_unsigned(value@, u32::MAX as int) {
                Some(count) => count as u32,
                None => 25,
            },
            None => 25,
        },
{
    match first {
        Some(value) => match parse_u32(value) {
            Ok(pairs) => pairs,
            Err(_) => 25,
        },
        None => 25,
    }
}

// ---------------------------------------------------------------------------
// Seed counts from the environment
// ---------------------------------------------------------------------------

/// Seeds the engine audit's policy matrix runs when none is configured.
pub const DEFAULT_POLICY_MATRIX_SEED_COUNT: u64 = 1;

/// Seeds the reference deck matrix runs when none is configured.
pub const DEFAULT_PROBE_SEED_COUNT: u64 = 8;

/// The audit's seed count: the configured value when it is a positive
/// `u64`, else the default.
pub fn configured_policy_matrix_seed_count(configured: Option<&str>) -> (count: u64)
    ensures
        count == match configured {
            Some(value) => match parsed_unsigned(value@, u64::MAX as int) {
                Some(parsed) => if parsed > 0 {
                    parsed as u64
                } else {
                    DEFAULT_POLICY_MATRIX_SEED_COUNT
                },
                None => DEFAULT_POLICY_MATRIX_SEED_COUNT,
            },
            None => DEFAULT_POLICY_MATRIX_SEED_COUNT,
        },
        count > 0,
{
    match configured {
        Some(value) => match parse_u64(value) {
            Some(count) => if count > 0 {
                count
            } else {
                DEFAULT_POLICY_MATRIX_SEED_COUNT
            },
            None => DEFAULT_POLICY_MATRIX_SEED_COUNT,
        },
        None => DEFAULT_POLICY_MATRIX_SEED_COUNT,
    }
}

/// The reference matrix's seed count: eight when none is configured, the
/// configured value when it is a positive `u64`, and nothing otherwise.
pub fn matrix_seed_count(configured: Option<&str>) -> (count: Option<u64>)
    ensures
        count == match configured {
            Some(value) => match parsed_unsigned(value@, u64::MAX as int) {
                Some(parsed) => if parsed > 0 {
                    Some(parsed as u64)
                } else {
                    None
                },
                None => None,
            },
            None => Some(DEFAULT_PROBE_SEED_COUNT),
        },
{
    match configured {
        Some(value) => match parse_u64(value) {
            Some(count) => if count > 0 {
                Some(count)
            } else {
                None
            },
            None => None,
        },
        None => Some(DEFAULT_PROBE_SEED_COUNT),
    }
}

// ---------------------------------------------------------------------------
// File names
// ---------------------------------------------------------------------------

/// The character a file name keeps for `c`: ASCII letters, digits, `-` and
/// `_` stay; anything else becomes `_`.
pub open spec fn file_char(c: char) -> char {
    if ('A' <= c <= 'Z') || ('a' <= c <= 'z') || ('0' <= c <= '9') || c == '-' || c == '_' {
        c
    } else {
        '_'
    }
}

/// An identifier made safe to use as one component of a file name.
pub fn file_component(value: &str) -> (component: String)
    ensures
        component@ == value@.map_values(|c: char| file_char(c)),
{
    let chars = chars_of(value);
    let mut component = String::new();
    let mut i: usize = 0;
    while i < chars.len()
        invariant
            i <= chars@.len(),
            chars@ == value@,
            component@ == value@.take(i as int).map_values(|c: char| file_char(c)),
        decreases chars@.len() - i,
    {
        let c = chars[i];
        let kept = if ('A' <= c && c <= 'Z') || ('a' <= c && c <= 'z') || ('0' <= c && c <= '9') || c == '-' || c
            == '_' {
            c
        } else {
            '_'
        };
        push_char(&mut component, kept);
        assert(component@ =~= value@.take(i + 1).map_values(|c: char| file_char(c)));
        i = i + 1;
    }
    assert(value@.take(value@.len() as int) =~= value@);
    component
}

} // verus!
