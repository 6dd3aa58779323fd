//! The scripted reference development match: its result record and the
//! checks that hold its checked-in fixture to the contract it enforces.

use vstd::prelude::*;
use crate::text::{contains, occurs, push_text};

verus! {

/// Events the scripted opening must produce, by name.
pub const REQUIRED_EVENT_MARKERS: [&'static str; 8] = [
    "PolicyMoveSubmitted",
    "SpellCast",
    "ConvokeUsed",
    "TokenCreated",
    "PriorityPassed",
    "SpellResolved",
    "DamageDealtToPlayer",
    "LifeGained",
];

/// The digest the scripted opening's event log is frozen to.
pub const EXPECTED_EVENT_DIGEST: &'static str = "fnv1a64:0fc08a289eba7208";

/// Lines the checked-in fixture must carry, each exactly as written here.
pub const REFERENCE_FIXTURE_LINES: [&'static str; 10] = [
    "schema_version = \"cardbench.magic.policy-match.v1\"",
    "id = \"rav_boros_vs_selesnya_development\"",
    "deck_p0 = \"rav_boros_helix\"",
    "deck_p1 = \"rav_selesnya_convoke\"",
    "policy_p0 = \"rav.boros-tempo.v1\"",
    "policy_p1 = \"rav.selesnya-convoke.v1\"",
    "life = [23, 17]",
    "token_count = 3",
    "policy_moves = 8",
    "digest = \"fnv1a64:0fc08a289eba7208\"",
];

/// The record of the scripted reference development match.
#[derive(Clone, Debug, PartialEq, Eq)]
pub struct PolicyMatchResult {
    pub id: &'static str,
    pub event_log: Vec<String>,
    pub digest: String,
    pub life: [i64; 2],
    pub token_count: usize,
    pub policy_moves: usize,
}

/// The position of the first of the first `n` needles that does not occur
/// in `text`.
pub open spec fn first_missing(text: Seq<char>, needles: Seq<Seq<char>>, n: int) -> Option<int>
    decreases n,
{
    if n <= 0 {
        None
    } else {
        match first_missing(text, needles, n - 1) {
            Some(at) => Some(at),
            None => if occurs(text, needles[n - 1]) {
                None
            } else {
                Some(n - 1)
            },
        }
    }
}

/// The text of a list of static strings.
pub open spec fn static_views(texts: Seq<&'static str>) -> Seq<Seq<char>> {
    texts.map_values(|text: &'static str| text@)
}

/// An event name in double quotes, as the fixture lists it.
pub open spec fn quoted(marker: Seq<char>) -> Seq<char> {
    seq!['"'] + marker + seq!['"']
}

pub open spec fn missing_line_message(line: Seq<char>) -> Seq<char> {
    "reference_match.toml is missing `"@ + line + "`"@
}

pub open spec fn missing_event_message(marker: Seq<char>) -> Seq<char> {
    "reference_match.toml is missing event `"@ + marker + "`"@
}

/// Whether a fixture names the contract: every required line, then every
/// required event in quotes; the first one absent is reported.
pub open spec fn fixture_check(fixture: Seq<char>) -> Result<(), Seq<char>> {
    let lines = static_views(REFERENCE_FIXTURE_LINES@);
    let markers = static_views(REQUIRED_EVENT_MARKERS@);
    match first_missing(fixture, lines, lines.len() as int) {
        Some(at) => Err(missing_line_message(lines[at])),
        None => match first_missing(fixture, markers.map_values(|marker: Seq<char>| quoted(marker)), markers.len() as int) {
            Some(at) => Err(missing_event_message(markers[at])),
            None => Ok(()),
        },
    }
}

proof fn lemma_missing_sticks(text: Seq<char>, needles: Seq<Seq<char>>, n: int, m: int)
    requires
        0 <= n <= m,
        first_missing(text, needles, n) is Some,
    ensures
        first_missing(text, needles, m) == first_missing(text, needles, n),
    decreases m - n,
{
    if n < m {
        lemma_missing_sticks(text, needles, n, m - 1);
    }
}

/// Ensures the checked-in fixture still names the executable contract the
/// reference runner enforces.
pub fn validate_reference_match_fixture(fixture: &str) -> (checked: Result<(), String>)
    ensures
        match checked {
            Ok(()) => fixture_check(fixture@) == Ok::<(), Seq<char>>(()),
            Err(message) => fixture_check(fixture@) == Err::<(), Seq<char>>(message@),
        },
{
    let lines = REFERENCE_FIXTURE_LINES;
    let ghost line_views = static_views(REFERENCE_FIXTURE_LINES@);
    let mut i: usize = 0;
    while i < lines.len()
        invariant
            i <= 10,
            lines@ == REFERENCE_FIXTURE_LINES@,
            line_views == static_views(REFERENCE_FIXTURE_LINES@),
            first_missing(fixture@, line_views, i as int) is None,
        decreases 10 - i,
    {
        if !contains(fixture, lines[i]) {
            let mut message = String::new();
            push_text(&mut message, "reference_match.toml is missing `");
            push_text(&mut message, lines[i]);
            push_text(&mut message, "`");
            proof {
                lemma_missing_sticks(fixture@, line_views, i + 1, 10);
            }
            return Err(message);
        }
        i = i + 1;
    }
    let markers = REQUIRED_EVENT_MARKERS;
    let ghost marker_views = static_views(REQUIRED_EVENT_MARKERS@);
    let ghost quoted_views = marker_views.map_values(|marker: Seq<char>| quoted(marker));
    let mut j: usize = 0;
    while j < markers.len()
        invariant
            j <= 8,
            markers@ == REQUIRED_EVENT_MARKERS@,
            marker_views == static_views(REQUIRED_EVENT_MARKERS@),
            quoted_views == marker_views.map_values(|marker: Seq<char>| quoted(marker)),
            first_missing(fixture@, quoted_views, j as int) is None,
            line_views == static_views(REFERENCE_FIXTURE_LINES@),
            first_missing(fixture@, line_views, 10) is None,
        decreases 8 - j,
    {
        let mut quoted_marker = String::new();
        push_text(&mut quoted_marker, "\"");
        push_text(&mut quoted_marker, markers[j]);
        push_text(&mut quoted_marker, "\"");
        proof {
            reveal_strlit("\"");
            assert(quoted_marker@ =~= quoted_views[j as int]);
        }
        if !contains(fixture, quoted_marker.as_str()) {
            let mut message = String::new();
            push_text(&mut message, "reference_match.toml is missing event `");
            push_text(&mut message, markers[j]);
            push_text(&mut message, "`");
            proof {
                lemma_missing_sticks(fixture@, quoted_views, j + 1, 8);
            }
            return Err(message);
        }
        j = j + 1;
    }
    Ok(())
}

} // verus!
