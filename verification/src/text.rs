//! Character-level text helpers used by identifiers and fixture checks.

use vstd::prelude::*;
use vstd::string::StringExecFns;

verus! {

broadcast use vstd::string::group_string_axioms;

/// Whether two pieces of text are equal, character for character.
pub fn text_eq(left: &str, right: &str) -> (equal: bool)
    ensures
        equal == (left@ == right@),
{
    let a = left.to_owned();
    let b = right.to_owned();
    a == b
}

/// The characters of `text`, in order.
pub fn chars_of(text: &str) -> (chars: Vec<char>)
    ensures
        chars@ == text@,
{
    let mut chars: Vec<char> = Vec::new();
    for c in it: text.chars()
        invariant
            chars@ == it.seq().take(it.index() as int),
    {
        chars.push(c);
    }
    chars
}


/// Appends one character to `text`.
///
/// Trusted: calls `String::push`, which std documents as appending the given
/// `char` to the end of the string. The contract claims exactly that.
#[verifier::external_body]
pub fn push_char(text: &mut String, c: char)
    ensures
        final(text)@ == old(text)@.push(c),
{
    text.push(c);
}

/// Appends `more` to `text`.
pub fn push_text(text: &mut String, more: &str)
    ensures
        final(text)@ == old(text)@ + more@,
{
    text.append(more);
}

/// The decimal digit character for `digit`.
pub open spec fn digit_char(digit: int) -> char {
    if digit == 0 {
        '0'
    } else if digit == 1 {
        '1'
    } else if digit == 2 {
        '2'
    } else if digit == 3 {
        '3'
    } else if digit == 4 {
        '4'
    } else if digit == 5 {
        '5'
    } else if digit == 6 {
        '6'
    } else if digit == 7 {
        '7'
    } else if digit == 8 {
        '8'
    } else {
        '9'
    }
}

/// The base-ten rendering of `n`, without leading zeros.
pub open spec fn decimal(n: nat) -> Seq<char>
    decreases n,
{
    if n < 10 {
        seq![digit_char(n as int)]
    } else {
        decimal(n / 10).push(digit_char((n % 10) as int))
    }
}

fn digit(d: u64) -> (c: char)
    requires
        d < 10,
    ensures
        c == digit_char(d as int),
{
    match d {
        0 => '0',
        1 => '1',
        2 => '2',
        3 => '3',
        4 => '4',
        5 => '5',
        6 => '6',
        7 => '7',
        8 => '8',
        _ => '9',
    }
}

/// Appends the base-ten rendering of `n` to `text`.
pub fn push_decimal(text: &mut String, n: u64)
    ensures
        final(text)@ == old(text)@ + decimal(n as nat),
    decreases n,
{
    if n >= 10 {
        push_decimal(text, n / 10);
        let ghost middle = text@;
        push_char(text, digit(n % 10));
        assert(text@ =~= old(text)@ + decimal(n as nat));
    } else {
        push_char(text, digit(n));
        assert(text@ =~= old(text)@ + decimal(n as nat));
    }
}

/// The base-ten rendering of `n`.
pub fn decimal_string(n: u64) -> (text: String)
    ensures
        text@ == decimal(n as nat),
{
    let mut text = String::new();
    push_decimal(&mut text, n);
    assert(text@ =~= decimal(n as nat));
    text
}


/// Whether `text` contains no `|` separator.
pub open spec fn no_bar(text: Seq<char>) -> bool {
    forall|i: int| 0 <= i < text.len() ==> #[trigger] text[i] != '|'
}

proof fn lemma_digit_char_injective(a: int, b: int)
    requires
        0 <= a < 10,
        0 <= b < 10,
        digit_char(a) == digit_char(b),
    ensures
        a == b,
{
}

/// A decimal rendering is never empty, has at least two digits from ten
/// upward, and contains no separator.
pub proof fn lemma_decimal_shape(n: nat)
    ensures
        decimal(n).len() >= 1,
        n >= 10 ==> decimal(n).len() >= 2,
        no_bar(decimal(n)),
    decreases n,
{
    if n >= 10 {
        lemma_decimal_shape(n / 10);
    }
}

/// Distinct numbers render differently.
pub proof fn lemma_decimal_injective(n: nat, m: nat)
    requires
        decimal(n) == decimal(m),
    ensures
        n == m,
    decreases n,
{
    lemma_decimal_shape(n);
    lemma_decimal_shape(m);
    if n < 10 && m < 10 {
        assert(decimal(n)[0] == decimal(m)[0]);
        assert(decimal(n)[0] == digit_char(n as int));
        assert(decimal(m)[0] == digit_char(m as int));
        lemma_digit_char_injective(n as int, m as int);
    } else if n >= 10 && m >= 10 {
        let left = decimal(n);
        let right = decimal(m);
        assert(left.last() == right.last());
        assert(left.last() == digit_char((n % 10) as int));
        assert(right.last() == digit_char((m % 10) as int));
        lemma_digit_char_injective((n % 10) as int, (m % 10) as int);
        assert(decimal(n / 10) =~= left.drop_last());
        assert(decimal(m / 10) =~= right.drop_last());
        lemma_decimal_injective(n / 10, m / 10);
    }
}

/// Splitting at the first separator recovers both halves.
pub proof fn lemma_split_at_bar(a: Seq<char>, b: Seq<char>, c: Seq<char>, d: Seq<char>)
    requires
        no_bar(a),
        no_bar(c),
        a + seq!['|'] + b == c + seq!['|'] + d,
    ensures
        a == c,
        b == d,
{
    let left = a + seq!['|'] + b;
    let right = c + seq!['|'] + d;
    if a.len() < c.len() {
        assert(left[a.len() as int] == '|');
        assert(right[a.len() as int] == c[a.len() as int]);
    } else if c.len() < a.len() {
        assert(right[c.len() as int] == '|');
        assert(left[c.len() as int] == a[c.len() as int]);
    }
    assert(a =~= left.take(a.len() as int));
    assert(c =~= right.take(c.len() as int));
    assert(b =~= left.skip((a.len() + 1) as int));
    assert(d =~= right.skip((c.len() + 1) as int));
}


/// Whether `needle` occurs in `text` starting at position `at`.
pub open spec fn occurs_at(text: Seq<char>, needle: Seq<char>, at: int) -> bool {
    0 <= at && at + needle.len() <= text.len() && text.subrange(at, at + needle.len()) == needle
}

/// Whether `needle` occurs anywhere in `text`.
pub open spec fn occurs(text: Seq<char>, needle: Seq<char>) -> bool {
    exists|at: int| occurs_at(text, needle, at)
}

/// The first position at or after `from` where `needle` occurs in `text`.
pub open spec fn first_occurrence_from(text: Seq<char>, needle: Seq<char>, from: int) -> Option<int>
    decreases text.len() + 1 - from,
{
    if from < 0 || from + needle.len() > text.len() {
        None
    } else if occurs_at(text, needle, from) {
        Some(from)
    } else {
        first_occurrence_from(text, needle, from + 1)
    }
}

/// The first position where `needle` occurs in `text`.
pub open spec fn first_occurrence(text: Seq<char>, needle: Seq<char>) -> Option<int> {
    first_occurrence_from(text, needle, 0)
}

/// The first occurrence at or after `from` is an occurrence, none comes
/// before it, and there is none at all exactly when none is found.
pub proof fn lemma_first_occurrence(text: Seq<char>, needle: Seq<char>, from: int)
    requires
        0 <= from,
    ensures
        match first_occurrence_from(text, needle, from) {
            Some(at) => from <= at && occurs_at(text, needle, at) && forall|k: int|
                from <= k < at ==> !#[trigger] occurs_at(text, needle, k),
            None => forall|k: int| from <= k ==> !#[trigger] occurs_at(text, needle, k),
        },
    decreases text.len() + 1 - from,
{
    if from + needle.len() <= text.len() && !occurs_at(text, needle, from) {
        lemma_first_occurrence(text, needle, from + 1);
    }
}

/// Whether `needle` occurs at position `at` of `text`, compared character
/// by character.
fn matches_at(text: &Vec<char>, needle: &Vec<char>, at: usize) -> (found: bool)
    requires
        at + needle@.len() <= text@.len(),
    ensures
        found == occurs_at(text@, needle@, at as int),
{
    let mut j: usize = 0;
    assert(text@.len() == text.len());
    while j < needle.len()
        invariant
            at + needle@.len() <= text@.len(),
            text@.len() <= usize::MAX,
            j <= needle@.len(),
            forall|k: int| 0 <= k < j ==> text@[at + k] == needle@[k],
        decreases needle@.len() - j,
    {
        if text[at + j] != needle[j] {
            assert(text@.subrange(at as int, at + needle@.len())[j as int] != needle@[j as int]);
            return false;
        }
        j = j + 1;
    }
    assert(text@.subrange(at as int, at + needle@.len()) =~= needle@);
    true
}

/// The first position where `needle` occurs in `text`, counted in characters.
pub fn find_chars(text: &Vec<char>, needle: &Vec<char>) -> (at: Option<usize>)
    ensures
        match first_occurrence(text@, needle@) {
            Some(k) => at == Some(k as usize),
            None => at is None,
        },
{
    if needle.len() > text.len() {
        return None;
    }
    let last = text.len() - needle.len();
    let mut at: usize = 0;
    while at <= last
        invariant
            last + needle@.len() == text@.len(),
            at <= last + 1,
            first_occurrence(text@, needle@) == first_occurrence_from(text@, needle@, at as int),
        decreases last + 1 - at,
    {
        if matches_at(text, needle, at) {
            return Some(at);
        }
        if at == last {
            return None;
        }
        at = at + 1;
    }
    None
}

/// Whether `needle` occurs anywhere in `text`.
pub fn contains(text: &str, needle: &str) -> (found: bool)
    ensures
        found == occurs(text@, needle@),
{
    let haystack = chars_of(text);
    let pattern = chars_of(needle);
    let at = find_chars(&haystack, &pattern);
    proof {
        lemma_first_occurrence(text@, needle@, 0);
    }
    at.is_some()
}


// ---------------------------------------------------------------------------
// Lexicographic order and sorted sets of text
// ---------------------------------------------------------------------------

/// Whether `a` sorts strictly before `b`, comparing character codes from
/// the front; a proper prefix sorts first. This is the order of UTF-8 bytes,
/// the order std gives `String`.
pub open spec fn lex_lt(a: Seq<char>, b: Seq<char>) -> bool
    decreases a.len(),
{
    if a.len() == 0 {
        b.len() > 0
    } else if b.len() == 0 {
        false
    } else if a[0] != b[0] {
        a[0] < b[0]
    } else {
        lex_lt(a.drop_first(), b.drop_first())
    }
}

/// The order is strict and total: exactly one of `a < b`, `a == b`, `b < a`.
pub proof fn lemma_lex_trichotomy(a: Seq<char>, b: Seq<char>)
    ensures
        lex_lt(a, b) || a == b || lex_lt(b, a),
        !(lex_lt(a, b) && lex_lt(b, a)),
        !lex_lt(a, a),
    decreases a.len(),
{
    if a.len() > 0 && b.len() > 0 && a[0] == b[0] {
        lemma_lex_trichotomy(a.drop_first(), b.drop_first());
        if a.drop_first() == b.drop_first() {
            assert(a =~= seq![a[0]] + a.drop_first());
            assert(b =~= seq![b[0]] + b.drop_first());
        }
    }
    if a.len() > 0 {
        lemma_lex_trichotomy(a.drop_first(), a.drop_first());
    }
    if a.len() == 0 && b.len() == 0 {
        assert(a =~= b);
    }
}

/// The order is transitive.
pub proof fn lemma_lex_transitive(a: Seq<char>, b: Seq<char>, c: Seq<char>)
    requires
        lex_lt(a, b),
        lex_lt(b, c),
    ensures
        lex_lt(a, c),
    decreases a.len(),
{
    if a.len() > 0 && b.len() > 0 && c.len() > 0 && a[0] == b[0] && b[0] == c[0] {
        lemma_lex_transitive(a.drop_first(), b.drop_first(), c.drop_first());
    }
}

/// Whether `a` sorts strictly before `b`.
pub fn lex_less(a: &str, b: &str) -> (less: bool)
    ensures
        less == lex_lt(a@, b@),
{
    let left = chars_of(a);
    let right = chars_of(b);
    let mut i: usize = 0;
    assert(left@.skip(0) =~= left@);
    assert(right@.skip(0) =~= right@);
    while i < left.len() && i < right.len() && left[i] == right[i]
        invariant
            i <= left@.len(),
            i <= right@.len(),
            lex_lt(a@, b@) == lex_lt(left@.skip(i as int), right@.skip(i as int)),
            left@ == a@,
            right@ == b@,
        decreases left@.len() - i,
    {
        proof {
            assert(left@.skip(i as int).drop_first() =~= left@.skip(i + 1));
            assert(right@.skip(i as int).drop_first() =~= right@.skip(i + 1));
        }
        i = i + 1;
    }
    if i == left.len() {
        i < right.len()
    } else if i == right.len() {
        false
    } else {
        left[i] < right[i]
    }
}

/// Whether a list of text is strictly increasing, hence free of repeats.
pub open spec fn strictly_sorted(texts: Seq<Seq<char>>) -> bool {
    forall|i: int, j: int| 0 <= i < j < texts.len() ==> lex_lt(#[trigger] texts[i], #[trigger] texts[j])
}

/// The text of a list of strings.
pub open spec fn string_views(texts: Seq<String>) -> Seq<Seq<char>> {
    texts.map_values(|text: String| text@)
}

/// A strictly increasing list repeats nothing, so it is exactly as long as
/// the set of its items.
pub proof fn lemma_sorted_len(texts: Seq<Seq<char>>)
    requires
        strictly_sorted(texts),
    ensures
        texts.len() == texts.to_set().len(),
{
    assert forall|i: int, j: int| 0 <= i < texts.len() && 0 <= j < texts.len() && i != j implies texts[i]
        != texts[j] by {
        if i < j {
            lemma_lex_trichotomy(texts[i], texts[j]);
        } else {
            lemma_lex_trichotomy(texts[j], texts[i]);
        }
    }
    texts.unique_seq_to_set();
}

/// Adds `item` to a strictly increasing list of strings, keeping it strictly
/// increasing; an item already present is not added again.
pub fn insert_sorted(sorted: &mut Vec<String>, item: String)
    requires
        strictly_sorted(string_views(old(sorted)@)),
    ensures
        strictly_sorted(string_views(final(sorted)@)),
        string_views(final(sorted)@).to_set() == string_views(old(sorted)@).to_set().insert(item@),
{
    let ghost before = string_views(sorted@);
    let mut at: usize = 0;
    while at < sorted.len() && lex_less(sorted[at].as_str(), item.as_str())
        invariant
            at <= sorted@.len(),
            sorted@ == old(sorted)@,
            before == string_views(sorted@),
            strictly_sorted(before),
            forall|k: int| 0 <= k < at ==> lex_lt(#[trigger] before[k], item@),
        decreases sorted@.len() - at,
    {
        at = at + 1;
    }
    if at < sorted.len() && text_eq(sorted[at].as_str(), item.as_str()) {
        assert(before.to_set().insert(item@) =~= before.to_set()) by {
            assert(before[at as int] == item@);
        }
        return;
    }
    proof {
        if at < before.len() {
            lemma_lex_trichotomy(before[at as int], item@);
        }
    }
    sorted.insert(at, item);
    proof {
        let after = string_views(sorted@);
        assert(after =~= before.insert(at as int, item@));
        assert forall|i: int, j: int| 0 <= i < j < after.len() implies lex_lt(
            #[trigger] after[i],
            #[trigger] after[j],
        ) by {
            if j < at {
            } else if i < at && j == at {
            } else if i < at && j > at {
                assert(after[j] == before[j - 1]);
                if j - 1 > at {
                    lemma_lex_transitive(item@, before[at as int], before[j - 1]);
                }
                lemma_lex_transitive(before[i], item@, before[j - 1]);
            } else if i == at {
                assert(after[j] == before[j - 1]);
                if j - 1 > at {
                    lemma_lex_transitive(item@, before[at as int], before[j - 1]);
                }
            } else {
                assert(after[i] == before[i - 1]);
                assert(after[j] == before[j - 1]);
            }
        }
        assert(after.to_set() =~= before.to_set().insert(item@)) by {
            assert forall|x: Seq<char>| after.to_set().contains(x) implies before.to_set().insert(item@).contains(x) by {
                let k = choose|k: int| 0 <= k < after.len() && after[k] == x;
                if k < at {
                    assert(before[k] == x);
                } else if k > at {
                    assert(before[k - 1] == x);
                }
            }
            assert forall|x: Seq<char>| before.to_set().insert(item@).contains(x) implies after.to_set().contains(x) by {
                if x == item@ {
                    assert(after[at as int] == x);
                } else {
                    let k = choose|k: int| 0 <= k < before.len() && before[k] == x;
                    if k < at {
                        assert(after[k] == x);
                    } else {
                        assert(after[k + 1] == x);
                    }
                }
            }
        }
    }
}


/// Two strictly increasing lists with the same items are the same list.
pub proof fn lemma_sorted_unique(a: Seq<Seq<char>>, b: Seq<Seq<char>>)
    requires
        strictly_sorted(a),
        strictly_sorted(b),
        a.to_set() == b.to_set(),
    ensures
        a == b,
    decreases a.len(),
{
    if a.len() == 0 {
        if b.len() > 0 {
            assert(b.to_set().contains(b[0]));
        }
        assert(a =~= b);
    } else {
        assert(a.to_set().contains(a[0]));
        assert(b.len() > 0);
        assert(b.to_set().contains(b[0]));
        let k = choose|k: int| 0 <= k < b.len() && b[k] == a[0];
        let l = choose|l: int| 0 <= l < a.len() && a[l] == b[0];
        if k > 0 {
            assert(lex_lt(b[0], b[k]));
            if l > 0 {
                assert(lex_lt(a[0], a[l]));
                lemma_lex_trichotomy(a[0], b[0]);
            } else {
                lemma_lex_trichotomy(b[0], b[0]);
            }
        }
        assert(a[0] == b[0]);
        let ra = a.drop_first();
        let rb = b.drop_first();
        assert forall|i: int, j: int| 0 <= i < j < ra.len() implies lex_lt(#[trigger] ra[i], #[trigger] ra[j]) by {
            assert(ra[i] == a[i + 1] && ra[j] == a[j + 1]);
        }
        assert forall|i: int, j: int| 0 <= i < j < rb.len() implies lex_lt(#[trigger] rb[i], #[trigger] rb[j]) by {
            assert(rb[i] == b[i + 1] && rb[j] == b[j + 1]);
        }
        assert(ra.to_set() =~= rb.to_set()) by {
            assert forall|x: Seq<char>| ra.to_set().contains(x) implies rb.to_set().contains(x) by {
                let i = choose|i: int| 0 <= i < ra.len() && ra[i] == x;
                assert(a[i + 1] == x);
                assert(lex_lt(a[0], a[i + 1]));
                lemma_lex_trichotomy(a[0], x);
                assert(b.to_set().contains(x));
                let j = choose|j: int| 0 <= j < b.len() && b[j] == x;
                assert(j != 0);
                assert(rb[j - 1] == x);
            }
            assert forall|x: Seq<char>| rb.to_set().contains(x) implies ra.to_set().contains(x) by {
                let i = choose|i: int| 0 <= i < rb.len() && rb[i] == x;
                assert(b[i + 1] == x);
                assert(lex_lt(b[0], b[i + 1]));
                lemma_lex_trichotomy(b[0], x);
                assert(a.to_set().contains(x));
                let j = choose|j: int| 0 <= j < a.len() && a[j] == x;
                assert(j != 0);
                assert(ra[j - 1] == x);
            }
        }
        lemma_sorted_unique(ra, rb);
        assert(a =~= seq![a[0]] + ra);
        assert(b =~= seq![b[0]] + rb);
    }
}

/// The items of a set of text, listed in strictly increasing order.
pub open spec fn sorted_listing(items: Set<Seq<char>>) -> Seq<Seq<char>> {
    choose|listing: Seq<Seq<char>>| strictly_sorted(listing) && listing.to_set() == items
}

/// A strictly increasing list is the sorted listing of its items.
pub proof fn lemma_is_sorted_listing(listing: Seq<Seq<char>>)
    requires
        strictly_sorted(listing),
    ensures
        sorted_listing(listing.to_set()) == listing,
{
    let chosen = sorted_listing(listing.to_set());
    assert(strictly_sorted(chosen) && chosen.to_set() == listing.to_set());
    lemma_sorted_unique(chosen, listing);
}

/// Whether `item` is one of `texts`.
pub fn member(texts: &Vec<String>, item: &str) -> (found: bool)
    ensures
        found == string_views(texts@).contains(item@),
{
    let mut i: usize = 0;
    while i < texts.len()
        invariant
            i <= texts@.len(),
            forall|k: int| 0 <= k < i ==> #[trigger] string_views(texts@)[k] != item@,
        decreases texts@.len() - i,
    {
        if text_eq(texts[i].as_str(), item) {
            assert(string_views(texts@)[i as int] == item@);
            return true;
        }
        i = i + 1;
    }
    false
}


/// Appending an item adds it to the set of items.
pub proof fn lemma_push_to_set<A>(items: Seq<A>, item: A)
    ensures
        items.push(item).to_set() == items.to_set().insert(item),
{
    let pushed = items.push(item);
    assert forall|x: A| pushed.to_set().contains(x) implies items.to_set().insert(item).contains(x) by {
        let k = choose|k: int| 0 <= k < pushed.len() && pushed[k] == x;
        if k < items.len() {
            assert(items[k] == x);
        }
    }
    assert forall|x: A| items.to_set().insert(item).contains(x) implies pushed.to_set().contains(x) by {
        if x == item {
            assert(pushed[items.len() as int] == x);
        } else {
            let k = choose|k: int| 0 <= k < items.len() && items[k] == x;
            assert(pushed[k] == x);
        }
    }
    assert(pushed.to_set() =~= items.to_set().insert(item));
}


/// Whether `c` is one of the ASCII digits `0` to `9`.
pub open spec fn is_digit(c: char) -> bool {
    '0' <= c <= '9'
}

/// The number a run of ASCII digits spells in base ten.
pub open spec fn digits_value(digits: Seq<char>) -> nat
    decreases digits.len(),
{
    if digits.len() == 0 {
        0
    } else {
        digits_value(digits.drop_last()) * 10 + (digits.last() as nat - '0' as nat) as nat
    }
}

/// A digit run's value never shrinks as digits are appended.
pub proof fn lemma_digits_value_grows(digits: Seq<char>, c: char)
    requires
        is_digit(c),
    ensures
        digits_value(digits.push(c)) == digits_value(digits) * 10 + (c as nat - '0' as nat),
        digits_value(digits.push(c)) >= digits_value(digits),
{
    assert(digits.push(c).drop_last() =~= digits);
}


/// `listing` with `item` inserted at its place, unless already present.
pub open spec fn listing_insert(listing: Seq<Seq<char>>, item: Seq<char>) -> Seq<Seq<char>>
    decreases listing.len(),
{
    if listing.len() == 0 {
        seq![item]
    } else if listing[0] == item {
        listing
    } else if lex_lt(item, listing[0]) {
        seq![item] + listing
    } else {
        seq![listing[0]] + listing_insert(listing.drop_first(), item)
    }
}

proof fn lemma_listing_insert(listing: Seq<Seq<char>>, item: Seq<char>)
    requires
        strictly_sorted(listing),
    ensures
        strictly_sorted(listing_insert(listing, item)),
        listing_insert(listing, item).to_set() == listing.to_set().insert(item),
        listing_insert(listing, item).len() > 0,
        listing.len() > 0 ==> (listing_insert(listing, item)[0] == listing[0] || listing_insert(listing, item)[0]
            == item),
    decreases listing.len(),
{
    let inserted = listing_insert(listing, item);
    if listing.len() == 0 {
        assert(inserted.to_set() =~= listing.to_set().insert(item)) by {
            assert forall|x: Seq<char>| inserted.to_set().contains(x) implies listing.to_set().insert(item).contains(x) by {
            }
            assert forall|x: Seq<char>| listing.to_set().insert(item).contains(x) implies inserted.to_set().contains(x) by {
                assert(inserted[0] == item);
            }
        }
    } else if listing[0] == item {
        assert(inserted.to_set() =~= listing.to_set().insert(item)) by {
            assert(listing.to_set().contains(item)) by {
                assert(listing[0] == item);
            }
        }
    } else if lex_lt(item, listing[0]) {
        assert forall|i: int, j: int| 0 <= i < j < inserted.len() implies lex_lt(#[trigger] inserted[i], #[trigger] inserted[j]) by {
            if i == 0 {
                assert(inserted[j] == listing[j - 1]);
                if j - 1 > 0 {
                    lemma_lex_transitive(item, listing[0], listing[j - 1]);
                }
            } else {
                assert(inserted[i] == listing[i - 1] && inserted[j] == listing[j - 1]);
            }
        }
        lemma_push_front_to_set(listing, item);
    } else {
        let rest = listing.drop_first();
        assert forall|i: int, j: int| 0 <= i < j < rest.len() implies lex_lt(#[trigger] rest[i], #[trigger] rest[j]) by {
            assert(rest[i] == listing[i + 1] && rest[j] == listing[j + 1]);
        }
        lemma_listing_insert(rest, item);
        let tail = listing_insert(rest, item);
        lemma_lex_trichotomy(item, listing[0]);
        assert(lex_lt(listing[0], item));
        assert forall|i: int, j: int| 0 <= i < j < inserted.len() implies lex_lt(#[trigger] inserted[i], #[trigger] inserted[j]) by {
            if i == 0 {
                assert(inserted[j] == tail[j - 1]);
                assert(tail.to_set().contains(tail[j - 1]));
                assert(rest.to_set().insert(item).contains(tail[j - 1]));
                if tail[j - 1] != item {
                    let k = choose|k: int| 0 <= k < rest.len() && rest[k] == tail[j - 1];
                    assert(listing[k + 1] == tail[j - 1]);
                }
            } else {
                assert(inserted[i] == tail[i - 1] && inserted[j] == tail[j - 1]);
            }
        }
        lemma_push_front_to_set(tail, listing[0]);
        lemma_push_front_to_set(rest, listing[0]);
        assert(listing =~= seq![listing[0]] + rest);
        assert(inserted.to_set() =~= listing.to_set().insert(item));
    }
}

/// Putting an item in front adds it to the set of items.
proof fn lemma_push_front_to_set(items: Seq<Seq<char>>, item: Seq<char>)
    ensures
        (seq![item] + items).to_set() == items.to_set().insert(item),
{
    let front = seq![item] + items;
    assert forall|x: Seq<char>| front.to_set().contains(x) implies items.to_set().insert(item).contains(x) by {
        let k = choose|k: int| 0 <= k < front.len() && front[k] == x;
        if k > 0 {
            assert(items[k - 1] == x);
        }
    }
    assert forall|x: Seq<char>| items.to_set().insert(item).contains(x) implies front.to_set().contains(x) by {
        if x == item {
            assert(front[0] == x);
        } else {
            let k = choose|k: int| 0 <= k < items.len() && items[k] == x;
            assert(front[k + 1] == x);
        }
    }
    assert(front.to_set() =~= items.to_set().insert(item));
}

/// Every list of text has a strictly increasing listing of its items.
pub proof fn lemma_listing_exists(texts: Seq<Seq<char>>) -> (listing: Seq<Seq<char>>)
    ensures
        strictly_sorted(listing),
        listing.to_set() == texts.to_set(),
    decreases texts.len(),
{
    if texts.len() == 0 {
        let none = Seq::<Seq<char>>::empty();
        assert(none.to_set() =~= texts.to_set());
        none
    } else {
        let earlier = lemma_listing_exists(texts.drop_last());
        lemma_listing_insert(earlier, texts.last());
        lemma_push_to_set(texts.drop_last(), texts.last());
        assert(texts.drop_last().push(texts.last()) =~= texts);
        listing_insert(earlier, texts.last())
    }
}

/// The first `n` of `texts` that are in `items`, in order.
pub open spec fn drawn_from(texts: Seq<Seq<char>>, items: Set<Seq<char>>, n: int) -> Seq<Seq<char>>
    decreases n,
{
    if n <= 0 {
        Seq::empty()
    } else if items.contains(texts[n - 1]) {
        drawn_from(texts, items, n - 1).push(texts[n - 1])
    } else {
        drawn_from(texts, items, n - 1)
    }
}

proof fn lemma_drawn_from(texts: Seq<Seq<char>>, items: Set<Seq<char>>, n: int)
    requires
        0 <= n <= texts.len(),
    ensures
        drawn_from(texts, items, n).to_set() == texts.take(n).to_set().intersect(items),
    decreases n,
{
    if n == 0 {
        assert(texts.take(0).to_set() =~= Set::<Seq<char>>::empty());
        assert(drawn_from(texts, items, 0).to_set() =~= texts.take(0).to_set().intersect(items));
    } else {
        lemma_drawn_from(texts, items, n - 1);
        assert(texts.take(n) =~= texts.take(n - 1).push(texts[n - 1]));
        lemma_push_to_set(texts.take(n - 1), texts[n - 1]);
        if items.contains(texts[n - 1]) {
            lemma_push_to_set(drawn_from(texts, items, n - 1), texts[n - 1]);
        }
        assert(drawn_from(texts, items, n).to_set() =~= texts.take(n).to_set().intersect(items));
    }
}

/// The sorted listing of a set is empty exactly when the set is, for any
/// set of items drawn from a list.
pub proof fn lemma_empty_listing(texts: Seq<Seq<char>>, items: Set<Seq<char>>)
    requires
        items.subset_of(texts.to_set()),
    ensures
        sorted_listing(items).len() == 0 <==> items == Set::<Seq<char>>::empty(),
{
    let drawn = drawn_from(texts, items, texts.len() as int);
    lemma_drawn_from(texts, items, texts.len() as int);
    assert(texts.take(texts.len() as int) =~= texts);
    assert(drawn.to_set() =~= items);
    let witness = lemma_listing_exists(drawn);
    let chosen = sorted_listing(items);
    assert(strictly_sorted(chosen) && chosen.to_set() == items);
    if chosen.len() == 0 {
        assert(items =~= Set::<Seq<char>>::empty()) by {
            assert forall|x: Seq<char>| !items.contains(x) by {
                if items.contains(x) {
                    assert(chosen.to_set().contains(x));
                }
            }
        }
    } else {
        assert(chosen.to_set().contains(chosen[0]));
    }
}

} // verus!
