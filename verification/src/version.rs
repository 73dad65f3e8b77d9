//! Semantic versions: numbers between dots, optionally with a pre-release and build
//! metadata, and how two of them relate.
use crate::text::{
    chars_of, split, split_on, split_pieces_join_back, splitting_goes_piece_by_piece,
};
use vstd::prelude::*;

verus! {

/// `c` is an ASCII decimal digit.
pub open spec fn is_digit(c: char) -> bool {
    '0' <= c <= '9'
}

/// The number that a run of decimal digits stands for.
pub open spec fn digits_value(s: Seq<char>) -> nat
    decreases s.len(),
{
    if s.len() == 0 {
        0
    } else {
        digits_value(s.drop_last()) * 10 + (s.last() as nat - '0' as nat) as nat
    }
}

/// The digits of a decimal number, without the one plus sign that may lead them.
pub open spec fn without_plus(s: Seq<char>) -> Seq<char> {
    if s.len() > 0 && s[0] == '+' {
        s.skip(1)
    } else {
        s
    }
}

/// The number that a text stands for as a `u64`: an optional plus sign followed
/// by one or more decimal digits and nothing else, with a value that fits.
pub open spec fn parsed_u64(s: Seq<char>) -> Option<u64> {
    let digits = without_plus(s);
    if digits.len() > 0 && (forall|i: int| 0 <= i < digits.len() ==> is_digit(#[trigger] digits[i]))
        && digits_value(digits) <= u64::MAX {
        Some(digits_value(digits) as u64)
    } else {
        None
    }
}

/// The numbers that stand between the dots of a text. Pieces that are no number (an
/// empty one, `x`) do not count.
pub open spec fn components(version: Seq<char>) -> Seq<u64> {
    numbers_in(split_on(version, '.'))
}

/// The numbers among the pieces, in order.
pub open spec fn numbers_in(pieces: Seq<Seq<char>>) -> Seq<u64>
    decreases pieces.len(),
{
    if pieces.len() == 0 {
        Seq::empty()
    } else {
        let before = numbers_in(pieces.drop_last());
        match parsed_u64(pieces.last()) {
            Some(n) => before.push(n),
            None => before,
        }
    }
}

/// Where `c` first stands in `s`, and the length of `s` where it does not.
pub open spec fn first_at(s: Seq<char>, c: char) -> int
    decreases s.len(),
{
    if s.len() == 0 || s[0] == c {
        0
    } else {
        1 + first_at(s.skip(1), c)
    }
}

/// What stands before the first `c`, and everything where there is none.
pub open spec fn before_first(s: Seq<char>, c: char) -> Seq<char> {
    s.take(first_at(s, c))
}

/// What stands behind the first `c`, where there is one.
pub open spec fn after_first(s: Seq<char>, c: char) -> Option<Seq<char>> {
    if first_at(s, c) < s.len() {
        Some(s.skip(first_at(s, c) + 1))
    } else {
        None
    }
}

/// One or more digits and nothing else.
pub open spec fn is_number(s: Seq<char>) -> bool {
    s.len() > 0 && forall|i: int| 0 <= i < s.len() ==> is_digit(#[trigger] s[i])
}

/// A number as semantic versions write it: without leading zeros.
pub open spec fn is_semver_number(s: Seq<char>) -> bool {
    is_number(s) && (s.len() > 1 ==> s[0] != '0')
}

/// The core of a semantic version: up to three numbers between dots, each with a value
/// that fits a `u64`. Missing ones count as zero.
pub open spec fn is_core(s: Seq<char>) -> bool {
    &&& split_on(s, '.').len() <= 3
    &&& forall|i: int|
        0 <= i < split_on(s, '.').len() ==> is_semver_number(#[trigger] split_on(s, '.')[i])
            && parsed_u64(split_on(s, '.')[i]) is Some
}

/// `c` may stand in an identifier: an ASCII letter or digit, or a hyphen.
pub open spec fn is_identifier_char(c: char) -> bool {
    is_digit(c) || 'a' <= c <= 'z' || 'A' <= c <= 'Z' || c == '-'
}

/// An identifier: one or more letters, digits and hyphens.
pub open spec fn is_identifier(s: Seq<char>) -> bool {
    s.len() > 0 && forall|i: int| 0 <= i < s.len() ==> is_identifier_char(#[trigger] s[i])
}

/// Every piece between the dots is an identifier.
pub open spec fn are_identifiers(s: Seq<char>) -> bool {
    forall|i: int|
        0 <= i < split_on(s, '.').len() ==> is_identifier(#[trigger] split_on(s, '.')[i])
}

/// An identifier of a pre-release: a number has no leading zeros.
pub open spec fn is_prerelease_identifier(s: Seq<char>) -> bool {
    is_identifier(s) && (is_number(s) ==> is_semver_number(s))
}

/// Every piece between the dots is an identifier of a pre-release.
pub open spec fn are_prerelease_identifiers(s: Seq<char>) -> bool {
    forall|i: int|
        0 <= i < split_on(s, '.').len() ==> is_prerelease_identifier(
            #[trigger] split_on(s, '.')[i],
        )
}

/// The core of a version: what stands before the build metadata and the pre-release.
pub open spec fn core_text(v: Seq<char>) -> Seq<char> {
    before_first(before_first(v, '+'), '-')
}

/// The text of the pre-release: what stands behind the first hyphen, before the build
/// metadata.
pub open spec fn prerelease_text(v: Seq<char>) -> Option<Seq<char>> {
    after_first(before_first(v, '+'), '-')
}

/// The build metadata: what stands behind the first plus sign.
pub open spec fn build_text(v: Seq<char>) -> Option<Seq<char>> {
    after_first(v, '+')
}

/// The text is a semantic version: up to three numbers between dots, then optionally a
/// hyphen and the identifiers of a pre-release, then optionally a plus sign and the
/// identifiers of the build. Numbers have no leading zeros, but for those of the build,
/// and those of the core fit a `u64`.
pub open spec fn is_semver(v: Seq<char>) -> bool {
    &&& is_core(core_text(v))
    &&& prerelease_text(v) matches Some(text) ==> are_prerelease_identifiers(text)
    &&& build_text(v) matches Some(text) ==> are_identifiers(text)
}

/// The numbers of a semantic version.
pub open spec fn numbers_of(v: Seq<char>) -> Seq<u64> {
    components(core_text(v))
}

/// The identifiers of the pre-release that a semantic version is; `None` for a release.
pub open spec fn prerelease_of(v: Seq<char>) -> Option<Seq<Seq<char>>> {
    match prerelease_text(v) {
        Some(text) => Some(split_on(text, '.')),
        None => None,
    }
}

/// The component at a position; a missing one counts as zero.
pub open spec fn component(v: Seq<u64>, i: int) -> u64 {
    if 0 <= i < v.len() {
        v[i]
    } else {
        0
    }
}

/// `a` and `b` agree on the first `n` components.
pub open spec fn agree_up_to(a: Seq<u64>, b: Seq<u64>, n: int) -> bool {
    forall|i: int| 0 <= i < n ==> #[trigger] component(a, i) == component(b, i)
}

/// `a` is the smaller: at the first component where they differ, it has the smaller
/// number.
pub open spec fn older(a: Seq<u64>, b: Seq<u64>) -> bool {
    exists|n: int| #[trigger] agree_up_to(a, b, n) && 0 <= n && component(a, n) < component(b, n)
}

/// `a` and `b` agree on every component.
pub open spec fn same_numbers(a: Seq<u64>, b: Seq<u64>) -> bool {
    forall|i: int| #[trigger] component(a, i) == component(b, i)
}

/// How two rows of numbers relate: `-1` for smaller, `1` for greater, `0` for the same.
pub open spec fn numbers_order(a: Seq<u64>, b: Seq<u64>) -> int {
    if older(a, b) {
        -1
    } else if older(b, a) {
        1
    } else {
        0
    }
}

/// How two numbers relate.
pub open spec fn number_order(a: int, b: int) -> int {
    if a < b {
        -1
    } else if a > b {
        1
    } else {
        0
    }
}

/// How two texts relate, character by character; a text comes before a longer one that
/// begins with it.
pub open spec fn text_order(a: Seq<char>, b: Seq<char>) -> int
    decreases a.len(),
{
    if a.len() == 0 || b.len() == 0 {
        number_order(a.len() as int, b.len() as int)
    } else if a[0] != b[0] {
        number_order(a[0] as int, b[0] as int)
    } else {
        text_order(a.skip(1), b.skip(1))
    }
}

/// How two identifiers relate: numbers by their value, numbers before texts, and texts
/// in the order of ASCII.
pub open spec fn identifier_order(a: Seq<char>, b: Seq<char>) -> int {
    if is_number(a) && is_number(b) {
        number_order(digits_value(a) as int, digits_value(b) as int)
    } else if is_number(a) {
        -1
    } else if is_number(b) {
        1
    } else {
        text_order(a, b)
    }
}

/// How two rows of identifiers relate: the first pair that differs decides, and a row
/// comes before a longer one that begins with it.
pub open spec fn identifiers_order(a: Seq<Seq<char>>, b: Seq<Seq<char>>) -> int
    decreases a.len(),
{
    if a.len() == 0 || b.len() == 0 {
        number_order(a.len() as int, b.len() as int)
    } else if identifier_order(a[0], b[0]) != 0 {
        identifier_order(a[0], b[0])
    } else {
        identifiers_order(a.skip(1), b.skip(1))
    }
}

/// How two pre-releases of one release relate. The release itself, `None`, comes after
/// all of them.
pub open spec fn prerelease_order(
    a: Option<Seq<Seq<char>>>,
    b: Option<Seq<Seq<char>>>,
) -> int {
    match (a, b) {
        (None, None) => 0,
        (None, Some(_)) => 1,
        (Some(_), None) => -1,
        (Some(x), Some(y)) => identifiers_order(x, y),
    }
}

/// How two semantic versions relate: the numbers decide, and where they agree, the
/// pre-releases do. Build metadata does not count.
pub open spec fn semver_order(a: Seq<char>, b: Seq<char>) -> int {
    if numbers_order(numbers_of(a), numbers_of(b)) != 0 {
        numbers_order(numbers_of(a), numbers_of(b))
    } else {
        prerelease_order(prerelease_of(a), prerelease_of(b))
    }
}

/// How version `a` relates to version `b`: `-1` for older, `1` for newer, `0` for the
/// same. Two semantic versions relate as such. Where one of the texts is none, the
/// numbers between the dots of both count.
pub open spec fn version_order(a: Seq<char>, b: Seq<char>) -> int {
    if is_semver(a) && is_semver(b) {
        semver_order(a, b)
    } else {
        numbers_order(components(a), components(b))
    }
}

/// The number that a text stands for as a `u64`.
pub fn parse_u64(s: &str) -> (r: Option<u64>)
    ensures
        r == parsed_u64(s@),
{
    let text = chars_of(s);
    let start: usize = if text.len() > 0 && text[0] == '+' {
        1
    } else {
        0
    };
    let ghost digits = without_plus(s@);
    assert(digits =~= s@.skip(start as int));
    if start == text.len() {
        return None;
    }
    let mut value: u64 = 0;
    let mut fits = true;
    let mut i: usize = start;
    assert(digits.take(0) =~= Seq::empty());
    while i < text.len()
        invariant
            start <= i <= text@.len(),
            text@ == s@,
            digits == s@.skip(start as int),
            digits == without_plus(s@),
            forall|k: int| 0 <= k < i - start ==> is_digit(#[trigger] digits[k]),
            fits ==> value == digits_value(digits.take(i - start)),
            !fits ==> digits_value(digits.take(i - start)) > u64::MAX,
        decreases text@.len() - i,
    {
        let c = text[i];
        let ghost k = i - start;
        assert(digits[k] == c);
        if c < '0' || c > '9' {
            assert(!is_digit(digits[k]));
            return None;
        }
        proof {
            assert(digits.take(k + 1).drop_last() =~= digits.take(k));
            assert(digits.take(k + 1).last() == c);
        }
        let d: u64 = (c as u32 - '0' as u32) as u64;
        if fits {
            match value.checked_mul(10) {
                Some(tens) => match tens.checked_add(d) {
                    Some(next) => {
                        value = next;
                    },
                    None => {
                        fits = false;
                    },
                },
                None => {
                    fits = false;
                },
            }
        }
        i = i + 1;
    }
    assert(digits.take(digits.len() as int) =~= digits);
    if fits {
        Some(value)
    } else {
        None
    }
}

/// The first place of `c` is where it stands and does not stand before.
proof fn lemma_first_at(s: Seq<char>, c: char)
    ensures
        0 <= first_at(s, c) <= s.len(),
        forall|i: int| 0 <= i < first_at(s, c) ==> s[i] != c,
        first_at(s, c) < s.len() ==> s[first_at(s, c)] == c,
    decreases s.len(),
{
    if s.len() > 0 && s[0] != c {
        let rest = s.skip(1);
        lemma_first_at(rest, c);
        assert forall|i: int| 0 <= i < first_at(s, c) implies s[i] != c by {
            if i > 0 {
                assert(rest[i - 1] == s[i]);
            }
        }
    }
}

/// There is only one such place.
proof fn lemma_first_at_is(s: Seq<char>, c: char, n: int)
    requires
        0 <= n <= s.len(),
        forall|i: int| 0 <= i < n ==> s[i] != c,
        n < s.len() ==> s[n] == c,
    ensures
        first_at(s, c) == n,
{
    lemma_first_at(s, c);
}

/// The text before the first `c`, and the text behind it where there is one.
fn cut(s: &str, c: char) -> (r: (&str, Option<&str>))
    ensures
        r.0@ == before_first(s@, c),
        r.1.deep_view() == after_first(s@, c),
{
    let text = chars_of(s);
    let mut i: usize = 0;
    while i < text.len() && text[i] != c
        invariant
            i <= text@.len(),
            text@ == s@,
            forall|k: int| 0 <= k < i ==> s@[k] != c,
        decreases text@.len() - i,
    {
        i = i + 1;
    }
    proof {
        lemma_first_at_is(s@, c, i as int);
        assert(s@.subrange(0, i as int) =~= s@.take(i as int));
    }
    let head = s.substring_char(0, i);
    if i < text.len() {
        let tail = s.substring_char(i + 1, text.len());
        assert(tail@ =~= s@.skip(i + 1));
        (head, Some(tail))
    } else {
        (head, None)
    }
}

/// The numbers that stand between the dots of a text.
pub fn parse_version(text: &str) -> (r: Vec<u64>)
    ensures
        r@ == components(text@),
{
    let pieces = split(text, '.');
    let mut numbers: Vec<u64> = Vec::new();
    let mut i: usize = 0;
    let ghost all = pieces.deep_view();
    assert(all.take(0) =~= Seq::empty());
    while i < pieces.len()
        invariant
            i <= pieces@.len(),
            all == pieces.deep_view(),
            numbers@ == numbers_in(all.take(i as int)),
        decreases pieces@.len() - i,
    {
        proof {
            assert(all.take(i + 1).drop_last() =~= all.take(i as int));
            assert(all.take(i + 1).last() == pieces@[i as int]@);
        }
        if let Some(n) = parse_u64(pieces[i].as_str()) {
            numbers.push(n);
        }
        i = i + 1;
    }
    assert(all.take(all.len() as int) =~= all);
    numbers
}

/// Whether the text is of digits alone.
fn check_number(text: &Vec<char>) -> (r: bool)
    ensures
        r == is_number(text@),
{
    if text.len() == 0 {
        return false;
    }
    let mut i: usize = 0;
    while i < text.len()
        invariant
            i <= text@.len(),
            forall|k: int| 0 <= k < i ==> is_digit(#[trigger] text@[k]),
        decreases text@.len() - i,
    {
        if text[i] < '0' || text[i] > '9' {
            assert(!is_digit(text@[i as int]));
            return false;
        }
        i = i + 1;
    }
    true
}

/// Whether the text is a number as semantic versions write it.
fn check_semver_number(text: &Vec<char>) -> (r: bool)
    ensures
        r == is_semver_number(text@),
{
    check_number(text) && (text.len() == 1 || text[0] != '0')
}

/// Whether the text is the core of a semantic version.
fn check_core(text: &str) -> (r: bool)
    ensures
        r == is_core(text@),
{
    let pieces = split(text, '.');
    if pieces.len() > 3 {
        return false;
    }
    let ghost all = pieces.deep_view();
    let mut i: usize = 0;
    while i < pieces.len()
        invariant
            i <= pieces@.len(),
            pieces@.len() <= 3,
            all == pieces.deep_view(),
            all == split_on(text@, '.'),
            forall|k: int|
                0 <= k < i ==> is_semver_number(#[trigger] all[k]) && parsed_u64(all[k]) is Some,
        decreases pieces@.len() - i,
    {
        assert(all[i as int] == pieces@[i as int]@);
        let piece = pieces[i].as_str();
        if !check_semver_number(&chars_of(piece)) || parse_u64(piece).is_none() {
            assert(!is_core(text@));
            return false;
        }
        i = i + 1;
    }
    true
}

/// Whether the text is an identifier.
fn check_identifier(text: &str) -> (r: bool)
    ensures
        r == is_identifier(text@),
{
    let chars = chars_of(text);
    if chars.len() == 0 {
        return false;
    }
    let mut i: usize = 0;
    while i < chars.len()
        invariant
            i <= chars@.len(),
            chars@ == text@,
            forall|k: int| 0 <= k < i ==> is_identifier_char(#[trigger] text@[k]),
        decreases chars@.len() - i,
    {
        let c = chars[i];
        let fits = ('0' <= c && c <= '9') || ('a' <= c && c <= 'z') || ('A' <= c && c <= 'Z') || c
            == '-';
        if !fits {
            assert(!is_identifier_char(text@[i as int]));
            return false;
        }
        i = i + 1;
    }
    true
}

/// The pieces between the dots, where every one of them is an identifier.
fn parse_identifiers(text: &str) -> (r: Option<Vec<String>>)
    ensures
        match r {
            Some(list) => are_identifiers(text@) && list.deep_view() == split_on(text@, '.'),
            None => !are_identifiers(text@),
        },
{
    let pieces = split(text, '.');
    let ghost all = pieces.deep_view();
    let mut i: usize = 0;
    while i < pieces.len()
        invariant
            i <= pieces@.len(),
            all == pieces.deep_view(),
            all == split_on(text@, '.'),
            forall|k: int| 0 <= k < i ==> is_identifier(#[trigger] all[k]),
        decreases pieces@.len() - i,
    {
        assert(all[i as int] == pieces@[i as int]@);
        if !check_identifier(pieces[i].as_str()) {
            assert(!is_identifier(split_on(text@, '.')[i as int]));
            return None;
        }
        i = i + 1;
    }
    Some(pieces)
}

/// Whether the identifiers are such as a pre-release may have.
fn check_prerelease(identifiers: &Vec<String>) -> (r: bool)
    ensures
        r == (forall|i: int|
            0 <= i < identifiers.deep_view().len() ==> (is_number(
                #[trigger] identifiers.deep_view()[i],
            ) ==> is_semver_number(identifiers.deep_view()[i]))),
{
    let ghost all = identifiers.deep_view();
    let mut i: usize = 0;
    while i < identifiers.len()
        invariant
            i <= identifiers@.len(),
            all == identifiers.deep_view(),
            forall|k: int|
                0 <= k < i ==> (is_number(#[trigger] all[k]) ==> is_semver_number(all[k])),
        decreases identifiers@.len() - i,
    {
        assert(all[i as int] == identifiers@[i as int]@);
        let text = chars_of(identifiers[i].as_str());
        if check_number(&text) && !check_semver_number(&text) {
            return false;
        }
        i = i + 1;
    }
    true
}

/// The pieces between the dots, where every one of them is an identifier of a
/// pre-release.
fn parse_prerelease(text: &str) -> (r: Option<Vec<String>>)
    ensures
        match r {
            Some(list) => are_prerelease_identifiers(text@) && list.deep_view() == split_on(
                text@,
                '.',
            ),
            None => !are_prerelease_identifiers(text@),
        },
{
    let ghost all = split_on(text@, '.');
    let identifiers = match parse_identifiers(text) {
        Some(identifiers) => identifiers,
        None => {
            proof {
                if are_prerelease_identifiers(text@) {
                    assert forall|i: int| 0 <= i < all.len() implies is_identifier(
                        #[trigger] all[i],
                    ) by {
                        assert(is_prerelease_identifier(all[i]));
                    }
                }
            }
            return None;
        },
    };
    if check_prerelease(&identifiers) {
        assert forall|i: int| 0 <= i < all.len() implies is_prerelease_identifier(
            #[trigger] all[i],
        ) by {
            assert(is_identifier(all[i]));
        }
        Some(identifiers)
    } else {
        proof {
            let i = choose|i: int|
                0 <= i < all.len() && is_number(#[trigger] all[i]) && !is_semver_number(all[i]);
            assert(!is_prerelease_identifier(all[i]));
        }
        None
    }
}

/// A semantic version, taken apart. Build metadata is left out.
#[derive(Debug)]
pub struct Version {
    pub numbers: Vec<u64>,
    /// The identifiers of the pre-release that it is, if it is one.
    pub prerelease: Option<Vec<String>>,
}

/// Takes a semantic version apart. Any other text is none.
pub fn parse_semver(text: &str) -> (r: Option<Version>)
    ensures
        match r {
            Some(version) => is_semver(text@) && version.numbers@ == numbers_of(text@)
                && version.prerelease.deep_view() == prerelease_of(text@),
            None => !is_semver(text@),
        },
{
    let (main, build) = cut(text, '+');
    let (core, prerelease) = cut(main, '-');
    if !check_core(core) {
        return None;
    }
    if let Some(build) = build {
        if parse_identifiers(build).is_none() {
            return None;
        }
    }
    let numbers = parse_version(core);
    match prerelease {
        Some(prerelease) => match parse_prerelease(prerelease) {
            Some(identifiers) => Some(Version { numbers, prerelease: Some(identifiers) }),
            None => None,
        },
        None => Some(Version { numbers, prerelease: None }),
    }
}

/// How two rows of numbers relate.
fn compare_numbers(va: &Vec<u64>, vb: &Vec<u64>) -> (r: i8)
    ensures
        r == numbers_order(va@, vb@),
        r == 0 <==> same_numbers(va@, vb@),
{
    let ghost ca = va@;
    let ghost cb = vb@;
    let len: usize = if va.len() < vb.len() {
        vb.len()
    } else {
        va.len()
    };
    let mut i: usize = 0;
    while i < len
        invariant
            i <= len,
            va@ == ca,
            vb@ == cb,
            ca.len() <= len && cb.len() <= len,
            agree_up_to(ca, cb, i as int),
        decreases len - i,
    {
        let pa: u64 = if i < va.len() {
            va[i]
        } else {
            0
        };
        let pb: u64 = if i < vb.len() {
            vb[i]
        } else {
            0
        };
        assert(pa == component(ca, i as int) && pb == component(cb, i as int));
        if pa < pb {
            return -1;
        }
        if pa > pb {
            proof {
                assert(agree_up_to(cb, ca, i as int));
                lemma_older_excludes(cb, ca);
            }
            return 1;
        }
        i = i + 1;
    }
    assert(same_numbers(ca, cb)) by {
        assert forall|k: int| #[trigger] component(ca, k) == component(cb, k) by {
            if 0 <= k < len {
                assert(agree_up_to(ca, cb, i as int));
            }
        }
    }
    0
}

/// How two texts relate.
fn compare_texts(a: &Vec<char>, b: &Vec<char>) -> (r: i8)
    ensures
        r == text_order(a@, b@),
{
    let mut i: usize = 0;
    assert(a@.skip(0) =~= a@ && b@.skip(0) =~= b@);
    while i < a.len() && i < b.len()
        invariant
            i <= a@.len(),
            i <= b@.len(),
            text_order(a@, b@) == text_order(a@.skip(i as int), b@.skip(i as int)),
        decreases a@.len() - i,
    {
        if a[i] != b[i] {
            return if a[i] < b[i] {
                -1
            } else {
                1
            };
        }
        proof {
            assert(a@.skip(i as int).skip(1) =~= a@.skip(i + 1));
            assert(b@.skip(i as int).skip(1) =~= b@.skip(i + 1));
        }
        i = i + 1;
    }
    if i < b.len() {
        -1
    } else if i < a.len() {
        1
    } else {
        0
    }
}

/// What the first `i` of `len` places stand for, where the digits fill the last places
/// and zeros the ones before.
spec fn leading_value(digits: Seq<char>, len: int, i: int) -> nat {
    if i <= len - digits.len() {
        0
    } else {
        digits_value(digits.take(i - (len - digits.len())))
    }
}

/// One place more.
proof fn lemma_leading_value(digits: Seq<char>, len: int, i: int)
    requires
        0 <= i < len,
        digits.len() <= len,
    ensures
        i < len - digits.len() ==> leading_value(digits, len, i + 1) == 0 && leading_value(
            digits,
            len,
            i,
        ) == 0,
        i >= len - digits.len() ==> leading_value(digits, len, i + 1) == leading_value(
            digits,
            len,
            i,
        ) * 10 + (digits[i - (len - digits.len())] as nat - '0' as nat) as nat,
{
    let k = i - (len - digits.len());
    if k >= 0 {
        assert(digits.take(k + 1).drop_last() =~= digits.take(k));
        assert(digits.take(k + 1).last() == digits[k]);
        assert(digits_value(digits.take(k + 1)) == digits_value(digits.take(k)) * 10 + (digits[k]
            as nat - '0' as nat) as nat);
        if k == 0 {
            assert(digits.take(0) =~= Seq::empty());
            assert(digits_value(digits.take(0)) == 0);
        }
    }
}

/// The digit at a place, where the digits fill the last of `len` places.
fn digit_at(digits: &Vec<char>, len: usize, i: usize) -> (r: u32)
    requires
        i < len,
        digits@.len() <= len,
        is_number(digits@),
    ensures
        r <= 9,
        leading_value(digits@, len as int, i + 1) == leading_value(digits@, len as int, i as int)
            * 10 + r,
{
    proof {
        lemma_leading_value(digits@, len as int, i as int);
    }
    let pad: usize = len - digits.len();
    if i < pad {
        0
    } else {
        let c = digits[i - pad];
        assert(is_digit(digits@[i - pad]));
        c as u32 - '0' as u32
    }
}

/// How the values of two runs of digits relate, however long they are.
fn compare_values(a: &Vec<char>, b: &Vec<char>) -> (r: i8)
    requires
        is_number(a@),
        is_number(b@),
    ensures
        r == number_order(digits_value(a@) as int, digits_value(b@) as int),
{
    let len: usize = if a.len() < b.len() {
        b.len()
    } else {
        a.len()
    };
    let mut r: i8 = 0;
    let mut i: usize = 0;
    while i < len
        invariant
            i <= len,
            a@.len() <= len,
            b@.len() <= len,
            is_number(a@),
            is_number(b@),
            r == number_order(
                leading_value(a@, len as int, i as int) as int,
                leading_value(b@, len as int, i as int) as int,
            ),
        decreases len - i,
    {
        let da = digit_at(a, len, i);
        let db = digit_at(b, len, i);
        if r == 0 {
            r = if da < db {
                -1
            } else if da > db {
                1
            } else {
                0
            };
        }
        i = i + 1;
    }
    proof {
        assert(a@.take(a@.len() as int) =~= a@);
        assert(b@.take(b@.len() as int) =~= b@);
    }
    r
}

/// How two identifiers relate.
fn compare_identifiers(a: &str, b: &str) -> (r: i8)
    ensures
        r == identifier_order(a@, b@),
{
    let ca = chars_of(a);
    let cb = chars_of(b);
    let na = check_number(&ca);
    let nb = check_number(&cb);
    if na && nb {
        compare_values(&ca, &cb)
    } else if na {
        -1
    } else if nb {
        1
    } else {
        compare_texts(&ca, &cb)
    }
}

/// How two rows of identifiers relate.
fn compare_rows(a: &Vec<String>, b: &Vec<String>) -> (r: i8)
    ensures
        r == identifiers_order(a.deep_view(), b.deep_view()),
{
    let ghost x = a.deep_view();
    let ghost y = b.deep_view();
    let mut i: usize = 0;
    assert(x.skip(0) =~= x && y.skip(0) =~= y);
    while i < a.len() && i < b.len()
        invariant
            i <= a@.len(),
            i <= b@.len(),
            x == a.deep_view(),
            y == b.deep_view(),
            identifiers_order(x, y) == identifiers_order(x.skip(i as int), y.skip(i as int)),
        decreases a@.len() - i,
    {
        assert(x.skip(i as int)[0] == a@[i as int]@ && y.skip(i as int)[0] == b@[i as int]@);
        let order = compare_identifiers(a[i].as_str(), b[i].as_str());
        if order != 0 {
            return order;
        }
        proof {
            assert(x.skip(i as int).skip(1) =~= x.skip(i + 1));
            assert(y.skip(i as int).skip(1) =~= y.skip(i + 1));
        }
        i = i + 1;
    }
    if i < b.len() {
        -1
    } else if i < a.len() {
        1
    } else {
        0
    }
}

/// How two semantic versions relate.
fn compare_semver(a: &Version, b: &Version) -> (r: i8)
    ensures
        r == (if numbers_order(a.numbers@, b.numbers@) != 0 {
            numbers_order(a.numbers@, b.numbers@)
        } else {
            prerelease_order(a.prerelease.deep_view(), b.prerelease.deep_view())
        }),
{
    let order = compare_numbers(&a.numbers, &b.numbers);
    if order != 0 {
        return order;
    }
    match (&a.prerelease, &b.prerelease) {
        (None, None) => 0,
        (None, Some(_)) => 1,
        (Some(_), None) => -1,
        (Some(x), Some(y)) => compare_rows(x, y),
    }
}

/// Compares two semver version strings such as `2.2.3` or `2.3.0-beta.1`: `-1` if `a` is
/// older than `b`, `1` if it is newer, `0` if they are the same. A version with missing
/// parts is treated as if they were zero: `2.2` is `2.2.0`. A pre-release is older than
/// its release. Where one of the texts is no semantic version, the numbers between the
/// dots of both are compared, and pieces that are no number do not count.
pub fn compare_versions(a: &str, b: &str) -> (r: i8)
    ensures
        r == version_order(a@, b@),
{
    match (parse_semver(a), parse_semver(b)) {
        (Some(va), Some(vb)) => compare_semver(&va, &vb),
        _ => compare_numbers(&parse_version(a), &parse_version(b)),
    }
}

/// Of two rows of numbers at most one is smaller than the other, and neither where they
/// are the same.
proof fn lemma_older_excludes(a: Seq<u64>, b: Seq<u64>)
    requires
        older(a, b),
    ensures
        !older(b, a),
        !same_numbers(a, b),
{
    let n = choose|n: int| #[trigger]
        agree_up_to(a, b, n) && 0 <= n && component(a, n) < component(b, n);
    if older(b, a) {
        let m = choose|m: int| #[trigger]
            agree_up_to(b, a, m) && 0 <= m && component(b, m) < component(a, m);
        if m < n {
            assert(component(a, m) == component(b, m));
        } else if n < m {
            assert(component(b, n) == component(a, n));
        }
    }
}

/// Two rows of numbers of which neither is smaller agree on the first `n` components.
proof fn lemma_neither_older(a: Seq<u64>, b: Seq<u64>, n: int)
    requires
        !older(a, b),
        !older(b, a),
        0 <= n,
    ensures
        agree_up_to(a, b, n),
    decreases n,
{
    if n > 0 {
        lemma_neither_older(a, b, n - 1);
        assert(agree_up_to(b, a, n - 1));
    }
}

/// The order of rows of numbers, turned round.
proof fn lemma_numbers_antisymmetric(a: Seq<u64>, b: Seq<u64>)
    ensures
        numbers_order(a, b) == -numbers_order(b, a),
{
    if older(a, b) {
        lemma_older_excludes(a, b);
    } else if older(b, a) {
        lemma_older_excludes(b, a);
    }
}

/// Equal rows of numbers are neither smaller nor greater.
proof fn lemma_same_numbers(a: Seq<u64>, b: Seq<u64>)
    requires
        same_numbers(a, b),
    ensures
        numbers_order(a, b) == 0,
{
    if older(a, b) {
        lemma_older_excludes(a, b);
    }
    if older(b, a) {
        lemma_older_excludes(b, a);
        assert(same_numbers(b, a));
    }
}

/// The order of rows of numbers is transitive.
proof fn lemma_numbers_transitive(x: Seq<u64>, y: Seq<u64>, z: Seq<u64>)
    requires
        numbers_order(x, y) <= 0,
        numbers_order(y, z) <= 0,
    ensures
        numbers_order(x, z) <= 0,
        numbers_order(x, z) == 0 <==> numbers_order(x, y) == 0 && numbers_order(y, z) == 0,
{
    if older(x, y) && older(y, z) {
        let n = choose|n: int| #[trigger]
            agree_up_to(x, y, n) && 0 <= n && component(x, n) < component(y, n);
        let m = choose|m: int| #[trigger]
            agree_up_to(y, z, m) && 0 <= m && component(y, m) < component(z, m);
        let k = if n < m {
            n
        } else {
            m
        };
        assert forall|i: int| 0 <= i < k implies #[trigger] component(x, i) == component(z, i) by {
            assert(component(x, i) == component(y, i));
            assert(component(y, i) == component(z, i));
        }
        if n < m {
            assert(component(y, n) == component(z, n));
        } else if m < n {
            assert(component(x, m) == component(y, m));
        }
        assert(agree_up_to(x, z, k));
        assert(older(x, z));
    } else if older(x, y) {
        let n = choose|n: int| #[trigger]
            agree_up_to(x, y, n) && 0 <= n && component(x, n) < component(y, n);
        lemma_neither_older(y, z, n + 1);
        assert forall|i: int| 0 <= i < n implies #[trigger] component(x, i) == component(z, i) by {
            assert(component(x, i) == component(y, i));
            assert(component(y, i) == component(z, i));
        }
        assert(component(y, n) == component(z, n));
        assert(agree_up_to(x, z, n));
        assert(older(x, z));
    } else if older(y, z) {
        let m = choose|m: int| #[trigger]
            agree_up_to(y, z, m) && 0 <= m && component(y, m) < component(z, m);
        lemma_neither_older(x, y, m + 1);
        assert forall|i: int| 0 <= i < m implies #[trigger] component(x, i) == component(z, i) by {
            assert(component(x, i) == component(y, i));
            assert(component(y, i) == component(z, i));
        }
        assert(component(x, m) == component(y, m));
        assert(agree_up_to(x, z, m));
        assert(older(x, z));
    } else {
        assert forall|i: int| #[trigger] component(x, i) == component(z, i) by {
            if i >= 0 {
                lemma_neither_older(x, y, i + 1);
                lemma_neither_older(y, z, i + 1);
                assert(component(x, i) == component(y, i));
                assert(component(y, i) == component(z, i));
            }
        }
        lemma_same_numbers(x, z);
    }
}

/// The order of texts, turned round, and on equal texts.
proof fn lemma_text_antisymmetric(a: Seq<char>, b: Seq<char>)
    ensures
        text_order(a, b) == -text_order(b, a),
        text_order(a, b) == 0 <==> a == b,
        -1 <= text_order(a, b) <= 1,
    decreases a.len(),
{
    if a.len() > 0 && b.len() > 0 && a[0] == b[0] {
        lemma_text_antisymmetric(a.skip(1), b.skip(1));
        assert(a =~= seq![a[0]] + a.skip(1));
        assert(b =~= seq![b[0]] + b.skip(1));
    } else if a.len() == 0 && b.len() == 0 {
        assert(a =~= b);
    }
}

/// The order of texts is transitive.
proof fn lemma_text_transitive(a: Seq<char>, b: Seq<char>, c: Seq<char>)
    requires
        text_order(a, b) <= 0,
        text_order(b, c) <= 0,
    ensures
        text_order(a, c) <= 0,
        text_order(a, c) == 0 <==> text_order(a, b) == 0 && text_order(b, c) == 0,
    decreases a.len(),
{
    lemma_text_antisymmetric(a, b);
    lemma_text_antisymmetric(b, c);
    lemma_text_antisymmetric(a, c);
    if a.len() > 0 && b.len() > 0 && c.len() > 0 && a[0] == b[0] && b[0] == c[0] {
        lemma_text_transitive(a.skip(1), b.skip(1), c.skip(1));
    }
}

/// The order of identifiers, turned round.
proof fn lemma_identifier_antisymmetric(a: Seq<char>, b: Seq<char>)
    ensures
        identifier_order(a, b) == -identifier_order(b, a),
        identifier_order(a, a) == 0,
{
    lemma_text_antisymmetric(a, b);
    lemma_text_antisymmetric(a, a);
}

/// The order of identifiers is transitive.
proof fn lemma_identifier_transitive(a: Seq<char>, b: Seq<char>, c: Seq<char>)
    requires
        identifier_order(a, b) <= 0,
        identifier_order(b, c) <= 0,
    ensures
        identifier_order(a, c) <= 0,
        identifier_order(a, c) == 0 <==> identifier_order(a, b) == 0 && identifier_order(b, c) == 0,
{
    if !is_number(a) && !is_number(b) && !is_number(c) {
        lemma_text_transitive(a, b, c);
    }
}

/// The order of rows of identifiers, turned round.
proof fn lemma_identifiers_antisymmetric(a: Seq<Seq<char>>, b: Seq<Seq<char>>)
    ensures
        identifiers_order(a, b) == -identifiers_order(b, a),
    decreases a.len(),
{
    if a.len() > 0 && b.len() > 0 {
        lemma_identifier_antisymmetric(a[0], b[0]);
        lemma_identifiers_antisymmetric(a.skip(1), b.skip(1));
    }
}

/// A row of identifiers is the same as itself.
proof fn lemma_identifiers_reflexive(a: Seq<Seq<char>>)
    ensures
        identifiers_order(a, a) == 0,
    decreases a.len(),
{
    if a.len() > 0 {
        lemma_identifier_antisymmetric(a[0], a[0]);
        lemma_identifiers_reflexive(a.skip(1));
    }
}

/// The order of rows of identifiers is transitive.
proof fn lemma_identifiers_transitive(
    a: Seq<Seq<char>>,
    b: Seq<Seq<char>>,
    c: Seq<Seq<char>>,
)
    requires
        identifiers_order(a, b) <= 0,
        identifiers_order(b, c) <= 0,
    ensures
        identifiers_order(a, c) <= 0,
        identifiers_order(a, c) == 0 <==> identifiers_order(a, b) == 0 && identifiers_order(b, c)
            == 0,
    decreases a.len(),
{
    if a.len() > 0 && b.len() > 0 && c.len() > 0 {
        lemma_identifier_transitive(a[0], b[0], c[0]);
        if identifier_order(a[0], b[0]) == 0 && identifier_order(b[0], c[0]) == 0 {
            lemma_identifiers_transitive(a.skip(1), b.skip(1), c.skip(1));
        }
    }
}

/// Comparing the other way round gives the opposite answer.
pub proof fn version_order_is_antisymmetric(a: Seq<char>, b: Seq<char>)
    ensures
        version_order(a, b) == -version_order(b, a),
{
    lemma_numbers_antisymmetric(components(a), components(b));
    lemma_numbers_antisymmetric(numbers_of(a), numbers_of(b));
    if let (Some(x), Some(y)) = (prerelease_of(a), prerelease_of(b)) {
        lemma_identifiers_antisymmetric(x, y);
    }
}

/// A version is neither older nor newer than itself.
pub proof fn version_order_is_reflexive(a: Seq<char>)
    ensures
        version_order(a, a) == 0,
{
    lemma_same_numbers(components(a), components(a));
    lemma_same_numbers(numbers_of(a), numbers_of(a));
    if let Some(x) = prerelease_of(a) {
        lemma_identifiers_reflexive(x);
    }
}

/// The text says the same as a semantic version and as numbers between dots, or is no
/// semantic version: it is no pre-release, and build metadata hides none of its numbers.
pub open spec fn reads_alike(v: Seq<char>) -> bool {
    is_semver(v) ==> prerelease_of(v) is None && same_numbers(numbers_of(v), components(v))
}

/// Rows of numbers that are the same relate alike to any other.
proof fn lemma_same_numbers_relate_alike(a: Seq<u64>, b: Seq<u64>, c: Seq<u64>)
    requires
        same_numbers(a, b),
    ensures
        numbers_order(a, c) == numbers_order(b, c),
        numbers_order(c, a) == numbers_order(c, b),
{
    assert forall|n: int|
        #![trigger agree_up_to(a, c, n)]
        #![trigger agree_up_to(b, c, n)]
        agree_up_to(a, c, n) == agree_up_to(b, c, n) by {
        assert(forall|i: int| #[trigger] component(b, i) == component(a, i));
    }
    assert forall|n: int|
        #![trigger agree_up_to(c, a, n)]
        #![trigger agree_up_to(c, b, n)]
        agree_up_to(c, a, n) == agree_up_to(c, b, n) by {
        assert(forall|i: int| #[trigger] component(b, i) == component(a, i));
    }
}

/// Texts that read alike relate by the numbers between their dots.
proof fn lemma_alike_order(a: Seq<char>, b: Seq<char>)
    requires
        reads_alike(a),
        reads_alike(b),
    ensures
        version_order(a, b) == numbers_order(components(a), components(b)),
{
    if is_semver(a) && is_semver(b) {
        lemma_same_numbers_relate_alike(numbers_of(a), components(a), numbers_of(b));
        lemma_same_numbers_relate_alike(numbers_of(b), components(b), components(a));
    }
}

/// Without a pre-release and build metadata the core is the whole text, and reads alike.
pub proof fn bare_texts_read_alike(v: Seq<char>)
    requires
        prerelease_text(v) is None,
        build_text(v) is None,
    ensures
        core_text(v) == v,
        reads_alike(v),
{
    lemma_first_at(v, '+');
    assert(before_first(v, '+') =~= v);
    lemma_first_at(v, '-');
    assert(before_first(v, '-') =~= v);
}

/// The order of versions is transitive: what is no newer than a version that is
/// no newer than a third is no newer than the third, and older than it as soon
/// as one of the two steps is. The three are semantic versions, or texts that read alike;
/// a pre-release and a text that is no semantic version have no common order.
pub proof fn version_order_is_transitive(a: Seq<char>, b: Seq<char>, c: Seq<char>)
    requires
        is_semver(a) && is_semver(b) && is_semver(c) || reads_alike(a) && reads_alike(b)
            && reads_alike(c),
        version_order(a, b) <= 0,
        version_order(b, c) <= 0,
    ensures
        version_order(a, c) <= 0,
        version_order(a, c) == 0 <==> version_order(a, b) == 0 && version_order(b, c) == 0,
{
    if is_semver(a) && is_semver(b) && is_semver(c) {
        lemma_numbers_transitive(numbers_of(a), numbers_of(b), numbers_of(c));
        if let (Some(x), Some(y), Some(z)) = (prerelease_of(a), prerelease_of(b), prerelease_of(c))
        {
            if identifiers_order(x, y) <= 0 && identifiers_order(y, z) <= 0 {
                lemma_identifiers_transitive(x, y, z);
            }
        }
    } else {
        lemma_alike_order(a, b);
        lemma_alike_order(b, c);
        lemma_alike_order(a, c);
        lemma_numbers_transitive(components(a), components(b), components(c));
    }
}

/// What follows a separator is a piece of its own: splitting a text, a separator and a
/// second text without one gives the pieces of the first and the second as the last.
proof fn lemma_split_push(s: Seq<char>, tail: Seq<char>, sep: char)
    requires
        !tail.contains(sep),
    ensures
        split_on(s + seq![sep] + tail, sep) == split_on(s, sep).push(tail),
    decreases tail.len(),
{
    let whole = s + seq![sep] + tail;
    if tail.len() == 0 {
        assert(whole =~= s.push(sep));
        assert(whole.drop_last() =~= s);
        assert(tail =~= Seq::empty());
    } else {
        let init = tail.drop_last();
        assert(!init.contains(sep)) by {
            if init.contains(sep) {
                let k = choose|k: int| 0 <= k < init.len() && init[k] == sep;
                assert(tail[k] == sep);
            }
        }
        lemma_split_push(s, init, sep);
        assert(whole.drop_last() =~= s + seq![sep] + init);
        assert(tail[tail.len() - 1] != sep);
        assert(init.push(tail.last()) =~= tail);
        assert(split_on(whole, sep) =~= split_on(s, sep).push(tail));
    }
}

/// A text that ends in `.0` has the numbers of the text before and a zero.
proof fn lemma_dot_zero(s: Seq<char>)
    ensures
        components(s + seq!['.', '0']) == components(s).push(0),
{
    let zero = seq!['0'];
    let longer = s + seq!['.', '0'];
    assert(!zero.contains('.'));
    lemma_split_push(s, zero, '.');
    assert(longer =~= s + seq!['.'] + zero);
    assert(split_on(longer, '.').drop_last() =~= split_on(s, '.'));
    assert(without_plus(zero) == zero);
    assert(zero.drop_last() =~= Seq::empty());
    assert(digits_value(zero.drop_last()) == 0);
    assert(digits_value(zero) == 0);
    assert(parsed_u64(zero) == Some(0u64));
}

/// Where the character does not stand in what is appended, the text before its first
/// place and behind it grow at their ends.
proof fn lemma_cut_appended(s: Seq<char>, tail: Seq<char>, c: char)
    requires
        !tail.contains(c),
    ensures
        match after_first(s, c) {
            Some(rest) => before_first(s + tail, c) == before_first(s, c) && after_first(
                s + tail,
                c,
            ) == Some(rest + tail),
            None => before_first(s, c) == s && before_first(s + tail, c) == s + tail
                && after_first(s + tail, c) is None,
        },
{
    lemma_first_at(s, c);
    let n = first_at(s, c);
    let whole = s + tail;
    if n < s.len() {
        lemma_first_at_is(whole, c, n);
        assert(whole.take(n) =~= s.take(n));
        assert(whole.skip(n + 1) =~= s.skip(n + 1) + tail);
    } else {
        assert forall|i: int| 0 <= i < whole.len() implies whole[i] != c by {
            if i >= s.len() {
                assert(whole[i] == tail[i - s.len()]);
            }
        }
        lemma_first_at_is(whole, c, whole.len() as int);
        assert(whole.take(whole.len() as int) =~= whole);
        assert(s.take(n) =~= s);
    }
}

/// Where the character does not stand in the text, and is appended with more, it is
/// where the text is cut.
proof fn lemma_cut_at(s: Seq<char>, c: char, tail: Seq<char>)
    requires
        !s.contains(c),
    ensures
        before_first(s + seq![c] + tail, c) == s,
        after_first(s + seq![c] + tail, c) == Some(tail),
{
    let whole = s + seq![c] + tail;
    assert forall|i: int| 0 <= i < s.len() implies whole[i] != c by {
        assert(whole[i] == s[i]);
    }
    lemma_first_at_is(whole, c, s.len() as int);
    assert(whole.take(s.len() as int) =~= s);
    assert(whole.skip(s.len() as int + 1) =~= tail);
}

/// A character that is not in a text is not before its cut either, and cutting at it
/// leaves the text whole.
proof fn lemma_cut_absent(s: Seq<char>, c: char)
    requires
        !s.contains(c),
    ensures
        before_first(s, c) == s,
        after_first(s, c) is None,
{
    lemma_first_at(s, c);
    if first_at(s, c) < s.len() {
        assert(s[first_at(s, c)] == c);
    }
    assert(s.take(s.len() as int) =~= s);
}

/// Missing parts count as zero: a text that is no pre-release of a semantic version is
/// the same version with `.0` appended.
pub proof fn trailing_zero_is_the_same_version(a: Seq<char>)
    requires
        is_semver(a) ==> prerelease_of(a) is None,
    ensures
        version_order(a, a + seq!['.', '0']) == 0,
{
    let tail = seq!['.', '0'];
    let longer = a + tail;
    assert(!tail.contains('+') && !tail.contains('-'));
    lemma_cut_appended(a, tail, '+');
    lemma_dot_zero(a);
    if is_semver(a) && is_semver(longer) {
        if build_text(a) is None {
            lemma_cut_appended(a, tail, '-');
            lemma_dot_zero(core_text(a));
        }
        let (x, y) = (numbers_of(a), numbers_of(longer));
        assert(y == x || y == x.push(0));
        assert(same_numbers(x, y));
        lemma_same_numbers(x, y);
    } else {
        let (x, y) = (components(a), components(longer));
        assert(same_numbers(x, y));
        lemma_same_numbers(x, y);
    }
}

/// The pieces of a text hold what the text holds.
proof fn lemma_piece_chars(s: Seq<char>, sep: char, c: char)
    requires
        s.contains(c),
        c != sep,
    ensures
        exists|i: int| 0 <= i < split_on(s, sep).len() && #[trigger] split_on(s, sep)[i].contains(c),
    decreases s.len(),
{
    split_pieces_join_back(s.drop_last(), sep);
    let before = split_on(s.drop_last(), sep);
    let pieces = split_on(s, sep);
    if s.last() == c {
        assert(pieces.last().last() == c);
        assert(pieces[pieces.len() - 1].contains(c));
    } else {
        let k = choose|k: int| 0 <= k < s.len() && s[k] == c;
        assert(s.drop_last()[k] == c);
        lemma_piece_chars(s.drop_last(), sep, c);
        let i = choose|i: int| 0 <= i < before.len() && #[trigger] before[i].contains(c);
        let j = choose|j: int| 0 <= j < before[i].len() && before[i][j] == c;
        assert(pieces[i][j] == c);
        assert(pieces[i].contains(c));
    }
}

/// A text of identifiers holds no plus sign.
proof fn lemma_identifiers_have_no_plus(s: Seq<char>)
    requires
        are_identifiers(s),
    ensures
        !s.contains('+'),
{
    if s.contains('+') {
        lemma_piece_chars(s, '.', '+');
        let i = choose|i: int|
            0 <= i < split_on(s, '.').len() && #[trigger] split_on(s, '.')[i].contains('+');
        let piece = split_on(s, '.')[i];
        assert(is_identifier(piece));
        let k = choose|k: int| 0 <= k < piece.len() && piece[k] == '+';
        assert(is_identifier_char(piece[k]));
    }
}

/// The core of a semantic version holds digits and dots alone.
proof fn lemma_core_chars(s: Seq<char>, c: char)
    requires
        is_core(s),
        !is_digit(c),
        c != '.',
    ensures
        !s.contains(c),
{
    if s.contains(c) {
        lemma_piece_chars(s, '.', c);
        let i = choose|i: int|
            0 <= i < split_on(s, '.').len() && #[trigger] split_on(s, '.')[i].contains(c);
        let piece = split_on(s, '.')[i];
        assert(is_semver_number(piece));
        let k = choose|k: int| 0 <= k < piece.len() && piece[k] == c;
        assert(is_digit(piece[k]));
    }
}

/// A pre-release is older than its release: the core of a semantic version, followed by
/// a hyphen and identifiers, comes before the core alone.
pub proof fn a_prerelease_is_older_than_its_release(release: Seq<char>, identifiers: Seq<char>)
    requires
        is_core(release),
        are_prerelease_identifiers(identifiers),
    ensures
        version_order(release + seq!['-'] + identifiers, release) == -1,
{
    let pre = release + seq!['-'] + identifiers;
    assert forall|i: int| 0 <= i < split_on(identifiers, '.').len() implies is_identifier(
        #[trigger] split_on(identifiers, '.')[i],
    ) by {
        assert(is_prerelease_identifier(split_on(identifiers, '.')[i]));
    }
    lemma_identifiers_have_no_plus(identifiers);
    lemma_core_chars(release, '+');
    lemma_core_chars(release, '-');
    assert(!pre.contains('+')) by {
        if pre.contains('+') {
            let k = choose|k: int| 0 <= k < pre.len() && pre[k] == '+';
            if k < release.len() {
                assert(release[k] == '+');
            } else if k > release.len() {
                assert(identifiers[k - release.len() - 1] == '+');
            }
        }
    }
    lemma_cut_absent(pre, '+');
    lemma_cut_absent(release, '+');
    lemma_cut_absent(release, '-');
    lemma_cut_at(release, '-', identifiers);
    assert(is_semver(pre) && is_semver(release));
    assert(same_numbers(numbers_of(pre), numbers_of(release)));
    lemma_same_numbers(numbers_of(pre), numbers_of(release));
}

/// Build metadata does not count: a version with a plus sign and identifiers appended is
/// the same version.
pub proof fn build_metadata_does_not_count(version: Seq<char>, build: Seq<char>)
    requires
        is_semver(version),
        build_text(version) is None,
        are_identifiers(build),
    ensures
        version_order(version + seq!['+'] + build, version) == 0,
{
    let longer = version + seq!['+'] + build;
    lemma_first_at(version, '+');
    assert(!version.contains('+'));
    lemma_cut_absent(version, '+');
    lemma_cut_at(version, '+', build);
    assert(is_semver(longer));
    assert(numbers_of(longer) == numbers_of(version));
    assert(prerelease_of(longer) == prerelease_of(version));
    version_order_is_reflexive(version);
}

/// Decimal digits are read from left to right: each one multiplies what was read by ten
/// and adds its value, as long as a `u64` can hold it. One plus sign may lead them.
/// Nothing else is a number.
pub proof fn numbers_are_read_digit_by_digit(s: Seq<char>, c: char)
    ensures
        parsed_u64(Seq::empty()) is None,
        '0' <= c <= '9' ==> parsed_u64(seq![c]) == Some((c as int - '0' as int) as u64),
        parsed_u64(s) matches Some(n) ==> ('0' <= c <= '9' ==> parsed_u64(s.push(c)) == (if n * 10
            + (c as int - '0' as int) <= u64::MAX {
            Some((n * 10 + (c as int - '0' as int)) as u64)
        } else {
            None
        })),
        s.len() > 0 && s != seq!['+'] && parsed_u64(s) is None ==> parsed_u64(s.push(c)) is None,
        !('0' <= c <= '9') ==> parsed_u64(s.push(c)) is None,
        s.len() > 0 && s[0] != '+' ==> parsed_u64(seq!['+'] + s) == parsed_u64(s),
        s.len() > 0 && s[0] == '+' ==> parsed_u64(seq!['+'] + s) is None,
{
    reveal_with_fuel(digits_value, 2);
    let none: Seq<char> = Seq::empty();
    assert(seq![c].drop_last() =~= none);
    assert(digits_value(none) == 0);
    let one = seq![c];
    if '0' <= c <= '9' {
        assert(one[0] == c);
        assert(without_plus(one) == one);
        assert(digits_value(one) == c as int - '0' as int);
    }
    let more = s.push(c);
    let digits = without_plus(s);
    let grown = without_plus(more);
    if s.len() > 0 {
        assert(more[0] == s[0]);
        assert(grown =~= digits.push(c));
        assert(grown.drop_last() =~= digits);
        assert(grown.last() == c);
        if parsed_u64(s) is Some && is_digit(c) {
            assert forall|i: int| 0 <= i < grown.len() implies is_digit(#[trigger] grown[i]) by {
                if i < digits.len() {
                    assert(is_digit(digits[i]));
                }
            }
            assert(digits_value(grown) == digits_value(digits) * 10 + (c as int - '0' as int));
        }
        if parsed_u64(more) is Some {
            assert forall|i: int| 0 <= i < digits.len() implies is_digit(#[trigger] digits[i]) by {
                assert(is_digit(grown[i]));
            }
            assert(is_digit(grown[grown.len() - 1]));
            assert(digits_value(grown) >= digits_value(digits));
            if digits.len() == 0 {
                assert(s =~= seq!['+']);
            }
        }
    } else {
        assert(more =~= one);
        if !is_digit(c) && c != '+' {
            assert(!is_digit(one[0]));
        }
        if c == '+' {
            assert(without_plus(one) =~= none);
        }
    }
    let led = seq!['+'] + s;
    assert(led.skip(1) =~= s);
    if s.len() > 0 && s[0] == '+' {
        assert(!is_digit(without_plus(led)[0]));
    }
}

/// The numbers of two rows of pieces in a row are those of the first and then those of
/// the second.
proof fn lemma_numbers_in_both(a: Seq<Seq<char>>, b: Seq<Seq<char>>)
    ensures
        numbers_in(a + b) == numbers_in(a) + numbers_in(b),
    decreases b.len(),
{
    if b.len() == 0 {
        assert(a + b =~= a);
        assert(numbers_in(a) + numbers_in(b) =~= numbers_in(a));
    } else {
        lemma_numbers_in_both(a, b.drop_last());
        assert((a + b).drop_last() =~= a + b.drop_last());
        assert((a + b).last() == b.last());
        assert(numbers_in(a + b) =~= numbers_in(a) + numbers_in(b));
    }
}

/// The numbers of two texts with a dot between them are those of the first and then
/// those of the second. A text without a dot is one number, or holds none.
pub proof fn numbers_stand_between_dots(a: Seq<char>, b: Seq<char>)
    ensures
        components(a + seq!['.'] + b) == components(a) + components(b),
        !a.contains('.') ==> components(a) == (match parsed_u64(a) {
            Some(n) => seq![n],
            None => Seq::empty(),
        }),
{
    splitting_goes_piece_by_piece(a, b, '.');
    lemma_numbers_in_both(split_on(a, '.'), split_on(b, '.'));
    if !a.contains('.') {
        assert(seq![a].drop_last() =~= Seq::<Seq<char>>::empty());
        assert(numbers_in(seq![a].drop_last()) == Seq::<u64>::empty());
        assert(components(a) =~= (match parsed_u64(a) {
            Some(n) => seq![n],
            None => Seq::empty(),
        }));
    }
}

/// Of two rows of numbers the first place where they differ decides, by the numbers that
/// stand there, and a row that ends sooner goes on with zeros. So two rows of the same
/// length are the same only if they are equal.
pub proof fn the_first_number_that_differs_decides(x: Seq<u64>, y: Seq<u64>, n: int)
    ensures
        -1 <= numbers_order(x, y) <= 1,
        0 <= n < x.len() && n < y.len() && x.take(n) == y.take(n) && x[n] < y[n] ==> numbers_order(
            x,
            y,
        ) == -1 && numbers_order(y, x) == 1,
        x.len() <= n < y.len() && y.take(x.len() as int) == x && (forall|i: int|
            x.len() <= i < n ==> y[i] == 0) && y[n] > 0 ==> numbers_order(x, y) == -1
            && numbers_order(y, x) == 1,
        x.len() <= y.len() && y.take(x.len() as int) == x && (forall|i: int|
            x.len() <= i < y.len() ==> y[i] == 0) ==> numbers_order(x, y) == 0 && numbers_order(
            y,
            x,
        ) == 0,
        x.len() == y.len() ==> (numbers_order(x, y) == 0 <==> x == y),
{
    lemma_numbers_antisymmetric(x, y);
    if 0 <= n < x.len() && n < y.len() && x.take(n) == y.take(n) && x[n] < y[n] {
        assert forall|i: int| 0 <= i < n implies #[trigger] component(x, i) == component(y, i) by {
            assert(x.take(n)[i] == y.take(n)[i]);
        }
        assert(agree_up_to(x, y, n));
        assert(older(x, y));
    }
    if x.len() <= n < y.len() && y.take(x.len() as int) == x && (forall|i: int|
        x.len() <= i < n ==> y[i] == 0) && y[n] > 0 {
        assert forall|i: int| 0 <= i < n implies #[trigger] component(x, i) == component(y, i) by {
            if i < x.len() {
                assert(y.take(x.len() as int)[i] == x[i]);
            }
        }
        assert(agree_up_to(x, y, n));
        assert(older(x, y));
    }
    if x.len() <= y.len() && y.take(x.len() as int) == x && (forall|i: int|
        x.len() <= i < y.len() ==> y[i] == 0) {
        assert forall|i: int| #[trigger] component(x, i) == component(y, i) by {
            if 0 <= i < x.len() {
                assert(y.take(x.len() as int)[i] == x[i]);
            }
        }
        lemma_same_numbers(x, y);
    }
    if x.len() == y.len() {
        if numbers_order(x, y) == 0 {
            lemma_neither_older(x, y, x.len() as int);
            assert forall|i: int| 0 <= i < x.len() implies x[i] == y[i] by {
                assert(component(x, i) == component(y, i));
            }
            assert(x =~= y);
        } else if x == y {
            lemma_same_numbers(x, y);
        }
    }
}

/// Texts without a pre-release and without build metadata relate by the numbers between
/// their dots, semantic versions or not: at the first place where the numbers differ the
/// greater one is the newer version, and two such texts of equally many numbers are the
/// same version only if all of their numbers are equal.
pub proof fn releases_relate_by_their_numbers(a: Seq<char>, b: Seq<char>, n: int)
    requires
        !a.contains('-') && !a.contains('+'),
        !b.contains('-') && !b.contains('+'),
    ensures
        ({
            let (x, y) = (components(a), components(b));
            &&& version_order(a, b) == numbers_order(x, y)
            &&& 0 <= n < x.len() && n < y.len() && x.take(n) == y.take(n) && x[n] < y[n]
                ==> version_order(a, b) == -1 && version_order(b, a) == 1
            &&& x.len() == y.len() ==> (version_order(a, b) == 0 <==> x == y)
        }),
{
    lemma_cut_absent(a, '+');
    lemma_cut_absent(a, '-');
    lemma_cut_absent(b, '+');
    lemma_cut_absent(b, '-');
    version_order_is_antisymmetric(a, b);
    the_first_number_that_differs_decides(components(a), components(b), n);
}

/// Texts that are no semantic versions relate by the numbers between their dots, to each
/// other and to semantic versions.
pub proof fn other_texts_relate_by_their_numbers(a: Seq<char>, b: Seq<char>)
    requires
        !is_semver(a),
    ensures
        version_order(a, b) == numbers_order(components(a), components(b)),
        version_order(b, a) == numbers_order(components(b), components(a)),
{
}

/// What is a semantic version. Without a hyphen and a plus sign: one to three numbers
/// between dots, of digits alone, without leading zeros and not greater than a `u64` can
/// be. With a hyphen behind such a text: what follows is identifiers between dots, of
/// letters, digits and hyphens, none empty, and those of digits alone without leading
/// zeros. With a plus sign behind either: what follows is identifiers, leading zeros or
/// not.
pub proof fn semver_texts(
    release: Seq<char>,
    identifiers: Seq<char>,
    version: Seq<char>,
    build: Seq<char>,
)
    requires
        !release.contains('-') && !release.contains('+'),
        !identifiers.contains('+'),
        !version.contains('+'),
    ensures
        is_semver(release) <==> split_on(release, '.').len() <= 3 && (forall|i: int|
            #![trigger split_on(release, '.')[i]]
            0 <= i < split_on(release, '.').len() ==> {
                let piece = split_on(release, '.')[i];
                &&& piece.len() > 0
                &&& forall|k: int| 0 <= k < piece.len() ==> '0' <= #[trigger] piece[k] <= '9'
                &&& piece.len() > 1 ==> piece[0] != '0'
                &&& parsed_u64(piece) is Some
            }),
        is_semver(release + seq!['-'] + identifiers) <==> is_semver(release) && (forall|i: int|
            #![trigger split_on(identifiers, '.')[i]]
            0 <= i < split_on(identifiers, '.').len() ==> {
                let piece = split_on(identifiers, '.')[i];
                &&& piece.len() > 0
                &&& forall|k: int|
                    0 <= k < piece.len() ==> '0' <= #[trigger] piece[k] <= '9' || 'a' <= piece[k]
                        <= 'z' || 'A' <= piece[k] <= 'Z' || piece[k] == '-'
                &&& piece.len() > 1 && piece[0] == '0' ==> exists|k: int|
                    0 <= k < piece.len() && !('0' <= #[trigger] piece[k] <= '9')
            }),
        is_semver(version + seq!['+'] + build) <==> is_semver(version) && (forall|i: int|
            #![trigger split_on(build, '.')[i]]
            0 <= i < split_on(build, '.').len() ==> {
                let piece = split_on(build, '.')[i];
                &&& piece.len() > 0
                &&& forall|k: int|
                    0 <= k < piece.len() ==> '0' <= #[trigger] piece[k] <= '9' || 'a' <= piece[k]
                        <= 'z' || 'A' <= piece[k] <= 'Z' || piece[k] == '-'
            }),
{
    lemma_cut_absent(release, '+');
    lemma_cut_absent(release, '-');
    let pre = release + seq!['-'] + identifiers;
    assert(!pre.contains('+')) by {
        if pre.contains('+') {
            let k = choose|k: int| 0 <= k < pre.len() && pre[k] == '+';
            if k < release.len() {
                assert(release[k] == '+');
            } else if k > release.len() {
                assert(identifiers[k - release.len() - 1] == '+');
            }
        }
    }
    lemma_cut_absent(pre, '+');
    lemma_cut_at(release, '-', identifiers);
    lemma_cut_absent(version, '+');
    lemma_cut_at(version, '+', build);
    let (cores, ids, builds) = (
        split_on(release, '.'),
        split_on(identifiers, '.'),
        split_on(build, '.'),
    );
    assert forall|i: int| 0 <= i < cores.len() implies (is_semver_number(#[trigger] cores[i]) <==> {
        let piece = cores[i];
        &&& piece.len() > 0
        &&& forall|k: int| 0 <= k < piece.len() ==> '0' <= #[trigger] piece[k] <= '9'
        &&& piece.len() > 1 ==> piece[0] != '0'
    }) by {
        let piece = cores[i];
        assert forall|k: int| 0 <= k < piece.len() implies is_digit(#[trigger] piece[k]) == ('0'
            <= piece[k] <= '9') by {}
    }
    assert forall|i: int| 0 <= i < ids.len() implies (is_prerelease_identifier(#[trigger] ids[i])
        <==> {
        let piece = ids[i];
        &&& piece.len() > 0
        &&& forall|k: int|
            0 <= k < piece.len() ==> '0' <= #[trigger] piece[k] <= '9' || 'a' <= piece[k] <= 'z'
                || 'A' <= piece[k] <= 'Z' || piece[k] == '-'
        &&& piece.len() > 1 && piece[0] == '0' ==> exists|k: int|
            0 <= k < piece.len() && !('0' <= #[trigger] piece[k] <= '9')
    }) by {
        let piece = ids[i];
        assert forall|k: int| 0 <= k < piece.len() implies is_digit(#[trigger] piece[k]) == ('0'
            <= piece[k] <= '9') && is_identifier_char(piece[k]) == ('0' <= piece[k] <= '9' || 'a'
            <= piece[k] <= 'z' || 'A' <= piece[k] <= 'Z' || piece[k] == '-') by {}
    }
    assert forall|i: int| 0 <= i < builds.len() implies (is_identifier(#[trigger] builds[i]) <==> {
        let piece = builds[i];
        &&& piece.len() > 0
        &&& forall|k: int|
            0 <= k < piece.len() ==> '0' <= #[trigger] piece[k] <= '9' || 'a' <= piece[k] <= 'z'
                || 'A' <= piece[k] <= 'Z' || piece[k] == '-'
    }) by {
        let piece = builds[i];
        assert forall|k: int| 0 <= k < piece.len() implies is_identifier_char(#[trigger] piece[k])
            == ('0' <= piece[k] <= '9' || 'a' <= piece[k] <= 'z' || 'A' <= piece[k] <= 'Z'
            || piece[k] == '-') by {}
    }
}

/// Digits that begin with another than zero stand for more than nothing.
proof fn lemma_value_is_positive(s: Seq<char>)
    requires
        is_number(s),
        s[0] != '0',
    ensures
        digits_value(s) > 0,
    decreases s.len(),
{
    assert(is_digit(s[0]));
    if s.len() > 1 {
        let init = s.drop_last();
        assert forall|i: int| 0 <= i < init.len() implies is_digit(#[trigger] init[i]) by {
            assert(is_digit(s[i]));
        }
        lemma_value_is_positive(init);
    } else {
        assert(s.last() == s[0]);
    }
}

/// The digits of a longer number without leading zeros stand for more.
proof fn lemma_longer_is_greater(u: Seq<char>, v: Seq<char>)
    requires
        forall|i: int| 0 <= i < u.len() ==> is_digit(#[trigger] u[i]),
        is_number(v),
        v[0] != '0',
        u.len() < v.len(),
    ensures
        digits_value(u) < digits_value(v),
    decreases u.len(),
{
    if u.len() == 0 {
        lemma_value_is_positive(v);
    } else {
        let (a, b) = (u.drop_last(), v.drop_last());
        assert forall|i: int| 0 <= i < a.len() implies is_digit(#[trigger] a[i]) by {
            assert(is_digit(u[i]));
        }
        assert forall|i: int| 0 <= i < b.len() implies is_digit(#[trigger] b[i]) by {
            assert(is_digit(v[i]));
        }
        lemma_longer_is_greater(a, b);
        assert(is_digit(u[u.len() - 1]) && is_digit(v[v.len() - 1]));
    }
}

/// Of two equally long runs of digits the first that differs decides which stands for
/// more.
proof fn lemma_first_digit_decides(u: Seq<char>, v: Seq<char>, k: int)
    requires
        forall|i: int| 0 <= i < u.len() ==> is_digit(#[trigger] u[i]),
        forall|i: int| 0 <= i < v.len() ==> is_digit(#[trigger] v[i]),
        u.len() == v.len(),
        0 <= k < u.len(),
        u.take(k) == v.take(k),
        u[k] < v[k],
    ensures
        digits_value(u) < digits_value(v),
    decreases u.len(),
{
    let (a, b) = (u.drop_last(), v.drop_last());
    assert(is_digit(u[u.len() - 1]) && is_digit(v[v.len() - 1]));
    if k == u.len() - 1 {
        assert(u.take(k) =~= a && v.take(k) =~= b);
    } else {
        assert forall|i: int| 0 <= i < a.len() implies is_digit(#[trigger] a[i]) by {
            assert(is_digit(u[i]));
        }
        assert forall|i: int| 0 <= i < b.len() implies is_digit(#[trigger] b[i]) by {
            assert(is_digit(v[i]));
        }
        assert(a.take(k) =~= u.take(k) && b.take(k) =~= v.take(k));
        lemma_first_digit_decides(a, b, k);
    }
}

/// Of two texts the first character that differs decides.
proof fn lemma_first_char_decides(u: Seq<char>, v: Seq<char>, k: int)
    requires
        0 <= k <= u.len(),
        k < v.len(),
        u.take(k) == v.take(k),
        k == u.len() || u[k] < v[k],
    ensures
        text_order(u, v) == -1,
    decreases k,
{
    if k > 0 {
        assert(u[0] == u.take(k)[0] && v[0] == v.take(k)[0]);
        let (a, b) = (u.skip(1), v.skip(1));
        assert(a.take(k - 1) =~= u.take(k).skip(1));
        assert(b.take(k - 1) =~= v.take(k).skip(1));
        lemma_first_char_decides(a, b, k - 1);
        assert(text_order(u, v) == text_order(a, b));
    } else if u.len() > 0 {
        assert(u[0] as int != v[0] as int);
        assert(text_order(u, v) == number_order(u[0] as int, v[0] as int));
    }
}

/// Of two rows of identifiers the first that differs decides.
proof fn lemma_first_identifier_decides(x: Seq<Seq<char>>, y: Seq<Seq<char>>, n: int)
    requires
        0 <= n <= x.len(),
        n < y.len(),
        x.take(n) == y.take(n),
        n == x.len() || identifier_order(x[n], y[n]) == -1,
    ensures
        identifiers_order(x, y) == -1,
    decreases n,
{
    if n > 0 {
        assert(x.take(n)[0] == y.take(n)[0]);
        lemma_identifier_antisymmetric(x[0], x[0]);
        let (a, b) = (x.skip(1), y.skip(1));
        assert(a.take(n - 1) =~= x.take(n).skip(1));
        assert(b.take(n - 1) =~= y.take(n).skip(1));
        lemma_first_identifier_decides(a, b, n - 1);
    }
}

/// What a semantic version with a hyphen consists of.
proof fn lemma_with_prerelease(release: Seq<char>, identifiers: Seq<char>)
    requires
        !release.contains('-') && !release.contains('+'),
        !identifiers.contains('+'),
    ensures
        core_text(release + seq!['-'] + identifiers) == release,
        prerelease_text(release + seq!['-'] + identifiers) == Some(identifiers),
        build_text(release + seq!['-'] + identifiers) is None,
        core_text(release) == release,
        prerelease_text(release) is None,
        build_text(release) is None,
{
    let pre = release + seq!['-'] + identifiers;
    assert(!pre.contains('+')) by {
        if pre.contains('+') {
            let k = choose|k: int| 0 <= k < pre.len() && pre[k] == '+';
            if k < release.len() {
                assert(release[k] == '+');
            } else if k > release.len() {
                assert(identifiers[k - release.len() - 1] == '+');
            }
        }
    }
    lemma_cut_absent(pre, '+');
    lemma_cut_at(release, '-', identifiers);
    lemma_cut_absent(release, '+');
    lemma_cut_absent(release, '-');
}

/// The releases decide first: where two releases differ, their pre-releases differ in the
/// same way. Where they are the same, a pre-release of the one is older than the other.
pub proof fn releases_decide_before_prereleases(
    r: Seq<char>,
    x: Seq<char>,
    s: Seq<char>,
    y: Seq<char>,
)
    requires
        !r.contains('-') && !r.contains('+') && !x.contains('+'),
        !s.contains('-') && !s.contains('+') && !y.contains('+'),
        is_semver(r + seq!['-'] + x),
        is_semver(s + seq!['-'] + y),
    ensures
        version_order(r, s) != 0 ==> version_order(r + seq!['-'] + x, s + seq!['-'] + y)
            == version_order(r, s),
        version_order(r, s) != 0 ==> version_order(r + seq!['-'] + x, s) == version_order(r, s),
        version_order(r, s) != 0 ==> version_order(r, s + seq!['-'] + y) == version_order(r, s),
        version_order(r, s) == 0 ==> version_order(r + seq!['-'] + x, s) == -1,
        version_order(r, s) == 0 ==> version_order(r, s + seq!['-'] + y) == 1,
{
    lemma_with_prerelease(r, x);
    lemma_with_prerelease(s, y);
}

/// Two pre-releases of the same release relate by the first of their identifiers that differ,
/// and the one whose identifiers run out first is the older. Of two numbers the one with
/// fewer digits is smaller, and of two with equally many the first digit that differs
/// decides. A number comes before any other identifier. Of two other identifiers the
/// first character that differs decides, and one comes before any longer one that begins
/// with it.
pub proof fn prereleases_relate_by_their_identifiers(
    r: Seq<char>,
    x: Seq<char>,
    s: Seq<char>,
    y: Seq<char>,
    n: int,
    k: int,
)
    requires
        !r.contains('-') && !r.contains('+') && !x.contains('+'),
        !s.contains('-') && !s.contains('+') && !y.contains('+'),
        is_semver(r + seq!['-'] + x),
        is_semver(s + seq!['-'] + y),
        version_order(r, s) == 0,
        0 <= n <= split_on(x, '.').len(),
        n < split_on(y, '.').len(),
        split_on(x, '.').take(n) == split_on(y, '.').take(n),
        n < split_on(x, '.').len() ==> {
            let (u, v) = (split_on(x, '.')[n], split_on(y, '.')[n]);
            let u_digits = forall|i: int| 0 <= i < u.len() ==> '0' <= #[trigger] u[i] <= '9';
            let v_digits = forall|i: int| 0 <= i < v.len() ==> '0' <= #[trigger] v[i] <= '9';
            let first = 0 <= k < v.len() && k <= u.len() && u.take(k) == v.take(k);
            ||| u_digits && v_digits && u.len() < v.len()
            ||| u_digits && v_digits && u.len() == v.len() && first && u[k] < v[k]
            ||| u_digits && !v_digits
            ||| !u_digits && !v_digits && first && (k == u.len() || u[k] < v[k])
        },
    ensures
        version_order(r + seq!['-'] + x, s + seq!['-'] + y) == -1,
        version_order(s + seq!['-'] + y, r + seq!['-'] + x) == 1,
{
    let (a, b) = (r + seq!['-'] + x, s + seq!['-'] + y);
    lemma_with_prerelease(r, x);
    lemma_with_prerelease(s, y);
    let (xs, ys) = (split_on(x, '.'), split_on(y, '.'));
    if n < xs.len() {
        let (u, v) = (xs[n], ys[n]);
        assert(is_prerelease_identifier(u) && is_prerelease_identifier(v));
        assert(is_number(u) <==> forall|i: int| 0 <= i < u.len() ==> '0' <= #[trigger] u[i] <= '9')
            by {
            assert forall|i: int| 0 <= i < u.len() implies is_digit(#[trigger] u[i]) == ('0' <= u[i]
                <= '9') by {}
        }
        assert(is_number(v) <==> forall|i: int| 0 <= i < v.len() ==> '0' <= #[trigger] v[i] <= '9')
            by {
            assert forall|i: int| 0 <= i < v.len() implies is_digit(#[trigger] v[i]) == ('0' <= v[i]
                <= '9') by {}
        }
        if is_number(u) && is_number(v) {
            if u.len() < v.len() {
                lemma_longer_is_greater(u, v);
            } else {
                lemma_first_digit_decides(u, v, k);
            }
        } else if !is_number(u) {
            lemma_first_char_decides(u, v, k);
        }
        assert(identifier_order(u, v) == -1);
    }
    lemma_first_identifier_decides(xs, ys, n);
    version_order_is_antisymmetric(a, b);
}

/// Two pre-releases of the same release with the same identifiers are the same.
pub proof fn the_same_identifiers_are_the_same_prerelease(r: Seq<char>, s: Seq<char>, x: Seq<char>)
    requires
        !r.contains('-') && !r.contains('+') && !x.contains('+'),
        !s.contains('-') && !s.contains('+'),
        is_semver(r + seq!['-'] + x),
        is_semver(s + seq!['-'] + x),
        version_order(r, s) == 0,
    ensures
        version_order(r + seq!['-'] + x, s + seq!['-'] + x) == 0,
{
    lemma_with_prerelease(r, x);
    lemma_with_prerelease(s, x);
    lemma_identifiers_reflexive(split_on(x, '.'));
}

/// Build metadata is as if it were not there, on either side of a comparison of semantic
/// versions.
pub proof fn build_metadata_is_ignored(version: Seq<char>, build: Seq<char>, other: Seq<char>)
    requires
        !version.contains('+'),
        is_semver(version + seq!['+'] + build),
        is_semver(other),
    ensures
        version_order(version + seq!['+'] + build, other) == version_order(version, other),
        version_order(other, version + seq!['+'] + build) == version_order(other, version),
{
    lemma_cut_absent(version, '+');
    lemma_cut_at(version, '+', build);
    assert(is_semver(version));
}

/// The parts of a semantic version: its numbers are those before the hyphen and the plus
/// sign, and the identifiers of the pre-release are those between the two.
pub proof fn semver_parts(release: Seq<char>, identifiers: Seq<char>, build: Seq<char>)
    requires
        !release.contains('-') && !release.contains('+') && !identifiers.contains('+'),
    ensures
        numbers_of(release) == components(release),
        prerelease_of(release) is None,
        numbers_of(release + seq!['-'] + identifiers) == components(release),
        prerelease_of(release + seq!['-'] + identifiers) == Some(split_on(identifiers, '.')),
        numbers_of(release + seq!['+'] + build) == components(release),
        prerelease_of(release + seq!['+'] + build) is None,
        numbers_of(release + seq!['-'] + identifiers + seq!['+'] + build) == components(release),
        prerelease_of(release + seq!['-'] + identifiers + seq!['+'] + build) == Some(
            split_on(identifiers, '.'),
        ),
{
    lemma_with_prerelease(release, identifiers);
    lemma_cut_absent(release, '-');
    lemma_cut_at(release, '+', build);
    lemma_cut_at(release, '-', identifiers);
    let pre = release + seq!['-'] + identifiers;
    assert(!pre.contains('+')) by {
        if pre.contains('+') {
            let k = choose|k: int| 0 <= k < pre.len() && pre[k] == '+';
            if k < release.len() {
                assert(release[k] == '+');
            } else if k > release.len() {
                assert(identifiers[k - release.len() - 1] == '+');
            }
        }
    }
    lemma_cut_at(pre, '+', build);
}

/// A comparison comes out as older, the same or newer.
pub proof fn version_order_has_three_outcomes(a: Seq<char>, b: Seq<char>)
    ensures
        version_order(a, b) == -1 || version_order(a, b) == 0 || version_order(a, b) == 1,
{
    if let (Some(x), Some(y)) = (prerelease_of(a), prerelease_of(b)) {
        lemma_identifiers_order_range(x, y);
    }
}

/// So does a comparison of rows of identifiers.
proof fn lemma_identifiers_order_range(a: Seq<Seq<char>>, b: Seq<Seq<char>>)
    ensures
        -1 <= identifiers_order(a, b) <= 1,
    decreases a.len(),
{
    if a.len() > 0 && b.len() > 0 {
        lemma_text_antisymmetric(a[0], b[0]);
        lemma_identifiers_order_range(a.skip(1), b.skip(1));
    }
}

} // verus!
