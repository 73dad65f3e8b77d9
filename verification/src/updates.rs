//! Updates of the shell: when one is offered, when one may be installed, and what
//! is reported of it.
use crate::text::{replace, replace_all, replacing_goes_character_by_character};
use crate::version::{
    are_prerelease_identifiers, compare_versions, components, is_core, version_order,
};
use vstd::prelude::*;

verus! {

/// How long after the start the update server is first asked, in seconds.
pub const FIRST_CHECK_DELAY_SECS: u64 = 3;

/// How long it is until the update server is asked again, in seconds.
pub const CHECK_INTERVAL_SECS: u64 = 14400;

/// A release that the update server offers.
#[derive(Debug)]
pub struct Release {
    pub version: String,
    /// The release notes, where the server sends any.
    pub body: Option<String>,
}

/// What a look at the update server came to.
#[derive(Debug)]
pub enum UpdateCheck {
    Available(Release),
    UpToDate,
    Failed(String),
}

/// What the settings page shows about updates.
#[derive(Debug)]
pub struct UpdateInfo {
    pub current_version: String,
    pub available: bool,
    pub latest_version: String,
    pub release_notes: String,
}

/// The model of [`UpdateInfo`].
pub struct UpdateInfoModel {
    pub current_version: Seq<char>,
    pub available: bool,
    pub latest_version: Seq<char>,
    pub release_notes: Seq<char>,
}

impl View for UpdateInfo {
    type V = UpdateInfoModel;

    open spec fn view(&self) -> UpdateInfoModel {
        UpdateInfoModel {
            current_version: self.current_version@,
            available: self.available,
            latest_version: self.latest_version@,
            release_notes: self.release_notes@,
        }
    }
}

/// What follows from a look at the update server.
#[derive(Debug)]
pub enum UpdateNotice {
    /// Tell the user: the new version, and its notes with line breaks and
    /// quotation marks escaped.
    Announce { version: String, notes: String },
    /// There is a newer version, but nobody asked: no banner.
    Suppress { version: String },
    /// The offered version is not newer than the running one.
    NotNewer { version: String },
    /// The server has nothing to offer.
    UpToDate,
    /// The server could not be asked.
    Failed(String),
}

/// The offered version is strictly newer than the running one.
pub open spec fn is_newer(offered: Seq<char>, current: Seq<char>) -> bool {
    version_order(offered, current) > 0
}

/// The notes of a release, and a remark in their place where there are none.
pub open spec fn notes_of(release: Release) -> Seq<char> {
    match release.body {
        Some(body) => body@,
        None => "No release notes"@,
    }
}

/// A text with each line break written as `\n` and each quotation mark as `\"`.
pub open spec fn escaped(notes: Seq<char>) -> Seq<char> {
    replace_all(replace_all(notes, '\n', "\\n"@), '"', "\\\""@)
}

/// The notes of a release, and a remark in their place where there are none.
fn release_notes(body: Option<String>) -> (r: String)
    ensures
        r@ == (match body {
            Some(body) => body@,
            None => "No release notes"@,
        }),
{
    match body {
        Some(body) => body,
        None => "No release notes".to_owned(),
    }
}

/// A text with each line break written as `\n` and each quotation mark as `\"`.
pub fn escape_notes(notes: &str) -> (r: String)
    ensures
        r@ == escaped(notes@),
{
    let lines = replace(notes, '\n', "\\n");
    replace(lines.as_str(), '"', "\\\"")
}

/// What follows from a look at the update server. Only a version that is strictly
/// newer counts as an update, and only a check that the user asked for announces
/// one.
pub fn check_for_updates(current: &str, found: UpdateCheck, manual: bool) -> (r: UpdateNotice)
    ensures
        match found {
            UpdateCheck::Available(release) => if !is_newer(release.version@, current@) {
                r matches UpdateNotice::NotNewer { version } && version@ == release.version@
            } else if manual {
                r matches UpdateNotice::Announce { version, notes } && version@
                    == release.version@ && notes@ == escaped(notes_of(release))
            } else {
                r matches UpdateNotice::Suppress { version } && version@ == release.version@
            },
            UpdateCheck::UpToDate => r is UpToDate,
            UpdateCheck::Failed(e) => r matches UpdateNotice::Failed(reason) && reason == e,
        },
{
    match found {
        UpdateCheck::Available(release) => {
            if compare_versions(release.version.as_str(), current) <= 0 {
                return UpdateNotice::NotNewer { version: release.version };
            }
            if manual {
                let notes = release_notes(release.body);
                UpdateNotice::Announce {
                    version: release.version,
                    notes: escape_notes(notes.as_str()),
                }
            } else {
                UpdateNotice::Suppress { version: release.version }
            }
        },
        UpdateCheck::UpToDate => UpdateNotice::UpToDate,
        UpdateCheck::Failed(e) => UpdateNotice::Failed(e),
    }
}

/// What is shown where no newer version is offered.
pub open spec fn nothing_new(current: Seq<char>) -> UpdateInfoModel {
    UpdateInfoModel {
        current_version: current,
        available: false,
        latest_version: current,
        release_notes: Seq::empty(),
    }
}

/// What the settings page shows, from a look at the update server. A version that
/// is not strictly newer is reported as being up to date.
pub fn get_update_info(current: &str, found: UpdateCheck) -> (r: Result<UpdateInfo, String>)
    ensures
        match found {
            UpdateCheck::Available(release) => r matches Ok(info) && info@ == (if is_newer(
                release.version@,
                current@,
            ) {
                UpdateInfoModel {
                    current_version: current@,
                    available: true,
                    latest_version: release.version@,
                    release_notes: notes_of(release),
                }
            } else {
                nothing_new(current@)
            }),
            UpdateCheck::UpToDate => r matches Ok(info) && info@ == nothing_new(current@),
            UpdateCheck::Failed(e) => r == Err::<UpdateInfo, String>(e),
        },
{
    match found {
        UpdateCheck::Available(release) => {
            if compare_versions(release.version.as_str(), current) <= 0 {
                Ok(up_to_date(current))
            } else {
                Ok(
                    UpdateInfo {
                        current_version: current.to_owned(),
                        available: true,
                        latest_version: release.version,
                        release_notes: release_notes(release.body),
                    },
                )
            }
        },
        UpdateCheck::UpToDate => Ok(up_to_date(current)),
        UpdateCheck::Failed(e) => Err(e),
    }
}

/// What is shown where no newer version is offered.
fn up_to_date(current: &str) -> (r: UpdateInfo)
    ensures
        r@ == nothing_new(current@),
{
    UpdateInfo {
        current_version: current.to_owned(),
        available: false,
        latest_version: current.to_owned(),
        release_notes: String::new(),
    }
}

/// Why an offered version is not installed over the running one.
pub open spec fn refusal(offered: Seq<char>, current: Seq<char>) -> Seq<char> {
    "Remote version "@ + offered + " is not newer than current version "@ + current
        + ". You're already up to date!"@
}

/// Whether the offered release may be installed, from a look at the update server:
/// its version if it is strictly newer than the running one, and the reason
/// otherwise.
pub fn install_update_with_progress(current: &str, found: UpdateCheck) -> (r: Result<
    String,
    String,
>)
    ensures
        match found {
            UpdateCheck::Available(release) => if is_newer(release.version@, current@) {
                r matches Ok(version) && version@ == release.version@
            } else {
                r matches Err(reason) && reason@ == refusal(release.version@, current@)
            },
            UpdateCheck::UpToDate => r matches Err(reason) && reason@ == "No update available"@,
            UpdateCheck::Failed(e) => r == Err::<String, String>(e),
        },
{
    match found {
        UpdateCheck::Available(release) => {
            if compare_versions(release.version.as_str(), current) <= 0 {
                let reason = "Remote version ".to_owned().concat(release.version.as_str()).concat(
                    " is not newer than current version ",
                ).concat(current).concat(". You're already up to date!");
                Err(reason)
            } else {
                Ok(release.version)
            }
        },
        UpdateCheck::UpToDate => Err("No update available".to_owned()),
        UpdateCheck::Failed(e) => Err(e),
    }
}

/// How far a download has come, in bytes.
#[derive(Debug, Clone, Copy)]
pub struct Download {
    pub downloaded: u64,
    /// The size of the whole, and zero as long as it is not known.
    pub total: u64,
}

impl Download {
    /// A download that has not begun.
    pub fn new() -> (r: Download)
        ensures
            r.downloaded == 0,
            r.total == 0,
    {
        Download { downloaded: 0, total: 0 }
    }

    /// Counts a chunk that came in. The first size that is announced is kept.
    pub fn advance(&mut self, chunk_len: u64, announced: Option<u64>)
        requires
            old(self).downloaded + chunk_len <= u64::MAX,
        ensures
            final(self).downloaded == old(self).downloaded + chunk_len,
            final(self).total == (if old(self).total != 0 {
                old(self).total
            } else {
                match announced {
                    Some(total) => total,
                    None => 0,
                }
            }),
    {
        self.downloaded = self.downloaded + chunk_len;
        if self.total == 0 {
            self.total = match announced {
                Some(total) => total,
                None => 0,
            };
        }
    }
}

/// Being newer is strict: a version is not newer than itself, of two versions at
/// most one is newer than the other, and the newer one is the one that the other
/// is older than. So neither the running version nor an older one is ever an
/// update, and after an update the replaced version is none.
pub proof fn only_newer_versions_are_updates(offered: Seq<char>, current: Seq<char>)
    ensures
        is_newer(offered, current) ==> !is_newer(current, offered),
        !is_newer(current, current),
        is_newer(offered, current) <==> version_order(current, offered) < 0,
{
    crate::version::version_order_is_antisymmetric(offered, current);
    crate::version::version_order_is_reflexive(current);
}

/// A release is an update for those who run a pre-release of it, and a pre-release is
/// none for those who run the release.
pub proof fn a_release_updates_its_prereleases(release: Seq<char>, identifiers: Seq<char>)
    requires
        is_core(release),
        are_prerelease_identifiers(identifiers),
    ensures
        is_newer(release, release + seq!['-'] + identifiers),
        !is_newer(release + seq!['-'] + identifiers, release),
{
    let prerelease = release + seq!['-'] + identifiers;
    crate::version::a_prerelease_is_older_than_its_release(release, identifiers);
    crate::version::version_order_is_antisymmetric(release, prerelease);
}

/// Replacing a character by a text without it leaves none of it behind.
proof fn lemma_replaced_is_gone(s: Seq<char>, from: char, to: Seq<char>)
    requires
        !to.contains(from),
    ensures
        !replace_all(s, from, to).contains(from),
    decreases s.len(),
{
    if s.len() > 0 {
        let before = replace_all(s.drop_last(), from, to);
        let all = replace_all(s, from, to);
        lemma_replaced_is_gone(s.drop_last(), from, to);
        if all.contains(from) {
            let i = choose|i: int| 0 <= i < all.len() && all[i] == from;
            if i < before.len() {
                assert(before[i] == from);
            } else if s.last() == from {
                assert(to[i - before.len()] == from);
            }
        }
    }
}

/// Replacing one character by a text without a second leaves no more of the second.
proof fn lemma_replacing_adds_none(s: Seq<char>, from: char, to: Seq<char>, c: char)
    requires
        !to.contains(c),
        !s.contains(c),
    ensures
        !replace_all(s, from, to).contains(c),
    decreases s.len(),
{
    if s.len() > 0 {
        let before = replace_all(s.drop_last(), from, to);
        let all = replace_all(s, from, to);
        assert(!s.drop_last().contains(c)) by {
            if s.drop_last().contains(c) {
                let i = choose|i: int| 0 <= i < s.drop_last().len() && s.drop_last()[i] == c;
                assert(s[i] == c);
            }
        }
        lemma_replacing_adds_none(s.drop_last(), from, to, c);
        assert(s.last() != c) by {
            assert(s[s.len() - 1] == s.last());
        }
        if all.contains(c) {
            let i = choose|i: int| 0 <= i < all.len() && all[i] == c;
            if i < before.len() {
                assert(before[i] == c);
            } else if s.last() == from {
                assert(to[i - before.len()] == c);
            }
        }
    }
}

/// Replacing the quotation marks by escaped ones puts a backslash before each.
proof fn lemma_quotes_are_escaped(s: Seq<char>)
    ensures
        forall|i: int|
            0 <= i < replace_all(s, '"', "\\\""@).len() && #[trigger] replace_all(
                s,
                '"',
                "\\\""@,
            )[i] == '"' ==> i > 0 && replace_all(s, '"', "\\\""@)[i - 1] == '\\',
    decreases s.len(),
{
    reveal_strlit("\\\"");
    if s.len() > 0 {
        lemma_quotes_are_escaped(s.drop_last());
        let before = replace_all(s.drop_last(), '"', "\\\""@);
        let all = replace_all(s, '"', "\\\""@);
        assert forall|i: int| 0 <= i < all.len() && #[trigger] all[i] == '"' implies i > 0 && all[i
            - 1] == '\\' by {
            if i < before.len() {
                assert(before[i] == '"');
            }
        }
    }
}

/// Escaped notes stand on one line, and each quotation mark in them has a
/// backslash before it.
pub proof fn escaped_notes_are_one_quotable_line(notes: Seq<char>)
    ensures
        !escaped(notes).contains('\n'),
        forall|i: int|
            0 <= i < escaped(notes).len() && #[trigger] escaped(notes)[i] == '"' ==> i > 0
                && escaped(notes)[i - 1] == '\\',
{
    reveal_strlit("\\n");
    reveal_strlit("\\\"");
    let lines = replace_all(notes, '\n', "\\n"@);
    assert(!("\\n"@).contains('\n'));
    lemma_replaced_is_gone(notes, '\n', "\\n"@);
    assert(!("\\\""@).contains('\n'));
    lemma_replacing_adds_none(lines, '"', "\\\""@, '\n');
    lemma_quotes_are_escaped(lines);
}

/// An offered release is an update exactly where, at the first place where its numbers
/// and those of the running one differ, it has the greater number.
pub proof fn a_release_with_a_greater_number_is_an_update(
    offered: Seq<char>,
    current: Seq<char>,
    n: int,
)
    requires
        !offered.contains('-') && !offered.contains('+'),
        !current.contains('-') && !current.contains('+'),
        0 <= n < components(offered).len(),
        n < components(current).len(),
        components(offered).take(n) == components(current).take(n),
    ensures
        components(offered)[n] > components(current)[n] ==> is_newer(offered, current),
        components(offered)[n] < components(current)[n] ==> !is_newer(offered, current),
        components(offered) == components(current) ==> !is_newer(offered, current),
{
    crate::version::releases_relate_by_their_numbers(offered, current, n);
    crate::version::releases_relate_by_their_numbers(current, offered, n);
}

/// What is an update follows the order of versions: whatever comes after the running
/// version, and nothing else.
pub proof fn updates_follow_the_order(offered: Seq<char>, current: Seq<char>)
    ensures
        is_newer(offered, current) <==> version_order(offered, current) == 1,
        is_newer(offered, current) <==> version_order(current, offered) == -1,
{
    crate::version::version_order_is_antisymmetric(offered, current);
    crate::version::the_first_number_that_differs_decides(
        components(offered),
        components(current),
        0,
    );
    crate::version::version_order_has_three_outcomes(offered, current);
}

/// The notes are what the release brings along, whatever they are; without any there is a
/// remark in their place.
pub proof fn notes_come_with_the_release(release: Release)
    ensures
        release.body matches Some(body) ==> notes_of(release) == body@,
        release.body is None ==> notes_of(release) == "No release notes"@,
{
}

/// Notes are escaped character by character: a line break becomes a backslash and the
/// letter `n`, a quotation mark gets a backslash before it, and any other character stays.
pub proof fn notes_are_escaped_character_by_character(a: Seq<char>, b: Seq<char>, c: char)
    ensures
        escaped(Seq::empty()) == Seq::<char>::empty(),
        escaped(a + b) == escaped(a) + escaped(b),
        escaped(seq!['\n']) == seq!['\\', 'n'],
        escaped(seq!['"']) == seq!['\\', '"'],
        c != '\n' && c != '"' ==> escaped(seq![c]) == seq![c],
{
    reveal_strlit("\\n");
    reveal_strlit("\\\"");
    let (lines, quotes) = ("\\n"@, "\\\""@);
    assert(lines =~= seq!['\\', 'n']);
    assert(quotes =~= seq!['\\', '"']);
    let (x, y) = (replace_all(a, '\n', lines), replace_all(b, '\n', lines));
    replacing_goes_character_by_character(a, b, c, '\n', lines);
    replacing_goes_character_by_character(x, y, c, '"', quotes);
    replacing_goes_character_by_character(seq!['\\'], seq!['n'], 'n', '"', quotes);
    replacing_goes_character_by_character(seq!['\\'], seq!['n'], '\\', '"', quotes);
    replacing_goes_character_by_character(a, b, '"', '\n', lines);
    assert(seq!['\\'] + seq!['n'] =~= lines);
}

/// Where nothing newer is offered, the running version is shown as the latest, with no
/// notes and nothing available.
pub proof fn without_an_update_the_running_version_is_the_latest(current: Seq<char>)
    ensures
        nothing_new(current).current_version == current,
        nothing_new(current).latest_version == current,
        !nothing_new(current).available,
        nothing_new(current).release_notes.len() == 0,
{
}

/// A refusal names the offered version and then the running one, whatever they are.
pub proof fn a_refusal_names_both_versions(offered: Seq<char>, current: Seq<char>)
    ensures
        ("Remote version "@ + offered + " is not newer than current version "@).is_prefix_of(
            refusal(offered, current),
        ),
        (current + ". You're already up to date!"@).is_suffix_of(refusal(offered, current)),
        refusal(offered, current).len() == "Remote version "@.len() + offered.len()
            + " is not newer than current version "@.len() + current.len()
            + ". You're already up to date!"@.len(),
{
    let front = "Remote version "@ + offered + " is not newer than current version "@;
    let back = current + ". You're already up to date!"@;
    assert(refusal(offered, current) =~= front + back);
}

/// What the settings page shows of an update are the texts themselves.
pub proof fn the_model_of_update_info_has_every_field(info: UpdateInfo)
    ensures
        info@.current_version == info.current_version@,
        info@.available == info.available,
        info@.latest_version == info.latest_version@,
        info@.release_notes == info.release_notes@,
{
}

/// The update server is first asked three seconds after the start, and then every four
/// hours.
pub proof fn the_update_server_is_asked_every_four_hours()
    ensures
        FIRST_CHECK_DELAY_SECS == 3,
        CHECK_INTERVAL_SECS == 4 * 60 * 60,
{
}

} // verus!
