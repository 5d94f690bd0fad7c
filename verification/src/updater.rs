//! Updates: how often they are looked for, how failures are met, and what the user is told.

use crate::text::{join2, join3};
use vstd::prelude::*;

verus! {

/// Updates are looked for when the companion starts and then this often, in seconds.
pub const CHECK_INTERVAL: u64 = 21_600;

/// A check or a download may take this long, in seconds.
pub const UPDATE_TIMEOUT: u64 = 30;

/// A failed download is tried again after this long, in seconds.
pub const RETRY_DELAY: u64 = 3;

/// A check is made at most this often before it counts as failed.
pub const MAX_CHECKS: u32 = 3;

/// A download is made at most this often before it counts as failed.
pub const MAX_DOWNLOADS: u32 = 2;

/// One mebibyte.
pub const MEGABYTE: u64 = 1_048_576;

/// A check for updates with its failures so far.
#[derive(Clone, Copy, PartialEq, Eq, Debug)]
pub struct Retry {
    attempt: u32,
    delay: u64,
}

/// How long to wait after the `n`th failure, in seconds: twice as long each time.
pub open spec fn wait_after(n: nat) -> nat
    decreases n,
{
    if n <= 1 {
        2
    } else {
        2 * wait_after((n - 1) as nat)
    }
}

/// What follows when so many checks have failed: another one after a wait, in seconds,
/// or none.
pub open spec fn next_check(failures: nat) -> Option<u64> {
    if failures < MAX_CHECKS {
        Some(wait_after(failures) as u64)
    } else {
        None
    }
}

impl Retry {
    /// How many checks have failed.
    pub closed spec fn failures(self) -> nat {
        self.attempt as nat
    }

    #[verifier::type_invariant]
    spec fn inv(self) -> bool {
        self.attempt <= MAX_CHECKS && self.delay == wait_after((self.attempt + 1) as nat)
    }

    pub fn new() -> (r: Retry)
        ensures
            r.failures() == 0,
    {
        Retry { attempt: 0, delay: 2 }
    }
}

/// Takes a failed check. Gives how long to wait before the next one, in seconds, unless
/// there is to be none.
pub fn check_with_retry(retry: Retry) -> (r: (Retry, Option<u64>))
    requires
        retry.failures() < MAX_CHECKS,
    ensures
        r.0.failures() == retry.failures() + 1,
        r.1 == next_check(retry.failures() + 1),
{
    proof {
        use_type_invariant(&retry);
        reveal_with_fuel(wait_after, 5);
    }
    let attempt: u32 = retry.attempt + 1;
    let delay: u64 = retry.delay;
    let next = Retry { attempt, delay: delay * 2 };
    if attempt >= MAX_CHECKS {
        (next, None)
    } else {
        (next, Some(delay))
    }
}

/// After every failure but the last of three there is another check: two seconds after
/// the first failure, four after the second.
pub proof fn law_waits_between_checks(failures: nat)
    requires
        failures >= 1,
    ensures
        next_check(failures) == (if failures == 1 {
            Some(2u64)
        } else if failures == 2 {
            Some(4u64)
        } else {
            None
        }),
{
    reveal_with_fuel(wait_after, 3);
}

/// What a check for updates came to.
pub enum Check {
    /// There is this newer version.
    Found { version: String },
    /// There is no newer version.
    Latest,
    /// The check failed, finally.
    Failed { message: String },
}

/// What the user who asked for the check is told.
pub struct Answer {
    pub text: Result<String, String>,
    /// Whether the user is asked to install the version that was found.
    pub prompt: bool,
}

/// What the user is told of a check.
pub open spec fn told(check: Check) -> Result<Seq<char>, Seq<char>> {
    match check {
        Check::Found { version } => Ok("update:"@ + version@),
        Check::Latest => Ok("latest"@),
        Check::Failed { message } => Err(message@),
    }
}

/// A check leads to the question whether to install.
pub open spec fn prompts(check: Check) -> bool {
    check is Found
}

/// Answers a check that the user asked for.
pub fn check_update(check: &Check) -> (r: Answer)
    ensures
        r.prompt == prompts(*check),
        match r.text {
            Ok(text) => told(*check) is Ok && text@ == told(*check)->Ok_0,
            Err(text) => told(*check) is Err && text@ == told(*check)->Err_0,
        },
{
    match check {
        Check::Found { version } => Answer {
            text: Ok(join2("update:", version.as_str())),
            prompt: true,
        },
        Check::Latest => Answer { text: Ok("latest".to_owned()), prompt: false },
        Check::Failed { message } => Answer { text: Err(message.clone()), prompt: false },
    }
}

/// Whether the user is asked to install, after a check that nobody asked for. Failures
/// are passed over in silence.
pub fn check_and_prompt(check: &Check) -> (r: bool)
    ensures
        r == prompts(*check),
{
    match check {
        Check::Found { .. } => true,
        _ => false,
    }
}

/// The words of the question whether to install a version.
pub open spec fn question(version: Seq<char>) -> Seq<char> {
    "发现新版本 v"@ + version + "，现在更新？\n将自动下载安装并重启桌宠。"@
}

/// The words of the note that a version is being downloaded.
pub open spec fn note(version: Seq<char>) -> Seq<char> {
    "正在下载 v"@ + version + "……\n完成后将自动重启桌宠。"@
}

/// The question whether to install a version.
pub fn prompt_message(version: &str) -> (r: String)
    ensures
        r@ == question(version@),
{
    join3("发现新版本 v", version, "，现在更新？\n将自动下载安装并重启桌宠。")
}

/// The note that a version is being downloaded.
pub fn download_message(version: &str) -> (r: String)
    ensures
        r@ == note(version@),
{
    join3("正在下载 v", version, "……\n完成后将自动重启桌宠。")
}

/// A reply lets the update be installed.
pub open spec fn consents(reply: Option<bool>) -> bool {
    reply == Some(true)
}

/// Whether to install: only if the user agreed. A question that was closed is no consent.
pub fn prompt_install(reply: Option<bool>) -> (r: bool)
    ensures
        r == consents(reply),
{
    match reply {
        Some(agreed) => agreed,
        None => false,
    }
}

/// What follows an attempt to download and install.
pub enum Install {
    /// Start the companion anew.
    Restart,
    /// Try again after so many seconds.
    Again { delay: u64 },
    /// Give up, and tell the user so.
    GiveUp { message: String },
}

pub ghost enum InstallView {
    Restart,
    Again { delay: u64 },
    GiveUp { message: Seq<char> },
}

impl View for Install {
    type V = InstallView;

    open spec fn view(&self) -> InstallView {
        match self {
            Install::Restart => InstallView::Restart,
            Install::Again { delay } => InstallView::Again { delay: *delay },
            Install::GiveUp { message } => InstallView::GiveUp { message: message@ },
        }
    }
}

/// What follows the `attempt`th download, given its complaint if it failed.
pub open spec fn follows(attempt: u32, complaint: Option<Seq<char>>) -> InstallView {
    match complaint {
        None => InstallView::Restart,
        Some(words) => if attempt < MAX_DOWNLOADS {
            InstallView::Again { delay: RETRY_DELAY }
        } else {
            InstallView::GiveUp { message: "更新失败："@ + words }
        },
    }
}

/// Takes the result of the `attempt`th download, counted from one.
pub fn install_and_restart(attempt: u32, result: &Result<(), String>) -> (r: Install)
    ensures
        r@ == follows(
            attempt,
            match result {
                Ok(_) => None,
                Err(e) => Some(e@),
            },
        ),
{
    match result {
        Ok(_) => Install::Restart,
        Err(e) => if attempt < MAX_DOWNLOADS {
            Install::Again { delay: RETRY_DELAY }
        } else {
            Install::GiveUp { message: join2("更新失败：", e.as_str()) }
        },
    }
}

/// The sum that is worth a word after a piece of a download.
pub open spec fn worth_a_word(before: u64, after: u64) -> Option<u64> {
    if after / MEGABYTE != before / MEGABYTE {
        Some(after)
    } else {
        None
    }
}

/// Adds a piece of a download to what was downloaded before. Gives the new sum if it lies
/// in another mebibyte, and is worth a word.
pub fn progress(downloaded: &mut u64, chunk: u64) -> (r: Option<u64>)
    requires
        *old(downloaded) + chunk <= u64::MAX,
    ensures
        *final(downloaded) == *old(downloaded) + chunk,
        r == worth_a_word(*old(downloaded), *final(downloaded)),
{
    let before: u64 = *downloaded;
    let after: u64 = before + chunk;
    *downloaded = after;
    if after / MEGABYTE != before / MEGABYTE {
        Some(after)
    } else {
        None
    }
}

/// The user is asked to install exactly if there is a newer version. The answer names
/// that version; it says that there is none where there is none; and a failure is told in
/// its own words.
pub proof fn law_what_a_check_comes_to(check: Check, version: String, message: String)
    ensures
        check == (Check::Found { version }) ==> prompts(check) && (told(check) matches Ok(text)
            && text.len() == 7 + version@.len() && text.take(7) == "update:"@ && text.skip(7)
            == version@),
        check == Check::Latest ==> !prompts(check) && told(check) == Ok::<Seq<char>, Seq<char>>(
            "latest"@,
        ),
        check == (Check::Failed { message }) ==> !prompts(check) && told(check) == Err::<
            Seq<char>,
            Seq<char>,
        >(message@),
{
    reveal_strlit("update:");
    assert("update:"@.len() == 7);
    let text = "update:"@ + version@;
    assert(text.take(7) =~= "update:"@);
    assert(text.skip(7) =~= version@);
}

/// The question and the note name the version and do not otherwise depend on it.
pub proof fn law_words_name_the_version(a: Seq<char>, b: Seq<char>)
    ensures
        exists|before: Seq<char>, behind: Seq<char>|
            question(a) == #[trigger] (before + a + behind) && question(b) == before + b + behind,
        exists|before: Seq<char>, behind: Seq<char>|
            note(a) == #[trigger] (before + a + behind) && note(b) == before + b + behind,
{
    let before = "发现新版本 v"@;
    let behind = "，现在更新？\n将自动下载安装并重启桌宠。"@;
    assert(question(a) == before + a + behind && question(b) == before + b + behind);
    let start = "正在下载 v"@;
    let end = "……\n完成后将自动重启桌宠。"@;
    assert(note(a) == start + a + end && note(b) == start + b + end);
}

/// Only an express yes is consent.
pub proof fn law_consent(reply: Option<bool>)
    ensures
        consents(reply) <==> (reply matches Some(agreed) && agreed),
{
}

/// A download that succeeds leads to a restart, whichever it was; the first that fails to
/// another one after three seconds; and any later one that fails is the last, and the user
/// is told why.
pub proof fn law_what_a_download_leads_to(attempt: u32, words: Seq<char>)
    requires
        attempt >= 1,
    ensures
        follows(attempt, None) == InstallView::Restart,
        attempt == 1 ==> follows(attempt, Some(words)) == (InstallView::Again { delay: 3 }),
        attempt >= 2 ==> (follows(attempt, Some(words)) matches InstallView::GiveUp { message }
            && message == "更新失败："@ + words),
{
}

/// A sum is worth a word exactly if the download went over a whole number of mebibytes
/// with its last piece.
pub proof fn law_progress(before: u64, after: u64)
    requires
        before <= after,
    ensures
        worth_a_word(before, after) is Some <==> (exists|n: int|
            before < #[trigger] (n * 1_048_576) <= after),
        worth_a_word(before, after) matches Some(sum) ==> sum == after,
{
    if after / MEGABYTE != before / MEGABYTE {
        let n = (after / MEGABYTE) as int;
        assert(before < n * 1_048_576 <= after);
    }
    if exists|n: int| before < #[trigger] (n * 1_048_576) <= after {
        let n = choose|n: int| before < #[trigger] (n * 1_048_576) <= after;
        assert(before as int / 1_048_576 < n <= after as int / 1_048_576);
    }
}

} // verus!
