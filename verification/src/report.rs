//! What `start` and `stop` say and decide.

use crate::stats::Summary;
use crate::{ca, numbers, stats, text};
use vstd::prelude::*;

verus! {

/// What `start` says of the proxy.
pub fn listening(port: u16, ca_path: &str) -> (out: String)
    ensures
        out@ == "cicache listening on 127.0.0.1:"@ + numbers::decimal(port as nat) + " (CA at "@
            + ca_path@ + ")"@,
{
    let mut out = "cicache listening on 127.0.0.1:".to_string();
    numbers::push_decimal(&mut out, port as u128);
    out.append(" (CA at ");
    out.append(ca_path);
    out.append(")");
    out
}

/// What `start` says where there is no cache service, which takes an address and a token. Inside
/// Actions this is almost always the missing re-export rather than a deliberate local-only run:
/// GitHub hands the cache-service variables to JavaScript actions and withholds them from `run:`
/// steps.
pub open spec fn notice(address: bool, token: bool, in_actions: bool) -> Option<Seq<char>> {
    if address && token {
        None
    } else if in_actions {
        Some(
            "::warning title=cicache::"@ + (if !address {
                "ACTIONS_RESULTS_URL"@
            } else {
                "ACTIONS_RUNTIME_TOKEN"@
            })
                + " is not set, so nothing will be stored beyond this job. Export the cache-service variables before starting the proxy, or use the composite action, which does it for you."@,
        )
    } else {
        Some("cicache: no Actions cache service in the environment; local cache only"@)
    }
}

/// What `start` says where there is no cache service, given whether its address and its token are
/// set.
pub fn service_notice(address: bool, token: bool, in_actions: bool) -> (out: Option<String>)
    ensures
        text::optional_string(out) == notice(address, token, in_actions),
{
    if address && token {
        None
    } else if in_actions {
        let name = if !address {
            "ACTIONS_RESULTS_URL"
        } else {
            "ACTIONS_RUNTIME_TOKEN"
        };
        Some(
            text::concat3(
                "::warning title=cicache::",
                name,
                " is not set, so nothing will be stored beyond this job. Export the cache-service variables before starting the proxy, or use the composite action, which does it for you.",
            ),
        )
    } else {
        Some("cicache: no Actions cache service in the environment; local cache only".to_string())
    }
}

/// Whether a variable is set to something.
pub fn is_set(value: Option<&str>) -> (out: bool)
    ensures
        out == (value matches Some(s) && s@.len() > 0),
{
    match value {
        Some(s) => s.unicode_len() > 0,
        None => false,
    }
}

/// Whether something is to be waited for: it has not been reported, and there is time left.
pub fn keep_waiting(reported: bool, overdue: bool) -> (out: bool)
    ensures
        out == (!reported && !overdue),
{
    !reported && !overdue
}

/// Whether modifying the machine's trust store is appropriate. Runners are disposable; a
/// developer's laptop is not, so this stays out of the keychain outside CI.
pub fn may_touch_system_trust(macos: bool, in_actions: bool) -> (out: bool)
    ensures
        out == (macos && in_actions),
{
    macos && in_actions
}

/// The system keychain of macOS.
pub open spec fn keychain() -> Seq<char> {
    "/Library/Keychains/System.keychain"@
}

/// The command that adds the CA to the macOS system keychain, behind `sudo`.
///
/// Anything verifying through the platform reads the keychain and ignores the CA environment
/// variables entirely, so this is the only way those tools can talk to the proxy.
pub fn install_command(ca_path: &str) -> (out: Vec<String>)
    ensures
        text::texts(out@) == seq![
            "-n"@,
            "security"@,
            "add-trusted-cert"@,
            "-d"@,
            "-r"@,
            "trustRoot"@,
            "-k"@,
            keychain(),
            ca_path@,
        ],
{
    let out: Vec<String> = vec![
        "-n".to_string(),
        "security".to_string(),
        "add-trusted-cert".to_string(),
        "-d".to_string(),
        "-r".to_string(),
        "trustRoot".to_string(),
        "-k".to_string(),
        "/Library/Keychains/System.keychain".to_string(),
        ca_path.to_string(),
    ];
    assert(text::texts(out@) =~= seq![
        "-n"@,
        "security"@,
        "add-trusted-cert"@,
        "-d"@,
        "-r"@,
        "trustRoot"@,
        "-k"@,
        keychain(),
        ca_path@,
    ]);
    out
}

/// What there is to say once the command that adds the CA has ended, well or not, or has not.
pub fn install_note(succeeded: Option<bool>) -> (out: &'static str)
    ensures
        out@ == (match succeeded {
            Some(true) => "cicache: added the CA to the system keychain"@,
            Some(false) =>
                "::warning title=cicache::could not add the CA to the system keychain; tools that verify through the platform will not reach the proxy"@,
            None => "::warning title=cicache::security(1) did not finish; skipping"@,
        }),
{
    match succeeded {
        Some(true) => "cicache: added the CA to the system keychain",
        Some(false) =>
            "::warning title=cicache::could not add the CA to the system keychain; tools that verify through the platform will not reach the proxy",
        None => "::warning title=cicache::security(1) did not finish; skipping",
    }
}

/// The commands that undo [`install_command`], behind `sudo`.
pub fn remove_commands(ca_path: &str) -> (out: (Vec<String>, Vec<String>))
    ensures
        text::texts(out.0@) == seq!["-n"@, "security"@, "remove-trusted-cert"@, "-d"@, ca_path@],
        text::texts(out.1@) == seq![
            "-n"@,
            "security"@,
            "delete-certificate"@,
            "-c"@,
            ca::authority_name(),
            "-t"@,
            keychain(),
        ],
{
    let untrust: Vec<String> = vec![
        "-n".to_string(),
        "security".to_string(),
        "remove-trusted-cert".to_string(),
        "-d".to_string(),
        ca_path.to_string(),
    ];
    let delete: Vec<String> = vec![
        "-n".to_string(),
        "security".to_string(),
        "delete-certificate".to_string(),
        "-c".to_string(),
        ca::ca_common_name().to_string(),
        "-t".to_string(),
        "/Library/Keychains/System.keychain".to_string(),
    ];
    assert(text::texts(untrust@) =~= seq![
        "-n"@,
        "security"@,
        "remove-trusted-cert"@,
        "-d"@,
        ca_path@,
    ]);
    assert(text::texts(delete@) =~= seq![
        "-n"@,
        "security"@,
        "delete-certificate"@,
        "-c"@,
        ca::authority_name(),
        "-t"@,
        keychain(),
    ]);
    (untrust, delete)
}

/// What is to be done with a command that is waited for.
#[derive(Debug, Clone, Copy, PartialEq, Eq, Structural)]
pub enum Wait {
    /// It has ended, well or not.
    Ended(bool),
    /// It is to be killed.
    Kill,
    /// It is to be looked at again.
    Again,
    /// It cannot be waited for.
    GiveUp,
}

/// Decides what is to be done with a command that is waited for, given whether it has ended, and
/// well, or why that cannot be told, and whether its time is over.
///
/// `security(1)` can block on an authorization prompt that a runner has no way to answer. Left
/// unbounded that hangs the teardown step until the job's own timeout fires, which costs far more
/// than the trust entry is worth; the runner is discarded either way.
pub fn run_bounded(ended: Result<Option<bool>, ()>, overdue: bool) -> (out: Wait)
    ensures
        out == (match ended {
            Ok(Some(well)) => Wait::Ended(well),
            Ok(None) => if overdue {
                Wait::Kill
            } else {
                Wait::Again
            },
            Err(_) => Wait::GiveUp,
        }),
{
    match ended {
        Ok(Some(well)) => Wait::Ended(well),
        Ok(None) => if overdue {
            Wait::Kill
        } else {
            Wait::Again
        },
        Err(_) => Wait::GiveUp,
    }
}

/// What is wrong with a run that should be known: any upload that did not land means a later job
/// re-downloads that object.
pub open spec fn complaint(s: Summary) -> Option<Seq<char>> {
    if s.stored > 0 && s.entries_stored == 0 {
        Some(
            "::warning title=cicache::"@ + numbers::decimal(s.stored as nat)
                + " responses were eligible to cache but none reached the cache service; later jobs will start cold."@,
        )
    } else if s.uploads_failed > 0 {
        Some(
            "::warning title=cicache::"@ + numbers::decimal(s.uploads_failed as nat) + " of "@
                + numbers::decimal((s.uploads_failed + s.entries_stored) as nat)
                + " objects failed to reach the cache service."@,
        )
    } else {
        None
    }
}

/// What `stop` warns of. Where it warns, the reason belongs in the job's log whether some of the
/// uploads succeeded or none of them did, so the daemon's log is shown too.
pub fn warning(summary: &Summary) -> (out: Option<String>)
    requires
        summary.uploads_failed + summary.entries_stored <= u64::MAX,
    ensures
        out is Some == complaint(*summary) is Some,
        out matches Some(s) ==> Some(s@) == complaint(*summary),
{
    if summary.stored > 0 && summary.entries_stored == 0 {
        let mut out = "::warning title=cicache::".to_string();
        numbers::push_decimal(&mut out, summary.stored as u128);
        out.append(
            " responses were eligible to cache but none reached the cache service; later jobs will start cold.",
        );
        Some(out)
    } else if summary.uploads_failed > 0 {
        let mut out = "::warning title=cicache::".to_string();
        numbers::push_decimal(&mut out, summary.uploads_failed as u128);
        out.append(" of ");
        let all: u64 = summary.uploads_failed + summary.entries_stored;
        numbers::push_decimal(&mut out, all as u128);
        out.append(" objects failed to reach the cache service.");
        Some(out)
    } else {
        None
    }
}

/// What `stop` says of a run, given the summary that the proxy left, if it did before the timeout.
pub open spec fn verdict(summary: Option<Summary>) -> Seq<char> {
    match summary {
        None => "cicache: proxy did not report a summary before the timeout\n"@,
        Some(s) => stats::summary_text(s) + "\n"@ + match complaint(s) {
            Some(words) => words + "\n"@,
            None => Seq::empty(),
        },
    }
}

/// Whether `stop` shows the end of the daemon's log.
pub open spec fn needs_daemon_log(summary: Option<Summary>) -> bool {
    match summary {
        None => true,
        Some(s) => complaint(s) is Some,
    }
}

/// What `stop` says of a run, and whether it shows the end of the daemon's log with it.
pub fn stop_report(summary: Option<&Summary>) -> (out: (String, bool))
    requires
        summary matches Some(s) ==> s.hits + s.misses <= u64::MAX && s.uploads_failed
            + s.entries_stored <= u64::MAX,
    ensures
        out.0@ == verdict(
            match summary {
                Some(s) => Some(*s),
                None => None,
            },
        ),
        out.1 == needs_daemon_log(
            match summary {
                Some(s) => Some(*s),
                None => None,
            },
        ),
{
    match summary {
        None => (
            "cicache: proxy did not report a summary before the timeout\n".to_string(),
            true,
        ),
        Some(s) => {
            let mut out = s.render();
            out.append("\n");
            match warning(s) {
                Some(words) => {
                    let ghost had = out@;
                    out.append(words.as_str());
                    out.append("\n");
                    assert(out@ =~= had + (words@ + "\n"@));
                    (out, true)
                },
                None => {
                    assert(out@ + Seq::<char>::empty() =~= out@);
                    (out, false)
                },
            }
        },
    }
}

/// The last twenty of some lines.
pub open spec fn last_lines(lines: Seq<Seq<char>>) -> Seq<Seq<char>> {
    if lines.len() > 20 {
        lines.skip(lines.len() - 20)
    } else {
        lines
    }
}

/// Lines, each ended.
pub open spec fn printed(lines: Seq<Seq<char>>) -> Seq<char>
    decreases lines.len(),
{
    if lines.len() == 0 {
        Seq::empty()
    } else {
        printed(lines.drop_last()) + lines.last() + "\n"@
    }
}

/// A group of the job's log.
pub open spec fn group(title: Seq<char>, contents: Seq<char>) -> Seq<char> {
    "::group::"@ + title + "\n"@ + contents + "::endgroup::\n"@
}

/// The end of the daemon's log as the job's log shows it, or nothing where it has no lines.
/// Surfaces the proxy's own output, which otherwise only reaches the daemon log file.
pub fn daemon_log(log: &str) -> (out: String)
    ensures
        out@ == if text::lines(log@).len() == 0 {
            Seq::empty()
        } else {
            group("cicache daemon log"@, printed(last_lines(text::lines(log@))))
        },
{
    let chars = text::to_chars(log);
    let lines = text::lines_of(chars.as_slice());
    let ghost all = text::runs(lines@);
    let ghost last = last_lines(all);
    let mut out = String::new();
    if lines.len() == 0 {
        return out;
    }
    out.append("::group::");
    assert(out@ =~= "::group::"@);
    out.append("cicache daemon log");
    out.append("\n");
    let ghost head = out@;
    let from: usize = if lines.len() > 20 {
        lines.len() - 20
    } else {
        0
    };
    let mut i: usize = from;
    assert(last.take(0) =~= Seq::empty());
    assert(out@ =~= head + printed(last.take(0)));
    while i < lines.len()
        invariant
            from <= i <= lines.len(),
            all == text::runs(lines@),
            last == last_lines(all),
            from == all.len() - last.len(),
            out@ == head + printed(last.take(i - from)),
        decreases lines.len() - i,
    {
        let ghost had = out@;
        let line = text::from_chars(lines[i].as_slice());
        out.append(line.as_str());
        out.append("\n");
        assert(last.take(i + 1 - from).drop_last() =~= last.take(i - from));
        assert(last.take(i + 1 - from).last() == line@);
        assert(out@ =~= head + printed(last.take(i + 1 - from)));
        i += 1;
    }
    assert(last.take(i - from) =~= last);
    out.append("::endgroup::\n");
    out
}

/// The request log as the job's log shows it.
pub fn request_log(log: &str) -> (out: String)
    ensures
        out@ == group("cicache requests"@, log@),
{
    let out = text::concat5("::group::", "cicache requests", "\n", log, "::endgroup::\n");
    out
}

/// Nothing is said of the cache service where its address and its token are there. Where one is not,
/// the job is warned that nothing will be stored, and told the first that is missing; outside Actions
/// it is only mentioned.
pub proof fn law_missing_variables_are_named(address: bool, token: bool, in_actions: bool)
    ensures
        notice(address, token, in_actions) is None <==> address && token,
        !(address && token) && !in_actions ==> notice(address, token, in_actions) == Some(
            "cicache: no Actions cache service in the environment; local cache only"@,
        ),
        !address && in_actions ==> notice(address, token, in_actions) == Some(
            "::warning title=cicache::"@ + "ACTIONS_RESULTS_URL"@
                + " is not set, so nothing will be stored beyond this job. Export the cache-service variables before starting the proxy, or use the composite action, which does it for you."@,
        ),
        address && !token && in_actions ==> notice(address, token, in_actions) == Some(
            "::warning title=cicache::"@ + "ACTIONS_RUNTIME_TOKEN"@
                + " is not set, so nothing will be stored beyond this job. Export the cache-service variables before starting the proxy, or use the composite action, which does it for you."@,
        ),
{
}

/// A run in which responses were to be stored and none was, or in which any upload failed, is warned
/// of, with the numbers; no other is.
pub proof fn law_failed_uploads_are_warned_of(s: Summary)
    ensures
        s.stored > 0 && s.entries_stored == 0 ==> complaint(s) == Some(
            "::warning title=cicache::"@ + numbers::decimal(s.stored as nat)
                + " responses were eligible to cache but none reached the cache service; later jobs will start cold."@,
        ),
        !(s.stored > 0 && s.entries_stored == 0) && s.uploads_failed > 0 ==> complaint(s) == Some(
            "::warning title=cicache::"@ + numbers::decimal(s.uploads_failed as nat) + " of "@
                + numbers::decimal((s.uploads_failed + s.entries_stored) as nat)
                + " objects failed to reach the cache service."@,
        ),
        complaint(s) is Some <==> (s.stored > 0 && s.entries_stored == 0) || s.uploads_failed > 0,
{
}

/// What `stop` says begins with the summary, and ends with the warning where there is one; with a
/// warning, or without a summary, it shows the daemon's log, and only then.
pub proof fn law_what_stop_says(s: Summary)
    ensures
        verdict(None) == "cicache: proxy did not report a summary before the timeout\n"@,
        needs_daemon_log(None),
        needs_daemon_log(Some(s)) <==> complaint(s) is Some,
        complaint(s) matches Some(words) ==> verdict(Some(s)) == stats::summary_text(s).push('\n')
            + words.push('\n'),
        complaint(s) is None ==> verdict(Some(s)) == stats::summary_text(s).push('\n'),
{
    reveal_strlit("\n");
    assert(stats::summary_text(s) + "\n"@ =~= stats::summary_text(s).push('\n'));
    match complaint(s) {
        Some(words) => {
            assert(words + "\n"@ =~= words.push('\n'));
            assert(verdict(Some(s)) =~= stats::summary_text(s).push('\n') + words.push('\n'));
        },
        None => {
            assert(verdict(Some(s)) =~= stats::summary_text(s).push('\n'));
        },
    }
}

/// The last lines of a log are its end: all of it, or the last twenty where there are more.
pub proof fn law_the_end_of_a_log(lines: Seq<Seq<char>>, front: Seq<Seq<char>>)
    ensures
        lines.len() <= 20 ==> last_lines(lines) == lines,
        lines.len() == 20 ==> last_lines(front + lines) == lines,
{
    if lines.len() == 20 {
        let whole = front + lines;
        assert(whole.skip(whole.len() - 20) =~= lines);
        assert(last_lines(whole) =~= lines);
    }
}

/// Lines are printed one behind the other, each with a line feed, and shown as a group under a title.
pub proof fn law_logs_are_shown_in_groups(
    lines: Seq<Seq<char>>,
    line: Seq<char>,
    title: Seq<char>,
    contents: Seq<char>,
)
    ensures
        printed(Seq::empty()).len() == 0,
        printed(lines.push(line)) == printed(lines) + line.push('\n'),
        group(title, contents) == "::group::"@ + title.push('\n') + contents + "::endgroup::\n"@,
{
    reveal_strlit("\n");
    assert(lines.push(line).drop_last() =~= lines);
    assert(printed(lines.push(line)) =~= printed(lines) + line.push('\n'));
    assert(group(title, contents) =~= "::group::"@ + title.push('\n') + contents
        + "::endgroup::\n"@);
}

/// The daemon's log is shown as the group of its last lines, or not at all where it has none; the
/// request log is shown whole.
pub proof fn law_which_logs_are_shown(log: &str, daemon: String, requests: String)
    requires
        call_ensures(daemon_log, (log,), daemon),
        call_ensures(request_log, (log,), requests),
    ensures
        text::lines(log@).len() == 0 ==> daemon@.len() == 0,
        text::lines(log@).len() > 0 ==> daemon@ == group(
            "cicache daemon log"@,
            printed(last_lines(text::lines(log@))),
        ),
        requests@ == group("cicache requests"@, log@),
{
}

/// The system's trust store is touched on macOS in CI alone. What is waited for is waited for until it
/// is there or the time is over; a command that has not ended by then is killed.
pub proof fn law_machines_and_time_are_spared(
    macos: bool,
    in_actions: bool,
    touch: bool,
    reported: bool,
    overdue: bool,
    wait: bool,
    ended: Result<Option<bool>, ()>,
    next: Wait,
)
    requires
        call_ensures(may_touch_system_trust, (macos, in_actions), touch),
        call_ensures(keep_waiting, (reported, overdue), wait),
        call_ensures(run_bounded, (ended, overdue), next),
    ensures
        touch <==> macos && in_actions,
        wait <==> !reported && !overdue,
        next == Wait::Ended(true) <==> ended == Ok::<Option<bool>, ()>(Some(true)),
        next == Wait::Ended(false) <==> ended == Ok::<Option<bool>, ()>(Some(false)),
        next is Kill <==> ended == Ok::<Option<bool>, ()>(None) && overdue,
        next is Again <==> ended == Ok::<Option<bool>, ()>(None) && !overdue,
        next is GiveUp <==> ended is Err,
{
}

/// The commands name the certificate at its path, or by the name that it was made with, and the
/// system's keychain: what is added under one is removed under the same.
pub proof fn law_trust_is_removed_as_it_was_added(
    ca_path: &str,
    added: Vec<String>,
    removed: (Vec<String>, Vec<String>),
)
    requires
        call_ensures(install_command, (ca_path,), added),
        call_ensures(remove_commands, (ca_path,), removed),
    ensures
        text::texts(added@) == seq![
            "-n"@,
            "security"@,
            "add-trusted-cert"@,
            "-d"@,
            "-r"@,
            "trustRoot"@,
            "-k"@,
            "/Library/Keychains/System.keychain"@,
            ca_path@,
        ],
        text::texts(removed.0@) == seq![
            "-n"@,
            "security"@,
            "remove-trusted-cert"@,
            "-d"@,
            ca_path@,
        ],
        text::texts(removed.1@) == seq![
            "-n"@,
            "security"@,
            "delete-certificate"@,
            "-c"@,
            "cicache local CA"@,
            "-t"@,
            "/Library/Keychains/System.keychain"@,
        ],
{
}

/// What `start` and `stop` say is said as stated.
pub proof fn law_what_is_said(
    port: u16,
    ca_path: &str,
    at: String,
    address: bool,
    token: bool,
    in_actions: bool,
    noticed: Option<String>,
    value: Option<&str>,
    set_one: bool,
    succeeded: Option<bool>,
    installed: &'static str,
    s: &Summary,
    warned: Option<String>,
    reported: (String, bool),
    timeout: (String, bool),
)
    requires
        call_ensures(listening, (port, ca_path), at),
        call_ensures(service_notice, (address, token, in_actions), noticed),
        call_ensures(is_set, (value,), set_one),
        call_ensures(install_note, (succeeded,), installed),
        call_ensures(warning, (s,), warned),
        call_ensures(stop_report, (Some(s),), reported),
        call_ensures(stop_report, (None,), timeout),
    ensures
        at@ == "cicache listening on 127.0.0.1:"@ + numbers::decimal(port as nat) + " (CA at "@
            + ca_path@ + ")"@,
        noticed is None <==> notice(address, token, in_actions) is None,
        noticed matches Some(words) ==> notice(address, token, in_actions) == Some(words@),
        set_one <==> (value matches Some(words) && words@.len() > 0),
        succeeded == Some(true) ==> installed@ == "cicache: added the CA to the system keychain"@,
        succeeded == Some(false) ==> installed@
            == "::warning title=cicache::could not add the CA to the system keychain; tools that verify through the platform will not reach the proxy"@,
        succeeded is None ==> installed@
            == "::warning title=cicache::security(1) did not finish; skipping"@,
        warned is None <==> complaint(*s) is None,
        warned matches Some(words) ==> complaint(*s) == Some(words@),
        reported.0@ == verdict(Some(*s)),
        reported.1 == needs_daemon_log(Some(*s)),
        timeout.0@ == "cicache: proxy did not report a summary before the timeout\n"@,
        timeout.1,
{
}

} // verus!
