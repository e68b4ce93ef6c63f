//! Windows Task Scheduler: the `schtasks` arguments that register the task, and the
//! decisions drawn from what `schtasks` answers.
//!
//! Paths here follow Windows conventions whatever the host: both `\` and `/` separate
//! components.
use vstd::prelude::*;

use crate::daemon;
use crate::daemon::DaemonStatus;
use crate::text;

verus! {

broadcast use vstd::seq_lib::group_seq_properties;

/// Name of the Task Scheduler task the daemon registers.
pub const TASK_NAME: &'static str = "DevPrune";

/// File name of the windowless scheduler binary, built for the GUI subsystem the way
/// `pythonw.exe` is beside `python.exe`.
pub const WINDOWLESS_BIN: &'static str = "devpw.exe";

/// Marker file (in the config directory) recording that the scheduler refused the
/// sessionless registration.
pub const REFUSED_MARKER: &'static str = "scheduler-windowless-refused";

/// What `schtasks` is told to run: the executable quoted, then `run --yes --daemon`.
pub const TASK_ARGS: &'static str = "\" run --yes --daemon";

/// The reason given for a task-list query that failed without saying why.
pub const SILENT_QUERY_FAILURE: &'static str = "schtasks query failed without a message";

/// The `/SC DAILY /MO` modifier: `schtasks` accepts 1 to 365 and nothing else.
pub open spec fn clamp_interval(interval_days: u64) -> u64 {
    if interval_days < 1 {
        1
    } else if interval_days > 365 {
        365
    } else {
        interval_days
    }
}

/// The `/TR` value: the executable quoted so a path with spaces is one argument, and
/// `--yes` because a scheduled task has no console to prompt on.
pub open spec fn task_command(exe_path: Seq<char>) -> Seq<char> {
    "\""@ + exe_path + TASK_ARGS@
}

/// The `schtasks` arguments that register the visible, interactive task.
pub open spec fn install_args(exe_path: Seq<char>, interval_days: u64) -> Seq<Seq<char>> {
    seq![
        "/Create"@,
        "/SC"@,
        "DAILY"@,
        "/MO"@,
        text::decimal(clamp_interval(interval_days) as nat),
        "/TN"@,
        TASK_NAME@,
        "/TR"@,
        task_command(exe_path),
        "/F"@,
    ]
}

/// The `schtasks` arguments for a sessionless (S4U) registration: the interactive
/// ones, then `/RU <account> /NP`.
pub open spec fn windowless_args(exe_path: Seq<char>, interval_days: u64, account: Seq<char>) -> Seq<
    Seq<char>,
> {
    install_args(exe_path, interval_days) + seq!["/RU"@, account, "/NP"@]
}

fn push_owned(v: &mut Vec<String>, s: &str)
    ensures
        text::views(final(v)@) == text::views(old(v)@).push(s@),
{
    let ghost before = v@;
    v.push(text::owned(s));
    assert(text::views(v@) =~= text::views(before).push(s@));
}

/// Builds the schtasks command arguments for installation.
pub fn build_install_command(exe_path: &str, interval_days: u64) -> (r: Vec<String>)
    ensures
        text::views(r@) == install_args(exe_path@, interval_days),
{
    let days: u64 = if interval_days < 1 {
        1
    } else if interval_days > 365 {
        365
    } else {
        interval_days
    };
    let digits = text::decimal_chars(days);
    let mut command: Vec<char> = Vec::new();
    text::push_str(&mut command, "\"");
    text::push_str(&mut command, exe_path);
    text::push_str(&mut command, TASK_ARGS);
    let mut r: Vec<String> = Vec::new();
    assert(text::views(r@) =~= Seq::<Seq<char>>::empty());
    push_owned(&mut r, "/Create");
    push_owned(&mut r, "/SC");
    push_owned(&mut r, "DAILY");
    push_owned(&mut r, "/MO");
    let ghost before = r@;
    r.push(text::string_of(&digits));
    assert(text::views(r@) =~= text::views(before).push(digits@));
    push_owned(&mut r, "/TN");
    push_owned(&mut r, TASK_NAME);
    push_owned(&mut r, "/TR");
    let ghost before2 = r@;
    r.push(text::string_of(&command));
    assert(text::views(r@) =~= text::views(before2).push(command@));
    push_owned(&mut r, "/F");
    assert(text::views(r@) =~= install_args(exe_path@, interval_days));
    r
}

/// Builds the schtasks arguments for a sessionless (S4U) installation.
///
/// `/RU <account> /NP` registers the task to run whether the user is logged on or not,
/// without storing a password. Such a task runs in a non-interactive session, so no
/// console window flashes at whoever is logged in.
pub fn build_install_command_windowless(exe_path: &str, interval_days: u64, account: &str) -> (r:
    Vec<String>)
    ensures
        text::views(r@) == windowless_args(exe_path@, interval_days, account@),
{
    let mut args = build_install_command(exe_path, interval_days);
    push_owned(&mut args, "/RU");
    push_owned(&mut args, account);
    push_owned(&mut args, "/NP");
    args
}

/// The account to register the S4U task under, from the values of `USERNAME` and
/// `USERDOMAIN`: `DOMAIN\user`, or the user alone when there is no domain.
pub open spec fn account_name(user: Option<Seq<char>>, domain: Option<Seq<char>>) -> Option<
    Seq<char>,
> {
    match user {
        Some(u) => if u.len() == 0 {
            None
        } else {
            match domain {
                Some(d) => if d.len() > 0 {
                    Some(d + "\\"@ + u)
                } else {
                    Some(u)
                },
                None => Some(u),
            }
        },
        None => None,
    }
}

/// The account to register the S4U task under, given the environment's `USERNAME`
/// and `USERDOMAIN` (`None` where unset).
pub fn current_account(user: Option<&str>, domain: Option<&str>) -> (r: Option<String>)
    ensures
        text::opt_view(r) == account_name(
            match user {
                Some(u) => Some(u@),
                None => None,
            },
            match domain {
                Some(d) => Some(d@),
                None => None,
            },
        ),
{
    let u = match user {
        Some(u) => text::chars_of(u),
        None => return None,
    };
    if u.len() == 0 {
        return None;
    }
    let mut out: Vec<char> = Vec::new();
    match domain {
        Some(d) => {
            let dv = text::chars_of(d);
            if dv.len() > 0 {
                text::push_all(&mut out, &dv);
                text::push_str(&mut out, "\\");
            }
        },
        None => {},
    }
    text::push_all(&mut out, &u);
    Some(text::string_of(&out))
}

/// Whether a file in the config directory is a scheduler refusal marker, under any
/// spelling a release has used: `scheduler-*-refused`.
pub open spec fn is_refusal_marker(name: Seq<char>) -> bool {
    text::starts_with(name, "scheduler-"@) && text::ends_with(name, "-refused"@)
}

/// Whether a file name belongs to the `scheduler-*-refused` family that a fresh
/// registration sweeps away, so a renamed marker cannot be stranded by an upgrade.
pub fn is_refusal_marker_name(name: &str) -> (r: bool)
    ensures
        r == is_refusal_marker(name@),
{
    let n = text::chars_of(name);
    text::starts_with_str(&n, "scheduler-") && text::ends_with_str(&n, "-refused")
}

/// A path separator on Windows.
pub open spec fn is_sep(c: char) -> bool {
    c == '\\' || c == '/'
}

/// The index of the last separator in `p`, or -1.
pub open spec fn last_sep(p: Seq<char>) -> int
    decreases p.len(),
{
    if p.len() == 0 {
        -1
    } else if is_sep(p.last()) {
        p.len() - 1
    } else {
        last_sep(p.drop_last())
    }
}

proof fn lemma_last_sep_bounds(p: Seq<char>)
    ensures
        -1 <= last_sep(p) < p.len(),
    decreases p.len(),
{
    if p.len() > 0 && !is_sep(p.last()) {
        lemma_last_sep_bounds(p.drop_last());
    }
}

/// The directory part of `p`, separator included: empty when `p` has none.
pub open spec fn dir_prefix(p: Seq<char>) -> Seq<char> {
    p.take(last_sep(p) + 1)
}

/// The last component of `p`: what follows its last separator.
pub open spec fn file_name(p: Seq<char>) -> Seq<char> {
    p.skip(last_sep(p) + 1)
}

/// The length of the directory part of `p`.
fn dir_prefix_len(p: &[char]) -> (n: usize)
    ensures
        n == last_sep(p@) + 1,
        n <= p.len(),
{
    let mut i: usize = p.len();
    assert(p@.take(i as int) == p@);
    while i > 0 && !(p[i - 1] == '\\' || p[i - 1] == '/')
        invariant
            i <= p.len(),
            last_sep(p@) == last_sep(p@.take(i as int)),
        decreases i,
    {
        assert(p@.take(i as int).drop_last() == p@.take(i - 1));
        i = i - 1;
    }
    proof {
        if i > 0 {
            assert(p@.take(i as int).last() == p@[i - 1]);
        }
    }
    i
}

/// The windowless twin's path: `devpw.exe` beside the binary the scheduler would
/// otherwise run.
pub fn windowless_twin_path(exe_path: &str) -> (r: String)
    ensures
        r@ == dir_prefix(exe_path@) + WINDOWLESS_BIN@,
{
    let p = text::chars_of(exe_path);
    let n = dir_prefix_len(&p);
    let mut out = text::slice_of(&p, 0, n);
    assert(out@ == dir_prefix(exe_path@));
    text::push_str(&mut out, WINDOWLESS_BIN);
    text::string_of(&out)
}

/// The name in the first CSV field of a task-list row, spaces and quotes removed.
pub open spec fn row_name(line: Seq<char>) -> Seq<char> {
    text::trim_matches(text::trim(text::before_char(line, ',')), '"')
}

/// Whether a task-list row is this daemon's task. The name is matched rather than any
/// message because task names are not localised.
pub open spec fn names_task(line: Seq<char>) -> bool {
    text::eq_ignore_ascii_case(row_name(line), "\\"@ + TASK_NAME@)
}

/// Whether any row of a task listing is this daemon's task.
pub open spec fn lists_task(ls: Seq<Seq<char>>) -> bool {
    exists|i: int| 0 <= i < ls.len() && names_task(#[trigger] ls[i])
}

/// Why a failed task-list query is reported as unknown.
pub open spec fn query_failure_reason(stderr: Seq<char>) -> Seq<char> {
    let reason = text::trim(stderr);
    if reason.len() == 0 {
        SILENT_QUERY_FAILURE@
    } else {
        reason
    }
}

fn row_names_task(line: &[char]) -> (r: bool)
    ensures
        r == names_task(line@),
{
    let field = text::before_char_chars(line, ',');
    let t = text::trim_chars(&field);
    let name = text::trim_matches_chars(&t, '"');
    let mut want: Vec<char> = Vec::new();
    text::push_str(&mut want, "\\");
    text::push_str(&mut want, TASK_NAME);
    text::eq_ignore_ascii_case_chars(&name, &want)
}

/// Decide the task's state from the output of a task-list query
/// (`schtasks /Query /FO CSV /NH`).
///
/// A failed enumeration is unknown, never absent: reading access-denied as absent would
/// make every run reinstall a task that is already there. Otherwise the task is
/// installed exactly when some row's first field names it, ignoring ASCII case.
pub fn classify_query(succeeded: bool, stdout: &str, stderr: &str) -> (r: DaemonStatus)
    ensures
        match r {
            DaemonStatus::Installed => succeeded && lists_task(text::lines(stdout@)),
            DaemonStatus::NotInstalled => succeeded && !lists_task(text::lines(stdout@)),
            DaemonStatus::Unknown(why) => !succeeded && why@ == query_failure_reason(stderr@),
        },
{
    if !succeeded {
        let e = text::chars_of(stderr);
        let reason = text::trim_chars(&e);
        if reason.len() == 0 {
            return DaemonStatus::Unknown(text::owned(SILENT_QUERY_FAILURE));
        }
        return DaemonStatus::Unknown(text::string_of(&reason));
    }
    let out = text::chars_of(stdout);
    let ls = text::lines_of(&out);
    let ghost rows = text::lines(stdout@);
    let mut i: usize = 0;
    while i < ls.len()
        invariant
            i <= ls.len(),
            succeeded,
            rows == text::lines(stdout@),
            text::seqs_of(ls@) == rows,
            forall|j: int| 0 <= j < i ==> !names_task(#[trigger] rows[j]),
        decreases ls.len() - i,
    {
        assert(rows[i as int] == ls@[i as int]@);
        if row_names_task(&ls[i]) {
            assert(names_task(rows[i as int]));
            assert(lists_task(rows));
            return DaemonStatus::Installed;
        }
        i = i + 1;
    }
    DaemonStatus::NotInstalled
}

/// Checks the status of the task from the outcome of the task-list query.
pub fn status(succeeded: bool, stdout: &str, stderr: &str) -> (r: DaemonStatus)
    ensures
        match r {
            DaemonStatus::Installed => succeeded && lists_task(text::lines(stdout@)),
            DaemonStatus::NotInstalled => succeeded && !lists_task(text::lines(stdout@)),
            DaemonStatus::Unknown(why) => !succeeded && why@ == query_failure_reason(stderr@),
        },
{
    classify_query(succeeded, stdout, stderr)
}

/// Little-endian byte pairs as UTF-16 code units; an odd trailing byte is dropped.
pub open spec fn le_units(b: Seq<u8>) -> Seq<u16> {
    Seq::new(b.len() / 2, |i: int| (b[2 * i] + 256 * b[2 * i + 1]) as u16)
}

/// Whether bytes open with the UTF-16LE byte-order mark.
pub open spec fn has_utf16_bom(bytes: Seq<u8>) -> bool {
    bytes.len() >= 2 && bytes[0] == 0xFF && bytes[1] == 0xFE
}

/// The text of what `schtasks /XML` wrote: UTF-16LE after a byte-order mark, UTF-8
/// otherwise.
pub open spec fn decoded_xml(bytes: Seq<u8>) -> Seq<char> {
    if has_utf16_bom(bytes) {
        text::utf16_lossy(le_units(bytes.skip(2)))
    } else {
        text::utf8_lossy(bytes)
    }
}

/// Decode the bytes `schtasks /XML` writes.
///
/// It emits UTF-16LE with a byte-order mark, not the console codepage every other
/// `schtasks` query uses; read as UTF-8 the document would come back separated by NUL
/// characters, which no search for an element name would ever match.
pub fn decode_schtasks_xml(bytes: &[u8]) -> (r: String)
    ensures
        r@ == decoded_xml(bytes@),
{
    if bytes.len() >= 2 && bytes[0] == 0xFF && bytes[1] == 0xFE {
        let body = bytes.len() - 2;
        let n = body / 2;
        let mut units: Vec<u16> = Vec::new();
        let mut k: usize = 0;
        while k < n
            invariant
                bytes.len() >= 2,
                n == (bytes.len() - 2) / 2,
                k <= n,
                units@.len() == k,
                forall|j: int|
                    0 <= j < k ==> #[trigger] units@[j] == (bytes@[2 + 2 * j] + 256 * bytes@[2
                        + 2 * j + 1]) as u16,
            decreases n - k,
        {
            let lo = bytes[2 + 2 * k] as u16;
            let hi = bytes[3 + 2 * k] as u16;
            units.push(lo + hi * 256);
            k = k + 1;
        }
        let ghost tail = bytes@.skip(2);
        assert(units@ =~= le_units(tail));
        text::from_utf16_lossy(&units)
    } else {
        text::from_utf8_lossy(bytes)
    }
}

/// The contents of the first `<tag>…</tag>` element in `xml`, unprocessed.
pub open spec fn element_text(xml: Seq<char>, open: Seq<char>, close: Seq<char>) -> Option<
    Seq<char>,
> {
    match text::find(xml, open) {
        Some(s) => {
            let start = s + open.len();
            match text::find(xml.skip(start), close) {
                Some(e) => Some(xml.subrange(start, start + e)),
                None => None,
            }
        },
        None => None,
    }
}

fn element_text_of(xml: &[char], open: &str, close: &str) -> (r: Option<Vec<char>>)
    ensures
        match r {
            Some(v) => element_text(xml@, open@, close@) == Some(v@),
            None => element_text(xml@, open@, close@) is None,
        },
{
    let o = text::chars_of(open);
    let xlen = xml.len();
    proof {
        text::lemma_find(xml@, o@);
    }
    let s = match text::find_chars(xml, &o) {
        Some(s) => s,
        None => return None,
    };
    let start = s + o.len();
    let tail = text::slice_of(xml, start, xml.len());
    assert(tail@ == xml@.skip(start as int));
    let c = text::chars_of(close);
    proof {
        text::lemma_find(tail@, c@);
    }
    let e = match text::find_chars(&tail, &c) {
        Some(e) => e,
        None => return None,
    };
    Some(text::slice_of(xml, start, start + e))
}

/// The executable a task definition runs: the `<Command>` element, trimmed, unquoted
/// and unescaped; `None` when there is none or it is empty.
pub open spec fn registered_command(xml: Seq<char>) -> Option<Seq<char>> {
    match element_text(xml, "<Command>"@, "</Command>"@) {
        Some(raw) => {
            let command = text::trim(text::trim_matches(text::trim(raw), '"'));
            if command.len() == 0 {
                None
            } else {
                Some(daemon::xml_unescape_spec(command))
            }
        },
        None => None,
    }
}

/// Pull the executable out of a task definition.
///
/// `<Actions><Exec><Command>` holds the program on its own (`schtasks` splits the `/TR`
/// string into `Command` and `Arguments` when it registers the task), and element names
/// are not localised.
pub fn parse_registered_command(xml: &str) -> (r: Option<String>)
    ensures
        text::opt_view(r) == registered_command(xml@),
{
    let x = text::chars_of(xml);
    let raw = match element_text_of(&x, "<Command>", "</Command>") {
        Some(raw) => raw,
        None => return None,
    };
    let a = text::trim_chars(&raw);
    let b = text::trim_matches_chars(&a, '"');
    let command = text::trim_chars(&b);
    if command.len() == 0 {
        return None;
    }
    let unescaped = daemon::xml_unescape(&command);
    Some(text::string_of(&unescaped))
}

/// The binary the registered task runs, read out of its definition (`None` when no
/// definition could be read).
pub fn registered_exe_path(task_xml: Option<&str>) -> (r: Option<String>)
    ensures
        text::opt_view(r) == match task_xml {
            Some(x) => registered_command(x@),
            None => None,
        },
{
    match task_xml {
        Some(x) => parse_registered_command(x),
        None => None,
    }
}

/// Whether a task definition's logon type is the interactive token, the one whose
/// console window flashes at the logged-in user; `None` when it names none.
pub open spec fn is_interactive(xml: Seq<char>) -> Option<bool> {
    match element_text(xml, "<LogonType>"@, "</LogonType>"@) {
        Some(raw) => Some(text::trim(raw) == "InteractiveToken"@),
        None => None,
    }
}

/// Whether a task definition runs with the interactive token.
pub fn parse_is_interactive(xml: &str) -> (r: Option<bool>)
    ensures
        r == is_interactive(xml@),
{
    let x = text::chars_of(xml);
    match element_text_of(&x, "<LogonType>", "</LogonType>") {
        Some(raw) => {
            let t = text::trim_chars(&raw);
            Some(text::chars_eq_str(&t, "InteractiveToken"))
        },
        None => None,
    }
}

/// Whether a task definition already runs the windowless twin, which cannot flash
/// whatever its logon type.
pub open spec fn runs_twin(xml: Seq<char>) -> bool {
    match registered_command(xml) {
        Some(exe) => text::eq_ignore_ascii_case(file_name(exe), WINDOWLESS_BIN@),
        None => false,
    }
}

/// The upgrade decision: there is a definition to read, it does not already run the
/// twin, this machine has not refused the upgrade, and it names a logon type.
pub open spec fn upgrade_wanted(task_xml: Option<Seq<char>>, refused_marker: bool) -> bool {
    match task_xml {
        Some(xml) => !runs_twin(xml) && !refused_marker && is_interactive(xml) is Some,
        None => false,
    }
}

/// True when the installed task would flash a console window and this machine has not
/// already refused the registration that fixes it.
///
/// `task_xml` is the task definition read back (`None` when it could not be read: a
/// task that cannot be read is not re-registered on a guess), and `refused_marker`
/// whether the refusal marker exists. An S4U task from an earlier release shows no
/// window but is sessionless, so it still counts as an upgrade.
pub fn wants_windowless_upgrade(task_xml: Option<&str>, refused_marker: bool) -> (r: bool)
    ensures
        r == upgrade_wanted(
            match task_xml {
                Some(x) => Some(x@),
                None => None,
            },
            refused_marker,
        ),
{
    let xml = match task_xml {
        Some(x) => x,
        None => return false,
    };
    match parse_registered_command(xml) {
        Some(exe) => {
            let p = text::chars_of(exe.as_str());
            let n = dir_prefix_len(&p);
            let name = text::slice_of(&p, n, p.len());
            assert(name@ == file_name(p@));
            let bin = text::chars_of(WINDOWLESS_BIN);
            if text::eq_ignore_ascii_case_chars(&name, &bin) {
                return false;
            }
        },
        None => {},
    }
    if refused_marker {
        return false;
    }
    parse_is_interactive(xml).is_some()
}

/// Why an uninstall that left the task in place failed.
pub open spec fn uninstall_failure(stderr: Seq<char>) -> Seq<char> {
    "Failed to uninstall task: "@ + stderr
}

/// The outcome of removing the task: `schtasks /Delete` succeeding, or the scheduler
/// answering afterwards that no such task exists (a delete that failed because there
/// was nothing to delete is the state asked for; its error text is localised, so the
/// scheduler is asked rather than the text read). `status_after` is that answer, when
/// the query could run.
pub fn uninstall(delete_succeeded: bool, status_after: Option<&DaemonStatus>, stderr: &str) -> (r:
    Result<(), String>)
    ensures
        r is Ok <==> (delete_succeeded || status_after matches Some(DaemonStatus::NotInstalled)),
        r matches Err(m) ==> m@ == uninstall_failure(stderr@),
{
    if delete_succeeded {
        return Ok(());
    }
    match status_after {
        Some(DaemonStatus::NotInstalled) => Ok(()),
        _ => {
            let mut m: Vec<char> = Vec::new();
            text::push_str(&mut m, "Failed to uninstall task: ");
            text::push_str(&mut m, stderr);
            Err(text::string_of(&m))
        },
    }
}

} // verus!
