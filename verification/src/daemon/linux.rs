//! The systemd user service and timer.
use vstd::prelude::*;

use crate::daemon::DaemonStatus;
use crate::text;

verus! {

/// What to tell a user whose machine has no systemd to talk to.
///
/// Not every Linux runs systemd and not every systemd session has a user bus, so these
/// get an explanation and a manual alternative rather than a raw error.
pub const NO_SYSTEMD_HELP: &'static str = "systemd user units are not available here. Schedule `dev-prune run --yes --daemon` with whatever this system does use (cron, OpenRC, runit), or run `devp run` by hand — everything else works without a scheduler.";

/// The service unit up to the executable path.
pub const SERVICE_HEAD: &'static str = "[Unit]\nDescription=DevPrune Background Runner\n\n[Service]\nType=oneshot\nExecStart=\"";

/// The service unit after the executable path.
pub const SERVICE_TAIL: &'static str = "\" run --yes --daemon\n";

/// The service unit: the executable quoted so a path with spaces stays one argument,
/// and `--yes` because a timer-launched unit has no terminal to prompt on.
pub open spec fn service_unit(exe_path: Seq<char>) -> Seq<char> {
    SERVICE_HEAD@ + exe_path + SERVICE_TAIL@
}

/// Generates the service unit file content.
pub fn generate_service_unit(exe_path: &str) -> (r: String)
    ensures
        r@ == service_unit(exe_path@),
{
    let mut out: Vec<char> = Vec::new();
    text::push_str(&mut out, SERVICE_HEAD);
    text::push_str(&mut out, exe_path);
    text::push_str(&mut out, SERVICE_TAIL);
    text::string_of(&out)
}

/// The timer unit firing every `max(interval_days, 1)` days: `OnUnitActiveSec`, not an
/// `OnCalendar` day-of-month expression, and `OnBootSec` for a machine that was off.
pub open spec fn timer_unit(interval_days: u64) -> Seq<char> {
    let d = text::decimal(crate::daemon::effective_interval(interval_days) as nat);
    "[Unit]\nDescription=Run DevPrune every "@ + d
        + " day(s)\n\n[Timer]\nOnBootSec=15min\nOnUnitActiveSec="@ + d
        + "d\n\n[Install]\nWantedBy=timers.target\n"@
}

/// Generates the timer unit file content.
pub fn generate_timer_unit(interval_days: u64) -> (r: String)
    ensures
        r@ == timer_unit(interval_days),
{
    let days = if interval_days < 1 {
        1
    } else {
        interval_days
    };
    let d = text::decimal_chars(days);
    let mut out: Vec<char> = Vec::new();
    text::push_str(&mut out, "[Unit]\nDescription=Run DevPrune every ");
    text::push_all(&mut out, &d);
    text::push_str(&mut out, " day(s)\n\n[Timer]\nOnBootSec=15min\nOnUnitActiveSec=");
    text::push_all(&mut out, &d);
    text::push_str(&mut out, "d\n\n[Install]\nWantedBy=timers.target\n");
    text::string_of(&out)
}

/// The reason an unrecognised `is-active` answer is reported with: the answer itself,
/// or what was printed on stderr when the answer was empty.
pub open spec fn is_active_reason(stdout: Seq<char>, stderr: Seq<char>) -> Seq<char> {
    let answer = text::trim(stdout);
    if answer.len() == 0 {
        text::trim(stderr)
    } else {
        answer
    }
}

/// Whether an `is-active` answer is a definite "not running": `inactive` covers a
/// stopped unit and one never installed, `failed` one that errored.
pub open spec fn is_absent_answer(answer: Seq<char>) -> bool {
    answer == "inactive"@ || answer == "failed"@ || answer == "unknown"@
}

/// Turn `systemctl is-active` output into a state.
///
/// Only `active` is a running timer. `inactive`, `failed` and `unknown` are all
/// definite answers, read as absent so the next setup pass can reinstall. Anything else
/// is unknown, explained by whatever was said about it.
pub fn classify_is_active(stdout: &str, stderr: &str) -> (r: DaemonStatus)
    ensures
        match r {
            DaemonStatus::Installed => text::trim(stdout@) == "active"@,
            DaemonStatus::NotInstalled => text::trim(stdout@) != "active"@ && is_absent_answer(
                text::trim(stdout@),
            ),
            DaemonStatus::Unknown(why) => text::trim(stdout@) != "active"@ && !is_absent_answer(
                text::trim(stdout@),
            ) && why@ == (if is_active_reason(stdout@, stderr@).len() == 0 {
                NO_SYSTEMD_HELP@
            } else {
                is_active_reason(stdout@, stderr@)
            }),
        },
{
    let out = text::chars_of(stdout);
    let answer = text::trim_chars(&out);
    if text::chars_eq_str(&answer, "active") {
        return DaemonStatus::Installed;
    }
    if text::chars_eq_str(&answer, "inactive") || text::chars_eq_str(&answer, "failed")
        || text::chars_eq_str(&answer, "unknown") {
        return DaemonStatus::NotInstalled;
    }
    let reason = if answer.len() == 0 {
        let err = text::chars_of(stderr);
        text::trim_chars(&err)
    } else {
        answer
    };
    if reason.len() == 0 {
        let mut m: Vec<char> = Vec::new();
        text::push_str(&mut m, NO_SYSTEMD_HELP);
        DaemonStatus::Unknown(text::string_of(&m))
    } else {
        DaemonStatus::Unknown(text::string_of(&reason))
    }
}

/// The value of the first `ExecStart=` line, trimmed, from the lines given.
pub open spec fn exec_start_value(ls: Seq<Seq<char>>) -> Option<Seq<char>>
    decreases ls.len(),
{
    if ls.len() == 0 {
        None
    } else {
        let l = text::trim_start(ls[0]);
        if text::starts_with(l, "ExecStart="@) {
            Some(text::trim(l.skip("ExecStart="@.len() as int)))
        } else {
            exec_start_value(ls.drop_first())
        }
    }
}

/// The program an `ExecStart=` value starts: the quoted path when it is quoted, the
/// first word otherwise; `None` when there is no such word or it is empty.
pub open spec fn exec_program(value: Seq<char>) -> Option<Seq<char>> {
    let program = if value.len() > 0 && value[0] == '"' {
        Some(text::before_char(value.drop_first(), '"'))
    } else if text::words(value).len() > 0 {
        Some(text::words(value)[0])
    } else {
        None
    };
    match program {
        Some(p) => if p.len() == 0 {
            None
        } else {
            Some(p)
        },
        None => None,
    }
}

/// The executable a service unit runs, if it names one.
pub open spec fn exec_start_program(unit: Seq<char>) -> Option<Seq<char>> {
    match exec_start_value(text::lines(unit)) {
        Some(v) => exec_program(v),
        None => None,
    }
}

fn find_exec_start(ls: &Vec<Vec<char>>) -> (r: Option<Vec<char>>)
    ensures
        match r {
            Some(v) => exec_start_value(text::seqs_of(ls@)) == Some(v@),
            None => exec_start_value(text::seqs_of(ls@)) is None,
        },
{
    let mut i: usize = 0;
    assert(text::seqs_of(ls@).skip(0) == text::seqs_of(ls@));
    while i < ls.len()
        invariant
            i <= ls.len(),
            exec_start_value(text::seqs_of(ls@)) == exec_start_value(
                text::seqs_of(ls@).skip(i as int),
            ),
        decreases ls.len() - i,
    {
        let ghost rest = text::seqs_of(ls@).skip(i as int);
        assert(rest[0] == ls@[i as int]@);
        let l = text::trim_start_chars(&ls[i]);
        if text::starts_with_str(&l, "ExecStart=") {
            let p = text::chars_of("ExecStart=");
            let tail = text::slice_of(&l, p.len(), l.len());
            return Some(text::trim_chars(&tail));
        }
        assert(rest.drop_first() == text::seqs_of(ls@).skip(i + 1));
        i = i + 1;
    }
    None
}

/// Pull the executable out of a service unit's `ExecStart=`.
///
/// The quoted form is the one this module writes, but a hand-edited unit may not be
/// quoted, and reading that as ending at the first space would report a good scheduler
/// as broken.
pub fn parse_exec_start(unit: &str) -> (r: Option<String>)
    ensures
        match r {
            Some(p) => exec_start_program(unit@) == Some(p@),
            None => exec_start_program(unit@) is None,
        },
{
    let u = text::chars_of(unit);
    let ls = text::lines_of(&u);
    let value = match find_exec_start(&ls) {
        Some(v) => v,
        None => return None,
    };
    let program = if value.len() > 0 && value[0] == '"' {
        let quoted = text::slice_of(&value, 1, value.len());
        assert(quoted@ == value@.drop_first());
        text::before_char_chars(&quoted, '"')
    } else {
        let ws = text::words_of(&value);
        if ws.len() == 0 {
            return None;
        }
        assert(text::seqs_of(ws@)[0] == ws@[0]@);
        text::slice_of(&ws[0], 0, ws[0].len())
    };
    if program.len() == 0 {
        return None;
    }
    Some(text::string_of(&program))
}


/// Lines none of which starts, once leading whitespace is dropped, with `ExecStart=` do
/// not change which `ExecStart=` value is found first.
proof fn lemma_exec_start_skips(a: Seq<Seq<char>>, b: Seq<Seq<char>>)
    requires
        forall|k: int|
            0 <= k < a.len() ==> !text::starts_with(
                text::trim_start(#[trigger] a[k]),
                "ExecStart="@,
            ),
    ensures
        exec_start_value(a + b) == exec_start_value(b),
    decreases a.len(),
{
    if a.len() > 0 {
        assert((a + b)[0] == a[0]);
        assert((a + b).drop_first() =~= a.drop_first() + b);
        lemma_exec_start_skips(a.drop_first(), b);
    } else {
        assert(a + b =~= b);
    }
}

/// One line of text ended by a newline, whose first character is neither whitespace
/// nor `E`, is one line that no `ExecStart=` search stops at.
proof fn lemma_plain_line(p: Seq<char>)
    requires
        p.len() > 0,
        p.last() == '\n',
        forall|k: int| 0 <= k < p.len() - 1 ==> p[k] != '\n',
        p.len() > 1 ==> !text::is_ws(p[0]) && p[0] != 'E' && p[p.len() - 2] != '\r',
    ensures
        text::lines(p) =~= seq![p.drop_last()],
        !text::starts_with(text::trim_start(p.drop_last()), "ExecStart="@),
{
    reveal_strlit("ExecStart=");
    let l = p.drop_last();
    assert(p =~= l + seq!['\n']);
    text::lemma_one_line(l);
    if l.len() > 0 {
        assert(l.last() == p[p.len() - 2]);
        assert(text::trim_start(l) == l);
        if text::starts_with(l, "ExecStart="@) {
            assert(l.take(10)[0] == l[0]);
        }
    }
}

/// The program read out of the service unit is the one the unit was written for, for
/// every non-empty executable path without a double quote or a line break.
pub proof fn law_the_service_unit_reads_back_its_program(exe: Seq<char>)
    requires
        exe.len() > 0,
        forall|k: int| 0 <= k < exe.len() ==> exe[k] != '"' && exe[k] != '\n',
    ensures
        exec_start_program(service_unit(exe)) == Some(exe),
{
    reveal_strlit(
        "[Unit]\nDescription=DevPrune Background Runner\n\n[Service]\nType=oneshot\nExecStart=\"",
    );
    reveal_strlit("\" run --yes --daemon\n");
    reveal_strlit("ExecStart=");
    let head = SERVICE_HEAD@;
    let tail = SERVICE_TAIL@;
    assert(head.len() == 81);
    assert(tail.len() == 21);
    let p1 = head.subrange(0, 7);
    let p2 = head.subrange(7, 46);
    let p3 = head.subrange(46, 47);
    let p4 = head.subrange(47, 57);
    let p5 = head.subrange(57, 70);
    let line = head.subrange(70, 81) + exe + tail.take(20);
    let last = line + seq!['\n'];
    let unit = service_unit(exe);
    assert(unit =~= p1 + (p2 + (p3 + (p4 + (p5 + last)))));
    assert forall|k: int| 0 <= k < line.len() implies line[k] != '\n' by {
        if k >= 11 && k < 11 + exe.len() {
            assert(line[k] == exe[k - 11]);
        }
    }
    lemma_plain_line(p1);
    lemma_plain_line(p2);
    lemma_plain_line(p3);
    lemma_plain_line(p4);
    lemma_plain_line(p5);
    text::lemma_one_line(line);
    assert(line.last() == 'n');
    text::lemma_lines_concat(p5, last);
    text::lemma_lines_concat(p4, p5 + last);
    text::lemma_lines_concat(p3, p4 + (p5 + last));
    text::lemma_lines_concat(p2, p3 + (p4 + (p5 + last)));
    text::lemma_lines_concat(p1, p2 + (p3 + (p4 + (p5 + last))));
    let before = seq![p1.drop_last(), p2.drop_last(), p3.drop_last(), p4.drop_last(), p5.drop_last()];
    assert(text::lines(unit) =~= before + seq![line]);
    lemma_exec_start_skips(before, seq![line]);
    // The `ExecStart=` line itself.
    assert(text::trim_start(line) == line);
    assert(line.take(10) =~= "ExecStart="@);
    let value = line.skip(10);
    assert(value =~= seq!['"'] + exe + tail.take(20));
    assert(text::trim_start(value) == value);
    assert(value.last() == 'n');
    assert(text::trim_end(value) == value);
    assert(exec_start_value(seq![line]) == Some(value)) by {
        assert(seq![line].drop_first() =~= Seq::<Seq<char>>::empty());
    }
    // The quoted program ends at the first double quote, which follows the path.
    let quoted = value.drop_first();
    assert(quoted =~= exe + tail.take(20));
    let q = seq!['"'];
    assert(text::occurs_at(quoted, q, exe.len() as int)) by {
        assert(quoted.subrange(exe.len() as int, exe.len() + 1 as int) =~= q);
    }
    text::lemma_find_first_some(quoted, q, 0, exe.len() as int);
    text::lemma_find(quoted, q);
    let i = text::find(quoted, q)->0;
    assert(i == exe.len()) by {
        if i < exe.len() {
            assert(quoted.subrange(i, i + 1)[0] == quoted[i]);
            assert(quoted[i] == exe[i]);
        }
    }
    assert(quoted.take(i) =~= exe);
}

} // verus!
