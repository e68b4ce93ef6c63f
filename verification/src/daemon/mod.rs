//! The background scheduler: what each platform's scheduler is told, and how its
//! answers are read back.
//!
//! Everything that talks to `systemctl`, `launchctl` or `schtasks`, or touches their
//! files, lives with the caller; this module holds the text that goes in and the
//! decisions drawn from the text that comes out.
use vstd::prelude::*;

use crate::text;

pub mod linux;
pub mod macos;
pub mod windows;

verus! {

/// Status of the background daemon task.
pub enum DaemonStatus {
    Installed,
    NotInstalled,
    Unknown(String),
}

/// How a status reads when printed.
pub open spec fn status_text(s: &DaemonStatus) -> Seq<char> {
    match s {
        DaemonStatus::Installed => "Installed"@,
        DaemonStatus::NotInstalled => "Not Installed"@,
        DaemonStatus::Unknown(msg) => "Unknown: "@ + msg@,
    }
}

impl DaemonStatus {
    /// The status as `devp status` prints it.
    pub fn text(&self) -> (r: String)
        ensures
            r@ == status_text(self),
    {
        let mut out: Vec<char> = Vec::new();
        match self {
            DaemonStatus::Installed => text::push_str(&mut out, "Installed"),
            DaemonStatus::NotInstalled => text::push_str(&mut out, "Not Installed"),
            DaemonStatus::Unknown(msg) => {
                text::push_str(&mut out, "Unknown: ");
                text::push_str(&mut out, msg.as_str());
            },
        }
        text::string_of(&out)
    }
}

/// The interval a scheduler is registered with: never less than one day.
pub open spec fn effective_interval(interval_days: u64) -> u64 {
    if interval_days < 1 {
        1
    } else {
        interval_days
    }
}

/// XML with the five predefined entities escaped, `&` first so the ampersands the
/// others introduce are not escaped a second time.
pub open spec fn xml_escape_spec(s: Seq<char>) -> Seq<char> {
    let a = text::replace_all(s, "&"@, "&amp;"@);
    let b = text::replace_all(a, "<"@, "&lt;"@);
    let c = text::replace_all(b, ">"@, "&gt;"@);
    let d = text::replace_all(c, "\""@, "&quot;"@);
    text::replace_all(d, "'"@, "&apos;"@)
}

/// The five predefined entities decoded, `&amp;` last so an escaped entity is not
/// decoded twice.
pub open spec fn xml_unescape_spec(s: Seq<char>) -> Seq<char> {
    let a = text::replace_all(s, "&lt;"@, "<"@);
    let b = text::replace_all(a, "&gt;"@, ">"@);
    let c = text::replace_all(b, "&quot;"@, "\""@);
    let d = text::replace_all(c, "&apos;"@, "'"@);
    text::replace_all(d, "&amp;"@, "&"@)
}

/// Escapes text for a scheduler's XML document, so a path holding `&` or `<` cannot
/// produce a document the scheduler refuses to parse.
pub fn xml_escape(s: &[char]) -> (r: Vec<char>)
    ensures
        r@ == xml_escape_spec(s@),
{
    proof {
        reveal_strlit("&");
        reveal_strlit("<");
        reveal_strlit(">");
        reveal_strlit("\"");
        reveal_strlit("'");
    }
    let a = text::replace_str(s, "&", "&amp;");
    let b = text::replace_str(&a, "<", "&lt;");
    let c = text::replace_str(&b, ">", "&gt;");
    let d = text::replace_str(&c, "\"", "&quot;");
    text::replace_str(&d, "'", "&apos;")
}

/// Decodes the predefined entities of text read out of a scheduler's XML document.
pub fn xml_unescape(s: &[char]) -> (r: Vec<char>)
    ensures
        r@ == xml_unescape_spec(s@),
{
    proof {
        reveal_strlit("&lt;");
        reveal_strlit("&gt;");
        reveal_strlit("&quot;");
        reveal_strlit("&apos;");
        reveal_strlit("&amp;");
    }
    let a = text::replace_str(s, "&lt;", "<");
    let b = text::replace_str(&a, "&gt;", ">");
    let c = text::replace_str(&b, "&quot;", "\"");
    let d = text::replace_str(&c, "&apos;", "'");
    text::replace_str(&d, "&amp;", "&")
}

/// The text one character stands as in a scheduler's XML document: its predefined
/// entity, or the character itself.
pub open spec fn xml_entity(c: char) -> Seq<char> {
    if c == '&' {
        "&amp;"@
    } else if c == '<' {
        "&lt;"@
    } else if c == '>' {
        "&gt;"@
    } else if c == '"' {
        "&quot;"@
    } else if c == '\'' {
        "&apos;"@
    } else {
        seq![c]
    }
}

/// The turn at which escaping handles a character: `&` first, then `<`, `>`, `"` and
/// `'`; every other character is left alone.
spec fn escape_turn(c: char) -> int {
    if c == '&' {
        1
    } else if c == '<' {
        2
    } else if c == '>' {
        3
    } else if c == '"' {
        4
    } else if c == '\'' {
        5
    } else {
        6
    }
}

/// Each character as it stands once the first `k` escaping replacements have run.
spec fn escaped_after(k: int) -> spec_fn(char) -> Seq<char> {
    |c: char|
        if escape_turn(c) <= k {
            xml_entity(c)
        } else {
            seq![c]
        }
}

/// Each character of escaped text as it stands once the first `k` decoding replacements
/// have run: `<`, `>`, `"` and `'` come back in turn, `&` last.
spec fn unescaped_after(k: int) -> spec_fn(char) -> Seq<char> {
    |c: char|
        if k >= 5 || (2 <= escape_turn(c) && escape_turn(c) <= k + 1) {
            seq![c]
        } else {
            xml_entity(c)
        }
}

proof fn lemma_entity(c: char)
    ensures
        xml_entity(c).len() > 0,
        forall|i: int| 0 < i < xml_entity(c).len() ==> #[trigger] xml_entity(c)[i] != '&',
        escape_turn(c) <= 5 ==> xml_entity(c).len() >= 4 && xml_entity(c)[0] == '&',
        escape_turn(c) <= 5 ==> forall|i: int|
            0 <= i < xml_entity(c).len() ==> #[trigger] xml_entity(c)[i] != '<' && xml_entity(
                c,
            )[i] != '>' && xml_entity(c)[i] != '"' && xml_entity(c)[i] != '\'',
        escape_turn(c) == 6 ==> xml_entity(c) == seq![c],
{
    reveal_strlit("&amp;");
    reveal_strlit("&lt;");
    reveal_strlit("&gt;");
    reveal_strlit("&quot;");
    reveal_strlit("&apos;");
}

proof fn lemma_entities_differ(c: char, d: char)
    requires
        escape_turn(c) <= 5,
        escape_turn(d) <= 5,
        c != d,
    ensures
        xml_entity(c)[1] != xml_entity(d)[1] || xml_entity(c)[2] != xml_entity(d)[2],
{
    reveal_strlit("&amp;");
    reveal_strlit("&lt;");
    reveal_strlit("&gt;");
    reveal_strlit("&quot;");
    reveal_strlit("&apos;");
}

proof fn lemma_escape_turn(s: Seq<char>, k: int, t: char)
    requires
        1 <= k <= 5,
        escape_turn(t) == k,
    ensures
        text::replace_all(text::flat_map(s, escaped_after(k - 1)), seq![t], xml_entity(t))
            == text::flat_map(s, escaped_after(k)),
{
    let f = escaped_after(k - 1);
    let r = xml_entity(t);
    text::lemma_replace_single_flat(s, f, t, r);
    let g = |c: char| text::replace_all(f(c), seq![t], r);
    assert forall|c: char| #[trigger] g(c) == escaped_after(k)(c) by {
        lemma_entity(c);
        if escape_turn(c) <= k - 1 {
            text::lemma_replace_single_absent(xml_entity(c), t, r);
        } else if c == t {
            let one = seq![t];
            assert(one.take(1) =~= one);
            assert(one.skip(1) =~= Seq::<char>::empty());
            assert(text::replace_all(one.skip(1), one, r) =~= Seq::<char>::empty());
            assert(text::replace_all(one, one, r) =~= r);
        } else {
            text::lemma_replace_single_absent(seq![c], t, r);
        }
    }
    assert(g =~= escaped_after(k));
}

proof fn lemma_unescape_turn(s: Seq<char>, k: int, t: char)
    requires
        1 <= k <= 5,
        (k <= 4 && escape_turn(t) == k + 1) || (k == 5 && t == '&'),
    ensures
        text::replace_all(text::flat_map(s, unescaped_after(k - 1)), xml_entity(t), seq![t])
            == text::flat_map(s, unescaped_after(k)),
{
    let f = unescaped_after(k - 1);
    let g = unescaped_after(k);
    let p = xml_entity(t);
    lemma_entity(t);
    assert forall|c: char| (#[trigger] f(c)).len() > 0 by {
        lemma_entity(c);
    }
    assert forall|c: char, i: int| 0 < i < f(c).len() implies #[trigger] f(c)[i] != '&' by {
        lemma_entity(c);
    }
    assert forall|c: char|
        (#[trigger] f(c) == p && g(c) == seq![t]) || (g(c) == f(c) && (f(c)[0] != '&' || (f(
            c,
        ).len() >= 3 && (f(c)[1] != p[1] || f(c)[2] != p[2])))) by {
        lemma_entity(c);
        if c != t && escape_turn(c) <= 5 && f(c) == xml_entity(c) {
            lemma_entities_differ(c, t);
        }
    }
    text::lemma_replace_entity_flat(s, f, g, p, seq![t]);
}

proof fn lemma_escape_is_flat(s: Seq<char>)
    ensures
        xml_escape_spec(s) == text::flat_map(s, escaped_after(5)),
        text::flat_map(s, escaped_after(0)) == s,
{
    reveal_strlit("&");
    reveal_strlit("<");
    reveal_strlit(">");
    reveal_strlit("\"");
    reveal_strlit("'");
    let id = |c: char| seq![c];
    assert(escaped_after(0) =~= id);
    text::lemma_flat_map_identity(s);
    assert("&"@ =~= seq!['&']);
    assert("<"@ =~= seq!['<']);
    assert(">"@ =~= seq!['>']);
    assert("\""@ =~= seq!['"']);
    assert("'"@ =~= seq!['\'']);
    lemma_escape_turn(s, 1, '&');
    lemma_escape_turn(s, 2, '<');
    lemma_escape_turn(s, 3, '>');
    lemma_escape_turn(s, 4, '"');
    lemma_escape_turn(s, 5, '\'');
}

proof fn lemma_flat_entities(s: Seq<char>)
    ensures
        forall|i: int|
            0 <= i < text::flat_map(s, escaped_after(5)).len() ==> #[trigger] text::flat_map(
                s,
                escaped_after(5),
            )[i] != '<',
        s.len() > 0 ==> text::flat_map(s, escaped_after(5)).len() > 0,
        s.len() > 0 && !text::is_ws(s[0]) ==> !text::is_ws(
            text::flat_map(s, escaped_after(5))[0],
        ),
        s.len() > 0 && !text::is_ws(s.last()) ==> !text::is_ws(
            text::flat_map(s, escaped_after(5)).last(),
        ),
    decreases s.len(),
{
    reveal_strlit("&amp;");
    reveal_strlit("&lt;");
    reveal_strlit("&gt;");
    reveal_strlit("&quot;");
    reveal_strlit("&apos;");
    if s.len() > 0 {
        let c = s[0];
        let x = escaped_after(5)(c);
        let y = text::flat_map(s.drop_first(), escaped_after(5));
        lemma_entity(c);
        lemma_flat_entities(s.drop_first());
        assert(x == xml_entity(c));
        assert forall|i: int| 0 <= i < x.len() implies x[i] != '<' by {
            if escape_turn(c) == 6 {
                assert(x[i] == c);
            }
        }
        assert forall|i: int| 0 <= i < (x + y).len() implies #[trigger] (x + y)[i] != '<' by {
            if i >= x.len() {
                assert((x + y)[i] == y[i - x.len()]);
            }
        }
        assert((x + y)[0] == x[0]);
        if y.len() == 0 {
            assert(s.drop_first().len() == 0);
            assert(s.last() == c);
            assert((x + y).last() == x.last());
        } else {
            assert(s.drop_first().last() == s.last());
            assert((x + y).last() == y.last());
        }
    }
}

/// What escaping makes of a text: no `<` anywhere, so no element can end inside it;
/// nothing from nothing; and no whitespace at either end that the text did not have.
pub proof fn lemma_escaped_shape(s: Seq<char>)
    ensures
        forall|i: int|
            0 <= i < xml_escape_spec(s).len() ==> #[trigger] xml_escape_spec(s)[i] != '<',
        s.len() > 0 ==> xml_escape_spec(s).len() > 0,
        s.len() > 0 && !text::is_ws(s[0]) ==> !text::is_ws(xml_escape_spec(s)[0]),
        s.len() > 0 && !text::is_ws(s.last()) ==> !text::is_ws(xml_escape_spec(s).last()),
{
    lemma_escape_is_flat(s);
    lemma_flat_entities(s);
}

/// Decoding the entities of escaped text gives the text back, whatever it holds:
/// escaping turns `&` into `&amp;` first and decoding turns `&amp;` back last, so no
/// entity is produced or decoded twice.
pub proof fn law_unescaping_undoes_escaping(s: Seq<char>)
    ensures
        xml_unescape_spec(xml_escape_spec(s)) == s,
{
    lemma_escape_is_flat(s);
    reveal_strlit("&");
    reveal_strlit("<");
    reveal_strlit(">");
    reveal_strlit("\"");
    reveal_strlit("'");
    assert("&"@ =~= seq!['&']);
    assert("<"@ =~= seq!['<']);
    assert(">"@ =~= seq!['>']);
    assert("\""@ =~= seq!['"']);
    assert("'"@ =~= seq!['\'']);
    assert(unescaped_after(0) =~= escaped_after(5));
    lemma_unescape_turn(s, 1, '<');
    lemma_unescape_turn(s, 2, '>');
    lemma_unescape_turn(s, 3, '"');
    lemma_unescape_turn(s, 4, '\'');
    lemma_unescape_turn(s, 5, '&');
    reveal_strlit("&amp;");
    reveal_strlit("&lt;");
    reveal_strlit("&gt;");
    reveal_strlit("&quot;");
    reveal_strlit("&apos;");
    let id = |c: char| seq![c];
    assert(unescaped_after(5) =~= id);
    text::lemma_flat_map_identity(s);
}

/// Which scheduler a platform uses.
#[derive(Clone, Copy, PartialEq, Eq, Debug)]
pub enum Scheduler {
    /// Windows Task Scheduler (`schtasks`).
    TaskScheduler,
    /// A macOS LaunchAgent.
    LaunchAgent,
    /// A systemd user timer.
    SystemdTimer,
}

/// The scheduler for an operating system, as `std::env::consts::OS` names it.
pub open spec fn scheduler_for_spec(os: Seq<char>) -> Option<Scheduler> {
    if os == "windows"@ {
        Some(Scheduler::TaskScheduler)
    } else if os == "macos"@ {
        Some(Scheduler::LaunchAgent)
    } else if os == "linux"@ {
        Some(Scheduler::SystemdTimer)
    } else {
        None
    }
}

/// The scheduler for an operating system, or `None` where daemon installation is
/// unsupported.
pub fn scheduler_for(os: &str) -> (r: Option<Scheduler>)
    ensures
        r == scheduler_for_spec(os@),
{
    let v = text::chars_of(os);
    if text::chars_eq_str(&v, "windows") {
        Some(Scheduler::TaskScheduler)
    } else if text::chars_eq_str(&v, "macos") {
        Some(Scheduler::LaunchAgent)
    } else if text::chars_eq_str(&v, "linux") {
        Some(Scheduler::SystemdTimer)
    } else {
        None
    }
}

/// What installing the daemon amounts to: the scheduler to register with, and the
/// interval, never less than a day. `Err` names an unsupported operating system.
pub fn install_daemon(interval_days: u64, os: &str) -> (r: Result<(Scheduler, u64), String>)
    ensures
        match r {
            Ok((s, d)) => scheduler_for_spec(os@) == Some(s) && d == effective_interval(
                interval_days,
            ),
            Err(msg) => scheduler_for_spec(os@) is None && msg@
                == "Unsupported operating system for daemon installation"@,
        },
{
    let interval = if interval_days < 1 {
        1
    } else {
        interval_days
    };
    match scheduler_for(os) {
        Some(s) => Ok((s, interval)),
        None => {
            let mut m: Vec<char> = Vec::new();
            text::push_str(&mut m, "Unsupported operating system for daemon installation");
            Err(text::string_of(&m))
        },
    }
}

/// Whether the installed scheduler entry should be re-registered to stop it flashing a
/// console window. Only Windows attaches a console to a scheduled task, so elsewhere the
/// answer is no; on Windows it is [`windows::wants_windowless_upgrade`]'s answer for the
/// task definition read back (`None` when none could be read) and the refusal marker.
pub fn wants_windowless_upgrade(os: &str, task_xml: Option<&str>, refused_marker: bool) -> (r:
    bool)
    ensures
        r == (scheduler_for_spec(os@) == Some(Scheduler::TaskScheduler)
            && windows::upgrade_wanted(
            match task_xml {
                Some(x) => Some(x@),
                None => None,
            },
            refused_marker,
        )),
{
    match scheduler_for(os) {
        Some(Scheduler::TaskScheduler) => windows::wants_windowless_upgrade(task_xml, refused_marker),
        _ => false,
    }
}

/// The binary the installed scheduler entry runs, read out of its definition: the
/// systemd service unit, the LaunchAgent plist or the task's XML, whichever the
/// platform has (`None` when none could be read). `None` means "could not determine",
/// never "nothing is registered".
pub fn registered_exe_path(os: &str, definition: Option<&str>) -> (r: Option<String>)
    ensures
        text::opt_view(r) == match (scheduler_for_spec(os@), definition) {
            (Some(Scheduler::SystemdTimer), Some(d)) => linux::exec_start_program(d@),
            (Some(Scheduler::LaunchAgent), Some(d)) => macos::program_path(d@),
            (Some(Scheduler::TaskScheduler), Some(d)) => windows::registered_command(d@),
            _ => None,
        },
{
    let d = match definition {
        Some(d) => d,
        None => return None,
    };
    match scheduler_for(os) {
        Some(Scheduler::SystemdTimer) => linux::parse_exec_start(d),
        Some(Scheduler::LaunchAgent) => macos::parse_program_path(d),
        Some(Scheduler::TaskScheduler) => windows::parse_registered_command(d),
        None => None,
    }
}

} // verus!
