//! The macOS LaunchAgent: the plist that registers it, and reading the program back
//! out of one.
use vstd::prelude::*;

use crate::daemon;
use crate::text;

verus! {

/// Label of the LaunchAgent; it also names the plist file.
pub const LABEL: &'static str = "com.devprune.daemon";

/// The plist up to the label.
pub const PLIST_HEAD: &'static str = "<?xml version=\"1.0\" encoding=\"UTF-8\"?>\n<!DOCTYPE plist PUBLIC \"-//Apple//DTD PLIST 1.0//EN\" \"http://www.apple.com/DTDs/PropertyList-1.0.dtd\">\n<plist version=\"1.0\">\n<dict>\n    <key>Label</key>\n    <string>";

/// The plist between the label and the program.
pub const PLIST_PROGRAM: &'static str = "</string>\n    <key>ProgramArguments</key>\n    <array>\n        <string>";

/// The plist between the program and the interval.
pub const PLIST_INTERVAL: &'static str = "</string>\n        <string>run</string>\n        <string>--yes</string>\n        <string>--daemon</string>\n    </array>\n    <key>StartInterval</key>\n    <integer>";

/// The plist after the interval.
pub const PLIST_TAIL: &'static str = "</integer>\n</dict>\n</plist>";

/// The key whose array holds the program and its arguments.
pub const PROGRAM_KEY: &'static str = "<key>ProgramArguments</key>";

/// The launchd `StartInterval`: at least one day, in seconds, saturating at `u64::MAX`.
pub open spec fn interval_secs(interval_days: u64) -> u64 {
    let d = daemon::effective_interval(interval_days);
    if d > u64::MAX / 86400 {
        u64::MAX
    } else {
        (d * 86400) as u64
    }
}

/// The LaunchAgent plist running `exe_path run --yes --daemon` every interval.
pub open spec fn plist_content(exe_path: Seq<char>, interval_days: u64) -> Seq<char> {
    PLIST_HEAD@ + LABEL@ + PLIST_PROGRAM@ + daemon::xml_escape_spec(exe_path) + PLIST_INTERVAL@
        + text::decimal(interval_secs(interval_days) as nat) + PLIST_TAIL@
}

/// Generates the plist XML content.
pub fn generate_plist_content(exe_path: &str, interval_days: u64) -> (r: String)
    ensures
        r@ == plist_content(exe_path@, interval_days),
{
    let d: u64 = if interval_days < 1 {
        1
    } else {
        interval_days
    };
    let secs: u64 = if d > u64::MAX / 86400 {
        u64::MAX
    } else {
        d * 86400
    };
    let exe = text::chars_of(exe_path);
    let escaped = daemon::xml_escape(&exe);
    let digits = text::decimal_chars(secs);
    let mut out: Vec<char> = Vec::new();
    text::push_str(&mut out, PLIST_HEAD);
    text::push_str(&mut out, LABEL);
    text::push_str(&mut out, PLIST_PROGRAM);
    text::push_all(&mut out, &escaped);
    text::push_str(&mut out, PLIST_INTERVAL);
    text::push_all(&mut out, &digits);
    text::push_str(&mut out, PLIST_TAIL);
    text::string_of(&out)
}

/// The program a plist registers: the first `<string>` after the `ProgramArguments`
/// key, trimmed and unescaped; `None` when there is no such element or it is empty.
pub open spec fn program_path(plist: Seq<char>) -> Option<Seq<char>> {
    match text::find(plist, PROGRAM_KEY@) {
        Some(k) => {
            let rest = plist.skip(k);
            match text::find(rest, "<string>"@) {
                Some(s) => {
                    let start = s + "<string>"@.len();
                    match text::find(rest.skip(start), "</string>"@) {
                        Some(e) => {
                            let program = text::trim(rest.subrange(start, start + e));
                            if program.len() == 0 {
                                None
                            } else {
                                Some(daemon::xml_unescape_spec(program))
                            }
                        },
                        None => None,
                    }
                },
                None => None,
            }
        },
        None => None,
    }
}

/// Pull the program out of the `ProgramArguments` array: the first `<string>` after
/// the key is the executable, the rest are `run --yes --daemon`. The search starts at
/// the key because the label is the document's first `<string>`.
pub fn parse_program_path(plist: &str) -> (r: Option<String>)
    ensures
        text::opt_view(r) == program_path(plist@),
{
    let p = text::chars_of(plist);
    let key = text::chars_of(PROGRAM_KEY);
    proof {
        text::lemma_find(p@, key@);
    }
    let k = match text::find_chars(&p, &key) {
        Some(k) => k,
        None => return None,
    };
    let rest = text::slice_of(&p, k, p.len());
    assert(rest@ == p@.skip(k as int));
    let open = text::chars_of("<string>");
    proof {
        text::lemma_find(rest@, open@);
    }
    let s = match text::find_chars(&rest, &open) {
        Some(s) => s,
        None => return None,
    };
    let start = s + open.len();
    let tail = text::slice_of(&rest, start, rest.len());
    assert(tail@ == rest@.skip(start as int));
    let close = text::chars_of("</string>");
    proof {
        text::lemma_find(tail@, close@);
    }
    let e = match text::find_chars(&tail, &close) {
        Some(e) => e,
        None => return None,
    };
    let inner = text::slice_of(&rest, start, start + e);
    let program = text::trim_chars(&inner);
    if program.len() == 0 {
        return None;
    }
    let unescaped = daemon::xml_unescape(&program);
    Some(text::string_of(&unescaped))
}


/// The first occurrence of `p` in `s` is at `k` when it occurs there and nowhere before.
proof fn lemma_first_at(s: Seq<char>, p: Seq<char>, k: int)
    requires
        text::occurs_at(s, p, k),
        forall|j: int| 0 <= j < k ==> !text::occurs_at(s, p, j),
    ensures
        text::find(s, p) == Some(k),
{
    text::lemma_find_first_some(s, p, 0, k);
    text::lemma_find(s, p);
    let i = text::find(s, p)->0;
    if i < k {
        assert(!text::occurs_at(s, p, i));
    }
    if i > k {
        assert(!text::occurs_at(s, p, k));
    }
}

/// `p` does not occur at `j` when the text differs from it `m` characters in.
proof fn lemma_differs_at(s: Seq<char>, p: Seq<char>, j: int, m: int)
    requires
        0 <= j,
        0 <= m < p.len(),
        j + m < s.len(),
        s[j + m] != p[m],
    ensures
        !text::occurs_at(s, p, j),
{
    if text::occurs_at(s, p, j) {
        assert(s.subrange(j, j + p.len())[m] == s[j + m]);
    }
}

/// The program read out of the plist is the one the plist was written for, for every
/// non-empty executable path that neither starts nor ends with whitespace, whatever the
/// interval.
pub proof fn law_the_plist_reads_back_its_program(exe: Seq<char>, interval_days: u64)
    requires
        exe.len() > 0,
        !text::is_ws(exe[0]),
        !text::is_ws(exe.last()),
    ensures
        program_path(plist_content(exe, interval_days)) == Some(exe),
{
    reveal_strlit(
        "<?xml version=\"1.0\" encoding=\"UTF-8\"?>\n<!DOCTYPE plist PUBLIC \"-//Apple//DTD PLIST 1.0//EN\" \"http://www.apple.com/DTDs/PropertyList-1.0.dtd\">\n<plist version=\"1.0\">\n<dict>\n    <key>Label</key>\n    <string>",
    );
    reveal_strlit("com.devprune.daemon");
    reveal_strlit(
        "</string>\n    <key>ProgramArguments</key>\n    <array>\n        <string>",
    );
    reveal_strlit(
        "</string>\n        <string>run</string>\n        <string>--yes</string>\n        <string>--daemon</string>\n    </array>\n    <key>StartInterval</key>\n    <integer>",
    );
    reveal_strlit("<key>ProgramArguments</key>");
    reveal_strlit("<string>");
    reveal_strlit("</string>");
    let h = PLIST_HEAD@;
    let l = LABEL@;
    let pr = PLIST_PROGRAM@;
    assert(h.len() == 204);
    assert(l.len() == 19);
    assert(pr.len() == 70);
    let e = daemon::xml_escape_spec(exe);
    let after = PLIST_INTERVAL@ + text::decimal(interval_secs(interval_days) as nat)
        + PLIST_TAIL@;
    let plist = plist_content(exe, interval_days);
    assert(plist =~= h + l + pr + e + after);
    daemon::lemma_escaped_shape(exe);
    daemon::law_unescaping_undoes_escaping(exe);
    let key = PROGRAM_KEY@;
    assert(key.len() == 27);
    // The key: its first occurrence is the one in the program part.
    assert(forall|j: int| 0 <= j < 204 && #[trigger] h[j] == '<' ==> j == 0 || j == 39 || j
        == 142 || j == 164 || j == 175 || j == 185 || j == 196);
    assert(forall|j: int| 0 <= j < 19 ==> #[trigger] l[j] != '<');
    assert(forall|j: int| 0 <= j < 14 && #[trigger] pr[j] == '<' ==> j == 0);
    assert(text::occurs_at(plist, key, 237)) by {
        assert(plist.subrange(237, 264) =~= key);
    }
    assert forall|j: int| 0 <= j < 237 implies !text::occurs_at(plist, key, j) by {
        if plist[j] != '<' {
            lemma_differs_at(plist, key, j, 0);
        } else if j < 204 {
            assert(plist[j] == h[j]);
            if j == 175 {
                assert(plist[j + 5] == h[j + 5]);
                lemma_differs_at(plist, key, j, 5);
            } else {
                assert(plist[j + 1] == h[j + 1]);
                lemma_differs_at(plist, key, j, 1);
            }
        } else if j < 223 {
            assert(plist[j] == l[j - 204]);
        } else {
            assert(plist[j] == pr[j - 223]);
            assert(j == 223);
            assert(plist[j + 1] == pr[1]);
            lemma_differs_at(plist, key, j, 1);
        }
    }
    lemma_first_at(plist, key, 237);
    // The first `<string>` after the key opens the program.
    let rest = plist.skip(237);
    let open = "<string>"@;
    assert(open.len() == 8);
    assert(forall|j: int| 14 <= j < 70 && #[trigger] pr[j] == '<' ==> j == 14 || j == 35 || j
        == 46 || j == 62);
    assert(text::occurs_at(rest, open, 48)) by {
        assert(rest.subrange(48, 56) =~= open);
    }
    assert forall|j: int| 0 <= j < 48 implies !text::occurs_at(rest, open, j) by {
        assert(rest[j] == pr[j + 14]);
        if rest[j] != '<' {
            lemma_differs_at(rest, open, j, 0);
        } else {
            assert(rest[j + 1] == pr[j + 15]);
            lemma_differs_at(rest, open, j, 1);
        }
    }
    lemma_first_at(rest, open, 48);
    // The program ends at the first `</string>`, which follows the escaped path.
    let tail = rest.skip(56);
    let close = "</string>"@;
    assert(close.len() == 9);
    assert(tail =~= e + after);
    assert(text::occurs_at(tail, close, e.len() as int)) by {
        assert(tail.subrange(e.len() as int, e.len() + 9 as int) =~= close);
    }
    assert forall|j: int| 0 <= j < e.len() implies !text::occurs_at(tail, close, j) by {
        assert(tail[j] == e[j]);
        lemma_differs_at(tail, close, j, 0);
    }
    lemma_first_at(tail, close, e.len() as int);
    let inner = rest.subrange(56, 56 + e.len() as int);
    assert(inner =~= e);
    assert(text::trim_start(e) == e);
    assert(text::trim_end(e) == e);
}

} // verus!
