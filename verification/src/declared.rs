//! Directories a repository declares rebuildable in its config: reading a declared
//! path safely, reading the rebuild command, the checks a declaration must pass, and
//! which declarations an exclusion takes out of play.
//!
//! Declared paths are split by hand on both separators, so a declaration refused on
//! one platform is refused on every other.
use vstd::prelude::*;

use crate::config::{DeclaredDir, DeclaredDirView, Prunable, PrunableView};
use crate::text;

verus! {

broadcast use vstd::seq_lib::group_seq_properties;

/// Why an entry with no path is refused.
pub const EMPTY_PATH: &'static str = "An entry in `prunable.directories` has an empty `path`.";

// ---------------------------------------------------------------------------------
// Splitting a declared path
// ---------------------------------------------------------------------------------

/// A separator in a declared path, on any platform.
pub open spec fn is_sep(c: char) -> bool {
    c == '/' || c == '\\'
}

/// The index of the first separator in `s`.
pub open spec fn first_sep(s: Seq<char>) -> Option<int>
    decreases s.len(),
{
    if s.len() == 0 {
        None
    } else if is_sep(s[0]) {
        Some(0)
    } else {
        match first_sep(s.drop_first()) {
            Some(i) => Some(i + 1),
            None => None,
        }
    }
}

proof fn lemma_first_sep(s: Seq<char>)
    ensures
        first_sep(s) matches Some(i) ==> 0 <= i < s.len() && is_sep(s[i]) && forall|j: int|
            0 <= j < i ==> !is_sep(#[trigger] s[j]),
        first_sep(s) is None ==> forall|j: int| 0 <= j < s.len() ==> !is_sep(#[trigger] s[j]),
    decreases s.len(),
{
    if s.len() > 0 && !is_sep(s[0]) {
        lemma_first_sep(s.drop_first());
        assert forall|j: int| 0 < j < s.len() implies s[j] == s.drop_first()[j - 1] by {}
    }
}

/// `str::split(['/', '\\'])`: the pieces between separators, empty ones included.
pub open spec fn split_seps(s: Seq<char>) -> Seq<Seq<char>>
    decreases s.len(),
{
    match first_sep(s) {
        Some(i) => if 0 <= i < s.len() {
            seq![s.take(i)] + split_seps(s.skip(i + 1))
        } else {
            seq![s]
        },
        None => seq![s],
    }
}

fn first_sep_index(s: &[char]) -> (r: Option<usize>)
    ensures
        match r {
            Some(i) => first_sep(s@) == Some(i as int),
            None => first_sep(s@) is None,
        },
{
    proof {
        lemma_first_sep(s@);
    }
    let mut i: usize = 0;
    while i < s.len()
        invariant
            i <= s.len(),
            forall|j: int| 0 <= j < i ==> !is_sep(#[trigger] s@[j]),
        decreases s.len() - i,
    {
        if s[i] == '/' || s[i] == '\\' {
            proof {
                lemma_first_sep(s@);
                assert(is_sep(s@[i as int]));
            }
            return Some(i);
        }
        i = i + 1;
    }
    None
}

/// `str::split(['/', '\\'])`.
pub fn split_seps_of(s: &[char]) -> (parts: Vec<Vec<char>>)
    ensures
        text::seqs_of(parts@) == split_seps(s@),
{
    let mut parts: Vec<Vec<char>> = Vec::new();
    let mut rest: Vec<char> = text::slice_of(s, 0, s.len());
    loop
        invariant
            text::seqs_of(parts@) + split_seps(rest@) == split_seps(s@),
        decreases rest.len(),
    {
        proof {
            lemma_first_sep(rest@);
        }
        match first_sep_index(&rest) {
            Some(i) => {
                let piece = text::slice_of(&rest, 0, i);
                let next = text::slice_of(&rest, i + 1, rest.len());
                let ghost old_v = parts@;
                proof {
                    text::lemma_seqs_of_push(old_v, piece);
                }
                parts.push(piece);
                rest = next;
            },
            None => {
                let ghost old_v = parts@;
                proof {
                    text::lemma_seqs_of_push(old_v, rest);
                }
                parts.push(rest);
                return parts;
            },
        }
    }
}

/// Why a declaration that climbs out of the repository is refused.
pub open spec fn climb_text(t: Seq<char>) -> Seq<char> {
    "`"@ + t + "` is declared prunable but climbs out of the repository with `..` — refusing. Left alone."@
}

/// Why an absolute declaration is refused.
pub open spec fn absolute_text(t: Seq<char>) -> Seq<char> {
    "`"@ + t
        + "` is declared prunable but is an absolute path — declarations are relative to the repository root. Left alone."@
}

/// Why a declaration naming a drive or stream is refused.
pub open spec fn drive_text(t: Seq<char>) -> Seq<char> {
    "`"@ + t
        + "` is declared prunable but names a drive or stream — declarations are relative to the repository root. Left alone."@
}

/// Why a declaration inside `.git` is refused.
pub open spec fn git_text(t: Seq<char>) -> Seq<char> {
    "`"@ + t
        + "` is declared prunable but is inside `.git` — the one directory dev-prune never crosses. Left alone."@
}

/// Why a declaration of the repository root is refused.
pub open spec fn root_text(t: Seq<char>) -> Seq<char> {
    "`"@ + t
        + "` is declared prunable but resolves to the repository root itself — refusing. Left alone."@
}

/// The components kept from `ps`, in order, or the refusal of the first one that
/// could point outward: `..`, anything holding `:`, and `.git` in any case. Empty
/// pieces and `.` are dropped.
pub open spec fn kept_parts(ps: Seq<Seq<char>>, t: Seq<char>) -> Result<Seq<Seq<char>>, Seq<char>>
    decreases ps.len(),
{
    if ps.len() == 0 {
        Ok(seq![])
    } else {
        let p = ps[0];
        if p.len() == 0 || p == "."@ {
            kept_parts(ps.drop_first(), t)
        } else if p == ".."@ {
            Err(climb_text(t))
        } else if text::contains(p, ":"@) {
            Err(drive_text(t))
        } else if text::eq_ignore_ascii_case(p, ".git"@) {
            Err(git_text(t))
        } else {
            match kept_parts(ps.drop_first(), t) {
                Ok(rest) => Ok(seq![p] + rest),
                Err(e) => Err(e),
            }
        }
    }
}

/// A declared path as repository-relative components, or the reason it is refused.
pub open spec fn split_relative_spec(raw: Seq<char>) -> Result<Seq<Seq<char>>, Seq<char>> {
    let t = text::trim(raw);
    if t.len() == 0 {
        Err(EMPTY_PATH@)
    } else if t[0] == '/' || t[0] == '\\' {
        Err(absolute_text(t))
    } else {
        match kept_parts(split_seps(t), t) {
            Ok(parts) => if parts.len() == 0 {
                Err(root_text(t))
            } else {
                Ok(parts)
            },
            Err(e) => Err(e),
        }
    }
}

fn message(head: &str, t: &[char], tail: &str) -> (r: String)
    ensures
        r@ == head@ + t@ + tail@,
{
    let mut m: Vec<char> = Vec::new();
    text::push_str(&mut m, head);
    text::push_all(&mut m, t);
    text::push_str(&mut m, tail);
    text::string_of(&m)
}

/// Split a declared path into components, refusing anything that could point outward:
/// an empty or absolute path, `..`, a drive or stream, `.git`, or the root itself.
pub fn split_relative(raw: &str) -> (r: Result<Vec<String>, String>)
    ensures
        match r {
            Ok(v) => split_relative_spec(raw@) == Ok::<Seq<Seq<char>>, Seq<char>>(text::views(v@)),
            Err(e) => split_relative_spec(raw@) == Err::<Seq<Seq<char>>, Seq<char>>(e@),
        },
{
    let rv = text::chars_of(raw);
    let t = text::trim_chars(&rv);
    if t.len() == 0 {
        return Err(text::owned(EMPTY_PATH));
    }
    if t[0] == '/' || t[0] == '\\' {
        return Err(message("`", &t, "` is declared prunable but is an absolute path — declarations are relative to the repository root. Left alone."));
    }
    let pieces = split_seps_of(&t);
    let ghost ps = text::seqs_of(pieces@);
    let mut parts: Vec<String> = Vec::new();
    let mut i: usize = 0;
    assert(ps.skip(0) == ps);
    while i < pieces.len()
        invariant
            i <= pieces.len(),
            ps == text::seqs_of(pieces@),
            ps == split_seps(t@),
            t@ == text::trim(raw@),
            t@.len() > 0,
            !(t@[0] == '/' || t@[0] == '\\'),
            kept_parts(ps, t@) == match kept_parts(ps.skip(i as int), t@) {
                Ok(rest) => Ok(text::views(parts@) + rest),
                Err(e) => Err(e),
            },
        decreases pieces.len() - i,
    {
        let ghost rest = ps.skip(i as int);
        assert(rest[0] == pieces@[i as int]@);
        assert(rest.drop_first() == ps.skip(i + 1));
        let p = &pieces[i];
        if p.len() == 0 || text::chars_eq_str(p, ".") {
            i = i + 1;
            continue;
        }
        if text::chars_eq_str(p, "..") {
            return Err(message("`", &t, "` is declared prunable but climbs out of the repository with `..` — refusing. Left alone."));
        }
        if text::contains_str(p, ":") {
            return Err(message("`", &t, "` is declared prunable but names a drive or stream — declarations are relative to the repository root. Left alone."));
        }
        let g = text::chars_of(".git");
        if text::eq_ignore_ascii_case_chars(p, &g) {
            return Err(message("`", &t, "` is declared prunable but is inside `.git` — the one directory dev-prune never crosses. Left alone."));
        }
        let ghost before = parts@;
        parts.push(text::string_of(p));
        assert(text::views(parts@) =~= text::views(before).push(p@));
        proof {
            match kept_parts(ps.skip(i + 1), t@) {
                Ok(r2) => {
                    assert(text::views(before) + (seq![p@] + r2) =~= text::views(parts@) + r2);
                },
                Err(_) => {},
            }
        }
        i = i + 1;
    }
    assert(ps.skip(i as int) =~= Seq::<Seq<char>>::empty());
    assert(text::views(parts@) + Seq::<Seq<char>>::empty() =~= text::views(parts@));
    if parts.len() == 0 {
        return Err(message("`", &t, "` is declared prunable but resolves to the repository root itself — refusing. Left alone."));
    }
    Ok(parts)
}

/// Components joined with `/`.
pub open spec fn joined(parts: Seq<Seq<char>>) -> Seq<char>
    decreases parts.len(),
{
    if parts.len() == 0 {
        seq![]
    } else if parts.len() == 1 {
        parts[0]
    } else {
        joined(parts.drop_last()) + "/"@ + parts.last()
    }
}

fn join_parts(parts: &Vec<String>) -> (r: Vec<char>)
    ensures
        r@ == joined(text::views(parts@)),
{
    let ghost ps = text::views(parts@);
    let mut out: Vec<char> = Vec::new();
    let mut i: usize = 0;
    while i < parts.len()
        invariant
            i <= parts.len(),
            ps == text::views(parts@),
            out@ == joined(ps.take(i as int)),
        decreases parts.len() - i,
    {
        assert(ps.take(i + 1).drop_last() == ps.take(i as int));
        assert(ps[i as int] == parts@[i as int]@);
        if i > 0 {
            text::push_str(&mut out, "/");
        }
        text::push_str(&mut out, parts[i].as_str());
        proof {
            if i == 0 {
                assert(out@ =~= ps.take(1)[0]);
            }
        }
        i = i + 1;
    }
    assert(ps.take(i as int) == ps);
    out
}

/// The comparable spelling of a declared or excluded path: its components joined with
/// `/`, or its trimmed text when it has none.
pub open spec fn key_of(raw: Seq<char>) -> Seq<char> {
    match split_relative_spec(raw) {
        Ok(parts) => joined(parts),
        Err(_) => text::trim(raw),
    }
}

/// The comparable spelling of a declared or excluded path, so `dist`, `dist/`,
/// `./dist` and `dist\` are one path.
pub fn key(raw: &str) -> (r: String)
    ensures
        r@ == key_of(raw@),
{
    match split_relative(raw) {
        Ok(parts) => {
            let j = join_parts(&parts);
            text::string_of(&j)
        },
        Err(_) => {
            let v = text::chars_of(raw);
            let t = text::trim_chars(&v);
            text::string_of(&t)
        },
    }
}

// ---------------------------------------------------------------------------------
// Reading a rebuild command
// ---------------------------------------------------------------------------------

/// A quote a declaration may wrap a word in.
pub open spec fn is_quote(c: char) -> bool {
    c == '"' || c == '\''
}

/// `s` with every leading and trailing quote removed.
pub open spec fn trim_quotes(s: Seq<char>) -> Seq<char>
    decreases s.len(),
{
    if s.len() > 0 && is_quote(s[0]) {
        trim_quotes(s.drop_first())
    } else if s.len() > 0 && is_quote(s.last()) {
        trim_quotes(s.drop_last())
    } else {
        s
    }
}

/// `s` with every leading and trailing quote removed.
pub fn trim_quotes_chars(s: &[char]) -> (r: Vec<char>)
    ensures
        r@ == trim_quotes(s@),
    decreases s.len(),
{
    if s.len() > 0 && (s[0] == '"' || s[0] == '\'') {
        let rest = text::slice_of(s, 1, s.len());
        assert(rest@ == s@.drop_first());
        trim_quotes_chars(&rest)
    } else if s.len() > 0 && (s[s.len() - 1] == '"' || s[s.len() - 1] == '\'') {
        let rest = text::slice_of(s, 0, s.len() - 1);
        assert(rest@ == s@.drop_last());
        trim_quotes_chars(&rest)
    } else {
        text::slice_of(s, 0, s.len())
    }
}

/// The program a rebuild command starts with, unquoted.
pub open spec fn program_of(command: Seq<char>) -> Seq<char> {
    trim_quotes(text::first_word(command))
}

/// The program a rebuild command starts with, unquoted (empty for an empty command).
pub fn first_word(command: &str) -> (r: String)
    ensures
        r@ == program_of(command@),
{
    let c = text::chars_of(command);
    let w = text::first_word_chars(&c);
    let t = trim_quotes_chars(&w);
    text::string_of(&t)
}

/// A character that makes a rebuild command a shell script rather than one invocation.
/// `:` is not one: `npm run build:prod` is an ordinary script name.
pub open spec fn is_meta(c: char) -> bool {
    c == '&' || c == '|' || c == ';' || c == '$' || c == '`' || c == '>' || c == '<' || c == '('
        || c == ')' || c == '*' || c == '?' || c == '%' || c == '{' || c == '}' || c == '#'
}

/// Whether a word holds a shell metacharacter.
pub open spec fn has_meta(w: Seq<char>) -> bool {
    exists|i: int| 0 <= i < w.len() && is_meta(#[trigger] w[i])
}

/// The words of a rebuild command, unquoted, or `None` when it is not a single
/// invocation: a metacharacter anywhere means the words do not mean what they look like.
pub open spec fn command_words_spec(rebuild: Seq<char>) -> Option<Seq<Seq<char>>> {
    let ws = text::words(rebuild);
    if exists|i: int| 0 <= i < ws.len() && has_meta(#[trigger] ws[i]) {
        None
    } else {
        Some(ws.map_values(|w: Seq<char>| trim_quotes(w)))
    }
}

fn word_has_meta(w: &[char]) -> (r: bool)
    ensures
        r == has_meta(w@),
{
    let mut i: usize = 0;
    while i < w.len()
        invariant
            i <= w.len(),
            forall|j: int| 0 <= j < i ==> !is_meta(#[trigger] w@[j]),
        decreases w.len() - i,
    {
        let c = w[i];
        if c == '&' || c == '|' || c == ';' || c == '$' || c == '`' || c == '>' || c == '<' || c
            == '(' || c == ')' || c == '*' || c == '?' || c == '%' || c == '{' || c == '}' || c
            == '#' {
            assert(is_meta(w@[i as int]));
            return true;
        }
        i = i + 1;
    }
    false
}

/// The words of a rebuild command, or `None` when it is not a single invocation.
pub fn command_words(rebuild: &str) -> (r: Option<Vec<String>>)
    ensures
        match r {
            Some(v) => command_words_spec(rebuild@) == Some(text::views(v@)),
            None => command_words_spec(rebuild@) is None,
        },
{
    let c = text::chars_of(rebuild);
    let ws = text::words_of(&c);
    let ghost wv = text::seqs_of(ws@);
    let mut out: Vec<String> = Vec::new();
    let mut i: usize = 0;
    while i < ws.len()
        invariant
            i <= ws.len(),
            wv == text::seqs_of(ws@),
            wv == text::words(rebuild@),
            forall|j: int| 0 <= j < i ==> !has_meta(#[trigger] wv[j]),
            text::views(out@) == wv.take(i as int).map_values(|w: Seq<char>| trim_quotes(w)),
        decreases ws.len() - i,
    {
        assert(wv[i as int] == ws@[i as int]@);
        if word_has_meta(&ws[i]) {
            return None;
        }
        let t = trim_quotes_chars(&ws[i]);
        let ghost before = out@;
        out.push(text::string_of(&t));
        assert(text::views(out@) =~= text::views(before).push(trim_quotes(wv[i as int])));
        assert(wv.take(i + 1).map_values(|w: Seq<char>| trim_quotes(w)) =~= wv.take(
            i as int,
        ).map_values(|w: Seq<char>| trim_quotes(w)).push(trim_quotes(wv[i as int])));
        i = i + 1;
    }
    assert(wv.take(i as int) == wv);
    Some(out)
}

/// A tool's name without the executable extension a Windows declaration might carry;
/// a word holding a separator is a path and is left as it is.
pub open spec fn tool_of(word: Seq<char>) -> Seq<char> {
    if text::contains(word, "/"@) || text::contains(word, "\\"@) {
        word
    } else if text::ends_with(word, ".cmd"@) {
        word.take(word.len() - 4)
    } else if text::ends_with(word, ".exe"@) {
        word.take(word.len() - 4)
    } else if text::ends_with(word, ".bat"@) {
        word.take(word.len() - 4)
    } else if text::ends_with(word, ".ps1"@) {
        word.take(word.len() - 4)
    } else {
        word
    }
}

/// A tool's name with any executable extension dropped.
pub fn tool_name(word: &str) -> (r: String)
    ensures
        r@ == tool_of(word@),
{
    proof {
        reveal_strlit(".cmd");
        reveal_strlit(".exe");
        reveal_strlit(".bat");
        reveal_strlit(".ps1");
    }
    let w = text::chars_of(word);
    if text::contains_str(&w, "/") || text::contains_str(&w, "\\") {
        return text::owned(word);
    }
    if text::ends_with_str(&w, ".cmd") || text::ends_with_str(&w, ".exe") || text::ends_with_str(
        &w,
        ".bat",
    ) || text::ends_with_str(&w, ".ps1") {
        let stem = text::slice_of(&w, 0, w.len() - 4);
        return text::string_of(&stem);
    }
    text::owned(word)
}

/// A `--prefix`-style directory as repository-relative components: none for an absent,
/// empty or `.` directory, the declared-path split otherwise, and `None` when that
/// refuses it.
pub open spec fn relative_parts_spec(dir: Option<Seq<char>>) -> Option<Seq<Seq<char>>> {
    match dir {
        None => Some(seq![]),
        Some(d) => {
            let t = text::trim(d);
            if t.len() == 0 || t == "."@ {
                Some(seq![])
            } else {
                match split_relative_spec(t) {
                    Ok(parts) => Some(parts),
                    Err(_) => None,
                }
            }
        },
    }
}

/// A `--prefix`-style directory as repository-relative components.
pub fn relative_parts(dir: Option<&str>) -> (r: Option<Vec<String>>)
    ensures
        match r {
            Some(v) => relative_parts_spec(
                match dir {
                    Some(d) => Some(d@),
                    None => None,
                },
            ) == Some(text::views(v@)),
            None => relative_parts_spec(
                match dir {
                    Some(d) => Some(d@),
                    None => None,
                },
            ) is None,
        },
{
    let d = match dir {
        None => {
            let v: Vec<String> = Vec::new();
            assert(text::views(v@) =~= Seq::<Seq<char>>::empty());
            return Some(v);
        },
        Some(d) => d,
    };
    let dv = text::chars_of(d);
    let t = text::trim_chars(&dv);
    if t.len() == 0 || text::chars_eq_str(&t, ".") {
        let v: Vec<String> = Vec::new();
        assert(text::views(v@) =~= Seq::<Seq<char>>::empty());
        return Some(v);
    }
    let ts = text::string_of(&t);
    match split_relative(ts.as_str()) {
        Ok(parts) => Some(parts),
        Err(_) => None,
    }
}

/// How a manifest is named back to the user: repository-relative, `/`-separated.
pub open spec fn label_text(parts: Seq<Seq<char>>, file: Seq<char>) -> Seq<char> {
    if parts.len() == 0 {
        file
    } else {
        joined(parts) + "/"@ + file
    }
}

/// How a manifest is named back to the user.
pub fn label_of(parts: &Vec<String>, file: &str) -> (r: String)
    ensures
        r@ == label_text(text::views(parts@), file@),
{
    if parts.len() == 0 {
        return text::owned(file);
    }
    let mut j = join_parts(parts);
    text::push_str(&mut j, "/");
    text::push_str(&mut j, file);
    text::string_of(&j)
}

// ---------------------------------------------------------------------------------
// The rebuild check for `make`
// ---------------------------------------------------------------------------------

/// The targets one makefile line states outright: `None` when the line means the file
/// names targets this cannot see (an include, a pattern rule, a target built out of a
/// variable).
pub open spec fn line_targets(raw: Seq<char>) -> Option<Seq<Seq<char>>> {
    let line = text::trim(raw);
    if raw.len() > 0 && raw[0] == '\t' {
        Some(seq![])
    } else if line.len() == 0 || line[0] == '#' {
        Some(seq![])
    } else if text::starts_with(line, "include"@) || text::starts_with(line, "-include"@)
        || text::starts_with(line, "sinclude"@) {
        None
    } else {
        match text::find(line, ":"@) {
            None => Some(seq![]),
            Some(colon) => {
                let rest = line.skip(colon);
                let head = line.take(colon);
                if text::starts_with(rest, ":="@) || text::starts_with(rest, "::="@) {
                    Some(seq![])
                } else if text::contains(head, "="@) {
                    Some(seq![])
                } else if text::contains(head, "%"@) || text::contains(head, "$("@)
                    || text::contains(head, "${"@) {
                    None
                } else if text::words(head).contains(".PHONY"@) {
                    Some(text::words(head) + text::words(rest.skip(1)))
                } else {
                    Some(text::words(head))
                }
            },
        }
    }
}

/// The targets of a sequence of makefile lines, in order, or `None` as soon as one
/// line hides some.
pub open spec fn scan_targets(ls: Seq<Seq<char>>) -> Option<Seq<Seq<char>>>
    decreases ls.len(),
{
    if ls.len() == 0 {
        Some(seq![])
    } else {
        match line_targets(ls[0]) {
            None => None,
            Some(t) => match scan_targets(ls.drop_first()) {
                None => None,
                Some(r) => Some(t + r),
            },
        }
    }
}

/// Every target a makefile states outright, or `None` when some are not in the text
/// or there are none.
pub open spec fn makefile_targets(content: Seq<char>) -> Option<Seq<Seq<char>>> {
    match scan_targets(text::lines(content)) {
        Some(t) => if t.len() == 0 {
            None
        } else {
            Some(t)
        },
        None => None,
    }
}

fn has_word(ws: &Vec<Vec<char>>, w: &str) -> (r: bool)
    ensures
        r == text::seqs_of(ws@).contains(w@),
{
    let mut i: usize = 0;
    while i < ws.len()
        invariant
            i <= ws.len(),
            forall|j: int| 0 <= j < i ==> text::seqs_of(ws@)[j] != w@,
        decreases ws.len() - i,
    {
        if text::chars_eq_str(&ws[i], w) {
            assert(text::seqs_of(ws@)[i as int] == w@);
            return true;
        }
        i = i + 1;
    }
    false
}

fn push_words(out: &mut Vec<String>, ws: &Vec<Vec<char>>)
    ensures
        text::views(final(out)@) == text::views(old(out)@) + text::seqs_of(ws@),
{
    let ghost start = text::views(out@);
    let mut i: usize = 0;
    while i < ws.len()
        invariant
            i <= ws.len(),
            text::views(out@) == start + text::seqs_of(ws@).take(i as int),
        decreases ws.len() - i,
    {
        let ghost before = out@;
        out.push(text::string_of(&ws[i]));
        assert(text::views(out@) =~= text::views(before).push(ws@[i as int]@));
        assert(text::seqs_of(ws@).take(i + 1) =~= text::seqs_of(ws@).take(i as int).push(
            ws@[i as int]@,
        ));
        i = i + 1;
    }
    assert(text::seqs_of(ws@).take(i as int) == text::seqs_of(ws@));
}

/// The targets one line adds to `out`, or `false` when the line hides some.
fn add_line_targets(out: &mut Vec<String>, raw: &[char]) -> (ok: bool)
    ensures
        match line_targets(raw@) {
            Some(t) => ok && text::views(final(out)@) == text::views(old(out)@) + t,
            None => !ok,
        },
{
    let ghost start = text::views(out@);
    if raw.len() > 0 && raw[0] == '\t' {
        assert(text::views(out@) =~= start + Seq::<Seq<char>>::empty());
        return true;
    }
    let line = text::trim_chars(raw);
    if line.len() == 0 || line[0] == '#' {
        assert(text::views(out@) =~= start + Seq::<Seq<char>>::empty());
        return true;
    }
    if text::starts_with_str(&line, "include") || text::starts_with_str(&line, "-include")
        || text::starts_with_str(&line, "sinclude") {
        return false;
    }
    proof {
        text::lemma_find(line@, ":"@);
    }
    let colon = match text::find_str(&line, ":") {
        None => {
            assert(text::views(out@) =~= start + Seq::<Seq<char>>::empty());
            return true;
        },
        Some(c) => c,
    };
    let rest = text::slice_of(&line, colon, line.len());
    let head = text::slice_of(&line, 0, colon);
    assert(rest@ == line@.skip(colon as int));
    assert(head@ == line@.take(colon as int));
    if text::starts_with_str(&rest, ":=") || text::starts_with_str(&rest, "::=") {
        assert(text::views(out@) =~= start + Seq::<Seq<char>>::empty());
        return true;
    }
    if text::contains_str(&head, "=") {
        assert(text::views(out@) =~= start + Seq::<Seq<char>>::empty());
        return true;
    }
    if text::contains_str(&head, "%") || text::contains_str(&head, "$(") || text::contains_str(
        &head,
        "${",
    ) {
        return false;
    }
    let hw = text::words_of(&head);
    push_words(out, &hw);
    if has_word(&hw, ".PHONY") {
        proof {
            reveal_strlit(":");
            text::lemma_find(line@, ":"@);
        }
        let after = text::slice_of(&rest, 1, rest.len());
        assert(after@ == rest@.skip(1));
        let rw = text::words_of(&after);
        let ghost mid = text::views(out@);
        push_words(out, &rw);
        assert(text::views(out@) =~= start + (text::words(head@) + text::words(rest@.skip(1))));
    }
    true
}

/// Every target a makefile states outright, or `None` when some are not in the text.
/// Line-based: an `include`, a pattern rule or a target built out of a variable means
/// the file names targets this cannot see, so those give up rather than answer from a
/// partial list.
pub fn make_targets(content: &str) -> (r: Option<Vec<String>>)
    ensures
        match r {
            Some(v) => makefile_targets(content@) == Some(text::views(v@)),
            None => makefile_targets(content@) is None,
        },
{
    let c = text::chars_of(content);
    let ls = text::lines_of(&c);
    let ghost lv = text::seqs_of(ls@);
    let mut out: Vec<String> = Vec::new();
    let mut i: usize = 0;
    assert(lv.skip(0) == lv);
    while i < ls.len()
        invariant
            i <= ls.len(),
            lv == text::seqs_of(ls@),
            lv == text::lines(content@),
            scan_targets(lv) == match scan_targets(lv.skip(i as int)) {
                Some(r) => Some(text::views(out@) + r),
                None => None,
            },
        decreases ls.len() - i,
    {
        let ghost rest = lv.skip(i as int);
        assert(rest[0] == ls@[i as int]@);
        assert(rest.drop_first() == lv.skip(i + 1));
        let ghost before = text::views(out@);
        if !add_line_targets(&mut out, &ls[i]) {
            return None;
        }
        proof {
            match scan_targets(lv.skip(i + 1)) {
                Some(r2) => {
                    let t = line_targets(rest[0])->0;
                    assert(before + (t + r2) =~= text::views(out@) + r2);
                },
                None => {},
            }
        }
        i = i + 1;
    }
    assert(lv.skip(i as int) =~= Seq::<Seq<char>>::empty());
    assert(text::views(out@) + Seq::<Seq<char>>::empty() =~= text::views(out@));
    if out.len() == 0 {
        None
    } else {
        Some(out)
    }
}

/// What a `make` invocation asks for, from argument `i` on: the directory and makefile
/// it names, and its first goal. `None` when it names no goal (bare `make` builds the
/// default goal, which is not a name to look up), or uses an argument shape this does
/// not model.
pub open spec fn make_request(
    args: Seq<Seq<char>>,
    i: int,
    dir: Option<Seq<char>>,
    file: Option<Seq<char>>,
) -> Option<(Option<Seq<char>>, Option<Seq<char>>, Seq<char>)>
    decreases args.len() - i,
{
    if i < 0 || i >= args.len() {
        None
    } else {
        let a = args[i];
        if a == "--"@ {
            None
        } else if text::starts_with(a, "--directory="@) {
            make_request(args, i + 1, Some(a.skip(12)), file)
        } else if text::starts_with(a, "--file="@) {
            make_request(args, i + 1, dir, Some(a.skip(7)))
        } else if text::starts_with(a, "--makefile="@) {
            make_request(args, i + 1, dir, Some(a.skip(11)))
        } else if a == "-C"@ || a == "--directory"@ {
            if i + 1 < args.len() {
                make_request(args, i + 2, Some(args[i + 1]), file)
            } else {
                None
            }
        } else if a == "-f"@ || a == "--file"@ || a == "--makefile"@ {
            if i + 1 < args.len() {
                make_request(args, i + 2, dir, Some(args[i + 1]))
            } else {
                None
            }
        } else if text::starts_with(a, "-C"@) && a.len() > 2 {
            make_request(args, i + 1, Some(a.skip(2)), file)
        } else if text::starts_with(a, "-f"@) && a.len() > 2 {
            make_request(args, i + 1, dir, Some(a.skip(2)))
        } else if text::starts_with(a, "-"@) {
            None
        } else if !text::contains(a, "="@) {
            Some((dir, file, a))
        } else {
            make_request(args, i + 1, dir, file)
        }
    }
}

/// What a `make` invocation asks for: the directory (`-C`), the makefile (`-f`) and
/// the goal. `VAR=value` overrides are skipped; the first other word is the goal.
pub fn make_invocation(args: &Vec<String>) -> (r: Option<(Option<String>, Option<String>, String)>)
    ensures
        match r {
            Some((d, f, t)) => make_request(text::views(args@), 0, None, None) == Some(
                (text::opt_view(d), text::opt_view(f), t@),
            ),
            None => make_request(text::views(args@), 0, None, None) is None,
        },
{
    let ghost av = text::views(args@);
    let mut dir: Option<String> = None;
    let mut file: Option<String> = None;
    let mut i: usize = 0;
    while i < args.len()
        invariant
            i <= args.len(),
            av == text::views(args@),
            make_request(av, 0, None, None) == make_request(
                av,
                i as int,
                text::opt_view(dir),
                text::opt_view(file),
            ),
        decreases args.len() - i,
    {
        proof {
            reveal_strlit("--directory=");
            reveal_strlit("--file=");
            reveal_strlit("--makefile=");
            reveal_strlit("-C");
            reveal_strlit("-f");
        }
        let a = text::chars_of(args[i].as_str());
        assert(a@ == av[i as int]);
        if text::chars_eq_str(&a, "--") {
            return None;
        }
        if text::starts_with_str(&a, "--directory=") {
            dir = Some(text::string_of(&text::slice_of(&a, 12, a.len())));
        } else if text::starts_with_str(&a, "--file=") {
            file = Some(text::string_of(&text::slice_of(&a, 7, a.len())));
        } else if text::starts_with_str(&a, "--makefile=") {
            file = Some(text::string_of(&text::slice_of(&a, 11, a.len())));
        } else if text::chars_eq_str(&a, "-C") || text::chars_eq_str(&a, "--directory") {
            if i + 1 >= args.len() {
                return None;
            }
            dir = Some(args[i + 1].clone());
            i = i + 1;
        } else if text::chars_eq_str(&a, "-f") || text::chars_eq_str(&a, "--file")
            || text::chars_eq_str(&a, "--makefile") {
            if i + 1 >= args.len() {
                return None;
            }
            file = Some(args[i + 1].clone());
            i = i + 1;
        } else if text::starts_with_str(&a, "-C") && a.len() > 2 {
            dir = Some(text::string_of(&text::slice_of(&a, 2, a.len())));
        } else if text::starts_with_str(&a, "-f") && a.len() > 2 {
            file = Some(text::string_of(&text::slice_of(&a, 2, a.len())));
        } else if text::starts_with_str(&a, "-") {
            return None;
        } else if !text::contains_str(&a, "=") {
            return Some((dir, file, args[i].clone()));
        }
        i = i + 1;
    }
    None
}

/// The makefiles `make` would read for a goal, each as repository-relative parts, in
/// the order it tries them: the `-f` file alone when one is named (`None` when that
/// name could point outside the repository), else `Makefile`, `makefile` and
/// `GNUmakefile`; all of them under the `-C` directory (`None` when that could point
/// outside). The first that exists is the one read.
pub open spec fn makefile_candidates_spec(dir: Option<Seq<char>>, file: Option<Seq<char>>) -> Option<Seq<Seq<Seq<char>>>> {
    match relative_parts_spec(dir) {
        None => None,
        Some(base) => match file {
            Some(name) => match split_relative_spec(name) {
                Ok(parts) => Some(seq![base + parts]),
                Err(_) => None,
            },
            None => Some(seq![base + seq!["Makefile"@], base + seq!["makefile"@], base + seq!["GNUmakefile"@]]),
        },
    }
}

/// The abstract value of a list of part lists.
pub open spec fn candidates_view(v: Seq<Vec<String>>) -> Seq<Seq<Seq<char>>> {
    v.map_values(|p: Vec<String>| text::views(p@))
}

fn push_copy(v: &mut Vec<String>, s: &String)
    ensures
        text::views(final(v)@) == text::views(old(v)@).push(s@),
{
    let ghost before = text::views(v@);
    v.push(s.clone());
    assert(text::views(v@) =~= before.push(s@));
}

fn parts_with(base: &Vec<String>, last: &str) -> (r: Vec<String>)
    ensures
        text::views(r@) == text::views(base@) + seq![last@],
{
    let mut out: Vec<String> = Vec::new();
    let mut i: usize = 0;
    while i < base.len()
        invariant
            i <= base@.len(),
            text::views(out@) == text::views(base@).take(i as int),
        decreases base@.len() - i,
    {
        push_copy(&mut out, &base[i]);
        assert(text::views(base@)[i as int] == base@[i as int]@);
        assert(text::views(out@) =~= text::views(base@).take(i + 1));
        i = i + 1;
    }
    let ghost before = text::views(out@);
    out.push(text::owned(last));
    assert(text::views(out@) =~= text::views(base@) + seq![last@]);
    out
}

/// The makefiles `make` would read, in the order it tries them.
pub fn makefile_candidates(dir: Option<&str>, file: Option<&str>) -> (r: Option<Vec<Vec<String>>>)
    ensures
        match r {
            Some(v) => makefile_candidates_spec(
                match dir {
                    Some(d) => Some(d@),
                    None => None,
                },
                match file {
                    Some(f) => Some(f@),
                    None => None,
                },
            ) == Some(candidates_view(v@)),
            None => makefile_candidates_spec(
                match dir {
                    Some(d) => Some(d@),
                    None => None,
                },
                match file {
                    Some(f) => Some(f@),
                    None => None,
                },
            ) is None,
        },
{
    let base = match relative_parts(dir) {
        Some(b) => b,
        None => return None,
    };
    match file {
        Some(name) => {
            let parts = match split_relative(name) {
                Ok(p) => p,
                Err(_) => return None,
            };
            let mut full: Vec<String> = Vec::new();
            let mut i: usize = 0;
            while i < base.len()
                invariant
                    i <= base@.len(),
                    text::views(full@) == text::views(base@).take(i as int),
                decreases base@.len() - i,
            {
                push_copy(&mut full, &base[i]);
                assert(text::views(base@)[i as int] == base@[i as int]@);
                assert(text::views(full@) =~= text::views(base@).take(i + 1));
                i = i + 1;
            }
            let mut k: usize = 0;
            while k < parts.len()
                invariant
                    k <= parts@.len(),
                    text::views(full@) == text::views(base@) + text::views(parts@).take(k as int),
                decreases parts@.len() - k,
            {
                push_copy(&mut full, &parts[k]);
                assert(text::views(parts@)[k as int] == parts@[k as int]@);
                assert(text::views(full@) =~= text::views(base@) + text::views(parts@).take(k + 1));
                k = k + 1;
            }
            assert(text::views(parts@).take(k as int) == text::views(parts@));
            let mut out: Vec<Vec<String>> = Vec::new();
            out.push(full);
            assert(candidates_view(out@) =~= seq![text::views(base@) + text::views(parts@)]);
            Some(out)
        },
        None => {
            let mut out: Vec<Vec<String>> = Vec::new();
            out.push(parts_with(&base, "Makefile"));
            out.push(parts_with(&base, "makefile"));
            out.push(parts_with(&base, "GNUmakefile"));
            assert(candidates_view(out@) =~= seq![
                text::views(base@) + seq!["Makefile"@],
                text::views(base@) + seq!["makefile"@],
                text::views(base@) + seq!["GNUmakefile"@],
            ]);
            Some(out)
        },
    }
}

/// The name a makefile is reported under: its parts joined with `/`.
pub fn manifest_name(parts: &Vec<String>) -> (r: String)
    ensures
        r@ == joined(text::views(parts@)),
{
    let j = join_parts(parts);
    text::string_of(&j)
}


/// A `make` goal the makefile provably does not define, as what is missing and what
/// to do about it; `None` when the makefile defines it or cannot be read in full.
pub open spec fn make_gap_spec(manifest: Seq<char>, content: Seq<char>, target: Seq<char>) -> Option<
    (Seq<char>, Seq<char>),
> {
    match makefile_targets(content) {
        Some(ts) => if ts.contains(target) {
            None
        } else {
            Some(
                (
                    "`"@ + manifest + "` defines no `"@ + target + "` target"@,
                    "Add a `"@ + target + "` target to `"@ + manifest + "`, or fix the command."@,
                ),
            )
        },
        None => None,
    }
}

/// The gap between a `make` goal and the makefile that would be read, `manifest`
/// naming it back to the user.
pub fn make_gap(manifest: &str, content: &str, target: &str) -> (r: Option<(String, String)>)
    ensures
        match r {
            Some((w, f)) => make_gap_spec(manifest@, content@, target@) == Some((w@, f@)),
            None => make_gap_spec(manifest@, content@, target@) is None,
        },
{
    let ts = match make_targets(content) {
        Some(ts) => ts,
        None => return None,
    };
    let tv = text::chars_of(target);
    if contains_string(&ts, &tv) {
        return None;
    }
    let mut what: Vec<char> = Vec::new();
    text::push_str(&mut what, "`");
    text::push_str(&mut what, manifest);
    text::push_str(&mut what, "` defines no `");
    text::push_str(&mut what, target);
    text::push_str(&mut what, "` target");
    let mut fix: Vec<char> = Vec::new();
    text::push_str(&mut fix, "Add a `");
    text::push_str(&mut fix, target);
    text::push_str(&mut fix, "` target to `");
    text::push_str(&mut fix, manifest);
    text::push_str(&mut fix, "`, or fix the command.");
    Some((text::string_of(&what), text::string_of(&fix)))
}

fn contains_string(v: &Vec<String>, x: &[char]) -> (r: bool)
    ensures
        r == text::views(v@).contains(x@),
{
    let mut i: usize = 0;
    while i < v.len()
        invariant
            i <= v.len(),
            forall|j: int| 0 <= j < i ==> text::views(v@)[j] != x@,
        decreases v.len() - i,
    {
        let c = text::chars_of(v[i].as_str());
        if text::chars_eq(&c, x) {
            assert(text::views(v@)[i as int] == x@);
            return true;
        }
        i = i + 1;
    }
    false
}

// ---------------------------------------------------------------------------------
// Checking a declaration
// ---------------------------------------------------------------------------------

/// Programs that are shell builtins rather than programs on disk; `echo not needed` is
/// the documented rebuild for a directory that needs nothing to come back.
pub open spec fn is_shell_builtin(tool: Seq<char>) -> bool {
    tool == "echo"@ || tool == "true"@ || tool == ":"@
}

/// Builtins that make a rebuild command shell-shaped rather than a tool invocation.
pub open spec fn is_shell_only(tool: Seq<char>) -> bool {
    tool == "cd"@ || tool == "pushd"@ || tool == "source"@ || tool == "."@ || tool == "export"@
        || tool == "set"@
}

/// A declared directory that passed every check, ready to be treated as bloat.
#[derive(Debug)]
pub struct Target {
    /// Repository-relative, `/`-separated.
    pub label: String,
    /// Where it is on this machine.
    pub path: String,
    /// The command the project says rebuilds it; shown, never run.
    pub rebuild: String,
    /// The project's own reason, if it gave one.
    pub why: Option<String>,
    /// Bytes deleting it would give back.
    pub size_bytes: u64,
}

/// What became of one declaration.
#[derive(Debug)]
pub enum Declaration {
    /// Checked out, and safe to delete on the usual terms.
    Prunable(Box<Target>),
    /// Something about the claim did not hold; the reason is the sentence shown.
    Refused { label: String, reason: String },
}

/// What the filesystem, Git and `PATH` say about one declared directory.
pub struct Observation {
    /// Where the directory is on this machine.
    pub path: String,
    /// Whether anything is there.
    pub exists: bool,
    /// Whether it is a directory.
    pub is_dir: bool,
    /// Where it resolves: `None` when it could not be resolved, `Some(None)` inside
    /// the repository, `Some(Some(dest))` outside it, at `dest`.
    pub resolved: Option<Option<String>>,
    /// The first file Git tracks inside it, or why Git could not say.
    pub in_git: Result<Option<String>, String>,
    /// Whether the rebuild command's program is on this machine.
    pub tool_on_path: bool,
    /// What the rebuild command's manifest provably lacks, and what to do about it.
    pub gap: Option<(String, String)>,
    /// Its size in bytes.
    pub size_bytes: u64,
}

/// The abstract value of an [`Observation`].
pub struct ObservationView {
    pub path: Seq<char>,
    pub exists: bool,
    pub is_dir: bool,
    pub resolved: Option<Option<Seq<char>>>,
    pub in_git: Result<Option<Seq<char>>, Seq<char>>,
    pub tool_on_path: bool,
    pub gap: Option<(Seq<char>, Seq<char>)>,
    pub size_bytes: u64,
}

impl View for Observation {
    type V = ObservationView;

    open spec fn view(&self) -> ObservationView {
        ObservationView {
            path: self.path@,
            exists: self.exists,
            is_dir: self.is_dir,
            resolved: match self.resolved {
                Some(r) => Some(text::opt_view(r)),
                None => None,
            },
            in_git: match self.in_git {
                Ok(t) => Ok(text::opt_view(t)),
                Err(e) => Err(e@),
            },
            tool_on_path: self.tool_on_path,
            gap: match self.gap {
                Some(g) => Some((g.0@, g.1@)),
                None => None,
            },
            size_bytes: self.size_bytes,
        }
    }
}

/// The outcome of checking one declaration: `Ok(Some(label))` to delete, `Ok(None)`
/// when the directory is not there (a declaration already honoured), `Err` with the
/// reason it is refused. The checks run in order and the first that fails decides.
pub open spec fn check_spec(entry: DeclaredDirView, o: ObservationView) -> Result<Option<Seq<char>>, Seq<char>> {
    match split_relative_spec(entry.path) {
        Err(e) => Err(e),
        Ok(parts) => {
            let label = joined(parts);
            let rebuild = text::trim(entry.rebuild);
            if !o.exists {
                Ok(None)
            } else if !o.is_dir {
                Err("`"@ + label + "` is declared prunable but is a file, not a directory — dev-prune only deletes whole directories. Left alone."@)
            } else {
                match o.resolved {
                    None => Err("`"@ + label + "` is declared prunable but could not be resolved on this machine — refusing to delete a path dev-prune cannot pin down."@),
                    Some(Some(dest)) => Err("`"@ + label + "` is declared prunable but resolves to `"@ + dest + "`, outside the repository. Left alone."@),
                    Some(None) => match o.in_git {
                        Err(e) => Err(e),
                        Ok(Some(t)) => Err("`"@ + label + "` is declared prunable but Git is tracking `"@ + t + "` inside it — refusing. A lockfile cannot rebuild a file that is in the repository itself. Remove the declaration, or stop tracking those files."@),
                        Ok(None) => rebuild_verdict(label, rebuild, o),
                    },
                }
            }
        },
    }
}

/// The rebuild command's part of a declaration's check.
pub open spec fn rebuild_verdict(label: Seq<char>, rebuild: Seq<char>, o: ObservationView) -> Result<Option<Seq<char>>, Seq<char>> {
    let tool = program_of(rebuild);
    if rebuild.len() == 0 {
        Err("`"@ + label + "` is declared prunable with an empty `rebuild` command — refusing. Say what puts it back, or use `\"rebuild\": \"echo not needed\"` if nothing does."@)
    } else if is_shell_only(tool) {
        Err("`"@ + label + "` is declared prunable, rebuilt by `"@ + rebuild + "`, but `"@ + tool + "` is a shell builtin, not a program this machine can be checked for — put the tool first, e.g. `npm --prefix docs run build` rather than `cd docs && npm run build`."@)
    } else if !is_shell_builtin(tool) && !o.tool_on_path {
        Err("`"@ + label + "` is declared prunable, rebuilt by `"@ + rebuild + "`, but `"@ + tool + "` is not on this machine — refusing to delete something this machine cannot put back. Install `"@ + tool + "` first."@)
    } else {
        match o.gap {
            Some(g) => Err("`"@ + label + "` is declared prunable, rebuilt by `"@ + rebuild + "`, but "@ + g.0 + " — refusing to delete something that command cannot put back. "@ + g.1),
            None => Ok(Some(label)),
        }
    }
}

fn is_shell_only_tool(tool: &[char]) -> (r: bool)
    ensures
        r == is_shell_only(tool@),
{
    text::chars_eq_str(tool, "cd") || text::chars_eq_str(tool, "pushd") || text::chars_eq_str(
        tool,
        "source",
    ) || text::chars_eq_str(tool, ".") || text::chars_eq_str(tool, "export") || text::chars_eq_str(
        tool,
        "set",
    )
}

fn is_builtin_tool(tool: &[char]) -> (r: bool)
    ensures
        r == is_shell_builtin(tool@),
{
    text::chars_eq_str(tool, "echo") || text::chars_eq_str(tool, "true") || text::chars_eq_str(
        tool,
        ":",
    )
}

fn text3(a: &str, b: &[char], c: &str) -> (r: Vec<char>)
    ensures
        r@ == a@ + b@ + c@,
{
    let mut m: Vec<char> = Vec::new();
    text::push_str(&mut m, a);
    text::push_all(&mut m, b);
    text::push_str(&mut m, c);
    m
}

/// Check one declaration against what was observed of it.
pub fn check(entry: &DeclaredDir, o: &Observation) -> (r: Result<Option<Target>, String>)
    ensures
        match r {
            Ok(Some(t)) => check_spec(entry@, o@) == Ok::<Option<Seq<char>>, Seq<char>>(Some(t.label@))
                && t.path@ == o@.path && t.rebuild@ == text::trim(entry@.rebuild)
                && text::opt_view(t.why) == entry@.why && t.size_bytes == o.size_bytes,
            Ok(None) => check_spec(entry@, o@) == Ok::<Option<Seq<char>>, Seq<char>>(None),
            Err(e) => check_spec(entry@, o@) == Err::<Option<Seq<char>>, Seq<char>>(e@),
        },
{
    let parts = match split_relative(entry.path.as_str()) {
        Ok(p) => p,
        Err(e) => return Err(e),
    };
    let label = join_parts(&parts);
    let rv = text::chars_of(entry.rebuild.as_str());
    let rebuild = text::trim_chars(&rv);
    let rs = text::string_of(&rebuild);
    let tool_s = first_word(rs.as_str());
    let tool = text::chars_of(tool_s.as_str());
    if !o.exists {
        return Ok(None);
    }
    if !o.is_dir {
        let m = text3("`", &label, "` is declared prunable but is a file, not a directory — dev-prune only deletes whole directories. Left alone.");
        return Err(text::string_of(&m));
    }
    match &o.resolved {
        None => {
            let m = text3("`", &label, "` is declared prunable but could not be resolved on this machine — refusing to delete a path dev-prune cannot pin down.");
            return Err(text::string_of(&m));
        },
        Some(Some(dest)) => {
            let mut m = text3("`", &label, "` is declared prunable but resolves to `");
            text::push_str(&mut m, dest.as_str());
            text::push_str(&mut m, "`, outside the repository. Left alone.");
            return Err(text::string_of(&m));
        },
        Some(None) => {},
    }
    match &o.in_git {
        Err(e) => return Err(e.clone()),
        Ok(Some(t)) => {
            let mut m = text3("`", &label, "` is declared prunable but Git is tracking `");
            text::push_str(&mut m, t.as_str());
            text::push_str(&mut m, "` inside it — refusing. A lockfile cannot rebuild a file that is in the repository itself. Remove the declaration, or stop tracking those files.");
            return Err(text::string_of(&m));
        },
        Ok(None) => {},
    }
    if rebuild.len() == 0 {
        let m = text3("`", &label, "` is declared prunable with an empty `rebuild` command — refusing. Say what puts it back, or use `\"rebuild\": \"echo not needed\"` if nothing does.");
        return Err(text::string_of(&m));
    }
    if is_shell_only_tool(&tool) {
        let mut m = text3("`", &label, "` is declared prunable, rebuilt by `");
        text::push_all(&mut m, &rebuild);
        text::push_str(&mut m, "`, but `");
        text::push_all(&mut m, &tool);
        text::push_str(&mut m, "` is a shell builtin, not a program this machine can be checked for — put the tool first, e.g. `npm --prefix docs run build` rather than `cd docs && npm run build`.");
        return Err(text::string_of(&m));
    }
    if !is_builtin_tool(&tool) && !o.tool_on_path {
        let mut m = text3("`", &label, "` is declared prunable, rebuilt by `");
        text::push_all(&mut m, &rebuild);
        text::push_str(&mut m, "`, but `");
        text::push_all(&mut m, &tool);
        text::push_str(&mut m, "` is not on this machine — refusing to delete something this machine cannot put back. Install `");
        text::push_all(&mut m, &tool);
        text::push_str(&mut m, "` first.");
        return Err(text::string_of(&m));
    }
    match &o.gap {
        Some((what, fix)) => {
            let mut m = text3("`", &label, "` is declared prunable, rebuilt by `");
            text::push_all(&mut m, &rebuild);
            text::push_str(&mut m, "`, but ");
            text::push_str(&mut m, what.as_str());
            text::push_str(&mut m, " — refusing to delete something that command cannot put back. ");
            text::push_str(&mut m, fix.as_str());
            return Err(text::string_of(&m));
        },
        None => {},
    }
    Ok(
        Some(
            Target {
                label: text::string_of(&label),
                path: o.path.clone(),
                rebuild: rs,
                why: match &entry.why {
                    Some(w) => Some(w.clone()),
                    None => None,
                },
                size_bytes: o.size_bytes,
            },
        ),
    )
}

// ---------------------------------------------------------------------------------
// Resolving a repository's declarations
// ---------------------------------------------------------------------------------

/// Whether an exclusion names `path`, however either is spelled.
pub open spec fn is_excluded(exclude: Seq<Seq<char>>, path: Seq<char>) -> bool {
    exists|k: int| 0 <= k < exclude.len() && key_of(#[trigger] exclude[k]) == key_of(path)
}

/// The abstract value of a checked declaration.
pub struct DeclarationView {
    /// Whether it passed every check.
    pub prunable: bool,
    /// Its label: the normalised path for a prunable one, the path as written for a
    /// refused one.
    pub label: Seq<char>,
    /// Why it was refused (empty for a prunable one).
    pub reason: Seq<char>,
    /// Where a prunable one is on this machine (empty for a refused one).
    pub path: Seq<char>,
    /// The rebuild command shown for a prunable one, trimmed (empty for a refused one).
    pub rebuild: Seq<char>,
    /// The project's own reason for a prunable one.
    pub why: Option<Seq<char>>,
    /// What deleting a prunable one gives back (0 for a refused one).
    pub size_bytes: u64,
}

/// The abstract value of a [`Declaration`].
pub open spec fn declaration_view(d: Declaration) -> DeclarationView {
    match d {
        Declaration::Prunable(t) => DeclarationView {
            prunable: true,
            label: t.label@,
            reason: seq![],
            path: t.path@,
            rebuild: t.rebuild@,
            why: text::opt_view(t.why),
            size_bytes: t.size_bytes,
        },
        Declaration::Refused { label, reason } => refused_view(label@, reason@),
    }
}

/// A refused declaration, reported under `label`.
pub open spec fn refused_view(label: Seq<char>, reason: Seq<char>) -> DeclarationView {
    DeclarationView {
        prunable: false,
        label,
        reason,
        path: seq![],
        rebuild: seq![],
        why: None,
        size_bytes: 0,
    }
}

/// The outcomes of the first `n` declarations, in file order: excluded ones and ones
/// that are not there say nothing, refused ones are reported under their path as
/// written, and a prunable one carries where it is, the trimmed rebuild command, the
/// project's reason and its size.
pub open spec fn resolved_upto(p: PrunableView, obs: Seq<ObservationView>, n: int) -> Seq<
    DeclarationView,
>
    decreases n,
{
    if n <= 0 {
        seq![]
    } else {
        let rest = resolved_upto(p, obs, n - 1);
        let d = p.directories[n - 1];
        let o = obs[n - 1];
        if is_excluded(p.exclude, d.path) {
            rest
        } else {
            match check_spec(d, o) {
                Ok(Some(label)) => rest.push(
                    DeclarationView {
                        prunable: true,
                        label,
                        reason: seq![],
                        path: o.path,
                        rebuild: text::trim(d.rebuild),
                        why: d.why,
                        size_bytes: o.size_bytes,
                    },
                ),
                Ok(None) => rest,
                Err(r) => rest.push(refused_view(d.path, r)),
            }
        }
    }
}

/// The comparable spellings of the exclusions.
fn exclusion_keys(exclude: &Vec<String>) -> (r: Vec<String>)
    ensures
        text::views(r@) == text::views(exclude@).map_values(|x: Seq<char>| key_of(x)),
{
    let ghost ev = text::views(exclude@);
    let mut r: Vec<String> = Vec::new();
    let mut i: usize = 0;
    while i < exclude.len()
        invariant
            i <= exclude.len(),
            ev == text::views(exclude@),
            text::views(r@) == ev.take(i as int).map_values(|x: Seq<char>| key_of(x)),
        decreases exclude.len() - i,
    {
        let ghost before = r@;
        r.push(key(exclude[i].as_str()));
        assert(text::views(r@) =~= text::views(before).push(key_of(ev[i as int])));
        assert(ev.take(i + 1).map_values(|x: Seq<char>| key_of(x)) =~= ev.take(
            i as int,
        ).map_values(|x: Seq<char>| key_of(x)).push(key_of(ev[i as int])));
        i = i + 1;
    }
    assert(ev.take(i as int) == ev);
    r
}

/// Whether an exclusion takes the declaration of `path` out of play, so the caller
/// need not look at that directory at all.
pub fn excludes(declared: &Prunable, path: &str) -> (r: bool)
    ensures
        r == is_excluded(declared@.exclude, path@),
{
    let keys = exclusion_keys(&declared.exclude);
    let k = key(path);
    let kv = text::chars_of(k.as_str());
    let found = contains_string(&keys, &kv);
    proof {
        let ev = declared@.exclude;
        let ks = ev.map_values(|x: Seq<char>| key_of(x));
        if found {
            let w = choose|j: int| 0 <= j < ks.len() && ks[j] == kv@;
            assert(key_of(ev[w]) == key_of(path@));
        } else {
            assert forall|j: int| 0 <= j < ev.len() implies key_of(#[trigger] ev[j]) != key_of(path@) by {
                assert(ks[j] == key_of(ev[j]));
            }
        }
    }
    found
}

/// Check every declaration of a repository, in the order the file lists them, given
/// what was observed of each (`observed[i]` for `directories[i]`; what is observed of
/// an excluded one is never read).
///
/// A declared directory that is not there is dropped rather than reported: it is a
/// declaration already honoured. So is anything an exclusion names: whoever wrote the
/// exclusion has answered every question this would ask about that directory.
pub fn resolve(declared: &Prunable, observed: &Vec<Observation>) -> (r: Vec<Declaration>)
    requires
        observed.len() == declared.directories.len(),
    ensures
        r@.map_values(|d: Declaration| declaration_view(d)) == resolved_upto(
            declared@,
            observed@.map_values(|o: Observation| o@),
            declared.directories.len() as int,
        ),
{
    let keys = exclusion_keys(&declared.exclude);
    let ghost ov = observed@.map_values(|o: Observation| o@);
    let ghost p = declared@;
    let mut out: Vec<Declaration> = Vec::new();
    let mut i: usize = 0;
    while i < declared.directories.len()
        invariant
            i <= declared.directories.len(),
            observed.len() == declared.directories.len(),
            ov == observed@.map_values(|o: Observation| o@),
            p == declared@,
            text::views(keys@) == p.exclude.map_values(|x: Seq<char>| key_of(x)),
            out@.map_values(|d: Declaration| declaration_view(d)) == resolved_upto(p, ov, i as int),
        decreases declared.directories.len() - i,
    {
        let entry = &declared.directories[i];
        assert(p.directories[i as int] == entry@);
        assert(ov[i as int] == observed@[i as int]@);
        let k = key(entry.path.as_str());
        let kv = text::chars_of(k.as_str());
        let skip = contains_string(&keys, &kv);
        proof {
            let ks = p.exclude.map_values(|x: Seq<char>| key_of(x));
            if skip {
                let w = choose|j: int| 0 <= j < ks.len() && ks[j] == kv@;
                assert(key_of(p.exclude[w]) == key_of(entry@.path));
            } else {
                assert forall|j: int| 0 <= j < p.exclude.len() implies key_of(
                    #[trigger] p.exclude[j],
                ) != key_of(entry@.path) by {
                    assert(ks[j] == key_of(p.exclude[j]));
                }
            }
        }
        let ghost before = out@;
        if !skip {
            match check(entry, &observed[i]) {
                Ok(Some(t)) => {
                    out.push(Declaration::Prunable(Box::new(t)));
                    assert(out@.map_values(|d: Declaration| declaration_view(d)) =~= before.map_values(
                        |d: Declaration| declaration_view(d),
                    ).push(declaration_view(out@[before.len() as int])));
                },
                Ok(None) => {},
                Err(reason) => {
                    out.push(Declaration::Refused { label: entry.path.clone(), reason });
                    assert(out@.map_values(|d: Declaration| declaration_view(d)) =~= before.map_values(
                        |d: Declaration| declaration_view(d),
                    ).push(declaration_view(out@[before.len() as int])));
                },
            }
        }
        i = i + 1;
    }
    out
}

// ---------------------------------------------------------------------------------
// Laws
// ---------------------------------------------------------------------------------

/// A component a declaration may hold: not empty, not `.` or `..`, no drive or stream,
/// not `.git` in any case, and no separator.
pub open spec fn safe_component(p: Seq<char>) -> bool {
    &&& p.len() > 0
    &&& p != "."@
    &&& p != ".."@
    &&& !text::contains(p, ":"@)
    &&& !text::eq_ignore_ascii_case(p, ".git"@)
    &&& forall|i: int| 0 <= i < p.len() ==> !is_sep(#[trigger] p[i])
}

proof fn lemma_split_seps_pieces(s: Seq<char>)
    ensures
        forall|k: int, i: int|
            0 <= k < split_seps(s).len() && 0 <= i < split_seps(s)[k].len() ==> !is_sep(
                #[trigger] split_seps(s)[k][i],
            ),
    decreases s.len(),
{
    lemma_first_sep(s);
    match first_sep(s) {
        Some(j) => {
            if 0 <= j < s.len() {
                lemma_split_seps_pieces(s.skip(j + 1));
                let ps = split_seps(s);
                assert forall|k: int, i: int|
                    0 <= k < ps.len() && 0 <= i < ps[k].len() implies !is_sep(#[trigger] ps[k][i]) by {
                    if k == 0 {
                        assert(ps[0] == s.take(j));
                        assert(ps[0][i] == s[i]);
                    } else {
                        assert(ps[k] == split_seps(s.skip(j + 1))[k - 1]);
                    }
                }
            }
        },
        None => {
            let ps = split_seps(s);
            assert forall|k: int, i: int|
                0 <= k < ps.len() && 0 <= i < ps[k].len() implies !is_sep(#[trigger] ps[k][i]) by {
                assert(ps[k] == s);
            }
        },
    }
}

proof fn lemma_kept_parts_safe(ps: Seq<Seq<char>>, t: Seq<char>)
    requires
        forall|k: int, i: int| 0 <= k < ps.len() && 0 <= i < ps[k].len() ==> !is_sep(#[trigger] ps[k][i]),
    ensures
        kept_parts(ps, t) matches Ok(parts) ==> forall|k: int| 0 <= k < parts.len() ==> safe_component(#[trigger] parts[k]),
    decreases ps.len(),
{
    if ps.len() > 0 {
        let rest = ps.drop_first();
        assert forall|k: int, i: int| 0 <= k < rest.len() && 0 <= i < rest[k].len() implies !is_sep(#[trigger] rest[k][i]) by {
            assert(rest[k] == ps[k + 1]);
        }
        lemma_kept_parts_safe(rest, t);
        let p = ps[0];
        if !(p.len() == 0 || p == "."@) && p != ".."@ && !text::contains(p, ":"@)
            && !text::eq_ignore_ascii_case(p, ".git"@) {
            if kept_parts(rest, t) is Ok {
                let r = kept_parts(rest, t)->Ok_0;
                let parts = seq![p] + r;
                assert forall|k: int| 0 <= k < parts.len() implies safe_component(#[trigger] parts[k]) by {
                    if k == 0 {
                        assert forall|i: int| 0 <= i < p.len() implies !is_sep(#[trigger] p[i]) by {
                            assert(ps[0][i] == p[i]);
                        }
                    } else {
                        assert(parts[k] == r[k - 1]);
                    }
                }
            }
        }
    }
}

/// A declaration that is accepted never points outside the repository: it has at
/// least one component, and none is empty, `.`, `..`, a drive or stream, `.git` in any
/// case, or holds a separator.
pub proof fn law_accepted_paths_stay_inside(raw: Seq<char>)
    ensures
        split_relative_spec(raw) matches Ok(parts) ==> parts.len() > 0 && forall|k: int|
            0 <= k < parts.len() ==> safe_component(#[trigger] parts[k]),
{
    let t = text::trim(raw);
    lemma_split_seps_pieces(t);
    lemma_kept_parts_safe(split_seps(t), t);
}

/// Checking a repository's declarations answers each at most once: never more
/// outcomes than declarations, and an excluded one none at all.
pub proof fn law_each_declaration_answers_at_most_once(p: PrunableView, obs: Seq<ObservationView>, n: int)
    requires
        0 <= n <= p.directories.len(),
    ensures
        resolved_upto(p, obs, n).len() <= n,
        n > 0 && is_excluded(p.exclude, p.directories[n - 1].path) ==> resolved_upto(p, obs, n)
            == resolved_upto(p, obs, n - 1),
    decreases n,
{
    if n > 0 {
        law_each_declaration_answers_at_most_once(p, obs, n - 1);
    }
}

/// A declaration that passes every check is prunable, under its normalised path: the
/// path splits into repository-relative components, the directory is there and is a
/// directory, resolves inside the repository, holds no file Git tracks, and has a
/// non-empty rebuild command whose program is not shell-only and is a builtin or on
/// this machine's PATH, with no gap in the manifest. An installed tool is never a
/// reason to refuse.
pub proof fn law_every_check_holding_makes_it_prunable(entry: DeclaredDirView, o: ObservationView)
    requires
        split_relative_spec(entry.path) is Ok,
        o.exists,
        o.is_dir,
        o.resolved == Some(None::<Seq<char>>),
        o.in_git == Ok::<Option<Seq<char>>, Seq<char>>(None),
        text::trim(entry.rebuild).len() > 0,
        !is_shell_only(program_of(text::trim(entry.rebuild))),
        is_shell_builtin(program_of(text::trim(entry.rebuild))) || o.tool_on_path,
        o.gap is None,
    ensures
        check_spec(entry, o) == Ok::<Option<Seq<char>>, Seq<char>>(
            Some(joined(split_relative_spec(entry.path)->Ok_0)),
        ),
{
}

/// A declaration is only ever prunable when every check held: the directory is there
/// and is a directory, resolves inside the repository, holds no file Git tracks, has a
/// rebuild command whose program this machine has (or is a shell builtin such as
/// `echo`), and no manifest provably lacks what that command names.
pub proof fn law_prunable_only_when_every_check_holds(entry: DeclaredDirView, o: ObservationView)
    ensures
        check_spec(entry, o) matches Ok(Some(_)) ==> {
            let rebuild = text::trim(entry.rebuild);
            &&& split_relative_spec(entry.path) is Ok
            &&& o.exists
            &&& o.is_dir
            &&& o.resolved == Some(None::<Seq<char>>)
            &&& o.in_git == Ok::<Option<Seq<char>>, Seq<char>>(None)
            &&& rebuild.len() > 0
            &&& !is_shell_only(program_of(rebuild))
            &&& (is_shell_builtin(program_of(rebuild)) || o.tool_on_path)
            &&& o.gap is None
        },
{
}

} // verus!
