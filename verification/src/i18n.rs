//! The fixed chrome of the tool's own output in the language the user asked for:
//! English as the source of truth, a chosen catalogue laid over it, and templates with
//! named placeholders.
//!
//! Reading the compiled catalogues belongs to the caller, which hands each over as its
//! `_meta` block and its key/value pairs.
use vstd::prelude::*;

use crate::config::{index_of, keys_of, names_of, key_index};
use crate::text;

verus! {

broadcast use vstd::seq_lib::group_seq_properties;

/// The language every other catalogue is laid over.
pub const DEFAULT_LANGUAGE: &'static str = "en";

/// What a catalogue says about itself.
pub struct Meta {
    /// The IETF subtag the config key and environment override take.
    pub code: String,
    /// The language's name in English.
    pub english_name: String,
    /// The language's name in itself.
    pub native_name: String,
    /// Whether a native speaker has read the file through.
    pub reviewed: bool,
}

/// The abstract value of a string table.
pub open spec fn table_view(t: Seq<(String, String)>) -> Seq<(Seq<char>, Seq<char>)> {
    t.map_values(|p: (String, String)| (p.0@, p.1@))
}

/// `table` with `key` set to `value`: replaced where the key is, appended otherwise.
pub open spec fn table_insert(table: Seq<(Seq<char>, Seq<char>)>, key: Seq<char>, value: Seq<char>) -> Seq<(Seq<char>, Seq<char>)> {
    match index_of(table, key) {
        Some(i) => table.update(i, (key, value)),
        None => table.push((key, value)),
    }
}

/// The English table with every non-blank string of `chosen` laid over it, in the
/// chosen catalogue's order. A blank string is a key the translator opened and left, and
/// falls back to English.
pub open spec fn overlaid(table: Seq<(Seq<char>, Seq<char>)>, chosen: Seq<(Seq<char>, Seq<char>)>) -> Seq<(Seq<char>, Seq<char>)>
    decreases chosen.len(),
{
    if chosen.len() == 0 {
        table
    } else {
        let before = overlaid(table, chosen.drop_last());
        let (k, v) = chosen.last();
        if text::trim(v).len() == 0 {
            before
        } else {
            table_insert(before, k, v)
        }
    }
}

fn copy_table(t: &Vec<(String, String)>) -> (r: Vec<(String, String)>)
    ensures
        table_view(r@) == table_view(t@),
{
    let mut r: Vec<(String, String)> = Vec::new();
    let mut i: usize = 0;
    while i < t.len()
        invariant
            i <= t.len(),
            table_view(r@) == table_view(t@).take(i as int),
        decreases t.len() - i,
    {
        let ghost before = r@;
        r.push((t[i].0.clone(), t[i].1.clone()));
        assert(table_view(r@) =~= table_view(before).push((t@[i as int].0@, t@[i as int].1@)));
        assert(table_view(t@).take(i + 1) =~= table_view(t@).take(i as int).push(table_view(t@)[i as int]));
        i = i + 1;
    }
    assert(table_view(t@).take(i as int) == table_view(t@));
    r
}

proof fn lemma_table_names(t: Seq<(String, String)>)
    ensures
        keys_of(table_view(t)) == names_of(t),
{
    assert(keys_of(table_view(t)) =~= names_of(t));
}

fn find_name(v: &Vec<(String, String)>, key: &[char]) -> (r: Option<usize>)
    ensures
        match r {
            Some(i) => key_index(names_of(v@), key@, 0) == Some(i as int),
            None => key_index(names_of(v@), key@, 0) is None,
        },
{
    let ghost ks = names_of(v@);
    let mut i: usize = 0;
    while i < v.len()
        invariant
            i <= v.len(),
            ks == names_of(v@),
            key_index(ks, key@, 0) == key_index(ks, key@, i as int),
        decreases v.len() - i,
    {
        let k = text::chars_of(v[i].0.as_str());
        if text::chars_eq(&k, key) {
            return Some(i);
        }
        i = i + 1;
    }
    None
}

/// The strings in use for a language: `english`, with `chosen` (when a catalogue other
/// than English was chosen) laid over it.
pub fn merge(english: &Vec<(String, String)>, chosen: Option<&Vec<(String, String)>>) -> (r: Vec<(String, String)>)
    ensures
        table_view(r@) == match chosen {
            Some(c) => overlaid(table_view(english@), table_view(c@)),
            None => table_view(english@),
        },
{
    let mut merged = copy_table(english);
    let c = match chosen {
        Some(c) => c,
        None => return merged,
    };
    let ghost cv = table_view(c@);
    let ghost base = table_view(english@);
    let mut i: usize = 0;
    while i < c.len()
        invariant
            i <= c.len(),
            cv == table_view(c@),
            base == table_view(english@),
            table_view(merged@) == overlaid(base, cv.take(i as int)),
        decreases c.len() - i,
    {
        assert(cv.take(i + 1).drop_last() == cv.take(i as int));
        assert(cv.take(i + 1).last() == (c@[i as int].0@, c@[i as int].1@));
        let value = text::chars_of(c[i].1.as_str());
        let t = text::trim_chars(&value);
        if t.len() > 0 {
            let k = text::chars_of(c[i].0.as_str());
            proof {
                lemma_table_names(merged@);
                crate::config::lemma_index_of(table_view(merged@), k@);
            }
            let ghost before = table_view(merged@);
            match find_name(&merged, &k) {
                Some(j) => {
                    merged.remove(j);
                    merged.insert(j, (c[i].0.clone(), c[i].1.clone()));
                    assert(table_view(merged@) =~= before.update(j as int, (k@, value@)));
                },
                None => {
                    merged.push((c[i].0.clone(), c[i].1.clone()));
                    assert(table_view(merged@) =~= before.push((k@, value@)));
                },
            }
        }
        i = i + 1;
    }
    assert(cv.take(i as int) == cv);
    merged
}

/// One string from a table, or the key itself when the table lacks it, so a missing
/// key prints something a maintainer can search for.
pub open spec fn lookup(table: Seq<(Seq<char>, Seq<char>)>, key: Seq<char>) -> Seq<char> {
    match index_of(table, key) {
        Some(i) => table[i].1,
        None => key,
    }
}

/// One translated string.
pub fn t(table: &Vec<(String, String)>, key: &str) -> (r: String)
    ensures
        r@ == lookup(table_view(table@), key@),
{
    let k = text::chars_of(key);
    proof {
        lemma_table_names(table@);
        crate::config::lemma_index_of(table_view(table@), key@);
    }
    match find_name(table, &k) {
        Some(i) => table[i].1.clone(),
        None => text::owned(key),
    }
}

/// A template with each `{name}` placeholder replaced by its value, in the order the
/// arguments are given.
pub open spec fn filled(template: Seq<char>, args: Seq<(Seq<char>, Seq<char>)>) -> Seq<char>
    decreases args.len(),
{
    if args.len() == 0 {
        template
    } else {
        let (name, value) = args.last();
        text::replace_all(filled(template, args.drop_last()), "{"@ + name + "}"@, value)
    }
}

/// The views of a list of argument pairs.
pub open spec fn args_view(a: Seq<(&str, &str)>) -> Seq<(Seq<char>, Seq<char>)> {
    a.map_values(|p: (&str, &str)| (p.0@, p.1@))
}

/// A translated string with `{name}` placeholders filled in by name, so a translator
/// may reorder them.
pub fn tf(table: &Vec<(String, String)>, key: &str, args: &[(&str, &str)]) -> (r: String)
    ensures
        r@ == filled(lookup(table_view(table@), key@), args_view(args@)),
{
    let template = t(table, key);
    let mut out = text::chars_of(template.as_str());
    let ghost av = args_view(args@);
    let mut i: usize = 0;
    while i < args.len()
        invariant
            i <= args.len(),
            av == args_view(args@),
            out@ == filled(template@, av.take(i as int)),
        decreases args.len() - i,
    {
        assert(av.take(i + 1).drop_last() == av.take(i as int));
        assert(av.take(i + 1).last() == (args@[i as int].0@, args@[i as int].1@));
        let (name, value) = args[i];
        let mut pat: Vec<char> = Vec::new();
        text::push_str(&mut pat, "{");
        text::push_str(&mut pat, name);
        text::push_str(&mut pat, "}");
        proof {
            reveal_strlit("{");
        }
        let v = text::chars_of(value);
        out = text::replace_chars(&out, &pat, &v);
        i = i + 1;
    }
    assert(av.take(i as int) == av);
    text::string_of(&out)
}

/// The index of the catalogue whose code is `code`.
pub open spec fn meta_index(metas: Seq<Meta>, code: Seq<char>, i: int) -> Option<int>
    decreases metas.len() - i,
{
    if i < 0 || i >= metas.len() {
        None
    } else if metas[i].code@ == code {
        Some(i)
    } else {
        meta_index(metas, code, i + 1)
    }
}

/// Which catalogue a language code resolves to, by index among `metas`, or `None`
/// when there is no catalogue for it.
pub fn language(metas: &Vec<Meta>, code: &str) -> (r: Option<usize>)
    ensures
        match r {
            Some(i) => meta_index(metas@, code@, 0) == Some(i as int),
            None => meta_index(metas@, code@, 0) is None,
        },
{
    let mut i: usize = 0;
    while i < metas.len()
        invariant
            i <= metas.len(),
            meta_index(metas@, code@, 0) == meta_index(metas@, code@, i as int),
        decreases metas.len() - i,
    {
        let c = text::chars_of(metas[i].code.as_str());
        if text::chars_eq_str(&c, code) {
            return Some(i);
        }
        i = i + 1;
    }
    None
}

/// Every language as `(code, native name)`, in catalogue order, for a picker: the
/// native name is the one the person the translation is for can read.
pub fn choices(metas: &Vec<Meta>) -> (r: Vec<(String, String)>)
    ensures
        table_view(r@) == metas@.map_values(|m: Meta| (m.code@, m.native_name@)),
{
    let mut out: Vec<(String, String)> = Vec::new();
    let mut i: usize = 0;
    while i < metas.len()
        invariant
            i <= metas.len(),
            table_view(out@) == metas@.take(i as int).map_values(|m: Meta| (m.code@, m.native_name@)),
        decreases metas.len() - i,
    {
        let ghost before = table_view(out@);
        out.push((text::owned(metas[i].code.as_str()), text::owned(metas[i].native_name.as_str())));
        assert(table_view(out@) =~= before.push((metas@[i as int].code@, metas@[i as int].native_name@)));
        assert(metas@.take(i + 1).map_values(|m: Meta| (m.code@, m.native_name@)) =~= metas@.take(
            i as int,
        ).map_values(|m: Meta| (m.code@, m.native_name@)).push((metas@[i as int].code@, metas@[i as int].native_name@)));
        i = i + 1;
    }
    assert(metas@.take(i as int) == metas@);
    out
}

/// Every language as `code native-name`, separated by ` · `.
pub open spec fn choices_line(metas: Seq<Meta>) -> Seq<char>
    decreases metas.len(),
{
    if metas.len() == 0 {
        seq![]
    } else if metas.len() == 1 {
        metas[0].code@ + " "@ + metas[0].native_name@
    } else {
        choices_line(metas.drop_last()) + " · "@ + metas.last().code@ + " "@
            + metas.last().native_name@
    }
}

/// `en English · hi हिन्दी · …`, for the error an unknown code earns.
pub fn catalogue_line(metas: &Vec<Meta>) -> (r: String)
    ensures
        r@ == choices_line(metas@),
{
    let mut out: Vec<char> = Vec::new();
    let mut i: usize = 0;
    while i < metas.len()
        invariant
            i <= metas.len(),
            out@ == choices_line(metas@.take(i as int)),
        decreases metas.len() - i,
    {
        assert(metas@.take(i + 1).drop_last() == metas@.take(i as int));
        if i > 0 {
            text::push_str(&mut out, " · ");
        }
        text::push_str(&mut out, metas[i].code.as_str());
        text::push_str(&mut out, " ");
        text::push_str(&mut out, metas[i].native_name.as_str());
        proof {
            if i == 0 {
                assert(out@ =~= choices_line(metas@.take(1)));
            }
        }
        i = i + 1;
    }
    assert(metas@.take(i as int) == metas@);
    text::string_of(&out)
}

/// The language a process uses: the environment override when it names something,
/// else the configured one, else English; and English for a code with no catalogue.
pub open spec fn chosen_language(env: Option<Seq<char>>, configured: Option<Seq<char>>, metas: Seq<Meta>) -> Seq<char> {
    let from_env = match env {
        Some(v) => if text::trim(v).len() > 0 {
            Some(text::trim(v))
        } else {
            None
        },
        None => None,
    };
    let requested = match from_env {
        Some(v) => v,
        None => match configured {
            Some(c) => c,
            None => DEFAULT_LANGUAGE@,
        },
    };
    if meta_index(metas, requested, 0) is Some {
        requested
    } else {
        DEFAULT_LANGUAGE@
    }
}

/// A code some catalogue carries is found.
proof fn lemma_meta_index_finds(metas: Seq<Meta>, code: Seq<char>, i: int, k: int)
    requires
        0 <= i <= k < metas.len(),
        metas[k].code@ == code,
    ensures
        meta_index(metas, code, i) is Some,
        meta_index(metas, code, i) matches Some(j) ==> metas[j].code@ == code,
    decreases k - i,
{
    if metas[i].code@ != code {
        lemma_meta_index_finds(metas, code, i + 1, k);
    }
}

/// The language chosen: the environment override, trimmed, when it is not blank and a
/// catalogue carries it; else, with no usable override, the configured code when a
/// catalogue carries it; English otherwise. An override that is set but names no
/// catalogue falls to English, not to the setting.
pub proof fn law_the_setting_decides_when_the_environment_is_silent(
    env: Option<Seq<char>>,
    configured: Option<Seq<char>>,
    metas: Seq<Meta>,
)
    ensures
        (env is None || text::trim(env->0).len() == 0) && configured is Some && (exists|k: int|
            0 <= k < metas.len() && #[trigger] metas[k].code@ == configured->0) ==> chosen_language(
            env,
            configured,
            metas,
        ) == configured->0,
        env is Some && text::trim(env->0).len() > 0 && (exists|k: int|
            0 <= k < metas.len() && #[trigger] metas[k].code@ == text::trim(env->0)) ==> chosen_language(
            env,
            configured,
            metas,
        ) == text::trim(env->0),
        (env is None || text::trim(env->0).len() == 0) && configured is None ==> chosen_language(
            env,
            configured,
            metas,
        ) == DEFAULT_LANGUAGE@,
        chosen_language(env, configured, metas) == DEFAULT_LANGUAGE@ || exists|k: int|
            0 <= k < metas.len() && #[trigger] metas[k].code@ == chosen_language(env, configured, metas),
{
    let from_env = env is Some && text::trim(env->0).len() > 0;
    let requested = if from_env {
        text::trim(env->0)
    } else {
        match configured {
            Some(c) => c,
            None => DEFAULT_LANGUAGE@,
        }
    };
    if exists|k: int| 0 <= k < metas.len() && #[trigger] metas[k].code@ == requested {
        let k = choose|k: int| 0 <= k < metas.len() && #[trigger] metas[k].code@ == requested;
        lemma_meta_index_finds(metas, requested, 0, k);
    }
    if meta_index(metas, requested, 0) is Some {
        lemma_meta_index_in(metas, requested, 0);
    }
}

/// What the search finds carries the code.
proof fn lemma_meta_index_in(metas: Seq<Meta>, code: Seq<char>, i: int)
    requires
        meta_index(metas, code, i) is Some,
    ensures
        0 <= meta_index(metas, code, i)->0 < metas.len(),
        metas[meta_index(metas, code, i)->0].code@ == code,
    decreases metas.len() - i,
{
    if i >= 0 && i < metas.len() && metas[i].code@ != code {
        lemma_meta_index_in(metas, code, i + 1);
    }
}

/// Choose the language for this process from the environment override's value and the
/// `language` setting. An unknown code is English rather than an error: refusing to
/// start over a typo in a cosmetic setting would be worse than the typo.
pub fn resolve_language(env: Option<&str>, configured: Option<&str>, metas: &Vec<Meta>) -> (r: String)
    ensures
        r@ == chosen_language(
            match env {
                Some(v) => Some(v@),
                None => None,
            },
            match configured {
                Some(c) => Some(c@),
                None => None,
            },
            metas@,
        ),
{
    let mut requested: Option<String> = None;
    match env {
        Some(v) => {
            let vv = text::chars_of(v);
            let t = text::trim_chars(&vv);
            if t.len() > 0 {
                requested = Some(text::string_of(&t));
            }
        },
        None => {},
    }
    let req = match requested {
        Some(r) => r,
        None => match configured {
            Some(c) => text::owned(c),
            None => text::owned(DEFAULT_LANGUAGE),
        },
    };
    if language(metas, req.as_str()).is_some() {
        req
    } else {
        text::owned(DEFAULT_LANGUAGE)
    }
}

} // verus!
