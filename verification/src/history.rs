//! The prune log: one record per pass, what started it, and how the log is kept.
use vstd::prelude::*;

use crate::config::{self, PrunedDir};
use crate::order;
use crate::text;

verus! {

broadcast use vstd::seq_lib::group_seq_properties;

/// What started a prune pass.
#[derive(Clone, Copy, PartialEq, Eq, Structural, Debug)]
pub enum Trigger {
    /// Someone typed the command.
    Manual,
    /// The scheduler ran `run --daemon`.
    Scheduled,
    /// Selected from the status dashboard.
    Dashboard,
}

/// The word the report prints for a trigger.
pub open spec fn trigger_label(t: Trigger) -> Seq<char> {
    match t {
        Trigger::Manual => "manual"@,
        Trigger::Scheduled => "scheduled"@,
        Trigger::Dashboard => "dashboard"@,
    }
}

impl Trigger {
    /// Every trigger, in the order the report lists them.
    pub fn all() -> (r: [Trigger; 3])
        ensures
            r@ == seq![Trigger::Manual, Trigger::Scheduled, Trigger::Dashboard],
    {
        let r = [Trigger::Manual, Trigger::Scheduled, Trigger::Dashboard];
        assert(r@ =~= seq![Trigger::Manual, Trigger::Scheduled, Trigger::Dashboard]);
        r
    }

    /// The word the report prints.
    pub fn label(self) -> (r: &'static str)
        ensures
            r@ == trigger_label(self),
    {
        match self {
            Trigger::Manual => "manual",
            Trigger::Scheduled => "scheduled",
            Trigger::Dashboard => "dashboard",
        }
    }

    /// The trigger for a `devp run`: only the scheduler records a scheduled pass.
    pub fn for_run(daemon: bool) -> (t: Self)
        ensures
            t == (if daemon {
                Trigger::Scheduled
            } else {
                Trigger::Manual
            }),
    {
        if daemon {
            Trigger::Scheduled
        } else {
            Trigger::Manual
        }
    }
}

/// One prune pass, in full.
pub struct PassRecord {
    /// When the pass started, in seconds since the epoch; it doubles as its identity.
    pub at: i64,
    /// What started it.
    pub trigger: Trigger,
    /// The arguments the pass ran under, unjoined.
    pub argv: Vec<String>,
    /// The version that ran the pass.
    pub version: String,
    /// Every directory it removed.
    pub dirs: Vec<PrunedDir>,
}

/// An argument as a person would type it: quoted when it holds a space.
pub open spec fn typed_arg(a: Seq<char>) -> Seq<char> {
    if a.contains(' ') {
        "\""@ + a + "\""@
    } else {
        a
    }
}

/// The arguments as typed, separated by spaces.
pub open spec fn typed_args(args: Seq<Seq<char>>) -> Seq<char>
    decreases args.len(),
{
    if args.len() == 0 {
        seq![]
    } else if args.len() == 1 {
        typed_arg(args[0])
    } else {
        typed_args(args.drop_last()) + " "@ + typed_arg(args.last())
    }
}

/// The command line a pass ran, as a person would type it.
pub open spec fn command_line_text(argv: Seq<Seq<char>>) -> Seq<char> {
    let args = typed_args(argv);
    if args.len() == 0 {
        "devp"@
    } else {
        "devp "@ + args
    }
}

impl PassRecord {
    /// Bytes this pass reclaimed.
    pub fn bytes_freed(&self) -> (n: u64)
        requires
            config::sum_freed(config::dirs_view(self.dirs@)) <= u64::MAX,
        ensures
            n == config::sum_freed(config::dirs_view(self.dirs@)),
    {
        config::total_size(&self.dirs)
    }

    /// How many distinct repositories it touched.
    pub fn repos_touched(&self) -> (n: usize)
        ensures
            n == config::distinct_repos(config::dirs_view(self.dirs@)),
    {
        config::count_repos(&self.dirs)
    }

    /// The command line as a person would type it, for the report.
    pub fn command_line(&self) -> (r: String)
        ensures
            r@ == command_line_text(text::views(self.argv@)),
    {
        let ghost av = text::views(self.argv@);
        let mut args: Vec<char> = Vec::new();
        let mut i: usize = 0;
        while i < self.argv.len()
            invariant
                i <= self.argv.len(),
                av == text::views(self.argv@),
                args@ == typed_args(av.take(i as int)),
            decreases self.argv.len() - i,
        {
            assert(av.take(i + 1).drop_last() == av.take(i as int));
            assert(av[i as int] == self.argv@[i as int]@);
            if i > 0 {
                args.push(' ');
            }
            let a = text::chars_of(self.argv[i].as_str());
            let spaced = has_char(&a, ' ');
            if spaced {
                text::push_str(&mut args, "\"");
                text::push_all(&mut args, &a);
                text::push_str(&mut args, "\"");
            } else {
                text::push_all(&mut args, &a);
            }
            proof {
                if i == 0 {
                    assert(args@ =~= typed_args(av.take(1)));
                } else {
                    assert(args@ =~= typed_args(av.take(i as int)) + " "@ + typed_arg(av[i as int])) by {
                        reveal_strlit(" ");
                        reveal_strlit("\"");
                    }
                }
            }
            i = i + 1;
        }
        assert(av.take(i as int) == av);
        let mut out: Vec<char> = Vec::new();
        text::push_str(&mut out, "devp");
        if args.len() > 0 {
            out.push(' ');
            text::push_all(&mut out, &args);
        }
        proof {
            reveal_strlit("devp");
            reveal_strlit("devp ");
        }
        assert(out@ =~= command_line_text(av));
        text::string_of(&out)
    }
}

fn has_char(s: &[char], c: char) -> (r: bool)
    ensures
        r == s@.contains(c),
{
    let mut i: usize = 0;
    while i < s.len()
        invariant
            i <= s.len(),
            forall|j: int| 0 <= j < i ==> s@[j] != c,
        decreases s.len() - i,
    {
        if s[i] == c {
            assert(s@[i as int] == c);
            return true;
        }
        i = i + 1;
    }
    false
}

/// The log after recording `at`'s pass: it replaces the entry with the same start
/// time, or joins the end; the oldest entries beyond `limit` are dropped from the front.
pub open spec fn appended_ats(ats: Seq<i64>, at: i64, limit: nat) -> Seq<i64> {
    let grown = match index_of_at(ats, at, 0) {
        Some(_) => ats,
        None => ats.push(at),
    };
    if grown.len() > limit {
        grown.skip(grown.len() - limit)
    } else {
        grown
    }
}

/// The log after recording `record`: it replaces the entry with the same start time in
/// place, or joins the end; the oldest entries beyond `limit` are dropped from the front.
pub open spec fn appended(records: Seq<PassRecord>, record: PassRecord, limit: nat) -> Seq<
    PassRecord,
> {
    let grown = match index_of_at(ats_of(records), record.at, 0) {
        Some(k) => records.update(k, record),
        None => records.push(record),
    };
    if grown.len() > limit {
        grown.skip(grown.len() - limit)
    } else {
        grown
    }
}

/// The first index at or after `i` whose entry started at `at`.
pub open spec fn index_of_at(ats: Seq<i64>, at: i64, i: int) -> Option<int>
    decreases ats.len() - i,
{
    if i < 0 || i >= ats.len() {
        None
    } else if ats[i] == at {
        Some(i)
    } else {
        index_of_at(ats, at, i + 1)
    }
}

/// The start times of a list of records.
pub open spec fn ats_of(records: Seq<PassRecord>) -> Seq<i64> {
    records.map_values(|r: PassRecord| r.at)
}

proof fn lemma_index_of_at(ats: Seq<i64>, at: i64, i: int)
    requires
        0 <= i,
    ensures
        index_of_at(ats, at, i) matches Some(j) ==> i <= j < ats.len() && ats[j] == at,
    decreases ats.len() - i,
{
    if i < ats.len() && ats[i] != at {
        lemma_index_of_at(ats, at, i + 1);
    }
}

fn position_of_at(records: &Vec<PassRecord>, at: i64) -> (r: Option<usize>)
    ensures
        match r {
            Some(k) => index_of_at(ats_of(records@), at, 0) == Some(k as int),
            None => index_of_at(ats_of(records@), at, 0) is None,
        },
{
    let ghost ats = ats_of(records@);
    let mut i: usize = 0;
    while i < records.len()
        invariant
            i <= records.len(),
            ats == ats_of(records@),
            index_of_at(ats, at, 0) == index_of_at(ats, at, i as int),
        decreases records.len() - i,
    {
        if records[i].at == at {
            return Some(i);
        }
        i = i + 1;
    }
    None
}

/// Record a pass in the log held in `records` (oldest first), superseding this same
/// pass's earlier entry: a pass that saves after every repository is one entry, not
/// one per repository. At most `limit` entries are kept, the oldest dropped first.
pub fn append_record(records: &mut Vec<PassRecord>, record: PassRecord, limit: usize)
    ensures
        final(records)@ == appended(old(records)@, record, limit as nat),
        ats_of(final(records)@) == appended_ats(ats_of(old(records)@), record.at, limit as nat),
{
    let ghost before = ats_of(records@);
    let ghost old_records = records@;
    let ghost rec = record;
    let at = record.at;
    let found = position_of_at(records, at);
    proof {
        lemma_index_of_at(before, at, 0);
    }
    match found {
        Some(k) => {
            records.remove(k);
            records.insert(k, record);
            assert(records@ =~= old_records.update(k as int, rec));
            assert(ats_of(records@) =~= before);
        },
        None => {
            records.push(record);
            assert(ats_of(records@) =~= before.push(at));
        },
    }
    let ghost grown = ats_of(records@);
    let ghost grown_records = records@;
    if records.len() > limit {
        let excess = records.len() - limit;
        let kept = records.split_off(excess);
        *records = kept;
        assert(records@ =~= grown_records.skip(excess as int));
        assert(ats_of(records@) =~= grown.skip(excess as int));
    }
}

// ---------------------------------------------------------------------------------
// Every pass the machine can account for
// ---------------------------------------------------------------------------------

/// One pass as the history sees it: recorded in full by the log, or known only from the
/// registry's summary (every pass a machine ran before the log existed).
pub enum Pass {
    /// A pass the log recorded in full.
    Detailed(PassRecord),
    /// A pass known only from the registry's summary, with its directories when it is
    /// the pass `last_prune` describes.
    Summary { at: i64, bytes_freed: u64, dirs_removed: usize, repos_touched: usize, dirs: Option<Vec<PrunedDir>> },
}

/// The abstract value of a [`Pass`].
pub enum PassView {
    Detailed(i64, Trigger, Seq<Seq<char>>, Seq<char>, Seq<config::PrunedDirView>),
    Summary(i64, u64, usize, usize, Option<Seq<config::PrunedDirView>>),
}

/// The abstract value of a recorded pass.
pub open spec fn record_view(r: PassRecord) -> PassView {
    PassView::Detailed(r.at, r.trigger, text::views(r.argv@), r.version@, config::dirs_view(r.dirs@))
}

/// The abstract value of a [`Pass`].
pub open spec fn pass_view(p: Pass) -> PassView {
    match p {
        Pass::Detailed(r) => record_view(r),
        Pass::Summary { at, bytes_freed, dirs_removed, repos_touched, dirs } => PassView::Summary(
            at,
            bytes_freed,
            dirs_removed,
            repos_touched,
            match dirs {
                Some(d) => Some(config::dirs_view(d@)),
                None => None,
            },
        ),
    }
}

/// The abstract values of a list of passes.
pub open spec fn passes_view(s: Seq<Pass>) -> Seq<PassView> {
    s.map_values(|p: Pass| pass_view(p))
}

/// When a pass started.
pub open spec fn view_at(p: PassView) -> i64 {
    match p {
        PassView::Detailed(at, _, _, _, _) => at,
        PassView::Summary(at, _, _, _, _) => at,
    }
}

impl Pass {
    /// When the pass started; it doubles as its identity.
    pub fn at(&self) -> (r: i64)
        ensures
            r == view_at(pass_view(*self)),
    {
        match self {
            Pass::Detailed(r) => r.at,
            Pass::Summary { at, .. } => *at,
        }
    }

    /// How many directories it removed.
    pub fn dirs_removed(&self) -> (r: usize)
        ensures
            r == match pass_view(*self) {
                PassView::Detailed(_, _, _, _, d) => d.len() as usize,
                PassView::Summary(_, _, n, _, _) => n,
            },
    {
        match self {
            Pass::Detailed(r) => r.dirs.len(),
            Pass::Summary { dirs_removed, .. } => *dirs_removed,
        }
    }

    /// Bytes it reclaimed.
    pub fn bytes_freed(&self) -> (r: u64)
        requires
            pass_view(*self) matches PassView::Detailed(_, _, _, _, d) ==> config::sum_freed(d) <= u64::MAX,
        ensures
            r == match pass_view(*self) {
                PassView::Detailed(_, _, _, _, d) => config::sum_freed(d),
                PassView::Summary(_, b, _, _, _) => b as nat,
            },
    {
        match self {
            Pass::Detailed(r) => r.bytes_freed(),
            Pass::Summary { bytes_freed, .. } => *bytes_freed,
        }
    }

    /// How many distinct repositories it touched.
    pub fn repos_touched(&self) -> (r: usize)
        ensures
            r == match pass_view(*self) {
                PassView::Detailed(_, _, _, _, d) => config::distinct_repos(d) as usize,
                PassView::Summary(_, _, _, n, _) => n,
            },
    {
        match self {
            Pass::Detailed(r) => r.repos_touched(),
            Pass::Summary { repos_touched, .. } => *repos_touched,
        }
    }

    /// What started the pass, where that is known: a summary never carried it.
    pub fn trigger(&self) -> (r: Option<Trigger>)
        ensures
            r == match pass_view(*self) {
                PassView::Detailed(_, t, _, _, _) => Some(t),
                PassView::Summary(..) => None::<Trigger>,
            },
    {
        match self {
            Pass::Detailed(r) => Some(r.trigger),
            Pass::Summary { .. } => None,
        }
    }

    /// The directory list, where one is known.
    pub fn dirs(&self) -> (r: Option<&Vec<PrunedDir>>)
        ensures
            match r {
                Some(d) => match pass_view(*self) {
                    PassView::Detailed(_, _, _, _, dv) => config::dirs_view(d@) == dv,
                    PassView::Summary(_, _, _, _, dv) => dv == Some(config::dirs_view(d@)),
                },
                None => pass_view(*self) matches PassView::Summary(_, _, _, _, None),
            },
    {
        match self {
            Pass::Detailed(r) => Some(&r.dirs),
            Pass::Summary { dirs, .. } => match dirs {
                Some(d) => Some(d),
                None => None,
            },
        }
    }
}

/// The registry's summaries the log does not know, as passes, in the registry's order:
/// the newest one keeps its directories when `last_prune` describes the same pass.
pub open spec fn summaries_kept(
    known: Seq<i64>,
    history: Seq<config::PruneRunSummary>,
    last: Option<(i64, Seq<config::PrunedDirView>)>,
) -> Seq<PassView>
    decreases history.len(),
{
    if history.len() == 0 {
        seq![]
    } else {
        let rest = summaries_kept(known, history.drop_last(), last);
        let s = history.last();
        if known.contains(s.at) {
            rest
        } else {
            rest.push(PassView::Summary(s.at, s.bytes_freed, s.dirs_removed, s.repos_touched, match last {
                Some((a, d)) => if a == s.at {
                    Some(d)
                } else {
                    None
                },
                None => None,
            }))
        }
    }
}

/// Every pass before ordering: the log's records, then the summaries only the registry
/// has. The log wins wherever both know a pass, since it carries the directories and
/// the trigger.
pub open spec fn all_passes(records: Seq<PassRecord>, r: config::RegistryView) -> Seq<PassView> {
    records.map_values(|x: PassRecord| record_view(x)) + summaries_kept(ats_of(records), r.prune_history, r.last_prune)
}

fn copy_dirs(d: &Vec<PrunedDir>) -> (r: Vec<PrunedDir>)
    ensures
        config::dirs_view(r@) == config::dirs_view(d@),
{
    let mut out: Vec<PrunedDir> = Vec::new();
    let mut i: usize = 0;
    while i < d.len()
        invariant
            i <= d@.len(),
            config::dirs_view(out@) == config::dirs_view(d@).take(i as int),
        decreases d@.len() - i,
    {
        let x = &d[i];
        let c = PrunedDir {
            repo_path: x.repo_path.clone(),
            bloat_dir: x.bloat_dir.clone(),
            adapter: x.adapter.clone(),
            size_freed: x.size_freed,
            runtime: match &x.runtime {
                Some(r) => Some(r.clone()),
                None => None,
            },
        };
        let ghost before = config::dirs_view(out@);
        out.push(c);
        assert(config::dirs_view(out@) =~= before.push(d@[i as int]@));
        assert(config::dirs_view(out@) =~= config::dirs_view(d@).take(i + 1));
        i = i + 1;
    }
    assert(config::dirs_view(d@).take(i as int) == config::dirs_view(d@));
    out
}

fn copy_strings(v: &Vec<String>) -> (r: Vec<String>)
    ensures
        text::views(r@) == text::views(v@),
{
    let mut out: Vec<String> = Vec::new();
    let mut i: usize = 0;
    while i < v.len()
        invariant
            i <= v@.len(),
            text::views(out@) == text::views(v@).take(i as int),
        decreases v@.len() - i,
    {
        let ghost before = text::views(out@);
        out.push(v[i].clone());
        assert(text::views(out@) =~= before.push(v@[i as int]@));
        assert(text::views(out@) =~= text::views(v@).take(i + 1));
        i = i + 1;
    }
    assert(text::views(v@).take(i as int) == text::views(v@));
    out
}

fn copy_record(r: &PassRecord) -> (c: PassRecord)
    ensures
        record_view(c) == record_view(*r),
{
    PassRecord {
        at: r.at,
        trigger: r.trigger,
        argv: copy_strings(&r.argv),
        version: r.version.clone(),
        dirs: copy_dirs(&r.dirs),
    }
}

fn copy_pass(p: &Pass) -> (c: Pass)
    ensures
        pass_view(c) == pass_view(*p),
{
    match p {
        Pass::Detailed(r) => Pass::Detailed(copy_record(r)),
        Pass::Summary { at, bytes_freed, dirs_removed, repos_touched, dirs } => Pass::Summary {
            at: *at,
            bytes_freed: *bytes_freed,
            dirs_removed: *dirs_removed,
            repos_touched: *repos_touched,
            dirs: match dirs {
                Some(d) => Some(copy_dirs(d)),
                None => None,
            },
        },
    }
}

fn holds_at(ats: &Vec<i64>, at: i64) -> (r: bool)
    ensures
        r == ats@.contains(at),
{
    let mut i: usize = 0;
    while i < ats.len()
        invariant
            i <= ats@.len(),
            forall|k: int| 0 <= k < i ==> ats@[k] != at,
        decreases ats@.len() - i,
    {
        if ats[i] == at {
            assert(ats@[i as int] == at);
            return true;
        }
        i = i + 1;
    }
    false
}

/// Every pass this machine can account for, newest first (passes that started at the
/// same moment keep the order above): the log's records and the registry's summaries
/// of passes before the log, the log winning wherever both know a pass.
pub fn merged(records: Vec<PassRecord>, registry: &config::Registry) -> (r: Vec<Pass>)
    ensures
        exists|idx: Seq<usize>| #[trigger] newest_first_from(
            passes_view(r@),
            all_passes(records@, registry@),
            idx,
        ),
{
    let ghost all = all_passes(records@, registry@);
    let mut passes: Vec<Pass> = Vec::new();
    let mut known: Vec<i64> = Vec::new();
    let mut i: usize = 0;
    while i < records.len()
        invariant
            i <= records@.len(),
            known@ == ats_of(records@).take(i as int),
            passes@.len() == i,
            forall|k: int| 0 <= k < i ==> pass_view(#[trigger] passes@[k]) == record_view(records@[k]),
        decreases records@.len() - i,
    {
        passes.push(Pass::Detailed(copy_record(&records[i])));
        known.push(records[i].at);
        assert(known@ =~= ats_of(records@).take(i + 1));
        i = i + 1;
    }
    assert(known@ =~= ats_of(records@));
    let ghost head = passes_view(passes@);
    assert(head =~= records@.map_values(|x: PassRecord| record_view(x)));
    let ghost hist = registry@.prune_history;
    let ghost last = registry@.last_prune;
    let mut j: usize = 0;
    while j < registry.prune_history.len()
        invariant
            j <= registry.prune_history@.len(),
            hist == registry@.prune_history,
            last == registry@.last_prune,
            known@ == ats_of(records@),
            head == records@.map_values(|x: PassRecord| record_view(x)),
            passes_view(passes@) == head + summaries_kept(known@, hist.take(j as int), last),
        decreases registry.prune_history@.len() - j,
    {
        assert(hist.take(j + 1).drop_last() == hist.take(j as int));
        assert(hist.take(j + 1).last() == hist[j as int]);
        let s = registry.prune_history[j];
        if !holds_at(&known, s.at) {
            let dirs = match &registry.last_prune {
                Some(lp) => if lp.at == s.at {
                    Some(copy_dirs(&lp.dirs))
                } else {
                    None
                },
                None => None,
            };
            let ghost before = passes_view(passes@);
            let p = Pass::Summary {
                at: s.at,
                bytes_freed: s.bytes_freed,
                dirs_removed: s.dirs_removed,
                repos_touched: s.repos_touched,
                dirs,
            };
            passes.push(p);
            assert(passes_view(passes@) =~= before.push(pass_view(p)));
        }
        j = j + 1;
    }
    assert(hist.take(j as int) == hist);
    assert(passes_view(passes@) == all);
    let n = passes.len();
    let mut table: Vec<Vec<i8>> = Vec::new();
    let mut x: usize = 0;
    while x < n
        invariant
            x <= n,
            n == passes@.len(),
            table@.len() == x,
            forall|a: int| 0 <= a < x ==> (#[trigger] table@[a])@.len() == n,
            forall|a: int, b: int| 0 <= a < x && 0 <= b < n ==> #[trigger] table@[a]@[b] as int == later_first(
                view_at(pass_view(passes@[a])),
                view_at(pass_view(passes@[b])),
            ),
        decreases n - x,
    {
        let mut row: Vec<i8> = Vec::new();
        let mut y: usize = 0;
        let ax = passes[x].at();
        while y < n
            invariant
                y <= n,
                x < n,
                n == passes@.len(),
                ax == view_at(pass_view(passes@[x as int])),
                row@.len() == y,
                forall|b: int| 0 <= b < y ==> #[trigger] row@[b] as int == later_first(ax, view_at(pass_view(passes@[b]))),
            decreases n - y,
        {
            let other = passes[y].at();
            let c: i8 = if ax > other {
                -1
            } else if ax == other {
                0
            } else {
                1
            };
            row.push(c);
            y = y + 1;
        }
        table.push(row);
        x = x + 1;
    }
    let ghost tv = order::table_view(table@);
    assert forall|a: int, b: int| 0 <= a < n && 0 <= b < n implies #[trigger] tv[a][b] as int == later_first(
        view_at(pass_view(passes@[a])),
        view_at(pass_view(passes@[b])),
    ) by {
        assert(tv[a] == table@[a]@);
    }
    assert(order::is_preorder_table(tv, n as nat)) by {
        assert forall|a: int| 0 <= a < n implies (#[trigger] tv[a]).len() == n by {
            assert(tv[a] == table@[a]@);
        }
    }
    let idx = order::sort_by_table(&table);
    let mut out: Vec<Pass> = Vec::new();
    let mut k: usize = 0;
    while k < n
        invariant
            k <= n,
            n == passes@.len(),
            order::is_permutation(idx@, n as nat),
            out@.len() == k,
            forall|m: int| 0 <= m < k ==> pass_view(#[trigger] out@[m]) == pass_view(passes@[idx@[m] as int]),
        decreases n - k,
    {
        out.push(copy_pass(&passes[idx[k]]));
        k = k + 1;
    }
    proof {
        assert forall|m: int| 0 <= m < out@.len() implies pass_view(#[trigger] out@[m]) == all[idx@[m] as int] by {
            assert(passes_view(passes@)[idx@[m] as int] == pass_view(passes@[idx@[m] as int]));
        }
        assert forall|a: int, b: int| 0 <= a < b < out@.len() implies view_at(pass_view(out@[a])) >= view_at(pass_view(out@[b])) by {
            assert(tv[idx@[a] as int][idx@[b] as int] <= 0);
        }
        assert forall|a: int, b: int|
            0 <= a < b < out@.len() && view_at(pass_view(out@[a])) == view_at(pass_view(out@[b])) implies idx@[a] < idx@[b] by {
            assert(tv[idx@[a] as int][idx@[b] as int] == 0);
        }
        let ov = passes_view(out@);
        assert(newest_first_from(ov, all, idx@));
    }
    out
}

/// Whether `out` is `all` reordered by `idx` so the newest pass comes first, passes
/// that started at the same moment keeping their order in `all`.
pub open spec fn newest_first_from(out: Seq<PassView>, all: Seq<PassView>, idx: Seq<usize>) -> bool {
    &&& order::is_permutation(idx, all.len())
    &&& out.len() == all.len()
    &&& forall|k: int| 0 <= k < out.len() ==> #[trigger] out[k] == all[idx[k] as int]
    &&& forall|a: int, b: int| 0 <= a < b < out.len() ==> view_at(out[a]) >= view_at(out[b])
    &&& forall|a: int, b: int| 0 <= a < b < out.len() && view_at(out[a]) == view_at(out[b]) ==> idx[a] < idx[b]
}

/// Newest first: `-1` when a pass at `a` lists before one at `b`.
pub open spec fn later_first(a: i64, b: i64) -> int {
    if a > b {
        -1
    } else if a == b {
        0
    } else {
        1
    }
}

/// Where the log and the registry both know a pass, only the log's record appears:
/// no summary kept beside the records started when one of them did, and every
/// summary the log does not know is kept.
pub proof fn law_the_log_supersedes_the_summary_of_the_same_pass(
    known: Seq<i64>,
    history: Seq<config::PruneRunSummary>,
    last: Option<(i64, Seq<config::PrunedDirView>)>,
)
    ensures
        forall|k: int| 0 <= k < summaries_kept(known, history, last).len()
            ==> !known.contains(#[trigger] view_at(summaries_kept(known, history, last)[k])),
        forall|j: int| 0 <= j < history.len() && !known.contains(#[trigger] history[j].at)
            ==> exists|k: int| 0 <= k < summaries_kept(known, history, last).len()
                && view_at(#[trigger] summaries_kept(known, history, last)[k]) == history[j].at,
    decreases history.len(),
{
    if history.len() > 0 {
        let rest = history.drop_last();
        law_the_log_supersedes_the_summary_of_the_same_pass(known, rest, last);
        let kept = summaries_kept(known, history, last);
        let kept0 = summaries_kept(known, rest, last);
        assert forall|k: int| 0 <= k < kept.len() implies !known.contains(#[trigger] view_at(kept[k])) by {
            if k < kept0.len() {
                assert(kept[k] == kept0[k]);
            }
        }
        assert forall|j: int| 0 <= j < history.len() && !known.contains(#[trigger] history[j].at)
            implies exists|k: int| 0 <= k < kept.len() && view_at(#[trigger] kept[k]) == history[j].at by {
            if j < rest.len() {
                assert(rest[j] == history[j]);
                let k = choose|k: int| 0 <= k < kept0.len() && view_at(#[trigger] kept0[k]) == rest[j].at;
                assert(kept[k] == kept0[k]);
            } else {
                assert(view_at(kept[kept.len() - 1]) == history[j].at);
            }
        }
    }
}

} // verus!
