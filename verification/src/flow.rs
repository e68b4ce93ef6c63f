//! The order of one adapter's part of a prune pass, as a state machine: every directory
//! it offers is checked for a refusal before anything else happens; a dry run then
//! reports what it would reclaim and stops; otherwise the lockfile is enforced once,
//! and only when it holds is anything deleted, each surviving directory once.
//!
//! The caller performs each action (inspecting a directory, running the package
//! manager, deleting, reporting through the functions of [`crate::pass`]) and hands the
//! answer back as the next event.
use vstd::prelude::*;

verus! {

/// Where one adapter's pass stands.
#[derive(Clone, Copy, PartialEq, Eq, Debug)]
pub enum PassPhase {
    /// Checking the offered directory at this index for a refusal.
    Checking(usize),
    /// Every offered directory is checked; the lockfile is being enforced.
    Enforcing,
    /// The lockfile holds; deleting the surviving directory at this position.
    Deleting(usize),
    /// Nothing more to do.
    Finished,
}

/// One adapter's pass: whether it is a dry run, how many directories it offers, where
/// it stands, the indices of the offered directories no refusal stopped (in order),
/// whether every refusal has been checked, and whether the lockfile held.
pub struct PassState {
    dry_run: bool,
    offered: usize,
    phase: PassPhase,
    deletable: Vec<usize>,
    passed_refusals: bool,
    enforced_ok: bool,
}

/// The abstract value of a [`PassState`].
pub struct PassStateView {
    pub dry_run: bool,
    pub offered: usize,
    pub phase: PassPhase,
    pub deletable: Seq<usize>,
    pub passed_refusals: bool,
    pub enforced_ok: bool,
}

impl View for PassState {
    type V = PassStateView;

    closed spec fn view(&self) -> PassStateView {
        PassStateView {
            dry_run: self.dry_run,
            offered: self.offered,
            phase: self.phase,
            deletable: self.deletable@,
            passed_refusals: self.passed_refusals,
            enforced_ok: self.enforced_ok,
        }
    }
}

/// What the caller reports back.
#[derive(Clone, Copy, PartialEq, Eq, Debug)]
pub enum PassEvent {
    /// Ask for the next action.
    Proceed,
    /// The directory asked about was checked: whether a refusal stopped it.
    Checked { refused: bool },
    /// The lockfile was enforced: whether it held.
    Enforced { ok: bool },
    /// The directory asked about was deleted, or the attempt reported.
    Deleted,
}

impl View for PassEvent {
    type V = PassEvent;

    open spec fn view(&self) -> PassEvent {
        *self
    }
}

/// What the caller is to do next.
pub enum PassAction {
    /// Check the offered directory at this index for a refusal (symlink, mount point,
    /// nested repository), report the refusal if there is one, and answer `Checked`.
    Check(usize),
    /// Enforce the lockfile and answer `Enforced`.
    Enforce,
    /// Delete the offered directory at this index, report the outcome, and answer
    /// `Deleted`.
    Delete(usize),
    /// Report these offered directories as a dry run would; nothing is touched.
    ReportDryRun(Vec<usize>),
    /// Report these offered directories as not deleted because the lockfile failed.
    ReportLockfileFailure(Vec<usize>),
    /// The answer is recorded; ask for the next action.
    Continue,
    /// The adapter's part of the pass is over.
    Done,
}

/// The abstract value of a [`PassAction`].
pub enum ActionView {
    Check(usize),
    Enforce,
    Delete(usize),
    ReportDryRun(Seq<usize>),
    ReportLockfileFailure(Seq<usize>),
    Continue,
    Done,
}

impl View for PassAction {
    type V = ActionView;

    open spec fn view(&self) -> ActionView {
        match self {
            PassAction::Check(i) => ActionView::Check(*i),
            PassAction::Enforce => ActionView::Enforce,
            PassAction::Delete(i) => ActionView::Delete(*i),
            PassAction::ReportDryRun(v) => ActionView::ReportDryRun(v@),
            PassAction::ReportLockfileFailure(v) => ActionView::ReportLockfileFailure(v@),
            PassAction::Continue => ActionView::Continue,
            PassAction::Done => ActionView::Done,
        }
    }
}

/// The states a pass can reach: the surviving indices are offered ones, each once and
/// in order; while checking, only directories already checked have survived; the
/// lockfile is enforced only after every refusal, never in a dry run, and only when
/// something survived; deleting happens only once it held.
pub open spec fn pass_wf(s: PassStateView) -> bool {
    &&& forall|j: int| 0 <= j < s.deletable.len() ==> #[trigger] s.deletable[j] < s.offered
    &&& forall|j: int, l: int| 0 <= j < l < s.deletable.len() ==> s.deletable[j] < s.deletable[l]
    &&& match s.phase {
        PassPhase::Checking(i) => {
            &&& i <= s.offered
            &&& !s.passed_refusals
            &&& !s.enforced_ok
            &&& forall|j: int| 0 <= j < s.deletable.len() ==> #[trigger] s.deletable[j] < i
        },
        PassPhase::Enforcing => {
            &&& s.passed_refusals
            &&& !s.enforced_ok
            &&& !s.dry_run
            &&& s.deletable.len() > 0
        },
        PassPhase::Deleting(k) => {
            &&& s.passed_refusals
            &&& s.enforced_ok
            &&& !s.dry_run
            &&& k <= s.deletable.len()
        },
        PassPhase::Finished => true,
    }
}

/// The pass before anything is checked.
pub open spec fn pass_begin(dry_run: bool, offered: usize) -> PassStateView {
    PassStateView {
        dry_run,
        offered,
        phase: PassPhase::Checking(0),
        deletable: seq![],
        passed_refusals: false,
        enforced_ok: false,
    }
}

/// The next action once every offered directory is checked: nothing when none
/// survived; the dry-run report in a dry run; otherwise lockfile enforcement.
pub open spec fn after_checks(s: PassStateView) -> (PassStateView, ActionView) {
    if s.deletable.len() == 0 {
        (PassStateView { phase: PassPhase::Finished, passed_refusals: true, ..s }, ActionView::Done)
    } else if s.dry_run {
        (
            PassStateView { phase: PassPhase::Finished, passed_refusals: true, ..s },
            ActionView::ReportDryRun(s.deletable),
        )
    } else {
        (PassStateView { phase: PassPhase::Enforcing, passed_refusals: true, ..s }, ActionView::Enforce)
    }
}

/// How a pass moves on from an event. `Proceed` asks for the pending action; every
/// other event records an answer, and an answer that was not asked for changes nothing.
pub open spec fn pass_next(s: PassStateView, e: PassEvent) -> (PassStateView, ActionView) {
    match e {
        PassEvent::Proceed => match s.phase {
            PassPhase::Checking(i) => if i < s.offered {
                (s, ActionView::Check(i))
            } else {
                after_checks(s)
            },
            PassPhase::Enforcing => (s, ActionView::Enforce),
            PassPhase::Deleting(k) => if k < s.deletable.len() {
                (s, ActionView::Delete(s.deletable[k as int]))
            } else {
                (PassStateView { phase: PassPhase::Finished, ..s }, ActionView::Done)
            },
            PassPhase::Finished => (s, ActionView::Done),
        },
        PassEvent::Checked { refused } => match s.phase {
            PassPhase::Checking(i) => if i < s.offered {
                (
                    PassStateView {
                        phase: PassPhase::Checking((i + 1) as usize),
                        deletable: if refused {
                            s.deletable
                        } else {
                            s.deletable.push(i)
                        },
                        ..s
                    },
                    ActionView::Continue,
                )
            } else {
                (s, ActionView::Continue)
            },
            _ => (s, ActionView::Continue),
        },
        PassEvent::Enforced { ok } => match s.phase {
            PassPhase::Enforcing => if ok {
                (
                    PassStateView { phase: PassPhase::Deleting(0), enforced_ok: true, ..s },
                    ActionView::Continue,
                )
            } else {
                (
                    PassStateView { phase: PassPhase::Finished, ..s },
                    ActionView::ReportLockfileFailure(s.deletable),
                )
            },
            _ => (s, ActionView::Continue),
        },
        PassEvent::Deleted => match s.phase {
            PassPhase::Deleting(k) => if k < s.deletable.len() {
                (PassStateView { phase: PassPhase::Deleting((k + 1) as usize), ..s }, ActionView::Continue)
            } else {
                (s, ActionView::Continue)
            },
            _ => (s, ActionView::Continue),
        },
    }
}

fn copy_indices(v: &Vec<usize>) -> (r: Vec<usize>)
    ensures
        r@ == v@,
{
    let mut r: Vec<usize> = Vec::new();
    let mut i: usize = 0;
    while i < v.len()
        invariant
            i <= v.len(),
            r@ == v@.take(i as int),
        decreases v.len() - i,
    {
        r.push(v[i]);
        i = i + 1;
        assert(r@ =~= v@.take(i as int));
    }
    assert(v@.take(i as int) =~= v@);
    r
}

impl PassState {
    /// An adapter's pass over `offered` directories, before any is checked.
    pub fn new(dry_run: bool, offered: usize) -> (s: Self)
        ensures
            s@ == pass_begin(dry_run, offered),
            pass_wf(s@),
    {
        let s = PassState {
            dry_run,
            offered,
            phase: PassPhase::Checking(0),
            deletable: Vec::new(),
            passed_refusals: false,
            enforced_ok: false,
        };
        assert(s@.deletable =~= Seq::<usize>::empty());
        s
    }

    /// Where the pass stands.
    pub fn phase(&self) -> (p: PassPhase)
        ensures
            p == self@.phase,
    {
        self.phase
    }

    fn with(&self, phase: PassPhase, deletable: Vec<usize>, passed_refusals: bool, enforced_ok: bool) -> (r: Self)
        ensures
            r@ == (PassStateView {
                phase,
                deletable: deletable@,
                passed_refusals,
                enforced_ok,
                ..self@
            }),
    {
        PassState { dry_run: self.dry_run, offered: self.offered, phase, deletable, passed_refusals, enforced_ok }
    }
}

/// The next state and action of an adapter's pass. A directory is deleted only outside
/// a dry run, after every refusal was checked and the lockfile held, and only if no
/// refusal stopped it; the lockfile is enforced only outside a dry run and after every
/// refusal.
pub fn pass_step(state: &PassState, event: PassEvent) -> (r: (PassState, PassAction))
    requires
        pass_wf(state@),
    ensures
        (r.0@, r.1@) == pass_next(state@, event@),
        pass_wf(r.0@),
        r.0@.dry_run == state@.dry_run,
        r.0@.offered == state@.offered,
        r.1 is Delete ==> !state@.dry_run && state@.enforced_ok && state@.passed_refusals,
        r.1 is Enforce ==> !state@.dry_run && r.0@.passed_refusals,
        r.1 matches PassAction::Delete(i) ==> state@.deletable.contains(i) && i < state@.offered,
        r.1 matches PassAction::Check(i) ==> i < state@.offered,
{
    let s = state;
    match event {
        PassEvent::Proceed => match s.phase {
            PassPhase::Checking(i) => {
                if i < s.offered {
                    (s.with(s.phase, copy_indices(&s.deletable), s.passed_refusals, s.enforced_ok), PassAction::Check(i))
                } else if s.deletable.len() == 0 {
                    (s.with(PassPhase::Finished, copy_indices(&s.deletable), true, s.enforced_ok), PassAction::Done)
                } else if s.dry_run {
                    (
                        s.with(PassPhase::Finished, copy_indices(&s.deletable), true, s.enforced_ok),
                        PassAction::ReportDryRun(copy_indices(&s.deletable)),
                    )
                } else {
                    (s.with(PassPhase::Enforcing, copy_indices(&s.deletable), true, s.enforced_ok), PassAction::Enforce)
                }
            },
            PassPhase::Enforcing => {
                (s.with(s.phase, copy_indices(&s.deletable), s.passed_refusals, s.enforced_ok), PassAction::Enforce)
            },
            PassPhase::Deleting(k) => {
                if k < s.deletable.len() {
                    let i = s.deletable[k];
                    assert(s@.deletable.contains(i)) by {
                        assert(s@.deletable[k as int] == i);
                    }
                    (s.with(s.phase, copy_indices(&s.deletable), s.passed_refusals, s.enforced_ok), PassAction::Delete(i))
                } else {
                    (s.with(PassPhase::Finished, copy_indices(&s.deletable), s.passed_refusals, s.enforced_ok), PassAction::Done)
                }
            },
            PassPhase::Finished => {
                (s.with(s.phase, copy_indices(&s.deletable), s.passed_refusals, s.enforced_ok), PassAction::Done)
            },
        },
        PassEvent::Checked { refused } => match s.phase {
            PassPhase::Checking(i) => {
                if i < s.offered {
                    let mut d = copy_indices(&s.deletable);
                    if !refused {
                        d.push(i);
                    }
                    (s.with(PassPhase::Checking(i + 1), d, s.passed_refusals, s.enforced_ok), PassAction::Continue)
                } else {
                    (s.with(s.phase, copy_indices(&s.deletable), s.passed_refusals, s.enforced_ok), PassAction::Continue)
                }
            },
            _ => (s.with(s.phase, copy_indices(&s.deletable), s.passed_refusals, s.enforced_ok), PassAction::Continue),
        },
        PassEvent::Enforced { ok } => match s.phase {
            PassPhase::Enforcing => {
                if ok {
                    (s.with(PassPhase::Deleting(0), copy_indices(&s.deletable), s.passed_refusals, true), PassAction::Continue)
                } else {
                    (
                        s.with(PassPhase::Finished, copy_indices(&s.deletable), s.passed_refusals, s.enforced_ok),
                        PassAction::ReportLockfileFailure(copy_indices(&s.deletable)),
                    )
                }
            },
            _ => (s.with(s.phase, copy_indices(&s.deletable), s.passed_refusals, s.enforced_ok), PassAction::Continue),
        },
        PassEvent::Deleted => match s.phase {
            PassPhase::Deleting(k) => {
                if k < s.deletable.len() {
                    (s.with(PassPhase::Deleting(k + 1), copy_indices(&s.deletable), s.passed_refusals, s.enforced_ok), PassAction::Continue)
                } else {
                    (s.with(s.phase, copy_indices(&s.deletable), s.passed_refusals, s.enforced_ok), PassAction::Continue)
                }
            },
            _ => (s.with(s.phase, copy_indices(&s.deletable), s.passed_refusals, s.enforced_ok), PassAction::Continue),
        },
    }
}

} // verus!
