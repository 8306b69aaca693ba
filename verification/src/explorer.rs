//! The interactive drill-down loop, as a state machine: after a report, the
//! operator may pick a reported directory and the whole scan cycle recurses
//! there, or stop.

use vstd::prelude::*;
use crate::report::EntryKind;

verus! {

/// The states of one drill-down cycle.
#[derive(Copy, Clone, Eq, PartialEq, Debug, Structural)]
pub enum ExplorerState {
    Scanning,
    Reporting,
    AwaitingChoice,
    Terminated,
}

/// What happened since the last state was entered.
#[derive(Copy, Clone, Debug)]
pub enum ExplorerEvent {
    /// The scan finished, possibly with per-object failures.
    ScanCompleted,
    /// The report was rendered; this many directory entries were in it.
    ReportRendered { n_dirs: usize },
    /// The prompt returned: the picked item, or `None` when it was cancelled.
    Chose { selection: Option<usize> },
}

/// The transition relation of the drill-down loop. A scan always leads to
/// the report; a report leads to the prompt exactly when a directory was
/// reported; cancelling the prompt or picking its first item (the stop
/// option) ends the loop, any other pick starts the next scan. An event out
/// of turn changes nothing.
pub open spec fn spec_explorer_step(state: ExplorerState, event: ExplorerEvent) -> ExplorerState {
    match (state, event) {
        (ExplorerState::Scanning, ExplorerEvent::ScanCompleted) => ExplorerState::Reporting,
        (ExplorerState::Reporting, ExplorerEvent::ReportRendered { n_dirs }) => if n_dirs == 0 {
            ExplorerState::Terminated
        } else {
            ExplorerState::AwaitingChoice
        },
        (ExplorerState::AwaitingChoice, ExplorerEvent::Chose { selection }) => match selection {
            None => ExplorerState::Terminated,
            Some(i) => if i == 0 {
                ExplorerState::Terminated
            } else {
                ExplorerState::Scanning
            },
        },
        _ => state,
    }
}

/// One step of the drill-down loop.
pub fn explorer_step(state: ExplorerState, event: ExplorerEvent) -> (r: ExplorerState)
    ensures
        r == spec_explorer_step(state, event),
{
    match (state, event) {
        (ExplorerState::Scanning, ExplorerEvent::ScanCompleted) => ExplorerState::Reporting,
        (ExplorerState::Reporting, ExplorerEvent::ReportRendered { n_dirs }) => {
            if n_dirs == 0 {
                ExplorerState::Terminated
            } else {
                ExplorerState::AwaitingChoice
            }
        },
        (ExplorerState::AwaitingChoice, ExplorerEvent::Chose { selection }) => {
            match selection {
                None => ExplorerState::Terminated,
                Some(i) => {
                    if i == 0 {
                        ExplorerState::Terminated
                    } else {
                        ExplorerState::Scanning
                    }
                },
            }
        },
        (s, _) => s,
    }
}

/// Which directory the next scan descends into: the prompt's first item and a
/// cancelled prompt both stop; item `i` past that picks choice `i - 1`.
pub fn chosen_directory(selection: Option<usize>, n_choices: usize) -> (r: Option<usize>)
    requires
        match selection {
            Some(i) => i <= n_choices,
            None => true,
        },
    ensures
        r == (match selection {
            None => None::<usize>,
            Some(i) => if i == 0 {
                None::<usize>
            } else {
                Some((i - 1) as usize)
            },
        }),
        match r {
            Some(d) => n_choices >= 1 && d < n_choices,
            None => true,
        },
{
    match selection {
        None => None,
        Some(i) => {
            if i == 0 {
                None
            } else {
                Some(i - 1)
            }
        },
    }
}

/// The entry indices offered for drill-down, over entries listed in
/// ascending size order with their kinds: the directories alone, from index
/// `t - 1` down — largest first.
pub open spec fn dirs_desc(kinds: Seq<EntryKind>, t: int) -> Seq<int>
    decreases t,
{
    if t <= 0 {
        Seq::empty()
    } else {
        (if kinds[t - 1] == EntryKind::Dir {
            seq![t - 1]
        } else {
            Seq::<int>::empty()
        }) + dirs_desc(kinds, t - 1)
    }
}

proof fn lemma_dirs_desc_snoc(kinds: Seq<EntryKind>, i: int, t: int)
    requires
        0 <= i < t,
    ensures
        dirs_desc_between(kinds, i, t) == dirs_desc_between(kinds, i + 1, t) + (if kinds[i]
            == EntryKind::Dir {
            seq![i]
        } else {
            Seq::<int>::empty()
        }),
    decreases t - i,
{
    if i + 1 == t {
        assert(dirs_desc_between(kinds, i, i) == Seq::<int>::empty());
        assert(dirs_desc_between(kinds, i + 1, t) == Seq::<int>::empty());
        assert(dirs_desc_between(kinds, i, t) =~= dirs_desc_between(kinds, i + 1, t) + (if kinds[i]
            == EntryKind::Dir {
            seq![i]
        } else {
            Seq::<int>::empty()
        }));
    } else {
        lemma_dirs_desc_snoc(kinds, i, t - 1);
        assert(dirs_desc_between(kinds, i, t) =~= dirs_desc_between(kinds, i + 1, t) + (if kinds[i]
            == EntryKind::Dir {
            seq![i]
        } else {
            Seq::<int>::empty()
        }));
    }
}

/// The directory indices in `[i, t)`, largest index first.
pub open spec fn dirs_desc_between(kinds: Seq<EntryKind>, i: int, t: int) -> Seq<int>
    decreases t - i,
{
    if t <= i {
        Seq::empty()
    } else {
        (if kinds[t - 1] == EntryKind::Dir {
            seq![t - 1]
        } else {
            Seq::<int>::empty()
        }) + dirs_desc_between(kinds, i, t - 1)
    }
}

/// The indices of the directory entries, largest (last in ascending order)
/// first: the choice list shown at the prompt, after its stop option.
pub fn directory_choices(kinds: &Vec<EntryKind>) -> (r: Vec<usize>)
    ensures
        r@.map_values(|u: usize| u as int) == dirs_desc(kinds@, kinds@.len() as int),
        forall|k: int| 0 <= k < r@.len() ==> (#[trigger] r@[k]) < kinds@.len(),
{
    let n = kinds.len();
    let mut r: Vec<usize> = Vec::new();
    let mut i: usize = n;
    proof {
        assert(r@.map_values(|u: usize| u as int) =~= dirs_desc_between(
            kinds@,
            n as int,
            n as int,
        ));
    }
    while i > 0
        invariant
            0 <= i <= n,
            n == kinds@.len(),
            r@.map_values(|u: usize| u as int) == dirs_desc_between(kinds@, i as int, n as int),
            forall|k: int| 0 <= k < r@.len() ==> (#[trigger] r@[k]) < n,
        decreases i,
    {
        i = i - 1;
        if kinds[i] == EntryKind::Dir {
            r.push(i);
        }
        proof {
            lemma_dirs_desc_snoc(kinds@, i as int, n as int);
            assert(r@.map_values(|u: usize| u as int) =~= dirs_desc_between(
                kinds@,
                i as int,
                n as int,
            ));
        }
    }
    proof {
        assert(dirs_desc_between(kinds@, 0, n as int) =~= dirs_desc(kinds@, n as int)) by {
            lemma_dirs_desc_between_is_desc(kinds@, n as int);
        }
    }
    r
}

proof fn lemma_dirs_desc_between_is_desc(kinds: Seq<EntryKind>, t: int)
    ensures
        dirs_desc_between(kinds, 0, t) =~= dirs_desc(kinds, t),
    decreases t,
{
    if t > 0 {
        lemma_dirs_desc_between_is_desc(kinds, t - 1);
    }
}

} // verus!
