//! The build-retry loop's decisions: classify one build pass's lines in
//! order, log everything before the first missing-package message, install at
//! most that one package per cycle, and stop exactly when the artifact check
//! succeeds.

use vstd::prelude::*;

use crate::msg::Msg;
use crate::msg::MsgModel;
use crate::msg::classify;
use crate::msg::text_of;

verus! {

/// All lines of one pass classified, in order.
pub open spec fn classify_all(lines: Seq<Seq<char>>) -> Seq<MsgModel> {
    lines.map_values(|l: Seq<char>| classify(l))
}

/// Classify every trimmed line of one pass, in order.
pub fn classify_lines(lines: &Vec<String>) -> (r: Vec<Msg>)
    ensures
        r.deep_view() == classify_all(lines.deep_view()),
{
    let mut r: Vec<Msg> = Vec::new();
    let mut i: usize = 0;
    while i < lines.len()
        invariant
            0 <= i <= lines@.len(),
            r@.len() == i,
            forall|j: int| 0 <= j < i ==> r@[j].deep_view() == classify(lines@[j]@),
        decreases lines@.len() - i,
    {
        let m = Msg::new(lines[i].clone());
        r.push(m);
        i += 1;
    }
    assert forall|j: int| 0 <= j < r.deep_view().len() implies r.deep_view()[j]
        == classify_all(lines.deep_view())[j] by {
        assert(r@[j].deep_view() == classify(lines@[j]@));
    }
    assert(r.deep_view() =~= classify_all(lines.deep_view()));
    r
}

/// Index of the first `NeedInstall` in `msgs`, or `msgs.len()` when there is
/// none.
pub open spec fn first_install(msgs: Seq<MsgModel>) -> int
    decreases msgs.len(),
{
    if msgs.len() == 0 {
        0
    } else if msgs[0] is NeedInstall {
        0
    } else {
        1 + first_install(msgs.subrange(1, msgs.len() as int))
    }
}

/// `first_install` is a position in `msgs` (one past the end when none is a
/// `NeedInstall`), everything before it is no `NeedInstall`, and it lands on
/// one when inside.
pub proof fn lemma_first_install(msgs: Seq<MsgModel>)
    ensures
        0 <= first_install(msgs) <= msgs.len(),
        forall|j: int| 0 <= j < first_install(msgs) ==> !(msgs[j] is NeedInstall),
        first_install(msgs) < msgs.len() ==> msgs[first_install(msgs)] is NeedInstall,
    decreases msgs.len(),
{
    if msgs.len() == 0 {
    } else if msgs[0] is NeedInstall {
    } else {
        let tail = msgs.subrange(1, msgs.len() as int);
        lemma_first_install(tail);
        assert forall|j: int| 0 <= j < first_install(msgs) implies !(msgs[j]
            is NeedInstall) by {
            if j > 0 {
                assert(msgs[j] == tail[j - 1]);
            }
        }
        if first_install(msgs) < msgs.len() {
            assert(msgs[first_install(msgs)] == tail[first_install(tail)]);
        }
    }
}

/// The package the loop installs after one build pass: the one carried by
/// the first `NeedInstall` among the pass's messages, if any.
pub open spec fn install_decision(msgs: Seq<MsgModel>) -> Option<Seq<char>> {
    if first_install(msgs) < msgs.len() {
        Some(text_of(msgs[first_install(msgs)]))
    } else {
        None
    }
}

/// The texts the loop logs from one build pass: those of every message
/// before the first `NeedInstall`, or of all of them when there is none.
pub open spec fn logged_texts(msgs: Seq<MsgModel>) -> Seq<Seq<char>> {
    msgs.subrange(0, first_install(msgs)).map_values(|m: MsgModel| text_of(m))
}

/// What one build pass's messages tell the loop to do.
pub struct Dispatch {
    /// The texts to log, in order: one per message before the first
    /// `NeedInstall`.
    pub logged: Vec<String>,
    /// The package to install: the one carried by the first `NeedInstall`,
    /// if any. Later messages of the batch go unprocessed.
    pub install: Option<String>,
}

/// Walk one build pass's messages in order: collect the text of every
/// message before the first `NeedInstall`; at the first `NeedInstall`, stop
/// and hand back its package, leaving the rest of the batch unprocessed.
/// At most one package comes out of one pass.
pub fn dispatch(msgs: &Vec<Msg>) -> (r: Dispatch)
    ensures
        r.logged.deep_view() == logged_texts(msgs.deep_view()),
        r.install.deep_view() == install_decision(msgs.deep_view()),
{
    let ghost ms = msgs.deep_view();
    let mut logged: Vec<String> = Vec::new();
    let mut i: usize = 0;
    while i < msgs.len()
        invariant
            0 <= i <= msgs@.len(),
            ms == msgs.deep_view(),
            forall|j: int| 0 <= j < i ==> !(ms[j] is NeedInstall),
            logged@.len() == i,
            forall|j: int| 0 <= j < i ==> logged@[j]@ == text_of(ms[j]),
        decreases msgs@.len() - i,
    {
        let m: &Msg = &msgs[i];
        match m {
            Msg::NeedInstall(p) => {
                proof {
                    assert(ms[i as int] is NeedInstall);
                    lemma_first_install(ms);
                    assert(first_install(ms) == i);
                    assert(logged.deep_view() =~= logged_texts(ms));
                }
                return Dispatch { logged, install: Some(p.clone()) };
            },
            other => {
                let t = other.as_str();
                logged.push(String::from_str(t));
                i += 1;
            },
        }
    }
    proof {
        lemma_first_install(ms);
        assert(first_install(ms) == ms.len());
        assert(logged.deep_view() =~= logged_texts(ms));
    }
    Dispatch { logged, install: None }
}

/// One simulated clean+build cycle: the trimmed lines its build pass
/// emitted, and whether the target artifact exists when the cycle checks.
pub struct BuildCycle {
    pub build_lines: Vec<String>,
    pub artifact_exists: bool,
}

/// What a bounded run of the build-retry loop did.
pub struct LoopReport {
    /// Whether the target artifact appeared and the loop stopped.
    pub finished: bool,
    /// Clean+build cycles performed.
    pub cycles: usize,
    /// Installer invocations, in order: at most one per cycle.
    pub installs: Vec<String>,
}

/// Index of the first cycle whose artifact check succeeds, or `cycles.len()`
/// when none does.
pub open spec fn first_success(cycles: Seq<BuildCycle>) -> int
    decreases cycles.len(),
{
    if cycles.len() == 0 {
        0
    } else if cycles[0].artifact_exists {
        0
    } else {
        1 + first_success(cycles.subrange(1, cycles.len() as int))
    }
}

/// `first_success` is a position in `cycles` (one past the end when no check
/// succeeds), every check before it fails, and the one at it succeeds when
/// inside.
pub proof fn lemma_first_success(cycles: Seq<BuildCycle>)
    ensures
        0 <= first_success(cycles) <= cycles.len(),
        forall|j: int| 0 <= j < first_success(cycles) ==> !cycles[j].artifact_exists,
        first_success(cycles) < cycles.len() ==> cycles[first_success(
            cycles,
        )].artifact_exists,
    decreases cycles.len(),
{
    if cycles.len() == 0 {
    } else if cycles[0].artifact_exists {
    } else {
        let tail = cycles.subrange(1, cycles.len() as int);
        lemma_first_success(tail);
        assert forall|j: int| 0 <= j < first_success(cycles) implies !cycles[j].artifact_exists by {
            if j > 0 {
                assert(cycles[j] == tail[j - 1]);
            }
        }
        if first_success(cycles) < cycles.len() {
            assert(cycles[first_success(cycles)] == tail[first_success(tail)]);
        }
    }
}

/// The installer invocations the first `n` cycles cause, in order: each
/// cycle contributes the package of the first `NeedInstall` among its build
/// pass's messages, or nothing.
pub open spec fn installs_of(cycles: Seq<BuildCycle>, n: int) -> Seq<Seq<char>>
    decreases n,
{
    if n <= 0 {
        Seq::empty()
    } else {
        installs_of(cycles, n - 1) + (match install_decision(
            classify_all(cycles[n - 1].build_lines.deep_view()),
        ) {
            Some(p) => seq![p],
            None => Seq::empty(),
        })
    }
}

/// Run the build-retry loop against a sequence of simulated cycles: each
/// cycle classifies its build pass's lines, installs at most the first
/// missing package, then checks for the artifact; the loop stops exactly
/// when a check succeeds, after performing one cycle per failed check plus
/// the successful one.
pub fn run_loop(cycles: &Vec<BuildCycle>) -> (r: LoopReport)
    ensures
        r.finished <==> first_success(cycles@) < cycles@.len(),
        r.finished ==> r.cycles == first_success(cycles@) + 1,
        !r.finished ==> r.cycles == cycles@.len(),
        r.installs.deep_view() == installs_of(cycles@, r.cycles as int),
{
    proof {
        lemma_first_success(cycles@);
    }
    let mut installs: Vec<String> = Vec::new();
    let mut i: usize = 0;
    while i < cycles.len()
        invariant
            0 <= i <= cycles@.len(),
            forall|j: int| 0 <= j < i ==> !cycles@[j].artifact_exists,
            installs.deep_view() == installs_of(cycles@, i as int),
        decreases cycles@.len() - i,
    {
        let msgs = classify_lines(&cycles[i].build_lines);
        let d = dispatch(&msgs);
        if let Some(p) = d.install {
            installs.push(p);
        }
        assert(installs.deep_view() =~= installs_of(cycles@, i + 1));
        if cycles[i].artifact_exists {
            proof {
                lemma_first_success(cycles@);
                assert(first_success(cycles@) == i);
            }
            return LoopReport { finished: true, cycles: i + 1, installs };
        }
        i += 1;
    }
    proof {
        lemma_first_success(cycles@);
        assert(first_success(cycles@) == cycles@.len());
    }
    LoopReport { finished: false, cycles: cycles.len(), installs }
}

} // verus!
