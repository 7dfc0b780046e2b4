//! Process-executor decisions: everything the executor decides is computed
//! and verified here; the surrounding program performs the process creation
//! and descriptor duplication these decisions call for.
//!
//! A pipeline containing a malformed stage is refused as a whole before any
//! process is created: `execution_plan` hands out wiring instructions only
//! for pipelines that pass `preflight`.

use vstd::prelude::*;

use crate::expand::{clone_strings, strings_view};
use crate::pipeline::{stages_view, Stage, StageModel};
use crate::report::{line_redirection_error, render_redirection_error};

verus! {

/// The first malformed diagnostic at or after stage `i`.
pub open spec fn first_malformed_from(ss: Seq<StageModel>, i: int) -> Option<Seq<char>>
    decreases ss.len() - i,
{
    if !(0 <= i < ss.len()) {
        None
    } else {
        match ss[i].malformed {
            Some(m) => Some(m),
            None => first_malformed_from(ss, i + 1),
        }
    }
}

/// The first malformed diagnostic among the stages, if any.
pub open spec fn first_malformed(ss: Seq<StageModel>) -> Option<Seq<char>> {
    first_malformed_from(ss, 0)
}

/// There is no malformed diagnostic exactly when every stage is sound.
pub proof fn lemma_first_malformed_none(ss: Seq<StageModel>, i: int)
    requires
        0 <= i <= ss.len(),
    ensures
        (first_malformed_from(ss, i) is None) <==> (forall|k: int|
            i <= k < ss.len() ==> (#[trigger] ss[k].malformed) is None),
    decreases ss.len() - i,
{
    if i < ss.len() {
        lemma_first_malformed_none(ss, i + 1);
    }
}

/// Check a pipeline before any process is created: the diagnostic line for
/// the first malformed stage, or nothing when every stage is sound. The
/// executor must not fork any process for a pipeline this refuses.
pub fn preflight(stages: &Vec<Stage>) -> (r: Option<String>)
    ensures
        match r {
            Some(line) => first_malformed(stages_view(stages@)) matches Some(m) && line@
                == line_redirection_error(m),
            None => first_malformed(stages_view(stages@)) is None,
        },
        (r is None) <==> (forall|k: int|
            0 <= k < stages@.len() ==> ((#[trigger] stages@[k])@.malformed) is None),
{
    let ghost ss = stages_view(stages@);
    let mut k: usize = 0;
    while k < stages.len()
        invariant
            k <= stages.len(),
            ss == stages_view(stages@),
            first_malformed_from(ss, k as int) == first_malformed(ss),
            forall|j: int| 0 <= j < k ==> ((#[trigger] ss[j]).malformed) is None,
        decreases stages.len() - k,
    {
        match &stages[k].malformed {
            Some(m) => {
                let line = render_redirection_error(m.as_str());
                proof {
                    assert(first_malformed_from(ss, k as int) == Some(m@));
                }
                return Some(line);
            },
            None => {},
        }
        k = k + 1;
    }
    proof {
        lemma_first_malformed_none(ss, 0);
        assert(forall|j: int| 0 <= j < ss.len() ==> ss[j] == (#[trigger] stages@[j])@);
    }
    None
}

/// Law: a pipeline holding a dangling redirection operator — a `>` or `<`
/// scanned in operator position with no following literal — is refused by
/// `preflight` (and by the converse of `lemma_malformed_iff_dangling` only
/// such a pipeline is), and `execution_plan` hands out no plan for it, so no
/// process is ever forked for such a pipeline.
pub proof fn lemma_dangling_redirect_refused(toks: Seq<Seq<char>>)
    ensures
        first_malformed(crate::pipeline::spec_build(toks)) is Some <==> crate::pipeline::dangling_redirect(
            toks,
            0,
        ),
{
    let ss = crate::pipeline::spec_build(toks);
    crate::pipeline::lemma_malformed_iff_dangling(toks);
    lemma_first_malformed_none(ss, 0);
}

/// The file-type bits of a `stat` mode word.
pub const FILE_TYPE_MASK: u32 = 0o170000;

/// The file-type bits naming a regular file.
pub const REGULAR_FILE_TYPE: u32 = 0o100000;

/// Whether a `stat` mode word names a regular file — the decision behind
/// the child-side rule that an input redirection target must be a regular
/// file. The caller reads the mode word off the descriptor; only the
/// decision stands here.
pub fn mode_is_regular(mode: u32) -> (r: bool)
    ensures
        r == ((mode & FILE_TYPE_MASK) == REGULAR_FILE_TYPE),
{
    (mode & FILE_TYPE_MASK) == REGULAR_FILE_TYPE
}

/// The wiring instructions for one stage: which descriptors the child must
/// acquire and duplicate before its program image is replaced.
pub struct StagePlan {
    /// The words of the invocation: the program followed by its arguments.
    pub argv: Vec<String>,
    /// Open this file read-only and duplicate it onto standard input;
    /// applied before pipe wiring, so it takes precedence.
    pub input_redirect: Option<String>,
    /// Open this file for writing (create or truncate, owner-only
    /// permission bits) and duplicate it onto standard output.
    pub output_redirect: Option<String>,
    /// Duplicate the read end of the previous stage's pipe onto standard
    /// input.
    pub read_prev: bool,
    /// Create a fresh pipe before forking and duplicate its write end onto
    /// standard output; the parent keeps the read end for the next stage.
    pub create_pipe: bool,
}

/// The wiring instructions for a whole pipeline.
pub struct ExecutionPlan {
    /// One plan per stage, in fork order.
    pub stages: Vec<StagePlan>,
    /// Register the final stage as a background job instead of waiting for
    /// it.
    pub register_background: bool,
}

/// What the plan for stage `k` must say, given the stage sequence.
pub open spec fn stage_plan_ok(ss: Seq<StageModel>, k: int, p: StagePlan) -> bool {
    &&& strings_view(p.argv@) == seq![ss[k].program] + ss[k].arguments
    &&& (match p.input_redirect {
        Some(f) => ss[k].input_redirect == Some(f@),
        None => ss[k].input_redirect is None,
    })
    &&& (match p.output_redirect {
        Some(f) => ss[k].output_redirect == Some(f@),
        None => ss[k].output_redirect is None,
    })
    &&& p.read_prev == (k > 0 && ss[k - 1].pipes_to_next)
    &&& p.create_pipe == ss[k].pipes_to_next
}

/// Decide the wiring of a whole pipeline. A pipeline with a malformed stage
/// is refused — no plan, so nothing is forked; otherwise there is one plan
/// per stage, in order: a stage reads the previous stage's pipe exactly when
/// that stage pipes forward, creates a pipe exactly when it pipes forward
/// itself, and carries its own redirections and argument vector. The final
/// stage is registered as a background job exactly when it carries the
/// background flag.
pub fn execution_plan(stages: &Vec<Stage>) -> (r: Option<ExecutionPlan>)
    ensures
        (r is Some) <==> (first_malformed(stages_view(stages@)) is None),
        r matches Some(plan) ==> {
            let ss = stages_view(stages@);
            &&& plan.stages@.len() == ss.len()
            &&& forall|k: int| 0 <= k < ss.len() ==> stage_plan_ok(ss, k, #[trigger] plan.stages@[k])
            &&& plan.register_background == (ss.len() > 0 && ss.last().runs_in_background)
        },
{
    let ghost ss = stages_view(stages@);
    if preflight(stages).is_some() {
        return None;
    }
    let mut plans: Vec<StagePlan> = Vec::new();
    let mut prev_piped: bool = false;
    let mut k: usize = 0;
    while k < stages.len()
        invariant
            k <= stages.len(),
            ss == stages_view(stages@),
            plans@.len() == k,
            prev_piped == (k > 0 && ss[k as int - 1].pipes_to_next),
            forall|j: int| 0 <= j < k ==> stage_plan_ok(ss, j, #[trigger] plans@[j]),
        decreases stages.len() - k,
    {
        proof {
            assert(ss[k as int] == stages@[k as int]@);
        }
        let stage = &stages[k];
        let mut argv: Vec<String> = Vec::new();
        argv.push(stage.program.clone());
        let mut rest = clone_strings(&stage.arguments);
        let ghost argv_one = argv@;
        argv.append(&mut rest);
        proof {
            assert(strings_view(argv@) =~= seq![ss[k as int].program] + ss[k as int].arguments);
        }
        let input_redirect = match &stage.input_redirect {
            Some(f) => Some(f.clone()),
            None => None,
        };
        let output_redirect = match &stage.output_redirect {
            Some(f) => Some(f.clone()),
            None => None,
        };
        let p = StagePlan {
            argv,
            input_redirect,
            output_redirect,
            read_prev: prev_piped,
            create_pipe: stage.pipes_to_next,
        };
        proof {
            assert(stage_plan_ok(ss, k as int, p));
        }
        prev_piped = stage.pipes_to_next;
        plans.push(p);
        k = k + 1;
    }
    let register_background = if stages.len() > 0 {
        stages[stages.len() - 1].runs_in_background
    } else {
        false
    };
    Some(ExecutionPlan { stages: plans, register_background })
}

} // verus!
