//! Pipeline builder: groups the expanded literal sequence into an ordered
//! list of command stages, attaching redirection targets and the background
//! flag and detecting malformed redirections.
//!
//! The first literal of a stage becomes its program, later literals its
//! arguments. `|` closes the stage with `pipes_to_next` set; `&` closes it
//! with `runs_in_background` set; `>` and `<` consume the following literal
//! as a redirection filename and, when none follows, mark the stage
//! malformed instead of aborting, so later stages can still be inspected.

use vstd::prelude::*;

use crate::expand::strings_view;

verus! {

/// One element of a command pipeline: a program invocation with its
/// arguments, optional redirections, and structural flags. Never mutated
/// after construction.
pub struct Stage {
    /// Resolved executable path, or the literal word as a fallback.
    pub program: String,
    /// The arguments, program excluded, in order.
    pub arguments: Vec<String>,
    /// Filename standard input is redirected from, if any.
    pub input_redirect: Option<String>,
    /// Filename standard output is redirected to, if any.
    pub output_redirect: Option<String>,
    /// Whether this stage's output feeds the next stage through a pipe.
    pub pipes_to_next: bool,
    /// Whether the stage runs without being waited for; true only possibly
    /// on the final stage.
    pub runs_in_background: bool,
    /// A diagnostic when the stage was built from malformed input; the
    /// executor must refuse the whole pipeline.
    pub malformed: Option<String>,
}

/// Mathematical model of a stage.
#[verifier::ext_equal]
pub struct StageModel {
    pub program: Seq<char>,
    pub arguments: Seq<Seq<char>>,
    pub input_redirect: Option<Seq<char>>,
    pub output_redirect: Option<Seq<char>>,
    pub pipes_to_next: bool,
    pub runs_in_background: bool,
    pub malformed: Option<Seq<char>>,
}

impl View for Stage {
    type V = StageModel;

    open spec fn view(&self) -> StageModel {
        StageModel {
            program: self.program@,
            arguments: strings_view(self.arguments@),
            input_redirect: match self.input_redirect {
                Some(f) => Some(f@),
                None => None,
            },
            output_redirect: match self.output_redirect {
                Some(f) => Some(f@),
                None => None,
            },
            pipes_to_next: self.pipes_to_next,
            runs_in_background: self.runs_in_background,
            malformed: match self.malformed {
                Some(m) => Some(m@),
                None => None,
            },
        }
    }
}

/// The models of a sequence of stages.
pub open spec fn stages_view(ss: Seq<Stage>) -> Seq<StageModel> {
    ss.map_values(|s: Stage| s@)
}

pub open spec fn is_pipe_marker(t: Seq<char>) -> bool {
    t.len() == 1 && t[0] == '|'
}

pub open spec fn is_redir_out_marker(t: Seq<char>) -> bool {
    t.len() == 1 && t[0] == '>'
}

pub open spec fn is_redir_in_marker(t: Seq<char>) -> bool {
    t.len() == 1 && t[0] == '<'
}

pub open spec fn is_background_marker(t: Seq<char>) -> bool {
    t.len() == 1 && t[0] == '&'
}

/// The diagnostic for `>` with no following filename.
pub open spec fn missing_output_msg() -> Seq<char> {
    "missing output file after redirection operator"@
}

/// The diagnostic for `<` with no following filename.
pub open spec fn missing_input_msg() -> Seq<char> {
    "missing input file after redirection operator"@
}

fn missing_output_string() -> (r: String)
    ensures
        r@ == missing_output_msg(),
{
    "missing output file after redirection operator".to_owned()
}

fn missing_input_string() -> (r: String)
    ensures
        r@ == missing_input_msg(),
{
    "missing input file after redirection operator".to_owned()
}

/// A stage with nothing filled in yet.
pub open spec fn empty_stage() -> StageModel {
    StageModel {
        program: Seq::empty(),
        arguments: Seq::empty(),
        input_redirect: None,
        output_redirect: None,
        pipes_to_next: false,
        runs_in_background: false,
        malformed: None,
    }
}

/// The in-progress stage: the accumulated one, or a fresh empty stage when
/// a structural marker arrives before any literal.
pub open spec fn started(cur: Option<StageModel>) -> StageModel {
    match cur {
        Some(st) => st,
        None => empty_stage(),
    }
}

/// The stages built from the literals at `i` on, with `cur` the in-progress
/// stage carried in.
pub open spec fn build_from(toks: Seq<Seq<char>>, i: int, cur: Option<StageModel>) -> Seq<
    StageModel,
>
    decreases toks.len() - i + 1,
{
    if i >= toks.len() {
        match cur {
            Some(st) => seq![st],
            None => Seq::empty(),
        }
    } else {
        let t = toks[i];
        let st = started(cur);
        if is_pipe_marker(t) {
            seq![StageModel { pipes_to_next: true, ..st }] + build_from(toks, i + 1, None)
        } else if is_redir_out_marker(t) {
            if i + 1 < toks.len() {
                build_from(
                    toks,
                    i + 2,
                    Some(StageModel { output_redirect: Some(toks[i + 1]), ..st }),
                )
            } else {
                build_from(
                    toks,
                    i + 1,
                    Some(StageModel { malformed: Some(missing_output_msg()), ..st }),
                )
            }
        } else if is_redir_in_marker(t) {
            if i + 1 < toks.len() {
                build_from(
                    toks,
                    i + 2,
                    Some(StageModel { input_redirect: Some(toks[i + 1]), ..st }),
                )
            } else {
                build_from(
                    toks,
                    i + 1,
                    Some(StageModel { malformed: Some(missing_input_msg()), ..st }),
                )
            }
        } else if is_background_marker(t) {
            seq![StageModel { runs_in_background: true, ..st }] + build_from(toks, i + 1, None)
        } else {
            match cur {
                None => build_from(
                    toks,
                    i + 1,
                    Some(StageModel { program: t, ..empty_stage() }),
                ),
                Some(st0) => build_from(
                    toks,
                    i + 1,
                    Some(StageModel { arguments: st0.arguments.push(t), ..st0 }),
                ),
            }
        }
    }
}

/// The stages of a whole expanded literal sequence.
pub open spec fn spec_build(toks: Seq<Seq<char>>) -> Seq<StageModel> {
    build_from(toks, 0, None)
}

/// How many pipe markers stand at or after position `i`.
pub open spec fn pipes_from(toks: Seq<Seq<char>>, i: int) -> nat
    decreases toks.len() - i,
{
    if !(0 <= i < toks.len()) {
        0
    } else {
        (if is_pipe_marker(toks[i]) {
            1nat
        } else {
            0nat
        }) + pipes_from(toks, i + 1)
    }
}

/// The shape of a plain pipeline: the builder turns `p` pipe markers into
/// `p + 1` stages, the first `p` piping forward and the last not.
proof fn lemma_build_shape(toks: Seq<Seq<char>>, i: int, cur: Option<StageModel>)
    requires
        0 <= i <= toks.len(),
        forall|j: int|
            i <= j < toks.len() ==> !is_redir_out_marker(#[trigger] toks[j]) && !is_redir_in_marker(
                toks[j],
            ) && !is_background_marker(toks[j]),
        i == toks.len() ==> cur is Some,
        i < toks.len() ==> !is_pipe_marker(toks[toks.len() - 1]),
        !started(cur).pipes_to_next,
    ensures
        build_from(toks, i, cur).len() == pipes_from(toks, i) + 1,
        forall|k: int|
            0 <= k < build_from(toks, i, cur).len() ==> (#[trigger] build_from(
                toks,
                i,
                cur,
            )[k]).pipes_to_next == (k < pipes_from(toks, i)),
    decreases toks.len() - i,
{
    if i < toks.len() {
        let t = toks[i];
        let st = started(cur);
        if is_pipe_marker(t) {
            assert(i < toks.len() - 1);
            lemma_build_shape(toks, i + 1, None);
        } else {
            match cur {
                None => {
                    lemma_build_shape(
                        toks,
                        i + 1,
                        Some(StageModel { program: t, ..empty_stage() }),
                    );
                },
                Some(st0) => {
                    lemma_build_shape(
                        toks,
                        i + 1,
                        Some(StageModel { arguments: st0.arguments.push(t), ..st0 }),
                    );
                },
            }
        }
    }
}

/// Law: a pipeline of `n` stages written with `n - 1` pipe markers — a
/// nonempty literal sequence holding no redirection or background marker and
/// not ending in a pipe — builds to exactly `n` stages, with `pipes_to_next`
/// on every stage but the last and off on the last.
pub proof fn lemma_pipeline_stage_count(toks: Seq<Seq<char>>)
    requires
        toks.len() > 0,
        forall|j: int|
            0 <= j < toks.len() ==> !is_redir_out_marker(#[trigger] toks[j]) && !is_redir_in_marker(
                toks[j],
            ) && !is_background_marker(toks[j]),
        !is_pipe_marker(toks.last()),
    ensures
        spec_build(toks).len() == pipes_from(toks, 0) + 1,
        forall|k: int|
            0 <= k < spec_build(toks).len() ==> (#[trigger] spec_build(toks)[k]).pipes_to_next == (
            k + 1 < spec_build(toks).len()),
{
    lemma_build_shape(toks, 0, None);
}

/// The scan from position `i` on meets a dangling redirection operator: a
/// `>` or `<` scanned in operator position — not consumed as a filename by
/// an earlier operator — with no literal after it.
pub open spec fn dangling_redirect(toks: Seq<Seq<char>>, i: int) -> bool
    decreases toks.len() - i + 1,
{
    if i >= toks.len() {
        false
    } else if is_redir_out_marker(toks[i]) || is_redir_in_marker(toks[i]) {
        if i + 1 < toks.len() {
            dangling_redirect(toks, i + 2)
        } else {
            true
        }
    } else {
        dangling_redirect(toks, i + 1)
    }
}

/// The builder marks the stage of a dangling redirection: the last stage
/// built carries a malformed diagnostic.
proof fn lemma_build_dangling(toks: Seq<Seq<char>>, i: int, cur: Option<StageModel>)
    requires
        0 <= i <= toks.len(),
        dangling_redirect(toks, i),
    ensures
        build_from(toks, i, cur).len() > 0,
        build_from(toks, i, cur).last().malformed is Some,
    decreases toks.len() - i + 1,
{
    let t = toks[i];
    let st = started(cur);
    if is_redir_out_marker(t) || is_redir_in_marker(t) {
        if i + 1 < toks.len() {
            if is_redir_out_marker(t) {
                lemma_build_dangling(
                    toks,
                    i + 2,
                    Some(StageModel { output_redirect: Some(toks[i + 1]), ..st }),
                );
            } else {
                lemma_build_dangling(
                    toks,
                    i + 2,
                    Some(StageModel { input_redirect: Some(toks[i + 1]), ..st }),
                );
            }
        } else {
            if is_redir_out_marker(t) {
                assert(build_from(toks, i, cur) == build_from(
                    toks,
                    i + 1,
                    Some(StageModel { malformed: Some(missing_output_msg()), ..st }),
                ));
                assert(build_from(toks, i, cur) == seq![StageModel {
                    malformed: Some(missing_output_msg()),
                    ..st
                }]);
            } else {
                assert(build_from(toks, i, cur) == build_from(
                    toks,
                    i + 1,
                    Some(StageModel { malformed: Some(missing_input_msg()), ..st }),
                ));
                assert(build_from(toks, i, cur) == seq![StageModel {
                    malformed: Some(missing_input_msg()),
                    ..st
                }]);
            }
        }
    } else if is_pipe_marker(t) || is_background_marker(t) {
        lemma_build_dangling(toks, i + 1, None);
        assert(build_from(toks, i, cur).last() == build_from(toks, i + 1, None).last());
    } else {
        match cur {
            None => {
                lemma_build_dangling(
                    toks,
                    i + 1,
                    Some(StageModel { program: t, ..empty_stage() }),
                );
            },
            Some(st0) => {
                lemma_build_dangling(
                    toks,
                    i + 1,
                    Some(StageModel { arguments: st0.arguments.push(t), ..st0 }),
                );
            },
        }
    }
}

/// Without a dangling redirection the builder marks nothing: every stage
/// built from a sound remainder, out of a sound in-progress stage, carries
/// no malformed diagnostic.
proof fn lemma_build_no_dangling(toks: Seq<Seq<char>>, i: int, cur: Option<StageModel>)
    requires
        0 <= i <= toks.len(),
        !dangling_redirect(toks, i),
        started(cur).malformed is None,
    ensures
        forall|k: int|
            0 <= k < build_from(toks, i, cur).len() ==> (#[trigger] build_from(
                toks,
                i,
                cur,
            )[k]).malformed is None,
    decreases toks.len() - i + 1,
{
    if i < toks.len() {
        let t = toks[i];
        let st = started(cur);
        if is_redir_out_marker(t) || is_redir_in_marker(t) {
            assert(i + 1 < toks.len());
            if is_redir_out_marker(t) {
                lemma_build_no_dangling(
                    toks,
                    i + 2,
                    Some(StageModel { output_redirect: Some(toks[i + 1]), ..st }),
                );
            } else {
                lemma_build_no_dangling(
                    toks,
                    i + 2,
                    Some(StageModel { input_redirect: Some(toks[i + 1]), ..st }),
                );
            }
        } else if is_pipe_marker(t) || is_background_marker(t) {
            lemma_build_no_dangling(toks, i + 1, None);
        } else {
            match cur {
                None => {
                    lemma_build_no_dangling(
                        toks,
                        i + 1,
                        Some(StageModel { program: t, ..empty_stage() }),
                    );
                },
                Some(st0) => {
                    lemma_build_no_dangling(
                        toks,
                        i + 1,
                        Some(StageModel { arguments: st0.arguments.push(t), ..st0 }),
                    );
                },
            }
        }
    }
}

/// Law: the builder marks a stage malformed exactly when the scan meets a
/// dangling redirection operator — a `>` or `<` in operator position with
/// no following literal to consume as its filename. In particular a
/// redirection operator at the very end of the input, not consumed as an
/// earlier operator's filename, always yields a malformed stage, and a
/// sound input yields none.
pub proof fn lemma_malformed_iff_dangling(toks: Seq<Seq<char>>)
    ensures
        (exists|k: int|
            0 <= k < spec_build(toks).len() && (#[trigger] spec_build(toks)[k]).malformed is Some)
            <==> dangling_redirect(toks, 0),
{
    if dangling_redirect(toks, 0) {
        lemma_build_dangling(toks, 0, None);
        let n = spec_build(toks).len() as int;
        assert(spec_build(toks)[n - 1].malformed is Some);
    } else {
        lemma_build_no_dangling(toks, 0, None);
    }
}

/// The model of the in-progress exec stage.
pub open spec fn cur_view(c: Option<Stage>) -> Option<StageModel> {
    match c {
        Some(s) => Some(s@),
        None => None,
    }
}

/// Whether `s` is exactly the one-character word `c`.
fn is_marker_word(s: &String, c: char) -> (r: bool)
    ensures
        r == (s@.len() == 1 && s@[0] == c),
{
    s.as_str().unicode_len() == 1 && s.as_str().get_char(0) == c
}

/// A fresh stage with nothing filled in.
fn new_empty_stage() -> (r: Stage)
    ensures
        r@ == empty_stage(),
{
    let r = Stage {
        program: String::new(),
        arguments: Vec::new(),
        input_redirect: None,
        output_redirect: None,
        pipes_to_next: false,
        runs_in_background: false,
        malformed: None,
    };
    proof {
        assert(r@ =~= empty_stage());
    }
    r
}

/// Group an expanded literal sequence into pipeline stages, per
/// `spec_build`: the scan never aborts; malformed redirections are recorded
/// on their stage and left for the executor to refuse. An empty input
/// yields an empty stage list.
pub fn build(expanded: &Vec<String>) -> (r: Vec<Stage>)
    ensures
        stages_view(r@) == spec_build(strings_view(expanded@)),
{
    let ghost toks = strings_view(expanded@);
    let mut stages: Vec<Stage> = Vec::new();
    let mut cur: Option<Stage> = None;
    let mut i: usize = 0;
    while i < expanded.len()
        invariant
            i <= expanded.len(),
            toks == strings_view(expanded@),
            stages_view(stages@) + build_from(toks, i as int, cur_view(cur)) == spec_build(toks),
        decreases expanded.len() - i,
    {
        let ghost i0 = i as int;
        let ghost cur0 = cur_view(cur);
        let ghost stages0 = stages@;
        proof {
            assert(toks[i0] == expanded@[i0]@);
        }
        let had = cur.is_some();
        let mut st: Stage = match cur {
            Some(s) => s,
            None => new_empty_stage(),
        };
        proof {
            assert(st@ == started(cur0));
        }
        let t = &expanded[i];
        if is_marker_word(t, '|') {
            st.pipes_to_next = true;
            proof {
                assert(build_from(toks, i0, cur0) == seq![st@] + build_from(toks, i0 + 1, None));
                assert(stages_view(stages0.push(st)) =~= stages_view(stages0) + seq![st@]);
            }
            stages.push(st);
            cur = None;
            i = i + 1;
            proof {
                assert(stages_view(stages@) + build_from(toks, i as int, cur_view(cur))
                    =~= spec_build(toks));
            }
        } else if is_marker_word(t, '>') {
            if i + 1 < expanded.len() {
                proof {
                    assert(toks[i0 + 1] == expanded@[i0 + 1]@);
                }
                let fname = expanded[i + 1].clone();
                st.output_redirect = Some(fname);
                proof {
                    assert(st@ == StageModel {
                        output_redirect: Some(toks[i0 + 1]),
                        ..started(cur0)
                    });
                }
                cur = Some(st);
                i = i + 2;
            } else {
                st.malformed = Some(missing_output_string());
                proof {
                    assert(st@ == StageModel {
                        malformed: Some(missing_output_msg()),
                        ..started(cur0)
                    });
                }
                cur = Some(st);
                i = i + 1;
            }
        } else if is_marker_word(t, '<') {
            if i + 1 < expanded.len() {
                proof {
                    assert(toks[i0 + 1] == expanded@[i0 + 1]@);
                }
                let fname = expanded[i + 1].clone();
                st.input_redirect = Some(fname);
                proof {
                    assert(st@ == StageModel {
                        input_redirect: Some(toks[i0 + 1]),
                        ..started(cur0)
                    });
                }
                cur = Some(st);
                i = i + 2;
            } else {
                st.malformed = Some(missing_input_string());
                proof {
                    assert(st@ == StageModel {
                        malformed: Some(missing_input_msg()),
                        ..started(cur0)
                    });
                }
                cur = Some(st);
                i = i + 1;
            }
        } else if is_marker_word(t, '&') {
            st.runs_in_background = true;
            proof {
                assert(build_from(toks, i0, cur0) == seq![st@] + build_from(toks, i0 + 1, None));
                assert(stages_view(stages0.push(st)) =~= stages_view(stages0) + seq![st@]);
            }
            stages.push(st);
            cur = None;
            i = i + 1;
            proof {
                assert(stages_view(stages@) + build_from(toks, i as int, cur_view(cur))
                    =~= spec_build(toks));
            }
        } else {
            if had {
                let ghost args0 = st@.arguments;
                st.arguments.push(t.clone());
                proof {
                    assert(strings_view(st.arguments@) =~= args0.push(toks[i0]));
                    assert(st@ == StageModel {
                        arguments: started(cur0).arguments.push(toks[i0]),
                        ..started(cur0)
                    });
                }
            } else {
                st.program = t.clone();
                proof {
                    assert(st@ == StageModel { program: toks[i0], ..empty_stage() });
                }
            }
            cur = Some(st);
            i = i + 1;
        }
    }
    match cur {
        Some(st) => {
            proof {
                assert(build_from(toks, i as int, cur_view(cur)) == seq![st@]);
                assert(stages_view(stages@.push(st)) =~= stages_view(stages@) + seq![st@]);
            }
            stages.push(st);
        },
        None => {
            proof {
                assert(build_from(toks, i as int, cur_view(cur))
                    =~= Seq::<StageModel>::empty());
                assert(stages_view(stages@) + Seq::<StageModel>::empty() =~= stages_view(
                    stages@,
                ));
            }
        },
    }
    stages
}

} // verus!
