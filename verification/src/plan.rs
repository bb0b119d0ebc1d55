//! The morph orchestrator's core: from an ordered list of presets it derives
//! the deterministic sequence of transform invocations — for every preset a
//! run of chunk-transition steps, and for every transition step a sweep of
//! denoising strengths, each step carrying its prompt, strength, output path
//! and resume decision. The surrounding process performs the batches in
//! order, all jobs of one transition step concurrently, and threads the last
//! written image forward as the next batch's source.

use vstd::prelude::*;

use crate::client::SdwebClientInfo;
use crate::paths::path_spec;
use crate::paths::step_output_path;
use crate::prompts::PromptChunks;
use crate::prompts::append_clones;
use crate::prompts::chunk_views;
use crate::prompts::common_spec;
use crate::prompts::diff_spec;
use crate::prompts::join_chunks;
use crate::prompts::join_spec;

verus! {

/// An inclusive-start sweep of denoising strengths, in integer thousandths:
/// `init, init + steps, ...` while the value stays at most `end`. A sweep
/// with `init > end` is empty; `steps` must be positive.
pub struct DenoisingSteps {
    pub init: u32,
    pub end: u32,
    pub steps: u32,
}

/// One stage of the morph sequence: a target prompt set, a strength sweep,
/// and an optional fixed seed (a fresh one is drawn per transition step when
/// absent).
pub struct MorphPreset {
    pub prompt_chunks: PromptChunks,
    pub denoising_steps: DenoisingSteps,
    pub seed: Option<u32>,
}

/// A saved step coordinate: every step lexicographically before it is
/// skipped, and it is itself the first step that executes again.
#[derive(Clone)]
pub struct RestartIndex {
    pub preset: usize,
    pub chunk_transition: usize,
    pub strength: usize,
}

/// One whole run, read once at start.
pub struct Instruction {
    pub client_info: SdwebClientInfo,
    pub init_image_path: String,
    pub common_negative_prompt: String,
    pub morph_presets: Vec<MorphPreset>,
    pub restart_index: Option<RestartIndex>,
}

/// One strength step inside a transition step: how strongly to denoise (in
/// thousandths), where the result goes, and whether the step is skipped
/// because a resumed run already has its output.
pub struct PlannedStep {
    pub strength: u32,
    pub strength_index: usize,
    pub output_path: String,
    pub skip: bool,
}

/// One transition step: all its strength steps share one prompt and one
/// seed, run concurrently, and the image written by the last of them becomes
/// the source of the next batch.
pub struct TransitionBatch {
    pub preset_index: usize,
    pub transition_index: usize,
    pub seed: u32,
    pub prompt: String,
    pub steps: Vec<PlannedStep>,
}

/// The chunks of preset `p`.
pub open spec fn preset_chunks(ps: Seq<MorphPreset>, p: int) -> Seq<String> {
    ps[p].prompt_chunks.chunks@
}

/// The chunks of the preset before `p` — none before the first.
pub open spec fn prev_chunks(ps: Seq<MorphPreset>, p: int) -> Seq<String> {
    if p == 0 {
        Seq::empty()
    } else {
        preset_chunks(ps, p - 1)
    }
}

/// The chunks preset `p` shares with its predecessor.
pub open spec fn common_of(ps: Seq<MorphPreset>, p: int) -> Seq<String> {
    common_spec(preset_chunks(ps, p), prev_chunks(ps, p))
}

/// The chunks preset `p` fades in: its own, not in its predecessor.
pub open spec fn new_of(ps: Seq<MorphPreset>, p: int) -> Seq<String> {
    diff_spec(preset_chunks(ps, p), prev_chunks(ps, p))
}

/// The chunks preset `p` fades out: its predecessor's, no longer its own.
pub open spec fn old_of(ps: Seq<MorphPreset>, p: int) -> Seq<String> {
    diff_spec(prev_chunks(ps, p), preset_chunks(ps, p))
}

/// How many transition steps preset `p` takes: the first preset introduces
/// everything in a single step; afterwards one step per chunk faded in or
/// out, swept together — `max(|old|, |new|)` — with at least one step even
/// when nothing changes (a re-render at the new strengths).
pub open spec fn n_trans(ps: Seq<MorphPreset>, p: int) -> int {
    if p == 0 {
        1
    } else {
        let o = old_of(ps, p).len() as int;
        let n = new_of(ps, p).len() as int;
        if o == 0 && n == 0 {
            1
        } else if o >= n {
            o
        } else {
            n
        }
    }
}

/// The new chunks already faded in when transition step `t` of preset `p`
/// begins (the first preset absorbs all of them in its single step).
pub open spec fn incoming_before(ps: Seq<MorphPreset>, p: int, t: int) -> Seq<String> {
    if p == 0 {
        if t == 0 {
            Seq::empty()
        } else {
            new_of(ps, p)
        }
    } else if t <= new_of(ps, p).len() {
        new_of(ps, p).take(t)
    } else {
        new_of(ps, p)
    }
}

/// The old chunks not yet faded out when transition step `t` of preset `p`
/// begins.
pub open spec fn outgoing_before(ps: Seq<MorphPreset>, p: int, t: int) -> Seq<String> {
    if t <= old_of(ps, p).len() {
        old_of(ps, p).skip(t)
    } else {
        Seq::empty()
    }
}

/// The prompt of transition step `t` of preset `p`: shared chunks, then the
/// chunks faded in so far, then the chunks still fading out, comma-joined.
pub open spec fn prompt_at(ps: Seq<MorphPreset>, p: int, t: int) -> Seq<char> {
    join_spec(
        chunk_views(
            common_of(ps, p) + incoming_before(ps, p, t + 1) + outgoing_before(ps, p, t + 1),
        ),
    )
}

/// How many strength steps an inclusive-start sweep from `init` to `end` by
/// `step` performs.
pub open spec fn n_strengths(init: int, end: int, step: int) -> int
    decreases (if init > end { 0int } else { end - init + 1 }),
        when step >= 1
{
    if init > end {
        0
    } else {
        1 + n_strengths(init + step, end, step)
    }
}

/// A sweep never has a negative number of steps.
proof fn lemma_n_strengths_nonneg(init: int, end: int, step: int)
    requires
        step >= 1,
    ensures
        n_strengths(init, end, step) >= 0,
    decreases (if init > end { 0int } else { end - init + 1 }),
{
    if init <= end {
        lemma_n_strengths_nonneg(init + step, end, step);
    }
}

/// Whether `(p, t, s)` comes lexicographically before `(cp, ct, cs)`.
pub open spec fn lex_less(p: int, t: int, s: int, cp: int, ct: int, cs: int) -> bool {
    p < cp || (p == cp && (t < ct || (t == ct && s < cs)))
}

/// Whether the step at `(p, t, s)` is skipped under `cursor`: exactly the
/// steps lexicographically before the cursor coordinate are; the cursor's
/// own step is the first that executes.
pub open spec fn skip_spec(cursor: Option<RestartIndex>, p: int, t: int, s: int) -> bool {
    match cursor {
        None => false,
        Some(c) => lex_less(
            p,
            t,
            s,
            c.preset as int,
            c.chunk_transition as int,
            c.strength as int,
        ),
    }
}

/// What one planned strength step must hold for coordinates `(p, t, j)`.
pub open spec fn step_ok(
    st: PlannedStep,
    ps: Seq<MorphPreset>,
    base: Seq<char>,
    cursor: Option<RestartIndex>,
    p: int,
    t: int,
    j: int,
) -> bool {
    &&& st.strength == ps[p].denoising_steps.init + j * ps[p].denoising_steps.steps
    &&& st.strength_index == j
    &&& st.output_path@ == path_spec(base, p as nat, t as nat, j as nat)
    &&& st.skip == skip_spec(cursor, p, t, j)
}

/// What one planned transition batch must hold for coordinates `(p, t)`.
pub open spec fn batch_ok(
    b: TransitionBatch,
    ps: Seq<MorphPreset>,
    base: Seq<char>,
    cursor: Option<RestartIndex>,
    p: int,
    t: int,
) -> bool {
    &&& b.preset_index == p
    &&& b.transition_index == t
    &&& (match ps[p].seed {
        Some(sd) => b.seed == sd,
        None => true,
    })
    &&& b.prompt@ == prompt_at(ps, p, t)
    &&& b.steps@.len() == n_strengths(
        ps[p].denoising_steps.init as int,
        ps[p].denoising_steps.end as int,
        ps[p].denoising_steps.steps as int,
    )
    &&& forall|j: int|
        0 <= j < b.steps@.len() ==> step_ok(#[trigger] b.steps@[j], ps, base, cursor, p, t, j)
}

/// The `(preset, transition)` coordinates of preset `p`'s `n` transition
/// steps, in order.
pub open spec fn preset_coords(p: int, n: int) -> Seq<(int, int)> {
    Seq::new(n as nat, |t: int| (p, t))
}

/// The `(preset, transition)` coordinates of the first `k` presets' batches,
/// in execution order.
pub open spec fn coords_upto(ps: Seq<MorphPreset>, k: int) -> Seq<(int, int)>
    decreases k,
{
    if k <= 0 {
        Seq::empty()
    } else {
        coords_upto(ps, k - 1) + preset_coords(k - 1, n_trans(ps, k - 1))
    }
}

/// The `(preset, transition)` coordinates of a whole run's batches, in
/// execution order.
pub open spec fn plan_coords(ps: Seq<MorphPreset>) -> Seq<(int, int)> {
    coords_upto(ps, ps.len() as int)
}

/// Filtering keeps a sequence whose every element passes.
proof fn lemma_filter_all<A>(s: Seq<A>, pred: spec_fn(A) -> bool)
    requires
        forall|i: int| 0 <= i < s.len() ==> pred(#[trigger] s[i]),
    ensures
        s.filter(pred) == s,
    decreases s.len(),
{
    reveal(Seq::filter);
    if s.len() > 0 {
        lemma_filter_all(s.drop_last(), pred);
        assert(s.drop_last().push(s.last()) =~= s);
    }
}

/// Filtering empties a sequence whose no element passes.
proof fn lemma_filter_none<A>(s: Seq<A>, pred: spec_fn(A) -> bool)
    requires
        forall|i: int| 0 <= i < s.len() ==> !pred(#[trigger] s[i]),
    ensures
        s.filter(pred) == Seq::<A>::empty(),
    decreases s.len(),
{
    reveal(Seq::filter);
    if s.len() > 0 {
        lemma_filter_none(s.drop_last(), pred);
    }
}

/// Among the first `k` presets' batch coordinates, preset `p` owns exactly
/// its `n_trans` many.
proof fn lemma_coords_count(ps: Seq<MorphPreset>, k: int, p: int)
    ensures
        coords_upto(ps, k).filter(|c: (int, int)| c.0 == p).len() == if 0 <= p < k {
            n_trans(ps, p)
        } else {
            0
        },
    decreases k,
{
    let pred = |c: (int, int)| c.0 == p;
    if k <= 0 {
        lemma_filter_none(coords_upto(ps, k), pred);
    } else {
        lemma_coords_count(ps, k - 1, p);
        Seq::filter_distributes_over_add(
            coords_upto(ps, k - 1),
            preset_coords(k - 1, n_trans(ps, k - 1)),
            pred,
        );
        let tail = preset_coords(k - 1, n_trans(ps, k - 1));
        assert(n_trans(ps, k - 1) >= 1);
        if p == k - 1 {
            lemma_filter_all(tail, pred);
        } else {
            lemma_filter_none(tail, pred);
        }
    }
}

/// How long a preset's transition runs: the plan gives preset `p` exactly
/// `max(|old|, |new|)` batches — one chunk faded in or out per batch — and
/// the first preset exactly one batch.
pub proof fn lemma_preset_transition_count(ps: Seq<MorphPreset>, p: int)
    requires
        0 <= p < ps.len(),
        p == 0 || old_of(ps, p).len() > 0 || new_of(ps, p).len() > 0,
    ensures
        plan_coords(ps).filter(|c: (int, int)| c.0 == p).len() == if p == 0 {
            1int
        } else if old_of(ps, p).len() >= new_of(ps, p).len() {
            old_of(ps, p).len() as int
        } else {
            new_of(ps, p).len() as int
        },
{
    lemma_coords_count(ps, ps.len() as int, p);
}

/// Resumption skips exactly the work already done: every step strictly
/// lexicographically before the cursor coordinate is skipped, no other step
/// is, and the cursor's own step is the first that executes again.
pub proof fn lemma_resume_boundary(c: RestartIndex, p: int, t: int, s: int)
    ensures
        skip_spec(Some(c), p, t, s) == lex_less(
            p,
            t,
            s,
            c.preset as int,
            c.chunk_transition as int,
            c.strength as int,
        ),
        !skip_spec(Some(c), c.preset as int, c.chunk_transition as int, c.strength as int),
{
}

/// Relies on rand::random: draws a fresh seed. Nothing is assumed of the
/// value — callers hold for every outcome.
#[verifier::external_body]
fn random_u32() -> u32 {
    rand::random::<u32>()
}

/// Whether the step at `(p, t, s)` is skipped under the resume cursor.
pub fn should_skip(restart_index: &Option<RestartIndex>, p: usize, t: usize, s: usize) -> (r: bool)
    ensures
        r == skip_spec(*restart_index, p as int, t as int, s as int),
{
    match restart_index {
        None => false,
        Some(c) => p < c.preset || (p == c.preset && (t < c.chunk_transition || (t
            == c.chunk_transition && s < c.strength))),
    }
}

/// The image every job of the next batch starts from: the one written by
/// `batch`'s last strength step, or the previous source when the batch swept
/// nothing (an empty sweep changes no state).
pub fn batch_last_output_path(batch: &TransitionBatch, prev: &String) -> (r: String)
    ensures
        batch.steps@.len() == 0 ==> r@ == prev@,
        batch.steps@.len() > 0 ==> r@ == batch.steps@.last().output_path@,
{
    let n = batch.steps.len();
    if n == 0 {
        prev.clone()
    } else {
        batch.steps[n - 1].output_path.clone()
    }
}

/// Derives the whole run: one batch per transition step of each preset in
/// order, each holding its full strength sweep. Every field of every batch
/// is pinned to the model above, except the seed, which is only pinned where
/// the preset fixes it (otherwise it is freshly drawn per transition step).
#[verifier::loop_isolation(false)]
pub fn plan_morph(
    presets: &Vec<MorphPreset>,
    init_image_path: &String,
    restart_index: &Option<RestartIndex>,
) -> (r: Vec<TransitionBatch>)
    requires
        forall|q: int|
            0 <= q < presets@.len() ==> (#[trigger] presets@[q]).denoising_steps.steps >= 1,
    ensures
        r@.len() == plan_coords(presets@).len(),
        forall|i: int|
            0 <= i < r@.len() ==> batch_ok(
                #[trigger] r@[i],
                presets@,
                init_image_path@,
                *restart_index,
                plan_coords(presets@)[i].0,
                plan_coords(presets@)[i].1,
            ),
{
    let ghost ps = presets@;
    let ghost base = init_image_path@;
    let ghost rc = *restart_index;
    let mut result: Vec<TransitionBatch> = Vec::new();
    let empty_chunks = PromptChunks { chunks: Vec::new() };
    let n_presets = presets.len();
    let mut p: usize = 0;
    while p < n_presets
        invariant
            0 <= p <= n_presets,
            result@.len() == coords_upto(ps, p as int).len(),
            forall|i: int|
                0 <= i < result@.len() ==> batch_ok(
                    #[trigger] result@[i],
                    ps,
                    base,
                    rc,
                    coords_upto(ps, p as int)[i].0,
                    coords_upto(ps, p as int)[i].1,
                ),
        decreases n_presets - p,
    {
        let preset = &presets[p];
        let prev: &PromptChunks = if p == 0 {
            &empty_chunks
        } else {
            &presets[p - 1].prompt_chunks
        };
        proof {
            assert(prev.chunks@ == prev_chunks(ps, p as int));
        }
        let common_chunks = preset.prompt_chunks.common(prev);
        let new_chunks = preset.prompt_chunks.diff_by(prev);
        let old_chunks = prev.diff_by(&preset.prompt_chunks);
        let tcount: usize;
        if p == 0 {
            tcount = 1;
        } else {
            let o = old_chunks.len();
            let nn = new_chunks.len();
            if o == 0 && nn == 0 {
                tcount = 1;
            } else if o >= nn {
                tcount = o;
            } else {
                tcount = nn;
            }
        }
        proof {
            assert(tcount as int == n_trans(ps, p as int));
        }
        let ghost done = coords_upto(ps, p as int).len() as int;
        let mut incoming: Vec<String> = Vec::new();
        let mut outgoing: Vec<String> = old_chunks;
        let mut t: usize = 0;
        while t < tcount
            invariant
                0 <= t <= tcount,
                incoming@ == incoming_before(ps, p as int, t as int),
                outgoing@ == outgoing_before(ps, p as int, t as int),
                result@.len() == done + t,
                forall|i: int|
                    0 <= i < done ==> batch_ok(
                        #[trigger] result@[i],
                        ps,
                        base,
                        rc,
                        coords_upto(ps, p as int)[i].0,
                        coords_upto(ps, p as int)[i].1,
                    ),
                forall|i: int|
                    done <= i < result@.len() ==> batch_ok(
                        #[trigger] result@[i],
                        ps,
                        base,
                        rc,
                        p as int,
                        i - done,
                    ),
            decreases tcount - t,
        {
            // advance the chunk transition: fade one more chunk in (all of
            // them for the first preset) and the oldest remaining chunk out
            if p == 0 {
                let mut k: usize = incoming.len();
                while k < new_chunks.len()
                    invariant
                        incoming@ == new_chunks@.take(k as int),
                        0 <= k <= new_chunks@.len(),
                        k == incoming@.len(),
                    decreases new_chunks@.len() - k,
                {
                    incoming.push(new_chunks[k].clone());
                    proof {
                        assert(new_chunks@.take(k + 1) =~= new_chunks@.take(k as int).push(
                            new_chunks@[k as int],
                        ));
                    }
                    k = k + 1;
                }
                proof {
                    assert(new_chunks@.take(new_chunks@.len() as int) =~= new_chunks@);
                }
            } else {
                if incoming.len() < new_chunks.len() {
                    let idx = incoming.len();
                    incoming.push(new_chunks[idx].clone());
                    proof {
                        assert(new_of(ps, p as int).take(t + 1) =~= new_of(
                            ps,
                            p as int,
                        ).take(t as int).push(new_of(ps, p as int)[t as int]));
                    }
                } else {
                    proof {
                        assert(new_of(ps, p as int).take(new_of(ps, p as int).len() as int)
                            =~= new_of(ps, p as int));
                    }
                }
            }
            if outgoing.len() > 0 {
                outgoing.remove(0);
                proof {
                    assert(old_of(ps, p as int).skip(t as int).remove(0) =~= old_of(
                        ps,
                        p as int,
                    ).skip(t + 1));
                }
            }
            proof {
                assert(incoming@ == incoming_before(ps, p as int, t + 1));
                assert(outgoing@ == outgoing_before(ps, p as int, t + 1));
            }
            // one seed per transition step, shared by its whole sweep
            let seed: u32 = match preset.seed {
                Some(sd) => sd,
                None => random_u32(),
            };
            // the step's prompt: common, then incoming, then outgoing
            let mut all_chunks: Vec<String> = Vec::new();
            append_clones(&mut all_chunks, &common_chunks);
            append_clones(&mut all_chunks, &incoming);
            append_clones(&mut all_chunks, &outgoing);
            proof {
                assert(all_chunks@ =~= common_of(ps, p as int) + incoming_before(
                    ps,
                    p as int,
                    t + 1,
                ) + outgoing_before(ps, p as int, t + 1));
            }
            let prompt = join_chunks(&all_chunks);
            // the strength sweep
            let dinit = preset.denoising_steps.init;
            let dend = preset.denoising_steps.end;
            let dstep = preset.denoising_steps.steps;
            let ghost gi = dinit as int;
            let ghost ge = dend as int;
            let ghost gs = dstep as int;
            let mut steps_vec: Vec<PlannedStep> = Vec::new();
            let mut cur: u64 = dinit as u64;
            proof {
                assert(ps[p as int].denoising_steps.steps >= 1);
            }
            while cur <= dend as u64
                invariant
                    gs >= 1,
                    cur as int == gi + steps_vec@.len() * gs,
                    steps_vec@.len() as int + n_strengths(cur as int, ge, gs) == n_strengths(
                        gi,
                        ge,
                        gs,
                    ),
                    forall|jj: int|
                        0 <= jj < steps_vec@.len() ==> step_ok(
                            #[trigger] steps_vec@[jj],
                            ps,
                            base,
                            rc,
                            p as int,
                            t as int,
                            jj,
                        ),
                decreases (if cur as int > ge {
                    0int
                } else {
                    ge - cur as int + 1
                }),
            {
                let j = steps_vec.len();
                let output_path = step_output_path(init_image_path, p, t, j);
                let skip = should_skip(restart_index, p, t, j);
                let strength: u32 = cur as u32;
                proof {
                    lemma_n_strengths_nonneg(cur as int + gs, ge, gs);
                }
                steps_vec.push(
                    PlannedStep { strength, strength_index: j, output_path, skip },
                );
                proof {
                    assert((j as int + 1) * gs == (j as int) * gs + gs) by (nonlinear_arith);
                }
                cur = cur + dstep as u64;
            }
            proof {
                assert(n_strengths(cur as int, ge, gs) == 0);
            }
            let batch = TransitionBatch {
                preset_index: p,
                transition_index: t,
                seed,
                prompt,
                steps: steps_vec,
            };
            proof {
                assert(batch_ok(batch, ps, base, rc, p as int, t as int));
            }
            result.push(batch);
            t = t + 1;
        }
        proof {
            assert(coords_upto(ps, p + 1) == coords_upto(ps, p as int) + preset_coords(
                p as int,
                n_trans(ps, p as int),
            ));
            assert forall|i: int| 0 <= i < result@.len() implies batch_ok(
                #[trigger] result@[i],
                ps,
                base,
                rc,
                coords_upto(ps, p + 1)[i].0,
                coords_upto(ps, p + 1)[i].1,
            ) by {
                if i < done {
                    assert(coords_upto(ps, p + 1)[i] == coords_upto(ps, p as int)[i]);
                } else {
                    assert(coords_upto(ps, p + 1)[i] == preset_coords(
                        p as int,
                        n_trans(ps, p as int),
                    )[i - done]);
                    assert(coords_upto(ps, p + 1)[i].0 == p as int);
                    assert(coords_upto(ps, p + 1)[i].1 == i - done);
                }
            }
        }
        p = p + 1;
    }
    result
}

} // verus!
