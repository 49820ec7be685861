use vstd::prelude::*;

use crate::correction::{correction_spec, get_correction, Config};
use crate::cue::{Cue, Timestamp};
use crate::rewrite::{rewrite_cue_text, rewritten};
use crate::sampler::{resolve_sample, FailurePolicy, SampleError};

verus! {

/// Why a caption track cannot be processed.
#[derive(Clone, Copy, Debug, PartialEq, Eq, Structural)]
pub enum PipelineError {
    /// The track holds no cue.
    NoCues,
}

/// Cue `k` keeps its times and text and is numbered `k + 1`.
pub open spec fn numbered_from_one(cues: Seq<Cue>) -> bool {
    forall|k: int| 0 <= k < cues.len() ==> (#[trigger] cues[k]).num == k + 1
}

/// Gives the cues the numbers 1, 2, 3, ... in their order; times and texts
/// stay as they were.
pub fn renumber(cues: &mut Vec<Cue>)
    requires
        old(cues)@.len() < usize::MAX,
    ensures
        final(cues)@.len() == old(cues)@.len(),
        numbered_from_one(final(cues)@),
        forall|k: int| 0 <= k < old(cues)@.len() ==> {
            &&& (#[trigger] final(cues)@[k]).start == old(cues)@[k].start
            &&& final(cues)@[k].end == old(cues)@[k].end
            &&& final(cues)@[k].text@ == old(cues)@[k].text@
        },
{
    let n = cues.len();
    let mut i: usize = 0;
    while i < n
        invariant
            n == old(cues)@.len(),
            cues@.len() == n,
            n < usize::MAX,
            0 <= i <= n,
            forall|k: int| 0 <= k < i ==> (#[trigger] cues@[k]).num == k + 1,
            forall|k: int| 0 <= k < n ==> {
                &&& (#[trigger] cues@[k]).start == old(cues)@[k].start
                &&& cues@[k].end == old(cues)@[k].end
                &&& cues@[k].text@ == old(cues)@[k].text@
            },
        decreases n - i,
    {
        cues[i].num = i + 1;
        i = i + 1;
    }
}

/// Puts a cue holding `text` before the first cue, from time zero until the
/// first cue starts, and numbers all cues 1, 2, 3, ... in their new order. A
/// track without cues is refused and left as it is.
pub fn prepend_watermark(cues: &mut Vec<Cue>, text: String) -> (r: Result<(), PipelineError>)
    requires
        old(cues)@.len() < usize::MAX - 1,
    ensures
        old(cues)@.len() == 0 <==> r == Err::<(), PipelineError>(PipelineError::NoCues),
        old(cues)@.len() == 0 ==> final(cues)@ == old(cues)@,
        old(cues)@.len() > 0 ==> {
            &&& final(cues)@.len() == old(cues)@.len() + 1
            &&& numbered_from_one(final(cues)@)
            &&& final(cues)@[0].start == (Timestamp { hours: 0, minutes: 0, seconds: 0, milliseconds: 0 })
            &&& final(cues)@[0].end == old(cues)@[0].start
            &&& final(cues)@[0].text@ == text@
            &&& forall|k: int| 0 <= k < old(cues)@.len() ==> {
                &&& (#[trigger] final(cues)@[k + 1]).start == old(cues)@[k].start
                &&& final(cues)@[k + 1].end == old(cues)@[k].end
                &&& final(cues)@[k + 1].text@ == old(cues)@[k].text@
            }
        },
{
    if cues.len() == 0 {
        return Err(PipelineError::NoCues);
    }
    let first_start = cues[0].start;
    let mark = Cue {
        num: 0,
        start: Timestamp { hours: 0, minutes: 0, seconds: 0, milliseconds: 0 },
        end: first_start,
        text,
    };
    cues.insert(0, mark);
    let ghost inserted = cues@;
    renumber(cues);
    assert forall|k: int| 0 <= k < old(cues)@.len() implies {
        &&& (#[trigger] cues@[k + 1]).start == old(cues)@[k].start
        &&& cues@[k + 1].end == old(cues)@[k].end
        &&& cues@[k + 1].text@ == old(cues)@[k].text@
    } by {
        assert(inserted[k + 1] == old(cues)@[k]);
    }
    Ok(())
}

/// Rewrites a cue's text for a frame of the given brightness (in thousandths of
/// a luma level), and returns the correction that was applied.
pub fn correct_cue(cue: &mut Cue, brightness: u32, config: &Config) -> (r: i32)
    requires
        config.wf(),
    ensures
        r as int == correction_spec(brightness as int, config.midpoint as int, config.coefficient as int),
        final(cue).text@ == rewritten(old(cue).text@, r as int, config.default_color),
        final(cue).num == old(cue).num,
        final(cue).start == old(cue).start,
        final(cue).end == old(cue).end,
{
    let correction = get_correction(brightness, config);
    cue.text = rewrite_cue_text(cue.text.as_str(), correction, config.default_color);
    correction
}

/// One step of a run for one cue: given what sampling its frame gave, either
/// stops with the error (under `FailFast`) or rewrites the cue for the sampled
/// brightness, or for the midpoint where sampling failed under
/// `SubstituteDefault`. A cue is left as it is where the run stops.
pub fn process_cue(cue: &mut Cue, sample: Result<u32, SampleError>, policy: FailurePolicy, config: &Config) -> (r: Result<i32, SampleError>)
    requires
        config.wf(),
    ensures
        final(cue).num == old(cue).num,
        final(cue).start == old(cue).start,
        final(cue).end == old(cue).end,
        sample is Err && policy == FailurePolicy::FailFast ==> r == Err::<i32, SampleError>(sample->Err_0)
            && final(cue).text@ == old(cue).text@,
        !(sample is Err && policy == FailurePolicy::FailFast) ==> {
            let b = if sample is Ok { sample->Ok_0 } else { config.midpoint };
            &&& r is Ok
            &&& r->Ok_0 as int == correction_spec(b as int, config.midpoint as int, config.coefficient as int)
            &&& final(cue).text@ == rewritten(old(cue).text@, r->Ok_0 as int, config.default_color)
        },
{
    match resolve_sample(policy, sample, config) {
        Ok(b) => Ok(correct_cue(cue, b, config)),
        Err(e) => Err(e),
    }
}

} // verus!
