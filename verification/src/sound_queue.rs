use vstd::prelude::*;

verus! {

/// An abstract cue for the audio collaborator: which effect to play.
/// Cue values carry no parameters.
#[derive(Clone, Copy, Debug, PartialEq, Eq, Structural)]
pub enum Sound {
    Clear,
    Ground,
    End,
}

/// How many cues the queue holds at most; a push onto a full queue drops the
/// cue rather than stalling the simulation.
pub const SOUND_QUEUE_CAPACITY: usize = 10;

/// What a bounded push leaves behind: the cue is appended when there is room
/// and dropped when the queue is full.
pub open spec fn enq(q: Seq<Sound>, s: Sound) -> Seq<Sound> {
    if q.len() < SOUND_QUEUE_CAPACITY as int {
        q.push(s)
    } else {
        q
    }
}

/// The queue after pushing a whole sequence of cues, first element first.
pub open spec fn enq_all(q: Seq<Sound>, cues: Seq<Sound>) -> Seq<Sound>
    decreases cues.len(),
{
    if cues.len() == 0 {
        q
    } else {
        enq_all(enq(q, cues.first()), cues.drop_first())
    }
}

/// Pushing no cues leaves the queue as it was.
pub proof fn lemma_enq_all_empty(q: Seq<Sound>)
    ensures
        enq_all(q, Seq::<Sound>::empty()) == q,
{
}

/// Pushing a single cue.
pub proof fn lemma_enq_all_one(q: Seq<Sound>, s: Sound)
    ensures
        enq_all(q, seq![s]) == enq(q, s),
{
    reveal_with_fuel(enq_all, 3);
    assert(seq![s].first() == s);
    assert(seq![s].drop_first() =~= Seq::<Sound>::empty());
}

/// Pushing one more cue after a sequence of pushes is the same as pushing
/// the extended sequence.
pub proof fn lemma_enq_all_snoc(q: Seq<Sound>, cs: Seq<Sound>, s: Sound)
    ensures
        enq_all(q, cs.push(s)) == enq(enq_all(q, cs), s),
    decreases cs.len(),
{
    reveal_with_fuel(enq_all, 3);
    if cs.len() == 0 {
        assert(cs.push(s).first() == s);
        assert(cs.push(s).drop_first() =~= Seq::<Sound>::empty());
    } else {
        assert(cs.push(s).first() == cs.first());
        assert(cs.push(s).drop_first() =~= cs.drop_first().push(s));
        lemma_enq_all_snoc(enq(q, cs.first()), cs.drop_first(), s);
    }
}

/// A bounded first-in-first-out queue of sound cues, written by the
/// simulation tick and drained by the frame loop. Cues come out in the order
/// they were pushed.
pub struct SoundQueue {
    items: Vec<Sound>,
}

impl View for SoundQueue {
    type V = Seq<Sound>;

    closed spec fn view(&self) -> Seq<Sound> {
        self.items@
    }
}

impl SoundQueue {
    pub fn new() -> (q: SoundQueue)
        ensures
            q@ == Seq::<Sound>::empty(),
    {
        let q = SoundQueue { items: Vec::new() };
        proof {
            assert(q@ =~= Seq::<Sound>::empty());
        }
        q
    }

    pub fn len(&self) -> (n: usize)
        ensures
            n == self@.len(),
    {
        self.items.len()
    }

    /// Append a cue; if the queue is already at capacity the cue is dropped.
    pub fn push(&mut self, s: Sound)
        ensures
            final(self)@ == enq(old(self)@, s),
    {
        if self.items.len() < SOUND_QUEUE_CAPACITY {
            self.items.push(s);
        }
    }

    /// Remove and return the oldest cue, or nothing when the queue is empty.
    pub fn pop(&mut self) -> (r: Option<Sound>)
        ensures
            old(self)@.len() > 0 ==> r == Some(old(self)@.first()) && final(self)@ == old(
                self,
            )@.drop_first(),
            old(self)@.len() == 0 ==> r is None && final(self)@ == old(self)@,
    {
        if self.items.len() > 0 {
            let s = self.items.remove(0);
            proof {
                assert(self@ =~= old(self)@.drop_first());
            }
            Some(s)
        } else {
            None
        }
    }
}

} // verus!
