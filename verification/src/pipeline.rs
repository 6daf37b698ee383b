//! The pipeline driver's decisions: for each decoded record, in receipt
//! order, forward it (best effort), then publish it under a key derived from
//! a per-run counter; a failed publish stops the run, a failed forward never
//! does.
//!
//! Forwarding and publishing are outside work; the surrounding application
//! asks [`PipelineRun::next_action`] what to do, performs it, and reports the
//! outcome through [`PipelineRun::forward_done`] and
//! [`PipelineRun::publish_done`].  The ghost history records every
//! acknowledged publish, in order.
use crate::consumer::rec_models;
use crate::encode::{dec_digits, encode_record, json_text};
use crate::record::{DomainRecord, RecModel};
use crate::text::chars_to_string;
use vstd::prelude::*;

verus! {

/// Where the run stands for the record at hand.
#[derive(Clone, Copy, Debug, PartialEq, Eq, Structural)]
pub enum Phase {
    Forwarding,
    Publishing,
    Done,
    Failed,
}

/// What the application must do next.
pub enum RunAction {
    Forward { body: String },
    Publish { key: String, body: String },
    Finished,
    Halted,
}

/// The output key for the record at position `n`: the prefix, a dash, and
/// the zero-based sequence number.
pub open spec fn out_key(prefix: Seq<char>, n: int) -> Seq<char> {
    prefix + seq!['-'] + dec_digits(n)
}

/// The publishes a run owes: one per record, in input order, each under its
/// derived key.
pub open spec fn expected_history(prefix: Seq<char>, recs: Seq<RecModel>, n: int) -> Seq<
    (Seq<char>, RecModel),
> {
    Seq::new(n as nat, |j: int| (out_key(prefix, j), recs[j]))
}

/// One pipeline run over a fixed list of decoded records.
pub struct PipelineRun {
    pub records: Vec<DomainRecord>,
    pub prefix: String,
    pub next: usize,
    pub phase: Phase,
    pub history: Ghost<Seq<(Seq<char>, RecModel)>>,
}

impl PipelineRun {
    /// The run's records as models, in receipt order.
    pub open spec fn recs(self) -> Seq<RecModel> {
        rec_models(self.records@)
    }

    /// The run's invariant: the history holds exactly the records before
    /// `next`, under their derived keys, and the phase agrees with how far
    /// the run has come.
    pub open spec fn wf(self) -> bool {
        &&& self.next <= self.records@.len()
        &&& self.history@ == expected_history(self.prefix@, self.recs(), self.next as int)
        &&& (self.phase is Done <==> self.next == self.records@.len())
        &&& (self.phase is Forwarding || self.phase is Publishing || self.phase is Failed
            ==> self.next < self.records@.len())
    }

    /// Starts a run.  With no records the run is immediately complete, and
    /// completes without error; otherwise the first record is to be
    /// forwarded.
    pub fn new(records: Vec<DomainRecord>, prefix: String) -> (s: Self)
        ensures
            s.wf(),
            s.records == records,
            s.prefix@ == prefix@,
            s.next == 0,
            s.history@ == Seq::<(Seq<char>, RecModel)>::empty(),
            s.phase == (if records@.len() == 0 {
                Phase::Done
            } else {
                Phase::Forwarding
            }),
    {
        let phase = if records.len() == 0 {
            Phase::Done
        } else {
            Phase::Forwarding
        };
        let s = PipelineRun {
            records,
            prefix,
            next: 0,
            phase,
            history: Ghost(Seq::empty()),
        };
        proof {
            assert(s.history@ =~= expected_history(s.prefix@, s.recs(), 0));
        }
        s
    }

    /// The derived output key for the record at hand.
    fn make_key(&self) -> (k: String)
        ensures
            k@ == out_key(self.prefix@, self.next as int),
    {
        let mut out: Vec<char> = Vec::new();
        crate::encode::push_str_raw(&mut out, self.prefix.as_str());
        out.push('-');
        crate::encode::push_u64_digits(&mut out, self.next as u64);
        proof {
            assert(out@ =~= out_key(self.prefix@, self.next as int));
        }
        chars_to_string(&out)
    }

    /// What to do next.  While a record is at hand, its wire body is the
    /// canonical encoding; the publish key carries the per-run counter.  A
    /// complete run answers `Finished`; a failed one answers `Halted` and
    /// never asks for another publish.
    pub fn next_action(&self) -> (a: RunAction)
        requires
            self.wf(),
        ensures
            self.phase is Forwarding ==> (a matches RunAction::Forward { body } && body@
                == json_text(self.recs()[self.next as int])),
            self.phase is Publishing ==> (a matches RunAction::Publish { key, body } && key@
                == out_key(self.prefix@, self.next as int) && body@ == json_text(
                self.recs()[self.next as int],
            )),
            self.phase is Done ==> a is Finished,
            self.phase is Failed ==> a is Halted,
    {
        match self.phase {
            Phase::Forwarding => RunAction::Forward { body: encode_record(&self.records[self.next]) },
            Phase::Publishing => RunAction::Publish {
                key: self.make_key(),
                body: encode_record(&self.records[self.next]),
            },
            Phase::Done => RunAction::Finished,
            Phase::Failed => RunAction::Halted,
        }
    }

    /// The state after the forward attempt for the record at hand, whatever
    /// its outcome: the run moves on to publishing that record.
    pub open spec fn spec_forward_done(s: PipelineRun, delivered: bool) -> PipelineRun {
        PipelineRun { phase: Phase::Publishing, ..s }
    }

    /// Reports the forward attempt.  Forwarding is best effort: the outcome
    /// changes nothing in what the run will do.
    pub fn forward_done(&mut self, delivered: bool)
        requires
            old(self).wf(),
            old(self).phase is Forwarding,
        ensures
            *final (self) == Self::spec_forward_done(*old(self), delivered),
            final (self).wf(),
    {
        self.phase = Phase::Publishing;
    }

    /// The state after the broker's answer to the publish of the record at
    /// hand: an acknowledged publish enters the history and the run moves to
    /// the next record (or completes); anything else fails the run with the
    /// history kept as it is.
    pub open spec fn spec_publish_done(s: PipelineRun, acked: bool) -> PipelineRun {
        if acked {
            PipelineRun {
                next: (s.next + 1) as usize,
                phase: if s.next + 1 == s.records@.len() {
                    Phase::Done
                } else {
                    Phase::Forwarding
                },
                history: Ghost(
                    s.history@.push((out_key(s.prefix@, s.next as int), s.recs()[s.next as int])),
                ),
                ..s
            }
        } else {
            PipelineRun { phase: Phase::Failed, ..s }
        }
    }

    /// Reports the broker's answer to the publish of the record at hand.
    pub fn publish_done(&mut self, acked: bool)
        requires
            old(self).wf(),
            old(self).phase is Publishing,
        ensures
            *final (self) == Self::spec_publish_done(*old(self), acked),
            final (self).wf(),
    {
        if acked {
            let ghost n = self.next as int;
            proof {
                self.history@ = self.history@.push(
                    (out_key(self.prefix@, n), self.recs()[n]),
                );
            }
            proof {
                broadcast use vstd::std_specs::vec::axiom_spec_len;

                assert(self.next < self.records.len());
            }
            self.next = self.next + 1;
            self.phase = if self.next == self.records.len() {
                Phase::Done
            } else {
                Phase::Forwarding
            };
            proof {
                assert(self.history@ =~= expected_history(
                    self.prefix@,
                    self.recs(),
                    self.next as int,
                ));
            }
        } else {
            self.phase = Phase::Failed;
        }
    }
}

/// The sink never steers the run: whatever the forward attempt's outcome,
/// the run's state after it is the same, so every record still reaches the
/// output topic of a completed run.
pub proof fn lemma_forward_best_effort(s: PipelineRun, d1: bool, d2: bool)
    ensures
        PipelineRun::spec_forward_done(s, d1) == PipelineRun::spec_forward_done(s, d2),
{
}

/// One record's complete turn: the forward attempt with the given outcome,
/// then a publish that the broker acknowledges.
pub open spec fn spec_record_turn(s: PipelineRun, delivered: bool) -> PipelineRun {
    PipelineRun::spec_publish_done(PipelineRun::spec_forward_done(s, delivered), true)
}

/// The run's state after every remaining record takes its turn, with the
/// given sink outcomes, every publish acknowledged.
pub open spec fn spec_run_acked(s: PipelineRun, fwd: Seq<bool>) -> PipelineRun
    decreases s.records@.len() - s.next,
{
    if s.phase is Forwarding && s.next < s.records@.len() {
        let s2 = spec_record_turn(
            s,
            if fwd.len() > 0 {
                fwd[0]
            } else {
                true
            },
        );
        if s.next < s2.next <= s.records@.len() {
            spec_run_acked(s2, fwd.skip(1))
        } else {
            s2
        }
    } else {
        s
    }
}

/// A run whose publishes are all acknowledged ends in the same state for any
/// two sequences of sink outcomes: an unreachable sink changes nothing.
pub proof fn lemma_run_sink_blind(s: PipelineRun, f1: Seq<bool>, f2: Seq<bool>)
    ensures
        spec_run_acked(s, f1) == spec_run_acked(s, f2),
    decreases s.records@.len() - s.next,
{
    if s.phase is Forwarding && s.next < s.records@.len() {
        let s2a = spec_record_turn(
            s,
            if f1.len() > 0 {
                f1[0]
            } else {
                true
            },
        );
        let s2b = spec_record_turn(
            s,
            if f2.len() > 0 {
                f2[0]
            } else {
                true
            },
        );
        assert(s2a == s2b);
        if s.next < s2a.next <= s.records@.len() {
            lemma_run_sink_blind(s2a, f1.skip(1), f2.skip(1));
        }
    }
}

/// A run with N consumable records whose publishes are all acknowledged
/// completes, publishing exactly N times, the record at position `j` under
/// key `prefix-j`, in input order — whatever the sink did.
pub proof fn lemma_run_acked_completes(s: PipelineRun, fwd: Seq<bool>)
    requires
        s.wf(),
        s.phase is Forwarding || s.phase is Done,
    ensures
        ({
            let e = spec_run_acked(s, fwd);
            &&& e.wf()
            &&& e.phase is Done
            &&& e.recs() == s.recs()
            &&& e.prefix == s.prefix
            &&& e.history@.len() == s.recs().len()
            &&& forall|j: int|
                0 <= j < s.recs().len() ==> e.history@[j] == (out_key(s.prefix@, j), s.recs()[j])
        }),
    decreases s.records@.len() - s.next,
{
    if s.phase is Done {
    } else {
        let d = if fwd.len() > 0 {
            fwd[0]
        } else {
            true
        };
        let s1 = PipelineRun::spec_forward_done(s, d);
        assert(s1.wf());
        let s2 = PipelineRun::spec_publish_done(s1, true);
        vstd::std_specs::vec::axiom_spec_len(&s.records);
        assert(s2.next as int == s.next + 1);
        assert(s2.history@ =~= expected_history(s2.prefix@, s2.recs(), s2.next as int));
        assert(s2.wf());
        lemma_run_acked_completes(s2, fwd.skip(1));
    }
}

/// A completed run has published every record, exactly once each, in input
/// order, under the keys derived from the counter: the record at position
/// `j` under key `prefix-j`.
pub proof fn lemma_completed_run(s: PipelineRun)
    requires
        s.wf(),
        s.phase is Done,
    ensures
        s.history@.len() == s.recs().len(),
        forall|j: int|
            0 <= j < s.recs().len() ==> s.history@[j] == (out_key(s.prefix@, j), s.recs()[j]),
{
}

/// A failed run has already durably published exactly the records before the
/// failed one, in input order; the failed record and those after it are not
/// in the history, and the run asks for no further publishes.
pub proof fn lemma_failed_run(s: PipelineRun)
    requires
        s.wf(),
        s.phase is Failed,
    ensures
        s.history@.len() == s.next < s.recs().len(),
        forall|j: int| 0 <= j < s.next ==> s.history@[j] == (out_key(s.prefix@, j), s.recs()[j]),
{
}

} // verus!
