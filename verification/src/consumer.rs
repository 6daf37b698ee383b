//! The consumer loop's decisions: draining polled message batches into
//! decoded records, with fail-fast decoding and the commit policy.
//!
//! Polling the broker is outside work; the surrounding application polls and
//! hands each message group to [`Drain::drain_group`], stopping at the first
//! empty poll.  Everything the loop decides — order, fail-fast, when a group
//! may be committed — is specified here.
use crate::decode::{decode_record, decode_spec, DecodeError};
use crate::record::{DomainRecord, RecModel};
use vstd::prelude::*;

verus! {

/// One raw consumed record: an opaque diagnostic key and the value bytes.
pub struct RawMessage {
    pub key: Vec<u8>,
    pub value: Vec<u8>,
}

/// A decode failure inside a batch, naming the offending record's key.
#[derive(Debug)]
pub struct DrainError {
    pub key: Vec<u8>,
    pub kind: DecodeError,
}

/// A record vector as models, element for element.
pub open spec fn rec_models(rs: Seq<DomainRecord>) -> Seq<RecModel> {
    rs.map_values(|r: DomainRecord| r@)
}

/// The records of a batch, decoded, in the broker's order.
pub open spec fn decoded_batch(batch: Seq<RawMessage>) -> Seq<RecModel> {
    Seq::new(batch.len(), |j: int| decode_spec(batch[j].value@)->Ok_0)
}

/// Every record of the batch decodes.
pub open spec fn batch_all_ok(batch: Seq<RawMessage>) -> bool {
    forall|j: int| 0 <= j < batch.len() ==> decode_spec(#[trigger] batch[j].value@) is Ok
}

/// State of one poll-and-drain call: the records gathered so far, and whether
/// groups are to be marked consumed as they are drained.
pub struct Drain {
    pub auto_commit: bool,
    pub records: Vec<DomainRecord>,
}

impl Drain {
    /// The gathered records as models, in receipt order.
    pub open spec fn recs(self) -> Seq<RecModel> {
        rec_models(self.records@)
    }

    /// A fresh drain with no records gathered.
    pub fn new(auto_commit: bool) -> (s: Self)
        ensures
            s.auto_commit == auto_commit,
            s.recs() == Seq::<RecModel>::empty(),
    {
        let s = Drain { auto_commit, records: Vec::new() };
        proof {
            assert(s.recs() =~= Seq::<RecModel>::empty());
        }
        s
    }

    /// Drains one polled message group.  If every record decodes, they are
    /// all appended in the broker's order and the caller is told whether to
    /// mark the group consumed — exactly when `auto_commit` is set, and only
    /// after the whole group has decoded.  If any record fails, the state is
    /// left untouched, nothing may be committed, and the error names the
    /// first offending record's key.
    #[verifier::rlimit(100)]
    #[verifier::spinoff_prover]
    pub fn drain_group(&mut self, batch: &Vec<RawMessage>) -> (r: Result<bool, DrainError>)
        ensures
            final (self).auto_commit == old(self).auto_commit,
            r matches Ok(commit) ==> commit == old(self).auto_commit && batch_all_ok(batch@)
                && final (self).recs() == old(self).recs() + decoded_batch(batch@),
            r matches Err(err) ==> final (self).records == old(self).records && exists|j: int|
                {
                    &&& 0 <= j < batch@.len()
                    &&& (forall|k: int|
                        0 <= k < j ==> decode_spec(#[trigger] batch@[k].value@) is Ok)
                    &&& decode_spec(batch@[j].value@) == Err::<RecModel, DecodeError>(err.kind)
                    &&& err.key@ == batch@[j].key@
                },
    {
        let mut gathered: Vec<DomainRecord> = Vec::new();
        let mut idx: usize = 0;
        while idx < batch.len()
            invariant
                idx <= batch.len(),
                forall|k: int| 0 <= k < idx ==> decode_spec(#[trigger] batch@[k].value@) is Ok,
                rec_models(gathered@) == decoded_batch(batch@.subrange(0, idx as int)),
            decreases batch.len() - idx,
        {
            match decode_record(&batch[idx].value) {
                Ok(rec) => {
                    proof {
                        assert(rec_models(gathered@).len() == gathered@.len());
                        assert(decoded_batch(batch@.subrange(0, idx as int)).len() == idx as int);
                        assert(gathered@.len() == idx as int);
                    }
                    gathered.push(rec);
                    proof {
                        assert(rec_models(gathered@).len() == gathered@.len());
                        assert(rec_models(gathered@) == gathered@.map_values(
                            |r: DomainRecord| r@,
                        ));
                        assert(gathered@.len() == idx + 1);
                        assert forall|j: int| 0 <= j < idx + 1 implies rec_models(gathered@)[j]
                            == decoded_batch(batch@.subrange(0, idx as int + 1))[j] by {
                            assert(batch@.subrange(0, idx as int + 1)[j] == batch@[j]);
                            if j < idx {
                                assert(rec_models(gathered@)[j] == gathered@[j]@);
                                assert(decoded_batch(batch@.subrange(0, idx as int))[j]
                                    == decode_spec(batch@[j].value@)->Ok_0);
                            } else {
                                assert(rec_models(gathered@)[j] == rec@);
                            }
                        }
                        assert(rec_models(gathered@) =~= decoded_batch(
                            batch@.subrange(0, idx as int + 1),
                        ));
                    }
                },
                Err(kind) => {
                    let bad = copy_bytes(&batch[idx].key);
                    return Err(DrainError { key: bad, kind });
                },
            }
            idx += 1;
        }
        let ghost before = self.records@;
        self.records.append(&mut gathered);
        proof {
            assert(batch@.subrange(0, batch@.len() as int) =~= batch@);
            assert forall|j: int| 0 <= j < self.records@.len() implies rec_models(
                self.records@,
            )[j] == (rec_models(before) + decoded_batch(batch@))[j] by {
                assert(rec_models(self.records@)[j] == self.records@[j]@);
                if j < before.len() {
                    assert(rec_models(before)[j] == before[j]@);
                }
            }
            assert(rec_models(self.records@) =~= rec_models(before) + decoded_batch(batch@));
        }
        Ok(self.auto_commit)
    }

    /// Hands the gathered records over, ending the drain.
    pub fn finish(self) -> (r: Vec<DomainRecord>)
        ensures
            rec_models(r@) == self.recs(),
    {
        self.records
    }
}

fn copy_bytes(src: &Vec<u8>) -> (r: Vec<u8>)
    ensures
        r@ == src@,
{
    let mut out: Vec<u8> = Vec::new();
    let mut i: usize = 0;
    while i < src.len()
        invariant
            i <= src.len(),
            out@ == src@.subrange(0, i as int),
        decreases src.len() - i,
    {
        out.push(src[i]);
        proof {
            assert(src@.subrange(0, i as int + 1) =~= src@.subrange(0, i as int).push(
                src@[i as int],
            ));
        }
        i += 1;
    }
    proof {
        assert(src@.subrange(0, src@.len() as int) =~= src@);
    }
    out
}

} // verus!
