use vstd::prelude::*;

use std::collections::VecDeque;

use crate::records::{RecordView, TxError, TxReceipt, TxRecord};

verus! {

/// The records that failed to reach the history canister, oldest first.
#[derive(Debug)]
pub struct TxLog {
    pub ie_records: VecDeque<TxRecord>,
}

impl View for TxLog {
    type V = Seq<RecordView>;

    open spec fn view(&self) -> Seq<RecordView> {
        self.ie_records@.map_values(|r: TxRecord| r@)
    }
}

impl TxLog {
    /// An empty log.
    pub fn new() -> (l: TxLog)
        ensures
            l@ == Seq::<RecordView>::empty(),
    {
        let l = TxLog { ie_records: VecDeque::new() };
        assert(l@ =~= Seq::<RecordView>::empty());
        l
    }
}

/// The records to send to the history canister, in this order: first an older
/// record that had failed to reach it, if there is one, then the new record.
#[derive(Debug)]
pub struct CapInsertPlan {
    pub retry: Option<TxRecord>,
    pub event: TxRecord,
}

/// Prepares sending `ie` to the history canister: the oldest record of the log
/// is taken out of it, to be sent again before `ie`.
pub fn insert_into_cap(log: &mut TxLog, ie: TxRecord) -> (plan: CapInsertPlan)
    ensures
        plan.event@ == ie@,
        old(log)@.len() == 0 ==> plan.retry is None && final(log)@ == old(log)@,
        old(log)@.len() > 0 ==> {
            &&& plan.retry matches Some(r)
            &&& r@ == old(log)@[0]
            &&& final(log)@ == old(log)@.drop_first()
        },
{
    let retry = log.ie_records.pop_front();
    proof {
        assert(log@ =~= old(log)@.subrange(1, old(log)@.len() as int) || log@ == old(log)@);
        if old(log)@.len() > 0 {
            assert(log@ =~= old(log)@.drop_first());
        }
    }
    CapInsertPlan { retry, event: ie }
}

/// The history canister answered the sending of `ie`: the id it gave the
/// record, or nothing when the call failed. A record that failed is kept at
/// the end of the log.
pub fn insert_into_cap_priv(log: &mut TxLog, ie: TxRecord, inserted: Option<u64>) -> (r: TxReceipt)
    ensures
        match inserted {
            Some(id) => r == Ok::<usize, TxError>(id as usize) && final(log)@ == old(log)@,
            None => r == Err::<usize, TxError>(TxError::Other) && final(log)@ == old(log)@.push(ie@),
        },
{
    match inserted {
        Some(id) => Ok(id as usize),
        None => {
            log.ie_records.push_back(ie);
            assert(log@ =~= old(log)@.push(ie@));
            Err(TxError::Other)
        },
    }
}

} // verus!
