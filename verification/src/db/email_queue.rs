use vstd::prelude::*;

verus! {

/// A batch of emails to be enqueued. Timestamps are microseconds.
#[derive(Clone, Debug)]
pub struct EmailBatch {
    pub id: i64,
    pub size: i64,
    pub sent: i64,
    pub errored: i64,
    pub created_at: i64,
    pub updated_at: i64,
}

impl EmailBatch {
    /// Whether every email of the batch has been sent or has failed, so that the batch
    /// leaves the queue.
    pub fn is_complete(&self) -> (r: bool)
        ensures
            r == (self.sent + self.errored == self.size),
    {
        self.sent as i128 + self.errored as i128 == self.size as i128
    }
}

} // verus!
