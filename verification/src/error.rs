//! Why an operation on the store is refused.

use vstd::prelude::*;
use vstd::string::StringExecFns;

use crate::consumer_id::ConsumerId;

verus! {

/// A refusal, and what it is about.
#[derive(Debug, PartialEq, Eq)]
pub enum StoreError {
    /// No group is stored under the id of which the lowest common slot is asked.
    ConsumerGroupNotFound,
    /// No group is stored under the id whose members' offsets are to be set.
    ConsumerGroupDoesNotExist,
    /// The caller's revision, which is behind the stored one.
    StaleRevision(i64),
    /// The stored group is of a later revision than the operation.
    ConsumerGroupMoreUpToDate,
    /// The group does not read from the producer that the operation names.
    ProducerMismatch,
    /// The producer of a group was not replaced.
    ProducerNotUpdated,
    /// The offsets of this member were neither inserted nor updated.
    ShardOffsetNotUpdated(ConsumerId),
    /// No member has an offset for what the group subscribes to.
    NoShardOffset,
}

/// The text of a refusal other than a stale revision, which carries a number in place of a text.
pub open spec fn error_text(e: StoreError) -> Seq<char> {
    match e {
        StoreError::ConsumerGroupNotFound => "consumer group id not found"@,
        StoreError::ConsumerGroupDoesNotExist => "consumer group does not exists"@,
        StoreError::StaleRevision(_) => Seq::empty(),
        StoreError::ConsumerGroupMoreUpToDate =>
            "consumer group is more up to date then current operation"@,
        StoreError::ProducerMismatch => "producer id does not match the consumer group"@,
        StoreError::ProducerNotUpdated => "failed to update consumer group producer"@,
        StoreError::ShardOffsetNotUpdated(id) => "failed to update "@ + id@ + " shard offset"@,
        StoreError::NoShardOffset => "found not shard offset map content"@,
    }
}

impl StoreError {
    /// The text to report.
    pub fn message(&self) -> (text: String)
        requires
            !(self is StaleRevision),
        ensures
            text@ == error_text(*self),
    {
        match self {
            StoreError::ConsumerGroupNotFound => "consumer group id not found".to_string(),
            StoreError::ConsumerGroupDoesNotExist => "consumer group does not exists".to_string(),
            StoreError::StaleRevision(_) => String::new(),
            StoreError::ConsumerGroupMoreUpToDate =>
                "consumer group is more up to date then current operation".to_string(),
            StoreError::ProducerMismatch =>
                "producer id does not match the consumer group".to_string(),
            StoreError::ProducerNotUpdated =>
                "failed to update consumer group producer".to_string(),
            StoreError::ShardOffsetNotUpdated(id) =>
                "failed to update ".to_string().concat(id.as_str()).concat(" shard offset"),
            StoreError::NoShardOffset => "found not shard offset map content".to_string(),
        }
    }
}

/// The refusal that a member was not updated names the member in full.
pub proof fn refusal_of_a_member_names_it(e: &StoreError, text: String)
    requires
        e is ShardOffsetNotUpdated,
        call_ensures(StoreError::message, (e,), text),
    ensures
        text@ == "failed to update "@ + e->ShardOffsetNotUpdated_0@ + " shard offset"@,
{
}

} // verus!
