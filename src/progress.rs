use vstd::prelude::*;
use crate::geometry::GeometryError;

verus! {

/// Whether an event concerns the whole run or one step inside it.
#[derive(PartialEq, Eq, Structural, Clone, Copy, Debug)]
pub enum Level {
    Main,
    Module,
}

#[derive(PartialEq, Eq, Structural, Clone, Copy, Debug)]
pub enum Kind {
    Info,
    Error,
    Success,
}

/// What an event reports. Partition and record numbers count from one.
/// A `reason` is the description of the failure that the storage or the
/// filesystem layer gave.
#[derive(Clone, Debug, PartialEq, Eq)]
pub enum Message {
    StorageUnavailable { reason: String },
    ProcessingPartition { index: u64, total: u64 },
    GeometryFailed { partition: u64, error: GeometryError },
    UnsupportedType { partition: u64 },
    MissingPartitionId { partition: u64 },
    DetectionFailed { partition: u64, reason: String },
    IndexCreationFailed { reason: String },
    TreeBuildFailed { partition: u64, reason: String },
    Ingesting,
    InsertFailed { record: u64, reason: String },
    Indexed { processed: u64, total: u64 },
    IngestionFailed { reason: String },
    IngestionComplete,
    StatusUpdateFailed { reason: String },
    RunComplete,
}

/// One notification for the observer of a run.
#[derive(Clone, Debug, PartialEq, Eq)]
pub struct ProgressEvent {
    pub evidence_id: i64,
    pub level: Level,
    pub kind: Kind,
    pub message: Message,
}

/// The event with the given fields.
pub open spec fn event(evidence_id: i64, level: Level, kind: Kind, message: Message) -> ProgressEvent {
    ProgressEvent { evidence_id, level, kind, message }
}

/// The number of events of `evs` with the given level and kind.
pub open spec fn count_of(evs: Seq<ProgressEvent>, level: Level, kind: Kind) -> nat
    decreases evs.len(),
{
    if evs.len() == 0 {
        0
    } else {
        count_of(evs.drop_last(), level, kind) + if evs.last().level == level && evs.last().kind
            == kind {
            1nat
        } else {
            0nat
        }
    }
}

/// The partition numbers announced by the "processing partition" events of
/// `evs`, in the order of the events.
pub open spec fn announcements(evs: Seq<ProgressEvent>) -> Seq<u64>
    decreases evs.len(),
{
    if evs.len() == 0 {
        Seq::empty()
    } else {
        announcements(evs.drop_last()) + match evs.last().message {
            Message::ProcessingPartition { index, .. } => if evs.last().level == Level::Main
                && evs.last().kind == Kind::Info {
                seq![index]
            } else {
                Seq::empty()
            },
            _ => Seq::empty(),
        }
    }
}

/// The numbers one to `n`, in increasing order.
pub open spec fn one_to(n: nat) -> Seq<u64> {
    Seq::new(n, |i: int| (i + 1) as u64)
}

/// Counting events distributes over concatenation.
pub proof fn lemma_count_of_concat(a: Seq<ProgressEvent>, b: Seq<ProgressEvent>, level: Level, kind: Kind)
    ensures
        count_of(a + b, level, kind) == count_of(a, level, kind) + count_of(b, level, kind),
    decreases b.len(),
{
    if b.len() == 0 {
        assert(a + b =~= a);
    } else {
        assert((a + b).drop_last() =~= a + b.drop_last());
        lemma_count_of_concat(a, b.drop_last(), level, kind);
    }
}

} // verus!
