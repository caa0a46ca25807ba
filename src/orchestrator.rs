use vstd::prelude::*;
use crate::geometry::{
    fits_u64, prepare_partition, prepare_spec, ByteWindow, FsKind, GeometryError, PartitionDescriptor,
    PartitionError, PartitionLayout,
};
use crate::progress::{
    announcements, count_of, event, lemma_count_of_concat, one_to, Kind, Level, Message,
    ProgressEvent,
};
use crate::tree::{node_count, normalize, preorder, records_of, FsNode, IngestionRecord};

verus! {

/// The evidence status written once every partition has been attempted.
pub const STATUS_DONE: i64 = 3;

/// Where a run stands: which outside result it waits for.
#[derive(PartialEq, Eq, Structural, Clone, Copy, Debug)]
pub enum Phase {
    Opening,
    Detecting,
    Indexing,
    Building,
    Beginning,
    Inserting,
    Committing,
    Finalizing,
    Finished,
}

/// The outside work that the driver of a run performs next, and whose
/// result it hands to the matching method.
#[derive(PartialEq, Eq, Structural, Clone, Copy, Debug)]
pub enum Action {
    /// Open the storage handle (`on_storage`).
    OpenStorage,
    /// Open the filesystem found in `window` with the parser of `kind`
    /// (`on_detection`).
    Detect { window: ByteWindow, kind: FsKind },
    /// Create the lookup indexes of the file table if absent (`on_indexes`).
    CreateIndexes,
    /// Walk the opened filesystem into a tree (`on_tree`).
    BuildTree,
    /// Begin the partition's transaction (`on_begin`).
    BeginTransaction,
    /// Insert the row `record` of `rows` (`on_insert`).
    Insert { record: usize },
    /// Commit the partition's transaction (`on_commit`).
    Commit,
    /// Write `status` for the evidence (`on_status`).
    UpdateStatus { evidence_id: i64, status: i64 },
    /// Nothing is left to do.
    Stop,
}

/// What one decision of a run yields: the events to deliver, in order, and
/// the next action.
#[derive(Debug)]
pub struct Step {
    pub events: Vec<ProgressEvent>,
    pub action: Action,
}

/// The decisions of one processing run over the partitions of one piece of
/// evidence. The driver performs each action it is handed and reports the
/// outcome to the method that the action names; partitions are taken one
/// after another, in the order given.
pub struct Orchestrator {
    pub evidence_id: i64,
    pub partitions: Vec<PartitionDescriptor>,
    pub sector_size: u64,
    pub phase: Phase,
    /// How many partitions have been announced; while one is in progress it
    /// is the last of them.
    pub announced: usize,
    /// The identifier of the partition in progress.
    pub partition_id: i64,
    /// The rows of the partition in progress.
    pub rows: Vec<IngestionRecord>,
    /// How many rows of the partition in progress were attempted.
    pub processed: usize,
    /// Every event handed out so far.
    pub log: Ghost<Seq<ProgressEvent>>,
    /// The outcome of each attempted insert of the partition in progress.
    pub results: Ghost<Seq<Result<(), String>>>,
    /// Where the events of the partition's inserts start in the log.
    pub batch_start: Ghost<int>,
}

/// The event that announces partition `k` (counted from zero) of `n`.
pub open spec fn announce(evidence_id: i64, k: int, n: int) -> ProgressEvent {
    event(
        evidence_id,
        Level::Main,
        Kind::Info,
        Message::ProcessingPartition { index: (k + 1) as u64, total: n as u64 },
    )
}

/// The report of partition number `partition` skipped for `e`.
pub open spec fn skip_message(partition: u64, e: PartitionError) -> Message {
    match e {
        PartitionError::Geometry(g) => Message::GeometryFailed { partition, error: g },
        PartitionError::UnsupportedType => Message::UnsupportedType { partition },
        PartitionError::MissingId => Message::MissingPartitionId { partition },
    }
}

/// The index of the first partition from `i` on that can be opened, or the
/// number of partitions if none can.
pub open spec fn first_ready(parts: Seq<PartitionDescriptor>, sector_size: u64, i: int) -> int
    decreases parts.len() - i,
{
    if i >= parts.len() {
        parts.len() as int
    } else if prepare_spec(parts[i], sector_size) is Ok {
        i
    } else {
        first_ready(parts, sector_size, i + 1)
    }
}

/// The events of the partitions `i` to `j - 1`, each announced and then
/// skipped with the reason its checks gave.
pub open spec fn skipped_events(
    evidence_id: i64,
    parts: Seq<PartitionDescriptor>,
    sector_size: u64,
    i: int,
    j: int,
) -> Seq<ProgressEvent>
    decreases j - i,
{
    if j <= i {
        Seq::empty()
    } else {
        skipped_events(evidence_id, parts, sector_size, i, j - 1) + seq![
            announce(evidence_id, j - 1, parts.len() as int),
            event(
                evidence_id,
                Level::Module,
                Kind::Error,
                skip_message(j as u64, prepare_spec(parts[j - 1], sector_size)->Err_0),
            ),
        ]
    }
}

/// The events of moving on from the partitions that `o` has announced: the
/// partitions that cannot be opened are announced and skipped, then the
/// next that can be opened, if any, is announced.
pub open spec fn advance_events(o: Orchestrator) -> Seq<ProgressEvent> {
    let i = o.announced as int;
    let n = o.total();
    let j = first_ready(o.partitions@, o.sector_size, i);
    skipped_events(o.evidence_id, o.partitions@, o.sector_size, i, j) + if j < n {
        seq![announce(o.evidence_id, j, n)]
    } else {
        Seq::empty()
    }
}

/// `p` is `o` moved on to the next partition that can be opened, which
/// `action` asks to detect; or, when none is left, to the final status
/// write.
pub open spec fn advanced(o: Orchestrator, p: Orchestrator, action: Action) -> bool {
    let n = o.total();
    let j = first_ready(o.partitions@, o.sector_size, o.announced as int);
    &&& p.same_run(&o)
    &&& p.rows@.len() == 0
    &&& p.processed == 0
    &&& if j < n {
        let t = prepare_spec(o.partitions@[j], o.sector_size)->Ok_0;
        &&& p.phase == Phase::Detecting
        &&& p.announced == j + 1
        &&& p.partition_id == t.partition_id
        &&& action == Action::Detect { window: t.window, kind: t.kind }
    } else {
        &&& p.phase == Phase::Finalizing
        &&& p.announced == n
        &&& action == Action::UpdateStatus { evidence_id: o.evidence_id, status: STATUS_DONE }
    }
}

/// The events of the insert of row `k` (counted from zero) out of `total`:
/// an error if it failed, then the count of rows attempted so far.
pub open spec fn insert_events(evidence_id: i64, k: int, total: int, outcome: Result<(), String>) -> Seq<
    ProgressEvent,
> {
    let progress = event(
        evidence_id,
        Level::Module,
        Kind::Info,
        Message::Indexed { processed: (k + 1) as u64, total: total as u64 },
    );
    match outcome {
        Ok(()) => seq![progress],
        Err(reason) => seq![
            event(
                evidence_id,
                Level::Module,
                Kind::Error,
                Message::InsertFailed { record: (k + 1) as u64, reason },
            ),
            progress,
        ],
    }
}

/// The events of the inserts whose outcomes are `results`, in order, for a
/// partition of `total` rows.
pub open spec fn batch_events(evidence_id: i64, total: int, results: Seq<Result<(), String>>) -> Seq<
    ProgressEvent,
>
    decreases results.len(),
{
    if results.len() == 0 {
        Seq::empty()
    } else {
        batch_events(evidence_id, total, results.drop_last()) + insert_events(
            evidence_id,
            results.len() - 1,
            total,
            results.last(),
        )
    }
}

/// How far a phase is from the end of a partition, and of the run.
pub open spec fn stage(p: Phase) -> int {
    match p {
        Phase::Finished => 0,
        Phase::Finalizing => 1,
        Phase::Committing => 2,
        Phase::Inserting => 3,
        Phase::Beginning => 4,
        Phase::Building => 5,
        Phase::Indexing => 6,
        Phase::Detecting => 7,
        Phase::Opening => 8,
    }
}

impl Orchestrator {
    /// `self` is strictly nearer the end of the run than `other`: fewer
    /// partitions are left, or as many and an earlier stage, or the same
    /// stage and fewer rows left to insert.
    pub open spec fn nearer_end_than(&self, other: &Orchestrator) -> bool {
        let a = self.total() - self.announced;
        let b = other.total() - other.announced;
        ||| a < b
        ||| a == b && stage(self.phase) < stage(other.phase)
        ||| a == b && self.phase == other.phase && self.rows@.len() - self.processed < other.rows@.len()
            - other.processed
    }

    /// The number of partitions of the run.
    pub open spec fn total(&self) -> int {
        self.partitions@.len() as int
    }

    /// The run's invariant: the counts fit, the partitions were announced one
    /// to `announced` in order, and the log since the partition's
    /// transaction began holds exactly the events of its inserts.
    pub open spec fn wf(&self) -> bool {
        &&& self.inv_core()
        &&& (self.phase == Phase::Inserting || self.phase == Phase::Committing) ==> {
            &&& 0 <= self.batch_start@ <= self.log@.len()
            &&& self.log@.subrange(self.batch_start@, self.log@.len() as int) == batch_events(
                self.evidence_id,
                self.rows@.len() as int,
                self.results@,
            )
        }
    }

    /// The part of the invariant that holds between any two events.
    pub open spec fn inv_core(&self) -> bool {
        &&& self.partitions@.len() <= u64::MAX
        &&& self.announced <= self.partitions@.len()
        &&& announcements(self.log@) == one_to(self.announced as nat)
        &&& self.phase == Phase::Finalizing ==> self.announced == self.partitions@.len()
        &&& self.in_partition() ==> self.announced >= 1
        &&& self.processed <= self.rows@.len()
        &&& self.results@.len() == self.processed
        &&& self.phase == Phase::Inserting ==> self.processed < self.rows@.len()
        &&& self.phase == Phase::Committing ==> self.processed == self.rows@.len()
        &&& self.in_partition() ==> {
            &&& prepare_spec(self.partitions@[self.announced - 1], self.sector_size) is Ok
            &&& self.partition_id == prepare_spec(
                self.partitions@[self.announced - 1],
                self.sector_size,
            )->Ok_0.partition_id
        }
        &&& forall|i: int|
            0 <= i < self.rows@.len() ==> {
                &&& (#[trigger] self.rows@[i]).evidence_id == self.evidence_id
                &&& self.rows@[i].partition_id == self.partition_id
            }
    }

    /// A partition has been announced, can be opened, and is in progress.
    pub open spec fn in_partition(&self) -> bool {
        match self.phase {
            Phase::Opening | Phase::Finalizing | Phase::Finished => false,
            _ => true,
        }
    }

    /// The fields that no step changes.
    pub open spec fn same_run(&self, other: &Orchestrator) -> bool {
        &&& self.evidence_id == other.evidence_id
        &&& self.partitions@ == other.partitions@
        &&& self.sector_size == other.sector_size
    }

    /// Announces partitions from the first one not yet announced, skipping
    /// each that cannot be opened, until one can be or none is left.
    fn advance(&mut self, events: &mut Vec<ProgressEvent>) -> (action: Action)
        requires
            old(self).inv_core(),
            old(self).phase != Phase::Finished,
            old(self).phase != Phase::Finalizing,
        ensures
            final(self).nearer_end_than(old(self)),
            final(self).wf(),
            final(self).same_run(old(self)),
            final(events)@ == old(events)@ + advance_events(*old(self)),
            final(self).log@ == old(self).log@ + advance_events(*old(self)),
            advanced(*old(self), *final(self), action),
    {
        let ghost start = events@;
        let ghost i0 = self.announced as int;
        self.rows = Vec::new();
        self.processed = 0;
        self.results = Ghost(Seq::empty());
        let ev = self.evidence_id;
        let n = self.partitions.len();
        let mut i = self.announced;
        while i < n
            invariant
                self.same_run(old(self)),
                ev == self.evidence_id,
                n == self.partitions@.len(),
                n <= u64::MAX,
                i0 == old(self).announced,
                i0 <= i <= n,
                self.announced == i,
                self.rows@.len() == 0,
                self.processed == 0,
                self.results@.len() == 0,
                announcements(self.log@) == one_to(i as nat),
                first_ready(self.partitions@, self.sector_size, i0) == first_ready(
                    self.partitions@,
                    self.sector_size,
                    i as int,
                ),
                start == old(events)@,
                events@ == start + skipped_events(ev, self.partitions@, self.sector_size, i0, i as int),
                self.log@ == old(self).log@ + skipped_events(ev, self.partitions@, self.sector_size, i0, i as int),
            decreases n - i,
        {
            let ghost parts = self.partitions@;
            let ghost before = skipped_events(ev, parts, self.sector_size, i0, i as int);
            let announcement = ProgressEvent {
                evidence_id: ev,
                level: Level::Main,
                kind: Kind::Info,
                message: Message::ProcessingPartition { index: (i + 1) as u64, total: n as u64 },
            };
            let ghost a = announcement;
            events.push(announcement);
            self.announced = i + 1;
            proof {
                let l0 = self.log@;
                self.log@ = l0.push(a);
                assert(self.log@.drop_last() =~= l0);
                assert(one_to(i as nat).push((i + 1) as u64) =~= one_to((i + 1) as nat));
                assert(announcements(self.log@) =~= one_to((i + 1) as nat));
            }
            match prepare_partition(&self.partitions[i], self.sector_size) {
                Ok(t) => {
                    self.phase = Phase::Detecting;
                    self.partition_id = t.partition_id;
                    proof {
                        assert(first_ready(parts, self.sector_size, i as int) == i);
                        lemma_first_ready_bounds(parts, self.sector_size, i0);
                        assert(events@ =~= start + (before + seq![a]));
                        assert(self.log@ =~= old(self).log@ + (before + seq![a]));
                    }
                    return Action::Detect { window: t.window, kind: t.kind };
                },
                Err(e) => {
                    let partition = (i + 1) as u64;
                    let message = match e {
                        PartitionError::Geometry(g) => Message::GeometryFailed { partition, error: g },
                        PartitionError::UnsupportedType => Message::UnsupportedType { partition },
                        PartitionError::MissingId => Message::MissingPartitionId { partition },
                    };
                    let failure = ProgressEvent { evidence_id: ev, level: Level::Module, kind: Kind::Error, message };
                    let ghost f = failure;
                    events.push(failure);
                    proof {
                        let l1 = self.log@;
                        self.log@ = l1.push(f);
                        assert(self.log@.drop_last() =~= l1);
                        assert(announcements(self.log@) =~= announcements(l1));
                        assert(skipped_events(ev, parts, self.sector_size, i0, i + 1) =~= before + seq![a, f]);
                        assert(events@ =~= start + (before + seq![a, f]));
                        assert(self.log@ =~= old(self).log@ + (before + seq![a, f]));
                    }
                    i = i + 1;
                },
            }
        }
        assert(first_ready(self.partitions@, self.sector_size, n as int) == n);
        self.phase = Phase::Finalizing;
        proof {
            lemma_first_ready_bounds(self.partitions@, self.sector_size, i0);
            assert(events@ =~= start + advance_events(*old(self)));
            assert(self.log@ =~= old(self).log@ + advance_events(*old(self)));
        }
        Action::UpdateStatus { evidence_id: self.evidence_id, status: STATUS_DONE }
    }

    /// Hands out `failure` and moves on to the next partition.
    fn skip_current(&mut self, failure: ProgressEvent) -> (r: Step)
        requires
            old(self).wf(),
            old(self).phase != Phase::Finished,
            old(self).phase != Phase::Finalizing,
            !(failure.message is ProcessingPartition),
        ensures
            final(self).nearer_end_than(old(self)),
            final(self).wf(),
            r.events@ == seq![failure] + advance_events(*old(self)),
            final(self).log@ == old(self).log@ + r.events@,
            advanced(*old(self), *final(self), r.action),
    {
        let ghost l0 = self.log@;
        let ghost f = failure;
        let mut events: Vec<ProgressEvent> = Vec::new();
        events.push(failure);
        proof {
            self.log@ = l0.push(f);
            assert(self.log@.drop_last() =~= l0);
            assert(announcements(self.log@) =~= announcements(l0));
        }
        let ghost mid = *self;
        let action = self.advance(&mut events);
        proof {
            assert(advance_events(mid) == advance_events(*old(self)));
            assert(events@ =~= seq![f] + advance_events(*old(self)));
            assert(self.log@ =~= old(self).log@ + events@);
        }
        Step { events, action }
    }

    /// A run over `partitions` of the evidence `evidence_id`, whose
    /// container has sectors of `sector_size` bytes. Its first action is to
    /// open the storage handle.
    pub fn new(evidence_id: i64, partitions: Vec<PartitionDescriptor>, sector_size: u64) -> (o: Orchestrator)
        ensures
            o.wf(),
            o.evidence_id == evidence_id,
            o.partitions@ == partitions@,
            o.sector_size == sector_size,
            o.phase == Phase::Opening,
            o.announced == 0,
            o.log@ == Seq::<ProgressEvent>::empty(),
    {
        let count = partitions.len();
        assert(count <= u64::MAX);
        let o = Orchestrator {
            evidence_id,
            partitions,
            sector_size,
            phase: Phase::Opening,
            announced: 0,
            partition_id: 0,
            rows: Vec::new(),
            processed: 0,
            log: Ghost(Seq::empty()),
            results: Ghost(Seq::empty()),
            batch_start: Ghost(0),
        };
        assert(announcements(o.log@) =~= one_to(0));
        o
    }

    /// The outcome of opening the storage handle. Without storage the run
    /// ends at once and the evidence status is left as it was.
    pub fn on_storage(&mut self, opened: Result<(), String>) -> (r: Step)
        requires
            old(self).wf(),
            old(self).phase == Phase::Opening,
        ensures
            final(self).wf(),
            final(self).nearer_end_than(old(self)),
            final(self).log@ == old(self).log@ + r.events@,
            match opened {
                Ok(()) => {
                    &&& r.events@ == advance_events(*old(self))
                    &&& advanced(*old(self), *final(self), r.action)
                },
                Err(reason) => {
                    &&& r.events@ == seq![
                        event(old(self).evidence_id, Level::Main, Kind::Error, Message::StorageUnavailable { reason }),
                    ]
                    &&& final(self).same_run(old(self))
                    &&& final(self).phase == Phase::Finished
                    &&& final(self).announced == old(self).announced
                    &&& r.action == Action::Stop
                },
            },
    {
        match opened {
            Ok(()) => {
                let mut events: Vec<ProgressEvent> = Vec::new();
                let action = self.advance(&mut events);
                assert(events@ =~= advance_events(*old(self)));
                Step { events, action }
            },
            Err(reason) => {
                let e = ProgressEvent {
                    evidence_id: self.evidence_id,
                    level: Level::Main,
                    kind: Kind::Error,
                    message: Message::StorageUnavailable { reason },
                };
                let ghost g = e;
                let ghost l0 = self.log@;
                let mut events: Vec<ProgressEvent> = Vec::new();
                events.push(e);
                self.phase = Phase::Finished;
                proof {
                    self.log@ = l0.push(g);
                    assert(self.log@.drop_last() =~= l0);
                    assert(announcements(self.log@) =~= announcements(l0));
                    assert(self.log@ =~= old(self).log@ + events@);
                }
                Step { events, action: Action::Stop }
            },
        }
    }

    /// The outcome of opening the filesystem of the partition in progress.
    /// A partition whose filesystem cannot be opened is reported and
    /// skipped.
    pub fn on_detection(&mut self, detected: Result<(), String>) -> (r: Step)
        requires
            old(self).wf(),
            old(self).phase == Phase::Detecting,
        ensures
            final(self).wf(),
            final(self).nearer_end_than(old(self)),
            final(self).log@ == old(self).log@ + r.events@,
            match detected {
                Ok(()) => {
                    &&& r.events@ == Seq::<ProgressEvent>::empty()
                    &&& final(self).same_run(old(self))
                    &&& final(self).phase == Phase::Indexing
                    &&& final(self).announced == old(self).announced
                    &&& final(self).partition_id == old(self).partition_id
                    &&& r.action == Action::CreateIndexes
                },
                Err(reason) => {
                    &&& r.events@ == seq![
                        event(
                            old(self).evidence_id,
                            Level::Module,
                            Kind::Error,
                            Message::DetectionFailed { partition: old(self).announced as u64, reason },
                        ),
                    ] + advance_events(*old(self))
                    &&& advanced(*old(self), *final(self), r.action)
                },
            },
    {
        match detected {
            Ok(()) => {
                self.phase = Phase::Indexing;
                let events: Vec<ProgressEvent> = Vec::new();
                assert(self.log@ =~= old(self).log@ + events@);
                Step { events, action: Action::CreateIndexes }
            },
            Err(reason) => {
                let e = ProgressEvent {
                    evidence_id: self.evidence_id,
                    level: Level::Module,
                    kind: Kind::Error,
                    message: Message::DetectionFailed { partition: self.announced as u64, reason },
                };
                self.skip_current(e)
            },
        }
    }

    /// Appends `e` to the events of a step and to the log.
    fn emit(&mut self, events: &mut Vec<ProgressEvent>, e: ProgressEvent)
        requires
            old(self).inv_core(),
            !(e.message is ProcessingPartition),
        ensures
            final(self).inv_core(),
            *final(self) == (Orchestrator { log: Ghost(old(self).log@.push(e)), ..*old(self) }),
            final(events)@ == old(events)@.push(e),
    {
        let ghost l0 = self.log@;
        let ghost g = e;
        events.push(e);
        proof {
            self.log@ = l0.push(g);
            assert(self.log@.drop_last() =~= l0);
            assert(announcements(self.log@) =~= announcements(l0));
        }
    }

    /// The outcome of creating the lookup indexes. A failure is reported and
    /// the partition goes on without them.
    pub fn on_indexes(&mut self, created: Result<(), String>) -> (r: Step)
        requires
            old(self).wf(),
            old(self).phase == Phase::Indexing,
        ensures
            final(self).wf(),
            final(self).nearer_end_than(old(self)),
            final(self).log@ == old(self).log@ + r.events@,
            final(self).same_run(old(self)),
            final(self).phase == Phase::Building,
            final(self).announced == old(self).announced,
            final(self).partition_id == old(self).partition_id,
            r.action == Action::BuildTree,
            r.events@ == match created {
                Ok(()) => Seq::<ProgressEvent>::empty(),
                Err(reason) => seq![
                    event(old(self).evidence_id, Level::Module, Kind::Error, Message::IndexCreationFailed { reason }),
                ],
            },
    {
        let mut events: Vec<ProgressEvent> = Vec::new();
        if let Err(reason) = created {
            let e = ProgressEvent {
                evidence_id: self.evidence_id,
                level: Level::Module,
                kind: Kind::Error,
                message: Message::IndexCreationFailed { reason },
            };
            self.emit(&mut events, e);
        }
        self.phase = Phase::Building;
        assert(self.log@ =~= old(self).log@ + events@);
        Step { events, action: Action::BuildTree }
    }

    /// The tree walked from the partition's filesystem. Its nodes become the
    /// rows of the partition, in depth-first pre-order; a partition whose
    /// tree could not be walked is reported and skipped.
    pub fn on_tree(&mut self, tree: Result<FsNode, String>) -> (r: Step)
        requires
            old(self).wf(),
            old(self).phase == Phase::Building,
        ensures
            final(self).wf(),
            final(self).nearer_end_than(old(self)),
            final(self).log@ == old(self).log@ + r.events@,
            match tree {
                Ok(root) => {
                    &&& r.events@ == seq![
                        event(old(self).evidence_id, Level::Module, Kind::Info, Message::Ingesting),
                    ]
                    &&& final(self).same_run(old(self))
                    &&& final(self).phase == Phase::Beginning
                    &&& final(self).announced == old(self).announced
                    &&& final(self).partition_id == old(self).partition_id
                    &&& final(self).rows@ == records_of(
                        old(self).evidence_id,
                        old(self).partition_id,
                        preorder(root),
                    )
                    &&& final(self).rows@.len() == node_count(root)
                    &&& final(self).processed == 0
                    &&& r.action == Action::BeginTransaction
                },
                Err(reason) => {
                    &&& r.events@ == seq![
                        event(
                            old(self).evidence_id,
                            Level::Module,
                            Kind::Error,
                            Message::TreeBuildFailed { partition: old(self).announced as u64, reason },
                        ),
                    ] + advance_events(*old(self))
                    &&& advanced(*old(self), *final(self), r.action)
                },
            },
    {
        match tree {
            Ok(root) => {
                self.rows = normalize(root, self.evidence_id, self.partition_id);
                self.processed = 0;
                self.results = Ghost(Seq::empty());
                self.phase = Phase::Beginning;
                let mut events: Vec<ProgressEvent> = Vec::new();
                let e = ProgressEvent {
                    evidence_id: self.evidence_id,
                    level: Level::Module,
                    kind: Kind::Info,
                    message: Message::Ingesting,
                };
                self.emit(&mut events, e);
                assert(self.log@ =~= old(self).log@ + events@);
                Step { events, action: Action::BeginTransaction }
            },
            Err(reason) => {
                let e = ProgressEvent {
                    evidence_id: self.evidence_id,
                    level: Level::Module,
                    kind: Kind::Error,
                    message: Message::TreeBuildFailed { partition: self.announced as u64, reason },
                };
                self.skip_current(e)
            },
        }
    }

    /// The outcome of beginning the partition's transaction. Without a
    /// transaction the partition is reported and skipped.
    pub fn on_begin(&mut self, begun: Result<(), String>) -> (r: Step)
        requires
            old(self).wf(),
            old(self).phase == Phase::Beginning,
        ensures
            final(self).wf(),
            final(self).nearer_end_than(old(self)),
            final(self).log@ == old(self).log@ + r.events@,
            match begun {
                Ok(()) => {
                    &&& r.events@ == Seq::<ProgressEvent>::empty()
                    &&& final(self).same_run(old(self))
                    &&& final(self).announced == old(self).announced
                    &&& final(self).partition_id == old(self).partition_id
                    &&& final(self).rows@ == old(self).rows@
                    &&& final(self).processed == 0
                    &&& final(self).results@ == Seq::<Result<(), String>>::empty()
                    &&& if old(self).rows@.len() == 0 {
                        final(self).phase == Phase::Committing && r.action == Action::Commit
                    } else {
                        final(self).phase == Phase::Inserting && r.action == Action::Insert { record: 0 }
                    }
                },
                Err(reason) => {
                    &&& r.events@ == seq![
                        event(old(self).evidence_id, Level::Module, Kind::Error, Message::IngestionFailed { reason }),
                    ] + advance_events(*old(self))
                    &&& advanced(*old(self), *final(self), r.action)
                },
            },
    {
        match begun {
            Ok(()) => {
                self.processed = 0;
                self.results = Ghost(Seq::empty());
                self.batch_start = Ghost(self.log@.len() as int);
                let events: Vec<ProgressEvent> = Vec::new();
                assert(self.log@ =~= old(self).log@ + events@);
                assert(self.log@.subrange(self.batch_start@, self.log@.len() as int) =~= batch_events(
                    self.evidence_id,
                    self.rows@.len() as int,
                    self.results@,
                ));
                if self.rows.len() == 0 {
                    self.phase = Phase::Committing;
                    Step { events, action: Action::Commit }
                } else {
                    self.phase = Phase::Inserting;
                    Step { events, action: Action::Insert { record: 0 } }
                }
            },
            Err(reason) => {
                let e = ProgressEvent {
                    evidence_id: self.evidence_id,
                    level: Level::Module,
                    kind: Kind::Error,
                    message: Message::IngestionFailed { reason },
                };
                self.skip_current(e)
            },
        }
    }

    /// The outcome of inserting the row `processed`. A failed insert is
    /// reported and the next row is tried in the same transaction; every
    /// attempt is followed by the count of rows attempted.
    pub fn on_insert(&mut self, inserted: Result<(), String>) -> (r: Step)
        requires
            old(self).wf(),
            old(self).phase == Phase::Inserting,
        ensures
            final(self).wf(),
            final(self).nearer_end_than(old(self)),
            final(self).log@ == old(self).log@ + r.events@,
            final(self).same_run(old(self)),
            final(self).announced == old(self).announced,
            final(self).partition_id == old(self).partition_id,
            final(self).rows@ == old(self).rows@,
            final(self).processed == old(self).processed + 1,
            final(self).results@ == old(self).results@.push(inserted),
            r.events@ == insert_events(
                old(self).evidence_id,
                old(self).processed as int,
                old(self).rows@.len() as int,
                inserted,
            ),
            if final(self).processed < old(self).rows@.len() {
                final(self).phase == Phase::Inserting && r.action == Action::Insert {
                    record: final(self).processed,
                }
            } else {
                final(self).phase == Phase::Committing && r.action == Action::Commit
            },
    {
        let ghost res = inserted;
        let mut events: Vec<ProgressEvent> = Vec::new();
        let total = self.rows.len();
        let done = self.processed + 1;
        if let Err(reason) = inserted {
            let e = ProgressEvent {
                evidence_id: self.evidence_id,
                level: Level::Module,
                kind: Kind::Error,
                message: Message::InsertFailed { record: done as u64, reason },
            };
            self.emit(&mut events, e);
        }
        let e = ProgressEvent {
            evidence_id: self.evidence_id,
            level: Level::Module,
            kind: Kind::Info,
            message: Message::Indexed { processed: done as u64, total: total as u64 },
        };
        self.emit(&mut events, e);
        self.processed = done;
        proof {
            self.results@ = self.results@.push(res);
        }
        assert(self.log@ =~= old(self).log@ + events@);
        assert(events@ =~= insert_events(self.evidence_id, old(self).processed as int, total as int, inserted));
        proof {
            let bs = self.batch_start@;
            assert(self.results@.drop_last() =~= old(self).results@);
            assert(self.log@.subrange(bs, self.log@.len() as int) =~= old(self).log@.subrange(
                bs,
                old(self).log@.len() as int,
            ) + events@);
        }
        if done < total {
            Step { events, action: Action::Insert { record: done } }
        } else {
            self.phase = Phase::Committing;
            Step { events, action: Action::Commit }
        }
    }

    /// The outcome of committing the partition's transaction; either way the
    /// run moves on to the next partition.
    pub fn on_commit(&mut self, committed: Result<(), String>) -> (r: Step)
        requires
            old(self).wf(),
            old(self).phase == Phase::Committing,
        ensures
            final(self).wf(),
            final(self).nearer_end_than(old(self)),
            final(self).log@ == old(self).log@ + r.events@,
            advanced(*old(self), *final(self), r.action),
            r.events@ == seq![
                match committed {
                    Ok(()) => event(old(self).evidence_id, Level::Module, Kind::Success, Message::IngestionComplete),
                    Err(reason) => event(
                        old(self).evidence_id,
                        Level::Module,
                        Kind::Error,
                        Message::IngestionFailed { reason },
                    ),
                },
            ] + advance_events(*old(self)),
    {
        let e = match committed {
            Ok(()) => ProgressEvent {
                evidence_id: self.evidence_id,
                level: Level::Module,
                kind: Kind::Success,
                message: Message::IngestionComplete,
            },
            Err(reason) => ProgressEvent {
                evidence_id: self.evidence_id,
                level: Level::Module,
                kind: Kind::Error,
                message: Message::IngestionFailed { reason },
            },
        };
        self.skip_current(e)
    }

    /// The outcome of writing the final evidence status, which ends the run.
    pub fn on_status(&mut self, written: Result<(), String>) -> (r: Step)
        requires
            old(self).wf(),
            old(self).phase == Phase::Finalizing,
        ensures
            final(self).wf(),
            final(self).nearer_end_than(old(self)),
            final(self).log@ == old(self).log@ + r.events@,
            final(self).same_run(old(self)),
            final(self).phase == Phase::Finished,
            final(self).announced == old(self).announced,
            r.action == Action::Stop,
            r.events@ == seq![
                match written {
                    Ok(()) => event(old(self).evidence_id, Level::Main, Kind::Success, Message::RunComplete),
                    Err(reason) => event(
                        old(self).evidence_id,
                        Level::Main,
                        Kind::Error,
                        Message::StatusUpdateFailed { reason },
                    ),
                },
            ],
    {
        let e = match written {
            Ok(()) => ProgressEvent {
                evidence_id: self.evidence_id,
                level: Level::Main,
                kind: Kind::Success,
                message: Message::RunComplete,
            },
            Err(reason) => ProgressEvent {
                evidence_id: self.evidence_id,
                level: Level::Main,
                kind: Kind::Error,
                message: Message::StatusUpdateFailed { reason },
            },
        };
        let mut events: Vec<ProgressEvent> = Vec::new();
        self.emit(&mut events, e);
        self.phase = Phase::Finished;
        assert(self.log@ =~= old(self).log@ + events@);
        Step { events, action: Action::Stop }
    }
}


/// How many of `results` are failures.
pub open spec fn failures(results: Seq<Result<(), String>>) -> nat
    decreases results.len(),
{
    if results.len() == 0 {
        0
    } else {
        failures(results.drop_last()) + if results.last() is Err {
            1nat
        } else {
            0nat
        }
    }
}

/// The rows whose inserts succeeded, in order, where `results` are the
/// outcomes of the inserts of the first rows of `rows`.
pub open spec fn staged_rows(rows: Seq<IngestionRecord>, results: Seq<Result<(), String>>) -> Seq<
    IngestionRecord,
>
    decreases results.len(),
{
    if results.len() == 0 {
        Seq::empty()
    } else {
        staged_rows(rows, results.drop_last()) + if results.last() is Ok {
            seq![rows[results.len() - 1]]
        } else {
            Seq::empty()
        }
    }
}

/// The inserts of a partition yield one error event per failed insert and
/// one progress event per row, and nothing else at module level.
pub proof fn batch_counts(evidence_id: i64, total: int, results: Seq<Result<(), String>>)
    ensures
        count_of(batch_events(evidence_id, total, results), Level::Module, Kind::Error) == failures(results),
        count_of(batch_events(evidence_id, total, results), Level::Module, Kind::Info) == results.len(),
        count_of(batch_events(evidence_id, total, results), Level::Module, Kind::Success) == 0,
    decreases results.len(),
{
    if results.len() > 0 {
        let prefix = results.drop_last();
        let k = results.len() - 1;
        batch_counts(evidence_id, total, prefix);
        let step = insert_events(evidence_id, k, total, results.last());
        lemma_count_of_concat(batch_events(evidence_id, total, prefix), step, Level::Module, Kind::Error);
        lemma_count_of_concat(batch_events(evidence_id, total, prefix), step, Level::Module, Kind::Info);
        lemma_count_of_concat(batch_events(evidence_id, total, prefix), step, Level::Module, Kind::Success);
        lemma_insert_counts(evidence_id, k, total, results.last());
    }
}

proof fn lemma_insert_counts(evidence_id: i64, k: int, total: int, outcome: Result<(), String>)
    ensures
        count_of(insert_events(evidence_id, k, total, outcome), Level::Module, Kind::Error) == if outcome is Err {
            1nat
        } else {
            0nat
        },
        count_of(insert_events(evidence_id, k, total, outcome), Level::Module, Kind::Info) == 1,
        count_of(insert_events(evidence_id, k, total, outcome), Level::Module, Kind::Success) == 0,
{
    let step = insert_events(evidence_id, k, total, outcome);
    let empty = Seq::<ProgressEvent>::empty();
    assert(count_of(empty, Level::Module, Kind::Error) == 0);
    assert(count_of(empty, Level::Module, Kind::Info) == 0);
    assert(count_of(empty, Level::Module, Kind::Success) == 0);
    if outcome is Ok {
        assert(step.drop_last() =~= empty);
    } else {
        let first = seq![step[0]];
        assert(step.drop_last() =~= first);
        assert(first.drop_last() =~= empty);
        assert(count_of(first, Level::Module, Kind::Error) == 1);
        assert(count_of(first, Level::Module, Kind::Info) == 0);
        assert(count_of(first, Level::Module, Kind::Success) == 0);
    }
}

proof fn lemma_staged_prefix(rows: Seq<IngestionRecord>, results: Seq<Result<(), String>>, k: int, m: int)
    requires
        rows.len() == results.len(),
        0 <= k < results.len(),
        0 <= m <= results.len(),
        results[k] is Err,
        forall|i: int| 0 <= i < results.len() && i != k ==> #[trigger] results[i] is Ok,
    ensures
        staged_rows(rows, results.take(m)) == if m <= k {
            rows.take(m)
        } else {
            rows.take(m).remove(k)
        },
    decreases m,
{
    if m > 0 {
        lemma_staged_prefix(rows, results, k, m - 1);
        let t = results.take(m);
        assert(t.drop_last() =~= results.take(m - 1));
        assert(t.last() == results[m - 1]);
        if m - 1 < k {
            assert(rows.take(m - 1).push(rows[m - 1]) =~= rows.take(m));
        } else if m - 1 == k {
            assert(rows.take(m).remove(k) =~= rows.take(m - 1));
        } else {
            assert(rows.take(m - 1).remove(k).push(rows[m - 1]) =~= rows.take(m).remove(k));
        }
    } else {
        assert(results.take(0) =~= Seq::<Result<(), String>>::empty());
        assert(rows.take(0) =~= Seq::<IngestionRecord>::empty());
    }
}

/// A single malformed row costs only itself: once every row of a partition
/// has been attempted and only the insert of row `k` failed, the partition's
/// inserts yielded exactly one error event and one progress event per row,
/// and every other row was staged in the partition's transaction.
pub proof fn failed_row_is_isolated(o: Orchestrator, k: int)
    requires
        o.wf(),
        o.phase == Phase::Committing,
        0 <= k < o.rows@.len(),
        o.results@[k] is Err,
        forall|i: int| 0 <= i < o.results@.len() && i != k ==> #[trigger] o.results@[i] is Ok,
    ensures
        count_of(o.log@.subrange(o.batch_start@, o.log@.len() as int), Level::Module, Kind::Error) == 1,
        count_of(o.log@.subrange(o.batch_start@, o.log@.len() as int), Level::Module, Kind::Info)
            == o.rows@.len(),
        staged_rows(o.rows@, o.results@) == o.rows@.remove(k),
{
    let results = o.results@;
    let rows = o.rows@;
    batch_counts(o.evidence_id, rows.len() as int, results);
    lemma_staged_prefix(rows, results, k, results.len() as int);
    assert(results.take(results.len() as int) =~= results);
    assert(rows.take(rows.len() as int) =~= rows);
    lemma_failures_single(results, k, results.len() as int);
    assert(results.take(results.len() as int) =~= results);
}

proof fn lemma_failures_single(results: Seq<Result<(), String>>, k: int, m: int)
    requires
        0 <= k < results.len(),
        0 <= m <= results.len(),
        results[k] is Err,
        forall|i: int| 0 <= i < results.len() && i != k ==> #[trigger] results[i] is Ok,
    ensures
        failures(results.take(m)) == if m <= k {
            0nat
        } else {
            1nat
        },
    decreases m,
{
    if m > 0 {
        lemma_failures_single(results, k, m - 1);
        assert(results.take(m).drop_last() =~= results.take(m - 1));
    }
}

/// Partitions are announced one after another, in the order given, whatever
/// became of the ones before: the announcements of a run so far are the
/// numbers one to `announced`.
pub proof fn announced_in_order(o: Orchestrator)
    requires
        o.wf(),
    ensures
        announcements(o.log@) == one_to(o.announced as nat),
        o.announced <= o.total(),
{
}

/// The final status is written only once every partition has been
/// announced, whatever became of each of them.
pub proof fn every_partition_attempted(o: Orchestrator)
    requires
        o.wf(),
        o.phase == Phase::Finalizing,
    ensures
        o.announced == o.total(),
        announcements(o.log@) == one_to(o.total() as nat),
{
}

proof fn lemma_first_ready_bounds(parts: Seq<PartitionDescriptor>, sector_size: u64, i: int)
    requires
        0 <= i <= parts.len(),
    ensures
        i <= first_ready(parts, sector_size, i) <= parts.len(),
    decreases parts.len() - i,
{
    if i < parts.len() && !(prepare_spec(parts[i], sector_size) is Ok) {
        lemma_first_ready_bounds(parts, sector_size, i + 1);
    }
}

proof fn lemma_first_ready_skips_failures(parts: Seq<PartitionDescriptor>, sector_size: u64, i: int, j: int)
    requires
        0 <= i <= j < parts.len(),
        prepare_spec(parts[j], sector_size) is Err,
    ensures
        first_ready(parts, sector_size, i) != j,
    decreases j - i,
{
    if i == j {
        lemma_first_ready_bounds(parts, sector_size, i + 1);
    } else if !(prepare_spec(parts[i], sector_size) is Ok) {
        lemma_first_ready_skips_failures(parts, sector_size, i + 1, j);
    }
}

proof fn lemma_skipped_events_index(
    evidence_id: i64,
    parts: Seq<PartitionDescriptor>,
    sector_size: u64,
    i: int,
    m: int,
    t: int,
)
    requires
        0 <= i <= t < m,
    ensures
        skipped_events(evidence_id, parts, sector_size, i, m).len() == 2 * (m - i),
        skipped_events(evidence_id, parts, sector_size, i, m)[2 * (t - i) + 1] == event(
            evidence_id,
            Level::Module,
            Kind::Error,
            skip_message((t + 1) as u64, prepare_spec(parts[t], sector_size)->Err_0),
        ),
    decreases m - i,
{
    if t < m - 1 {
        lemma_skipped_events_index(evidence_id, parts, sector_size, i, m - 1, t);
    } else if i < m - 1 {
        lemma_skipped_events_index(evidence_id, parts, sector_size, i, m - 1, i);
    } else {
        assert(skipped_events(evidence_id, parts, sector_size, i, i) =~= Seq::<ProgressEvent>::empty());
    }
}

/// A DOS-style partition whose size in bytes does not fit in `u64` is never
/// handed to a parser: moving on from any earlier partition either stops
/// before it or announces it, reports the overflow, and skips it.
pub proof fn overflowing_partition_skipped(
    evidence_id: i64,
    parts: Seq<PartitionDescriptor>,
    sector_size: u64,
    i: int,
    j: int,
)
    requires
        0 <= i <= j < parts.len(),
        match parts[j].layout {
            PartitionLayout::Mbr { size_sectors, .. } => !fits_u64(size_sectors * sector_size),
            _ => false,
        },
    ensures
        prepare_spec(parts[j], sector_size) == Err::<crate::geometry::Target, PartitionError>(
            PartitionError::Geometry(GeometryError::Overflow),
        ),
        first_ready(parts, sector_size, i) != j,
        first_ready(parts, sector_size, i) > j ==> skipped_events(
            evidence_id,
            parts,
            sector_size,
            i,
            first_ready(parts, sector_size, i),
        )[2 * (j - i) + 1] == event(
            evidence_id,
            Level::Module,
            Kind::Error,
            Message::GeometryFailed { partition: (j + 1) as u64, error: GeometryError::Overflow },
        ),
{
    lemma_first_ready_skips_failures(parts, sector_size, i, j);
    let m = first_ready(parts, sector_size, i);
    if m > j {
        lemma_skipped_events_index(evidence_id, parts, sector_size, i, m, j);
    }
}

/// Every row of the partition in progress carries the run's evidence and
/// the identifier of the partition it was found in.
pub proof fn rows_belong_to_their_partition(o: Orchestrator)
    requires
        o.wf(),
        o.in_partition(),
    ensures
        forall|i: int|
            0 <= i < o.rows@.len() ==> {
                &&& (#[trigger] o.rows@[i]).evidence_id == o.evidence_id
                &&& o.rows@[i].partition_id == prepare_spec(
                    o.partitions@[o.announced - 1],
                    o.sector_size,
                )->Ok_0.partition_id
            },
{
}

} // verus!
