//! The block forwarder: a producer records, for each block, the table events
//! to forward; a consumer forwards recorded blocks to the indexer service in
//! order, checkpointing each block on the server.

use vstd::prelude::*;
use vstd::string::*;
use vstd::utf8::{decode_utf8, valid_utf8};

use crate::http_client::{checkpoint, create_table, drop_table, put_batches, HttpError, HttpPost};
use crate::proto::{
    checkpoint_request, create_table_request, drop_table_request, put_batches_request,
    TableBatch,
};
use crate::types::TableIdentifier;
use crate::vecmap::bytes_clone;

verus! {

/// The most blocks forwarded per worker run.
pub const MAX_BLOCKS_PER_INVOCATION: u64 = 100;

/// A table created in a block: its identifier and DDL.
pub struct CreateEntry {
    /// The table.
    pub ident: TableIdentifier,
    /// Its `CREATE TABLE` statement.
    pub ddl: Vec<u8>,
}

/// Data finalized for a table in a block.
pub struct DataEntry {
    /// The table.
    pub table: TableIdentifier,
    /// The finalized insert.
    pub data: Vec<u8>,
}

/// A table event to forward.
pub enum BlockEvent {
    /// A table was created.
    Create(CreateEntry),
    /// A table was dropped.
    Drop(TableIdentifier),
    /// Data was finalized for a table.
    Data(DataEntry),
}

/// The events of one block, in deposit order.
pub struct BlockIndex {
    /// The events.
    pub events: Vec<BlockEvent>,
}

/// The value of a block event.
pub enum BlockEventView {
    Create((Seq<u8>, Seq<u8>), Seq<u8>),
    Drop((Seq<u8>, Seq<u8>)),
    Data((Seq<u8>, Seq<u8>), Seq<u8>),
}

impl View for BlockEvent {
    type V = BlockEventView;

    open spec fn view(&self) -> BlockEventView {
        match self {
            BlockEvent::Create(e) => BlockEventView::Create(e.ident@, e.ddl@),
            BlockEvent::Drop(t) => BlockEventView::Drop(t@),
            BlockEvent::Data(e) => BlockEventView::Data(e.table@, e.data@),
        }
    }
}

/// The values of a block's events.
pub open spec fn events_view(events: Seq<BlockEvent>) -> Seq<BlockEventView> {
    events.map_values(|e: BlockEvent| e@)
}

/// A chain event, as far as the forwarder reads it.
pub enum ChainEvent {
    /// The tables pallet updated schemas: each table and its create statement.
    SchemaUpdated(Vec<(TableIdentifier, Vec<u8>)>),
    /// The tables pallet created tables: each table and its DDL.
    TablesCreatedWithCommitments(Vec<(TableIdentifier, Vec<u8>)>),
    /// The tables pallet dropped a table.
    TableDropped(TableIdentifier),
    /// The indexing pallet finalized data for a table.
    QuorumReached { table: TableIdentifier, data: Vec<u8> },
    /// Any other event.
    Other,
}

/// The block events that a list of tables and statements stands for.
pub open spec fn creates_view(list: Seq<(TableIdentifier, Vec<u8>)>) -> Seq<BlockEventView> {
    list.map_values(|p: (TableIdentifier, Vec<u8>)| BlockEventView::Create(p.0@, p.1@))
}

/// The block events that one chain event contributes.
pub open spec fn chain_event_entries(e: ChainEvent) -> Seq<BlockEventView> {
    match e {
        ChainEvent::SchemaUpdated(list) => creates_view(list@),
        ChainEvent::TablesCreatedWithCommitments(list) => creates_view(list@),
        ChainEvent::TableDropped(t) => seq![BlockEventView::Drop(t@)],
        ChainEvent::QuorumReached { table, data } => seq![BlockEventView::Data(table@, data@)],
        ChainEvent::Other => Seq::empty(),
    }
}

/// The block events of a block's chain events, in deposit order.
pub open spec fn block_entries(events: Seq<ChainEvent>) -> Seq<BlockEventView>
    decreases events.len(),
{
    if events.len() == 0 {
        Seq::empty()
    } else {
        block_entries(events.drop_last()) + chain_event_entries(events.last())
    }
}

/// Records the table events of a block, in deposit order.
pub fn extract_block_index(events: &Vec<ChainEvent>) -> (r: BlockIndex)
    ensures
        events_view(r.events@) == block_entries(events@),
{
    let mut out: Vec<BlockEvent> = Vec::new();
    let mut i: usize = 0;
    while i < events.len()
        invariant
            i <= events@.len(),
            events_view(out@) == block_entries(events@.take(i as int)),
        decreases events.len() - i,
    {
        let ghost before = events_view(out@);
        match &events[i] {
            ChainEvent::SchemaUpdated(list) => {
                push_creates(list, &mut out);
            },
            ChainEvent::TablesCreatedWithCommitments(list) => {
                push_creates(list, &mut out);
            },
            ChainEvent::TableDropped(t) => {
                out.push(BlockEvent::Drop(t.duplicate()));
                assert(events_view(out@) =~= before + seq![BlockEventView::Drop(t@)]);
            },
            ChainEvent::QuorumReached { table, data } => {
                out.push(
                    BlockEvent::Data(DataEntry { table: table.duplicate(), data: bytes_clone(data) }),
                );
                assert(events_view(out@) =~= before + seq![
                    BlockEventView::Data(table@, data@),
                ]);
            },
            ChainEvent::Other => {
                assert(events_view(out@) =~= before + Seq::<BlockEventView>::empty());
            },
        }
        proof {
            assert(events@.take(i + 1).drop_last() =~= events@.take(i as int));
            assert(events@.take(i + 1).last() == events@[i as int]);
        }
        i += 1;
    }
    assert(events@.take(events@.len() as int) =~= events@);
    BlockIndex { events: out }
}

fn push_creates(list: &Vec<(TableIdentifier, Vec<u8>)>, out: &mut Vec<BlockEvent>)
    ensures
        events_view(final(out)@) == events_view(old(out)@) + creates_view(list@),
{
    let ghost start = events_view(out@);
    let mut j: usize = 0;
    while j < list.len()
        invariant
            j <= list@.len(),
            events_view(out@) == start + creates_view(list@.take(j as int)),
        decreases list.len() - j,
    {
        let (t, d) = &list[j];
        let ghost prev = out@;
        out.push(BlockEvent::Create(CreateEntry { ident: t.duplicate(), ddl: bytes_clone(d) }));
        proof {
            assert(creates_view(list@.take(j + 1)) =~= creates_view(list@.take(j as int)).push(
                BlockEventView::Create(t@, d@),
            ));
            assert(out@ =~= prev.push(out@.last()));
            assert(out@.last()@ == BlockEventView::Create(t@, d@));
            assert(events_view(out@) =~= events_view(prev).push(BlockEventView::Create(t@, d@)));
            assert(events_view(out@) =~= start + creates_view(list@.take(j + 1)));
        }
        j += 1;
    }
    assert(list@.take(list@.len() as int) =~= list@);
}

impl BlockIndex {
    /// Whether the block has no events.
    pub fn is_empty(&self) -> (r: bool)
        ensures
            r == (self.events@.len() == 0),
    {
        self.events.len() == 0
    }
}

/// The text of `bytes` if they are valid UTF-8, else `"?"`.
pub open spec fn utf8_or_question_mark(bytes: Seq<u8>) -> Seq<char> {
    if valid_utf8(bytes) {
        decode_utf8(bytes)
    } else {
        seq!['?']
    }
}

/// `"namespace.name"`, each part as text, or `"?"` where it is not UTF-8.
pub open spec fn spec_fq_name(id: (Seq<u8>, Seq<u8>)) -> Seq<char> {
    utf8_or_question_mark(id.0) + seq!['.'] + utf8_or_question_mark(id.1)
}

/// Decodes UTF-8 bytes into a string.
#[verifier::external_body]
fn utf8_decode(bytes: &[u8]) -> (r: Option<String>)
    ensures
        r is Some <==> valid_utf8(bytes@),
        r matches Some(s) ==> s@ == decode_utf8(bytes@),
{
    std::str::from_utf8(bytes).ok().map(|s| s.to_string())
}

fn text_or_question_mark(bytes: &Vec<u8>) -> (r: String)
    ensures
        r@ == utf8_or_question_mark(bytes@),
{
    match utf8_decode(bytes.as_slice()) {
        Some(s) => s,
        None => {
            let q = "?".to_owned();
            proof {
                reveal_strlit("?");
            }
            q
        },
    }
}

/// The fully qualified name of a table, `"namespace.name"`.
pub fn fq_name(id: &TableIdentifier) -> (r: String)
    ensures
        r@ == spec_fq_name(id@),
{
    let mut s = text_or_question_mark(&id.namespace);
    s.append(".");
    let name = text_or_question_mark(&id.name);
    s.append(name.as_str());
    proof {
        reveal_strlit(".");
    }
    s
}

} // verus!

verus! {

/// What the consumer does, in order: a request to post, or the removal of a
/// consumed block's record.  A failed post stops the run (`consumer_step`).
pub enum ForwardStep {
    /// Post this request to the indexer.
    Post(HttpPost),
    /// Delete the recorded events of this block.
    Clear(u64),
}

/// The value of a step.
pub enum ForwardStepView {
    Post(Seq<char>, Seq<u8>),
    Clear(u64),
}

impl View for ForwardStep {
    type V = ForwardStepView;

    open spec fn view(&self) -> ForwardStepView {
        match self {
            ForwardStep::Post(p) => ForwardStepView::Post(p.url@, p.body@),
            ForwardStep::Clear(b) => ForwardStepView::Clear(*b),
        }
    }
}

/// The values of a list of steps.
pub open spec fn steps_view(steps: Seq<ForwardStep>) -> Seq<ForwardStepView> {
    steps.map_values(|s: ForwardStep| s@)
}

/// The request forwarding one event of block `seq`.
pub open spec fn event_request(url: Seq<char>, seq: u64, e: BlockEventView) -> ForwardStepView {
    match e {
        BlockEventView::Drop(t) => ForwardStepView::Post(
            url + "/v1/drop_table"@,
            drop_table_request(seq, spec_fq_name(t)),
        ),
        BlockEventView::Create(t, ddl) => ForwardStepView::Post(
            url + "/v1/create_table"@,
            create_table_request(seq, spec_fq_name(t), ddl, "META_ROW_NUMBER"@),
        ),
        BlockEventView::Data(t, data) => ForwardStepView::Post(
            url + "/v1/put_batches"@,
            put_batches_request(seq, seq![(spec_fq_name(t), data)]),
        ),
    }
}

/// The requests forwarding a block's events, in deposit order.
pub open spec fn event_requests(url: Seq<char>, seq: u64, events: Seq<BlockEventView>) -> Seq<
    ForwardStepView,
> {
    events.map_values(|e: BlockEventView| event_request(url, seq, e))
}

/// Forwards a single block's events in deposit order: the requests to post.
pub fn forward_block(url: &str, block_num: u64, index: &BlockIndex) -> (r: Vec<ForwardStep>)
    ensures
        steps_view(r@) == event_requests(url@, block_num, events_view(index.events@)),
{
    let mut out: Vec<ForwardStep> = Vec::new();
    let mut i: usize = 0;
    while i < index.events.len()
        invariant
            i <= index.events@.len(),
            steps_view(out@) == event_requests(url@, block_num, events_view(index.events@.take(i as int))),
        decreases index.events.len() - i,
    {
        let ghost prev = out@;
        let post = match &index.events[i] {
            BlockEvent::Drop(ident) => drop_table(url, block_num, fq_name(ident)),
            BlockEvent::Create(entry) => {
                let key = "META_ROW_NUMBER".to_owned();
                create_table(url, block_num, fq_name(&entry.ident), bytes_clone(&entry.ddl), key)
            },
            BlockEvent::Data(entry) => {
                let mut batches: Vec<TableBatch> = Vec::new();
                let name = fq_name(&entry.table);
                batches.push(TableBatch { table_name: name, record_batch: bytes_clone(&entry.data) });
                proof {
                    assert(crate::proto::batches_view(batches@) =~= seq![
                        (spec_fq_name(entry.table@), entry.data@),
                    ]);
                }
                put_batches(url, block_num, batches)
            },
        };
        out.push(ForwardStep::Post(post));
        proof {
            assert(out@ =~= prev.push(out@.last()));
            assert(out@.last()@ == event_request(url@, block_num, index.events@[i as int]@));
            assert(events_view(index.events@.take(i + 1)) =~= events_view(index.events@.take(i as int)).push(
                index.events@[i as int]@,
            ));
            let before = events_view(index.events@.take(i as int));
            let e = index.events@[i as int]@;
            assert(steps_view(out@) =~= steps_view(prev).push(out@.last()@));
            assert(event_requests(url@, block_num, before.push(e)) =~= event_requests(
                url@,
                block_num,
                before,
            ).push(event_request(url@, block_num, e)));
            assert(steps_view(out@) =~= event_requests(url@, block_num, events_view(index.events@.take(i + 1))));
        }
        i += 1;
    }
    assert(index.events@.take(index.events@.len() as int) =~= index.events@);
    out
}

/// The blocks a run forwards, `start..=end`, after the server's checkpoint
/// (block 0 when the server has none), at most
/// `MAX_BLOCKS_PER_INVOCATION` of them and none past the current block.
pub open spec fn spec_blocks_to_forward(server_checkpoint: Option<u64>, current_block: u64) -> Option<
    (u64, u64),
> {
    let cursor = match server_checkpoint {
        Some(n) => n,
        None => 0,
    };
    let start = cursor + 1;
    let last = start + MAX_BLOCKS_PER_INVOCATION - 1;
    if start > current_block {
        None
    } else {
        Some((start as u64, if current_block < last { current_block } else { last as u64 }))
    }
}

/// A run forwards the blocks right after the server's checkpoint (from
/// block 1 when it has none): all of them up to the current block, unless
/// that is more than `MAX_BLOCKS_PER_INVOCATION` blocks, in which case
/// exactly that many; and nothing when the checkpoint is already at the
/// current block or past it.
pub proof fn lemma_blocks_to_forward_range(server_checkpoint: Option<u64>, current_block: u64)
    requires
        server_checkpoint matches Some(n) ==> n + MAX_BLOCKS_PER_INVOCATION < u64::MAX,
    ensures
        ({
            let start: int = match server_checkpoint {
                Some(n) => n + 1,
                None => 1,
            };
            &&& spec_blocks_to_forward(server_checkpoint, current_block) is None <==> start
                > current_block
            &&& spec_blocks_to_forward(server_checkpoint, current_block) matches Some((s, e)) ==> {
                &&& s == start
                &&& s <= e <= current_block
                &&& e - s + 1 <= MAX_BLOCKS_PER_INVOCATION
                &&& (e == current_block || e - s + 1 == MAX_BLOCKS_PER_INVOCATION)
            }
        }),
{
}

/// The range of blocks a run forwards.  The last block is computed as
/// `checkpoint + 1 + MAX_BLOCKS_PER_INVOCATION - 1`, left to right, so the
/// checkpoint must leave room for `checkpoint + 1 + MAX_BLOCKS_PER_INVOCATION`.
pub fn blocks_to_forward(server_checkpoint: Option<u64>, current_block: u64) -> (r: Option<
    (u64, u64),
>)
    requires
        match server_checkpoint {
            Some(n) => n + MAX_BLOCKS_PER_INVOCATION < u64::MAX,
            None => true,
        },
    ensures
        r == spec_blocks_to_forward(server_checkpoint, current_block),
{
    let cursor = match server_checkpoint {
        Some(n) => n,
        None => 0,
    };
    let start = cursor + 1;
    let last = start + MAX_BLOCKS_PER_INVOCATION - 1;
    if start > current_block {
        None
    } else {
        Some((start, if current_block < last { current_block } else { last }))
    }
}

/// The steps for one block: its events' requests if it has any, then the
/// checkpoint, then the removal of its record if it had one.
pub open spec fn block_steps(url: Seq<char>, block: u64, entry: Option<Seq<BlockEventView>>) -> Seq<
    ForwardStepView,
> {
    match entry {
        Some(events) => event_requests(url, block, events) + seq![
            ForwardStepView::Post(url + "/v1/checkpoint"@, checkpoint_request(block)),
            ForwardStepView::Clear(block),
        ],
        None => seq![ForwardStepView::Post(url + "/v1/checkpoint"@, checkpoint_request(block))],
    }
}

/// The value of a block's record.
pub open spec fn entry_view(e: Option<BlockIndex>) -> Option<Seq<BlockEventView>> {
    match e {
        Some(idx) => Some(events_view(idx.events@)),
        None => None,
    }
}

/// The steps for blocks `start, start + 1, ...`, one per record.
pub open spec fn plan_steps(url: Seq<char>, start: u64, entries: Seq<Option<BlockIndex>>) -> Seq<
    ForwardStepView,
>
    decreases entries.len(),
{
    if entries.len() == 0 {
        Seq::empty()
    } else {
        plan_steps(url, start, entries.drop_last()) + block_steps(
            url,
            (start + entries.len() - 1) as u64,
            entry_view(entries.last()),
        )
    }
}

/// Plans forwarding blocks `start, start + 1, ...`, given what was recorded
/// for each (`None` where nothing was recorded): every block is
/// checkpointed, even an empty one, and a consumed record is removed.
pub fn plan_forwarding(url: &str, start: u64, entries: &Vec<Option<BlockIndex>>) -> (r: Vec<
    ForwardStep,
>)
    requires
        start + entries@.len() <= u64::MAX,
    ensures
        steps_view(r@) == plan_steps(url@, start, entries@),
{
    let mut out: Vec<ForwardStep> = Vec::new();
    let mut k: usize = 0;
    while k < entries.len()
        invariant
            k <= entries@.len(),
            start + entries@.len() <= u64::MAX,
            steps_view(out@) == plan_steps(url@, start, entries@.take(k as int)),
        decreases entries.len() - k,
    {
        let block = start + k as u64;
        let ghost prev = steps_view(out@);
        let mut block_out: Vec<ForwardStep> = match &entries[k] {
            Some(idx) => if idx.is_empty() {
                Vec::new()
            } else {
                forward_block(url, block, idx)
            },
            None => Vec::new(),
        };
        proof {
            if let Some(idx) = entries@[k as int] {
                if idx.events@.len() == 0 {
                    assert(event_requests(url@, block, events_view(idx.events@)) =~= Seq::empty());
                }
            }
        }
        let ghost mid = steps_view(block_out@);
        block_out.push(ForwardStep::Post(checkpoint(url, block)));
        if entries[k].is_some() {
            block_out.push(ForwardStep::Clear(block));
        }
        proof {
            assert(steps_view(block_out@) =~= block_steps(url@, block, entry_view(entries@[k as int])));
        }
        let ghost bs = steps_view(block_out@);
        out.append(&mut block_out);
        proof {
            assert(entries@.take(k + 1).drop_last() =~= entries@.take(k as int));
            assert(entries@.take(k + 1).last() == entries@[k as int]);
            assert(steps_view(out@) =~= prev + bs);
            assert(steps_view(out@) =~= plan_steps(url@, start, entries@.take(k + 1)));
        }
        k += 1;
    }
    assert(entries@.take(entries@.len() as int) =~= entries@);
    out
}

/// The blocks a run of the consumer forwards, given the server's reply to
/// the request for its last checkpoint: none when the request failed (the
/// round is skipped), else those after the checkpoint.
pub fn consumer_range(reply: &Result<Option<u64>, HttpError>, current_block: u64) -> (r: Option<
    (u64, u64),
>)
    requires
        reply matches Ok(Some(n)) ==> n + MAX_BLOCKS_PER_INVOCATION < u64::MAX,
    ensures
        match reply {
            Err(_) => r is None,
            Ok(c) => r == spec_blocks_to_forward(*c, current_block),
        },
{
    match reply {
        Err(_) => None,
        Ok(c) => blocks_to_forward(*c, current_block),
    }
}

/// What the consumer does next.
#[derive(Debug, Clone, Copy, PartialEq, Eq)]
pub enum ConsumerAction {
    /// Carry out the planned step at this position.
    Perform(usize),
    /// Every planned step was carried out.
    Done,
    /// A request failed: the run stops with its error, carrying out no
    /// later step.
    Stop(HttpError),
}

/// Decides the consumer's next action.  `next` is the position of the next
/// planned step; `reply` is the indexer's reply to the step just carried
/// out, if that step was a request.  A failed request stops the run, so no
/// request for a later block is sent and no later record is removed;
/// otherwise the steps are carried out in order.
pub fn consumer_step(
    steps: &Vec<ForwardStep>,
    next: usize,
    reply: Option<Result<(), HttpError>>,
) -> (r: ConsumerAction)
    requires
        next <= steps@.len(),
    ensures
        r == match reply {
            Some(Err(e)) => ConsumerAction::Stop(e),
            _ => if next < steps@.len() {
                ConsumerAction::Perform(next)
            } else {
                ConsumerAction::Done
            },
        },
{
    match reply {
        Some(Err(e)) => ConsumerAction::Stop(e),
        _ => if next < steps.len() {
            ConsumerAction::Perform(next)
        } else {
            ConsumerAction::Done
        },
    }
}

} // verus!
