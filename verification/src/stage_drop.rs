//! Dropping a stage of the sync pipeline: what has to be undone in the
//! database so that the stage runs again from the genesis block.

use itertools::Itertools;
use vstd::prelude::*;

verus! {

/// A stage that can be dropped.
#[derive(Debug, Clone, Copy, PartialEq, Eq, Structural)]
pub enum Stage {
    Headers,
    Bodies,
    Senders,
    Execution,
    AccountHashing,
    StorageHashing,
    Hashing,
    Merkle,
    TxLookup,
    AccountHistory,
    StorageHistory,
}

/// A kind of data that is kept in static files.
#[derive(Debug, Clone, Copy, PartialEq, Eq, Structural)]
pub enum StaticFileSegment {
    Headers,
    Transactions,
    Receipts,
}

/// A table of the database.
#[derive(Debug, Clone, Copy, PartialEq, Eq, Structural)]
pub enum Table {
    CanonicalHeaders,
    Headers,
    HeaderTerminalDifficulties,
    HeaderNumbers,
    BlockBodyIndices,
    Transactions,
    TransactionBlocks,
    BlockOmmers,
    BlockWithdrawals,
    TransactionSenders,
    PlainAccountState,
    PlainStorageState,
    AccountChangeSets,
    StorageChangeSets,
    Bytecodes,
    Receipts,
    HashedAccounts,
    HashedStorages,
    AccountsTrie,
    StoragesTrie,
    AccountsHistory,
    StoragesHistory,
    TransactionHashNumbers,
}

/// A kind of data that pruning keeps a checkpoint for.
#[derive(Debug, Clone, Copy, PartialEq, Eq, Structural)]
pub enum PruneSegment {
    Transactions,
    SenderRecovery,
    Receipts,
    ContractLogs,
    TransactionLookup,
}

/// A stage as the checkpoint tables name it.
#[derive(Debug, Clone, Copy, PartialEq, Eq, Structural)]
pub enum StageId {
    Headers,
    Bodies,
    SenderRecovery,
    Execution,
    AccountHashing,
    StorageHashing,
    MerkleExecute,
    MerkleUnwind,
    IndexAccountHistory,
    IndexStorageHistory,
    TransactionLookup,
    Finish,
}

/// How much of a segment pruning keeps.
#[derive(Debug, Clone, Copy, PartialEq, Eq, Structural)]
pub enum PruneMode {
    /// Nothing is kept.
    Full,
    /// The given number of blocks before the tip is kept.
    Distance(u64),
    /// Everything from the given block on is kept.
    Before(u64),
}

/// How far a segment has been pruned.
#[derive(Debug, Clone, Copy, PartialEq, Eq, Structural)]
pub struct PruneCheckpoint {
    /// The highest block that was pruned, if any was.
    pub block_number: Option<u64>,
    /// The highest transaction that was pruned, if any was.
    pub tx_number: Option<u64>,
    /// The mode under which the segment was pruned.
    pub prune_mode: PruneMode,
}

/// One step of dropping a stage.
#[derive(Debug, Clone, Copy, PartialEq, Eq, Structural)]
pub enum DropAction {
    /// Empty a table.
    Clear(Table),
    /// Forget how far a segment was pruned, if it has a checkpoint.
    ResetPruneCheckpoint(PruneSegment),
    /// Put the checkpoint of a stage back to the start.
    ResetStageCheckpoint(StageId),
    /// Remove what a stage saved of its unfinished work.
    DeleteStageProgress(StageId),
    /// Write the header of the genesis block again.
    InsertGenesisHeader,
    /// Write the state of the genesis block again.
    InsertGenesisState,
    /// Write the history of the genesis state again.
    InsertGenesisHistory,
}

/// The static files that go with a stage, if it has any.
pub open spec fn segment_of(stage: Stage) -> Option<StaticFileSegment> {
    match stage {
        Stage::Headers => Some(StaticFileSegment::Headers),
        Stage::Bodies => Some(StaticFileSegment::Transactions),
        Stage::Execution => Some(StaticFileSegment::Receipts),
        _ => None,
    }
}

/// What each stage wrote and has to lose, in the order in which it is
/// undone, without the step that every drop ends with.
pub open spec fn undone_by(stage: Stage) -> Seq<DropAction> {
    match stage {
        Stage::Headers => seq![
            DropAction::Clear(Table::CanonicalHeaders),
            DropAction::Clear(Table::Headers),
            DropAction::Clear(Table::HeaderTerminalDifficulties),
            DropAction::Clear(Table::HeaderNumbers),
            DropAction::ResetStageCheckpoint(StageId::Headers),
            DropAction::InsertGenesisHeader,
        ],
        Stage::Bodies => seq![
            DropAction::Clear(Table::BlockBodyIndices),
            DropAction::Clear(Table::Transactions),
            DropAction::ResetPruneCheckpoint(PruneSegment::Transactions),
            DropAction::Clear(Table::TransactionBlocks),
            DropAction::Clear(Table::BlockOmmers),
            DropAction::Clear(Table::BlockWithdrawals),
            DropAction::ResetStageCheckpoint(StageId::Bodies),
            DropAction::InsertGenesisHeader,
        ],
        Stage::Senders => seq![
            DropAction::Clear(Table::TransactionSenders),
            DropAction::ResetPruneCheckpoint(PruneSegment::SenderRecovery),
            DropAction::ResetStageCheckpoint(StageId::SenderRecovery),
        ],
        Stage::Execution => seq![
            DropAction::Clear(Table::PlainAccountState),
            DropAction::Clear(Table::PlainStorageState),
            DropAction::Clear(Table::AccountChangeSets),
            DropAction::Clear(Table::StorageChangeSets),
            DropAction::Clear(Table::Bytecodes),
            DropAction::Clear(Table::Receipts),
            DropAction::ResetPruneCheckpoint(PruneSegment::Receipts),
            DropAction::ResetPruneCheckpoint(PruneSegment::ContractLogs),
            DropAction::ResetStageCheckpoint(StageId::Execution),
            DropAction::InsertGenesisState,
        ],
        Stage::AccountHashing => seq![
            DropAction::Clear(Table::HashedAccounts),
            DropAction::ResetStageCheckpoint(StageId::AccountHashing),
        ],
        Stage::StorageHashing => seq![
            DropAction::Clear(Table::HashedStorages),
            DropAction::ResetStageCheckpoint(StageId::StorageHashing),
        ],
        Stage::Hashing => seq![
            DropAction::Clear(Table::HashedAccounts),
            DropAction::ResetStageCheckpoint(StageId::AccountHashing),
            DropAction::Clear(Table::HashedStorages),
            DropAction::ResetStageCheckpoint(StageId::StorageHashing),
        ],
        Stage::Merkle => seq![
            DropAction::Clear(Table::AccountsTrie),
            DropAction::Clear(Table::StoragesTrie),
            DropAction::ResetStageCheckpoint(StageId::MerkleExecute),
            DropAction::ResetStageCheckpoint(StageId::MerkleUnwind),
            DropAction::DeleteStageProgress(StageId::MerkleExecute),
        ],
        Stage::AccountHistory | Stage::StorageHistory => seq![
            DropAction::Clear(Table::AccountsHistory),
            DropAction::Clear(Table::StoragesHistory),
            DropAction::ResetStageCheckpoint(StageId::IndexAccountHistory),
            DropAction::ResetStageCheckpoint(StageId::IndexStorageHistory),
            DropAction::InsertGenesisHistory,
        ],
        Stage::TxLookup => seq![
            DropAction::Clear(Table::TransactionHashNumbers),
            DropAction::ResetPruneCheckpoint(PruneSegment::TransactionLookup),
            DropAction::ResetStageCheckpoint(StageId::TransactionLookup),
            DropAction::InsertGenesisHeader,
        ],
    }
}

/// The steps of dropping a stage: what the stage wrote is undone, and then
/// the checkpoint that marks the pipeline as finished is put back to the
/// start, so that the pipeline runs again.
pub open spec fn drop_plan(stage: Stage) -> Seq<DropAction> {
    undone_by(stage).push(DropAction::ResetStageCheckpoint(StageId::Finish))
}

/// Dropping the hashing of accounts and storages together undoes what
/// dropping the one and then the other undoes.
pub proof fn law_hashing_is_both_hashing_stages()
    ensures
        undone_by(Stage::Hashing) == undone_by(Stage::AccountHashing) + undone_by(
            Stage::StorageHashing,
        ),
{
    assert(undone_by(Stage::Hashing) =~= undone_by(Stage::AccountHashing) + undone_by(
        Stage::StorageHashing,
    ));
}

/// The static files that go with a stage, if it has any. They are deleted
/// before anything else is done.
pub fn static_file_segment(stage: Stage) -> (segment: Option<StaticFileSegment>)
    ensures
        segment == segment_of(stage),
{
    match stage {
        Stage::Headers => Some(StaticFileSegment::Headers),
        Stage::Bodies => Some(StaticFileSegment::Transactions),
        Stage::Execution => Some(StaticFileSegment::Receipts),
        _ => None,
    }
}

fn clear_all(actions: &mut Vec<DropAction>, tables: &[Table])
    ensures
        final(actions)@ == old(actions)@ + tables@.map_values(|table: Table| DropAction::Clear(table)),
{
    let ghost before = actions@;
    let ghost cleared = tables@.map_values(|table: Table| DropAction::Clear(table));
    let mut i: usize = 0;
    while i < tables.len()
        invariant
            i <= tables.len(),
            cleared == tables@.map_values(|table: Table| DropAction::Clear(table)),
            actions@ == before + cleared.take(i as int),
        decreases tables.len() - i,
    {
        actions.push(DropAction::Clear(tables[i]));
        assert(actions@ =~= before + cleared.take(i + 1));
        i += 1;
    }
    assert(cleared.take(tables.len() as int) =~= cleared);
}

/// The steps of dropping a stage, in order.
pub fn drop_actions(stage: Stage) -> (actions: Vec<DropAction>)
    ensures
        actions@ == drop_plan(stage),
{
    let mut actions: Vec<DropAction> = Vec::new();
    match stage {
        Stage::Headers => {
            clear_all(
                &mut actions,
                &[
                    Table::CanonicalHeaders,
                    Table::Headers,
                    Table::HeaderTerminalDifficulties,
                    Table::HeaderNumbers,
                ],
            );
            actions.push(DropAction::ResetStageCheckpoint(StageId::Headers));
            actions.push(DropAction::InsertGenesisHeader);
        },
        Stage::Bodies => {
            clear_all(&mut actions, &[Table::BlockBodyIndices, Table::Transactions]);
            actions.push(DropAction::ResetPruneCheckpoint(PruneSegment::Transactions));
            clear_all(
                &mut actions,
                &[Table::TransactionBlocks, Table::BlockOmmers, Table::BlockWithdrawals],
            );
            actions.push(DropAction::ResetStageCheckpoint(StageId::Bodies));
            actions.push(DropAction::InsertGenesisHeader);
        },
        Stage::Senders => {
            clear_all(&mut actions, &[Table::TransactionSenders]);
            actions.push(DropAction::ResetPruneCheckpoint(PruneSegment::SenderRecovery));
            actions.push(DropAction::ResetStageCheckpoint(StageId::SenderRecovery));
        },
        Stage::Execution => {
            clear_all(
                &mut actions,
                &[
                    Table::PlainAccountState,
                    Table::PlainStorageState,
                    Table::AccountChangeSets,
                    Table::StorageChangeSets,
                    Table::Bytecodes,
                    Table::Receipts,
                ],
            );
            actions.push(DropAction::ResetPruneCheckpoint(PruneSegment::Receipts));
            actions.push(DropAction::ResetPruneCheckpoint(PruneSegment::ContractLogs));
            actions.push(DropAction::ResetStageCheckpoint(StageId::Execution));
            actions.push(DropAction::InsertGenesisState);
        },
        Stage::AccountHashing => {
            clear_all(&mut actions, &[Table::HashedAccounts]);
            actions.push(DropAction::ResetStageCheckpoint(StageId::AccountHashing));
        },
        Stage::StorageHashing => {
            clear_all(&mut actions, &[Table::HashedStorages]);
            actions.push(DropAction::ResetStageCheckpoint(StageId::StorageHashing));
        },
        Stage::Hashing => {
            clear_all(&mut actions, &[Table::HashedAccounts]);
            actions.push(DropAction::ResetStageCheckpoint(StageId::AccountHashing));
            clear_all(&mut actions, &[Table::HashedStorages]);
            actions.push(DropAction::ResetStageCheckpoint(StageId::StorageHashing));
        },
        Stage::Merkle => {
            clear_all(&mut actions, &[Table::AccountsTrie, Table::StoragesTrie]);
            actions.push(DropAction::ResetStageCheckpoint(StageId::MerkleExecute));
            actions.push(DropAction::ResetStageCheckpoint(StageId::MerkleUnwind));
            actions.push(DropAction::DeleteStageProgress(StageId::MerkleExecute));
        },
        Stage::AccountHistory | Stage::StorageHistory => {
            clear_all(&mut actions, &[Table::AccountsHistory, Table::StoragesHistory]);
            actions.push(DropAction::ResetStageCheckpoint(StageId::IndexAccountHistory));
            actions.push(DropAction::ResetStageCheckpoint(StageId::IndexStorageHistory));
            actions.push(DropAction::InsertGenesisHistory);
        },
        Stage::TxLookup => {
            clear_all(&mut actions, &[Table::TransactionHashNumbers]);
            actions.push(DropAction::ResetPruneCheckpoint(PruneSegment::TransactionLookup));
            actions.push(DropAction::ResetStageCheckpoint(StageId::TransactionLookup));
            actions.push(DropAction::InsertGenesisHeader);
        },
    }
    actions.push(DropAction::ResetStageCheckpoint(StageId::Finish));
    assert(actions@ =~= drop_plan(stage));
    actions
}

/// What is written back for the prune checkpoint of a segment when the
/// stage that fills the segment is dropped: the checkpoint that was stored,
/// with its block and transaction forgotten, so that they do not count as
/// progress when the stage runs again. A segment without a checkpoint gets
/// none.
pub fn reset_prune_checkpoint(stored: Option<PruneCheckpoint>) -> (written: Option<PruneCheckpoint>)
    ensures
        written == match stored {
            Some(checkpoint) => Some(
                PruneCheckpoint {
                    block_number: None,
                    tx_number: None,
                    prune_mode: checkpoint.prune_mode,
                },
            ),
            None => None,
        },
{
    match stored {
        Some(mut checkpoint) => {
            checkpoint.block_number = None;
            checkpoint.tx_number = None;
            Some(checkpoint)
        },
        None => None,
    }
}

/// `Itertools::sorted_by_key`, with each value as its own key: the values
/// in ascending order.
#[verifier::external_body]
fn sorted_ascending(values: Vec<u64>) -> (sorted: Vec<u64>)
    ensures
        sorted@.to_multiset() == values@.to_multiset(),
        forall|i: int, j: int| 0 <= i <= j < sorted.len() ==> sorted[i] <= sorted[j],
{
    values.into_iter().sorted_by_key(|start| *start).collect()
}

/// The order in which the static files of a segment are deleted, each file
/// named by the block that its range starts at: from the highest range to
/// the lowest.
pub fn deletion_order(starts: Vec<u64>) -> (order: Vec<u64>)
    ensures
        order@.to_multiset() == starts@.to_multiset(),
        forall|i: int, j: int| 0 <= i <= j < order.len() ==> order[i] >= order[j],
{
    let sorted = sorted_ascending(starts);
    let mut order: Vec<u64> = Vec::new();
    let mut left: usize = sorted.len();
    while left > 0
        invariant
            left <= sorted.len(),
            order.len() == sorted.len() - left,
            forall|k: int| 0 <= k < order.len() ==> order[k] == sorted[sorted.len() - 1 - k],
        decreases left,
    {
        left -= 1;
        order.push(sorted[left]);
    }
    proof {
        assert(order@ =~= sorted@.reverse());
        sorted@.lemma_reverse_to_multiset();
    }
    order
}

} // verus!
