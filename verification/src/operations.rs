//! The remote operations that are sent through a pool, and how each of them
//! is retried.

use vstd::prelude::*;
use vstd::string::*;

verus! {

/// The time that one attempt is given, in seconds. It is the same for every
/// operation and every provider.
pub const ATTEMPT_TIMEOUT_SECS: u64 = 20;

/// A remote operation on a network.
#[derive(Clone, Copy, Debug, PartialEq, Eq, Structural)]
pub enum Operation {
    /// Ask for the identity of the network.
    NetIdentifiers,
    /// Fetch the header of the latest block.
    LatestBlockHeader,
    /// Fetch the latest block with its transactions.
    LatestBlock,
    /// Load a block by its hash; the block has to exist.
    LoadBlock,
    /// Load a block by its hash, if there is one.
    BlockByHash,
    /// Load a block by its number, if there is one.
    BlockByNumber,
    /// Load the receipts that make a light block a full one.
    LoadFullBlock,
    /// Find the block pointer that belongs to a block number.
    BlockPointerFromNumber,
    /// Find the hash of the block with a given number.
    BlockHashByBlockNumber,
    /// Fetch the uncles of a block.
    Uncles,
    /// Decide whether a block is on the main chain.
    IsOnMainChain,
    /// Fetch the calls that were made within a block.
    CallsInBlock,
    /// Call a contract without changing its state.
    ContractCall,
    /// Load a set of blocks by their hashes.
    LoadBlocks,
    /// Find the block pointers of a range of block numbers.
    BlockRangeToPtrs,
}

/// How an operation is retried.
pub struct RetryPlan {
    /// What the operation is called in diagnostics.
    pub label: String,
    /// The number of attempts that may be made.
    pub limit: usize,
    /// The time that one attempt is given, in seconds.
    pub timeout_secs: u64,
}

impl Operation {
    /// What the operation is called in diagnostics.
    pub open spec fn label_text(self) -> Seq<char> {
        match self {
            Operation::NetIdentifiers => "NetworkAdapters: net_version RPC call"@,
            Operation::LatestBlockHeader =>
                "NetworkAdapters: eth_getBlockByNumber(latest) no txs RPC call"@,
            Operation::LatestBlock
            | Operation::LoadBlock
            | Operation::BlockByHash
            | Operation::BlockByNumber =>
                "NetworkAdapters: eth_getBlockByNumber(latest) with txs RPC call"@,
            Operation::LoadFullBlock =>
                "NetworkAdapters: batch eth_getTransactionReceipt RPC call"@,
            Operation::BlockPointerFromNumber => "NetworkAdapters: block pointer from number"@,
            Operation::BlockHashByBlockNumber => "NetworkAdapters: block hash by block number"@,
            Operation::Uncles => "NetworkAdapters: eth_getUncleByBlockHashAndIndex RPC call"@,
            Operation::IsOnMainChain => "NetworkAdapters: is on main chain"@,
            Operation::CallsInBlock => "NetworkAdapters: calls in block"@,
            Operation::ContractCall => "NetworkAdapters: contract call"@,
            Operation::LoadBlocks => "NetworkAdapters: load blocks"@,
            Operation::BlockRangeToPtrs => "NetworkAdapters: block range to ptrs"@,
        }
    }

    /// What the caller is told when every attempt timed out, for the
    /// operations that have a wording of their own.
    pub open spec fn timeout_text(self) -> Option<Seq<char>> {
        match self {
            Operation::LatestBlockHeader => Some(
                "All compatible Ethereum nodes took too long to return latest block header"@,
            ),
            Operation::LatestBlock => Some(
                "All compatible Ethereum nodes took too long to return latest block"@,
            ),
            Operation::LoadFullBlock => Some(
                "All compatible Ethereum nodes took too long to load full block"@,
            ),
            Operation::BlockPointerFromNumber => Some(
                "All compatible Ethereum nodes took too long to return block pointer from number"@,
            ),
            _ => None,
        }
    }

    /// What the caller is told when every attempt timed out: the wording
    /// of the operation's own where it has one, and else its label with the
    /// remark that no provider answered in time.
    pub open spec fn timeout_report_text(self) -> Seq<char> {
        match self.timeout_text() {
            Some(words) => words,
            None => self.label_text() + ": all eligible endpoints failed to respond in time"@,
        }
    }

    /// What the operation is called in diagnostics.
    pub fn label(&self) -> (text: &'static str)
        ensures
            text@ == self.label_text(),
    {
        match self {
            Operation::NetIdentifiers => "NetworkAdapters: net_version RPC call",
            Operation::LatestBlockHeader =>
                "NetworkAdapters: eth_getBlockByNumber(latest) no txs RPC call",
            Operation::LatestBlock
            | Operation::LoadBlock
            | Operation::BlockByHash
            | Operation::BlockByNumber =>
                "NetworkAdapters: eth_getBlockByNumber(latest) with txs RPC call",
            Operation::LoadFullBlock => "NetworkAdapters: batch eth_getTransactionReceipt RPC call",
            Operation::BlockPointerFromNumber => "NetworkAdapters: block pointer from number",
            Operation::BlockHashByBlockNumber => "NetworkAdapters: block hash by block number",
            Operation::Uncles => "NetworkAdapters: eth_getUncleByBlockHashAndIndex RPC call",
            Operation::IsOnMainChain => "NetworkAdapters: is on main chain",
            Operation::CallsInBlock => "NetworkAdapters: calls in block",
            Operation::ContractCall => "NetworkAdapters: contract call",
            Operation::LoadBlocks => "NetworkAdapters: load blocks",
            Operation::BlockRangeToPtrs => "NetworkAdapters: block range to ptrs",
        }
    }

    /// What the caller is told when every attempt timed out, where the
    /// operation has a wording of its own.
    pub fn timeout_message(&self) -> (text: Option<&'static str>)
        ensures
            match text {
                Some(words) => self.timeout_text() == Some(words@),
                None => self.timeout_text() is None,
            },
    {
        match self {
            Operation::LatestBlockHeader => Some(
                "All compatible Ethereum nodes took too long to return latest block header",
            ),
            Operation::LatestBlock => Some(
                "All compatible Ethereum nodes took too long to return latest block",
            ),
            Operation::LoadFullBlock => Some(
                "All compatible Ethereum nodes took too long to load full block",
            ),
            Operation::BlockPointerFromNumber => Some(
                "All compatible Ethereum nodes took too long to return block pointer from number",
            ),
            _ => None,
        }
    }

    /// What the caller is told when every attempt timed out.
    pub fn timeout_report(&self) -> (text: String)
        ensures
            text@ == self.timeout_report_text(),
    {
        match self.timeout_message() {
            Some(words) => String::from_str(words),
            None => {
                let mut text = String::from_str(self.label());
                text.append(": all eligible endpoints failed to respond in time");
                text
            },
        }
    }

    /// How the operation is retried on a pool of `candidates` providers:
    /// under its label, with one attempt for each provider and the same
    /// time for each attempt.
    pub fn plan(&self, candidates: usize) -> (plan: RetryPlan)
        ensures
            plan.label@ == self.label_text(),
            plan.limit == candidates,
            plan.timeout_secs == ATTEMPT_TIMEOUT_SECS,
    {
        RetryPlan {
            label: String::from_str(self.label()),
            limit: candidates,
            timeout_secs: ATTEMPT_TIMEOUT_SECS,
        }
    }
}

} // verus!
