//! The receipt database: the statements that change it, as text with bound values and as what they
//! do to its three tables.
//!
//! - `transaction_hashes` says in which block and at which index a transaction stands. Its key is
//!   the transaction hash.
//! - `eth_to_substrate_blocks` maps Ethereum block hashes to Substrate block hashes. Its key is the
//!   Ethereum block hash.
//! - `logs` holds the emitted logs. Its `block_hash` is that of the Ethereum block.

use crate::primitives::{H160, H256};
use vstd::prelude::*;

verus! {

/// A value that is bound to a statement or read from a row.
#[derive(Debug)]
pub enum SqlValue {
    /// Nothing.
    Null,
    /// An integer.
    Integer(i64),
    /// Bytes.
    Blob(Vec<u8>),
}

/// What a bound value is.
pub ghost enum SqlValueView {
    Null,
    Integer(int),
    Blob(Seq<u8>),
}

impl View for SqlValue {
    type V = SqlValueView;

    open spec fn view(&self) -> SqlValueView {
        match *self {
            SqlValue::Null => SqlValueView::Null,
            SqlValue::Integer(value) => SqlValueView::Integer(value as int),
            SqlValue::Blob(bytes) => SqlValueView::Blob(bytes@),
        }
    }
}

/// What each bound value is.
pub open spec fn value_views(values: Seq<SqlValue>) -> Seq<SqlValueView> {
    values.map_values(|value: SqlValue| value@)
}

/// Each blob as a bound value.
pub open spec fn blobs(bytes: Seq<Seq<u8>>) -> Seq<SqlValueView> {
    bytes.map_values(|bytes: Seq<u8>| SqlValueView::Blob(bytes))
}

/// A blob as a bound value, or null where there is none.
pub open spec fn nullable(bytes: Option<Seq<u8>>) -> SqlValueView {
    match bytes {
        Some(bytes) => SqlValueView::Blob(bytes),
        None => SqlValueView::Null,
    }
}

/// A row of the table `logs`.
#[derive(Debug)]
pub struct LogRow {
    /// The hash of the Ethereum block.
    pub block_hash: H256,
    /// The index of the transaction.
    pub transaction_index: i32,
    /// The position of the log in its receipt.
    pub log_index: i32,
    /// The contract that emitted the log.
    pub address: H160,
    /// The number of the block.
    pub block_number: i64,
    /// The hash of the transaction.
    pub transaction_hash: H256,
    /// The first topic.
    pub topic_0: Option<H256>,
    /// The second topic.
    pub topic_1: Option<H256>,
    /// The third topic.
    pub topic_2: Option<H256>,
    /// The fourth topic.
    pub topic_3: Option<H256>,
    /// The data of the log.
    pub data: Option<Vec<u8>>,
}

/// What a row of the table `logs` holds.
#[verifier::ext_equal]
pub ghost struct LogRowView {
    pub block_hash: Seq<u8>,
    pub transaction_index: int,
    pub log_index: int,
    pub address: Seq<u8>,
    pub block_number: int,
    pub transaction_hash: Seq<u8>,
    pub topic_0: Option<Seq<u8>>,
    pub topic_1: Option<Seq<u8>>,
    pub topic_2: Option<Seq<u8>>,
    pub topic_3: Option<Seq<u8>>,
    pub data: Option<Seq<u8>>,
}

/// The bytes of a hash, where there is one.
pub open spec fn optional_bytes(hash: Option<H256>) -> Option<Seq<u8>> {
    match hash {
        Some(hash) => Some(hash@),
        None => None,
    }
}

impl View for LogRow {
    type V = LogRowView;

    open spec fn view(&self) -> LogRowView {
        LogRowView {
            block_hash: self.block_hash@,
            transaction_index: self.transaction_index as int,
            log_index: self.log_index as int,
            address: self.address@,
            block_number: self.block_number as int,
            transaction_hash: self.transaction_hash@,
            topic_0: optional_bytes(self.topic_0),
            topic_1: optional_bytes(self.topic_1),
            topic_2: optional_bytes(self.topic_2),
            topic_3: optional_bytes(self.topic_3),
            data: crate::evm::data_bytes(self.data),
        }
    }
}

/// A statement that changes the database.
#[derive(Debug)]
pub enum Statement {
    /// Delete the transactions of the Substrate blocks with these hashes.
    DeleteTransactions(Vec<H256>),
    /// Delete the logs of the Ethereum blocks with these hashes.
    DeleteLogs(Vec<H256>),
    /// Delete the mappings to the Substrate blocks with these hashes.
    DeleteMappings(Vec<H256>),
    /// Insert the place of a transaction, replacing what was there for its hash.
    InsertTransaction {
        /// The hash of the transaction.
        transaction_hash: H256,
        /// The hash of the Substrate block.
        block_hash: H256,
        /// The index of the transaction.
        transaction_index: i32,
    },
    /// Insert a log.
    InsertLog(LogRow),
    /// Insert a mapping, replacing what was there for the Ethereum block.
    InsertMapping {
        /// The hash of the Ethereum block.
        ethereum_hash: H256,
        /// The hash of the Substrate block.
        substrate_hash: H256,
    },
}

/// What a statement is.
#[verifier::ext_equal]
pub ghost enum StatementView {
    DeleteTransactions(Seq<Seq<u8>>),
    DeleteLogs(Seq<Seq<u8>>),
    DeleteMappings(Seq<Seq<u8>>),
    InsertTransaction { transaction_hash: Seq<u8>, block_hash: Seq<u8>, transaction_index: int },
    InsertLog(LogRowView),
    InsertMapping { ethereum_hash: Seq<u8>, substrate_hash: Seq<u8> },
}

impl View for Statement {
    type V = StatementView;

    open spec fn view(&self) -> StatementView {
        match *self {
            Statement::DeleteTransactions(hashes) => StatementView::DeleteTransactions(
                crate::evm::hash_bytes(hashes@),
            ),
            Statement::DeleteLogs(hashes) => StatementView::DeleteLogs(
                crate::evm::hash_bytes(hashes@),
            ),
            Statement::DeleteMappings(hashes) => StatementView::DeleteMappings(
                crate::evm::hash_bytes(hashes@),
            ),
            Statement::InsertTransaction {
                transaction_hash,
                block_hash,
                transaction_index,
            } => StatementView::InsertTransaction {
                transaction_hash: transaction_hash@,
                block_hash: block_hash@,
                transaction_index: transaction_index as int,
            },
            Statement::InsertLog(row) => StatementView::InsertLog(row@),
            Statement::InsertMapping {
                ethereum_hash,
                substrate_hash,
            } => StatementView::InsertMapping {
                ethereum_hash: ethereum_hash@,
                substrate_hash: substrate_hash@,
            },
        }
    }
}

/// What each statement is.
pub open spec fn statement_views(statements: Seq<Statement>) -> Seq<StatementView> {
    statements.map_values(|statement: Statement| statement@)
}

/// The contents of the database.
#[verifier::ext_equal]
pub ghost struct Tables {
    /// The block hash and the index of each transaction, by its hash.
    pub transactions: Map<Seq<u8>, (Seq<u8>, int)>,
    /// The Substrate block hash of each Ethereum block hash.
    pub mappings: Map<Seq<u8>, Seq<u8>>,
    /// The logs, in the order in which they were inserted.
    pub logs: Seq<LogRowView>,
}

impl Tables {
    /// A database without rows.
    pub open spec fn empty() -> Tables {
        Tables { transactions: Map::empty(), mappings: Map::empty(), logs: seq![] }
    }

    /// The database after a statement was executed.
    pub open spec fn after(self, statement: StatementView) -> Tables {
        match statement {
            StatementView::DeleteTransactions(hashes) => Tables {
                transactions: Map::new(
                    |hash: Seq<u8>|
                        self.transactions.contains_key(hash) && !hashes.contains(
                            self.transactions[hash].0,
                        ),
                    |hash: Seq<u8>| self.transactions[hash],
                ),
                ..self
            },
            StatementView::DeleteLogs(hashes) => Tables {
                logs: self.logs.filter(|row: LogRowView| !hashes.contains(row.block_hash)),
                ..self
            },
            StatementView::DeleteMappings(hashes) => Tables {
                mappings: Map::new(
                    |hash: Seq<u8>|
                        self.mappings.contains_key(hash) && !hashes.contains(self.mappings[hash]),
                    |hash: Seq<u8>| self.mappings[hash],
                ),
                ..self
            },
            StatementView::InsertTransaction {
                transaction_hash,
                block_hash,
                transaction_index,
            } => Tables {
                transactions: self.transactions.insert(
                    transaction_hash,
                    (block_hash, transaction_index),
                ),
                ..self
            },
            StatementView::InsertLog(row) => Tables { logs: self.logs.push(row), ..self },
            StatementView::InsertMapping { ethereum_hash, substrate_hash } => Tables {
                mappings: self.mappings.insert(ethereum_hash, substrate_hash),
                ..self
            },
        }
    }

    /// The database after statements were executed in order.
    pub open spec fn after_all(self, statements: Seq<StatementView>) -> Tables
        decreases statements.len(),
    {
        if statements.len() == 0 {
            self
        } else {
            self.after_all(statements.drop_last()).after(statements.last())
        }
    }

    /// Whether an Ethereum block is mapped to the Substrate block with this hash.
    pub open spec fn has_block(self, substrate_hash: Seq<u8>) -> bool {
        exists|ethereum_hash: Seq<u8>| #[trigger]
            self.mappings.contains_key(ethereum_hash) && self.mappings[ethereum_hash]
                == substrate_hash
    }

    /// The row that a query for a transaction finds: its block hash and its index.
    pub open spec fn transaction_row(self, transaction_hash: Seq<u8>) -> Option<(Seq<u8>, int)> {
        if self.transactions.contains_key(transaction_hash) {
            Some(self.transactions[transaction_hash])
        } else {
            None
        }
    }

    /// The row that a query for the Substrate block of an Ethereum block finds.
    pub open spec fn substrate_row(self, ethereum_hash: Seq<u8>) -> Option<Seq<u8>> {
        if self.mappings.contains_key(ethereum_hash) {
            Some(self.mappings[ethereum_hash])
        } else {
            None
        }
    }

    /// Whether a query for the Ethereum block of a Substrate block may find this row.
    pub open spec fn may_be_ethereum_row(
        self,
        substrate_hash: Seq<u8>,
        row: Option<Seq<u8>>,
    ) -> bool {
        match row {
            Some(ethereum_hash) => self.mappings.contains_key(ethereum_hash)
                && self.mappings[ethereum_hash] == substrate_hash,
            None => !self.has_block(substrate_hash),
        }
    }

    /// The hashes of the transactions of a Substrate block.
    pub open spec fn transactions_of(self, block_hash: Seq<u8>) -> Set<Seq<u8>> {
        Set::new(
            |hash: Seq<u8>|
                self.transactions.contains_key(hash) && self.transactions[hash].0 == block_hash,
        )
    }
}

/// What a filtered sequence holds was there before.
pub(crate) proof fn lemma_filtered_rows(
    rows: Seq<LogRowView>,
    keep: spec_fn(LogRowView) -> bool,
)
    ensures
        forall|row: LogRowView| #[trigger]
            rows.filter(keep).contains(row) <==> rows.contains(row) && keep(row),
    decreases rows.len(),
{
    reveal(Seq::filter);
    let kept = rows.filter(keep);
    if rows.len() > 0 {
        let before = rows.drop_last();
        lemma_filtered_rows(before, keep);
        assert forall|row: LogRowView| #[trigger] kept.contains(row) <==> rows.contains(row)
            && keep(row) by {
            if kept.contains(row) {
                let i = choose|i: int| 0 <= i < kept.len() && kept[i] == row;
                if i < before.filter(keep).len() {
                    assert(before.filter(keep)[i] == row);
                    assert(before.filter(keep).contains(row));
                    let j = choose|j: int| 0 <= j < before.len() && before[j] == row;
                    assert(rows[j] == row);
                } else {
                    assert(rows[rows.len() - 1] == row);
                }
            }
            if rows.contains(row) && keep(row) {
                let j = choose|j: int| 0 <= j < rows.len() && rows[j] == row;
                if j < before.len() {
                    assert(before[j] == row);
                    assert(before.filter(keep).contains(row));
                    let i = choose|i: int|
                        0 <= i < before.filter(keep).len() && before.filter(keep)[i] == row;
                    assert(kept[i] == row);
                } else {
                    assert(kept[kept.len() - 1] == row);
                }
            }
        }
    }
}

/// Placeholders for bound values, separated by commas.
pub open spec fn placeholders(count: nat) -> Seq<char>
    decreases count,
{
    if count == 0 {
        seq![]
    } else if count == 1 {
        "?"@
    } else {
        placeholders((count - 1) as nat) + ", ?"@
    }
}

/// Writes out placeholders for bound values.
pub fn write_placeholders(count: usize) -> (text: String)
    ensures
        text@ == placeholders(count as nat),
{
    let mut text = String::new();
    if count == 0 {
        assert(text@ =~= seq![]);
        return text;
    }
    text.append("?");
    assert(text@ =~= "?"@);
    let mut i: usize = 1;
    while i < count
        invariant
            1 <= i <= count,
            text@ == placeholders(i as nat),
        decreases count - i,
    {
        text.append(", ?");
        i += 1;
    }
    text
}

/// A statement that deletes the rows of a table whose column is one of `count` bound values.
pub open spec fn delete_text(head: Seq<char>, count: nat) -> Seq<char> {
    head + placeholders(count) + ")"@
}

fn write_delete(head: &str, count: usize) -> (text: String)
    ensures
        text@ == delete_text(head@, count as nat),
{
    let mut text = String::from_str(head);
    let list = write_placeholders(count);
    text.append(list.as_str());
    text.append(")");
    text
}

impl StatementView {
    /// The text of the statement.
    pub open spec fn sql(self) -> Seq<char> {
        match self {
            StatementView::DeleteTransactions(hashes) => delete_text(
                "DELETE FROM transaction_hashes WHERE block_hash in ("@,
                hashes.len(),
            ),
            StatementView::DeleteLogs(hashes) => delete_text(
                "DELETE FROM logs WHERE block_hash in ("@,
                hashes.len(),
            ),
            StatementView::DeleteMappings(hashes) => delete_text(
                "DELETE FROM eth_to_substrate_blocks WHERE substrate_block_hash in ("@,
                hashes.len(),
            ),
            StatementView::InsertTransaction { .. } =>
                "INSERT OR REPLACE INTO transaction_hashes (transaction_hash, block_hash, transaction_index) VALUES ($1, $2, $3)"@,
            StatementView::InsertLog(_) =>
                "INSERT INTO logs(block_hash, transaction_index, log_index, address, block_number, transaction_hash, topic_0, topic_1, topic_2, topic_3, data) VALUES ($1, $2, $3, $4, $5, $6, $7, $8, $9, $10, $11)"@,
            StatementView::InsertMapping { .. } =>
                "INSERT OR REPLACE INTO eth_to_substrate_blocks (ethereum_block_hash, substrate_block_hash) VALUES ($1, $2)"@,
        }
    }

    /// The values that are bound to the statement, in order.
    pub open spec fn binds(self) -> Seq<SqlValueView> {
        match self {
            StatementView::DeleteTransactions(hashes) => blobs(hashes),
            StatementView::DeleteLogs(hashes) => blobs(hashes),
            StatementView::DeleteMappings(hashes) => blobs(hashes),
            StatementView::InsertTransaction {
                transaction_hash,
                block_hash,
                transaction_index,
            } => seq![
                SqlValueView::Blob(transaction_hash),
                SqlValueView::Blob(block_hash),
                SqlValueView::Integer(transaction_index),
            ],
            StatementView::InsertLog(row) => seq![
                SqlValueView::Blob(row.block_hash),
                SqlValueView::Integer(row.transaction_index),
                SqlValueView::Integer(row.log_index),
                SqlValueView::Blob(row.address),
                SqlValueView::Integer(row.block_number),
                SqlValueView::Blob(row.transaction_hash),
                nullable(row.topic_0),
                nullable(row.topic_1),
                nullable(row.topic_2),
                nullable(row.topic_3),
                nullable(row.data),
            ],
            StatementView::InsertMapping { ethereum_hash, substrate_hash } => seq![
                SqlValueView::Blob(ethereum_hash),
                SqlValueView::Blob(substrate_hash),
            ],
        }
    }
}

/// Binds each hash as a blob.
pub fn bind_hashes(hashes: &Vec<H256>) -> (values: Vec<SqlValue>)
    ensures
        value_views(values@) == blobs(crate::evm::hash_bytes(hashes@)),
{
    let mut values: Vec<SqlValue> = Vec::new();
    let mut i: usize = 0;
    while i < hashes.len()
        invariant
            i <= hashes@.len(),
            values@.len() == i,
            forall|j: int| 0 <= j < i ==> (#[trigger] values@[j])@ == SqlValueView::Blob(hashes@[j]@),
        decreases hashes@.len() - i,
    {
        values.push(SqlValue::Blob(hashes[i].to_vec()));
        i += 1;
    }
    assert(value_views(values@) =~= blobs(crate::evm::hash_bytes(hashes@)));
    values
}

/// Binds a hash as a blob, or null where there is none.
fn bind_optional(hash: &Option<H256>) -> (value: SqlValue)
    ensures
        value@ == nullable(optional_bytes(*hash)),
{
    match hash {
        Some(hash) => SqlValue::Blob(hash.to_vec()),
        None => SqlValue::Null,
    }
}

impl Statement {
    /// The text of the statement.
    pub fn sql(&self) -> (text: String)
        ensures
            text@ == self@.sql(),
    {
        match self {
            Statement::DeleteTransactions(hashes) => write_delete(
                "DELETE FROM transaction_hashes WHERE block_hash in (",
                hashes.len(),
            ),
            Statement::DeleteLogs(hashes) => write_delete(
                "DELETE FROM logs WHERE block_hash in (",
                hashes.len(),
            ),
            Statement::DeleteMappings(hashes) => write_delete(
                "DELETE FROM eth_to_substrate_blocks WHERE substrate_block_hash in (",
                hashes.len(),
            ),
            Statement::InsertTransaction { .. } => String::from_str(
                "INSERT OR REPLACE INTO transaction_hashes (transaction_hash, block_hash, transaction_index) VALUES ($1, $2, $3)",
            ),
            Statement::InsertLog(_) => String::from_str(
                "INSERT INTO logs(block_hash, transaction_index, log_index, address, block_number, transaction_hash, topic_0, topic_1, topic_2, topic_3, data) VALUES ($1, $2, $3, $4, $5, $6, $7, $8, $9, $10, $11)",
            ),
            Statement::InsertMapping { .. } => String::from_str(
                "INSERT OR REPLACE INTO eth_to_substrate_blocks (ethereum_block_hash, substrate_block_hash) VALUES ($1, $2)",
            ),
        }
    }

    /// The values that are bound to the statement, in order.
    pub fn binds(&self) -> (values: Vec<SqlValue>)
        ensures
            value_views(values@) == self@.binds(),
    {
        match self {
            Statement::DeleteTransactions(hashes) => bind_hashes(hashes),
            Statement::DeleteLogs(hashes) => bind_hashes(hashes),
            Statement::DeleteMappings(hashes) => bind_hashes(hashes),
            Statement::InsertTransaction { transaction_hash, block_hash, transaction_index } => {
                let values = vec![
                    SqlValue::Blob(transaction_hash.to_vec()),
                    SqlValue::Blob(block_hash.to_vec()),
                    SqlValue::Integer(*transaction_index as i64),
                ];
                assert(value_views(values@) =~= self@.binds());
                values
            },
            Statement::InsertLog(row) => {
                let data = match &row.data {
                    Some(data) => SqlValue::Blob(data.clone()),
                    None => SqlValue::Null,
                };
                let values = vec![
                    SqlValue::Blob(row.block_hash.to_vec()),
                    SqlValue::Integer(row.transaction_index as i64),
                    SqlValue::Integer(row.log_index as i64),
                    SqlValue::Blob(row.address.to_vec()),
                    SqlValue::Integer(row.block_number),
                    SqlValue::Blob(row.transaction_hash.to_vec()),
                    bind_optional(&row.topic_0),
                    bind_optional(&row.topic_1),
                    bind_optional(&row.topic_2),
                    bind_optional(&row.topic_3),
                    data,
                ];
                assert(value_views(values@) =~= self@.binds());
                values
            },
            Statement::InsertMapping { ethereum_hash, substrate_hash } => {
                let values = vec![
                    SqlValue::Blob(ethereum_hash.to_vec()),
                    SqlValue::Blob(substrate_hash.to_vec()),
                ];
                assert(value_views(values@) =~= self@.binds());
                values
            },
        }
    }
}

/// A query by a hash.
#[derive(Clone, Copy, Debug)]
pub enum Query {
    /// The block and the index of the transaction with this hash.
    FindTransaction(H256),
    /// The Substrate block of the Ethereum block with this hash.
    SubstrateHash(H256),
    /// The Ethereum block of the Substrate block with this hash.
    EthereumHash(H256),
    /// How many transactions the Substrate block with this hash has.
    ReceiptsCount(H256),
    /// The transactions of the Substrate block with this hash, by index.
    BlockTransactions(H256),
    /// Whether there is a mapping to the Substrate block with this hash.
    BlockExists(H256),
}

/// What a query is answered.
pub ghost enum Answer {
    /// The block hash and the index of a transaction, where it is there.
    Transaction(Option<(Seq<u8>, int)>),
    /// A block hash, where it is there.
    BlockHash(Option<Seq<u8>>),
    /// A number of rows.
    Count(nat),
    /// The index and the hash of each of some transactions.
    Transactions(Seq<(int, Seq<u8>)>),
    /// Whether there is something.
    Exists(bool),
}

impl Tables {
    /// Whether these are the rows of the transactions of a Substrate block, each once, in any order.
    pub open spec fn are_rows_of(self, block_hash: Seq<u8>, rows: Seq<(int, Seq<u8>)>) -> bool {
        &&& rows.no_duplicates()
        &&& forall|row: (int, Seq<u8>)| #[trigger]
            rows.contains(row) <==> self.transaction_row(row.1) == Some((block_hash, row.0))
    }
}

impl Query {
    /// Whether the query may be answered like this by a database with these tables. Only where
    /// several rows are found, or where one of several, is the answer left open.
    pub open spec fn may_answer(self, tables: Tables, answer: Answer) -> bool {
        match self {
            Query::FindTransaction(hash) => answer == Answer::Transaction(
                tables.transaction_row(hash@),
            ),
            Query::SubstrateHash(hash) => answer == Answer::BlockHash(tables.substrate_row(hash@)),
            Query::EthereumHash(hash) => answer matches Answer::BlockHash(row)
                && tables.may_be_ethereum_row(hash@, row),
            Query::ReceiptsCount(hash) => answer == Answer::Count(
                tables.transactions_of(hash@).len(),
            ),
            Query::BlockTransactions(hash) => answer matches Answer::Transactions(rows)
                && tables.are_rows_of(hash@, rows),
            Query::BlockExists(hash) => answer == Answer::Exists(tables.has_block(hash@)),
        }
    }

    /// The text of the query.
    pub open spec fn text(self) -> Seq<char> {
        match self {
            Query::FindTransaction(_) =>
                "SELECT block_hash, transaction_index FROM transaction_hashes WHERE transaction_hash = $1"@,
            Query::SubstrateHash(_) =>
                "SELECT substrate_block_hash FROM eth_to_substrate_blocks WHERE ethereum_block_hash = $1"@,
            Query::EthereumHash(_) =>
                "SELECT ethereum_block_hash FROM eth_to_substrate_blocks WHERE substrate_block_hash = $1"@,
            Query::ReceiptsCount(_) =>
                "SELECT COUNT(*) FROM transaction_hashes WHERE block_hash = ?"@,
            Query::BlockTransactions(_) =>
                "SELECT transaction_index, transaction_hash FROM transaction_hashes WHERE block_hash = ?"@,
            Query::BlockExists(_) =>
                "SELECT EXISTS(SELECT 1 FROM eth_to_substrate_blocks WHERE substrate_block_hash = ?)"@,
        }
    }

    /// The hash that is bound to the query.
    pub open spec fn hash(self) -> H256 {
        match self {
            Query::FindTransaction(hash) => hash,
            Query::SubstrateHash(hash) => hash,
            Query::EthereumHash(hash) => hash,
            Query::ReceiptsCount(hash) => hash,
            Query::BlockTransactions(hash) => hash,
            Query::BlockExists(hash) => hash,
        }
    }

    /// The text of the query.
    pub fn sql(&self) -> (text: String)
        ensures
            text@ == self.text(),
    {
        match self {
            Query::FindTransaction(_) => String::from_str(
                "SELECT block_hash, transaction_index FROM transaction_hashes WHERE transaction_hash = $1",
            ),
            Query::SubstrateHash(_) => String::from_str(
                "SELECT substrate_block_hash FROM eth_to_substrate_blocks WHERE ethereum_block_hash = $1",
            ),
            Query::EthereumHash(_) => String::from_str(
                "SELECT ethereum_block_hash FROM eth_to_substrate_blocks WHERE substrate_block_hash = $1",
            ),
            Query::ReceiptsCount(_) => String::from_str(
                "SELECT COUNT(*) FROM transaction_hashes WHERE block_hash = ?",
            ),
            Query::BlockTransactions(_) => String::from_str(
                "SELECT transaction_index, transaction_hash FROM transaction_hashes WHERE block_hash = ?",
            ),
            Query::BlockExists(_) => String::from_str(
                "SELECT EXISTS(SELECT 1 FROM eth_to_substrate_blocks WHERE substrate_block_hash = ?)",
            ),
        }
    }

    /// The value that is bound to the query.
    pub fn bind(&self) -> (value: SqlValue)
        ensures
            value@ == SqlValueView::Blob(self.hash()@),
    {
        let hash = match self {
            Query::FindTransaction(hash) => hash,
            Query::SubstrateHash(hash) => hash,
            Query::EthereumHash(hash) => hash,
            Query::ReceiptsCount(hash) => hash,
            Query::BlockTransactions(hash) => hash,
            Query::BlockExists(hash) => hash,
        };
        SqlValue::Blob(hash.to_vec())
    }
}

} // verus!
