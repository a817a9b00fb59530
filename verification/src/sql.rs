//! What the texts of statements and queries mean on the tables of the receipt database: rows have
//! cells by column, a text names its columns, and bound values stand for the placeholders in order.

use crate::database::{Query, SqlValue, Statement};
use crate::evm::BlockNumberOrTag;
use crate::log_filter::{
    AddressOrAddresses, Condition, Filter, FilterTopic, LogFilterError, LogQuery,
};
use crate::receipt_provider::ReceiptProvider;
use crate::{database, log_filter, text};
use vstd::prelude::*;

verus! {

/// A column of a table.
pub ghost enum Column {
    TransactionHash,
    BlockHash,
    TransactionIndex,
    EthereumBlockHash,
    SubstrateBlockHash,
    LogIndex,
    Address,
    BlockNumber,
    Topic0,
    Topic1,
    Topic2,
    Topic3,
    Data,
}

impl Column {
    /// The name of the column.
    pub open spec fn name(self) -> Seq<char> {
        match self {
            Column::TransactionHash => "transaction_hash"@,
            Column::BlockHash => "block_hash"@,
            Column::TransactionIndex => "transaction_index"@,
            Column::EthereumBlockHash => "ethereum_block_hash"@,
            Column::SubstrateBlockHash => "substrate_block_hash"@,
            Column::LogIndex => "log_index"@,
            Column::Address => "address"@,
            Column::BlockNumber => "block_number"@,
            Column::Topic0 => "topic_0"@,
            Column::Topic1 => "topic_1"@,
            Column::Topic2 => "topic_2"@,
            Column::Topic3 => "topic_3"@,
            Column::Data => "data"@,
        }
    }
}

/// A table.
pub ghost enum Table {
    Transactions,
    Mappings,
    Logs,
}

impl Table {
    /// The name of the table.
    pub open spec fn name(self) -> Seq<char> {
        match self {
            Table::Transactions => "transaction_hashes"@,
            Table::Mappings => "eth_to_substrate_blocks"@,
            Table::Logs => "logs"@,
        }
    }

    /// Whether the table has the column.
    pub open spec fn has(self, column: Column) -> bool {
        match self {
            Table::Transactions => column is TransactionHash || column is BlockHash
                || column is TransactionIndex,
            Table::Mappings => column is EthereumBlockHash || column is SubstrateBlockHash,
            Table::Logs => !(column is EthereumBlockHash) && !(column is SubstrateBlockHash),
        }
    }
}

/// A row of a table.
pub ghost enum Row {
    /// A transaction, the block that holds it and its index there.
    Transaction(Seq<u8>, Seq<u8>, int),
    /// The Ethereum hash of a block and its Substrate hash.
    Mapping(Seq<u8>, Seq<u8>),
    /// A log.
    Log(database::LogRowView),
}

impl Row {
    /// What stands in a column of the row.
    pub open spec fn cell(self, column: Column) -> database::SqlValueView {
        match self {
            Row::Transaction(transaction_hash, block_hash, index) => match column {
                Column::TransactionHash => database::SqlValueView::Blob(transaction_hash),
                Column::BlockHash => database::SqlValueView::Blob(block_hash),
                Column::TransactionIndex => database::SqlValueView::Integer(index),
                _ => database::SqlValueView::Null,
            },
            Row::Mapping(ethereum_hash, substrate_hash) => match column {
                Column::EthereumBlockHash => database::SqlValueView::Blob(ethereum_hash),
                Column::SubstrateBlockHash => database::SqlValueView::Blob(substrate_hash),
                _ => database::SqlValueView::Null,
            },
            Row::Log(row) => match column {
                Column::BlockHash => database::SqlValueView::Blob(row.block_hash),
                Column::TransactionIndex => database::SqlValueView::Integer(row.transaction_index),
                Column::LogIndex => database::SqlValueView::Integer(row.log_index),
                Column::Address => database::SqlValueView::Blob(row.address),
                Column::BlockNumber => database::SqlValueView::Integer(row.block_number),
                Column::TransactionHash => database::SqlValueView::Blob(row.transaction_hash),
                Column::Topic0 => optional_cell(row.topic_0),
                Column::Topic1 => optional_cell(row.topic_1),
                Column::Topic2 => optional_cell(row.topic_2),
                Column::Topic3 => optional_cell(row.topic_3),
                Column::Data => optional_cell(row.data),
                _ => database::SqlValueView::Null,
            },
        }
    }

    /// Whether the row is in a table of the database.
    pub open spec fn is_in(self, table: Table, tables: database::Tables) -> bool {
        match (table, self) {
            (Table::Transactions, Row::Transaction(transaction_hash, block_hash, index)) =>
                tables.transactions.contains_key(transaction_hash)
                    && tables.transactions[transaction_hash] == (block_hash, index),
            (Table::Mappings, Row::Mapping(ethereum_hash, substrate_hash)) =>
                tables.mappings.contains_key(ethereum_hash) && tables.mappings[ethereum_hash]
                    == substrate_hash,
            (Table::Logs, Row::Log(row)) => tables.logs.contains(row),
            _ => false,
        }
    }
}

/// A cell that may be empty.
pub open spec fn optional_cell(bytes: Option<Seq<u8>>) -> database::SqlValueView {
    match bytes {
        Some(bytes) => database::SqlValueView::Blob(bytes),
        None => database::SqlValueView::Null,
    }
}

/// Whether two values compare as equal. Nothing equals null.
pub open spec fn is_equal(a: database::SqlValueView, b: database::SqlValueView) -> bool {
    a == b && !(a is Null)
}

/// Whether a value is among those of a list.
pub open spec fn is_among(
    value: database::SqlValueView,
    values: Seq<database::SqlValueView>,
) -> bool {
    exists|i: int| 0 <= i < values.len() && is_equal(value, #[trigger] values[i])
}

/// The names of columns, separated by commas.
pub open spec fn names(columns: Seq<Column>) -> Seq<char>
    decreases columns.len(),
{
    if columns.len() == 0 {
        seq![]
    } else if columns.len() == 1 {
        columns[0].name()
    } else {
        names(columns.drop_last()) + ", "@ + columns.last().name()
    }
}

/// Numbered placeholders, separated by commas.
pub open spec fn numbered(count: nat) -> Seq<char>
    decreases count,
{
    if count == 0 {
        seq![]
    } else if count == 1 {
        "$1"@
    } else {
        numbered((count - 1) as nat) + ", $"@ + text::decimal(count)
    }
}

/// A statement in SQL.
pub ghost enum Command {
    /// Puts a row into a table, in place of the one with the same key.
    Replace(Table, Seq<Column>),
    /// Appends a row to a table.
    Insert(Table, Seq<Column>),
    /// Deletes the rows whose column holds one of so many bound values.
    DeleteIn(Table, Column, nat),
}

impl Command {
    /// How the statement is written.
    pub open spec fn text(self) -> Seq<char> {
        match self {
            Command::Replace(table, columns) => "INSERT OR REPLACE INTO "@ + table.name() + " ("@
                + names(columns) + ") VALUES ("@ + numbered(columns.len()) + ")"@,
            Command::Insert(table, columns) => "INSERT INTO "@ + table.name() + "("@ + names(
                columns,
            ) + ") VALUES ("@ + numbered(columns.len()) + ")"@,
            Command::DeleteIn(table, column, count) => "DELETE FROM "@ + table.name() + " WHERE "@
                + column.name() + " in ("@ + database::placeholders(count) + ")"@,
        }
    }

    /// Whether the statement, with these bound values, takes the database from one state to the
    /// other.
    pub open spec fn executes(
        self,
        values: Seq<database::SqlValueView>,
        before: database::Tables,
        after: database::Tables,
    ) -> bool {
        match self {
            Command::Replace(table, columns) => exists|row: Row| #[trigger]
                is_row_of(row, table, columns, values) && (match row {
                    Row::Transaction(transaction_hash, block_hash, index) => after == (
                    database::Tables {
                        transactions: before.transactions.insert(
                            transaction_hash,
                            (block_hash, index),
                        ),
                        ..before
                    }),
                    Row::Mapping(ethereum_hash, substrate_hash) => after == (database::Tables {
                        mappings: before.mappings.insert(ethereum_hash, substrate_hash),
                        ..before
                    }),
                    Row::Log(_) => false,
                }),
            Command::Insert(table, columns) => exists|row: Row| #[trigger]
                is_row_of(row, table, columns, values) && (match row {
                    Row::Log(row) => after == (database::Tables {
                        logs: before.logs.push(row),
                        ..before
                    }),
                    _ => false,
                }),
            Command::DeleteIn(table, column, count) => {
                &&& values.len() == count
                &&& table.has(column)
                &&& match table {
                    Table::Transactions => {
                        &&& after.mappings == before.mappings
                        &&& after.logs == before.logs
                        &&& forall|row: Row| #[trigger]
                            row.is_in(table, after) <==> row.is_in(table, before) && !is_among(
                                row.cell(column),
                                values,
                            )
                    },
                    Table::Mappings => {
                        &&& after.transactions == before.transactions
                        &&& after.logs == before.logs
                        &&& forall|row: Row| #[trigger]
                            row.is_in(table, after) <==> row.is_in(table, before) && !is_among(
                                row.cell(column),
                                values,
                            )
                    },
                    Table::Logs => {
                        &&& after.transactions == before.transactions
                        &&& after.mappings == before.mappings
                        &&& after.logs == before.logs.filter(
                            |row: database::LogRowView|
                                !is_among(Row::Log(row).cell(column), values),
                        )
                    },
                }
            },
        }
    }
}

/// Whether a row of a table has, in each of the columns, the value that is bound at its position,
/// and the columns are those of the table.
pub open spec fn is_row_of(
    row: Row,
    table: Table,
    columns: Seq<Column>,
    values: Seq<database::SqlValueView>,
) -> bool {
    &&& match table {
        Table::Transactions => row is Transaction,
        Table::Mappings => row is Mapping,
        Table::Logs => row is Log,
    }
    &&& columns.len() == values.len()
    &&& forall|column: Column| #[trigger] columns.contains(column) <==> table.has(column)
    &&& forall|i: int| 0 <= i < columns.len() ==> row.cell(#[trigger] columns[i]) == values[i]
}

/// A query in SQL for the rows whose column holds the one bound value.
pub ghost enum Request {
    /// These columns of the rows.
    Select(Seq<Column>, Table, Column),
    /// How many rows there are.
    Count(Table, Column),
    /// Whether there is a row.
    Exists(Table, Column),
}

impl Request {
    /// How the query is written, with the placeholder for the bound value.
    pub open spec fn text(self, placeholder: Seq<char>) -> Seq<char> {
        match self {
            Request::Select(columns, table, by) => "SELECT "@ + names(columns) + " FROM "@
                + table.name() + " WHERE "@ + by.name() + " = "@ + placeholder,
            Request::Count(table, by) => "SELECT COUNT(*) FROM "@ + table.name() + " WHERE "@
                + by.name() + " = "@ + placeholder,
            Request::Exists(table, by) => "SELECT EXISTS(SELECT 1 FROM "@ + table.name()
                + " WHERE "@ + by.name() + " = "@ + placeholder + ")"@,
        }
    }

    /// Whether a row is asked for.
    pub open spec fn finds(
        self,
        row: Row,
        value: database::SqlValueView,
        tables: database::Tables,
    ) -> bool {
        let (table, by) = match self {
            Request::Select(_, table, by) => (table, by),
            Request::Count(table, by) => (table, by),
            Request::Exists(table, by) => (table, by),
        };
        row.is_in(table, tables) && is_equal(row.cell(by), value)
    }

    /// Whether these may be the columns of the first row that is found, or nothing where there is
    /// none.
    pub open spec fn may_give(
        self,
        value: database::SqlValueView,
        tables: database::Tables,
        given: Option<Seq<database::SqlValueView>>,
    ) -> bool {
        self matches Request::Select(columns, _, _) && match given {
            Some(cells) => exists|row: Row| #[trigger]
                self.finds(row, value, tables) && is_selection(row, columns, cells),
            None => forall|row: Row| !(#[trigger] self.finds(row, value, tables)),
        }
    }
}

/// Whether these are the cells of a row in the columns.
pub open spec fn is_selection(
    row: Row,
    columns: Seq<Column>,
    cells: Seq<database::SqlValueView>,
) -> bool {
    &&& cells.len() == columns.len()
    &&& forall|i: int| 0 <= i < columns.len() ==> row.cell(#[trigger] columns[i]) == cells[i]
}

/// A list with one more column ends with its name.
proof fn lemma_names(columns: Seq<Column>, column: Column)
    ensures
        names(columns.push(column)) == (if columns.len() == 0 {
            column.name()
        } else {
            names(columns) + ", "@ + column.name()
        }),
{
    assert(columns.push(column).drop_last() =~= columns);
}

proof fn lemma_transaction_columns() -> (columns: Seq<Column>)
    ensures
        columns.len() == 3,
        columns[0] is TransactionHash,
        columns[1] is BlockHash,
        columns[2] is TransactionIndex,
        Command::Replace(Table::Transactions, columns).text()
            == "INSERT OR REPLACE INTO transaction_hashes (transaction_hash, block_hash, transaction_index) VALUES ($1, $2, $3)"@,
{
    let one = Seq::<Column>::empty().push(Column::TransactionHash);
    let two = one.push(Column::BlockHash);
    let three = two.push(Column::TransactionIndex);
    lemma_names(Seq::empty(), Column::TransactionHash);
    lemma_names(one, Column::BlockHash);
    lemma_names(two, Column::TransactionIndex);
    reveal_with_fuel(numbered, 4);
    reveal_strlit("INSERT OR REPLACE INTO transaction_hashes (transaction_hash, block_hash, transaction_index) VALUES ($1, $2, $3)");
    reveal_strlit("INSERT OR REPLACE INTO ");
    reveal_strlit("transaction_hashes");
    reveal_strlit(" (");
    reveal_strlit("transaction_hash");
    reveal_strlit("block_hash");
    reveal_strlit("transaction_index");
    reveal_strlit(", ");
    reveal_strlit(") VALUES (");
    reveal_strlit("$1");
    reveal_strlit(", $");
    reveal_strlit(")");
    assert(numbered(3) =~= seq!['$', '1', ',', ' ', '$', '2', ',', ' ', '$', '3']);
    three
}

proof fn lemma_mapping_columns() -> (columns: Seq<Column>)
    ensures
        columns.len() == 2,
        columns[0] is EthereumBlockHash,
        columns[1] is SubstrateBlockHash,
        Command::Replace(Table::Mappings, columns).text()
            == "INSERT OR REPLACE INTO eth_to_substrate_blocks (ethereum_block_hash, substrate_block_hash) VALUES ($1, $2)"@,
{
    let one = Seq::<Column>::empty().push(Column::EthereumBlockHash);
    let two = one.push(Column::SubstrateBlockHash);
    lemma_names(Seq::empty(), Column::EthereumBlockHash);
    lemma_names(one, Column::SubstrateBlockHash);
    reveal_with_fuel(numbered, 3);
    reveal_strlit("INSERT OR REPLACE INTO eth_to_substrate_blocks (ethereum_block_hash, substrate_block_hash) VALUES ($1, $2)");
    reveal_strlit("INSERT OR REPLACE INTO ");
    reveal_strlit("eth_to_substrate_blocks");
    reveal_strlit(" (");
    reveal_strlit("ethereum_block_hash");
    reveal_strlit("substrate_block_hash");
    reveal_strlit(", ");
    reveal_strlit(") VALUES (");
    reveal_strlit("$1");
    reveal_strlit(", $");
    reveal_strlit(")");
    assert(numbered(2) =~= seq!['$', '1', ',', ' ', '$', '2']);
    two
}

/// The columns of the table of logs, in the order in which they are written.
proof fn lemma_log_columns() -> (columns: Seq<Column>)
    ensures
        columns == seq![
            Column::BlockHash,
            Column::TransactionIndex,
            Column::LogIndex,
            Column::Address,
            Column::BlockNumber,
            Column::TransactionHash,
            Column::Topic0,
            Column::Topic1,
            Column::Topic2,
            Column::Topic3,
            Column::Data,
        ],
        Command::Insert(Table::Logs, columns).text()
            == "INSERT INTO logs(block_hash, transaction_index, log_index, address, block_number, transaction_hash, topic_0, topic_1, topic_2, topic_3, data) VALUES ($1, $2, $3, $4, $5, $6, $7, $8, $9, $10, $11)"@,
{
    let c0 = Seq::<Column>::empty();
    let c1 = c0.push(Column::BlockHash);
    let c2 = c1.push(Column::TransactionIndex);
    let c3 = c2.push(Column::LogIndex);
    let c4 = c3.push(Column::Address);
    let c5 = c4.push(Column::BlockNumber);
    let c6 = c5.push(Column::TransactionHash);
    let c7 = c6.push(Column::Topic0);
    let c8 = c7.push(Column::Topic1);
    let c9 = c8.push(Column::Topic2);
    let c10 = c9.push(Column::Topic3);
    let c11 = c10.push(Column::Data);
    lemma_names(c0, Column::BlockHash);
    lemma_names(c1, Column::TransactionIndex);
    lemma_names(c2, Column::LogIndex);
    lemma_names(c3, Column::Address);
    lemma_names(c4, Column::BlockNumber);
    lemma_names(c5, Column::TransactionHash);
    lemma_names(c6, Column::Topic0);
    lemma_names(c7, Column::Topic1);
    lemma_names(c8, Column::Topic2);
    lemma_names(c9, Column::Topic3);
    lemma_names(c10, Column::Data);
    assert(names(c11)
        == "block_hash, transaction_index, log_index, address, block_number, transaction_hash, topic_0, topic_1, topic_2, topic_3, data"@)
        by {
        reveal_strlit("block_hash, transaction_index, log_index, address, block_number, transaction_hash, topic_0, topic_1, topic_2, topic_3, data");
        reveal_strlit("block_hash");
        reveal_strlit("transaction_index");
        reveal_strlit("log_index");
        reveal_strlit("address");
        reveal_strlit("block_number");
        reveal_strlit("transaction_hash");
        reveal_strlit("topic_0");
        reveal_strlit("topic_1");
        reveal_strlit("topic_2");
        reveal_strlit("topic_3");
        reveal_strlit("data");
        reveal_strlit(", ");
    }
    assert(numbered(11) == "$1, $2, $3, $4, $5, $6, $7, $8, $9, $10, $11"@) by {
        reveal_with_fuel(numbered, 12);
        reveal_with_fuel(text::decimal, 3);
        reveal_strlit("$1, $2, $3, $4, $5, $6, $7, $8, $9, $10, $11");
        reveal_strlit("$1");
        reveal_strlit(", $");
    }
    reveal_strlit("INSERT INTO logs(block_hash, transaction_index, log_index, address, block_number, transaction_hash, topic_0, topic_1, topic_2, topic_3, data) VALUES ($1, $2, $3, $4, $5, $6, $7, $8, $9, $10, $11)");
    reveal_strlit("block_hash, transaction_index, log_index, address, block_number, transaction_hash, topic_0, topic_1, topic_2, topic_3, data");
    reveal_strlit("$1, $2, $3, $4, $5, $6, $7, $8, $9, $10, $11");
    reveal_strlit("INSERT INTO ");
    reveal_strlit("logs");
    reveal_strlit("(");
    reveal_strlit(") VALUES (");
    reveal_strlit(")");
    c11
}

proof fn lemma_delete_texts(count: nat)
    ensures
        Command::DeleteIn(Table::Transactions, Column::BlockHash, count).text()
            == database::delete_text(
            "DELETE FROM transaction_hashes WHERE block_hash in ("@,
            count,
        ),
        Command::DeleteIn(Table::Logs, Column::BlockHash, count).text() == database::delete_text(
            "DELETE FROM logs WHERE block_hash in ("@,
            count,
        ),
        Command::DeleteIn(Table::Mappings, Column::SubstrateBlockHash, count).text()
            == database::delete_text(
            "DELETE FROM eth_to_substrate_blocks WHERE substrate_block_hash in ("@,
            count,
        ),
{
    reveal_strlit("DELETE FROM ");
    reveal_strlit(" WHERE ");
    reveal_strlit(" in (");
    reveal_strlit("transaction_hashes");
    reveal_strlit("logs");
    reveal_strlit("eth_to_substrate_blocks");
    reveal_strlit("block_hash");
    reveal_strlit("substrate_block_hash");
    assert("DELETE FROM "@ + "transaction_hashes"@ + " WHERE "@ + "block_hash"@ + " in ("@
        == "DELETE FROM transaction_hashes WHERE block_hash in ("@) by {
        reveal_strlit("DELETE FROM transaction_hashes WHERE block_hash in (");
    }
    assert("DELETE FROM "@ + "logs"@ + " WHERE "@ + "block_hash"@ + " in ("@
        == "DELETE FROM logs WHERE block_hash in ("@) by {
        reveal_strlit("DELETE FROM logs WHERE block_hash in (");
    }
    assert("DELETE FROM "@ + "eth_to_substrate_blocks"@ + " WHERE "@ + "substrate_block_hash"@
        + " in ("@ == "DELETE FROM eth_to_substrate_blocks WHERE substrate_block_hash in ("@) by {
        reveal_strlit("DELETE FROM eth_to_substrate_blocks WHERE substrate_block_hash in (");
    }
}

proof fn lemma_among_blobs(value: Seq<u8>, hashes: Seq<Seq<u8>>)
    ensures
        is_among(database::SqlValueView::Blob(value), database::blobs(hashes)) <==> hashes.contains(
            value,
        ),
{
    let values = database::blobs(hashes);
    let blob = database::SqlValueView::Blob(value);
    if is_among(blob, values) {
        let i = choose|i: int| 0 <= i < values.len() && is_equal(blob, #[trigger] values[i]);
        assert(values[i] == database::SqlValueView::Blob(hashes[i]));
    }
    if hashes.contains(value) {
        let i = choose|i: int| 0 <= i < hashes.len() && hashes[i] == value;
        assert(values[i] == blob);
    }
}

/// What a statement stands for, by its fields: a transaction or a mapping is put in place of what
/// its key held, a log is appended, and rows are deleted by the block that they name.
pub open spec fn is_effect(
    statement: Statement,
    before: database::Tables,
    after: database::Tables,
) -> bool {
    match statement {
        Statement::InsertTransaction { transaction_hash, block_hash, transaction_index } => after
            == (database::Tables {
            transactions: before.transactions.insert(
                transaction_hash@,
                (block_hash@, transaction_index as int),
            ),
            ..before
        }),
        Statement::InsertMapping { ethereum_hash, substrate_hash } => after == (database::Tables {
            mappings: before.mappings.insert(ethereum_hash@, substrate_hash@),
            ..before
        }),
        Statement::InsertLog(row) => after == (database::Tables {
            logs: before.logs.push(row@),
            ..before
        }),
        Statement::DeleteTransactions(hashes) => {
            &&& after.mappings == before.mappings
            &&& after.logs == before.logs
            &&& forall|hash: Seq<u8>| #[trigger]
                after.transactions.contains_key(hash) <==> before.transactions.contains_key(hash)
                    && !(exists|i: int|
                    0 <= i < hashes@.len() && (#[trigger] hashes@[i])@
                        == before.transactions[hash].0)
            &&& forall|hash: Seq<u8>| #[trigger]
                after.transactions.contains_key(hash) ==> after.transactions[hash]
                    == before.transactions[hash]
        },
        Statement::DeleteMappings(hashes) => {
            &&& after.transactions == before.transactions
            &&& after.logs == before.logs
            &&& forall|hash: Seq<u8>| #[trigger]
                after.mappings.contains_key(hash) <==> before.mappings.contains_key(hash) && !(
                exists|i: int|
                    0 <= i < hashes@.len() && (#[trigger] hashes@[i])@ == before.mappings[hash])
            &&& forall|hash: Seq<u8>| #[trigger]
                after.mappings.contains_key(hash) ==> after.mappings[hash] == before.mappings[hash]
        },
        Statement::DeleteLogs(hashes) => {
            &&& after.transactions == before.transactions
            &&& after.mappings == before.mappings
            &&& forall|row: database::LogRowView| #[trigger]
                after.logs.contains(row) <==> before.logs.contains(row) && !(exists|i: int|
                    0 <= i < hashes@.len() && (#[trigger] hashes@[i])@ == row.block_hash)
        },
    }
}

proof fn lemma_hashes(hashes: Seq<crate::primitives::H256>, hash: Seq<u8>)
    ensures
        crate::evm::hash_bytes(hashes).contains(hash) <==> exists|i: int|
            0 <= i < hashes.len() && (#[trigger] hashes[i])@ == hash,
{
    let bytes = crate::evm::hash_bytes(hashes);
    if bytes.contains(hash) {
        let i = choose|i: int| 0 <= i < bytes.len() && bytes[i] == hash;
        assert(hashes[i]@ == hash);
    }
    if exists|i: int| 0 <= i < hashes.len() && (#[trigger] hashes[i])@ == hash {
        let i = choose|i: int| 0 <= i < hashes.len() && (#[trigger] hashes[i])@ == hash;
        assert(bytes[i] == hash);
    }
}

/// What a statement does to the tables is what its fields stand for.
pub proof fn a_statement_has_its_effect(statement: Statement, tables: database::Tables)
    ensures
        is_effect(statement, tables, tables.after(statement@)),
{
    let after = tables.after(statement@);
    match statement {
        Statement::DeleteTransactions(hashes) => {
            assert forall|hash: Seq<u8>| #[trigger]
                after.transactions.contains_key(hash) <==> tables.transactions.contains_key(hash)
                    && !(exists|i: int|
                    0 <= i < hashes@.len() && (#[trigger] hashes@[i])@
                        == tables.transactions[hash].0) by {
                lemma_hashes(hashes@, tables.transactions[hash].0);
            }
        },
        Statement::DeleteMappings(hashes) => {
            assert forall|hash: Seq<u8>| #[trigger]
                after.mappings.contains_key(hash) <==> tables.mappings.contains_key(hash) && !(
                exists|i: int|
                    0 <= i < hashes@.len() && (#[trigger] hashes@[i])@ == tables.mappings[hash]) by {
                lemma_hashes(hashes@, tables.mappings[hash]);
            }
        },
        Statement::DeleteLogs(hashes) => {
            let bytes = crate::evm::hash_bytes(hashes@);
            database::lemma_filtered_rows(
                tables.logs,
                |row: database::LogRowView| !bytes.contains(row.block_hash),
            );
            assert forall|row: database::LogRowView| #[trigger]
                after.logs.contains(row) <==> tables.logs.contains(row) && !(exists|i: int|
                    0 <= i < hashes@.len() && (#[trigger] hashes@[i])@ == row.block_hash) by {
                lemma_hashes(hashes@, row.block_hash);
            }
        },
        _ => {},
    }
}

/// The text of a statement, with the values that are bound to it, does to the tables what the
/// statement stands for: each bound value stands at the position of its column.
pub proof fn a_statement_does_what_its_text_says(
    statement: Statement,
    text: String,
    values: Vec<SqlValue>,
    tables: database::Tables,
) -> (command: Command)
    requires
        call_ensures(Statement::sql, (&statement,), text),
        call_ensures(Statement::binds, (&statement,), values),
    ensures
        text@ == command.text(),
        command.executes(
            database::value_views(values@),
            tables,
            tables.after(statement@),
        ),
        is_effect(statement, tables, tables.after(statement@)),
{
    let after = tables.after(statement@);
    let bound = database::value_views(values@);
    a_statement_has_its_effect(statement, tables);
    match statement {
        Statement::InsertTransaction { transaction_hash, block_hash, transaction_index } => {
            let columns = lemma_transaction_columns();
            let row = Row::Transaction(transaction_hash@, block_hash@, transaction_index as int);
            assert(columns.contains(columns[0]) && columns.contains(columns[1])
                && columns.contains(columns[2]));
            assert(is_row_of(row, Table::Transactions, columns, bound));
            Command::Replace(Table::Transactions, columns)
        },
        Statement::InsertMapping { ethereum_hash, substrate_hash } => {
            let columns = lemma_mapping_columns();
            let row = Row::Mapping(ethereum_hash@, substrate_hash@);
            assert(columns.contains(columns[0]) && columns.contains(columns[1]));
            assert(is_row_of(row, Table::Mappings, columns, bound));
            Command::Replace(Table::Mappings, columns)
        },
        Statement::InsertLog(log) => {
            let columns = lemma_log_columns();
            let row = Row::Log(log@);
            assert(columns.contains(columns[0]) && columns.contains(columns[1])
                && columns.contains(columns[2]) && columns.contains(columns[3])
                && columns.contains(columns[4]) && columns.contains(columns[5])
                && columns.contains(columns[6]) && columns.contains(columns[7])
                && columns.contains(columns[8]) && columns.contains(columns[9])
                && columns.contains(columns[10]));
            assert(is_row_of(row, Table::Logs, columns, bound));
            Command::Insert(Table::Logs, columns)
        },
        Statement::DeleteTransactions(hashes) => {
            let bytes = crate::evm::hash_bytes(hashes@);
            lemma_delete_texts(bytes.len());
            assert forall|row: Row| #[trigger]
                row.is_in(Table::Transactions, after) <==> row.is_in(Table::Transactions, tables)
                    && !is_among(row.cell(Column::BlockHash), bound) by {
                if let Row::Transaction(_, block_hash, _) = row {
                    lemma_among_blobs(block_hash, bytes);
                }
            }
            Command::DeleteIn(Table::Transactions, Column::BlockHash, bytes.len())
        },
        Statement::DeleteMappings(hashes) => {
            let bytes = crate::evm::hash_bytes(hashes@);
            lemma_delete_texts(bytes.len());
            assert forall|row: Row| #[trigger]
                row.is_in(Table::Mappings, after) <==> row.is_in(Table::Mappings, tables)
                    && !is_among(row.cell(Column::SubstrateBlockHash), bound) by {
                if let Row::Mapping(_, substrate_hash) = row {
                    lemma_among_blobs(substrate_hash, bytes);
                }
            }
            Command::DeleteIn(Table::Mappings, Column::SubstrateBlockHash, bytes.len())
        },
        Statement::DeleteLogs(hashes) => {
            let bytes = crate::evm::hash_bytes(hashes@);
            let kept = |row: database::LogRowView| !bytes.contains(row.block_hash);
            let spared = |row: database::LogRowView|
                !is_among(Row::Log(row).cell(Column::BlockHash), bound);
            lemma_delete_texts(bytes.len());
            assert forall|row: database::LogRowView| #[trigger] kept(row) <==> spared(row) by {
                lemma_among_blobs(row.block_hash, bytes);
            }
            crate::records::lemma_filters_agree(tables.logs, kept, spared);
            assert(after.logs == tables.logs.filter(kept));
            Command::DeleteIn(Table::Logs, Column::BlockHash, bytes.len())
        },
    }
}

proof fn lemma_query_texts()
    ensures
        Request::Select(
            seq![Column::BlockHash, Column::TransactionIndex],
            Table::Transactions,
            Column::TransactionHash,
        ).text("$1"@)
            == "SELECT block_hash, transaction_index FROM transaction_hashes WHERE transaction_hash = $1"@,
        Request::Select(
            seq![Column::SubstrateBlockHash],
            Table::Mappings,
            Column::EthereumBlockHash,
        ).text("$1"@)
            == "SELECT substrate_block_hash FROM eth_to_substrate_blocks WHERE ethereum_block_hash = $1"@,
        Request::Select(
            seq![Column::EthereumBlockHash],
            Table::Mappings,
            Column::SubstrateBlockHash,
        ).text("$1"@)
            == "SELECT ethereum_block_hash FROM eth_to_substrate_blocks WHERE substrate_block_hash = $1"@,
        Request::Count(Table::Transactions, Column::BlockHash).text("?"@)
            == "SELECT COUNT(*) FROM transaction_hashes WHERE block_hash = ?"@,
        Request::Select(
            seq![Column::TransactionIndex, Column::TransactionHash],
            Table::Transactions,
            Column::BlockHash,
        ).text("?"@)
            == "SELECT transaction_index, transaction_hash FROM transaction_hashes WHERE block_hash = ?"@,
        Request::Exists(Table::Mappings, Column::SubstrateBlockHash).text("?"@)
            == "SELECT EXISTS(SELECT 1 FROM eth_to_substrate_blocks WHERE substrate_block_hash = ?)"@,
{
    reveal_strlit("SELECT ");
    reveal_strlit(" FROM ");
    reveal_strlit(" WHERE ");
    reveal_strlit(" = ");
    reveal_strlit(", ");
    reveal_strlit("$1");
    reveal_strlit("?");
    reveal_strlit("block_hash");
    reveal_strlit("transaction_index");
    reveal_strlit("transaction_hash");
    reveal_strlit("substrate_block_hash");
    reveal_strlit("ethereum_block_hash");
    reveal_strlit("transaction_hashes");
    reveal_strlit("eth_to_substrate_blocks");
    let empty = Seq::<Column>::empty();
    lemma_names(empty, Column::BlockHash);
    lemma_names(empty.push(Column::BlockHash), Column::TransactionIndex);
    lemma_names(empty, Column::TransactionIndex);
    lemma_names(empty.push(Column::TransactionIndex), Column::TransactionHash);
    lemma_names(empty, Column::SubstrateBlockHash);
    lemma_names(empty, Column::EthereumBlockHash);
    assert(seq![Column::BlockHash, Column::TransactionIndex] =~= empty.push(Column::BlockHash).push(
        Column::TransactionIndex,
    ));
    assert(seq![Column::TransactionIndex, Column::TransactionHash] =~= empty.push(
        Column::TransactionIndex,
    ).push(Column::TransactionHash));
    assert(Request::Select(
        seq![Column::BlockHash, Column::TransactionIndex],
        Table::Transactions,
        Column::TransactionHash,
    ).text("$1"@)
        == "SELECT block_hash, transaction_index FROM transaction_hashes WHERE transaction_hash = $1"@)
        by {
        reveal_strlit("SELECT block_hash, transaction_index FROM transaction_hashes WHERE transaction_hash = $1");
    }
    assert(Request::Select(
        seq![Column::SubstrateBlockHash],
        Table::Mappings,
        Column::EthereumBlockHash,
    ).text("$1"@)
        == "SELECT substrate_block_hash FROM eth_to_substrate_blocks WHERE ethereum_block_hash = $1"@)
        by {
        reveal_strlit("SELECT substrate_block_hash FROM eth_to_substrate_blocks WHERE ethereum_block_hash = $1");
    }
    assert(Request::Select(
        seq![Column::EthereumBlockHash],
        Table::Mappings,
        Column::SubstrateBlockHash,
    ).text("$1"@)
        == "SELECT ethereum_block_hash FROM eth_to_substrate_blocks WHERE substrate_block_hash = $1"@)
        by {
        reveal_strlit("SELECT ethereum_block_hash FROM eth_to_substrate_blocks WHERE substrate_block_hash = $1");
    }
    assert(Request::Count(Table::Transactions, Column::BlockHash).text("?"@)
        == "SELECT COUNT(*) FROM transaction_hashes WHERE block_hash = ?"@) by {
        reveal_strlit("SELECT COUNT(*) FROM transaction_hashes WHERE block_hash = ?");
        reveal_strlit("SELECT COUNT(*) FROM ");
    }
    assert(Request::Select(
        seq![Column::TransactionIndex, Column::TransactionHash],
        Table::Transactions,
        Column::BlockHash,
    ).text("?"@)
        == "SELECT transaction_index, transaction_hash FROM transaction_hashes WHERE block_hash = ?"@)
        by {
        reveal_strlit("SELECT transaction_index, transaction_hash FROM transaction_hashes WHERE block_hash = ?");
    }
    assert(Request::Exists(Table::Mappings, Column::SubstrateBlockHash).text("?"@)
        == "SELECT EXISTS(SELECT 1 FROM eth_to_substrate_blocks WHERE substrate_block_hash = ?)"@)
        by {
        reveal_strlit("SELECT EXISTS(SELECT 1 FROM eth_to_substrate_blocks WHERE substrate_block_hash = ?)");
        reveal_strlit("SELECT EXISTS(SELECT 1 FROM ");
        reveal_strlit(")");
    }
}

/// The columns of a row with a place in a block.
pub open spec fn place_cells(row: Option<(Seq<u8>, int)>) -> Option<Seq<database::SqlValueView>> {
    match row {
        Some((block_hash, index)) => Some(
            seq![
                database::SqlValueView::Blob(block_hash),
                database::SqlValueView::Integer(index),
            ],
        ),
        None => None,
    }
}

/// The column of a row with a hash.
pub open spec fn hash_cells(row: Option<Seq<u8>>) -> Option<Seq<database::SqlValueView>> {
    match row {
        Some(hash) => Some(seq![database::SqlValueView::Blob(hash)]),
        None => None,
    }
}

/// Whether these are the transactions and their indices in the rows that are found, each once.
pub open spec fn are_found(
    request: Request,
    value: database::SqlValueView,
    tables: database::Tables,
    rows: Seq<(int, Seq<u8>)>,
) -> bool {
    &&& request is Select
    &&& rows.no_duplicates()
    &&& forall|row: (int, Seq<u8>)| #[trigger]
        rows.contains(row) <==> gives(request, value, tables, row)
}

/// Whether an index and a transaction are the columns of a row that is found.
pub open spec fn gives(
    request: Request,
    value: database::SqlValueView,
    tables: database::Tables,
    row: (int, Seq<u8>),
) -> bool {
    exists|found: Row| #[trigger]
        request.finds(found, value, tables) && is_selection(
            found,
            request->Select_0,
            seq![
                database::SqlValueView::Integer(row.0),
                database::SqlValueView::Blob(row.1),
            ],
        )
}

/// Whether the answers that a query may get are those that a request with a bound value gives.
pub open spec fn is_answered_by(
    query: Query,
    request: Request,
    value: database::SqlValueView,
    tables: database::Tables,
) -> bool {
    match query {
        Query::FindTransaction(_) => forall|row: Option<(Seq<u8>, int)>| #[trigger]
            query.may_answer(tables, database::Answer::Transaction(row)) <==> request.may_give(
                value,
                tables,
                place_cells(row),
            ),
        Query::SubstrateHash(_) => forall|row: Option<Seq<u8>>| #[trigger]
            query.may_answer(tables, database::Answer::BlockHash(row)) <==> request.may_give(
                value,
                tables,
                hash_cells(row),
            ),
        Query::EthereumHash(_) => forall|row: Option<Seq<u8>>| #[trigger]
            query.may_answer(tables, database::Answer::BlockHash(row)) <==> request.may_give(
                value,
                tables,
                hash_cells(row),
            ),
        Query::ReceiptsCount(_) => request is Count && forall|count: nat| #[trigger]
            query.may_answer(tables, database::Answer::Count(count)) <==> count
                == counted(request, value, tables).len(),
        Query::BlockTransactions(_) => forall|rows: Seq<(int, Seq<u8>)>| #[trigger]
            query.may_answer(tables, database::Answer::Transactions(rows)) <==> are_found(
                request,
                value,
                tables,
                rows,
            ),
        Query::BlockExists(_) => request is Exists && forall|answer: bool| #[trigger]
            query.may_answer(tables, database::Answer::Exists(answer)) <==> (answer <==> exists|
                row: Row,
            | #[trigger] request.finds(row, value, tables)),
    }
}

/// The keys of the transactions whose rows are found.
pub open spec fn counted(
    request: Request,
    value: database::SqlValueView,
    tables: database::Tables,
) -> Set<Seq<u8>> {
    Set::new(
        |transaction: Seq<u8>|
            exists|block: Seq<u8>, index: int|
                request.finds(#[trigger] transaction_row(transaction, block, index), value, tables),
    )
}

/// The row of a transaction.
pub open spec fn transaction_row(transaction: Seq<u8>, block: Seq<u8>, index: int) -> Row {
    Row::Transaction(transaction, block, index)
}

/// The text of a query, with the hash that is bound to it, is answered from the tables as the query
/// may be answered: it selects the columns that the answer consists of and compares the column that
/// the hash is of.
pub proof fn a_query_asks_what_its_text_says(
    query: Query,
    text: String,
    value: SqlValue,
    tables: database::Tables,
) -> (request: Request)
    requires
        call_ensures(Query::sql, (&query,), text),
        call_ensures(Query::bind, (&query,), value),
    ensures
        text@ == request.text("$1"@) || text@ == request.text("?"@),
        is_answered_by(query, request, value@, tables),
{
    lemma_query_texts();
    match query {
        Query::FindTransaction(hash) => {
            let columns = seq![Column::BlockHash, Column::TransactionIndex];
            let request = Request::Select(columns, Table::Transactions, Column::TransactionHash);
            assert forall|row: Option<(Seq<u8>, int)>| #[trigger]
                query.may_answer(tables, database::Answer::Transaction(row)) <==> request.may_give(
                    value@,
                    tables,
                    place_cells(row),
                ) by {
                let found = tables.transactions[hash@];
                let there = Row::Transaction(hash@, found.0, found.1);
                if tables.transactions.contains_key(hash@) {
                    assert(request.finds(there, value@, tables));
                    if request.may_give(value@, tables, place_cells(row)) {
                        let cells = place_cells(row)->0;
                        let other = choose|other: Row| #[trigger]
                            request.finds(other, value@, tables) && is_selection(
                                other,
                                columns,
                                cells,
                            );
                        assert(other.cell(columns[0]) == cells[0]);
                        assert(other.cell(columns[1]) == cells[1]);
                    }
                    if row == Some(found) {
                        assert(is_selection(there, columns, place_cells(row)->0));
                    }
                }
            }
            request
        },
        Query::SubstrateHash(hash) => {
            let columns = seq![Column::SubstrateBlockHash];
            let request = Request::Select(columns, Table::Mappings, Column::EthereumBlockHash);
            assert forall|row: Option<Seq<u8>>| #[trigger]
                query.may_answer(tables, database::Answer::BlockHash(row)) <==> request.may_give(
                    value@,
                    tables,
                    hash_cells(row),
                ) by {
                let there = Row::Mapping(hash@, tables.mappings[hash@]);
                if tables.mappings.contains_key(hash@) {
                    assert(request.finds(there, value@, tables));
                    if request.may_give(value@, tables, hash_cells(row)) {
                        let cells = hash_cells(row)->0;
                        let other = choose|other: Row| #[trigger]
                            request.finds(other, value@, tables) && is_selection(
                                other,
                                columns,
                                cells,
                            );
                        assert(other.cell(columns[0]) == cells[0]);
                    }
                    if row == Some(tables.mappings[hash@]) {
                        assert(is_selection(there, columns, hash_cells(row)->0));
                    }
                }
            }
            request
        },
        Query::EthereumHash(hash) => {
            let columns = seq![Column::EthereumBlockHash];
            let request = Request::Select(columns, Table::Mappings, Column::SubstrateBlockHash);
            assert forall|row: Option<Seq<u8>>| #[trigger]
                query.may_answer(tables, database::Answer::BlockHash(row)) <==> request.may_give(
                    value@,
                    tables,
                    hash_cells(row),
                ) by {
                match row {
                    Some(ethereum_hash) => {
                        let there = Row::Mapping(ethereum_hash, hash@);
                        let cells = hash_cells(row)->0;
                        if query.may_answer(tables, database::Answer::BlockHash(row)) {
                            assert(request.finds(there, value@, tables));
                            assert(is_selection(there, columns, cells));
                        }
                        if request.may_give(value@, tables, hash_cells(row)) {
                            let other = choose|other: Row| #[trigger]
                                request.finds(other, value@, tables) && is_selection(
                                    other,
                                    columns,
                                    cells,
                                );
                            assert(other.cell(columns[0]) == cells[0]);
                        }
                    },
                    None => {
                        if tables.has_block(hash@) {
                            let ethereum_hash = choose|ethereum_hash: Seq<u8>| #[trigger]
                                tables.mappings.contains_key(ethereum_hash)
                                    && tables.mappings[ethereum_hash] == hash@;
                            assert(request.finds(
                                Row::Mapping(ethereum_hash, hash@),
                                value@,
                                tables,
                            ));
                        }
                    },
                }
            }
            request
        },
        Query::ReceiptsCount(hash) => {
            let request = Request::Count(Table::Transactions, Column::BlockHash);
            assert(counted(request, value@, tables) =~= tables.transactions_of(hash@)) by {
                assert forall|transaction: Seq<u8>| #[trigger]
                    counted(request, value@, tables).contains(transaction)
                        <==> tables.transactions_of(hash@).contains(transaction) by {
                    let found = tables.transactions[transaction];
                    let row = transaction_row(transaction, found.0, found.1);
                    assert(request.finds(row, value@, tables)
                        <==> tables.transactions.contains_key(transaction) && found.0 == hash@);
                }
            }
            request
        },
        Query::BlockTransactions(hash) => {
            let columns = seq![Column::TransactionIndex, Column::TransactionHash];
            let request = Request::Select(columns, Table::Transactions, Column::BlockHash);
            assert forall|row: (int, Seq<u8>)|
                tables.transaction_row(row.1) == Some((hash@, row.0)) <==> #[trigger] gives(
                    request,
                    value@,
                    tables,
                    row,
                ) by {
                let cells = seq![
                    database::SqlValueView::Integer(row.0),
                    database::SqlValueView::Blob(row.1),
                ];
                let there = Row::Transaction(row.1, hash@, row.0);
                if tables.transaction_row(row.1) == Some((hash@, row.0)) {
                    assert(request.finds(there, value@, tables));
                    assert(is_selection(there, columns, cells));
                }
                if gives(request, value@, tables, row) {
                    let found = choose|found: Row| #[trigger]
                        request.finds(found, value@, tables) && is_selection(found, columns, cells);
                    assert(found.cell(columns[0]) == cells[0]);
                    assert(found.cell(columns[1]) == cells[1]);
                }
            }
            assert forall|rows: Seq<(int, Seq<u8>)>| #[trigger]
                query.may_answer(tables, database::Answer::Transactions(rows)) <==> are_found(
                    request,
                    value@,
                    tables,
                    rows,
                ) by {
                assert forall|row: (int, Seq<u8>)| #[trigger]
                    rows.contains(row) implies (tables.transaction_row(row.1) == Some((hash@, row.0))
                    <==> gives(request, value@, tables, row)) by {}
                if are_found(request, value@, tables, rows) {
                    assert forall|row: (int, Seq<u8>)| #[trigger]
                        rows.contains(row) <==> tables.transaction_row(row.1) == Some(
                            (hash@, row.0),
                        ) by {
                        assert(gives(request, value@, tables, row) <==> rows.contains(row));
                    }
                }
            }
            request
        },
        Query::BlockExists(hash) => {
            let request = Request::Exists(Table::Mappings, Column::SubstrateBlockHash);
            if tables.has_block(hash@) {
                let ethereum_hash = choose|ethereum_hash: Seq<u8>| #[trigger]
                    tables.mappings.contains_key(ethereum_hash) && tables.mappings[ethereum_hash]
                        == hash@;
                assert(request.finds(Row::Mapping(ethereum_hash, hash@), value@, tables));
            }
            request
        },
    }
}

/// A list of placeholders has one for each value, separated by commas.
pub proof fn there_is_a_placeholder_for_each_value(count: nat)
    ensures
        database::placeholders(count).len() == (if count == 0 {
            0
        } else {
            3 * count - 2
        }),
        forall|i: int|
            0 <= i < count ==> #[trigger] database::placeholders(count)[3 * i] == '?',
        forall|i: int|
            0 <= i < count - 1 ==> #[trigger] database::placeholders(count)[3 * i + 1] == ',',
        forall|i: int|
            0 <= i < count - 1 ==> #[trigger] database::placeholders(count)[3 * i + 2] == ' ',
    decreases count,
{
    reveal_strlit("?");
    reveal_strlit(", ?");
    if count > 1 {
        there_is_a_placeholder_for_each_value((count - 1) as nat);
    }
}

/// A test on a column of a row.
pub ghost enum Test {
    /// The column is the bound value.
    Is(Column),
    /// The column is between the two bound values, both included.
    Between(Column),
    /// The column is the bound value or more.
    AtLeast(Column),
    /// The column is the bound value or less.
    AtMost(Column),
    /// The column is one of so many bound values.
    In(Column, nat),
}

impl Test {
    /// How the test is written.
    pub open spec fn text(self) -> Seq<char> {
        match self {
            Test::Is(column) => " AND "@ + column.name() + " = ?"@,
            Test::Between(column) => " AND "@ + column.name() + " BETWEEN ? AND ?"@,
            Test::AtLeast(column) => " AND "@ + column.name() + " >= ?"@,
            Test::AtMost(column) => " AND "@ + column.name() + " <= ?"@,
            Test::In(column, count) => " AND "@ + column.name() + " IN ("@
                + database::placeholders(count) + ")"@,
        }
    }

    /// How many values are bound to the test.
    pub open spec fn arity(self) -> nat {
        match self {
            Test::Between(_) => 2,
            Test::In(_, count) => count,
            _ => 1,
        }
    }

    /// Whether the row passes the test with these bound values.
    pub open spec fn passes(self, row: Row, values: Seq<database::SqlValueView>) -> bool {
        match self {
            Test::Is(column) => is_equal(row.cell(column), values[0]),
            Test::Between(column) => is_at_most(values[0], row.cell(column)) && is_at_most(
                row.cell(column),
                values[1],
            ),
            Test::AtLeast(column) => is_at_most(values[0], row.cell(column)),
            Test::AtMost(column) => is_at_most(row.cell(column), values[0]),
            Test::In(column, _) => is_among(row.cell(column), values),
        }
    }
}

/// Whether an integer is not greater than another.
pub open spec fn is_at_most(a: database::SqlValueView, b: database::SqlValueView) -> bool {
    match (a, b) {
        (database::SqlValueView::Integer(a), database::SqlValueView::Integer(b)) => a <= b,
        _ => false,
    }
}

/// A query for the logs that pass all the tests, at most so many.
pub open spec fn log_text(tests: Seq<Test>, limit: nat) -> Seq<char> {
    tests_text(tests) + " LIMIT "@ + text::decimal(limit)
}

/// The tests of a query for logs, one after the other.
pub open spec fn tests_text(tests: Seq<Test>) -> Seq<char>
    decreases tests.len(),
{
    if tests.len() == 0 {
        "SELECT logs.* FROM logs WHERE 1=1"@
    } else {
        tests_text(tests.drop_last()) + tests.last().text()
    }
}

/// How many values are bound to the tests.
pub open spec fn total_arity(tests: Seq<Test>) -> nat
    decreases tests.len(),
{
    if tests.len() == 0 {
        0
    } else {
        total_arity(tests.drop_last()) + tests.last().arity()
    }
}

/// Whether a row passes all the tests, to which the values are bound one after the other.
pub open spec fn passes_all(
    tests: Seq<Test>,
    row: Row,
    values: Seq<database::SqlValueView>,
) -> bool
    decreases tests.len(),
{
    if tests.len() == 0 {
        true
    } else {
        let earlier = total_arity(tests.drop_last()) as int;
        passes_all(tests.drop_last(), row, values.take(earlier)) && tests.last().passes(
            row,
            values.skip(earlier),
        )
    }
}

/// The column of the topic at a position.
pub open spec fn topic_column(position: int) -> Column {
    if position == 0 {
        Column::Topic0
    } else if position == 1 {
        Column::Topic1
    } else if position == 2 {
        Column::Topic2
    } else {
        Column::Topic3
    }
}

/// The test that a condition makes.
pub open spec fn test_of(condition: log_filter::ConditionView) -> Test {
    match condition {
        log_filter::ConditionView::NumberIs(_) => Test::Is(Column::BlockNumber),
        log_filter::ConditionView::NumberBetween(_, _) => Test::Between(Column::BlockNumber),
        log_filter::ConditionView::NumberFrom(_) => Test::AtLeast(Column::BlockNumber),
        log_filter::ConditionView::NumberTo(_) => Test::AtMost(Column::BlockNumber),
        log_filter::ConditionView::BlockHashIs(_) => Test::Is(Column::BlockHash),
        log_filter::ConditionView::Address(choice) => choice_test(Column::Address, choice),
        log_filter::ConditionView::Topic(position, choice) => choice_test(
            topic_column(position),
            choice,
        ),
    }
}

/// The test that a choice makes of a column.
pub open spec fn choice_test(column: Column, choice: log_filter::Choice) -> Test {
    match choice {
        log_filter::Choice::One(_) => Test::Is(column),
        log_filter::Choice::Any(any) => Test::In(column, any.len()),
    }
}

proof fn lemma_condition_text(condition: log_filter::ConditionView)
    ensures
        condition.sql() == test_of(condition).text(),
{
    reveal_strlit(" AND ");
    reveal_strlit("block_number");
    reveal_strlit("block_hash");
    assert(" AND "@ + "block_number"@ + " = ?"@ == " AND block_number = ?"@) by {
        reveal_strlit(" = ?");
        reveal_strlit(" AND block_number = ?");
    }
    assert(" AND "@ + "block_number"@ + " BETWEEN ? AND ?"@
        == " AND block_number BETWEEN ? AND ?"@) by {
        reveal_strlit(" BETWEEN ? AND ?");
        reveal_strlit(" AND block_number BETWEEN ? AND ?");
    }
    assert(" AND "@ + "block_number"@ + " >= ?"@ == " AND block_number >= ?"@) by {
        reveal_strlit(" >= ?");
        reveal_strlit(" AND block_number >= ?");
    }
    assert(" AND "@ + "block_number"@ + " <= ?"@ == " AND block_number <= ?"@) by {
        reveal_strlit(" <= ?");
        reveal_strlit(" AND block_number <= ?");
    }
    assert(" AND "@ + "block_hash"@ + " = ?"@ == " AND block_hash = ?"@) by {
        reveal_strlit(" = ?");
        reveal_strlit(" AND block_hash = ?");
    }
}

/// With its own bound values, the test of a condition passes exactly the rows of which the
/// condition holds.
proof fn lemma_condition_passes(
    condition: log_filter::ConditionView,
    row: database::LogRowView,
)
    ensures
        condition.binds().len() == test_of(condition).arity(),
        test_of(condition).passes(Row::Log(row), condition.binds()) <==> condition.holds(row),
{
    match condition {
        log_filter::ConditionView::Address(log_filter::Choice::Any(any)) => {
            lemma_among_blobs(row.address, any);
        },
        log_filter::ConditionView::Topic(position, log_filter::Choice::Any(any)) => {
            if log_filter::row_topic(row, position) is Some {
                lemma_among_blobs(log_filter::row_topic(row, position)->0, any);
            }
        },
        _ => {},
    }
}

proof fn lemma_conditions(
    conditions: Seq<log_filter::ConditionView>,
    row: database::LogRowView,
) -> (tests: Seq<Test>)
    ensures
        tests == conditions.map_values(|condition: log_filter::ConditionView| test_of(condition)),
        log_filter::conditions_text(conditions) == tests_text(tests),
        log_filter::conditions_binds(conditions).len() == total_arity(tests),
        passes_all(tests, Row::Log(row), log_filter::conditions_binds(conditions))
            <==> log_filter::selects(conditions, row),
    decreases conditions.len(),
{
    let tests = conditions.map_values(
        |condition: log_filter::ConditionView| test_of(condition),
    );
    if conditions.len() > 0 {
        let before = conditions.drop_last();
        let last = conditions.last();
        let values = log_filter::conditions_binds(conditions);
        let earlier = lemma_conditions(before, row);
        assert(tests.drop_last() =~= earlier);
        assert(tests.last() == test_of(last));
        lemma_condition_text(last);
        lemma_condition_passes(last, row);
        assert(values.take(total_arity(earlier) as int) =~= log_filter::conditions_binds(before));
        assert(values.skip(total_arity(earlier) as int) =~= last.binds());
        assert(log_filter::selects(conditions, row) <==> log_filter::selects(before, row)
            && last.holds(row)) by {
            if log_filter::selects(conditions, row) {
                assert forall|i: int| 0 <= i < before.len() implies (
                #[trigger] before[i]).holds(row) by {
                    assert(conditions[i].holds(row));
                }
                assert(conditions[conditions.len() - 1].holds(row));
            }
            if log_filter::selects(before, row) && last.holds(row) {
                assert forall|i: int| 0 <= i < conditions.len() implies (
                #[trigger] conditions[i]).holds(row) by {
                    if i < before.len() {
                        assert(before[i].holds(row));
                    }
                }
            }
        }
    }
    tests
}

/// The text of a query for logs, with the values that are bound to it, selects exactly the rows of
/// which all its conditions hold, up to the limit.
pub proof fn a_log_query_selects_what_its_conditions_ask(
    query: LogQuery,
    text: String,
    values: Vec<SqlValue>,
) -> (tests: Seq<Test>)
    requires
        call_ensures(LogQuery::sql, (&query,), text),
        call_ensures(LogQuery::binds, (&query,), values),
    ensures
        text@ == log_text(tests, log_filter::MAX_LOGS as nat),
        values@.len() == total_arity(tests),
        forall|row: database::LogRowView| #[trigger]
            passes_all(tests, Row::Log(row), database::value_views(values@))
                <==> log_filter::selects(log_filter::condition_views(query.conditions@), row),
{
    let conditions = log_filter::condition_views(query.conditions@);
    let bound = database::value_views(values@);
    let tests = lemma_conditions(conditions, arbitrary());
    assert(bound.len() == values@.len());
    assert forall|row: database::LogRowView| #[trigger]
        passes_all(tests, Row::Log(row), bound) <==> log_filter::selects(conditions, row) by {
        lemma_conditions(conditions, row);
    }
    assert(" LIMIT "@ + text::decimal(log_filter::MAX_LOGS as nat) == " LIMIT 10000"@) by {
        reveal_strlit(" LIMIT ");
        reveal_strlit(" LIMIT 10000");
        reveal_with_fuel(text::decimal, 6);
    }
    assert(text@ =~= tests_text(tests) + (" LIMIT "@ + text::decimal(
        log_filter::MAX_LOGS as nat,
    )));
    tests
}

/// Whether a value is the one that is asked for, or one of them.
pub open spec fn is_address_asked_for(asked: AddressOrAddresses, address: Seq<u8>) -> bool {
    match asked {
        AddressOrAddresses::Address(one) => one@ == address,
        AddressOrAddresses::Addresses(any) => exists|i: int|
            0 <= i < any@.len() && (#[trigger] any@[i])@ == address,
    }
}

/// Whether a topic is the one that is asked for, or one of them.
pub open spec fn is_topic_asked_for(asked: FilterTopic, topic: Seq<u8>) -> bool {
    match asked {
        FilterTopic::Single(one) => one@ == topic,
        FilterTopic::Multiple(any) => exists|i: int|
            0 <= i < any@.len() && (#[trigger] any@[i])@ == topic,
    }
}

/// The number of the block that a filter names. Of the tags, the one that is accepted stands for the
/// latest block.
pub open spec fn named_number(block: BlockNumberOrTag, latest: u32) -> nat {
    match block {
        BlockNumberOrTag::U256(number) => number@,
        BlockNumberOrTag::BlockTag(_) => latest as nat,
    }
}

/// Whether a log is what a filter asks for: of the block with the hash, of a block in the range, or
/// of the latest block where no block is named; of an address that is asked for; and with a topic
/// that is asked for at each position that is asked for.
pub open spec fn is_asked_for(filter: Filter, latest: u32, row: database::LogRowView) -> bool {
    &&& filter.block_hash matches Some(hash) ==> row.block_hash == hash@
    &&& filter.from_block matches Some(from) ==> named_number(from, latest) <= row.block_number
    &&& filter.to_block matches Some(to) ==> row.block_number <= named_number(to, latest)
    &&& filter.block_hash is None && filter.from_block is None && filter.to_block is None
        ==> row.block_number == latest
    &&& filter.address matches Some(asked) ==> is_address_asked_for(asked, row.address)
    &&& filter.topics matches Some(topics) ==> {
        &&& topics@.len() > 0 ==> row.topic_0 is Some && is_topic_asked_for(
            topics@[0],
            row.topic_0->0,
        )
        &&& topics@.len() > 1 ==> row.topic_1 is Some && is_topic_asked_for(
            topics@[1],
            row.topic_1->0,
        )
        &&& topics@.len() > 2 ==> row.topic_2 is Some && is_topic_asked_for(
            topics@[2],
            row.topic_2->0,
        )
        &&& topics@.len() > 3 ==> row.topic_3 is Some && is_topic_asked_for(
            topics@[3],
            row.topic_3->0,
        )
    }
}

proof fn lemma_address_asked_for(asked: AddressOrAddresses, address: Seq<u8>)
    ensures
        asked@.allows(address) <==> is_address_asked_for(asked, address),
{
    if let AddressOrAddresses::Addresses(any) = asked {
        let bytes = log_filter::addresses_bytes(any@);
        if bytes.contains(address) {
            let i = choose|i: int| 0 <= i < bytes.len() && bytes[i] == address;
            assert(any@[i]@ == address);
        }
        if is_address_asked_for(asked, address) {
            let i = choose|i: int| 0 <= i < any@.len() && (#[trigger] any@[i])@ == address;
            assert(bytes[i] == address);
        }
    }
}

proof fn lemma_topic_asked_for(asked: FilterTopic, topic: Seq<u8>)
    ensures
        asked@.allows(topic) <==> is_topic_asked_for(asked, topic),
{
    if let FilterTopic::Multiple(any) = asked {
        lemma_hashes(any@, topic);
    }
}

/// What a filter of which the query is made asks for is what matches it.
proof fn lemma_asked_for(filter: Filter, latest: u32, row: database::LogRowView)
    requires
        log_filter::conditions(filter@, latest) is Ok,
    ensures
        log_filter::matches_filter(filter@, latest, row) <==> is_asked_for(filter, latest, row),
{
    if filter.address is Some {
        lemma_address_asked_for(filter.address->0, row.address);
    }
    if filter.topics is Some {
        let topics = filter.topics->0@;
        let choices = filter@.topics->0;
        assert(choices.len() == topics.len());
        assert forall|i: int| 0 <= i < topics.len() implies (log_filter::topic_allowed(
            row,
            i,
            #[trigger] choices[i],
        ) <==> log_filter::row_topic(row, i) is Some && is_topic_asked_for(
            topics[i],
            log_filter::row_topic(row, i)->0,
        )) by {
            assert(choices[i] == topics[i]@);
            if log_filter::row_topic(row, i) is Some {
                lemma_topic_asked_for(topics[i], log_filter::row_topic(row, i)->0);
            }
        }
        if log_filter::matches_filter(filter@, latest, row) {
            if topics.len() > 0 {
                assert(log_filter::topic_allowed(row, 0, choices[0]));
            }
            if topics.len() > 1 {
                assert(log_filter::topic_allowed(row, 1, choices[1]));
            }
            if topics.len() > 2 {
                assert(log_filter::topic_allowed(row, 2, choices[2]));
            }
            if topics.len() > 3 {
                assert(log_filter::topic_allowed(row, 3, choices[3]));
            }
        }
    }
}

/// The query that is made of a filter selects, by its text and its bound values, exactly the logs
/// that the filter asks for, up to ten thousand.
pub proof fn the_logs_that_a_filter_asks_for_are_selected(
    filter: Filter,
    latest: u32,
    query: LogQuery,
    text: String,
    values: Vec<SqlValue>,
) -> (tests: Seq<Test>)
    requires
        call_ensures(ReceiptProvider::logs, (Some(filter), latest), Ok(query)),
        call_ensures(LogQuery::sql, (&query,), text),
        call_ensures(LogQuery::binds, (&query,), values),
    ensures
        text@ == log_text(tests, 10000),
        values@.len() == total_arity(tests),
        forall|row: database::LogRowView| #[trigger]
            passes_all(tests, Row::Log(row), database::value_views(values@)) <==> is_asked_for(
                filter,
                latest,
                row,
            ),
{
    let tests = a_log_query_selects_what_its_conditions_ask(query, text, values);
    assert forall|row: database::LogRowView| #[trigger]
        passes_all(tests, Row::Log(row), database::value_views(values@)) <==> is_asked_for(
            filter,
            latest,
            row,
        ) by {
        log_filter::the_query_selects_what_the_filter_asks_for(filter@, latest, row);
        lemma_asked_for(filter, latest, row);
    }
    tests
}

/// Without a filter, the logs of the latest block are selected.
pub proof fn without_a_filter_the_logs_of_the_latest_block_are_selected(
    latest: u32,
    query: LogQuery,
    text: String,
    values: Vec<SqlValue>,
) -> (tests: Seq<Test>)
    requires
        call_ensures(ReceiptProvider::logs, (None, latest), Ok(query)),
        call_ensures(LogQuery::sql, (&query,), text),
        call_ensures(LogQuery::binds, (&query,), values),
    ensures
        text@ == log_text(tests, 10000),
        forall|row: database::LogRowView| #[trigger]
            passes_all(tests, Row::Log(row), database::value_views(values@)) <==> row.block_number
                == latest,
{
    let tests = a_log_query_selects_what_its_conditions_ask(query, text, values);
    let nothing = log_filter::FilterView::nothing();
    assert forall|row: database::LogRowView| #[trigger]
        passes_all(tests, Row::Log(row), database::value_views(values@)) <==> row.block_number
            == latest by {
        log_filter::the_query_selects_what_the_filter_asks_for(nothing, latest, row);
    }
    tests
}

/// A filter is refused exactly for a tag other than that of the latest block, a hash together with a
/// range, a block beyond the latest one, a range that ends before it begins, or more than four
/// topics; and it is told for which of these.
pub proof fn a_filter_is_refused_for_what_is_told(
    filter: Filter,
    latest: u32,
    refused: Result<LogQuery, LogFilterError>,
)
    requires
        call_ensures(ReceiptProvider::logs, (Some(filter), latest), refused),
    ensures
        ({
            let (from, to) = (filter.from_block, filter.to_block);
            let has_other_tag = |block: Option<BlockNumberOrTag>|
                block matches Some(BlockNumberOrTag::BlockTag(tag)) && !(tag is Latest);
            let exceeds = |block: Option<BlockNumberOrTag>|
                block matches Some(block) && named_number(block, latest) > latest;
            let is_reversed = from is Some && to is Some && named_number(from->0, latest)
                > named_number(to->0, latest);
            let is_mixed = filter.block_hash is Some && (from is Some || to is Some);
            let has_more_topics = filter.topics is Some && filter.topics->0@.len() > 4;
            &&& refused is Err <==> has_other_tag(from) || has_other_tag(to) || exceeds(from)
                || exceeds(to) || is_reversed || is_mixed || has_more_topics
            &&& from matches Some(BlockNumberOrTag::BlockTag(tag)) ==> !(tag is Latest)
                ==> refused == Err::<LogQuery, LogFilterError>(LogFilterError::UnsupportedTag(tag))
            &&& to matches Some(BlockNumberOrTag::BlockTag(tag)) ==> !(tag is Latest)
                && !has_other_tag(from) ==> refused == Err::<LogQuery, LogFilterError>(
                LogFilterError::UnsupportedTag(tag),
            )
            &&& refused matches Err(error) ==> match error {
                LogFilterError::UnsupportedTag(tag) => !(tag is Latest) && (from == Some(
                    BlockNumberOrTag::BlockTag(tag),
                ) || to == Some(BlockNumberOrTag::BlockTag(tag))),
                LogFilterError::NumberWithHash => is_mixed,
                LogFilterError::ExceedsLatest => !is_mixed && (exceeds(from) || exceeds(to)),
                LogFilterError::InvalidRange => !is_mixed && !exceeds(from) && !exceeds(to)
                    && is_reversed,
                LogFilterError::TooManyTopics => has_more_topics && !is_mixed && !exceeds(from)
                    && !exceeds(to) && !is_reversed,
            }
        }),
{
    if filter.topics is Some {
        assert(filter@.topics->0.len() == filter.topics->0@.len());
    }
}

/// Whether a row is what a condition asks, by its fields.
pub open spec fn is_met(condition: Condition, row: database::LogRowView) -> bool {
    let topic = |position: usize|
        if position == 0 {
            row.topic_0
        } else if position == 1 {
            row.topic_1
        } else if position == 2 {
            row.topic_2
        } else {
            row.topic_3
        };
    match condition {
        Condition::NumberIs(number) => row.block_number == number,
        Condition::NumberBetween(from, to) => from <= row.block_number && row.block_number <= to,
        Condition::NumberFrom(from) => from <= row.block_number,
        Condition::NumberTo(to) => row.block_number <= to,
        Condition::BlockHashIs(hash) => row.block_hash == hash@,
        Condition::AddressIs(address) => row.address == address@,
        Condition::AddressIn(addresses) => exists|i: int|
            0 <= i < addresses@.len() && (#[trigger] addresses@[i])@ == row.address,
        Condition::TopicIs(position, hash) => topic(position) == Some(hash@),
        Condition::TopicIn(position, hashes) => topic(position) is Some && exists|i: int|
            0 <= i < hashes@.len() && (#[trigger] hashes@[i])@ == topic(position)->0,
    }
}

/// The text of a condition, with the values that are bound for it, tests the column that the
/// condition is on against what it asks.
pub proof fn a_condition_tests_what_it_asks(
    condition: Condition,
    text: String,
    values: Vec<SqlValue>,
) -> (test: Test)
    requires
        call_ensures(Condition::sql, (&condition,), text),
        call_ensures(Condition::binds, (&condition,), values),
    ensures
        text@ == test.text(),
        values@.len() == test.arity(),
        forall|row: database::LogRowView| #[trigger]
            test.passes(Row::Log(row), database::value_views(values@)) <==> is_met(condition, row),
{
    let test = test_of(condition@);
    let bound = database::value_views(values@);
    lemma_condition_text(condition@);
    lemma_condition_passes(condition@, arbitrary());
    assert(bound.len() == values@.len());
    assert forall|row: database::LogRowView| #[trigger]
        test.passes(Row::Log(row), bound) <==> is_met(condition, row) by {
        lemma_condition_passes(condition@, row);
        match condition {
            Condition::AddressIn(addresses) => {
                lemma_address_asked_for(AddressOrAddresses::Addresses(addresses), row.address);
            },
            Condition::TopicIn(position, hashes) => {
                if log_filter::row_topic(row, position as int) is Some {
                    lemma_hashes(hashes@, log_filter::row_topic(row, position as int)->0);
                }
            },
            _ => {},
        }
    }
    test
}

} // verus!
