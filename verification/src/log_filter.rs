//! Log filters: which conditions a filter puts on the rows of the table `logs`, how they are asked
//! for in SQL, and how a row becomes a log again.

use crate::database::{write_placeholders, SqlValue};
use crate::evm::{BlockNumberOrTag, BlockTag, Log};
use crate::primitives::{H160, H256, U256};
use crate::receipt_provider::ReceiptProvider;
use vstd::prelude::*;

verus! {

/// The most topics that a filter may name.
pub const MAX_TOPICS: usize = 4;

/// One address or several.
#[derive(Debug)]
pub enum AddressOrAddresses {
    /// This address.
    Address(H160),
    /// Any of these addresses.
    Addresses(Vec<H160>),
}

/// What is asked of a topic.
#[derive(Debug)]
pub enum FilterTopic {
    /// This topic.
    Single(H256),
    /// Any of these topics.
    Multiple(Vec<H256>),
}

/// What is asked of logs.
#[derive(Debug)]
pub struct Filter {
    /// The contracts that emitted them.
    pub address: Option<AddressOrAddresses>,
    /// The first block.
    pub from_block: Option<BlockNumberOrTag>,
    /// The last block.
    pub to_block: Option<BlockNumberOrTag>,
    /// The only block.
    pub block_hash: Option<H256>,
    /// The topics, by position.
    pub topics: Option<Vec<FilterTopic>>,
}

impl Default for Filter {
    /// A filter that asks nothing.
    fn default() -> (filter: Filter)
        ensures
            filter@ == FilterView::nothing(),
            filter.address is None && filter.from_block is None && filter.to_block is None
                && filter.block_hash is None && filter.topics is None,
    {
        Filter { address: None, from_block: None, to_block: None, block_hash: None, topics: None }
    }
}

/// One value or any of several.
pub ghost enum Choice {
    One(Seq<u8>),
    Any(Seq<Seq<u8>>),
}

impl Choice {
    /// Whether the value is among those asked for.
    pub open spec fn allows(self, value: Seq<u8>) -> bool {
        match self {
            Choice::One(one) => value == one,
            Choice::Any(any) => any.contains(value),
        }
    }
}

/// What a filter asks.
#[verifier::ext_equal]
pub ghost struct FilterView {
    pub address: Option<Choice>,
    pub from_block: Option<BlockNumberOrTag>,
    pub to_block: Option<BlockNumberOrTag>,
    pub block_hash: Option<Seq<u8>>,
    pub topics: Option<Seq<Choice>>,
}

impl FilterView {
    /// A filter that asks nothing.
    pub open spec fn nothing() -> FilterView {
        FilterView {
            address: None,
            from_block: None,
            to_block: None,
            block_hash: None,
            topics: None,
        }
    }
}

/// The bytes of each address.
pub open spec fn addresses_bytes(addresses: Seq<H160>) -> Seq<Seq<u8>> {
    addresses.map_values(|address: H160| address@)
}

impl View for AddressOrAddresses {
    type V = Choice;

    open spec fn view(&self) -> Choice {
        match *self {
            AddressOrAddresses::Address(address) => Choice::One(address@),
            AddressOrAddresses::Addresses(addresses) => Choice::Any(addresses_bytes(addresses@)),
        }
    }
}

impl View for FilterTopic {
    type V = Choice;

    open spec fn view(&self) -> Choice {
        match *self {
            FilterTopic::Single(topic) => Choice::One(topic@),
            FilterTopic::Multiple(topics) => Choice::Any(crate::evm::hash_bytes(topics@)),
        }
    }
}

impl View for Filter {
    type V = FilterView;

    open spec fn view(&self) -> FilterView {
        FilterView {
            address: match self.address {
                Some(address) => Some(address@),
                None => None,
            },
            from_block: self.from_block,
            to_block: self.to_block,
            block_hash: crate::database::optional_bytes(self.block_hash),
            topics: match self.topics {
                Some(topics) => Some(topics@.map_values(|topic: FilterTopic| topic@)),
                None => None,
            },
        }
    }
}

/// Why a filter is refused.
#[derive(Clone, Copy, Debug, PartialEq, Eq, Structural)]
pub enum LogFilterError {
    /// The tag of the first or the last block is none that logs can be asked for.
    UnsupportedTag(BlockTag),
    /// A block hash was given together with a block number.
    NumberWithHash,
    /// A block number is greater than that of the latest block.
    ExceedsLatest,
    /// The first block comes after the last one.
    InvalidRange,
    /// More topics were named than a log can have.
    TooManyTopics,
}

/// The name of a tag.
pub open spec fn tag_name(tag: BlockTag) -> Seq<char> {
    match tag {
        BlockTag::Earliest => "Earliest"@,
        BlockTag::Finalized => "Finalized"@,
        BlockTag::Safe => "Safe"@,
        BlockTag::Latest => "Latest"@,
        BlockTag::Pending => "Pending"@,
    }
}

impl LogFilterError {
    /// What the error says.
    pub open spec fn text(self) -> Seq<char> {
        match self {
            LogFilterError::UnsupportedTag(tag) => "Unsupported tag: "@ + tag_name(tag),
            LogFilterError::NumberWithHash =>
                "block number and block hash cannot be used together"@,
            LogFilterError::ExceedsLatest => "block number exceeds latest block"@,
            LogFilterError::InvalidRange => "invalid block range params"@,
            LogFilterError::TooManyTopics => "exceed max topics"@,
        }
    }

    /// What the error says.
    pub fn message(&self) -> (message: String)
        ensures
            message@ == self.text(),
    {
        match self {
            LogFilterError::UnsupportedTag(tag) => {
                let name = match tag {
                    BlockTag::Earliest => "Earliest",
                    BlockTag::Finalized => "Finalized",
                    BlockTag::Safe => "Safe",
                    BlockTag::Latest => "Latest",
                    BlockTag::Pending => "Pending",
                };
                let mut message = String::from_str("Unsupported tag: ");
                message.append(name);
                message
            },
            LogFilterError::NumberWithHash => String::from_str(
                "block number and block hash cannot be used together",
            ),
            LogFilterError::ExceedsLatest => String::from_str("block number exceeds latest block"),
            LogFilterError::InvalidRange => String::from_str("invalid block range params"),
            LogFilterError::TooManyTopics => String::from_str("exceed max topics"),
        }
    }
}

/// A condition on a row.
#[derive(Debug)]
pub enum Condition {
    /// The block has this number.
    NumberIs(i64),
    /// The block number is in this range, both ends included.
    NumberBetween(i64, i64),
    /// The block has this number or a greater one.
    NumberFrom(i64),
    /// The block has this number or a lower one.
    NumberTo(i64),
    /// The block has this hash.
    BlockHashIs(H256),
    /// The log is of this contract.
    AddressIs(H160),
    /// The log is of one of these contracts.
    AddressIn(Vec<H160>),
    /// The topic at the position is this one.
    TopicIs(usize, H256),
    /// The topic at the position is one of these.
    TopicIn(usize, Vec<H256>),
}

/// What a condition asks.
#[verifier::ext_equal]
pub ghost enum ConditionView {
    NumberIs(int),
    NumberBetween(int, int),
    NumberFrom(int),
    NumberTo(int),
    BlockHashIs(Seq<u8>),
    Address(Choice),
    Topic(int, Choice),
}

impl View for Condition {
    type V = ConditionView;

    open spec fn view(&self) -> ConditionView {
        match *self {
            Condition::NumberIs(number) => ConditionView::NumberIs(number as int),
            Condition::NumberBetween(from, to) => ConditionView::NumberBetween(
                from as int,
                to as int,
            ),
            Condition::NumberFrom(from) => ConditionView::NumberFrom(from as int),
            Condition::NumberTo(to) => ConditionView::NumberTo(to as int),
            Condition::BlockHashIs(hash) => ConditionView::BlockHashIs(hash@),
            Condition::AddressIs(address) => ConditionView::Address(Choice::One(address@)),
            Condition::AddressIn(addresses) => ConditionView::Address(
                Choice::Any(addresses_bytes(addresses@)),
            ),
            Condition::TopicIs(position, topic) => ConditionView::Topic(
                position as int,
                Choice::One(topic@),
            ),
            Condition::TopicIn(position, topics) => ConditionView::Topic(
                position as int,
                Choice::Any(crate::evm::hash_bytes(topics@)),
            ),
        }
    }
}

/// The topic of a row at a position.
pub open spec fn row_topic(row: crate::database::LogRowView, position: int) -> Option<Seq<u8>> {
    if position == 0 {
        row.topic_0
    } else if position == 1 {
        row.topic_1
    } else if position == 2 {
        row.topic_2
    } else {
        row.topic_3
    }
}

/// Whether the row has a topic at the position and it is among those asked for.
pub open spec fn topic_allowed(
    row: crate::database::LogRowView,
    position: int,
    choice: Choice,
) -> bool {
    match row_topic(row, position) {
        Some(topic) => choice.allows(topic),
        None => false,
    }
}

impl ConditionView {
    /// Whether the condition holds of a row.
    pub open spec fn holds(self, row: crate::database::LogRowView) -> bool {
        match self {
            ConditionView::NumberIs(number) => row.block_number == number,
            ConditionView::NumberBetween(from, to) => from <= row.block_number <= to,
            ConditionView::NumberFrom(from) => from <= row.block_number,
            ConditionView::NumberTo(to) => row.block_number <= to,
            ConditionView::BlockHashIs(hash) => row.block_hash == hash,
            ConditionView::Address(choice) => choice.allows(row.address),
            ConditionView::Topic(position, choice) => topic_allowed(row, position, choice),
        }
    }
}

/// The number that the first or the last block of a filter stands for. Of the tags, only the latest
/// block is supported.
pub open spec fn as_block_number(block: Option<BlockNumberOrTag>, latest: u32) -> Result<
    Option<nat>,
    LogFilterError,
> {
    match block {
        None => Ok(None),
        Some(BlockNumberOrTag::U256(number)) => Ok(Some(number@)),
        Some(BlockNumberOrTag::BlockTag(BlockTag::Latest)) => Ok(Some(latest as nat)),
        Some(BlockNumberOrTag::BlockTag(tag)) => Err(LogFilterError::UnsupportedTag(tag)),
    }
}

/// The condition on the block: a hash, or a range of numbers up to the latest block, or the latest
/// block where nothing is asked.
pub open spec fn block_condition(
    from: Option<nat>,
    to: Option<nat>,
    hash: Option<Seq<u8>>,
    latest: u32,
) -> Result<ConditionView, LogFilterError> {
    let exceeds = |number: Option<nat>| number matches Some(number) && number > latest;
    match (from, to, hash) {
        (None, None, Some(hash)) => Ok(ConditionView::BlockHashIs(hash)),
        (_, _, Some(_)) => Err(LogFilterError::NumberWithHash),
        (None, None, None) => Ok(ConditionView::NumberIs(latest as int)),
        _ => if exceeds(from) || exceeds(to) {
            Err(LogFilterError::ExceedsLatest)
        } else {
            match (from, to) {
                (Some(from), Some(to)) => if from > to {
                    Err(LogFilterError::InvalidRange)
                } else if from == to {
                    Ok(ConditionView::NumberIs(from as int))
                } else {
                    Ok(ConditionView::NumberBetween(from as int, to as int))
                },
                (Some(from), None) => Ok(ConditionView::NumberFrom(from as int)),
                (None, Some(to)) => Ok(ConditionView::NumberTo(to as int)),
                (None, None) => Ok(ConditionView::NumberIs(latest as int)),
            }
        },
    }
}

/// The conditions on the topics, by position.
pub open spec fn topic_conditions(topics: Seq<Choice>) -> Seq<ConditionView> {
    Seq::new(topics.len(), |i: int| ConditionView::Topic(i, topics[i]))
}

/// The conditions that a filter puts on rows, or why it is refused.
pub open spec fn conditions(filter: FilterView, latest: u32) -> Result<
    Seq<ConditionView>,
    LogFilterError,
> {
    match (as_block_number(filter.from_block, latest), as_block_number(filter.to_block, latest)) {
        (Err(error), _) => Err(error),
        (_, Err(error)) => Err(error),
        (Ok(from), Ok(to)) => match block_condition(from, to, filter.block_hash, latest) {
            Err(error) => Err(error),
            Ok(on_block) => {
                let on_address = match filter.address {
                    Some(choice) => seq![ConditionView::Address(choice)],
                    None => seq![],
                };
                match filter.topics {
                    Some(topics) => if topics.len() > MAX_TOPICS {
                        Err(LogFilterError::TooManyTopics)
                    } else {
                        Ok(seq![on_block] + on_address + topic_conditions(topics))
                    },
                    None => Ok(seq![on_block] + on_address),
                }
            },
        },
    }
}

/// What each condition asks.
pub open spec fn condition_views(conditions: Seq<Condition>) -> Seq<ConditionView> {
    conditions.map_values(|condition: Condition| condition@)
}

/// The number that the first or the last block of a filter stands for.
fn resolve_block_number(block: Option<BlockNumberOrTag>, latest: u32) -> (number: Result<
    Option<U256>,
    LogFilterError,
>)
    ensures
        match number {
            Ok(number) => as_block_number(block, latest) == Ok::<Option<nat>, LogFilterError>(
                crate::evm::integer_value(number),
            ),
            Err(error) => as_block_number(block, latest) == Err::<Option<nat>, LogFilterError>(
                error,
            ),
        },
{
    match block {
        None => Ok(None),
        Some(BlockNumberOrTag::U256(number)) => Ok(Some(number)),
        Some(BlockNumberOrTag::BlockTag(tag)) => match tag {
            BlockTag::Latest => Ok(Some(U256::from_u64(latest as u64))),
            _ => Err(LogFilterError::UnsupportedTag(tag)),
        },
    }
}

/// The number as it is bound to the query.
fn bound_number(number: &U256) -> (bound: i64)
    requires
        number@ <= u32::MAX,
    ensures
        bound == number@,
{
    assert(number.high == 0);
    number.low as i64
}

/// The condition on the block.
fn build_block_condition(
    from: Option<U256>,
    to: Option<U256>,
    hash: Option<H256>,
    latest: u32,
) -> (condition: Result<Condition, LogFilterError>)
    ensures
        match condition {
            Ok(condition) => block_condition(
                crate::evm::integer_value(from),
                crate::evm::integer_value(to),
                crate::database::optional_bytes(hash),
                latest,
            ) == Ok::<ConditionView, LogFilterError>(condition@),
            Err(error) => block_condition(
                crate::evm::integer_value(from),
                crate::evm::integer_value(to),
                crate::database::optional_bytes(hash),
                latest,
            ) == Err::<ConditionView, LogFilterError>(error),
        },
{
    let latest_block = U256::from_u64(latest as u64);
    match (from, to, hash) {
        (Some(_), _, Some(_)) => Err(LogFilterError::NumberWithHash),
        (_, Some(_), Some(_)) => Err(LogFilterError::NumberWithHash),
        (None, None, Some(hash)) => Ok(Condition::BlockHashIs(hash)),
        (None, None, None) => Ok(Condition::NumberIs(latest as i64)),
        (Some(from), Some(to), None) => if from.exceeds(&latest_block) || to.exceeds(
            &latest_block,
        ) {
            Err(LogFilterError::ExceedsLatest)
        } else if from.exceeds(&to) {
            Err(LogFilterError::InvalidRange)
        } else if from == to {
            Ok(Condition::NumberIs(bound_number(&from)))
        } else {
            proof {
                if from@ == to@ {
                    crate::primitives::u256_value_determines(from, to);
                }
            }
            Ok(Condition::NumberBetween(bound_number(&from), bound_number(&to)))
        },
        (Some(from), None, None) => if from.exceeds(&latest_block) {
            Err(LogFilterError::ExceedsLatest)
        } else {
            Ok(Condition::NumberFrom(bound_number(&from)))
        },
        (None, Some(to), None) => if to.exceeds(&latest_block) {
            Err(LogFilterError::ExceedsLatest)
        } else {
            Ok(Condition::NumberTo(bound_number(&to)))
        },
    }
}

/// The most rows that a query for logs returns.
pub const MAX_LOGS: usize = 10000;

/// Whether all the conditions hold of a row.
pub open spec fn selects(
    conditions: Seq<ConditionView>,
    row: crate::database::LogRowView,
) -> bool {
    forall|i: int| 0 <= i < conditions.len() ==> (#[trigger] conditions[i]).holds(row)
}

/// The rows of the table `logs` of which all the conditions hold.
pub open spec fn selected(
    conditions: Seq<ConditionView>,
    tables: crate::database::Tables,
) -> Seq<crate::database::LogRowView> {
    tables.logs.filter(|row: crate::database::LogRowView| selects(conditions, row))
}

/// A query for the rows of the table `logs` of which all the conditions hold.
#[derive(Debug)]
pub struct LogQuery {
    /// The conditions.
    pub conditions: Vec<Condition>,
}

impl LogQuery {
    /// Whether the query may return these rows from a database with these tables: rows of which the
    /// conditions hold, each stored row at most once, in any order, and as many as there are up to
    /// the limit.
    pub open spec fn may_return(
        self,
        tables: crate::database::Tables,
        rows: Seq<crate::database::LogRowView>,
    ) -> bool {
        let found = selected(condition_views(self.conditions@), tables);
        &&& rows.to_multiset().subset_of(found.to_multiset())
        &&& rows.len() == if found.len() <= MAX_LOGS {
            found.len()
        } else {
            MAX_LOGS as nat
        }
    }
}

impl ReceiptProvider {
    /// The query for the logs that match a filter, or why the filter is refused. No filter asks the
    /// same as one that asks nothing.
    pub fn logs(filter: Option<Filter>, latest_block: u32) -> (query: Result<
        LogQuery,
        LogFilterError,
    >)
        ensures
            ({
                let asked = match filter {
                    Some(filter) => filter@,
                    None => FilterView::nothing(),
                };
                match query {
                    Ok(query) => conditions(asked, latest_block) == Ok::<
                        Seq<ConditionView>,
                        LogFilterError,
                    >(condition_views(query.conditions@)),
                    Err(error) => conditions(asked, latest_block) == Err::<
                        Seq<ConditionView>,
                        LogFilterError,
                    >(error),
                }
            }),
    {
        let filter = match filter {
            Some(filter) => filter,
            None => Default::default(),
        };
        let ghost asked = filter@;
        let from_block = match resolve_block_number(filter.from_block, latest_block) {
            Ok(number) => number,
            Err(error) => return Err(error),
        };
        let to_block = match resolve_block_number(filter.to_block, latest_block) {
            Ok(number) => number,
            Err(error) => return Err(error),
        };
        let on_block = match build_block_condition(
            from_block,
            to_block,
            filter.block_hash,
            latest_block,
        ) {
            Ok(condition) => condition,
            Err(error) => return Err(error),
        };
        let ghost expected = seq![on_block@];
        let mut found: Vec<Condition> = Vec::new();
        found.push(on_block);
        assert(condition_views(found@) =~= expected);
        match filter.address {
            Some(AddressOrAddresses::Address(address)) => {
                found.push(Condition::AddressIs(address));
            },
            Some(AddressOrAddresses::Addresses(addresses)) => {
                found.push(Condition::AddressIn(addresses));
            },
            None => {},
        }
        let ghost on_address = match asked.address {
            Some(choice) => seq![ConditionView::Address(choice)],
            None => seq![],
        };
        assert(condition_views(found@) =~= expected + on_address);
        match filter.topics {
            Some(topics) => {
                if topics.len() > MAX_TOPICS {
                    return Err(LogFilterError::TooManyTopics);
                }
                let ghost before = condition_views(found@);
                let ghost choices = asked.topics->0;
                let mut i: usize = 0;
                assert(condition_views(found@) =~= before + topic_conditions(choices).take(0));
                while i < topics.len()
                    invariant
                        i <= topics@.len(),
                        choices == topics@.map_values(|topic: FilterTopic| topic@),
                        condition_views(found@) == before + topic_conditions(choices).take(i as int),
                    decreases topics@.len() - i,
                {
                    let ghost earlier = found@;
                    let condition = match &topics[i] {
                        FilterTopic::Single(hash) => Condition::TopicIs(i, *hash),
                        FilterTopic::Multiple(hashes) => {
                            let copy = hashes.clone();
                            assert(copy@ =~= hashes@);
                            Condition::TopicIn(i, copy)
                        },
                    };
                    assert(choices[i as int] == topics@[i as int]@);
                    assert(condition@ == topic_conditions(choices)[i as int]);
                    found.push(condition);
                    assert(condition_views(found@) =~= condition_views(earlier).push(condition@));
                    assert(condition_views(found@) =~= before + topic_conditions(choices).take(
                        i + 1,
                    ));
                    i += 1;
                }
                assert(topic_conditions(choices).take(i as int) =~= topic_conditions(choices));
            },
            None => {},
        }
        Ok(LogQuery { conditions: found })
    }
}

/// The name of the column that holds the topic at a position.
pub open spec fn topic_column(position: int) -> Seq<char> {
    if position == 0 {
        "topic_0"@
    } else if position == 1 {
        "topic_1"@
    } else if position == 2 {
        "topic_2"@
    } else {
        "topic_3"@
    }
}

/// A condition on a column: equality, or membership in a list.
pub open spec fn choice_text(column: Seq<char>, choice: Choice) -> Seq<char> {
    match choice {
        Choice::One(_) => " AND "@ + column + " = ?"@,
        Choice::Any(any) => " AND "@ + column + " IN ("@ + crate::database::placeholders(any.len())
            + ")"@,
    }
}

/// The values that are bound for a choice.
pub open spec fn choice_binds(choice: Choice) -> Seq<crate::database::SqlValueView> {
    match choice {
        Choice::One(one) => seq![crate::database::SqlValueView::Blob(one)],
        Choice::Any(any) => crate::database::blobs(any),
    }
}

impl ConditionView {
    /// The condition in SQL.
    pub open spec fn sql(self) -> Seq<char> {
        match self {
            ConditionView::NumberIs(_) => " AND block_number = ?"@,
            ConditionView::NumberBetween(_, _) => " AND block_number BETWEEN ? AND ?"@,
            ConditionView::NumberFrom(_) => " AND block_number >= ?"@,
            ConditionView::NumberTo(_) => " AND block_number <= ?"@,
            ConditionView::BlockHashIs(_) => " AND block_hash = ?"@,
            ConditionView::Address(choice) => choice_text("address"@, choice),
            ConditionView::Topic(position, choice) => choice_text(topic_column(position), choice),
        }
    }

    /// The values that are bound for the condition.
    pub open spec fn binds(self) -> Seq<crate::database::SqlValueView> {
        match self {
            ConditionView::NumberIs(number) => seq![
                crate::database::SqlValueView::Integer(number),
            ],
            ConditionView::NumberBetween(from, to) => seq![
                crate::database::SqlValueView::Integer(from),
                crate::database::SqlValueView::Integer(to),
            ],
            ConditionView::NumberFrom(from) => seq![crate::database::SqlValueView::Integer(from)],
            ConditionView::NumberTo(to) => seq![crate::database::SqlValueView::Integer(to)],
            ConditionView::BlockHashIs(hash) => seq![crate::database::SqlValueView::Blob(hash)],
            ConditionView::Address(choice) => choice_binds(choice),
            ConditionView::Topic(_, choice) => choice_binds(choice),
        }
    }
}

/// The conditions in SQL, one after the other.
pub open spec fn conditions_text(conditions: Seq<ConditionView>) -> Seq<char>
    decreases conditions.len(),
{
    if conditions.len() == 0 {
        "SELECT logs.* FROM logs WHERE 1=1"@
    } else {
        conditions_text(conditions.drop_last()) + conditions.last().sql()
    }
}

/// The values that are bound for the conditions, in order.
pub open spec fn conditions_binds(conditions: Seq<ConditionView>) -> Seq<
    crate::database::SqlValueView,
>
    decreases conditions.len(),
{
    if conditions.len() == 0 {
        seq![]
    } else {
        conditions_binds(conditions.drop_last()) + conditions.last().binds()
    }
}

/// Writes out a condition on a column.
fn write_choice(column: &str, count: Option<usize>) -> (text: String)
    ensures
        text@ == (match count {
            None => " AND "@ + column@ + " = ?"@,
            Some(count) => " AND "@ + column@ + " IN ("@ + crate::database::placeholders(
                count as nat,
            ) + ")"@,
        }),
{
    let mut text = String::from_str(" AND ");
    text.append(column);
    match count {
        None => {
            text.append(" = ?");
        },
        Some(count) => {
            text.append(" IN (");
            let list = write_placeholders(count);
            text.append(list.as_str());
            text.append(")");
        },
    }
    text
}

/// The name of the column that holds the topic at a position.
fn topic_column_name(position: usize) -> (name: &'static str)
    ensures
        name@ == topic_column(position as int),
{
    match position {
        0 => "topic_0",
        1 => "topic_1",
        2 => "topic_2",
        _ => "topic_3",
    }
}

/// Binds each address as a blob.
fn bind_addresses(addresses: &Vec<H160>) -> (values: Vec<SqlValue>)
    ensures
        crate::database::value_views(values@) == crate::database::blobs(
            addresses_bytes(addresses@),
        ),
{
    let mut values: Vec<SqlValue> = Vec::new();
    let mut i: usize = 0;
    while i < addresses.len()
        invariant
            i <= addresses@.len(),
            values@.len() == i,
            forall|j: int|
                0 <= j < i ==> (#[trigger] values@[j])@ == crate::database::SqlValueView::Blob(
                    addresses@[j]@,
                ),
        decreases addresses@.len() - i,
    {
        values.push(SqlValue::Blob(addresses[i].to_vec()));
        i += 1;
    }
    assert(crate::database::value_views(values@) =~= crate::database::blobs(
        addresses_bytes(addresses@),
    ));
    values
}

/// A single bound value.
fn bind_one(value: SqlValue) -> (values: Vec<SqlValue>)
    ensures
        crate::database::value_views(values@) == seq![value@],
{
    let mut values: Vec<SqlValue> = Vec::new();
    values.push(value);
    assert(crate::database::value_views(values@) =~= seq![value@]);
    values
}

impl Condition {
    /// The condition in SQL.
    pub fn sql(&self) -> (text: String)
        ensures
            text@ == self@.sql(),
    {
        match self {
            Condition::NumberIs(_) => String::from_str(" AND block_number = ?"),
            Condition::NumberBetween(_, _) => String::from_str(" AND block_number BETWEEN ? AND ?"),
            Condition::NumberFrom(_) => String::from_str(" AND block_number >= ?"),
            Condition::NumberTo(_) => String::from_str(" AND block_number <= ?"),
            Condition::BlockHashIs(_) => String::from_str(" AND block_hash = ?"),
            Condition::AddressIs(_) => write_choice("address", None),
            Condition::AddressIn(addresses) => write_choice("address", Some(addresses.len())),
            Condition::TopicIs(position, _) => write_choice(topic_column_name(*position), None),
            Condition::TopicIn(position, topics) => write_choice(
                topic_column_name(*position),
                Some(topics.len()),
            ),
        }
    }

    /// The values that are bound for the condition.
    pub fn binds(&self) -> (values: Vec<SqlValue>)
        ensures
            crate::database::value_views(values@) == self@.binds(),
    {
        match self {
            Condition::NumberIs(number) => bind_one(SqlValue::Integer(*number)),
            Condition::NumberBetween(from, to) => {
                let values = vec![SqlValue::Integer(*from), SqlValue::Integer(*to)];
                assert(crate::database::value_views(values@) =~= self@.binds());
                values
            },
            Condition::NumberFrom(from) => bind_one(SqlValue::Integer(*from)),
            Condition::NumberTo(to) => bind_one(SqlValue::Integer(*to)),
            Condition::BlockHashIs(hash) => bind_one(SqlValue::Blob(hash.to_vec())),
            Condition::AddressIs(address) => bind_one(SqlValue::Blob(address.to_vec())),
            Condition::AddressIn(addresses) => bind_addresses(addresses),
            Condition::TopicIs(_, topic) => bind_one(SqlValue::Blob(topic.to_vec())),
            Condition::TopicIn(_, topics) => crate::database::bind_hashes(topics),
        }
    }
}

impl LogQuery {
    /// The text of the query. It asks for ten thousand rows at most.
    pub fn sql(&self) -> (text: String)
        ensures
            text@ == conditions_text(condition_views(self.conditions@)) + " LIMIT 10000"@,
    {
        let ghost views = condition_views(self.conditions@);
        let mut text = String::from_str("SELECT logs.* FROM logs WHERE 1=1");
        let mut i: usize = 0;
        assert(views.take(0) =~= seq![]);
        while i < self.conditions.len()
            invariant
                i <= self.conditions@.len(),
                views == condition_views(self.conditions@),
                text@ == conditions_text(views.take(i as int)),
            decreases self.conditions@.len() - i,
        {
            let condition = self.conditions[i].sql();
            text.append(condition.as_str());
            proof {
                assert(views.take(i + 1).drop_last() =~= views.take(i as int));
                assert(views.take(i + 1).last() == self.conditions@[i as int]@);
            }
            i += 1;
        }
        assert(views.take(i as int) =~= views);
        text.append(" LIMIT 10000");
        text
    }

    /// The values that are bound to the query, in order.
    pub fn binds(&self) -> (values: Vec<SqlValue>)
        ensures
            crate::database::value_views(values@) == conditions_binds(
                condition_views(self.conditions@),
            ),
    {
        let ghost views = condition_views(self.conditions@);
        let mut values: Vec<SqlValue> = Vec::new();
        let mut i: usize = 0;
        assert(views.take(0) =~= seq![]);
        assert(crate::database::value_views(values@) =~= conditions_binds(views.take(0)));
        while i < self.conditions.len()
            invariant
                i <= self.conditions@.len(),
                views == condition_views(self.conditions@),
                crate::database::value_views(values@) == conditions_binds(views.take(i as int)),
            decreases self.conditions@.len() - i,
        {
            let mut more = self.conditions[i].binds();
            let ghost before = values@;
            let ghost added = more@;
            values.append(&mut more);
            proof {
                assert(views.take(i + 1).drop_last() =~= views.take(i as int));
                assert(views.take(i + 1).last() == self.conditions@[i as int]@);
                assert(crate::database::value_views(values@) =~= crate::database::value_views(
                    before,
                ) + crate::database::value_views(added));
            }
            i += 1;
        }
        assert(views.take(i as int) =~= views);
        values
    }
}

/// A row of the table `logs` as it is read.
#[derive(Debug)]
pub struct StoredLog {
    /// The hash of the Ethereum block.
    pub block_hash: Vec<u8>,
    /// The index of the transaction.
    pub transaction_index: i64,
    /// The position of the log in its receipt.
    pub log_index: i64,
    /// The contract that emitted the log.
    pub address: Vec<u8>,
    /// The number of the block.
    pub block_number: i64,
    /// The hash of the transaction.
    pub transaction_hash: Vec<u8>,
    /// The first topic.
    pub topic_0: Option<Vec<u8>>,
    /// The second topic.
    pub topic_1: Option<Vec<u8>>,
    /// The third topic.
    pub topic_2: Option<Vec<u8>>,
    /// The fourth topic.
    pub topic_3: Option<Vec<u8>>,
    /// The data of the log.
    pub data: Option<Vec<u8>>,
}

impl View for StoredLog {
    type V = crate::database::LogRowView;

    open spec fn view(&self) -> crate::database::LogRowView {
        crate::database::LogRowView {
            block_hash: self.block_hash@,
            transaction_index: self.transaction_index as int,
            log_index: self.log_index as int,
            address: self.address@,
            block_number: self.block_number as int,
            transaction_hash: self.transaction_hash@,
            topic_0: crate::evm::data_bytes(self.topic_0),
            topic_1: crate::evm::data_bytes(self.topic_1),
            topic_2: crate::evm::data_bytes(self.topic_2),
            topic_3: crate::evm::data_bytes(self.topic_3),
            data: crate::evm::data_bytes(self.data),
        }
    }
}

/// Whether a topic of a row, where there is one, has the length of a hash.
pub open spec fn is_topic(topic: Option<Seq<u8>>) -> bool {
    topic matches Some(topic) ==> topic.len() == 32
}

/// Whether the hashes and the address of a row have their lengths.
pub open spec fn is_well_formed(row: crate::database::LogRowView) -> bool {
    &&& row.block_hash.len() == 32
    &&& row.transaction_hash.len() == 32
    &&& row.address.len() == 20
    &&& is_topic(row.topic_0)
    &&& is_topic(row.topic_1)
    &&& is_topic(row.topic_2)
    &&& is_topic(row.topic_3)
}

/// The value of a 64-bit pattern as an unsigned integer.
pub open spec fn as_u64(value: int) -> nat {
    if value >= 0 {
        value as nat
    } else {
        (value + 0x1_0000_0000_0000_0000) as nat
    }
}

/// A topic as a sequence of at most one.
pub open spec fn one_topic(topic: Option<Seq<u8>>) -> Seq<Seq<u8>> {
    match topic {
        Some(topic) => seq![topic],
        None => seq![],
    }
}

/// The topics that a row has, in order.
pub open spec fn row_topics(row: crate::database::LogRowView) -> Seq<Seq<u8>> {
    one_topic(row.topic_0) + one_topic(row.topic_1) + one_topic(row.topic_2) + one_topic(
        row.topic_3,
    )
}

/// The log that a row stands for.
pub open spec fn log_of_row(row: crate::database::LogRowView) -> crate::evm::LogView {
    crate::evm::LogView {
        address: row.address,
        block_hash: row.block_hash,
        block_number: as_u64(row.block_number),
        data: row.data,
        log_index: as_u64(row.log_index),
        removed: false,
        topics: row_topics(row),
        transaction_hash: row.transaction_hash,
        transaction_index: as_u64(row.transaction_index),
    }
}

/// The bits of an integer as an unsigned integer.
fn unsigned(value: i64) -> (r: U256)
    ensures
        r@ == as_u64(value as int),
{
    proof {
        assert(value >= 0 ==> value as u64 == value) by (bit_vector);
        assert(value < 0 ==> value as u64 == value + 0x1_0000_0000_0000_0000) by (bit_vector);
    }
    U256::from_u64(value as u64)
}

/// Appends a topic to the others, where there is one.
fn push_topic(topics: &mut Vec<H256>, topic: &Option<Vec<u8>>)
    requires
        is_topic(crate::evm::data_bytes(*topic)),
    ensures
        crate::evm::hash_bytes(final(topics)@) == crate::evm::hash_bytes(old(topics)@) + one_topic(
            crate::evm::data_bytes(*topic),
        ),
{
    let ghost before = topics@;
    match topic {
        Some(topic) => {
            topics.push(H256::from_slice(topic.as_slice()));
        },
        None => {},
    }
    assert(crate::evm::hash_bytes(topics@) =~= crate::evm::hash_bytes(before) + one_topic(
        crate::evm::data_bytes(*topic),
    ));
}

impl Log {
    /// The log that a row stands for.
    pub fn from_row(row: StoredLog) -> (log: Log)
        requires
            is_well_formed(row@),
        ensures
            log@ == log_of_row(row@),
    {
        let mut topics: Vec<H256> = Vec::new();
        assert(crate::evm::hash_bytes(topics@) =~= seq![]);
        push_topic(&mut topics, &row.topic_0);
        push_topic(&mut topics, &row.topic_1);
        push_topic(&mut topics, &row.topic_2);
        push_topic(&mut topics, &row.topic_3);
        assert(crate::evm::hash_bytes(topics@) =~= row_topics(row@));
        Log {
            address: H160::from_slice(row.address.as_slice()),
            block_hash: H256::from_slice(row.block_hash.as_slice()),
            block_number: unsigned(row.block_number),
            data: row.data,
            log_index: unsigned(row.log_index),
            removed: false,
            topics,
            transaction_hash: H256::from_slice(row.transaction_hash.as_slice()),
            transaction_index: unsigned(row.transaction_index),
        }
    }
}

/// Whether a row is of a block that a filter asks for: of the block with the given hash, or of a
/// block in the range of numbers, or of the latest block where nothing is asked.
pub open spec fn block_matches(
    filter: FilterView,
    latest: u32,
    row: crate::database::LogRowView,
) -> bool {
    let from = as_block_number(filter.from_block, latest)->Ok_0;
    let to = as_block_number(filter.to_block, latest)->Ok_0;
    match filter.block_hash {
        Some(hash) => row.block_hash == hash,
        None => if from is None && to is None {
            row.block_number == latest
        } else {
            &&& from matches Some(from) ==> from <= row.block_number
            &&& to matches Some(to) ==> row.block_number <= to
        },
    }
}

/// Whether a row is what a filter asks for.
pub open spec fn matches_filter(
    filter: FilterView,
    latest: u32,
    row: crate::database::LogRowView,
) -> bool {
    &&& block_matches(filter, latest, row)
    &&& filter.address matches Some(choice) ==> choice.allows(row.address)
    &&& filter.topics matches Some(topics) ==> forall|i: int|
        0 <= i < topics.len() ==> topic_allowed(row, i, #[trigger] topics[i])
}

/// Where a filter is accepted, the conditions of its query hold of exactly those rows that the
/// filter asks for.
pub proof fn the_query_selects_what_the_filter_asks_for(
    filter: FilterView,
    latest: u32,
    row: crate::database::LogRowView,
)
    requires
        conditions(filter, latest) is Ok,
    ensures
        matches_filter(filter, latest, row) <==> selects(conditions(filter, latest)->Ok_0, row),
{
    let asked = conditions(filter, latest)->Ok_0;
    let from = as_block_number(filter.from_block, latest)->Ok_0;
    let to = as_block_number(filter.to_block, latest)->Ok_0;
    let on_block = block_condition(from, to, filter.block_hash, latest)->Ok_0;
    assert(asked[0] == on_block);
    assert(on_block.holds(row) <==> block_matches(filter, latest, row));
    let on_address: int = if filter.address is Some {
        1
    } else {
        0
    };
    if filter.address is Some {
        assert(asked[1] == ConditionView::Address(filter.address->0));
    }
    if filter.topics is Some {
        let topics = filter.topics->0;
        assert forall|i: int| 0 <= i < topics.len() implies #[trigger] asked[1 + on_address + i]
            == ConditionView::Topic(i, topics[i]) by {}
        if selects(asked, row) {
            assert forall|i: int| 0 <= i < topics.len() implies topic_allowed(
                row,
                i,
                #[trigger] topics[i],
            ) by {
                assert(asked[1 + on_address + i].holds(row));
            }
        }
        if matches_filter(filter, latest, row) {
            assert forall|i: int| 0 <= i < asked.len() implies (#[trigger] asked[i]).holds(row) by {
                if i > on_address {
                    let k = i - 1 - on_address;
                    assert(asked[1 + on_address + k] == ConditionView::Topic(k, topics[k]));
                    assert(topic_allowed(row, k, topics[k]));
                }
            }
        }
    }
}

/// What a query for logs returns is stored, and the conditions of the query hold of it.
pub proof fn only_selected_logs_are_returned(
    query: LogQuery,
    tables: crate::database::Tables,
    rows: Seq<crate::database::LogRowView>,
)
    requires
        query.may_return(tables, rows),
    ensures
        rows.len() <= MAX_LOGS,
        forall|row: crate::database::LogRowView| #[trigger]
            rows.contains(row) ==> tables.logs.contains(row) && selects(
                condition_views(query.conditions@),
                row,
            ),
{
    broadcast use vstd::seq_lib::group_to_multiset_ensures;

    let asked = condition_views(query.conditions@);
    let found = selected(asked, tables);
    let keep = |row: crate::database::LogRowView| selects(asked, row);
    assert forall|row: crate::database::LogRowView| #[trigger] rows.contains(
        row,
    ) implies tables.logs.contains(row) && selects(asked, row) by {
        assert(rows.to_multiset().count(row) > 0);
        assert(found.to_multiset().count(row) > 0);
        assert(found.contains(row));
        crate::database::lemma_filtered_rows(tables.logs, keep);
    }
}

/// Where the logs that match are no more than the limit, all of them are returned.
pub proof fn up_to_the_limit_all_logs_are_returned(
    query: LogQuery,
    tables: crate::database::Tables,
    rows: Seq<crate::database::LogRowView>,
)
    requires
        query.may_return(tables, rows),
        selected(condition_views(query.conditions@), tables).len() <= MAX_LOGS,
    ensures
        rows.to_multiset() == selected(condition_views(query.conditions@), tables).to_multiset(),
        forall|row: crate::database::LogRowView| #[trigger]
            rows.contains(row) <==> tables.logs.contains(row) && selects(
                condition_views(query.conditions@),
                row,
            ),
{
    broadcast use {
        vstd::seq_lib::group_to_multiset_ensures,
        vstd::multiset::group_multiset_axioms,
    };

    let asked = condition_views(query.conditions@);
    let found = selected(asked, tables);
    let keep = |row: crate::database::LogRowView| selects(asked, row);
    let missing = found.to_multiset().sub(rows.to_multiset());
    assert(missing.len() == 0);
    assert forall|row: crate::database::LogRowView|
        found.to_multiset().count(row) == rows.to_multiset().count(row) by {
        if missing.count(row) > 0 {
            assert(missing.remove(row).len() == missing.len() - 1);
        }
    }
    assert(rows.to_multiset() =~= found.to_multiset());
    assert forall|row: crate::database::LogRowView| #[trigger]
        rows.contains(row) <==> tables.logs.contains(row) && selects(asked, row) by {
        crate::database::lemma_filtered_rows(tables.logs, keep);
        assert(rows.contains(row) <==> rows.to_multiset().count(row) > 0);
        assert(found.contains(row) <==> found.to_multiset().count(row) > 0);
        assert(keep(row) == selects(asked, row));
    }
}

/// A filter that is accepted is answered with stored logs that it asks for, and with all of them
/// where they are no more than the limit.
pub proof fn a_filter_is_answered_with_what_it_asks_for(
    filter: FilterView,
    latest: u32,
    query: LogQuery,
    tables: crate::database::Tables,
    rows: Seq<crate::database::LogRowView>,
)
    requires
        conditions(filter, latest) == Ok::<Seq<ConditionView>, LogFilterError>(
            condition_views(query.conditions@),
        ),
        query.may_return(tables, rows),
    ensures
        forall|row: crate::database::LogRowView| #[trigger]
            rows.contains(row) ==> tables.logs.contains(row) && matches_filter(filter, latest, row),
        selected(condition_views(query.conditions@), tables).len() <= MAX_LOGS ==> forall|
            row: crate::database::LogRowView,
        | #[trigger]
            tables.logs.contains(row) && matches_filter(filter, latest, row) ==> rows.contains(row),
{
    only_selected_logs_are_returned(query, tables, rows);
    if selected(condition_views(query.conditions@), tables).len() <= MAX_LOGS {
        up_to_the_limit_all_logs_are_returned(query, tables, rows);
    }
    assert forall|row: crate::database::LogRowView| #[trigger]
        matches_filter(filter, latest, row) <==> selects(
            condition_views(query.conditions@),
            row,
        ) by {
        the_query_selects_what_the_filter_asks_for(filter, latest, row);
    }
}

/// A filter is refused exactly where it names an unsupported tag, or a number together with a hash,
/// or a block beyond the latest one, or a range that ends before it begins, or too many topics.
pub proof fn a_filter_is_refused_only_for_a_reason(filter: FilterView, latest: u32)
    ensures
        conditions(filter, latest) is Err <==> {
            let from = as_block_number(filter.from_block, latest);
            let to = as_block_number(filter.to_block, latest);
            ||| from is Err
            ||| to is Err
            ||| filter.block_hash is Some && (from->Ok_0 is Some || to->Ok_0 is Some)
            ||| from->Ok_0 is Some && from->Ok_0->0 > latest
            ||| to->Ok_0 is Some && to->Ok_0->0 > latest
            ||| from->Ok_0 is Some && to->Ok_0 is Some && from->Ok_0->0 > to->Ok_0->0
            ||| filter.topics is Some && filter.topics->0.len() > MAX_TOPICS
        },
{
}

/// A log that was written to the database is read back as it was, as long as it has no more topics
/// than the table has columns and its indices are not beyond the range of the columns.
pub proof fn a_log_is_read_back_as_it_was_written(
    log: crate::evm::LogView,
    receipt: crate::evm::ReceiptView,
    block: crate::block_cache::BlockHashMap,
    block_number: u32,
)
    requires
        log.block_hash == block.ethereum_hash@,
        log.block_number == block_number,
        log.transaction_hash == receipt.transaction_hash,
        log.transaction_index == receipt.transaction_index,
        !log.removed,
        log.topics.len() <= MAX_TOPICS,
        log.log_index <= i32::MAX,
        log.transaction_index <= i32::MAX,
    ensures
        log_of_row(crate::receipt_provider::log_row(log, receipt, block, block_number)) == log,
{
    let row = crate::receipt_provider::log_row(log, receipt, block, block_number);
    assert(row_topics(row) =~= log.topics);
}

/// A log that is read from a row has what stands in the columns of the row. Where each topic of the
/// row comes after those before it, the topics are at their positions.
pub proof fn a_log_is_what_its_row_says(row: StoredLog, log: Log)
    requires
        is_well_formed(row@),
        call_ensures(Log::from_row, (row,), log),
    ensures
        log.address@ == row.address@,
        log.block_hash@ == row.block_hash@,
        log.transaction_hash@ == row.transaction_hash@,
        row.block_number >= 0 ==> log.block_number@ == row.block_number,
        row.transaction_index >= 0 ==> log.transaction_index@ == row.transaction_index,
        row.log_index >= 0 ==> log.log_index@ == row.log_index,
        // A negative integer is read by its bits.
        row.block_number < 0 ==> log.block_number@ - row.block_number == 0x1_0000_0000_0000_0000,
        row.transaction_index < 0 ==> log.transaction_index@ - row.transaction_index
            == 0x1_0000_0000_0000_0000,
        row.log_index < 0 ==> log.log_index@ - row.log_index == 0x1_0000_0000_0000_0000,
        !log.removed,
        crate::evm::data_bytes(log.data) == crate::evm::data_bytes(row.data),
        (row.topic_1 is Some ==> row.topic_0 is Some) && (row.topic_2 is Some ==> row.topic_1
            is Some) && (row.topic_3 is Some ==> row.topic_2 is Some) ==> {
            &&& row.topic_0 is None ==> log.topics@.len() == 0
            &&& row.topic_0 is Some ==> log.topics@.len() > 0 && log.topics@[0]@ == row.topic_0->0@
            &&& row.topic_0 is Some && row.topic_1 is None ==> log.topics@.len() == 1
            &&& row.topic_1 is Some ==> log.topics@.len() > 1 && log.topics@[1]@ == row.topic_1->0@
            &&& row.topic_1 is Some && row.topic_2 is None ==> log.topics@.len() == 2
            &&& row.topic_2 is Some ==> log.topics@.len() > 2 && log.topics@[2]@ == row.topic_2->0@
            &&& row.topic_2 is Some && row.topic_3 is None ==> log.topics@.len() == 3
            &&& row.topic_3 is Some ==> log.topics@.len() == 4 && log.topics@[3]@ == row.topic_3->0@
        },
{
    let topics = log@.topics;
    assert(topics.len() == log.topics@.len());
    assert(topics.len() > 0 ==> topics[0] == log.topics@[0]@);
    assert(topics.len() > 1 ==> topics[1] == log.topics@[1]@);
    assert(topics.len() > 2 ==> topics[2] == log.topics@[2]@);
    assert(topics.len() > 3 ==> topics[3] == log.topics@[3]@);
}

/// A filter that is refused for a tag is told with the name of the tag, and no two refusals are told
/// with the same words.
pub proof fn a_refusal_says_why(
    error: LogFilterError,
    message: String,
    other: LogFilterError,
    other_message: String,
)
    requires
        call_ensures(LogFilterError::message, (&error,), message),
        call_ensures(LogFilterError::message, (&other,), other_message),
    ensures
        error matches LogFilterError::UnsupportedTag(tag) ==> message@ == "Unsupported tag: "@
            + match tag {
            BlockTag::Earliest => "Earliest"@,
            BlockTag::Finalized => "Finalized"@,
            BlockTag::Safe => "Safe"@,
            BlockTag::Latest => "Latest"@,
            BlockTag::Pending => "Pending"@,
        },
        error is NumberWithHash ==> message@
            == "block number and block hash cannot be used together"@,
        error is ExceedsLatest ==> message@ == "block number exceeds latest block"@,
        error is InvalidRange ==> message@ == "invalid block range params"@,
        error is TooManyTopics ==> message@ == "exceed max topics"@,
        message@ == other_message@ ==> error == other,
{
    reveal_strlit("Unsupported tag: ");
    reveal_strlit("Earliest");
    reveal_strlit("Finalized");
    reveal_strlit("Safe");
    reveal_strlit("Latest");
    reveal_strlit("Pending");
    reveal_strlit("block number and block hash cannot be used together");
    reveal_strlit("block number exceeds latest block");
    reveal_strlit("invalid block range params");
    reveal_strlit("exceed max topics");
    if message@ == other_message@ {
        assert(message@.len() == other_message@.len());
        assert(error is UnsupportedTag <==> message@[0] == 'U');
        assert(other is UnsupportedTag <==> other_message@[0] == 'U');
        if error is UnsupportedTag {
            assert(message@[17] == tag_name(error->UnsupportedTag_0)[0]);
            assert(other_message@[17] == tag_name(other->UnsupportedTag_0)[0]);
        }
    }
}

} // verus!
