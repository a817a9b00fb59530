//! What can go wrong, and how it is told to an RPC caller.

use crate::hex_format::to_hex;
use crate::text::{quote, write_byte_list};
use vstd::prelude::*;

verus! {

/// Why a transaction could not be submitted.
#[derive(Clone, Copy, Debug, PartialEq, Eq, Structural)]
pub enum SubmitError {
    /// Transaction was usurped by another with the same nonce.
    Usurped,
    /// Transaction was dropped from the pool.
    Dropped,
    /// Transaction is invalid (e.g. bad nonce, signature, etc).
    Invalid,
    /// Transaction stream ended without a terminal status.
    StreamEnded,
    /// Unknown transaction status.
    Unknown,
}

/// Why an Ethereum transaction failed to execute.
#[derive(Debug)]
pub enum EthTransactError {
    /// The contract reverted with this output.
    Data(Vec<u8>),
    /// The execution failed with this message.
    Message(String),
}

/// The error type for the client. What an outside error says is kept as its text.
#[derive(Debug)]
pub enum ClientError {
    /// The JSON-RPC client failed.
    Jsonrpsee(String),
    /// An error originating from the native in-process Substrate client.
    NativeClientError(String),
    /// The database failed.
    SqlxError(String),
    /// A SCALE value could not be decoded.
    CodecError(String),
    /// The extrinsic could not be submitted.
    SubmitError(SubmitError),
    /// Transact call failed.
    TransactError(EthTransactError),
    /// A decimal conversion failed.
    ConversionFailed,
    /// The block hash was not found.
    BlockNotFound,
    /// The contract was not found.
    ContractNotFound,
    /// No Ethereum extrinsic was found.
    EthExtrinsicNotFound,
    /// The transaction fee could not be found.
    TxFeeNotFound,
    /// Failed to decode a raw payload into a signed transaction.
    TxDecodingFailed,
    /// Failed to recover eth address.
    RecoverEthAddressFailed,
    /// Failed to filter logs.
    LogFilterFailed(String),
    /// Receipt storage was not found.
    ReceiptDataNotFound,
    /// Ethereum block was not found.
    EthereumBlockNotFound,
    /// Receipt data length mismatch.
    ReceiptDataLengthMismatch,
    /// Transaction submission timeout.
    Timeout,
}

impl SubmitError {
    /// What the error says.
    pub open spec fn text(self) -> Seq<char> {
        match self {
            SubmitError::Usurped => "Transaction was usurped by another with the same nonce"@,
            SubmitError::Dropped => "Transaction was dropped"@,
            SubmitError::Invalid => "Transaction is invalid (e.g. bad nonce, signature, etc)"@,
            SubmitError::StreamEnded => "Transaction stream ended without status"@,
            SubmitError::Unknown => "Unknown transaction status"@,
        }
    }

    /// What the error says.
    pub fn message(&self) -> (message: String)
        ensures
            message@ == self.text(),
    {
        match self {
            SubmitError::Usurped => String::from_str(
                "Transaction was usurped by another with the same nonce",
            ),
            SubmitError::Dropped => String::from_str("Transaction was dropped"),
            SubmitError::Invalid => String::from_str(
                "Transaction is invalid (e.g. bad nonce, signature, etc)",
            ),
            SubmitError::StreamEnded => String::from_str("Transaction stream ended without status"),
            SubmitError::Unknown => String::from_str("Unknown transaction status"),
        }
    }
}

/// What is said of a call that failed with a message, given the quoted form of the message.
pub open spec fn failure_text(quoted: Seq<char>) -> Seq<char> {
    "contract reverted: Message("@ + quoted + ")"@
}

/// What is said of a call that failed with a message, given the quoted form of the message.
pub fn failure_message(quoted: String) -> (message: String)
    ensures
        message@ == failure_text(quoted@),
{
    let mut message = String::from_str("contract reverted: Message(");
    message.append(quoted.as_str());
    message.append(")");
    message
}

impl EthTransactError {
    /// What the error says.
    pub open spec fn text(self) -> Seq<char> {
        match self {
            EthTransactError::Data(output) => "contract reverted: Data(["@ + crate::text::byte_list(
                output@,
            ) + "])"@,
            EthTransactError::Message(message) => failure_text(crate::text::quoted(message@)),
        }
    }

    /// What the error says.
    pub fn message(&self) -> (message: String)
        ensures
            message@ == self.text(),
    {
        match self {
            EthTransactError::Data(output) => {
                let mut message = String::from_str("contract reverted: Data([");
                let bytes = write_byte_list(output.as_slice());
                message.append(bytes.as_str());
                message.append("])");
                message
            },
            EthTransactError::Message(message) => failure_message(quote(message.as_str())),
        }
    }
}

impl ClientError {
    /// What the error says.
    pub open spec fn text(self) -> Seq<char> {
        match self {
            ClientError::Jsonrpsee(text) => text@,
            ClientError::NativeClientError(text) => "Native client error: "@ + text@,
            ClientError::SqlxError(text) => text@,
            ClientError::CodecError(text) => text@,
            ClientError::SubmitError(error) => "Invalid transaction: "@ + error.text(),
            ClientError::TransactError(error) => error.text(),
            ClientError::ConversionFailed => "conversion failed"@,
            ClientError::BlockNotFound => "hash not found"@,
            ClientError::ContractNotFound => "Contract not found"@,
            ClientError::EthExtrinsicNotFound => "No Ethereum extrinsic found"@,
            ClientError::TxFeeNotFound => "transactionFeePaid event not found"@,
            ClientError::TxDecodingFailed =>
                "Failed to decode a raw payload into a signed transaction"@,
            ClientError::RecoverEthAddressFailed => "failed to recover eth address"@,
            ClientError::LogFilterFailed(_) => "Failed to filter logs"@,
            ClientError::ReceiptDataNotFound => "Receipt storage not found"@,
            ClientError::EthereumBlockNotFound => "Ethereum block not found"@,
            ClientError::ReceiptDataLengthMismatch => "Receipt data length mismatch"@,
            ClientError::Timeout => "Transaction submission timeout"@,
        }
    }

    /// What the error says.
    pub fn message(&self) -> (message: String)
        ensures
            message@ == self.text(),
    {
        match self {
            ClientError::Jsonrpsee(text) => text.clone(),
            ClientError::NativeClientError(text) => {
                let mut message = String::from_str("Native client error: ");
                message.append(text.as_str());
                message
            },
            ClientError::SqlxError(text) => text.clone(),
            ClientError::CodecError(text) => text.clone(),
            ClientError::SubmitError(error) => {
                let mut message = String::from_str("Invalid transaction: ");
                let reason = error.message();
                message.append(reason.as_str());
                message
            },
            ClientError::TransactError(error) => error.message(),
            ClientError::ConversionFailed => String::from_str("conversion failed"),
            ClientError::BlockNotFound => String::from_str("hash not found"),
            ClientError::ContractNotFound => String::from_str("Contract not found"),
            ClientError::EthExtrinsicNotFound => String::from_str("No Ethereum extrinsic found"),
            ClientError::TxFeeNotFound => String::from_str("transactionFeePaid event not found"),
            ClientError::TxDecodingFailed => String::from_str(
                "Failed to decode a raw payload into a signed transaction",
            ),
            ClientError::RecoverEthAddressFailed => String::from_str(
                "failed to recover eth address",
            ),
            ClientError::LogFilterFailed(_) => String::from_str("Failed to filter logs"),
            ClientError::ReceiptDataNotFound => String::from_str("Receipt storage not found"),
            ClientError::EthereumBlockNotFound => String::from_str("Ethereum block not found"),
            ClientError::ReceiptDataLengthMismatch => String::from_str(
                "Receipt data length mismatch",
            ),
            ClientError::Timeout => String::from_str("Transaction submission timeout"),
        }
    }
}

/// The error code for a reverted execution.
pub const REVERT_CODE: i32 = 3;

/// The error code for any other call that failed.
pub const CALL_EXECUTION_FAILED_CODE: i32 = -32000;

/// An error as an RPC caller sees it.
#[derive(Debug)]
pub struct ErrorObject {
    /// The error code.
    pub code: i32,
    /// The message.
    pub message: String,
    /// What comes with the message.
    pub data: Option<String>,
}

/// What an RPC caller is told: the code, the message and the data.
#[verifier::ext_equal]
pub ghost struct ErrorView {
    pub code: int,
    pub message: Seq<char>,
    pub data: Option<Seq<char>>,
}

impl View for ErrorObject {
    type V = ErrorView;

    open spec fn view(&self) -> ErrorView {
        ErrorView {
            code: self.code as int,
            message: self.message@,
            data: match self.data {
                Some(data) => Some(data@),
                None => None,
            },
        }
    }
}

/// The reason that `decode_revert_reason` of the `pallet-revive` crate reads off the output of a
/// reverted call, or nothing where it finds none.
pub uninterp spec fn revert_reason(output: Seq<u8>) -> Option<Seq<char>>;

/// Calls `decode_revert_reason` of the `pallet-revive` crate. The reason is named and not stated: it
/// is decoded from the ABI encoding of Solidity errors.
#[verifier::external_body]
fn decode_revert_reason(output: &[u8]) -> (reason: Option<String>)
    ensures
        match reason {
            Some(reason) => revert_reason(output@) == Some(reason@),
            None => revert_reason(output@) is None,
        },
{
    pallet_revive::evm::decode_revert_reason(output)
}

/// What a caller is told of a call that reverted with this output, given the reason that was read
/// off it: the reason in the message, and the output itself in hexadecimal.
pub open spec fn revert_view(output: Seq<u8>, reason: Option<Seq<char>>) -> ErrorView {
    ErrorView {
        code: REVERT_CODE as int,
        message: match reason {
            Some(reason) => "execution reverted: "@ + reason,
            None => "execution reverted"@,
        },
        data: Some("0x"@ + crate::hex_format::hex_text(output)),
    }
}

/// What a caller is told of an error.
pub open spec fn error_view(error: ClientError) -> ErrorView {
    match error {
        ClientError::TransactError(EthTransactError::Data(output)) => revert_view(
            output@,
            revert_reason(output@),
        ),
        ClientError::TransactError(EthTransactError::Message(message)) => ErrorView {
            code: CALL_EXECUTION_FAILED_CODE as int,
            message: message@,
            data: None,
        },
        _ => ErrorView {
            code: CALL_EXECUTION_FAILED_CODE as int,
            message: error.text(),
            data: None,
        },
    }
}

/// The error for a call that reverted, given the reason that was read off its output.
pub fn revert_error(output: &[u8], reason: Option<String>) -> (error: ErrorObject)
    ensures
        error@ == revert_view(
            output@,
            match reason {
                Some(reason) => Some(reason@),
                None => None,
            },
        ),
{
    let message = match reason {
        Some(reason) => {
            let mut message = String::from_str("execution reverted: ");
            message.append(reason.as_str());
            message
        },
        None => String::from_str("execution reverted"),
    };
    ErrorObject { code: REVERT_CODE, message, data: Some(to_hex(output)) }
}

/// The error as an RPC caller sees it.
pub fn error_object(error: ClientError) -> (object: ErrorObject)
    ensures
        object@ == error_view(error),
{
    match error {
        ClientError::TransactError(EthTransactError::Data(data)) => {
            let reason = decode_revert_reason(data.as_slice());
            revert_error(data.as_slice(), reason)
        },
        ClientError::TransactError(EthTransactError::Message(message)) => ErrorObject {
            code: CALL_EXECUTION_FAILED_CODE,
            message,
            data: None,
        },
        other => {
            let message = other.message();
            ErrorObject { code: CALL_EXECUTION_FAILED_CODE, message, data: None }
        },
    }
}

/// Only a call that reverted with output has the revert code, and only it comes with data.
pub proof fn only_reverts_carry_data(error: ClientError)
    ensures
        (error_view(error).code == REVERT_CODE) <==> (error matches ClientError::TransactError(
            EthTransactError::Data(_),
        )),
        error_view(error).data is Some <==> error_view(error).code == REVERT_CODE,
{
}

/// A call that reverted is told with the code 3, its output in hexadecimal and the reason that was
/// read off it. A call that failed with a message is told with this message, and any other error with
/// what it says, both with the code -32000 and without data.
pub proof fn an_error_is_told_with_what_it_says(
    error: ClientError,
    message: String,
    object: ErrorObject,
)
    requires
        call_ensures(ClientError::message, (&error,), message),
        call_ensures(error_object, (error,), object),
    ensures
        match error {
            ClientError::TransactError(EthTransactError::Data(output)) => {
                &&& object.code == 3
                &&& object.data matches Some(data) && data@ == "0x"@ + crate::hex_format::hex_text(
                    output@,
                )
                &&& revert_reason(output@) is None ==> object.message@ == "execution reverted"@
                &&& revert_reason(output@) matches Some(reason) ==> object.message@
                    == "execution reverted: "@ + reason
            },
            ClientError::TransactError(EthTransactError::Message(text)) => {
                &&& object.code == -32000
                &&& object.data is None
                &&& object.message@ == text@
            },
            _ => {
                &&& object.code == -32000
                &&& object.data is None
                &&& object.message@ == message@
            },
        },
{
    assert(object@.code == object.code);
}

/// The error for a call that reverted carries its output, and its reason behind what every such error
/// says.
pub proof fn a_revert_carries_its_output(
    output: &[u8],
    reason: Option<String>,
    error: ErrorObject,
)
    requires
        call_ensures(revert_error, (output, reason), error),
    ensures
        error.code == 3,
        error.data matches Some(data) && data@ == "0x"@ + crate::hex_format::hex_text(output@),
        reason is None ==> error.message@ == "execution reverted"@,
        reason matches Some(reason) ==> error.message@ == "execution reverted: "@ + reason@,
{
    assert(error@.code == error.code);
}

/// What an error of the node, of a submission or of a call says is said behind what kind of error it
/// is; what the connection, the database or the codec says is said as it is.
pub proof fn an_error_says_what_it_holds(
    error: ClientError,
    message: String,
    inner: SubmitError,
    inner_message: String,
)
    requires
        call_ensures(ClientError::message, (&error,), message),
        call_ensures(SubmitError::message, (&inner,), inner_message),
    ensures
        error matches ClientError::NativeClientError(text) ==> message@ == "Native client error: "@
            + text@,
        error == ClientError::SubmitError(inner) ==> message@ == "Invalid transaction: "@
            + inner_message@,
        error matches ClientError::Jsonrpsee(text) ==> message@ == text@,
        error matches ClientError::SqlxError(text) ==> message@ == text@,
        error matches ClientError::CodecError(text) ==> message@ == text@,
        error matches ClientError::TransactError(EthTransactError::Message(text)) ==> message@
            == "contract reverted: Message("@ + crate::text::quoted(text@) + ")"@,
        error matches ClientError::TransactError(EthTransactError::Data(output)) ==> message@
            == "contract reverted: Data(["@ + crate::text::byte_list(output@) + "])"@,
{
}

/// What a transaction that is lost, and an error that comes with nothing else, is told with.
pub proof fn each_failure_has_its_own_words(
    lost: SubmitError,
    lost_message: String,
    error: ClientError,
    message: String,
)
    requires
        call_ensures(SubmitError::message, (&lost,), lost_message),
        call_ensures(ClientError::message, (&error,), message),
    ensures
        lost_message@ == (match lost {
            SubmitError::Usurped => "Transaction was usurped by another with the same nonce"@,
            SubmitError::Dropped => "Transaction was dropped"@,
            SubmitError::Invalid => "Transaction is invalid (e.g. bad nonce, signature, etc)"@,
            SubmitError::StreamEnded => "Transaction stream ended without status"@,
            SubmitError::Unknown => "Unknown transaction status"@,
        }),
        error is ConversionFailed ==> message@ == "conversion failed"@,
        error is BlockNotFound ==> message@ == "hash not found"@,
        error is ContractNotFound ==> message@ == "Contract not found"@,
        error is EthExtrinsicNotFound ==> message@ == "No Ethereum extrinsic found"@,
        error is TxFeeNotFound ==> message@ == "transactionFeePaid event not found"@,
        error is TxDecodingFailed ==> message@
            == "Failed to decode a raw payload into a signed transaction"@,
        error is RecoverEthAddressFailed ==> message@ == "failed to recover eth address"@,
        error is LogFilterFailed ==> message@ == "Failed to filter logs"@,
        error is ReceiptDataNotFound ==> message@ == "Receipt storage not found"@,
        error is EthereumBlockNotFound ==> message@ == "Ethereum block not found"@,
        error is ReceiptDataLengthMismatch ==> message@ == "Receipt data length mismatch"@,
        error is Timeout ==> message@ == "Transaction submission timeout"@,
{
}

} // verus!
