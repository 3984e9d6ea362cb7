//! The ways in which encoding and decoding fail.

use vstd::prelude::*;

verus! {

/// Why an identifier could not be encoded or decoded.
#[derive(Debug, Clone, PartialEq, Eq)]
pub enum OcrError {
    /// The contract address is not `0x` followed by 40 hexadecimal digits.
    InvalidAddress,
    /// The text is not a contenthash: it lacks the `0x` prefix, holds a
    /// character that is no hexadecimal digit, has the wrong length, or
    /// carries another protocol tag.
    InvalidFormat,
    /// The bytes to split are not as many as the widths ask for. `expected`
    /// is the sum of the widths, or `usize::MAX` where the sum is beyond it;
    /// `actual` is the length of the whole buffer.
    LengthMismatch { expected: usize, actual: usize },
    /// A field does not have the number of bytes of the integer it is read as.
    ArityMismatch { expected: usize, received: usize },
    /// The hexadecimal decoder refused its input; `message` is its own account.
    HexDecode { message: String },
    /// There is not one buffer for each width.
    FieldCountMismatch { buffers: usize, widths: usize },
    /// The buffer at `index` holds `length` bytes, more than its `width`.
    OverlongField { index: usize, width: usize, length: usize },
}

/// The character of a decimal digit.
pub open spec fn decimal_digit(digit: nat) -> char {
    ('0' as nat + digit) as char
}

/// A number in decimal notation, without leading zeros.
pub open spec fn decimal(n: nat) -> Seq<char>
    decreases n,
{
    if n < 10 {
        seq![decimal_digit(n)]
    } else {
        decimal(n / 10).push(decimal_digit(n % 10))
    }
}

/// The text of one decimal digit.
fn decimal_digit_str(digit: usize) -> (text: &'static str)
    requires
        digit < 10,
    ensures
        text@ == seq![decimal_digit(digit as nat)],
{
    proof {
        reveal_strlit("0");
        reveal_strlit("1");
        reveal_strlit("2");
        reveal_strlit("3");
        reveal_strlit("4");
        reveal_strlit("5");
        reveal_strlit("6");
        reveal_strlit("7");
        reveal_strlit("8");
        reveal_strlit("9");
    }
    match digit {
        0 => "0",
        1 => "1",
        2 => "2",
        3 => "3",
        4 => "4",
        5 => "5",
        6 => "6",
        7 => "7",
        8 => "8",
        _ => "9",
    }
}

/// Writes a number in decimal notation.
pub fn decimal_string(n: usize) -> (text: String)
    ensures
        text@ == decimal(n as nat),
    decreases n,
{
    if n < 10 {
        String::from_str(decimal_digit_str(n))
    } else {
        let mut text = decimal_string(n / 10);
        text.append(decimal_digit_str(n % 10));
        text
    }
}

impl OcrError {
    /// The message of an error, as a sequence of characters.
    pub open spec fn message_text(self) -> Seq<char> {
        match self {
            OcrError::InvalidAddress => "Contract address is not a valid hex string"@,
            OcrError::InvalidFormat => "Contenthash is an invalid hex string or has an invalid OCR protocol ID"@,
            OcrError::LengthMismatch { expected, actual } => "Sum of lengths "@ + decimal(
                expected as nat,
            ) + " does not match the number of bytes "@ + decimal(actual as nat),
            OcrError::ArityMismatch { expected, received } => "Expected Vec of length "@ + decimal(
                expected as nat,
            ) + ". Received Vec of length "@ + decimal(received as nat) + "."@,
            OcrError::HexDecode { message } => message@,
            OcrError::FieldCountMismatch { buffers, widths } => "Expected "@ + decimal(
                widths as nat,
            ) + " buffers. Received "@ + decimal(buffers as nat) + " buffers."@,
            OcrError::OverlongField { index, width, length } => "Buffer "@ + decimal(index as nat)
                + " holds "@ + decimal(length as nat) + " bytes, more than its length "@ + decimal(
                width as nat,
            ),
        }
    }

    /// The message of the error, fit to be shown as it is.
    pub fn message(&self) -> (text: String)
        ensures
            text@ == self.message_text(),
    {
        match self {
            OcrError::InvalidAddress => String::from_str(
                "Contract address is not a valid hex string",
            ),
            OcrError::InvalidFormat => String::from_str(
                "Contenthash is an invalid hex string or has an invalid OCR protocol ID",
            ),
            OcrError::LengthMismatch { expected, actual } => {
                let mut text = String::from_str("Sum of lengths ");
                text.append(decimal_string(*expected).as_str());
                text.append(" does not match the number of bytes ");
                text.append(decimal_string(*actual).as_str());
                text
            },
            OcrError::ArityMismatch { expected, received } => {
                let mut text = String::from_str("Expected Vec of length ");
                text.append(decimal_string(*expected).as_str());
                text.append(". Received Vec of length ");
                text.append(decimal_string(*received).as_str());
                text.append(".");
                text
            },
            OcrError::HexDecode { message } => message.clone(),
            OcrError::FieldCountMismatch { buffers, widths } => {
                let mut text = String::from_str("Expected ");
                text.append(decimal_string(*widths).as_str());
                text.append(" buffers. Received ");
                text.append(decimal_string(*buffers).as_str());
                text.append(" buffers.");
                text
            },
            OcrError::OverlongField { index, width, length } => {
                let mut text = String::from_str("Buffer ");
                text.append(decimal_string(*index).as_str());
                text.append(" holds ");
                text.append(decimal_string(*length).as_str());
                text.append(" bytes, more than its length ");
                text.append(decimal_string(*width).as_str());
                text
            },
        }
    }
}

} // verus!
