//! What can go wrong in the reading of a server's answers.

use vstd::prelude::*;

use crate::text::{push_signed_decimal, signed_decimal};

verus! {

/// Why an answer could not be read, or a question was not asked.
#[derive(Debug, PartialEq, Eq)]
pub enum ScanError {
    /// An integer went on for more bytes than one may have.
    VarintTooLong,
    /// A login in this version of the protocol cannot be followed.
    ProtocolTooOld(i32),
    /// A compressed packet ended inside the length of its content.
    BadCompressedPacket,
    /// A packet ended inside its number.
    BadPacket,
    /// The content of a compressed packet could not be inflated, for the reason
    /// that the decoder gave.
    Inflate(String),
}

/// Why an answer could not be read.
pub enum ScanErrorView {
    VarintTooLong,
    ProtocolTooOld(i32),
    BadCompressedPacket,
    BadPacket,
    Inflate(Seq<char>),
}

impl View for ScanError {
    type V = ScanErrorView;

    open spec fn view(&self) -> ScanErrorView {
        match self {
            ScanError::VarintTooLong => ScanErrorView::VarintTooLong,
            ScanError::ProtocolTooOld(protocol) => ScanErrorView::ProtocolTooOld(*protocol),
            ScanError::BadCompressedPacket => ScanErrorView::BadCompressedPacket,
            ScanError::BadPacket => ScanErrorView::BadPacket,
            ScanError::Inflate(reason) => ScanErrorView::Inflate(reason@),
        }
    }
}

/// A result, with its error taken by its view.
pub open spec fn viewed<T>(result: Result<T, ScanError>) -> Result<T, ScanErrorView> {
    match result {
        Ok(value) => Ok(value),
        Err(error) => Err(error@),
    }
}

/// How an error reads.
pub open spec fn error_text(error: ScanErrorView) -> Seq<char> {
    match error {
        ScanErrorView::VarintTooLong => "VarInt is way too long"@,
        ScanErrorView::ProtocolTooOld(protocol) => "Protocol "@ + signed_decimal(protocol as int)
            + " is too old, can't check"@,
        ScanErrorView::BadCompressedPacket => "bad compressed packet"@,
        ScanErrorView::BadPacket => "bad packet"@,
        ScanErrorView::Inflate(reason) => reason,
    }
}

impl ScanError {
    /// How the error reads.
    pub fn message(&self) -> (text: String)
        ensures
            text@ == error_text(self@),
    {
        match self {
            ScanError::VarintTooLong => "VarInt is way too long".to_owned(),
            ScanError::ProtocolTooOld(protocol) => {
                let mut text: String = "Protocol ".to_owned();
                push_signed_decimal(&mut text, *protocol);
                text.append(" is too old, can't check");
                text
            },
            ScanError::BadCompressedPacket => "bad compressed packet".to_owned(),
            ScanError::BadPacket => "bad packet".to_owned(),
            ScanError::Inflate(reason) => reason.as_str().to_owned(),
        }
    }
}

/// An old version is named in the error, in decimal digits, and the reason of a
/// decoder reads as the decoder put it.
pub proof fn law_error_texts(protocol: i32, reason: Seq<char>)
    ensures
        ({
            let text = error_text(ScanErrorView::ProtocolTooOld(protocol));
            let front = "Protocol "@;
            let back = " is too old, can't check"@;
            let number = text.subrange(front.len() as int, text.len() - back.len());
            &&& text == front + number + back
            &&& number == signed_decimal(protocol as int)
        }),
        error_text(ScanErrorView::Inflate(reason)) == reason,
{
    let text = error_text(ScanErrorView::ProtocolTooOld(protocol));
    let number = signed_decimal(protocol as int);
    assert(text.subrange("Protocol "@.len() as int, text.len() - " is too old, can't check"@.len())
        =~= number);
}

/// An error is seen as what it is, and a result as what it holds.
pub proof fn law_error_view<T>(error: ScanError, value: T)
    ensures
        error is VarintTooLong <==> error@ is VarintTooLong,
        error is BadCompressedPacket <==> error@ is BadCompressedPacket,
        error is BadPacket <==> error@ is BadPacket,
        error matches ScanError::ProtocolTooOld(n) ==> error@ == ScanErrorView::ProtocolTooOld(n),
        error matches ScanError::Inflate(s) ==> error@ == ScanErrorView::Inflate(s@),
        viewed(Ok::<T, ScanError>(value)) == Ok::<T, ScanErrorView>(value),
        viewed(Err::<T, ScanError>(error)) == Err::<T, ScanErrorView>(error@),
{
}

} // verus!
