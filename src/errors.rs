use vstd::prelude::*;

verus! {

/// The failures that the library's operations report.
#[derive(Debug, Clone, Copy, PartialEq, Eq, Structural)]
#[non_exhaustive]
pub enum Error {
    MessageNotASCII,
    InvalidKeyPair,
    MaskTooLong,
    MessageTooLong,
    IntegerTooLarge,
    OctetStringEmpty,
    InvalidBufferSize,
    DecryptionError,
    PrimeSearchExhausted,
}

pub type Result<T> = core::result::Result<T, Error>;

impl Error {
    /// A short human-readable description of the failure.
    pub fn message(&self) -> (r: &'static str)
        ensures
            *self == Error::MessageNotASCII ==> r@ == "Message is not ASCII."@,
            *self == Error::InvalidKeyPair ==> r@ == "Invalid public key and secret key pair."@,
            *self == Error::MaskTooLong ==> r@ == "The mask is too long"@,
            *self == Error::IntegerTooLarge ==> r@ == "Integer too large"@,
            *self == Error::OctetStringEmpty ==> r@ == "The octet string is empty"@,
            *self == Error::MessageTooLong ==> r@ == "The message is too long"@,
            *self == Error::InvalidBufferSize ==> r@ == "Invalid buffer size"@,
            *self == Error::DecryptionError ==> r@ == "Fail to decrypt"@,
            *self == Error::PrimeSearchExhausted ==> r@ == "No prime found within the attempt bound"@,
    {
        let r = match self {
            Error::MessageNotASCII => "Message is not ASCII.",
            Error::InvalidKeyPair => "Invalid public key and secret key pair.",
            Error::MaskTooLong => "The mask is too long",
            Error::IntegerTooLarge => "Integer too large",
            Error::OctetStringEmpty => "The octet string is empty",
            Error::MessageTooLong => "The message is too long",
            Error::InvalidBufferSize => "Invalid buffer size",
            Error::DecryptionError => "Fail to decrypt",
            Error::PrimeSearchExhausted => "No prime found within the attempt bound",
        };
        proof {
            reveal_strlit("Message is not ASCII.");
            reveal_strlit("Invalid public key and secret key pair.");
            reveal_strlit("The mask is too long");
            reveal_strlit("Integer too large");
            reveal_strlit("The octet string is empty");
            reveal_strlit("The message is too long");
            reveal_strlit("Invalid buffer size");
            reveal_strlit("Fail to decrypt");
            reveal_strlit("No prime found within the attempt bound");
        }
        r
    }
}

} // verus!
