use vstd::prelude::*;

verus! {

#[verifier::external_type_specification]
#[verifier::external_body]
pub struct ExIoError(std::io::Error);

/// Every way in which saving or loading the store can fail.
#[derive(Debug)]
pub enum StoreError {
    /// Creating the directory, or reading or writing the store file, failed.
    IO(std::io::Error),
    /// A chunk was too long to pad, or the ciphertext is not block-aligned.
    PadError,
    /// An empty block was handed to `unpad`.
    UnpadError,
    /// A stored line does not describe a credential.
    DecodeError,
}

impl StoreError {
    /// The text that tells the user what went wrong; for an I/O failure, the
    /// system's own description.
    pub fn message(&self) -> (r: String)
        ensures
            match self {
                StoreError::IO(e) => vstd::string::to_string_from_display_ensures::<std::io::Error>(e, r),
                StoreError::PadError => r@ == "error while padding"@,
                StoreError::UnpadError => r@ == "error while unpadding"@,
                StoreError::DecodeError => r@ == "error while decoding"@,
            },
    {
        match self {
            StoreError::IO(e) => e.to_string(),
            StoreError::PadError => String::from_str("error while padding"),
            StoreError::UnpadError => String::from_str("error while unpadding"),
            StoreError::DecodeError => String::from_str("error while decoding"),
        }
    }
}

} // verus!
