//! An encrypted credential store: a key derived from a passphrase, credential
//! records written as delimited text, padded and encrypted block by block.

pub mod cipher;
pub mod codec;
pub mod credential;
pub mod error;
pub mod padding;
pub mod secret;
pub mod store;
pub mod text;
pub mod theme;

pub use credential::{Cred, CredEdit, Description, StoreMessage, Toast, Username};
pub use error::StoreError;
pub use padding::Pkcs7;
pub use secret::{Secret, SecretInput, SecretTypeMessage};
pub use store::Storage;
pub use theme::{Button, Container, Rgb, Text, Theme};
