use vstd::prelude::*;

use crate::codec::Record;
use crate::secret::{
    input_empty, input_reads, updated_text, Secret, SecretInput, SecretTypeMessage,
};
use crate::text::{decimal, trim, trimmed};

verus! {

/// A credential's username.
pub struct Username(pub String);

impl Username {
    pub fn new(username: String) -> (r: Username)
        ensures
            r.0 == username,
    {
        Username(username)
    }

    pub fn update(&mut self, username: String)
        ensures
            final(self).0 == username,
    {
        self.0 = username;
    }
}

/// A credential's description, kept without surrounding whitespace.
pub struct Description(pub String);

impl Description {
    pub fn new(description: String) -> (r: Description)
        ensures
            r.0@ == trimmed(description@),
    {
        Description(trim(description.as_str()).to_owned())
    }

    /// Takes the text of an edit as it stands.
    pub fn update(&mut self, description: String)
        ensures
            final(self).0 == description,
    {
        self.0 = description;
    }
}

/// The values of a credential being edited.
pub struct CredEdit {
    pub username: String,
    pub secret: SecretInput,
    pub description: String,
}

impl CredEdit {
    /// Whether both the username and the secret have been filled in.
    pub fn is_not_empty(&self) -> (r: bool)
        ensures
            r == (self.username@.len() > 0 && !input_empty(self.secret)),
    {
        !self.username.as_str().is_empty() && !self.secret.is_empty()
    }

    /// An edit that starts from a credential's values.
    pub fn new_from(username: &str, secret: &str, kind: SecretTypeMessage, description: &str) -> (r:
        CredEdit)
        ensures
            r.username@ == username@,
            input_reads(r.secret, secret@, kind),
            r.description@ == description@,
    {
        CredEdit {
            username: username.to_owned(),
            secret: SecretInput::new_from(secret, kind),
            description: description.to_owned(),
        }
    }
}

/// What `Cred::new` returns for a PIN input that holds no number.
pub struct NoSecret;

/// A credential in the list: its values, whether its secret is hidden, and
/// the edit in progress, if any.
pub struct Cred {
    pub username: Username,
    pub secret: Secret,
    pub description: Description,
    pub hidden: bool,
    pub edit_mode: Option<CredEdit>,
}

/// The secret that a finished input stands for, if it stands for one.
pub open spec fn input_secret(i: SecretInput) -> Option<(SecretTypeMessage, Seq<char>)> {
    match i {
        SecretInput::Password(p) => Some((SecretTypeMessage::Password, p@)),
        SecretInput::Pin(Some(n)) => Some((SecretTypeMessage::Pin, decimal(n as nat))),
        SecretInput::Pin(None) => None,
    }
}

impl Cred {
    /// A hidden credential from typed values; `NoSecret` for a PIN without a
    /// number.
    pub fn new(username: String, secret: SecretInput, description: String) -> (r: Result<
        Cred,
        NoSecret,
    >)
        ensures
            match input_secret(secret) {
                None => r is Err,
                Some(s) => r matches Ok(c) && c.username.0 == username && c.secret@ == s
                    && c.description.0@ == trimmed(description@) && c.hidden && c.edit_mode is None,
            },
    {
        let secret = match secret {
            SecretInput::Password(pass) => Secret::Password(pass),
            SecretInput::Pin(Some(pin)) => Secret::Pin(crate::text::number_text(pin)),
            SecretInput::Pin(None) => return Err(NoSecret),
        };
        Ok(Cred {
            username: Username::new(username),
            secret,
            description: Description::new(description),
            hidden: true,
            edit_mode: None,
        })
    }

    /// A hidden credential from stored values.
    pub fn new_from_raw(username: String, secret: Secret, description: String) -> (r: Cred)
        ensures
            r.username.0 == username,
            r.secret == secret,
            r.description.0@ == trimmed(description@),
            r.hidden,
            r.edit_mode is None,
    {
        Cred {
            username: Username::new(username),
            secret,
            description: Description::new(description),
            hidden: true,
            edit_mode: None,
        }
    }

    /// A hidden credential from a stored record.
    pub fn from_record(record: Record) -> (r: Cred)
        ensures
            r.username.0 == record.0,
            r.secret == record.1,
            r.description.0@ == trimmed(record.2@),
            r.hidden,
            r.edit_mode is None,
    {
        let (username, secret, description) = record;
        Cred::new_from_raw(username, secret, description)
    }

    /// Opens an edit that starts from the credential's values, or drops the
    /// edit in progress.
    pub fn toggle_edit(&mut self)
        ensures
            final(self).username == old(self).username,
            final(self).secret == old(self).secret,
            final(self).description == old(self).description,
            final(self).hidden == old(self).hidden,
            old(self).edit_mode is Some ==> final(self).edit_mode is None,
            old(self).edit_mode is None ==> (final(self).edit_mode matches Some(e) && e.username@
                == old(self).username.0@ && input_reads(e.secret, old(self).secret@.1, old(self).secret@.0)
                && e.description@ == old(self).description.0@),
    {
        if self.edit_mode.is_some() {
            self.edit_mode = None;
        } else {
            let value = self.secret.value(false);
            let edit = CredEdit::new_from(
                self.username.0.as_str(),
                value.as_str(),
                self.secret.kind(),
                self.description.0.as_str(),
            );
            self.edit_mode = Some(edit);
        }
    }

    /// Takes the values of the edit in progress, if any, and closes it.
    pub fn set_creds(&mut self)
        ensures
            final(self).hidden == old(self).hidden,
            final(self).edit_mode is None,
            match old(self).edit_mode {
                Some(e) => final(self).username.0 == e.username && final(self).secret@.0 == old(
                    self,
                ).secret@.0 && final(self).secret@.1 == updated_text(old(self).secret@.0, e.secret)
                    && final(self).description.0 == e.description,
                None => final(self).username == old(self).username && final(self).secret == old(
                    self,
                ).secret && final(self).description == old(self).description,
            },
    {
        match self.edit_mode.take() {
            Some(edit) => {
                let CredEdit { username, secret, description } = edit;
                self.username.update(username);
                self.secret.update(secret);
                self.description.update(description);
            },
            None => {},
        }
    }
}

/// How a notification looks.
#[derive(Clone, Copy, Debug, PartialEq, Eq, Structural)]
pub enum Status {
    Info,
    Success,
    Danger,
}

impl Status {
    pub fn label(&self) -> (r: &'static str)
        ensures
            r@ == match self {
                Status::Info => "Info"@,
                Status::Success => "Success"@,
                Status::Danger => "Danger"@,
            },
    {
        match self {
            Status::Info => "Info",
            Status::Success => "Success",
            Status::Danger => "Danger",
        }
    }
}

/// A notification shown to the user.
pub struct Toast {
    pub message: String,
    pub status: Status,
}

impl Toast {
    pub fn new(message: &str, status: Status) -> (r: Toast)
        ensures
            r.message@ == message@,
            r.status == status,
    {
        Toast { message: message.to_owned(), status }
    }
}

/// What the store reports back after a save or a fetch.
pub enum StoreMessage {
    Fetched(Vec<Record>),
    Added,
    Deleted,
    Updated,
    Invalid,
}

impl StoreMessage {
    /// The notification a report gives; a fetch gives none.
    pub fn toast(&self) -> (r: Option<Toast>)
        ensures
            match self {
                StoreMessage::Fetched(_) => r is None,
                StoreMessage::Added => r matches Some(t) && t.message@ == "New credential added"@
                    && t.status == Status::Success,
                StoreMessage::Updated => r matches Some(t) && t.message@ == "Credential updated"@
                    && t.status == Status::Success,
                StoreMessage::Deleted => r matches Some(t) && t.message@ == "Credential deleted"@
                    && t.status == Status::Success,
                StoreMessage::Invalid => r matches Some(t) && t.message@ == "Some error occurred"@
                    && t.status == Status::Danger,
            },
    {
        match self {
            StoreMessage::Fetched(_) => None,
            StoreMessage::Added => Some(Toast::new("New credential added", Status::Success)),
            StoreMessage::Updated => Some(Toast::new("Credential updated", Status::Success)),
            StoreMessage::Deleted => Some(Toast::new("Credential deleted", Status::Success)),
            StoreMessage::Invalid => Some(Toast::new("Some error occurred", Status::Danger)),
        }
    }
}

} // verus!
