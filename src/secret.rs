use vstd::prelude::*;
use vstd::utf8::encode_utf8;

use crate::text::{decimal, number_text, parse_number, parse_u32};

verus! {

/// The two kinds of secret a credential can hold.
#[derive(Clone, Copy, Debug, PartialEq, Eq, Structural)]
pub enum SecretTypeMessage {
    Password,
    Pin,
}

impl SecretTypeMessage {
    /// The kind's name as a heading shows it.
    pub fn label(&self) -> (r: &'static str)
        ensures
            r@ == kind_label(*self),
    {
        match self {
            SecretTypeMessage::Password => "Password",
            SecretTypeMessage::Pin => "Pin",
        }
    }
}

pub open spec fn kind_label(k: SecretTypeMessage) -> Seq<char> {
    match k {
        SecretTypeMessage::Password => "Password"@,
        SecretTypeMessage::Pin => "Pin"@,
    }
}

/// The tag that names a kind in the stored text.
pub open spec fn kind_tag(k: SecretTypeMessage) -> Seq<char> {
    match k {
        SecretTypeMessage::Password => "password"@,
        SecretTypeMessage::Pin => "pin"@,
    }
}

/// A secret's kind and its text.
pub type SecretView = (SecretTypeMessage, Seq<char>);

/// A stored secret: a password, or a PIN kept as its digits.
#[derive(Clone, Debug)]
pub enum Secret {
    Password(String),
    Pin(String),
}

impl View for Secret {
    type V = SecretView;

    open spec fn view(&self) -> SecretView {
        match self {
            Secret::Password(v) => (SecretTypeMessage::Password, v@),
            Secret::Pin(v) => (SecretTypeMessage::Pin, v@),
        }
    }
}

/// `kind:value`, the secret as the stored text writes it.
pub open spec fn secret_text(s: SecretView) -> Seq<char> {
    kind_tag(s.0) + seq![':'] + s.1
}

/// Whether `i` is the position of the first `:` in `s`.
pub open spec fn first_colon(s: Seq<char>, i: int) -> bool {
    &&& 0 <= i < s.len()
    &&& s[i] == ':'
    &&& forall|k: int| 0 <= k < i ==> s[k] != ':'
}

/// The secret that `kind:value` describes, split at the first `:`; `None`
/// where there is no `:` or the kind is unknown.
pub open spec fn parse_secret(s: Seq<char>) -> Option<SecretView> {
    if exists|i: int| first_colon(s, i) {
        let i = choose|i: int| first_colon(s, i);
        let kind = s.subrange(0, i);
        let value = s.subrange(i + 1, s.len() as int);
        if kind == "password"@ {
            Some((SecretTypeMessage::Password, value))
        } else if kind == "pin"@ {
            Some((SecretTypeMessage::Pin, value))
        } else {
            None
        }
    } else {
        None
    }
}

/// The mask that hides a secret: one bullet for each byte of its UTF-8 form.
pub open spec fn masked(s: Seq<char>) -> Seq<char> {
    Seq::new(encode_utf8(s).len(), |_i: int| '\u{2022}')
}

/// A secret as it is being typed: a password, or a PIN that holds a number
/// once the input reads as one.
#[derive(Clone, Debug)]
pub enum SecretInput {
    Password(String),
    Pin(Option<u32>),
}

impl Default for SecretInput {
    fn default() -> (r: SecretInput)
        ensures
            r matches SecretInput::Password(p) && p@.len() == 0,
    {
        SecretInput::Password(String::new())
    }
}

/// The text that a secret input shows.
pub open spec fn input_text(i: SecretInput) -> Seq<char> {
    match i {
        SecretInput::Password(v) => v@,
        SecretInput::Pin(Some(n)) => decimal(n as nat),
        SecretInput::Pin(None) => Seq::empty(),
    }
}

/// Whether `i` is what an input of kind `kind` that starts from `val` holds.
pub open spec fn input_reads(i: SecretInput, val: Seq<char>, kind: SecretTypeMessage) -> bool {
    match kind {
        SecretTypeMessage::Password => i matches SecretInput::Password(p) && p@ == val,
        SecretTypeMessage::Pin => i == SecretInput::Pin(parse_u32(val)),
    }
}

/// Whether nothing usable has been typed into `i`.
pub open spec fn input_empty(i: SecretInput) -> bool {
    match i {
        SecretInput::Password(v) => v@.len() == 0,
        SecretInput::Pin(v) => v is None,
    }
}

/// The text that a secret of kind `kind` takes from an edit `input`.
pub open spec fn updated_text(kind: SecretTypeMessage, input: SecretInput) -> Seq<char> {
    match (kind, input) {
        (SecretTypeMessage::Password, SecretInput::Password(v)) => v@,
        (SecretTypeMessage::Pin, SecretInput::Pin(Some(n))) => decimal(n as nat),
        _ => Seq::empty(),
    }
}

impl SecretInput {
    /// Whether nothing usable has been typed.
    pub fn is_empty(&self) -> (r: bool)
        ensures
            r == input_empty(*self),
    {
        match self {
            SecretInput::Password(value) => value.as_str().is_empty(),
            SecretInput::Pin(value) => value.is_none(),
        }
    }

    /// Takes what was typed. A password takes it whole; a PIN is cleared by
    /// empty input, takes a number, and ignores anything else.
    pub fn set_secret(&mut self, secret: String)
        ensures
            match *old(self) {
                SecretInput::Password(_) => *final(self) matches SecretInput::Password(p) && p@
                    == secret@,
                SecretInput::Pin(v) => *final(self) == SecretInput::Pin(
                    if secret@.len() == 0 {
                        None
                    } else {
                        match parse_u32(secret@) {
                            Some(n) => Some(n),
                            None => v,
                        }
                    },
                ),
            },
    {
        match self {
            SecretInput::Password(pass) => {
                *pass = secret;
            },
            SecretInput::Pin(pin) => {
                if secret.as_str().is_empty() {
                    *pin = None;
                } else {
                    match parse_number(secret.as_str()) {
                        Some(n) => {
                            *pin = Some(n);
                        },
                        None => {},
                    }
                }
            },
        }
    }

    /// An input of the given kind that starts from `val`.
    pub fn new_from(val: &str, kind: SecretTypeMessage) -> (r: SecretInput)
        ensures
            input_reads(r, val@, kind),
    {
        match kind {
            SecretTypeMessage::Password => SecretInput::Password(val.to_owned()),
            SecretTypeMessage::Pin => SecretInput::Pin(parse_number(val)),
        }
    }

    /// The input switched to `kind`: a PIN keeps its number or reads one from
    /// a password; a password keeps its text or takes a PIN's digits.
    pub fn with_kind(&self, kind: SecretTypeMessage) -> (r: SecretInput)
        ensures
            match kind {
                SecretTypeMessage::Pin => r == SecretInput::Pin(
                    match *self {
                        SecretInput::Pin(v) => v,
                        SecretInput::Password(p) => parse_u32(p@),
                    },
                ),
                SecretTypeMessage::Password => r matches SecretInput::Password(p) && p@
                    == input_text(*self),
            },
    {
        match kind {
            SecretTypeMessage::Pin => SecretInput::Pin(
                match self {
                    SecretInput::Pin(v) => *v,
                    SecretInput::Password(p) => parse_number(p.as_str()),
                },
            ),
            SecretTypeMessage::Password => SecretInput::Password(self.get_val()),
        }
    }

    /// The text the input shows: the password, the PIN's digits, or nothing.
    pub fn get_val(&self) -> (r: String)
        ensures
            r@ == input_text(*self),
    {
        match self {
            SecretInput::Password(val) => val.clone(),
            SecretInput::Pin(Some(n)) => number_text(*n),
            SecretInput::Pin(None) => String::new(),
        }
    }
}

impl Secret {
    /// The kind of this secret.
    pub fn kind(&self) -> (r: SecretTypeMessage)
        ensures
            r == self@.0,
    {
        match self {
            Secret::Password(_) => SecretTypeMessage::Password,
            Secret::Pin(_) => SecretTypeMessage::Pin,
        }
    }

    /// The secret as stored text: its tag, `:`, and its value.
    pub fn text(&self) -> (r: String)
        ensures
            r@ == secret_text(self@),
    {
        let (mut out, value) = match self {
            Secret::Password(v) => (String::from_str("password"), v),
            Secret::Pin(v) => (String::from_str("pin"), v),
        };
        out.append(":");
        out.append(value.as_str());
        proof {
            reveal_strlit(":");
        }
        out
    }

    /// The secret's text, or as many bullets as it has bytes when hidden.
    pub fn value(&self, hidden: bool) -> (r: String)
        ensures
            r@ == if hidden {
                masked(self@.1)
            } else {
                self@.1
            },
    {
        let secret = match self {
            Secret::Password(v) => v,
            Secret::Pin(v) => v,
        };
        if !hidden {
            return secret.clone();
        }
        let n = secret.as_str().as_bytes().len();
        let mut out = String::new();
        let mut i: usize = 0;
        while i < n
            invariant
                n == encode_utf8(secret@).len(),
                i <= n,
                out@ == Seq::new(i as nat, |_i: int| '\u{2022}'),
            decreases n - i,
        {
            proof {
                reveal_strlit("\u{2022}");
            }
            out.append("\u{2022}");
            i = i + 1;
            assert(out@ =~= Seq::new(i as nat, |_i: int| '\u{2022}'));
        }
        out
    }

    /// Takes the value of an edit. A password takes a typed password and is
    /// cleared by a PIN; a PIN takes the digits of a typed number and is
    /// cleared by anything else. The kind stays.
    pub fn update(&mut self, input: SecretInput)
        ensures
            final(self)@.0 == old(self)@.0,
            final(self)@.1 == updated_text(old(self)@.0, input),
    {
        match self {
            Secret::Password(pass) => {
                *pass = match input {
                    SecretInput::Password(val) => val,
                    SecretInput::Pin(_) => String::new(),
                };
            },
            Secret::Pin(pin) => {
                *pin = match input {
                    SecretInput::Pin(Some(n)) => number_text(n),
                    _ => String::new(),
                };
            },
        }
    }

    /// Reads `kind:value`; `None` where there is no `:` or the kind is neither
    /// `password` nor `pin`.
    pub fn parse(s: &str) -> (r: Option<Secret>)
        ensures
            match r {
                Some(sec) => parse_secret(s@) == Some(sec@),
                None => parse_secret(s@) is None,
            },
    {
        let n = s.unicode_len();
        let mut i: usize = 0;
        while i < n && s.get_char(i) != ':'
            invariant
                n == s@.len(),
                i <= n,
                forall|k: int| 0 <= k < i ==> s@[k] != ':',
            decreases n - i,
        {
            i = i + 1;
        }
        if i == n {
            assert(!exists|j: int| first_colon(s@, j));
            return None;
        }
        assert(first_colon(s@, i as int));
        let ghost j = choose|j: int| first_colon(s@, j);
        assert(j == i);
        let kind = s.substring_char(0, i).to_owned();
        let value = s.substring_char(i + 1, n).to_owned();
        if kind == String::from_str("password") {
            Some(Secret::Password(value))
        } else if kind == String::from_str("pin") {
            Some(Secret::Pin(value))
        } else {
            None
        }
    }
}

} // verus!
