use base64::DecodeError;
use std::string::FromUtf8Error;
use vstd::prelude::*;
use vstd::string::StringExecFns;

verus! {

/// Failure reported by `base64::decode`; carried through unexamined.
#[verifier::external_type_specification]
#[verifier::external_body]
pub struct ExDecodeError(DecodeError);

/// Failure reported by `String::from_utf8`; carried through unexamined.
#[verifier::external_type_specification]
#[verifier::external_body]
pub struct ExFromUtf8Error(FromUtf8Error);

/// The classes of failure that the engine distinguishes.
#[derive(Clone, Copy, Debug, PartialEq, Eq, Structural)]
pub enum ErrorKind {
    Encryption,
    Decryption,
    Base64Decode,
    Utf8,
    InvalidKey,
    InvalidFieldType,
    Parse,
    Io,
    Unknown,
}

/// Typed failure of an in-process call.
#[derive(Debug)]
pub enum PolyCryptError {
    /// The cipher could not produce a ciphertext.
    EncryptionError(String),
    /// The buffer is shorter than an IV, or its padding is malformed.
    DecryptionError(String),
    /// An encrypted field is not base64 text.
    Base64DecodeError(DecodeError),
    /// A decrypted field is not UTF-8 text.
    Utf8Error(FromUtf8Error),
    /// The key is not exactly 32 bytes long.
    InvalidKeyError(String),
    /// A selected field is neither a string nor a sequence of strings.
    InvalidFieldTypeError(String),
    /// A record or a field list is not well-formed interchange text.
    ParseError(String),
    /// A failure of the surrounding input or output.
    IoError(String),
    /// Any other failure.
    UnknownError(String),
}

impl PolyCryptError {
    /// The class this failure belongs to.
    pub open spec fn spec_kind(&self) -> ErrorKind {
        match self {
            PolyCryptError::EncryptionError(_) => ErrorKind::Encryption,
            PolyCryptError::DecryptionError(_) => ErrorKind::Decryption,
            PolyCryptError::Base64DecodeError(_) => ErrorKind::Base64Decode,
            PolyCryptError::Utf8Error(_) => ErrorKind::Utf8,
            PolyCryptError::InvalidKeyError(_) => ErrorKind::InvalidKey,
            PolyCryptError::InvalidFieldTypeError(_) => ErrorKind::InvalidFieldType,
            PolyCryptError::ParseError(_) => ErrorKind::Parse,
            PolyCryptError::IoError(_) => ErrorKind::Io,
            PolyCryptError::UnknownError(_) => ErrorKind::Unknown,
        }
    }

    /// The class this failure belongs to.
    #[verifier::when_used_as_spec(spec_kind)]
    pub fn kind(&self) -> (k: ErrorKind)
        ensures
            k == self.spec_kind(),
    {
        match self {
            PolyCryptError::EncryptionError(_) => ErrorKind::Encryption,
            PolyCryptError::DecryptionError(_) => ErrorKind::Decryption,
            PolyCryptError::Base64DecodeError(_) => ErrorKind::Base64Decode,
            PolyCryptError::Utf8Error(_) => ErrorKind::Utf8,
            PolyCryptError::InvalidKeyError(_) => ErrorKind::InvalidKey,
            PolyCryptError::InvalidFieldTypeError(_) => ErrorKind::InvalidFieldType,
            PolyCryptError::ParseError(_) => ErrorKind::Parse,
            PolyCryptError::IoError(_) => ErrorKind::Io,
            PolyCryptError::UnknownError(_) => ErrorKind::Unknown,
        }
    }

    /// The words that name the class of this failure in its description.
    pub open spec fn label(&self) -> Seq<char> {
        match self {
            PolyCryptError::EncryptionError(_) => "Encryption error: "@,
            PolyCryptError::DecryptionError(_) => "Decryption error: "@,
            PolyCryptError::Base64DecodeError(_) => "Base64 decode error: "@,
            PolyCryptError::Utf8Error(_) => "UTF-8 conversion error: "@,
            PolyCryptError::InvalidKeyError(_) => "Invalid key: "@,
            PolyCryptError::InvalidFieldTypeError(_) => "Invalid field type: "@,
            PolyCryptError::ParseError(_) => "Parse error: "@,
            PolyCryptError::IoError(_) => "IO error: "@,
            PolyCryptError::UnknownError(_) => "Unknown error: "@,
        }
    }

    /// The message that this failure carries, where it carries one as text.
    pub open spec fn message(&self) -> Option<Seq<char>> {
        match self {
            PolyCryptError::EncryptionError(m) => Some(m@),
            PolyCryptError::DecryptionError(m) => Some(m@),
            PolyCryptError::Base64DecodeError(_) => None,
            PolyCryptError::Utf8Error(_) => None,
            PolyCryptError::InvalidKeyError(m) => Some(m@),
            PolyCryptError::InvalidFieldTypeError(m) => Some(m@),
            PolyCryptError::ParseError(m) => Some(m@),
            PolyCryptError::IoError(m) => Some(m@),
            PolyCryptError::UnknownError(m) => Some(m@),
        }
    }

    /// Describes this failure for a reader: the label of its class, then its
    /// message, or what the decoder reported where the failure carries that.
    pub fn describe(&self) -> (text: String)
        ensures
            self.label().is_prefix_of(text@),
            self.message() matches Some(m) ==> text@ == self.label() + m,
    {
        match self {
            PolyCryptError::EncryptionError(m) => labelled("Encryption error: ", m.as_str()),
            PolyCryptError::DecryptionError(m) => labelled("Decryption error: ", m.as_str()),
            PolyCryptError::Base64DecodeError(e) => labelled(
                "Base64 decode error: ",
                e.to_string().as_str(),
            ),
            PolyCryptError::Utf8Error(e) => labelled(
                "UTF-8 conversion error: ",
                e.to_string().as_str(),
            ),
            PolyCryptError::InvalidKeyError(m) => labelled("Invalid key: ", m.as_str()),
            PolyCryptError::InvalidFieldTypeError(m) => labelled("Invalid field type: ", m.as_str()),
            PolyCryptError::ParseError(m) => labelled("Parse error: ", m.as_str()),
            PolyCryptError::IoError(m) => labelled("IO error: ", m.as_str()),
            PolyCryptError::UnknownError(m) => labelled("Unknown error: ", m.as_str()),
        }
    }
}

/// A label followed by a message.
fn labelled(label: &str, message: &str) -> (text: String)
    ensures
        text@ == label@ + message@,
        label@.is_prefix_of(text@),
{
    let mut text = label.to_string();
    text.append(message);
    text
}

/// The first failure in a sequence of outcomes, none where all went well.
pub open spec fn first_failure(outcomes: Seq<Option<ErrorKind>>) -> Option<ErrorKind>
    decreases outcomes.len(),
{
    if outcomes.len() == 0 {
        None
    } else {
        match first_failure(outcomes.drop_last()) {
            Some(kind) => Some(kind),
            None => outcomes.last(),
        }
    }
}

/// Where no outcome is a failure, there is no first failure.
pub proof fn lemma_no_failure(outcomes: Seq<Option<ErrorKind>>)
    requires
        forall|i: int| 0 <= i < outcomes.len() ==> outcomes[i] is None,
    ensures
        first_failure(outcomes) is None,
    decreases outcomes.len(),
{
    if outcomes.len() > 0 {
        let front = outcomes.drop_last();
        assert forall|i: int| 0 <= i < front.len() implies front[i] is None by {
            assert(front[i] == outcomes[i]);
        }
        lemma_no_failure(front);
    }
}

/// A failure that no failure precedes is the first failure.
pub proof fn lemma_first_failure_at(outcomes: Seq<Option<ErrorKind>>, i: int)
    requires
        0 <= i < outcomes.len(),
        outcomes[i] is Some,
        forall|j: int| 0 <= j < i ==> outcomes[j] is None,
    ensures
        first_failure(outcomes) == outcomes[i],
    decreases outcomes.len(),
{
    let front = outcomes.drop_last();
    if i == outcomes.len() - 1 {
        assert forall|j: int| 0 <= j < front.len() implies front[j] is None by {
            assert(front[j] == outcomes[j]);
        }
        lemma_no_failure(front);
    } else {
        assert(front[i] == outcomes[i]);
        assert forall|j: int| 0 <= j < i implies front[j] is None by {
            assert(front[j] == outcomes[j]);
        }
        lemma_first_failure_at(front, i);
    }
}

/// What `first_failure` returns: a failure that no failure precedes, or
/// nothing where there is no failure at all.
pub proof fn lemma_first_failure(outcomes: Seq<Option<ErrorKind>>)
    ensures
        match first_failure(outcomes) {
            Some(kind) => exists|i: int|
                0 <= i < outcomes.len() && #[trigger] outcomes[i] == Some(kind) && forall|j: int|
                    0 <= j < i ==> outcomes[j] is None,
            None => forall|i: int| 0 <= i < outcomes.len() ==> outcomes[i] is None,
        },
    decreases outcomes.len(),
{
    if outcomes.len() > 0 {
        let front = outcomes.drop_last();
        lemma_first_failure(front);
        assert forall|j: int| 0 <= j < front.len() implies front[j] == outcomes[j] by {}
        match first_failure(front) {
            Some(kind) => {
                let i = choose|i: int|
                    0 <= i < front.len() && #[trigger] front[i] == Some(kind) && forall|j: int|
                        0 <= j < i ==> front[j] is None;
                assert(outcomes[i] == Some(kind));
                assert forall|j: int| 0 <= j < i implies outcomes[j] is None by {
                    assert(front[j] == outcomes[j]);
                }
            },
            None => {
                assert forall|j: int| 0 <= j < outcomes.len() - 1 implies outcomes[j] is None by {
                    assert(front[j] == outcomes[j]);
                }
                if outcomes.last() is Some {
                    let i = outcomes.len() - 1;
                    assert(outcomes[i] == outcomes.last());
                }
            },
        }
    }
}

} // verus!
