use vstd::prelude::*;

use crate::helpers::push_all;

verus! {

/// The position-annotated error that `ron` reports for input it rejects.
#[verifier::external_type_specification]
#[verifier::external_body]
pub struct ExSpannedError(ron::error::SpannedError);

/// An error of the standard library's I/O.
#[verifier::external_type_specification]
#[verifier::external_body]
pub struct ExIoError(std::io::Error);

/// The errors of Nix rendering and of RON input.
#[derive(Debug)]
pub enum Error {
    /// A message raised while serializing.
    Custom(String),
    /// The RON input could not be parsed.
    RonParse(ron::error::SpannedError),
    /// Reading or writing failed.
    Io(std::io::Error),
}

/// What `<SpannedError as Display>::fmt` writes for a RON parse error: the
/// span, a colon, a space and the error code's text. It depends on the
/// error alone.
pub uninterp spec fn ron_error_display(e: ron::error::SpannedError) -> Seq<char>;

/// The `Display` text of a RON parse error (`<SpannedError as Display>::fmt`),
/// which `ron_error_display` names.
#[verifier::external_body]
fn ron_error_text(e: &ron::error::SpannedError) -> (t: String)
    ensures
        t@ == ron_error_display(*e),
{
    format!("{}", e)
}

/// The `Display` text of an I/O error (`<std::io::Error as Display>::fmt`).
/// The text is not stated: it comes from the operating system.
#[verifier::external_body]
fn io_error_text(e: &std::io::Error) -> String {
    format!("{}", e)
}

/// The prefix of the message of a RON parse error.
pub open spec fn ron_parse_prefix() -> Seq<char> {
    seq!['R', 'O', 'N', ' ', 'p', 'a', 'r', 's', 'e', ' ', 'e', 'r', 'r', 'o', 'r', ':', ' ']
}

/// The prefix of the message of an I/O error.
pub open spec fn io_prefix() -> Seq<char> {
    seq!['I', '/', 'O', ' ', 'e', 'r', 'r', 'o', 'r', ':', ' ']
}

/// The two messages begin with `RON parse error: ` and `I/O error: `.
pub proof fn lemma_message_prefixes()
    ensures
        ron_parse_prefix() == seq!['R', 'O', 'N', ' ', 'p', 'a', 'r', 's', 'e', ' ', 'e', 'r', 'r', 'o', 'r', ':', ' '],
        io_prefix() == seq!['I', '/', 'O', ' ', 'e', 'r', 'r', 'o', 'r', ':', ' '],
{
}

impl Error {
    /// The message of the error, as its `Display` writes it: a custom
    /// message stands alone; a RON parse error reads
    /// `RON parse error: ` followed by `ron`'s own message, exactly; an
    /// I/O error reads `I/O error: ` followed by the system's message.
    pub fn message(&self) -> (text: String)
        ensures
            self matches Error::Custom(m) ==> text@ == m@,
            self matches Error::RonParse(e) ==> text@ == ron_parse_prefix() + ron_error_display(
                *e,
            ),
            self is Io ==> text@.len() >= io_prefix().len()
                && text@.take(io_prefix().len() as int) == io_prefix(),
    {
        match self {
            Error::Custom(m) => m.clone(),
            Error::RonParse(e) => {
                let mut text = String::new();
                let prefix = ['R', 'O', 'N', ' ', 'p', 'a', 'r', 's', 'e', ' ', 'e', 'r', 'r', 'o', 'r', ':', ' '];
                push_all(&mut text, &prefix);
                proof {
                    assert(text@ =~= ron_parse_prefix());
                }
                let detail = ron_error_text(e);
                text.append(detail.as_str());
                text
            }
            Error::Io(e) => {
                let mut text = String::new();
                let prefix = ['I', '/', 'O', ' ', 'e', 'r', 'r', 'o', 'r', ':', ' '];
                push_all(&mut text, &prefix);
                proof {
                    assert(text@ =~= io_prefix());
                }
                let detail = io_error_text(e);
                let ghost before = text@;
                text.append(detail.as_str());
                proof {
                    assert(text@.take(io_prefix().len() as int) =~= before);
                }
                text
            }
        }
    }
}

} // verus!
