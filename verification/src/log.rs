use vstd::prelude::*;
use colorfully::{Colors, Property};
use crate::text::{chars_to_string, concat_chars, str_chars, string_chars};
use crate::number::{nat_text, usize_text};

verus! {

/// `colorfully::Property::bold` on a `str` writes the text between the
/// escape codes `ESC[1m` and `ESC[0m`.
#[verifier::external_body]
fn bold(s: &str) -> (r: String)
    ensures
        r@ == "\x1b[1m"@ + s@ + "\x1b[0m"@,
{
    s.bold()
}

/// `colorfully::Colors::red` on a `String` writes the text between the
/// escape codes `ESC[31m` and `ESC[0m`.
#[verifier::external_body]
fn red(s: &String) -> (r: String)
    ensures
        r@ == "\x1b[31m"@ + s@ + "\x1b[0m"@,
{
    s.red()
}

/// `colorfully::Colors::gray` on a `String` writes the text between the
/// escape codes `ESC[38m` and `ESC[0m`.
#[verifier::external_body]
fn gray(s: &String) -> (r: String)
    ensures
        r@ == "\x1b[38m"@ + s@ + "\x1b[0m"@,
{
    s.gray()
}

/// Reports errors for one source (a file name, or a phase of the run).
pub struct Logging {
    path: String,
}

impl View for Logging {
    type V = Seq<char>;

    closed spec fn view(&self) -> Seq<char> {
        self.path@
    }
}

/// The line that reports `message` at `line`:`column` of `path`.
pub open spec fn error_line_spec(path: Seq<char>, line: nat, column: nat, message: Seq<char>) -> Seq<char> {
    "["@ + ("\x1b[31m"@ + ("\x1b[1m"@ + "ERROR"@ + "\x1b[0m"@) + "\x1b[0m"@) + " "@
        + ("\x1b[38m"@ + (path + ":"@ + nat_text(line) + ":"@ + nat_text(column)) + "\x1b[0m"@)
        + "] "@ + message
}

impl Logging {
    /// A reporter for `path`.
    pub fn new(path: String) -> (r: Logging)
        ensures
            r@ == path@,
    {
        Logging { path }
    }

    /// The path errors are reported for.
    pub fn path(&self) -> (r: String)
        ensures
            r@ == self@,
    {
        self.path.clone()
    }

    /// The line that reports `message` at `position` (line, column): a bold
    /// red `ERROR`, the place in gray, then the message. Printing it and
    /// ending the process with status 1 is left to the caller.
    pub fn error(&self, position: (usize, usize), message: String) -> (r: String)
        ensures
            r@ == error_line_spec(self@, position.0 as nat, position.1 as nat, message@),
    {
        let head = red(&bold("ERROR"));
        let mut place = concat_chars(&string_chars(&self.path), &str_chars(":"));
        place = concat_chars(&place, &usize_text(position.0));
        place = concat_chars(&place, &str_chars(":"));
        place = concat_chars(&place, &usize_text(position.1));
        let place = gray(&chars_to_string(&place));
        let mut line = concat_chars(&str_chars("["), &string_chars(&head));
        line = concat_chars(&line, &str_chars(" "));
        line = concat_chars(&line, &string_chars(&place));
        line = concat_chars(&line, &str_chars("] "));
        line = concat_chars(&line, &string_chars(&message));
        chars_to_string(&line)
    }
}

} // verus!
