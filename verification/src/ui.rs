//! How a line is coloured on its way to the terminal.

use vstd::prelude::*;

verus! {

/// A text between a colour's escape sequence and a reset.
pub open spec fn painted(code: Seq<char>, text: Seq<char>) -> Seq<char> {
    "\u{1b}["@ + code + "m"@ + text + "\u{1b}[0m"@
}

/// Puts a text between a colour's escape sequence and a reset.
fn paint(code: &str, text: &str) -> (r: String)
    ensures
        r@ == painted(code@, text@),
{
    let mut r = "\u{1b}[".to_owned();
    r.append(code);
    r.append("m");
    r.append(text);
    r.append("\u{1b}[0m");
    r
}

/// A text in green.
pub fn green(text: &str) -> (r: String)
    ensures
        r@ == painted("32"@, text@),
{
    paint("32", text)
}

/// A text in red.
pub fn red(text: &str) -> (r: String)
    ensures
        r@ == painted("31"@, text@),
{
    paint("31", text)
}

/// A text in yellow.
pub fn yellow(text: &str) -> (r: String)
    ensures
        r@ == painted("33"@, text@),
{
    paint("33", text)
}

/// A text in cyan.
pub fn cyan(text: &str) -> (r: String)
    ensures
        r@ == painted("36"@, text@),
{
    paint("36", text)
}

/// A text with a label in front.
fn labelled(label: &str, text: &str) -> (r: String)
    ensures
        r@ == label@ + text@,
{
    let mut r = label.to_owned();
    r.append(text);
    r
}

/// The line for something that is so.
pub fn info_line(text: &str) -> (r: String)
    ensures
        r@ == painted("36"@, "INFO: "@ + text@),
{
    cyan(labelled("INFO: ", text).as_str())
}

/// The line for something that was done.
pub fn success_line(text: &str) -> (r: String)
    ensures
        r@ == painted("32"@, "SUCCESS: "@ + text@),
{
    green(labelled("SUCCESS: ", text).as_str())
}

/// The line for something that may surprise.
pub fn warning_line(text: &str) -> (r: String)
    ensures
        r@ == painted("33"@, "WARNING: "@ + text@),
{
    yellow(labelled("WARNING: ", text).as_str())
}

/// The line for something that failed.
pub fn error_line(text: &str) -> (r: String)
    ensures
        r@ == painted("31"@, "ERROR: "@ + text@),
{
    red(labelled("ERROR: ", text).as_str())
}

} // verus!
