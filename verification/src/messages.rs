use vstd::prelude::*;
use vstd::string::StringExecFns;

verus! {

/// The system notice the log receives when `u` logs on.
pub open spec fn logged_on_msg(u: Seq<char>) -> Seq<char> {
    u + " logged on!"@
}

/// The system notice the log receives when `u` is evicted.
pub open spec fn logged_out_msg(u: Seq<char>) -> Seq<char> {
    u + " logged out!"@
}

/// The log entry for the text `m` posted by `u`.
pub open spec fn user_msg(u: Seq<char>, m: Seq<char>) -> Seq<char> {
    u + ": "@ + m
}

/// Builds the logged-on notice for `username`.
pub fn format_logged_on(username: &str) -> (r: String)
    ensures
        r@ == logged_on_msg(username@),
{
    let mut r = String::from_str(username);
    r.append(" logged on!");
    r
}

/// Builds the logged-out notice for `username`.
pub fn format_logged_out(username: &str) -> (r: String)
    ensures
        r@ == logged_out_msg(username@),
{
    let mut r = String::from_str(username);
    r.append(" logged out!");
    r
}

/// Builds the log entry for the text `message` posted by `username`.
pub fn format_user_msg(username: &str, message: &str) -> (r: String)
    ensures
        r@ == user_msg(username@, message@),
{
    let mut r = String::from_str(username);
    r.append(": ");
    r.append(message);
    r
}

} // verus!
