//! The error that pool construction reports.
use vstd::prelude::*;
use vstd::string::*;

verus! {

/// The decimal digits of `n`, most significant first, without leading zeros.
pub open spec fn decimal(n: nat) -> Seq<char>
    decreases n,
{
    let digit = seq!['0', '1', '2', '3', '4', '5', '6', '7', '8', '9'][(n % 10) as int];
    if n < 10 {
        seq![digit]
    } else {
        decimal(n / 10).push(digit)
    }
}

/// Relies on `usize::to_string` (through `Display`): integers print in decimal.
#[verifier::external_body]
fn usize_to_decimal(n: usize) -> (r: String)
    ensures
        r@ == decimal(n as nat),
{
    n.to_string()
}

/// The message that a pool of `size` workers is refused with.
pub open spec fn size_error_text(size: nat) -> Seq<char> {
    "Bad value provided for a thread pool size. "@ + decimal(size) + " is not between 1 and 15"@
}

/// A failure to build a pool, with a human-readable message.
#[derive(Debug, Clone)]
pub struct ThreadPoolError(String);

impl ThreadPoolError {
    /// The message that the error carries.
    pub closed spec fn text(&self) -> Seq<char> {
        self.0@
    }

    /// An error with the given message.
    pub fn from_message(msg: &str) -> (r: ThreadPoolError)
        ensures
            r.text() == msg@,
    {
        ThreadPoolError(String::from_str(msg))
    }

    /// The error that refuses a pool of `size` workers.
    pub fn invalid_size(size: usize) -> (r: ThreadPoolError)
        ensures
            r.text() == size_error_text(size as nat),
    {
        let mut msg = String::from_str("Bad value provided for a thread pool size. ");
        let num = usize_to_decimal(size);
        msg.append(num.as_str());
        msg.append(" is not between 1 and 15");
        ThreadPoolError(msg)
    }

    /// The message that the error carries.
    pub fn message(&self) -> (r: &String)
        ensures
            r@ == self.text(),
    {
        &self.0
    }

    /// The message as it is shown to a user: `Error: ` and the message.
    pub fn to_string(&self) -> (r: String)
        ensures
            r@ == "Error: "@ + self.text(),
    {
        let mut r = String::from_str("Error: ");
        r.append(self.0.as_str());
        r
    }
}

} // verus!
