use vstd::prelude::*;
use vstd::string::StringExecFns;

verus! {

/// The character of a decimal digit.
pub open spec fn digit_char(d: nat) -> char {
    if d == 0 {
        '0'
    } else if d == 1 {
        '1'
    } else if d == 2 {
        '2'
    } else if d == 3 {
        '3'
    } else if d == 4 {
        '4'
    } else if d == 5 {
        '5'
    } else if d == 6 {
        '6'
    } else if d == 7 {
        '7'
    } else if d == 8 {
        '8'
    } else {
        '9'
    }
}

/// The decimal digits of `n`, most significant first, with no leading zero.
pub open spec fn decimal(n: nat) -> Seq<char>
    decreases n,
{
    if n < 10 {
        seq![digit_char(n)]
    } else {
        decimal(n / 10).push(digit_char(n % 10))
    }
}

/// Relies on `ToString` through the `Display` of `usize`: the decimal digits of
/// the value, with no sign and no padding.
#[verifier::external_body]
fn decimal_string(n: usize) -> (r: String)
    ensures
        r@ == decimal(n as nat),
{
    n.to_string()
}

/// A node of a multi-node setup, known by its index.
#[derive(Clone, Debug, PartialEq, Eq)]
pub struct NodeRunner {
    pub description: String,
    pub index: usize,
}

impl NodeRunner {
    /// A runner for the node with this index, described as `Node ID <index>:`.
    pub fn new(index: usize) -> (r: Self)
        ensures
            r.index == index,
            r.description@ == "Node ID "@ + decimal(index as nat) + ":"@,
    {
        let mut description = String::from_str("Node ID ");
        let digits = decimal_string(index);
        description.append(digits.as_str());
        description.append(":");
        Self { description, index }
    }

    pub fn get_description(&self) -> (r: String)
        ensures
            r@ == self.description@,
    {
        self.description.clone()
    }
}

} // verus!
