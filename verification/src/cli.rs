//! Command-line helpers of the node.

use vstd::prelude::*;

verus! {

/// Error parsing a `KEY=VALUE` entry: the entry holds no `=`.
#[derive(Debug, PartialEq)]
pub struct ParseKeyValError {
    /// The entry that failed to parse.
    pub s: String,
}

impl ParseKeyValError {
    /// The error's message: `expected 'KEY=VALUE', got '<entry>'`.
    pub fn message(&self) -> (r: String)
        ensures
            r@ == "expected 'KEY=VALUE', got '"@ + self.s@ + "'"@,
    {
        let mut m = "expected 'KEY=VALUE', got '".to_owned();
        m.append(self.s.as_str());
        m.append("'");
        m
    }
}

/// `k` and `v` split `s` at its first `=`.
pub open spec fn splits_at_first_eq(s: Seq<char>, k: Seq<char>, v: Seq<char>) -> bool {
    &&& s == k + seq!['='] + v
    &&& !k.contains('=')
}

/// Splits a `KEY=VALUE` entry at its first `=`.
pub fn parse_key_val(s: &str) -> (r: Result<(String, String), ParseKeyValError>)
    ensures
        r is Err <==> !s@.contains('='),
        r matches Err(e) ==> e.s@ == s@,
        r matches Ok((k, v)) ==> splits_at_first_eq(s@, k@, v@),
{
    let n = s.unicode_len();
    let mut i: usize = 0;
    while i < n
        invariant
            n == s@.len(),
            i <= n,
            forall|j: int| 0 <= j < i ==> s@[j] != '=',
        decreases n - i,
    {
        if s.get_char(i) == '=' {
            let k = s.substring_char(0, i).to_owned();
            let v = s.substring_char(i + 1, n).to_owned();
            proof {
                assert(!k@.contains('=')) by {
                    if k@.contains('=') {
                        let j = choose|j: int| 0 <= j < k@.len() && k@[j] == '=';
                        assert(s@[j] == '=');
                    }
                }
                assert(s@ =~= k@ + seq!['='] + v@);
            }
            return Ok((k, v));
        }
        i += 1;
    }
    proof {
        assert(!s@.contains('=')) by {
            if s@.contains('=') {
                let j = choose|j: int| 0 <= j < s@.len() && s@[j] == '=';
                assert(s@[j] == '=');
            }
        }
    }
    Err(ParseKeyValError { s: s.to_owned() })
}

} // verus!
