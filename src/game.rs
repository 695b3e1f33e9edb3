//! The handshake: which role pair a referee line assigns to us.
use vstd::prelude::*;
use vstd::string::StrSliceExecFns;

verus! {

/// `s` holds the character `a` immediately followed by `b`.
pub open spec fn has_pair(s: Seq<char>, a: char, b: char) -> bool {
    exists|i: int| 0 <= i && i + 1 < s.len() && #[trigger] s[i] == a && s[i + 1] == b
}

/// The role pair a handshake line assigns: `('@', 'a')` for a line holding
/// `p1`, else `('$', 's')` for one holding `p2`, else none.
pub open spec fn roles_of(s: Seq<char>) -> Option<(char, char)> {
    if has_pair(s, 'p', '1') {
        Some(('@', 'a'))
    } else if has_pair(s, 'p', '2') {
        Some(('$', 's'))
    } else {
        None
    }
}

fn contains_pair(line: &str, a: char, b: char) -> (r: bool)
    ensures
        r == has_pair(line@, a, b),
{
    let n = line.unicode_len();
    let mut i: usize = 0;
    while n >= 2 && i < n - 1
        invariant
            n == line@.len(),
            i <= n,
            forall|k: int| 0 <= k < i && k + 1 < n ==> !(#[trigger] line@[k] == a && line@[k + 1] == b),
        decreases n - i,
    {
        if line.get_char(i) == a && line.get_char(i + 1) == b {
            return true;
        }
        i = i + 1;
    }
    false
}

/// Reads the role pair from one handshake line of the referee.
pub fn initialize_player(line: &str) -> (r: Option<(char, char)>)
    ensures
        r == roles_of(line@),
{
    if contains_pair(line, 'p', '1') {
        Some(('@', 'a'))
    } else if contains_pair(line, 'p', '2') {
        Some(('$', 's'))
    } else {
        None
    }
}

} // verus!
