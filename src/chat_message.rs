//! Received chat lines of the form `nickname: text`.
use vstd::prelude::*;
use vstd::string::StrSliceExecFns;

verus! {

/// `t` has the separator `": "` at character `i`.
pub open spec fn separator_at(t: Seq<char>, i: int) -> bool {
    0 <= i && i + 1 < t.len() && t[i] == ':' && t[i + 1] == ' '
}

/// The first separator of `t` is at `i`.
pub open spec fn first_separator(t: Seq<char>, i: int) -> bool {
    separator_at(t, i) && forall|j: int| 0 <= j < i ==> !separator_at(t, j)
}

/// The nickname and the text of a chat line: the parts before and after its
/// first `": "`, when the nickname has at least `min_nick_len` characters.
pub open spec fn split_spec(t: Seq<char>, min_nick_len: nat) -> Option<(Seq<char>, Seq<char>)> {
    if exists|i: int| first_separator(t, i) {
        let i = choose|i: int| first_separator(t, i);
        if i >= min_nick_len {
            Some((t.subrange(0, i), t.subrange(i + 2, t.len() as int)))
        } else {
            None
        }
    } else {
        None
    }
}

/// Splits a chat line into its nickname and its text. How long a nickname
/// must be for the line to count is the caller's choice: servers prefix
/// nicknames with ranks and colour codes of their own.
pub fn split_chat_message(full: &str, min_nick_len: usize) -> (r: Option<(String, String)>)
    ensures
        match split_spec(full@, min_nick_len as nat) {
            Some((nick, said)) => r is Some && r->Some_0.0@ == nick && r->Some_0.1@ == said,
            None => r is None,
        },
{
    let n = full.unicode_len();
    if n < 2 {
        assert(!exists|k: int| first_separator(full@, k));
        return None;
    }
    let last = n - 1;
    let mut i: usize = 0;
    while i < last && !(full.get_char(i) == ':' && full.get_char(i + 1) == ' ')
        invariant
            n == full@.len(),
            last == n - 1,
            i <= last,
            forall|j: int| 0 <= j < i ==> !separator_at(full@, j),
        decreases last - i,
    {
        i = i + 1;
    }
    if i >= last {
        assert(!exists|k: int| first_separator(full@, k));
        return None;
    }
    assert(first_separator(full@, i as int));
    assert(forall|k: int| first_separator(full@, k) ==> k == i);
    if i < min_nick_len {
        return None;
    }
    let nick = full.substring_char(0, i).to_owned();
    let said = full.substring_char(i + 2, n).to_owned();
    Some((nick, said))
}

} // verus!
