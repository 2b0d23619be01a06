use vstd::prelude::*;

use crate::error::Error;
use crate::events::opt_str_view;

verus! {

/// `i` is the position of the first occurrence of `c` in `s`.
pub open spec fn is_first_idx(s: Seq<char>, c: char, i: int) -> bool {
    &&& 0 <= i < s.len()
    &&& s[i] == c
    &&& forall|k: int| 0 <= k < i ==> s[k] != c
}

/// `i` is the position of the last occurrence of `c` in `s`.
pub open spec fn is_last_idx(s: Seq<char>, c: char, i: int) -> bool {
    &&& 0 <= i < s.len()
    &&& s[i] == c
    &&& forall|k: int| i < k < s.len() ==> s[k] != c
}

pub open spec fn has_char(s: Seq<char>, c: char) -> bool {
    exists|i: int| 0 <= i < s.len() && s[i] == c
}

/// Splits `prefix:local` at the last colon; a string without a colon is
/// all local part.
pub open spec fn split_prefix(s: Seq<char>) -> (Option<Seq<char>>, Seq<char>) {
    if has_char(s, ':') {
        let i = choose|i: int| is_last_idx(s, ':', i);
        (Some(s.take(i)), s.skip(i + 1))
    } else {
        (None, s)
    }
}

/// The meaning of a declared tag: `{URI}prefix:local`, `{URI}local`,
/// `prefix:local` or `local`. `None` when a leading `{` has no matching
/// `}`. The result is `(namespace, prefix, local)`.
pub open spec fn parse_tag_spec(s: Seq<char>) -> Option<
    (Option<Seq<char>>, Option<Seq<char>>, Seq<char>),
> {
    if s.len() > 0 && s[0] == '{' {
        if has_char(s, '}') {
            let i = choose|i: int| is_first_idx(s, '}', i);
            let rest = s.skip(i + 1);
            Some((Some(s.subrange(1, i)), split_prefix(rest).0, split_prefix(rest).1))
        } else {
            None
        }
    } else {
        Some((None, split_prefix(s).0, split_prefix(s).1))
    }
}

/// The parsed form of a declared tag.
#[derive(Debug)]
pub struct TagParts {
    pub namespace: Option<String>,
    pub prefix: Option<String>,
    pub local: String,
}

fn find_first(s: &str, c: char) -> (r: Option<usize>)
    ensures
        match r {
            Some(i) => is_first_idx(s@, c, i as int),
            None => !has_char(s@, c),
        },
{
    let n = s.unicode_len();
    let mut i: usize = 0;
    while i < n
        invariant
            n == s@.len(),
            0 <= i <= n,
            forall|k: int| 0 <= k < i ==> s@[k] != c,
        decreases n - i,
    {
        if s.get_char(i) == c {
            return Some(i);
        }
        i = i + 1;
    }
    None
}

fn find_last(s: &str, c: char) -> (r: Option<usize>)
    ensures
        match r {
            Some(i) => is_last_idx(s@, c, i as int),
            None => !has_char(s@, c),
        },
{
    let n = s.unicode_len();
    let mut i: usize = n;
    while i > 0
        invariant
            n == s@.len(),
            0 <= i <= n,
            forall|k: int| i <= k < n ==> s@[k] != c,
        decreases i,
    {
        i = i - 1;
        if s.get_char(i) == c {
            return Some(i);
        }
    }
    None
}

/// Splits `prefix:local` at the last colon, per `split_prefix`.
fn split_prefix_exec(s: &str) -> (r: (Option<String>, String))
    ensures
        split_prefix(s@) == (opt_str_view(r.0), r.1@),
{
    let n = s.unicode_len();
    match find_last(s, ':') {
        Some(i) => {
            let pre = s.substring_char(0, i).to_owned();
            let loc = s.substring_char(i + 1, n).to_owned();
            proof {
                let j = choose|j: int| is_last_idx(s@, ':', j);
                assert(j == i as int);
                assert(pre@ =~= s@.take(i as int));
                assert(loc@ =~= s@.skip(i as int + 1));
            }
            (Some(pre), loc)
        },
        None => {
            let loc = s.to_owned();
            (None, loc)
        },
    }
}

/// Parses a declared tag into namespace, prefix and local part, exactly
/// as `parse_tag_spec` reads it; a malformed tag (a leading `{` with no
/// matching `}`) is reported as an error at table-build time.
pub fn parse_tag(s: &str) -> (r: Result<TagParts, Error>)
    ensures
        match r {
            Ok(t) => parse_tag_spec(s@) == Some(
                (opt_str_view(t.namespace), opt_str_view(t.prefix), t.local@),
            ),
            Err(e) => parse_tag_spec(s@) is None && e is Custom,
        },
{
    let n = s.unicode_len();
    if n > 0 && s.get_char(0) == '{' {
        match find_first(s, '}') {
            Some(i) => {
                let uri = s.substring_char(1, i).to_owned();
                let rest = s.substring_char(i + 1, n);
                let (prefix, local) = split_prefix_exec(rest);
                proof {
                    let j = choose|j: int| is_first_idx(s@, '}', j);
                    assert(j == i as int);
                    assert(uri@ =~= s@.subrange(1, i as int));
                    assert(rest@ =~= s@.skip(i as int + 1));
                }
                Ok(TagParts { namespace: Some(uri), prefix, local })
            },
            None => Err(Error::Custom(String::from_str("unterminated namespace in field tag"))),
        }
    } else {
        let (prefix, local) = split_prefix_exec(s);
        Ok(TagParts { namespace: None, prefix, local })
    }
}

} // verus!
