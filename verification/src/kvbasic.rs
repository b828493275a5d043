//! The first command set of the key-value server: `get`, `set` and `delete`,
//! and `incr name change`, which adds an integer to an integer value.

use crate::kvcommand::{apply_basic, basic_outcome};
use crate::kvstore::{lookup, KVStore};
use crate::text::{i32_to_string, int_decimal, parse_i32, parse_i32_result, split_words, words};
use vstd::prelude::*;
use vstd::string::*;
use vstd::utf8::is_ascii_chars;

verus! {

/// The outcome of `incr k c` given as words: when the value of `k` and the
/// change `c` are both `i32` integers whose sum is an `i32`, the sum is stored
/// and is the reply; otherwise the store stays as it is and the reply is an
/// error. `None` for any other words.
pub open spec fn incr_by_outcome(m: Map<Seq<char>, Seq<char>>, w: Seq<Seq<char>>) -> Option<
    (Map<Seq<char>, Seq<char>>, Seq<char>),
> {
    if w.len() == 3 && w[0] == "incr"@ && is_ascii_chars(w[1]) {
        Some(
            match lookup(m, w[1]) {
                Some(v) => match (parse_i32_result(v), parse_i32_result(w[2])) {
                    (Some(a), Some(c)) => if i32::MIN <= a + c <= i32::MAX {
                        (m.insert(w[1], int_decimal(a + c)), int_decimal(a + c))
                    } else {
                        (m, "error: out of range"@)
                    },
                    _ => (m, "error: not a number"@),
                },
                None => (m, "error: no such key"@),
            },
        )
    } else {
        None
    }
}

/// The dictionary after a command line of this command set and the reply to it.
pub open spec fn basic_command_outcome(m: Map<Seq<char>, Seq<char>>, line: Seq<char>) -> (
    Map<Seq<char>, Seq<char>>,
    Seq<char>,
) {
    let w = words(line);
    match basic_outcome(m, w) {
        Some(r) => r,
        None => match incr_by_outcome(m, w) {
            Some(r) => r,
            None => (m, "Invalid input"@),
        },
    }
}

/// Carries out one `get`, `set`, `delete` or `incr` line on `store` and
/// returns the reply; anything else is `Invalid input`.
pub fn update_store(input: String, store: &mut KVStore) -> (reply: std::io::Result<String>)
    ensures
        reply matches Ok(r) && (final(store)@, r@) == basic_command_outcome(old(store)@, input@),
{
    let w = split_words(input.as_str());
    if let Some(r) = apply_basic(&w, store) {
        return Ok(r);
    }
    let ghost ws = words(input@);
    if w.len() >= 1 {
        assert(w[0]@ == ws[0]);
    }
    if w.len() >= 2 {
        assert(w[1]@ == ws[1]);
    }
    if w.len() >= 3 {
        assert(w[2]@ == ws[2]);
    }
    if w.len() == 3 && w[0] == String::from_str("incr") && w[1].is_ascii() {
        match store.get(w[1].as_str()) {
            Some(val) => match (parse_i32(val.as_str()), parse_i32(w[2].as_str())) {
                (Some(a), Some(c)) => match a.checked_add(c) {
                    Some(sum) => {
                        let text = i32_to_string(sum);
                        store.set(w[1].as_str(), text.as_str());
                        Ok(text)
                    },
                    None => Ok(String::from_str("error: out of range")),
                },
                _ => Ok(String::from_str("error: not a number")),
            },
            None => Ok(String::from_str("error: no such key")),
        }
    } else {
        Ok(String::from_str("Invalid input"))
    }
}

/// `incr k c` on a key holding the integer `a` stores `a + c` when that is
/// an `i32`, and a `get` then reads the sum back.
pub proof fn lemma_incr_by_then_get(
    m: Map<Seq<char>, Seq<char>>,
    incr_line: Seq<char>,
    get_line: Seq<char>,
    key: Seq<char>,
    change: Seq<char>,
    a: i32,
    c: i32,
)
    requires
        words(incr_line) == seq!["incr"@, key, change],
        words(get_line) == seq!["get"@, key],
        is_ascii_chars(key),
        m.contains_key(key),
        parse_i32_result(m[key]) == Some(a),
        parse_i32_result(change) == Some(c),
        i32::MIN <= a + c <= i32::MAX,
    ensures
        basic_command_outcome(m, incr_line) == (
            m.insert(key, int_decimal(a + c)),
            int_decimal(a + c),
        ),
        basic_command_outcome(basic_command_outcome(m, incr_line).0, get_line) == (
            m.insert(key, int_decimal(a + c)),
            int_decimal(a + c),
        ),
{
    reveal_strlit("incr");
    reveal_strlit("set");
    reveal_strlit("get");
    reveal_strlit("delete");
    let w = words(incr_line);
    assert("incr"@.len() == 4);
    assert(w[0] != "set"@);
    assert(w[0] != "get"@);
    assert(w[0] != "delete"@);
}

} // verus!
