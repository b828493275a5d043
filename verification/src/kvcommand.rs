//! The command language of the key-value server: `get`, `set`, `delete` and
//! `incr`, one command per line, words separated by whitespace.

use crate::kvstore::{lookup, KVStore};
use crate::text::{
    i32_to_string, int_decimal, lemma_decimal_round_trip, parse_i32,
    parse_i32_result, split_words, strings_view, words,
};
use vstd::prelude::*;
use vstd::string::*;
use vstd::utf8::is_ascii_chars;

verus! {

/// The error type of `std::io`, which the server's replies are typed with.
#[verifier::external_type_specification]
#[verifier::external_body]
pub struct ExIoError(std::io::Error);

/// The outcome of the commands `get k`, `set k v` and `delete k` (keys and
/// values in ASCII) given as words: the dictionary after it and the reply;
/// `None` for any other words.
pub open spec fn basic_outcome(m: Map<Seq<char>, Seq<char>>, w: Seq<Seq<char>>) -> Option<
    (Map<Seq<char>, Seq<char>>, Seq<char>),
> {
    if w.len() == 2 && w[0] == "get"@ && is_ascii_chars(w[1]) {
        Some(
            (
                m,
                match lookup(m, w[1]) {
                    Some(v) => v,
                    None => "Not found"@,
                },
            ),
        )
    } else if w.len() == 3 && w[0] == "set"@ && is_ascii_chars(w[1]) && is_ascii_chars(w[2]) {
        Some(
            (
                m.insert(w[1], w[2]),
                match lookup(m, w[1]) {
                    Some(old) => "Old value: "@ + old,
                    None => "Set"@,
                },
            ),
        )
    } else if w.len() == 2 && w[0] == "delete"@ && is_ascii_chars(w[1]) {
        Some(
            (
                m.remove(w[1]),
                match lookup(m, w[1]) {
                    Some(old) => "Deleted value: "@ + old,
                    None => "No such key"@,
                },
            ),
        )
    } else {
        None
    }
}

/// The outcome of `incr k` given as words: the value of `k`, if it is an
/// integer, goes up by one.
pub open spec fn incr_outcome(m: Map<Seq<char>, Seq<char>>, w: Seq<Seq<char>>) -> Option<
    (Map<Seq<char>, Seq<char>>, Seq<char>),
> {
    if w.len() == 2 && w[0] == "incr"@ && is_ascii_chars(w[1]) {
        Some(
            match lookup(m, w[1]) {
                Some(v) => match parse_i32_result(v) {
                    Some(n) => (m.insert(w[1], int_decimal(n + 1)), "Incr "@ + int_decimal(n + 1)),
                    None => (m, "Invalid: can only incr integral values"@),
                },
                None => (m, "Invalid: no such key"@),
            },
        )
    } else {
        None
    }
}

/// The dictionary after a command line and the reply to it.
pub open spec fn command_outcome(m: Map<Seq<char>, Seq<char>>, line: Seq<char>) -> (
    Map<Seq<char>, Seq<char>>,
    Seq<char>,
) {
    let w = words(line);
    match basic_outcome(m, w) {
        Some(r) => r,
        None => match incr_outcome(m, w) {
            Some(r) => r,
            None => (m, "Invalid command"@),
        },
    }
}

/// Whether `line` asks to increment a key whose value is already the largest `i32`.
pub open spec fn incr_overflows(m: Map<Seq<char>, Seq<char>>, line: Seq<char>) -> bool {
    let w = words(line);
    &&& w.len() == 2
    &&& w[0] == "incr"@
    &&& is_ascii_chars(w[1])
    &&& m.contains_key(w[1])
    &&& parse_i32_result(m[w[1]]) == Some(i32::MAX)
}

/// Carries out `get`, `set` or `delete` given as words, and returns the
/// reply; returns `None`, leaving the store alone, for other words.
pub fn apply_basic(w: &Vec<String>, store: &mut KVStore) -> (reply: Option<String>)
    ensures
        match basic_outcome(old(store)@, strings_view(w@)) {
            Some((m, r)) => {
                &&& final(store)@ == m
                &&& reply matches Some(s) && s@ == r
            },
            None => final(store)@ == old(store)@ && reply is None,
        },
{
    let ghost ws = strings_view(w@);
    if w.len() >= 1 {
        assert(w[0]@ == ws[0]);
    }
    if w.len() >= 2 {
        assert(w[1]@ == ws[1]);
    }
    if w.len() >= 3 {
        assert(w[2]@ == ws[2]);
    }
    if w.len() == 2 && w[0] == String::from_str("get") && w[1].is_ascii() {
        match store.get(w[1].as_str()) {
            Some(v) => Some(v),
            None => Some(String::from_str("Not found")),
        }
    } else if w.len() == 3 && w[0] == String::from_str("set") && w[1].is_ascii()
        && w[2].is_ascii() {
        match store.set(w[1].as_str(), w[2].as_str()) {
            Some(old) => Some(String::from_str("Old value: ").concat(old.as_str())),
            None => Some(String::from_str("Set")),
        }
    } else if w.len() == 2 && w[0] == String::from_str("delete") && w[1].is_ascii() {
        match store.delete(w[1].as_str()) {
            Some(old) => Some(String::from_str("Deleted value: ").concat(old.as_str())),
            None => Some(String::from_str("No such key")),
        }
    } else {
        None
    }
}

/// Carries out one command line on `store` and returns the reply.
///
/// `get k` replies with the value or `Not found`; `set k v` stores `v` and
/// replies `Old value: ...` or `Set`; `delete k` replies `Deleted value: ...`
/// or `No such key`; `incr k` adds one to an integer value and replies
/// `Incr n`. Anything else is an `Invalid command`. Keys and values are ASCII.
pub fn update_store(input: String, store: &mut KVStore) -> (reply: std::io::Result<String>)
    requires
        !incr_overflows(old(store)@, input@),
    ensures
        reply matches Ok(r) && (final(store)@, r@) == command_outcome(old(store)@, input@),
{
    let w = split_words(input.as_str());
    if let Some(r) = apply_basic(&w, store) {
        return Ok(r);
    }
    let ghost ws = words(input@);
    if w.len() >= 1 {
        assert(w[0]@ == ws[0]);
    }
    if w.len() >= 2 {
        assert(w[1]@ == ws[1]);
    }
    if w.len() == 2 && w[0] == String::from_str("incr") && w[1].is_ascii() {
        match store.get(w[1].as_str()) {
            Some(val) => match parse_i32(val.as_str()) {
                Some(n) => {
                    let new_val = n + 1;
                    let text = i32_to_string(new_val);
                    store.set(w[1].as_str(), text.as_str());
                    Ok(String::from_str("Incr ").concat(text.as_str()))
                },
                None => Ok(String::from_str("Invalid: can only incr integral values")),
            },
            None => Ok(String::from_str("Invalid: no such key")),
        }
    } else {
        Ok(String::from_str("Invalid command"))
    }
}


/// Whether `input` asks to increment a key of `store` whose value is already
/// the largest `i32`, which `update_store` does not accept.
pub fn incr_would_overflow(input: &str, store: &KVStore) -> (b: bool)
    ensures
        b == incr_overflows(store@, input@),
{
    let w = split_words(input);
    let ghost ws = words(input@);
    if w.len() >= 1 {
        assert(w[0]@ == ws[0]);
    }
    if w.len() >= 2 {
        assert(w[1]@ == ws[1]);
    }
    if w.len() == 2 && w[0] == String::from_str("incr") && w[1].is_ascii() {
        match store.get(w[1].as_str()) {
            Some(val) => match parse_i32(val.as_str()) {
                Some(n) => n == i32::MAX,
                None => false,
            },
            None => false,
        }
    } else {
        false
    }
}

/// A `get` after a `set` of the same key replies with the value set; the
/// `set` leaves every other key as it was.
pub proof fn lemma_get_after_set(
    m: Map<Seq<char>, Seq<char>>,
    set_line: Seq<char>,
    get_line: Seq<char>,
    key: Seq<char>,
    value: Seq<char>,
)
    requires
        words(set_line) == seq!["set"@, key, value],
        words(get_line) == seq!["get"@, key],
        is_ascii_chars(key),
        is_ascii_chars(value),
    ensures
        command_outcome(command_outcome(m, set_line).0, get_line) == (
            m.insert(key, value),
            value,
        ),
        forall|k: Seq<char>| k != key ==> lookup(#[trigger] command_outcome(m, set_line).0, k) == lookup(m, k),
{
    reveal_strlit("set");
    reveal_strlit("get");
    let w = words(set_line);
    assert("set"@[0] != "get"@[0]);
    assert(w[0] != "get"@);
    assert(w.len() == 3);
}

/// A `get` after a `delete` of the same key finds nothing.
pub proof fn lemma_get_after_delete(
    m: Map<Seq<char>, Seq<char>>,
    delete_line: Seq<char>,
    get_line: Seq<char>,
    key: Seq<char>,
)
    requires
        words(delete_line) == seq!["delete"@, key],
        words(get_line) == seq!["get"@, key],
        is_ascii_chars(key),
    ensures
        command_outcome(command_outcome(m, delete_line).0, get_line) == (
            m.remove(key),
            "Not found"@,
        ),
{
    reveal_strlit("delete");
    reveal_strlit("get");
    reveal_strlit("set");
    let w = words(delete_line);
    assert("delete"@.len() == 6);
    assert(w[0] != "get"@);
    assert(w[0] != "set"@);
}

/// A `get` never changes the store.
pub proof fn lemma_get_keeps_store(m: Map<Seq<char>, Seq<char>>, line: Seq<char>)
    requires
        words(line).len() == 2,
        words(line)[0] == "get"@,
    ensures
        command_outcome(m, line).0 == m,
{
}

/// The dictionary after running `line` `times` times.
pub open spec fn repeat_command(m: Map<Seq<char>, Seq<char>>, line: Seq<char>, times: nat) -> Map<
    Seq<char>,
    Seq<char>,
>
    decreases times,
{
    if times == 0 {
        m
    } else {
        command_outcome(repeat_command(m, line, (times - 1) as nat), line).0
    }
}

/// Incrementing a counter that holds `n` some number of times leaves it
/// holding `n` plus that number, as long as it stays an `i32`.
pub proof fn lemma_incr_accumulates(
    m: Map<Seq<char>, Seq<char>>,
    line: Seq<char>,
    key: Seq<char>,
    n: i32,
    times: nat,
)
    requires
        words(line) == seq!["incr"@, key],
        is_ascii_chars(key),
        m.contains_key(key),
        parse_i32_result(m[key]) == Some(n),
        n + times <= i32::MAX,
    ensures
        repeat_command(m, line, times).contains_key(key),
        parse_i32_result(repeat_command(m, line, times)[key]) == Some((n + times) as i32),
    decreases times,
{
    if times > 0 {
        lemma_incr_accumulates(m, line, key, n, (times - 1) as nat);
        reveal_strlit("incr");
        reveal_strlit("get");
        reveal_strlit("set");
        reveal_strlit("delete");
        let w = words(line);
        assert("incr"@.len() == 4);
        assert("get"@.len() == 3);
        assert("delete"@.len() == 6);
        assert(w[0] != "get"@);
        assert(w[0] != "delete"@);
        lemma_decimal_round_trip((n + times) as i32);
    }
}

} // verus!
