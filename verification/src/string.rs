//! Strings as the language has them: sequences of characters.

use vstd::prelude::*;
use vstd::string::StrSliceExecFns;
use crate::hash::{hash_str, spec_hash_chars, HASH_MASK};

verus! {

/// Calls `String::push`, which appends the character to the end of the
/// string.
#[verifier::external_body]
fn push_char(text: &mut String, c: char)
    ensures
        final(text)@ == old(text)@.push(c),
{
    text.push(c);
}

/// The string that holds these characters.
pub fn string_of_chars(chars: &Vec<char>) -> (text: String)
    ensures
        text@ == chars@,
{
    let mut text = String::new();
    let mut i: usize = 0;
    while i < chars.len()
        invariant
            i <= chars@.len(),
            text@ == chars@.take(i as int),
        decreases chars@.len() - i,
    {
        push_char(&mut text, chars[i]);
        assert(chars@.take(i + 1) =~= chars@.take(i as int).push(chars@[i as int]));
        i += 1;
    }
    assert(chars@.take(i as int) =~= chars@);
    text
}

/// The characters of a string.
pub fn chars_of_str(string: &str) -> (chars: Vec<char>)
    ensures
        chars@ == string@,
{
    let n: usize = string.unicode_len();
    let mut chars: Vec<char> = Vec::new();
    let mut i: usize = 0;
    while i < n
        invariant
            i <= n,
            n == string@.len(),
            chars@ == string@.take(i as int),
        decreases n - i,
    {
        chars.push(string.get_char(i));
        assert(string@.take(i + 1) =~= string@.take(i as int).push(string@[i as int]));
        i += 1;
    }
    assert(string@.take(i as int) =~= string@);
    chars
}

/// Hashes characters to a 56-bit identifier: that of their text.
pub fn hash_chars(input: &Vec<char>) -> (h: u64)
    ensures
        h == spec_hash_chars(input@),
        h <= HASH_MASK,
{
    let text: String = string_of_chars(input);
    hash_str(text.as_str())
}

/// A string of the language.
#[derive(Debug)]
pub struct MechString {
    pub chars: Vec<char>,
}

impl View for MechString {
    type V = Seq<char>;

    open spec fn view(&self) -> Seq<char> {
        self.chars@
    }
}

impl MechString {
    /// The string without characters.
    pub fn new() -> (s: MechString)
        ensures
            s@ == Seq::<char>::empty(),
    {
        MechString { chars: Vec::new() }
    }

    /// The string of the language that holds the characters of `string`.
    pub fn from_string(string: String) -> (s: MechString)
        ensures
            s@ == string@,
    {
        MechString { chars: chars_of_str(string.as_str()) }
    }

    /// The string of the language that holds the characters of `string`.
    pub fn from_str(string: &str) -> (s: MechString)
        ensures
            s@ == string@,
    {
        MechString { chars: chars_of_str(string) }
    }

    /// The string of the language that holds these characters.
    pub fn from_chars(chars: &Vec<char>) -> (s: MechString)
        ensures
            s@ == chars@,
    {
        let mut copied: Vec<char> = Vec::new();
        let mut i: usize = 0;
        while i < chars.len()
            invariant
                i <= chars@.len(),
                copied@ == chars@.take(i as int),
            decreases chars@.len() - i,
        {
            copied.push(chars[i]);
            assert(chars@.take(i + 1) =~= chars@.take(i as int).push(chars@[i as int]));
            i += 1;
        }
        assert(chars@.take(i as int) =~= chars@);
        MechString { chars: copied }
    }

    /// The number of characters.
    pub fn len(&self) -> (n: usize)
        ensures
            n == self@.len(),
    {
        self.chars.len()
    }

    /// The characters as a `String`.
    pub fn to_string(&self) -> (text: String)
        ensures
            text@ == self@,
    {
        string_of_chars(&self.chars)
    }

    /// The identifier of the string.
    pub fn hash(&self) -> (h: u64)
        ensures
            h == spec_hash_chars(self@),
            h <= HASH_MASK,
    {
        hash_chars(&self.chars)
    }
}

} // verus!
