//! Walking a directory tree to pick a file: where each choice leads.
//!
//! Listing a directory and asking the person at the terminal is left to the
//! caller; what the path becomes after each choice is decided here.

use crate::text::{chars_of, copy_range, push_all, string_of};
use vstd::prelude::*;

verus! {

/// What was chosen from the entries of a directory.
#[derive(Debug)]
pub enum FileOption {
    /// A directory of that name: the walk goes on inside it.
    Going(String),
    /// Nothing: the walk goes back to the directory above.
    Back,
    /// A file of that name: the walk ends at it.
    Done(String),
}

/// The position of the last slash of a path, if it has one.
pub open spec fn last_slash(path: Seq<char>) -> Option<int>
    decreases path.len(),
{
    if path.len() == 0 {
        None
    } else if path.last() == '/' {
        Some(path.len() - 1)
    } else {
        last_slash(path.drop_last())
    }
}

/// The path of the directory above: the path up to its last slash, or the
/// path itself where it has no slash.
pub open spec fn parent(path: Seq<char>) -> Seq<char> {
    match last_slash(path) {
        Some(i) => path.subrange(0, i),
        None => path,
    }
}

/// The path after a choice, and whether the walk has ended.
pub open spec fn after_choice(path: Seq<char>, choice: FileOption) -> (Seq<char>, bool) {
    match choice {
        FileOption::Going(name) => (path + seq!['/'] + name@, false),
        FileOption::Done(name) => (path + seq!['/'] + name@, true),
        FileOption::Back => (parent(path), false),
    }
}

/// `path`, a slash and `name`.
fn joined(path: &str, name: &str) -> (r: String)
    ensures
        r@ == path@ + seq!['/'] + name@,
{
    let mut out = chars_of(path);
    out.push('/');
    let tail = chars_of(name);
    push_all(&mut out, &tail);
    string_of(&out)
}

/// The path of the directory above.
fn above(path: &str) -> (r: String)
    ensures
        r@ == parent(path@),
{
    let chars = chars_of(path);
    let mut i: usize = chars.len();
    assert(chars@.subrange(0, i as int) =~= chars@);
    while i > 0
        invariant
            i <= chars.len(),
            chars@ == path@,
            last_slash(chars@) == last_slash(chars@.subrange(0, i as int)),
        decreases i,
    {
        let ghost head = chars@.subrange(0, i as int);
        assert(head.last() == chars@[i - 1]);
        assert(head.drop_last() =~= chars@.subrange(0, i - 1));
        if chars[i - 1] == '/' {
            let up = copy_range(&chars, 0, i - 1);
            return string_of(&up);
        }
        i -= 1;
    }
    string_of(&chars)
}

/// Takes one step of the walk: the path after the choice, and whether the
/// walk has ended at a file.
pub fn step(path: &str, choice: &FileOption) -> (r: (String, bool))
    ensures
        (r.0@, r.1) == after_choice(path@, *choice),
{
    match choice {
        FileOption::Going(name) => (joined(path, name.as_str()), false),
        FileOption::Done(name) => (joined(path, name.as_str()), true),
        FileOption::Back => (above(path), false),
    }
}

} // verus!
