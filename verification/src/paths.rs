//! Names of the folders and files of a download: every name here is one path component, free of
//! the characters that a file system refuses.

use crate::text::{chars_of, decimal, push_decimal, string_of_range};
use vstd::prelude::*;

verus! {

/// The characters that are dropped from a name.
pub open spec fn is_stripped(c: char) -> bool {
    c == '<' || c == '>' || c == '"' || c == '/' || c == '\\' || c == '|' || c == '?' || c == '*'
}

/// What one character of a name becomes: a colon becomes a blank and a hyphen, a refused
/// character is dropped, every other character stays.
pub open spec fn sanitized_char(c: char) -> Seq<char> {
    if c == ':' {
        seq![' ', '-']
    } else if is_stripped(c) {
        Seq::<char>::empty()
    } else {
        seq![c]
    }
}

/// A name made fit for a file system, character by character.
pub open spec fn sanitized(name: Seq<char>) -> Seq<char>
    decreases name.len(),
{
    if name.len() == 0 {
        Seq::<char>::empty()
    } else {
        sanitized(name.drop_last()) + sanitized_char(name.last())
    }
}

/// Makes a job name or a file name fit for a file system.
pub fn sanitize(name: &str) -> (clean: String)
    ensures
        clean@ == sanitized(name@),
{
    let chars = chars_of(name);
    let mut clean = String::new();
    let mut i: usize = 0;
    while i < chars.len()
        invariant
            i <= chars.len(),
            clean@ == sanitized(chars@.take(i as int)),
        decreases chars.len() - i,
    {
        proof {
            let next = chars@.take(i + 1);
            assert(next.drop_last() =~= chars@.take(i as int));
            assert(next.last() == chars@[i as int]);
        }
        let ghost before = clean@;
        let c = chars[i];
        if c == ':' {
            clean.push(' ');
            clean.push('-');
            assert(clean@ =~= before + seq![' ', '-']);
        } else if c == '<' || c == '>' || c == '"' || c == '/' || c == '\\' || c == '|' || c == '?'
            || c == '*' {
            assert(clean@ =~= before + Seq::<char>::empty());
        } else {
            clean.push(c);
            assert(clean@ =~= before + seq![c]);
        }
        i = i + 1;
    }
    assert(chars@.take(chars.len() as int) =~= chars@);
    clean
}

/// A sanitized name holds no colon and none of the refused characters.
pub proof fn lemma_sanitized_is_clean(name: Seq<char>)
    ensures
        forall|i: int|
            0 <= i < sanitized(name).len() ==> {
                let c = #[trigger] sanitized(name)[i];
                c != ':' && !is_stripped(c)
            },
    decreases name.len(),
{
    if name.len() > 0 {
        let head = sanitized(name.drop_last());
        let tail = sanitized_char(name.last());
        lemma_sanitized_is_clean(name.drop_last());
        assert forall|i: int| 0 <= i < sanitized(name).len() implies {
            let c = #[trigger] sanitized(name)[i];
            c != ':' && !is_stripped(c)
        } by {
            if i < head.len() {
                assert(sanitized(name)[i] == head[i]);
            } else {
                assert(sanitized(name)[i] == tail[i - head.len()]);
            }
        }
    }
}

/// A name with no colon and no refused character is left as it is.
pub proof fn lemma_sanitized_of_clean(name: Seq<char>)
    requires
        forall|i: int| 0 <= i < name.len() ==> (#[trigger] name[i]) != ':' && !is_stripped(name[i]),
    ensures
        sanitized(name) == name,
    decreases name.len(),
{
    if name.len() > 0 {
        lemma_sanitized_of_clean(name.drop_last());
        assert(name.drop_last() + seq![name.last()] =~= name);
    }
}

/// Sanitizing twice gives what sanitizing once gives.
pub proof fn lemma_sanitized_idempotent(name: Seq<char>)
    ensures
        sanitized(sanitized(name)) == sanitized(name),
{
    lemma_sanitized_is_clean(name);
    lemma_sanitized_of_clean(sanitized(name));
}

/// Position of the last `.` in `name`, if it has one.
pub open spec fn last_dot(name: Seq<char>) -> Option<int>
    decreases name.len(),
{
    if name.len() == 0 {
        None
    } else if name.last() == '.' {
        Some(name.len() - 1)
    } else {
        last_dot(name.drop_last())
    }
}

/// The stem of a file name that is a single path component: nothing for the empty name and for
/// `.` and `..`; the whole name where it has no `.` or only one in front; otherwise what stands
/// before the last `.`.
pub open spec fn stem(name: Seq<char>) -> Seq<char> {
    if name == seq!['.'] || name == seq!['.', '.'] {
        Seq::<char>::empty()
    } else {
        match last_dot(name) {
            Some(d) if d > 0 => name.subrange(0, d),
            _ => name,
        }
    }
}

proof fn lemma_last_dot_skip(name: Seq<char>, k: int)
    requires
        0 <= k <= name.len(),
        forall|j: int| k <= j < name.len() ==> name[j] != '.',
    ensures
        last_dot(name) == last_dot(name.take(k)),
    decreases name.len() - k,
{
    if k < name.len() {
        lemma_last_dot_skip(name.drop_last(), k);
        assert(name.drop_last().take(k) =~= name.take(k));
    } else {
        assert(name.take(k) =~= name);
    }
}

/// The stem of a file name that is a single path component.
pub fn file_stem(name: &str) -> (s: String)
    ensures
        s@ == stem(name@),
{
    let chars = chars_of(name);
    let n = chars.len();
    if n == 1 && chars[0] == '.' {
        assert(chars@ =~= seq!['.']);
        return String::new();
    }
    if n == 2 && chars[0] == '.' && chars[1] == '.' {
        assert(chars@ =~= seq!['.', '.']);
        return String::new();
    }
    assert(chars@ != seq!['.']) by {
        if chars@ == seq!['.'] {
            assert(seq!['.'].len() == 1);
            assert(seq!['.'][0] == '.');
        }
    }
    assert(chars@ != seq!['.', '.']) by {
        if chars@ == seq!['.', '.'] {
            assert(seq!['.', '.'].len() == 2);
            assert(seq!['.', '.'][0] == '.');
            assert(seq!['.', '.'][1] == '.');
        }
    }
    let mut k: usize = n;
    while k > 0 && chars[k - 1] != '.'
        invariant
            k <= n,
            n == chars.len(),
            forall|j: int| k <= j < n ==> chars@[j] != '.',
        decreases k,
    {
        k = k - 1;
    }
    proof {
        lemma_last_dot_skip(chars@, k as int);
        if k > 0 {
            assert(chars@.take(k as int).last() == '.');
        }
    }
    if k > 1 {
        string_of_range(&chars, 0, k - 1)
    } else {
        let s = string_of_range(&chars, 0, n);
        assert(chars@.subrange(0, n as int) =~= chars@);
        s
    }
}

/// Name of the folder that holds the part files of the file named `file_name`.
pub open spec fn parts_folder(file_name: Seq<char>) -> Seq<char> {
    stem(file_name) + ".downloading"@
}

/// Name of the folder that holds the part files of the file named `file_name`.
pub fn parts_folder_name(file_name: &str) -> (folder: String)
    ensures
        folder@ == parts_folder(file_name@),
{
    let mut folder = file_stem(file_name);
    folder.append(".downloading");
    folder
}

/// Name of the part file of the range numbered `index`.
pub open spec fn part_file(index: usize) -> Seq<char> {
    "part"@ + decimal(index as nat) + ".mp4"@
}

/// Name of the part file of the range numbered `index`.
pub fn part_file_name(index: usize) -> (name: String)
    ensures
        name@ == part_file(index),
{
    let mut name = "part".to_string();
    push_decimal(&mut name, index as u128);
    name.append(".mp4");
    name
}

/// An episode number in at least two digits.
pub open spec fn two_digits(number: u32) -> Seq<char> {
    if number < 10 {
        seq!['0'] + decimal(number as nat)
    } else {
        decimal(number as nat)
    }
}

/// Name under which front ends store the episode `number`.
pub open spec fn episode_file(number: u32) -> Seq<char> {
    "Ep"@ + two_digits(number) + ".mp4"@
}

/// Name under which front ends store the episode `number`: `Ep`, the number in at least two
/// digits, and `.mp4`.
pub fn episode_file_name(number: u32) -> (name: String)
    ensures
        name@ == episode_file(number),
{
    let mut name = "Ep".to_string();
    if number < 10 {
        name.push('0');
    }
    push_decimal(&mut name, number as u128);
    name.append(".mp4");
    assert(name@ =~= episode_file(number));
    name
}

} // verus!
