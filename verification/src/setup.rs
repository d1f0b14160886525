use vstd::prelude::*;

use crate::shell_string::{escaped, path_to_relative, push_char, relative_to_home, shell_escape_chars};
use crate::text::{chars_of, contains_seq, contains_str};

verus! {

/// How a path is written for the shell: special characters escaped, then the
/// home directory written as `~`.
pub open spec fn shell_path(path: Seq<char>, home: Seq<char>) -> Seq<char> {
    relative_to_home(escaped(path), home)
}

/// The rc file does not yet mention the shortcuts file as written for the shell.
pub open spec fn needs_source_line(rc_contents: Seq<char>, path: Seq<char>, home: Seq<char>) -> bool {
    !contains_seq(rc_contents, shell_path(path, home))
}

/// The line that makes the shell rc file source the shortcuts file.
pub open spec fn source_line(path: Seq<char>, home: Seq<char>) -> Seq<char> {
    ". "@ + shell_path(path, home) + " # Generated by carapace-shortcutter\n"@
}

/// Writes a path for the shell: special characters escaped, the home
/// directory written as `~`.
pub fn shell_path_text(path: &str, home: &str) -> (r: String)
    ensures
        r@ == shell_path(path@, home@),
{
    let escaped_path = shell_escape_chars(path);
    path_to_relative(escaped_path.as_str(), home)
}

/// Whether the rc file still has to be told to source the shortcuts file:
/// it does not mention the shortcuts file as written for the shell.
pub fn rc_needs_source_line(rc_contents: &str, shortcuts_path: &str, home: &str) -> (r: bool)
    ensures
        r == needs_source_line(rc_contents@, shortcuts_path@, home@),
{
    let target = shell_path_text(shortcuts_path, home);
    !contains_str(rc_contents, target.as_str())
}

/// The line appended to the rc file so that it sources the shortcuts file
/// (given by its canonical path).
pub fn rc_source_line(shortcuts_path: &str, home: &str) -> (r: String)
    ensures
        r@ == source_line(shortcuts_path@, home@),
{
    let target = shell_path_text(shortcuts_path, home);
    let mut line = String::new();
    line.append(". ");
    line.append(target.as_str());
    line.append(" # Generated by carapace-shortcutter\n");
    line
}

/// The script file of a moniker.
pub fn moniker_file_name(moniker: &str) -> (r: String)
    ensures
        r@ == moniker@ + ".lua"@,
{
    let mut name = String::new();
    name.append(moniker);
    name.append(".lua");
    name
}

/// What the value a moniker script returns means: nothing or zero is
/// success, any other number is the failure status.
pub fn moniker_status(status: Option<i32>) -> (r: Result<(), i32>)
    ensures
        match status {
            Some(s) if s != 0 => r == Err::<(), i32>(s),
            _ => r == Ok::<(), i32>(()),
        },
{
    match status {
        Some(s) if s != 0 => Err(s),
        _ => Ok(()),
    }
}


/// The rc file as setup leaves it: the source line appended where it was needed.
pub open spec fn rc_after_setup(rc_contents: Seq<char>, path: Seq<char>, home: Seq<char>) -> Seq<char> {
    if needs_source_line(rc_contents, path, home) {
        rc_contents + source_line(path, home)
    } else {
        rc_contents
    }
}

/// The characters that `char::is_whitespace` accepts: those with the Unicode
/// White_Space property.
pub open spec fn is_white_space(c: char) -> bool {
    let u = c as u32;
    (9 <= u <= 13) || u == 32 || u == 0x85 || u == 0xA0 || u == 0x1680 || (0x2000 <= u <= 0x200A)
        || u == 0x2028 || u == 0x2029 || u == 0x202F || u == 0x205F || u == 0x3000
}

/// Whether a character is white space.
pub fn white_space(c: char) -> (r: bool)
    ensures
        r == is_white_space(c),
{
    let u = c as u32;
    (9 <= u && u <= 13) || u == 32 || u == 0x85 || u == 0xA0 || u == 0x1680 || (0x2000 <= u && u
        <= 0x200A) || u == 0x2028 || u == 0x2029 || u == 0x202F || u == 0x205F || u == 0x3000
}

/// `s` without its leading white space.
pub open spec fn trim_start(s: Seq<char>) -> Seq<char>
    decreases s.len(),
{
    if s.len() > 0 && is_white_space(s[0]) {
        trim_start(s.drop_first())
    } else {
        s
    }
}

/// `s` without its trailing white space.
pub open spec fn trim_end(s: Seq<char>) -> Seq<char>
    decreases s.len(),
{
    if s.len() > 0 && is_white_space(s.last()) {
        trim_end(s.drop_last())
    } else {
        s
    }
}

/// `s` without leading and trailing white space, as `str::trim` gives it.
pub open spec fn trimmed(s: Seq<char>) -> Seq<char> {
    trim_end(trim_start(s))
}

/// `s` without leading and trailing white space.
pub fn trim_white_space(s: &str) -> (r: String)
    ensures
        r@ == trimmed(s@),
{
    let v = chars_of(s);
    let mut i: usize = 0;
    proof {
        assert(v@.skip(0) =~= v@);
    }
    while i < v.len() && white_space(v[i])
        invariant
            i <= v.len(),
            trim_start(v@) == trim_start(v@.skip(i as int)),
        decreases v.len() - i,
    {
        proof {
            assert(v@.skip(i as int).drop_first() =~= v@.skip(i + 1));
        }
        i = i + 1;
    }
    proof {
        if i < v.len() {
            assert(v@.skip(i as int)[0] == v@[i as int]);
        }
    }
    let ghost t = v@.skip(i as int);
    assert(trim_start(v@) == t);
    let mut j: usize = v.len();
    proof {
        assert(v@.subrange(i as int, j as int) =~= t);
    }
    while j > i && white_space(v[j - 1])
        invariant
            i <= j <= v.len(),
            trim_start(v@) == t,
            t == v@.skip(i as int),
            trim_end(t) == trim_end(v@.subrange(i as int, j as int)),
        decreases j,
    {
        proof {
            assert(v@.subrange(i as int, j as int).drop_last() =~= v@.subrange(i as int, j - 1));
        }
        j = j - 1;
    }
    proof {
        if j > i {
            assert(v@.subrange(i as int, j as int).last() == v@[j - 1]);
        }
    }
    let mut r = String::new();
    let mut k: usize = i;
    proof {
        assert(r@ =~= v@.subrange(i as int, i as int));
    }
    while k < j
        invariant
            i <= k <= j,
            j <= v.len(),
            r@ == v@.subrange(i as int, k as int),
        decreases j - k,
    {
        push_char(&mut r, v[k]);
        proof {
            assert(v@.subrange(i as int, k + 1) =~= v@.subrange(i as int, k as int).push(v@[k as int]));
        }
        k = k + 1;
    }
    r
}

/// What the setup prompt does next.
#[derive(Debug, PartialEq, Eq)]
pub enum PromptStep {
    /// Take this rc file, relative to the home directory.
    UseRcFile(String),
    /// Look for the rc file of the current shell.
    DetectRcFile,
    /// Ask for the rc file again.
    AskAgain,
}

/// The step after a line is read at the setup prompt: a blank line asks for
/// the rc file of the current shell to be found; otherwise the line, trimmed,
/// names the rc file.
pub fn prompt_after_line(input: &str) -> (r: PromptStep)
    ensures
        trimmed(input@).len() == 0 ==> r == PromptStep::DetectRcFile,
        trimmed(input@).len() > 0 ==> (r matches PromptStep::UseRcFile(t) && t@ == trimmed(input@)),
{
    let t = trim_white_space(input);
    if t.unicode_len() == 0 {
        PromptStep::DetectRcFile
    } else {
        PromptStep::UseRcFile(t)
    }
}

/// The step after the rc file of the current shell was looked for: where one
/// was found it is taken, trimmed; where none was, the prompt asks again.
pub fn prompt_after_detection(found: Option<String>) -> (r: PromptStep)
    ensures
        match found {
            Some(f) => r matches PromptStep::UseRcFile(t) && t@ == trimmed(f@),
            None => r == PromptStep::AskAgain,
        },
{
    match found {
        Some(f) => PromptStep::UseRcFile(trim_white_space(f.as_str())),
        None => PromptStep::AskAgain,
    }
}

} // verus!
