use vstd::prelude::*;

use crate::text::{chars_of, starts_with_chars};

verus! {

/// The characters that a shell treats specially within a word: quoting and
/// expansion characters, and the blank characters space and tab that end a word.
/// A line break is left alone: after a backslash the shell drops it, so
/// escaping it would lose it.
pub open spec fn is_shell_special(c: char) -> bool {
    c == '\\' || c == '$' || c == ' ' || c == '`' || c == '"' || c == '<' || c == '>'
        || c == '|' || c == ';' || c == '&' || c == '(' || c == ')' || c == '*' || c == '?'
        || c == '[' || c == ']' || c == '!' || c == '{' || c == '}' || c == '~' || c == '#'
        || c == '\'' || c == '\t'
}

/// `s` with a backslash put before every shell-special character.
pub open spec fn escaped(s: Seq<char>) -> Seq<char>
    decreases s.len(),
{
    if s.len() == 0 {
        Seq::empty()
    } else {
        let head = if is_shell_special(s[0]) { seq!['\\', s[0]] } else { seq![s[0]] };
        head + escaped(s.drop_first())
    }
}

/// Whether a character is one of the shell-special ones.
pub fn is_special(c: char) -> (r: bool)
    ensures
        r == is_shell_special(c),
{
    c == '\\' || c == '$' || c == ' ' || c == '`' || c == '"' || c == '<' || c == '>'
        || c == '|' || c == ';' || c == '&' || c == '(' || c == ')' || c == '*' || c == '?'
        || c == '[' || c == ']' || c == '!' || c == '{' || c == '}' || c == '~' || c == '#'
        || c == '\'' || c == '\t'
}

/// Calls `String::push`. The contract claims what std documents of it: the
/// string afterwards is the one before with `c` appended at the end.
#[verifier::external_body]
pub(crate) fn push_char(s: &mut String, c: char)
    ensures
        final(s)@ == old(s)@.push(c),
{
    s.push(c);
}

proof fn lemma_escaped_push(s: Seq<char>, c: char)
    ensures
        escaped(s.push(c)) == escaped(s) + (if is_shell_special(c) { seq!['\\', c] } else { seq![c] }),
    decreases s.len(),
{
    if s.len() == 0 {
        assert(s.push(c).drop_first() =~= Seq::<char>::empty());
        assert(escaped(Seq::<char>::empty()) =~= Seq::<char>::empty());
    } else {
        assert(s.push(c).drop_first() =~= s.drop_first().push(c));
        lemma_escaped_push(s.drop_first(), c);
    }
}

/// Escapes every shell-special character of `s` with a backslash, so that the
/// shell reads the result back as the literal text of `s`.
pub fn shell_escape_chars(s: &str) -> (r: String)
    ensures
        r@ == escaped(s@),
{
    broadcast use vstd::string::group_string_axioms;
    let mut result = String::new();
    let ghost mut seen: Seq<char> = Seq::empty();
    for c in it: s.chars()
        invariant
            it.seq() == s@,
            seen == s@.take(it.index() as int),
            result@ == escaped(seen),
    {
        proof {
            lemma_escaped_push(seen, c);
            assert(s@.take(it.index() + 1) =~= seen.push(c));
            seen = seen.push(c);
        }
        if is_special(c) {
            push_char(&mut result, '\\');
        }
        push_char(&mut result, c);
    }
    proof {
        assert(s@.take(s@.len() as int) =~= s@);
    }
    result
}


/// `path` written relative to the home directory `home`: the home directory
/// itself becomes `~`, a path inside it `~` followed by the rest of the path
/// from the separator on, and any other path stays as it is.
pub open spec fn relative_to_home(path: Seq<char>, home: Seq<char>) -> Seq<char> {
    if path == home {
        seq!['~']
    } else if path.len() > home.len() && path.take(home.len() as int) == home && path[home.len() as int] == '/' {
        seq!['~'] + path.skip(home.len() as int)
    } else {
        path
    }
}

/// Writes `path` relative to the home directory `home`.
pub fn path_to_relative(path: &str, home: &str) -> (r: String)
    ensures
        r@ == relative_to_home(path@, home@),
{
    let p = chars_of(path);
    let h = chars_of(home);
    let prefix = starts_with_chars(&p, &h);
    if prefix && p.len() == h.len() {
        proof {
            assert(p@ =~= p@.take(h.len() as int));
        }
        let mut r = String::new();
        push_char(&mut r, '~');
        proof {
            assert(r@ =~= seq!['~']);
        }
        r
    } else if prefix && p[h.len()] == '/' {
        let mut r = String::new();
        push_char(&mut r, '~');
        let mut i: usize = h.len();
        proof {
            assert(r@ =~= seq!['~'] + p@.subrange(h.len() as int, i as int));
        }
        while i < p.len()
            invariant
                h.len() <= i <= p.len(),
                r@ == seq!['~'] + p@.subrange(h.len() as int, i as int),
            decreases p.len() - i,
        {
            push_char(&mut r, p[i]);
            proof {
                assert(seq!['~'] + p@.subrange(h.len() as int, i + 1) =~= (seq!['~'] + p@.subrange(
                    h.len() as int,
                    i as int,
                )).push(p@[i as int]));
            }
            i = i + 1;
        }
        proof {
            assert(p@.skip(h.len() as int) =~= p@.subrange(h.len() as int, p.len() as int));
            if p@ == h@ {
                assert(p.len() == h.len());
            }
        }
        r
    } else {
        proof {
            if p@ == h@ {
                assert(p@.take(h.len() as int) =~= h@);
            }
        }
        let mut r = String::new();
        r.append(path);
        proof {
            assert(r@ =~= path@);
        }
        r
    }
}

} // verus!
