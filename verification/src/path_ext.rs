use vstd::prelude::*;

use crate::shell_string::push_char;
use crate::text::chars_of;

verus! {

/// The position of the last `/` in `p`, or -1 where there is none.
pub open spec fn last_slash(p: Seq<char>) -> int
    decreases p.len(),
{
    if p.len() == 0 {
        -1
    } else if p.last() == '/' {
        p.len() - 1
    } else {
        last_slash(p.drop_last())
    }
}

/// The last `/` lies inside the path, or there is none.
pub proof fn lemma_last_slash_bounds(p: Seq<char>)
    ensures
        -1 <= last_slash(p) < p.len(),
    decreases p.len(),
{
    if p.len() > 0 && p.last() != '/' {
        lemma_last_slash_bounds(p.drop_last());
    }
}

/// The last component of the path `p` once it is split at `/` and the empty
/// and `.` pieces are dropped; `None` where nothing is left.
pub open spec fn last_component(p: Seq<char>) -> Option<Seq<char>>
    decreases p.len(),
{
    if p.len() == 0 {
        None
    } else if p.last() == '/' {
        last_component(p.drop_last())
    } else {
        let k = last_slash(p);
        let piece = p.skip(k + 1);
        if piece == seq!['.'] {
            proof {
                lemma_last_slash_bounds(p);
                assert(piece.len() == 1);
                assert(p.take(k + 1).len() < p.len());
            }
            last_component(p.take(k + 1))
        } else {
            Some(piece)
        }
    }
}

/// The file name of the path `p`, as `std::path::Path::file_name` documents it
/// on Unix: the last component, and `None` where there is none or it is `..`.
pub open spec fn path_file_name(p: Seq<char>) -> Option<Seq<char>> {
    match last_component(p) {
        Some(c) => if c == seq!['.', '.'] {
            None
        } else {
            Some(c)
        },
        None => None,
    }
}

/// Calls `std::path::Path::file_name` on `p`. The contract claims what std
/// documents of it on Unix (`path_file_name`): the path's components are the
/// pieces between `/`, without the empty and `.` ones, and the file name is the
/// last of them unless there is none or it is `..`. The file name of a path
/// given as text is itself valid text, so the conversion back loses nothing.
#[verifier::external_body]
fn file_name(p: &str) -> (r: Option<String>)
    ensures
        match r {
            Some(s) => path_file_name(p@) == Some(s@),
            None => path_file_name(p@) is None,
        },
{
    match std::path::Path::new(p).file_name() {
        Some(f) => Some(f.to_string_lossy().into_owned()),
        None => None,
    }
}

/// The position of the last `.` in `n`, or -1 where there is none.
pub open spec fn last_dot(n: Seq<char>) -> int
    decreases n.len(),
{
    if n.len() == 0 {
        -1
    } else if n.last() == '.' {
        n.len() - 1
    } else {
        last_dot(n.drop_last())
    }
}

/// The extension of a file name, as `Path::extension` documents it, the
/// absent extension written as the empty text: nothing where there is no
/// file name, no `.` in it, or only a leading `.`; otherwise what follows
/// the last `.`.
pub open spec fn extension_of(name: Option<Seq<char>>) -> Seq<char> {
    match name {
        None => Seq::empty(),
        Some(n) => if last_dot(n) <= 0 {
            Seq::empty()
        } else {
            n.skip(last_dot(n) + 1)
        },
    }
}

/// One past the position of the last `.` in `n`, or 0 where there is none.
fn after_last_dot(n: &Vec<char>) -> (i: usize)
    ensures
        i as int == last_dot(n@) + 1,
        i <= n.len(),
{
    let mut i: usize = n.len();
    proof {
        assert(n@.take(n.len() as int) =~= n@);
    }
    while i > 0 && n[i - 1] != '.'
        invariant
            i <= n.len(),
            last_dot(n@) == last_dot(n@.take(i as int)),
        decreases i,
    {
        proof {
            assert(n@.take(i as int).drop_last() =~= n@.take(i - 1));
        }
        i = i - 1;
    }
    proof {
        if i > 0 {
            assert(n@.take(i as int).last() == '.');
        } else {
            assert(n@.take(0) =~= Seq::<char>::empty());
        }
    }
    i
}

/// The characters `n[from..to]` as a string.
fn chars_between(n: &Vec<char>, from: usize, to: usize) -> (r: String)
    requires
        from <= to <= n.len(),
    ensures
        r@ == n@.subrange(from as int, to as int),
{
    let mut out = String::new();
    let mut j: usize = from;
    proof {
        assert(out@ =~= n@.subrange(from as int, from as int));
    }
    while j < to
        invariant
            from <= j <= to,
            to <= n.len(),
            out@ == n@.subrange(from as int, j as int),
        decreases to - j,
    {
        push_char(&mut out, n[j]);
        proof {
            assert(n@.subrange(from as int, j + 1) =~= n@.subrange(from as int, j as int).push(n@[j as int]));
        }
        j = j + 1;
    }
    out
}

/// The extension of the path `p`, empty where it has none.
pub fn extension(p: &str) -> (r: String)
    ensures
        r@ == extension_of(path_file_name(p@)),
{
    match file_name(p) {
        None => String::new(),
        Some(name) => {
            let n = chars_of(name.as_str());
            let i = after_last_dot(&n);
            if i > 1 {
                let out = chars_between(&n, i, n.len());
                proof {
                    assert(n@.skip(i as int) =~= n@.subrange(i as int, n.len() as int));
                }
                out
            } else {
                String::new()
            }
        },
    }
}

/// The stem of a file name, as `Path::file_stem` documents it: the whole name
/// where it has no `.` or only a leading one, otherwise what comes before the
/// last `.`.
pub open spec fn stem_of(name: Option<Seq<char>>) -> Option<Seq<char>> {
    match name {
        None => None,
        Some(n) => if last_dot(n) <= 0 {
            Some(n)
        } else {
            Some(n.take(last_dot(n)))
        },
    }
}

/// The stem of the path `p`: its file name without the extension.
pub fn file_stem(p: &str) -> (r: Option<String>)
    ensures
        match r {
            Some(s) => stem_of(path_file_name(p@)) == Some(s@),
            None => stem_of(path_file_name(p@)) is None,
        },
{
    match file_name(p) {
        None => None,
        Some(name) => {
            let n = chars_of(name.as_str());
            let i = after_last_dot(&n);
            if i > 1 {
                let out = chars_between(&n, 0, i - 1);
                proof {
                    assert(n@.take(i - 1) =~= n@.subrange(0, i - 1));
                }
                Some(out)
            } else {
                Some(name)
            }
        },
    }
}

/// Whether the path `p` names a `.lua` file.
pub fn is_lua_file(p: &str) -> (r: bool)
    ensures
        r == (extension_of(path_file_name(p@)) == "lua"@),
{
    let ext = extension(p);
    ext == "lua".to_string()
}

} // verus!
