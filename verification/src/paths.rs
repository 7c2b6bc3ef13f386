//! Paths as text: how the two tools write them, what a file is called, and where the shim keeps
//! its own.

use crate::text;
use crate::text::{chars_of, same_text, split_text, string_between};
use vstd::prelude::*;
use vstd::string::*;

verus! {

/// A path without the `./` that may stand in front of it, however often. ripgrep writes the path
/// as the caller gave it, ast-grep leaves the `./` out.
pub open spec fn normal(p: Seq<char>) -> Seq<char>
    decreases p.len(),
{
    if p.len() >= 2 && p[0] == '.' && p[1] == '/' {
        normal(p.skip(2))
    } else {
        p
    }
}

/// Where a character last stands in a text; -1 where it does not occur.
pub open spec fn find_last(s: Seq<char>, c: char) -> int
    decreases s.len(),
{
    if s.len() == 0 {
        -1
    } else if s.last() == c {
        s.len() - 1
    } else {
        find_last(s.drop_last(), c)
    }
}

/// The last piece of a path that names something: neither empty nor `.`.
pub open spec fn last_piece(pieces: Seq<Seq<char>>) -> Option<Seq<char>>
    decreases pieces.len(),
{
    if pieces.len() == 0 {
        None
    } else if pieces.last().len() == 0 || pieces.last() == seq!['.'] {
        last_piece(pieces.drop_last())
    } else {
        Some(pieces.last())
    }
}

/// The name of the file that a path leads to. A path that ends in `..`, or holds no name, leads to
/// none.
pub open spec fn file_name(path: Seq<char>) -> Option<Seq<char>> {
    match last_piece(text::split(path, '/')) {
        Some(name) => if name == seq!['.', '.'] {
            None
        } else {
            Some(name)
        },
        None => None,
    }
}

/// What stands behind the last dot of a file's name, unless the name begins with that dot.
pub open spec fn extension(path: Seq<char>) -> Option<Seq<char>> {
    match file_name(path) {
        Some(name) => if find_last(name, '.') > 0 {
            Some(name.skip(find_last(name, '.') + 1))
        } else {
            None
        },
        None => None,
    }
}

/// A path without the `./` in front of it.
pub fn norm_path(p: &str) -> (r: &str)
    ensures
        r@ == normal(p@),
{
    let chars: Vec<char> = chars_of(p);
    let total: usize = chars.len();
    let mut from: usize = 0;
    assert(chars@.skip(0) =~= chars@);
    while total - from >= 2 && chars[from] == '.' && chars[from + 1] == '/'
        invariant
            total == chars@.len(),
            chars@ == p@,
            from <= total,
            normal(p@) == normal(chars@.skip(from as int)),
        decreases total - from,
    {
        let ghost rest = chars@.skip(from as int);
        assert(rest[0] == chars@[from as int]);
        assert(rest[1] == chars@[from + 1]);
        assert(rest.skip(2) =~= chars@.skip(from + 2));
        from += 2;
    }
    proof {
        let rest = chars@.skip(from as int);
        if rest.len() >= 2 {
            assert(rest[0] == chars@[from as int]);
            assert(rest[1] == chars@[from + 1]);
        }
        assert(p@.subrange(from as int, total as int) =~= rest);
    }
    p.substring_char(from, total)
}

/// A normal path does not begin with `./`, and normalising it again changes nothing. A path with
/// `./` put in front of it is the same path.
pub proof fn normal_is_normal(p: Seq<char>)
    ensures
        !text::begins_with(normal(p), seq!['.', '/']),
        normal(normal(p)) == normal(p),
        normal(seq!['.', '/'] + p) == normal(p),
    decreases p.len(),
{
    assert((seq!['.', '/'] + p).skip(2) =~= p);
    if p.len() >= 2 && p[0] == '.' && p[1] == '/' {
        normal_is_normal(p.skip(2));
    } else if text::begins_with(p, seq!['.', '/']) {
        assert(p.take(2)[0] == '.');
        assert(p.take(2)[1] == '/');
    }
}

/// The name of the file that a path leads to, if it leads to one.
pub fn name_of(path: &str) -> (r: Option<String>)
    ensures
        text::text_of(r) == file_name(path@),
{
    let mut pieces: Vec<String> = split_text(path, '/');
    let ghost all = text::split(path@, '/');
    assert(all.take(all.len() as int) =~= all);
    while pieces.len() > 0
        invariant
            all == text::split(path@, '/'),
            pieces@.len() <= all.len(),
            text::texts(pieces@) =~= all.take(pieces@.len() as int),
            last_piece(all) == last_piece(text::texts(pieces@)),
        decreases pieces@.len(),
    {
        let ghost before = text::texts(pieces@);
        match pieces.pop() {
            Some(piece) => {
                proof {
                    assert(before.last() == piece@);
                    assert(text::texts(pieces@) =~= before.drop_last());
                    reveal_strlit("");
                    reveal_strlit(".");
                    reveal_strlit("..");
                    assert("."@ =~= seq!['.']);
                    assert(".."@ =~= seq!['.', '.']);
                    assert(""@ =~= Seq::<char>::empty());
                }
                if !same_text(piece.as_str(), "") && !same_text(piece.as_str(), ".") {
                    assert(piece@.len() != 0) by {
                        if piece@.len() == 0 {
                            assert(piece@ =~= ""@);
                        }
                    }
                    if same_text(piece.as_str(), "..") {
                        return None;
                    }
                    return Some(piece);
                }
                assert(piece@.len() == 0 || piece@ == seq!['.']);
            },
            None => {},
        }
    }
    None
}

/// What stands behind the last dot of a file's name, unless the name begins with that dot.
pub fn extension_of(path: &str) -> (r: Option<String>)
    ensures
        text::text_of(r) == extension(path@),
{
    match name_of(path) {
        Some(name) => {
            let chars: Vec<char> = chars_of(name.as_str());
            let total: usize = chars.len();
            let mut at: usize = total;
            assert(chars@.take(total as int) =~= chars@);
            while at > 0 && chars[at - 1] != '.'
                invariant
                    total == chars@.len(),
                    at <= total,
                    find_last(chars@, '.') == find_last(chars@.take(at as int), '.'),
                decreases at,
            {
                assert(chars@.take(at as int).last() == chars@[at - 1]);
                assert(chars@.take(at as int).drop_last() =~= chars@.take(at - 1));
                at -= 1;
            }
            proof {
                if at > 0 {
                    assert(chars@.take(at as int).last() == chars@[at - 1]);
                }
                assert(find_last(chars@, '.') == at - 1);
            }
            if at > 1 {
                assert(chars@.subrange(at as int, total as int) =~= chars@.skip(at as int));
                Some(string_between(&chars, at, total))
            } else {
                None
            }
        },
        None => None,
    }
}

} // verus!
