//! What holds of every path and every language.

use crate::lang;
use crate::order;
use crate::paths;
use crate::text;
use vstd::prelude::*;

verus! {

/// Of a path only the `./` in front of it go, all of them; a path without one stays as it is.
pub proof fn only_leading_dots_go(p: Seq<char>)
    ensures
        !(p.len() >= 2 && p[0] == '.' && p[1] == '/') ==> paths::normal(p) == p,
        paths::normal(seq!['.', '/'] + p) == paths::normal(p),
{
    paths::normal_is_normal(p);
}

/// The pieces of two texts with the separator between them are those of the first and then those of
/// the second.
proof fn lemma_split_between(a: Seq<char>, c: char, b: Seq<char>)
    ensures
        text::split(a + seq![c] + b, c) == text::split(a, c) + text::split(b, c),
    decreases a.len(),
{
    let s = a + seq![c] + b;
    text::lemma_find(a, c);
    text::lemma_split(a, c);
    text::lemma_split(s, c);
    let n = text::find(a, c);
    if n == a.len() {
        assert forall|j: int| 0 <= j < n implies s[j] != c by {
            assert(s[j] == a[j]);
        }
        text::lemma_find_unique(s, c, n);
        assert(s.take(n) =~= a);
        assert(s.skip(n + 1) =~= b);
    } else {
        assert forall|j: int| 0 <= j < n implies s[j] != c by {
            assert(s[j] == a[j]);
        }
        assert(s[n] == a[n]);
        text::lemma_find_unique(s, c, n);
        let rest = a.skip(n + 1);
        lemma_split_between(rest, c, b);
        assert(s.take(n) =~= a.take(n));
        assert(s.skip(n + 1) =~= rest + seq![c] + b);
        assert(seq![a.take(n)] + (text::split(rest, c) + text::split(b, c)) =~= seq![a.take(n)]
            + text::split(rest, c) + text::split(b, c));
    }
}

/// A text without the separator is one piece.
proof fn lemma_one_piece(s: Seq<char>, c: char)
    requires
        !s.contains(c),
    ensures
        text::split(s, c) == seq![s],
{
    text::lemma_find_contains(s, c);
    text::lemma_find(s, c);
    text::lemma_split(s, c);
}

/// A path leads to what stands behind its last slash, whatever the directory is. `..` leads to no
/// file, and a slash or `/.` at the end of a path changes nothing.
pub proof fn files_are_called_by_their_last_piece(dir: Seq<char>, name: Seq<char>)
    requires
        !name.contains('/'),
        name.len() > 0,
        name != seq!['.'],
    ensures
        ({
            let called = if name == seq!['.', '.'] {
                None
            } else {
                Some(name)
            };
            &&& paths::file_name(name) == called
            &&& paths::file_name(dir + seq!['/'] + name) == called
        }),
        paths::file_name(dir + seq!['/']) == paths::file_name(dir),
        paths::file_name(dir + seq!['/', '.']) == paths::file_name(dir),
        paths::file_name(Seq::empty()) is None,
{
    lemma_one_piece(name, '/');
    lemma_split_between(dir, '/', name);
    let before = text::split(dir, '/');
    assert((before + seq![name]).last() == name);
    let none = Seq::<char>::empty();
    lemma_one_piece(none, '/');
    lemma_split_between(dir, '/', none);
    assert(dir + seq!['/'] + none =~= dir + seq!['/']);
    assert((before + seq![none]).last() == none);
    assert((before + seq![none]).drop_last() =~= before);
    let dot = seq!['.'];
    assert(!dot.contains('/')) by {
        if dot.contains('/') {
            let k = choose|k: int| 0 <= k < dot.len() && dot[k] == '/';
            assert(dot[k] == '.');
        }
    }
    lemma_one_piece(dot, '/');
    lemma_split_between(dir, '/', dot);
    assert(dir + seq!['/'] + dot =~= dir + seq!['/', '.']);
    assert((before + seq![dot]).last() == dot);
    assert((before + seq![dot]).drop_last() =~= before);
    assert(seq![none].last() == none);
    assert(seq![none].drop_last() =~= Seq::<Seq<char>>::empty());
    assert(paths::last_piece(Seq::<Seq<char>>::empty()) is None);
    assert(seq![name].last() == name);
}

proof fn lemma_find_last(stem: Seq<char>, ext: Seq<char>)
    requires
        !ext.contains('.'),
    ensures
        paths::find_last(stem + seq!['.'] + ext, '.') == stem.len(),
    decreases ext.len(),
{
    let s = stem + seq!['.'] + ext;
    if ext.len() == 0 {
        assert(s.last() == '.');
    } else {
        assert(ext.contains(ext[ext.len() - 1]));
        assert(s.last() == ext.last());
        let shorter = ext.drop_last();
        assert(!shorter.contains('.')) by {
            if shorter.contains('.') {
                let k = choose|k: int| 0 <= k < shorter.len() && shorter[k] == '.';
                assert(ext[k] == '.');
            }
        }
        assert(s.drop_last() =~= stem + seq!['.'] + shorter);
        lemma_find_last(stem, shorter);
    }
}

proof fn lemma_no_dot(s: Seq<char>)
    requires
        !s.contains('.'),
    ensures
        paths::find_last(s, '.') == -1,
    decreases s.len(),
{
    if s.len() > 0 {
        assert(s.contains(s[s.len() - 1]));
        let shorter = s.drop_last();
        assert(!shorter.contains('.')) by {
            if shorter.contains('.') {
                let k = choose|k: int| 0 <= k < shorter.len() && shorter[k] == '.';
                assert(s[k] == '.');
            }
        }
        lemma_no_dot(shorter);
    }
}

/// The extension of a file is what stands behind the last dot of its name, in whatever directory it
/// is. A dot that begins the name begins no extension, and a name without a dot has none.
pub proof fn extensions_stand_behind_the_last_dot(
    dir: Seq<char>,
    stem: Seq<char>,
    ext: Seq<char>,
)
    requires
        !stem.contains('/'),
        !ext.contains('/'),
        !ext.contains('.'),
        !(stem == seq!['.'] && ext.len() == 0),
    ensures
        ({
            let name = stem + seq!['.'] + ext;
            let has = if stem.len() > 0 {
                Some(ext)
            } else {
                None
            };
            &&& name.len() > 1 ==> paths::extension(name) == has
            &&& name.len() > 1 ==> paths::extension(dir + seq!['/'] + name) == has
            &&& ext.len() > 0 ==> paths::extension(ext) is None && paths::extension(
                dir + seq!['/'] + ext,
            ) is None
        }),
{
    let name = stem + seq!['.'] + ext;
    assert(!name.contains('/')) by {
        if name.contains('/') {
            let k = choose|k: int| 0 <= k < name.len() && name[k] == '/';
            if k < stem.len() {
                assert(stem[k] == '/');
            } else if k > stem.len() {
                assert(ext[k - stem.len() - 1] == '/');
            }
        }
    }
    assert(name[stem.len() as int] == '.');
    lemma_find_last(stem, ext);
    assert(name.skip(stem.len() as int + 1) =~= ext);
    if name.len() > 1 {
        assert(name != seq!['.']);
        assert(name != seq!['.', '.']) by {
            if name == seq!['.', '.'] {
                assert(name.len() == 2);
                if stem.len() == 1 {
                    assert(stem[0] == name[0]);
                    assert(stem =~= seq!['.']);
                } else {
                    assert(ext[0] == name[1]);
                    assert(ext.contains(ext[0]));
                }
            }
        }
        files_are_called_by_their_last_piece(dir, name);
    }
    if ext.len() > 0 {
        assert(ext != seq!['.'] && ext != seq!['.', '.']) by {
            assert(ext.contains(ext[0]));
        }
        files_are_called_by_their_last_piece(dir, ext);
        lemma_no_dot(ext);
    }
}

/// The language of a file, by its extension, in whatever directory it is and whatever stands before
/// the last dot of its name. A file with any other extension is in none.
pub proof fn languages_by_extension(dir: Seq<char>, stem: Seq<char>, ext: Seq<char>)
    requires
        stem.len() > 0,
        !stem.contains('/'),
        !ext.contains('/'),
        !ext.contains('.'),
        ext.len() > 0,
    ensures
        ({
            let file = dir + seq!['/'] + stem + seq!['.'] + ext;
            let lang = lang::file_language(file);
            &&& lang == lang::file_language(stem + seq!['.'] + ext)
            &&& ext == "ts"@ ==> lang == Some("typescript"@)
            &&& ext == "tsx"@ ==> lang == Some("tsx"@)
            &&& ext == "js"@ || ext == "mjs"@ || ext == "cjs"@ ==> lang == Some("javascript"@)
            &&& ext == "jsx"@ ==> lang == Some("jsx"@)
            &&& ext == "py"@ ==> lang == Some("python"@)
            &&& ext == "rs"@ ==> lang == Some("rust"@)
            &&& ext == "go"@ ==> lang == Some("go"@)
            &&& ext == "rb"@ ==> lang == Some("ruby"@)
            &&& ext == "java"@ ==> lang == Some("java"@)
            &&& ext == "c"@ || ext == "h"@ || ext == "cpp"@ || ext == "cc"@ || ext == "cxx"@ || ext
                == "hpp"@ || ext == "hh"@ ==> lang == Some("c"@)
            &&& ext == "css"@ ==> lang == Some("css"@)
            &&& ext == "html"@ || ext == "htm"@ ==> lang == Some("html"@)
            &&& ext == "swift"@ ==> lang == Some("swift"@)
            &&& ext == "kt"@ ==> lang == Some("kotlin"@)
            &&& ext == "scala"@ ==> lang == Some("scala"@)
            &&& ext == "php"@ ==> lang == Some("php"@)
            &&& ext == "sh"@ || ext == "bash"@ ==> lang == Some("bash"@)
            &&& lang is Some ==> {
                ||| ext == "ts"@ || ext == "tsx"@ || ext == "js"@ || ext == "mjs"@ || ext == "cjs"@
                ||| ext == "jsx"@ || ext == "py"@ || ext == "rs"@ || ext == "go"@ || ext == "rb"@
                ||| ext == "java"@ || ext == "c"@ || ext == "h"@ || ext == "cpp"@ || ext == "cc"@
                ||| ext == "cxx"@ || ext == "hpp"@ || ext == "hh"@ || ext == "css"@
                ||| ext == "html"@ || ext == "htm"@ || ext == "swift"@ || ext == "kt"@
                ||| ext == "scala"@ || ext == "php"@ || ext == "sh"@ || ext == "bash"@
            }
        }),
{
    let file = dir + seq!['/'] + stem + seq!['.'] + ext;
    assert(file =~= dir + seq!['/'] + (stem + seq!['.'] + ext));
    extensions_stand_behind_the_last_dot(dir, stem, ext);
    reveal_strlit("ts");
    reveal_strlit("tsx");
    reveal_strlit("js");
    reveal_strlit("mjs");
    reveal_strlit("cjs");
    reveal_strlit("jsx");
    reveal_strlit("py");
    reveal_strlit("rs");
    reveal_strlit("go");
    reveal_strlit("rb");
    reveal_strlit("java");
    reveal_strlit("c");
    reveal_strlit("h");
    reveal_strlit("cpp");
    reveal_strlit("cc");
    reveal_strlit("cxx");
    reveal_strlit("hpp");
    reveal_strlit("hh");
    reveal_strlit("css");
    reveal_strlit("html");
    reveal_strlit("htm");
    reveal_strlit("swift");
    reveal_strlit("kt");
    reveal_strlit("scala");
    reveal_strlit("php");
    reveal_strlit("sh");
    reveal_strlit("bash");
    assert("ts"@.len() == 2 && "ts"@[0] == 't' && "ts"@[1] == 's');
    assert("tsx"@.len() == 3 && "tsx"@[0] == 't' && "tsx"@[1] == 's');
    assert("js"@.len() == 2 && "js"@[0] == 'j' && "js"@[1] == 's');
    assert("mjs"@.len() == 3 && "mjs"@[0] == 'm' && "mjs"@[1] == 'j');
    assert("cjs"@.len() == 3 && "cjs"@[0] == 'c' && "cjs"@[1] == 'j');
    assert("jsx"@.len() == 3 && "jsx"@[0] == 'j' && "jsx"@[1] == 's');
    assert("py"@.len() == 2 && "py"@[0] == 'p' && "py"@[1] == 'y');
    assert("rs"@.len() == 2 && "rs"@[0] == 'r' && "rs"@[1] == 's');
    assert("go"@.len() == 2 && "go"@[0] == 'g' && "go"@[1] == 'o');
    assert("rb"@.len() == 2 && "rb"@[0] == 'r' && "rb"@[1] == 'b');
    assert("java"@.len() == 4 && "java"@[0] == 'j' && "java"@[1] == 'a');
    assert("c"@.len() == 1 && "c"@[0] == 'c');
    assert("h"@.len() == 1 && "h"@[0] == 'h');
    assert("cpp"@.len() == 3 && "cpp"@[0] == 'c' && "cpp"@[1] == 'p');
    assert("cc"@.len() == 2 && "cc"@[0] == 'c' && "cc"@[1] == 'c');
    assert("cxx"@.len() == 3 && "cxx"@[0] == 'c' && "cxx"@[1] == 'x');
    assert("hpp"@.len() == 3 && "hpp"@[0] == 'h' && "hpp"@[1] == 'p');
    assert("hh"@.len() == 2 && "hh"@[0] == 'h' && "hh"@[1] == 'h');
    assert("css"@.len() == 3 && "css"@[0] == 'c' && "css"@[1] == 's');
    assert("html"@.len() == 4 && "html"@[0] == 'h' && "html"@[1] == 't');
    assert("htm"@.len() == 3 && "htm"@[0] == 'h' && "htm"@[1] == 't');
    assert("swift"@.len() == 5 && "swift"@[0] == 's' && "swift"@[1] == 'w');
    assert("kt"@.len() == 2 && "kt"@[0] == 'k' && "kt"@[1] == 't');
    assert("scala"@.len() == 5 && "scala"@[0] == 's' && "scala"@[1] == 'c');
    assert("php"@.len() == 3 && "php"@[0] == 'p' && "php"@[1] == 'h');
    assert("sh"@.len() == 2 && "sh"@[0] == 's' && "sh"@[1] == 'h');
    assert("bash"@.len() == 4 && "bash"@[0] == 'b' && "bash"@[1] == 'a');
}

/// What one more file adds to the languages and to the files of a language.
pub proof fn one_more_file(files: Seq<Seq<char>>, f: Seq<char>, name: Seq<char>)
    ensures
        lang::files_in(files.push(f), name) == if lang::file_language(f) == Some(name) {
            lang::files_in(files, name).push(f)
        } else {
            lang::files_in(files, name)
        },
        lang::files_in(Seq::empty(), name) == Seq::<Seq<char>>::empty(),
        lang::languages(files.push(f)) == if lang::file_language(f) is Some {
            lang::languages(files).push(lang::file_language(f)->0)
        } else {
            lang::languages(files)
        },
        lang::languages(Seq::empty()) == Seq::<Seq<char>>::empty(),
{
    assert(files.push(f).drop_last() =~= files);
}

/// Files by language: the languages come in order and each of them once, every language of a file is
/// among them, and each has its files in the order in which they were given.
pub proof fn groups_are_in_order(files: Seq<Seq<char>>)
    ensures
        ({
            let groups = lang::grouped(files);
            &&& forall|i: int, j: int|
                0 <= i < j < groups.len() ==> order::less(
                    (#[trigger] groups[i]).0,
                    (#[trigger] groups[j]).0,
                )
            &&& forall|i: int|
                0 <= i < groups.len() ==> (#[trigger] groups[i]).1 == lang::files_in(
                    files,
                    groups[i].0,
                ) && groups[i].1.len() > 0
            &&& forall|f: Seq<char>|
                files.contains(f) && #[trigger] lang::file_language(f) is Some ==> exists|i: int|
                    0 <= i < groups.len() && (#[trigger] groups[i]).0 == lang::file_language(f)->0
        }),
{
    let groups = lang::grouped(files);
    let langs = order::sorted(lang::languages(files));
    order::sorted_is_sorted(lang::languages(files));
    lang::groups_part_the_files(files);
    assert forall|i: int, j: int| 0 <= i < j < groups.len() implies order::less(
        (#[trigger] groups[i]).0,
        (#[trigger] groups[j]).0,
    ) by {
        assert(order::less(langs[i], langs[j]));
    }
    assert forall|f: Seq<char>|
        files.contains(f) && #[trigger] lang::file_language(f) is Some implies exists|i: int|
        0 <= i < groups.len() && (#[trigger] groups[i]).0 == lang::file_language(f)->0 by {
        let keys = lang::keys_of(groups);
        assert(keys.contains(lang::file_language(f)->0));
        let i = choose|i: int| 0 <= i < keys.len() && keys[i] == lang::file_language(f)->0;
        assert(groups[i].0 == lang::file_language(f)->0);
    }
}

/// Entering a group for a language gives that language these files, leaves the groups of the others
/// as they are, and adds no other.
pub proof fn entering_a_group_changes_one(
    groups: Seq<(Seq<char>, Seq<Seq<char>>)>,
    name: Seq<char>,
    files: Seq<Seq<char>>,
    g: (Seq<char>, Seq<Seq<char>>),
)
    requires
        order::increasing(lang::keys_of(groups)),
    ensures
        lang::entered(groups, name, files).contains(g) <==> g == (name, files) || (g.0 != name
            && groups.contains(g)),
{
    let keys = lang::keys_of(groups);
    let p = order::place(keys, name);
    let after = lang::entered(groups, name, files);
    order::lemma_place(keys, name);
    order::lemma_held(keys, name);
    if after.contains(g) {
        let k = choose|k: int| 0 <= k < after.len() && after[k] == g;
        if p < groups.len() && groups[p].0 == name {
            assert(keys[p] == name);
            if k != p {
                assert(groups[k] == g);
                assert(keys[k] == g.0);
            }
        } else {
            if k < p {
                assert(groups[k] == g);
                assert(keys[k] == g.0);
            } else if k > p {
                assert(groups[k - 1] == g);
                assert(keys[k - 1] == g.0);
            }
            if g.0 == name && k != p {
                assert(keys.contains(name));
                assert(keys[p] == name);
            }
        }
    }
    if g == (name, files) {
        assert(after[p] == g);
    }
    if g.0 != name && groups.contains(g) {
        let k = choose|k: int| 0 <= k < groups.len() && groups[k] == g;
        if p < groups.len() && groups[p].0 == name {
            assert(after[k] == g);
        } else if k < p {
            assert(after[k] == g);
        } else {
            assert(after[k + 1] == g);
        }
    }
}

} // verus!
