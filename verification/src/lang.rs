//! Languages: which one a file is in, and files by language.

use crate::order;
use crate::order::{sort_texts, text_less};
use crate::paths;
use crate::paths::extension_of;
use crate::text;
use crate::text::same_text;
use vstd::prelude::*;

verus! {

/// ast-grep's name of the language of the files with an extension.
pub open spec fn language(ext: Seq<char>) -> Option<Seq<char>> {
    if ext == "ts"@ {
        Some("typescript"@)
    } else if ext == "tsx"@ {
        Some("tsx"@)
    } else if ext == "js"@ || ext == "mjs"@ || ext == "cjs"@ {
        Some("javascript"@)
    } else if ext == "jsx"@ {
        Some("jsx"@)
    } else if ext == "py"@ {
        Some("python"@)
    } else if ext == "rs"@ {
        Some("rust"@)
    } else if ext == "go"@ {
        Some("go"@)
    } else if ext == "rb"@ {
        Some("ruby"@)
    } else if ext == "java"@ {
        Some("java"@)
    } else if ext == "c"@ || ext == "h"@ || ext == "cpp"@ || ext == "cc"@ || ext == "cxx"@ || ext
        == "hpp"@ || ext == "hh"@ {
        Some("c"@)
    } else if ext == "css"@ {
        Some("css"@)
    } else if ext == "html"@ || ext == "htm"@ {
        Some("html"@)
    } else if ext == "swift"@ {
        Some("swift"@)
    } else if ext == "kt"@ {
        Some("kotlin"@)
    } else if ext == "scala"@ {
        Some("scala"@)
    } else if ext == "php"@ {
        Some("php"@)
    } else if ext == "sh"@ || ext == "bash"@ {
        Some("bash"@)
    } else {
        None
    }
}

/// The language that a file is in, by its extension.
pub open spec fn file_language(file: Seq<char>) -> Option<Seq<char>> {
    match paths::extension(file) {
        Some(ext) => language(ext),
        None => None,
    }
}

/// The languages of some files, one after the other. A file in no known language adds none.
pub open spec fn languages(files: Seq<Seq<char>>) -> Seq<Seq<char>>
    decreases files.len(),
{
    if files.len() == 0 {
        Seq::empty()
    } else {
        match file_language(files.last()) {
            Some(lang) => languages(files.drop_last()).push(lang),
            None => languages(files.drop_last()),
        }
    }
}

/// The files among some that are in a language.
pub open spec fn files_in(files: Seq<Seq<char>>, lang: Seq<char>) -> Seq<Seq<char>>
    decreases files.len(),
{
    if files.len() == 0 {
        files
    } else if file_language(files.last()) == Some(lang) {
        files_in(files.drop_last(), lang).push(files.last())
    } else {
        files_in(files.drop_last(), lang)
    }
}

/// Files by language, in the order of the languages' names.
pub open spec fn grouped(files: Seq<Seq<char>>) -> Seq<(Seq<char>, Seq<Seq<char>>)> {
    let langs = order::sorted(languages(files));
    Seq::new(langs.len(), |i: int| (langs[i], files_in(files, langs[i])))
}

/// The languages of some groups.
pub open spec fn keys_of(groups: Seq<(Seq<char>, Seq<Seq<char>>)>) -> Seq<Seq<char>> {
    Seq::new(groups.len(), |i: int| groups[i].0)
}

/// Groups with one entered for a language. It takes the place of the group that the language had.
pub open spec fn entered(
    groups: Seq<(Seq<char>, Seq<Seq<char>>)>,
    lang: Seq<char>,
    files: Seq<Seq<char>>,
) -> Seq<(Seq<char>, Seq<Seq<char>>)> {
    let p = order::place(keys_of(groups), lang);
    if p < groups.len() && groups[p].0 == lang {
        groups.update(p, (lang, files))
    } else {
        groups.insert(p, (lang, files))
    }
}

/// The files of a language.
#[derive(Debug)]
pub struct Group {
    pub lang: String,
    pub files: Vec<String>,
}

impl View for Group {
    type V = (Seq<char>, Seq<Seq<char>>);

    open spec fn view(&self) -> (Seq<char>, Seq<Seq<char>>) {
        (self.lang@, text::texts(self.files@))
    }
}

/// Files by language, in the order of the languages' names.
#[derive(Debug)]
pub struct LangGroups {
    groups: Vec<Group>,
}

impl View for LangGroups {
    type V = Seq<(Seq<char>, Seq<Seq<char>>)>;

    closed spec fn view(&self) -> Seq<(Seq<char>, Seq<Seq<char>>)> {
        Seq::new(self.groups@.len(), |i: int| self.groups@[i]@)
    }
}

/// ast-grep's name of the language of the files with an extension.
pub fn ext_to_lang(ext: &str) -> (r: Option<&'static str>)
    ensures
        (match r {
            Some(l) => Some(l@),
            None => None,
        }) == language(ext@),
{
    if same_text(ext, "ts") {
        Some("typescript")
    } else if same_text(ext, "tsx") {
        Some("tsx")
    } else if same_text(ext, "js") || same_text(ext, "mjs") || same_text(ext, "cjs") {
        Some("javascript")
    } else if same_text(ext, "jsx") {
        Some("jsx")
    } else if same_text(ext, "py") {
        Some("python")
    } else if same_text(ext, "rs") {
        Some("rust")
    } else if same_text(ext, "go") {
        Some("go")
    } else if same_text(ext, "rb") {
        Some("ruby")
    } else if same_text(ext, "java") {
        Some("java")
    } else if same_text(ext, "c") || same_text(ext, "h") || same_text(ext, "cpp") || same_text(
        ext,
        "cc",
    ) || same_text(ext, "cxx") || same_text(ext, "hpp") || same_text(ext, "hh") {
        Some("c")
    } else if same_text(ext, "css") {
        Some("css")
    } else if same_text(ext, "html") || same_text(ext, "htm") {
        Some("html")
    } else if same_text(ext, "swift") {
        Some("swift")
    } else if same_text(ext, "kt") {
        Some("kotlin")
    } else if same_text(ext, "scala") {
        Some("scala")
    } else if same_text(ext, "php") {
        Some("php")
    } else if same_text(ext, "sh") || same_text(ext, "bash") {
        Some("bash")
    } else {
        None
    }
}

/// The language that a file is in, by its extension.
fn lang_of_file(file: &str) -> (r: Option<&'static str>)
    ensures
        (match r {
            Some(l) => Some(l@),
            None => None,
        }) == file_language(file@),
{
    match extension_of(file) {
        Some(ext) => ext_to_lang(ext.as_str()),
        None => None,
    }
}

impl LangGroups {
    /// Whether the groups are in the order of their languages, each language once.
    pub open spec fn in_order(&self) -> bool {
        order::increasing(keys_of(self@))
    }

    /// No groups.
    pub fn new() -> (r: LangGroups)
        ensures
            r.in_order(),
            r@ == Seq::<(Seq<char>, Seq<Seq<char>>)>::empty(),
    {
        let r = LangGroups { groups: Vec::new() };
        assert(r@ =~= Seq::<(Seq<char>, Seq<Seq<char>>)>::empty());
        r
    }

    /// The number of groups.
    pub fn len(&self) -> (r: usize)
        ensures
            r == self@.len(),
    {
        self.groups.len()
    }

    /// Whether there is no group.
    pub fn is_empty(&self) -> (r: bool)
        ensures
            r == (self@.len() == 0),
    {
        self.groups.len() == 0
    }

    /// The group at a place.
    pub fn at(&self, i: usize) -> (r: &Group)
        requires
            i < self@.len(),
        ensures
            r@ == self@[i as int],
    {
        &self.groups[i]
    }

    /// The languages, in order.
    pub fn keys(&self) -> (r: Vec<&str>)
        ensures
            r@.len() == self@.len(),
            forall|i: int| 0 <= i < r@.len() ==> (#[trigger] r@[i])@ == self@[i].0,
    {
        let mut out: Vec<&str> = Vec::new();
        let mut i: usize = 0;
        while i < self.groups.len()
            invariant
                i <= self.groups@.len(),
                out@.len() == i,
                forall|j: int| 0 <= j < i ==> (#[trigger] out@[j])@ == self@[j].0,
            decreases self.groups@.len() - i,
        {
            out.push(self.groups[i].lang.as_str());
            i += 1;
        }
        out
    }

    /// The files of a language, if it has a group.
    pub fn get(&self, lang: &str) -> (r: Option<&Vec<String>>)
        ensures
            match r {
                Some(files) => exists|i: int|
                    0 <= i < self@.len() && #[trigger] self@[i] == (
                        lang@,
                        text::texts(files@),
                    ),
                None => !keys_of(self@).contains(lang@),
            },
    {
        let mut i: usize = 0;
        while i < self.groups.len()
            invariant
                i <= self.groups@.len(),
                forall|j: int| 0 <= j < i ==> (#[trigger] keys_of(self@)[j]) != lang@,
            decreases self.groups@.len() - i,
        {
            if same_text(self.groups[i].lang.as_str(), lang) {
                assert(self@[i as int] == self.groups@[i as int]@);
                return Some(&self.groups[i].files);
            }
            i += 1;
        }
        None
    }

    /// Whether a language has a group.
    pub fn contains_key(&self, lang: &str) -> (r: bool)
        ensures
            r == keys_of(self@).contains(lang@),
    {
        match self.get(lang) {
            Some(_) => {
                proof {
                    let i = choose|i: int|
                        0 <= i < self@.len() && (#[trigger] self@[i]).0 == lang@;
                    assert(keys_of(self@)[i] == lang@);
                }
                true
            },
            None => false,
        }
    }

    /// Enters a group for a language. It takes the place of the group that the language had.
    pub fn insert(&mut self, lang: &str, files: Vec<String>)
        requires
            old(self).in_order(),
        ensures
            final(self).in_order(),
            final(self)@ == entered(old(self)@, lang@, text::texts(files@)),
    {
        let ghost before = self@;
        let ghost keys = keys_of(before);
        let mut p: usize = 0;
        while p < self.groups.len() && text_less(self.groups[p].lang.as_str(), lang)
            invariant
                p <= self.groups@.len(),
                before == self@,
                keys == keys_of(before),
                order::increasing(keys),
                forall|j: int| 0 <= j < p ==> order::less(#[trigger] keys[j], lang@),
            decreases self.groups@.len() - p,
        {
            assert(keys[p as int] == self.groups@[p as int].lang@);
            p += 1;
        }
        proof {
            if p < keys.len() {
                assert(keys[p as int] == self.groups@[p as int].lang@);
            }
            assert forall|j: int| p <= j < keys.len() implies !order::less(
                #[trigger] keys[j],
                lang@,
            ) by {
                if j > p && order::less(keys[j], lang@) {
                    order::less_transitive(keys[p as int], keys[j], lang@);
                }
            }
            order::lemma_place_unique(keys, lang@, p as int);
            order::lemma_placed(keys, lang@);
        }
        let ghost kept = text::texts(files@);
        let group = Group { lang: lang.to_string(), files };
        if p < self.groups.len() && same_text(self.groups[p].lang.as_str(), lang) {
            self.groups.set(p, group);
            assert(self@ =~= before.update(p as int, (lang@, kept)));
            assert(keys_of(self@) =~= keys);
        } else {
            self.groups.insert(p, group);
            assert(self@ =~= before.insert(p as int, (lang@, kept)));
            assert(keys_of(self@) =~= keys.insert(p as int, lang@));
        }
    }
}

/// Files by language. A file whose extension has no language is in no group.
pub fn group_files_by_lang(files: &[String]) -> (r: LangGroups)
    ensures
        r.in_order(),
        r@ == grouped(text::texts(files@)),
{
    let ghost all = text::texts(files@);
    let mut found: Vec<String> = Vec::new();
    let mut i: usize = 0;
    while i < files.len()
        invariant
            all == text::texts(files@),
            i <= files@.len(),
            text::texts(found@) =~= languages(all.take(i as int)),
        decreases files@.len() - i,
    {
        assert(all.take(i + 1).drop_last() =~= all.take(i as int));
        let ghost before = text::texts(found@);
        if let Some(lang) = lang_of_file(files[i].as_str()) {
            found.push(lang.to_string());
            assert(text::texts(found@) =~= before.push(lang@));
        }
        i += 1;
    }
    assert(all.take(i as int) =~= all);
    let langs: Vec<String> = sort_texts(&found);
    proof {
        order::sorted_is_sorted(languages(all));
    }
    let ghost names = order::sorted(languages(all));
    let mut r = LangGroups::new();
    let mut k: usize = 0;
    while k < langs.len()
        invariant
            all == text::texts(files@),
            names == text::texts(langs@),
            names == order::sorted(languages(all)),
            order::increasing(names),
            k <= langs@.len(),
            r@ =~= grouped(all).take(k as int),
        decreases langs@.len() - k,
    {
        let ghost before = r@;
        let group = Group {
            lang: langs[k].clone(),
            files: files_of_lang(files, langs[k].as_str()),
        };
        assert(names[k as int] == group.lang@);
        let ghost entry = group@;
        assert(entry == grouped(all)[k as int]);
        r.groups.push(group);
        assert(r@ =~= before.push(entry));
        k += 1;
    }
    assert(keys_of(r@) =~= names);
    r
}

/// The files among some that are in a language.
fn files_of_lang(files: &[String], lang: &str) -> (r: Vec<String>)
    ensures
        text::texts(r@) == files_in(text::texts(files@), lang@),
{
    let ghost all = text::texts(files@);
    let mut out: Vec<String> = Vec::new();
    let mut i: usize = 0;
    while i < files.len()
        invariant
            all == text::texts(files@),
            i <= files@.len(),
            text::texts(out@) =~= files_in(all.take(i as int), lang@),
        decreases files@.len() - i,
    {
        assert(all.take(i + 1).drop_last() =~= all.take(i as int));
        let ghost before = text::texts(out@);
        let own = match lang_of_file(files[i].as_str()) {
            Some(l) => same_text(l, lang),
            None => false,
        };
        if own {
            out.push(files[i].clone());
            assert(text::texts(out@) =~= before.push(all[i as int]));
        }
        i += 1;
    }
    assert(all.take(i as int) =~= all);
    out
}

/// A file is in the group of its language and in no other; a file in no known language is in none.
/// No group is empty.
pub proof fn groups_part_the_files(files: Seq<Seq<char>>)
    ensures
        forall|i: int|
            0 <= i < grouped(files).len() ==> (#[trigger] grouped(files)[i]).1.len() > 0,
        forall|i: int, f: Seq<char>|
            0 <= i < grouped(files).len() ==> (#[trigger] grouped(files)[i].1.contains(f)
                <==> files.contains(f) && file_language(f) == Some(grouped(files)[i].0)),
        forall|f: Seq<char>|
            files.contains(f) && file_language(f) is Some ==> #[trigger] keys_of(
                grouped(files),
            ).contains(file_language(f)->0),
{
    let langs = order::sorted(languages(files));
    order::sorted_is_sorted(languages(files));
    assert(keys_of(grouped(files)) =~= langs);
    assert forall|i: int, f: Seq<char>| 0 <= i < grouped(files).len() implies (
    #[trigger] grouped(files)[i].1.contains(f) <==> files.contains(f) && file_language(f) == Some(
        grouped(files)[i].0,
    )) by {
        lemma_files_in(files, langs[i], f);
    }
    assert forall|i: int| 0 <= i < grouped(files).len() implies (
    #[trigger] grouped(files)[i]).1.len() > 0 by {
        assert(langs.contains(langs[i]));
        lemma_languages(files, langs[i]);
        let f = choose|f: Seq<char>|
            files.contains(f) && #[trigger] file_language(f) == Some(langs[i]);
        lemma_files_in(files, langs[i], f);
        assert(grouped(files)[i].1.contains(f));
    }
    assert forall|f: Seq<char>|
        files.contains(f) && file_language(f) is Some implies #[trigger] keys_of(
        grouped(files),
    ).contains(file_language(f)->0) by {
        lemma_languages(files, file_language(f)->0);
        assert(langs.contains(file_language(f)->0));
    }
}

proof fn lemma_files_in(files: Seq<Seq<char>>, lang: Seq<char>, f: Seq<char>)
    ensures
        files_in(files, lang).contains(f) <==> files.contains(f) && file_language(f) == Some(lang),
    decreases files.len(),
{
    if files.len() > 0 {
        let shorter = files.drop_last();
        let before = files_in(shorter, lang);
        lemma_files_in(shorter, lang, f);
        text::lemma_contains_last(files, f);
        if file_language(files.last()) == Some(lang) {
            assert(before.push(files.last()).drop_last() =~= before);
            text::lemma_contains_last(before.push(files.last()), f);
        }
    }
}

proof fn lemma_languages(files: Seq<Seq<char>>, lang: Seq<char>)
    ensures
        languages(files).contains(lang) <==> exists|f: Seq<char>|
            files.contains(f) && #[trigger] file_language(f) == Some(lang),
    decreases files.len(),
{
    if files.len() > 0 {
        let shorter = files.drop_last();
        let last = files.last();
        lemma_languages(shorter, lang);
        let before = languages(shorter);
        if languages(files).contains(lang) {
            if before.contains(lang) {
                let f = choose|f: Seq<char>|
                    shorter.contains(f) && #[trigger] file_language(f) == Some(lang);
                text::lemma_contains_last(files, f);
            } else {
                assert(before.push(file_language(last)->0).drop_last() =~= before);
                text::lemma_contains_last(languages(files), lang);
                text::lemma_contains_last(files, last);
                assert(file_language(last) == Some(lang));
            }
        }
        if exists|f: Seq<char>| files.contains(f) && #[trigger] file_language(f) == Some(lang) {
            let f = choose|f: Seq<char>|
                files.contains(f) && #[trigger] file_language(f) == Some(lang);
            text::lemma_contains_last(files, f);
            match file_language(last) {
                Some(l) => {
                    assert(before.push(l).drop_last() =~= before);
                    text::lemma_contains_last(before.push(l), lang);
                },
                None => {},
            }
        }
    }
}

} // verus!
