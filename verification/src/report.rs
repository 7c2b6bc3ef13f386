//! The statistics as a page for the browser.

use crate::text;
use crate::text::replace_all;
use crate::text_laws;
use vstd::prelude::*;

verus! {

/// A text that can stand in a script on a page: no `</` in it ends the script.
pub open spec fn script_safe(data: Seq<char>) -> Seq<char> {
    text::replaced(data, "</"@, "<\\/"@)
}

/// A page: the template with the data and the version in their places.
pub open spec fn page(template: Seq<char>, data: Seq<char>, version: Seq<char>) -> Seq<char> {
    text::replaced(
        text::replaced(template, "__SHIM_DATA__"@, script_safe(data)),
        "__SHIM_VERSION__"@,
        version,
    )
}

/// A text that can stand in a script on a page.
pub fn escape_for_script(data: &str) -> (r: String)
    ensures
        r@ == script_safe(data@),
{
    proof {
        reveal_strlit("</");
        assert("</"@.len() == 2);
    }
    replace_all(data, "</", "<\\/")
}

/// A page: the template with the data and the version in their places.
pub fn fill_template(template: &str, data: &str, version: &str) -> (r: String)
    ensures
        r@ == page(template@, data@, version@),
{
    proof {
        reveal_strlit("__SHIM_DATA__");
        reveal_strlit("__SHIM_VERSION__");
        assert("__SHIM_DATA__"@.len() == 13);
        assert("__SHIM_VERSION__"@.len() == 16);
    }
    let filled: String = replace_all(template, "__SHIM_DATA__", escape_for_script(data).as_str());
    replace_all(filled.as_str(), "__SHIM_VERSION__", version)
}

/// No data ends the script that it stands in.
pub proof fn data_never_ends_the_script(data: Seq<char>)
    ensures
        !text::has_infix(script_safe(data), "</"@),
{
    reveal_strlit("</");
    reveal_strlit("<\\/");
    let from = "</"@;
    let to = "<\\/"@;
    assert(from =~= seq!['<', '/']);
    assert(to =~= seq!['<', '\\', '/']);
    lemma_no_closing(data);
    let out = script_safe(data);
    if text::has_infix(out, from) {
        let i = choose|i: int|
            0 <= i <= out.len() - from.len() && #[trigger] out.subrange(i, i + from.len()) == from;
        assert(out.subrange(i, i + 2)[0] == out[i]);
        assert(out.subrange(i, i + 2)[1] == out[i + 1]);
    }
}

proof fn lemma_no_closing(s: Seq<char>)
    ensures
        ({
            let out = text::replaced(s, seq!['<', '/'], seq!['<', '\\', '/']);
            &&& forall|i: int| 0 <= i < out.len() - 1 ==> !(#[trigger] out[i] == '<' && out[i + 1] == '/')
            &&& s.len() > 0 ==> out.len() > 0 && out[0] == s[0]
        }),
    decreases s.len(),
{
    let from = seq!['<', '/'];
    let to = seq!['<', '\\', '/'];
    let out = text::replaced(s, from, to);
    if s.len() > 0 {
        if text::begins_with(s, from) {
            let rest = text::replaced(s.skip(2), from, to);
            lemma_no_closing(s.skip(2));
            assert(s.take(2)[0] == s[0]);
            assert forall|i: int| 0 <= i < out.len() - 1 implies !(#[trigger] out[i] == '<' && out[i
                + 1] == '/') by {
                if i >= 3 {
                    assert(out[i] == rest[i - 3]);
                    assert(out[i + 1] == rest[i - 3 + 1]);
                }
            }
        } else {
            let rest = text::replaced(s.drop_first(), from, to);
            lemma_no_closing(s.drop_first());
            assert forall|i: int| 0 <= i < out.len() - 1 implies !(#[trigger] out[i] == '<' && out[i
                + 1] == '/') by {
                if i >= 1 {
                    assert(out[i] == rest[i - 1]);
                    assert(out[i + 1] == rest[i - 1 + 1]);
                } else {
                    assert(out[1] == rest[0]);
                    if s.len() > 1 && s[0] == '<' && s[1] == '/' {
                        assert(s.take(2) =~= from);
                    }
                    if s.len() == 1 {
                        assert(rest =~= s.drop_first());
                    }
                }
            }
        }
    }
}

/// Data is changed only where it would end the script: without `</` it stays as it is, and the first
/// `</` in it becomes `<\/`.
pub proof fn only_closings_are_escaped(a: Seq<char>, b: Seq<char>)
    requires
        !text::has_infix(a + seq!['<'], "</"@),
        !text::has_infix(a, "</"@),
    ensures
        script_safe(a) == a,
        script_safe(a + seq!['<', '/'] + b) == a + seq!['<', '\\', '/'] + script_safe(b),
{
    reveal_strlit("</");
    reveal_strlit("<\\/");
    let from = "</"@;
    assert(from =~= seq!['<', '/']);
    assert("<\\/"@ =~= seq!['<', '\\', '/']);
    text_laws::nothing_found_nothing_replaced(a, from, "<\\/"@);
    let s = a + from + b;
    assert forall|i: int| 0 <= i < a.len() implies !text::begins_with(
        #[trigger] (a + from + b).skip(i),
        from,
    ) by {
        if text::begins_with(s.skip(i), from) {
            let front = a + seq!['<'];
            assert(s.skip(i).take(2)[0] == s[i]);
            assert(s.skip(i).take(2)[1] == s[i + 1]);
            assert(front.subrange(i, i + 2) =~= from);
            assert(front.subrange(i, i + from.len()) == from);
        }
    }
    text_laws::the_first_occurrence_is_replaced(a, from, b, "<\\/"@);
}

/// A page is the template with the data, made safe, in the place of `__SHIM_DATA__`, and then the
/// version in the place of `__SHIM_VERSION__`.
pub proof fn data_and_version_are_filled_in(
    template: Seq<char>,
    data: Seq<char>,
    version: Seq<char>,
)
    ensures
        page(template, data, version) == text::replaced(
            text::replaced(template, "__SHIM_DATA__"@, script_safe(data)),
            "__SHIM_VERSION__"@,
            version,
        ),
{
}

} // verus!
