//! Filling the report template with the diagram's data.
use vstd::prelude::*;
use vstd::string::*;
use crate::text::{contains_seq, occurs_at, replace_all, replaced};

verus! {

/// JSON text made safe inside a `<script>` element: every `</` becomes `<\/`.
pub open spec fn script_safe(json: Seq<char>) -> Seq<char> {
    replaced(json, "</"@, "<\\/"@)
}

/// No `<` of `r` is followed by `/`.
pub open spec fn no_tag_close(r: Seq<char>) -> bool {
    forall|i: int| 0 <= i < r.len() - 1 ==> !(#[trigger] r[i] == '<' && r[i + 1] == '/')
}

proof fn lemma_script_safe(s: Seq<char>)
    ensures
        no_tag_close(script_safe(s)),
        script_safe(s).len() == 0 <==> s.len() == 0,
        s.len() > 0 ==> script_safe(s)[0] == s[0],
    decreases s.len(),
{
    reveal_strlit("</");
    reveal_strlit("<\\/");
    let r = script_safe(s);
    if s.len() < 2 {
        assert(r == s);
    } else if s.take(2) == "</"@ {
        lemma_script_safe(s.skip(2));
        let rest = script_safe(s.skip(2));
        assert(r == "<\\/"@ + rest);
        assert forall|i: int| 0 <= i < r.len() - 1 implies !(#[trigger] r[i] == '<' && r[i + 1] == '/') by {
            if i >= 3 {
                assert(r[i] == rest[i - 3]);
                assert(r[i + 1] == rest[i - 2]);
            } else if i == 2 {
                assert(r[2] == '/');
            } else if i == 1 {
                assert(r[1] == '\\');
            } else {
                assert(r[1] == '\\');
            }
        }
        assert(s[0] == s.take(2)[0]);
        assert(r[0] == '<');
    } else {
        lemma_script_safe(s.drop_first());
        let rest = script_safe(s.drop_first());
        assert(r == seq![s[0]] + rest);
        assert forall|i: int| 0 <= i < r.len() - 1 implies !(#[trigger] r[i] == '<' && r[i + 1] == '/') by {
            if i >= 1 {
                assert(r[i] == rest[i - 1]);
                assert(r[i + 1] == rest[i]);
            } else {
                assert(r[1] == rest[0]);
                assert(rest[0] == s[1]);
                if s[0] == '<' && s[1] == '/' {
                    assert(s.take(2) =~= "</"@);
                }
            }
        }
    }
}

/// Embedded JSON can never close the `<script>` element that holds it:
/// whatever the data, the escaped text has no `</` in it.
pub proof fn law_embedded_json_stays_in_script(json: Seq<char>)
    ensures
        !contains_seq(script_safe(json), "</"@),
{
    reveal_strlit("</");
    lemma_script_safe(json);
    let r = script_safe(json);
    if contains_seq(r, "</"@) {
        let i = choose|i: int| occurs_at(r, "</"@, i);
        assert(r.subrange(i, i + 2)[0] == r[i]);
        assert(r.subrange(i, i + 2)[1] == r[i + 1]);
    }
}

/// Escapes `</` so that embedded JSON cannot close the script element.
pub fn embed_json(json: &str) -> (out: String)
    ensures
        out@ == script_safe(json@),
{
    proof {
        reveal_strlit("</");
    }
    replace_all(json, "</", "<\\/")
}

/// The report: the template with the diagram, the palette and the sources
/// (each as JSON text) embedded in place of `__DATA__`, `__PALETTE__` and
/// `__SOURCES__`.
pub open spec fn rendered_report(template: Seq<char>, data: Seq<char>, palette: Seq<char>, sources: Seq<char>) -> Seq<char> {
    replaced(
        replaced(replaced(template, "__DATA__"@, script_safe(data)), "__PALETTE__"@, script_safe(palette)),
        "__SOURCES__"@,
        script_safe(sources),
    )
}

/// Renders the self-contained HTML report; the same inputs give the same bytes.
pub fn render_html(template: &str, data_json: &str, palette_json: &str, sources_json: &str) -> (out: String)
    ensures
        out@ == rendered_report(template@, data_json@, palette_json@, sources_json@),
{
    let data = embed_json(data_json);
    let palette = embed_json(palette_json);
    let sources = embed_json(sources_json);
    proof {
        reveal_strlit("__DATA__");
        reveal_strlit("__PALETTE__");
        reveal_strlit("__SOURCES__");
    }
    let a = replace_all(template, "__DATA__", data.as_str());
    let b = replace_all(a.as_str(), "__PALETTE__", palette.as_str());
    replace_all(b.as_str(), "__SOURCES__", sources.as_str())
}

} // verus!
