use vstd::prelude::*;

use crate::chars::{stream_view, ParseCharElt};
use crate::errors::{err_view, SResult};
use crate::parser::{parse_json, spec_parse_json, SpecParsed};
use crate::render::{render_doc, render_entries, render_entry, LocalToString};
use crate::tree::{entries_view, lemma_entries_view_concat, Parsed, SpecEntry};

verus! {

/// Merge is concatenation: the entries of `base` followed by the entries of
/// `addition`, in that order, with no deduplication by key and no reordering.
pub fn merge(base: Parsed, addition: Parsed) -> (r: Parsed)
    ensures
        entries_view(r@) == entries_view(base@) + entries_view(addition@),
{
    let mut base = base;
    let mut addition = addition;
    proof {
        lemma_entries_view_concat(base@, addition@);
    }
    base.append(&mut addition);
    base
}

/// Parses the token stack as an object and renders the document back as
/// indented text. Succeeds exactly when the parser model succeeds, and then
/// returns exactly the rendering of the parsed document, leaving the stack at
/// the model's remainder; running out of input inside an array drains the
/// stack. A braced input parses, per the grammar, as one top entry with an
/// empty key holding that object, so re-reading a rendering nests the
/// document one level down.
pub fn read(content: &mut Vec<ParseCharElt>) -> (res: SResult<String>)
    ensures
        ({
            let sp = spec_parse_json(stream_view(old(content)@).reverse());
            match res {
                Ok(s) => sp matches SpecParsed::Done { value, rest } && s@ == render_doc(
                    value,
                    0,
                    false,
                ) && stream_view(final(content)@).reverse() == rest,
                Err(e) => sp == (SpecParsed::<Seq<SpecEntry>>::Fail { err: err_view(e) }),
            }
        }),
        res matches Err(e) ==> (e.kind == crate::errors::ParseErrorKind::UnexpectedEndOfInput
            ==> final(content)@.len() == 0),
{
    match parse_json(content) {
        Ok(parsed) => Ok(parsed.to_string(0, false)),
        Err(e) => Err(e),
    }
}

/// Parses both token stacks as objects, merges the two documents by
/// concatenation, and renders the result. The first stack's error, or
/// otherwise the second's, propagates unchanged, and a failure of the first
/// parse leaves the second stack untouched; success comes exactly when both
/// parses succeed, each stack then holding the model's remainder.
pub fn append(prevcontent: &mut Vec<ParseCharElt>, supplcontent: &mut Vec<ParseCharElt>) -> (res:
    SResult<String>)
    ensures
        ({
            let sp1 = spec_parse_json(stream_view(old(prevcontent)@).reverse());
            let sp2 = spec_parse_json(stream_view(old(supplcontent)@).reverse());
            match res {
                Ok(s) => sp1 matches SpecParsed::Done { value: d1, rest: r1 } && sp2 matches
                    SpecParsed::Done { value: d2, rest: r2 } && s@ == render_doc(d1 + d2, 0, false)
                    && stream_view(final(prevcontent)@).reverse() == r1 && stream_view(
                    final(supplcontent)@,
                ).reverse() == r2,
                Err(e) => (sp1 == (SpecParsed::<Seq<SpecEntry>>::Fail { err: err_view(e) })
                    && final(supplcontent)@ == old(supplcontent)@) || (sp1 is Done && sp2 == (
                SpecParsed::<Seq<SpecEntry>>::Fail { err: err_view(e) })),
            }
        }),
{
    let previous = match parse_json(prevcontent) {
        Ok(p) => p,
        Err(e) => {
            return Err(e);
        },
    };
    let suppl = match parse_json(supplcontent) {
        Ok(p) => p,
        Err(e) => {
            return Err(e);
        },
    };
    let merged = merge(previous, suppl);
    Ok(merged.to_string(0, false))
}

/// Rendering a document twice yields byte-identical text: the rendering is a
/// pure function of the tree, with no dependence on the source formatting or
/// on any ambient state.
pub proof fn lemma_render_idempotent(
    d1: Seq<SpecEntry>,
    d2: Seq<SpecEntry>,
    tab: nat,
    start_indent: bool,
)
    requires
        d1 == d2,
    ensures
        render_doc(d1, tab, start_indent) == render_doc(d2, tab, start_indent),
{
}

/// Merge is concatenation: the merged document has the two lengths added,
/// every entry of `a` kept verbatim before every entry of `b`, in order.
pub proof fn lemma_merge_is_concatenation(a: Seq<SpecEntry>, b: Seq<SpecEntry>)
    ensures
        (a + b).len() == a.len() + b.len(),
        forall|i: int| 0 <= i < a.len() ==> (a + b)[i] == a[i],
        forall|i: int| 0 <= i < b.len() ==> (a + b)[a.len() + i] == b[i],
{
}

/// Every entry rendered with a trailing separator.
pub open spec fn render_entries_sep(es: Seq<SpecEntry>, tab: nat) -> Seq<char>
    decreases es,
{
    if es.len() == 0 {
        Seq::empty()
    } else {
        render_entry(es[0], tab) + ",\n"@ + render_entries_sep(es.drop_first(), tab)
    }
}

/// Order preservation through rendering: in the rendered text of `a + b`,
/// the entries of `a` appear first, in their own order, each followed by the
/// separator, and the entries of `b` follow, in their own order.
pub proof fn lemma_render_order(a: Seq<SpecEntry>, b: Seq<SpecEntry>, tab: nat)
    requires
        b.len() > 0,
    ensures
        render_entries(a + b, tab) == render_entries_sep(a, tab) + render_entries(b, tab),
    decreases a,
{
    if a.len() == 0 {
        assert(a + b =~= b);
        assert(render_entries_sep(a, tab) + render_entries(b, tab) =~= render_entries(b, tab));
    } else {
        lemma_render_order(a.drop_first(), b, tab);
        assert((a + b).drop_first() =~= a.drop_first() + b);
        assert((a + b)[0] == a[0]);
        assert(render_entries(a + b, tab) =~= render_entries_sep(a, tab) + render_entries(
            b,
            tab,
        ));
    }
}

} // verus!
