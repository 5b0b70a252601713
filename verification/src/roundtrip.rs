use vstd::prelude::*;

use crate::chars::{is_ws_char, tok_spec, SpecChar};
use crate::parser::{empty_entry, spec_parse_json, spec_parse_obj, SpecParsed};
use crate::render::{indent_view, render_doc, render_entries, render_entry};
use crate::tree::{SpecEntry, SpecValue};

verus! {

/// One character in front of the characters that follow it.
pub open spec fn char_cons(c: char, rest: Seq<char>) -> Seq<char> {
    seq![c] + rest
}

/// The characters of a token stream, positions forgotten.
pub open spec fn chars_of(s: Seq<SpecChar>) -> Seq<char>
    decreases s.len(),
{
    if s.len() == 0 {
        Seq::empty()
    } else {
        char_cons(s[0].ch, chars_of(s.drop_first()))
    }
}

proof fn lemma_chars_of(s: Seq<SpecChar>)
    ensures
        chars_of(s).len() == s.len(),
        forall|i: int| 0 <= i < s.len() ==> chars_of(s)[i] == s[i].ch,
    decreases s.len(),
{
    if s.len() > 0 {
        lemma_chars_of(s.drop_first());
    }
}

/// The text with its whitespace removed.
pub open spec fn strip_ws(t: Seq<char>) -> Seq<char>
    decreases t.len(),
{
    if t.len() == 0 {
        Seq::empty()
    } else if is_ws_char(t[0]) {
        strip_ws(t.drop_first())
    } else {
        char_cons(t[0], strip_ws(t.drop_first()))
    }
}

/// A plain character: neither whitespace nor one of the structural marks.
pub open spec fn plain_char(c: char) -> bool {
    !is_ws_char(c) && c != '{' && c != '}' && c != '[' && c != ']' && c != ',' && c != ':'
        && c != '"'
}

/// A text made of plain characters only.
pub open spec fn wf_text(t: Seq<char>) -> bool {
    forall|i: int| 0 <= i < t.len() ==> plain_char(t[i])
}

/// A flat scalar value: a scalar whose text is plain.
pub open spec fn wf_scalar(v: SpecValue) -> bool {
    match v {
        SpecValue::Scalar(t) => wf_text(t),
        _ => false,
    }
}

/// A flat entry: a plain key and a flat scalar value.
pub open spec fn wf_entry(e: SpecEntry) -> bool {
    wf_text(e.key) && wf_scalar(e.value)
}

/// A flat document: at least one entry, all of them flat.
pub open spec fn wf_doc(d: Seq<SpecEntry>) -> bool {
    d.len() > 0 && forall|i: int| 0 <= i < d.len() ==> wf_entry(d[i])
}

pub open spec fn scalar_text(v: SpecValue) -> Seq<char> {
    match v {
        SpecValue::Scalar(t) => t,
        _ => Seq::empty(),
    }
}

/// The tokens one flat entry contributes: the quoted key, the separator, the
/// scalar text.
pub open spec fn entry_chars(e: SpecEntry) -> Seq<char> {
    seq!['"'] + e.key + seq!['"'] + seq![':'] + scalar_text(e.value)
}

/// A first entry's tokens, the separator, then the tokens that follow.
pub open spec fn entries_cons(h: Seq<char>, rest: Seq<char>) -> Seq<char> {
    h + seq![','] + rest
}

/// The tokens of a flat document's entries, comma-separated.
pub open spec fn entries_chars(d: Seq<SpecEntry>) -> Seq<char>
    decreases d.len(),
{
    if d.len() == 0 {
        Seq::empty()
    } else if d.len() == 1 {
        entry_chars(d[0])
    } else {
        entries_cons(entry_chars(d[0]), entries_chars(d.drop_first()))
    }
}

/// The object parser at its canonical step budget.
pub open spec fn pobj(
    s: Seq<SpecChar>,
    instring: bool,
    idx: crate::tree::ParsingIndex,
    cur: SpecEntry,
    res: Seq<SpecEntry>,
) -> SpecParsed<Seq<SpecEntry>> {
    spec_parse_obj(s, instring, idx, cur, res, s.len() + 1)
}

/// Where each piece of one flat entry's tokens sits.
proof fn lemma_entry_chars_index(e: SpecEntry)
    ensures
        entry_chars(e).len() == 3 + e.key.len() + scalar_text(e.value).len(),
        entry_chars(e)[0] == '"',
        forall|i: int| 0 <= i < e.key.len() ==> entry_chars(e)[1 + i] == e.key[i],
        entry_chars(e)[1 + e.key.len() as int] == '"',
        entry_chars(e)[2 + e.key.len() as int] == ':',
        forall|i: int|
            0 <= i < scalar_text(e.value).len() ==> entry_chars(e)[3 + e.key.len() + i]
                == scalar_text(e.value)[i],
{
    let klen = e.key.len() as int;
    let t = scalar_text(e.value);
    assert forall|i: int| 0 <= i < klen implies entry_chars(e)[1 + i] == e.key[i] by {
        assert((seq!['"'] + e.key)[1 + i] == e.key[i]);
    }
    assert forall|i: int| 0 <= i < t.len() implies entry_chars(e)[3 + klen + i] == t[i] by {
        assert(entry_chars(e)[3 + klen + i] == t[i]);
    }
}

/// Where each piece of a flat document's tokens sits when it has more than
/// one entry.
proof fn lemma_entries_chars_index(d: Seq<SpecEntry>)
    requires
        d.len() > 1,
    ensures
        entries_chars(d).len() == entry_chars(d[0]).len() + 1 + entries_chars(
            d.drop_first(),
        ).len(),
        forall|i: int|
            0 <= i < entry_chars(d[0]).len() ==> entries_chars(d)[i] == entry_chars(d[0])[i],
        entries_chars(d)[entry_chars(d[0]).len() as int] == ',',
        forall|i: int|
            0 <= i < entries_chars(d.drop_first()).len() ==> entries_chars(d)[entry_chars(
                d[0],
            ).len() + 1 + i] == entries_chars(d.drop_first())[i],
{
    let h = entry_chars(d[0]);
    let rest = entries_chars(d.drop_first());
    assert(entries_chars(d) == entries_cons(h, rest));
    assert forall|i: int| 0 <= i < h.len() implies entries_chars(d)[i] == h[i] by {
        assert((h + seq![','])[i] == h[i]);
    }
    assert((h + seq![','])[h.len() as int] == ',');
    assert forall|i: int| 0 <= i < rest.len() implies entries_chars(d)[h.len() + 1 + i]
        == rest[i] by {
        assert((h + seq![','] + rest)[h.len() + 1 + i] == rest[i]);
    }
}

proof fn lemma_strip_all_ws(t: Seq<char>)
    requires
        forall|i: int| 0 <= i < t.len() ==> is_ws_char(t[i]),
    ensures
        strip_ws(t) == Seq::<char>::empty(),
    decreases t.len(),
{
    if t.len() > 0 {
        lemma_strip_all_ws(t.drop_first());
    }
}

proof fn lemma_strip_plain(t: Seq<char>)
    requires
        wf_text(t),
    ensures
        strip_ws(t) == t,
    decreases t.len(),
{
    if t.len() > 0 {
        lemma_strip_plain(t.drop_first());
        assert(strip_ws(t) =~= t);
    }
}

proof fn lemma_strip_concat(a: Seq<char>, b: Seq<char>)
    ensures
        strip_ws(a + b) == strip_ws(a) + strip_ws(b),
    decreases a.len(),
{
    if a.len() == 0 {
        assert(a + b =~= b);
        assert(strip_ws(a) + strip_ws(b) =~= strip_ws(b));
    } else {
        lemma_strip_concat(a.drop_first(), b);
        assert((a + b).drop_first() =~= a.drop_first() + b);
        assert((a + b)[0] == a[0]);
        if is_ws_char(a[0]) {
            assert(strip_ws(a + b) =~= strip_ws(a) + strip_ws(b));
        } else {
            assert(strip_ws(a + b) =~= strip_ws(a) + strip_ws(b));
        }
    }
}

/// The token characters of a text are the text stripped of whitespace.
proof fn lemma_tok_chars(text: Seq<char>, path: Seq<char>, line: nat, col: nat)
    ensures
        chars_of(tok_spec(text, path, line, col)) == strip_ws(text),
    decreases text.len(),
{
    if text.len() == 0 {
        assert(chars_of(tok_spec(text, path, line, col)) =~= strip_ws(text));
    } else {
        let c = text[0];
        let rest = text.drop_first();
        if c == '\n' {
            lemma_tok_chars(rest, path, line + 1, 0);
            assert(chars_of(tok_spec(text, path, line, col)) =~= strip_ws(text));
        } else if is_ws_char(c) {
            lemma_tok_chars(rest, path, line, col + 1);
            assert(chars_of(tok_spec(text, path, line, col)) =~= strip_ws(text));
        } else {
            lemma_tok_chars(rest, path, line, col + 1);
            let y = tok_spec(rest, path, line, col + 1);
            crate::chars::lemma_tok_spec_step(text, path, line, col);
            crate::chars::lemma_tok_cons(c, path, line, col, y);
            lemma_chars_of(tok_spec(text, path, line, col));
            lemma_chars_of(y);
            assert(strip_ws(text) == char_cons(c, strip_ws(rest)));
            assert(char_cons(c, strip_ws(rest)) == seq![c] + strip_ws(rest));
            assert(chars_of(tok_spec(text, path, line, col)) =~= strip_ws(text));
        }
    }
}

proof fn lemma_indent_strip(tab: nat)
    ensures
        strip_ws(indent_view(tab)) == Seq::<char>::empty(),
{
    assert forall|i: int| 0 <= i < indent_view(tab).len() implies is_ws_char(
        indent_view(tab)[i],
    ) by {
        assert(indent_view(tab)[i] == ' ');
    }
    lemma_strip_all_ws(indent_view(tab));
}

/// Stripping one rendered flat entry leaves exactly its tokens.
proof fn lemma_entry_strip(e: SpecEntry, tab: nat)
    requires
        wf_entry(e),
    ensures
        strip_ws(render_entry(e, tab)) == entry_chars(e),
{
    let t = scalar_text(e.value);
    reveal_strlit("\"");
    reveal_strlit("\": ");
    reveal_with_fuel(strip_ws, 5);
    let head = indent_view(crate::render::bump(tab, 1)) + "\""@ + e.key + "\": "@;
    assert(render_entry(e, tab) == head + t);
    lemma_strip_concat(head, t);
    lemma_strip_concat(indent_view(crate::render::bump(tab, 1)) + "\""@ + e.key, "\": "@);
    lemma_strip_concat(indent_view(crate::render::bump(tab, 1)) + "\""@, e.key);
    lemma_strip_concat(indent_view(crate::render::bump(tab, 1)), "\""@);
    lemma_indent_strip(crate::render::bump(tab, 1));
    lemma_strip_plain(e.key);
    lemma_strip_plain(t);
    assert(strip_ws("\""@) =~= seq!['"']);
    assert(strip_ws("\": "@) =~= seq!['"', ':']);
    assert(strip_ws(render_entry(e, tab)) =~= entry_chars(e));
}

/// Stripping the rendered entries of a flat document leaves exactly their
/// tokens.
proof fn lemma_entries_strip(d: Seq<SpecEntry>, tab: nat)
    requires
        forall|i: int| 0 <= i < d.len() ==> wf_entry(d[i]),
    ensures
        strip_ws(render_entries(d, tab)) == entries_chars(d),
    decreases d.len(),
{
    reveal_strlit(",\n");
    reveal_with_fuel(strip_ws, 5);
    if d.len() == 0 {
        assert(strip_ws(render_entries(d, tab)) =~= entries_chars(d));
    } else if d.len() == 1 {
        lemma_entry_strip(d[0], tab);
        assert(d.drop_first().len() == 0);
        lemma_strip_concat(render_entry(d[0], tab), Seq::<char>::empty());
        lemma_strip_concat(
            render_entry(d[0], tab) + Seq::<char>::empty(),
            render_entries(d.drop_first(), tab),
        );
        assert(strip_ws(render_entries(d, tab)) =~= entries_chars(d));
    } else {
        lemma_entry_strip(d[0], tab);
        lemma_entries_strip(d.drop_first(), tab);
        lemma_strip_concat(render_entry(d[0], tab), ",\n"@);
        lemma_strip_concat(render_entry(d[0], tab) + ",\n"@, render_entries(d.drop_first(), tab));
        assert(strip_ws(",\n"@) =~= seq![',']);
        assert(strip_ws(render_entries(d, tab)) =~= entries_chars(d));
    }
}

/// Stripping a flat document's rendering leaves its tokens between one brace
/// pair.
proof fn lemma_doc_strip(d: Seq<SpecEntry>, tab: nat)
    requires
        forall|i: int| 0 <= i < d.len() ==> wf_entry(d[i]),
    ensures
        strip_ws(render_doc(d, tab, false)) == seq!['{'] + entries_chars(d) + seq!['}'],
{
    reveal_strlit("{\n");
    reveal_strlit("\n");
    reveal_strlit("}");
    reveal_with_fuel(strip_ws, 5);
    lemma_entries_strip(d, tab);
    lemma_strip_concat("{\n"@, render_entries(d, tab));
    lemma_strip_concat("{\n"@ + render_entries(d, tab), "\n"@);
    lemma_strip_concat("{\n"@ + render_entries(d, tab) + "\n"@, indent_view(tab));
    lemma_strip_concat("{\n"@ + render_entries(d, tab) + "\n"@ + indent_view(tab), "}"@);
    lemma_indent_strip(tab);
    assert(strip_ws("{\n"@) =~= seq!['{']);
    assert(strip_ws("\n"@) =~= Seq::<char>::empty());
    assert(strip_ws("}"@) =~= seq!['}']);
    assert(render_doc(d, tab, false) == "{\n"@ + render_entries(d, tab) + "\n"@ + indent_view(tab)
        + "}"@);
    assert(strip_ws(render_doc(d, tab, false)) =~= seq!['{'] + entries_chars(d) + seq!['}']);
}

/// Plain characters in value mode each append to the scalar.
proof fn lemma_parse_value_text(
    p: Seq<SpecChar>,
    r: Seq<SpecChar>,
    k: Seq<char>,
    v0: Seq<char>,
    res: Seq<SpecEntry>,
)
    requires
        forall|i: int| 0 <= i < p.len() ==> plain_char(p[i].ch),
    ensures
        pobj(
            p + r,
            false,
            crate::tree::ParsingIndex::Value,
            SpecEntry { key: k, value: SpecValue::Scalar(v0) },
            res,
        ) == pobj(
            r,
            false,
            crate::tree::ParsingIndex::Value,
            SpecEntry { key: k, value: SpecValue::Scalar(v0 + chars_of(p)) },
            res,
        ),
    decreases p.len(),
{
    lemma_chars_of(p);
    if p.len() == 0 {
        assert(p + r =~= r);
        assert(v0 + chars_of(p) =~= v0);
    } else {
        let s = p + r;
        lemma_chars_of(p.drop_first());
        assert(s[0] == p[0]);
        assert(s.drop_first() =~= p.drop_first() + r);
        lemma_parse_value_text(p.drop_first(), r, k, v0.push(p[0].ch), res);
        assert(v0.push(p[0].ch) + chars_of(p.drop_first()) =~= v0 + chars_of(p));
    }
}

/// Plain characters in string mode with the key active each append to the
/// key.
proof fn lemma_parse_key_text(
    p: Seq<SpecChar>,
    r: Seq<SpecChar>,
    k0: Seq<char>,
    val: SpecValue,
    res: Seq<SpecEntry>,
)
    requires
        forall|i: int| 0 <= i < p.len() ==> plain_char(p[i].ch),
    ensures
        pobj(
            p + r,
            true,
            crate::tree::ParsingIndex::Key,
            SpecEntry { key: k0, value: val },
            res,
        ) == pobj(
            r,
            true,
            crate::tree::ParsingIndex::Key,
            SpecEntry { key: k0 + chars_of(p), value: val },
            res,
        ),
    decreases p.len(),
{
    lemma_chars_of(p);
    if p.len() == 0 {
        assert(p + r =~= r);
        assert(k0 + chars_of(p) =~= k0);
    } else {
        let s = p + r;
        lemma_chars_of(p.drop_first());
        assert(s[0] == p[0]);
        assert(s.drop_first() =~= p.drop_first() + r);
        lemma_parse_key_text(p.drop_first(), r, k0.push(p[0].ch), val, res);
        assert(k0.push(p[0].ch) + chars_of(p.drop_first()) =~= k0 + chars_of(p));
    }
}

/// One flat entry's tokens take the parser from a fresh entry in key mode to
/// that entry, fully built, in value mode.
proof fn lemma_parse_entry(p: Seq<SpecChar>, r: Seq<SpecChar>, e: SpecEntry, res: Seq<SpecEntry>)
    requires
        wf_entry(e),
        chars_of(p) == entry_chars(e),
    ensures
        pobj(p + r, false, crate::tree::ParsingIndex::Key, empty_entry(), res) == pobj(
            r,
            false,
            crate::tree::ParsingIndex::Value,
            e,
            res,
        ),
{
    let klen = e.key.len() as int;
    let t = scalar_text(e.value);
    lemma_chars_of(p);
    lemma_entry_chars_index(e);
    assert(p.len() == 3 + klen + t.len());
    let pk = p.subrange(1, 1 + klen);
    let pt = p.subrange(3 + klen, p.len() as int);
    lemma_chars_of(pk);
    lemma_chars_of(pt);
    assert forall|i: int| 0 <= i < pk.len() implies pk[i].ch == e.key[i] by {
        assert(pk[i] == p[1 + i]);
        assert(chars_of(p)[1 + i] == p[1 + i].ch);
        assert(entry_chars(e)[1 + i] == e.key[i]);
    }
    assert forall|i: int| 0 <= i < pt.len() implies pt[i].ch == t[i] by {
        assert(pt[i] == p[3 + klen + i]);
        assert(chars_of(p)[3 + klen + i] == p[3 + klen + i].ch);
        assert(entry_chars(e)[3 + klen + i] == t[i]);
    }
    assert(chars_of(pk) =~= e.key);
    assert(chars_of(pt) =~= t);
    assert forall|i: int| 0 <= i < pk.len() implies plain_char(pk[i].ch) by {
        assert(pk[i].ch == e.key[i]);
        assert(plain_char(e.key[i]));
    }
    assert forall|i: int| 0 <= i < pt.len() implies plain_char(pt[i].ch) by {
        assert(pt[i].ch == t[i]);
        assert(plain_char(t[i]));
    }
    assert(chars_of(p)[0] == p[0].ch);
    assert(chars_of(p)[1 + klen] == p[1 + klen].ch);
    assert(chars_of(p)[2 + klen] == p[2 + klen].ch);
    assert(p[0].ch == '"');
    assert(p[1 + klen].ch == '"');
    assert(p[2 + klen].ch == ':');
    let r3 = pt + r;
    let r2 = seq![p[2 + klen]] + r3;
    let r1 = seq![p[1 + klen]] + r2;
    let rk = pk + r1;
    assert((p + r).drop_first() =~= rk);
    // The opening quote: string mode on, nothing appended.
    assert(pobj(p + r, false, crate::tree::ParsingIndex::Key, empty_entry(), res) == pobj(
        rk,
        true,
        crate::tree::ParsingIndex::Key,
        empty_entry(),
        res,
    ));
    // The key characters.
    lemma_parse_key_text(pk, r1, Seq::empty(), SpecValue::Scalar(Seq::empty()), res);
    let cur1 = SpecEntry { key: e.key, value: SpecValue::Scalar(Seq::empty()) };
    assert(Seq::empty() + chars_of(pk) =~= e.key);
    // The closing quote: string mode off.
    assert(r1.drop_first() =~= r2);
    assert(pobj(r1, true, crate::tree::ParsingIndex::Key, cur1, res) == pobj(
        r2,
        false,
        crate::tree::ParsingIndex::Key,
        cur1,
        res,
    ));
    // The separator: value mode.
    assert(r2.drop_first() =~= r3);
    assert(pobj(r2, false, crate::tree::ParsingIndex::Key, cur1, res) == pobj(
        r3,
        false,
        crate::tree::ParsingIndex::Value,
        cur1,
        res,
    ));
    // The value characters.
    lemma_parse_value_text(pt, r, e.key, Seq::empty(), res);
    assert(Seq::empty() + chars_of(pt) =~= t);
    assert((SpecEntry { key: e.key, value: SpecValue::Scalar(t) }) == e);
}

/// A flat document's tokens take the parser through all its entries: the last
/// one is still open, the others are finished, in order.
proof fn lemma_parse_entries(
    p: Seq<SpecChar>,
    r: Seq<SpecChar>,
    d: Seq<SpecEntry>,
    res0: Seq<SpecEntry>,
)
    requires
        d.len() > 0,
        forall|i: int| 0 <= i < d.len() ==> wf_entry(d[i]),
        chars_of(p) == entries_chars(d),
    ensures
        pobj(p + r, false, crate::tree::ParsingIndex::Key, empty_entry(), res0) == pobj(
            r,
            false,
            crate::tree::ParsingIndex::Value,
            d.last(),
            res0 + d.drop_last(),
        ),
    decreases d.len(),
{
    if d.len() == 1 {
        lemma_parse_entry(p, r, d[0], res0);
        assert(res0 + d.drop_last() =~= res0);
    } else {
        let l0 = entry_chars(d[0]).len() as int;
        lemma_chars_of(p);
        lemma_entries_chars_index(d);
        assert(p.len() == l0 + 1 + entries_chars(d.drop_first()).len());
        let p0 = p.subrange(0, l0);
        let pr = p.subrange(l0 + 1, p.len() as int);
        lemma_chars_of(p0);
        lemma_chars_of(pr);
        assert forall|i: int| 0 <= i < p0.len() implies p0[i].ch == entry_chars(d[0])[i] by {
            assert(p0[i] == p[i]);
            assert(chars_of(p)[i] == p[i].ch);
            assert(entries_chars(d)[i] == entry_chars(d[0])[i]);
        }
        assert(chars_of(p0) =~= entry_chars(d[0]));
        assert(chars_of(p)[l0] == p[l0].ch);
        assert(p[l0].ch == ',');
        assert forall|i: int| 0 <= i < pr.len() implies pr[i].ch == entries_chars(
            d.drop_first(),
        )[i] by {
            assert(pr[i] == p[l0 + 1 + i]);
            assert(chars_of(p)[l0 + 1 + i] == p[l0 + 1 + i].ch);
            assert(entries_chars(d)[l0 + 1 + i] == entries_chars(d.drop_first())[i]);
        }
        assert(chars_of(pr) =~= entries_chars(d.drop_first()));
        let rr = pr + r;
        let rc = seq![p[l0]] + rr;
        assert(p + r =~= p0 + rc);
        lemma_parse_entry(p0, rc, d[0], res0);
        // The comma finishes the entry and opens a fresh one.
        assert(rc.drop_first() =~= rr);
        assert(pobj(rc, false, crate::tree::ParsingIndex::Value, d[0], res0) == pobj(
            rr,
            false,
            crate::tree::ParsingIndex::Key,
            empty_entry(),
            res0.push(d[0]),
        ));
        lemma_parse_entries(pr, r, d.drop_first(), res0.push(d[0]));
        assert(d.drop_first().last() == d.last());
        assert(res0.push(d[0]) + d.drop_first().drop_last() =~= res0 + d.drop_last());
    }
}

/// The round trip: tokenizing the rendering of a flat document and parsing it
/// back succeeds, consumes everything, and yields the document unchanged as
/// the single top entry's object (the rendering brackets the entries in
/// braces, and the parser nests every braced group one level down).
pub proof fn lemma_parse_render_round_trip(d: Seq<SpecEntry>, path: Seq<char>)
    requires
        wf_doc(d),
    ensures
        ({
            let toks = tok_spec(render_doc(d, 0, false), path, 0, 0);
            spec_parse_json(toks) == (SpecParsed::<Seq<SpecEntry>>::Done {
                value: seq![
                    SpecEntry { key: Seq::empty(), value: SpecValue::Object(d) },
                ],
                rest: Seq::empty(),
            })
        }),
{
    let toks = tok_spec(render_doc(d, 0, false), path, 0, 0);
    lemma_tok_chars(render_doc(d, 0, false), path, 0, 0);
    lemma_doc_strip(d, 0);
    let ec = entries_chars(d);
    lemma_chars_of(toks);
    assert(chars_of(toks) == seq!['{'] + ec + seq!['}']);
    assert(toks.len() == ec.len() + 2);
    let pm = toks.subrange(1, 1 + ec.len() as int);
    let pe = toks.subrange(1 + ec.len() as int, toks.len() as int);
    lemma_chars_of(pm);
    lemma_chars_of(pe);
    assert forall|i: int| 0 <= i < pm.len() implies pm[i].ch == ec[i] by {
        assert(chars_of(toks)[1 + i] == (seq!['{'] + ec + seq!['}'])[1 + i]);
        assert(pm[i] == toks[1 + i]);
    }
    assert(chars_of(pm) =~= ec);
    assert(toks[0].ch == (seq!['{'] + ec + seq!['}'])[0]);
    assert(toks[0].ch == '{');
    assert(pe.len() == 1);
    assert(pe[0].ch == (seq!['{'] + ec + seq!['}'])[1 + ec.len() as int]);
    assert(pe[0].ch == '}');
    assert(toks.drop_first() =~= pm + pe);
    // The nested object: all the entries, then the closing brace.
    lemma_parse_entries(pm, pe, d, Seq::empty());
    assert(Seq::empty() + d.drop_last() =~= d.drop_last());
    crate::parser::lemma_obj_finish_step(
        pe,
        crate::tree::ParsingIndex::Value,
        d.last(),
        d.drop_last(),
    );
    assert(pe.drop_first() =~= Seq::<SpecChar>::empty());
    assert(d.drop_last().push(d.last()) =~= d);
    let nested = pobj(
        toks.drop_first(),
        false,
        crate::tree::ParsingIndex::Key,
        empty_entry(),
        Seq::empty(),
    );
    assert(nested == (SpecParsed::<Seq<SpecEntry>>::Done {
        value: d,
        rest: Seq::<SpecChar>::empty(),
    }));
    // The opening brace nests, and the exhausted remainder closes the top
    // entry around the parsed object.
    crate::parser::lemma_obj_open_step(
        toks,
        false,
        crate::tree::ParsingIndex::Key,
        empty_entry(),
        Seq::empty(),
    );
    let wrapped = SpecEntry { key: empty_entry().key, value: SpecValue::Object(d) };
    crate::parser::lemma_obj_finish_step(
        Seq::<SpecChar>::empty(),
        crate::tree::ParsingIndex::Key,
        wrapped,
        Seq::empty(),
    );
    assert(wrapped == (SpecEntry { key: Seq::empty(), value: SpecValue::Object(d) }));
    assert(Seq::<SpecEntry>::empty().push(wrapped) =~= seq![wrapped]);
}

} // verus!
