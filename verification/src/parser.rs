use vstd::prelude::*;

use crate::chars::{char_view, lemma_pop_stream, stream_view, ParseCharElt, SpecChar};
use crate::errors::{err_view, ParseError, ParseErrorKind, SpecErr, SResult};
use crate::tree::{
    entries_view, item_view, lemma_entries_view_push, lemma_values_view_concat,
    lemma_values_view_last, lemma_values_view_push, spec_is_empty, spec_item_push,
    spec_value_push, value_view, values_view, Parsed, ParsedValue, ParsingIndex, ParsingItem,
    SpecEntry, SpecValue,
};

verus! {

/// The outcome of a run of the parser model: a value together with the tokens
/// it did not consume, a structural error, or exhaustion of the step budget
/// (which a large enough budget rules out, see the budget lemmas).
pub enum SpecParsed<T> {
    Done { value: T, rest: Seq<SpecChar> },
    Fail { err: SpecErr },
    OutOfFuel,
}

/// The entry the parser starts accumulating into: empty key, empty scalar.
pub open spec fn empty_entry() -> SpecEntry {
    SpecEntry { key: Seq::empty(), value: SpecValue::Scalar(Seq::empty()) }
}

/// Dropping a trailing structurally-empty element, the cleanup the array
/// parser applies before closing or nesting.
pub open spec fn spec_drop_empty(res: Seq<SpecValue>) -> Seq<SpecValue> {
    if res.len() > 0 && spec_is_empty(res.last()) {
        res.drop_last()
    } else {
        res
    }
}

/// What appending one character does to the gathered array elements: it grows
/// the last element, or starts a fresh scalar when there is none.
pub open spec fn spec_push_last(res: Seq<SpecValue>, e: SpecChar) -> Result<
    Seq<SpecValue>,
    SpecErr,
> {
    if res.len() == 0 {
        Ok(seq![SpecValue::Scalar(seq![e.ch])])
    } else {
        match spec_value_push(res.last(), e) {
            Ok(nv) => Ok(res.update(res.len() - 1, nv)),
            Err(err) => Err(err),
        }
    }
}

/// The object parser, one token per step. `s` is the input in reading order;
/// `instring` the string-literal mode; `idx` whether the key or the value of
/// `cur` is being filled; `res` the finished entries. `fuel` bounds the number
/// of steps and only guards termination.
pub open spec fn spec_parse_obj(
    s: Seq<SpecChar>,
    instring: bool,
    idx: ParsingIndex,
    cur: SpecEntry,
    res: Seq<SpecEntry>,
    fuel: nat,
) -> SpecParsed<Seq<SpecEntry>>
    decreases fuel,
{
    if fuel == 0 {
        SpecParsed::OutOfFuel
    } else if s.len() == 0 {
        SpecParsed::Done { value: res.push(cur), rest: s }
    } else {
        let e = s[0];
        let t = s.drop_first();
        let f = (fuel - 1) as nat;
        if e.ch == '"' {
            if idx == ParsingIndex::Value {
                match spec_item_push(cur, e, idx) {
                    Ok(nc) => spec_parse_obj(t, !instring, idx, nc, res, f),
                    Err(err) => SpecParsed::Fail { err },
                }
            } else {
                spec_parse_obj(t, !instring, idx, cur, res, f)
            }
        } else if instring {
            match spec_item_push(cur, e, idx) {
                Ok(nc) => spec_parse_obj(t, instring, idx, nc, res, f),
                Err(err) => SpecParsed::Fail { err },
            }
        } else if e.ch == ':' {
            spec_parse_obj(t, instring, ParsingIndex::Value, cur, res, f)
        } else if e.ch == ',' {
            spec_parse_obj(t, instring, ParsingIndex::Key, empty_entry(), res.push(cur), f)
        } else if e.ch == '}' {
            SpecParsed::Done { value: res.push(cur), rest: t }
        } else if e.ch == '{' {
            match spec_parse_obj(t, false, ParsingIndex::Key, empty_entry(), Seq::empty(), f) {
                SpecParsed::Done { value: d, rest } => spec_parse_obj(
                    rest,
                    instring,
                    idx,
                    SpecEntry { key: cur.key, value: SpecValue::Object(d) },
                    res,
                    f,
                ),
                SpecParsed::Fail { err } => SpecParsed::Fail { err },
                SpecParsed::OutOfFuel => SpecParsed::OutOfFuel,
            }
        } else if e.ch == '[' {
            match spec_parse_arr(t, Seq::empty(), f) {
                SpecParsed::Done { value: es, rest } => spec_parse_obj(
                    rest,
                    instring,
                    idx,
                    SpecEntry { key: cur.key, value: SpecValue::List(es) },
                    res,
                    f,
                ),
                SpecParsed::Fail { err } => SpecParsed::Fail { err },
                SpecParsed::OutOfFuel => SpecParsed::OutOfFuel,
            }
        } else if e.ch == ']' {
            SpecParsed::Fail {
                err: SpecErr { kind: ParseErrorKind::MismatchedClosingBracket, at: Some(e) },
            }
        } else {
            match spec_item_push(cur, e, idx) {
                Ok(nc) => spec_parse_obj(t, instring, idx, nc, res, f),
                Err(err) => SpecParsed::Fail { err },
            }
        }
    }
}

/// The array parser, one token per step; `res` holds the elements gathered so
/// far. Exhausting the input before the closing bracket is an error.
pub open spec fn spec_parse_arr(s: Seq<SpecChar>, res: Seq<SpecValue>, fuel: nat) -> SpecParsed<
    Seq<SpecValue>,
>
    decreases fuel,
{
    if fuel == 0 {
        SpecParsed::OutOfFuel
    } else if s.len() == 0 {
        SpecParsed::Fail {
            err: SpecErr { kind: ParseErrorKind::UnexpectedEndOfInput, at: None },
        }
    } else {
        let e = s[0];
        let t = s.drop_first();
        let f = (fuel - 1) as nat;
        if e.ch == ']' {
            SpecParsed::Done { value: spec_drop_empty(res), rest: t }
        } else if e.ch == '[' {
            match spec_parse_arr(t, Seq::empty(), f) {
                SpecParsed::Done { value: es, rest } => spec_parse_arr(
                    rest,
                    spec_drop_empty(res) + es,
                    f,
                ),
                SpecParsed::Fail { err } => SpecParsed::Fail { err },
                SpecParsed::OutOfFuel => SpecParsed::OutOfFuel,
            }
        } else if e.ch == '{' {
            match spec_parse_obj(t, false, ParsingIndex::Key, empty_entry(), Seq::empty(), f) {
                SpecParsed::Done { value: d, rest } => spec_parse_arr(
                    rest,
                    spec_drop_empty(res).push(SpecValue::Object(d)),
                    f,
                ),
                SpecParsed::Fail { err } => SpecParsed::Fail { err },
                SpecParsed::OutOfFuel => SpecParsed::OutOfFuel,
            }
        } else if e.ch == '}' {
            SpecParsed::Fail {
                err: SpecErr { kind: ParseErrorKind::MismatchedClosingBrace, at: Some(e) },
            }
        } else if e.ch == ',' {
            spec_parse_arr(t, res.push(SpecValue::Scalar(Seq::empty())), f)
        } else {
            match spec_push_last(res, e) {
                Ok(nr) => spec_parse_arr(t, nr, f),
                Err(err) => SpecParsed::Fail { err },
            }
        }
    }
}

/// Parsing a token stack as an object with a fresh state and a sufficient
/// step budget.
pub open spec fn spec_parse_json(s: Seq<SpecChar>) -> SpecParsed<Seq<SpecEntry>> {
    spec_parse_obj(s, false, ParsingIndex::Key, empty_entry(), Seq::empty(), s.len() + 1)
}

/// Parsing a token stack as an array with a sufficient step budget.
pub open spec fn spec_parse_array(s: Seq<SpecChar>) -> SpecParsed<Seq<SpecValue>> {
    spec_parse_arr(s, Seq::empty(), s.len() + 1)
}

/// The object parser's two finishing steps, written out at the canonical
/// budget: exhaustion closes the open entry; a closing brace does the same
/// and leaves the remainder.
pub proof fn lemma_obj_finish_step(
    s: Seq<SpecChar>,
    idx: ParsingIndex,
    cur: SpecEntry,
    res: Seq<SpecEntry>,
)
    ensures
        s.len() == 0 ==> spec_parse_obj(s, false, idx, cur, res, s.len() + 1) == (
        SpecParsed::<Seq<SpecEntry>>::Done { value: res.push(cur), rest: s }),
        s.len() > 0 && s[0].ch == '}' && s[0].ch != '"' ==> spec_parse_obj(
            s,
            false,
            idx,
            cur,
            res,
            s.len() + 1,
        ) == (SpecParsed::<Seq<SpecEntry>>::Done { value: res.push(cur), rest: s.drop_first() }),
{
}

/// The object parser's opening-brace step at the canonical budget: the group
/// is parsed as a nested object, and on success the parse goes on behind it
/// with the group as the current entry's value.
pub proof fn lemma_obj_open_step(
    s: Seq<SpecChar>,
    instring: bool,
    idx: ParsingIndex,
    cur: SpecEntry,
    res: Seq<SpecEntry>,
)
    requires
        s.len() > 0,
        s[0].ch == '{',
        !instring,
    ensures
        spec_parse_obj(s.drop_first(), false, ParsingIndex::Key, empty_entry(), Seq::empty(), (
        s.len() - 1) as nat + 1) matches SpecParsed::Done { value, rest } ==> rest.len() <= s.len()
            - 1 && spec_parse_obj(s, instring, idx, cur, res, s.len() + 1) == spec_parse_obj(
            rest,
            instring,
            idx,
            SpecEntry { key: cur.key, value: SpecValue::Object(value) },
            res,
            (rest.len() + 1) as nat,
        ),
{
    let t = s.drop_first();
    lemma_obj_fuel(t, false, ParsingIndex::Key, empty_entry(), Seq::empty(), s.len() as nat, s.len() as nat);
    match spec_parse_obj(t, false, ParsingIndex::Key, empty_entry(), Seq::empty(), s.len() as nat) {
        SpecParsed::Done { value, rest } => {
            lemma_obj_fuel(
                rest,
                instring,
                idx,
                SpecEntry { key: cur.key, value: SpecValue::Object(value) },
                res,
                s.len() as nat,
                (rest.len() + 1) as nat,
            );
        },
        SpecParsed::Fail { .. } => {},
        SpecParsed::OutOfFuel => {},
    }
}

/// Any step budget above the input length gives the object parser the same
/// outcome, never exhaustion, and a remainder no longer than the input.
pub proof fn lemma_obj_fuel(
    s: Seq<SpecChar>,
    instring: bool,
    idx: ParsingIndex,
    cur: SpecEntry,
    res: Seq<SpecEntry>,
    f1: nat,
    f2: nat,
)
    requires
        f1 > s.len(),
        f2 > s.len(),
    ensures
        spec_parse_obj(s, instring, idx, cur, res, f1) == spec_parse_obj(
            s,
            instring,
            idx,
            cur,
            res,
            f2,
        ),
        !(spec_parse_obj(s, instring, idx, cur, res, f1) is OutOfFuel),
        spec_parse_obj(s, instring, idx, cur, res, f1) matches SpecParsed::Done { rest, .. }
            ==> rest.len() <= s.len(),
    decreases f1,
{
    if s.len() == 0 {
    } else {
        let e = s[0];
        let t = s.drop_first();
        let g1 = (f1 - 1) as nat;
        let g2 = (f2 - 1) as nat;
        if e.ch == '"' {
            if idx == ParsingIndex::Value {
                match spec_item_push(cur, e, idx) {
                    Ok(nc) => lemma_obj_fuel(t, !instring, idx, nc, res, g1, g2),
                    Err(_) => {},
                }
            } else {
                lemma_obj_fuel(t, !instring, idx, cur, res, g1, g2);
            }
        } else if instring {
            match spec_item_push(cur, e, idx) {
                Ok(nc) => lemma_obj_fuel(t, instring, idx, nc, res, g1, g2),
                Err(_) => {},
            }
        } else if e.ch == ':' {
            lemma_obj_fuel(t, instring, ParsingIndex::Value, cur, res, g1, g2);
        } else if e.ch == ',' {
            lemma_obj_fuel(t, instring, ParsingIndex::Key, empty_entry(), res.push(cur), g1, g2);
        } else if e.ch == '}' {
        } else if e.ch == '{' {
            lemma_obj_fuel(t, false, ParsingIndex::Key, empty_entry(), Seq::empty(), g1, g2);
            match spec_parse_obj(t, false, ParsingIndex::Key, empty_entry(), Seq::empty(), g1) {
                SpecParsed::Done { value: d, rest } => {
                    lemma_obj_fuel(
                        rest,
                        instring,
                        idx,
                        SpecEntry { key: cur.key, value: SpecValue::Object(d) },
                        res,
                        g1,
                        g2,
                    );
                },
                SpecParsed::Fail { .. } => {},
                SpecParsed::OutOfFuel => {},
            }
        } else if e.ch == '[' {
            lemma_arr_fuel(t, Seq::empty(), g1, g2);
            match spec_parse_arr(t, Seq::empty(), g1) {
                SpecParsed::Done { value: es, rest } => {
                    lemma_obj_fuel(
                        rest,
                        instring,
                        idx,
                        SpecEntry { key: cur.key, value: SpecValue::List(es) },
                        res,
                        g1,
                        g2,
                    );
                },
                SpecParsed::Fail { .. } => {},
                SpecParsed::OutOfFuel => {},
            }
        } else if e.ch == ']' {
        } else {
            match spec_item_push(cur, e, idx) {
                Ok(nc) => lemma_obj_fuel(t, instring, idx, nc, res, g1, g2),
                Err(_) => {},
            }
        }
    }
}

/// Any step budget above the input length gives the array parser the same
/// outcome, never exhaustion, and a remainder no longer than the input.
pub proof fn lemma_arr_fuel(s: Seq<SpecChar>, res: Seq<SpecValue>, f1: nat, f2: nat)
    requires
        f1 > s.len(),
        f2 > s.len(),
    ensures
        spec_parse_arr(s, res, f1) == spec_parse_arr(s, res, f2),
        !(spec_parse_arr(s, res, f1) is OutOfFuel),
        spec_parse_arr(s, res, f1) matches SpecParsed::Done { rest, .. } ==> rest.len()
            <= s.len(),
    decreases f1,
{
    if s.len() == 0 {
    } else {
        let e = s[0];
        let t = s.drop_first();
        let g1 = (f1 - 1) as nat;
        let g2 = (f2 - 1) as nat;
        if e.ch == ']' {
        } else if e.ch == '[' {
            lemma_arr_fuel(t, Seq::empty(), g1, g2);
            match spec_parse_arr(t, Seq::empty(), g1) {
                SpecParsed::Done { value: es, rest } => {
                    lemma_arr_fuel(rest, spec_drop_empty(res) + es, g1, g2);
                },
                SpecParsed::Fail { .. } => {},
                SpecParsed::OutOfFuel => {},
            }
        } else if e.ch == '{' {
            lemma_obj_fuel(t, false, ParsingIndex::Key, empty_entry(), Seq::empty(), g1, g2);
            match spec_parse_obj(t, false, ParsingIndex::Key, empty_entry(), Seq::empty(), g1) {
                SpecParsed::Done { value: d, rest } => {
                    lemma_arr_fuel(rest, spec_drop_empty(res).push(SpecValue::Object(d)), g1, g2);
                },
                SpecParsed::Fail { .. } => {},
                SpecParsed::OutOfFuel => {},
            }
        } else if e.ch == '}' {
        } else if e.ch == ',' {
            lemma_arr_fuel(t, res.push(SpecValue::Scalar(Seq::empty())), g1, g2);
        } else {
            match spec_push_last(res, e) {
                Ok(nr) => lemma_arr_fuel(t, nr, g1, g2),
                Err(_) => {},
            }
        }
    }
}

/// Drops a trailing structurally-empty element, as `spec_drop_empty` states.
fn drop_empty_last(v: Vec<ParsedValue>) -> (r: Vec<ParsedValue>)
    ensures
        values_view(r@) == spec_drop_empty(values_view(v@)),
{
    let mut v = v;
    let ghost v0 = v@;
    proof {
        if v0.len() > 0 {
            lemma_values_view_last(v0);
        } else {
            assert(values_view(v0) =~= Seq::<SpecValue>::empty());
        }
    }
    if v.len() > 0 {
        if v[v.len() - 1].is_empty() {
            v.pop();
            proof {
                assert(v@ =~= v0.drop_last());
            }
        }
    }
    v
}

/// Appends one character to the last gathered element, as `spec_push_last`
/// states.
fn push_last(v: Vec<ParsedValue>, ch: ParseCharElt) -> (res: SResult<Vec<ParsedValue>>)
    ensures
        match res {
            Ok(r) => spec_push_last(values_view(v@), char_view(ch)) == Ok::<
                Seq<SpecValue>,
                SpecErr,
            >(values_view(r@)),
            Err(e) => spec_push_last(values_view(v@), char_view(ch)) == Err::<
                Seq<SpecValue>,
                SpecErr,
            >(err_view(e)) && e.kind == ParseErrorKind::MissingComma,
        },
{
    let mut v = v;
    let ghost v0 = v@;
    if v.len() == 0 {
        let mut s = String::new();
        crate::strutil::push_char(&mut s, ch.ch);
        let nv = ParsedValue::Value(s);
        proof {
            assert(s@ =~= seq![char_view(ch).ch]);
            lemma_values_view_push(v0, nv);
            assert(values_view(v0) =~= Seq::<SpecValue>::empty());
            assert(values_view(v0.push(nv)) =~= seq![SpecValue::Scalar(seq![char_view(ch).ch])]);
        }
        v.push(nv);
        Ok(v)
    } else {
        proof {
            lemma_values_view_last(v0);
        }
        let last = v.pop().unwrap();
        match last.push(ch) {
            Ok(nv) => {
                v.push(nv);
                proof {
                    crate::tree::lemma_values_view_update_last(v0, nv);
                    assert(v@ =~= v0.update(v0.len() - 1, nv));
                }
                Ok(v)
            },
            Err(e) => Err(e),
        }
    }
}

/// Parses the stack as an array, draining it up to and including the closing
/// bracket. The result and the leftover stack are exactly what the parser
/// model `spec_parse_array` yields on the stack's reading-order stream; on an
/// error, the model fails with that very error.
pub fn parse_array(content: &mut Vec<ParseCharElt>) -> (res: SResult<Vec<ParsedValue>>)
    ensures
        ({
            let sp = spec_parse_array(stream_view(old(content)@).reverse());
            match res {
                Ok(vals) => sp == (SpecParsed::<Seq<SpecValue>>::Done {
                    value: values_view(vals@),
                    rest: stream_view(final(content)@).reverse(),
                }),
                Err(e) => sp == (SpecParsed::<Seq<SpecValue>>::Fail { err: err_view(e) }),
            }
        }),
        res matches Err(e) ==> (e.kind == ParseErrorKind::UnexpectedEndOfInput
            ==> final(content)@.len() == 0),
    decreases old(content)@.len(),
{
    let ghost s0 = stream_view(content@).reverse();
    let mut result: Vec<ParsedValue> = Vec::new();
    proof {
        assert(values_view(result@) =~= Seq::<SpecValue>::empty());
    }
    while content.len() > 0
        invariant
            content@.len() <= old(content)@.len(),
            s0 == stream_view(old(content)@).reverse(),
            spec_parse_array(s0) == spec_parse_arr(
                stream_view(content@).reverse(),
                values_view(result@),
                content@.len() + 1,
            ),
        decreases content@.len(),
    {
        let ghost pre = content@;
        let ghost spre = stream_view(pre).reverse();
        let ghost n = pre.len();
        let ghost res0 = values_view(result@);
        proof {
            lemma_pop_stream(pre);
        }
        let elt = content.pop().unwrap();
        let ghost e = char_view(elt);
        proof {
            assert(content@ =~= pre.drop_last());
            assert(stream_view(content@).reverse() == spre.drop_first());
            assert(spre[0] == e);
        }
        match elt.ch {
            ']' => {
                let out = drop_empty_last(result);
                return Ok(out);
            },
            '[' => {
                result = drop_empty_last(result);
                proof {
                    let t = stream_view(content@).reverse();
                    lemma_arr_fuel(t, Seq::empty(), n as nat, n as nat);
                }
                match parse_array(content) {
                    Ok(mut array) => {
                        let ghost t = spre.drop_first();
                        let ghost rest2 = stream_view(content@).reverse();
                        let ghost es = values_view(array@);
                        proof {
                            lemma_values_view_concat(result@, array@);
                            lemma_arr_fuel(
                                rest2,
                                spec_drop_empty(res0) + es,
                                n as nat,
                                (rest2.len() + 1) as nat,
                            );
                        }
                        result.append(&mut array);
                    },
                    Err(err) => {
                        return Err(err);
                    },
                }
            },
            '{' => {
                result = drop_empty_last(result);
                proof {
                    let t = stream_view(content@).reverse();
                    lemma_obj_fuel(
                        t,
                        false,
                        ParsingIndex::Key,
                        empty_entry(),
                        Seq::empty(),
                        n as nat,
                        n as nat,
                    );
                }
                match parse_json(content) {
                    Ok(obj) => {
                        let ghost rest2 = stream_view(content@).reverse();
                        let nv = ParsedValue::Object(obj);
                        proof {
                            lemma_values_view_push(result@, nv);
                            lemma_arr_fuel(
                                rest2,
                                spec_drop_empty(res0).push(value_view(nv)),
                                n as nat,
                                (rest2.len() + 1) as nat,
                            );
                        }
                        result.push(nv);
                    },
                    Err(err) => {
                        return Err(err);
                    },
                }
            },
            '}' => {
                return Err(
                    ParseError { kind: ParseErrorKind::MismatchedClosingBrace, at: Some(elt) },
                );
            },
            ',' => {
                let nv = ParsedValue::Value(String::new());
                proof {
                    lemma_values_view_push(result@, nv);
                }
                result.push(nv);
            },
            _ => {
                result = match push_last(result, elt) {
                    Ok(r) => r,
                    Err(err) => {
                        return Err(err);
                    },
                };
            },
        }
    }
    Err(ParseError { kind: ParseErrorKind::UnexpectedEndOfInput, at: None })
}

/// Parses the stack as an object, draining it up to and including the brace
/// that closes it (or the whole stack when no such brace comes). The result
/// and the leftover stack are exactly what the parser model `spec_parse_json`
/// yields on the stack's reading-order stream; on an error, the model fails
/// with that very error.
pub fn parse_json(content: &mut Vec<ParseCharElt>) -> (res: SResult<Parsed>)
    ensures
        ({
            let sp = spec_parse_json(stream_view(old(content)@).reverse());
            match res {
                Ok(p) => sp == (SpecParsed::<Seq<SpecEntry>>::Done {
                    value: entries_view(p@),
                    rest: stream_view(final(content)@).reverse(),
                }),
                Err(e) => sp == (SpecParsed::<Seq<SpecEntry>>::Fail { err: err_view(e) }),
            }
        }),
        res matches Err(e) ==> (e.kind == ParseErrorKind::UnexpectedEndOfInput
            ==> final(content)@.len() == 0),
    decreases old(content)@.len(),
{
    let ghost s0 = stream_view(content@).reverse();
    let mut instring = false;
    let mut result: Parsed = Vec::new();
    let mut current = ParsingItem::default();
    let mut idx = ParsingIndex::Key;
    let mut done = false;
    proof {
        assert(entries_view(result@) =~= Seq::<SpecEntry>::empty());
    }
    while !done && content.len() > 0
        invariant
            content@.len() <= old(content)@.len(),
            s0 == stream_view(old(content)@).reverse(),
            !done ==> spec_parse_json(s0) == spec_parse_obj(
                stream_view(content@).reverse(),
                instring,
                idx,
                item_view(current),
                entries_view(result@),
                content@.len() + 1,
            ),
            done ==> spec_parse_json(s0) == (SpecParsed::Done {
                value: entries_view(result@).push(item_view(current)),
                rest: stream_view(content@).reverse(),
            }),
        decreases content@.len(),
    {
        let ghost pre = content@;
        let ghost spre = stream_view(pre).reverse();
        let ghost n = pre.len();
        let ghost cur0 = item_view(current);
        let ghost res0 = entries_view(result@);
        proof {
            lemma_pop_stream(pre);
        }
        let elt = content.pop().unwrap();
        let ghost e = char_view(elt);
        proof {
            assert(content@ =~= pre.drop_last());
            assert(stream_view(content@).reverse() == spre.drop_first());
            assert(spre[0] == e);
        }
        match elt.ch {
            '"' => {
                if idx == ParsingIndex::Value {
                    current = match current.push(elt, &idx) {
                        Ok(c) => c,
                        Err(err) => {
                            return Err(err);
                        },
                    };
                }
                instring = !instring;
            },
            _ if instring => {
                current = match current.push(elt, &idx) {
                    Ok(c) => c,
                    Err(err) => {
                        return Err(err);
                    },
                };
            },
            ':' => {
                idx = ParsingIndex::Value;
            },
            ',' => {
                idx = ParsingIndex::Key;
                proof {
                    lemma_entries_view_push(result@, current);
                }
                result.push(current);
                current = ParsingItem::default();
            },
            '}' => {
                done = true;
            },
            '{' => {
                proof {
                    let t = stream_view(content@).reverse();
                    lemma_obj_fuel(
                        t,
                        false,
                        ParsingIndex::Key,
                        empty_entry(),
                        Seq::empty(),
                        n as nat,
                        n as nat,
                    );
                }
                match parse_json(content) {
                    Ok(d) => {
                        let ghost rest2 = stream_view(content@).reverse();
                        let ghost dv = entries_view(d@);
                        let ParsingItem { key, value: _ } = current;
                        current = ParsingItem { key, value: ParsedValue::Object(d) };
                        proof {
                            lemma_obj_fuel(
                                rest2,
                                instring,
                                idx,
                                item_view(current),
                                res0,
                                n as nat,
                                (rest2.len() + 1) as nat,
                            );
                        }
                    },
                    Err(err) => {
                        return Err(err);
                    },
                }
            },
            '[' => {
                proof {
                    let t = stream_view(content@).reverse();
                    lemma_arr_fuel(t, Seq::empty(), n as nat, n as nat);
                }
                match parse_array(content) {
                    Ok(array) => {
                        let ghost rest2 = stream_view(content@).reverse();
                        let ParsingItem { key, value: _ } = current;
                        current = ParsingItem { key, value: ParsedValue::Array(array) };
                        proof {
                            lemma_obj_fuel(
                                rest2,
                                instring,
                                idx,
                                item_view(current),
                                res0,
                                n as nat,
                                (rest2.len() + 1) as nat,
                            );
                        }
                    },
                    Err(err) => {
                        return Err(err);
                    },
                }
            },
            ']' => {
                return Err(
                    ParseError { kind: ParseErrorKind::MismatchedClosingBracket, at: Some(elt) },
                );
            },
            _ => {
                current = match current.push(elt, &idx) {
                    Ok(c) => c,
                    Err(err) => {
                        return Err(err);
                    },
                };
            },
        }
    }
    proof {
        lemma_entries_view_push(result@, current);
    }
    result.push(current);
    Ok(result)
}

} // verus!
