use vstd::prelude::*;

use crate::chars::{char_view, ParseCharElt, SpecChar};
use crate::errors::{ParseError, ParseErrorKind, SpecErr, SResult};
use crate::strutil::push_char;

verus! {

/// The mathematical tree: a scalar text, an ordered list of values, or an
/// ordered list of key/value entries.
pub enum SpecValue {
    Scalar(Seq<char>),
    List(Seq<SpecValue>),
    Object(Seq<SpecEntry>),
}

/// One key/value entry of an object, mathematically.
pub struct SpecEntry {
    pub key: Seq<char>,
    pub value: SpecValue,
}

/// The parsed tree: a scalar accumulating text, a nested array, or a nested
/// key/value block.
#[derive(Debug)]
pub enum ParsedValue {
    Value(String),
    Array(Vec<ParsedValue>),
    Object(Vec<ParsingItem>),
}

/// One key/value entry under construction or in a parsed document.
#[derive(Debug)]
pub struct ParsingItem {
    pub key: String,
    pub value: ParsedValue,
}

/// A parsed document: the ordered entries of the top-level object.
pub type Parsed = Vec<ParsingItem>;

/// Whether the parser is filling the key or the value of the current entry.
#[derive(PartialEq, Eq, Structural, Clone, Copy)]
pub enum ParsingIndex {
    Key,
    Value,
}

pub open spec fn value_view(v: ParsedValue) -> SpecValue
    decreases v,
{
    match v {
        ParsedValue::Value(s) => SpecValue::Scalar(s@),
        ParsedValue::Array(a) => SpecValue::List(values_view(a@)),
        ParsedValue::Object(o) => SpecValue::Object(entries_view(o@)),
    }
}

pub open spec fn values_view(s: Seq<ParsedValue>) -> Seq<SpecValue>
    decreases s,
{
    if s.len() == 0 {
        Seq::empty()
    } else {
        seq![value_view(s[0])] + values_view(s.drop_first())
    }
}

pub open spec fn item_view(it: ParsingItem) -> SpecEntry
    decreases it,
{
    SpecEntry { key: it.key@, value: value_view(it.value) }
}

pub open spec fn entries_view(s: Seq<ParsingItem>) -> Seq<SpecEntry>
    decreases s,
{
    if s.len() == 0 {
        Seq::empty()
    } else {
        seq![item_view(s[0])] + entries_view(s.drop_first())
    }
}

/// Structural emptiness: a scalar with no text; a list or object that has no
/// elements, or whose last element is itself empty.
pub open spec fn spec_is_empty(v: SpecValue) -> bool
    decreases v,
{
    match v {
        SpecValue::Scalar(t) => t.len() == 0,
        SpecValue::List(es) => es.len() == 0 || spec_is_empty(es.last()),
        SpecValue::Object(en) => en.len() == 0 || spec_is_empty(en.last().value),
    }
}

/// What appending one character does to a value: a scalar grows by the
/// character; a list grows its last element (or starts a fresh scalar when it
/// has none); appending to an object means a separator was missed.
pub open spec fn spec_value_push(v: SpecValue, e: SpecChar) -> Result<SpecValue, SpecErr>
    decreases v,
{
    match v {
        SpecValue::Scalar(t) => Ok(SpecValue::Scalar(t.push(e.ch))),
        SpecValue::List(es) => if es.len() == 0 {
            Ok(SpecValue::List(seq![SpecValue::Scalar(seq![e.ch])]))
        } else {
            match spec_value_push(es.last(), e) {
                Ok(nv) => Ok(SpecValue::List(es.update(es.len() - 1, nv))),
                Err(err) => Err(err),
            }
        },
        SpecValue::Object(_) => Err(
            SpecErr { kind: ParseErrorKind::MissingComma, at: Some(e) },
        ),
    }
}

/// What appending one character does to an entry under construction: in key
/// mode it extends the key, in value mode it extends the value.
pub open spec fn spec_item_push(it: SpecEntry, e: SpecChar, idx: ParsingIndex) -> Result<
    SpecEntry,
    SpecErr,
> {
    match idx {
        ParsingIndex::Key => Ok(SpecEntry { key: it.key.push(e.ch), value: it.value }),
        ParsingIndex::Value => match spec_value_push(it.value, e) {
            Ok(nv) => Ok(SpecEntry { key: it.key, value: nv }),
            Err(err) => Err(err),
        },
    }
}

/// A failed character append is always the missing-comma error at that
/// character.
pub proof fn lemma_value_push_err(v: SpecValue, e: SpecChar)
    ensures
        spec_value_push(v, e) matches Err(err) ==> err == (SpecErr {
            kind: ParseErrorKind::MissingComma,
            at: Some(e),
        }),
    decreases v,
{
    match v {
        SpecValue::List(es) => {
            if es.len() > 0 {
                lemma_value_push_err(es.last(), e);
            }
        },
        _ => {},
    }
}

impl Default for ParsedValue {
    fn default() -> (r: Self)
        ensures
            value_view(r) == SpecValue::Scalar(Seq::<char>::empty()),
    {
        ParsedValue::Value(String::new())
    }
}

impl Default for ParsingItem {
    fn default() -> (r: Self)
        ensures
            item_view(r) == (SpecEntry {
                key: Seq::<char>::empty(),
                value: SpecValue::Scalar(Seq::<char>::empty()),
            }),
    {
        ParsingItem { key: String::new(), value: ParsedValue::default() }
    }
}

impl ParsedValue {
    pub fn push(self, ch: ParseCharElt) -> (res: SResult<ParsedValue>)
        ensures
            match res {
                Ok(nv) => spec_value_push(value_view(self), char_view(ch)) == Ok::<
                    SpecValue,
                    SpecErr,
                >(value_view(nv)),
                Err(e) => spec_value_push(value_view(self), char_view(ch)) == Err::<
                    SpecValue,
                    SpecErr,
                >(err_of(e)) && e.kind == ParseErrorKind::MissingComma,
            },
        decreases self,
    {
        match self {
            ParsedValue::Value(mut s) => {
                push_char(&mut s, ch.ch);
                Ok(ParsedValue::Value(s))
            },
            ParsedValue::Array(mut arr) => {
                let ghost varr = arr@;
                if arr.len() == 0 {
                    let mut s = String::new();
                    push_char(&mut s, ch.ch);
                    let nv = ParsedValue::Value(s);
                    proof {
                        assert(s@ =~= seq![char_view(ch).ch]);
                        lemma_values_view_push(varr, nv);
                        assert(varr =~= Seq::<ParsedValue>::empty());
                        assert(values_view(varr.push(nv)) == values_view(varr).push(
                            SpecValue::Scalar(seq![char_view(ch).ch]),
                        ));
                        assert(values_view(varr.push(nv)) =~= seq![
                            SpecValue::Scalar(seq![char_view(ch).ch]),
                        ]);
                    }
                    arr.push(nv);
                    Ok(ParsedValue::Array(arr))
                } else {
                    let last = arr.pop().unwrap();
                    proof {
                        assert(varr[varr.len() - 1] == last);
                        lemma_values_view_last(varr);
                        assert(values_view(varr).last() == value_view(last));
                    }
                    match last.push(ch) {
                        Ok(nv) => {
                            arr.push(nv);
                            proof {
                                lemma_values_view_update_last(varr, nv);
                                assert(arr@ =~= varr.update(varr.len() - 1, nv));
                            }
                            Ok(ParsedValue::Array(arr))
                        },
                        Err(e) => Err(e),
                    }
                }
            },
            ParsedValue::Object(_) => Err(
                ParseError { kind: ParseErrorKind::MissingComma, at: Some(ch) },
            ),
        }
    }

    /// Structural emptiness, as `spec_is_empty` states it.
    pub fn is_empty(&self) -> (r: bool)
        ensures
            r == spec_is_empty(value_view(*self)),
        decreases self,
    {
        match self {
            ParsedValue::Value(s) => s.as_str().is_empty(),
            ParsedValue::Array(arr) => {
                if arr.len() == 0 {
                    true
                } else {
                    proof {
                        lemma_values_view_last(arr@);
                    }
                    arr[arr.len() - 1].is_empty()
                }
            },
            ParsedValue::Object(obj) => {
                if obj.len() == 0 {
                    true
                } else {
                    proof {
                        lemma_entries_view_last(obj@);
                    }
                    obj[obj.len() - 1].value.is_empty()
                }
            },
        }
    }
}

pub open spec fn err_of(e: ParseError) -> SpecErr {
    crate::errors::err_view(e)
}

impl ParsingItem {
    pub fn push(self, ch: ParseCharElt, idx: &ParsingIndex) -> (res: SResult<ParsingItem>)
        ensures
            match res {
                Ok(ni) => spec_item_push(item_view(self), char_view(ch), *idx) == Ok::<
                    SpecEntry,
                    SpecErr,
                >(item_view(ni)),
                Err(e) => spec_item_push(item_view(self), char_view(ch), *idx) == Err::<
                    SpecEntry,
                    SpecErr,
                >(err_of(e)) && e.kind == ParseErrorKind::MissingComma,
            },
    {
        match idx {
            ParsingIndex::Key => {
                let mut key = self.key;
                push_char(&mut key, ch.ch);
                Ok(ParsingItem { key, value: self.value })
            },
            ParsingIndex::Value => {
                match self.value.push(ch) {
                    Ok(nv) => Ok(ParsingItem { key: self.key, value: nv }),
                    Err(e) => Err(e),
                }
            },
        }
    }
}

/// Entry equality goes by the key alone.
impl PartialEq for ParsingItem {
    fn eq(&self, other: &Self) -> (r: bool) {
        self.key == other.key
    }
}

impl vstd::std_specs::cmp::PartialEqSpecImpl for ParsingItem {
    open spec fn obeys_eq_spec() -> bool {
        true
    }

    open spec fn eq_spec(&self, other: &Self) -> bool {
        self.key@ == other.key@
    }
}

pub proof fn lemma_values_view_len(s: Seq<ParsedValue>)
    ensures
        values_view(s).len() == s.len(),
        forall|i: int| 0 <= i < s.len() ==> values_view(s)[i] == value_view(s[i]),
    decreases s,
{
    if s.len() > 0 {
        lemma_values_view_len(s.drop_first());
    }
}

pub proof fn lemma_entries_view_len(s: Seq<ParsingItem>)
    ensures
        entries_view(s).len() == s.len(),
        forall|i: int| 0 <= i < s.len() ==> entries_view(s)[i] == item_view(s[i]),
    decreases s,
{
    if s.len() > 0 {
        lemma_entries_view_len(s.drop_first());
    }
}

pub proof fn lemma_values_view_last(s: Seq<ParsedValue>)
    requires
        s.len() > 0,
    ensures
        values_view(s).len() == s.len(),
        values_view(s).last() == value_view(s.last()),
        values_view(s.drop_last()) == values_view(s).drop_last(),
{
    lemma_values_view_len(s);
    lemma_values_view_len(s.drop_last());
    assert(values_view(s.drop_last()) =~= values_view(s).drop_last());
}

pub proof fn lemma_entries_view_last(s: Seq<ParsingItem>)
    requires
        s.len() > 0,
    ensures
        entries_view(s).len() == s.len(),
        entries_view(s).last() == item_view(s.last()),
{
    lemma_entries_view_len(s);
}

pub proof fn lemma_values_view_update_last(s: Seq<ParsedValue>, nv: ParsedValue)
    requires
        s.len() > 0,
    ensures
        values_view(s.update(s.len() - 1, nv)) == values_view(s).update(
            s.len() - 1,
            value_view(nv),
        ),
{
    lemma_values_view_len(s);
    lemma_values_view_len(s.update(s.len() - 1, nv));
    assert(values_view(s.update(s.len() - 1, nv)) =~= values_view(s).update(
        s.len() - 1,
        value_view(nv),
    ));
}

pub proof fn lemma_values_view_push(s: Seq<ParsedValue>, v: ParsedValue)
    ensures
        values_view(s.push(v)) == values_view(s).push(value_view(v)),
{
    lemma_values_view_len(s);
    lemma_values_view_len(s.push(v));
    assert(values_view(s.push(v)) =~= values_view(s).push(value_view(v)));
}

pub proof fn lemma_values_view_concat(a: Seq<ParsedValue>, b: Seq<ParsedValue>)
    ensures
        values_view(a + b) == values_view(a) + values_view(b),
{
    lemma_values_view_len(a);
    lemma_values_view_len(b);
    lemma_values_view_len(a + b);
    assert(values_view(a + b) =~= values_view(a) + values_view(b));
}

pub proof fn lemma_entries_view_concat(a: Seq<ParsingItem>, b: Seq<ParsingItem>)
    ensures
        entries_view(a + b) == entries_view(a) + entries_view(b),
{
    lemma_entries_view_len(a);
    lemma_entries_view_len(b);
    lemma_entries_view_len(a + b);
    assert(entries_view(a + b) =~= entries_view(a) + entries_view(b));
}

pub proof fn lemma_entries_view_push(s: Seq<ParsingItem>, it: ParsingItem)
    ensures
        entries_view(s.push(it)) == entries_view(s).push(item_view(it)),
{
    lemma_entries_view_len(s);
    lemma_entries_view_len(s.push(it));
    assert(entries_view(s.push(it)) =~= entries_view(s).push(item_view(it)));
}

} // verus!
