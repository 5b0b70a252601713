use vstd::prelude::*;

use crate::strutil::push_char;
use crate::tree::{
    entries_view, item_view, lemma_entries_view_len, lemma_values_view_len, value_view,
    values_view, Parsed, ParsedValue, ParsingItem, SpecEntry, SpecValue,
};

verus! {

/// Saturating step used for nesting levels: the level plus `k`, unless that
/// leaves the machine range, in which case the level is kept.
pub open spec fn bump(tab: nat, k: nat) -> nat {
    if tab + k <= usize::MAX as nat {
        (tab + k) as nat
    } else {
        tab
    }
}

/// The level below `tab`, floored at zero.
pub open spec fn dec(tab: nat) -> nat {
    if tab >= 1 {
        (tab - 1) as nat
    } else {
        0
    }
}

/// Four spaces per indentation level; a level too large to multiply within
/// the machine range falls back to one space per level.
pub open spec fn indent_len(tab: nat) -> nat {
    if tab <= (usize::MAX as nat) / 4 {
        4 * tab
    } else {
        tab
    }
}

pub open spec fn indent_view(tab: nat) -> Seq<char> {
    Seq::new(indent_len(tab), |i: int| ' ')
}

/// The text of one rendered entry: the indentation, the quoted key, the
/// separator, then the value (a scalar verbatim; a list at two levels deeper;
/// an object one level deeper).
pub open spec fn render_entry(e: SpecEntry, tab: nat) -> Seq<char>
    decreases e, 0nat,
{
    indent_view(bump(tab, 1)) + "\""@ + e.key + "\": "@ + match e.value {
        SpecValue::Scalar(t) => t,
        SpecValue::List(l) => render_arr(l, bump(tab, 2)),
        SpecValue::Object(o) => render_doc(o, bump(tab, 1), false),
    }
}

/// The rendered entries in order, separated by a comma and a line break.
pub open spec fn render_entries(es: Seq<SpecEntry>, tab: nat) -> Seq<char>
    decreases es, 0nat,
{
    if es.len() == 0 {
        Seq::empty()
    } else {
        render_entry(es[0], tab) + (if es.len() > 1 {
            ",\n"@
        } else {
            Seq::<char>::empty()
        }) + render_entries(es.drop_first(), tab)
    }
}

/// The text of a rendered object: an opening brace (preceded by a line break
/// and the wrapping indentation when `start_indent` holds), the entries, then
/// the closing brace on its own indented line.
pub open spec fn render_doc(es: Seq<SpecEntry>, tab: nat, start_indent: bool) -> Seq<char>
    decreases es, 1nat,
{
    (if start_indent {
        "\n"@ + indent_view(tab) + "{\n"@
    } else {
        "{\n"@
    }) + render_entries(es, tab) + "\n"@ + indent_view(tab) + "}"@
}

/// The text of one rendered list element: a scalar on its own indented line;
/// a nested list one level deeper; a nested object at the same level with a
/// leading break.
pub open spec fn render_elt(v: SpecValue, tab: nat) -> Seq<char>
    decreases v, 0nat,
{
    match v {
        SpecValue::Scalar(t) => "\n"@ + indent_view(tab) + t,
        SpecValue::List(l) => render_arr(l, bump(tab, 1)),
        SpecValue::Object(o) => render_doc(o, tab, true),
    }
}

/// The closing bracket of a list on its own de-indented line.
pub open spec fn close_text(tab: nat) -> Seq<char> {
    "\n"@ + indent_view(dec(tab)) + "]"@
}

/// The rendered list elements: comma-separated, with the closing bracket on
/// its own de-indented line after the last one (a list with no elements still
/// closes its bracket, so every rendered list is bracket-balanced).
pub open spec fn render_elts(es: Seq<SpecValue>, tab: nat) -> Seq<char>
    decreases es, 0nat,
{
    if es.len() == 0 {
        close_text(tab)
    } else {
        render_elt(es[0], tab) + (if es.len() > 1 {
            ","@ + render_elts(es.drop_first(), tab)
        } else {
            close_text(tab)
        })
    }
}

/// The text of a rendered list: the opening bracket, then the elements.
pub open spec fn render_arr(es: Seq<SpecValue>, tab: nat) -> Seq<char>
    decreases es, 1nat,
{
    "["@ + render_elts(es, tab)
}

/// The saturating level step, executable.
fn bump_usize(tab: usize, k: usize) -> (r: usize)
    ensures
        r as nat == bump(tab as nat, k as nat),
{
    if tab <= usize::MAX - k {
        tab + k
    } else {
        tab
    }
}

/// The indentation text for a nesting level: four spaces per level.
pub fn int2indent(tab: usize) -> (r: String)
    ensures
        r@ == indent_view(tab as nat),
{
    let k = if tab <= usize::MAX / 4 {
        4 * tab
    } else {
        tab
    };
    let mut s = String::new();
    let mut i: usize = 0;
    while i < k
        invariant
            i <= k,
            k as nat == indent_len(tab as nat),
            s@ =~= Seq::new(i as nat, |j: int| ' '),
        decreases k - i,
    {
        push_char(&mut s, ' ');
        proof {
            assert(s@ =~= Seq::new(i as nat + 1, |j: int| ' '));
        }
        i = i + 1;
    }
    proof {
        assert(s@ =~= indent_view(tab as nat));
    }
    s
}

/// Rendering to indented text.
pub trait LocalToString {
    /// The exact text `to_string` produces.
    spec fn rendered(&self, tab: nat, start_indent: bool) -> Seq<char>;

    fn to_string(&self, tab: usize, start_indent: bool) -> (r: String)
        ensures
            r@ == self.rendered(tab as nat, start_indent),
    ;
}

impl LocalToString for Parsed {
    open spec fn rendered(&self, tab: nat, start_indent: bool) -> Seq<char> {
        render_doc(entries_view(self@), tab, start_indent)
    }

    fn to_string(&self, tab: usize, start_indent: bool) -> (r: String)
        decreases self, 1nat,
    {
        let ghost entries = entries_view(self@);
        let ghost tabn = tab as nat;
        proof {
            lemma_entries_view_len(self@);
        }
        let wrap_indent = int2indent(tab);
        let elt_tab = bump_usize(tab, 1);
        let elt_indent = int2indent(elt_tab);
        let subelt_tab = bump_usize(tab, 2);
        let mut buffer = String::new();
        if start_indent {
            buffer.append("\n");
            buffer.append(wrap_indent.as_str());
            buffer.append("{\n");
        } else {
            buffer.append("{\n");
        }
        let ghost head = buffer@;
        proof {
            assert(entries.skip(0) =~= entries);
            assert(buffer@ + render_entries(entries.skip(0), tabn) =~= head + render_entries(
                entries,
                tabn,
            ));
        }
        let mut i: usize = 0;
        while i < self.len()
            invariant
                i <= self.len(),
                entries == entries_view(self@),
                entries.len() == self@.len(),
                tabn == tab as nat,
                elt_tab as nat == bump(tabn, 1),
                subelt_tab as nat == bump(tabn, 2),
                elt_indent@ == indent_view(bump(tabn, 1)),
                buffer@ + render_entries(entries.skip(i as int), tabn) == head + render_entries(
                    entries,
                    tabn,
                ),
            decreases self@.len() - i,
        {
            let ghost b0 = buffer@;
            proof {
                lemma_entries_view_len(self@);
                assert(entries.skip(i as int)[0] == item_view(self@[i as int]));
                assert(entries.skip(i as int).drop_first() =~= entries.skip(i as int + 1));
            }
            let item = &self[i];
            buffer.append(elt_indent.as_str());
            buffer.append("\"");
            buffer.append(item.key.as_str());
            buffer.append("\": ");
            match &item.value {
                ParsedValue::Value(val) => {
                    buffer.append(val.as_str());
                },
                ParsedValue::Array(arr) => {
                    let s = arr.to_string(subelt_tab, false);
                    buffer.append(s.as_str());
                },
                ParsedValue::Object(obj) => {
                    let s = obj.to_string(elt_tab, false);
                    buffer.append(s.as_str());
                },
            }
            proof {
                assert(buffer@ =~= b0 + render_entry(entries.skip(i as int)[0], tabn));
            }
            if i + 1 < self.len() {
                buffer.append(",\n");
            }
            proof {
                assert(buffer@ + render_entries(entries.skip(i as int + 1), tabn) =~= head
                    + render_entries(entries, tabn));
            }
            i = i + 1;
        }
        proof {
            assert(entries.skip(i as int) =~= Seq::<SpecEntry>::empty());
            assert(buffer@ =~= head + render_entries(entries, tabn));
        }
        buffer.append("\n");
        buffer.append(wrap_indent.as_str());
        buffer.append("}");
        proof {
            assert(buffer@ =~= render_doc(entries, tabn, start_indent));
        }
        buffer
    }
}

impl LocalToString for Vec<ParsedValue> {
    open spec fn rendered(&self, tab: nat, start_indent: bool) -> Seq<char> {
        render_arr(values_view(self@), tab)
    }

    fn to_string(&self, tab: usize, _start_indent: bool) -> (r: String)
        decreases self, 0nat,
    {
        let ghost elts = values_view(self@);
        let ghost tabn = tab as nat;
        proof {
            lemma_values_view_len(self@);
        }
        let nl_indent = int2indent(tab);
        let sub = if tab >= 1 {
            tab - 1
        } else {
            0
        };
        let close_indent = int2indent(sub);
        let in_tab = bump_usize(tab, 1);
        let mut buffer = "[".to_owned();
        let ghost head = buffer@;
        proof {
            assert(elts.skip(0) =~= elts);
            assert(buffer@ + render_elts(elts.skip(0), tabn) =~= head + render_elts(elts, tabn));
        }
        let mut i: usize = 0;
        while i < self.len()
            invariant
                i <= self.len(),
                elts == values_view(self@),
                elts.len() == self@.len(),
                tabn == tab as nat,
                in_tab as nat == bump(tabn, 1),
                nl_indent@ == indent_view(tabn),
                close_indent@ == indent_view(dec(tabn)),
                head == "["@,
                self.len() == 0 ==> buffer@ == head,
                i < self.len() ==> buffer@ + render_elts(elts.skip(i as int), tabn) == head
                    + render_elts(elts, tabn),
                i == self.len() && self.len() > 0 ==> buffer@ == head + render_elts(elts, tabn),
            decreases self@.len() - i,
        {
            let ghost b0 = buffer@;
            proof {
                lemma_values_view_len(self@);
                assert(elts.skip(i as int)[0] == value_view(self@[i as int]));
                assert(elts.skip(i as int).drop_first() =~= elts.skip(i as int + 1));
            }
            match &self[i] {
                ParsedValue::Value(val) => {
                    buffer.append("\n");
                    buffer.append(nl_indent.as_str());
                    buffer.append(val.as_str());
                },
                ParsedValue::Array(arr) => {
                    let s = arr.to_string(in_tab, true);
                    buffer.append(s.as_str());
                },
                ParsedValue::Object(obj) => {
                    let s = obj.to_string(tab, true);
                    buffer.append(s.as_str());
                },
            }
            proof {
                assert(buffer@ =~= b0 + render_elt(elts.skip(i as int)[0], tabn));
            }
            if i + 1 < self.len() {
                buffer.append(",");
                proof {
                    assert(buffer@ + render_elts(elts.skip(i as int + 1), tabn) =~= head
                        + render_elts(elts, tabn));
                }
            } else {
                buffer.append("\n");
                buffer.append(close_indent.as_str());
                buffer.append("]");
                proof {
                    assert(buffer@ =~= head + render_elts(elts, tabn));
                }
            }
            i = i + 1;
        }
        if self.len() == 0 {
            buffer.append("\n");
            buffer.append(close_indent.as_str());
            buffer.append("]");
            proof {
                assert(elts.len() == 0);
                assert(render_elts(elts, tabn) == close_text(tabn));
                assert(close_text(tabn) == "\n"@ + indent_view(dec(tabn)) + "]"@);
                assert(buffer@ =~= head + render_elts(elts, tabn));
                assert(buffer@ =~= render_arr(elts, tabn));
            }
        }
        proof {
            assert(buffer@ =~= render_arr(elts, tabn));
        }
        buffer
    }
}

} // verus!
