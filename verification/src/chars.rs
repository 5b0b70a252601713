use vstd::prelude::*;

verus! {

/// One non-whitespace input character, annotated with the source label and the
/// zero-based line and column where it was read.
#[derive(Debug)]
pub struct ParseCharElt {
    pub ch: char,
    pub path: String,
    pub line: usize,
    pub col: usize,
}

/// The mathematical image of a `ParseCharElt`.
pub struct SpecChar {
    pub ch: char,
    pub path: Seq<char>,
    pub line: nat,
    pub col: nat,
}

pub open spec fn char_view(e: ParseCharElt) -> SpecChar {
    SpecChar { ch: e.ch, path: e.path@, line: e.line as nat, col: e.col as nat }
}

/// The characters of a stack, each taken to its mathematical image.
pub open spec fn stream_view(s: Seq<ParseCharElt>) -> Seq<SpecChar> {
    Seq::new(s.len(), |i: int| char_view(s[i]))
}

/// The whitespace characters: exactly the set that `char::is_whitespace`
/// recognises (the Unicode `White_Space` property).
pub open spec fn is_ws_char(c: char) -> bool {
    c == ' ' || c == '\t' || c == '\n' || c == '\r' || c == '\u{0b}' || c == '\u{0c}'
        || c == '\u{85}' || c == '\u{a0}' || c == '\u{1680}' || c == '\u{2000}' || c == '\u{2001}'
        || c == '\u{2002}' || c == '\u{2003}' || c == '\u{2004}' || c == '\u{2005}'
        || c == '\u{2006}' || c == '\u{2007}' || c == '\u{2008}' || c == '\u{2009}'
        || c == '\u{200a}' || c == '\u{2028}' || c == '\u{2029}' || c == '\u{202f}'
        || c == '\u{205f}' || c == '\u{3000}'
}

pub fn is_ws(c: char) -> (r: bool)
    ensures
        r == is_ws_char(c),
{
    c == ' ' || c == '\t' || c == '\n' || c == '\r' || c == '\u{0b}' || c == '\u{0c}'
        || c == '\u{85}' || c == '\u{a0}' || c == '\u{1680}' || c == '\u{2000}' || c == '\u{2001}'
        || c == '\u{2002}' || c == '\u{2003}' || c == '\u{2004}' || c == '\u{2005}'
        || c == '\u{2006}' || c == '\u{2007}' || c == '\u{2008}' || c == '\u{2009}'
        || c == '\u{200a}' || c == '\u{2028}' || c == '\u{2029}' || c == '\u{202f}'
        || c == '\u{205f}' || c == '\u{3000}'
}

/// One produced token in front of the tokens that follow it.
pub open spec fn tok_cons(c: char, path: Seq<char>, line: nat, col: nat, rest: Seq<SpecChar>) -> Seq<SpecChar> {
    seq![SpecChar { ch: c, path: path, line: line, col: col }] + rest
}

/// The produced token written out, element by element.
pub proof fn lemma_tok_cons(c: char, path: Seq<char>, line: nat, col: nat, rest: Seq<SpecChar>)
    ensures
        tok_cons(c, path, line, col, rest).len() == 1 + rest.len(),
        tok_cons(c, path, line, col, rest)[0].ch == c,
        tok_cons(c, path, line, col, rest)[0].path == path,
        tok_cons(c, path, line, col, rest)[0].line == line,
        tok_cons(c, path, line, col, rest)[0].col == col,
        forall|i: int|
            0 <= i < rest.len() ==> tok_cons(c, path, line, col, rest)[1 + i] == rest[i],
{
}

/// The positioned non-whitespace characters of `text`, in reading order.
/// A line break moves to column zero of the next line; every other character,
/// whitespace included, advances the column by one.
pub open spec fn tok_spec(text: Seq<char>, path: Seq<char>, line: nat, col: nat) -> Seq<SpecChar>
    decreases text.len(),
{
    if text.len() == 0 {
        Seq::empty()
    } else {
        let c = text[0];
        let rest = text.drop_first();
        if c == '\n' {
            tok_spec(rest, path, line + 1, 0)
        } else if is_ws_char(c) {
            tok_spec(rest, path, line, col + 1)
        } else {
            tok_cons(c, path, line, col, tok_spec(rest, path, line, col + 1))
        }
    }
}

/// One step of the tokenizer, written out.
pub proof fn lemma_tok_spec_step(text: Seq<char>, path: Seq<char>, line: nat, col: nat)
    requires
        text.len() > 0,
    ensures
        text[0] == '\n' ==> tok_spec(text, path, line, col) == tok_spec(
            text.drop_first(),
            path,
            line + 1,
            0,
        ),
        text[0] != '\n' && is_ws_char(text[0]) ==> tok_spec(text, path, line, col) == tok_spec(
            text.drop_first(),
            path,
            line,
            col + 1,
        ),
        text[0] != '\n' && !is_ws_char(text[0]) ==> tok_spec(text, path, line, col) == tok_cons(
            text[0],
            path,
            line,
            col,
            tok_spec(text.drop_first(), path, line, col + 1),
        ),
{
}

/// The token stack handed to the parser: the positioned non-whitespace
/// characters of `text`, reversed so that repeated removal of the last element
/// yields them in reading order.
pub open spec fn tokens_of(text: Seq<char>, path: Seq<char>) -> Seq<SpecChar> {
    tok_spec(text, path, 0, 0).reverse()
}

pub fn string2parsechar(path: &str, content: &str) -> (r: Vec<ParseCharElt>)
    ensures
        stream_view(r@) == tokens_of(content@, path@),
{
    let n = content.unicode_len();
    let mut out: Vec<ParseCharElt> = Vec::new();
    let mut i: usize = 0;
    let mut line: usize = 0;
    let mut col: usize = 0;
    proof {
        assert(content@.skip(0) =~= content@);
        assert(stream_view(out@) + tok_spec(content@, path@, 0, 0) =~= tok_spec(
            content@,
            path@,
            0,
            0,
        ));
    }
    while i < n
        invariant
            n as nat == content@.len(),
            i <= n,
            line <= i,
            col <= i,
            tok_spec(content@, path@, 0, 0) == stream_view(out@) + tok_spec(
                content@.skip(i as int),
                path@,
                line as nat,
                col as nat,
            ),
        decreases n - i,
    {
        let c = content.get_char(i);
        proof {
            assert(content@.skip(i as int)[0] == c);
            assert(content@.skip(i as int).drop_first() =~= content@.skip(i + 1));
        }
        if c == '\n' {
            line = line + 1;
            col = 0;
        } else if is_ws(c) {
            col = col + 1;
        } else {
            let e = ParseCharElt { ch: c, path: path.to_owned(), line, col };
            proof {
                let old_out = out@;
                let sc = SpecChar { ch: c, path: path@, line: line as nat, col: col as nat };
                assert(stream_view(old_out.push(e)) =~= stream_view(old_out) + seq![sc]);
            }
            out.push(e);
            col = col + 1;
        }
        i = i + 1;
    }
    proof {
        assert(content@.skip(n as int) =~= Seq::<char>::empty());
        assert(tok_spec(content@, path@, 0, 0) =~= stream_view(out@));
    }
    reverse_stack(out)
}

/// Removing the top of the stack removes the front of the reading-order
/// stream.
pub proof fn lemma_pop_stream(pre: Seq<ParseCharElt>)
    requires
        pre.len() > 0,
    ensures
        stream_view(pre).reverse().len() == pre.len(),
        stream_view(pre).reverse()[0] == char_view(pre.last()),
        stream_view(pre).reverse().drop_first() == stream_view(pre.drop_last()).reverse(),
{
    assert(stream_view(pre).reverse()[0] == char_view(pre.last()));
    assert(stream_view(pre).reverse().drop_first() =~= stream_view(pre.drop_last()).reverse());
}

/// Reverses a character stack.
fn reverse_stack(v: Vec<ParseCharElt>) -> (r: Vec<ParseCharElt>)
    ensures
        stream_view(r@) == stream_view(v@).reverse(),
{
    let mut v = v;
    let mut r: Vec<ParseCharElt> = Vec::new();
    let ghost orig = v@;
    while v.len() > 0
        invariant
            stream_view(r@) + stream_view(v@).reverse() =~= stream_view(orig).reverse(),
        decreases v@.len(),
    {
        let ghost pre = v@;
        let ghost pre_r = r@;
        let e = v.pop().unwrap();
        r.push(e);
        proof {
            assert(stream_view(pre).reverse()[0] == char_view(pre.last()));
            assert(stream_view(r@) =~= stream_view(pre_r).push(char_view(e)));
            assert(stream_view(v@).reverse() =~= stream_view(pre).reverse().drop_first());
            assert(stream_view(r@) + stream_view(v@).reverse() =~= stream_view(orig).reverse());
        }
    }
    proof {
        assert(stream_view(v@).reverse() =~= Seq::<SpecChar>::empty());
        assert(stream_view(r@) =~= stream_view(orig).reverse());
    }
    r
}

} // verus!
