use vstd::prelude::*;

use crate::chars::{append_chars, chars_eq, chars_of, slice, string_of};
use crate::context::Context;
use crate::data::{has_fun, lemma_entry_fun, lemma_item_fun, table_get, Data, Lambda};
use crate::error::Error;
use crate::parser::{compiled, flat_seq, flat_tok, parse, plain_text, Event, Token};

verus! {

/// How deep partials and callbacks may nest while rendering.
pub const MAX_DEPTH: usize = 100;

/// A compiled template: its tokens and the tokens of each partial it includes.
pub struct Template {
    pub ctx: Context,
    pub tokens: Vec<Token>,
    pub partials: Vec<(Vec<char>, Vec<Token>)>,
}

/// Builds a `Template` from its parts.
pub fn new(ctx: Context, tokens: Vec<Token>, partials: Vec<(Vec<char>, Vec<Token>)>) -> (r:
    Template)
    ensures
        r.ctx == ctx,
        r.tokens == tokens,
        r.partials == partials,
{
    Template { ctx, tokens, partials }
}

/// The tokens of the partial named `name`: the first entry under that name.
pub open spec fn partial_get(ps: Seq<(Vec<char>, Vec<Token>)>, name: Seq<char>) -> Option<
    Vec<Token>,
>
    decreases ps.len(),
{
    if ps.len() == 0 {
        None
    } else if ps[0].0@ == name {
        Some(ps[0].1)
    } else {
        partial_get(ps.drop_first(), name)
    }
}

pub open spec fn deref_all(s: Seq<&Data>) -> Seq<Data> {
    s.map_values(|d: &Data| *d)
}

/// The value that `key` names from the frames `s[0..n)`, the innermost (last)
/// table holding it first. A frame that is not a table stops the search.
pub open spec fn lookup_frames(s: Seq<Data>, key: Seq<char>, n: int) -> Result<Option<Data>, Error>
    decreases n,
{
    if n <= 0 {
        Ok(None)
    } else {
        match s[n - 1] {
            Data::Table(t) => match table_get(t@, key) {
                Some(v) => Ok(Some(v)),
                None => lookup_frames(s, key, n - 1),
            },
            _ => Err(Error::UnexpectedValue),
        }
    }
}

/// Follows `path[k..]` down through nested tables from `v`.
pub open spec fn walk(v: Data, path: Seq<String>, k: int) -> Option<Data>
    decreases path.len() - k,
{
    if k >= path.len() {
        Some(v)
    } else {
        match v {
            Data::Table(t) => match table_get(t@, path[k]@) {
                Some(w) => walk(w, path, k + 1),
                None => None,
            },
            _ => None,
        }
    }
}

/// Resolves a path against the stack: the empty path is the innermost frame;
/// otherwise the first segment anchors in the innermost table that has it, and
/// the rest is walked from there with no further fallback.
pub open spec fn find_spec(path: Seq<String>, s: Seq<Data>) -> Result<Option<Data>, Error> {
    if path.len() == 0 {
        if s.len() == 0 {
            Ok(None)
        } else {
            Ok(Some(s.last()))
        }
    } else {
        match lookup_frames(s, path[0]@, s.len() as int) {
            Err(e) => Err(e),
            Ok(None) => Ok(None),
            Ok(Some(v)) => Ok(walk(v, path, 1)),
        }
    }
}

/// The HTML entity for a character, or the character itself.
pub open spec fn escape_char(c: char) -> Seq<char> {
    if c == '<' {
        seq!['&', 'l', 't', ';']
    } else if c == '>' {
        seq!['&', 'g', 't', ';']
    } else if c == '&' {
        seq!['&', 'a', 'm', 'p', ';']
    } else if c == '"' {
        seq!['&', 'q', 'u', 'o', 't', ';']
    } else if c == '\'' {
        seq!['&', '#', '3', '9', ';']
    } else {
        seq![c]
    }
}

/// `s` with each character replaced by `escape_char`.
pub open spec fn escape(s: Seq<char>) -> Seq<char>
    decreases s.len(),
{
    if s.len() == 0 {
        Seq::empty()
    } else {
        escape(s.drop_last()) + escape_char(s.last())
    }
}

/// `t` with `ind` written before each line that does not start with a newline;
/// `at_start` says whether `t` begins a line.
pub open spec fn indented(ind: Seq<char>, t: Seq<char>, at_start: bool) -> Seq<char>
    decreases t.len(),
{
    if t.len() == 0 {
        Seq::empty()
    } else {
        (if at_start && t[0] != '\n' {
            ind.push(t[0])
        } else {
            seq![t[0]]
        }) + indented(ind, t.drop_first(), t[0] == '\n')
    }
}

/// A section shows its children once (or once per item) for these values.
pub open spec fn shows_section(v: Option<Data>) -> bool {
    match v {
        Some(Data::Bool(b)) => b,
        Some(Data::Vec(items)) => items.len() > 0,
        Some(Data::Table(_)) => true,
        _ => false,
    }
}

/// An inverted section shows its children for these values only.
pub open spec fn shows_inverted(v: Option<Data>) -> bool {
    match v {
        None => true,
        Some(Data::Bool(b)) => !b,
        Some(Data::Vec(items)) => items.len() == 0,
        _ => false,
    }
}

/// The path of a variable tag.
pub open spec fn tag_path(t: Token) -> Seq<String> {
    match t {
        Token::ETag(p) => p@,
        Token::UTag(p) => p@,
        _ => Seq::empty(),
    }
}

/// Why rendering stopped describing its output: an error, or a callback that
/// was handed the text, opening and closing delimiters given here. What a
/// callback answers is its own affair, so what follows it is not described.
pub enum Halt {
    Fail(Error),
    Call(Seq<char>, Seq<char>, Seq<char>),
}

/// What a variable tag writes before escaping: a string after the indentation;
/// a callback is handed the empty text with the default delimiters.
pub open spec fn utag_spec(s: Seq<Data>, indent: Seq<char>, path: Seq<String>, fuel: nat) -> Result<
    Seq<char>,
    Halt,
> {
    match find_spec(path, s) {
        Err(e) => Err(Halt::Fail(e)),
        Ok(Some(Data::Str(v))) => Ok(indent + v@),
        Ok(Some(Data::Fun(_))) => if fuel == 0 {
            Err(Halt::Fail(Error::TooDeep))
        } else {
            Err(Halt::Call(Seq::empty(), seq!['{', '{'], seq!['}', '}']))
        },
        _ => Ok(Seq::empty()),
    }
}

/// The output of the first `n` tokens of `toks`, for data without callbacks.
pub open spec fn render_seq(
    ps: Seq<(Vec<char>, Vec<Token>)>,
    s: Seq<Data>,
    indent: Seq<char>,
    toks: Vec<Token>,
    n: int,
    fuel: nat,
) -> Result<Seq<char>, Halt>
    decreases fuel, toks, n,
{
    if n <= 0 || n > toks.len() {
        Ok(Seq::empty())
    } else {
        match render_seq(ps, s, indent, toks, n - 1, fuel) {
            Err(e) => Err(e),
            Ok(a) => match render_tok(ps, s, indent, toks@[n - 1], fuel) {
                Err(e) => Err(e),
                Ok(b) => Ok(a + b),
            },
        }
    }
}

/// The output of `children` once for each of the first `k` items, each pushed in turn.
pub open spec fn render_each(
    ps: Seq<(Vec<char>, Vec<Token>)>,
    s: Seq<Data>,
    indent: Seq<char>,
    children: Vec<Token>,
    items: Seq<Data>,
    k: int,
    fuel: nat,
) -> Result<Seq<char>, Halt>
    decreases fuel, children, children.len() + k + 1,
{
    if k <= 0 || k > items.len() {
        Ok(Seq::empty())
    } else {
        match render_each(ps, s, indent, children, items, k - 1, fuel) {
            Err(e) => Err(e),
            Ok(a) => match render_seq(
                ps,
                s.push(items[k - 1]),
                indent,
                children,
                children.len() as int,
                fuel,
            ) {
                Err(e) => Err(e),
                Ok(b) => Ok(a + b),
            },
        }
    }
}

/// The output of one token, for data without callbacks.
pub open spec fn render_tok(
    ps: Seq<(Vec<char>, Vec<Token>)>,
    s: Seq<Data>,
    indent: Seq<char>,
    tok: Token,
    fuel: nat,
) -> Result<Seq<char>, Halt>
    decreases fuel, tok, 0int,
{
    match tok {
        Token::Text(t) => Ok(indented(indent, t@, true)),
        Token::ETag(path) => match utag_spec(s, indent, path@, fuel) {
            Err(e) => Err(e),
            Ok(o) => Ok(escape(o)),
        },
        Token::UTag(path) => utag_spec(s, indent, path@, fuel),
        Token::Section { path, inverted, children, otag, ctag, src } => match find_spec(path@, s) {
            Err(e) => Err(Halt::Fail(e)),
            Ok(v) => if inverted {
                if shows_inverted(v) {
                    render_seq(ps, s, indent, children, children.len() as int, fuel)
                } else {
                    Ok(Seq::empty())
                }
            } else {
                match v {
                    Some(Data::Bool(true)) => render_seq(
                        ps,
                        s,
                        indent,
                        children,
                        children.len() as int,
                        fuel,
                    ),
                    Some(Data::Vec(items)) => render_each(
                        ps,
                        s,
                        indent,
                        children,
                        items@,
                        items.len() as int,
                        fuel,
                    ),
                    Some(Data::Table(t)) => render_seq(
                        ps,
                        s.push(Data::Table(t)),
                        indent,
                        children,
                        children.len() as int,
                        fuel,
                    ),
                    Some(Data::Str(_)) => Err(Halt::Fail(Error::UnexpectedValue)),
                    Some(Data::Fun(_)) => if fuel == 0 {
                        Err(Halt::Fail(Error::TooDeep))
                    } else if otag@.len() == 0 || ctag@.len() == 0 {
                        Err(Halt::Fail(Error::UnexpectedValue))
                    } else {
                        Err(Halt::Call(src@, otag@, ctag@))
                    },
                    _ => Ok(Seq::empty()),
                }
            },
        },
        Token::Partial { name, indent: own } => match partial_get(ps, name@) {
            None => Ok(Seq::empty()),
            Some(ptoks) => if fuel == 0 {
                Err(Halt::Fail(Error::TooDeep))
            } else {
                render_seq(ps, s, indent + own@, ptoks, ptoks.len() as int, (fuel - 1) as nat)
            },
        },
    }
}

/// What the template writes for `data`, up to the first callback reached.
pub open spec fn rendered(t: Template, data: Data) -> Result<Seq<char>, Halt> {
    render_seq(t.partials@, seq![data], Seq::empty(), t.tokens, t.tokens.len() as int, MAX_DEPTH as nat)
}

fn slice_all(v: &Vec<char>) -> (r: Vec<char>)
    ensures
        r@ == v@,
{
    let r = slice(v, 0, v.len());
    assert(v@.subrange(0, v@.len() as int) =~= v@);
    r
}

/// Once the first `k` tokens fail, every longer prefix fails the same way.
proof fn lemma_seq_err(
    ps: Seq<(Vec<char>, Vec<Token>)>,
    s: Seq<Data>,
    indent: Seq<char>,
    toks: Vec<Token>,
    k: int,
    n: int,
    fuel: nat,
)
    requires
        render_seq(ps, s, indent, toks, k, fuel) is Err,
        0 <= k <= n <= toks.len(),
    ensures
        render_seq(ps, s, indent, toks, n, fuel) == render_seq(ps, s, indent, toks, k, fuel),
    decreases n - k,
{
    if n > k {
        lemma_seq_err(ps, s, indent, toks, k, n - 1, fuel);
    }
}

/// Once the first `k` items fail, every longer prefix fails the same way.
proof fn lemma_each_err(
    ps: Seq<(Vec<char>, Vec<Token>)>,
    s: Seq<Data>,
    indent: Seq<char>,
    children: Vec<Token>,
    items: Seq<Data>,
    k: int,
    n: int,
    fuel: nat,
)
    requires
        render_each(ps, s, indent, children, items, k, fuel) is Err,
        0 <= k <= n <= items.len(),
    ensures
        render_each(ps, s, indent, children, items, n, fuel) == render_each(
            ps,
            s,
            indent,
            children,
            items,
            k,
            fuel,
        ),
    decreases n - k,
{
    if n > k {
        lemma_each_err(ps, s, indent, children, items, k, n - 1, fuel);
    }
}

/// `r` is the outcome of writing onto `before`, giving `after`, as `s` describes it.
/// With the callbacks handed `cb` before and `ca` after: the output is
/// described and no callback was called, or the error is returned and no
/// callback was called, or the first callback called was handed what `s` says.
pub open spec fn wrote(
    r: Result<(), Error>,
    before: Seq<char>,
    after: Seq<char>,
    cb: Seq<(Seq<char>, Seq<char>, Seq<char>)>,
    ca: Seq<(Seq<char>, Seq<char>, Seq<char>)>,
    s: Result<Seq<char>, Halt>,
) -> bool {
    match s {
        Ok(o) => r is Ok && after == before + o && ca == cb,
        Err(Halt::Fail(e)) => r == Err::<(), Error>(e) && ca == cb,
        Err(Halt::Call(t, o, c)) => ca.len() > cb.len() && ca[cb.len() as int] == (t, o, c),
    }
}

/// Part way through a sequence: what is described so far was written with no
/// callback called, or the first callback called was handed what `s` says.
pub open spec fn progress(
    before: Seq<char>,
    after: Seq<char>,
    cb: Seq<(Seq<char>, Seq<char>, Seq<char>)>,
    ca: Seq<(Seq<char>, Seq<char>, Seq<char>)>,
    s: Result<Seq<char>, Halt>,
) -> bool {
    match s {
        Ok(o) => after == before + o && ca == cb,
        Err(Halt::Call(t, o, c)) => ca.len() > cb.len() && ca[cb.len() as int] == (t, o, c),
        Err(Halt::Fail(_)) => false,
    }
}

/// The log `ca` continues the log `cb`.
pub open spec fn extends(
    cb: Seq<(Seq<char>, Seq<char>, Seq<char>)>,
    ca: Seq<(Seq<char>, Seq<char>, Seq<char>)>,
) -> bool {
    cb.len() <= ca.len() && forall|i: int| 0 <= i < cb.len() ==> ca[i] == cb[i]
}

proof fn lemma_extends_trans(
    a: Seq<(Seq<char>, Seq<char>, Seq<char>)>,
    b: Seq<(Seq<char>, Seq<char>, Seq<char>)>,
    c: Seq<(Seq<char>, Seq<char>, Seq<char>)>,
)
    requires
        extends(a, b),
        extends(b, c),
    ensures
        extends(a, c),
{
}

/// An entry of a log stays when the log is continued.
proof fn lemma_extends_keeps(
    a: Seq<(Seq<char>, Seq<char>, Seq<char>)>,
    b: Seq<(Seq<char>, Seq<char>, Seq<char>)>,
    c: Seq<(Seq<char>, Seq<char>, Seq<char>)>,
)
    requires
        a.len() < b.len(),
        extends(b, c),
    ensures
        c[a.len() as int] == b[a.len() as int],
{
}

pub open spec fn opt_deref(o: Option<&Data>) -> Option<Data> {
    match o {
        Some(d) => Some(*d),
        None => None,
    }
}

/// The value stored under `key` among the entries of a table.
fn table_find<'c>(t: &'c Vec<(String, Data)>, key: &String) -> (r: Option<&'c Data>)
    ensures
        opt_deref(r) == table_get(t@, key@),
        r matches Some(d) ==> exists|i: int| 0 <= i < t@.len() && t@[i].1 == *d,
{
    let mut i: usize = 0;
    assert(t@.subrange(0, t@.len() as int) =~= t@);
    while i < t.len()
        invariant
            i <= t.len(),
            table_get(t@, key@) == table_get(t@.subrange(i as int, t@.len() as int), key@),
        decreases t.len() - i,
    {
        assert(t@.subrange(i as int, t@.len() as int).drop_first() =~= t@.subrange(
            i + 1,
            t@.len() as int,
        ));
        if t[i].0 == *key {
            return Some(&t[i].1);
        }
        i = i + 1;
    }
    None
}

/// The tokens of the partial named `name`.
fn partial_find<'b>(ps: &'b Vec<(Vec<char>, Vec<Token>)>, name: &Vec<char>) -> (r: Option<
    &'b Vec<Token>,
>)
    ensures
        match r {
            Some(t) => partial_get(ps@, name@) == Some(*t),
            None => partial_get(ps@, name@) is None,
        },
{
    let mut i: usize = 0;
    assert(ps@.subrange(0, ps@.len() as int) =~= ps@);
    while i < ps.len()
        invariant
            i <= ps.len(),
            partial_get(ps@, name@) == partial_get(ps@.subrange(i as int, ps@.len() as int), name@),
        decreases ps.len() - i,
    {
        assert(ps@.subrange(i as int, ps@.len() as int).drop_first() =~= ps@.subrange(
            i + 1,
            ps@.len() as int,
        ));
        if chars_eq(&ps[i].0, name) {
            return Some(&ps[i].1);
        }
        i = i + 1;
    }
    None
}

/// Searches the frames `stack[0..n)` for `key`, innermost first.
fn lookup<'c>(stack: &Vec<&'c Data>, key: &String, n: usize) -> (r: Result<Option<&'c Data>, Error>)
    requires
        n <= stack.len(),
    ensures
        match lookup_frames(deref_all(stack@), key@, n as int) {
            Ok(o) => r is Ok && opt_deref(r->Ok_0) == o,
            Err(e) => r == Err::<Option<&'c Data>, Error>(e),
        },
    decreases n,
{
    if n == 0 {
        return Ok(None);
    }
    let frame: &'c Data = stack[n - 1];
    assert(deref_all(stack@)[n - 1] == *frame);
    match frame {
        Data::Table(t) => match table_find(t, key) {
            Some(v) => {
                Ok(Some(v))
            },
            None => lookup(stack, key, n - 1),
        },
        _ => Err(Error::UnexpectedValue),
    }
}

/// Follows `path[k..]` down from `v`.
fn walk_exec<'c>(v: &'c Data, path: &Vec<String>, k: usize) -> (r: Option<&'c Data>)
    requires
        k <= path.len(),
    ensures
        opt_deref(r) == walk(*v, path@, k as int),
    decreases path.len() - k,
{
    if k >= path.len() {
        return Some(v);
    }
    match v {
        Data::Table(t) => match table_find(t, &path[k]) {
            Some(w) => walk_exec(w, path, k + 1),
            None => None,
        },
        _ => None,
    }
}

/// The state of one rendering: the template and the indentation in force.
struct RenderContext<'a> {
    template: &'a Template,
    indent: Vec<char>,
    /// What each callback was handed so far: text, opening and closing delimiters.
    calls: Ghost<Seq<(Seq<char>, Seq<char>, Seq<char>)>>,
}

impl<'a> RenderContext<'a> {
    fn new(template: &'a Template) -> (r: RenderContext<'a>)
        ensures
            r.template == template,
            r.indent@.len() == 0,
    {
        RenderContext { template, indent: Vec::new(), calls: Ghost(Seq::empty()) }
    }

    /// Resolves `path` against the stack.
    fn find<'c>(&self, path: &Vec<String>, stack: &Vec<&'c Data>) -> (r: Result<
        Option<&'c Data>,
        Error,
    >)
        ensures
            match find_spec(path@, deref_all(stack@)) {
                Ok(o) => r is Ok && opt_deref(r->Ok_0) == o,
                Err(e) => r == Err::<Option<&'c Data>, Error>(e),
            },
        {
        if path.len() == 0 {
            if stack.len() == 0 {
                return Ok(None);
            }
            let top: &'c Data = stack[stack.len() - 1];
            assert(deref_all(stack@).last() == *top);
            return Ok(Some(top));
        }
        match lookup(stack, &path[0], stack.len()) {
            Err(e) => Err(e),
            Ok(None) => Ok(None),
            Ok(Some(v)) => Ok(walk_exec(v, path, 1)),
        }
    }

    /// Writes `value`, with the indentation before each line that is not empty.
    fn render_text(&self, out: &mut Vec<char>, value: &Vec<char>)
        ensures
            final(out)@ == old(out)@ + indented(self.indent@, value@, true),
    {
        let mut at_start = true;
        let mut i: usize = 0;
        assert(value@.subrange(0, value@.len() as int) =~= value@);
        while i < value.len()
            invariant
                i <= value.len(),
                old(out)@ + indented(self.indent@, value@, true) == out@ + indented(
                    self.indent@,
                    value@.subrange(i as int, value@.len() as int),
                    at_start,
                ),
            decreases value.len() - i,
        {
            let ghost rest = value@.subrange(i as int, value@.len() as int);
            assert(rest.drop_first() =~= value@.subrange(i + 1, value@.len() as int));
            let c = value[i];
            if at_start && c != '\n' {
                append_chars(out, &self.indent);
            }
            out.push(c);
            proof {
                if at_start && c != '\n' {
                    assert(self.indent@.push(c) =~= self.indent@ + seq![c]);
                }
            }
            assert(out@ + indented(self.indent@, rest.drop_first(), c == '\n') =~= old(out)@
                + indented(self.indent@, value@, true));
            at_start = c == '\n';
            i = i + 1;
        }
        assert(value@.subrange(value@.len() as int, value@.len() as int) =~= Seq::<char>::empty());
        assert(out@ =~= old(out)@ + indented(self.indent@, value@, true));
    }

    /// Renders `tokens` in order, stopping at the first error.
    fn render<'c>(
        &mut self,
        out: &mut Vec<char>,
        stack: &mut Vec<&'c Data>,
        tokens: &Vec<Token>,
        depth: usize,
    ) -> (r: Result<(), Error>)
        ensures
            final(self).template == old(self).template,
            final(self).indent@ == old(self).indent@,
            final(stack)@ == old(stack)@,
            extends(old(self).calls@, final(self).calls@),
            wrote(
                r,
                old(out)@,
                final(out)@,
                old(self).calls@,
                final(self).calls@,
                render_seq(
                    old(self).template.partials@,
                    deref_all(old(stack)@),
                    old(self).indent@,
                    *tokens,
                    tokens.len() as int,
                    depth as nat,
                ),
            ),
        decreases depth, *tokens, 0int,
    {
        let ghost ps = self.template.partials@;
        let ghost s0 = deref_all(stack@);
        let ghost ind = self.indent@;
        let mut i: usize = 0;
        while i < tokens.len()
            invariant
                i <= tokens.len(),
                self.template == old(self).template,
                self.indent@ == old(self).indent@,
                stack@ == old(stack)@,
                ps == old(self).template.partials@,
                s0 == deref_all(old(stack)@),
                ind == old(self).indent@,
                extends(old(self).calls@, self.calls@),
                progress(
                    old(out)@,
                    out@,
                    old(self).calls@,
                    self.calls@,
                    render_seq(ps, s0, ind, *tokens, i as int, depth as nat),
                ),
            decreases tokens.len() - i,
        {
            let ghost out_mid = out@;
            let ghost calls_mid = self.calls@;
            let r = self.render_token(out, stack, &tokens[i], depth);
            proof {
                lemma_extends_trans(old(self).calls@, calls_mid, self.calls@);
                let pre = render_seq(ps, s0, ind, *tokens, i as int, depth as nat);
                let tok = render_tok(ps, s0, ind, tokens@[i as int], depth as nat);
                if pre is Ok {
                    assert(calls_mid == old(self).calls@);
                    if tok is Ok {
                        assert(out@ =~= old(out)@ + (pre->Ok_0 + tok->Ok_0));
                    }
                } else {
                    lemma_extends_keeps(old(self).calls@, calls_mid, self.calls@);
                }
            }
            if r.is_err() {
                proof {
                    lemma_seq_err(ps, s0, ind, *tokens, i + 1, tokens.len() as int, depth as nat);
                }
                return r;
            }
            i = i + 1;
        }
        Ok(())
    }

    /// Renders one token.
    fn render_token<'c>(
        &mut self,
        out: &mut Vec<char>,
        stack: &mut Vec<&'c Data>,
        token: &Token,
        depth: usize,
    ) -> (r: Result<(), Error>)
        ensures
            final(self).template == old(self).template,
            final(self).indent@ == old(self).indent@,
            final(stack)@ == old(stack)@,
            extends(old(self).calls@, final(self).calls@),
            wrote(
                r,
                old(out)@,
                final(out)@,
                old(self).calls@,
                final(self).calls@,
                render_tok(
                    old(self).template.partials@,
                    deref_all(old(stack)@),
                    old(self).indent@,
                    *token,
                    depth as nat,
                ),
            ),
        decreases depth, *token, 5int,
    {
        match token {
            Token::Text(value) => {
                self.render_text(out, value);
                Ok(())
            },
            Token::ETag(_) => self.render_etag(out, stack, token, depth),
            Token::UTag(_) => self.render_utag(out, stack, token, depth),
            Token::Section { path, inverted, children, otag, ctag, src } => {
                if *inverted {
                    self.render_inverted_section(out, stack, path, children, depth)
                } else {
                    self.render_section(out, stack, path, children, src, otag, ctag, depth)
                }
            },
            Token::Partial { .. } => self.render_partial(out, stack, token, depth),
        }
    }

    /// Writes a variable HTML-escaped.
    fn render_etag<'c>(
        &mut self,
        out: &mut Vec<char>,
        stack: &mut Vec<&'c Data>,
        token: &Token,
        depth: usize,
    ) -> (r: Result<(), Error>)
        requires
            token is ETag || token is UTag,
        ensures
            final(self).template == old(self).template,
            final(self).indent@ == old(self).indent@,
            final(stack)@ == old(stack)@,
            extends(old(self).calls@, final(self).calls@),
            wrote(
                r,
                old(out)@,
                final(out)@,
                old(self).calls@,
                final(self).calls@,
                match utag_spec(
                    deref_all(old(stack)@),
                    old(self).indent@,
                    tag_path(*token),
                    depth as nat,
                ) {
                    Err(e) => Err(e),
                    Ok(o) => Ok(escape(o)),
                },
            ),
        decreases depth, *token, 4int,
    {
        let mut buf: Vec<char> = Vec::new();
        let r = self.render_utag(&mut buf, stack, token, depth);
        if r.is_err() {
            return r;
        }
        let mut i: usize = 0;
        while i < buf.len()
            invariant
                i <= buf.len(),
                out@ == old(out)@ + escape(buf@.subrange(0, i as int)),
            decreases buf.len() - i,
        {
            let c = buf[i];
            if c == '<' {
                out.push('&'); out.push('l'); out.push('t'); out.push(';');
            } else if c == '>' {
                out.push('&'); out.push('g'); out.push('t'); out.push(';');
            } else if c == '&' {
                out.push('&'); out.push('a'); out.push('m'); out.push('p'); out.push(';');
            } else if c == '"' {
                out.push('&'); out.push('q'); out.push('u'); out.push('o'); out.push('t'); out.push(';');
            } else if c == '\'' {
                out.push('&'); out.push('#'); out.push('3'); out.push('9'); out.push(';');
            } else {
                out.push(c);
            }
            assert(buf@.subrange(0, i + 1).drop_last() =~= buf@.subrange(0, i as int));
            assert(out@ =~= old(out)@ + escape(buf@.subrange(0, i + 1)));
            i = i + 1;
        }
        assert(buf@.subrange(0, buf@.len() as int) =~= buf@);
        assert(buf@ =~= Seq::<char>::empty() + buf@);
        Ok(())
    }

    /// Writes a variable raw: text as it stands, a callback's answer rendered as a template.
    fn render_utag<'c>(
        &mut self,
        out: &mut Vec<char>,
        stack: &mut Vec<&'c Data>,
        token: &Token,
        depth: usize,
    ) -> (r: Result<(), Error>)
        requires
            token is ETag || token is UTag,
        ensures
            final(self).template == old(self).template,
            final(self).indent@ == old(self).indent@,
            final(stack)@ == old(stack)@,
            extends(old(self).calls@, final(self).calls@),
            wrote(
                r,
                old(out)@,
                final(out)@,
                old(self).calls@,
                final(self).calls@,
                utag_spec(deref_all(old(stack)@), old(self).indent@, tag_path(*token), depth as nat),
            ),
        decreases depth, *token, 3int,
    {
        let path = match token {
            Token::ETag(p) => p,
            Token::UTag(p) => p,
            _ => {
                return Ok(());
            },
        };
        match self.find(path, stack) {
            Err(e) => Err(e),
            Ok(None) => {
                assert(out@ =~= old(out)@ + Seq::<char>::empty());
                Ok(())
            },
            Ok(Some(value)) => match value {
                Data::Str(v) => {
                    append_chars(out, &self.indent);
                    let cs = chars_of(v.as_str());
                    append_chars(out, &cs);
                    assert(out@ =~= old(out)@ + (old(self).indent@ + v@));
                    Ok(())
                },
                Data::Fun(f) => {
                    append_chars(out, &self.indent);
                    if depth == 0 {
                        return Err(Error::TooDeep);
                    }
                    let empty: Vec<char> = Vec::new();
                    let otag: Vec<char> = vec!['{', '{'];
                    let ctag: Vec<char> = vec!['}', '}'];
                    assert(empty@ =~= Seq::<char>::empty());
                    assert(otag@ =~= seq!['{', '{']);
                    assert(ctag@ =~= seq!['}', '}']);
                    let ghost calls0 = self.calls@;
                    let t = self.render_fun(&empty, &otag, &ctag, f);
                    let ghost calls1 = self.calls@;
                    assert(calls1[calls0.len() as int] == (empty@, otag@, ctag@));
                    match t {
                        Err(e) => Err(e),
                        Ok(tokens) => {
                            let r = self.render(out, stack, &tokens, depth - 1);
                            proof {
                                lemma_extends_keeps(calls0, calls1, self.calls@);
                                lemma_extends_trans(calls0, calls1, self.calls@);
                            }
                            r
                        },
                    }
                },
                _ => {
                    assert(out@ =~= old(out)@ + Seq::<char>::empty());
                    Ok(())
                },
            },
        }
    }

    /// Renders `children` when the value is missing, false or an empty list.
    fn render_inverted_section<'c>(
        &mut self,
        out: &mut Vec<char>,
        stack: &mut Vec<&'c Data>,
        path: &Vec<String>,
        children: &Vec<Token>,
        depth: usize,
    ) -> (r: Result<(), Error>)
        ensures
            final(self).template == old(self).template,
            final(self).indent@ == old(self).indent@,
            final(stack)@ == old(stack)@,
            extends(old(self).calls@, final(self).calls@),
            wrote(
                r,
                old(out)@,
                final(out)@,
                old(self).calls@,
                final(self).calls@,
                match find_spec(path@, deref_all(old(stack)@)) {
                    Err(e) => Err(Halt::Fail(e)),
                    Ok(v) => if shows_inverted(v) {
                        render_seq(
                            old(self).template.partials@,
                            deref_all(old(stack)@),
                            old(self).indent@,
                            *children,
                            children.len() as int,
                            depth as nat,
                        )
                    } else {
                        Ok(Seq::empty())
                    },
                },
            ),
        decreases depth, *children, 1int,
    {
        let shows = match self.find(path, stack) {
            Err(e) => {
                return Err(e);
            },
            Ok(None) => true,
            Ok(Some(Data::Bool(b))) => !*b,
            Ok(Some(Data::Vec(xs))) => xs.len() == 0,
            Ok(Some(_)) => false,
        };
        if shows {
            self.render(out, stack, children, depth)
        } else {
            assert(out@ =~= old(out)@ + Seq::<char>::empty());
            Ok(())
        }
    }

    /// Renders `children` by the value the path names: once for true, once per
    /// item of a list, once inside a table; a callback is handed the section's
    /// source text and delimiters, and its answer is compiled with those
    /// delimiters and rendered.
    fn render_section<'c>(
        &mut self,
        out: &mut Vec<char>,
        stack: &mut Vec<&'c Data>,
        path: &Vec<String>,
        children: &Vec<Token>,
        src: &Vec<char>,
        otag: &Vec<char>,
        ctag: &Vec<char>,
        depth: usize,
    ) -> (r: Result<(), Error>)
        ensures
            final(self).template == old(self).template,
            final(self).indent@ == old(self).indent@,
            final(stack)@ == old(stack)@,
            extends(old(self).calls@, final(self).calls@),
            wrote(
                r,
                old(out)@,
                final(out)@,
                old(self).calls@,
                final(self).calls@,
                render_tok(
                    old(self).template.partials@,
                    deref_all(old(stack)@),
                    old(self).indent@,
                    Token::Section {
                        path: *path,
                        inverted: false,
                        children: *children,
                        otag: *otag,
                        ctag: *ctag,
                        src: *src,
                    },
                    depth as nat,
                ),
            ),
        decreases depth, *children, 1int,
    {
        let ghost s0 = deref_all(stack@);
        let ghost ps = self.template.partials@;
        let ghost ind = self.indent@;
        let found = self.find(path, stack);
        match found {
            Err(e) => Err(e),
            Ok(None) => {
                assert(out@ =~= old(out)@ + Seq::<char>::empty());
                Ok(())
            },
            Ok(Some(value)) => match value {
                Data::Bool(b) => {
                    if *b {
                        self.render(out, stack, children, depth)
                    } else {
                        assert(out@ =~= old(out)@ + Seq::<char>::empty());
                        Ok(())
                    }
                },
                Data::Vec(vs) => {
                    assert(*value == Data::Vec(*vs));
                    assert(render_tok(ps, s0, ind, Token::Section {
                                path: *path,
                                inverted: false,
                                children: *children,
                                otag: *otag,
                                ctag: *ctag,
                                src: *src,
                            }, depth as nat) == render_each(ps, s0, ind, *children, vs@, vs@.len() as int, depth as nat));
                    let mut i: usize = 0;
                    while i < vs.len()
                        invariant
                            i <= vs.len(),
                            self.template == old(self).template,
                            self.indent@ == old(self).indent@,
                            stack@ == old(stack)@,
                            s0 == deref_all(old(stack)@),
                            ps == old(self).template.partials@,
                            ind == old(self).indent@,
                            extends(old(self).calls@, self.calls@),
                            render_tok(ps, s0, ind, Token::Section {
                                path: *path,
                                inverted: false,
                                children: *children,
                                otag: *otag,
                                ctag: *ctag,
                                src: *src,
                            }, depth as nat) == render_each(ps, s0, ind, *children, vs@, vs@.len() as int, depth as nat),
                            progress(
                                old(out)@,
                                out@,
                                old(self).calls@,
                                self.calls@,
                                render_each(ps, s0, ind, *children, vs@, i as int, depth as nat),
                            ),
                        decreases vs.len() - i,
                    {
                        let ghost calls_mid = self.calls@;
                        let item: &'c Data = &vs[i];
                        stack.push(item);
                        proof {
                            assert(deref_all(stack@) =~= s0.push(vs@[i as int]));
                        }
                        let r = self.render(out, stack, children, depth);
                        stack.pop();
                        proof {
                            lemma_extends_trans(old(self).calls@, calls_mid, self.calls@);
                            let pre = render_each(ps, s0, ind, *children, vs@, i as int, depth as nat);
                            let one = render_seq(ps, s0.push(vs@[i as int]), ind, *children, children.len() as int, depth as nat);
                            if pre is Ok {
                                assert(calls_mid == old(self).calls@);
                                if one is Ok {
                                    assert(out@ =~= old(out)@ + (pre->Ok_0 + one->Ok_0));
                                }
                            } else {
                                lemma_extends_keeps(old(self).calls@, calls_mid, self.calls@);
                            }
                        }
                        if r.is_err() {
                            proof {
                                lemma_each_err(ps, s0, ind, *children, vs@, i + 1, vs@.len() as int, depth as nat);
                            }
                            return r;
                        }
                        i = i + 1;
                    }
                    Ok(())
                },
                Data::Table(_) => {
                    stack.push(value);
                    proof {
                        assert(deref_all(stack@) =~= s0.push(*value));
                    }
                    let r = self.render(out, stack, children, depth);
                    stack.pop();
                    r
                },
                Data::Fun(f) => {
                    if depth == 0 {
                        return Err(Error::TooDeep);
                    }
                    let ghost calls0 = self.calls@;
                    let t = self.render_fun(src, otag, ctag, f);
                    let ghost calls1 = self.calls@;
                    match t {
                        Err(e) => Err(e),
                        Ok(tokens) => {
                            let r = self.render(out, stack, &tokens, depth - 1);
                            proof {
                                lemma_extends_keeps(calls0, calls1, self.calls@);
                                lemma_extends_trans(calls0, calls1, self.calls@);
                            }
                            r
                        },
                    }
                },
                Data::Str(_) => Err(Error::UnexpectedValue),
            },
        }
    }

    /// Renders the partial named `name`, its lines indented by the current
    /// indentation followed by `indent`. A partial that is not known renders nothing.
    fn render_partial<'c>(
        &mut self,
        out: &mut Vec<char>,
        stack: &mut Vec<&'c Data>,
        token: &Token,
        depth: usize,
    ) -> (r: Result<(), Error>)
        requires
            token is Partial,
        ensures
            final(self).template == old(self).template,
            final(self).indent@ == old(self).indent@,
            final(stack)@ == old(stack)@,
            extends(old(self).calls@, final(self).calls@),
            wrote(
                r,
                old(out)@,
                final(out)@,
                old(self).calls@,
                final(self).calls@,
                render_tok(
                    old(self).template.partials@,
                    deref_all(old(stack)@),
                    old(self).indent@,
                    *token,
                    depth as nat,
                ),
            ),
        decreases depth, *token, 4int,
    {
        let (name, indent) = match token {
            Token::Partial { name, indent } => (name, indent),
            _ => {
                return Ok(());
            },
        };
        let template: &'a Template = self.template;
        match partial_find(&template.partials, name) {
            None => {
                assert(out@ =~= old(out)@ + Seq::<char>::empty());
                Ok(())
            },
            Some(tokens) => {
                if depth == 0 {
                    return Err(Error::TooDeep);
                }
                let mut inner = slice_all(&self.indent);
                append_chars(&mut inner, indent);
                let saved = slice_all(&self.indent);
                self.indent = inner;
                let r = self.render(out, stack, tokens, depth - 1);
                self.indent = saved;
                r
            },
        }
    }

    /// Hands `src` to the callback, and compiles its answer with the given delimiters.
    fn render_fun(&mut self, src: &Vec<char>, otag: &Vec<char>, ctag: &Vec<char>, f: &Box<dyn Lambda>) -> (r: Result<
        Vec<Token>,
        Error,
    >)
        ensures
            final(self).template == old(self).template,
            final(self).indent@ == old(self).indent@,
            (otag@.len() == 0 || ctag@.len() == 0) ==> r == Err::<Vec<Token>, Error>(
                Error::UnexpectedValue,
            ) && final(self).calls@ == old(self).calls@,
            otag@.len() > 0 && ctag@.len() > 0 ==> final(self).calls@ == old(self).calls@.push(
                (src@, otag@, ctag@),
            ) && (r is Err ==> r == Err::<Vec<Token>, Error>(Error::UnbalancedSection)) && (r matches Ok(t)
                ==> exists|a: Seq<char>| compiled(a, otag@, ctag@) == Ok::<Seq<Event>, Error>(flat_seq(t@))),
    {
        if otag.len() == 0 || ctag.len() == 0 {
            return Err(Error::UnexpectedValue);
        }
        self.calls = Ghost(self.calls@.push((src@, otag@, ctag@)));
        let answer = f.call(string_of(src));
        let text = chars_of(answer.as_str());
        let r = parse(&text, otag, ctag);
        proof {
            if r is Ok {
                assert(compiled(text@, otag@, ctag@) == Ok::<Seq<Event>, Error>(flat_seq(r->Ok_0@)));
            }
        }
        r
    }
}

/// `r` is what rendering `t` against `data` returns, when rendering reaches no callback.
pub open spec fn render_post(t: Template, data: Data, r: Result<String, Error>) -> bool {
    match rendered(t, data) {
        Ok(o) => r is Ok && r->Ok_0@ == o,
        Err(Halt::Fail(e)) => r == Err::<String, Error>(e),
        Err(Halt::Call(_, _, _)) => true,
    }
}

/// Each partial that `evs` include and `known` lacks is named in `out`.
pub open spec fn covers(
    evs: Seq<Event>,
    known: Seq<(Vec<char>, Vec<Token>)>,
    out: Seq<String>,
) -> bool {
    forall|j: int| 0 <= j < evs.len() ==> named_if_missing(#[trigger] evs[j], known, out)
}

/// A partial event whose partial `known` lacks is named in `out`.
pub open spec fn named_if_missing(
    e: Event,
    known: Seq<(Vec<char>, Vec<Token>)>,
    out: Seq<String>,
) -> bool {
    match e {
        Event::Partial { name, .. } => partial_get(known, name) is None ==> exists|i: int|
            0 <= i < out.len() && (#[trigger] out[i])@ == name,
        _ => true,
    }
}

/// `b` begins with `a`.
pub open spec fn prefix_of(a: Seq<String>, b: Seq<String>) -> bool {
    a.len() <= b.len() && forall|i: int| 0 <= i < a.len() ==> b[i] == a[i]
}

proof fn lemma_covers_grow(
    evs: Seq<Event>,
    known: Seq<(Vec<char>, Vec<Token>)>,
    a: Seq<String>,
    b: Seq<String>,
)
    requires
        covers(evs, known, a),
        prefix_of(a, b),
    ensures
        covers(evs, known, b),
{
    assert forall|j: int| 0 <= j < evs.len() implies named_if_missing(#[trigger] evs[j], known, b) by {
        assert(named_if_missing(evs[j], known, a));
        match evs[j] {
            Event::Partial { name, .. } => {
                if partial_get(known, name) is None {
                    let i = choose|i: int| 0 <= i < a.len() && (#[trigger] a[i])@ == name;
                    assert(b[i] == a[i]);
                }
            },
            _ => {},
        }
    }
}

proof fn lemma_covers_concat(
    x: Seq<Event>,
    y: Seq<Event>,
    known: Seq<(Vec<char>, Vec<Token>)>,
    out: Seq<String>,
)
    requires
        covers(x, known, out),
        covers(y, known, out),
    ensures
        covers(x + y, known, out),
{
    assert forall|j: int| 0 <= j < (x + y).len() implies named_if_missing(#[trigger] (x + y)[j], known, out) by {
        if j < x.len() {
            assert((x + y)[j] == x[j]);
        } else {
            assert((x + y)[j] == y[j - x.len()]);
        }
    }
}

/// Appends to `out` the names of the partials that `toks` include, at any depth,
/// and that `known` lacks.
fn collect_missing(toks: &Vec<Token>, known: &Vec<(Vec<char>, Vec<Token>)>, out: &mut Vec<String>)
    ensures
        prefix_of(old(out)@, final(out)@),
        forall|i: int|
            old(out)@.len() <= i < final(out)@.len() ==> partial_get(known@, #[trigger] final(out)@[i]@)
                is None,
        covers(flat_seq(toks@), known@, final(out)@),
    decreases *toks,
{
    let mut k: usize = 0;
    assert(toks@.subrange(0, 0) =~= Seq::<Token>::empty());
    while k < toks.len()
        invariant
            k <= toks.len(),
            prefix_of(old(out)@, out@),
            forall|i: int|
                old(out)@.len() <= i < out@.len() ==> partial_get(known@, #[trigger] out@[i]@) is None,
            covers(flat_seq(toks@.subrange(0, k as int)), known@, out@),
        decreases toks.len() - k,
    {
        let ghost before = out@;
        let ghost done = flat_seq(toks@.subrange(0, k as int));
        let ghost tok = toks@[k as int];
        assert(toks@.subrange(0, k + 1).subrange(0, k as int) =~= toks@.subrange(0, k as int));
        assert(flat_seq(toks@.subrange(0, k + 1)) == done + flat_tok(tok));
        match &toks[k] {
            Token::Partial { name, indent } => {
                if partial_find(known, name).is_none() {
                    out.push(string_of(name));
                    assert(out@[before.len() as int]@ == name@);
                }
                proof {
                    lemma_covers_grow(done, known@, before, out@);
                }
                assert(named_if_missing(flat_tok(tok)[0], known@, out@));
                assert(covers(flat_tok(tok), known@, out@));
            },
            Token::Section { children, .. } => {
                assert(decreases_to!(*toks => toks@[k as int]));
                collect_missing(children, known, out);
                proof {
                    lemma_covers_grow(done, known@, before, out@);
                }
                let ghost inner = flat_seq(children@);
                assert(covers(flat_tok(tok), known@, out@)) by {
                    let o = flat_tok(tok);
                    assert forall|j: int| 0 <= j < o.len() implies named_if_missing(#[trigger] o[j], known@, out@) by {
                        if 0 < j < o.len() - 1 {
                            assert(o[j] == inner[j - 1]);
                            assert(named_if_missing(inner[j - 1], known@, out@));
                        }
                    }
                }
            },
            _ => {
                proof {
                    lemma_covers_grow(done, known@, before, out@);
                }
                assert(covers(flat_tok(tok), known@, out@)) by {
                    let o = flat_tok(tok);
                    assert(o.len() == 1);
                    assert(named_if_missing(o[0], known@, out@));
                }
            },
        }
        proof {
            lemma_covers_concat(done, flat_tok(tok), known@, out@);
        }
        k = k + 1;
    }
    assert(toks@.subrange(0, toks@.len() as int) =~= toks@);
}

impl Template {
    /// The names of the partials that the template or its known partials
    /// include and that have no tokens yet; a name may repeat.
    pub fn missing_partials(&self) -> (r: Vec<String>)
        ensures
            forall|i: int| 0 <= i < r@.len() ==> partial_get(self.partials@, #[trigger] r@[i]@) is None,
            covers(flat_seq(self.tokens@), self.partials@, r@),
            forall|k: int|
                0 <= k < self.partials@.len() ==> covers(
                    flat_seq((#[trigger] self.partials@[k]).1@),
                    self.partials@,
                    r@,
                ),
    {
        let mut out: Vec<String> = Vec::new();
        collect_missing(&self.tokens, &self.partials, &mut out);
        let mut i: usize = 0;
        while i < self.partials.len()
            invariant
                i <= self.partials.len(),
                forall|j: int| 0 <= j < out@.len() ==> partial_get(self.partials@, #[trigger] out@[j]@) is None,
                covers(flat_seq(self.tokens@), self.partials@, out@),
                forall|k: int|
                    0 <= k < i ==> covers(flat_seq((#[trigger] self.partials@[k]).1@), self.partials@, out@),
            decreases self.partials.len() - i,
        {
            let ghost before = out@;
            collect_missing(&self.partials[i].1, &self.partials, &mut out);
            proof {
                lemma_covers_grow(flat_seq(self.tokens@), self.partials@, before, out@);
            }
            assert forall|k: int|
                0 <= k < i + 1 implies covers(flat_seq((#[trigger] self.partials@[k]).1@), self.partials@, out@) by {
                if k < i {
                    lemma_covers_grow(flat_seq(self.partials@[k].1@), self.partials@, before, out@);
                }
            }
            i = i + 1;
        }
        out
    }

    /// Renders the template against `data`, returning the text written.
    pub fn render_data(&self, data: &Data) -> (r: Result<String, Error>)
        ensures
            render_post(*self, *data, r),
    {
        let mut ctx = RenderContext::new(self);
        let mut stack: Vec<&Data> = Vec::new();
        stack.push(data);
        let mut out: Vec<char> = Vec::new();
        proof {
            assert(ctx.indent@ =~= Seq::<char>::empty());
            assert(deref_all(stack@) =~= seq![*data]);
        }
        match ctx.render(&mut out, &mut stack, &self.tokens, MAX_DEPTH) {
            Ok(()) => {
                assert(out@ =~= Seq::<char>::empty() + out@);
                Ok(string_of(&out))
            },
            Err(e) => Err(e),
        }
    }

    /// Compiles `source` as the partial `name` and adds it to the template.
    pub fn add_partial(&mut self, name: &str, source: &str) -> (r: Result<(), Error>)
        ensures
            final(self).ctx == old(self).ctx,
            final(self).tokens == old(self).tokens,
            r is Ok ==> final(self).partials@.len() == old(self).partials@.len() + 1
                && final(self).partials@.drop_last() == old(self).partials@
                && final(self).partials@.last().0@ == name@,
            r is Err ==> final(self).partials == old(self).partials && r == Err::<(), Error>(
                Error::UnbalancedSection,
            ),
            r is Ok <==> compiled(source@, seq!['{', '{'], seq!['}', '}']) is Ok,
            r is Ok ==> flat_seq(final(self).partials@.last().1@) == compiled(
                source@,
                seq!['{', '{'],
                seq!['}', '}'],
            )->Ok_0,
    {
        let otag: Vec<char> = vec!['{', '{'];
        let ctag: Vec<char> = vec!['}', '}'];
        let text = chars_of(source);
        assert(otag@ =~= seq!['{', '{']);
        assert(ctag@ =~= seq!['}', '}']);
        match parse(&text, &otag, &ctag) {
            Ok(tokens) => {
                self.partials.push((chars_of(name), tokens));
                assert(self.partials@.drop_last() =~= old(self).partials@);
                Ok(())
            },
            Err(e) => Err(e),
        }
    }

    /// Whether a partial of that name is known.
    pub fn has_partial(&self, name: &str) -> (r: bool)
        ensures
            r == (partial_get(self.partials@, name@) is Some),
    {
        let n = chars_of(name);
        partial_find(&self.partials, &n).is_some()
    }
}

/// Rendering is a function of the template and the data: two renderings of one
/// template against one value that holds no callback give the same outcome,
/// the same text when both succeed.
pub proof fn render_is_repeatable(
    t: Template,
    data: Data,
    r1: Result<String, Error>,
    r2: Result<String, Error>,
)
    requires
        !has_fun(data),
        render_post(t, data, r1),
        render_post(t, data, r2),
    ensures
        r1 is Ok <==> r2 is Ok,
        r1 is Ok ==> r1->Ok_0@ == r2->Ok_0@,
        r1 is Err ==> r1 == r2,
{
    plain_data_reaches_no_callback(t, data);
}

/// For every value but text and callbacks, exactly one of a section and its
/// inverted twin shows the children: the inverted one renders them exactly when
/// the plain one does not.
pub proof fn inverted_is_complement(
    ps: Seq<(Vec<char>, Vec<Token>)>,
    s: Seq<Data>,
    indent: Seq<char>,
    path: Vec<String>,
    children: Vec<Token>,
    otag: Vec<char>,
    ctag: Vec<char>,
    src: Vec<char>,
    fuel: nat,
)
    requires
        find_spec(path@, s) is Ok,
        !(find_spec(path@, s)->Ok_0 matches Some(Data::Str(_))),
        !(find_spec(path@, s)->Ok_0 matches Some(Data::Fun(_))),
    ensures
        shows_section(find_spec(path@, s)->Ok_0) != shows_inverted(find_spec(path@, s)->Ok_0),
        render_tok(
            ps,
            s,
            indent,
            Token::Section { path, inverted: true, children, otag, ctag, src },
            fuel,
        ) == if shows_inverted(find_spec(path@, s)->Ok_0) {
            render_seq(ps, s, indent, children, children.len() as int, fuel)
        } else {
            Ok(Seq::empty())
        },
        !shows_section(find_spec(path@, s)->Ok_0) ==> render_tok(
            ps,
            s,
            indent,
            Token::Section { path, inverted: false, children, otag, ctag, src },
            fuel,
        ) == Ok::<Seq<char>, Halt>(Seq::empty()),
        find_spec(path@, s)->Ok_0 == Some(Data::Bool(true)) ==> render_tok(
            ps,
            s,
            indent,
            Token::Section { path, inverted: false, children, otag, ctag, src },
            fuel,
        ) == render_seq(ps, s, indent, children, children.len() as int, fuel),
{
    let v = find_spec(path@, s)->Ok_0;
    match v {
        Some(Data::Vec(items)) => {
            if items.len() == 0 {
                assert(render_each(ps, s, indent, children, items@, 0, fuel) == Ok::<
                    Seq<char>,
                    Halt,
                >(Seq::empty()));
            }
        },
        _ => {},
    }
}

/// Text that holds no newline is written as it stands in the middle of a line.
proof fn lemma_mid_line(ind: Seq<char>, l: Seq<char>, rest: Seq<char>)
    requires
        forall|i: int| 0 <= i < l.len() ==> l[i] != '\n',
    ensures
        indented(ind, l + rest, false) == l + indented(ind, rest, false),
    decreases l.len(),
{
    if l.len() > 0 {
        assert((l + rest).drop_first() =~= l.drop_first() + rest);
        lemma_mid_line(ind, l.drop_first(), rest);
        assert(l =~= seq![l[0]] + l.drop_first());
        assert(seq![l[0]] + (l.drop_first() + indented(ind, rest, false)) =~= l + indented(
            ind,
            rest,
            false,
        ));
    } else {
        assert(l + rest =~= rest);
        assert(l + indented(ind, rest, false) =~= indented(ind, rest, false));
    }
}

/// Each line of a partial's text that is not empty is written after the
/// indentation in force, and an empty line is written bare. Under nested
/// partials that indentation is the outer one followed by the inner one.
pub proof fn partial_indentation(
    outer: Seq<char>,
    inner: Seq<char>,
    line: Seq<char>,
    rest: Seq<char>,
)
    requires
        line.len() > 0,
        forall|i: int| 0 <= i < line.len() ==> line[i] != '\n',
    ensures
        indented(outer + inner, line + seq!['\n'] + rest, true) == outer + inner + line + seq!['\n']
            + indented(outer + inner, rest, true),
        indented(outer + inner, seq!['\n'] + rest, true) == seq!['\n'] + indented(
            outer + inner,
            rest,
            true,
        ),
{
    let ind = outer + inner;
    let nl = seq!['\n'] + rest;
    assert((seq!['\n'] + rest).drop_first() =~= rest);
    assert(indented(ind, nl, false) == seq!['\n'] + indented(ind, rest, true));
    assert(indented(ind, nl, true) == seq!['\n'] + indented(ind, rest, true));
    let t = line + seq!['\n'] + rest;
    assert(t =~= line + nl);
    assert(t.drop_first() =~= line.drop_first() + nl);
    lemma_mid_line(ind, line.drop_first(), nl);
    assert(indented(ind, t, true) == ind.push(line[0]) + indented(ind, t.drop_first(), false));
    assert(line =~= seq![line[0]] + line.drop_first());
    assert(ind.push(line[0]) + (line.drop_first() + (seq!['\n'] + indented(ind, rest, true)))
        =~= ind + line + seq!['\n'] + indented(ind, rest, true));
}

/// A partial renders its tokens under the indentation in force followed by the
/// indentation of its own tag.
pub proof fn partial_indent_accumulates(
    ps: Seq<(Vec<char>, Vec<Token>)>,
    s: Seq<Data>,
    outer: Seq<char>,
    name: Vec<char>,
    own: Vec<char>,
    fuel: nat,
)
    requires
        partial_get(ps, name@) is Some,
        fuel > 0,
    ensures
        render_tok(ps, s, outer, Token::Partial { name, indent: own }, fuel) == render_seq(
            ps,
            s,
            outer + own@,
            partial_get(ps, name@)->Some_0,
            partial_get(ps, name@)->Some_0.len() as int,
            (fuel - 1) as nat,
        ),
{
}

/// With no indentation in force, text is written as it stands.
proof fn lemma_indented_empty(t: Seq<char>, at_start: bool)
    ensures
        indented(Seq::empty(), t, at_start) == t,
    decreases t.len(),
{
    if t.len() > 0 {
        lemma_indented_empty(t.drop_first(), t[0] == '\n');
        assert(Seq::<char>::empty().push(t[0]) =~= seq![t[0]]);
        assert(seq![t[0]] + t.drop_first() =~= t);
    }
}

/// A template compiled from text without tags renders that text, whatever the data.
pub proof fn plain_text_renders_as_itself(t: Template, src: Seq<char>, data: Data)
    requires
        plain_text(src, t.tokens@),
    ensures
        rendered(t, data) == Ok::<Seq<char>, Halt>(src),
{
    lemma_indented_empty(src, true);
    if src.len() > 0 {
        assert(render_seq(t.partials@, seq![data], Seq::empty(), t.tokens, 0, MAX_DEPTH as nat)
            == Ok::<Seq<char>, Halt>(Seq::empty()));
        assert(render_tok(t.partials@, seq![data], Seq::empty(), t.tokens@[0], MAX_DEPTH as nat)
            == Ok::<Seq<char>, Halt>(src));
        assert(Seq::<char>::empty() + src =~= src);
    } else {
        assert(src =~= Seq::<char>::empty());
    }
}

/// No frame holds a callback.
pub open spec fn frames_plain(s: Seq<Data>) -> bool {
    forall|i: int| 0 <= i < s.len() ==> !has_fun(#[trigger] s[i])
}

proof fn lemma_table_get_member(t: Seq<(String, Data)>, key: Seq<char>)
    requires
        table_get(t, key) is Some,
    ensures
        exists|i: int| 0 <= i < t.len() && t[i].1 == table_get(t, key)->Some_0,
    decreases t.len(),
{
    if t[0].0@ != key {
        lemma_table_get_member(t.drop_first(), key);
        let i = choose|i: int|
            0 <= i < t.drop_first().len() && t.drop_first()[i].1 == table_get(t.drop_first(), key)->Some_0;
        assert(t[i + 1] == t.drop_first()[i]);
    }
}

proof fn lemma_get_plain(t: Vec<(String, Data)>, key: Seq<char>)
    requires
        !has_fun(Data::Table(t)),
        table_get(t@, key) is Some,
    ensures
        !has_fun(table_get(t@, key)->Some_0),
{
    lemma_table_get_member(t@, key);
    let i = choose|i: int| 0 <= i < t@.len() && t@[i].1 == table_get(t@, key)->Some_0;
    if has_fun(t@[i].1) {
        lemma_entry_fun(t, i);
    }
}

proof fn lemma_walk_plain(v: Data, path: Seq<String>, k: int)
    requires
        !has_fun(v),
        walk(v, path, k) is Some,
    ensures
        !has_fun(walk(v, path, k)->Some_0),
    decreases path.len() - k,
{
    if k < path.len() {
        match v {
            Data::Table(t) => {
                lemma_get_plain(t, path[k]@);
                lemma_walk_plain(table_get(t@, path[k]@)->Some_0, path, k + 1);
            },
            _ => {},
        }
    }
}

proof fn lemma_lookup_plain(s: Seq<Data>, key: Seq<char>, n: int)
    requires
        frames_plain(s),
        n <= s.len(),
        lookup_frames(s, key, n) matches Ok(Some(_)),
    ensures
        !has_fun(lookup_frames(s, key, n)->Ok_0->Some_0),
    decreases n,
{
    if n > 0 {
        assert(!has_fun(s[n - 1]));
        match s[n - 1] {
            Data::Table(t) => {
                if table_get(t@, key) is Some {
                    lemma_get_plain(t, key);
                } else {
                    lemma_lookup_plain(s, key, n - 1);
                }
            },
            _ => {},
        }
    }
}

proof fn lemma_find_plain(path: Seq<String>, s: Seq<Data>)
    requires
        frames_plain(s),
        find_spec(path, s) matches Ok(Some(_)),
    ensures
        !has_fun(find_spec(path, s)->Ok_0->Some_0),
{
    if path.len() == 0 {
        assert(!has_fun(s[s.len() - 1]));
    } else {
        lemma_lookup_plain(s, path[0]@, s.len() as int);
        lemma_walk_plain(lookup_frames(s, path[0]@, s.len() as int)->Ok_0->Some_0, path, 1);
    }
}

proof fn lemma_push_plain(s: Seq<Data>, d: Data)
    requires
        frames_plain(s),
        !has_fun(d),
    ensures
        frames_plain(s.push(d)),
{
    assert forall|i: int| 0 <= i < s.push(d).len() implies !has_fun(#[trigger] s.push(d)[i]) by {
        if i < s.len() {
            assert(s.push(d)[i] == s[i]);
        }
    }
}

proof fn lemma_seq_plain(
    ps: Seq<(Vec<char>, Vec<Token>)>,
    s: Seq<Data>,
    indent: Seq<char>,
    toks: Vec<Token>,
    n: int,
    fuel: nat,
)
    requires
        frames_plain(s),
    ensures
        !(render_seq(ps, s, indent, toks, n, fuel) matches Err(Halt::Call(_, _, _))),
    decreases fuel, toks, n,
{
    if 0 < n <= toks.len() {
        lemma_seq_plain(ps, s, indent, toks, n - 1, fuel);
        lemma_tok_plain(ps, s, indent, toks@[n - 1], fuel);
    }
}

proof fn lemma_each_plain(
    ps: Seq<(Vec<char>, Vec<Token>)>,
    s: Seq<Data>,
    indent: Seq<char>,
    children: Vec<Token>,
    items: Seq<Data>,
    k: int,
    fuel: nat,
)
    requires
        frames_plain(s),
        forall|i: int| 0 <= i < items.len() ==> !has_fun(#[trigger] items[i]),
    ensures
        !(render_each(ps, s, indent, children, items, k, fuel) matches Err(Halt::Call(_, _, _))),
    decreases fuel, children, children.len() + k + 1,
{
    if 0 < k <= items.len() {
        lemma_each_plain(ps, s, indent, children, items, k - 1, fuel);
        lemma_push_plain(s, items[k - 1]);
        lemma_seq_plain(ps, s.push(items[k - 1]), indent, children, children.len() as int, fuel);
    }
}

proof fn lemma_tok_plain(
    ps: Seq<(Vec<char>, Vec<Token>)>,
    s: Seq<Data>,
    indent: Seq<char>,
    tok: Token,
    fuel: nat,
)
    requires
        frames_plain(s),
    ensures
        !(render_tok(ps, s, indent, tok, fuel) matches Err(Halt::Call(_, _, _))),
    decreases fuel, tok, 0int,
{
    match tok {
        Token::ETag(path) => {
            if find_spec(path@, s) matches Ok(Some(_)) {
                lemma_find_plain(path@, s);
            }
        },
        Token::UTag(path) => {
            if find_spec(path@, s) matches Ok(Some(_)) {
                lemma_find_plain(path@, s);
            }
        },
        Token::Section { path, inverted, children, .. } => {
            if find_spec(path@, s) matches Ok(Some(_)) {
                lemma_find_plain(path@, s);
            }
            lemma_seq_plain(ps, s, indent, children, children.len() as int, fuel);
            if let Ok(Some(v)) = find_spec(path@, s) {
                match v {
                    Data::Vec(items) => {
                        assert forall|i: int| 0 <= i < items@.len() implies !has_fun(#[trigger] items@[i]) by {
                            if has_fun(items@[i]) {
                                lemma_item_fun(items, i);
                            }
                        }
                        lemma_each_plain(ps, s, indent, children, items@, items.len() as int, fuel);
                    },
                    Data::Table(t) => {
                        lemma_push_plain(s, Data::Table(t));
                        lemma_seq_plain(ps, s.push(Data::Table(t)), indent, children, children.len() as int, fuel);
                    },
                    _ => {},
                }
            }
        },
        Token::Partial { name, indent: own } => {
            if let Some(ptoks) = partial_get(ps, name@) {
                if fuel > 0 {
                    lemma_seq_plain(ps, s, indent + own@, ptoks, ptoks.len() as int, (fuel - 1) as nat);
                }
            }
        },
        _ => {},
    }
}

/// Data that holds no callback reaches none while rendering, so its rendering
/// is fully described, and the same on every pass.
pub proof fn plain_data_reaches_no_callback(t: Template, data: Data)
    requires
        !has_fun(data),
    ensures
        !(rendered(t, data) matches Err(Halt::Call(_, _, _))),
{
    assert(frames_plain(seq![data])) by {
        assert forall|i: int| 0 <= i < 1 implies !has_fun(#[trigger] seq![data][i]) by {}
    }
    lemma_seq_plain(t.partials@, seq![data], Seq::empty(), t.tokens, t.tokens.len() as int, MAX_DEPTH as nat);
}

} // verus!
