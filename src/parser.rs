use vstd::prelude::*;

use crate::chars::{
    all_blank, append_chars, chars_eq, find_from, first_occ, is_blank, occurs_at, occurs_at_exec,
    slice, string_of,
};
use crate::error::Error;

verus! {

/// One piece of a compiled template.
pub enum Token {
    /// Literal text, written as it stands.
    Text(Vec<char>),
    /// A variable whose value is HTML-escaped: `{{name}}`.
    ETag(Vec<String>),
    /// A variable written raw: `{{{name}}}` or `{{&name}}`.
    UTag(Vec<String>),
    /// A section with the delimiters in force at its open tag and its source text.
    Section {
        path: Vec<String>,
        inverted: bool,
        children: Vec<Token>,
        otag: Vec<char>,
        ctag: Vec<char>,
        src: Vec<char>,
    },
    /// An included partial, with the indentation of its standalone line.
    Partial { name: Vec<char>, indent: Vec<char> },
}

/// Whitespace that a tag body is trimmed of.
pub open spec fn is_space(c: char) -> bool {
    c == ' ' || c == '\t' || c == '\n' || c == '\r'
}

/// A section whose close tag has not been met yet.
struct Frame {
    tokens: Vec<Token>,
    name: Vec<char>,
    path: Vec<String>,
    inverted: bool,
    start: usize,
    otag: Vec<char>,
    ctag: Vec<char>,
}

/// `s` without its leading whitespace.
pub open spec fn trim_front(s: Seq<char>) -> Seq<char>
    decreases s.len(),
{
    if s.len() > 0 && is_space(s[0]) {
        trim_front(s.drop_first())
    } else {
        s
    }
}

/// `s` without its trailing whitespace.
pub open spec fn trim_back(s: Seq<char>) -> Seq<char>
    decreases s.len(),
{
    if s.len() > 0 && is_space(s.last()) {
        trim_back(s.drop_last())
    } else {
        s
    }
}

/// `s` without the whitespace at either end.
pub open spec fn trimmed(s: Seq<char>) -> Seq<char> {
    trim_back(trim_front(s))
}

/// `v` without the whitespace at either end.
pub fn trim(v: &Vec<char>) -> (r: Vec<char>)
    ensures
        r@ == trimmed(v@),
{
    let mut a: usize = 0;
    assert(v@.subrange(0, v@.len() as int) =~= v@);
    while a < v.len() && (v[a] == ' ' || v[a] == '\t' || v[a] == '\n' || v[a] == '\r')
        invariant
            a <= v.len(),
            trim_front(v@) == trim_front(v@.subrange(a as int, v@.len() as int)),
        decreases v.len() - a,
    {
        assert(v@.subrange(a as int, v@.len() as int).drop_first() =~= v@.subrange(
            a + 1,
            v@.len() as int,
        ));
        a = a + 1;
    }
    let ghost front = v@.subrange(a as int, v@.len() as int);
    assert(trim_front(front) == front);
    let mut b: usize = v.len();
    while b > a && (v[b - 1] == ' ' || v[b - 1] == '\t' || v[b - 1] == '\n' || v[b - 1] == '\r')
        invariant
            a <= b <= v.len(),
            front == v@.subrange(a as int, v@.len() as int),
            trim_back(front) == trim_back(v@.subrange(a as int, b as int)),
        decreases b,
    {
        assert(v@.subrange(a as int, b as int).drop_last() =~= v@.subrange(a as int, b - 1));
        assert(v@.subrange(a as int, b as int).last() == v@[b - 1]);
        b = b - 1;
    }
    proof {
        if b > a {
            assert(v@.subrange(a as int, b as int).last() == v@[b - 1]);
        }
    }
    slice(v, a, b)
}

/// `s` split at each `.`, `seg` being what precedes `s` in its first segment.
pub open spec fn split_dots(s: Seq<char>, seg: Seq<char>) -> Seq<Seq<char>>
    decreases s.len(),
{
    if s.len() == 0 {
        seq![seg]
    } else if s[0] == '.' {
        seq![seg] + split_dots(s.drop_first(), Seq::empty())
    } else {
        split_dots(s.drop_first(), seg.push(s[0]))
    }
}

/// The path a tag body names: a lone `.` is the empty path, the current scope.
pub open spec fn path_of(body: Seq<char>) -> Seq<Seq<char>> {
    if body == seq!['.'] {
        Seq::empty()
    } else {
        split_dots(body, Seq::empty())
    }
}

/// The segments of a path, as character sequences.
pub open spec fn path_view(p: Seq<String>) -> Seq<Seq<char>> {
    p.map_values(|x: String| x@)
}

/// A tag body split on `.`; a lone `.` names the current scope.
pub fn split_path(body: &Vec<char>) -> (r: Vec<String>)
    ensures
        path_view(r@) == path_of(body@),
{
    let mut path: Vec<String> = Vec::new();
    if body.len() == 1 && body[0] == '.' {
        assert(body@ =~= seq!['.']);
        assert(path_view(path@) =~= Seq::<Seq<char>>::empty());
        return path;
    }
    assert(body@ != seq!['.']);
    let mut seg: Vec<char> = Vec::new();
    let mut i: usize = 0;
    assert(body@.subrange(0, body@.len() as int) =~= body@);
    assert(path_view(path@) =~= Seq::<Seq<char>>::empty());
    assert(seg@ =~= Seq::<char>::empty());
    while i < body.len()
        invariant
            i <= body.len(),
            path_view(path@) + split_dots(body@.subrange(i as int, body@.len() as int), seg@)
                == split_dots(body@, Seq::empty()),
        decreases body.len() - i,
    {
        let ghost rest = body@.subrange(i as int, body@.len() as int);
        assert(rest.drop_first() =~= body@.subrange(i + 1, body@.len() as int));
        if body[i] == '.' {
            let ghost old_path = path@;
            let ghost old_seg = seg@;
            path.push(string_of(&seg));
            seg = Vec::new();
            assert(path_view(path@) =~= path_view(old_path) + seq![old_seg]);
            assert(seg@ =~= Seq::<char>::empty());
            assert(path_view(path@) + split_dots(body@.subrange(i + 1, body@.len() as int), seg@)
                =~= path_view(old_path) + (seq![old_seg] + split_dots(rest.drop_first(), Seq::empty())));
        } else {
            seg.push(body[i]);
        }
        i = i + 1;
    }
    let ghost old_path = path@;
    assert(body@.subrange(body@.len() as int, body@.len() as int) =~= Seq::<char>::empty());
    path.push(string_of(&seg));
    assert(path_view(path@) =~= path_view(old_path) + seq![seg@]);
    path
}

/// The first position at or after `j` that is not a blank or a carriage return.
pub open spec fn skip_blanks(s: Seq<char>, j: int) -> int
    decreases s.len() - j,
{
    if 0 <= j < s.len() && (s[j] == ' ' || s[j] == '\t' || s[j] == '\r') {
        skip_blanks(s, j + 1)
    } else {
        j
    }
}

/// Where the line of a tag at `[pos, end)` ends when the tag stands alone on it:
/// after its newline, or at the end of input. `None` when anything but blanks
/// shares the line.
pub open spec fn standalone_spec(src: Seq<char>, line_start: int, pos: int, end: int) -> Option<int> {
    if !all_blank(src, line_start, pos) {
        None
    } else {
        let j = skip_blanks(src, end);
        if j >= src.len() {
            Some(src.len() as int)
        } else if src[j] == '\n' {
            Some(j + 1)
        } else {
            None
        }
    }
}

/// Spaces, tabs and carriage returns: what may follow a standalone tag on its line.
pub open spec fn is_trailing(c: char) -> bool {
    c == ' ' || c == '\t' || c == '\r'
}

proof fn lemma_skip_blanks(s: Seq<char>, j: int)
    requires
        0 <= j <= s.len(),
    ensures
        j <= skip_blanks(s, j) <= s.len(),
        forall|i: int| j <= i < skip_blanks(s, j) ==> is_trailing(#[trigger] s[i]),
        skip_blanks(s, j) < s.len() ==> !is_trailing(s[skip_blanks(s, j)]),
    decreases s.len() - j,
{
    if j < s.len() && is_trailing(s[j]) {
        lemma_skip_blanks(s, j + 1);
    }
}

/// What a standalone tag's line holds: only blanks before the tag, and after it
/// only blanks up to the end of input, or up to the newline that ends the line.
pub proof fn standalone_means_alone(src: Seq<char>, line_start: int, pos: int, end: int)
    requires
        0 <= line_start <= pos < end <= src.len(),
        standalone_spec(src, line_start, pos, end) is Some,
    ensures
        all_blank(src, line_start, pos),
        standalone_spec(src, line_start, pos, end) matches Some(e) && ((e == src.len() && forall|i: int|
            end <= i < e ==> is_trailing(#[trigger] src[i])) || (end < e && src[e - 1] == '\n'
            && forall|i: int| end <= i < e - 1 ==> is_trailing(#[trigger] src[i]))),
{
    lemma_skip_blanks(src, end);
}

/// Where the line of a standalone tag ends: after its newline, or at the end of input.
/// `None` when something other than blanks shares the line with the tag.
fn standalone_end(src: &Vec<char>, line_start: usize, pos: usize, end: usize) -> (r: Option<usize>)
    requires
        line_start <= pos < end <= src.len(),
    ensures
        r == (match standalone_spec(src@, line_start as int, pos as int, end as int) {
            Some(e) => Some(e as usize),
            None => None::<usize>,
        }),
        match r {
            Some(e) => end <= e <= src.len(),
            None => true,
        },
        standalone_spec(src@, line_start as int, pos as int, end as int) matches Some(e) ==> end
            <= e <= src.len(),
{
    let mut i: usize = line_start;
    while i < pos
        invariant
            line_start <= i <= pos,
            pos < end <= src.len(),
            all_blank(src@, line_start as int, i as int),
        decreases pos - i,
    {
        if !(src[i] == ' ' || src[i] == '\t') {
            assert(!is_blank(src@[i as int]));
            assert(!all_blank(src@, line_start as int, pos as int));
            return None;
        }
        i = i + 1;
    }
    let mut j: usize = end;
    while j < src.len() && (src[j] == ' ' || src[j] == '\t' || src[j] == '\r')
        invariant
            end <= j <= src.len(),
            skip_blanks(src@, end as int) == skip_blanks(src@, j as int),
        decreases src.len() - j,
    {
        j = j + 1;
    }
    if j == src.len() {
        Some(j)
    } else if src[j] == '\n' {
        Some(j + 1)
    } else {
        None
    }
}

/// A sigil that gives a tag its kind.
pub open spec fn is_sigil(c: char) -> bool {
    c == '#' || c == '^' || c == '/' || c == '!' || c == '>' || c == '&' || c == '='
}

/// The tag opening at `pos`: its sigil (`{` for a triple tag, a space for a
/// plain variable), its trimmed body, and where it ends. `None` when no close
/// delimiter follows.
#[verifier::opaque]
pub open spec fn tag_spec(src: Seq<char>, pos: int, otag: Seq<char>, ctag: Seq<char>) -> Option<
    (char, Seq<char>, int),
> {
    let start = pos + otag.len();
    if start < src.len() && src[start] == '{' {
        match first_occ(src, start + 1, seq!['}'] + ctag) {
            Some(k) => Some(('{', trimmed(src.subrange(start + 1, k)), k + 1 + ctag.len())),
            None => match first_occ(src, start + 1, ctag) {
                None => None,
                Some(k) => Some(('{', trimmed(src.subrange(start + 1, k)), k + ctag.len())),
            },
        }
    } else {
        match first_occ(src, start, ctag) {
            None => None,
            Some(k) => if k > start && is_sigil(src[start]) {
                Some((src[start], trimmed(src.subrange(start + 1, k)), k + ctag.len()))
            } else {
                Some((' ', trimmed(src.subrange(start, k)), k + ctag.len()))
            },
        }
    }
}

/// A triple tag whose body starts at `start`: it ends at `}` and the close delimiter.
fn scan_triple(src: &Vec<char>, start: usize, ctag: &Vec<char>) -> (r: Option<
    (char, Vec<char>, usize),
>)
    requires
        start < src.len(),
        ctag.len() > 0,
    ensures
        match r {
            Some((sigil, body, end)) => start < end <= src.len() && sigil == '{' && (match first_occ(src@, start + 1, seq!['}'] + ctag@) {
                Some(k) => body@ == trimmed(src@.subrange(start + 1, k)) && end == k + 1 + ctag@.len(),
                None => (first_occ(src@, start + 1, ctag@) matches Some(k) && body@ == trimmed(src@.subrange(start + 1, k)) && end == k + ctag@.len()),
            }),
            None => first_occ(src@, start + 1, seq!['}'] + ctag@) is None && first_occ(src@, start + 1, ctag@) is None,
        },
{
    let mut close: Vec<char> = Vec::new();
    close.push('}');
    append_chars(&mut close, ctag);
    assert(close@ =~= seq!['}'] + ctag@);
    match find_from(src, start + 1, &close) {
        Some(k) => Some(('{', trim(&slice(src, start + 1, k)), k + close.len())),
        None => match find_from(src, start + 1, ctag) {
            None => None,
            Some(k) => Some(('{', trim(&slice(src, start + 1, k)), k + ctag.len())),
        },
    }
}

/// The tag that opens at `pos`: its sigil, its trimmed body and where it ends.
/// `None` when no close delimiter follows.
#[verifier::rlimit(50)]
fn scan_tag(src: &Vec<char>, pos: usize, otag: &Vec<char>, ctag: &Vec<char>) -> (r: Option<
    (char, Vec<char>, usize),
>)
    requires
        occurs_at(src@, pos as int, otag@),
        otag.len() > 0,
        ctag.len() > 0,
    ensures
        match r {
            Some((sigil, body, end)) => pos < end <= src.len() && ((sigil == '#' || sigil == '^'
                || sigil == '/' || sigil == '=') ==> pos + otag.len() < src.len() && src@[pos
                + otag.len()] == sigil) && tag_spec(
                src@,
                pos as int,
                otag@,
                ctag@,
            ) == Some((sigil, body@, end as int)),
            None => tag_spec(src@, pos as int, otag@, ctag@) is None,
        },
{
    proof {
        reveal(tag_spec);
    }
    let start = pos + otag.len();
    if start < src.len() && src[start] == '{' {
        scan_triple(src, start, ctag)
    } else {
        match find_from(src, start, ctag) {
            None => None,
            Some(k) => {
                if k > start {
                    let c = src[start];
                    if c == '#' || c == '^' || c == '/' || c == '!' || c == '>' || c == '&' || c
                        == '=' {
                        let body = slice(src, start + 1, k);
                        return Some((c, trim(&body), k + ctag.len()));
                    }
                }
                let body = slice(src, start, k);
                Some((' ', trim(&body), k + ctag.len()))
            },
        }
    }
}

/// The first position at or after `k` that holds a blank.
pub open spec fn first_blank(s: Seq<char>, k: int) -> int
    decreases s.len() - k,
{
    if 0 <= k < s.len() && !(s[k] == ' ' || s[k] == '\t') {
        first_blank(s, k + 1)
    } else {
        k
    }
}

/// The two delimiters a `=` tag sets, from its body after the first `=`.
pub open spec fn delims_spec(body: Seq<char>) -> Option<(Seq<char>, Seq<char>)> {
    if body.len() == 0 || body.last() != '=' {
        None
    } else {
        let inner = trimmed(body.drop_last());
        let k = first_blank(inner, 0);
        let o = inner.subrange(0, k);
        let c = trimmed(inner.subrange(k, inner.len() as int));
        if o.len() == 0 || c.len() == 0 {
            None
        } else {
            Some((o, c))
        }
    }
}

/// The two delimiters of a `{{=<% %>=}}` tag, from its body after the first `=`.
fn parse_delims(body: &Vec<char>) -> (r: Option<(Vec<char>, Vec<char>)>)
    ensures
        match r {
            Some((o, c)) => o.len() > 0 && c.len() > 0 && delims_spec(body@) == Some((o@, c@)),
            None => delims_spec(body@) is None,
        },
{
    if body.len() == 0 || body[body.len() - 1] != '=' {
        return None;
    }
    let inner_raw = slice(body, 0, body.len() - 1);
    assert(inner_raw@ =~= body@.drop_last());
    let inner = trim(&inner_raw);
    let mut k: usize = 0;
    while k < inner.len() && !(inner[k] == ' ' || inner[k] == '\t')
        invariant
            k <= inner.len(),
            first_blank(inner@, 0) == first_blank(inner@, k as int),
        decreases inner.len() - k,
    {
        k = k + 1;
    }
    let o = slice(&inner, 0, k);
    let rest = slice(&inner, k, inner.len());
    let c = trim(&rest);
    if o.len() == 0 || c.len() == 0 {
        None
    } else {
        Some((o, c))
    }
}

fn flush(tokens: &mut Vec<Token>, text: Vec<char>)
    ensures
        text.len() == 0 ==> final(tokens)@ == old(tokens)@,
        text.len() > 0 ==> final(tokens)@ == old(tokens)@.push(Token::Text(text)),
{
    if text.len() > 0 {
        tokens.push(Token::Text(text));
    }
}

/// A compiled template read in document order: each token in turn, a section
/// as its open marker, its children and its close marker.
pub enum Event {
    Text(Seq<char>),
    Escaped(Seq<Seq<char>>),
    Raw(Seq<Seq<char>>),
    Open { path: Seq<Seq<char>>, inverted: bool, otag: Seq<char>, ctag: Seq<char> },
    Close { src: Seq<char> },
    Partial { name: Seq<char>, indent: Seq<char> },
}

/// The events of a token sequence.
pub open spec fn flat_seq(toks: Seq<Token>) -> Seq<Event>
    decreases toks, 1int,
{
    if toks.len() == 0 {
        Seq::empty()
    } else {
        flat_seq(toks.subrange(0, toks.len() - 1)) + flat_tok(toks[toks.len() - 1])
    }
}

/// The events of one token.
pub open spec fn flat_tok(t: Token) -> Seq<Event>
    decreases t, 0int,
{
    match t {
        Token::Text(v) => seq![Event::Text(v@)],
        Token::ETag(p) => seq![Event::Escaped(path_view(p@))],
        Token::UTag(p) => seq![Event::Raw(path_view(p@))],
        Token::Section { path, inverted, children, otag, ctag, src } => seq![
            Event::Open { path: path_view(path@), inverted, otag: otag@, ctag: ctag@ },
        ] + flat_seq(children@) + seq![Event::Close { src: src@ }],
        Token::Partial { name, indent } => seq![Event::Partial { name: name@, indent: indent@ }],
    }
}

/// The events so far, with pending text written out when there is any.
pub open spec fn flush_ev(events: Seq<Event>, text: Seq<char>) -> Seq<Event> {
    if text.len() > 0 {
        events.push(Event::Text(text))
    } else {
        events
    }
}

/// Compiling `src` from position `pos` on, with the line in progress starting
/// at `line_start`, the delimiters `otag` and `ctag` in force, `text` not yet
/// written, `events` written, and the sections in `open` (name, where its
/// body starts) not yet closed. Literal text accumulates until a tag; a
/// standalone tag takes its line with it; a close tag must name the innermost
/// open section, and none may stay open at the end.
pub open spec fn go(
    src: Seq<char>,
    pos: int,
    line_start: int,
    otag: Seq<char>,
    ctag: Seq<char>,
    text: Seq<char>,
    events: Seq<Event>,
    open: Seq<(Seq<char>, int)>,
) -> Result<Seq<Event>, Error>
    decreases src.len() - pos, 1int,
{
    if pos < 0 || pos >= src.len() {
        if open.len() > 0 {
            Err(Error::UnbalancedSection)
        } else {
            Ok(flush_ev(events, text))
        }
    } else {
        let c = src[pos];
        let tag = if occurs_at(src, pos, otag) {
            tag_spec(src, pos, otag, ctag)
        } else {
            None
        };
        match tag {
            None => go(
                src,
                pos + 1,
                if c == '\n' {
                    pos + 1
                } else {
                    line_start
                },
                otag,
                ctag,
                text.push(c),
                events,
                open,
            ),
            Some((sigil, body, end)) => go_tag(
                src,
                pos,
                line_start,
                otag,
                ctag,
                text,
                events,
                open,
                sigil,
                body,
                end,
            ),
        }
    }
}

/// Compiling on from a tag at `pos` with the given sigil and body, ending at `end`.
pub open spec fn go_tag(
    src: Seq<char>,
    pos: int,
    line_start: int,
    otag: Seq<char>,
    ctag: Seq<char>,
    text: Seq<char>,
    events: Seq<Event>,
    open: Seq<(Seq<char>, int)>,
    sigil: char,
    body: Seq<char>,
    end: int,
) -> Result<Seq<Event>, Error>
    decreases src.len() - pos, 0int,
{
    let sa = if sigil == '#' || sigil == '^' || sigil == '/' || sigil == '!' || sigil == '>'
        || sigil == '=' {
        standalone_spec(src, line_start, pos, end)
    } else {
        None
    };
    let indent = if sa is Some {
        src.subrange(line_start, pos)
    } else {
        Seq::empty()
    };
    let text2 = if sa is Some && text.len() >= pos - line_start {
        text.subrange(0, text.len() - (pos - line_start))
    } else {
        text
    };
    let next = match sa {
        Some(e) => e,
        None => end,
    };
    let ev = flush_ev(events, text2);
    let ls2 = if next > end {
        next
    } else {
        line_start
    };
    if !(0 <= pos < next <= src.len()) {
        Err(Error::UnbalancedSection)
    } else if sigil == '#' || sigil == '^' {
        go(
            src,
            next,
            ls2,
            otag,
            ctag,
            Seq::empty(),
            ev.push(Event::Open { path: path_of(body), inverted: sigil == '^', otag, ctag }),
            open.push((body, end)),
        )
    } else if sigil == '/' {
        if open.len() == 0 || open.last().0 != body {
            Err(Error::UnbalancedSection)
        } else {
            go(
                src,
                next,
                ls2,
                otag,
                ctag,
                Seq::empty(),
                ev.push(Event::Close { src: src.subrange(open.last().1, pos) }),
                open.drop_last(),
            )
        }
    } else if sigil == '>' {
        go(src, next, ls2, otag, ctag, Seq::empty(), ev.push(Event::Partial { name: body, indent }), open)
    } else if sigil == '=' {
        match delims_spec(body) {
            Some((o, cl)) => go(src, next, ls2, o, cl, Seq::empty(), ev, open),
            None => go(src, next, ls2, otag, ctag, Seq::empty(), ev, open),
        }
    } else if sigil == '{' || sigil == '&' {
        go(src, next, ls2, otag, ctag, Seq::empty(), ev.push(Event::Raw(path_of(body))), open)
    } else if sigil == ' ' {
        go(src, next, ls2, otag, ctag, Seq::empty(), ev.push(Event::Escaped(path_of(body))), open)
    } else {
        go(src, next, ls2, otag, ctag, Seq::empty(), ev, open)
    }
}

/// What compiling `src` gives: its events, or the error.
pub open spec fn compiled(src: Seq<char>, otag: Seq<char>, ctag: Seq<char>) -> Result<
    Seq<Event>,
    Error,
> {
    go(src, 0, 0, otag, ctag, Seq::empty(), Seq::empty(), Seq::empty())
}

/// The events of the sections still open, each with the tokens before it.
spec fn frames_events(frames: Seq<Frame>) -> Seq<Event>
    decreases frames.len(),
{
    if frames.len() == 0 {
        Seq::empty()
    } else {
        let f = frames.last();
        frames_events(frames.drop_last()) + flat_seq(f.tokens@) + seq![
            Event::Open { path: path_view(f.path@), inverted: f.inverted, otag: f.otag@, ctag: f.ctag@ },
        ]
    }
}

spec fn open_of(frames: Seq<Frame>) -> Seq<(Seq<char>, int)> {
    frames.map_values(|f: Frame| (f.name@, f.start as int))
}

proof fn lemma_flat_push(s: Seq<Token>, t: Token)
    ensures
        flat_seq(s.push(t)) == flat_seq(s) + flat_tok(t),
{
    assert(s.push(t).subrange(0, s.len() as int) =~= s);
}

/// The opening delimiter occurs nowhere in `src`.
pub open spec fn no_tag(src: Seq<char>, otag: Seq<char>) -> bool {
    forall|j: int| !occurs_at(src, j, otag)
}

/// `toks` is `src` as one text token, or nothing when `src` is empty.
pub open spec fn plain_text(src: Seq<char>, toks: Seq<Token>) -> bool {
    &&& src.len() == 0 ==> toks.len() == 0
    &&& src.len() > 0 ==> toks.len() == 1 && (toks[0] matches Token::Text(t) && t@ == src)
}

/// No tag in `src` opens or closes a section or changes the delimiters.
pub open spec fn section_free(src: Seq<char>, otag: Seq<char>) -> bool {
    forall|j: int|
        #![trigger occurs_at(src, j, otag)]
        occurs_at(src, j, otag) && j + otag.len() < src.len() ==> {
            let c = src[j + otag.len()];
            c != '#' && c != '^' && c != '/' && c != '='
        }
}

/// Handles the tag at `*pos` with the given sigil and body, ending at `end`:
/// one step of compiling, as `go_tag` describes it.
#[verifier::rlimit(100)]
fn handle_tag(
    src: &Vec<char>,
    tokens_r: &mut Vec<Token>,
    frames_r: &mut Vec<Frame>,
    text_r: &mut Vec<char>,
    pos_r: &mut usize,
    ls_r: &mut usize,
    otag_r: &mut Vec<char>,
    ctag_r: &mut Vec<char>,
    sigil: char,
    body: Vec<char>,
    end: usize,
) -> (r: Result<(), Error>)
    requires
        *old(pos_r) < end <= src.len(),
        *old(ls_r) <= *old(pos_r),
        old(otag_r).len() > 0,
        old(ctag_r).len() > 0,
        occurs_at(src@, *old(pos_r) as int, old(otag_r)@),
        tag_spec(src@, *old(pos_r) as int, old(otag_r)@, old(ctag_r)@) == Some((sigil, body@, end as int)),
        forall|i: int| 0 <= i < old(frames_r)@.len() ==> #[trigger] old(frames_r)@[i].start <= *old(pos_r),
        forall|i: int|
            0 <= i < old(frames_r)@.len() ==> path_view((#[trigger] old(frames_r)@[i]).path@) == path_of(
                old(frames_r)@[i].name@,
            ),
    ensures
        r is Err ==> sigil == '/' && r == Err::<(), Error>(Error::UnbalancedSection)
            && go_tag(src@, *old(pos_r) as int, *old(ls_r) as int, old(otag_r)@, old(ctag_r)@, old(text_r)@,
                frames_events(old(frames_r)@) + flat_seq(old(tokens_r)@), open_of(old(frames_r)@), sigil, body@, end as int)
                == Err::<Seq<Event>, Error>(Error::UnbalancedSection),
        r is Ok ==> go_tag(src@, *old(pos_r) as int, *old(ls_r) as int, old(otag_r)@, old(ctag_r)@, old(text_r)@,
            frames_events(old(frames_r)@) + flat_seq(old(tokens_r)@), open_of(old(frames_r)@), sigil, body@, end as int)
            == go(src@, *final(pos_r) as int, *final(ls_r) as int, final(otag_r)@, final(ctag_r)@, final(text_r)@,
                frames_events(final(frames_r)@) + flat_seq(final(tokens_r)@), open_of(final(frames_r)@)),
        r is Ok ==> *old(pos_r) < *final(pos_r) <= src.len() && *final(ls_r) <= *final(pos_r)
            && final(otag_r).len() > 0 && final(ctag_r).len() > 0,
        r is Ok ==> forall|i: int| 0 <= i < final(frames_r)@.len() ==> #[trigger] final(frames_r)@[i].start <= *final(pos_r),
        r is Ok ==> forall|i: int|
            0 <= i < final(frames_r)@.len() ==> path_view((#[trigger] final(frames_r)@[i]).path@) == path_of(
                final(frames_r)@[i].name@,
            ),
        (sigil != '#' && sigil != '^' && sigil != '/' && sigil != '=') ==> final(otag_r)@ == old(otag_r)@
            && final(frames_r)@ == old(frames_r)@,
{
    let mut tokens: Vec<Token> = Vec::new();
    std::mem::swap(&mut tokens, tokens_r);
    let mut frames: Vec<Frame> = Vec::new();
    std::mem::swap(&mut frames, frames_r);
    let mut text: Vec<char> = Vec::new();
    std::mem::swap(&mut text, text_r);
    let mut otag: Vec<char> = Vec::new();
    std::mem::swap(&mut otag, otag_r);
    let mut ctag: Vec<char> = Vec::new();
    std::mem::swap(&mut ctag, ctag_r);
    let mut pos: usize = *pos_r;
    let mut line_start: usize = *ls_r;
    let ghost g_events = frames_events(frames@) + flat_seq(tokens@);
    let ghost g_open = open_of(frames@);
    let ghost g_text = text@;
    let ghost g_ls = line_start as int;
    let ghost g_pos = pos as int;
    let ghost g_otag = otag@;
    let ghost g_ctag = ctag@;
    let ghost g_body = body@;
    let standalone = if sigil == '#' || sigil == '^' || sigil == '/' || sigil == '!'
        || sigil == '>' || sigil == '=' {
        standalone_end(src, line_start, pos, end)
    } else {
        None
    };
    let mut indent: Vec<char> = Vec::new();
    let next = match standalone {
        Some(e) => {
            indent = slice(src, line_start, pos);
            let blanks = pos - line_start;
            if text.len() >= blanks {
                text.truncate(text.len() - blanks);
                assert(text@ =~= g_text.subrange(0, g_text.len() - (pos - g_ls)));
            }
            e
        },
        None => end,
    };
    assert(indent@ =~= (if standalone is Some {
        src@.subrange(g_ls, pos as int)
    } else {
        Seq::<char>::empty()
    }));
    let ghost text2 = text@;
    let ghost sa_spec = if sigil == '#' || sigil == '^' || sigil == '/' || sigil == '!'
        || sigil == '>' || sigil == '=' {
        standalone_spec(src@, g_ls, g_pos, end as int)
    } else {
        None
    };
    assert(standalone is Some <==> sa_spec is Some);
    assert(next as int == match sa_spec {
        Some(e) => e,
        None => end as int,
    });
    assert(text2 == (if sa_spec is Some && g_text.len() >= g_pos - g_ls {
        g_text.subrange(0, g_text.len() - (g_pos - g_ls))
    } else {
        g_text
    }));
    assert(g_pos < next <= src@.len());
    let ghost ev = flush_ev(g_events, text2);
    let t = text;
    text = Vec::new();
    let ghost before_flush = tokens@;
    flush(&mut tokens, t);
    proof {
        if text2.len() > 0 {
            lemma_flat_push(before_flush, Token::Text(t));
        }
        assert(frames_events(frames@) + flat_seq(tokens@) =~= ev);
    }
    assert(text@.len() == 0);
    let ghost ls2 = if next > end {
        next as int
    } else {
        g_ls
    };
    if sigil == '#' || sigil == '^' {
        let path = split_path(&body);
        let frame = Frame {
            tokens,
            name: body,
            path,
            inverted: sigil == '^',
            start: end,
            otag: slice(&otag, 0, otag.len()),
            ctag: slice(&ctag, 0, ctag.len()),
        };
        proof {
            assert(otag@.subrange(0, otag@.len() as int) =~= otag@);
            assert(ctag@.subrange(0, ctag@.len() as int) =~= ctag@);
        }
        let ghost old_frames = frames@;
        frames.push(frame);
        tokens = Vec::new();
        proof {
            assert(frames@.drop_last() =~= old_frames);
            assert(frames_events(frames@) + flat_seq(tokens@) =~= ev.push(
                Event::Open { path: path_of(g_body), inverted: sigil == '^', otag: otag@, ctag: ctag@ },
            ));
            assert(open_of(frames@) =~= g_open.push((g_body, end as int)));
            assert(go_tag(src@, g_pos, g_ls, g_otag, g_ctag, g_text, g_events, g_open, sigil, g_body, end as int) == go(src@, next as int, ls2, g_otag, g_ctag, Seq::empty(), ev.push(
                Event::Open { path: path_of(g_body), inverted: sigil == '^', otag: g_otag, ctag: g_ctag },
            ), g_open.push((g_body, end as int))));
        }
    } else if sigil == '/' {
        let ghost old_frames = frames@;
        match frames.pop() {
            None => {
                return Err(Error::UnbalancedSection);
            },
            Some(f) => {
                assert(g_open.last() == (f.name@, f.start as int));
                if !chars_eq(&f.name, &body) {
                    return Err(Error::UnbalancedSection);
                }
                let children = tokens;
                tokens = f.tokens;
                let raw = slice(src, f.start, pos);
                let sec = Token::Section {
                    path: f.path,
                    inverted: f.inverted,
                    children,
                    otag: f.otag,
                    ctag: f.ctag,
                    src: raw,
                };
                let ghost parent = tokens@;
                tokens.push(sec);
                proof {
                    lemma_flat_push(parent, sec);
                    assert(frames@ =~= old_frames.drop_last());
                    assert(frames_events(frames@) + flat_seq(tokens@) =~= ev.push(
                        Event::Close { src: src@.subrange(g_open.last().1, pos as int) },
                    ));
                    assert(open_of(frames@) =~= g_open.drop_last());
                    assert(go_tag(src@, g_pos, g_ls, g_otag, g_ctag, g_text, g_events, g_open, sigil, g_body, end as int) == go(src@, next as int, ls2, g_otag, g_ctag, Seq::empty(), ev.push(
                        Event::Close { src: src@.subrange(g_open.last().1, g_pos) },
                    ), g_open.drop_last()));
                }
            },
        }
    } else if sigil == '>' {
        let ghost before = tokens@;
        tokens.push(Token::Partial { name: body, indent });
        proof {
            lemma_flat_push(before, Token::Partial { name: body, indent });
            assert(frames_events(frames@) + flat_seq(tokens@) =~= ev.push(
                Event::Partial { name: g_body, indent: indent@ },
            ));
            assert(go_tag(src@, g_pos, g_ls, g_otag, g_ctag, g_text, g_events, g_open, sigil, g_body, end as int) == go(src@, next as int, ls2, g_otag, g_ctag, Seq::empty(), ev.push(
                Event::Partial { name: g_body, indent: indent@ },
            ), g_open));
        }
    } else if sigil == '=' {
        match parse_delims(&body) {
            Some((o, cl)) => {
                otag = o;
                ctag = cl;
                assert(go_tag(src@, g_pos, g_ls, g_otag, g_ctag, g_text, g_events, g_open, sigil, g_body, end as int) == go(src@, next as int, ls2, otag@, ctag@, Seq::empty(), ev, g_open));
            },
            None => {
                assert(go_tag(src@, g_pos, g_ls, g_otag, g_ctag, g_text, g_events, g_open, sigil, g_body, end as int) == go(src@, next as int, ls2, g_otag, g_ctag, Seq::empty(), ev, g_open));
            },
        }
    } else if sigil == '{' || sigil == '&' {
        let p = split_path(&body);
        let ghost before = tokens@;
        tokens.push(Token::UTag(p));
        proof {
            lemma_flat_push(before, Token::UTag(p));
            assert(frames_events(frames@) + flat_seq(tokens@) =~= ev.push(
                Event::Raw(path_of(g_body)),
            ));
            assert(go_tag(src@, g_pos, g_ls, g_otag, g_ctag, g_text, g_events, g_open, sigil, g_body, end as int) == go(src@, next as int, ls2, g_otag, g_ctag, Seq::empty(), ev.push(
                Event::Raw(path_of(g_body)),
            ), g_open));
        }
    } else if sigil == ' ' {
        let p = split_path(&body);
        let ghost before = tokens@;
        tokens.push(Token::ETag(p));
        proof {
            lemma_flat_push(before, Token::ETag(p));
            assert(frames_events(frames@) + flat_seq(tokens@) =~= ev.push(
                Event::Escaped(path_of(g_body)),
            ));
            assert(go_tag(src@, g_pos, g_ls, g_otag, g_ctag, g_text, g_events, g_open, sigil, g_body, end as int) == go(src@, next as int, ls2, g_otag, g_ctag, Seq::empty(), ev.push(
                Event::Escaped(path_of(g_body)),
            ), g_open));
        }
    } else {
        assert(go_tag(src@, g_pos, g_ls, g_otag, g_ctag, g_text, g_events, g_open, sigil, g_body, end as int) == go(src@, next as int, ls2, g_otag, g_ctag, Seq::empty(), ev, g_open));
    }
    if next > end {
        line_start = next;
    }
    pos = next;
    std::mem::swap(&mut tokens, tokens_r);
    std::mem::swap(&mut frames, frames_r);
    std::mem::swap(&mut text, text_r);
    std::mem::swap(&mut otag, otag_r);
    std::mem::swap(&mut ctag, ctag_r);
    *pos_r = pos;
    *ls_r = line_start;
    Ok(())
}

/// Compiles `src` into tokens, starting with the delimiters `otag0` and `ctag0`.
/// A close tag that does not name the innermost open section, and a section
/// left open at the end, are errors.
#[verifier::rlimit(100)]
pub fn parse(src: &Vec<char>, otag0: &Vec<char>, ctag0: &Vec<char>) -> (r: Result<
    Vec<Token>,
    Error,
>)
    requires
        otag0.len() > 0,
        ctag0.len() > 0,
    ensures
        r is Ok <==> compiled(src@, otag0@, ctag0@) is Ok,
        r matches Ok(t) ==> flat_seq(t@) == compiled(src@, otag0@, ctag0@)->Ok_0,
        r is Err ==> r == Err::<Vec<Token>, Error>(Error::UnbalancedSection),
        no_tag(src@, otag0@) ==> r is Ok && plain_text(src@, r->Ok_0@),
        section_free(src@, otag0@) ==> r is Ok,
{
    let mut otag = slice(otag0, 0, otag0.len());
    let mut ctag = slice(ctag0, 0, ctag0.len());
    assert(otag0@.subrange(0, otag0@.len() as int) =~= otag0@);
    assert(ctag0@.subrange(0, ctag0@.len() as int) =~= ctag0@);
    let mut tokens: Vec<Token> = Vec::new();
    let mut frames: Vec<Frame> = Vec::new();
    let mut text: Vec<char> = Vec::new();
    let mut pos: usize = 0;
    let mut line_start: usize = 0;
    let ghost no_tags = no_tag(src@, otag0@);
    let ghost flat = section_free(src@, otag0@);
    let ghost target = compiled(src@, otag0@, ctag0@);
    assert(frames_events(frames@) + flat_seq(tokens@) =~= Seq::<Event>::empty());
    assert(open_of(frames@) =~= Seq::<(Seq<char>, int)>::empty());
    assert(text@ =~= Seq::<char>::empty());
    while pos < src.len()
        invariant
            pos <= src.len(),
            line_start <= pos,
            otag.len() > 0,
            ctag.len() > 0,
            forall|i: int| 0 <= i < frames@.len() ==> #[trigger] frames@[i].start <= pos,
            forall|i: int|
                0 <= i < frames@.len() ==> path_view((#[trigger] frames@[i]).path@) == path_of(
                    frames@[i].name@,
                ),
            target == compiled(src@, otag0@, ctag0@),
            go(
                src@,
                pos as int,
                line_start as int,
                otag@,
                ctag@,
                text@,
                frames_events(frames@) + flat_seq(tokens@),
                open_of(frames@),
            ) == target,
            no_tags == no_tag(src@, otag0@),
            flat == section_free(src@, otag0@),
            flat ==> otag@ == otag0@ && frames@.len() == 0,
            no_tags ==> otag@ == otag0@ && frames@.len() == 0 && tokens@.len() == 0 && text@
                == src@.subrange(0, pos as int),
        decreases src.len() - pos,
    {
        let ghost g_events = frames_events(frames@) + flat_seq(tokens@);
        let ghost g_open = open_of(frames@);
        let ghost g_text = text@;
        let ghost g_ls = line_start as int;
        let ghost g_pos = pos as int;
        let ghost g_otag = otag@;
        let ghost g_ctag = ctag@;
        let ghost g_go = go(src@, g_pos, g_ls, g_otag, g_ctag, g_text, g_events, g_open);
        let c = src[pos];
        let tag = if occurs_at_exec(src, pos, &otag) {
            scan_tag(src, pos, &otag, &ctag)
        } else {
            None
        };
        match tag {
            None => {
                text.push(c);
                pos = pos + 1;
                if c == '\n' {
                    line_start = pos;
                }
                assert(no_tags ==> text@ =~= src@.subrange(0, pos as int));
                assert(g_go == go(src@, pos as int, line_start as int, otag@, ctag@, text@, g_events, g_open));
            },
            Some((sigil, body, end)) => {
                assert(occurs_at(src@, g_pos, g_otag));
                assert(tag_spec(src@, g_pos, g_otag, g_ctag) == Some((sigil, body@, end as int)));
                let ghost g_body = body@;
                assert(g_go == go_tag(src@, g_pos, g_ls, g_otag, g_ctag, g_text, g_events, g_open, sigil, g_body, end as int));
                let r = handle_tag(
                    src,
                    &mut tokens,
                    &mut frames,
                    &mut text,
                    &mut pos,
                    &mut line_start,
                    &mut otag,
                    &mut ctag,
                    sigil,
                    body,
                    end,
                );
                if r.is_err() {
                    return Err(Error::UnbalancedSection);
                }
            },
        }
    }
    if frames.len() > 0 {
        return Err(Error::UnbalancedSection);
    }
    assert(no_tags ==> text@ =~= src@);
    let ghost before = tokens@;
    let ghost pending = text@;
    let last = text;
    flush(&mut tokens, last);
    proof {
        if pending.len() > 0 {
            lemma_flat_push(before, Token::Text(last));
        }
        assert(frames_events(frames@) =~= Seq::<Event>::empty());
        assert(flat_seq(tokens@) =~= flush_ev(frames_events(frames@) + flat_seq(before), pending));
    }
    Ok(tokens)
}

} // verus!
